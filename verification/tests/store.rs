use serial_plotter::multi_line::SerialDataMultiLine;
use serial_plotter::single_line::WindowPolicy;

fn as_floats(points: Vec<(i64, i64)>) -> Vec<(f64, f64)> {
    points.into_iter().map(|(x, y)| (x as f64, y as f64)).collect()
}

#[test]
fn test_new_multi_line_is_empty() {
    // Define a new object to run the tests
    let multiline_instance = SerialDataMultiLine::new();

    // Assert that a single line already exists
    assert!(multiline_instance.line_count() == 1);

    // Assert that the line is empty
    let line_contents = as_floats(multiline_instance.line(0).get_vec());
    assert_eq!(line_contents, vec![]);
}

#[test]
fn test_add_value_to_first_line() {
    // Define a new object to run the tests
    let mut multiline_instance = SerialDataMultiLine::new();

    // Add a new value to the line
    multiline_instance.add_new_data("1\n\r").unwrap();

    // Check that there is still only one line
    assert_eq!(multiline_instance.line_count(), 1);

    // Check that the line has the new number in it
    let line_contents = as_floats(multiline_instance.line(0).get_vec());
    assert_eq!(line_contents, vec![(0.0, 1.0)]);
}

#[test]
fn test_create_second_line() {
    // Define a new object to run the tests
    let mut multiline_instance = SerialDataMultiLine::new();

    // Add a value to the first line
    multiline_instance.add_new_data("1\n\r").unwrap();

    // Check that there is still only one line
    assert_eq!(multiline_instance.line_count(), 1);

    // Send text with two values to process, forcing the creation of a second line
    multiline_instance.add_new_data("1, 2\n\r").unwrap();

    // Check there are now two lines
    assert_eq!(multiline_instance.line_count(), 2);

    // Get the two lines and check they have the correct values
    let line_0_vec = as_floats(multiline_instance.line(0).get_vec());
    let line_1_vec = as_floats(multiline_instance.line(1).get_vec());

    assert_eq!(line_0_vec, vec![(0.0, 1.0), (1.0, 1.0)]);
    assert_eq!(line_1_vec, vec![(1.0, 2.0)]);
}

#[test]
fn test_add_three_lines_at_once() {
    // Define a new object to run the tests
    let mut multiline_instance = SerialDataMultiLine::new();

    // Add new data
    multiline_instance.add_new_data("1, 2, 3, 4\n\r").unwrap();

    // Check the line count is correct
    assert_eq!(multiline_instance.line_count(), 4);

    // Check the line values are correct
    let line_0_vec = as_floats(multiline_instance.line(0).get_vec());
    let line_1_vec = as_floats(multiline_instance.line(1).get_vec());
    let line_2_vec = as_floats(multiline_instance.line(2).get_vec());
    let line_3_vec = as_floats(multiline_instance.line(3).get_vec());

    assert_eq!(line_0_vec, vec![(0.0, 1.0)]);
    assert_eq!(line_1_vec, vec![(0.0, 2.0)]);
    assert_eq!(line_2_vec, vec![(0.0, 3.0)]);
    assert_eq!(line_3_vec, vec![(0.0, 4.0)]);
}

#[test]
fn new_store_has_the_default_configuration() {
    let store = SerialDataMultiLine::new();
    assert_eq!(store.line_count(), 1);
    assert_eq!(store.x_counter(), 0);
    assert_eq!(
        store.window_policy(),
        WindowPolicy::PositionBounded { max_age: 30 }
    );
    assert_eq!(store.get_vec(0), Some(vec![]));
    assert_eq!(store.get_vec(1), None);
}

#[test]
fn series_count_grows_with_the_field_count() {
    let mut store =
        SerialDataMultiLine::with_config(WindowPolicy::PositionBounded { max_age: 30 }, 0, 0);
    assert_eq!(store.line_count(), 0);
    store.add_new_data("1").unwrap();
    assert_eq!(store.line_count(), 1);
    store.add_new_data("1,2").unwrap();
    assert_eq!(store.line_count(), 2);
    store.add_new_data("1,2,3,4").unwrap();
    assert_eq!(store.line_count(), 4);
    assert_eq!(store.get_vec(0), Some(vec![(0, 1), (1, 1), (2, 1)]));
    assert_eq!(store.get_vec(1), Some(vec![(1, 2), (2, 2)]));
    assert_eq!(store.get_vec(2), Some(vec![(2, 3)]));
    assert_eq!(store.get_vec(3), Some(vec![(2, 4)]));
    assert_eq!(store.x_counter(), 3);
}

#[test]
fn short_record_leaves_the_other_series_without_a_point() {
    let mut store = SerialDataMultiLine::new();
    store.add_new_data("1,2,3").unwrap();
    store.add_new_data("7").unwrap();
    assert_eq!(store.line_count(), 3);
    assert_eq!(store.get_vec(0), Some(vec![(0, 1), (1, 7)]));
    assert_eq!(store.get_vec(1), Some(vec![(0, 2)]));
    assert_eq!(store.get_vec(2), Some(vec![(0, 3)]));
    assert_eq!(store.x_counter(), 2);
}

#[test]
fn malformed_record_leaves_the_store_as_it_was() {
    let mut store = SerialDataMultiLine::new();
    store.add_new_data("1,2").unwrap();
    let error = store.add_new_data("3,x,5,6").unwrap_err();
    assert_eq!(error.token, "x");
    assert_eq!(store.line_count(), 2);
    assert_eq!(store.x_counter(), 1);
    assert_eq!(store.get_vec(0), Some(vec![(0, 1)]));
    assert_eq!(store.get_vec(1), Some(vec![(0, 2)]));
}

#[test]
fn record_without_fields_does_not_move_the_position() {
    let mut store = SerialDataMultiLine::new();
    store.add_new_data("").unwrap();
    store.add_new_data("\r\n").unwrap();
    store.add_new_data(" , ").unwrap();
    assert_eq!(store.x_counter(), 0);
    assert_eq!(store.line_count(), 1);
    assert_eq!(store.get_vec(0), Some(vec![]));
    store.add_new_data("4").unwrap();
    assert_eq!(store.get_vec(0), Some(vec![(0, 4)]));
    assert_eq!(store.x_counter(), 1);
}

#[test]
fn separators_at_the_ends_make_no_fields() {
    let mut store = SerialDataMultiLine::new();
    store.add_new_data(",5,,6,").unwrap();
    assert_eq!(store.line_count(), 2);
    assert_eq!(store.get_vec(0), Some(vec![(0, 5)]));
    assert_eq!(store.get_vec(1), Some(vec![(0, 6)]));
}

#[test]
fn position_window_ages_out_every_series() {
    let mut store =
        SerialDataMultiLine::with_config(WindowPolicy::PositionBounded { max_age: 5 }, 1, 0);
    store.add_new_data("100,200").unwrap();
    store.add_new_data("101,201").unwrap();
    for i in 2..10 {
        store.add_new_data(&format!("{}", 100 + i)).unwrap();
    }
    assert_eq!(store.x_counter(), 10);
    assert_eq!(
        store.get_vec(0),
        Some(vec![(5, 105), (6, 106), (7, 107), (8, 108), (9, 109)])
    );
    assert_eq!(store.get_vec(1), Some(vec![]));
    for idx in 0..store.line_count() {
        assert!(store.line(idx).get_vec().iter().all(|(x, _)| *x >= 5));
    }
}

#[test]
fn stale_series_ages_out_step_by_step() {
    let mut store =
        SerialDataMultiLine::with_config(WindowPolicy::PositionBounded { max_age: 3 }, 0, 0);
    store.add_new_data("1,2").unwrap();
    store.add_new_data("1,2").unwrap();
    store.add_new_data("1").unwrap();
    assert_eq!(store.get_vec(1), Some(vec![(0, 2), (1, 2)]));
    store.add_new_data("1").unwrap();
    assert_eq!(store.get_vec(1), Some(vec![(1, 2)]));
    store.add_new_data("1").unwrap();
    assert_eq!(store.get_vec(1), Some(vec![]));
    assert_eq!(store.get_vec(0), Some(vec![(2, 1), (3, 1), (4, 1)]));
}

#[test]
fn default_window_holds_thirty_positions() {
    let mut store = SerialDataMultiLine::new();
    for i in 0..31 {
        store.add_new_data(&format!("{}", i)).unwrap();
    }
    let points = store.get_vec(0).unwrap();
    assert_eq!(points.len(), 30);
    assert_eq!(points[0], (1, 1));
    assert_eq!(points[29], (30, 30));
}

#[test]
fn count_bounded_store_keeps_the_latest_points() {
    let mut store =
        SerialDataMultiLine::with_config(WindowPolicy::CountBounded { max_points: 3 }, 1, 0);
    store.add_new_data("0,9").unwrap();
    for i in 1..4 {
        store.add_new_data(&format!("{}", i)).unwrap();
    }
    assert_eq!(store.get_vec(0), Some(vec![(1, 1), (2, 2), (3, 3)]));
    assert_eq!(store.get_vec(1), Some(vec![(0, 9)]));
    assert_eq!(
        store.window_policy(),
        WindowPolicy::CountBounded { max_points: 3 }
    );
}

#[test]
fn store_starts_at_the_configured_position() {
    let mut store =
        SerialDataMultiLine::with_config(WindowPolicy::PositionBounded { max_age: 2 }, 2, -7);
    assert_eq!(store.line_count(), 2);
    assert_eq!(store.x_counter(), -7);
    store.add_new_data("3,4,5").unwrap();
    store.add_new_data("6").unwrap();
    store.add_new_data("7").unwrap();
    assert_eq!(store.x_counter(), -4);
    assert_eq!(store.get_vec(0), Some(vec![(-6, 6), (-5, 7)]));
    assert_eq!(store.get_vec(1), Some(vec![]));
    assert_eq!(store.get_vec(2), Some(vec![]));
}

#[test]
fn snapshots_of_a_store_repeat() {
    let mut store = SerialDataMultiLine::new();
    store.add_new_data("1,2").unwrap();
    store.add_new_data("3,4").unwrap();
    let first: Vec<_> = (0..store.line_count()).map(|i| store.line(i).snapshot()).collect();
    let second: Vec<_> = (0..store.line_count()).map(|i| store.line(i).snapshot()).collect();
    assert_eq!(first, second);
    assert_eq!(store.get_vec(1), Some(vec![(0, 2), (1, 4)]));
}
