use serial_plotter::baud::Baud;
use serial_plotter::fake_serial_comms::{get_available_port_names, FakeSerialHandler};
use serial_plotter::multi_line::SerialDataMultiLine;

#[test]
fn test_fake_serial_comms() {
    let mut test_instance = FakeSerialHandler::new();

    assert_eq!(test_instance.process_serial_data(), None);
    assert_eq!(test_instance.process_serial_data(), None);
    assert_eq!(test_instance.process_serial_data(), None);
    assert_eq!(test_instance.process_serial_data(), None);

    assert_eq!(
        test_instance.process_serial_data().unwrap(),
        "0, 50, 100, -50"
    );

    assert_eq!(test_instance.process_serial_data(), None);
    assert_eq!(test_instance.process_serial_data(), None);
    assert_eq!(test_instance.process_serial_data(), None);
    assert_eq!(test_instance.process_serial_data(), None);

    assert_eq!(
        test_instance.process_serial_data().unwrap(),
        "1, 51, 101, -49"
    );
}

#[test]
fn fake_values_wrap_around() {
    let mut handler = FakeSerialHandler::new();
    let mut lines: Vec<String> = Vec::new();
    while lines.len() < 29 {
        if let Some(line) = handler.process_serial_data() {
            lines.push(line);
        }
    }
    assert_eq!(lines[27], "27, 77, 127, -23");
    assert_eq!(lines[28], "28, 78, -128, -22");
}

#[test]
fn fake_lines_fill_a_store() {
    let mut handler = FakeSerialHandler::new();
    let mut store = SerialDataMultiLine::new();
    for _ in 0..10 {
        if let Some(line) = handler.process_serial_data() {
            store.add_new_data(&line).unwrap();
        }
    }
    assert_eq!(store.line_count(), 4);
    assert_eq!(store.get_vec(0), Some(vec![(0, 0), (1, 1)]));
    assert_eq!(store.get_vec(3), Some(vec![(0, -50), (1, -49)]));
}

#[test]
fn fake_port_is_the_only_port() {
    assert_eq!(
        get_available_port_names(),
        Some((vec!["Fake Port".to_string()], vec!["Fake Port".to_string()]))
    );
}

#[test]
fn baud_rates_and_labels() {
    let all = Baud::all();
    let rates: Vec<u32> = all.iter().map(|b| b.rate()).collect();
    assert_eq!(
        rates,
        vec![
            110, 300, 600, 1200, 2400, 4800, 9600, 14400, 19200, 38400, 57600, 115200, 128000,
            256000
        ]
    );
    assert_eq!(Baud::default(), Baud::BAUD115200);
    assert_eq!(Baud::BAUD9600.label(), "9600");
    assert_eq!(Baud::default().label(), "115200");
    let rate: u32 = Baud::BAUD300.into();
    assert_eq!(rate, 300);
    assert_eq!(u32::from(Baud::BAUD256000), 256000);
}
