use serial_plotter::text::{format_decimal, str_chars, string_from_chars};
use serial_plotter::tokenizer::{is_space_char, tokenize};

#[test]
fn empty_record_has_no_fields() {
    assert_eq!(tokenize("").unwrap(), Vec::<i32>::new());
    assert_eq!(tokenize("   ").unwrap(), Vec::<i32>::new());
    assert_eq!(tokenize("\r\n").unwrap(), Vec::<i32>::new());
    assert_eq!(tokenize(",").unwrap(), Vec::<i32>::new());
    assert_eq!(tokenize(" , ,, ").unwrap(), Vec::<i32>::new());
}

#[test]
fn fields_are_trimmed() {
    assert_eq!(tokenize("1, 2,3 , 4").unwrap(), vec![1, 2, 3, 4]);
    assert_eq!(tokenize("1, 2, 3, 4\n\r").unwrap(), vec![1, 2, 3, 4]);
    assert_eq!(tokenize("\t7\u{a0},\u{3000}8\u{2003}").unwrap(), vec![7, 8]);
}

#[test]
fn empty_tokens_are_dropped() {
    assert_eq!(tokenize("1,,2").unwrap(), vec![1, 2]);
    assert_eq!(tokenize(",1,2,").unwrap(), vec![1, 2]);
    assert_eq!(tokenize("1, ,2\r\n").unwrap(), vec![1, 2]);
}

#[test]
fn first_bad_token_is_reported() {
    assert_eq!(tokenize("1,x,2").unwrap_err().token, "x");
    assert_eq!(tokenize("1, 2 3 ,y").unwrap_err().token, "2 3");
    assert_eq!(tokenize("a,b").unwrap_err().token, "a");
    assert_eq!(tokenize("5,-").unwrap_err().token, "-");
    assert_eq!(tokenize("+").unwrap_err().token, "+");
    assert_eq!(tokenize("1.5").unwrap_err().token, "1.5");
    assert_eq!(tokenize("--1").unwrap_err().token, "--1");
    assert_eq!(tokenize("1-").unwrap_err().token, "1-");
    assert_eq!(tokenize("0x10").unwrap_err().token, "0x10");
    assert_eq!(tokenize("\u{663}").unwrap_err().token, "\u{663}");
}

#[test]
fn signs_and_leading_zeros() {
    assert_eq!(tokenize("-5,+6,007,-0,+0").unwrap(), vec![-5, 6, 7, 0, 0]);
    assert_eq!(tokenize("0, 50, 100, -50").unwrap(), vec![0, 50, 100, -50]);
}

#[test]
fn values_are_held_to_32_bits() {
    assert_eq!(
        tokenize("2147483647,-2147483648").unwrap(),
        vec![i32::MAX, i32::MIN]
    );
    assert_eq!(tokenize("2147483648").unwrap_err().token, "2147483648");
    assert_eq!(tokenize("-2147483649").unwrap_err().token, "-2147483649");
    assert_eq!(
        tokenize("1,99999999999999999999999999").unwrap_err().token,
        "99999999999999999999999999"
    );
    assert_eq!(
        tokenize("0000000000000000000000000012").unwrap(),
        vec![12]
    );
}

#[test]
fn tokenize_agrees_with_the_standard_library() {
    let records = [
        "1,2,3",
        " 12 , -7,+3 ",
        "\r\n",
        "4,,5,",
        "2147483647",
        "-2147483648",
        "000",
    ];
    for record in records {
        let expected: Vec<i32> = record
            .trim()
            .split(',')
            .map(|s| s.trim())
            .filter(|s| !s.is_empty())
            .map(|s| s.parse().unwrap())
            .collect();
        assert_eq!(tokenize(record).unwrap(), expected);
    }
}

#[test]
fn white_space_is_what_the_standard_library_says() {
    for code in 0..0x3100u32 {
        if let Some(c) = char::from_u32(code) {
            assert_eq!(is_space_char(c), c.is_whitespace());
        }
    }
    assert_eq!(is_space_char('\u{10ffff}'), false);
}

#[test]
fn decimal_text_of_integers() {
    assert_eq!(format_decimal(0), "0");
    assert_eq!(format_decimal(7), "7");
    assert_eq!(format_decimal(-50), "-50");
    assert_eq!(format_decimal(115200), "115200");
    assert_eq!(format_decimal(i64::MAX), "9223372036854775807");
    assert_eq!(format_decimal(i64::MIN), "-9223372036854775808");
    for n in [-1001i64, -10, -9, 9, 10, 99, 100, 1234567890] {
        assert_eq!(format_decimal(n), n.to_string());
        assert_eq!(tokenize(&format_decimal(n)).unwrap(), vec![n as i32]);
    }
}

#[test]
fn characters_of_a_string_and_back() {
    let chars = str_chars("a\u{e9}\u{1f600}b");
    assert_eq!(chars, vec!['a', '\u{e9}', '\u{1f600}', 'b']);
    assert_eq!(string_from_chars(&chars, 1, 3), "\u{e9}\u{1f600}");
    assert_eq!(string_from_chars(&chars, 0, 4), "a\u{e9}\u{1f600}b");
    assert_eq!(string_from_chars(&chars, 2, 2), "");
    assert_eq!(str_chars(""), Vec::<char>::new());
}
