use documents::decimal::to_decimal;
use documents::filename::{assemble, parse_filepath, parse_i64};

#[test]
fn test_decompose_plain() {
    let (stem, counter, ext) = parse_filepath("plain.txt");
    assert_eq!(stem, "plain");
    assert_eq!(counter, None);
    assert_eq!(ext, Some(".txt".to_string()));
}

#[test]
fn test_decompose_noext() {
    let (stem, counter, ext) = parse_filepath("noext");
    assert_eq!(stem, "noext");
    assert_eq!(counter, None);
    assert_eq!(ext, None);
}

#[test]
fn test_decompose_counter() {
    let (stem, counter, ext) = parse_filepath("file(1).txt");
    assert_eq!(stem, "file");
    assert_eq!(counter, Some(1));
    assert_eq!(ext, Some(".txt".to_string()));
}

#[test]
fn test_decompose_full_path() {
    let (stem, counter, ext) = parse_filepath("/home/user/Downloads/report(12).pdf");
    assert_eq!(stem, "report");
    assert_eq!(counter, Some(12));
    assert_eq!(ext, Some(".pdf".to_string()));
}

#[test]
fn test_decompose_padded_counter_not_stripped() {
    // "(01)" parses as 1 but "(1)" is not a suffix, so the stem keeps it.
    let (stem, counter, ext) = parse_filepath("file(01).txt");
    assert_eq!(stem, "file(01)");
    assert_eq!(counter, Some(1));
    assert_eq!(ext, Some(".txt".to_string()));
}

#[test]
fn test_decompose_reversed_brackets() {
    // The last `(` comes after the last `)`: no counter is recognized.
    let (stem, counter, ext) = parse_filepath("a)b(c.txt");
    assert_eq!(stem, "a)b(c");
    assert_eq!(counter, None);
    assert_eq!(ext, Some(".txt".to_string()));
}

#[test]
fn test_decompose_unrelated_parens() {
    // Text between the brackets that is no integer leaves the name alone.
    let (stem, counter, ext) = parse_filepath("holiday (copy).jpg");
    assert_eq!(stem, "holiday (copy)");
    assert_eq!(counter, None);
    assert_eq!(ext, Some(".jpg".to_string()));
}

#[test]
fn test_decompose_hidden_file() {
    let (stem, counter, ext) = parse_filepath(".bashrc");
    assert_eq!(stem, ".bashrc");
    assert_eq!(counter, None);
    assert_eq!(ext, None);
}

#[test]
fn test_decompose_trailing_dot() {
    let (stem, counter, ext) = parse_filepath("foo.");
    assert_eq!(stem, "foo.");
    assert_eq!(counter, None);
    assert_eq!(ext, None);
}

#[test]
fn test_decompose_negative_counter() {
    let (stem, counter, ext) = parse_filepath("file(-2)");
    assert_eq!(stem, "file");
    assert_eq!(counter, Some(-2));
    assert_eq!(ext, None);
}

#[test]
fn test_assemble_names() {
    assert_eq!(assemble("file", 1, ".txt"), "file(1).txt");
    assert_eq!(assemble("file", 10, ""), "file(10)");
    assert_eq!(assemble("file", 2, "."), "file(2)");
    assert_eq!(assemble("a(1)", 2, ".png"), "a(1)(2).png");
}

#[test]
fn test_to_decimal() {
    assert_eq!(to_decimal(0), "0");
    assert_eq!(to_decimal(42), "42");
    assert_eq!(to_decimal(-7), "-7");
    assert_eq!(to_decimal(i64::MAX), "9223372036854775807");
    assert_eq!(to_decimal(i64::MIN), "-9223372036854775808");
}

#[test]
fn test_parse_i64() {
    assert_eq!(parse_i64("123"), Some(123));
    assert_eq!(parse_i64("+7"), Some(7));
    assert_eq!(parse_i64("-2"), Some(-2));
    assert_eq!(parse_i64("(1"), None);
    assert_eq!(parse_i64(""), None);
    assert_eq!(parse_i64("12a"), None);
    assert_eq!(parse_i64("9223372036854775807"), Some(i64::MAX));
    assert_eq!(parse_i64("9223372036854775808"), None);
    assert_eq!(parse_i64("-9223372036854775808"), Some(i64::MIN));
    assert_eq!(parse_i64("-9223372036854775809"), None);
}
