use mandelbrot::pair::split_pair;

fn chars(s: &str) -> Vec<char> {
    s.chars().collect()
}

fn split(s: &str, separator: char) -> Option<(String, String)> {
    split_pair(&chars(s), separator)
        .map(|(l, r)| (l.into_iter().collect(), r.into_iter().collect()))
}

#[test]
fn split_empty_has_no_pair() {
    assert_eq!(split("", ','), None);
}

#[test]
fn split_without_separator() {
    assert_eq!(split("1020", ','), None);
    assert_eq!(split("0.5", 'x'), None);
}

#[test]
fn split_two_numbers() {
    assert_eq!(split("10,20", ','), Some(("10".to_string(), "20".to_string())));
    assert_eq!(split("0.5x1.5", 'x'), Some(("0.5".to_string(), "1.5".to_string())));
}

#[test]
fn split_empty_halves() {
    assert_eq!(split("10,", ','), Some(("10".to_string(), String::new())));
    assert_eq!(split(",10", ','), Some((String::new(), "10".to_string())));
}

#[test]
fn split_at_first_separator_only() {
    assert_eq!(split("1,2,3", ','), Some(("1".to_string(), "2,3".to_string())));
}

#[test]
fn split_keeps_trailing_text() {
    assert_eq!(split("10,20xy", ','), Some(("10".to_string(), "20xy".to_string())));
    assert_eq!(split("1.25,-0.0625", ','), Some(("1.25".to_string(), "-0.0625".to_string())));
}

#[test]
fn split_on_non_ascii_separator() {
    assert_eq!(split("3×4", '×'), Some(("3".to_string(), "4".to_string())));
}
