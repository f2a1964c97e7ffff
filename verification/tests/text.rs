use tmux_thumbs::numbers::{i64_to_decimal, parse_i32};
use tmux_thumbs::text::{replace, split};

fn chars(s: &str) -> Vec<char> {
    s.chars().collect()
}

#[test]
fn decimal_round_trip() {
    assert_eq!(i64_to_decimal(0).into_iter().collect::<String>(), "0");
    assert_eq!(i64_to_decimal(-42).into_iter().collect::<String>(), "-42");
    assert_eq!(i64_to_decimal(i64::MIN).into_iter().collect::<String>(), "-9223372036854775808");
    assert_eq!(parse_i32(&chars("+17")), Some(17));
    assert_eq!(parse_i32(&chars("-2147483648")), Some(i32::MIN));
    assert_eq!(parse_i32(&chars("2147483647")), Some(i32::MAX));
    assert_eq!(parse_i32(&chars("2147483648")), None);
    assert_eq!(parse_i32(&chars("-")), None);
    assert_eq!(parse_i32(&chars("")), None);
    assert_eq!(parse_i32(&chars("1a")), None);
    assert_eq!(parse_i32(&chars(" 1")), None);
    for n in [0i32, 7, -7, 1234, i32::MIN, i32::MAX] {
        assert_eq!(parse_i32(&i64_to_decimal(n as i64)), Some(n));
    }
}

#[test]
fn replace_and_split() {
    let r: String = replace(&chars("aaa"), &chars("aa"), &chars("b")).into_iter().collect();
    assert_eq!(r, "ba");
    let pieces: Vec<String> = split(&chars("a::b"), ':').into_iter().map(|p| p.into_iter().collect()).collect();
    assert_eq!(pieces, vec!["a", "", "b"]);
    let pieces = split(&chars(""), ':');
    assert_eq!(pieces.len(), 1);
}
