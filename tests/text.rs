use mock_api::segment::{guarded_segments, split_segments};
use mock_api::sort::sort_texts;
use mock_api::text::{find_text, parse_decimal, push_decimal, text_leq};

fn chars(s: &str) -> Vec<char> {
    s.chars().collect()
}

#[test]
fn decimal_parsing() {
    assert_eq!(parse_decimal("0"), Some(0));
    assert_eq!(parse_decimal("42"), Some(42));
    assert_eq!(parse_decimal(""), None);
    assert_eq!(parse_decimal("+1"), None);
    assert_eq!(parse_decimal("1a"), None);
    assert_eq!(parse_decimal("18446744073709551615"), Some(u64::MAX));
    assert_eq!(parse_decimal("18446744073709551616"), None);
}

#[test]
fn decimal_formatting() {
    let mut s = String::from("n=");
    push_decimal(&mut s, 0);
    assert_eq!(s, "n=0");
    let mut s = String::new();
    push_decimal(&mut s, 1203);
    assert_eq!(s, "1203");
}

#[test]
fn substring_search() {
    assert!(find_text("abcabd", "abd"));
    assert!(find_text("abc", ""));
    assert!(!find_text("ab", "abc"));
    assert!(!find_text("abcab", "abd"));
}

#[test]
fn code_point_comparison() {
    assert!(text_leq(&chars("a"), &chars("b")));
    assert!(text_leq(&chars("a"), &chars("ab")));
    assert!(!text_leq(&chars("b"), &chars("ab")));
    assert!(text_leq(&chars("Z"), &chars("a")));
    assert!(text_leq(&chars(""), &chars("")));
}

#[test]
fn sorting_texts() {
    let v = vec![chars("pear"), chars("apple"), chars("Fig"), chars("apple")];
    let r = sort_texts(v);
    assert_eq!(r, vec![chars("Fig"), chars("apple"), chars("apple"), chars("pear")]);
    assert_eq!(sort_texts(vec![]), Vec::<Vec<char>>::new());
}

#[test]
fn path_splitting() {
    assert_eq!(split_segments("/a//b/"), vec!["a".to_string(), "b".to_string()]);
    assert_eq!(split_segments(""), Vec::<String>::new());
    assert!(guarded_segments("a/../b").is_err());
    assert_eq!(guarded_segments("a/.../b").unwrap().len(), 3);
}
