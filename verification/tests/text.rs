use isar_core::align::{max, padded_size};
use isar_core::record::element_index;
use isar_core::text::{
    bytes_equal, bytes_less, chars_of, folded_chars, found_at, has_infix, has_prefix, has_suffix,
    text_equal, text_less, wild_match,
};
use isar_core::value::IsarValue;

fn cs(s: &str) -> Vec<char> {
    s.chars().collect()
}

#[test]
fn max_is_the_larger() {
    assert_eq!(max(8, 4), 8);
    assert_eq!(max(4, 8), 8);
    assert_eq!(max(5, 5), 5);
    assert_eq!(max(0, usize::MAX), usize::MAX);
}

#[test]
fn chars_of_keeps_every_character() {
    assert_eq!(chars_of("héllo"), cs("héllo"));
    assert_eq!(chars_of(""), Vec::<char>::new());
}

#[test]
fn folded_chars_lowercases_on_demand() {
    assert_eq!(folded_chars("FooBÄR", true), cs("foobär"));
    assert_eq!(folded_chars("FooBÄR", false), cs("FooBÄR"));
}

#[test]
fn text_order_is_lexicographic() {
    assert!(text_less(&cs("a"), &cs("b")));
    assert!(text_less(&cs(""), &cs("a")));
    assert!(text_less(&cs("ab"), &cs("abc")));
    assert!(!text_less(&cs("abc"), &cs("ab")));
    assert!(!text_less(&cs("abc"), &cs("abc")));
    assert!(text_less(&cs("Z"), &cs("a")));
    assert!(!text_less(&cs(""), &cs("")));
    assert!(text_equal(&cs("abc"), &cs("abc")));
    assert!(!text_equal(&cs("abc"), &cs("abd")));
    assert!(!text_equal(&cs("abc"), &cs("ab")));
}

#[test]
fn bytes_order_is_lexicographic() {
    assert!(bytes_less(&vec![1, 2], &vec![1, 3]));
    assert!(bytes_less(&vec![], &vec![0]));
    assert!(!bytes_less(&vec![2], &vec![1, 9]));
    assert!(!bytes_less(&vec![1, 2], &vec![1, 2]));
    assert!(bytes_equal(&vec![1, 2], &vec![1, 2]));
    assert!(!bytes_equal(&vec![1, 2], &vec![1, 2, 3]));
    assert!(bytes_equal(&vec![], &vec![]));
}

#[test]
fn substrings_are_found_where_they_stand() {
    assert!(found_at(&cs("lo"), &cs("hello"), 3));
    assert!(!found_at(&cs("lo"), &cs("hello"), 2));
    assert!(!found_at(&cs("lo"), &cs("hello"), 4));
    assert!(!found_at(&cs("lo"), &cs("hello"), 9));
    assert!(found_at(&cs(""), &cs("hello"), 5));
    assert!(!found_at(&cs(""), &cs("hello"), 6));
    assert!(has_prefix(&cs("hello"), &cs("he")));
    assert!(!has_prefix(&cs("hello"), &cs("el")));
    assert!(has_suffix(&cs("hello"), &cs("llo")));
    assert!(!has_suffix(&cs("hello"), &cs("hell")));
    assert!(!has_suffix(&cs("lo"), &cs("hello")));
    assert!(has_infix(&cs("hello"), &cs("ell")));
    assert!(has_infix(&cs("hello"), &cs("lo")));
    assert!(has_infix(&cs("hello"), &cs("")));
    assert!(!has_infix(&cs("hello"), &cs("lol")));
    assert!(!has_infix(&cs(""), &cs("a")));
}

#[test]
fn wildcards_match_whole_text() {
    assert!(wild_match(&cs("alice"), &cs("a*e")));
    assert!(!wild_match(&cs("bob"), &cs("a*e")));
    assert!(wild_match(&cs("alice"), &cs("?l*")));
    assert!(!wild_match(&cs("alice"), &cs("alic")));
    assert!(wild_match(&cs(""), &cs("**")));
    assert!(!wild_match(&cs(""), &cs("?")));
    assert!(wild_match(&cs("a*b"), &cs("a*b")));
    assert!(wild_match(&cs("mississippi"), &cs("m*iss*pi")));
    assert!(!wild_match(&cs("mississippi"), &cs("m*issx*pi")));
}

#[test]
fn element_index_reads_decimal_digits() {
    assert_eq!(element_index(3, "0"), Some(0));
    assert_eq!(element_index(3, "2"), Some(2));
    assert_eq!(element_index(3, "3"), None);
    assert_eq!(element_index(3, "002"), Some(2));
    assert_eq!(element_index(3, ""), None);
    assert_eq!(element_index(3, "-1"), None);
    assert_eq!(element_index(3, "1a"), None);
    assert_eq!(element_index(0, "0"), None);
    assert_eq!(element_index(200, "123"), Some(123));
    assert_eq!(element_index(usize::MAX, "18446744073709551616"), None);
    assert_eq!(element_index(usize::MAX, "99999999999999999999999999999999999999999999"), None);
    assert_eq!(element_index(3, "٣"), None);
}

#[test]
fn values_compare_within_their_kind() {
    let a = IsarValue::String("Abc".to_string());
    let b = IsarValue::String("abd".to_string());
    assert!(a.less(false, &b, false));
    assert!(a.less(true, &b, true));
    assert!(!b.less(false, &a, false));
    assert!(a.equals(true, &IsarValue::String("aBC".to_string()), true));
    assert!(!a.equals(false, &IsarValue::String("aBC".to_string()), false));
    assert!(a.equals(true, &IsarValue::String("abc".to_string()), false));
    assert!(IsarValue::Null.less(false, &a, false));
    assert!(!a.less(false, &IsarValue::Null, false));
    assert!(IsarValue::Null.equals(false, &IsarValue::Null, true));
    assert!(!IsarValue::Integer(1).less(false, &IsarValue::Real(2), false));
    assert!(IsarValue::Integer(i64::MIN).less(false, &IsarValue::Integer(i64::MAX), false));
}

#[test]
fn value_lowercase_touches_text_only() {
    assert_eq!(IsarValue::String("FoO".to_string()).to_lowercase(), IsarValue::String("foo".to_string()));
    assert_eq!(IsarValue::Integer(5).to_lowercase(), IsarValue::Integer(5));
    assert_eq!(IsarValue::Bytes(vec![65]).to_lowercase(), IsarValue::Bytes(vec![65]));
    assert_eq!(IsarValue::Null.to_lowercase(), IsarValue::Null);
}

#[test]
fn value_clone_is_the_same_value() {
    for v in [
        IsarValue::Null,
        IsarValue::Bool(true),
        IsarValue::Integer(-4),
        IsarValue::Real(9),
        IsarValue::String("Foo".to_string()),
        IsarValue::Bytes(vec![0, 255, 7]),
    ] {
        assert_eq!(v.clone(), v);
    }
}

#[test]
fn padded_size_adds_the_prefix() {
    assert_eq!(padded_size(100, 8), Some(108));
    assert_eq!(padded_size(0, 8), Some(8));
    assert_eq!(padded_size(usize::MAX - 8, 8), Some(usize::MAX));
    assert_eq!(padded_size(usize::MAX - 7, 8), None);
    assert_eq!(padded_size(usize::MAX, 0), Some(usize::MAX));
}
