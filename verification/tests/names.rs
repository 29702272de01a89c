use stormstorage::names::{NameMap, NameSet};
use stormstorage::text;

#[test]
fn maps_keep_their_names_in_order() {
    let mut m: NameMap<String> = NameMap::new();
    for k in ["b", "a", "ab", "é", "Z", "b"] {
        m.insert(k.to_string(), format!("<{k}>"));
    }
    let keys: Vec<String> = (0..m.len()).map(|i| m.key_at(i).clone()).collect();
    assert_eq!(keys, ["Z", "a", "ab", "b", "é"]);
    assert_eq!(m.value_at(3), "<b>");
    assert_eq!(m.get("ab").unwrap(), "<ab>");
    assert!(m.get("c").is_none());
    assert_eq!(m.remove("a").unwrap(), "<a>");
    assert!(m.remove("a").is_none());
    assert_eq!(m.len(), 4);
    let copy = m.clone();
    assert_eq!(copy.len(), 4);
}

#[test]
fn maps_extend_and_retain() {
    let mut a: NameMap<String> = NameMap::new();
    a.insert("x".into(), "1".into());
    a.insert("y".into(), "2".into());
    let mut b: NameMap<String> = NameMap::new();
    b.insert("y".into(), "3".into());
    b.insert("z".into(), "4".into());
    a.extend(&b);
    assert_eq!(a.get("y").unwrap(), "3");
    assert_eq!(a.len(), 3);
    let mut keep = NameSet::new();
    keep.insert("z".into());
    keep.insert("q".into());
    a.retain(&keep);
    assert_eq!(a.key_set().to_vec(), ["z"]);
    assert!(NameMap::<String>::default().is_empty());
}

#[test]
fn sets_hold_each_name_once() {
    let mut s = NameSet::new();
    assert!(s.is_empty());
    s.insert("b".into());
    s.insert("a".into());
    s.insert("b".into());
    assert_eq!(s.to_vec(), ["a", "b"]);
    assert_eq!(s.len(), 2);
    assert!(s.contains("a") && !s.contains("c"));
    assert_eq!(s.clone().to_vec(), ["a", "b"]);
}

#[test]
fn names_order_by_code_point() {
    assert!(text::less("", "a"));
    assert!(text::less("a", "ab"));
    assert!(text::less("z", "é"));
    assert!(!text::less("b", "ab"));
    assert!(!text::less("a", "a"));
}

#[test]
fn text_is_cut_and_joined() {
    assert_eq!(text::decimal(0), "0");
    assert_eq!(text::decimal(u64::MAX), "18446744073709551615");
    assert_eq!(text::join(&vec!["a".into(), "b".into()], ", "), "a, b");
    assert_eq!(text::join(&vec![], ", "), "");
    assert_eq!(text::trim_end("a//", '/'), "a");
    assert_eq!(text::trim_start("http://http://x", "http://"), "x");
    assert_eq!(text::until_colon_or_slash("h:1/p"), "h");
    assert_eq!(text::as_segment("a/b%"), "a%2Fb%25");
    assert_eq!(text::short("0123456789"), "01234567");
    assert_eq!(text::short("0123"), "0123");
    assert_eq!(text::short("012345é789"), "012345é");
    assert_eq!(text::short("0123456é89"), "0123456é89", "no cut inside a character");
    assert_eq!(text::quoted_list(&vec!["a\"".into()]), "[\"a\\\"\"]");
    assert!(text::contains("abc", "bc") && !text::contains("abc", "cb"));
}
