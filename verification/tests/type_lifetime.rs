use lifetime_engine::type_lifetime::{split, SplitStr};

fn parts<'a>(s: Option<SplitStr<'a>>) -> Option<(&'a str, &'a str)> {
    s.map(|p| (p.start, p.end))
}

#[test]
fn split_at_the_only_token() {
    assert_eq!(parts(split("key=value", "=")), Some(("key", "value")));
}

#[test]
fn split_at_the_first_of_several_tokens() {
    assert_eq!(parts(split("cfg=foo=bar", "=")), Some(("cfg", "foo=bar")));
}

#[test]
fn split_without_token_is_none() {
    assert!(split("cfg", "=").is_none());
    assert!(split("", "=").is_none());
}

#[test]
fn split_with_token_at_an_end() {
    assert_eq!(parts(split("cfg=", "=")), Some(("cfg", "")));
    assert_eq!(parts(split("=cfg", "=")), Some(("", "cfg")));
    assert_eq!(parts(split("=", "=")), Some(("", "")));
}

#[test]
fn split_with_a_longer_token() {
    assert_eq!(parts(split("a::b::c", "::")), Some(("a", "b::c")));
    assert_eq!(parts(split("a:b::c", "::")), Some(("a:b", "c")));
    assert_eq!(parts(split("aaa", "aa")), Some(("", "a")));
    assert!(split("a:b:c", "::").is_none());
    assert!(split("ab", "abc").is_none());
}

#[test]
fn split_with_the_empty_token() {
    assert_eq!(parts(split("abc", "")), Some(("", "abc")));
    assert_eq!(parts(split("", "")), Some(("", "")));
}

#[test]
fn split_counts_characters_not_bytes() {
    assert_eq!(parts(split("né→zu", "→")), Some(("né", "zu")));
    assert_eq!(parts(split("ééé", "é")), Some(("", "éé")));
}

#[test]
fn split_parts_borrow_from_the_text() {
    let text = String::from("left|right");
    let found = {
        let token = String::from("|");
        split(&text, &token)
    };
    assert_eq!(parts(found), Some(("left", "right")));
}

#[test]
fn split_str_prints_its_parts() {
    let found = split("a-b", "-").unwrap();
    assert_eq!(format!("{:?}", found), "SplitStr { start: \"a\", end: \"b\" }");
}
