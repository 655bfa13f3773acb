use projectable::items::inputs_are_valid;
use projectable::path::PathBuf;
use projectable::text::replace_str;

fn p(s: &str) -> PathBuf {
    PathBuf::from_str(s)
}

#[test]
fn text_round_trips() {
    for s in ["/", "/a", "/a/b/c.txt", "a/b", ""] {
        assert_eq!(s, p(s).to_text());
    }
    assert_eq!("/a/b", p("//a//b/").to_text());
}

#[test]
fn parent_drops_the_last_component() {
    assert_eq!(Some(p("/a")), p("/a/b").parent());
    assert_eq!(Some(p("/")), p("/a").parent());
    assert_eq!(None, p("/").parent());
    assert_eq!(Some(p("")), p("a").parent());
}

#[test]
fn starts_with_is_componentwise() {
    assert!(p("/a/b").starts_with(&p("/a")));
    assert!(!p("/ab").starts_with(&p("/a")));
    assert!(p("/a").starts_with(&p("/")));
    assert!(p("/a").starts_with(&p("")));
    assert!(!p("a").starts_with(&p("/")));
}

#[test]
fn join_appends_or_replaces() {
    assert_eq!(p("/a/b/c"), p("/a").join_str("b/c"));
    assert_eq!(p("/x"), p("/a").join_str("/x"));
    assert_eq!(Some("c".to_owned()), p("/a/b/c").file_name());
    assert_eq!(3, p("/a/b").component_count());
}

#[test]
fn replace_is_left_to_right() {
    assert_eq!("testing /", replace_str("testing {}", "{}", "/"));
    assert_eq!("aXaX", replace_str("a{}a{}", "{}", "X"));
    assert_eq!("aaa", replace_str("aaa", "", "X"));
}

#[test]
fn inputs_are_checked_as_the_listing_takes_them() {
    assert!(inputs_are_valid(&[PathBuf::from_str("/root/a.txt"), PathBuf::from_str("/root/b/c.txt")]));
    assert!(!inputs_are_valid(&[PathBuf::from_str("relative.txt")]));
    assert!(!inputs_are_valid(&[PathBuf::from_str("/")]));
    assert!(!inputs_are_valid(&[PathBuf::from_str("/root/20240101120000.log")]));
    assert!(inputs_are_valid(&[PathBuf::from_str("/root/1700000000.log")]));
    assert!(inputs_are_valid(&[PathBuf::from_str("/root/4294967295.log")]));
    assert!(!inputs_are_valid(&[PathBuf::from_str("/root/4294967296.log")]));
    assert!(inputs_are_valid(&[PathBuf::from_str("/root/123456789.log")]));
}
