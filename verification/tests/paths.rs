use file_engine::path_set::PathSet;
use file_engine::paths::{normalize_for_comparison, FilePath};
use file_engine::text;
use unicode_normalization::UnicodeNormalization;

#[test]
fn nfc_and_nfd_forms_of_the_same_name_normalize_identically() {
    let nfc: String = "café".nfc().collect();
    let nfd: String = "café".nfd().collect();
    assert_ne!(
        nfc.as_bytes(),
        nfd.as_bytes(),
        "test setup: these must start out byte-different"
    );

    let a = normalize_for_comparison(&FilePath::new(&nfc));
    let b = normalize_for_comparison(&FilePath::new(&nfd));
    assert_eq!(a.text, b.text);
    assert!(a.same_path(&b));
}

#[test]
fn normalizes_every_component_not_just_the_last() {
    let nfd: String = "café".nfd().collect();
    let path = FilePath::new(&nfd)
        .join(&FilePath::new("nested"))
        .join(&FilePath::new(&nfd));

    let nfc: String = "café".nfc().collect();
    let expected = FilePath::new(&nfc)
        .join(&FilePath::new("nested"))
        .join(&FilePath::new(&nfc));

    assert_eq!(normalize_for_comparison(&path).text, expected.text);
}

#[test]
fn already_normalized_ascii_path_is_unchanged() {
    let path = FilePath::new("a").join(&FilePath::new("b.txt"));
    assert_eq!(normalize_for_comparison(&path).text, path.text);
    assert_eq!(path.text, "a/b.txt");
}

#[test]
fn texts_of_one_path_are_the_same_path() {
    let plain = FilePath::new("a/b");
    assert!(plain.same_path(&FilePath::new("a//b")));
    assert!(plain.same_path(&FilePath::new("a/./b/")));
    assert!(!plain.same_path(&FilePath::new("/a/b")));
    assert!(!plain.same_path(&FilePath::new("a/b/c")));
    assert_eq!(FilePath::new("a//./b/").canonical(), "a/b");
    assert_eq!(FilePath::new("//a").canonical(), "/a");
}

#[test]
fn names_and_parents() {
    assert_eq!(FilePath::new("/a/b.txt").names(), vec!["a", "b.txt"]);
    assert_eq!(FilePath::new("a/b.txt").file_name(), Some("b.txt".to_string()));
    assert_eq!(FilePath::new("a/..").file_name(), None);
    assert_eq!(FilePath::new("/").file_name(), None);
    assert_eq!(FilePath::new("a/b").parent().unwrap().canonical(), "a");
    assert_eq!(FilePath::new("a").parent().unwrap().canonical(), "");
    assert_eq!(FilePath::new("/a//./b/").parent().unwrap().text, "/a");
    assert!(FilePath::new("").parent().is_none());
    assert!(FilePath::new("/").parent().is_none());
    assert!(FilePath::empty().is_empty());
    assert!(FilePath::new("/x").is_rooted());
}

#[test]
fn extensions_follow_the_last_dot() {
    assert_eq!(FilePath::new("a.tar.gz").extension(), Some("gz".to_string()));
    assert_eq!(FilePath::new(".hidden").extension(), None);
    assert_eq!(FilePath::new("x/.hidden.txt").extension(), Some("txt".to_string()));
    assert_eq!(FilePath::new("plain").extension(), None);
    assert_eq!(FilePath::new("dot.").extension(), Some("".to_string()));
}

#[test]
fn joining_and_stripping_undo_each_other() {
    let base = FilePath::new("/root/dir");
    let below = base.join(&FilePath::new("x/y"));
    assert_eq!(below.text, "/root/dir/x/y");
    assert_eq!(below.strip_prefix(&base).unwrap().text, "x/y");
    assert!(below.strip_prefix(&FilePath::new("/other")).is_none());
    assert_eq!(below.relative_to(&FilePath::new("/other")).text, "/root/dir/x/y");
    assert_eq!(base.join(&FilePath::new("/abs")).text, "/abs");
    assert_eq!(FilePath::new("a/").join(&FilePath::new("b")).text, "a/b");
    assert_eq!(FilePath::empty().join(&FilePath::new("b")).text, "b");
}

#[test]
fn a_set_holds_each_path_once() {
    let mut set = PathSet::new();
    assert!(set.insert(&FilePath::new("a/b")));
    assert!(!set.insert(&FilePath::new("a//b")));
    assert!(set.insert(&FilePath::new("/a/b")));
    assert_eq!(set.len(), 2);
    assert!(set.contains(&FilePath::new("a/./b")));
    assert!(!set.contains(&FilePath::new("a")));
}

#[test]
fn text_helpers() {
    assert_eq!(text::to_decimal(0), "0");
    assert_eq!(text::to_decimal(u64::MAX), "18446744073709551615");
    assert_eq!(text::to_lower("AbÄ9"), "abÄ9");
    assert_eq!(text::replace_char("a\\b\\c", '\\', '/'), "a/b/c");
    assert!(text::same("x", "x"));
    assert!(!text::same("x", "X"));
    assert_eq!(text::from_chars(&text::to_chars("héy")), "héy");
}
