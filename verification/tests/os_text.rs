use file_engine::analysis::filter::AnalysisFilter;
use file_engine::analysis::report::Entry;
use file_engine::analysis::walk::name_extension;
use file_engine::compress::zip_single;
use file_engine::error::Error;
use file_engine::globs::{compile, is_excluded};
use file_engine::operations::compress::{archive_name, format_for};
use file_engine::os_text::{from_bytes, keep, keeps_nothing, shown, to_bytes, to_unicode};
use file_engine::paths::{normalize_for_comparison, FilePath};

fn held(bytes: &[u8]) -> FilePath {
    FilePath::from_bytes(bytes)
}

fn extension_of(bytes: &[u8]) -> String {
    name_extension(&Entry {
        path: held(bytes),
        relative_path: held(bytes),
        size: 0,
        modified: None,
    })
}

#[test]
fn no_byte_of_a_name_is_lost() {
    let cases: [&[u8]; 12] = [
        b"",
        b"/plain/a.txt",
        "gr\u{fc}n/\u{1f600}/\u{7ff}\u{800}\u{ffff}".as_bytes(),
        b"\xff\xfe",
        b"a\xc3",
        b"a\xc3(/\xe2\x82(",
        b"\xc0\x80\xe0\x80\x80\xf0\x80\x80\x80",
        b"\xed\xa0\x80\xf4\x90\x80\x80\xf8",
        "\u{100080}\u{1000ff}".as_bytes(),
        "\u{10007f}\u{100100}\u{10ffff}".as_bytes(),
        b"\xf4\x80\x82\x80\xff",
        b"\x80\xbf\xe2\x82\xac\xf0\x9f\x98\x80\xf0\x9f",
    ];
    for bytes in cases {
        assert_eq!(held(bytes).to_bytes(), bytes);
        let text = from_bytes(bytes);
        assert_eq!(to_bytes(&text), bytes);
        assert_eq!(
            to_unicode(&text),
            String::from_utf8(bytes.to_vec()).ok(),
            "{bytes:?}"
        );
        assert_eq!(shown(&text), String::from_utf8_lossy(bytes));
    }
}

#[test]
fn unicode_text_is_kept_as_it_is() {
    assert_eq!(held("a/gr\u{fc}n.txt".as_bytes()).text, "a/gr\u{fc}n.txt");
    assert!(keeps_nothing("a/gr\u{fc}n.txt"));
    assert!(!keeps_nothing("\u{100080}"));
    assert_eq!(keep("a\u{fc}"), "a\u{fc}");
    assert_eq!(to_unicode(&keep("\u{100081}x")).unwrap(), "\u{100081}x");
    assert_eq!(from_bytes(b"a\xffb"), "a\u{1000ff}b");
    assert_eq!(FilePath::new("a/\u{1000ff}").to_bytes(), "a/\u{1000ff}".as_bytes());
    assert_eq!(FilePath::new("a/b").text, "a/b");
}

#[test]
fn names_that_differ_in_bytes_have_different_texts() {
    assert_ne!(from_bytes(b"\xff"), from_bytes("\u{1000ff}".as_bytes()));
    assert!(!held(b"\xff").same_path(&held(b"\xfe")));
}

#[test]
fn an_extension_that_is_no_unicode_is_listed_under_nothing() {
    assert_eq!(extension_of(b"a.\xff"), "");
    assert_eq!(extension_of(b"a.t\xffxt"), "");
    assert_eq!(extension_of(b"\xff.TXT"), "txt");
    assert_eq!(extension_of("\u{fc}.A\u{dc}".as_bytes()), "a\u{dc}");
    assert_eq!(extension_of("a.\u{1000ff}B".as_bytes()), "\u{1000ff}b");
    assert_eq!(held(b"a.\xff").unicode_extension(), None);
    assert_eq!(held(b"a.rs").unicode_extension(), Some("rs".to_string()));
    assert_eq!(held(b"a").unicode_extension(), None);
}

#[test]
fn an_extension_that_is_no_unicode_is_not_asked_for() {
    let filter = AnalysisFilter {
        extensions: Some(vec!["\u{1000ff}".to_string(), "txt".to_string()]),
        ..Default::default()
    };
    assert!(!filter.matches(&held(b"a.\xff"), 0, None));
    assert!(filter.matches(&held("a.\u{1000ff}".as_bytes()), 0, None));
    assert!(filter.matches(&held(b"\xff.Txt"), 0, None));
    assert!(AnalysisFilter::default().matches(&held(b"a.\xff"), 0, None));
    assert!(format_for(&held(b"a.z\xffip")).is_none());
    assert!(format_for(&held(b"\xff.zip")).is_some());
}

#[test]
fn a_pattern_matches_the_bytes_of_a_name() {
    let one = compile(&vec!["a?b".to_string()]).unwrap();
    assert!(is_excluded(one.as_ref(), &held(b"a\xffb")));
    assert!(!is_excluded(one.as_ref(), &held(b"a\xff\xfeb")));
    let two = compile(&vec!["a??b".to_string()]).unwrap();
    assert!(is_excluded(two.as_ref(), &held("a\u{fc}b".as_bytes())));
    let any = compile(&vec!["*.txt".to_string()]).unwrap();
    assert!(is_excluded(any.as_ref(), &held(b"\xff.txt")));
}

#[test]
fn a_name_that_is_no_unicode_is_not_normalized() {
    let decomposed = "e\u{301}".as_bytes();
    let mut broken = decomposed.to_vec();
    broken.push(0xff);
    let mut path = broken.clone();
    path.push(b'/');
    path.extend_from_slice(decomposed);
    let normal = normalize_for_comparison(&held(&path)).to_bytes();
    let mut expected = broken;
    expected.push(b'/');
    expected.extend_from_slice("\u{e9}".as_bytes());
    assert_eq!(normal, expected);
    assert_eq!(
        normalize_for_comparison(&held("\u{100080}e\u{301}".as_bytes())).to_bytes(),
        "\u{100080}\u{e9}".as_bytes()
    );
}

#[test]
fn archives_and_messages_replace_what_is_no_unicode() {
    assert_eq!(archive_name(&held(b"d\\\xff/x")), "d/\u{fffd}/x");
    assert_eq!(zip_single(&held(b"d/\xe2\x82.txt")).name, "\u{fffd}.txt");
    assert_eq!(
        Error::PermissionDenied {
            path: held(b"d/\xff\xfe")
        }
        .message(),
        "permission denied: d/\u{fffd}\u{fffd}"
    );
}
