//! Property-file parsing, substring search, HTML escaping, and the
//! kernel-extension image selection.

use hybrid_mount::bytes::contains_bytes;
use hybrid_mount::classify::read_prop;
use hybrid_mount::util::{escape_html, select_lkm};

#[test]
fn read_prop_finds_the_first_matching_line() {
    let content = b"id=mod1\nname=My Module\nversion=v1.2\n".to_vec();
    assert_eq!(read_prop(&content, &b"name".to_vec()), Some(b"My Module".to_vec()));
    assert_eq!(read_prop(&content, &b"id".to_vec()), Some(b"mod1".to_vec()));
    assert_eq!(read_prop(&content, &b"version".to_vec()), Some(b"v1.2".to_vec()));
    assert_eq!(read_prop(&content, &b"author".to_vec()), None);
}

#[test]
fn read_prop_needs_the_equals_sign_right_after_the_key() {
    // "names=x" must not satisfy the key "name"
    let content = b"names=x\nname=y".to_vec();
    assert_eq!(read_prop(&content, &b"name".to_vec()), Some(b"y".to_vec()));
    // a key alone, without '=', is no match
    assert_eq!(read_prop(&b"name\n".to_vec(), &b"name".to_vec()), None);
    // the last line counts even without a trailing newline
    assert_eq!(read_prop(&b"a=1\nb=2".to_vec(), &b"b".to_vec()), Some(b"2".to_vec()));
    // an empty value is still a value
    assert_eq!(read_prop(&b"a=\n".to_vec(), &b"a".to_vec()), Some(b"".to_vec()));
    assert_eq!(read_prop(&b"".to_vec(), &b"a".to_vec()), None);
}

#[test]
fn contains_bytes_finds_substrings() {
    let name = b"nuke-android12-5.10.ko".to_vec();
    assert!(contains_bytes(&name, &b"5.10".to_vec()));
    assert!(contains_bytes(&name, &b"android12".to_vec()));
    assert!(!contains_bytes(&name, &b"5.15".to_vec()));
    assert!(contains_bytes(&name, &b"".to_vec()));
    assert!(!contains_bytes(&b"ab".to_vec(), &b"abc".to_vec()));
}

#[test]
fn lkm_selection_prefers_the_strict_match() {
    let names = vec![
        b"nuke-android11-5.10.ko".to_vec(),
        b"nuke-android12-5.10.ko".to_vec(),
        b"nuke-android12-5.15.ko".to_vec(),
    ];
    // both kernel and release match: the strict pass picks it
    assert_eq!(select_lkm(&names, &b"5.10".to_vec(), &b"android12".to_vec(), true), Some(1));
    // no strict match: the loose pass falls back to the kernel alone
    assert_eq!(select_lkm(&names, &b"5.15".to_vec(), &b"android11".to_vec(), true), Some(2));
    // no release known: the loose pass alone decides
    assert_eq!(select_lkm(&names, &b"5.10".to_vec(), &b"android12".to_vec(), false), Some(0));
    // nothing matches at all
    assert_eq!(select_lkm(&names, &b"6.1".to_vec(), &b"android14".to_vec(), true), None);
}

#[test]
fn escape_html_rewrites_the_metacharacters() {
    assert_eq!(
        escape_html(&b"<a href=\"x\">&'y'</a>".to_vec()),
        b"&lt;a href=&quot;x&quot;&gt;&amp;&#39;y&#39;&lt;/a&gt;".to_vec()
    );
    assert_eq!(escape_html(&b"plain text".to_vec()), b"plain text".to_vec());
    assert_eq!(escape_html(&b"".to_vec()), b"".to_vec());
}
