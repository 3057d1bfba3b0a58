//! Texts, tables, names and the build metadata.

use prepoly::metadata::{
    build_channel, compiler_tag, short_commit, version_string, BuildChannel, UNKNOWN_COMMIT,
};
use prepoly::names::NameSet;
use prepoly::table::{find_key, find_lower, find_path};
use prepoly::text::{
    cat2, cat3, cat5, cat7, chars_of, contains_string, dec_signed_string, dec_string, hex_string,
    join_strings, starts_with, str_eq, str_lt, string_of, strings_eq,
};

fn strings(v: &[&str]) -> Vec<String> {
    v.iter().map(|s| s.to_string()).collect()
}

#[test]
fn texts_are_joined_and_cut() {
    assert_eq!(cat2("a", "\u{e9}"), "a\u{e9}");
    assert_eq!(cat3("a", "", "c"), "ac");
    assert_eq!(cat5("a", "b", "c", "d", "e"), "abcde");
    assert_eq!(cat7("a", "b", "c", "d", "e", "f", "g"), "abcdefg");
    assert_eq!(join_strings(&strings(&["x", "", "z"]), ", "), "x, , z");
    assert_eq!(join_strings(&[], ","), "");
    let cs = chars_of("h\u{e9}llo");
    assert_eq!(string_of(&cs, 1, 3), "\u{e9}l");
    assert!(starts_with("abc", "ab"));
    assert!(starts_with("abc", ""));
    assert!(!starts_with("ab", "abc"));
}

#[test]
fn texts_are_compared() {
    assert!(str_eq("a\u{e9}", "a\u{e9}"));
    assert!(!str_eq("a", "A"));
    assert!(str_lt("a", "ab"));
    assert!(str_lt("Z", "a"));
    assert!(!str_lt("a", "a"));
    assert!(!str_lt("b", "ab"));
    for a in ["", "a", "ab", "b", "\u{e9}", "\u{ffff}", "\u{1f600}"] {
        for b in ["", "a", "ab", "b", "\u{e9}", "\u{ffff}", "\u{1f600}"] {
            assert_eq!(str_lt(a, b), a < b);
            assert_eq!(str_eq(a, b), a == b);
        }
    }
    assert!(strings_eq(&strings(&["a", "b"]), &strings(&["a", "b"])));
    assert!(!strings_eq(&strings(&["a"]), &strings(&["a", "b"])));
    assert!(contains_string(&strings(&["a", "b"]), "b"));
    assert!(!contains_string(&strings(&["a", "b"]), "c"));
}

#[test]
fn numbers_are_written() {
    for n in [0, 7, 10, 255, 4096, u64::MAX] {
        assert_eq!(dec_string(n), n.to_string());
        assert_eq!(hex_string(n), format!("{n:x}"));
    }
    for n in [0, -1, 42, i32::MIN, i32::MAX] {
        assert_eq!(dec_signed_string(n), n.to_string());
    }
}

#[test]
fn tables_are_searched() {
    let v: Vec<(String, u8)> =
        vec![("b".to_string(), 1), ("d".to_string(), 2), ("f".to_string(), 3)];
    assert_eq!(find_key(&v, "b"), 0);
    assert_eq!(find_key(&v, "d"), 1);
    assert_eq!(find_key(&v, "x"), 3);
    assert_eq!(find_lower(&v, "c"), 1);
    let p: Vec<(Vec<String>, u8)> = vec![(strings(&["a"]), 1), (strings(&["a", "b"]), 2)];
    assert_eq!(find_path(&p, &strings(&["a", "b"])), 1);
    assert_eq!(find_path(&p, &strings(&["b"])), 2);
}

#[test]
fn name_sets_are_ordered_and_without_repeats() {
    let mut s = NameSet::new();
    assert!(s.is_empty());
    assert!(s.insert("m"));
    assert!(s.insert("a"));
    assert!(!s.insert("m"));
    assert!(s.insert("z"));
    assert_eq!(s.len(), 3);
    assert_eq!(s.items(), &strings(&["a", "m", "z"]));
    assert!(s.contains("m") && !s.contains("b"));
    let mut t = NameSet::one("b");
    t.extend(&s);
    assert_eq!(t.items(), &strings(&["a", "b", "m", "z"]));
    assert_eq!(s.copy().items(), s.items());
}

#[test]
fn channels_and_versions() {
    for name in ["stable", "beta", "nightly", "lab"] {
        assert_eq!(BuildChannel::from(name).to_string(), name);
    }
    assert_eq!(short_commit("0123456789abcdef"), "0123456");
    assert_eq!(short_commit("012"), "012");
    assert_eq!(build_channel(Some("nightly")), BuildChannel::from("nightly"));
    assert_eq!(build_channel(Some("")), BuildChannel::Nightly);
    assert_eq!(build_channel(None), BuildChannel::Nightly);
    assert_eq!(short_commit(UNKNOWN_COMMIT), "unknown");
    assert_eq!(
        version_string("0.1.0", Some("stable"), "8314ac1d00"),
        "0.1.0 (stable 8314ac1)"
    );
    assert_eq!(
        compiler_tag("0.1.0", None, "8314ac1d00"),
        "0.1.0@nightly-8314ac1d00"
    );
    assert_ne!(
        compiler_tag("0.1.0", None, "8314ac1d00"),
        compiler_tag("0.1.0", None, "8314ac1d01")
    );
}
