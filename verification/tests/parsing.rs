//! Tests for the scanner, the argument splitter and the escape layer.

use macroscript::parsing::{find_innermost_brackets, find_pair, split_arguments, unescape};

#[test]
fn bracket_test() {
    assert_eq!(find_innermost_brackets(r"[a[b[c[d]c][e]b]a]"), Some((6, 9)));
    assert_eq!(find_innermost_brackets(r"\[[]\]"), Some((2, 4)));
    assert_eq!(find_innermost_brackets(r"[[\][]"), Some((4, 6)));
    assert_eq!(find_innermost_brackets(r"only open [[[ \]"), None);
    assert_eq!(find_innermost_brackets(r"[ no close \]\]"), None);
}

#[test]
fn bracket_range_holds_brackets() {
    let samples = [r"[a[b[c[d]c][e]b]a]", r"\[[]\]", r"[[\][]", r"x[y/z]w", r"[]"];
    for s in samples {
        if let Some((start, end)) = find_innermost_brackets(s) {
            let chars: Vec<char> = s.chars().collect();
            assert!(start < end);
            assert_eq!(chars[start], '[');
            assert_eq!(chars[end - 1], ']');
        }
    }
}

#[test]
fn find_pair_decomposes() {
    let m = find_pair("ab[add/1/2]cd").unwrap();
    assert_eq!(m.start, 2);
    assert_eq!(m.end, 11);
    assert_eq!(m.name, "add");
    assert_eq!(m.arguments, vec!["1".to_string(), "2".to_string()]);

    let m = find_pair("[noargs]").unwrap();
    assert_eq!(m.name, "noargs");
    assert!(m.arguments.is_empty());

    let m = find_pair("[]").unwrap();
    assert_eq!(m.name, "");
    assert!(m.arguments.is_empty());

    assert!(find_pair("no brackets").is_none());
}

#[test]
fn split_arguments_cases() {
    let (name, args) = split_arguments("add/1/2");
    assert_eq!(name, "add");
    assert_eq!(args, vec!["1".to_string(), "2".to_string()]);

    let (name, args) = split_arguments("");
    assert_eq!(name, "");
    assert!(args.is_empty());

    // A trailing separator yields a trailing empty argument.
    let (name, args) = split_arguments("x/");
    assert_eq!(name, "x");
    assert_eq!(args, vec!["".to_string()]);

    // An escaped separator does not split.
    let (name, args) = split_arguments(r"x/a\/b/c");
    assert_eq!(name, "x");
    assert_eq!(args, vec![r"a\/b".to_string(), "c".to_string()]);
}

#[test]
fn unescape_cases() {
    assert_eq!(unescape(r"among\/us"), "among/us");
    assert_eq!(unescape(r"\[add\/5\/5\]"), "[add/5/5]");
    assert_eq!(unescape(r"\\"), r"\");
    assert_eq!(unescape("plain"), "plain");
    // A trailing lone backslash is dropped.
    assert_eq!(unescape("tail\\"), "tail");
}

#[test]
fn unescape_undoes_full_escaping() {
    let samples = [r"a[b]c\d/e", "", "////", r"\\\\", "[try/x]"];
    for s in samples {
        let doubled = s
            .replace('\\', r"\\")
            .replace('[', r"\[")
            .replace(']', r"\]")
            .replace('/', r"\/");
        assert_eq!(unescape(&doubled), s);
    }
}
