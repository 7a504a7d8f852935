//! Locating and decomposing macro invocations.
//!
//! An invocation is the innermost-leftmost `[...]` pair whose brackets are
//! not escaped by a backslash; its interior is split on unescaped `/` into a
//! name and arguments, and a single layer of backslash escapes is removed
//! from each piece before it is interpreted.

use vstd::prelude::*;
use crate::text::{str_to_chars, chars_to_string};

verus! {

/// One step of the bracket scan: `esc` records whether the previous
/// character was an unconsumed backslash, `cand` the latest unescaped `[`.
/// The result pairs the index of that `[` with the index one past the
/// matching `]`.
pub open spec fn scan_brackets(s: Seq<char>, i: int, esc: bool, cand: Option<int>) -> Option<
    (int, int),
>
    decreases s.len() - i,
{
    if i < 0 || i >= s.len() {
        None
    } else if esc {
        scan_brackets(s, i + 1, false, cand)
    } else if s[i] == '\\' {
        scan_brackets(s, i + 1, true, cand)
    } else if s[i] == '[' {
        scan_brackets(s, i + 1, false, Some(i))
    } else if s[i] == ']' && cand is Some {
        Some((cand->0, i + 1))
    } else {
        scan_brackets(s, i + 1, false, cand)
    }
}

/// The range of the first unescaped `]` paired with the nearest preceding
/// unescaped `[`, as a half-open range covering both brackets.
pub open spec fn find_brackets_spec(s: Seq<char>) -> Option<(int, int)> {
    scan_brackets(s, 0, false, None)
}

/// Whether the character `c` occurs unescaped in `s` at or after `i`.
pub open spec fn scan_unescaped(s: Seq<char>, i: int, esc: bool, c: char) -> bool
    decreases s.len() - i,
{
    if i < 0 || i >= s.len() {
        false
    } else if esc {
        scan_unescaped(s, i + 1, false, c)
    } else if s[i] == '\\' {
        scan_unescaped(s, i + 1, true, c)
    } else if s[i] == c {
        true
    } else {
        scan_unescaped(s, i + 1, false, c)
    }
}

/// Whether the character `c` occurs unescaped anywhere in `s`.
pub open spec fn contains_unescaped(s: Seq<char>, c: char) -> bool {
    scan_unescaped(s, 0, false, c)
}

/// A successful scan yields a nonempty range inside `s` whose first
/// character is `[` and whose last character is `]`.
proof fn lemma_scan_brackets_props(s: Seq<char>, i: int, esc: bool, cand: Option<int>)
    requires
        0 <= i <= s.len(),
        cand matches Some(c) ==> 0 <= c < i && s[c] == '[',
    ensures
        scan_brackets(s, i, esc, cand) matches Some(p) ==> 0 <= p.0 < p.1 <= s.len() && s[p.0]
            == '[' && s[p.1 - 1] == ']',
    decreases s.len() - i,
{
    if i < s.len() {
        if esc {
            lemma_scan_brackets_props(s, i + 1, false, cand);
        } else if s[i] == '\\' {
            lemma_scan_brackets_props(s, i + 1, true, cand);
        } else if s[i] == '[' {
            lemma_scan_brackets_props(s, i + 1, false, Some(i));
        } else if s[i] == ']' && cand is Some {
        } else {
            lemma_scan_brackets_props(s, i + 1, false, cand);
        }
    }
}

/// The scanner's returned range holds matched brackets: the character at its
/// start is `[` and the one before its end is `]`.
pub proof fn lemma_find_brackets_props(s: Seq<char>)
    ensures
        find_brackets_spec(s) matches Some(p) ==> 0 <= p.0 < p.1 <= s.len() && s[p.0] == '['
            && s[p.1 - 1] == ']',
{
    lemma_scan_brackets_props(s, 0, false, None);
}

/// Without an unescaped `[` at or after `i`, a scan that holds no candidate
/// finds nothing.
proof fn lemma_scan_no_open(s: Seq<char>, i: int, esc: bool)
    requires
        !scan_unescaped(s, i, esc, '['),
    ensures
        scan_brackets(s, i, esc, None) is None,
    decreases s.len() - i,
{
    if 0 <= i < s.len() {
        if esc {
            lemma_scan_no_open(s, i + 1, false);
        } else if s[i] == '\\' {
            lemma_scan_no_open(s, i + 1, true);
        } else {
            lemma_scan_no_open(s, i + 1, false);
        }
    }
}

/// A string with no unescaped `[` holds no invocation at all.
pub proof fn lemma_no_unescaped_open_finds_none(s: Seq<char>)
    requires
        !contains_unescaped(s, '['),
    ensures
        find_brackets_spec(s) is None,
{
    lemma_scan_no_open(s, 0, false);
}

/// The view of an optional index pair.
pub open spec fn range_view(r: Option<(usize, usize)>) -> Option<(int, int)> {
    match r {
        Some(p) => Some((p.0 as int, p.1 as int)),
        None => None,
    }
}

/// Finds the first occurrence of an unescaped pair of square brackets in a
/// character vector.
pub fn find_brackets_in(v: &Vec<char>) -> (r: Option<(usize, usize)>)
    ensures
        range_view(r) == find_brackets_spec(v@),
        r matches Some(p) ==> 0 <= p.0 < p.1 <= v@.len() && v@[p.0 as int] == '[' && v@[p.1
            - 1] == ']',
{
    proof {
        lemma_find_brackets_props(v@);
    }
    let n = v.len();
    let mut i: usize = 0;
    let mut esc: bool = false;
    let mut cand: Option<usize> = None;
    while i < n
        invariant
            i <= n,
            n == v@.len(),
            find_brackets_spec(v@) == scan_brackets(
                v@,
                i as int,
                esc,
                match cand {
                    Some(c) => Some(c as int),
                    None => None,
                },
            ),
            cand matches Some(c) ==> c < i,
        decreases n - i,
    {
        let c = v[i];
        if esc {
            esc = false;
        } else {
            esc = c == '\\';
            if c == '[' {
                cand = Some(i);
            } else if c == ']' {
                match cand {
                    Some(start) => {
                        proof {
                            lemma_find_brackets_props(v@);
                        }
                        return Some((start, i + 1));
                    },
                    None => {
                    },
                }
            }
        }
        i = i + 1;
    }
    None
}

/// Finds the first occurrence of an unescaped pair of square brackets.
/// Returns the start index of the `[` and the index one past the `]`, in
/// characters.
pub fn find_innermost_brackets(string: &str) -> (r: Option<(usize, usize)>)
    ensures
        range_view(r) == find_brackets_spec(string@),
        r matches Some(p) ==> 0 <= p.0 < p.1 <= string@.len() && string@[p.0 as int] == '['
            && string@[p.1 - 1] == ']',
{
    let v = str_to_chars(string);
    find_brackets_in(&v)
}

/// Splits `s` from `start` on: the segments between unescaped `/`
/// separators, each given as a subsequence of `s`. `seg_start` is where the
/// current segment began.
pub open spec fn split_rec(s: Seq<char>, i: int, esc: bool, seg_start: int) -> Seq<Seq<char>>
    decreases s.len() - i,
{
    if i < 0 || i >= s.len() || seg_start > i {
        seq![s.subrange(seg_start, s.len() as int)]
    } else if esc {
        split_rec(s, i + 1, false, seg_start)
    } else if s[i] == '\\' {
        split_rec(s, i + 1, true, seg_start)
    } else if s[i] == '/' {
        seq![s.subrange(seg_start, i)] + split_rec(s, i + 1, false, i + 1)
    } else {
        split_rec(s, i + 1, false, seg_start)
    }
}

/// The segments of `s` between unescaped `/` separators.
pub open spec fn split_args_spec(s: Seq<char>) -> Seq<Seq<char>> {
    split_rec(s, 0, false, 0)
}

/// Splits a character vector on unescaped `/` separators.
pub fn split_chars(v: &Vec<char>) -> (segs: Vec<Vec<char>>)
    ensures
        segs@.map_values(|p: Vec<char>| p@) == split_args_spec(v@),
        segs@.len() >= 1,
{
    let n = v.len();
    let mut segs: Vec<Vec<char>> = Vec::new();
    let mut i: usize = 0;
    let mut esc: bool = false;
    let mut seg_start: usize = 0;
    while i < n
        invariant
            seg_start <= i <= n,
            n == v@.len(),
            split_args_spec(v@) == segs@.map_values(|p: Vec<char>| p@) + split_rec(
                v@,
                i as int,
                esc,
                seg_start as int,
            ),
        decreases n - i,
    {
        let c = v[i];
        if esc {
            esc = false;
        } else {
            esc = c == '\\';
            if c == '/' {
                let seg = crate::text::subrange_chars(v, seg_start, i);
                let ghost old_segs = segs@;
                segs.push(seg);
                proof {
                    assert(segs@.map_values(|p: Vec<char>| p@) =~= old_segs.map_values(
                        |p: Vec<char>| p@,
                    ) + seq![v@.subrange(seg_start as int, i as int)]);
                }
                seg_start = i + 1;
            }
        }
        i = i + 1;
    }
    let last = crate::text::subrange_chars(v, seg_start, n);
    let ghost old_segs = segs@;
    segs.push(last);
    proof {
        assert(segs@.map_values(|p: Vec<char>| p@) =~= old_segs.map_values(|p: Vec<char>| p@)
            + seq![v@.subrange(seg_start as int, n as int)]);
        assert(segs@.map_values(|p: Vec<char>| p@) =~= split_args_spec(v@));
    }
    segs
}

/// The string with one layer of backslash escapes removed: each `\X` becomes
/// `X`, and a trailing lone backslash is dropped.
pub open spec fn unescape_spec(s: Seq<char>) -> Seq<char>
    decreases s.len(),
{
    if s.len() == 0 {
        Seq::empty()
    } else if s[0] == '\\' {
        if s.len() == 1 {
            Seq::empty()
        } else {
            seq![s[1]] + unescape_spec(s.subrange(2, s.len() as int))
        }
    } else {
        seq![s[0]] + unescape_spec(s.subrange(1, s.len() as int))
    }
}

/// The string with a backslash inserted before every character in `special`.
pub open spec fn escape_with(s: Seq<char>, special: Set<char>) -> Seq<char>
    decreases s.len(),
{
    if s.len() == 0 {
        Seq::empty()
    } else if special.contains(s[0]) {
        seq!['\\', s[0]] + escape_with(s.drop_first(), special)
    } else {
        seq![s[0]] + escape_with(s.drop_first(), special)
    }
}

/// The characters escaped in a failure token: backslash and both brackets.
pub open spec fn bracket_specials() -> Set<char> {
    set!['\\', '[', ']']
}

/// The characters escaped by the escaping handler: backslash, both brackets
/// and the argument separator.
pub open spec fn full_specials() -> Set<char> {
    set!['\\', '[', ']', '/']
}

/// Removes one layer of backslash escapes from a character vector.
pub fn unescape_chars(v: &Vec<char>) -> (r: Vec<char>)
    ensures
        r@ == unescape_spec(v@),
{
    let n = v.len();
    let mut r: Vec<char> = Vec::new();
    let mut i: usize = 0;
    proof {
        assert(v@.skip(0) =~= v@);
        assert(r@ + unescape_spec(v@) =~= unescape_spec(v@));
    }
    while i < n
        invariant
            i <= n,
            n == v@.len(),
            unescape_spec(v@) == r@ + unescape_spec(v@.skip(i as int)),
        decreases n - i,
    {
        let ghost rem = v@.skip(i as int);
        proof {
            assert(rem[0] == v@[i as int]);
        }
        if v[i] == '\\' {
            if i + 1 < n {
                proof {
                    assert(rem[1] == v@[i + 1]);
                    assert(rem.subrange(2, rem.len() as int) =~= v@.skip(i + 2));
                }
                r.push(v[i + 1]);
                i = i + 2;
            } else {
                proof {
                    assert(rem.len() == 1);
                }
                i = n;
            }
        } else {
            proof {
                assert(rem.subrange(1, rem.len() as int) =~= v@.skip(i + 1));
            }
            r.push(v[i]);
            i = i + 1;
        }
    }
    proof {
        assert(v@.skip(n as int) =~= Seq::<char>::empty());
        assert(r@ =~= unescape_spec(v@));
    }
    r
}

/// Inserts a backslash before every backslash and bracket, and before every
/// `/` as well when `include_slash` is set.
pub fn escape_chars(v: &Vec<char>, include_slash: bool) -> (r: Vec<char>)
    ensures
        r@ == escape_with(
            v@,
            if include_slash {
                full_specials()
            } else {
                bracket_specials()
            },
        ),
{
    let ghost special = if include_slash {
        full_specials()
    } else {
        bracket_specials()
    };
    let n = v.len();
    let mut r: Vec<char> = Vec::new();
    let mut i: usize = 0;
    proof {
        assert(v@.skip(0) =~= v@);
        assert(r@ + escape_with(v@, special) =~= escape_with(v@, special));
    }
    while i < n
        invariant
            i <= n,
            n == v@.len(),
            special == (if include_slash {
                full_specials()
            } else {
                bracket_specials()
            }),
            escape_with(v@, special) == r@ + escape_with(v@.skip(i as int), special),
        decreases n - i,
    {
        let ghost rem = v@.skip(i as int);
        proof {
            assert(rem[0] == v@[i as int]);
            assert(rem.drop_first() =~= v@.skip(i + 1));
        }
        let c = v[i];
        let is_special = c == '\\' || c == '[' || c == ']' || (include_slash && c == '/');
        proof {
            assert(is_special == special.contains(c));
        }
        if is_special {
            r.push('\\');
        }
        r.push(c);
        i = i + 1;
    }
    proof {
        assert(v@.skip(n as int) =~= Seq::<char>::empty());
        assert(r@ =~= escape_with(v@, special));
    }
    r
}

/// A scan that starts past a fixed prefix sees only what follows it.
pub(crate) proof fn lemma_scan_unescaped_concat(prefix: Seq<char>, t: Seq<char>, j: int, esc: bool, c: char)
    requires
        0 <= j,
    ensures
        scan_unescaped(prefix + t, prefix.len() + j, esc, c) == scan_unescaped(t, j, esc, c),
    decreases t.len() - j,
{
    let s = prefix + t;
    let i = prefix.len() + j;
    if j >= t.len() {
    } else {
        assert(s[i] == t[j]);
        if esc {
            lemma_scan_unescaped_concat(prefix, t, j + 1, false, c);
        } else if t[j] == '\\' {
            lemma_scan_unescaped_concat(prefix, t, j + 1, true, c);
        } else if t[j] == c {
        } else {
            lemma_scan_unescaped_concat(prefix, t, j + 1, false, c);
        }
    }
}

/// A scan may skip over leading characters that are neither backslashes
/// nor the sought character.
pub(crate) proof fn lemma_scan_skip_plain(s: Seq<char>, i: int, c: char)
    requires
        0 <= i <= s.len(),
        forall|j: int| 0 <= j < i ==> s[j] != '\\' && s[j] != c,
    ensures
        scan_unescaped(s, 0, false, c) == scan_unescaped(s, i, false, c),
    decreases i,
{
    if i > 0 {
        lemma_scan_skip_plain(s, i - 1, c);
    }
}

/// Escaping leaves no unescaped occurrence of any escaped character: the
/// failure token built from escaped error text cannot be parsed as brackets.
pub proof fn lemma_escape_kills_unescaped(s: Seq<char>, special: Set<char>, c: char)
    requires
        special.contains('\\'),
        special.contains(c),
    ensures
        !contains_unescaped(escape_with(s, special), c),
    decreases s.len(),
{
    if s.len() > 0 {
        let rest = escape_with(s.drop_first(), special);
        lemma_escape_kills_unescaped(s.drop_first(), special, c);
        if special.contains(s[0]) {
            let e = seq!['\\', s[0]] + rest;
            assert(e[0] == '\\');
            lemma_scan_unescaped_concat(seq!['\\', s[0]], rest, 0, false, c);
            assert(scan_unescaped(e, 1, true, c) == scan_unescaped(e, 2, false, c));
        } else {
            let e = seq![s[0]] + rest;
            assert(e[0] == s[0]);
            assert(s[0] != '\\' && s[0] != c);
            lemma_scan_unescaped_concat(seq![s[0]], rest, 0, false, c);
        }
    }
}

/// Unescaping is a left inverse of escaping: removing one layer of escapes
/// from an escaped string restores the original, whichever set of characters
/// (including the backslash itself) was escaped.
pub proof fn lemma_unescape_escape(s: Seq<char>, special: Set<char>)
    requires
        special.contains('\\'),
    ensures
        unescape_spec(escape_with(s, special)) == s,
    decreases s.len(),
{
    if s.len() == 0 {
        assert(unescape_spec(escape_with(s, special)) =~= s);
    } else {
        let rest = escape_with(s.drop_first(), special);
        lemma_unescape_escape(s.drop_first(), special);
        if special.contains(s[0]) {
            let e = seq!['\\', s[0]] + rest;
            assert(e[0] == '\\');
            assert(e[1] == s[0]);
            assert(e.len() >= 2);
            assert(e.subrange(2, e.len() as int) =~= rest);
            assert(unescape_spec(e) =~= seq![s[0]] + s.drop_first());
            assert(seq![s[0]] + s.drop_first() =~= s);
        } else {
            let e = seq![s[0]] + rest;
            assert(e[0] == s[0]);
            assert(s[0] != '\\');
            assert(e.subrange(1, e.len() as int) =~= rest);
            assert(unescape_spec(e) =~= seq![s[0]] + s.drop_first());
            assert(seq![s[0]] + s.drop_first() =~= s);
        }
    }
}

/// Removes one layer of backslash escapes: each `\X` becomes `X`, and a
/// trailing lone backslash is dropped.
pub fn unescape(original: &str) -> (r: String)
    ensures
        r@ == unescape_spec(original@),
{
    let v = str_to_chars(original);
    let u = unescape_chars(&v);
    chars_to_string(&u)
}

/// An object containing data about a macro match.
#[derive(PartialEq, Eq, Debug, Clone, Default)]
pub struct MacroRange {
    /// The character index of the opening bracket.
    pub start: usize,
    /// The character index one past the closing bracket.
    pub end: usize,
    /// The macro's name, as written (not yet unescaped).
    pub name: String,
    /// The macro's arguments, as written (not yet unescaped).
    pub arguments: Vec<String>,
}

/// The views of a sequence of strings.
pub open spec fn views_of(args: Seq<String>) -> Seq<Seq<char>> {
    args.map_values(|a: String| a@)
}

/// Splits the inside of macro brackets into its name and arguments: the
/// segments between unescaped `/` separators, the first being the name.
pub fn split_arguments(inside: &str) -> (r: (String, Vec<String>))
    ensures
        ({
            let segs = split_args_spec(inside@);
            r.0@ == segs[0] && views_of(r.1@) == segs.drop_first()
        }),
{
    let v = str_to_chars(inside);
    let (name, args) = split_chars_named(&v);
    (chars_to_string(&name), strings_of(&args))
}

/// Splits a character vector on unescaped `/`: the first segment named
/// apart from the rest.
pub fn split_chars_named(v: &Vec<char>) -> (r: (Vec<char>, Vec<Vec<char>>))
    ensures
        ({
            let segs = split_args_spec(v@);
            r.0@ == segs[0] && r.1@.map_values(|p: Vec<char>| p@) == segs.drop_first()
        }),
{
    let mut segs = split_chars(v);
    let name = segs.remove(0);
    proof {
        assert(segs@.map_values(|p: Vec<char>| p@) =~= split_args_spec(v@).drop_first());
    }
    (name, segs)
}

/// Converts each character vector into a string.
pub fn strings_of(parts: &Vec<Vec<char>>) -> (r: Vec<String>)
    ensures
        views_of(r@) == parts@.map_values(|p: Vec<char>| p@),
{
    let mut r: Vec<String> = Vec::new();
    let mut i: usize = 0;
    while i < parts.len()
        invariant
            i <= parts@.len(),
            r@.len() == i,
            forall|j: int| 0 <= j < i ==> r@[j]@ == parts@[j]@,
        decreases parts@.len() - i,
    {
        let s = chars_to_string(&parts[i]);
        r.push(s);
        i = i + 1;
    }
    proof {
        assert(views_of(r@) =~= parts@.map_values(|p: Vec<char>| p@));
    }
    r
}

/// Tries to find the first macro pair in the string: the bracket range, with
/// the interior split into a name and arguments.
pub fn find_pair(source: &str) -> (r: Option<MacroRange>)
    ensures
        ({
            match r {
                Some(m) => find_brackets_spec(source@) == Some((m.start as int, m.end as int))
                    && ({
                    let segs = split_args_spec(
                        source@.subrange(m.start + 1, m.end as int - 1),
                    );
                    m.name@ == segs[0] && views_of(m.arguments@) == segs.drop_first()
                }),
                None => find_brackets_spec(source@) is None,
            }
        }),
{
    let v = str_to_chars(source);
    match find_brackets_in(&v) {
        Some((start, end)) => {
            let inside = crate::text::subrange_chars(&v, start + 1, end - 1);
            let (name, args) = split_chars_named(&inside);
            Some(
                MacroRange {
                    start,
                    end,
                    name: chars_to_string(&name),
                    arguments: strings_of(&args),
                },
            )
        },
        None => None,
    }
}

} // verus!
