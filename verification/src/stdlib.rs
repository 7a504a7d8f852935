//! The standard library of handlers that work on strings and integers.
//!
//! Each handler is an ordinary function with an exact contract, bundled into
//! the [`StdMacro`] enum so a registry can hold the whole set. Handlers
//! whose behaviour rests on floating-point arithmetic are not part of this
//! library.

use vstd::prelude::*;
use vstd::string::StringExecFns;
use crate::execution::{Macro, MacroError, MacroErrorKind, is_not_enough, is_user_error};
use crate::numbers::{
    dec_rep,
    int_dec_rep,
    radix_rep,
    is_unsigned_dec,
    unsigned_dec_val,
    is_signed_radix,
    signed_radix_val,
    parse_i64,
    parse_u32,
    parse_usize,
    u64_to_radix,
    u64_to_dec,
    i64_to_dec,
    usize_to_dec,
};
use crate::parsing::{views_of, unescape_spec, unescape_chars, escape_with, full_specials,
    escape_chars};
use crate::text::{
    join_with,
    join_chars,
    str_to_chars,
    chars_to_string,
    push_str_chars,
    append_chars,
    chars_eq_str,
    subrange_chars,
};

verus! {

/// Builds a not-enough-arguments error for the named handler.
fn not_enough(name: &str, expected: usize, found: usize) -> (e: MacroError)
    ensures
        is_not_enough(e, name@, expected as int, found as int),
{
    MacroError::new(String::from_str(name), MacroErrorKind::not_enough_args(expected, found))
}

/// Builds a user error for the named handler.
fn user_error_chars(name: &str, msg: &Vec<char>) -> (e: MacroError)
    ensures
        is_user_error(e, name@, msg@),
{
    MacroError::new(String::from_str(name), MacroErrorKind::user(chars_to_string(msg)))
}

/// The message of a failed numeric conversion: `could not convert argument
/// <idx> "<arg>" to <ty>`.
pub open spec fn convert_msg(idx: nat, arg: Seq<char>, ty: Seq<char>) -> Seq<char> {
    "could not convert argument "@ + dec_rep(idx) + " \""@ + arg + "\" to "@ + ty
}

/// Builds the failed-conversion user error for the named handler.
fn convert_error(name: &str, idx: usize, arg: &String, ty: &str) -> (e: MacroError)
    ensures
        is_user_error(e, name@, convert_msg(idx as nat, arg@, ty@)),
{
    let mut msg: Vec<char> = Vec::new();
    push_str_chars(&mut msg, "could not convert argument ");
    let digits = usize_to_dec(idx);
    append_chars(&mut msg, &digits);
    push_str_chars(&mut msg, " \"");
    push_str_chars(&mut msg, arg.as_str());
    push_str_chars(&mut msg, "\" to ");
    push_str_chars(&mut msg, ty);
    user_error_chars(name, &msg)
}

/// Whether `s` is a decimal literal whose value fits in an `i64`.
pub open spec fn parses_i64(s: Seq<char>) -> bool {
    is_signed_radix(s, 10) && i64::MIN <= signed_radix_val(s, 10) <= i64::MAX
}

/// The `i64` value of a decimal literal.
pub open spec fn i64_of(s: Seq<char>) -> int {
    signed_radix_val(s, 10)
}

/// Whether `s` is a decimal literal whose value fits in a `usize`.
pub open spec fn parses_usize(s: Seq<char>) -> bool {
    is_unsigned_dec(s) && unsigned_dec_val(s) <= usize::MAX
}

/// Whether `s` is a decimal literal whose value fits in a `u32`.
pub open spec fn parses_u32(s: Seq<char>) -> bool {
    is_unsigned_dec(s) && unsigned_dec_val(s) <= u32::MAX
}

/// Parses every argument as an `i64`, or reports the first argument that is
/// no `i64` in a failed-conversion error named after `err_name`.
fn parse_all_i64(args: &Vec<String>, err_name: &str) -> (r: Result<Vec<i64>, MacroError>)
    ensures
        r matches Ok(vals) ==> vals@.len() == args@.len() && (forall|i: int|
            0 <= i < args@.len() ==> parses_i64(#[trigger] args@[i]@) && vals@[i]
                == i64_of(args@[i]@)),
        r matches Err(e) ==> exists|i: int|
            0 <= i < args@.len() && !parses_i64(#[trigger] args@[i]@) && (forall|j: int|
                0 <= j < i ==> parses_i64(#[trigger] args@[j]@)) && is_user_error(
                e,
                err_name@,
                convert_msg((i + 1) as nat, args@[i]@, "i64"@),
            ),
{
    let mut vals: Vec<i64> = Vec::new();
    let mut i: usize = 0;
    while i < args.len()
        invariant
            i <= args@.len(),
            vals@.len() == i,
            forall|j: int|
                0 <= j < i ==> parses_i64(#[trigger] args@[j]@) && vals@[j] == i64_of(args@[j]@),
        decreases args@.len() - i,
    {
        let chars = str_to_chars(args[i].as_str());
        match parse_i64(&chars) {
            Some(v) => {
                vals.push(v);
            },
            None => {
                return Err(convert_error(err_name, i + 1, &args[i], "i64"));
            },
        }
        i = i + 1;
    }
    Ok(vals)
}

/// The representation of the two's-complement bits of the `i64` that the
/// decimal literal `a` denotes, in the given base.
pub open spec fn bits_rep(a: Seq<char>, base: nat) -> Seq<char> {
    radix_rep((((signed_radix_val(a, 10)) as i64) as u64) as nat, base)
}

/// Formats every argument, read as a decimal `i64`, in the given base
/// (the two's-complement bits for negative numbers), joined by `/`.
fn radix_all_macro(args: &Vec<String>, name: &str, base: u64) -> (r: Result<String, MacroError>)
    requires
        2 <= base <= 36,
    ensures
        r matches Ok(out) ==> (forall|i: int|
            0 <= i < args@.len() ==> parses_i64(#[trigger] args@[i]@)) && out@ == join_with(
            views_of(args@).map_values(|a: Seq<char>| bits_rep(a, base as nat)),
            seq!['/'],
        ),
        r matches Err(e) ==> exists|i: int|
            0 <= i < args@.len() && !parses_i64(#[trigger] args@[i]@) && (forall|j: int|
                0 <= j < i ==> parses_i64(#[trigger] args@[j]@)) && is_user_error(
                e,
                name@,
                convert_msg((i + 1) as nat, args@[i]@, "i64"@),
            ),
{
    let vals = match parse_all_i64(args, name) {
        Ok(v) => v,
        Err(e) => {
            return Err(e);
        },
    };
    let mut parts: Vec<Vec<char>> = Vec::new();
    let mut i: usize = 0;
    while i < vals.len()
        invariant
            i <= vals@.len(),
            vals@.len() == args@.len(),
            2 <= base <= 36,
            parts@.len() == i,
            forall|j: int|
                0 <= j < args@.len() ==> parses_i64(#[trigger] args@[j]@) && vals@[j] == i64_of(
                    args@[j]@,
                ),
            forall|j: int|
                0 <= j < i ==> (#[trigger] parts@[j])@ == bits_rep(args@[j]@, base as nat),
        decreases vals@.len() - i,
    {
        let p = u64_to_radix(vals[i] as u64, base);
        parts.push(p);
        i = i + 1;
    }
    let mut sep: Vec<char> = Vec::new();
    sep.push('/');
    let joined = join_chars(&parts, &sep);
    proof {
        assert(sep@ =~= seq!['/']);
        assert(parts@.map_values(|p: Vec<char>| p@) =~= views_of(args@).map_values(
            |a: Seq<char>| bits_rep(a, base as nat),
        ));
    }
    Ok(chars_to_string(&joined))
}

/// What `hex` returns: every argument read as a decimal `i64` and written in
/// base sixteen, joined by `/`; or the first failed conversion.
pub fn hex_macro(args: &Vec<String>) -> (r: Result<String, MacroError>)
    ensures
        r matches Ok(out) ==> (forall|i: int|
            0 <= i < args@.len() ==> parses_i64(#[trigger] args@[i]@)) && out@ == join_with(
            views_of(args@).map_values(|a: Seq<char>| bits_rep(a, 16)),
            seq!['/'],
        ),
        r matches Err(e) ==> exists|i: int|
            0 <= i < args@.len() && !parses_i64(#[trigger] args@[i]@) && (forall|j: int|
                0 <= j < i ==> parses_i64(#[trigger] args@[j]@)) && is_user_error(
                e,
                "hex"@,
                convert_msg((i + 1) as nat, args@[i]@, "i64"@),
            ),
{
    radix_all_macro(args, "hex", 16)
}

/// What `bin` returns: every argument read as a decimal `i64` and written in
/// base two, joined by `/`; or the first failed conversion.
pub fn bin_macro(args: &Vec<String>) -> (r: Result<String, MacroError>)
    ensures
        r matches Ok(out) ==> (forall|i: int|
            0 <= i < args@.len() ==> parses_i64(#[trigger] args@[i]@)) && out@ == join_with(
            views_of(args@).map_values(|a: Seq<char>| bits_rep(a, 2)),
            seq!['/'],
        ),
        r matches Err(e) ==> exists|i: int|
            0 <= i < args@.len() && !parses_i64(#[trigger] args@[i]@) && (forall|j: int|
                0 <= j < i ==> parses_i64(#[trigger] args@[j]@)) && is_user_error(
                e,
                "bin"@,
                convert_msg((i + 1) as nat, args@[i]@, "i64"@),
            ),
{
    radix_all_macro(args, "bin", 2)
}

/// What `oct` returns: every argument read as a decimal `i64` and written in
/// base eight, joined by `/`; or the first failed conversion.
pub fn oct_macro(args: &Vec<String>) -> (r: Result<String, MacroError>)
    ensures
        r matches Ok(out) ==> (forall|i: int|
            0 <= i < args@.len() ==> parses_i64(#[trigger] args@[i]@)) && out@ == join_with(
            views_of(args@).map_values(|a: Seq<char>| bits_rep(a, 8)),
            seq!['/'],
        ),
        r matches Err(e) ==> exists|i: int|
            0 <= i < args@.len() && !parses_i64(#[trigger] args@[i]@) && (forall|j: int|
                0 <= j < i ==> parses_i64(#[trigger] args@[j]@)) && is_user_error(
                e,
                "oct"@,
                convert_msg((i + 1) as nat, args@[i]@, "i64"@),
            ),
{
    radix_all_macro(args, "oct", 8)
}

/// What the comment handler (the empty name) returns: nothing.
pub fn comment_macro(args: &Vec<String>) -> (r: Result<String, MacroError>)
    ensures
        r matches Ok(out) && out@ == Seq::<char>::empty(),
{
    let _ = args;
    Ok(String::new())
}

/// What `reverse` returns: the arguments in reverse order, joined by `/`.
pub fn reverse_macro(args: &Vec<String>) -> (r: Result<String, MacroError>)
    ensures
        r matches Ok(out) && out@ == join_with(views_of(args@).reverse(), seq!['/']),
{
    let mut parts: Vec<Vec<char>> = Vec::new();
    let n = args.len();
    let mut i: usize = 0;
    while i < n
        invariant
            i <= n,
            n == args@.len(),
            parts@.len() == i,
            forall|j: int| 0 <= j < i ==> (#[trigger] parts@[j])@ == args@[n - 1 - j]@,
        decreases n - i,
    {
        let p = str_to_chars(args[n - 1 - i].as_str());
        parts.push(p);
        i = i + 1;
    }
    let mut sep: Vec<char> = Vec::new();
    sep.push('/');
    let joined = join_chars(&parts, &sep);
    proof {
        assert(sep@ =~= seq!['/']);
        assert(parts@.map_values(|p: Vec<char>| p@) =~= views_of(args@).reverse());
    }
    Ok(chars_to_string(&joined))
}

/// What `unescape` returns: its first argument with one layer of backslash
/// escapes removed, or a not-enough-arguments error.
pub fn unescape_macro(args: &Vec<String>) -> (r: Result<String, MacroError>)
    ensures
        args@.len() == 0 ==> (r matches Err(e) && is_not_enough(e, "unescape"@, 1, 0)),
        args@.len() > 0 ==> (r matches Ok(out) && out@ == unescape_spec(args@[0]@)),
{
    if args.len() == 0 {
        return Err(not_enough("unescape", 1, 0));
    }
    let chars = str_to_chars(args[0].as_str());
    let u = unescape_chars(&chars);
    Ok(chars_to_string(&u))
}

/// What `equal` returns: `true` when all arguments are equal (vacuously so
/// for fewer than two), else `false`.
pub fn equal_macro(args: &Vec<String>) -> (r: Result<String, MacroError>)
    ensures
        r matches Ok(out) && out@ == (if forall|i: int|
            0 <= i < args@.len() - 1 ==> args@[i]@ == #[trigger] args@[i + 1]@ {
            "true"@
        } else {
            "false"@
        }),
{
    let n = args.len();
    if n <= 1 {
        return Ok(String::from_str("true"));
    }
    let mut i: usize = 0;
    while i < n - 1
        invariant
            n == args@.len(),
            2 <= n,
            i <= n - 1,
            forall|j: int| 0 <= j < i ==> args@[j]@ == #[trigger] args@[j + 1]@,
        decreases n - i,
    {
        let a = str_to_chars(args[i].as_str());
        if !chars_eq_str(&a, args[i + 1].as_str()) {
            return Ok(String::from_str("false"));
        }
        i = i + 1;
    }
    Ok(String::from_str("true"))
}

/// What `len` returns: the number of characters of each argument, joined by
/// `/`.
pub fn len_macro(args: &Vec<String>) -> (r: Result<String, MacroError>)
    ensures
        r matches Ok(out) && out@ == join_with(
            views_of(args@).map_values(|a: Seq<char>| dec_rep(a.len())),
            seq!['/'],
        ),
{
    let mut parts: Vec<Vec<char>> = Vec::new();
    let mut i: usize = 0;
    while i < args.len()
        invariant
            i <= args@.len(),
            parts@.len() == i,
            forall|j: int| 0 <= j < i ==> (#[trigger] parts@[j])@ == dec_rep(args@[j]@.len()),
        decreases args@.len() - i,
    {
        let chars = str_to_chars(args[i].as_str());
        let d = usize_to_dec(chars.len());
        parts.push(d);
        i = i + 1;
    }
    let mut sep: Vec<char> = Vec::new();
    sep.push('/');
    let joined = join_chars(&parts, &sep);
    proof {
        assert(sep@ =~= seq!['/']);
        assert(parts@.map_values(|p: Vec<char>| p@) =~= views_of(args@).map_values(
            |a: Seq<char>| dec_rep(a.len()),
        ));
    }
    Ok(chars_to_string(&joined))
}

/// What `ord` returns: the code point of each character of its first
/// argument in decimal, joined by `/`; or a not-enough-arguments error.
pub fn ord_macro(args: &Vec<String>) -> (r: Result<String, MacroError>)
    ensures
        args@.len() == 0 ==> (r matches Err(e) && is_not_enough(e, "ord"@, 1, 0)),
        args@.len() > 0 ==> (r matches Ok(out) && out@ == join_with(
            args@[0]@.map_values(|c: char| dec_rep((c as u32) as nat)),
            seq!['/'],
        )),
{
    if args.len() == 0 {
        return Err(not_enough("ord", 1, 0));
    }
    let chars = str_to_chars(args[0].as_str());
    let mut parts: Vec<Vec<char>> = Vec::new();
    let mut i: usize = 0;
    while i < chars.len()
        invariant
            i <= chars@.len(),
            parts@.len() == i,
            forall|j: int|
                0 <= j < i ==> (#[trigger] parts@[j])@ == dec_rep((chars@[j] as u32) as nat),
        decreases chars@.len() - i,
    {
        let d = u64_to_dec((chars[i] as u32) as u64);
        parts.push(d);
        i = i + 1;
    }
    let mut sep: Vec<char> = Vec::new();
    sep.push('/');
    let joined = join_chars(&parts, &sep);
    proof {
        assert(sep@ =~= seq!['/']);
        assert(parts@.map_values(|p: Vec<char>| p@) =~= args@[0]@.map_values(
            |c: char| dec_rep((c as u32) as nat),
        ));
    }
    Ok(chars_to_string(&joined))
}

/// What `join` returns: the remaining arguments joined by the unescaped
/// first argument; or a not-enough-arguments error.
pub fn join_macro(args: &Vec<String>) -> (r: Result<String, MacroError>)
    ensures
        args@.len() == 0 ==> (r matches Err(e) && is_not_enough(e, "join"@, 1, 0)),
        args@.len() > 0 ==> (r matches Ok(out) && out@ == join_with(
            views_of(args@).drop_first(),
            unescape_spec(args@[0]@),
        )),
{
    if args.len() == 0 {
        return Err(not_enough("join", 1, 0));
    }
    let sep_raw = str_to_chars(args[0].as_str());
    let sep = unescape_chars(&sep_raw);
    let mut parts: Vec<Vec<char>> = Vec::new();
    let mut i: usize = 1;
    while i < args.len()
        invariant
            1 <= i <= args@.len() || (i == 1 && args@.len() <= 1),
            parts@.len() == i - 1,
            forall|j: int| 0 <= j < i - 1 ==> (#[trigger] parts@[j])@ == args@[j + 1]@,
        decreases args@.len() - i,
    {
        let p = str_to_chars(args[i].as_str());
        parts.push(p);
        i = i + 1;
    }
    let joined = join_chars(&parts, &sep);
    proof {
        assert(parts@.map_values(|p: Vec<char>| p@) =~= views_of(args@).drop_first());
    }
    Ok(chars_to_string(&joined))
}

/// What `escape` returns: all arguments joined by `/`, with a backslash
/// inserted before every backslash, bracket and `/`.
pub fn escape_macro(args: &Vec<String>) -> (r: Result<String, MacroError>)
    ensures
        r matches Ok(out) && out@ == escape_with(
            join_with(views_of(args@), seq!['/']),
            full_specials(),
        ),
{
    let mut parts: Vec<Vec<char>> = Vec::new();
    let mut i: usize = 0;
    while i < args.len()
        invariant
            i <= args@.len(),
            parts@.len() == i,
            forall|j: int| 0 <= j < i ==> (#[trigger] parts@[j])@ == args@[j]@,
        decreases args@.len() - i,
    {
        let p = str_to_chars(args[i].as_str());
        parts.push(p);
        i = i + 1;
    }
    let mut sep: Vec<char> = Vec::new();
    sep.push('/');
    let joined = join_chars(&parts, &sep);
    let escaped = escape_chars(&joined, true);
    proof {
        assert(sep@ =~= seq!['/']);
        assert(parts@.map_values(|p: Vec<char>| p@) =~= views_of(args@));
    }
    Ok(chars_to_string(&escaped))
}

/// The first argument repeated `n` times with the separator between copies.
pub open spec fn repeat_join(t: Seq<char>, sep: Seq<char>, n: nat) -> Seq<char>
    decreases n,
{
    if n == 0 {
        Seq::empty()
    } else if n == 1 {
        t
    } else {
        t + sep + repeat_join(t, sep, (n - 1) as nat)
    }
}

/// What `repeat` returns: the first argument repeated as many times as the
/// second argument says, joined by the third argument (or nothing); or a
/// not-enough-arguments or failed-conversion error.
pub fn repeat_macro(args: &Vec<String>) -> (r: Result<String, MacroError>)
    ensures
        args@.len() == 0 ==> (r matches Err(e) && is_not_enough(e, "repeat"@, 2, 0)),
        args@.len() == 1 ==> (r matches Err(e) && is_not_enough(e, "repeat"@, 2, 1)),
        args@.len() >= 2 ==> (if parses_usize(args@[1]@) {
            r matches Ok(out) && out@ == repeat_join(
                args@[0]@,
                if args@.len() >= 3 {
                    args@[2]@
                } else {
                    Seq::empty()
                },
                unsigned_dec_val(args@[1]@) as nat,
            )
        } else {
            r matches Err(e) && is_user_error(
                e,
                "repeat"@,
                convert_msg(2, args@[1]@, "usize"@),
            )
        }),
{
    if args.len() == 0 {
        return Err(not_enough("repeat", 2, 0));
    }
    if args.len() == 1 {
        return Err(not_enough("repeat", 2, 1));
    }
    let count_chars = str_to_chars(args[1].as_str());
    let count = match parse_usize(&count_chars) {
        Some(c) => c,
        None => {
            return Err(convert_error("repeat", 2, &args[1], "usize"));
        },
    };
    let target = str_to_chars(args[0].as_str());
    let sep: Vec<char> = if args.len() >= 3 {
        str_to_chars(args[2].as_str())
    } else {
        Vec::new()
    };
    let ghost sep_view = if args@.len() >= 3 {
        args@[2]@
    } else {
        Seq::<char>::empty()
    };
    let mut out: Vec<char> = Vec::new();
    if count == 0 {
        proof {
            assert(out@ =~= repeat_join(target@, sep_view, 0));
        }
        return Ok(chars_to_string(&out));
    }
    append_chars(&mut out, &target);
    let mut i: usize = 1;
    while i < count
        invariant
            1 <= i <= count,
            sep@ == sep_view,
            out@ == repeat_join(target@, sep_view, i as nat),
        decreases count - i,
    {
        append_chars(&mut out, &sep);
        append_chars(&mut out, &target);
        i = i + 1;
        proof {
            lemma_repeat_join_step(target@, sep_view, i as nat);
        }
    }
    Ok(chars_to_string(&out))
}

/// Repeating once more appends the separator and another copy.
proof fn lemma_repeat_join_step(t: Seq<char>, sep: Seq<char>, n: nat)
    requires
        n >= 2,
    ensures
        repeat_join(t, sep, n) == repeat_join(t, sep, (n - 1) as nat) + sep + t,
    decreases n,
{
    if n == 2 {
        assert(repeat_join(t, sep, 2) =~= t + sep + t);
    } else {
        lemma_repeat_join_step(t, sep, (n - 1) as nat);
        assert(repeat_join(t, sep, n) =~= repeat_join(t, sep, (n - 1) as nat) + sep + t);
    }
}

/// The message of an out-of-range index: `index <idx> is out of bounds`.
pub open spec fn oob_msg(idx: nat) -> Seq<char> {
    "index "@ + dec_rep(idx) + " is out of bounds"@
}

/// What `select` returns: for the index `#`, the number of arguments after
/// it; otherwise the argument at the given index, where index zero is the
/// index argument itself; or an error for a missing argument, a failed
/// conversion or an out-of-range index.
pub fn select_macro(args: &Vec<String>) -> (r: Result<String, MacroError>)
    ensures
        args@.len() == 0 ==> (r matches Err(e) && is_not_enough(e, "select"@, 1, 0)),
        args@.len() > 0 ==> (if args@[0]@ == "#"@ {
            r matches Ok(out) && out@ == dec_rep((args@.len() - 1) as nat)
        } else if !parses_usize(args@[0]@) {
            r matches Err(e) && is_user_error(
                e,
                "select"@,
                convert_msg(1, args@[0]@, "usize"@),
            )
        } else if unsigned_dec_val(args@[0]@) < args@.len() {
            r matches Ok(out) && out@ == args@[unsigned_dec_val(args@[0]@)]@
        } else {
            r matches Err(e) && is_user_error(
                e,
                "select"@,
                oob_msg(unsigned_dec_val(args@[0]@) as nat),
            )
        }),
{
    if args.len() == 0 {
        return Err(not_enough("select", 1, 0));
    }
    let first = str_to_chars(args[0].as_str());
    if chars_eq_str(&first, "#") {
        let d = usize_to_dec(args.len() - 1);
        return Ok(chars_to_string(&d));
    }
    let index = match parse_usize(&first) {
        Some(v) => v,
        None => {
            return Err(convert_error("select", 1, &args[0], "usize"));
        },
    };
    if index < args.len() {
        Ok(args[index].clone())
    } else {
        let mut msg: Vec<char> = Vec::new();
        push_str_chars(&mut msg, "index ");
        let d = usize_to_dec(index);
        append_chars(&mut msg, &d);
        push_str_chars(&mut msg, " is out of bounds");
        Err(user_error_chars("select", &msg))
    }
}

/// What `error` returns: always a user error carrying the first argument,
/// or `no reason given` without one.
pub fn error_macro(args: &Vec<String>) -> (r: Result<String, MacroError>)
    ensures
        r matches Err(e) && is_user_error(
            e,
            "error"@,
            if args@.len() > 0 {
                args@[0]@
            } else {
                "no reason given"@
            },
        ),
{
    if args.len() > 0 {
        Err(MacroError::new(String::from_str("error"), MacroErrorKind::user(args[0].clone())))
    } else {
        Err(
            MacroError::new(
                String::from_str("error"),
                MacroErrorKind::user(String::from_str("no reason given")),
            ),
        )
    }
}

/// The message of an over-long shift: `shift amount of <n> is too large`.
pub open spec fn shift_msg(n: nat) -> Seq<char> {
    "shift amount of "@ + dec_rep(n) + " is too large"@
}

/// Parses the two arguments of a shift handler: a decimal `i64` and a
/// decimal `u32` shift amount.
fn parse_shift_args(args: &Vec<String>, name: &str) -> (r: Result<(i64, u32), MacroError>)
    ensures
        args@.len() == 0 ==> (r matches Err(e) && is_not_enough(e, name@, 2, 0)),
        args@.len() == 1 ==> (r matches Err(e) && is_not_enough(e, name@, 2, 1)),
        args@.len() >= 2 ==> (if !parses_i64(args@[0]@) {
            r matches Err(e) && is_user_error(e, name@, convert_msg(1, args@[0]@, "i64"@))
        } else if !parses_u32(args@[1]@) {
            r matches Err(e) && is_user_error(e, name@, convert_msg(2, args@[1]@, "u32"@))
        } else {
            r matches Ok(p) && p.0 == i64_of(args@[0]@) && p.1 == unsigned_dec_val(args@[1]@)
        }),
{
    if args.len() == 0 {
        return Err(not_enough(name, 2, 0));
    }
    if args.len() == 1 {
        return Err(not_enough(name, 2, 1));
    }
    let lhs_chars = str_to_chars(args[0].as_str());
    let lhs = match parse_i64(&lhs_chars) {
        Some(v) => v,
        None => {
            return Err(convert_error(name, 1, &args[0], "i64"));
        },
    };
    let rhs_chars = str_to_chars(args[1].as_str());
    let rhs = match parse_u32(&rhs_chars) {
        Some(v) => v,
        None => {
            return Err(convert_error(name, 2, &args[1], "u32"));
        },
    };
    Ok((lhs, rhs))
}

/// Builds the over-long-shift user error.
fn shift_error(name: &str, amount: u32) -> (e: MacroError)
    ensures
        is_user_error(e, name@, shift_msg(amount as nat)),
{
    let mut msg: Vec<char> = Vec::new();
    push_str_chars(&mut msg, "shift amount of ");
    let d = u64_to_dec(amount as u64);
    append_chars(&mut msg, &d);
    push_str_chars(&mut msg, " is too large");
    user_error_chars(name, &msg)
}

/// What `shl` returns: the first argument's bits shifted left by the
/// second, reading and writing the bits as a decimal `i64`; shifts of 64 or
/// more are an error.
pub fn shl_macro(args: &Vec<String>) -> (r: Result<String, MacroError>)
    ensures
        args@.len() == 0 ==> (r matches Err(e) && is_not_enough(e, "shl"@, 2, 0)),
        args@.len() == 1 ==> (r matches Err(e) && is_not_enough(e, "shl"@, 2, 1)),
        args@.len() >= 2 ==> (if !parses_i64(args@[0]@) {
            r matches Err(e) && is_user_error(e, "shl"@, convert_msg(1, args@[0]@, "i64"@))
        } else if !parses_u32(args@[1]@) {
            r matches Err(e) && is_user_error(e, "shl"@, convert_msg(2, args@[1]@, "u32"@))
        } else if unsigned_dec_val(args@[1]@) >= 64 {
            r matches Err(e) && is_user_error(
                e,
                "shl"@,
                shift_msg(unsigned_dec_val(args@[1]@) as nat),
            )
        } else {
            r matches Ok(out) && out@ == int_dec_rep(
                ((((i64_of(args@[0]@) as i64) as u64) << (unsigned_dec_val(args@[1]@) as u64))
                    as i64) as int,
            )
        }),
{
    let (lhs, rhs) = match parse_shift_args(args, "shl") {
        Ok(p) => p,
        Err(e) => {
            return Err(e);
        },
    };
    if rhs >= 64 {
        return Err(shift_error("shl", rhs));
    }
    let shifted = ((lhs as u64) << (rhs as u64)) as i64;
    let d = i64_to_dec(shifted);
    Ok(chars_to_string(&d))
}

/// What `shr` returns: the first argument's bits shifted right by the
/// second without keeping the sign bit, reading and writing the bits as a
/// decimal `i64`; shifts of 64 or more are an error.
pub fn shr_macro(args: &Vec<String>) -> (r: Result<String, MacroError>)
    ensures
        args@.len() == 0 ==> (r matches Err(e) && is_not_enough(e, "shr"@, 2, 0)),
        args@.len() == 1 ==> (r matches Err(e) && is_not_enough(e, "shr"@, 2, 1)),
        args@.len() >= 2 ==> (if !parses_i64(args@[0]@) {
            r matches Err(e) && is_user_error(e, "shr"@, convert_msg(1, args@[0]@, "i64"@))
        } else if !parses_u32(args@[1]@) {
            r matches Err(e) && is_user_error(e, "shr"@, convert_msg(2, args@[1]@, "u32"@))
        } else if unsigned_dec_val(args@[1]@) >= 64 {
            r matches Err(e) && is_user_error(
                e,
                "shr"@,
                shift_msg(unsigned_dec_val(args@[1]@) as nat),
            )
        } else {
            r matches Ok(out) && out@ == int_dec_rep(
                ((((i64_of(args@[0]@) as i64) as u64) >> (unsigned_dec_val(args@[1]@) as u64))
                    as i64) as int,
            )
        }),
{
    let (lhs, rhs) = match parse_shift_args(args, "shr") {
        Ok(p) => p,
        Err(e) => {
            return Err(e);
        },
    };
    if rhs >= 64 {
        return Err(shift_error("shr", rhs));
    }
    let shifted = ((lhs as u64) >> (rhs as u64)) as i64;
    let d = i64_to_dec(shifted);
    Ok(chars_to_string(&d))
}

/// What `#shr` returns: the first argument shifted right by the second,
/// keeping the sign bit; shifts of 64 or more are an error.
pub fn arith_shr_macro(args: &Vec<String>) -> (r: Result<String, MacroError>)
    ensures
        args@.len() == 0 ==> (r matches Err(e) && is_not_enough(e, "#shr"@, 2, 0)),
        args@.len() == 1 ==> (r matches Err(e) && is_not_enough(e, "#shr"@, 2, 1)),
        args@.len() >= 2 ==> (if !parses_i64(args@[0]@) {
            r matches Err(e) && is_user_error(e, "#shr"@, convert_msg(1, args@[0]@, "i64"@))
        } else if !parses_u32(args@[1]@) {
            r matches Err(e) && is_user_error(e, "#shr"@, convert_msg(2, args@[1]@, "u32"@))
        } else if unsigned_dec_val(args@[1]@) >= 64 {
            r matches Err(e) && is_user_error(
                e,
                "#shr"@,
                shift_msg(unsigned_dec_val(args@[1]@) as nat),
            )
        } else {
            r matches Ok(out) && out@ == int_dec_rep(
                ((i64_of(args@[0]@) as i64) >> (unsigned_dec_val(args@[1]@) as u64)) as int,
            )
        }),
{
    let (lhs, rhs) = match parse_shift_args(args, "#shr") {
        Ok(p) => p,
        Err(e) => {
            return Err(e);
        },
    };
    if rhs >= 64 {
        return Err(shift_error("#shr", rhs));
    }
    let shifted = lhs >> (rhs as u64);
    let d = i64_to_dec(shifted);
    Ok(chars_to_string(&d))
}

/// The bitwise AND of all values, or zero for none; folded from the left.
pub open spec fn fold_bit_and(vals: Seq<i64>) -> i64
    decreases vals.len(),
{
    if vals.len() == 0 {
        0
    } else if vals.len() == 1 {
        vals[0]
    } else {
        fold_bit_and(vals.drop_last()) & vals.last()
    }
}

/// The bitwise OR of all values, or zero for none; folded from the left.
pub open spec fn fold_bit_or(vals: Seq<i64>) -> i64
    decreases vals.len(),
{
    if vals.len() == 0 {
        0
    } else if vals.len() == 1 {
        vals[0]
    } else {
        fold_bit_or(vals.drop_last()) | vals.last()
    }
}

/// The bitwise XOR of all values, or zero for none; folded from the left.
pub open spec fn fold_bit_xor(vals: Seq<i64>) -> i64
    decreases vals.len(),
{
    if vals.len() == 0 {
        0
    } else if vals.len() == 1 {
        vals[0]
    } else {
        fold_bit_xor(vals.drop_last()) ^ vals.last()
    }
}

/// The values the arguments denote as decimal `i64`s.
pub open spec fn i64s_of(av: Seq<Seq<char>>) -> Seq<i64> {
    av.map_values(|a: Seq<char>| (signed_radix_val(a, 10)) as i64)
}

/// What `#not` returns: the bitwise NOT of each argument, joined by `/`.
/// A failed conversion is reported under the name `abs` — a long-standing
/// quirk that callers may match on, so it is kept.
pub fn bit_not_macro(args: &Vec<String>) -> (r: Result<String, MacroError>)
    ensures
        r matches Ok(out) ==> (forall|i: int|
            0 <= i < args@.len() ==> parses_i64(#[trigger] args@[i]@)) && out@ == join_with(
            i64s_of(views_of(args@)).map_values(|v: i64| int_dec_rep(!v as int)),
            seq!['/'],
        ),
        r matches Err(e) ==> exists|i: int|
            0 <= i < args@.len() && !parses_i64(#[trigger] args@[i]@) && (forall|j: int|
                0 <= j < i ==> parses_i64(#[trigger] args@[j]@)) && is_user_error(
                e,
                "abs"@,
                convert_msg((i + 1) as nat, args@[i]@, "i64"@),
            ),
{
    let vals = match parse_all_i64(args, "abs") {
        Ok(v) => v,
        Err(e) => {
            return Err(e);
        },
    };
    let mut parts: Vec<Vec<char>> = Vec::new();
    let mut i: usize = 0;
    while i < vals.len()
        invariant
            i <= vals@.len(),
            vals@.len() == args@.len(),
            parts@.len() == i,
            forall|j: int|
                0 <= j < args@.len() ==> parses_i64(#[trigger] args@[j]@) && vals@[j] == i64_of(
                    args@[j]@,
                ),
            forall|j: int|
                0 <= j < i ==> (#[trigger] parts@[j])@ == int_dec_rep(!(vals@[j]) as int),
        decreases vals@.len() - i,
    {
        let d = i64_to_dec(!vals[i]);
        parts.push(d);
        i = i + 1;
    }
    let mut sep: Vec<char> = Vec::new();
    sep.push('/');
    let joined = join_chars(&parts, &sep);
    proof {
        assert(sep@ =~= seq!['/']);
        assert(parts@.map_values(|p: Vec<char>| p@) =~= i64s_of(views_of(args@)).map_values(
            |v: i64| int_dec_rep(!v as int),
        ));
    }
    Ok(chars_to_string(&joined))
}

/// Folds the parsed arguments with a bitwise operation chosen by `op`:
/// zero for AND, one for OR, two for XOR.
fn bit_fold_macro(args: &Vec<String>, name: &str, op: u8) -> (r: Result<String, MacroError>)
    requires
        op < 3,
    ensures
        r matches Ok(out) ==> (forall|i: int|
            0 <= i < args@.len() ==> parses_i64(#[trigger] args@[i]@)) && out@ == int_dec_rep(
            (if op == 0 {
                fold_bit_and(i64s_of(views_of(args@)))
            } else if op == 1 {
                fold_bit_or(i64s_of(views_of(args@)))
            } else {
                fold_bit_xor(i64s_of(views_of(args@)))
            }) as int,
        ),
        r matches Err(e) ==> exists|i: int|
            0 <= i < args@.len() && !parses_i64(#[trigger] args@[i]@) && (forall|j: int|
                0 <= j < i ==> parses_i64(#[trigger] args@[j]@)) && is_user_error(
                e,
                name@,
                convert_msg((i + 1) as nat, args@[i]@, "i64"@),
            ),
{
    let ghost nums = i64s_of(views_of(args@));
    let vals = match parse_all_i64(args, name) {
        Ok(v) => v,
        Err(e) => {
            return Err(e);
        },
    };
    proof {
        assert(vals@ =~= nums);
    }
    if vals.len() == 0 {
        let d = i64_to_dec(0);
        return Ok(chars_to_string(&d));
    }
    let mut acc: i64 = vals[0];
    let mut i: usize = 1;
    while i < vals.len()
        invariant
            1 <= i <= vals@.len(),
            vals@ == nums,
            op < 3,
            acc == (if op == 0 {
                fold_bit_and(nums.subrange(0, i as int))
            } else if op == 1 {
                fold_bit_or(nums.subrange(0, i as int))
            } else {
                fold_bit_xor(nums.subrange(0, i as int))
            }),
        decreases vals@.len() - i,
    {
        let v = vals[i];
        if op == 0 {
            acc = acc & v;
        } else if op == 1 {
            acc = acc | v;
        } else {
            acc = acc ^ v;
        }
        i = i + 1;
        proof {
            assert(nums.subrange(0, i as int).drop_last() =~= nums.subrange(0, i - 1));
            assert(nums.subrange(0, i as int).last() == nums[i - 1]);
        }
    }
    proof {
        assert(nums.subrange(0, nums.len() as int) =~= nums);
    }
    let d = i64_to_dec(acc);
    Ok(chars_to_string(&d))
}

/// What `#and` returns: the bitwise AND of all arguments, or `0` for none.
pub fn bit_and_macro(args: &Vec<String>) -> (r: Result<String, MacroError>)
    ensures
        r matches Ok(out) ==> (forall|i: int|
            0 <= i < args@.len() ==> parses_i64(#[trigger] args@[i]@)) && out@ == int_dec_rep(
            fold_bit_and(i64s_of(views_of(args@))) as int,
        ),
        r matches Err(e) ==> exists|i: int|
            0 <= i < args@.len() && !parses_i64(#[trigger] args@[i]@) && (forall|j: int|
                0 <= j < i ==> parses_i64(#[trigger] args@[j]@)) && is_user_error(
                e,
                "#and"@,
                convert_msg((i + 1) as nat, args@[i]@, "i64"@),
            ),
{
    bit_fold_macro(args, "#and", 0)
}

/// What `#or` returns: the bitwise OR of all arguments, or `0` for none.
pub fn bit_or_macro(args: &Vec<String>) -> (r: Result<String, MacroError>)
    ensures
        r matches Ok(out) ==> (forall|i: int|
            0 <= i < args@.len() ==> parses_i64(#[trigger] args@[i]@)) && out@ == int_dec_rep(
            fold_bit_or(i64s_of(views_of(args@))) as int,
        ),
        r matches Err(e) ==> exists|i: int|
            0 <= i < args@.len() && !parses_i64(#[trigger] args@[i]@) && (forall|j: int|
                0 <= j < i ==> parses_i64(#[trigger] args@[j]@)) && is_user_error(
                e,
                "#or"@,
                convert_msg((i + 1) as nat, args@[i]@, "i64"@),
            ),
{
    bit_fold_macro(args, "#or", 1)
}

/// What `#xor` returns: the bitwise XOR of all arguments, or `0` for none.
pub fn bit_xor_macro(args: &Vec<String>) -> (r: Result<String, MacroError>)
    ensures
        r matches Ok(out) ==> (forall|i: int|
            0 <= i < args@.len() ==> parses_i64(#[trigger] args@[i]@)) && out@ == int_dec_rep(
            fold_bit_xor(i64s_of(views_of(args@))) as int,
        ),
        r matches Err(e) ==> exists|i: int|
            0 <= i < args@.len() && !parses_i64(#[trigger] args@[i]@) && (forall|j: int|
                0 <= j < i ==> parses_i64(#[trigger] args@[j]@)) && is_user_error(
                e,
                "#xor"@,
                convert_msg((i + 1) as nat, args@[i]@, "i64"@),
            ),
{
    bit_fold_macro(args, "#xor", 2)
}

/// What the seahash algorithm makes of a string's bytes. The algorithm's
/// seed keys are fixed constants, so the result depends on the characters
/// alone.
pub uninterp spec fn seahash_of(s: Seq<char>) -> u64;

/// Relies on `seahash::hash`: a pure function of the input bytes, using the
/// crate's fixed default seed keys.
#[verifier::external_body]
fn seahash_str(s: &str) -> (h: u64)
    ensures
        h == seahash_of(s@),
{
    seahash::hash(s.as_bytes())
}

/// What `hash` returns: the 64-bit seahash of each argument in decimal,
/// joined by `/`.
pub fn hash_macro(args: &Vec<String>) -> (r: Result<String, MacroError>)
    ensures
        r matches Ok(out) && out@ == join_with(
            views_of(args@).map_values(|a: Seq<char>| dec_rep(seahash_of(a) as nat)),
            seq!['/'],
        ),
{
    let mut parts: Vec<Vec<char>> = Vec::new();
    let mut i: usize = 0;
    while i < args.len()
        invariant
            i <= args@.len(),
            parts@.len() == i,
            forall|j: int|
                0 <= j < i ==> (#[trigger] parts@[j])@ == dec_rep(seahash_of(args@[j]@) as nat),
        decreases args@.len() - i,
    {
        let h = seahash_str(args[i].as_str());
        let d = u64_to_dec(h);
        parts.push(d);
        i = i + 1;
    }
    let mut sep: Vec<char> = Vec::new();
    sep.push('/');
    let joined = join_chars(&parts, &sep);
    proof {
        assert(sep@ =~= seq!['/']);
        assert(parts@.map_values(|p: Vec<char>| p@) =~= views_of(args@).map_values(
            |a: Seq<char>| dec_rep(seahash_of(a) as nat),
        ));
    }
    Ok(chars_to_string(&joined))
}

/// What Unicode lowercasing makes of a string. The result depends on the
/// characters alone.
pub uninterp spec fn lower_of(s: Seq<char>) -> Seq<char>;

/// What Unicode uppercasing makes of a string. The result depends on the
/// characters alone.
pub uninterp spec fn upper_of(s: Seq<char>) -> Seq<char>;

/// Relies on `str::to_lowercase`: the Unicode lowercase mapping, a pure
/// function of the characters.
#[verifier::external_body]
fn to_lower_str(s: &str) -> (r: String)
    ensures
        r@ == lower_of(s@),
{
    s.to_lowercase()
}

/// Relies on `str::to_uppercase`: the Unicode uppercase mapping, a pure
/// function of the characters.
#[verifier::external_body]
fn to_upper_str(s: &str) -> (r: String)
    ensures
        r@ == upper_of(s@),
{
    s.to_uppercase()
}

/// What `lower` returns: each argument lowercased, joined by `/`.
pub fn lower_macro(args: &Vec<String>) -> (r: Result<String, MacroError>)
    ensures
        r matches Ok(out) && out@ == join_with(
            views_of(args@).map_values(|a: Seq<char>| lower_of(a)),
            seq!['/'],
        ),
{
    let mut parts: Vec<Vec<char>> = Vec::new();
    let mut i: usize = 0;
    while i < args.len()
        invariant
            i <= args@.len(),
            parts@.len() == i,
            forall|j: int| 0 <= j < i ==> (#[trigger] parts@[j])@ == lower_of(args@[j]@),
        decreases args@.len() - i,
    {
        let l = to_lower_str(args[i].as_str());
        let p = str_to_chars(l.as_str());
        parts.push(p);
        i = i + 1;
    }
    let mut sep: Vec<char> = Vec::new();
    sep.push('/');
    let joined = join_chars(&parts, &sep);
    proof {
        assert(sep@ =~= seq!['/']);
        assert(parts@.map_values(|p: Vec<char>| p@) =~= views_of(args@).map_values(
            |a: Seq<char>| lower_of(a),
        ));
    }
    Ok(chars_to_string(&joined))
}

/// What `upper` returns: each argument uppercased, joined by `/`.
pub fn upper_macro(args: &Vec<String>) -> (r: Result<String, MacroError>)
    ensures
        r matches Ok(out) && out@ == join_with(
            views_of(args@).map_values(|a: Seq<char>| upper_of(a)),
            seq!['/'],
        ),
{
    let mut parts: Vec<Vec<char>> = Vec::new();
    let mut i: usize = 0;
    while i < args.len()
        invariant
            i <= args@.len(),
            parts@.len() == i,
            forall|j: int| 0 <= j < i ==> (#[trigger] parts@[j])@ == upper_of(args@[j]@),
        decreases args@.len() - i,
    {
        let u = to_upper_str(args[i].as_str());
        let p = str_to_chars(u.as_str());
        parts.push(p);
        i = i + 1;
    }
    let mut sep: Vec<char> = Vec::new();
    sep.push('/');
    let joined = join_chars(&parts, &sep);
    proof {
        assert(sep@ =~= seq!['/']);
        assert(parts@.map_values(|p: Vec<char>| p@) =~= views_of(args@).map_values(
            |a: Seq<char>| upper_of(a),
        ));
    }
    Ok(chars_to_string(&joined))
}

/// Whether a code point is a Unicode scalar value: no surrogate, at most
/// `0x10FFFF`.
pub open spec fn valid_scalar(n: u32) -> bool {
    n < 0xD800 || (0xE000 <= n <= 0x10FFFF)
}

/// Relies on `char::from_u32`: `Some` exactly for Unicode scalar values,
/// holding the character with that code point.
#[verifier::external_body]
fn char_from_u32(n: u32) -> (r: Option<char>)
    ensures
        r is Some <==> valid_scalar(n),
        r matches Some(c) ==> c as u32 == n,
{
    char::from_u32(n)
}

/// The message of an invalid code point: `invalid codepoint at argument
/// <idx>`.
pub open spec fn invalid_cp_msg(idx: nat) -> Seq<char> {
    "invalid codepoint at argument "@ + dec_rep(idx)
}

/// What `chr` returns: the string of the characters whose code points the
/// arguments give in decimal; or the first failed conversion or invalid
/// code point.
pub fn chr_macro(args: &Vec<String>) -> (r: Result<String, MacroError>)
    ensures
        r matches Ok(out) ==> out@.len() == args@.len() && (forall|i: int|
            0 <= i < args@.len() ==> parses_u32(#[trigger] args@[i]@) && (out@[i] as u32)
                == unsigned_dec_val(args@[i]@)),
        r matches Err(e) ==> exists|i: int|
            0 <= i < args@.len() && (forall|j: int|
                0 <= j < i ==> parses_u32(#[trigger] args@[j]@) && valid_scalar(
                    unsigned_dec_val(args@[j]@) as u32,
                )) && (if !parses_u32(#[trigger] args@[i]@) {
                is_user_error(e, "chr"@, convert_msg((i + 1) as nat, args@[i]@, "u32"@))
            } else {
                !valid_scalar(unsigned_dec_val(args@[i]@) as u32) && is_user_error(
                    e,
                    "chr"@,
                    invalid_cp_msg((i + 1) as nat),
                )
            }),
{
    let mut out: Vec<char> = Vec::new();
    let mut i: usize = 0;
    while i < args.len()
        invariant
            i <= args@.len(),
            out@.len() == i,
            forall|j: int|
                0 <= j < i ==> parses_u32(#[trigger] args@[j]@) && valid_scalar(
                    unsigned_dec_val(args@[j]@) as u32,
                ) && (out@[j] as u32) == unsigned_dec_val(args@[j]@),
        decreases args@.len() - i,
    {
        let chars = str_to_chars(args[i].as_str());
        let code = match parse_u32(&chars) {
            Some(v) => v,
            None => {
                return Err(convert_error("chr", i + 1, &args[i], "u32"));
            },
        };
        match char_from_u32(code) {
            Some(c) => {
                out.push(c);
            },
            None => {
                let mut msg: Vec<char> = Vec::new();
                push_str_chars(&mut msg, "invalid codepoint at argument ");
                let d = usize_to_dec(i + 1);
                append_chars(&mut msg, &d);
                return Err(user_error_chars("chr", &msg));
            },
        }
        i = i + 1;
    }
    Ok(chars_to_string(&out))
}

/// What a regular-expression failure looks like to the library: the full
/// syntax-error text, the size limit a too-big pattern broke, or another
/// message.
pub enum RegexFailure {
    /// The pattern does not parse; carries the full multi-line error text.
    Syntax(String),
    /// The compiled pattern passed the size limit carried here.
    TooBig(usize),
    /// Any other failure, carrying its display text.
    Other(String),
}

/// Whether a pattern compiles as a regular expression (under the default
/// size limit, so a function of the pattern alone).
pub uninterp spec fn regex_compiles(pattern: Seq<char>) -> bool;

/// What replacing every match of the pattern in the haystack with the
/// replacement yields. A pure function of the three strings.
pub uninterp spec fn regex_replace_of(
    pattern: Seq<char>,
    haystack: Seq<char>,
    replacement: Seq<char>,
) -> Seq<char>;

/// Relies on `regex::Regex::new` and `regex::Regex::replace_all`: whether a
/// pattern compiles depends on the pattern alone, and the replacement of
/// all matches is a pure function of pattern, haystack and replacement. The
/// error enum of the pinned regex version holds exactly the syntax and
/// size-limit variants, so a failure here is never `Other`.
#[verifier::external_body]
fn regex_replace_all(pattern: &str, haystack: &str, replacement: &str) -> (r: Result<
    String,
    RegexFailure,
>)
    ensures
        r is Ok <==> regex_compiles(pattern@),
        r matches Ok(s) ==> s@ == regex_replace_of(pattern@, haystack@, replacement@),
        r matches Err(f) ==> !(f is Other),
{
    match regex::Regex::new(pattern) {
        Ok(re) => Ok(re.replace_all(haystack, replacement).into_owned()),
        Err(regex::Error::Syntax(msg)) => Err(RegexFailure::Syntax(msg)),
        Err(regex::Error::CompiledTooBig(limit)) => Err(RegexFailure::TooBig(limit)),
        Err(other) => Err(RegexFailure::Other(other.to_string())),
    }
}

/// The text after the last line break of `s` (all of `s` when it holds
/// none).
pub open spec fn last_line(s: Seq<char>) -> Seq<char>
    decreases s.len(),
{
    if s.len() == 0 {
        Seq::empty()
    } else if s.last() == '\n' {
        Seq::empty()
    } else {
        last_line(s.drop_last()).push(s.last())
    }
}

/// The line without its seven-character `error: ` prefix; empty when it is
/// shorter than the prefix.
pub open spec fn drop_error_prefix(s: Seq<char>) -> Seq<char> {
    if s.len() >= 7 {
        s.skip(7)
    } else {
        Seq::empty()
    }
}

/// The message of a pattern whose compiled form is too large: `compiled
/// regex exceeds size limit of <limit> bytes`.
pub open spec fn size_limit_msg(limit: nat) -> Seq<char> {
    "compiled regex exceeds size limit of "@ + dec_rep(limit) + " bytes"@
}

/// The last line of a syntax-error text, without its `error: ` prefix.
fn syntax_error_tail(msg: &String) -> (r: Vec<char>)
    ensures
        r@ == drop_error_prefix(last_line(msg@)),
{
    let chars = str_to_chars(msg.as_str());
    let n = chars.len();
    let mut line_start: usize = 0;
    let mut i: usize = 0;
    proof {
        assert(chars@.subrange(0, 0) =~= Seq::<char>::empty());
        assert(chars@.subrange(0, 0) =~= last_line(chars@.subrange(0, 0)));
    }
    while i < n
        invariant
            line_start <= i <= n,
            n == chars@.len(),
            chars@.subrange(line_start as int, i as int) == last_line(
                chars@.subrange(0, i as int),
            ),
        decreases n - i,
    {
        let ghost pre = chars@.subrange(0, i as int);
        let ghost post = chars@.subrange(0, i + 1);
        proof {
            assert(post.drop_last() =~= pre);
            assert(post.last() == chars@[i as int]);
        }
        if chars[i] == '\n' {
            line_start = i + 1;
            proof {
                assert(chars@.subrange(line_start as int, i + 1) =~= Seq::<char>::empty());
            }
        } else {
            proof {
                assert(chars@.subrange(line_start as int, i + 1) =~= chars@.subrange(
                    line_start as int,
                    i as int,
                ).push(chars@[i as int]));
            }
        }
        i = i + 1;
    }
    proof {
        assert(chars@.subrange(0, n as int) =~= chars@);
    }
    let skip = if n - line_start >= 7 {
        7
    } else {
        n - line_start
    };
    let r = subrange_chars(&chars, line_start + skip, n);
    proof {
        if n - line_start >= 7 {
            assert(r@ =~= last_line(chars@).skip(7));
        } else {
            assert(r@ =~= Seq::<char>::empty());
        }
    }
    r
}

/// What `replace` returns: the first argument with every match of the
/// regular expression given by the unescaped second argument replaced by
/// the unescaped third; or an error for missing arguments (reported under
/// the name `hash` — a long-standing quirk that is kept) or a pattern that
/// does not compile.
pub fn replace_macro(args: &Vec<String>) -> (r: Result<String, MacroError>)
    ensures
        args@.len() < 3 ==> (r matches Err(e) && is_not_enough(
            e,
            "hash"@,
            3,
            args@.len() as int,
        )),
        args@.len() >= 3 ==> (if regex_compiles(unescape_spec(args@[1]@)) {
            r matches Ok(out) && out@ == regex_replace_of(
                unescape_spec(args@[1]@),
                args@[0]@,
                unescape_spec(args@[2]@),
            )
        } else {
            r matches Err(e) && e.name@ == "replace"@ && (e.error_type matches
            MacroErrorKind::User { message } && ((exists|text: Seq<char>|
                message@ == #[trigger] drop_error_prefix(last_line(text))) || (exists|
                limit: nat,
            |
                message@ == #[trigger] size_limit_msg(limit))))
        }),
{
    if args.len() < 3 {
        return Err(not_enough("hash", 3, args.len()));
    }
    let pat_raw = str_to_chars(args[1].as_str());
    let pat = unescape_chars(&pat_raw);
    let rep_raw = str_to_chars(args[2].as_str());
    let rep = unescape_chars(&rep_raw);
    let pat_str = chars_to_string(&pat);
    let rep_str = chars_to_string(&rep);
    match regex_replace_all(pat_str.as_str(), args[0].as_str(), rep_str.as_str()) {
        Ok(out) => Ok(out),
        Err(RegexFailure::Syntax(msg)) => {
            let tail = syntax_error_tail(&msg);
            Err(user_error_chars("replace", &tail))
        },
        Err(RegexFailure::TooBig(limit)) => {
            let mut msg: Vec<char> = Vec::new();
            push_str_chars(&mut msg, "compiled regex exceeds size limit of ");
            let d = usize_to_dec(limit);
            append_chars(&mut msg, &d);
            push_str_chars(&mut msg, " bytes");
            proof {
                assert(msg@ =~= size_limit_msg(limit as nat));
            }
            Err(user_error_chars("replace", &msg))
        },
        Err(RegexFailure::Other(_)) => vstd::pervasive::unreached(),
    }
}

/// The message of a base outside two to thirty-six: `invalid base <b>
/// (must be between 2 and 36, inclusive)`.
pub open spec fn invalid_base_msg(b: nat) -> Seq<char> {
    "invalid base "@ + dec_rep(b) + " (must be between 2 and 36, inclusive)"@
}

/// The message of a literal that does not read in the given base: `failed
/// to convert <value> to a number with base <base>`.
pub open spec fn radix_fail_msg(value: Seq<char>, base: nat) -> Seq<char> {
    "failed to convert "@ + value + " to a number with base "@ + dec_rep(base)
}

/// What `int` returns when a base is given: the first argument read as a
/// signed integer in that base and written in decimal, or an error for a
/// missing argument, a bad base, or a literal that does not read in the
/// base. Without a base (`None` here) the conversion goes through
/// floating-point parsing, which this library leaves to its callers.
pub fn int_radix_macro(args: &Vec<String>) -> (r: Option<Result<String, MacroError>>)
    ensures
        args@.len() == 0 ==> (r matches Some(inner) && (inner matches Err(e) && is_not_enough(
            e,
            "int"@,
            1,
            0,
        ))),
        args@.len() == 1 ==> r is None,
        args@.len() >= 2 ==> (r matches Some(inner) && (if !parses_u32(args@[1]@) {
            inner matches Err(e) && is_user_error(
                e,
                "int"@,
                convert_msg(2, args@[1]@, "u32"@),
            )
        } else if !(2 <= unsigned_dec_val(args@[1]@) <= 36) {
            inner matches Err(e) && is_user_error(
                e,
                "int"@,
                invalid_base_msg(unsigned_dec_val(args@[1]@) as nat),
            )
        } else if is_signed_radix(args@[0]@, unsigned_dec_val(args@[1]@)) && i64::MIN
            <= signed_radix_val(args@[0]@, unsigned_dec_val(args@[1]@)) <= i64::MAX {
            inner matches Ok(out) && out@ == int_dec_rep(
                signed_radix_val(args@[0]@, unsigned_dec_val(args@[1]@)),
            )
        } else {
            inner matches Err(e) && is_user_error(
                e,
                "int"@,
                radix_fail_msg(args@[0]@, unsigned_dec_val(args@[1]@) as nat),
            )
        })),
{
    if args.len() == 0 {
        return Some(Err(not_enough("int", 1, 0)));
    }
    if args.len() == 1 {
        return None;
    }
    let base_chars = str_to_chars(args[1].as_str());
    let base = match parse_u32(&base_chars) {
        Some(b) => b,
        None => {
            return Some(Err(convert_error("int", 2, &args[1], "u32")));
        },
    };
    if base < 2 || base > 36 {
        let mut msg: Vec<char> = Vec::new();
        push_str_chars(&mut msg, "invalid base ");
        let d = u64_to_dec(base as u64);
        append_chars(&mut msg, &d);
        push_str_chars(&mut msg, " (must be between 2 and 36, inclusive)");
        return Some(Err(user_error_chars("int", &msg)));
    }
    let value_chars = str_to_chars(args[0].as_str());
    match crate::numbers::parse_i64_radix(&value_chars, base as u64) {
        Some(v) => {
            let d = i64_to_dec(v);
            Some(Ok(chars_to_string(&d)))
        },
        None => {
            let mut msg: Vec<char> = Vec::new();
            push_str_chars(&mut msg, "failed to convert ");
            push_str_chars(&mut msg, args[0].as_str());
            push_str_chars(&mut msg, " to a number with base ");
            let d = u64_to_dec(base as u64);
            append_chars(&mut msg, &d);
            Some(Err(user_error_chars("int", &msg)))
        },
    }
}

/// What `map` returns: an escaped text-macro pattern applied to each
/// remaining argument in turn, the outputs joined by `/`. One argument
/// yields nothing; none is an error.
pub fn map_macro(args: &Vec<String>) -> (r: Result<String, MacroError>)
    ensures
        args@.len() == 0 ==> (r matches Err(e) && is_not_enough(e, "map"@, 1, 0)),
        args@.len() == 1 ==> (r matches Ok(out) && out@ == Seq::<char>::empty()),
        args@.len() >= 2 ==> (r matches Ok(out) ==> exists|outs: Seq<Seq<char>>|
            #![auto]
            outs.len() == args@.len() - 1 && (forall|i: int|
                0 <= i < outs.len() ==> crate::textmacro::expansion_of(
                    unescape_spec(args@[0]@),
                    seq![args@[i + 1]@],
                    outs[i],
                )) && out@ == join_with(outs, seq!['/'])),
        args@.len() >= 2 ==> (r matches Err(e) ==> is_user_error(
            e,
            "text macro"@,
            "expansion step limit exceeded"@,
        )),
        (args@.len() >= 2 && (forall|i: int|
            0 <= i < args@.len() - 1 ==> crate::textmacro::expansion_settles(
                unescape_spec(args@[0]@),
                seq![#[trigger] args@[i + 1]@],
            ))) ==> r is Ok,
{
    if args.len() == 1 {
        return Ok(String::new());
    }
    if args.len() == 0 {
        return Err(not_enough("map", 1, 0));
    }
    let pat_raw = str_to_chars(args[0].as_str());
    let pat = unescape_chars(&pat_raw);
    let mac = crate::textmacro::TextMacro::new(chars_to_string(&pat));
    let mut parts: Vec<Vec<char>> = Vec::new();
    let ghost mut outs: Seq<Seq<char>> = Seq::empty();
    let mut i: usize = 1;
    while i < args.len()
        invariant
            1 <= i <= args@.len(),
            2 <= args@.len(),
            mac.pattern@ == unescape_spec(args@[0]@),
            parts@.len() == i - 1,
            outs.len() == i - 1,
            forall|j: int| 0 <= j < i - 1 ==> (#[trigger] parts@[j])@ == outs[j],
            forall|j: int|
                0 <= j < i - 1 ==> crate::textmacro::expansion_of(
                    unescape_spec(args@[0]@),
                    seq![args@[j + 1]@],
                    #[trigger] outs[j],
                ),
        decreases args@.len() - i,
    {
        let mut single: Vec<String> = Vec::new();
        single.push(args[i].clone());
        proof {
            assert(views_of(single@) =~= seq![args@[i as int]@]);
        }
        match mac.expand(&single) {
            Ok(out) => {
                let p = str_to_chars(out.as_str());
                parts.push(p);
                proof {
                    outs = outs.push(out@);
                }
            },
            Err(e) => {
                proof {
                    if forall|k: int|
                        0 <= k < args@.len() - 1 ==> crate::textmacro::expansion_settles(
                            unescape_spec(args@[0]@),
                            seq![#[trigger] args@[k + 1]@],
                        ) {
                        assert(crate::textmacro::expansion_settles(
                            unescape_spec(args@[0]@),
                            seq![args@[i - 1 + 1]@],
                        ));
                        assert(views_of(single@) =~= seq![args@[i as int]@]);
                        assert(false);
                    }
                }
                return Err(e);
            },
        }
        i = i + 1;
    }
    let mut sep: Vec<char> = Vec::new();
    sep.push('/');
    let joined = join_chars(&parts, &sep);
    proof {
        assert(sep@ =~= seq!['/']);
        assert(parts@.map_values(|p: Vec<char>| p@) =~= outs);
    }
    Ok(chars_to_string(&joined))
}

/// What `fold` returns: an escaped text-macro pattern folded over the
/// arguments after the second, starting from the second as the base case;
/// each step applies the pattern to the accumulator and the next argument.
/// Missing arguments are reported under the name `map` — a long-standing
/// quirk that is kept.
pub fn fold_macro(args: &Vec<String>) -> (r: Result<String, MacroError>)
    ensures
        args@.len() == 0 ==> (r matches Err(e) && is_not_enough(e, "map"@, 2, 0)),
        args@.len() == 1 ==> (r matches Err(e) && is_not_enough(e, "map"@, 2, 1)),
        args@.len() >= 2 ==> (r matches Ok(out) ==> exists|accs: Seq<Seq<char>>|
            #![auto]
            accs.len() == args@.len() - 1 && accs[0] == args@[1]@ && (forall|i: int|
                1 <= i < accs.len() ==> crate::textmacro::expansion_of(
                    unescape_spec(args@[0]@),
                    seq![accs[i - 1], args@[i + 1]@],
                    #[trigger] accs[i],
                )) && out@ == accs.last()),
        args@.len() >= 2 ==> (r matches Err(e) ==> is_user_error(
            e,
            "text macro"@,
            "expansion step limit exceeded"@,
        )),
        (args@.len() >= 2 && (forall|x: Seq<char>, y: Seq<char>|
            #[trigger] crate::textmacro::pair_settles(unescape_spec(args@[0]@), x, y))) ==> r
            is Ok,
{
    if args.len() == 0 {
        return Err(not_enough("map", 2, 0));
    }
    if args.len() == 1 {
        return Err(not_enough("map", 2, 1));
    }
    let pat_raw = str_to_chars(args[0].as_str());
    let pat = unescape_chars(&pat_raw);
    let mac = crate::textmacro::TextMacro::new(chars_to_string(&pat));
    let mut acc: String = args[1].clone();
    let ghost mut accs: Seq<Seq<char>> = seq![args@[1]@];
    let mut i: usize = 2;
    while i < args.len()
        invariant
            2 <= i <= args@.len() || (i == 2 && args@.len() == 2),
            2 <= args@.len(),
            mac.pattern@ == unescape_spec(args@[0]@),
            accs.len() == i - 1,
            accs[0] == args@[1]@,
            acc@ == accs.last(),
            forall|j: int|
                1 <= j < i - 1 ==> crate::textmacro::expansion_of(
                    unescape_spec(args@[0]@),
                    seq![accs[j - 1], args@[j + 1]@],
                    #[trigger] accs[j],
                ),
        decreases args@.len() - i,
    {
        let mut pair: Vec<String> = Vec::new();
        pair.push(acc);
        pair.push(args[i].clone());
        proof {
            assert(views_of(pair@) =~= seq![accs.last(), args@[i as int]@]);
        }
        match mac.expand(&pair) {
            Ok(out) => {
                proof {
                    accs = accs.push(out@);
                }
                acc = out;
            },
            Err(e) => {
                proof {
                    if forall|x: Seq<char>, y: Seq<char>|
                        #[trigger] crate::textmacro::pair_settles(
                            unescape_spec(args@[0]@),
                            x,
                            y,
                        ) {
                        assert(crate::textmacro::pair_settles(
                            unescape_spec(args@[0]@),
                            accs.last(),
                            args@[i as int]@,
                        ));
                        assert(views_of(pair@) =~= seq![accs.last(), args@[i as int]@]);
                        assert(false);
                    }
                }
                return Err(e);
            },
        }
        i = i + 1;
    }
    proof {
        assert(accs.len() == args@.len() - 1);
    }
    Ok(acc)
}

/// Whether the needle `d` occurs in `h` starting at position `p`.
pub open spec fn found_at(h: Seq<char>, d: Seq<char>, p: int) -> bool {
    0 <= p && p + d.len() <= h.len() && h.subrange(p, p + d.len()) == d
}

/// Tests whether the needle occurs at position `p`.
fn occurs_at(h: &Vec<char>, d: &Vec<char>, p: usize) -> (b: bool)
    requires
        p + d@.len() <= h@.len(),
    ensures
        b == found_at(h@, d@, p as int),
{
    let hn = h.len();
    let mut k: usize = 0;
    while k < d.len()
        invariant
            k <= d@.len(),
            p + d@.len() <= h@.len(),
            hn == h@.len(),
            forall|m: int| 0 <= m < k ==> h@[p + m] == d@[m],
        decreases d@.len() - k,
    {
        if h[p + k] != d[k] {
            proof {
                assert(h@.subrange(p as int, p + d@.len())[k as int] == h@[p + k]);
                assert(h@.subrange(p as int, p + d@.len()) != d@);
            }
            return false;
        }
        k = k + 1;
    }
    proof {
        assert(h@.subrange(p as int, p + d@.len()) =~= d@);
    }
    true
}

/// What `find` returns: the position of the first occurrence of the second
/// argument in the first, in characters, or `-1` when there is none.
pub fn find_macro(args: &Vec<String>) -> (r: Result<String, MacroError>)
    ensures
        args@.len() == 0 ==> (r matches Err(e) && is_not_enough(e, "find"@, 2, 0)),
        args@.len() == 1 ==> (r matches Err(e) && is_not_enough(e, "find"@, 2, 1)),
        args@.len() >= 2 ==> (r matches Ok(out) && (if exists|p: int|
            found_at(args@[0]@, args@[1]@, p) {
            exists|p: int|
                #![auto]
                found_at(args@[0]@, args@[1]@, p) && (forall|q: int|
                    0 <= q < p ==> !found_at(args@[0]@, args@[1]@, q)) && out@ == dec_rep(
                    p as nat,
                )
        } else {
            out@ == int_dec_rep(-1)
        })),
{
    if args.len() == 0 {
        return Err(not_enough("find", 2, 0));
    }
    if args.len() == 1 {
        return Err(not_enough("find", 2, 1));
    }
    let h = str_to_chars(args[0].as_str());
    let d = str_to_chars(args[1].as_str());
    if d.len() > h.len() {
        proof {
            assert(forall|p: int| !found_at(h@, d@, p));
        }
        let m = i64_to_dec(-1);
        return Ok(chars_to_string(&m));
    }
    if d.len() == 0 {
        proof {
            assert(h@.subrange(0, 0) =~= d@);
            assert(found_at(h@, d@, 0));
        }
        let out = usize_to_dec(0);
        return Ok(chars_to_string(&out));
    }
    let hn = h.len();
    let mut p: usize = 0;
    while p <= hn - d.len()
        invariant
            args@.len() >= 2,
            h@ == args@[0]@,
            d@ == args@[1]@,
            hn == h@.len(),
            1 <= d@.len() <= h@.len(),
            p <= h@.len() - d@.len() + 1,
            forall|q: int| 0 <= q < p ==> !found_at(h@, d@, q),
        decreases h@.len() - d@.len() + 1 - p,
    {
        if occurs_at(&h, &d, p) {
            let out = usize_to_dec(p);
            return Ok(chars_to_string(&out));
        }
        p = p + 1;
    }
    proof {
        assert(forall|q: int| !found_at(h@, d@, q));
    }
    let m = i64_to_dec(-1);
    Ok(chars_to_string(&m))
}

/// The number of disjoint occurrences of the nonempty needle `d` in `h` at
/// or after `i`, counting the leftmost first and skipping over each match.
pub open spec fn count_occurrences(h: Seq<char>, d: Seq<char>, i: int) -> nat
    recommends
        d.len() > 0,
    decreases h.len() - i,
{
    if d.len() == 0 || i < 0 || i + d.len() > h.len() {
        0
    } else if found_at(h, d, i) {
        1 + count_occurrences(h, d, i + d.len())
    } else {
        count_occurrences(h, d, i + 1)
    }
}

/// What `count` returns: the number of disjoint occurrences of the second
/// argument in the first; for an empty needle, one more than the number of
/// characters.
pub fn count_macro(args: &Vec<String>) -> (r: Result<String, MacroError>)
    ensures
        args@.len() == 0 ==> (r matches Err(e) && is_not_enough(e, "count"@, 2, 0)),
        args@.len() == 1 ==> (r matches Err(e) && is_not_enough(e, "count"@, 2, 1)),
        args@.len() >= 2 ==> (r matches Ok(out) && out@ == dec_rep(
            if args@[1]@.len() == 0 {
                (args@[0]@.len() + 1) as nat
            } else {
                count_occurrences(args@[0]@, args@[1]@, 0)
            },
        )),
{
    if args.len() == 0 {
        return Err(not_enough("count", 2, 0));
    }
    if args.len() == 1 {
        return Err(not_enough("count", 2, 1));
    }
    let h = str_to_chars(args[0].as_str());
    let d = str_to_chars(args[1].as_str());
    if d.len() == 0 {
        let out = crate::numbers::u128_to_dec(h.len() as u128 + 1);
        return Ok(chars_to_string(&out));
    }
    let mut total: usize = 0;
    let mut i: usize = 0;
    while d.len() <= h.len() - i
        invariant
            args@.len() >= 2,
            h@ == args@[0]@,
            d@ == args@[1]@,
            d@.len() > 0,
            i <= h@.len(),
            total + count_occurrences(h@, d@, i as int) == count_occurrences(h@, d@, 0),
            total <= i,
        decreases h@.len() - i,
    {
        if occurs_at(&h, &d, i) {
            total = total + 1;
            i = i + d.len();
        } else {
            i = i + 1;
        }
    }
    let out = usize_to_dec(total);
    Ok(chars_to_string(&out))
}

/// The segments of `h` between non-overlapping occurrences of the nonempty
/// needle `d`, leftmost first; `seg_start` is where the current segment
/// began.
pub open spec fn split_by_rec(h: Seq<char>, d: Seq<char>, i: int, seg_start: int) -> Seq<
    Seq<char>,
>
    recommends
        d.len() > 0,
    decreases h.len() - i,
{
    if d.len() == 0 || i < 0 || seg_start > i || i + d.len() > h.len() {
        seq![h.subrange(seg_start, h.len() as int)]
    } else if found_at(h, d, i) {
        seq![h.subrange(seg_start, i)] + split_by_rec(h, d, i + d.len(), i + d.len())
    } else {
        split_by_rec(h, d, i + 1, seg_start)
    }
}

/// The segments of `h` split on the empty needle: an empty piece, each
/// character on its own, and an empty piece again.
pub open spec fn split_by_empty(h: Seq<char>) -> Seq<Seq<char>> {
    seq![Seq::<char>::empty()] + h.map_values(|c: char| seq![c]) + seq![Seq::<char>::empty()]
}

/// The segments of `h` split on the needle `d`.
pub open spec fn split_by(h: Seq<char>, d: Seq<char>) -> Seq<Seq<char>> {
    if d.len() == 0 {
        split_by_empty(h)
    } else {
        split_by_rec(h, d, 0, 0)
    }
}

/// Splits `h` on occurrences of the nonempty needle `d`.
fn split_on_needle(h: &Vec<char>, d: &Vec<char>) -> (segs: Vec<Vec<char>>)
    requires
        d@.len() > 0,
    ensures
        segs@.map_values(|p: Vec<char>| p@) == split_by(h@, d@),
{
    let hn = h.len();
    let mut segs: Vec<Vec<char>> = Vec::new();
    let mut i: usize = 0;
    let mut seg_start: usize = 0;
    while d.len() <= hn - i && i <= hn
        invariant
            seg_start <= i <= hn,
            hn == h@.len(),
            d@.len() > 0,
            split_by(h@, d@) == segs@.map_values(|p: Vec<char>| p@) + split_by_rec(
                h@,
                d@,
                i as int,
                seg_start as int,
            ),
        decreases hn - i,
    {
        if occurs_at(h, d, i) {
            let seg = subrange_chars(h, seg_start, i);
            let ghost old_segs = segs@;
            segs.push(seg);
            proof {
                assert(segs@.map_values(|p: Vec<char>| p@) =~= old_segs.map_values(
                    |p: Vec<char>| p@,
                ) + seq![h@.subrange(seg_start as int, i as int)]);
            }
            i = i + d.len();
            seg_start = i;
        } else {
            i = i + 1;
        }
    }
    let last = subrange_chars(h, seg_start, hn);
    let ghost old_segs = segs@;
    segs.push(last);
    proof {
        assert(segs@.map_values(|p: Vec<char>| p@) =~= old_segs.map_values(|p: Vec<char>| p@)
            + seq![h@.subrange(seg_start as int, hn as int)]);
        assert(segs@.map_values(|p: Vec<char>| p@) =~= split_by(h@, d@));
    }
    segs
}

/// What `split` returns: the first argument split on the second, then the
/// piece picked by the third argument (whose conversion failure is reported
/// as argument 1 — a long-standing quirk that is kept); a missing piece is
/// an out-of-bounds error.
pub fn split_macro(args: &Vec<String>) -> (r: Result<String, MacroError>)
    ensures
        args@.len() < 3 ==> (r matches Err(e) && is_not_enough(
            e,
            "split"@,
            3,
            args@.len() as int,
        )),
        args@.len() >= 3 ==> (if !parses_usize(args@[2]@) {
            r matches Err(e) && is_user_error(
                e,
                "split"@,
                convert_msg(1, args@[2]@, "usize"@),
            )
        } else if unsigned_dec_val(args@[2]@) < split_by(args@[0]@, args@[1]@).len() {
            r matches Ok(out) && out@ == split_by(args@[0]@, args@[1]@)[unsigned_dec_val(
                args@[2]@,
            )]
        } else {
            r matches Err(e) && is_user_error(
                e,
                "split"@,
                oob_msg(unsigned_dec_val(args@[2]@) as nat),
            )
        }),
{
    if args.len() < 3 {
        return Err(not_enough("split", 3, args.len()));
    }
    let idx_chars = str_to_chars(args[2].as_str());
    let index = match parse_usize(&idx_chars) {
        Some(v) => v,
        None => {
            return Err(convert_error("split", 1, &args[2], "usize"));
        },
    };
    let h = str_to_chars(args[0].as_str());
    let d = str_to_chars(args[1].as_str());
    let segs: Vec<Vec<char>> = if d.len() == 0 {
        let mut pieces: Vec<Vec<char>> = Vec::new();
        pieces.push(Vec::new());
        let mut i: usize = 0;
        while i < h.len()
            invariant
                i <= h@.len(),
                pieces@.len() == i + 1,
                pieces@[0]@ == Seq::<char>::empty(),
                forall|j: int| 1 <= j < i + 1 ==> (#[trigger] pieces@[j])@ == seq![h@[j - 1]],
            decreases h@.len() - i,
        {
            let mut one: Vec<char> = Vec::new();
            one.push(h[i]);
            pieces.push(one);
            i = i + 1;
        }
        pieces.push(Vec::new());
        proof {
            assert(pieces@.map_values(|p: Vec<char>| p@) =~= split_by_empty(h@));
        }
        pieces
    } else {
        split_on_needle(&h, &d)
    };
    if index < segs.len() {
        Ok(chars_to_string(&segs[index]))
    } else {
        let mut msg: Vec<char> = Vec::new();
        push_str_chars(&mut msg, "index ");
        let dgt = usize_to_dec(index);
        append_chars(&mut msg, &dgt);
        push_str_chars(&mut msg, " is out of bounds");
        Err(user_error_chars("split", &msg))
    }
}

/// Every `k`th character of `s`, starting with the first.
pub open spec fn step_seq(s: Seq<char>, k: int) -> Seq<char>
    recommends
        k >= 1,
    decreases s.len(),
{
    if s.len() == 0 {
        Seq::empty()
    } else if s.len() <= k || k < 1 {
        seq![s[0]]
    } else {
        seq![s[0]] + step_seq(s.skip(k), k)
    }
}

/// Takes every `k`th character of `s`.
fn step_chars(s: &Vec<char>, k: u64) -> (r: Vec<char>)
    requires
        k >= 1,
    ensures
        r@ == step_seq(s@, k as int),
{
    let n = s.len();
    let mut r: Vec<char> = Vec::new();
    if n == 0 {
        return r;
    }
    if k >= n as u64 {
        r.push(s[0]);
        return r;
    }
    let kk = k as usize;
    let mut pos: usize = 0;
    proof {
        assert(s@.skip(0) =~= s@);
        assert(r@ + step_seq(s@, k as int) =~= step_seq(s@, k as int));
    }
    loop
        invariant
            1 <= kk < n,
            kk == k,
            n == s@.len(),
            pos < n,
            step_seq(s@, k as int) == r@ + step_seq(s@.skip(pos as int), k as int),
        ensures
            r@ == step_seq(s@, k as int),
        decreases n - pos,
    {
        let ghost rem = s@.skip(pos as int);
        proof {
            assert(rem[0] == s@[pos as int]);
        }
        r.push(s[pos]);
        if n - pos <= kk {
            proof {
                assert(rem.len() <= k);
                assert(step_seq(rem, k as int) =~= seq![rem[0]]);
                assert(r@ =~= step_seq(s@, k as int));
            }
            return r;
        }
        proof {
            assert(rem.skip(k as int) =~= s@.skip(pos + kk));
        }
        pos = pos + kk;
    }
}

/// Reverses the characters of `s`.
fn reverse_chars(s: &Vec<char>) -> (r: Vec<char>)
    ensures
        r@ == s@.reverse(),
{
    let n = s.len();
    let mut r: Vec<char> = Vec::new();
    let mut i: usize = 0;
    while i < n
        invariant
            i <= n,
            n == s@.len(),
            r@.len() == i,
            forall|m: int| 0 <= m < i ==> r@[m] == s@[n - 1 - m],
        decreases n - i,
    {
        r.push(s[n - 1 - i]);
        i = i + 1;
    }
    proof {
        assert(r@ =~= s@.reverse());
    }
    r
}

/// The message of a slice that leaves the string: `part of range
/// "<start>..<end>" is out of bounds for string of length <len>`, the
/// bounds written only where they were given.
pub open spec fn slice_oob_msg(start: Option<int>, end: Option<int>, len: nat) -> Seq<char> {
    "part of range \""@ + (match start {
        Some(s) => dec_rep(s as nat),
        None => Seq::<char>::empty(),
    }) + ".."@ + (match end {
        Some(e) => dec_rep(e as nat),
        None => Seq::<char>::empty(),
    }) + "\" is out of bounds for string of length "@ + dec_rep(len)
}

/// The optional bound the second or third `slice` argument denotes: `None`
/// for an empty argument.
pub open spec fn slice_bound(a: Seq<char>) -> Option<int> {
    if a.len() == 0 {
        None
    } else {
        Some(unsigned_dec_val(a))
    }
}

/// Whether the given bounds fit the string: a given bound must name an
/// existing character, and a start must not pass an end.
pub open spec fn slice_bounds_ok(start: Option<int>, end: Option<int>, len: int) -> bool {
    &&& (start matches Some(s) ==> s < len)
    &&& (end matches Some(e) ==> e < len)
    &&& ((start is Some && end is Some) ==> start->0 <= end->0)
}

/// The characters the bounds pick out of `s`.
pub open spec fn slice_range(s: Seq<char>, start: Option<int>, end: Option<int>) -> Seq<char> {
    s.subrange(
        match start {
            Some(st) => st,
            None => 0,
        },
        match end {
            Some(e) => e,
            None => s.len() as int,
        },
    )
}

/// Builds the out-of-bounds error for `slice`.
fn slice_oob_error(start: &Option<usize>, end: &Option<usize>, len: usize) -> (e: MacroError)
    ensures
        is_user_error(
            e,
            "slice"@,
            slice_oob_msg(
                match start {
                    Some(s) => Some(*s as int),
                    None => None,
                },
                match end {
                    Some(en) => Some(*en as int),
                    None => None,
                },
                len as nat,
            ),
        ),
{
    let mut msg: Vec<char> = Vec::new();
    push_str_chars(&mut msg, "part of range \"");
    match start {
        Some(s) => {
            let d = usize_to_dec(*s);
            append_chars(&mut msg, &d);
        },
        None => {},
    }
    push_str_chars(&mut msg, "..");
    match end {
        Some(en) => {
            let d = usize_to_dec(*en);
            append_chars(&mut msg, &d);
        },
        None => {},
    }
    push_str_chars(&mut msg, "\" is out of bounds for string of length ");
    let d = usize_to_dec(len);
    append_chars(&mut msg, &d);
    user_error_chars("slice", &msg)
}

/// What `slice` returns: the characters of the first argument between the
/// optional start and end bounds, sampled by the optional step (negative
/// steps walk backwards); or an error for missing arguments, failed
/// conversions, a zero step, or bounds that leave the string.
pub fn slice_macro(args: &Vec<String>) -> (r: Result<String, MacroError>)
    ensures
        args@.len() < 3 ==> (r matches Err(e) && is_not_enough(
            e,
            "slice"@,
            3,
            args@.len() as int,
        )),
        args@.len() >= 3 ==> (if args@[1]@.len() > 0 && !parses_usize(args@[1]@) {
            r matches Err(e) && is_user_error(
                e,
                "slice"@,
                convert_msg(2, args@[1]@, "usize"@),
            )
        } else if args@[2]@.len() > 0 && !parses_usize(args@[2]@) {
            r matches Err(e) && is_user_error(
                e,
                "slice"@,
                convert_msg(3, args@[2]@, "usize"@),
            )
        } else if args@.len() >= 4 && !parses_i64(args@[3]@) {
            r matches Err(e) && is_user_error(
                e,
                "slice"@,
                convert_msg(4, args@[3]@, "isize"@),
            )
        } else if (if args@.len() >= 4 {
            i64_of(args@[3]@)
        } else {
            1
        }) == 0 {
            r matches Err(e) && is_user_error(
                e,
                "slice"@,
                "cannot have a step length of 0"@,
            )
        } else if !slice_bounds_ok(
            slice_bound(args@[1]@),
            slice_bound(args@[2]@),
            args@[0]@.len() as int,
        ) {
            r matches Err(e) && is_user_error(
                e,
                "slice"@,
                slice_oob_msg(
                    slice_bound(args@[1]@),
                    slice_bound(args@[2]@),
                    args@[0]@.len(),
                ),
            )
        } else {
            ({
                let step = if args@.len() >= 4 {
                    i64_of(args@[3]@)
                } else {
                    1
                };
                let picked = slice_range(
                    args@[0]@,
                    slice_bound(args@[1]@),
                    slice_bound(args@[2]@),
                );
                r matches Ok(out) && out@ == (if step == 1 {
                    picked
                } else if step > 0 {
                    step_seq(picked, step)
                } else {
                    step_seq(picked.reverse(), -step)
                })
            })
        }),
{
    if args.len() < 3 {
        return Err(not_enough("slice", 3, args.len()));
    }
    let start_chars = str_to_chars(args[1].as_str());
    let start: Option<usize> = if start_chars.len() == 0 {
        None
    } else {
        match parse_usize(&start_chars) {
            Some(v) => Some(v),
            None => {
                return Err(convert_error("slice", 2, &args[1], "usize"));
            },
        }
    };
    let end_chars = str_to_chars(args[2].as_str());
    let end: Option<usize> = if end_chars.len() == 0 {
        None
    } else {
        match parse_usize(&end_chars) {
            Some(v) => Some(v),
            None => {
                return Err(convert_error("slice", 3, &args[2], "usize"));
            },
        }
    };
    let step: i64 = if args.len() >= 4 {
        let step_chars = str_to_chars(args[3].as_str());
        match parse_i64(&step_chars) {
            Some(v) => v,
            None => {
                return Err(convert_error("slice", 4, &args[3], "isize"));
            },
        }
    } else {
        1
    };
    if step == 0 {
        let msg = str_to_chars("cannot have a step length of 0");
        return Err(user_error_chars("slice", &msg));
    }
    let h = str_to_chars(args[0].as_str());
    let n = h.len();
    let bounds_ok = (match start {
        Some(s) => s < n,
        None => true,
    }) && (match end {
        Some(e) => e < n,
        None => true,
    }) && (match (start, end) {
        (Some(s), Some(e)) => s <= e,
        _ => true,
    });
    if !bounds_ok {
        return Err(slice_oob_error(&start, &end, n));
    }
    let lo = match start {
        Some(s) => s,
        None => 0,
    };
    let hi = match end {
        Some(e) => e,
        None => n,
    };
    let picked = subrange_chars(&h, lo, hi);
    if step == 1 {
        return Ok(chars_to_string(&picked));
    }
    if step > 0 {
        let stepped = step_chars(&picked, step as u64);
        Ok(chars_to_string(&stepped))
    } else {
        let mag: u64 = if step == i64::MIN {
            9223372036854775808u64
        } else {
            (-step) as u64
        };
        let rev = reverse_chars(&picked);
        let stepped = step_chars(&rev, mag);
        proof {
            assert(mag as int == -(i64_of(args@[3]@)));
        }
        Ok(chars_to_string(&stepped))
    }
}

/// The standard library's handlers, one variant per registered name.
#[derive(Debug, Clone, Copy, PartialEq, Eq)]
pub enum StdMacro {
    /// The empty name: a comment, producing nothing.
    Comment,
    /// `reverse`: the arguments reversed, joined by `/`.
    Reverse,
    /// `unescape`: the first argument with one escape layer removed.
    Unescape,
    /// `equal`: whether all arguments are equal.
    Equal,
    /// `hex`: each argument in base sixteen.
    Hex,
    /// `bin`: each argument in base two.
    Bin,
    /// `oct`: each argument in base eight.
    Oct,
    /// `chr`: the characters with the given code points.
    Chr,
    /// `ord`: the code points of the first argument's characters.
    CodePoints,
    /// `len`: the character count of each argument.
    Len,
    /// `select`: the argument picked by the first argument.
    Select,
    /// `#not`: the bitwise NOT of each argument.
    BitNot,
    /// `#and`: the bitwise AND of all arguments.
    BitAnd,
    /// `#or`: the bitwise OR of all arguments.
    BitOr,
    /// `#xor`: the bitwise XOR of all arguments.
    BitXor,
    /// `shl`: a left shift.
    Shl,
    /// `shr`: a logical right shift.
    Shr,
    /// `#shr`: an arithmetic right shift.
    ArithShr,
    /// `error`: raises a user error.
    RaiseError,
    /// `join`: the remaining arguments joined by the unescaped first.
    Join,
    /// `escape`: the arguments joined by `/`, escaped.
    Escape,
    /// `repeat`: the first argument repeated.
    Repeat,
    /// `hash`: the seahash of each argument.
    Hash,
    /// `replace`: regular-expression replacement.
    Replace,
    /// `lower`: each argument lowercased.
    Lower,
    /// `upper`: each argument uppercased.
    Upper,
    /// `find`: where the second argument first occurs in the first.
    Find,
    /// `count`: how often the second argument occurs in the first.
    Count,
    /// `split`: a piece of the first argument split on the second.
    Split,
    /// `slice`: a sampled range of the first argument's characters.
    Slice,
    /// `map`: a text macro applied to each remaining argument.
    MapEach,
    /// `fold`: a text macro folded over the remaining arguments.
    Fold,
}

impl Macro for StdMacro {
    fn apply(&self, arguments: Vec<String>) -> Result<String, MacroError> {
        match self {
            StdMacro::Comment => comment_macro(&arguments),
            StdMacro::Reverse => reverse_macro(&arguments),
            StdMacro::Unescape => unescape_macro(&arguments),
            StdMacro::Equal => equal_macro(&arguments),
            StdMacro::Hex => hex_macro(&arguments),
            StdMacro::Bin => bin_macro(&arguments),
            StdMacro::Oct => oct_macro(&arguments),
            StdMacro::Chr => chr_macro(&arguments),
            StdMacro::CodePoints => ord_macro(&arguments),
            StdMacro::Len => len_macro(&arguments),
            StdMacro::Select => select_macro(&arguments),
            StdMacro::BitNot => bit_not_macro(&arguments),
            StdMacro::BitAnd => bit_and_macro(&arguments),
            StdMacro::BitOr => bit_or_macro(&arguments),
            StdMacro::BitXor => bit_xor_macro(&arguments),
            StdMacro::Shl => shl_macro(&arguments),
            StdMacro::Shr => shr_macro(&arguments),
            StdMacro::ArithShr => arith_shr_macro(&arguments),
            StdMacro::RaiseError => error_macro(&arguments),
            StdMacro::Join => join_macro(&arguments),
            StdMacro::Escape => escape_macro(&arguments),
            StdMacro::Repeat => repeat_macro(&arguments),
            StdMacro::Hash => hash_macro(&arguments),
            StdMacro::Replace => replace_macro(&arguments),
            StdMacro::Lower => lower_macro(&arguments),
            StdMacro::Upper => upper_macro(&arguments),
            StdMacro::Find => find_macro(&arguments),
            StdMacro::Count => count_macro(&arguments),
            StdMacro::Split => split_macro(&arguments),
            StdMacro::Slice => slice_macro(&arguments),
            StdMacro::MapEach => map_macro(&arguments),
            StdMacro::Fold => fold_macro(&arguments),
        }
    }
}

/// Adds the standard library's handlers to a registry, each under its
/// name; every other name keeps whatever was registered under it before.
pub fn add_stdlib(macros: &mut crate::execution::MacroTable<StdMacro>)
    ensures
        final(macros).spec_map() == old(macros).spec_map().insert(
            ""@,
            StdMacro::Comment,
        ).insert(
            "reverse"@,
            StdMacro::Reverse,
        ).insert(
            "unescape"@,
            StdMacro::Unescape,
        ).insert(
            "equal"@,
            StdMacro::Equal,
        ).insert(
            "hex"@,
            StdMacro::Hex,
        ).insert(
            "bin"@,
            StdMacro::Bin,
        ).insert(
            "oct"@,
            StdMacro::Oct,
        ).insert(
            "chr"@,
            StdMacro::Chr,
        ).insert(
            "ord"@,
            StdMacro::CodePoints,
        ).insert(
            "len"@,
            StdMacro::Len,
        ).insert(
            "select"@,
            StdMacro::Select,
        ).insert(
            "#not"@,
            StdMacro::BitNot,
        ).insert(
            "#and"@,
            StdMacro::BitAnd,
        ).insert(
            "#or"@,
            StdMacro::BitOr,
        ).insert(
            "#xor"@,
            StdMacro::BitXor,
        ).insert(
            "shl"@,
            StdMacro::Shl,
        ).insert(
            "shr"@,
            StdMacro::Shr,
        ).insert(
            "#shr"@,
            StdMacro::ArithShr,
        ).insert(
            "error"@,
            StdMacro::RaiseError,
        ).insert(
            "join"@,
            StdMacro::Join,
        ).insert(
            "escape"@,
            StdMacro::Escape,
        ).insert(
            "repeat"@,
            StdMacro::Repeat,
        ).insert(
            "hash"@,
            StdMacro::Hash,
        ).insert(
            "replace"@,
            StdMacro::Replace,
        ).insert(
            "lower"@,
            StdMacro::Lower,
        ).insert(
            "upper"@,
            StdMacro::Upper,
        ).insert(
            "find"@,
            StdMacro::Find,
        ).insert(
            "count"@,
            StdMacro::Count,
        ).insert(
            "split"@,
            StdMacro::Split,
        ).insert(
            "slice"@,
            StdMacro::Slice,
        ).insert(
            "map"@,
            StdMacro::MapEach,
        ).insert(
            "fold"@,
            StdMacro::Fold,
        ),
{
    macros.register(String::from_str(""), StdMacro::Comment);
    macros.register(String::from_str("reverse"), StdMacro::Reverse);
    macros.register(String::from_str("unescape"), StdMacro::Unescape);
    macros.register(String::from_str("equal"), StdMacro::Equal);
    macros.register(String::from_str("hex"), StdMacro::Hex);
    macros.register(String::from_str("bin"), StdMacro::Bin);
    macros.register(String::from_str("oct"), StdMacro::Oct);
    macros.register(String::from_str("chr"), StdMacro::Chr);
    macros.register(String::from_str("ord"), StdMacro::CodePoints);
    macros.register(String::from_str("len"), StdMacro::Len);
    macros.register(String::from_str("select"), StdMacro::Select);
    macros.register(String::from_str("#not"), StdMacro::BitNot);
    macros.register(String::from_str("#and"), StdMacro::BitAnd);
    macros.register(String::from_str("#or"), StdMacro::BitOr);
    macros.register(String::from_str("#xor"), StdMacro::BitXor);
    macros.register(String::from_str("shl"), StdMacro::Shl);
    macros.register(String::from_str("shr"), StdMacro::Shr);
    macros.register(String::from_str("#shr"), StdMacro::ArithShr);
    macros.register(String::from_str("error"), StdMacro::RaiseError);
    macros.register(String::from_str("join"), StdMacro::Join);
    macros.register(String::from_str("escape"), StdMacro::Escape);
    macros.register(String::from_str("repeat"), StdMacro::Repeat);
    macros.register(String::from_str("hash"), StdMacro::Hash);
    macros.register(String::from_str("replace"), StdMacro::Replace);
    macros.register(String::from_str("lower"), StdMacro::Lower);
    macros.register(String::from_str("upper"), StdMacro::Upper);
    macros.register(String::from_str("find"), StdMacro::Find);
    macros.register(String::from_str("count"), StdMacro::Count);
    macros.register(String::from_str("split"), StdMacro::Split);
    macros.register(String::from_str("slice"), StdMacro::Slice);
    macros.register(String::from_str("map"), StdMacro::MapEach);
    macros.register(String::from_str("fold"), StdMacro::Fold);
}

} // verus!
