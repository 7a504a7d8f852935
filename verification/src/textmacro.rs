//! Text-based macros: handlers that substitute their arguments into a
//! pattern string.
//!
//! Inside a pattern, `$#` is replaced with the number of arguments, `$0`
//! with all arguments joined by `/`, and `$N` (for `N >= 1`) with the `N`th
//! argument, left alone when there is no such argument. `\$` yields a
//! literal dollar sign. Replacement is repeated until no substitution site
//! remains, so substituted text is itself expanded.

use vstd::prelude::*;
use vstd::string::StringExecFns;
use crate::execution::{Macro, MacroError, MacroErrorKind, is_user_error};
use crate::numbers::{dec_rep, radix_val, usize_to_dec, all_radix_digits};
use crate::text::{join_with, str_to_chars, chars_to_string, append_chars, join_chars};
use crate::parsing::views_of;

verus! {

/// The sentinel that stands for an escaped dollar sign while substitution
/// runs. Any occurrence of it in the pattern itself is therefore also turned
/// into a dollar sign.
pub const DOLLAR_SENTINEL: char = '\u{ffff}';

/// How many substitution passes a text macro will run before giving up.
pub const EXPANSION_PASS_LIMIT: u64 = 10000;

/// Whether `c` is an ASCII decimal digit.
pub open spec fn is_ascii_digit(c: char) -> bool {
    48 <= c as u32 <= 57
}

/// The pattern with every `\$` pair replaced by the sentinel.
pub open spec fn protect_rec(s: Seq<char>, i: int) -> Seq<char>
    decreases s.len() - i,
{
    if i < 0 || i >= s.len() {
        Seq::empty()
    } else if s[i] == '\\' && i + 1 < s.len() && s[i + 1] == '$' {
        seq![DOLLAR_SENTINEL] + protect_rec(s, i + 2)
    } else {
        seq![s[i]] + protect_rec(s, i + 1)
    }
}

/// The pattern with every `\$` pair replaced by the sentinel.
pub open spec fn protect_spec(s: Seq<char>) -> Seq<char> {
    protect_rec(s, 0)
}

/// The buffer with every sentinel turned into a dollar sign.
pub open spec fn restore_spec(s: Seq<char>) -> Seq<char> {
    s.map_values(
        |c: char|
            if c == DOLLAR_SENTINEL {
                '$'
            } else {
                c
            },
    )
}

/// The number of consecutive ASCII digits at or after `i`.
pub open spec fn digit_run(s: Seq<char>, i: int) -> int
    decreases s.len() - i,
{
    if i < 0 || i >= s.len() || !is_ascii_digit(s[i]) {
        0
    } else {
        1 + digit_run(s, i + 1)
    }
}

/// The digit run is never longer than what is left of the string.
pub proof fn lemma_digit_run_bounds(s: Seq<char>, i: int)
    ensures
        0 <= digit_run(s, i),
        0 <= i <= s.len() ==> i + digit_run(s, i) <= s.len(),
    decreases s.len() - i,
{
    if 0 <= i < s.len() && is_ascii_digit(s[i]) {
        lemma_digit_run_bounds(s, i + 1);
    }
}

/// One substitution pass from position `i` on: each site (`$#`, `$0`, or
/// `$N` with `N` between one and the number of arguments) is replaced, all
/// other characters are kept.
pub open spec fn pass_rec(t: Seq<char>, args: Seq<Seq<char>>, i: int) -> Seq<char>
    decreases t.len() - i,
    via pass_rec_decreases
{
    if i < 0 || i >= t.len() {
        Seq::empty()
    } else if t[i] == '$' && i + 1 < t.len() {
        if t[i + 1] == '#' {
            dec_rep(args.len()) + pass_rec(t, args, i + 2)
        } else if t[i + 1] == '0' {
            join_with(args, seq!['/']) + pass_rec(t, args, i + 2)
        } else if is_ascii_digit(t[i + 1]) {
            let k = digit_run(t, i + 1);
            let v = radix_val(t.subrange(i + 1, i + 1 + k), 10);
            if 1 <= v <= args.len() {
                args[v - 1] + pass_rec(t, args, i + 1 + k)
            } else {
                seq![t[i]] + pass_rec(t, args, i + 1)
            }
        } else {
            seq![t[i]] + pass_rec(t, args, i + 1)
        }
    } else {
        seq![t[i]] + pass_rec(t, args, i + 1)
    }
}

#[via_fn]
proof fn pass_rec_decreases(t: Seq<char>, args: Seq<Seq<char>>, i: int) {
    lemma_digit_run_bounds(t, i + 1);
}

/// Whether the pass from position `i` on replaces at least one site.
pub open spec fn pass_found_rec(t: Seq<char>, args: Seq<Seq<char>>, i: int) -> bool
    decreases t.len() - i,
    via pass_found_rec_decreases
{
    if i < 0 || i >= t.len() {
        false
    } else if t[i] == '$' && i + 1 < t.len() {
        if t[i + 1] == '#' {
            true
        } else if t[i + 1] == '0' {
            true
        } else if is_ascii_digit(t[i + 1]) {
            let k = digit_run(t, i + 1);
            let v = radix_val(t.subrange(i + 1, i + 1 + k), 10);
            if 1 <= v <= args.len() {
                true
            } else {
                pass_found_rec(t, args, i + 1)
            }
        } else {
            pass_found_rec(t, args, i + 1)
        }
    } else {
        pass_found_rec(t, args, i + 1)
    }
}

#[via_fn]
proof fn pass_found_rec_decreases(t: Seq<char>, args: Seq<Seq<char>>, i: int) {
    lemma_digit_run_bounds(t, i + 1);
}

/// The buffer after `n` substitution passes.
pub open spec fn iter_pass(t: Seq<char>, args: Seq<Seq<char>>, n: nat) -> Seq<char>
    decreases n,
{
    if n == 0 {
        t
    } else {
        pass_rec(iter_pass(t, args, (n - 1) as nat), args, 0)
    }
}

/// Whether `out` is the finished expansion of the pattern against the
/// arguments: some number of substitution passes over the protected pattern
/// reaches a buffer with no site left, and `out` is that buffer with its
/// sentinels turned back into dollar signs.
pub open spec fn expansion_of(pattern: Seq<char>, args: Seq<Seq<char>>, out: Seq<char>) -> bool {
    exists|n: nat|
        #![trigger iter_pass(protect_spec(pattern), args, n)]
        {
            let fix = iter_pass(protect_spec(pattern), args, n);
            !pass_found_rec(fix, args, 0) && out == restore_spec(fix)
        }
}

/// Whether expanding the pattern against the arguments settles: some number
/// of passes within the pass limit reaches a buffer with no site left.
pub open spec fn expansion_settles(pattern: Seq<char>, args: Seq<Seq<char>>) -> bool {
    exists|n: nat|
        #![trigger iter_pass(protect_spec(pattern), args, n)]
        n <= EXPANSION_PASS_LIMIT && !pass_found_rec(
            iter_pass(protect_spec(pattern), args, n),
            args,
            0,
        )
}

/// Whether expanding the pattern against a pair of arguments settles.
pub open spec fn pair_settles(pattern: Seq<char>, x: Seq<char>, y: Seq<char>) -> bool {
    expansion_settles(pattern, seq![x, y])
}

/// Replaces every `\$` pair with the sentinel.
fn protect_chars(v: &Vec<char>) -> (r: Vec<char>)
    ensures
        r@ == protect_spec(v@),
{
    let n = v.len();
    let mut r: Vec<char> = Vec::new();
    let mut i: usize = 0;
    proof {
        assert(r@ + protect_rec(v@, 0) =~= protect_rec(v@, 0));
    }
    while i < n
        invariant
            i <= n,
            n == v@.len(),
            protect_spec(v@) == r@ + protect_rec(v@, i as int),
        decreases n - i,
    {
        if v[i] == '\\' && i + 1 < n && v[i + 1] == '$' {
            r.push(DOLLAR_SENTINEL);
            i = i + 2;
        } else {
            r.push(v[i]);
            i = i + 1;
        }
    }
    proof {
        assert(r@ =~= protect_spec(v@));
    }
    r
}

/// Turns every sentinel into a dollar sign.
fn restore_chars(v: &Vec<char>) -> (r: Vec<char>)
    ensures
        r@ == restore_spec(v@),
{
    let n = v.len();
    let mut r: Vec<char> = Vec::new();
    let mut i: usize = 0;
    while i < n
        invariant
            i <= n,
            n == v@.len(),
            r@.len() == i,
            forall|j: int|
                0 <= j < i ==> r@[j] == (if v@[j] == DOLLAR_SENTINEL {
                    '$'
                } else {
                    v@[j]
                }),
        decreases n - i,
    {
        let c = v[i];
        if c == DOLLAR_SENTINEL {
            r.push('$');
        } else {
            r.push(c);
        }
        i = i + 1;
    }
    proof {
        assert(r@ =~= restore_spec(v@));
    }
    r
}

/// Runs one substitution pass over the buffer. Returns the new buffer and
/// whether any site was replaced.
fn pass_chars(t: &Vec<char>, args: &Vec<Vec<char>>) -> (r: (Vec<char>, bool))
    ensures
        r.0@ == pass_rec(t@, args@.map_values(|a: Vec<char>| a@), 0),
        r.1 == pass_found_rec(t@, args@.map_values(|a: Vec<char>| a@), 0),
{
    let ghost av = args@.map_values(|a: Vec<char>| a@);
    let n = t.len();
    let argc = args.len();
    let mut out: Vec<char> = Vec::new();
    let mut found: bool = false;
    let mut i: usize = 0;
    proof {
        assert(out@ + pass_rec(t@, av, 0) =~= pass_rec(t@, av, 0));
    }
    while i < n
        invariant
            i <= n,
            n == t@.len(),
            av == args@.map_values(|a: Vec<char>| a@),
            argc == av.len(),
            pass_rec(t@, av, 0) == out@ + pass_rec(t@, av, i as int),
            pass_found_rec(t@, av, 0) == (found || pass_found_rec(t@, av, i as int)),
        decreases n - i,
    {
        let c = t[i];
        if c == '$' && i + 1 < n {
            let c2 = t[i + 1];
            if c2 == '#' {
                let count = usize_to_dec(argc);
                append_chars(&mut out, &count);
                found = true;
                i = i + 2;
            } else if c2 == '0' {
                let mut sep: Vec<char> = Vec::new();
                sep.push('/');
                let joined = join_chars(args, &sep);
                proof {
                    assert(sep@ =~= seq!['/']);
                }
                append_chars(&mut out, &joined);
                found = true;
                i = i + 2;
            } else {
                let code = c2 as u32;
                if 48 <= code && code <= 57 {
                    let mut j: usize = i + 1;
                    while j < n && 48 <= t[j] as u32 && t[j] as u32 <= 57
                        invariant
                            i + 1 <= j <= n,
                            n == t@.len(),
                            digit_run(t@, i + 1) == (j - (i + 1)) + digit_run(t@, j as int),
                            forall|m: int| i + 1 <= m < j ==> is_ascii_digit(t@[m]),
                        decreases n - j,
                    {
                        j = j + 1;
                    }
                    proof {
                        assert(digit_run(t@, j as int) == 0);
                        assert(digit_run(t@, i + 1) == j - (i + 1));
                    }
                    let run = crate::text::subrange_chars(t, i + 1, j);
                    let ghost k = digit_run(t@, i + 1);
                    let ghost v = radix_val(t@.subrange(i + 1, i + 1 + k), 10);
                    proof {
                        assert(run@ =~= t@.subrange(i + 1, i + 1 + k));
                        assert(forall|m: int|
                            0 <= m < run@.len() ==> is_ascii_digit(#[trigger] run@[m]));
                        assert(all_radix_digits(run@, 10));
                    }
                    match crate::numbers::parse_digits_u64(&run, 0, 10) {
                        Some(value) => {
                            proof {
                                assert(run@.subrange(0, run@.len() as int) =~= run@);
                                assert(value == v);
                            }
                            if 1 <= value && value <= argc as u64 {
                                append_chars(&mut out, &args[(value - 1) as usize]);
                                found = true;
                                i = j;
                            } else {
                                out.push('$');
                                i = i + 1;
                            }
                        },
                        None => {
                            proof {
                                assert(run@.subrange(0, run@.len() as int) =~= run@);
                                assert(v > u64::MAX);
                                assert(v > av.len());
                            }
                            out.push('$');
                            i = i + 1;
                        },
                    }
                } else {
                    out.push('$');
                    i = i + 1;
                }
            }
        } else {
            out.push(c);
            i = i + 1;
        }
    }
    proof {
        assert(out@ =~= pass_rec(t@, av, 0));
    }
    (out, found)
}

/// Simplifies creating macros by composing them from other macros.
///
/// A text macro outputs its pattern with the substitution tokens replaced:
/// `$#` by the number of arguments, `$0` by all arguments joined by `/`,
/// `$N` by the `N`th argument (one-based; the token is kept when no such
/// argument exists), and `\$` by a literal `$`. Replacement runs from the
/// innermost pass outward until no token is left, so tokens that an earlier
/// replacement builds are replaced as well.
#[derive(Debug, Clone, PartialEq, Eq, Default, Hash)]
pub struct TextMacro {
    /// The pattern of the text macro.
    pub pattern: String,
}

impl TextMacro {
    /// Creates a new text macro.
    pub fn new(pattern: String) -> (t: Self)
        ensures
            t.pattern == pattern,
    {
        TextMacro { pattern }
    }

    /// Creates a new text macro in a box.
    pub fn boxed(pattern: String) -> (b: Box<TextMacro>)
        ensures
            b.pattern == pattern,
    {
        Box::new(TextMacro { pattern })
    }

    /// Substitutes the arguments into the pattern: runs substitution passes
    /// until one finds no site, then turns every sentinel into a dollar
    /// sign. Gives up with an error on a pattern whose expansion never
    /// settles.
    pub fn expand(&self, arguments: &Vec<String>) -> (r: Result<String, MacroError>)
        ensures
            r is Ok <==> expansion_settles(self.pattern@, views_of(arguments@)),
            r matches Ok(out) ==> expansion_of(self.pattern@, views_of(arguments@), out@),
            r matches Err(e) ==> is_user_error(
                e,
                "text macro"@,
                "expansion step limit exceeded"@,
            ),
    {
        let ghost av = views_of(arguments@);
        let mut args_vec: Vec<Vec<char>> = Vec::new();
        let mut ai: usize = 0;
        while ai < arguments.len()
            invariant
                ai <= arguments@.len(),
                args_vec@.len() == ai,
                forall|j: int| 0 <= j < ai ==> (#[trigger] args_vec@[j])@ == arguments@[j]@,
            decreases arguments@.len() - ai,
        {
            let a = str_to_chars(arguments[ai].as_str());
            args_vec.push(a);
            ai = ai + 1;
        }
        proof {
            assert(args_vec@.map_values(|a: Vec<char>| a@) =~= av);
        }
        let pattern_chars = str_to_chars(self.pattern.as_str());
        let mut cur = protect_chars(&pattern_chars);
        let ghost protected = cur@;
        let ghost n: int = 0;
        let mut fuel: u64 = EXPANSION_PASS_LIMIT;
        loop
            invariant
                n >= 0,
                fuel == EXPANSION_PASS_LIMIT - n,
                cur@ == iter_pass(protected, av, n as nat),
                protected == protect_spec(self.pattern@),
                av == views_of(arguments@),
                args_vec@.map_values(|a: Vec<char>| a@) == av,
                forall|m: nat|
                    m < n ==> pass_found_rec(#[trigger] iter_pass(protected, av, m), av, 0),
            decreases fuel,
        {
            let (next, found) = pass_chars(&cur, &args_vec);
            if !found {
                let restored = restore_chars(&cur);
                proof {
                    assert(!pass_found_rec(iter_pass(protected, av, n as nat), av, 0));
                    assert(expansion_settles(self.pattern@, av));
                }
                return Ok(chars_to_string(&restored));
            }
            if fuel == 0 {
                proof {
                    assert(n == EXPANSION_PASS_LIMIT);
                    assert(pass_found_rec(iter_pass(protected, av, n as nat), av, 0));
                    assert forall|m: nat| m <= EXPANSION_PASS_LIMIT implies pass_found_rec(
                        #[trigger] iter_pass(protected, av, m),
                        av,
                        0,
                    ) by {
                        if m < n {
                        }
                    }
                    assert(!expansion_settles(self.pattern@, av));
                }
                return Err(
                    MacroError::new(
                        String::from_str("text macro"),
                        MacroErrorKind::user(String::from_str("expansion step limit exceeded")),
                    ),
                );
            }
            fuel = fuel - 1;
            cur = next;
            proof {
                n = n + 1;
            }
        }
    }
}

impl Macro for TextMacro {
    fn apply(&self, arguments: Vec<String>) -> Result<String, MacroError> {
        self.expand(&arguments)
    }
}

} // verus!
