//! End-to-end tests of the rewrite engine with the standard library, text
//! macros, and the floating-point helpers supplied here.

use macroscript::execution::{apply_macros, apply_macros_with_limit, Macro, MacroError,
    MacroErrorKind, MacroTable};
use macroscript::stdlib::StdMacro;
use macroscript::textmacro::TextMacro;

/// The handlers a test registry can hold: the verified standard library,
/// text macros, and the floating-point helpers of the full library.
enum TestMacro {
    Std(StdMacro),
    Text(TextMacro),
    Add,
    Multiply,
    Divide,
    Int,
}

fn to_f64(name: &str, idx: usize, arg: &str) -> Result<f64, MacroError> {
    arg.parse::<f64>().map_err(|_| {
        MacroError::new(
            name.to_string(),
            MacroErrorKind::user(format!(
                "could not convert argument {} \"{}\" to f64",
                idx, arg
            )),
        )
    })
}

impl Macro for TestMacro {
    fn apply(&self, arguments: Vec<String>) -> Result<String, MacroError> {
        match self {
            TestMacro::Std(m) => m.apply(arguments),
            TestMacro::Text(t) => t.apply(arguments),
            TestMacro::Add => {
                let mut sum = 0.0f64;
                for (idx, arg) in arguments.iter().enumerate() {
                    sum += to_f64("add", idx + 1, arg)?;
                }
                Ok(sum.to_string())
            }
            TestMacro::Multiply => {
                let mut product = 1.0f64;
                for (idx, arg) in arguments.iter().enumerate() {
                    product *= to_f64("multiply", idx + 1, arg)?;
                }
                Ok(product.to_string())
            }
            TestMacro::Divide => {
                if arguments.len() < 2 {
                    return Err(MacroError::new(
                        "divide".to_string(),
                        MacroErrorKind::not_enough_args(2, arguments.len()),
                    ));
                }
                let lhs = to_f64("divide", 1, &arguments[0])?;
                let rhs = to_f64("divide", 2, &arguments[1])?;
                Ok((lhs / rhs).to_string())
            }
            TestMacro::Int => match macroscript::stdlib::int_radix_macro(&arguments) {
                Some(done) => done,
                None => {
                    let value = to_f64("int", 1, &arguments[0])? as i64;
                    Ok(value.to_string())
                }
            },
        }
    }
}

fn full_registry() -> MacroTable<TestMacro> {
    let std_names = [
        ("", StdMacro::Comment),
        ("reverse", StdMacro::Reverse),
        ("unescape", StdMacro::Unescape),
        ("equal", StdMacro::Equal),
        ("hex", StdMacro::Hex),
        ("bin", StdMacro::Bin),
        ("oct", StdMacro::Oct),
        ("chr", StdMacro::Chr),
        ("ord", StdMacro::CodePoints),
        ("len", StdMacro::Len),
        ("select", StdMacro::Select),
        ("#not", StdMacro::BitNot),
        ("#and", StdMacro::BitAnd),
        ("#or", StdMacro::BitOr),
        ("#xor", StdMacro::BitXor),
        ("shl", StdMacro::Shl),
        ("shr", StdMacro::Shr),
        ("#shr", StdMacro::ArithShr),
        ("error", StdMacro::RaiseError),
        ("join", StdMacro::Join),
        ("escape", StdMacro::Escape),
        ("repeat", StdMacro::Repeat),
        ("hash", StdMacro::Hash),
        ("replace", StdMacro::Replace),
        ("lower", StdMacro::Lower),
        ("upper", StdMacro::Upper),
        ("find", StdMacro::Find),
        ("count", StdMacro::Count),
        ("split", StdMacro::Split),
        ("slice", StdMacro::Slice),
        ("map", StdMacro::MapEach),
        ("fold", StdMacro::Fold),
    ];
    let mut macros = MacroTable::new();
    for (name, m) in std_names {
        macros.register(name.to_string(), TestMacro::Std(m));
    }
    macros.register("add".to_string(), TestMacro::Add);
    macros.register("multiply".to_string(), TestMacro::Multiply);
    macros.register("divide".to_string(), TestMacro::Divide);
    macros.register("int".to_string(), TestMacro::Int);
    macros
}

fn run(input: &str) -> Result<String, MacroError> {
    let macros = full_registry();
    apply_macros(input.to_string(), &macros)
}

#[test]
fn main_test() {
    let macros = full_registry();
    assert_eq!(
        Ok("13".to_string()),
        apply_macros(r"[unescape/\[add\/5\/5\/3\]]".to_string(), &macros)
    );
    assert_eq!(
        Ok("13".to_string()),
        apply_macros(r"[unescape/\[add\/5\/5\/3\]/2]".to_string(), &macros)
    );
    assert!(apply_macros(r"[unescape]".to_string(), &macros).is_err());
    assert_eq!(
        "13463560454117874234",
        apply_macros(r"[hash/rain world]".to_string(), &macros).unwrap()
    );
    assert_eq!(
        "vaapooreeoon",
        apply_macros(r"[replace/vaporeon/(\[aeiou\])/$1$1]".to_string(), &macros).unwrap()
    );
    assert_eq!(
        "0.5 inf -inf NaN",
        apply_macros(
            r"[divide/1/2] [divide/1/0] [divide/-1/0] [divide/0/0]".to_string(),
            &macros
        )
        .unwrap()
    );
    assert_eq!(
        "3735928559 0",
        apply_macros(r"[int/DEADBEEF/16] [int/nan]".to_string(), &macros).unwrap()
    );
}

#[test]
fn no_unescaped_bracket_is_identity() {
    assert_eq!(run("plain text").unwrap(), "plain text");
    assert_eq!(run(r"escaped \[x\] stays").unwrap(), r"escaped \[x\] stays");
    assert_eq!(run("").unwrap(), "");
    assert_eq!(run("half ] open").unwrap(), "half ] open");
}

#[test]
fn store_persists_across_try_failure() {
    assert_eq!(
        run(r"[try/\[store\/x\/1\]\[error\/bad\]][load/x]").unwrap(),
        "false/bad1"
    );
}

#[test]
fn try_catches_shl_error() {
    assert_eq!(
        run(r"[try/\[shl\/5\/100\]]").unwrap(),
        "false/shift amount of 100 is too large"
    );
}

#[test]
fn try_wraps_success() {
    assert_eq!(run(r"[try/\[add\/5\/5\]]").unwrap(), "true/10");
}

#[test]
fn store_then_load() {
    assert_eq!(run("[store/x/5][load/x]").unwrap(), "5");
}

#[test]
fn load_on_fresh_state_fails() {
    let err = run("[load/x]").unwrap_err();
    assert_eq!(err.name, "load");
    assert_eq!(
        err.error_type,
        MacroErrorKind::User {
            message: "variable \"x\" does not currently exist".to_string()
        }
    );
    assert_eq!(
        err.message(),
        "error in macro load: variable \"x\" does not currently exist"
    );
}

#[test]
fn get_drop_is_stored() {
    assert_eq!(run("[get/x/5],[load/x]").unwrap(), "5,5");
    assert_eq!(run("[is_stored/x]").unwrap(), "false");
    assert_eq!(run("[store/x/5][is_stored/x]").unwrap(), "true");
    let err = run("[store/x/5][drop/x][load/x]").unwrap_err();
    assert_eq!(err.name, "load");
    assert_eq!(run("[store/x/5][drop/x][is_stored/x]").unwrap(), "false");
}

#[test]
fn nonexistent_macro() {
    let err = run("[nosuchthing/1]").unwrap_err();
    assert_eq!(err.name, "nosuchthing");
    assert_eq!(err.error_type, MacroErrorKind::Nonexistent);
    assert_eq!(err.message(), "error in macro nosuchthing: not found");
    assert_eq!(run("[try/\\[nosuchthing\\]]").unwrap(), "false/not found");
}

#[test]
fn not_enough_arguments_message() {
    let err = run("[unescape]").unwrap_err();
    assert_eq!(err.name, "unescape");
    assert_eq!(
        err.error_type,
        MacroErrorKind::NotEnoughArguments {
            expected: 1,
            found: 0
        }
    );
    assert_eq!(
        err.message(),
        "error in macro unescape: expected 1 arguments, found 0"
    );
    let err = run("[try]").unwrap_err();
    assert_eq!(err.name, "try");
}

#[test]
fn replace_with_regex() {
    assert_eq!(
        run(r"[replace/vaporeon/(\[aeiou\])/$1$1]").unwrap(),
        "vaapooreeoon"
    );
    let err = run(r"[replace/porygon/\[o/e]").unwrap_err();
    assert_eq!(err.name, "replace");
    assert_eq!(
        err.error_type,
        MacroErrorKind::User {
            message: "unclosed character class".to_string()
        }
    );
}

#[test]
fn divide_by_zero_forms() {
    assert_eq!(
        run("[divide/1/0] [divide/-1/0] [divide/0/0]").unwrap(),
        "inf -inf NaN"
    );
}

#[test]
fn square_text_macro() {
    let mut macros = full_registry();
    macros.register(
        "square".to_string(),
        TestMacro::Text(TextMacro::new("[multiply/$1/$1]".to_string())),
    );
    assert_eq!(
        apply_macros("[square/4]".to_string(), &macros).unwrap(),
        "16"
    );
}

#[test]
fn bad_select_text_macro() {
    let mut macros = full_registry();
    macros.register(
        "bad_select".to_string(),
        TestMacro::Text(TextMacro::new("$$1".to_string())),
    );
    macros.register(
        "escaped_dollar".to_string(),
        TestMacro::Text(TextMacro::new(r"\$1".to_string())),
    );
    assert_eq!(
        apply_macros("[escaped_dollar/2]".to_string(), &macros).unwrap(),
        "$1"
    );
    assert_eq!(
        apply_macros("[bad_select/2/α]".to_string(), &macros).unwrap(),
        "α"
    );
    assert_eq!(
        apply_macros("[bad_select/3]".to_string(), &macros).unwrap(),
        "$3"
    );
    assert_eq!(
        apply_macros("[bad_select/0/1/2/3]".to_string(), &macros).unwrap(),
        "0/1/2/3"
    );
    assert_eq!(
        apply_macros("[bad_select/#/β/2/3]".to_string(), &macros).unwrap(),
        "4"
    );
}

#[test]
fn repeat_counts_up() {
    assert_eq!(
        run(r"[store/x/0][repeat/\[store\/x\/\[add\/\[load\/x\]\/1\]\]\[load\/x\]/5]").unwrap(),
        "12345"
    );
}

#[test]
fn repeat_with_separator() {
    assert_eq!(run("[repeat/5/5/:]").unwrap(), "5:5:5:5:5");
    assert_eq!(run("[repeat/ab/0]").unwrap(), "");
    let err = run("[repeat/x/y]").unwrap_err();
    assert_eq!(err.name, "repeat");
    assert_eq!(
        err.error_type,
        MacroErrorKind::User {
            message: "could not convert argument 2 \"y\" to usize".to_string()
        }
    );
}

#[test]
fn expand_directly() {
    let t = TextMacro::new("$# of $0: $2".to_string());
    let out = t
        .expand(&vec!["a".to_string(), "b".to_string()])
        .unwrap();
    assert_eq!(out, "2 of a/b: b");
    // An out-of-range token stays, an escaped dollar turns literal.
    let t = TextMacro::new(r"$5 and \$1".to_string());
    let out = t.expand(&vec!["a".to_string()]).unwrap();
    assert_eq!(out, "$5 and $1");
}

#[test]
fn step_limit_is_reported() {
    let mut macros = full_registry();
    macros.register(
        "cycle".to_string(),
        TestMacro::Text(TextMacro::new("[cycle]".to_string())),
    );
    let err = apply_macros_with_limit("[cycle]".to_string(), &macros, 50).unwrap_err();
    assert_eq!(
        err.error_type,
        MacroErrorKind::User {
            message: "step limit exceeded".to_string()
        }
    );
}

#[test]
fn integer_formatting_handlers() {
    assert_eq!(run("[hex/16]").unwrap(), "10");
    assert_eq!(run("[hex/255/5]").unwrap(), "FF/5");
    assert_eq!(run("[hex/-1]").unwrap(), "FFFFFFFFFFFFFFFF");
    assert_eq!(run("[bin/5]").unwrap(), "101");
    assert_eq!(run("[bin/7/8]").unwrap(), "111/1000");
    assert_eq!(run("[oct/59]").unwrap(), "73");
    assert_eq!(run("[oct/1777/755]").unwrap(), "3361/1363");
    let err = run("[hex/zz]").unwrap_err();
    assert_eq!(err.name, "hex");
    assert_eq!(
        err.error_type,
        MacroErrorKind::User {
            message: "could not convert argument 1 \"zz\" to i64".to_string()
        }
    );
}

#[test]
fn bitwise_handlers() {
    assert_eq!(run("[#not/0]").unwrap(), "-1");
    assert_eq!(run("[#not/5/-4]").unwrap(), "-6/3");
    assert_eq!(run("[#and/11/5]").unwrap(), "1");
    assert_eq!(run("[#and/8/13/7]").unwrap(), "0");
    assert_eq!(run("[#or/5/3]").unwrap(), "7");
    assert_eq!(run("[#or/9/5/2]").unwrap(), "15");
    assert_eq!(run("[#xor/5/3]").unwrap(), "6");
    assert_eq!(run("[#xor/8/11/5]").unwrap(), "6");
    assert_eq!(run("[#and]").unwrap(), "0");
}

#[test]
fn shift_handlers() {
    assert_eq!(run("[shl/5/2]").unwrap(), "20");
    assert_eq!(run("[shl/-9223372036854775808/1]").unwrap(), "0");
    assert_eq!(run("[shr/-9223372036854775808/1]").unwrap(), "4611686018427387904");
    assert_eq!(run("[#shr/-9223372036854775808/1]").unwrap(), "-4611686018427387904");
    let err = run("[shr/1/64]").unwrap_err();
    assert_eq!(
        err.error_type,
        MacroErrorKind::User {
            message: "shift amount of 64 is too large".to_string()
        }
    );
}

#[test]
fn int_conversions() {
    assert_eq!(run("[int/54.2]").unwrap(), "54");
    assert_eq!(run("[int/-101/2]").unwrap(), "-5");
    assert_eq!(run("[int/E621/16]").unwrap(), "58913");
    let err = run("[int/5/99]").unwrap_err();
    assert_eq!(
        err.error_type,
        MacroErrorKind::User {
            message: "invalid base 99 (must be between 2 and 36, inclusive)".to_string()
        }
    );
    let err = run("[int/zz/2]").unwrap_err();
    assert_eq!(
        err.error_type,
        MacroErrorKind::User {
            message: "failed to convert zz to a number with base 2".to_string()
        }
    );
}

#[test]
fn select_handler() {
    assert_eq!(run("[select/1/a/b/c]").unwrap(), "a");
    assert_eq!(run("[select/#/one/two/three]").unwrap(), "3");
    assert_eq!(run("[select/0/it works]").unwrap(), "0");
    let err = run("[select/5/a/b]").unwrap_err();
    assert_eq!(
        err.error_type,
        MacroErrorKind::User {
            message: "index 5 is out of bounds".to_string()
        }
    );
    let err = run("[select/-1/nope]").unwrap_err();
    assert_eq!(
        err.error_type,
        MacroErrorKind::User {
            message: "could not convert argument 1 \"-1\" to usize".to_string()
        }
    );
}

#[test]
fn text_handlers() {
    assert_eq!(run("[len/]").unwrap(), "0");
    assert_eq!(run("[len/abc/de]").unwrap(), "3/2");
    assert_eq!(run("[ord/A]").unwrap(), "65");
    assert_eq!(run("[ord/Among Us]").unwrap(), "65/109/111/110/103/32/85/115");
    assert_eq!(run("[chr/65]").unwrap(), "A");
    assert_eq!(run("[chr/65/109/111/110/103/32/85/115]").unwrap(), "Among Us");
    let err = run("[chr/55296]").unwrap_err();
    assert_eq!(
        err.error_type,
        MacroErrorKind::User {
            message: "invalid codepoint at argument 1".to_string()
        }
    );
    assert_eq!(run("[equal/one/one]").unwrap(), "true");
    assert_eq!(run("[equal/one/two/three]").unwrap(), "false");
    assert_eq!(run("[equal/1/1.0]").unwrap(), "false");
    assert_eq!(run("[reverse/one/two/three]").unwrap(), "three/two/one");
    assert_eq!(run("[join/:/red/left/sleep]").unwrap(), "red:left:sleep");
    assert_eq!(run(r"[join/\/\//dou/ble]").unwrap(), "dou//ble");
    assert_eq!(run("[escape/add/5/3]").unwrap(), r"add\/5\/3");
    assert_eq!(run("[find/homeowner/meow]").unwrap(), "2");
    assert_eq!(run("[find/clubstep monster/end]").unwrap(), "-1");
    assert_eq!(run("[count/Pacific Ocean/c]").unwrap(), "3");
    assert_eq!(run("[count/hellololo/lol]").unwrap(), "1");
    assert_eq!(run("[lower/VVVVVV/GO PLAY IT]").unwrap(), "vvvvvv/go play it");
    assert_eq!(run("[lower/ὈΔΥΣΣΕΎΣ]").unwrap(), "ὀδυσσεύς");
    assert_eq!(run("[upper/vvvvvv/go play it]").unwrap(), "VVVVVV/GO PLAY IT");
    assert_eq!(run("[upper/tschüß]").unwrap(), "TSCHÜSS");
}

#[test]
fn hash_is_seahash() {
    assert_eq!(run("[hash/rain world]").unwrap(), "13463560454117874234");
    // Two different inputs, two different hashes; same input, same hash.
    let a = run("[hash/alpha]").unwrap();
    let b = run("[hash/beta]").unwrap();
    let a2 = run("[hash/alpha]").unwrap();
    assert_ne!(a, b);
    assert_eq!(a, a2);
}

#[test]
fn comment_and_error_handlers() {
    assert_eq!(run("[/anything at all]").unwrap(), "");
    let err = run("[error/oh no!]").unwrap_err();
    assert_eq!(err.name, "error");
    assert_eq!(
        err.error_type,
        MacroErrorKind::User {
            message: "oh no!".to_string()
        }
    );
    let err = run("[error]").unwrap_err();
    assert_eq!(
        err.error_type,
        MacroErrorKind::User {
            message: "no reason given".to_string()
        }
    );
}

#[test]
fn split_handler() {
    assert_eq!(run("[split/a,b,c/,/1]").unwrap(), "b");
    assert_eq!(run("[split/a,b,c/,/0]").unwrap(), "a");
    assert_eq!(run("[split/a,b,c/,/2]").unwrap(), "c");
    // A trailing separator yields a trailing empty piece.
    assert_eq!(run("[split/a,/,/1]").unwrap(), "");
    // The empty needle splits around every character.
    assert_eq!(run("[split/ab//1]").unwrap(), "a");
    assert_eq!(run("[split/ab//0]").unwrap(), "");
    let err = run("[split/a,b/,/9]").unwrap_err();
    assert_eq!(
        err.error_type,
        MacroErrorKind::User {
            message: "index 9 is out of bounds".to_string()
        }
    );
    let err = run("[split/a,b/,/x]").unwrap_err();
    assert_eq!(
        err.error_type,
        MacroErrorKind::User {
            message: "could not convert argument 1 \"x\" to usize".to_string()
        }
    );
}

#[test]
fn slice_handler() {
    assert_eq!(run("[slice/abcdefg/1/4]").unwrap(), "bcd");
    assert_eq!(run("[slice/abcde/1/]").unwrap(), "bcde");
    assert_eq!(run("[slice/1,2,30,45///2]").unwrap(), "123,5");
    assert_eq!(run("[slice/kcab///-1]").unwrap(), "back");
    let err = run("[slice/abc/9/]").unwrap_err();
    assert_eq!(
        err.error_type,
        MacroErrorKind::User {
            message: "part of range \"9..\" is out of bounds for string of length 3".to_string()
        }
    );
    let err = run("[slice/abc/1/2/0]").unwrap_err();
    assert_eq!(
        err.error_type,
        MacroErrorKind::User {
            message: "cannot have a step length of 0".to_string()
        }
    );
}

#[test]
fn map_and_fold() {
    assert_eq!(run(r"[map/\[multiply\/$1\/2\]/1/2/3]").unwrap(), "2/4/6");
    assert_eq!(run(r"[fold/\[add\/$1\/$2\]/0/1/2/3]").unwrap(), "6");
}

#[test]
fn stdlib_registry_alone() {
    // The verified standard library on its own, without any float helpers.
    let mut macros: MacroTable<StdMacro> = MacroTable::new();
    macroscript::add_stdlib(&mut macros);
    assert_eq!(
        apply_macros("[store/x/5][load/x]".to_string(), &macros).unwrap(),
        "5"
    );
    assert_eq!(apply_macros("[shl/5/2]".to_string(), &macros).unwrap(), "20");
    assert_eq!(
        apply_macros("[hash/rain world]".to_string(), &macros).unwrap(),
        "13463560454117874234"
    );
    let err = apply_macros("[add/1/2]".to_string(), &macros).unwrap_err();
    assert_eq!(err.error_type, MacroErrorKind::Nonexistent);
}

#[test]
fn failure_token_is_escaped() {
    // Brackets in a caught error text come out escaped, so the token cannot
    // be parsed as bracket syntax by the surrounding evaluation.
    assert_eq!(
        run(r"[try/\[error\/has \\\[brackets\\\] inside\]]").unwrap(),
        r"false/has \[brackets\] inside"
    );
    // A successful body yields a plain success token.
    assert_eq!(run("[try/abc]").unwrap(), "true/abc");
}

#[test]
fn evaluation_is_deterministic() {
    // No handler in this registry draws on process state, so two runs of
    // the same script agree exactly.
    let script = r"[store/x/3][repeat/\[store\/x\/\[add\/\[load\/x\]\/2\]\]\[load\/x\]/3] [hash/q] [try/\[shl\/1\/99\]]";
    let first = run(script);
    let second = run(script);
    assert_eq!(first, second);
}

#[test]
fn nested_try_frames() {
    // The inner try fails, the outer sees the token and succeeds.
    assert_eq!(
        run(r"[try/\[try\/\\\[error\\\/x\\\]\]]").unwrap(),
        "true/false/x"
    );
}
