//! Execution of macros on a given string: error values, the handler
//! protocol, the handler registry, the variable store and the rewrite
//! engine.

use vstd::prelude::*;
use vstd::string::StringExecFns;
use crate::numbers::{dec_rep, usize_to_dec};
use crate::text::{chars_to_string, push_str_chars, append_chars};

verus! {

/// An error that can arise from a macro.
#[derive(Debug, Clone, PartialEq, Eq, Hash)]
pub struct MacroError {
    /// The name of the macro that failed.
    pub name: String,
    /// The type of error that occurred.
    pub error_type: MacroErrorKind,
}

/// A kind of error that can occur when a macro is executed.
#[derive(Debug, Clone, PartialEq, Eq, Hash)]
pub enum MacroErrorKind {
    /// Not enough arguments were supplied.
    NotEnoughArguments {
        /// How many arguments the macro wanted.
        expected: usize,
        /// How many arguments the macro was given.
        found: usize,
    },
    /// A macro didn't exist.
    Nonexistent,
    /// An error was thrown in the macro.
    User {
        /// The reason the macro gave.
        message: String,
    },
}

impl MacroError {
    /// Creates an error.
    pub fn new(name: String, kind: MacroErrorKind) -> (e: Self)
        ensures
            e.name == name,
            e.error_type == kind,
    {
        MacroError { name, error_type: kind }
    }

    /// The display form of this error:
    /// `error in macro <name>: <kind>`.
    pub fn message(&self) -> (r: String)
        ensures
            r@ == "error in macro "@ + self.name@ + ": "@ + kind_message_spec(self.error_type),
    {
        let mut out: Vec<char> = Vec::new();
        push_str_chars(&mut out, "error in macro ");
        push_str_chars(&mut out, self.name.as_str());
        push_str_chars(&mut out, ": ");
        let kind = kind_message(&self.error_type);
        push_str_chars(&mut out, kind.as_str());
        chars_to_string(&out)
    }
}

impl MacroErrorKind {
    /// Creates a user error.
    pub fn user(message: String) -> (k: Self)
        ensures
            k matches MacroErrorKind::User { message: m } && m == message,
    {
        MacroErrorKind::User { message }
    }

    /// Creates an error about not having enough arguments.
    pub fn not_enough_args(expected: usize, found: usize) -> (k: Self)
        ensures
            k matches MacroErrorKind::NotEnoughArguments { expected: e, found: f } && e
                == expected && f == found,
    {
        MacroErrorKind::NotEnoughArguments { expected, found }
    }
}

/// The display form of an error kind: `expected <expected> arguments, found
/// <found>` or `not found` or the user message itself.
pub open spec fn kind_message_spec(kind: MacroErrorKind) -> Seq<char> {
    match kind {
        MacroErrorKind::NotEnoughArguments { expected, found } => "expected "@ + dec_rep(
            expected as nat,
        ) + " arguments, found "@ + dec_rep(found as nat),
        MacroErrorKind::Nonexistent => "not found"@,
        MacroErrorKind::User { message } => message@,
    }
}

/// Renders an error kind in its display form.
pub fn kind_message(kind: &MacroErrorKind) -> (r: String)
    ensures
        r@ == kind_message_spec(*kind),
{
    match kind {
        MacroErrorKind::NotEnoughArguments { expected, found } => {
            let mut out: Vec<char> = Vec::new();
            push_str_chars(&mut out, "expected ");
            let e = usize_to_dec(*expected);
            append_chars(&mut out, &e);
            push_str_chars(&mut out, " arguments, found ");
            let f = usize_to_dec(*found);
            append_chars(&mut out, &f);
            chars_to_string(&out)
        },
        MacroErrorKind::Nonexistent => String::from_str("not found"),
        MacroErrorKind::User { message } => message.clone(),
    }
}

/// A trait dictating an object as usable as a macro. The arguments a handler
/// receives have already been unescaped once by the engine; the engine
/// promises nothing about what a handler returns.
pub trait Macro {
    /// The function where this macro is applied. If the macro fails to
    /// apply, an error is returned with a message.
    fn apply(&self, arguments: Vec<String>) -> Result<String, MacroError>;
}

/// The handler registered under `k`: the most recent registration wins.
pub open spec fn table_lookup<M>(entries: Seq<(String, M)>, k: Seq<char>) -> Option<M>
    decreases entries.len(),
{
    if entries.len() == 0 {
        None
    } else if entries[0].0@ == k {
        Some(entries[0].1)
    } else {
        table_lookup(entries.drop_first(), k)
    }
}

/// A mapping from handler names to handler objects. Names are matched
/// byte-exactly; registering a name again shadows the older handler.
pub struct MacroTable<M: Macro> {
    entries: Vec<(String, M)>,
}

impl<M: Macro> MacroTable<M> {
    /// The mapping from names to handlers that the registry holds.
    pub closed spec fn spec_map(&self) -> Map<Seq<char>, M> {
        Map::new(
            |k: Seq<char>| table_lookup(self.entries@, k) is Some,
            |k: Seq<char>| table_lookup(self.entries@, k)->0,
        )
    }

    /// Creates an empty registry.
    pub fn new() -> (t: Self)
        ensures
            t.spec_map() == Map::<Seq<char>, M>::empty(),
    {
        let t = MacroTable { entries: Vec::new() };
        proof {
            assert(t.spec_map() =~= Map::<Seq<char>, M>::empty());
        }
        t
    }

    /// Registers a handler under a name, shadowing any earlier registration
    /// of the same name.
    pub fn register(&mut self, name: String, handler: M)
        ensures
            final(self).spec_map() == old(self).spec_map().insert(name@, handler),
    {
        let ghost oe = self.entries@;
        self.entries.insert(0, (name, handler));
        proof {
            assert(self.entries@.drop_first() =~= oe);
            assert(self.entries@[0] == (name, handler));
            assert forall|k: Seq<char>|
                table_lookup(self.entries@, k) == (if k == name@ {
                    Some(handler)
                } else {
                    table_lookup(oe, k)
                }) by {
            }
            assert(self.spec_map() =~= old(self).spec_map().insert(name@, handler));
        }
    }

    /// Looks up the handler registered under a name.
    pub fn get(&self, name: &Vec<char>) -> (r: Option<&M>)
        ensures
            r matches Some(m) ==> self.spec_map().contains_key(name@) && self.spec_map()[name@]
                == *m,
            r is None ==> !self.spec_map().contains_key(name@),
    {
        let n = self.entries.len();
        let mut i: usize = 0;
        proof {
            assert(self.entries@.skip(0) =~= self.entries@);
        }
        while i < n
            invariant
                i <= n,
                n == self.entries@.len(),
                table_lookup(self.entries@, name@) == table_lookup(
                    self.entries@.skip(i as int),
                    name@,
                ),
            decreases n - i,
        {
            let ghost rem = self.entries@.skip(i as int);
            proof {
                assert(rem[0] == self.entries@[i as int]);
                assert(rem.drop_first() =~= self.entries@.skip(i + 1));
            }
            if crate::text::chars_eq_str(name, self.entries[i].0.as_str()) {
                return Some(&self.entries[i].1);
            }
            i = i + 1;
        }
        proof {
            assert(self.entries@.skip(n as int) =~= Seq::<(String, M)>::empty());
        }
        None
    }
}

/// Whether some entry of the store holds the key `k`.
spec fn store_has_key(entries: Seq<(String, String)>, k: Seq<char>) -> bool {
    exists|j: int| 0 <= j < entries.len() && entries[j].0@ == k
}

/// The value of the entry holding the key `k`.
spec fn store_val(entries: Seq<(String, String)>, k: Seq<char>) -> Seq<char> {
    entries[choose|j: int| 0 <= j < entries.len() && entries[j].0@ == k].1@
}

/// The variable store: a mapping from variable names to values, owned by a
/// single top-level evaluation.
pub struct VarStore {
    entries: Vec<(String, String)>,
}

impl View for VarStore {
    type V = Map<Seq<char>, Seq<char>>;

    closed spec fn view(&self) -> Map<Seq<char>, Seq<char>> {
        Map::new(
            |k: Seq<char>| store_has_key(self.entries@, k),
            |k: Seq<char>| store_val(self.entries@, k),
        )
    }
}

impl VarStore {
    /// No two entries hold the same key.
    pub closed spec fn wf(&self) -> bool {
        forall|i: int, j: int|
            0 <= i < j < self.entries@.len() ==> self.entries@[i].0@ != self.entries@[j].0@
    }

    /// Creates an empty store.
    pub fn new() -> (s: Self)
        ensures
            s.wf(),
            s@ == Map::<Seq<char>, Seq<char>>::empty(),
    {
        let s = VarStore { entries: Vec::new() };
        proof {
            assert(s@ =~= Map::<Seq<char>, Seq<char>>::empty());
        }
        s
    }

    /// The index of the entry holding `name`, if any.
    fn find_index(&self, name: &Vec<char>) -> (r: Option<usize>)
        ensures
            r matches Some(i) ==> i < self.entries@.len() && self.entries@[i as int].0@
                == name@,
            r is None ==> !store_has_key(self.entries@, name@),
    {
        let n = self.entries.len();
        let mut i: usize = 0;
        while i < n
            invariant
                i <= n,
                n == self.entries@.len(),
                forall|j: int| 0 <= j < i ==> self.entries@[j].0@ != name@,
            decreases n - i,
        {
            if crate::text::chars_eq_str(name, self.entries[i].0.as_str()) {
                return Some(i);
            }
            i = i + 1;
        }
        None
    }

    /// Whether a variable currently exists.
    pub fn contains(&self, name: &Vec<char>) -> (b: bool)
        ensures
            b == self@.contains_key(name@),
    {
        match self.find_index(name) {
            Some(_) => true,
            None => false,
        }
    }

    /// Reads a variable's value.
    pub fn get(&self, name: &Vec<char>) -> (r: Option<String>)
        requires
            self.wf(),
        ensures
            r matches Some(v) ==> self@.contains_key(name@) && v@ == self@[name@],
            r is None ==> !self@.contains_key(name@),
    {
        match self.find_index(name) {
            Some(i) => {
                proof {
                    let j = choose|j: int|
                        0 <= j < self.entries@.len() && self.entries@[j].0@ == name@;
                    assert(j == i);
                }
                Some(self.entries[i].1.clone())
            },
            None => None,
        }
    }

    /// Inserts or overwrites a variable.
    pub fn insert(&mut self, name: &Vec<char>, value: &Vec<char>)
        requires
            old(self).wf(),
        ensures
            final(self).wf(),
            final(self)@ == old(self)@.insert(name@, value@),
    {
        let ns = chars_to_string(name);
        let vs = chars_to_string(value);
        let ghost oe = self.entries@;
        match self.find_index(name) {
            Some(i) => {
                self.entries.remove(i);
                self.entries.insert(i, (ns, vs));
                proof {
                    let ne = self.entries@;
                    assert(ne.len() == oe.len());
                    assert(forall|j: int|
                        0 <= j < ne.len() && j != i ==> ne[j] == oe[j]);
                    assert(ne[i as int].0@ == name@ && ne[i as int].1@ == value@);
                    assert(forall|j: int| #![auto]
                        0 <= j < ne.len() ==> ne[j].0@ == oe[j].0@);
                    assert(final(self).wf());
                    assert forall|k: Seq<char>|
                        store_has_key(ne, k) == old(self)@.insert(name@, value@).dom().contains(
                            k,
                        ) by {
                        if store_has_key(ne, k) {
                            let j = choose|j: int| 0 <= j < ne.len() && ne[j].0@ == k;
                            assert(oe[j].0@ == k);
                        }
                        if old(self)@.insert(name@, value@).dom().contains(k) {
                            if k == name@ {
                                assert(ne[i as int].0@ == k);
                            } else {
                                let j = choose|j: int| 0 <= j < oe.len() && oe[j].0@ == k;
                                assert(ne[j].0@ == k);
                            }
                        }
                    }
                    assert forall|k: Seq<char>| store_has_key(ne, k) implies store_val(ne, k)
                        == old(self)@.insert(name@, value@)[k] by {
                        let j = choose|j: int| 0 <= j < ne.len() && ne[j].0@ == k;
                        if k == name@ {
                            assert(j == i);
                        } else {
                            assert(j != i);
                            assert(oe[j].0@ == k);
                            let j2 = choose|j2: int| 0 <= j2 < oe.len() && oe[j2].0@ == k;
                            assert(j2 == j);
                        }
                    }
                    assert(self@ =~= old(self)@.insert(name@, value@));
                }
            },
            None => {
                self.entries.push((ns, vs));
                proof {
                    let ne = self.entries@;
                    assert(ne.len() == oe.len() + 1);
                    assert(forall|j: int| 0 <= j < oe.len() ==> ne[j] == oe[j]);
                    assert(ne[oe.len() as int].0@ == name@ && ne[oe.len() as int].1@ == value@);
                    assert(final(self).wf());
                    assert forall|k: Seq<char>|
                        store_has_key(ne, k) == old(self)@.insert(name@, value@).dom().contains(
                            k,
                        ) by {
                        if store_has_key(ne, k) {
                            let j = choose|j: int| 0 <= j < ne.len() && ne[j].0@ == k;
                            if j < oe.len() {
                                assert(oe[j].0@ == k);
                            }
                        }
                        if old(self)@.insert(name@, value@).dom().contains(k) {
                            if k == name@ {
                                assert(ne[oe.len() as int].0@ == k);
                            } else {
                                let j = choose|j: int| 0 <= j < oe.len() && oe[j].0@ == k;
                                assert(ne[j].0@ == k);
                            }
                        }
                    }
                    assert forall|k: Seq<char>| store_has_key(ne, k) implies store_val(ne, k)
                        == old(self)@.insert(name@, value@)[k] by {
                        let j = choose|j: int| 0 <= j < ne.len() && ne[j].0@ == k;
                        if k == name@ {
                            assert(j == oe.len());
                        } else {
                            assert(j < oe.len());
                            assert(oe[j].0@ == k);
                            let j2 = choose|j2: int| 0 <= j2 < oe.len() && oe[j2].0@ == k;
                            assert(j2 == j);
                        }
                    }
                    assert(self@ =~= old(self)@.insert(name@, value@));
                }
            },
        }
    }

    /// Deletes a variable; deleting an absent variable changes nothing.
    pub fn remove(&mut self, name: &Vec<char>)
        requires
            old(self).wf(),
        ensures
            final(self).wf(),
            final(self)@ == old(self)@.remove(name@),
    {
        let ghost oe = self.entries@;
        match self.find_index(name) {
            Some(i) => {
                self.entries.remove(i);
                proof {
                    let ne = self.entries@;
                    assert(ne.len() == oe.len() - 1);
                    assert(forall|j: int| 0 <= j < i ==> ne[j] == oe[j]);
                    assert(forall|j: int| i <= j < ne.len() ==> ne[j] == oe[j + 1]);
                    assert(final(self).wf()) by {
                        assert forall|a: int, b: int|
                            0 <= a < b < ne.len() implies ne[a].0@ != ne[b].0@ by {
                            if b < i {
                            } else if a < i {
                                assert(ne[a] == oe[a] && ne[b] == oe[b + 1]);
                            } else {
                                assert(ne[a] == oe[a + 1] && ne[b] == oe[b + 1]);
                            }
                        }
                    }
                    assert forall|k: Seq<char>|
                        store_has_key(ne, k) == old(self)@.remove(name@).dom().contains(k) by {
                        if store_has_key(ne, k) {
                            let j = choose|j: int| 0 <= j < ne.len() && ne[j].0@ == k;
                            if j < i {
                                assert(oe[j].0@ == k);
                                assert(k != name@);
                            } else {
                                assert(oe[j + 1].0@ == k);
                                assert(k != name@);
                            }
                        }
                        if old(self)@.remove(name@).dom().contains(k) {
                            let j = choose|j: int| 0 <= j < oe.len() && oe[j].0@ == k;
                            assert(j != i);
                            if j < i {
                                assert(ne[j].0@ == k);
                            } else {
                                assert(ne[j - 1].0@ == k);
                            }
                        }
                    }
                    assert forall|k: Seq<char>| store_has_key(ne, k) implies store_val(ne, k)
                        == old(self)@.remove(name@)[k] by {
                        let j = choose|j: int| 0 <= j < ne.len() && ne[j].0@ == k;
                        let jo: int = if j < i {
                            j
                        } else {
                            j + 1
                        };
                        assert(oe[jo].0@ == k);
                        let j2 = choose|j2: int| 0 <= j2 < oe.len() && oe[j2].0@ == k;
                        assert(j2 == jo);
                        assert(k != name@);
                    }
                    assert(self@ =~= old(self)@.remove(name@));
                }
            },
            None => {
                proof {
                    assert(!self@.contains_key(name@));
                    assert(self@ =~= old(self)@.remove(name@));
                }
            },
        }
    }
}

/// The message of a `load` of a variable that does not exist.
pub open spec fn missing_var_message(name: Seq<char>) -> Seq<char> {
    "variable \""@ + name + "\" does not currently exist"@
}

/// Whether `e` reports too few arguments for `name`, wanting `expected` and
/// seeing `found`.
pub open spec fn is_not_enough(e: MacroError, name: Seq<char>, expected: int, found: int) -> bool {
    e.name@ == name && (e.error_type matches MacroErrorKind::NotEnoughArguments {
        expected: ex,
        found: fo,
    } && ex == expected && fo == found)
}

/// Whether `e` is a user error of `name` with the message `msg`.
pub open spec fn is_user_error(e: MacroError, name: Seq<char>, msg: Seq<char>) -> bool {
    e.name@ == name && (e.error_type matches MacroErrorKind::User { message } && message@ == msg)
}

/// What a core handler decided: substitute a replacement, raise an error, or
/// pass (the name is no core handler).
pub enum CoreOutcome {
    /// Substitute this text for the invocation.
    Replace(Vec<char>),
    /// Raise this error.
    Fail(MacroError),
    /// The name is not a core handler.
    NotCore,
}

/// What running a core handler does: how the outcome and the new variable
/// store relate to the name, the arguments and the old store. The name is
/// tried against each core handler in turn; any other name passes with the
/// store untouched.
pub open spec fn core_spec(
    name: Seq<char>,
    args: Seq<Seq<char>>,
    before: Map<Seq<char>, Seq<char>>,
    o: CoreOutcome,
    after: Map<Seq<char>, Seq<char>>,
) -> bool {
    if name == "load"@ {
        after == before && (if args.len() == 0 {
            o matches CoreOutcome::Fail(e) && is_not_enough(e, "load"@, 1, 0)
        } else if before.contains_key(args[0]) {
            o matches CoreOutcome::Replace(v) && v@ == before[args[0]]
        } else {
            o matches CoreOutcome::Fail(e) && is_user_error(
                e,
                "load"@,
                missing_var_message(args[0]),
            )
        })
    } else if name == "store"@ {
        if args.len() == 0 {
            (o matches CoreOutcome::Fail(e) && is_not_enough(e, "store"@, 2, 0)) && after
                == before
        } else if args.len() == 1 {
            (o matches CoreOutcome::Fail(e) && is_not_enough(e, "store"@, 2, 1)) && after
                == before
        } else {
            (o matches CoreOutcome::Replace(v) && v@ == Seq::<char>::empty()) && after
                == before.insert(args[0], args[1])
        }
    } else if name == "drop"@ {
        if args.len() == 0 {
            (o matches CoreOutcome::Fail(e) && is_not_enough(e, "drop"@, 1, 0)) && after
                == before
        } else {
            (o matches CoreOutcome::Replace(v) && v@ == Seq::<char>::empty()) && after
                == before.remove(args[0])
        }
    } else if name == "get"@ {
        if args.len() == 0 {
            (o matches CoreOutcome::Fail(e) && is_not_enough(e, "get"@, 2, 0)) && after == before
        } else if args.len() == 1 {
            (o matches CoreOutcome::Fail(e) && is_not_enough(e, "get"@, 2, 1)) && after == before
        } else if before.contains_key(args[0]) {
            (o matches CoreOutcome::Replace(v) && v@ == before[args[0]]) && after == before
        } else {
            (o matches CoreOutcome::Replace(v) && v@ == args[1]) && after == before.insert(
                args[0],
                args[1],
            )
        }
    } else if name == "is_stored"@ {
        after == before && (if args.len() == 0 {
            o matches CoreOutcome::Fail(e) && is_not_enough(e, "is_stored"@, 1, 0)
        } else {
            o matches CoreOutcome::Replace(v) && v@ == (if before.contains_key(args[0]) {
                "true"@
            } else {
                "false"@
            })
        })
    } else {
        o is NotCore && after == before
    }
}

/// Runs the core handlers `load`, `store`, `drop`, `get` and `is_stored`
/// against the variable store. Any other name leaves the store untouched
/// and yields `NotCore`. Errors never change the store.
pub fn eval_core(name: &Vec<char>, args: &Vec<Vec<char>>, vars: &mut VarStore) -> (o: CoreOutcome)
    requires
        old(vars).wf(),
    ensures
        final(vars).wf(),
        core_spec(
            name@,
            args@.map_values(|a: Vec<char>| a@),
            old(vars)@,
            o,
            final(vars)@,
        ),
{
    if crate::text::chars_eq_str(name, "load") {
        if args.len() == 0 {
            CoreOutcome::Fail(
                MacroError::new(String::from_str("load"), MacroErrorKind::not_enough_args(1, 0)),
            )
        } else {
            match vars.get(&args[0]) {
                Some(v) => CoreOutcome::Replace(crate::text::str_to_chars(v.as_str())),
                None => {
                    let mut msg: Vec<char> = Vec::new();
                    push_str_chars(&mut msg, "variable \"");
                    append_chars(&mut msg, &args[0]);
                    push_str_chars(&mut msg, "\" does not currently exist");
                    CoreOutcome::Fail(
                        MacroError::new(
                            String::from_str("load"),
                            MacroErrorKind::user(chars_to_string(&msg)),
                        ),
                    )
                },
            }
        }
    } else if crate::text::chars_eq_str(name, "store") {
        if args.len() == 0 {
            CoreOutcome::Fail(
                MacroError::new(String::from_str("store"), MacroErrorKind::not_enough_args(2, 0)),
            )
        } else if args.len() == 1 {
            CoreOutcome::Fail(
                MacroError::new(String::from_str("store"), MacroErrorKind::not_enough_args(2, 1)),
            )
        } else {
            vars.insert(&args[0], &args[1]);
            CoreOutcome::Replace(Vec::new())
        }
    } else if crate::text::chars_eq_str(name, "drop") {
        if args.len() == 0 {
            CoreOutcome::Fail(
                MacroError::new(String::from_str("drop"), MacroErrorKind::not_enough_args(1, 0)),
            )
        } else {
            vars.remove(&args[0]);
            CoreOutcome::Replace(Vec::new())
        }
    } else if crate::text::chars_eq_str(name, "get") {
        if args.len() == 0 {
            CoreOutcome::Fail(
                MacroError::new(String::from_str("get"), MacroErrorKind::not_enough_args(2, 0)),
            )
        } else if args.len() == 1 {
            CoreOutcome::Fail(
                MacroError::new(String::from_str("get"), MacroErrorKind::not_enough_args(2, 1)),
            )
        } else {
            match vars.get(&args[0]) {
                Some(v) => CoreOutcome::Replace(crate::text::str_to_chars(v.as_str())),
                None => {
                    vars.insert(&args[0], &args[1]);
                    CoreOutcome::Replace(args[1].clone())
                },
            }
        }
    } else if crate::text::chars_eq_str(name, "is_stored") {
        if args.len() == 0 {
            CoreOutcome::Fail(
                MacroError::new(
                    String::from_str("is_stored"),
                    MacroErrorKind::not_enough_args(1, 0),
                ),
            )
        } else {
            if vars.contains(&args[0]) {
                CoreOutcome::Replace(crate::text::str_to_chars("true"))
            } else {
                CoreOutcome::Replace(crate::text::str_to_chars("false"))
            }
        }
    } else {
        CoreOutcome::NotCore
    }
}

/// The success token substituted for a finished `try` body: `true/` followed
/// by the body's final text verbatim.
pub fn make_success_token(buf: &Vec<char>) -> (t: Vec<char>)
    ensures
        t@ == "true/"@ + buf@,
{
    let mut t: Vec<char> = Vec::new();
    push_str_chars(&mut t, "true/");
    append_chars(&mut t, buf);
    proof {
        assert(t@ =~= "true/"@ + buf@);
    }
    t
}

/// The failure token substituted for a caught error: `false/` followed by
/// the error text with backslashes and brackets escaped, so that the token
/// cannot itself be parsed as bracket syntax.
pub open spec fn failure_token_spec(msg: Seq<char>) -> Seq<char> {
    "false/"@ + crate::parsing::escape_with(msg, crate::parsing::bracket_specials())
}

/// A failure token is safe to substitute into a buffer: it holds no
/// unescaped bracket, so it cannot itself be parsed as bracket syntax, and
/// removing one escape layer from its text part restores the error text.
pub proof fn lemma_failure_token_safe(msg: Seq<char>)
    ensures
        !crate::parsing::contains_unescaped(failure_token_spec(msg), '['),
        !crate::parsing::contains_unescaped(failure_token_spec(msg), ']'),
        crate::parsing::unescape_spec(
            crate::parsing::escape_with(msg, crate::parsing::bracket_specials()),
        ) == msg,
{
    reveal_strlit("false/");
    let prefix = "false/"@;
    let esc = crate::parsing::escape_with(msg, crate::parsing::bracket_specials());
    let tok = prefix + esc;
    assert(tok =~= failure_token_spec(msg));
    crate::parsing::lemma_escape_kills_unescaped(msg, crate::parsing::bracket_specials(), '[');
    crate::parsing::lemma_escape_kills_unescaped(msg, crate::parsing::bracket_specials(), ']');
    crate::parsing::lemma_unescape_escape(msg, crate::parsing::bracket_specials());
    assert(tok[0] == 'f' && tok[1] == 'a' && tok[2] == 'l' && tok[3] == 's' && tok[4] == 'e'
        && tok[5] == '/');
    crate::parsing::lemma_scan_unescaped_concat(prefix, esc, 0, false, '[');
    crate::parsing::lemma_scan_unescaped_concat(prefix, esc, 0, false, ']');
    crate::parsing::lemma_scan_skip_plain(tok, 6, '[');
    crate::parsing::lemma_scan_skip_plain(tok, 6, ']');
}

/// Builds the failure token for an error: `false/` plus the escaped display
/// form of its kind.
pub fn make_failure_token(err: &MacroError) -> (t: Vec<char>)
    ensures
        t@ == failure_token_spec(kind_message_spec(err.error_type)),
{
    let msg = kind_message(&err.error_type);
    let msg_chars = crate::text::str_to_chars(msg.as_str());
    let escaped = crate::parsing::escape_chars(&msg_chars, false);
    let mut t: Vec<char> = Vec::new();
    push_str_chars(&mut t, "false/");
    append_chars(&mut t, &escaped);
    proof {
        assert(t@ =~= failure_token_spec(kind_message_spec(err.error_type)));
    }
    t
}

/// A suspended evaluation: its buffer, and the hole in its own parent's
/// buffer that its final result will fill.
struct Frame {
    buf: Vec<char>,
    hole_start: usize,
    hole_end: usize,
}

/// Every suspended frame's hole lies within the buffer of the frame below
/// it (the bottom frame's hole is unused).
spec fn frames_wf(stack: Seq<Frame>) -> bool {
    forall|i: int|
        1 <= i < stack.len() ==> (#[trigger] stack[i]).hole_start <= stack[i].hole_end <= stack[
            i - 1].buf@.len()
}

/// Walks one step up the try stack with an error: substitutes the failure
/// token into the parent's buffer at the failed frame's hole and hands back
/// the parent, or reports that no frame is left to catch the error.
fn catch_error(stack: &mut Vec<Frame>, err: &MacroError, hole_start: usize, hole_end: usize) -> (r:
    Option<(Vec<char>, usize, usize)>)
    requires
        frames_wf(old(stack)@),
        old(stack)@.len() > 0 ==> hole_start <= hole_end <= old(stack)@.last().buf@.len(),
    ensures
        frames_wf(final(stack)@),
        old(stack)@.len() == 0 ==> r is None && final(stack)@ == old(stack)@,
        old(stack)@.len() > 0 ==> final(stack)@ == old(stack)@.drop_last() && (r matches Some(t)
            && ({
            let parent = old(stack)@.last();
            t.0@ == parent.buf@.subrange(0, hole_start as int) + failure_token_spec(
                kind_message_spec(err.error_type),
            ) + parent.buf@.subrange(hole_end as int, parent.buf@.len() as int) && t.1
                == parent.hole_start && t.2 == parent.hole_end && (final(stack)@.len() > 0
                ==> t.1 <= t.2 <= final(stack)@.last().buf@.len())
        })),
{
    match stack.pop() {
        None => None,
        Some(parent) => {
            let tok = make_failure_token(err);
            let nb = crate::text::replace_range_chars(&parent.buf, hole_start, hole_end, &tok);
            Some((nb, parent.hole_start, parent.hole_end))
        },
    }
}

/// Removes one layer of backslash escapes from each argument.
fn unescape_all(args: &Vec<Vec<char>>) -> (r: Vec<Vec<char>>)
    ensures
        r@.len() == args@.len(),
        forall|i: int|
            0 <= i < args@.len() ==> (#[trigger] r@[i])@ == crate::parsing::unescape_spec(
                args@[i]@,
            ),
{
    let mut r: Vec<Vec<char>> = Vec::new();
    let mut i: usize = 0;
    while i < args.len()
        invariant
            i <= args@.len(),
            r@.len() == i,
            forall|j: int|
                0 <= j < i ==> (#[trigger] r@[j])@ == crate::parsing::unescape_spec(args@[j]@),
        decreases args@.len() - i,
    {
        let u = crate::parsing::unescape_chars(&args[i]);
        r.push(u);
        i = i + 1;
    }
    r
}

/// The view of a frame stack: each frame's buffer and its own hole.
spec fn frames_view(stack: Seq<Frame>) -> Seq<(Seq<char>, int, int)> {
    stack.map_values(|f: Frame| (f.buf@, f.hole_start as int, f.hole_end as int))
}

/// A snapshot of the engine between rewrite steps: the suspended frames
/// (bottom first; each holds its buffer and its own hole in the frame below
/// it), the buffer being rewritten with its hole in the topmost suspended
/// frame, the variable store, and the remaining step budget.
#[verifier::ext_equal]
pub struct EvalState {
    /// The suspended frames, bottom first.
    pub stack: Seq<(Seq<char>, int, int)>,
    /// The buffer being rewritten.
    pub buf: Seq<char>,
    /// Where the buffer's result goes in the topmost suspended frame
    /// (unused when none is suspended).
    pub hole_start: int,
    /// One past the end of that hole.
    pub hole_end: int,
    /// The variable store.
    pub vars: Map<Seq<char>, Seq<char>>,
    /// The remaining step budget.
    pub fuel: nat,
}

/// What one engine step yields: a next state, the final output, or an
/// uncaught error.
pub enum EvalStep {
    /// Evaluation goes on in this state.
    Continue(EvalState),
    /// Evaluation is finished with this output.
    Done(Seq<char>),
    /// Evaluation surfaces this error.
    Failed(MacroError),
}

/// The buffer with `repl` substituted for the range `[s, e)`.
pub open spec fn spliced(buf: Seq<char>, s: int, e: int, repl: Seq<char>) -> Seq<char> {
    buf.subrange(0, s) + repl + buf.subrange(e, buf.len() as int)
}

/// How an error leaves the state `st`: with no suspended frame it surfaces;
/// otherwise the failure token fills `st`'s hole in the topmost suspended
/// frame, which resumes.
pub open spec fn catch_rel(st: EvalState, err: MacroError, next: EvalStep) -> bool {
    if st.stack.len() == 0 {
        next matches EvalStep::Failed(f) && f == err
    } else {
        let parent = st.stack.last();
        next matches EvalStep::Continue(st2) && st2.stack == st.stack.drop_last() && st2.buf
            == spliced(
            parent.0,
            st.hole_start,
            st.hole_end,
            failure_token_spec(kind_message_spec(err.error_type)),
        ) && st2.hole_start == parent.1 && st2.hole_end == parent.2 && st2.vars == st.vars
            && st2.fuel == st.fuel
    }
}

/// One step of the engine from `st`, against the set of registered handler
/// names. A handler's reply — a replacement or an arbitrary error — is
/// existentially quantified, since the `Macro` trait promises nothing;
/// everything else follows the parsing, core-handler and token
/// specifications.
pub open spec fn step_rel(
    st: EvalState,
    registered: Set<Seq<char>>,
    err: MacroError,
    next: EvalStep,
) -> bool {
    match crate::parsing::find_brackets_spec(st.buf) {
        None => {
            if st.stack.len() == 0 {
                next matches EvalStep::Done(out) && out == st.buf
            } else {
                let parent = st.stack.last();
                next matches EvalStep::Continue(st2) && st2.stack == st.stack.drop_last()
                    && st2.buf == spliced(
                    parent.0,
                    st.hole_start,
                    st.hole_end,
                    "true/"@ + st.buf,
                ) && st2.hole_start == parent.1 && st2.hole_end == parent.2 && st2.vars
                    == st.vars && st2.fuel == st.fuel
            }
        },
        Some(range) => {
            let interior = st.buf.subrange(range.0 + 1, range.1 - 1);
            let segs = crate::parsing::split_args_spec(interior);
            let name = crate::parsing::unescape_spec(segs[0]);
            let args = segs.drop_first().map_values(
                |a: Seq<char>| crate::parsing::unescape_spec(a),
            );
            if st.fuel == 0 {
                is_user_error(err, name, "step limit exceeded"@) && catch_rel(st, err, next)
            } else {
                let st1 = EvalState {
                    stack: st.stack,
                    buf: st.buf,
                    hole_start: st.hole_start,
                    hole_end: st.hole_end,
                    vars: st.vars,
                    fuel: (st.fuel - 1) as nat,
                };
                if name == "try"@ {
                    if args.len() == 0 {
                        is_not_enough(err, "try"@, 1, 0) && catch_rel(st1, err, next)
                    } else {
                        next matches EvalStep::Continue(st2) && st2.stack == st.stack.push(
                            (st.buf, st.hole_start, st.hole_end),
                        ) && st2.buf == args[0] && st2.hole_start == range.0 && st2.hole_end
                            == range.1 && st2.vars == st.vars && st2.fuel == st1.fuel
                    }
                } else {
                    exists|o: CoreOutcome, after: Map<Seq<char>, Seq<char>>|
                        #![auto]
                        core_spec(name, args, st.vars, o, after) && (match o {
                            CoreOutcome::Replace(rep) => next matches EvalStep::Continue(st2)
                                && st2.stack == st.stack && st2.buf == spliced(
                                st.buf,
                                range.0,
                                range.1,
                                rep@,
                            ) && st2.hole_start == st.hole_start && st2.hole_end == st.hole_end
                                && st2.vars == after && st2.fuel == st1.fuel,
                            CoreOutcome::Fail(ce) => err == ce && catch_rel(st1, err, next),
                            CoreOutcome::NotCore => if registered.contains(name) {
                                (exists|reply: Seq<char>|
                                    next matches EvalStep::Continue(st2) && st2.stack
                                        == st.stack && st2.buf == #[trigger] spliced(
                                        st.buf,
                                        range.0,
                                        range.1,
                                        reply,
                                    ) && st2.hole_start == st.hole_start && st2.hole_end
                                        == st.hole_end && st2.vars == st.vars && st2.fuel
                                        == st1.fuel) || catch_rel(st1, err, next)
                            } else {
                                err.name@ == name && err.error_type is Nonexistent && catch_rel(
                                    st1,
                                    err,
                                    next,
                                )
                            },
                        })
                }
            }
        },
    }
}

/// Whether the engine, started in `st`, can end with `result` within `n`
/// steps, for some sequence of handler replies and raised errors.
pub open spec fn eval_n(
    st: EvalState,
    registered: Set<Seq<char>>,
    result: EvalStep,
    n: nat,
) -> bool
    decreases n,
{
    if n == 0 {
        false
    } else {
        (exists|err: MacroError| #![auto] step_rel(st, registered, err, result)) || (exists|
            st2: EvalState,
            err: MacroError,
        |
            #![auto]
            step_rel(st, registered, err, EvalStep::Continue(st2)) && eval_n(
                st2,
                registered,
                result,
                (n - 1) as nat,
            ))
    }
}

/// Whether the engine, started in `st`, can end with `result`.
pub open spec fn evals_to(st: EvalState, registered: Set<Seq<char>>, result: EvalStep) -> bool {
    exists|n: nat| eval_n(st, registered, result, n)
}

/// The state a top-level evaluation starts in: one bare frame over the
/// input, an empty variable store, and the full step budget.
pub open spec fn init_state(input: Seq<char>, limit: nat) -> EvalState {
    EvalState {
        stack: Seq::empty(),
        buf: input,
        hole_start: 0,
        hole_end: 0,
        vars: Map::empty(),
        fuel: limit,
    }
}

/// Whether evaluating `input` with the given registered names and step
/// budget can end with `result`.
pub open spec fn evaluation_of(
    input: Seq<char>,
    registered: Set<Seq<char>>,
    limit: nat,
    result: EvalStep,
) -> bool {
    evals_to(init_state(input, limit), registered, result)
}

/// Every result reachable from `cur` is reachable from `init`.
spec fn carries(init: EvalState, cur: EvalState, registered: Set<Seq<char>>) -> bool {
    forall|result: EvalStep|
        #![trigger evals_to(cur, registered, result)]
        evals_to(cur, registered, result) ==> evals_to(init, registered, result)
}

proof fn lemma_carries_refl(st: EvalState, registered: Set<Seq<char>>)
    ensures
        carries(st, st, registered),
{
}

proof fn lemma_carries_step(
    init: EvalState,
    cur: EvalState,
    st2: EvalState,
    registered: Set<Seq<char>>,
    err: MacroError,
)
    requires
        carries(init, cur, registered),
        step_rel(cur, registered, err, EvalStep::Continue(st2)),
    ensures
        carries(init, st2, registered),
{
    assert forall|result: EvalStep|
        evals_to(st2, registered, result) implies evals_to(init, registered, result) by {
        let n = choose|n: nat| eval_n(st2, registered, result, n);
        assert(eval_n(cur, registered, result, n + 1));
        assert(evals_to(cur, registered, result));
    }
}

proof fn lemma_carries_end(
    init: EvalState,
    cur: EvalState,
    registered: Set<Seq<char>>,
    err: MacroError,
    result: EvalStep,
)
    requires
        carries(init, cur, registered),
        step_rel(cur, registered, err, result),
    ensures
        evals_to(init, registered, result),
{
    assert(eval_n(cur, registered, result, 1));
    assert(evals_to(cur, registered, result));
}

/// How many rewrite steps `apply_macros` will take before giving up with a
/// `step limit exceeded` error.
pub const DEFAULT_STEP_LIMIT: u64 = 1000000;

/// Applies all found macros in the string until none are left, with an
/// explicit bound on the number of rewrite steps.
///
/// On success the returned string holds no remaining invocation; a string
/// with no unescaped `[` is returned unchanged; and whichever way the call
/// ends, that ending is one the step relation derives from the input, for
/// the registered handler names and the given budget — which also pins the
/// errors the engine itself raises. Errors that no `try` frame catches are
/// returned to the caller.
pub fn apply_macros_with_limit<M: Macro>(
    input: String,
    macros: &MacroTable<M>,
    limit: u64,
) -> (res: Result<String, MacroError>)
    ensures
        res matches Ok(out) ==> crate::parsing::find_brackets_spec(out@) is None,
        crate::parsing::find_brackets_spec(input@) is None ==> (res matches Ok(out) && out@
            == input@),
        res matches Ok(out) ==> evaluation_of(
            input@,
            macros.spec_map().dom(),
            limit as nat,
            EvalStep::Done(out@),
        ),
        res matches Err(e) ==> evaluation_of(
            input@,
            macros.spec_map().dom(),
            limit as nat,
            EvalStep::Failed(e),
        ),
{
    let ghost registered = macros.spec_map().dom();
    let ghost init = init_state(input@, limit as nat);
    let mut vars = VarStore::new();
    let mut stack: Vec<Frame> = Vec::new();
    let mut cur_buf = crate::text::str_to_chars(input.as_str());
    let mut hole_start: usize = 0;
    let mut hole_end: usize = 0;
    let mut fuel = limit;
    proof {
        assert(frames_view(stack@) =~= Seq::<(Seq<char>, int, int)>::empty());
        assert((EvalState {
            stack: frames_view(stack@),
            buf: cur_buf@,
            hole_start: hole_start as int,
            hole_end: hole_end as int,
            vars: vars@,
            fuel: fuel as nat,
        }) =~= init);
        lemma_carries_refl(init, registered);
    }
    loop
        invariant
            vars.wf(),
            frames_wf(stack@),
            stack@.len() > 0 ==> hole_start <= hole_end <= stack@.last().buf@.len(),
            crate::parsing::find_brackets_spec(input@) is None ==> stack@.len() == 0 && cur_buf@
                == input@,
            init == init_state(input@, limit as nat),
            registered == macros.spec_map().dom(),
            carries(
                init,
                (EvalState {
                    stack: frames_view(stack@),
                    buf: cur_buf@,
                    hole_start: hole_start as int,
                    hole_end: hole_end as int,
                    vars: vars@,
                    fuel: fuel as nat,
                }),
                registered,
            ),
        decreases fuel, stack@.len(),
    {
        let ghost pre = EvalState {
            stack: frames_view(stack@),
            buf: cur_buf@,
            hole_start: hole_start as int,
            hole_end: hole_end as int,
            vars: vars@,
            fuel: fuel as nat,
        };
        match crate::parsing::find_brackets_in(&cur_buf) {
            None => {
                let ghost stk = stack@;
                match stack.pop() {
                    None => {
                        let out = chars_to_string(&cur_buf);
                        proof {
                            let ghost dummy: MacroError = vstd::pervasive::arbitrary();
                            assert(step_rel(pre, registered, dummy, EvalStep::Done(out@)));
                            lemma_carries_end(
                                init,
                                pre,
                                registered,
                                dummy,
                                EvalStep::Done(out@),
                            );
                        }
                        return Ok(out);
                    },
                    Some(parent) => {
                        let tok = make_success_token(&cur_buf);
                        cur_buf = crate::text::replace_range_chars(
                            &parent.buf,
                            hole_start,
                            hole_end,
                            &tok,
                        );
                        hole_start = parent.hole_start;
                        hole_end = parent.hole_end;
                        proof {
                            let post = EvalState {
                                stack: frames_view(stack@),
                                buf: cur_buf@,
                                hole_start: hole_start as int,
                                hole_end: hole_end as int,
                                vars: vars@,
                                fuel: fuel as nat,
                            };
                            assert(pre.stack.last() == (
                                stk.last().buf@,
                                stk.last().hole_start as int,
                                stk.last().hole_end as int,
                            ));
                            assert(frames_view(stack@) =~= pre.stack.drop_last());
                            assert(cur_buf@ =~= spliced(
                                pre.stack.last().0,
                                pre.hole_start,
                                pre.hole_end,
                                "true/"@ + pre.buf,
                            ));
                            let ghost dummy: MacroError = vstd::pervasive::arbitrary();
                            assert(step_rel(pre, registered, dummy, EvalStep::Continue(post)));
                            lemma_carries_step(init, pre, post, registered, dummy);
                        }
                    },
                }
            },
            Some((s, e)) => {
                proof {
                    assert(cur_buf@[s as int] == '[' && cur_buf@[e - 1] == ']');
                    assert(s + 1 <= e - 1);
                }
                let interior = crate::text::subrange_chars(&cur_buf, s + 1, e - 1);
                let (name_raw, args_raw) = crate::parsing::split_chars_named(&interior);
                let name_u = crate::parsing::unescape_chars(&name_raw);
                let args_u = unescape_all(&args_raw);
                let ghost segs = crate::parsing::split_args_spec(
                    pre.buf.subrange(s + 1, e - 1),
                );
                let ghost sname = crate::parsing::unescape_spec(segs[0]);
                let ghost sargs = segs.drop_first().map_values(
                    |a: Seq<char>| crate::parsing::unescape_spec(a),
                );
                proof {
                    assert(interior@ =~= pre.buf.subrange(s + 1, e - 1));
                    assert(name_u@ == sname);
                    assert(args_u@.map_values(|a: Vec<char>| a@) =~= sargs);
                }
                if fuel == 0 {
                    let err = MacroError::new(
                        chars_to_string(&name_u),
                        MacroErrorKind::user(String::from_str("step limit exceeded")),
                    );
                    proof {
                        assert(is_user_error(err, sname, "step limit exceeded"@));
                    }
                    let ghost stk = stack@;
                    match catch_error(&mut stack, &err, hole_start, hole_end) {
                        None => {
                            proof {
                                assert(catch_rel(pre, err, EvalStep::Failed(err)));
                                assert(step_rel(pre, registered, err, EvalStep::Failed(err)));
                                lemma_carries_end(
                                    init,
                                    pre,
                                    registered,
                                    err,
                                    EvalStep::Failed(err),
                                );
                            }
                            return Err(err);
                        },
                        Some((nb, hs, he)) => {
                            cur_buf = nb;
                            hole_start = hs;
                            hole_end = he;
                            proof {
                                let post = EvalState {
                                    stack: frames_view(stack@),
                                    buf: cur_buf@,
                                    hole_start: hole_start as int,
                                    hole_end: hole_end as int,
                                    vars: vars@,
                                    fuel: fuel as nat,
                                };
                                assert(pre.stack.last() == (
                                    stk.last().buf@,
                                    stk.last().hole_start as int,
                                    stk.last().hole_end as int,
                                ));
                                assert(frames_view(stack@) =~= pre.stack.drop_last());
                                assert(cur_buf@ =~= spliced(
                                    pre.stack.last().0,
                                    pre.hole_start,
                                    pre.hole_end,
                                    failure_token_spec(kind_message_spec(err.error_type)),
                                ));
                                assert(catch_rel(pre, err, EvalStep::Continue(post)));
                                assert(step_rel(
                                    pre,
                                    registered,
                                    err,
                                    EvalStep::Continue(post),
                                ));
                                lemma_carries_step(init, pre, post, registered, err);
                            }
                        },
                    }
                } else {
                    fuel = fuel - 1;
                    let ghost st1 = EvalState {
                        stack: pre.stack,
                        buf: pre.buf,
                        hole_start: pre.hole_start,
                        hole_end: pre.hole_end,
                        vars: pre.vars,
                        fuel: (pre.fuel - 1) as nat,
                    };
                    if crate::text::chars_eq_str(&name_u, "try") {
                        if args_u.len() == 0 {
                            let err = MacroError::new(
                                String::from_str("try"),
                                MacroErrorKind::not_enough_args(1, 0),
                            );
                            let ghost stk = stack@;
                            match catch_error(&mut stack, &err, hole_start, hole_end) {
                                None => {
                                    proof {
                                        assert(catch_rel(st1, err, EvalStep::Failed(err)));
                                        assert(step_rel(
                                            pre,
                                            registered,
                                            err,
                                            EvalStep::Failed(err),
                                        ));
                                        lemma_carries_end(
                                            init,
                                            pre,
                                            registered,
                                            err,
                                            EvalStep::Failed(err),
                                        );
                                    }
                                    return Err(err);
                                },
                                Some((nb, hs, he)) => {
                                    cur_buf = nb;
                                    hole_start = hs;
                                    hole_end = he;
                                    proof {
                                        let post = EvalState {
                                            stack: frames_view(stack@),
                                            buf: cur_buf@,
                                            hole_start: hole_start as int,
                                            hole_end: hole_end as int,
                                            vars: vars@,
                                            fuel: fuel as nat,
                                        };
                                        assert(pre.stack.last() == (
                                            stk.last().buf@,
                                            stk.last().hole_start as int,
                                            stk.last().hole_end as int,
                                        ));
                                        assert(frames_view(stack@) =~= pre.stack.drop_last());
                                        assert(cur_buf@ =~= spliced(
                                            pre.stack.last().0,
                                            pre.hole_start,
                                            pre.hole_end,
                                            failure_token_spec(
                                                kind_message_spec(err.error_type),
                                            ),
                                        ));
                                        assert(catch_rel(st1, err, EvalStep::Continue(post)));
                                        assert(step_rel(
                                            pre,
                                            registered,
                                            err,
                                            EvalStep::Continue(post),
                                        ));
                                        lemma_carries_step(init, pre, post, registered, err);
                                    }
                                },
                            }
                        } else {
                            let body = args_u[0].clone();
                            stack.push(Frame { buf: cur_buf, hole_start, hole_end });
                            cur_buf = body;
                            hole_start = s;
                            hole_end = e;
                            proof {
                                let post = EvalState {
                                    stack: frames_view(stack@),
                                    buf: cur_buf@,
                                    hole_start: hole_start as int,
                                    hole_end: hole_end as int,
                                    vars: vars@,
                                    fuel: fuel as nat,
                                };
                                assert(frames_view(stack@) =~= pre.stack.push(
                                    (pre.buf, pre.hole_start, pre.hole_end),
                                ));
                                assert(cur_buf@ == sargs[0]);
                                let ghost dummy: MacroError = vstd::pervasive::arbitrary();
                                assert(step_rel(
                                    pre,
                                    registered,
                                    dummy,
                                    EvalStep::Continue(post),
                                ));
                                lemma_carries_step(init, pre, post, registered, dummy);
                            }
                        }
                    } else {
                        let outcome = eval_core(&name_u, &args_u, &mut vars);
                        let ghost o_g = outcome;
                        proof {
                            assert(core_spec(sname, sargs, pre.vars, o_g, vars@));
                        }
                        match outcome {
                            CoreOutcome::Replace(rep) => {
                                cur_buf = crate::text::replace_range_chars(&cur_buf, s, e, &rep);
                                proof {
                                    let post = EvalState {
                                        stack: frames_view(stack@),
                                        buf: cur_buf@,
                                        hole_start: hole_start as int,
                                        hole_end: hole_end as int,
                                        vars: vars@,
                                        fuel: fuel as nat,
                                    };
                                    assert(cur_buf@ =~= spliced(
                                        pre.buf,
                                        s as int,
                                        e as int,
                                        rep@,
                                    ));
                                    let ghost dummy: MacroError = vstd::pervasive::arbitrary();
                                    assert(step_rel(
                                        pre,
                                        registered,
                                        dummy,
                                        EvalStep::Continue(post),
                                    ));
                                    lemma_carries_step(init, pre, post, registered, dummy);
                                }
                            },
                            CoreOutcome::Fail(err) => {
                                let ghost stk = stack@;
                                match catch_error(&mut stack, &err, hole_start, hole_end) {
                                    None => {
                                        proof {
                                            assert(catch_rel(
                                                st1,
                                                err,
                                                EvalStep::Failed(err),
                                            ));
                                            assert(step_rel(
                                                pre,
                                                registered,
                                                err,
                                                EvalStep::Failed(err),
                                            ));
                                            lemma_carries_end(
                                                init,
                                                pre,
                                                registered,
                                                err,
                                                EvalStep::Failed(err),
                                            );
                                        }
                                        return Err(err);
                                    },
                                    Some((nb, hs, he)) => {
                                        cur_buf = nb;
                                        hole_start = hs;
                                        hole_end = he;
                                        proof {
                                            let post = EvalState {
                                                stack: frames_view(stack@),
                                                buf: cur_buf@,
                                                hole_start: hole_start as int,
                                                hole_end: hole_end as int,
                                                vars: vars@,
                                                fuel: fuel as nat,
                                            };
                                            assert(pre.stack.last() == (
                                                stk.last().buf@,
                                                stk.last().hole_start as int,
                                                stk.last().hole_end as int,
                                            ));
                                            assert(frames_view(stack@)
                                                =~= pre.stack.drop_last());
                                            assert(cur_buf@ =~= spliced(
                                                pre.stack.last().0,
                                                pre.hole_start,
                                                pre.hole_end,
                                                failure_token_spec(
                                                    kind_message_spec(err.error_type),
                                                ),
                                            ));
                                            assert(catch_rel(
                                                st1,
                                                err,
                                                EvalStep::Continue(post),
                                            ));
                                            assert(step_rel(
                                                pre,
                                                registered,
                                                err,
                                                EvalStep::Continue(post),
                                            ));
                                            lemma_carries_step(
                                                init,
                                                pre,
                                                post,
                                                registered,
                                                err,
                                            );
                                        }
                                    },
                                }
                            },
                            CoreOutcome::NotCore => {
                                match macros.get(&name_u) {
                                    None => {
                                        let err = MacroError::new(
                                            chars_to_string(&name_u),
                                            MacroErrorKind::Nonexistent,
                                        );
                                        proof {
                                            assert(!registered.contains(sname));
                                        }
                                        let ghost stk = stack@;
                                        match catch_error(
                                            &mut stack,
                                            &err,
                                            hole_start,
                                            hole_end,
                                        ) {
                                            None => {
                                                proof {
                                                    assert(catch_rel(
                                                        st1,
                                                        err,
                                                        EvalStep::Failed(err),
                                                    ));
                                                    assert(step_rel(
                                                        pre,
                                                        registered,
                                                        err,
                                                        EvalStep::Failed(err),
                                                    ));
                                                    lemma_carries_end(
                                                        init,
                                                        pre,
                                                        registered,
                                                        err,
                                                        EvalStep::Failed(err),
                                                    );
                                                }
                                                return Err(err);
                                            },
                                            Some((nb, hs, he)) => {
                                                cur_buf = nb;
                                                hole_start = hs;
                                                hole_end = he;
                                                proof {
                                                    let post = EvalState {
                                                        stack: frames_view(stack@),
                                                        buf: cur_buf@,
                                                        hole_start: hole_start as int,
                                                        hole_end: hole_end as int,
                                                        vars: vars@,
                                                        fuel: fuel as nat,
                                                    };
                                                    assert(pre.stack.last() == (
                                                        stk.last().buf@,
                                                        stk.last().hole_start as int,
                                                        stk.last().hole_end as int,
                                                    ));
                                                    assert(frames_view(stack@)
                                                        =~= pre.stack.drop_last());
                                                    assert(cur_buf@ =~= spliced(
                                                        pre.stack.last().0,
                                                        pre.hole_start,
                                                        pre.hole_end,
                                                        failure_token_spec(
                                                            kind_message_spec(err.error_type),
                                                        ),
                                                    ));
                                                    assert(catch_rel(
                                                        st1,
                                                        err,
                                                        EvalStep::Continue(post),
                                                    ));
                                                    assert(step_rel(
                                                        pre,
                                                        registered,
                                                        err,
                                                        EvalStep::Continue(post),
                                                    ));
                                                    lemma_carries_step(
                                                        init,
                                                        pre,
                                                        post,
                                                        registered,
                                                        err,
                                                    );
                                                }
                                            },
                                        }
                                    },
                                    Some(handler) => {
                                        proof {
                                            assert(registered.contains(sname));
                                        }
                                        let arg_strings = crate::parsing::strings_of(&args_u);
                                        match handler.apply(arg_strings) {
                                            Ok(out) => {
                                                let rep = crate::text::str_to_chars(
                                                    out.as_str(),
                                                );
                                                cur_buf = crate::text::replace_range_chars(
                                                    &cur_buf,
                                                    s,
                                                    e,
                                                    &rep,
                                                );
                                                proof {
                                                    let post = EvalState {
                                                        stack: frames_view(stack@),
                                                        buf: cur_buf@,
                                                        hole_start: hole_start as int,
                                                        hole_end: hole_end as int,
                                                        vars: vars@,
                                                        fuel: fuel as nat,
                                                    };
                                                    assert(cur_buf@ =~= spliced(
                                                        pre.buf,
                                                        s as int,
                                                        e as int,
                                                        rep@,
                                                    ));
                                                    let ghost dummy: MacroError =
                                                        vstd::pervasive::arbitrary();
                                                    assert(step_rel(
                                                        pre,
                                                        registered,
                                                        dummy,
                                                        EvalStep::Continue(post),
                                                    ));
                                                    lemma_carries_step(
                                                        init,
                                                        pre,
                                                        post,
                                                        registered,
                                                        dummy,
                                                    );
                                                }
                                            },
                                            Err(err) => {
                                                let ghost stk = stack@;
                                                match catch_error(
                                                    &mut stack,
                                                    &err,
                                                    hole_start,
                                                    hole_end,
                                                ) {
                                                    None => {
                                                        proof {
                                                            assert(catch_rel(
                                                                st1,
                                                                err,
                                                                EvalStep::Failed(err),
                                                            ));
                                                            assert(step_rel(
                                                                pre,
                                                                registered,
                                                                err,
                                                                EvalStep::Failed(err),
                                                            ));
                                                            lemma_carries_end(
                                                                init,
                                                                pre,
                                                                registered,
                                                                err,
                                                                EvalStep::Failed(err),
                                                            );
                                                        }
                                                        return Err(err);
                                                    },
                                                    Some((nb, hs, he)) => {
                                                        cur_buf = nb;
                                                        hole_start = hs;
                                                        hole_end = he;
                                                        proof {
                                                            let post = EvalState {
                                                                stack: frames_view(stack@),
                                                                buf: cur_buf@,
                                                                hole_start: hole_start as int,
                                                                hole_end: hole_end as int,
                                                                vars: vars@,
                                                                fuel: fuel as nat,
                                                            };
                                                            assert(pre.stack.last() == (
                                                                stk.last().buf@,
                                                                stk.last().hole_start as int,
                                                                stk.last().hole_end as int,
                                                            ));
                                                            assert(frames_view(stack@)
                                                                =~= pre.stack.drop_last());
                                                            assert(cur_buf@ =~= spliced(
                                                                pre.stack.last().0,
                                                                pre.hole_start,
                                                                pre.hole_end,
                                                                failure_token_spec(
                                                                    kind_message_spec(
                                                                        err.error_type,
                                                                    ),
                                                                ),
                                                            ));
                                                            assert(catch_rel(
                                                                st1,
                                                                err,
                                                                EvalStep::Continue(post),
                                                            ));
                                                            assert(step_rel(
                                                                pre,
                                                                registered,
                                                                err,
                                                                EvalStep::Continue(post),
                                                            ));
                                                            lemma_carries_step(
                                                                init,
                                                                pre,
                                                                post,
                                                                registered,
                                                                err,
                                                            );
                                                        }
                                                    },
                                                }
                                            },
                                        }
                                    },
                                }
                            },
                        }
                    }
                }
            },
        }
    }
}

/// Applies all found macros in the string until none are left, with the
/// default step limit.
///
/// On success the returned string holds no remaining invocation; a string
/// with no unescaped `[` is returned unchanged; and whichever way the call
/// ends, that ending is one the step relation derives from the input, which
/// also pins the errors the engine itself raises. Errors that no `try`
/// frame catches are returned to the caller; this function itself never
/// panics.
pub fn apply_macros<M: Macro>(input: String, macros: &MacroTable<M>) -> (res: Result<
    String,
    MacroError,
>)
    ensures
        res matches Ok(out) ==> crate::parsing::find_brackets_spec(out@) is None,
        crate::parsing::find_brackets_spec(input@) is None ==> (res matches Ok(out) && out@
            == input@),
        res matches Ok(out) ==> evaluation_of(
            input@,
            macros.spec_map().dom(),
            DEFAULT_STEP_LIMIT as nat,
            EvalStep::Done(out@),
        ),
        res matches Err(e) ==> evaluation_of(
            input@,
            macros.spec_map().dom(),
            DEFAULT_STEP_LIMIT as nat,
            EvalStep::Failed(e),
        ),
{
    apply_macros_with_limit(input, macros, DEFAULT_STEP_LIMIT)
}

} // verus!
