//! The argument parser: the schema, and the parsing of argument lists.
use vstd::prelude::*;

use crate::result::{
    append_value, assign, assign_flag, assign_values, find_option_entry, flag_pairs,
    option_pairs, ParseResult,
};
use crate::semantics::{checks_each, checks_for, settles, Check, Store, Step};
use crate::text;
use crate::text::{append_str, copy_string, owned};
use crate::types::{ErrorV, FlagDef, OptionDef, ParseError, PositionalDef, SubcommandDef};
use crate::validators::{strs_view, Validator};

verus! {

/// The argument parser. Holds the schema (flags, options, positionals,
/// subcommands) and provides methods to parse arguments and generate help text.
///
/// Constructed via [`ArgBuilder::build()`](crate::ArgBuilder::build).
#[derive(Debug, PartialEq)]
pub struct ArgParser {
    pub program_name: Option<String>,
    pub program_desc: Option<String>,
    pub version: Option<String>,
    pub flags: Vec<FlagDef>,
    pub options: Vec<OptionDef>,
    pub positionals: Vec<PositionalDef>,
    pub subcommands: Vec<SubcommandDef>,
}

/// Index of the first item of `s` from `j` on that satisfies `pred`, or `-1`.
pub open spec fn first_index_from<A>(s: Seq<A>, pred: spec_fn(A) -> bool, j: int) -> int
    decreases s.len() - j,
{
    if j < 0 || j >= s.len() {
        -1
    } else if pred(s[j]) {
        j
    } else {
        first_index_from(s, pred, j + 1)
    }
}

/// Index of the first item of `s` that satisfies `pred`, or `-1`.
pub open spec fn first_index<A>(s: Seq<A>, pred: spec_fn(A) -> bool) -> int {
    first_index_from(s, pred, 0)
}

pub proof fn lemma_first_index_from<A>(s: Seq<A>, pred: spec_fn(A) -> bool, j: int)
    requires
        0 <= j,
    ensures
        first_index_from(s, pred, j) == -1 <==> (forall|k: int| j <= k < s.len() ==> !pred(s[k])),
        first_index_from(s, pred, j) != -1 ==> j <= first_index_from(s, pred, j) < s.len()
            && pred(s[first_index_from(s, pred, j)])
            && (forall|k: int| j <= k < first_index_from(s, pred, j) ==> !pred(s[k])),
    decreases s.len() - j,
{
    if j < s.len() && !pred(s[j]) {
        lemma_first_index_from(s, pred, j + 1);
    }
}

/// Whether a subcommand entry has the name `name`.
pub open spec fn sub_named(name: Seq<char>) -> spec_fn(SubcommandDef) -> bool {
    |s: SubcommandDef| s.name@ == name
}

/// The text printed for `--version`: the program name, a space and the
/// version, or the version alone when the program has no name.
pub open spec fn version_text_of(p: ArgParser) -> Option<Seq<char>> {
    match p.version {
        Some(v) => match p.program_name {
            Some(name) => Some(name@ + " "@ + v@),
            None => Some(v@),
        },
        None => None,
    }
}

impl ArgParser {
    /// Returns the program name, if set.
    pub fn program_name(&self) -> (r: Option<&str>)
        ensures
            match r {
                Some(s) => text::opt_view(self.program_name) == Some(s@),
                None => self.program_name is None,
            },
    {
        match &self.program_name {
            Some(s) => Some(s.as_str()),
            None => None,
        }
    }

    /// Returns the program description, if set.
    pub fn program_desc(&self) -> (r: Option<&str>)
        ensures
            match r {
                Some(s) => text::opt_view(self.program_desc) == Some(s@),
                None => self.program_desc is None,
            },
    {
        match &self.program_desc {
            Some(s) => Some(s.as_str()),
            None => None,
        }
    }

    /// Returns the registered flag definitions.
    pub fn flags(&self) -> (r: &[FlagDef])
        ensures
            r@ == self.flags@,
    {
        self.flags.as_slice()
    }

    /// Returns the registered option definitions.
    pub fn options(&self) -> (r: &[OptionDef])
        ensures
            r@ == self.options@,
    {
        self.options.as_slice()
    }

    /// Returns the registered positional definitions.
    pub fn positionals(&self) -> (r: &[PositionalDef])
        ensures
            r@ == self.positionals@,
    {
        self.positionals.as_slice()
    }

    /// Returns the registered subcommand definitions.
    pub fn subcommands(&self) -> (r: &[SubcommandDef])
        ensures
            r@ == self.subcommands@,
    {
        self.subcommands.as_slice()
    }

    /// Returns formatted version text, or None if no version is configured.
    pub fn version_text(&self) -> (r: Option<String>)
        ensures
            text::opt_view(r) == version_text_of(*self),
    {
        match &self.version {
            Some(v) => match &self.program_name {
                Some(name) => {
                    let mut s = copy_string(name);
                    append_str(&mut s, " ");
                    append_str(&mut s, v.as_str());
                    Some(s)
                },
                None => Some(copy_string(v)),
            },
            None => None,
        }
    }
}

/// Flag and option values gathered while reading tokens.
struct Values {
    flags: Vec<(String, bool)>,
    options: Vec<(String, Vec<String>)>,
}

spec fn store_of(v: Values) -> Store {
    Store { flags: flag_pairs(v.flags@), options: option_pairs(v.options@) }
}

/// Checks `value`, stored under `name`, against `validator` (if any).
fn check_value(name: &str, value: &str, validator: &Option<Validator>) -> (r: Result<(), ParseError>)
    ensures
        r is Ok ==> settles(checks_for(*validator, name@, value@), None),
        r matches Err(e) ==> settles(checks_for(*validator, name@, value@), Some(e@)),
{
    match validator {
        Some(v) => {
            let ghost c = Check { name: name@, value: value@, validator: *v };
            assert(checks_for(*validator, name@, value@) =~= seq![c]);
            match v.validate(value) {
                Ok(()) => {
                    proof {
                        let b = choose|b: bool|
                            match #[trigger] v.outcome(value@, b) {
                                None => true,
                                Some(m) => false,
                            };
                        assert(crate::semantics::may_pass(c));
                        assert(crate::semantics::may_pass(seq![c][0]));
                    }
                    Ok(())
                },
                Err(m) => {
                    let e = ParseError::ValidationFailed { name: owned(name), message: m };
                    proof {
                        let b = choose|b: bool|
                            match #[trigger] v.outcome(value@, b) {
                                None => false,
                                Some(x) => x == m@,
                            };
                        assert(crate::semantics::may_fail_with(c, m@));
                        assert(crate::semantics::rejects(seq![c][0], e@));
                    }
                    Err(e)
                },
            }
        },
        None => {
            assert(checks_for(*validator, name@, value@) =~= Seq::<Check>::empty());
            Ok(())
        },
    }
}

/// Checks each of `values`, stored under `name`, in order; the first value
/// that fails gives the error.
fn check_values(name: &str, values: &Vec<String>, validator: &Option<Validator>) -> (r: Result<(), ParseError>)
    ensures
        r is Ok ==> settles(checks_each(*validator, name@, strs_view(values@)), None),
        r matches Err(e) ==> settles(checks_each(*validator, name@, strs_view(values@)), Some(e@)),
{
    let ghost all = strs_view(values@);
    let mut k: usize = 0;
    assert(all.take(0) =~= Seq::<Seq<char>>::empty());
    while k < values.len()
        invariant
            k <= values.len(),
            all == strs_view(values@),
            settles(checks_each(*validator, name@, all.take(k as int)), None),
        decreases values.len() - k,
    {
        let ghost done = checks_each(*validator, name@, all.take(k as int));
        assert(all.take(k + 1).drop_last() =~= all.take(k as int));
        assert(all.take(k + 1).last() == values@[k as int]@);
        let ghost grown = checks_each(*validator, name@, all.take(k + 1));
        assert(grown == done + checks_for(*validator, name@, values@[k as int]@));
        match check_value(name, values[k].as_str(), validator) {
            Ok(()) => {
                proof {
                    crate::semantics::lemma_settles_concat(
                        done,
                        checks_for(*validator, name@, values@[k as int]@),
                        ErrorV::InvalidFormat(seq![]),
                    );
                }
            },
            Err(e) => {
                proof {
                    crate::semantics::lemma_settles_concat(
                        done,
                        checks_for(*validator, name@, values@[k as int]@),
                        e@,
                    );
                    lemma_each_extends(*validator, name@, all, k as int + 1);
                    crate::semantics::lemma_settles_extends(grown, checks_each(*validator, name@, all), e@);
                }
                return Err(e);
            },
        }
        k += 1;
    }
    assert(all.take(values.len() as int) =~= all);
    Ok(())
}

proof fn lemma_each_extends(v: Option<Validator>, name: Seq<char>, all: Seq<Seq<char>>, n: int)
    requires
        0 <= n <= all.len(),
    ensures
        crate::semantics::extends(checks_each(v, name, all), checks_each(v, name, all.take(n))),
    decreases all.len() - n,
{
    let a = checks_each(v, name, all.take(n));
    assert(a.take(a.len() as int) =~= a);
    if n < all.len() {
        lemma_each_extends(v, name, all, n + 1);
        assert(all.take(n + 1).drop_last() =~= all.take(n));
        let b = checks_each(v, name, all.take(n + 1));
        assert(b == a + checks_for(v, name, all.take(n + 1).last()));
        assert(b.take(a.len() as int) =~= a);
        let c = checks_each(v, name, all);
        assert(c.take(a.len() as int) =~= c.take(b.len() as int).take(a.len() as int));
    } else {
        assert(all.take(n) =~= all);
    }
}

/// Whether handling one token ended as step `s` says: `r` is `Ok(extra)`
/// with the new values of a consumed token whose values all pass their
/// checks, the step's own error, or the error of a value that fails its check.
spec fn step_done(s: Step, r: Result<bool, ParseError>, st: Store) -> bool {
    match s {
        Step::Next { store, extra, checks } => (r == Ok::<bool, ParseError>(extra) && st == store
            && settles(checks, None)) || (r matches Err(e) && settles(checks, Some(e@))),
        Step::Failed { err, checks } => r matches Err(e) && ((e@ == err && settles(checks, None))
            || settles(checks, Some(e@))),
        _ => false,
    }
}

/// Stores a value for an option: checks it with the option's validator,
/// then appends it (multi) or stores it, failing when a single-value option
/// already has one. On failure the values stay as they were.
fn store_option_value(values: &mut Values, key: &str, value: String, opt: &OptionDef, extra: bool) -> (r:
    Result<bool, ParseError>)
    ensures
        step_done(
            crate::semantics::store_step(store_of(*old(values)), key@, value@, *opt, extra),
            r,
            store_of(*final(values)),
        ),
        r is Err ==> store_of(*final(values)) == store_of(*old(values)),
{
    match check_value(key, value.as_str(), &opt.validator) {
        Ok(()) => {},
        Err(e) => {
            return Err(e);
        },
    }
    if opt.multi {
        append_value(&mut values.options, key, value);
        Ok(extra)
    } else {
        let i = find_option_entry(&values.options, key);
        if i < values.options.len() {
            Err(ParseError::DuplicateOption(owned(key)))
        } else {
            let mut vs: Vec<String> = Vec::new();
            let ghost v = value@;
            vs.push(value);
            assert(strs_view(vs@) =~= seq![v]);
            assign_values(&mut values.options, key, vs);
            Ok(extra)
        }
    }
}

/// Sets a flag in the gathered values.
fn set_flag_value(values: &mut Values, key: &str)
    ensures
        store_of(*final(values)) == crate::semantics::set_flag(store_of(*old(values)), key@),
{
    assign_flag(&mut values.flags, key, true);
}

/// Index of the first flag with long name `key`, or the number of flags.
fn find_flag_long(flags: &Vec<FlagDef>, key: &str) -> (r: usize)
    ensures
        r <= flags.len(),
        r == flags.len() <==> first_index(flags@, crate::semantics::flag_long(key@)) == -1,
        r < flags.len() ==> r == first_index(flags@, crate::semantics::flag_long(key@)),
{
    proof {
        lemma_first_index_from(flags@, crate::semantics::flag_long(key@), 0);
    }
    let mut i: usize = 0;
    while i < flags.len()
        invariant
            i <= flags.len(),
            forall|k: int| 0 <= k < i ==> !crate::semantics::flag_long(key@)(#[trigger] flags@[k]),
        decreases flags.len() - i,
    {
        if text::same(flags[i].long.as_str(), key) {
            proof {
                lemma_first_index_from(flags@, crate::semantics::flag_long(key@), 0);
            }
            return i;
        }
        i += 1;
    }
    proof {
        lemma_first_index_from(flags@, crate::semantics::flag_long(key@), 0);
    }
    i
}

/// Index of the first option with long name `key`, or the number of options.
fn find_opt_long(options: &Vec<OptionDef>, key: &str) -> (r: usize)
    ensures
        r <= options.len(),
        r == options.len() <==> first_index(options@, crate::semantics::opt_long(key@)) == -1,
        r < options.len() ==> r == first_index(options@, crate::semantics::opt_long(key@)),
{
    proof {
        lemma_first_index_from(options@, crate::semantics::opt_long(key@), 0);
    }
    let mut i: usize = 0;
    while i < options.len()
        invariant
            i <= options.len(),
            forall|k: int| 0 <= k < i ==> !crate::semantics::opt_long(key@)(#[trigger] options@[k]),
        decreases options.len() - i,
    {
        if text::same(options[i].long.as_str(), key) {
            proof {
                lemma_first_index_from(options@, crate::semantics::opt_long(key@), 0);
            }
            return i;
        }
        i += 1;
    }
    proof {
        lemma_first_index_from(options@, crate::semantics::opt_long(key@), 0);
    }
    i
}

/// Index of the first flag with short form `c`, or the number of flags.
fn find_flag_short(flags: &Vec<FlagDef>, c: char) -> (r: usize)
    ensures
        r <= flags.len(),
        r == flags.len() <==> first_index(flags@, crate::semantics::flag_short(c)) == -1,
        r < flags.len() ==> r == first_index(flags@, crate::semantics::flag_short(c)),
{
    proof {
        lemma_first_index_from(flags@, crate::semantics::flag_short(c), 0);
    }
    let mut i: usize = 0;
    while i < flags.len()
        invariant
            i <= flags.len(),
            forall|k: int| 0 <= k < i ==> !crate::semantics::flag_short(c)(#[trigger] flags@[k]),
        decreases flags.len() - i,
    {
        if flags[i].short == Some(c) {
            proof {
                lemma_first_index_from(flags@, crate::semantics::flag_short(c), 0);
            }
            return i;
        }
        i += 1;
    }
    proof {
        lemma_first_index_from(flags@, crate::semantics::flag_short(c), 0);
    }
    i
}

/// Index of the first option with short form `c`, or the number of options.
fn find_opt_short(options: &Vec<OptionDef>, c: char) -> (r: usize)
    ensures
        r <= options.len(),
        r == options.len() <==> first_index(options@, crate::semantics::opt_short(c)) == -1,
        r < options.len() ==> r == first_index(options@, crate::semantics::opt_short(c)),
{
    proof {
        lemma_first_index_from(options@, crate::semantics::opt_short(c), 0);
    }
    let mut i: usize = 0;
    while i < options.len()
        invariant
            i <= options.len(),
            forall|k: int| 0 <= k < i ==> !crate::semantics::opt_short(c)(#[trigger] options@[k]),
        decreases options.len() - i,
    {
        if options[i].short == Some(c) {
            proof {
                lemma_first_index_from(options@, crate::semantics::opt_short(c), 0);
            }
            return i;
        }
        i += 1;
    }
    proof {
        lemma_first_index_from(options@, crate::semantics::opt_short(c), 0);
    }
    i
}

impl ArgParser {
    /// Handle a `--long` or `--long=value` token.
    fn handle_long_arg(
        &self,
        tv: &Vec<char>,
        args: &Vec<String>,
        i: usize,
        values: &mut Values,
    ) -> (r: Result<bool, ParseError>)
        requires
            i < args.len(),
            tv@ == args@[i as int]@,
            tv@.len() >= 2,
        ensures
            step_done(
                crate::semantics::long_step(*self, strs_view(args@), i as int, store_of(*old(values)), tv@),
                r,
                store_of(*final(values)),
            ),
            r matches Ok(true) ==> i + 1 < args.len(),
    {
        let ghost t = tv@;
        let ghost after = t.skip(2);
        let eq = text::find_char_from(tv, '=', 2);
        proof {
            text::lemma_find_shift(t, '=', 2);
        }
        if eq < tv.len() {
            let key = text::string_of_range(tv, 2, eq);
            assert(key@ =~= after.take(text::find_char(after, '=')));
            let k = find_opt_long(&self.options, key.as_str());
            if k < self.options.len() {
                let value = text::string_of_range(tv, eq + 1, tv.len());
                assert(value@ =~= after.skip(text::find_char(after, '=') + 1));
                store_option_value(values, key.as_str(), value, &self.options[k], false)
            } else {
                Err(ParseError::UnknownArgument(args[i].clone()))
            }
        } else {
            let key = text::string_of_range(tv, 2, tv.len());
            assert(key@ =~= after);
            let fk = find_flag_long(&self.flags, key.as_str());
            if fk < self.flags.len() {
                set_flag_value(values, key.as_str());
                Ok(false)
            } else {
                let k = find_opt_long(&self.options, key.as_str());
                if k < self.options.len() {
                    if i + 1 >= args.len() {
                        Err(ParseError::MissingValue(key))
                    } else {
                        let value = args[i + 1].clone();
                        store_option_value(values, key.as_str(), value, &self.options[k], true)
                    }
                } else {
                    Err(ParseError::UnknownArgument(args[i].clone()))
                }
            }
        }
    }

    /// Handle `-abc=value`: every character but the last before `=` is a
    /// flag, the last one an option that takes the value.
    fn handle_short_eq(
        &self,
        tv: &Vec<char>,
        eq: usize,
        args: &Vec<String>,
        i: usize,
        values: &mut Values,
    ) -> (r: Result<bool, ParseError>)
        requires
            i < args.len(),
            tv@ == args@[i as int]@,
            2 <= eq < tv@.len(),
            tv@[eq as int] == '=',
        ensures
            step_done(
                crate::semantics::short_eq_step(
                    *self,
                    store_of(*old(values)),
                    tv@.skip(1),
                    eq - 1,
                    tv@,
                ),
                r,
                store_of(*final(values)),
            ),
            r matches Ok(true) ==> i + 1 < args.len(),
    {
        let ghost t = tv@;
        let ghost after = t.skip(1);
        let ghost st0 = store_of(*values);
        let ghost cs = after.take(eq - 2);
        assert(cs =~= t.subrange(1, eq - 1));
        let mut j: usize = 1;
        while j < eq - 1
            invariant
                1 <= j <= eq - 1,
                eq < tv.len(),
                st0 == store_of(*old(values)),
                i < args.len(),
                tv@ == args@[i as int]@,
                t == tv@,
                after == t.skip(1),
                cs == t.subrange(1, eq - 1),
                crate::semantics::set_short_flags(*self, st0, cs)
                    == crate::semantics::set_short_flags(*self, store_of(*values), t.subrange(j as int, eq - 1)),
            decreases eq - 1 - j,
        {
            let ghost rest = t.subrange(j as int, eq - 1);
            assert(rest[0] == tv@[j as int]);
            assert(rest.drop_first() =~= t.subrange(j + 1, eq - 1));
            let c = tv[j];
            let fk = find_flag_short(&self.flags, c);
            if fk < self.flags.len() {
                set_flag_value(values, self.flags[fk].long.as_str());
            } else {
                assert(crate::semantics::set_short_flags(*self, store_of(*values), rest) is None);
                assert(crate::semantics::set_short_flags(*self, st0, cs) is None);
                assert(after.take(eq - 1 - 1) == cs);
                return Err(ParseError::UnknownArgument(args[i].clone()));
            }
            j += 1;
        }
        assert(t.subrange(j as int, eq - 1) =~= Seq::<char>::empty());
        let last = tv[eq - 1];
        assert(after[eq - 2] == last);
        let k = find_opt_short(&self.options, last);
        if k < self.options.len() {
            let value = text::string_of_range(tv, eq + 1, tv.len());
            assert(value@ =~= after.skip(eq as int));
            store_option_value(values, self.options[k].long.as_str(), value, &self.options[k], false)
        } else {
            Err(ParseError::UnknownArgument(args[i].clone()))
        }
    }

    /// Handle a single short flag or option: `-x` or `-x value`.
    fn handle_single_short(
        &self,
        c: char,
        args: &Vec<String>,
        i: usize,
        values: &mut Values,
    ) -> (r: Result<bool, ParseError>)
        requires
            i < args.len(),
        ensures
            step_done(
                crate::semantics::single_short_step(
                    *self,
                    strs_view(args@),
                    i as int,
                    store_of(*old(values)),
                    c,
                    args@[i as int]@,
                ),
                r,
                store_of(*final(values)),
            ),
            r matches Ok(true) ==> i + 1 < args.len(),
    {
        if c == 'V' && self.version.is_some() {
            let text = self.version_text();
            return match text {
                Some(v) => Err(ParseError::VersionRequested(v)),
                None => Err(ParseError::VersionRequested(String::new())),
            };
        }
        let fk = find_flag_short(&self.flags, c);
        if fk < self.flags.len() {
            set_flag_value(values, self.flags[fk].long.as_str());
            Ok(false)
        } else {
            let k = find_opt_short(&self.options, c);
            if k < self.options.len() {
                if i + 1 >= args.len() {
                    Err(ParseError::MissingValue(self.options[k].long.clone()))
                } else {
                    let value = args[i + 1].clone();
                    store_option_value(values, self.options[k].long.as_str(), value, &self.options[k], true)
                }
            } else {
                Err(ParseError::UnknownArgument(args[i].clone()))
            }
        }
    }

    /// Handle combined short flags and attached values: `-abc`, `-oValue`.
    /// Walks each character, treating flags as combinable and options as
    /// consuming the remaining characters (or the next argument token).
    fn handle_combined_short_flags(
        &self,
        tv: &Vec<char>,
        args: &Vec<String>,
        i: usize,
        values: &mut Values,
    ) -> (r: Result<bool, ParseError>)
        requires
            i < args.len(),
            tv@ == args@[i as int]@,
            tv@.len() >= 2,
        ensures
            step_done(
                crate::semantics::cluster_step(
                    *self,
                    strs_view(args@),
                    i as int,
                    store_of(*old(values)),
                    tv@.skip(1),
                    0,
                    tv@,
                ),
                r,
                store_of(*final(values)),
            ),
            r matches Ok(true) ==> i + 1 < args.len(),
    {
        let ghost t = tv@;
        let ghost after = t.skip(1);
        let ghost av = strs_view(args@);
        let ghost st0 = store_of(*values);
        let h_is_flag = find_flag_short(&self.flags, 'h') < self.flags.len();
        let mut j: usize = 1;
        while j < tv.len()
            invariant
                1 <= j <= tv.len(),
                t == tv@,
                tv@ == args@[i as int]@,
                st0 == store_of(*old(values)),
                after == t.skip(1),
                i < args.len(),
                av == strs_view(args@),
                h_is_flag == (first_index(self.flags@, crate::semantics::flag_short('h')) >= 0),
                crate::semantics::cluster_step(*self, av, i as int, st0, after, 0, t)
                    == crate::semantics::cluster_step(*self, av, i as int, store_of(*values), after, j - 1, t),
            decreases tv.len() - j,
        {
            let c = tv[j];
            assert(after[j - 1] == c);
            if c == 'h' && !h_is_flag {
                return Err(ParseError::HelpRequested(self.help_text()));
            }
            if c == 'V' && self.version.is_some() {
                let text = self.version_text();
                return match text {
                    Some(v) => Err(ParseError::VersionRequested(v)),
                    None => Err(ParseError::VersionRequested(String::new())),
                };
            }
            let fk = find_flag_short(&self.flags, c);
            if fk < self.flags.len() {
                set_flag_value(values, self.flags[fk].long.as_str());
                j += 1;
            } else {
                let k = find_opt_short(&self.options, c);
                if k < self.options.len() {
                    if j + 1 < tv.len() {
                        let value = text::string_of_range(tv, j + 1, tv.len());
                        assert(value@ =~= after.skip(j as int));
                        return store_option_value(
                            values,
                            self.options[k].long.as_str(),
                            value,
                            &self.options[k],
                            false,
                        );
                    } else {
                        if i + 1 >= args.len() {
                            return Err(ParseError::MissingValue(self.options[k].long.clone()));
                        }
                        let value = args[i + 1].clone();
                        return store_option_value(
                            values,
                            self.options[k].long.as_str(),
                            value,
                            &self.options[k],
                            true,
                        );
                    }
                } else {
                    let mut msg = owned("unrecognized '");
                    text::push_char(&mut msg, c);
                    append_str(&mut msg, "' in '");
                    append_str(&mut msg, args[i].as_str());
                    append_str(&mut msg, "'");
                    assert(msg@ =~= crate::semantics::unrecognized(c, t));
                    return Err(ParseError::UnknownArgument(msg));
                }
            }
        }
        Ok(false)
    }
}

/// What the token scan stopped on.
enum TokenAction {
    /// All tokens consumed.
    Done,
    /// A bare token at position `index`.
    Positional { index: usize, token: String },
    /// `--` at position `index`; the remaining tokens start at `index + 1`.
    RestPositional { index: usize },
}

/// Whether a scan ended as `sc` says: what it stopped on, with every
/// checked value passing, its own error, or the error of a value that fails
/// its check.
spec fn scan_done(sc: crate::semantics::Scan, r: Result<TokenAction, ParseError>, args: Seq<String>, st: Store) -> bool {
    match sc {
        crate::semantics::Scan::Done { store, checks } => (r matches Ok(TokenAction::Done) && st == store
            && settles(checks, None)) || (r matches Err(e) && settles(checks, Some(e@))),
        crate::semantics::Scan::Bare { index, store, checks } => (r matches Ok(
            TokenAction::Positional { index: ix, token },
        ) && ix == index && token@ == args[index]@ && st == store && settles(checks, None)) || (
        r matches Err(e) && settles(checks, Some(e@))),
        crate::semantics::Scan::Rest { index, store, checks } => (r matches Ok(
            TokenAction::RestPositional { index: ix },
        ) && ix == index && st == store && settles(checks, None)) || (r matches Err(e) && settles(
            checks,
            Some(e@),
        )),
        crate::semantics::Scan::Failed { err, checks } => r matches Err(e) && ((e@ == err && settles(
            checks,
            None,
        )) || settles(checks, Some(e@))),
        crate::semantics::Scan::Abort { checks } => r matches Err(e) && settles(checks, Some(e@)),
    }
}

impl ArgParser {
    /// Check for built-in `--help`, `-h`, and `--version` tokens.
    /// Returns the error to report if the token is a built-in, `None` otherwise.
    fn handle_builtin(&self, tv: &Vec<char>) -> (r: Option<ParseError>)
        ensures
            (tv@ == "--help"@ || tv@ == "-h"@) ==> (r matches Some(e) && e@
                == crate::types::ErrorV::HelpRequested(crate::help::help_of(*self))),
            !(tv@ == "--help"@ || tv@ == "-h"@) && tv@ == "--version"@ ==> (r matches Some(e) && e@
                == match version_text_of(*self) {
                Some(v) => crate::types::ErrorV::VersionRequested(v),
                None => crate::types::ErrorV::UnknownArgument(tv@),
            }),
            !(tv@ == "--help"@ || tv@ == "-h"@) && tv@ != "--version"@ ==> r is None,
    {
        if text::chars_are(tv, "--help") || text::chars_are(tv, "-h") {
            return Some(ParseError::HelpRequested(self.help_text()));
        }
        if text::chars_are(tv, "--version") {
            return Some(
                match self.version_text() {
                    Some(t) => ParseError::VersionRequested(t),
                    None => ParseError::UnknownArgument(text::string_of(tv)),
                },
            );
        }
        None
    }

    /// Handle a short-form token: `-x`, `-x=val`, or combined `-abc` / `-oValue`.
    /// `None` stands for the token `-=...`, which has no key before `=`.
    fn handle_short_arg(
        &self,
        tv: &Vec<char>,
        args: &Vec<String>,
        i: usize,
        values: &mut Values,
    ) -> (r: Option<Result<bool, ParseError>>)
        requires
            i < args.len(),
            tv@ == args@[i as int]@,
            tv@.len() >= 2,
        ensures
            match crate::semantics::short_step(
                *self,
                strs_view(args@),
                i as int,
                store_of(*old(values)),
                tv@,
            ) {
                Step::Abort => r is None,
                s => r matches Some(x) && step_done(s, x, store_of(*final(values))),
            },
            r matches Some(Ok(true)) ==> i + 1 < args.len(),
    {
        let ghost t = tv@;
        let eq = text::find_char_from(tv, '=', 1);
        proof {
            text::lemma_find_shift(t, '=', 1);
            text::lemma_find_from(t, '=', 1);
        }
        if eq < tv.len() {
            if eq == 1 {
                return None;
            }
            Some(self.handle_short_eq(tv, eq, args, i, values))
        } else if tv.len() == 2 && (tv[1] as u32) < 128 {
            Some(self.handle_single_short(tv[1], args, i, values))
        } else {
            Some(self.handle_combined_short_flags(tv, args, i, values))
        }
    }

    /// Shared token-parsing helper. Dispatches each token from `start` on to
    /// the appropriate handler based on its shape. Stops at a bare token or
    /// the `--` separator, or when all tokens are consumed. `None` stands for
    /// reaching a token `-=...`. `ck` are the checks met before `start`.
    fn parse_tokens(
        &self,
        args: &Vec<String>,
        start: usize,
        values: &mut Values,
        Ghost(ck): Ghost<Seq<Check>>,
    ) -> (r: Option<Result<TokenAction, ParseError>>)
        requires
            start <= args.len(),
            settles(ck, None),
        ensures
            r is None ==> (crate::semantics::scan(
                *self,
                strs_view(args@),
                start as int,
                store_of(*old(values)),
                ck,
            ) matches crate::semantics::Scan::Abort { checks } && settles(checks, None)),
            r matches Some(x) ==> scan_done(
                crate::semantics::scan(*self, strs_view(args@), start as int, store_of(*old(values)), ck),
                x,
                args@,
                store_of(*final(values)),
            ),
    {
        let ghost av = strs_view(args@);
        let ghost whole = crate::semantics::scan(*self, av, start as int, store_of(*values), ck);
        let ghost mut cur = ck;
        let mut i = start;
        while i < args.len()
            invariant
                start <= i <= args.len(),
                av == strs_view(args@),
                whole == crate::semantics::scan(*self, av, start as int, store_of(*old(values)), ck),
                whole == crate::semantics::scan(*self, av, i as int, store_of(*values), cur),
                settles(cur, None),
            decreases args.len() - i,
        {
            let tv = text::chars_of(args[i].as_str());
            assert(av[i as int] == tv@);
            if text::chars_are(&tv, "--") {
                return Some(Ok(TokenAction::RestPositional { index: i }));
            }
            match self.handle_builtin(&tv) {
                Some(e) => {
                    assert(cur + Seq::<Check>::empty() =~= cur);
                    return Some(Err(e));
                },
                None => {},
            }
            let ghost st = store_of(*values);
            let extra;
            if tv.len() >= 2 && tv[0] == '-' && tv[1] == '-' {
                extra = self.handle_long_arg(&tv, args, i, values);
            } else if tv.len() > 1 && tv[0] == '-' {
                match self.handle_short_arg(&tv, args, i, values) {
                    Some(x) => {
                        extra = x;
                    },
                    None => {
                        return None;
                    },
                }
            } else {
                return Some(Ok(TokenAction::Positional { index: i, token: args[i].clone() }));
            }
            let ghost s = crate::semantics::step(*self, av, i as int, st);
            match extra {
                Ok(x) => {
                    proof {
                        let c = s->Next_checks;
                        crate::semantics::lemma_settles_concat(cur, c, ErrorV::InvalidFormat(seq![]));
                        cur = cur + c;
                    }
                    i = i + 1;
                    if x {
                        i = i + 1;
                    }
                },
                Err(e) => {
                    proof {
                        match s {
                            Step::Next { store, extra: x, checks: c } => {
                                let next = i + 1 + if x {
                                    1int
                                } else {
                                    0int
                                };
                                crate::semantics::lemma_settles_concat(cur, c, e@);
                                crate::semantics::lemma_scan_extends(*self, av, next, store, cur + c);
                                crate::semantics::lemma_settles_extends(
                                    cur + c,
                                    crate::semantics::scan_checks(whole),
                                    e@,
                                );
                            },
                            Step::Failed { err, checks: c } => {
                                crate::semantics::lemma_settles_concat(cur, c, e@);
                            },
                            _ => {},
                        }
                    }
                    return Some(Err(e));
                },
            }
        }
        Some(Ok(TokenAction::Done))
    }
}

/// The contents of an environment snapshot.
pub open spec fn env_view(env: Seq<(String, String)>) -> Seq<(Seq<char>, Seq<char>)> {
    env.map_values(|p: (String, String)| (p.0@, p.1@))
}

/// The value of environment variable `name` in the snapshot, if any.
fn env_get<'e>(env: &'e Vec<(String, String)>, name: &str) -> (r: Option<&'e String>)
    ensures
        match crate::semantics::env_lookup(env_view(env@), name@) {
            Some(v) => r matches Some(s) && s@ == v,
            None => r is None,
        },
{
    let ghost ev = env_view(env@);
    let ghost pred = crate::result::key_is::<Seq<char>>(name@);
    proof {
        lemma_first_index_from(ev, pred, 0);
    }
    let mut i: usize = 0;
    while i < env.len()
        invariant
            i <= env.len(),
            ev == env_view(env@),
            pred == crate::result::key_is::<Seq<char>>(name@),
            forall|k: int| 0 <= k < i ==> !pred(#[trigger] ev[k]),
        decreases env.len() - i,
    {
        if text::same(env[i].0.as_str(), name) {
            assert(pred(ev[i as int]));
            proof {
                lemma_first_index_from(ev, pred, 0);
            }
            return Some(&env[i].1);
        }
        assert(!pred(ev[i as int]));
        i += 1;
    }
    proof {
        lemma_first_index_from(ev, pred, 0);
    }
    None
}

/// The non-empty pieces of `s` between commas.
fn split_commas(s: &String) -> (r: Vec<String>)
    ensures
        strs_view(r@) == crate::semantics::comma_pieces(s@),
{
    let cs = text::chars_of(s.as_str());
    let mut acc: Vec<String> = Vec::new();
    let mut cur: Vec<char> = Vec::new();
    let mut k: usize = 0;
    assert(cs@.skip(0) =~= cs@);
    assert(strs_view(acc@) =~= Seq::<Seq<char>>::empty());
    while k < cs.len()
        invariant
            k <= cs.len(),
            cs@ == s@,
            crate::semantics::comma_pieces(cs@) == crate::semantics::split_nonempty(
                cs@.skip(k as int),
                cur@,
                strs_view(acc@),
            ),
        decreases cs.len() - k,
    {
        let ghost rest = cs@.skip(k as int);
        assert(rest[0] == cs@[k as int]);
        assert(rest.drop_first() =~= cs@.skip(k + 1));
        if cs[k] == ',' {
            if cur.len() > 0 {
                let ghost before = strs_view(acc@);
                let piece = text::string_of(&cur);
                acc.push(piece);
                assert(strs_view(acc@) =~= before.push(cur@));
            }
            cur = Vec::new();
            assert(cur@ =~= Seq::<char>::empty());
        } else {
            cur.push(cs[k]);
        }
        k += 1;
    }
    assert(cs@.skip(k as int) =~= Seq::<char>::empty());
    if cur.len() > 0 {
        let ghost before = strs_view(acc@);
        let piece = text::string_of(&cur);
        acc.push(piece);
        assert(strs_view(acc@) =~= before.push(cur@));
    }
    acc
}

/// Whether a run of the fallback pass ended as `f` says: the filled
/// options with every checked value passing, its own error, or the error of
/// a value that fails its check.
spec fn fill_done(f: crate::semantics::Filled, r: Result<(), ParseError>, options: Seq<(Seq<char>, Seq<Seq<char>>)>) -> bool {
    match f {
        crate::semantics::Filled::Filled { options: o, checks } => (r is Ok && options == o && settles(
            checks,
            None,
        )) || (r matches Err(e) && settles(checks, Some(e@))),
        crate::semantics::Filled::Failed { err, checks } => r matches Err(e) && ((e@ == err && settles(
            checks,
            None,
        )) || settles(checks, Some(e@))),
    }
}

/// The values an option takes from the environment snapshot, if any.
fn resolve_env(opt: &OptionDef, env: &Vec<(String, String)>) -> (r: Option<Vec<String>>)
    ensures
        match crate::semantics::env_values(*opt, env_view(env@)) {
            Some(vs) => r matches Some(v) && strs_view(v@) == vs,
            None => r is None,
        },
{
    match &opt.env_var {
        Some(var) => match env_get(env, var.as_str()) {
            Some(val) => {
                if val.as_str().is_empty() {
                    return None;
                }
                let resolved = if opt.multi {
                    split_commas(val)
                } else {
                    let mut v: Vec<String> = Vec::new();
                    v.push(val.clone());
                    assert(strs_view(v@) =~= seq![val@]);
                    v
                };
                if resolved.len() > 0 {
                    Some(resolved)
                } else {
                    None
                }
            },
            None => None,
        },
        None => None,
    }
}

/// Apply env var fallback, defaults, and required checks for all options.
/// A value taken from the environment or a default is checked as it is
/// stored; `ck` are the checks met before.
fn apply_option_fallbacks(
    options: &Vec<OptionDef>,
    env: &Vec<(String, String)>,
    values: &mut Vec<(String, Vec<String>)>,
    Ghost(ck): Ghost<Seq<Check>>,
) -> (r: Result<(), ParseError>)
    requires
        settles(ck, None),
    ensures
        fill_done(
            crate::semantics::fill(options@, env_view(env@), option_pairs(old(values)@), 0, ck),
            r,
            option_pairs(final(values)@),
        ),
{
    let ghost ev = env_view(env@);
    let ghost whole = crate::semantics::fill(options@, ev, option_pairs(values@), 0, ck);
    let ghost mut cur = ck;
    let mut k: usize = 0;
    while k < options.len()
        invariant
            k <= options.len(),
            ev == env_view(env@),
            whole == crate::semantics::fill(options@, ev, option_pairs(old(values)@), 0, ck),
            whole == crate::semantics::fill(options@, ev, option_pairs(values@), k as int, cur),
            settles(cur, None),
        decreases options.len() - k,
    {
        let opt = &options[k];
        let ghost key = opt.long@;
        let ghost vals = option_pairs(values@);
        let i = find_option_entry(values, opt.long.as_str());
        let present = i < values.len() && values[i].1.len() > 0;
        if !present {
            match resolve_env(opt, env) {
                Some(resolved) => {
                    let ghost c = crate::semantics::checks_each(opt.validator, key, strs_view(resolved@));
                    match check_values(opt.long.as_str(), &resolved, &opt.validator) {
                        Ok(()) => {},
                        Err(e) => {
                            proof {
                                crate::semantics::lemma_settles_concat(cur, c, e@);
                                crate::semantics::lemma_fill_extends(
                                    options@,
                                    ev,
                                    assign(vals, key, strs_view(resolved@)),
                                    k + 1,
                                    cur + c,
                                );
                                crate::semantics::lemma_settles_extends(
                                    cur + c,
                                    crate::semantics::filled_checks(whole),
                                    e@,
                                );
                            }
                            return Err(e);
                        },
                    }
                    proof {
                        crate::semantics::lemma_settles_concat(cur, c, ErrorV::InvalidFormat(seq![]));
                        cur = cur + c;
                    }
                    assign_values(values, opt.long.as_str(), resolved);
                },
                None => match &opt.default {
                    Some(d) => {
                        let ghost c = checks_for(opt.validator, key, d@);
                        match check_value(opt.long.as_str(), d.as_str(), &opt.validator) {
                            Ok(()) => {},
                            Err(e) => {
                                proof {
                                    crate::semantics::lemma_settles_concat(cur, c, e@);
                                    crate::semantics::lemma_fill_extends(
                                        options@,
                                        ev,
                                        assign(vals, key, seq![d@]),
                                        k + 1,
                                        cur + c,
                                    );
                                    crate::semantics::lemma_settles_extends(
                                        cur + c,
                                        crate::semantics::filled_checks(whole),
                                        e@,
                                    );
                                }
                                return Err(e);
                            },
                        }
                        proof {
                            crate::semantics::lemma_settles_concat(cur, c, ErrorV::InvalidFormat(seq![]));
                            cur = cur + c;
                        }
                        let mut v: Vec<String> = Vec::new();
                        v.push(d.clone());
                        assert(strs_view(v@) =~= seq![d@]);
                        assign_values(values, opt.long.as_str(), v);
                    },
                    None => {
                        if opt.required {
                            return Err(ParseError::MissingRequired(opt.long.clone()));
                        }
                    },
                },
            }
        }
        k += 1;
    }
    Ok(())
}

/// Every flag of the schema set to `false`.
fn initial_flag_values(flags: &Vec<FlagDef>) -> (r: Vec<(String, bool)>)
    ensures
        flag_pairs(r@) == crate::semantics::initial_flags(flags@),
{
    let mut r: Vec<(String, bool)> = Vec::new();
    assert(flag_pairs(r@) =~= Seq::<(Seq<char>, bool)>::empty());
    let mut i: usize = 0;
    while i < flags.len()
        invariant
            i <= flags.len(),
            flag_pairs(r@) == crate::semantics::initial_flags(flags@.take(i as int)),
        decreases flags.len() - i,
    {
        assert(flags@.take(i + 1).drop_last() =~= flags@.take(i as int));
        assign_flag(&mut r, flags[i].long.as_str(), false);
        i += 1;
    }
    assert(flags@.take(flags.len() as int) =~= flags@);
    r
}

/// Fills in the defaults of missing positionals.
fn pad_positional_defaults(ps: &Vec<PositionalDef>, pv: &mut Vec<String>)
    ensures
        strs_view(final(pv)@) == crate::semantics::pad_defaults(ps@, strs_view(old(pv)@), 0),
{
    let mut idx: usize = 0;
    while idx < ps.len()
        invariant
            idx <= ps.len(),
            crate::semantics::pad_defaults(ps@, strs_view(old(pv)@), 0)
                == crate::semantics::pad_defaults(ps@, strs_view(pv@), idx as int),
        decreases ps.len() - idx,
    {
        match &ps[idx].default {
            Some(d) => {
                if idx >= pv.len() {
                    let ghost before = strs_view(pv@);
                    while pv.len() < idx
                        invariant
                            before.len() <= pv.len() <= idx,
                            strs_view(pv@) == before + crate::semantics::blanks(
                                (pv.len() - before.len()) as nat,
                            ),
                        decreases idx - pv.len(),
                    {
                        let ghost m = (pv.len() - before.len()) as nat;
                        let ghost prev = strs_view(pv@);
                        assert(crate::semantics::blanks(m + 1) == crate::semantics::blanks(m).push(
                            seq![],
                        ));
                        pv.push(String::new());
                        assert(strs_view(pv@) =~= prev.push(Seq::<char>::empty()));
                        assert(strs_view(pv@) =~= before + crate::semantics::blanks(m + 1));
                    }
                    pv.push(d.clone());
                    assert(strs_view(pv@) =~= before + crate::semantics::blanks(
                        (idx - before.len()) as nat,
                    ) + seq![d@]);
                }
            },
            None => {},
        }
        idx += 1;
    }
}

/// Index of the first required positional without a value, or `ps.len()`.
fn missing_positional_index(ps: &Vec<PositionalDef>, count: usize) -> (r: usize)
    ensures
        r <= ps.len(),
        r == ps.len() <==> crate::semantics::missing_positional(ps@, count as int) == -1,
        r < ps.len() ==> r == crate::semantics::missing_positional(ps@, count as int),
{
    let mut idx: usize = 0;
    while idx < ps.len()
        invariant
            idx <= ps.len(),
            crate::semantics::missing_from(ps@, count as int, 0)
                == crate::semantics::missing_from(ps@, count as int, idx as int),
        decreases ps.len() - idx,
    {
        if ps[idx].required && idx >= count {
            return idx;
        }
        idx += 1;
    }
    idx
}

/// Checks the positional values, in order; the first value that fails
/// gives the error.
fn check_positionals(ps: &Vec<PositionalDef>, pv: &Vec<String>) -> (r: Result<(), ParseError>)
    ensures
        r is Ok ==> settles(crate::semantics::positional_checks(ps@, strs_view(pv@), 0), None),
        r matches Err(e) ==> settles(
            crate::semantics::positional_checks(ps@, strs_view(pv@), 0),
            Some(e@),
        ),
{
    let ghost total = crate::semantics::positional_checks(ps@, strs_view(pv@), 0);
    let ghost mut done: Seq<Check> = seq![];
    assert(total =~= done + crate::semantics::positional_checks(ps@, strs_view(pv@), 0));
    let mut idx: usize = 0;
    while idx < ps.len()
        invariant
            idx <= ps.len(),
            total == crate::semantics::positional_checks(ps@, strs_view(pv@), 0),
            total =~= done + crate::semantics::positional_checks(ps@, strs_view(pv@), idx as int),
            settles(done, None),
        decreases ps.len() - idx,
    {
        let ghost rest = crate::semantics::positional_checks(ps@, strs_view(pv@), idx + 1);
        if idx < pv.len() {
            let ghost c = checks_for(ps@[idx as int].validator, ps@[idx as int].name@, pv@[idx as int]@);
            assert(strs_view(pv@)[idx as int] == pv@[idx as int]@);
            match check_value(ps[idx].name.as_str(), pv[idx].as_str(), &ps[idx].validator) {
                Ok(()) => {
                    proof {
                        crate::semantics::lemma_settles_concat(done, c, ErrorV::InvalidFormat(seq![]));
                        assert(total =~= (done + c) + rest);
                        done = done + c;
                    }
                },
                Err(e) => {
                    proof {
                        crate::semantics::lemma_settles_concat(done, c, e@);
                        crate::semantics::lemma_settles_concat(done + c, rest, e@);
                        assert(total =~= (done + c) + rest);
                    }
                    return Err(e);
                },
            }
        } else {
            assert(total =~= done + rest);
        }
        idx += 1;
    }
    assert(total =~= done);
    Ok(())
}

/// Whether a parse ended as outcome `o` says, once every value met has been
/// checked as it was stored (the result's schema names attached or not).
spec fn outcome_done(o: crate::semantics::Outcome, r: Result<ParseResult, ParseError>, with_names: bool) -> bool {
    match o {
        crate::semantics::Outcome::Parsed { result, checks } => (r matches Ok(pr) && (if with_names {
            pr.model() == result
        } else {
            pr.model() == (crate::result::ResultModel {
                known_flags: seq![],
                known_options: seq![],
                ..result
            })
        }) && settles(checks, None)) || (r matches Err(e) && settles(checks, Some(e@))),
        crate::semantics::Outcome::Failed { err, checks } => r matches Err(e) && ((e@ == err
            && settles(checks, None)) || settles(checks, Some(e@))),
        crate::semantics::Outcome::Abort { checks } => r matches Err(e) && settles(checks, Some(e@)),
    }
}

/// Whether `r`, the answer of a parse with outcome `o`, is as it says: `None`
/// only where the parse reaches a token `-=...` with every value before it
/// passing its check.
spec fn answered(o: crate::semantics::Outcome, r: Option<Result<ParseResult, ParseError>>, with_names: bool) -> bool {
    &&& r is None ==> (o matches crate::semantics::Outcome::Abort { checks } && settles(checks, None))
    &&& r matches Some(x) ==> outcome_done(o, x, with_names)
}

impl ArgParser {
    /// Parse logic for parsers without subcommands.
    fn parse_no_subcommands(&self, args: &Vec<String>, env: &Vec<(String, String)>) -> (r: Option<
        Result<ParseResult, ParseError>,
    >)
        ensures
            answered(crate::semantics::parse_plain(*self, strs_view(args@), env_view(env@)), r, false),
    {
        let ghost av = strs_view(args@);
        let ghost ev = env_view(env@);
        let ghost o = crate::semantics::parse_plain(*self, av, ev);
        let mut values = Values { flags: initial_flag_values(&self.flags), options: Vec::new() };
        let mut positionals: Vec<String> = Vec::new();
        let ghost st0 = store_of(values);
        assert(option_pairs(values.options@) =~= Seq::<(Seq<char>, Seq<Seq<char>>)>::empty());
        assert(st0 == (Store { flags: crate::semantics::initial_flags(self.flags@), options: seq![] }));
        assert(strs_view(positionals@) =~= Seq::<Seq<char>>::empty());
        let ghost g = crate::semantics::gather(*self, av, 0, st0, seq![], seq![]);
        proof {
            crate::semantics::lemma_plain_extends(*self, av, ev);
        }
        let ghost mut ck: Seq<Check> = seq![];
        let mut offset: usize = 0;
        loop
            invariant_except_break
                offset <= args.len(),
                g == crate::semantics::gather(
                    *self,
                    av,
                    offset as int,
                    store_of(values),
                    strs_view(positionals@),
                    ck,
                ),
                settles(ck, None),
            invariant
                av == strs_view(args@),
                ev == env_view(env@),
                o == crate::semantics::parse_plain(*self, av, ev),
                st0 == (Store { flags: crate::semantics::initial_flags(self.flags@), options: seq![] }),
                g == crate::semantics::gather(*self, av, 0, st0, seq![], seq![]),
                crate::semantics::extends(
                    crate::semantics::outcome_checks(o),
                    crate::semantics::gathered_checks(g),
                ),
            ensures
                g == (crate::semantics::Gathered::Read {
                    store: store_of(values),
                    positionals: strs_view(positionals@),
                    checks: ck,
                }),
                settles(ck, None),
            decreases args.len() + 1 - offset,
        {
            let ghost pre_st = store_of(values);
            let ghost pre_pos = strs_view(positionals@);
            proof {
                crate::semantics::lemma_scan_index(*self, av, offset as int, pre_st, ck);
                crate::semantics::lemma_gather_extends_scan(*self, av, offset as int, pre_st, pre_pos, ck);
            }
            let ghost sc = crate::semantics::scan(*self, av, offset as int, pre_st, ck);
            let step = match self.parse_tokens(args, offset, &mut values, Ghost(ck)) {
                Some(x) => x,
                None => {
                    return None;
                },
            };
            match step {
                Err(e) => {
                    proof {
                        if crate::semantics::settles(crate::semantics::scan_checks(sc), Some(e@)) {
                            crate::semantics::lemma_settles_extends(
                                crate::semantics::scan_checks(sc),
                                crate::semantics::gathered_checks(g),
                                e@,
                            );
                            crate::semantics::lemma_settles_extends(
                                crate::semantics::gathered_checks(g),
                                crate::semantics::outcome_checks(o),
                                e@,
                            );
                        }
                    }
                    return Some(Err(e));
                },
                Ok(TokenAction::Done) => {
                    proof {
                        ck = crate::semantics::scan_checks(sc);
                    }
                    break ;
                },
                Ok(TokenAction::Positional { index, token }) => {
                    positionals.push(token);
                    assert(strs_view(positionals@) =~= pre_pos.push(av[index as int]));
                    proof {
                        ck = crate::semantics::scan_checks(sc);
                    }
                    offset = index + 1;
                },
                Ok(TokenAction::RestPositional { index }) => {
                    let ghost before = strs_view(positionals@);
                    let mut j = index + 1;
                    while j < args.len()
                        invariant
                            index < j <= args.len(),
                            strs_view(positionals@) == before + av.subrange(index + 1, j as int),
                            av == strs_view(args@),
                        decreases args.len() - j,
                    {
                        let ghost prev = strs_view(positionals@);
                        positionals.push(args[j].clone());
                        assert(strs_view(positionals@) =~= prev.push(av[j as int]));
                        assert(av.subrange(index + 1, j + 1) =~= av.subrange(index + 1, j as int).push(av[j as int]));
                        j += 1;
                        assert(strs_view(positionals@) =~= before + av.subrange(index + 1, j as int));
                    }
                    assert(av.subrange(index + 1, args.len() as int) =~= av.skip(index + 1));
                    proof {
                        ck = crate::semantics::scan_checks(sc);
                    }
                    break ;
                },
            }
        }
        let ghost f = crate::semantics::fill(self.options@, ev, store_of(values).options, 0, ck);
        let fb = apply_option_fallbacks(&self.options, env, &mut values.options, Ghost(ck));
        if let Err(e) = fb {
            proof {
                if crate::semantics::settles(crate::semantics::filled_checks(f), Some(e@)) {
                    crate::semantics::lemma_settles_extends(
                        crate::semantics::filled_checks(f),
                        crate::semantics::outcome_checks(o),
                        e@,
                    );
                }
            }
            return Some(Err(e));
        }
        pad_positional_defaults(&self.positionals, &mut positionals);
        let m = missing_positional_index(&self.positionals, positionals.len());
        if m < self.positionals.len() {
            return Some(Err(ParseError::MissingRequired(self.positionals[m].name.clone())));
        }
        let ghost fc = crate::semantics::filled_checks(f);
        let ghost pc = crate::semantics::positional_checks(self.positionals@, strs_view(positionals@), 0);
        match check_positionals(&self.positionals, &positionals) {
            Ok(()) => {
                proof {
                    crate::semantics::lemma_settles_concat(fc, pc, ErrorV::InvalidFormat(seq![]));
                }
            },
            Err(e) => {
                proof {
                    crate::semantics::lemma_settles_concat(fc, pc, e@);
                }
                return Some(Err(e));
            },
        }
        let result = ParseResult::new(values.flags, values.options, positionals, None, None);
        Some(Ok(result))
    }
}

/// The long names of the flags.
fn flag_name_list(flags: &Vec<FlagDef>) -> (r: Vec<String>)
    ensures
        strs_view(r@) == flags@.map_values(|f: FlagDef| f.long@),
{
    let mut r: Vec<String> = Vec::new();
    let mut i: usize = 0;
    while i < flags.len()
        invariant
            i <= flags.len(),
            r.len() == i,
            forall|k: int| 0 <= k < i ==> (#[trigger] r@[k])@ == flags@[k].long@,
        decreases flags.len() - i,
    {
        r.push(flags[i].long.clone());
        i += 1;
    }
    assert(strs_view(r@) =~= flags@.map_values(|f: FlagDef| f.long@));
    r
}

/// The long names of the options.
fn option_name_list(options: &Vec<OptionDef>) -> (r: Vec<String>)
    ensures
        strs_view(r@) == options@.map_values(|o: OptionDef| o.long@),
{
    let mut r: Vec<String> = Vec::new();
    let mut i: usize = 0;
    while i < options.len()
        invariant
            i <= options.len(),
            r.len() == i,
            forall|k: int| 0 <= k < i ==> (#[trigger] r@[k])@ == options@[k].long@,
        decreases options.len() - i,
    {
        r.push(options[i].long.clone());
        i += 1;
    }
    assert(strs_view(r@) =~= options@.map_values(|o: OptionDef| o.long@));
    r
}

/// The names of the subcommands, joined with `, `.
fn subcommand_names(subs: &Vec<SubcommandDef>) -> (r: String)
    ensures
        r@ == text::join(subs@.map_values(|s: SubcommandDef| s.name@), ", "@),
{
    let mut names: Vec<String> = Vec::new();
    let mut i: usize = 0;
    while i < subs.len()
        invariant
            i <= subs.len(),
            names.len() == i,
            forall|k: int| 0 <= k < i ==> (#[trigger] names@[k])@ == subs@[k].name@,
        decreases subs.len() - i,
    {
        names.push(subs[i].name.clone());
        i += 1;
    }
    assert(strs_view(names@) =~= subs@.map_values(|s: SubcommandDef| s.name@));
    crate::validators::join_strings(&names, ", ")
}

/// Index of the subcommand named `name`, or the number of subcommands.
fn find_subcommand(subs: &Vec<SubcommandDef>, name: &str) -> (r: usize)
    ensures
        r <= subs.len(),
        r == subs.len() <==> first_index(subs@, sub_named(name@)) == -1,
        r < subs.len() ==> r == first_index(subs@, sub_named(name@)),
{
    proof {
        lemma_first_index_from(subs@, sub_named(name@), 0);
    }
    let mut i: usize = 0;
    while i < subs.len()
        invariant
            i <= subs.len(),
            forall|k: int| 0 <= k < i ==> !sub_named(name@)(#[trigger] subs@[k]),
        decreases subs.len() - i,
    {
        if text::same(subs[i].name.as_str(), name) {
            proof {
                lemma_first_index_from(subs@, sub_named(name@), 0);
            }
            return i;
        }
        i += 1;
    }
    proof {
        lemma_first_index_from(subs@, sub_named(name@), 0);
    }
    i
}

impl ArgParser {
    /// Subcommand-aware parsing: parse global flags/options, then dispatch to
    /// the subcommand parser.
    ///
    /// The first bare token (not a flag or option) is treated as the subcommand name.
    /// Parent-level positional arguments are not supported when subcommands are
    /// registered.
    #[verifier::rlimit(40)]
    fn parse_with_subcommands(&self, args: &Vec<String>, env: &Vec<(String, String)>) -> (r: Option<
        Result<ParseResult, ParseError>,
    >)
        requires
            self.subcommands@.len() > 0,
        ensures
            answered(crate::semantics::parse_outcome(*self, strs_view(args@), env_view(env@)), r, false),
        decreases *self, 0nat,
    {
        let ghost av = strs_view(args@);
        let ghost ev = env_view(env@);
        let ghost o = crate::semantics::parse_outcome(*self, av, ev);
        let mut values = Values { flags: Vec::new(), options: Vec::new() };
        assert(option_pairs(values.options@) =~= Seq::<(Seq<char>, Seq<Seq<char>>)>::empty());
        assert(flag_pairs(values.flags@) =~= Seq::<(Seq<char>, bool)>::empty());
        assert(store_of(values) == crate::semantics::empty_store());
        proof {
            crate::semantics::lemma_scan_index(*self, av, 0, crate::semantics::empty_store(), seq![]);
            crate::semantics::lemma_outcome_extends_scan(*self, av, ev);
        }
        let ghost sc = crate::semantics::scan(*self, av, 0, crate::semantics::empty_store(), seq![]);
        let ghost ck = crate::semantics::scan_checks(sc);
        let ghost none: Seq<Check> = seq![];
        let scanned = match self.parse_tokens(args, 0, &mut values, Ghost(none)) {
            Some(x) => x,
            None => {
                return None;
            },
        };
        match scanned {
            Err(e) => {
                proof {
                    if settles(ck, Some(e@)) {
                        crate::semantics::lemma_settles_extends(ck, crate::semantics::outcome_checks(o), e@);
                    }
                }
                Some(Err(e))
            },
            Ok(TokenAction::Positional { index, token }) => {
                let k = find_subcommand(&self.subcommands, token.as_str());
                if k < self.subcommands.len() {
                    let sub = &self.subcommands[k];
                    proof {
                        lemma_first_index_from(self.subcommands@, sub_named(av[index as int]), 0);
                        assert(decreases_to!(*self => self.subcommands));
                        assert(decreases_to!(self.subcommands => self.subcommands@));
                        assert(decreases_to!(self.subcommands@ => self.subcommands@[k as int]));
                        assert(decreases_to!(self.subcommands@[k as int] => self.subcommands@[k as int].parser));
                    }
                    let mut remaining: Vec<String> = Vec::new();
                    let mut j = index + 1;
                    while j < args.len()
                        invariant
                            index < j <= args.len(),
                            av == strs_view(args@),
                            strs_view(remaining@) == av.subrange(index + 1, j as int),
                        decreases args.len() - j,
                    {
                        let ghost prev = strs_view(remaining@);
                        remaining.push(args[j].clone());
                        assert(strs_view(remaining@) =~= prev.push(av[j as int]));
                        assert(av.subrange(index + 1, j + 1) =~= av.subrange(index + 1, j as int).push(
                            av[j as int],
                        ));
                        j += 1;
                    }
                    assert(av.subrange(index + 1, args.len() as int) =~= av.skip(index + 1));
                    let ghost so = crate::semantics::parse_outcome(sub.parser, av.skip(index + 1), ev);
                    let ghost sck = crate::semantics::outcome_checks(so);
                    let sub_parsed = sub.parser.run_parse(&remaining, env);
                    proof {
                        crate::semantics::lemma_settles_concat(ck, sck, ErrorV::InvalidFormat(seq![]));
                    }
                    match sub_parsed {
                        None => None,
                        Some(Err(e)) => {
                            proof {
                                crate::semantics::lemma_settles_concat(ck, sck, e@);
                                let cs = ck + sck;
                                assert(cs.take(cs.len() as int) =~= cs);
                                if so is Parsed {
                                    crate::semantics::lemma_fill_extends(
                                        self.options@,
                                        ev,
                                        store_of(values).options,
                                        0,
                                        cs,
                                    );
                                }
                                if settles(ck + sck, Some(e@)) {
                                    crate::semantics::lemma_settles_extends(
                                        ck + sck,
                                        crate::semantics::outcome_checks(o),
                                        e@,
                                    );
                                }
                            }
                            Some(Err(e))
                        },
                        Some(Ok(sr)) => {
                            let ghost f = crate::semantics::fill(
                                self.options@,
                                ev,
                                store_of(values).options,
                                0,
                                ck + sck,
                            );
                            let fb = apply_option_fallbacks(&self.options, env, &mut values.options, Ghost(ck + sck));
                            match fb {
                                Err(e) => Some(Err(e)),
                                Ok(()) => {
                                    let no_positionals: Vec<String> = Vec::new();
                                    assert(strs_view(no_positionals@) =~= Seq::<Seq<char>>::empty());
                                    let result = ParseResult::new(
                                        values.flags,
                                        values.options,
                                        no_positionals,
                                        Some(sub.name.clone()),
                                        Some(Box::new(sr)),
                                    );
                                    Some(Ok(result))
                                },
                            }
                        },
                    }
                } else {
                    Some(Err(ParseError::UnknownSubcommand(token)))
                }
            },
            Ok(_) => Some(Err(ParseError::NoSubcommand(subcommand_names(&self.subcommands)))),
        }
    }

    /// Parse, checking each value as it is stored. `None` stands for reaching
    /// a token `-=...` with every value met before it accepted.
    fn run_parse(&self, args: &Vec<String>, env: &Vec<(String, String)>) -> (r: Option<
        Result<ParseResult, ParseError>,
    >)
        ensures
            answered(crate::semantics::parse_outcome(*self, strs_view(args@), env_view(env@)), r, true),
        decreases *self, 1nat,
    {
        let parsed = if self.subcommands.len() == 0 {
            self.parse_no_subcommands(args, env)
        } else {
            self.parse_with_subcommands(args, env)
        };
        match parsed {
            None => None,
            Some(Ok(mut pr)) => {
                pr.set_known_names(flag_name_list(&self.flags), option_name_list(&self.options));
                Some(Ok(pr))
            },
            Some(Err(e)) => Some(Err(e)),
        }
    }
}

impl ArgParser {
    /// Parse a list of argument strings, with `env` standing for the process
    /// environment (name and value pairs) that options with `.env()` fall
    /// back to. Each value is checked by its validator as it is stored: the
    /// first value that a validator rejects ends parsing with
    /// `ParseError::ValidationFailed`.
    ///
    /// Returns `Err(ParseError::HelpRequested(_))` or
    /// `Err(ParseError::VersionRequested(_))` when `-h`/`--help` or
    /// `-V`/`--version` are encountered: these signal that the caller should
    /// print the contained text and exit.
    pub fn parse_with_env(&self, args: Vec<String>, env: &Vec<(String, String)>) -> (r: Result<
        ParseResult,
        ParseError,
    >)
        requires
            crate::semantics::never_aborts(
                crate::semantics::parse_outcome(*self, strs_view(args@), env_view(env@)),
            ),
        ensures
            crate::semantics::parse_settled(
                crate::semantics::parse_outcome(*self, strs_view(args@), env_view(env@)),
                r,
            ),
    {
        match self.try_parse_with_env(args, env) {
            Some(r) => r,
            None => {
                assert(false);
                Err(ParseError::InvalidFormat(String::new()))
            },
        }
    }

    /// Parse as [`parse_with_env`](ArgParser::parse_with_env) does, for any
    /// argument list: `None` when the parse reaches a token `-=...` (a short
    /// form with nothing before `=`) with every value before it accepted,
    /// which `parse_with_env` does not accept.
    pub fn try_parse_with_env(&self, args: Vec<String>, env: &Vec<(String, String)>) -> (r: Option<
        Result<ParseResult, ParseError>,
    >)
        ensures
            r is None ==> (crate::semantics::parse_outcome(
                *self,
                strs_view(args@),
                env_view(env@),
            ) matches crate::semantics::Outcome::Abort { checks } && settles(checks, None)),
            r matches Some(x) ==> crate::semantics::parse_settled(
                crate::semantics::parse_outcome(*self, strs_view(args@), env_view(env@)),
                x,
            ),
    {
        self.run_parse(&args, env)
    }

    /// Parse a list of argument strings. Options fall back to their default
    /// only: environment variables are consulted by
    /// [`parse_with_env`](ArgParser::parse_with_env).
    ///
    /// Returns `Err(ParseError::HelpRequested(_))` or
    /// `Err(ParseError::VersionRequested(_))` when `-h`/`--help` or
    /// `-V`/`--version` are encountered: these signal that the caller should
    /// print the contained text and exit.
    pub fn parse(&self, args: Vec<String>) -> (r: Result<ParseResult, ParseError>)
        requires
            crate::semantics::never_aborts(crate::semantics::parse_outcome(*self, strs_view(args@), seq![])),
        ensures
            crate::semantics::parse_settled(
                crate::semantics::parse_outcome(*self, strs_view(args@), seq![]),
                r,
            ),
    {
        let env: Vec<(String, String)> = Vec::new();
        assert(env_view(env@) =~= Seq::<(Seq<char>, Seq<char>)>::empty());
        self.parse_with_env(args, &env)
    }
}

} // verus!
