//! The meaning of parsing, stated over token sequences.
//!
//! Parsing reads the arguments left to right. Each token either sets flags and
//! option values, or stops the scan: a bare token (a positional, or the
//! subcommand name), the `--` separator, a help/version request, or an error.
//! Every value stored for an argument that has a validator is a [`Check`],
//! listed in the order in which the values are stored. The parser runs each
//! check as it stores the value, so the first value that fails stops parsing
//! with a `ValidationFailed` error: the meaning below lists the checks that
//! a parse meets, and [`parse_settled`] says what running them in order gives.
use vstd::prelude::*;

use crate::help::help_of;
use crate::parser::{first_index, version_text_of, ArgParser};
use crate::result::{assign, lookup, values_of, ResultModel};
use crate::text;
use crate::types::{ErrorV, FlagDef, OptionDef, PositionalDef, SubcommandDef};
use crate::validators::Validator;

verus! {

/// The flag and option values gathered so far.
pub struct Store {
    pub flags: Seq<(Seq<char>, bool)>,
    pub options: Seq<(Seq<char>, Seq<Seq<char>>)>,
}

/// A value that must pass a validator.
pub struct Check {
    pub name: Seq<char>,
    pub value: Seq<char>,
    pub validator: Validator,
}

/// The effect of the token at one position.
pub enum Step {
    /// The token was consumed (with the following one when `extra`).
    Next { store: Store, extra: bool, checks: Seq<Check> },
    /// The token is a bare word.
    Bare,
    /// The token is `--`.
    Rest,
    /// Parsing stops with an error.
    Failed { err: ErrorV, checks: Seq<Check> },
    /// The token makes the parser panic (`-=` with no key before `=`).
    Abort,
}

/// The effect of scanning tokens from a position until a stop.
pub enum Scan {
    Done { store: Store, checks: Seq<Check> },
    Bare { index: int, store: Store, checks: Seq<Check> },
    Rest { index: int, store: Store, checks: Seq<Check> },
    Failed { err: ErrorV, checks: Seq<Check> },
    Abort { checks: Seq<Check> },
}

/// The effect of reading a whole argument list for a parser without subcommands.
pub enum Gathered {
    Read { store: Store, positionals: Seq<Seq<char>>, checks: Seq<Check> },
    Failed { err: ErrorV, checks: Seq<Check> },
    Abort { checks: Seq<Check> },
}

/// The effect of the fallback pass over options.
pub enum Filled {
    Filled { options: Seq<(Seq<char>, Seq<Seq<char>>)>, checks: Seq<Check> },
    Failed { err: ErrorV, checks: Seq<Check> },
}

/// The outcome of a parse, with the checks of the values it stores.
pub enum Outcome {
    Parsed { result: ResultModel, checks: Seq<Check> },
    Failed { err: ErrorV, checks: Seq<Check> },
    Abort { checks: Seq<Check> },
}

pub open spec fn empty_store() -> Store {
    Store { flags: seq![], options: seq![] }
}

pub open spec fn flag_long(key: Seq<char>) -> spec_fn(FlagDef) -> bool {
    |f: FlagDef| f.long@ == key
}

pub open spec fn opt_long(key: Seq<char>) -> spec_fn(OptionDef) -> bool {
    |o: OptionDef| o.long@ == key
}

pub open spec fn flag_short(c: char) -> spec_fn(FlagDef) -> bool {
    |f: FlagDef| f.short == Some(c)
}

pub open spec fn opt_short(c: char) -> spec_fn(OptionDef) -> bool {
    |o: OptionDef| o.short == Some(c)
}

/// The check made when `value` is stored under `name`.
pub open spec fn checks_for(v: Option<Validator>, name: Seq<char>, value: Seq<char>) -> Seq<Check> {
    match v {
        Some(val) => seq![Check { name, value, validator: val }],
        None => seq![],
    }
}

/// The checks made when each of `values` is stored under `name`.
pub open spec fn checks_each(v: Option<Validator>, name: Seq<char>, values: Seq<Seq<char>>) -> Seq<
    Check,
>
    decreases values.len(),
{
    if values.len() == 0 {
        seq![]
    } else {
        checks_each(v, name, values.drop_last()) + checks_for(v, name, values.last())
    }
}

pub open spec fn set_flag(st: Store, key: Seq<char>) -> Store {
    Store { flags: assign(st.flags, key, true), ..st }
}

/// Storing a value: appended for a multi option; for any other option it is
/// an error when a value is already present.
pub open spec fn store_value(st: Store, key: Seq<char>, value: Seq<char>, multi: bool) -> Result<
    Store,
    ErrorV,
> {
    if multi {
        Ok(Store { options: assign(st.options, key, values_of(st.options, key).push(value)), ..st })
    } else if lookup(st.options, key) is Some {
        Err(ErrorV::DuplicateOption(key))
    } else {
        Ok(Store { options: assign(st.options, key, seq![value]), ..st })
    }
}

pub open spec fn store_step(st: Store, key: Seq<char>, value: Seq<char>, opt: OptionDef, extra: bool) -> Step {
    let checks = checks_for(opt.validator, key, value);
    match store_value(st, key, value, opt.multi) {
        Ok(s) => Step::Next { store: s, extra, checks },
        Err(e) => Step::Failed { err: e, checks },
    }
}

pub open spec fn fail(e: ErrorV) -> Step {
    Step::Failed { err: e, checks: seq![] }
}

/// A `--long` or `--long=value` token.
pub open spec fn long_step(p: ArgParser, args: Seq<Seq<char>>, i: int, st: Store, t: Seq<char>) -> Step {
    let after = t.skip(2);
    let eq = text::find_char(after, '=');
    if eq >= 0 {
        let key = after.take(eq);
        let k = first_index(p.options@, opt_long(key));
        if k >= 0 {
            store_step(st, key, after.skip(eq + 1), p.options@[k], false)
        } else {
            fail(ErrorV::UnknownArgument(t))
        }
    } else {
        let key = after;
        let k = first_index(p.options@, opt_long(key));
        if first_index(p.flags@, flag_long(key)) >= 0 {
            Step::Next { store: set_flag(st, key), extra: false, checks: seq![] }
        } else if k >= 0 {
            if i + 1 >= args.len() {
                fail(ErrorV::MissingValue(key))
            } else {
                store_step(st, key, args[i + 1], p.options@[k], true)
            }
        } else {
            fail(ErrorV::UnknownArgument(t))
        }
    }
}

/// Sets the flag of every short form in `cs`; `None` when one is not a flag.
pub open spec fn set_short_flags(p: ArgParser, st: Store, cs: Seq<char>) -> Option<Store>
    decreases cs.len(),
{
    if cs.len() == 0 {
        Some(st)
    } else {
        let k = first_index(p.flags@, flag_short(cs[0]));
        if k < 0 {
            None
        } else {
            set_short_flags(p, set_flag(st, p.flags@[k].long@), cs.drop_first())
        }
    }
}

/// A `-abc=value` token: every character before the last is a flag, the last
/// one an option that takes the value.
pub open spec fn short_eq_step(p: ArgParser, st: Store, after: Seq<char>, eq: int, t: Seq<char>) -> Step {
    if eq == 0 {
        Step::Abort
    } else {
        match set_short_flags(p, st, after.take(eq - 1)) {
            None => fail(ErrorV::UnknownArgument(t)),
            Some(st2) => {
                let k = first_index(p.options@, opt_short(after[eq - 1]));
                if k >= 0 {
                    store_step(st2, p.options@[k].long@, after.skip(eq + 1), p.options@[k], false)
                } else {
                    fail(ErrorV::UnknownArgument(t))
                }
            },
        }
    }
}

/// A single short form `-x` (one ASCII character).
pub open spec fn single_short_step(p: ArgParser, args: Seq<Seq<char>>, i: int, st: Store, c: char, t: Seq<char>) -> Step {
    let fk = first_index(p.flags@, flag_short(c));
    let ok = first_index(p.options@, opt_short(c));
    if c == 'V' && p.version is Some {
        fail(ErrorV::VersionRequested(version_text_of(p)->0))
    } else if fk >= 0 {
        Step::Next { store: set_flag(st, p.flags@[fk].long@), extra: false, checks: seq![] }
    } else if ok >= 0 {
        if i + 1 >= args.len() {
            fail(ErrorV::MissingValue(p.options@[ok].long@))
        } else {
            store_step(st, p.options@[ok].long@, args[i + 1], p.options@[ok], true)
        }
    } else {
        fail(ErrorV::UnknownArgument(t))
    }
}

/// The message for an unknown character inside a cluster of short forms.
pub open spec fn unrecognized(c: char, t: Seq<char>) -> Seq<char> {
    "unrecognized '"@ + seq![c] + "' in '"@ + t + "'"@
}

/// A cluster of short forms `-abc` / `-ovalue`, walked from position `j`:
/// flags are set one by one; an option takes the rest of the cluster as its
/// value, or the next token when it is the last character.
pub open spec fn cluster_step(
    p: ArgParser,
    args: Seq<Seq<char>>,
    i: int,
    st: Store,
    after: Seq<char>,
    j: int,
    t: Seq<char>,
) -> Step
    decreases after.len() - j,
{
    if j < 0 || j >= after.len() {
        Step::Next { store: st, extra: false, checks: seq![] }
    } else {
        let c = after[j];
        let fk = first_index(p.flags@, flag_short(c));
        let ok = first_index(p.options@, opt_short(c));
        if c == 'h' && first_index(p.flags@, flag_short('h')) < 0 {
            fail(ErrorV::HelpRequested(help_of(p)))
        } else if c == 'V' && p.version is Some {
            fail(ErrorV::VersionRequested(version_text_of(p)->0))
        } else if fk >= 0 {
            cluster_step(p, args, i, set_flag(st, p.flags@[fk].long@), after, j + 1, t)
        } else if ok >= 0 {
            if j + 1 < after.len() {
                store_step(st, p.options@[ok].long@, after.skip(j + 1), p.options@[ok], false)
            } else if i + 1 >= args.len() {
                fail(ErrorV::MissingValue(p.options@[ok].long@))
            } else {
                store_step(st, p.options@[ok].long@, args[i + 1], p.options@[ok], true)
            }
        } else {
            fail(ErrorV::UnknownArgument(unrecognized(c, t)))
        }
    }
}

/// A token that starts with one `-`.
pub open spec fn short_step(p: ArgParser, args: Seq<Seq<char>>, i: int, st: Store, t: Seq<char>) -> Step {
    let after = t.skip(1);
    let eq = text::find_char(after, '=');
    if eq >= 0 {
        short_eq_step(p, st, after, eq, t)
    } else if after.len() == 1 && (after[0] as u32) < 128 {
        single_short_step(p, args, i, st, after[0], t)
    } else {
        cluster_step(p, args, i, st, after, 0, t)
    }
}

/// The effect of the token `args[i]`.
pub open spec fn step(p: ArgParser, args: Seq<Seq<char>>, i: int, st: Store) -> Step {
    let t = args[i];
    if t == "--"@ {
        Step::Rest
    } else if t == "--help"@ || t == "-h"@ {
        fail(ErrorV::HelpRequested(help_of(p)))
    } else if t == "--version"@ {
        match version_text_of(p) {
            Some(v) => fail(ErrorV::VersionRequested(v)),
            None => fail(ErrorV::UnknownArgument(t)),
        }
    } else if t.len() >= 2 && t[0] == '-' && t[1] == '-' {
        long_step(p, args, i, st, t)
    } else if t.len() > 1 && t[0] == '-' {
        short_step(p, args, i, st, t)
    } else {
        Step::Bare
    }
}

/// Scan from position `i` until the arguments end or a token stops the scan.
pub open spec fn scan(p: ArgParser, args: Seq<Seq<char>>, i: int, st: Store, checks: Seq<Check>) -> Scan
    decreases args.len() + 1 - i,
{
    if i < 0 || i >= args.len() {
        Scan::Done { store: st, checks }
    } else {
        match step(p, args, i, st) {
            Step::Next { store, extra, checks: c } => scan(
                p,
                args,
                i + 1 + if extra {
                    1int
                } else {
                    0int
                },
                store,
                checks + c,
            ),
            Step::Bare => Scan::Bare { index: i, store: st, checks },
            Step::Rest => Scan::Rest { index: i, store: st, checks },
            Step::Failed { err, checks: c } => Scan::Failed { err, checks: checks + c },
            Step::Abort => Scan::Abort { checks },
        }
    }
}

pub proof fn lemma_scan_index(p: ArgParser, args: Seq<Seq<char>>, i: int, st: Store, checks: Seq<Check>)
    requires
        0 <= i,
    ensures
        match scan(p, args, i, st, checks) {
            Scan::Bare { index, .. } => i <= index < args.len(),
            Scan::Rest { index, .. } => i <= index < args.len(),
            _ => true,
        },
    decreases args.len() + 1 - i,
{
    if i < args.len() {
        match step(p, args, i, st) {
            Step::Next { store, extra, checks: c } => {
                lemma_scan_index(
                    p,
                    args,
                    i + 1 + if extra {
                        1int
                    } else {
                        0int
                    },
                    store,
                    checks + c,
                );
            },
            _ => {},
        }
    }
}

/// Read all tokens from `i` for a parser without subcommands: bare tokens are
/// positionals, and everything after `--` is positional too.
pub open spec fn gather(
    p: ArgParser,
    args: Seq<Seq<char>>,
    i: int,
    st: Store,
    positionals: Seq<Seq<char>>,
    checks: Seq<Check>,
) -> Gathered
    decreases args.len() + 1 - i,
{
    if i < 0 {
        Gathered::Abort { checks }
    } else {
        match scan(p, args, i, st, checks) {
            Scan::Done { store, checks } => Gathered::Read { store, positionals, checks },
            Scan::Bare { index, store, checks: c2 } => {
                proof {
                    lemma_scan_index(p, args, i, st, checks);
                }
                if index < i || index >= args.len() {
                    Gathered::Abort { checks: c2 }
                } else {
                    gather(p, args, index + 1, store, positionals.push(args[index]), c2)
                }
            },
            Scan::Rest { index, store, checks } => Gathered::Read {
                store,
                positionals: positionals + args.skip(index + 1),
                checks,
            },
            Scan::Failed { err, checks } => Gathered::Failed { err, checks },
            Scan::Abort { checks } => Gathered::Abort { checks },
        }
    }
}

/// Looks up an environment variable (the first entry with that name).
pub open spec fn env_lookup(env: Seq<(Seq<char>, Seq<char>)>, name: Seq<char>) -> Option<Seq<char>> {
    lookup(env, name)
}

/// The non-empty pieces of `s` between commas.
pub open spec fn comma_pieces(s: Seq<char>) -> Seq<Seq<char>> {
    split_nonempty(s, seq![], seq![])
}

pub open spec fn split_nonempty(s: Seq<char>, cur: Seq<char>, acc: Seq<Seq<char>>) -> Seq<Seq<char>>
    decreases s.len(),
{
    if s.len() == 0 {
        if cur.len() > 0 {
            acc.push(cur)
        } else {
            acc
        }
    } else if s[0] == ',' {
        split_nonempty(
            s.drop_first(),
            seq![],
            if cur.len() > 0 {
                acc.push(cur)
            } else {
                acc
            },
        )
    } else {
        split_nonempty(s.drop_first(), cur.push(s[0]), acc)
    }
}

/// The values an option takes from its environment variable, if any: the
/// variable must be set and non-empty; a multi option splits it on commas.
pub open spec fn env_values(opt: OptionDef, env: Seq<(Seq<char>, Seq<char>)>) -> Option<Seq<Seq<char>>> {
    match opt.env_var {
        Some(var) => match env_lookup(env, var@) {
            Some(val) => if val.len() > 0 {
                let resolved = if opt.multi {
                    comma_pieces(val)
                } else {
                    seq![val]
                };
                if resolved.len() > 0 {
                    Some(resolved)
                } else {
                    None
                }
            } else {
                None
            },
            None => None,
        },
        None => None,
    }
}

/// Whether an option already has a value.
pub open spec fn has_values(options: Seq<(Seq<char>, Seq<Seq<char>>)>, key: Seq<char>) -> bool {
    match lookup(options, key) {
        Some(vs) => vs.len() > 0,
        None => false,
    }
}

/// The fallback pass, from option `k` on: an option without a value takes it
/// from its environment variable, else from its default; a required option
/// with neither is an error.
pub open spec fn fill(
    opts: Seq<OptionDef>,
    env: Seq<(Seq<char>, Seq<char>)>,
    values: Seq<(Seq<char>, Seq<Seq<char>>)>,
    k: int,
    checks: Seq<Check>,
) -> Filled
    decreases opts.len() - k,
{
    if k < 0 || k >= opts.len() {
        Filled::Filled { options: values, checks }
    } else {
        let opt = opts[k];
        let key = opt.long@;
        if has_values(values, key) {
            fill(opts, env, values, k + 1, checks)
        } else {
            match env_values(opt, env) {
                Some(res) => fill(
                    opts,
                    env,
                    assign(values, key, res),
                    k + 1,
                    checks + checks_each(opt.validator, key, res),
                ),
                None => match opt.default {
                    Some(d) => fill(
                        opts,
                        env,
                        assign(values, key, seq![d@]),
                        k + 1,
                        checks + checks_for(opt.validator, key, d@),
                    ),
                    None => if opt.required {
                        Filled::Failed { err: ErrorV::MissingRequired(key), checks }
                    } else {
                        fill(opts, env, values, k + 1, checks)
                    },
                },
            }
        }
    }
}

/// `n` empty strings.
pub open spec fn blanks(n: nat) -> Seq<Seq<char>>
    decreases n,
{
    if n == 0 {
        seq![]
    } else {
        blanks((n - 1) as nat).push(seq![])
    }
}

/// Fills in defaults of missing positionals, from positional `idx` on.
pub open spec fn pad_defaults(ps: Seq<PositionalDef>, pv: Seq<Seq<char>>, idx: int) -> Seq<Seq<char>>
    decreases ps.len() - idx,
{
    if idx < 0 || idx >= ps.len() {
        pv
    } else {
        match ps[idx].default {
            Some(d) => if idx >= pv.len() {
                pad_defaults(ps, pv + blanks((idx - pv.len()) as nat) + seq![d@], idx + 1)
            } else {
                pad_defaults(ps, pv, idx + 1)
            },
            None => pad_defaults(ps, pv, idx + 1),
        }
    }
}

/// Index of the first required positional, from `idx` on, that has no value
/// among `count` values, or `-1`.
pub open spec fn missing_from(ps: Seq<PositionalDef>, count: int, idx: int) -> int
    decreases ps.len() - idx,
{
    if idx < 0 || idx >= ps.len() {
        -1
    } else if ps[idx].required && idx >= count {
        idx
    } else {
        missing_from(ps, count, idx + 1)
    }
}

/// Index of the first required positional that has no value, or `-1`.
pub open spec fn missing_positional(ps: Seq<PositionalDef>, count: int) -> int {
    missing_from(ps, count, 0)
}

/// The checks of positional values, from positional `idx` on.
pub open spec fn positional_checks(ps: Seq<PositionalDef>, pv: Seq<Seq<char>>, idx: int) -> Seq<Check>
    decreases ps.len() - idx,
{
    if idx < 0 || idx >= ps.len() {
        seq![]
    } else if idx < pv.len() {
        checks_for(ps[idx].validator, ps[idx].name@, pv[idx]) + positional_checks(ps, pv, idx + 1)
    } else {
        positional_checks(ps, pv, idx + 1)
    }
}

/// The long names of the flags.
pub open spec fn flag_names(p: ArgParser) -> Seq<Seq<char>> {
    p.flags@.map_values(|f: FlagDef| f.long@)
}

/// The long names of the options.
pub open spec fn option_names(p: ArgParser) -> Seq<Seq<char>> {
    p.options@.map_values(|o: OptionDef| o.long@)
}

/// Every flag set to `false`, in order.
pub open spec fn initial_flags(fs: Seq<FlagDef>) -> Seq<(Seq<char>, bool)>
    decreases fs.len(),
{
    if fs.len() == 0 {
        seq![]
    } else {
        assign(initial_flags(fs.drop_last()), fs.last().long@, false)
    }
}

/// A result with no subcommand.
pub open spec fn plain_result(p: ArgParser, store: Store, options: Seq<(Seq<char>, Seq<Seq<char>>)>, pv: Seq<Seq<char>>) -> ResultModel {
    ResultModel {
        flags: store.flags,
        options,
        positionals: pv,
        subcommand: None,
        sub_result: None,
        known_flags: flag_names(p),
        known_options: option_names(p),
    }
}

/// Parsing with a parser that has no subcommands.
pub open spec fn parse_plain(p: ArgParser, args: Seq<Seq<char>>, env: Seq<(Seq<char>, Seq<char>)>) -> Outcome {
    let st0 = Store { flags: initial_flags(p.flags@), options: seq![] };
    match gather(p, args, 0, st0, seq![], seq![]) {
        Gathered::Read { store, positionals, checks } => match fill(p.options@, env, store.options, 0, checks) {
            Filled::Filled { options, checks } => {
                let pv = pad_defaults(p.positionals@, positionals, 0);
                let m = missing_positional(p.positionals@, pv.len() as int);
                if m >= 0 {
                    Outcome::Failed { err: ErrorV::MissingRequired(p.positionals@[m].name@), checks }
                } else {
                    Outcome::Parsed {
                        result: plain_result(p, store, options, pv),
                        checks: checks + positional_checks(p.positionals@, pv, 0),
                    }
                }
            },
            Filled::Failed { err, checks } => Outcome::Failed { err, checks },
        },
        Gathered::Failed { err, checks } => Outcome::Failed { err, checks },
        Gathered::Abort { checks } => Outcome::Abort { checks },
    }
}

/// The names of the subcommands, joined with `, `.
pub open spec fn subcommand_list(p: ArgParser) -> Seq<char> {
    text::join(p.subcommands@.map_values(|s: SubcommandDef| s.name@), ", "@)
}

/// Parsing: global flags and options are read up to the first bare token,
/// which names the subcommand; the rest goes to the subcommand's parser.
/// Without subcommands, bare tokens are positionals.
pub open spec fn parse_outcome(p: ArgParser, args: Seq<Seq<char>>, env: Seq<(Seq<char>, Seq<char>)>) -> Outcome
    decreases p,
{
    if p.subcommands@.len() == 0 {
        parse_plain(p, args, env)
    } else {
        match scan(p, args, 0, empty_store(), seq![]) {
            Scan::Bare { index, store, checks } => {
                let k = first_index(p.subcommands@, crate::parser::sub_named(args[index]));
                if k < 0 || index < 0 || index >= args.len() {
                    Outcome::Failed { err: ErrorV::UnknownSubcommand(args[index]), checks }
                } else {
                    let sub = p.subcommands@[k];
                    proof {
                        crate::parser::lemma_first_index_from(
                            p.subcommands@,
                            crate::parser::sub_named(args[index]),
                            0,
                        );
                        assert(decreases_to!(p => p.subcommands));
                        assert(decreases_to!(p.subcommands => p.subcommands@));
                        assert(decreases_to!(p.subcommands@ => p.subcommands@[k]));
                        assert(decreases_to!(p.subcommands@[k] => p.subcommands@[k].parser));
                    }
                    match parse_outcome(sub.parser, args.skip(index + 1), env) {
                        Outcome::Parsed { result: sr, checks: sc } => match fill(
                            p.options@,
                            env,
                            store.options,
                            0,
                            checks + sc,
                        ) {
                            Filled::Filled { options, checks } => Outcome::Parsed {
                                result: ResultModel {
                                    flags: store.flags,
                                    options,
                                    positionals: seq![],
                                    subcommand: Some(sub.name@),
                                    sub_result: Some(Box::new(sr)),
                                    known_flags: flag_names(p),
                                    known_options: option_names(p),
                                },
                                checks,
                            },
                            Filled::Failed { err, checks } => Outcome::Failed { err, checks },
                        },
                        Outcome::Failed { err, checks: sc } => Outcome::Failed {
                            err,
                            checks: checks + sc,
                        },
                        Outcome::Abort { checks: sc } => Outcome::Abort { checks: checks + sc },
                    }
                }
            },
            Scan::Done { checks, .. } => Outcome::Failed {
                err: ErrorV::NoSubcommand(subcommand_list(p)),
                checks,
            },
            Scan::Rest { checks, .. } => Outcome::Failed {
                err: ErrorV::NoSubcommand(subcommand_list(p)),
                checks,
            },
            Scan::Failed { err, checks } => Outcome::Failed { err, checks },
            Scan::Abort { checks } => Outcome::Abort { checks },
        }
    }
}

/// Whether a check passes for some state of the file system.
pub open spec fn may_pass(c: Check) -> bool {
    exists|on_disk: bool| c.validator.outcome(c.value, on_disk) is None
}

/// Whether a check may fail with message `m`.
pub open spec fn may_fail_with(c: Check, m: Seq<char>) -> bool {
    exists|on_disk: bool| c.validator.outcome(c.value, on_disk) == Some(m)
}

/// Whether `e` is the error that check `c` gives when it fails.
pub open spec fn rejects(c: Check, e: ErrorV) -> bool {
    e matches ErrorV::ValidationFailed { name, message } && name == c.name && may_fail_with(c, message)
}

/// Whether `r` is what running the checks in order gives: the first check
/// that fails decides a `ValidationFailed` error; when all pass, the outcome
/// stands.
pub open spec fn settles(checks: Seq<Check>, r_err: Option<ErrorV>) -> bool {
    match r_err {
        None => forall|k: int| 0 <= k < checks.len() ==> may_pass(#[trigger] checks[k]),
        Some(e) => exists|k: int|
            0 <= k < checks.len() && (forall|j: int| 0 <= j < k ==> may_pass(#[trigger] checks[j]))
                && rejects(#[trigger] checks[k], e),
    }
}

/// Whether `r` is the result of parsing with outcome `o` once the
/// validators have run over its checks.
pub open spec fn parse_settled(o: Outcome, r: Result<crate::result::ParseResult, crate::types::ParseError>) -> bool {
    match o {
        Outcome::Parsed { result, checks } => (r matches Ok(pr) && pr.model() == result && settles(
            checks,
            None,
        )) || (r matches Err(e) && settles(checks, Some(e@))),
        Outcome::Failed { err, checks } => r matches Err(e) && ((e@ == err && settles(checks, None))
            || settles(checks, Some(e@))),
        Outcome::Abort { checks } => r matches Err(e) && settles(checks, Some(e@)),
    }
}

/// Whether `b` starts with `a`.
pub open spec fn extends(b: Seq<Check>, a: Seq<Check>) -> bool {
    b.len() >= a.len() && b.take(a.len() as int) == a
}

/// How settling behaves on checks run one list after another.
pub proof fn lemma_settles_concat(a: Seq<Check>, b: Seq<Check>, e: ErrorV)
    ensures
        settles(a, None) && settles(b, None) ==> settles(a + b, None),
        settles(a, None) && settles(b, Some(e)) ==> settles(a + b, Some(e)),
        settles(a, Some(e)) ==> settles(a + b, Some(e)),
{
    if settles(a, None) && settles(b, None) {
        assert forall|k: int| 0 <= k < (a + b).len() implies may_pass(#[trigger] (a + b)[k]) by {
            if k < a.len() {
                assert((a + b)[k] == a[k]);
            } else {
                assert((a + b)[k] == b[k - a.len()]);
            }
        }
    }
    if settles(a, None) && settles(b, Some(e)) {
        let k = choose|k: int|
            0 <= k < b.len() && (forall|j: int| 0 <= j < k ==> may_pass(#[trigger] b[j]))
                && rejects(#[trigger] b[k], e);
        let n = a.len() as int;
        assert((a + b)[n + k] == b[k]);
        assert forall|j: int| 0 <= j < n + k implies may_pass(#[trigger] (a + b)[j]) by {
            if j < n {
                assert((a + b)[j] == a[j]);
            } else {
                assert((a + b)[j] == b[j - n]);
            }
        }
        assert(rejects((a + b)[n + k], e));
    }
    if settles(a, Some(e)) {
        let k = choose|k: int|
            0 <= k < a.len() && (forall|j: int| 0 <= j < k ==> may_pass(#[trigger] a[j]))
                && rejects(#[trigger] a[k], e);
        assert((a + b)[k] == a[k]);
        assert forall|j: int| 0 <= j < k implies may_pass(#[trigger] (a + b)[j]) by {
            assert((a + b)[j] == a[j]);
        }
    }
}

/// A failure among the first checks is the failure of any longer list.
pub proof fn lemma_settles_extends(a: Seq<Check>, b: Seq<Check>, e: ErrorV)
    requires
        extends(b, a),
        settles(a, Some(e)),
    ensures
        settles(b, Some(e)),
{
    assert(b =~= a + b.skip(a.len() as int));
    lemma_settles_concat(a, b.skip(a.len() as int), e);
}

/// The checks a scan ends with.
pub open spec fn scan_checks(s: Scan) -> Seq<Check> {
    match s {
        Scan::Done { checks, .. } => checks,
        Scan::Bare { checks, .. } => checks,
        Scan::Rest { checks, .. } => checks,
        Scan::Failed { checks, .. } => checks,
        Scan::Abort { checks } => checks,
    }
}

/// The checks a gathering ends with.
pub open spec fn gathered_checks(g: Gathered) -> Seq<Check> {
    match g {
        Gathered::Read { checks, .. } => checks,
        Gathered::Failed { checks, .. } => checks,
        Gathered::Abort { checks } => checks,
    }
}

/// The checks the fallback pass ends with.
pub open spec fn filled_checks(f: Filled) -> Seq<Check> {
    match f {
        Filled::Filled { checks, .. } => checks,
        Filled::Failed { checks, .. } => checks,
    }
}

proof fn lemma_extends_trans(c: Seq<Check>, b: Seq<Check>, a: Seq<Check>)
    requires
        extends(c, b),
        extends(b, a),
    ensures
        extends(c, a),
{
    assert(c.take(a.len() as int) =~= c.take(b.len() as int).take(a.len() as int));
}

proof fn lemma_extends_concat(a: Seq<Check>, b: Seq<Check>)
    ensures
        extends(a + b, a),
{
    assert((a + b).take(a.len() as int) =~= a);
}

/// A scan only adds checks after those it started with.
pub proof fn lemma_scan_extends(p: ArgParser, args: Seq<Seq<char>>, i: int, st: Store, checks: Seq<Check>)
    ensures
        extends(scan_checks(scan(p, args, i, st, checks)), checks),
    decreases args.len() + 1 - i,
{
    assert(checks.take(checks.len() as int) =~= checks);
    if 0 <= i < args.len() {
        match step(p, args, i, st) {
            Step::Next { store, extra, checks: c } => {
                let next = i + 1 + if extra {
                    1int
                } else {
                    0int
                };
                lemma_scan_extends(p, args, next, store, checks + c);
                lemma_extends_concat(checks, c);
                lemma_extends_trans(scan_checks(scan(p, args, next, store, checks + c)), checks + c, checks);
            },
            Step::Failed { err, checks: c } => {
                lemma_extends_concat(checks, c);
            },
            _ => {},
        }
    }
}

/// Gathering only adds checks after those it started with.
pub proof fn lemma_gather_extends(
    p: ArgParser,
    args: Seq<Seq<char>>,
    i: int,
    st: Store,
    positionals: Seq<Seq<char>>,
    checks: Seq<Check>,
)
    ensures
        extends(gathered_checks(gather(p, args, i, st, positionals, checks)), checks),
    decreases args.len() + 1 - i,
{
    assert(checks.take(checks.len() as int) =~= checks);
    if i >= 0 {
        lemma_scan_extends(p, args, i, st, checks);
        lemma_scan_index(p, args, i, st, checks);
        match scan(p, args, i, st, checks) {
            Scan::Bare { index, store, checks: c2 } => {
                if i <= index < args.len() {
                    lemma_gather_extends(p, args, index + 1, store, positionals.push(args[index]), c2);
                    lemma_extends_trans(
                        gathered_checks(gather(p, args, index + 1, store, positionals.push(args[index]), c2)),
                        c2,
                        checks,
                    );
                }
            },
            _ => {},
        }
    }
}

/// The fallback pass only adds checks after those it started with.
pub proof fn lemma_fill_extends(
    opts: Seq<OptionDef>,
    env: Seq<(Seq<char>, Seq<char>)>,
    values: Seq<(Seq<char>, Seq<Seq<char>>)>,
    k: int,
    checks: Seq<Check>,
)
    ensures
        extends(filled_checks(fill(opts, env, values, k, checks)), checks),
    decreases opts.len() - k,
{
    assert(checks.take(checks.len() as int) =~= checks);
    if 0 <= k < opts.len() {
        let opt = opts[k];
        let key = opt.long@;
        if has_values(values, key) {
            lemma_fill_extends(opts, env, values, k + 1, checks);
        } else {
            match env_values(opt, env) {
                Some(res) => {
                    let c2 = checks + checks_each(opt.validator, key, res);
                    lemma_fill_extends(opts, env, assign(values, key, res), k + 1, c2);
                    lemma_extends_concat(checks, checks_each(opt.validator, key, res));
                    lemma_extends_trans(filled_checks(fill(opts, env, assign(values, key, res), k + 1, c2)), c2, checks);
                },
                None => match opt.default {
                    Some(d) => {
                        let c2 = checks + checks_for(opt.validator, key, d@);
                        lemma_fill_extends(opts, env, assign(values, key, seq![d@]), k + 1, c2);
                        lemma_extends_concat(checks, checks_for(opt.validator, key, d@));
                        lemma_extends_trans(
                            filled_checks(fill(opts, env, assign(values, key, seq![d@]), k + 1, c2)),
                            c2,
                            checks,
                        );
                    },
                    None => if !opt.required {
                        lemma_fill_extends(opts, env, values, k + 1, checks);
                    },
                },
            }
        }
    }
}

/// The checks a parse meets.
pub open spec fn outcome_checks(o: Outcome) -> Seq<Check> {
    match o {
        Outcome::Parsed { checks, .. } => checks,
        Outcome::Failed { checks, .. } => checks,
        Outcome::Abort { checks } => checks,
    }
}

/// Whether a parse can only end in an error or a result: where it reaches a
/// token `-=...`, some value before it fails its check whatever the disk holds.
pub open spec fn never_aborts(o: Outcome) -> bool {
    match o {
        Outcome::Abort { checks } => !settles(checks, None),
        _ => true,
    }
}

/// Gathering keeps the checks of its first scan.
pub proof fn lemma_gather_extends_scan(
    p: ArgParser,
    args: Seq<Seq<char>>,
    i: int,
    st: Store,
    positionals: Seq<Seq<char>>,
    checks: Seq<Check>,
)
    requires
        0 <= i,
    ensures
        extends(
            gathered_checks(gather(p, args, i, st, positionals, checks)),
            scan_checks(scan(p, args, i, st, checks)),
        ),
{
    lemma_scan_index(p, args, i, st, checks);
    let sc = scan(p, args, i, st, checks);
    assert(scan_checks(sc).take(scan_checks(sc).len() as int) =~= scan_checks(sc));
    match sc {
        Scan::Bare { index, store, checks: c2 } => {
            lemma_gather_extends(p, args, index + 1, store, positionals.push(args[index]), c2);
        },
        _ => {},
    }
}

/// A parse without subcommands keeps the checks of its gathering, and of
/// its fallback pass.
pub proof fn lemma_plain_extends(p: ArgParser, args: Seq<Seq<char>>, env: Seq<(Seq<char>, Seq<char>)>)
    ensures
        extends(
            outcome_checks(parse_plain(p, args, env)),
            gathered_checks(
                gather(p, args, 0, Store { flags: initial_flags(p.flags@), options: seq![] }, seq![], seq![]),
            ),
        ),
        gather(p, args, 0, Store { flags: initial_flags(p.flags@), options: seq![] }, seq![], seq![]) matches Gathered::Read { store, checks, .. } ==> extends(
            outcome_checks(parse_plain(p, args, env)),
            filled_checks(fill(p.options@, env, store.options, 0, checks)),
        ),
{
    let st0 = Store { flags: initial_flags(p.flags@), options: seq![] };
    let g = gather(p, args, 0, st0, seq![], seq![]);
    let o = parse_plain(p, args, env);
    assert(outcome_checks(o).take(outcome_checks(o).len() as int) =~= outcome_checks(o));
    match g {
        Gathered::Read { store, positionals, checks } => {
            let f = fill(p.options@, env, store.options, 0, checks);
            lemma_fill_extends(p.options@, env, store.options, 0, checks);
            match f {
                Filled::Filled { options, checks: fc } => {
                    let pv = pad_defaults(p.positionals@, positionals, 0);
                    lemma_extends_concat(fc, positional_checks(p.positionals@, pv, 0));
                    lemma_extends_trans(outcome_checks(o), fc, checks);
                },
                Filled::Failed { .. } => {},
            }
        },
        _ => {},
    }
}

/// A parse with subcommands keeps the checks of its first scan and, once a
/// subcommand is parsed, those of the fallback pass.
pub proof fn lemma_outcome_extends_scan(p: ArgParser, args: Seq<Seq<char>>, env: Seq<(Seq<char>, Seq<char>)>)
    requires
        p.subcommands@.len() > 0,
    ensures
        extends(
            outcome_checks(parse_outcome(p, args, env)),
            scan_checks(scan(p, args, 0, empty_store(), seq![])),
        ),
{
    let sc = scan(p, args, 0, empty_store(), seq![]);
    let o = parse_outcome(p, args, env);
    assert(scan_checks(sc).take(scan_checks(sc).len() as int) =~= scan_checks(sc));
    match sc {
        Scan::Bare { index, store, checks } => {
            let k = first_index(p.subcommands@, crate::parser::sub_named(args[index]));
            if !(k < 0 || index < 0 || index >= args.len()) {
                let sub = p.subcommands@[k];
                match parse_outcome(sub.parser, args.skip(index + 1), env) {
                    Outcome::Parsed { result: sr, checks: sc2 } => {
                        lemma_fill_extends(p.options@, env, store.options, 0, checks + sc2);
                        lemma_extends_concat(checks, sc2);
                        lemma_extends_trans(outcome_checks(o), checks + sc2, checks);
                    },
                    Outcome::Failed { checks: sc2, .. } => {
                        lemma_extends_concat(checks, sc2);
                    },
                    Outcome::Abort { checks: sc2 } => {
                        lemma_extends_concat(checks, sc2);
                    },
                }
            }
        },
        _ => {},
    }
}

} // verus!
