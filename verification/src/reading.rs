//! Laws of reading argument lists: how the spellings of an option agree, and
//! how bare tokens and `--` become positionals.
use vstd::prelude::*;

use crate::parser::{first_index, ArgParser};
use crate::semantics::{
    Outcome, fill, flag_long, flag_short, gather, missing_from, opt_long, opt_short, pad_defaults, parse_outcome,
    parse_settled, positional_checks, scan, step, store_step, Check, Filled, Gathered, Scan, Store, Step,
};
use crate::text::{find_char, find_from, lemma_find_from};

verus! {

/// Whether option `k` of `p` has long name `l` and short form `c` that name
/// it alone: no earlier option and no flag has that name or short form,
/// and neither clashes with the built-in requests or the token syntax.
pub open spec fn plain_option(p: ArgParser, k: int, c: char) -> bool {
    let l = p.options@[k].long@;
    &&& 0 <= k < p.options@.len()
    &&& p.options@[k].short == Some(c)
    &&& first_index(p.options@, opt_long(l)) == k
    &&& first_index(p.options@, opt_short(c)) == k
    &&& first_index(p.flags@, flag_long(l)) < 0
    &&& first_index(p.flags@, flag_short(c)) < 0
    &&& l.len() > 0
    &&& !l.contains('=')
    &&& l != "help"@
    &&& l != "version"@
    &&& c != 'h' && c != 'V' && c != '=' && c != '-'
}

/// The spellings of an option agree: `--long VALUE`, `--long=VALUE`,
/// `-c VALUE`, `-c=VALUE` and `-cVALUE` all store `VALUE` under the
/// option's long name, the same way; the two-token forms also consume the
/// next token. (`VALUE` is not empty and holds no `=` in the attached forms.)
pub proof fn option_spellings_agree(p: ArgParser, k: int, c: char, args: Seq<Seq<char>>, i: int, st: Store, v: Seq<char>)
    requires
        plain_option(p, k, c),
        0 <= i < args.len(),
        v.len() > 0,
        !v.contains('='),
    ensures
        ({
            let o = p.options@[k];
            let l = o.long@;
            &&& args[i] == "--"@ + l && i + 1 < args.len() ==> step(p, args, i, st) == store_step(st, l, args[i + 1], o, true)
            &&& args[i] == "--"@ + l + "="@ + v ==> step(p, args, i, st) == store_step(st, l, v, o, false)
            &&& args[i] == seq!['-', c] && i + 1 < args.len() ==> step(p, args, i, st) == store_step(st, l, args[i + 1], o, true)
            &&& args[i] == seq!['-', c, '='] + v ==> step(p, args, i, st) == store_step(st, l, v, o, false)
            &&& args[i] == seq!['-', c] + v ==> step(p, args, i, st) == store_step(st, l, v, o, false)
        }),
{
    let o = p.options@[k];
    let l = o.long@;
    let t = args[i];
    reveal_strlit("--");
    reveal_strlit("=");
    reveal_strlit("-h");
    reveal_strlit("--help");
    reveal_strlit("--version");
    reveal_strlit("help");
    reveal_strlit("version");
    if t == "--"@ + l || t == "--"@ + l + "="@ + v {
        assert(t[0] == '-' && t[1] == '-');
        assert(t.len() >= 3);
        assert(t != "--"@);
        assert(t != "-h"@);
        if t == "--help"@ {
            assert(t.skip(2) =~= "help"@);
        }
        if t == "--version"@ {
            assert(t.skip(2) =~= "version"@);
        }
        let after = t.skip(2);
        lemma_find_from(after, '=', 0);
        if t == "--"@ + l {
            assert(after =~= l);
            assert(!(exists|j: int| 0 <= j < after.len() && after[j] == '=')) by {
                if exists|j: int| 0 <= j < after.len() && after[j] == '=' {
                    let j = choose|j: int| 0 <= j < after.len() && after[j] == '=';
                    assert(l.contains('='));
                }
            }
        } else {
            assert(after =~= l + "="@ + v);
            assert(after[l.len() as int] == '=');
            assert forall|j: int| 0 <= j < l.len() implies after[j] != '=' by {
                assert(after[j] == l[j]);
                if l[j] == '=' {
                    assert(l.contains('='));
                }
            }
            assert(find_char(after, '=') == l.len());
            assert(after.take(l.len() as int) =~= l);
            assert(after.skip(l.len() as int + 1) =~= v);
        }
    }
    if t == seq!['-', c] || t == seq!['-', c, '='] + v || t == seq!['-', c] + v {
        assert(t[0] == '-');
        assert(t != "--"@ && t != "-h"@ && t != "--help"@ && t != "--version"@) by {
            if t == "--"@ || t == "--help"@ || t == "--version"@ {
                assert(t[1] == '-');
            }
            if t == "-h"@ {
                assert(t[1] == 'h');
            }
        }
        assert(t.len() >= 2);
        assert(!(t[1] == '-'));
        let after = t.skip(1);
        lemma_find_from(after, '=', 0);
        if t == seq!['-', c] {
            assert(after =~= seq![c]);
            assert(find_char(after, '=') == -1);
        } else if t == seq!['-', c, '='] + v {
            assert(after =~= seq![c, '='] + v);
            assert(after[0] == c && after[1] == '=');
            assert(find_from(after, '=', 1) == 1);
            assert(find_char(after, '=') == 1);
            assert(after.take(0) =~= Seq::<char>::empty());
            assert(after.skip(2) =~= v);
        } else {
            assert(after =~= seq![c] + v);
            assert forall|j: int| 0 <= j < after.len() implies after[j] != '=' by {
                if j > 0 {
                    assert(after[j] == v[j - 1]);
                    if v[j - 1] == '=' {
                        assert(v.contains('='));
                    }
                }
            }
            assert(find_char(after, '=') == -1);
            assert(after.len() > 1);
            assert(after.skip(1) =~= v);
        }
    }
}

/// Whether every token of `toks` is a bare word: not empty and not starting
/// with `-`.
pub open spec fn bare_words(toks: Seq<Seq<char>>) -> bool {
    forall|j: int| 0 <= j < toks.len() ==> (#[trigger] toks[j]).len() > 0 && toks[j][0] != '-'
}

/// Whether `p` reads positionals plainly when given `n` of them: it has no
/// subcommands and no required option, no option default that a validator
/// checks, no positional default or validator, and no required positional
/// beyond the first `n`.
pub open spec fn plain_positionals(p: ArgParser, n: int) -> bool {
    &&& p.subcommands@.len() == 0
    &&& forall|k: int| 0 <= k < p.options@.len() ==> !(#[trigger] p.options@[k]).required && (
    p.options@[k].default is None || p.options@[k].validator is None)
    &&& forall|k: int|
        0 <= k < p.positionals@.len() ==> (#[trigger] p.positionals@[k]).default is None
            && p.positionals@[k].validator is None
    &&& forall|k: int| n <= k < p.positionals@.len() ==> !(#[trigger] p.positionals@[k]).required
}

proof fn lemma_gather_bare(
    p: ArgParser,
    args: Seq<Seq<char>>,
    i: int,
    m: int,
    st: Store,
    pos: Seq<Seq<char>>,
    ck: Seq<Check>,
)
    requires
        0 <= i <= m <= args.len(),
        forall|j: int| i <= j < m ==> (#[trigger] args[j]).len() > 0 && args[j][0] != '-',
    ensures
        gather(p, args, i, st, pos, ck) == gather(p, args, m, st, pos + args.subrange(i, m), ck),
    decreases m - i,
{
    if i == m {
        assert(pos + args.subrange(i, m) =~= pos);
    } else {
        let t = args[i];
        reveal_strlit("--");
        reveal_strlit("--help");
        reveal_strlit("-h");
        reveal_strlit("--version");
        assert(t != "--"@ && t != "--help"@ && t != "-h"@ && t != "--version"@) by {
            if t == "--"@ || t == "--help"@ || t == "-h"@ || t == "--version"@ {
                assert(t[0] == '-');
            }
        }
        assert(step(p, args, i, st) == Step::Bare);
        assert(scan(p, args, i, st, ck) == Scan::Bare { index: i, store: st, checks: ck });
        lemma_gather_bare(p, args, i + 1, m, st, pos.push(t), ck);
        assert(pos.push(t) + args.subrange(i + 1, m) =~= pos + args.subrange(i, m));
    }
}

proof fn lemma_fill_plain(
    opts: Seq<crate::types::OptionDef>,
    values: Seq<(Seq<char>, Seq<Seq<char>>)>,
    k: int,
    ck: Seq<Check>,
)
    requires
        0 <= k,
        forall|j: int| 0 <= j < opts.len() ==> !(#[trigger] opts[j]).required && (opts[j].default is None
            || opts[j].validator is None),
    ensures
        fill(opts, seq![], values, k, ck) matches Filled::Filled { checks, .. } && checks == ck,
    decreases opts.len() - k,
{
    if k < opts.len() {
        let opt = opts[k];
        let key = opt.long@;
        assert(crate::semantics::env_values(opt, seq![]) is None) by {
            match opt.env_var {
                Some(var) => {
                    crate::parser::lemma_first_index_from(
                        Seq::<(Seq<char>, Seq<char>)>::empty(),
                        crate::result::key_is::<Seq<char>>(var@),
                        0,
                    );
                },
                None => {},
            }
        }
        if crate::semantics::has_values(values, key) {
            lemma_fill_plain(opts, values, k + 1, ck);
        } else {
            match opt.default {
                Some(d) => {
                    assert(ck + crate::semantics::checks_for(opt.validator, key, d@) =~= ck);
                    lemma_fill_plain(opts, crate::result::assign(values, key, seq![d@]), k + 1, ck);
                },
                None => {
                    lemma_fill_plain(opts, values, k + 1, ck);
                },
            }
        }
    }
}

proof fn lemma_positionals_plain(ps: Seq<crate::types::PositionalDef>, pv: Seq<Seq<char>>, idx: int)
    requires
        0 <= idx,
        forall|k: int| 0 <= k < ps.len() ==> (#[trigger] ps[k]).default is None && ps[k].validator is None,
        forall|k: int| pv.len() <= k < ps.len() ==> !(#[trigger] ps[k]).required,
    ensures
        pad_defaults(ps, pv, idx) == pv,
        missing_from(ps, pv.len() as int, idx) == -1,
        positional_checks(ps, pv, idx) == Seq::<Check>::empty(),
    decreases ps.len() - idx,
{
    if idx < ps.len() {
        lemma_positionals_plain(ps, pv, idx + 1);
        if idx < pv.len() {
            assert(crate::semantics::checks_for(ps[idx].validator, ps[idx].name@, pv[idx]) + positional_checks(
                ps,
                pv,
                idx + 1,
            ) =~= Seq::<Check>::empty());
        }
    }
}

/// Bare words are positionals, in the order given, and so is everything
/// after `--`, verbatim: for a parser that reads positionals plainly, the
/// words `toks` parse to exactly the positionals `toks` (also after a
/// leading `--`), and `toks`, `--`, `rest` parse to the positionals `toks`
/// followed by `rest`, whatever `rest` holds; no subcommand is set.
pub proof fn positionals_keep_order(
    p: ArgParser,
    toks: Seq<Seq<char>>,
    rest: Seq<Seq<char>>,
    r: Result<crate::result::ParseResult, crate::types::ParseError>,
)
    requires
        plain_positionals(p, toks.len() as int),
        bare_words(toks),
    ensures
        parse_settled(parse_outcome(p, toks, seq![]), r) ==> (r matches Ok(pr) && pr.model().positionals
            == toks && pr.model().subcommand is None),
        parse_settled(parse_outcome(p, seq!["--"@] + toks, seq![]), r) ==> (r matches Ok(pr)
            && pr.model().positionals == toks && pr.model().subcommand is None),
        parse_settled(parse_outcome(p, toks + seq!["--"@] + rest, seq![]), r) ==> (r matches Ok(pr)
            && pr.model().positionals == toks + rest && pr.model().subcommand is None),
{
    let st0 = Store { flags: crate::semantics::initial_flags(p.flags@), options: seq![] };
    let none: Seq<Check> = seq![];
    let empty: Seq<Seq<char>> = seq![];
    lemma_fill_plain(p.options@, seq![], 0, none);
    reveal_strlit("--");
    // the words alone
    lemma_gather_bare(p, toks, 0, toks.len() as int, st0, empty, none);
    assert(empty + toks.subrange(0, toks.len() as int) =~= toks);
    assert(gather(p, toks, 0, st0, empty, none) == Gathered::Read { store: st0, positionals: toks, checks: none });
    lemma_positionals_plain(p.positionals@, toks, 0);
    // a leading double dash
    let a2 = seq!["--"@] + toks;
    assert(a2[0] == "--"@);
    assert(step(p, a2, 0, st0) == Step::Rest);
    assert(a2.skip(1) =~= toks);
    assert(empty + a2.skip(1) =~= toks);
    assert(gather(p, a2, 0, st0, empty, none) == Gathered::Read { store: st0, positionals: toks, checks: none });
    // words, a double dash, anything
    let a3 = toks + seq!["--"@] + rest;
    let n = toks.len() as int;
    assert forall|j: int| 0 <= j < n implies (#[trigger] a3[j]).len() > 0 && a3[j][0] != '-' by {
        assert(a3[j] == toks[j]);
    }
    lemma_gather_bare(p, a3, 0, n, st0, empty, none);
    assert(a3.subrange(0, n) =~= toks);
    assert(a3[n] == "--"@);
    assert(step(p, a3, n, st0) == Step::Rest);
    assert(scan(p, a3, n, st0, none) == Scan::Rest { index: n, store: st0, checks: none });
    assert(a3.skip(n + 1) =~= rest);
    assert(empty + toks =~= toks);
    assert(gather(p, a3, 0, st0, empty, none) == Gathered::Read { store: st0, positionals: toks + rest, checks: none });
    lemma_positionals_plain(p.positionals@, toks + rest, 0);
}

/// The store a parse of `p` starts from: every flag unset for a parser
/// without subcommands, nothing for one with them.
pub open spec fn start_store(p: ArgParser) -> Store {
    if p.subcommands@.len() == 0 {
        Store { flags: crate::semantics::initial_flags(p.flags@), options: seq![] }
    } else {
        crate::semantics::empty_store()
    }
}

proof fn lemma_scan_done_extend(p: ArgParser, args: Seq<Seq<char>>, more: Seq<Seq<char>>, i: int, st: Store, ck: Seq<Check>)
    requires
        0 <= i <= args.len(),
        scan(p, args, i, st, ck) is Done,
    ensures
        scan(p, args + more, i, st, ck) == scan(
            p,
            args + more,
            args.len() as int,
            scan(p, args, i, st, ck)->Done_store,
            scan(p, args, i, st, ck)->Done_checks,
        ),
    decreases args.len() + 1 - i,
{
    if i < args.len() {
        let s = step(p, args, i, st);
        crate::properties::lemma_step_extend(p, args, more, i, st);
        match s {
            Step::Next { store, extra, checks: c } => {
                let next = i + 1 + if extra {
                    1int
                } else {
                    0int
                };
                lemma_scan_done_extend(p, args, more, next, store, ck + c);
            },
            _ => {},
        }
    }
}

/// A request is answered wherever the reading reaches it: when the tokens
/// `pre` are all read as flags and options, then `pre`, a request token and
/// anything after it parse to that request: `--help` or `-h` to the help
/// text, `--version` to the version text (or, without a version, to an
/// unknown argument).
pub proof fn request_anywhere(
    p: ArgParser,
    pre: Seq<Seq<char>>,
    t: Seq<char>,
    rest: Seq<Seq<char>>,
    env: Seq<(Seq<char>, Seq<char>)>,
)
    requires
        scan(p, pre, 0, start_store(p), seq![]) is Done,
        t == "--help"@ || t == "-h"@ || t == "--version"@,
    ensures
        parse_outcome(p, pre + seq![t] + rest, env) matches crate::semantics::Outcome::Failed { err, .. }
            && err == if t == "--version"@ {
            match crate::parser::version_text_of(p) {
                Some(v) => crate::types::ErrorV::VersionRequested(v),
                None => crate::types::ErrorV::UnknownArgument(t),
            }
        } else {
            crate::types::ErrorV::HelpRequested(crate::help::help_of(p))
        },
{
    let args = pre + seq![t] + rest;
    let st = start_store(p);
    let none: Seq<Check> = seq![];
    assert(args =~= pre + (seq![t] + rest));
    lemma_scan_done_extend(p, pre, seq![t] + rest, 0, st, none);
    let sc = scan(p, pre, 0, st, none);
    let n = pre.len() as int;
    assert(args[n] == t);
    reveal_strlit("--");
    reveal_strlit("--help");
    reveal_strlit("-h");
    reveal_strlit("--version");
    assert(t != "--"@) by {
        if t == "--"@ {
            assert(t.len() == 2);
            if t == "--help"@ || t == "--version"@ {
                assert(t.len() > 2);
            } else {
                assert(t[1] == 'h');
            }
        }
    }
    assert(scan(p, args, n, sc->Done_store, sc->Done_checks) is Failed);
    assert(scan(p, args, 0, st, none) is Failed);
}

/// The tokens `--long=v` for each `v` of `vs`, in order.
pub open spec fn long_eq_tokens(l: Seq<char>, vs: Seq<Seq<char>>) -> Seq<Seq<char>> {
    vs.map_values(|v: Seq<char>| "--"@ + l + "="@ + v)
}

/// Whether each of `vs` can be attached with `=`: not empty, no `=` in it.
pub open spec fn attachable(vs: Seq<Seq<char>>) -> bool {
    forall|j: int| 0 <= j < vs.len() ==> (#[trigger] vs[j]).len() > 0 && !vs[j].contains('=')
}

proof fn lemma_multi_scan(p: ArgParser, k: int, c: char, vs: Seq<Seq<char>>, i: int, st: Store, ck: Seq<Check>)
    requires
        plain_option(p, k, c),
        p.options@[k].multi,
        attachable(vs),
        0 <= i <= vs.len(),
    ensures
        scan(p, long_eq_tokens(p.options@[k].long@, vs), i, st, ck) matches Scan::Done { store, .. }
            && store.flags == st.flags && crate::result::values_of(store.options, p.options@[k].long@)
            == crate::result::values_of(st.options, p.options@[k].long@) + vs.skip(i),
    decreases vs.len() - i,
{
    let o = p.options@[k];
    let l = o.long@;
    let toks = long_eq_tokens(l, vs);
    if i < vs.len() {
        assert(toks[i] == "--"@ + l + "="@ + vs[i]);
        option_spellings_agree(p, k, c, toks, i, st, vs[i]);
        let st2 = Store {
            options: crate::result::assign(st.options, l, crate::result::values_of(st.options, l).push(vs[i])),
            ..st
        };
        crate::result::lemma_lookup_assign_same(st.options, l, crate::result::values_of(st.options, l).push(vs[i]));
        lemma_multi_scan(p, k, c, vs, i + 1, st2, ck + crate::semantics::checks_for(o.validator, l, vs[i]));
        assert(crate::result::values_of(st.options, l).push(vs[i]) + vs.skip(i + 1) =~= crate::result::values_of(
            st.options,
            l,
        ) + vs.skip(i));
    } else {
        assert(vs.skip(i) =~= Seq::<Seq<char>>::empty());
        assert(crate::result::values_of(st.options, l) + vs.skip(i) =~= crate::result::values_of(st.options, l));
    }
}

/// Values keep the order in which they are given: reading `--long=v` for
/// each `v` of `vs` appends them, in order, to a multi option's values and
/// changes no flag. Given twice, an option that takes one value is refused
/// as a duplicate. (The last value is what a single-value read gives:
/// see `option_is_last_value`.)
pub proof fn values_keep_order(p: ArgParser, k: int, c: char, vs: Seq<Seq<char>>, st: Store, ck: Seq<Check>)
    requires
        plain_option(p, k, c),
        attachable(vs),
    ensures
        p.options@[k].multi ==> (scan(p, long_eq_tokens(p.options@[k].long@, vs), 0, st, ck) matches Scan::Done {
            store,
            ..
        } && store.flags == st.flags && crate::result::values_of(store.options, p.options@[k].long@)
            == crate::result::values_of(st.options, p.options@[k].long@) + vs),
        !p.options@[k].multi && vs.len() == 2 && crate::result::lookup(st.options, p.options@[k].long@) is None ==> (scan(
            p,
            long_eq_tokens(p.options@[k].long@, vs),
            0,
            st,
            ck,
        ) matches Scan::Failed { err, .. } && err == crate::types::ErrorV::DuplicateOption(p.options@[k].long@)),
{
    let o = p.options@[k];
    let l = o.long@;
    if o.multi {
        lemma_multi_scan(p, k, c, vs, 0, st, ck);
        assert(vs.skip(0) =~= vs);
    } else if vs.len() == 2 && crate::result::lookup(st.options, l) is None {
        let toks = long_eq_tokens(l, vs);
        assert(toks[0] == "--"@ + l + "="@ + vs[0]);
        assert(toks[1] == "--"@ + l + "="@ + vs[1]);
        option_spellings_agree(p, k, c, toks, 0, st, vs[0]);
        let st2 = Store { options: crate::result::assign(st.options, l, seq![vs[0]]), ..st };
        crate::result::lemma_lookup_assign_same(st.options, l, seq![vs[0]]);
        option_spellings_agree(p, k, c, toks, 1, st2, vs[1]);
        let c0 = crate::semantics::checks_for(o.validator, l, vs[0]);
        assert(crate::semantics::store_value(st, l, vs[0], false) == Ok::<Store, crate::types::ErrorV>(st2));
        assert(step(p, toks, 0, st) == Step::Next { store: st2, extra: false, checks: c0 });
        assert(crate::semantics::store_value(st2, l, vs[1], false) is Err);
        assert(scan(p, toks, 1, st2, ck + c0) is Failed);
        assert(scan(p, toks, 0, st, ck) == scan(p, toks, 1, st2, ck + c0));
    }
}

/// A parse with subcommands that succeeds names its subcommand: the first
/// bare token, at index `i`, is the name of subcommand `k`; the result has
/// that name as its subcommand, no positionals of its own, the flags read
/// before the name, and as its sub-result what the subcommand's parser makes
/// of the tokens after the name.
pub proof fn subcommand_fields(p: ArgParser, args: Seq<Seq<char>>, env: Seq<(Seq<char>, Seq<char>)>)
    requires
        p.subcommands@.len() > 0,
        parse_outcome(p, args, env) is Parsed,
    ensures
        ({
            let result = parse_outcome(p, args, env)->Parsed_result;
            let sc = scan(p, args, 0, crate::semantics::empty_store(), seq![]);
            &&& sc is Bare
            &&& 0 <= sc->Bare_index < args.len()
            &&& exists|k: int|
                0 <= k < p.subcommands@.len() && (#[trigger] p.subcommands@[k]).name@ == args[sc->Bare_index]
                    && (parse_outcome(p.subcommands@[k].parser, args.skip(sc->Bare_index + 1), env) matches Outcome::Parsed {
                    result: sr,
                    ..
                } && result.sub_result == Some(Box::new(sr)))
            &&& result.subcommand == Some(args[sc->Bare_index])
            &&& result.positionals == Seq::<Seq<char>>::empty()
            &&& result.flags == sc->Bare_store.flags
        }),
{
    let sc = scan(p, args, 0, crate::semantics::empty_store(), seq![]);
    crate::semantics::lemma_scan_index(p, args, 0, crate::semantics::empty_store(), seq![]);
    if let Scan::Bare { index, store, checks } = sc {
        let k = first_index(p.subcommands@, crate::parser::sub_named(args[index]));
        crate::parser::lemma_first_index_from(p.subcommands@, crate::parser::sub_named(args[index]), 0);
        if k >= 0 {
            assert(p.subcommands@[k].name@ == args[index]);
        }
    }
}

/// Whether flag `k` of `p` has long name `l` that names it alone and
/// clashes with neither the built-in requests nor the `=` syntax.
pub open spec fn plain_flag(p: ArgParser, k: int) -> bool {
    let l = p.flags@[k].long@;
    &&& 0 <= k < p.flags@.len()
    &&& first_index(p.flags@, flag_long(l)) == k
    &&& l.len() > 0
    &&& !l.contains('=')
    &&& l != "help"@
    &&& l != "version"@
}

/// Whether flag `k`'s short form is an ASCII character that names it alone
/// and is neither a built-in request nor token syntax.
pub open spec fn short_form_plain(p: ArgParser, k: int) -> bool {
    let c = p.flags@[k].short->0;
    &&& c != 'h' && c != 'V' && c != '-' && c != '='
    &&& (c as u32) < 128
    &&& first_index(p.flags@, flag_short(c)) == k
}

/// A long flag is set by its long form: reading the token `--long` of a
/// flag consumes that token alone, checks nothing, sets the flag to `true`,
/// leaves every other flag and every option as it was, and so reads back
/// as set; the flag's short form `-c` has the very same effect.
pub proof fn long_flag_sets_flag(p: ArgParser, k: int, args: Seq<Seq<char>>, i: int, st: Store)
    requires
        plain_flag(p, k),
        0 <= i < args.len(),
        args[i] == "--"@ + p.flags@[k].long@,
    ensures
        step(p, args, i, st) matches Step::Next { store, extra, checks } && !extra && checks.len() == 0
            && crate::result::lookup(store.flags, p.flags@[k].long@) == Some(true)
            && store.options == st.options && (forall|other: Seq<char>|
            other != p.flags@[k].long@ ==> #[trigger] crate::result::lookup(store.flags, other)
                == crate::result::lookup(st.flags, other)),
        p.flags@[k].short is Some && short_form_plain(p, k) ==> forall|args2: Seq<Seq<char>>, j: int|
            0 <= j < args2.len() && args2[j] == seq!['-', p.flags@[k].short->0] ==> #[trigger] step(p, args2, j, st)
                == step(p, args, i, st),
{
    let l = p.flags@[k].long@;
    let t = args[i];
    reveal_strlit("--");
    reveal_strlit("-h");
    reveal_strlit("--help");
    reveal_strlit("--version");
    reveal_strlit("help");
    reveal_strlit("version");
    assert(t[0] == '-' && t[1] == '-');
    assert(t.len() >= 3);
    assert(t != "--"@);
    assert(t != "-h"@);
    if t == "--help"@ {
        assert(t.skip(2) =~= "help"@);
    }
    if t == "--version"@ {
        assert(t.skip(2) =~= "version"@);
    }
    let after = t.skip(2);
    assert(after =~= l);
    lemma_find_from(after, '=', 0);
    assert(!(exists|j: int| 0 <= j < after.len() && after[j] == '=')) by {
        if exists|j: int| 0 <= j < after.len() && after[j] == '=' {
            let j = choose|j: int| 0 <= j < after.len() && after[j] == '=';
            assert(l.contains('='));
        }
    }
    assert(find_char(after, '=') == -1);
    crate::result::lemma_lookup_assign_same(st.flags, l, true);
    assert forall|other: Seq<char>| other != l implies #[trigger] crate::result::lookup(
        crate::semantics::set_flag(st, l).flags,
        other,
    ) == crate::result::lookup(st.flags, other) by {
        crate::result::lemma_lookup_assign_other(st.flags, l, true, other);
    }
    if p.flags@[k].short is Some && short_form_plain(p, k) {
    let c = p.flags@[k].short->0;
    assert forall|args2: Seq<Seq<char>>, j: int|
        0 <= j < args2.len() && args2[j] == seq!['-', c] implies #[trigger] step(p, args2, j, st) == step(
        p,
        args,
        i,
        st,
    ) by {
        let t2 = args2[j];
        assert(t2 != "--"@ && t2 != "--help"@ && t2 != "--version"@) by {
            if t2 == "--"@ || t2 == "--help"@ || t2 == "--version"@ {
                assert(t2[1] == '-');
            }
        }
        assert(t2 != "-h"@) by {
            if t2 == "-h"@ {
                assert(t2[1] == 'h');
            }
        }
        let after2 = t2.skip(1);
        assert(after2 =~= seq![c]);
        lemma_find_from(after2, '=', 0);
        assert(find_char(after2, '=') == -1);
    }
    }
}

/// The parse of `--long` for a flag reports the flag as set: whenever that
/// parse (of a parser without subcommands) gives a result, the result's
/// flag reads `true`.
pub proof fn long_flag_reads_back(p: ArgParser, k: int, env: Seq<(Seq<char>, Seq<char>)>)
    requires
        plain_flag(p, k),
        p.subcommands@.len() == 0,
    ensures
        parse_outcome(p, seq!["--"@ + p.flags@[k].long@], env) matches Outcome::Parsed { result, .. } ==> crate::result::lookup(
            result.flags,
            p.flags@[k].long@,
        ) == Some(true),
{
    let l = p.flags@[k].long@;
    let args = seq!["--"@ + l];
    let st0 = Store { flags: crate::semantics::initial_flags(p.flags@), options: seq![] };
    let none: Seq<Check> = seq![];
    long_flag_sets_flag(p, k, args, 0, st0);
    let s0 = step(p, args, 0, st0);
    let st1 = s0->Next_store;
    assert(scan(p, args, 1, st1, none + s0->Next_checks) is Done);
    assert(scan(p, args, 0, st0, none) == scan(p, args, 1, st1, none + s0->Next_checks));
    assert(gather(p, args, 0, st0, seq![], none) matches Gathered::Read { store, .. } && store == st1);
}

/// Whether each of `vs` can stand between commas: not empty, no comma in it.
pub open spec fn comma_free_pieces(vs: Seq<Seq<char>>) -> bool {
    forall|j: int| 0 <= j < vs.len() ==> (#[trigger] vs[j]).len() > 0 && !vs[j].contains(',')
}

proof fn lemma_split_word(w: Seq<char>, rest: Seq<char>, cur: Seq<char>, acc: Seq<Seq<char>>)
    requires
        !w.contains(','),
    ensures
        crate::semantics::split_nonempty(w + rest, cur, acc) == crate::semantics::split_nonempty(rest, cur + w, acc),
    decreases w.len(),
{
    if w.len() == 0 {
        assert(w + rest =~= rest);
        assert(cur + w =~= cur);
    } else {
        let s = w + rest;
        assert(s[0] == w[0]);
        assert(s[0] != ',') by {
            if w[0] == ',' {
                assert(w.contains(','));
            }
        }
        assert(s.drop_first() =~= w.drop_first() + rest);
        assert(!w.drop_first().contains(',')) by {
            if w.drop_first().contains(',') {
                let j = choose|j: int| 0 <= j < w.drop_first().len() && w.drop_first()[j] == ',';
                assert(w[j + 1] == ',');
            }
        }
        lemma_split_word(w.drop_first(), rest, cur.push(w[0]), acc);
        assert(cur.push(w[0]) + w.drop_first() =~= cur + w);
    }
}

proof fn lemma_split_join(vs: Seq<Seq<char>>, rest: Seq<char>, acc: Seq<Seq<char>>)
    requires
        vs.len() > 0,
        comma_free_pieces(vs),
    ensures
        crate::semantics::split_nonempty(crate::text::join(vs, ","@) + rest, seq![], acc)
            == crate::semantics::split_nonempty(rest, vs.last(), acc + vs.drop_last()),
    decreases vs.len(),
{
    reveal_strlit(",");
    if vs.len() == 1 {
        lemma_split_word(vs[0], rest, seq![], acc);
        assert(Seq::<char>::empty() + vs[0] =~= vs[0]);
        assert(acc + vs.drop_last() =~= acc);
    } else {
        let prev = vs.drop_last();
        let last = vs.last();
        assert forall|j: int| 0 <= j < prev.len() implies (#[trigger] prev[j]).len() > 0 && !prev[j].contains(',') by {
            assert(prev[j] == vs[j]);
        }
        let rest2 = seq![','] + (last + rest);
        assert(crate::text::join(vs, ","@) + rest =~= crate::text::join(prev, ","@) + rest2);
        lemma_split_join(prev, rest2, acc);
        assert(prev.last() == vs[vs.len() - 2]);
        assert(prev.last().len() > 0);
        assert(rest2[0] == ',');
        assert(rest2.drop_first() =~= last + rest);
        let acc2 = (acc + prev.drop_last()).push(prev.last());
        assert(acc2 =~= acc + prev);
        assert(!last.contains(',')) by {
            assert(last == vs[vs.len() - 1]);
        }
        lemma_split_word(last, rest, seq![], acc2);
        assert(Seq::<char>::empty() + last =~= last);
    }
}

/// Splitting on commas undoes joining with commas: for pieces that are not
/// empty and hold no comma, the pieces of their comma-joined text are
/// exactly those pieces, in order.
pub proof fn comma_pieces_of_join(vs: Seq<Seq<char>>)
    requires
        comma_free_pieces(vs),
    ensures
        crate::semantics::comma_pieces(crate::text::join(vs, ","@)) == vs,
{
    if vs.len() == 0 {
        assert(crate::text::join(vs, ","@) =~= Seq::<char>::empty());
    } else {
        lemma_split_join(vs, seq![], seq![]);
        assert(crate::text::join(vs, ","@) + Seq::<char>::empty() =~= crate::text::join(vs, ","@));
        assert(vs.last().len() > 0) by {
            assert(vs.last() == vs[vs.len() - 1]);
        }
        assert(Seq::<Seq<char>>::empty() + vs.drop_last() =~= vs.drop_last());
        assert(vs.drop_last().push(vs.last()) =~= vs);
    }
}

proof fn lemma_join_nonempty(vs: Seq<Seq<char>>)
    requires
        vs.len() > 0,
        comma_free_pieces(vs),
    ensures
        crate::text::join(vs, ","@).len() > 0,
    decreases vs.len(),
{
    assert(vs.last() == vs[vs.len() - 1]);
}

/// A multi option takes its values from the environment in order: when its
/// environment variable holds the pieces `vs` (not empty, no comma in any)
/// joined with commas, the option's values from the environment are
/// exactly `vs`.
pub proof fn env_multi_values_in_order(
    opt: crate::types::OptionDef,
    env: Seq<(Seq<char>, Seq<char>)>,
    vs: Seq<Seq<char>>,
)
    requires
        opt.multi,
        vs.len() > 0,
        comma_free_pieces(vs),
        opt.env_var matches Some(var) && crate::semantics::env_lookup(env, var@) == Some(
            crate::text::join(vs, ","@),
        ),
    ensures
        crate::semantics::env_values(opt, env) == Some(vs),
{
    comma_pieces_of_join(vs);
    lemma_join_nonempty(vs);
}

/// Whether a character is not a comma.
pub open spec fn not_comma() -> spec_fn(char) -> bool {
    |c: char| c != ','
}

proof fn lemma_split_keeps_letters(s: Seq<char>, cur: Seq<char>, acc: Seq<Seq<char>>)
    requires
        !cur.contains(','),
        comma_free_pieces(acc),
    ensures
        crate::semantics::split_nonempty(s, cur, acc).flatten() == acc.flatten() + cur + s.filter(not_comma()),
        comma_free_pieces(crate::semantics::split_nonempty(s, cur, acc)),
    decreases s.len(),
{
    reveal(Seq::filter);
    if s.len() == 0 {
        assert(s.filter(not_comma()) =~= Seq::<char>::empty());
        if cur.len() > 0 {
            acc.lemma_flatten_push(cur);
            assert(acc.flatten() + cur + s.filter(not_comma()) =~= acc.flatten() + cur);
            assert forall|j: int| 0 <= j < acc.push(cur).len() implies (#[trigger] acc.push(cur)[j]).len() > 0
                && !acc.push(cur)[j].contains(',') by {
                if j < acc.len() {
                    assert(acc.push(cur)[j] == acc[j]);
                }
            }
        } else {
            assert(acc.flatten() + cur + s.filter(not_comma()) =~= acc.flatten());
        }
    } else {
        let rest = s.drop_first();
        assert(s =~= seq![s[0]] + rest);
        Seq::filter_distributes_over_add(seq![s[0]], rest, not_comma());
        assert(seq![s[0]].drop_last() =~= Seq::<char>::empty());
        assert(Seq::<char>::empty().filter(not_comma()) =~= Seq::<char>::empty());
        assert(seq![s[0]].last() == s[0]);
        if s[0] == ',' {
            assert(seq![s[0]].filter(not_comma()) =~= Seq::<char>::empty());
            let acc2 = if cur.len() > 0 {
                acc.push(cur)
            } else {
                acc
            };
            if cur.len() > 0 {
                acc.lemma_flatten_push(cur);
                assert forall|j: int| 0 <= j < acc2.len() implies (#[trigger] acc2[j]).len() > 0 && !acc2[j].contains(',') by {
                    if j < acc.len() {
                        assert(acc2[j] == acc[j]);
                    }
                }
            }
            assert(!Seq::<char>::empty().contains(','));
            lemma_split_keeps_letters(rest, seq![], acc2);
            assert(acc2.flatten() == acc.flatten() + cur) by {
                if cur.len() == 0 {
                    assert(acc.flatten() + cur =~= acc.flatten());
                }
            }
            assert(acc2.flatten() + Seq::<char>::empty() + rest.filter(not_comma()) =~= acc.flatten() + cur
                + s.filter(not_comma()));
        } else {
            assert(seq![s[0]].filter(not_comma()) =~= seq![s[0]]);
            assert(!cur.push(s[0]).contains(',')) by {
                if cur.push(s[0]).contains(',') {
                    let j = choose|j: int| 0 <= j < cur.push(s[0]).len() && cur.push(s[0])[j] == ',';
                    if j < cur.len() {
                        assert(cur[j] == ',');
                    }
                }
            }
            lemma_split_keeps_letters(rest, cur.push(s[0]), acc);
            assert(acc.flatten() + cur.push(s[0]) + rest.filter(not_comma()) =~= acc.flatten() + cur + s.filter(
                not_comma(),
            ));
        }
    }
}

/// Splitting on commas keeps every other character: the pieces of `s` are
/// never empty and hold no comma, and one after another they spell `s`
/// without its commas.
pub proof fn comma_pieces_keep_every_letter(s: Seq<char>)
    ensures
        crate::semantics::comma_pieces(s).flatten() == s.filter(not_comma()),
        comma_free_pieces(crate::semantics::comma_pieces(s)),
{
    assert(!Seq::<char>::empty().contains(','));
    lemma_split_keeps_letters(s, seq![], seq![]);
    assert(Seq::<Seq<char>>::empty().flatten() =~= Seq::<char>::empty());
    assert(Seq::<char>::empty() + Seq::<char>::empty() + s.filter(not_comma()) =~= s.filter(not_comma()));
}

/// Storing a value: an option that takes one value and has none yet keeps
/// the value given, alone; one that has a value already is refused as a
/// duplicate; a multi option appends the value to those it has. Flags and
/// the values of other options stay as they were, and the value is checked
/// by the option's validator, if it has one.
pub proof fn storing_a_value(st: Store, key: Seq<char>, value: Seq<char>, opt: crate::types::OptionDef, extra: bool)
    ensures
        !opt.multi && crate::result::lookup(st.options, key) is Some ==> (store_step(st, key, value, opt, extra) matches Step::Failed {
            err,
            ..
        } && err == crate::types::ErrorV::DuplicateOption(key)),
        (opt.multi || crate::result::lookup(st.options, key) is None) ==> (store_step(st, key, value, opt, extra) matches Step::Next {
            store,
            extra: x,
            checks,
        } && x == extra && store.flags == st.flags && crate::result::lookup(store.options, key) == Some(
            if opt.multi {
                crate::result::values_of(st.options, key).push(value)
            } else {
                seq![value]
            },
        ) && (forall|other: Seq<char>|
            other != key ==> #[trigger] crate::result::lookup(store.options, other) == crate::result::lookup(
                st.options,
                other,
            )) && checks == (match opt.validator {
            Some(v) => seq![Check { name: key, value, validator: v }],
            None => Seq::<Check>::empty(),
        })),
{
    let vals = if opt.multi {
        crate::result::values_of(st.options, key).push(value)
    } else {
        seq![value]
    };
    crate::result::lemma_lookup_assign_same(st.options, key, vals);
    assert forall|other: Seq<char>| other != key implies #[trigger] crate::result::lookup(
        crate::result::assign(st.options, key, vals),
        other,
    ) == crate::result::lookup(st.options, other) by {
        crate::result::lemma_lookup_assign_other(st.options, key, vals, other);
    }
}

/// An option that takes one value gets it from its environment variable
/// as it stands, commas and all, when the variable is set and not empty; an
/// unset or empty variable, or an option without one, gives nothing.
pub proof fn env_single_value(
    opt: crate::types::OptionDef,
    env: Seq<(Seq<char>, Seq<char>)>,
)
    ensures
        opt.env_var is None ==> crate::semantics::env_values(opt, env) is None,
        opt.env_var matches Some(var) ==> (crate::semantics::env_lookup(env, var@) matches Some(val) ==> (val.len() > 0
            && !opt.multi ==> crate::semantics::env_values(opt, env) == Some(seq![val]))),
        opt.env_var matches Some(var) ==> (!(crate::semantics::env_lookup(env, var@) matches Some(val) && val.len() > 0)
            ==> crate::semantics::env_values(opt, env) is None),
{
}

proof fn lemma_long_token(p: ArgParser, args: Seq<Seq<char>>, i: int, st: Store, key: Seq<char>)
    requires
        0 <= i < args.len(),
        args[i] == "--"@ + key,
        key.len() > 0,
        !key.contains('='),
        key != "help"@,
        key != "version"@,
    ensures
        step(p, args, i, st) == crate::semantics::long_step(p, args, i, st, args[i]),
        args[i].skip(2) == key,
        find_char(args[i].skip(2), '=') == -1,
{
    let t = args[i];
    reveal_strlit("--");
    reveal_strlit("-h");
    reveal_strlit("--help");
    reveal_strlit("--version");
    reveal_strlit("help");
    reveal_strlit("version");
    assert(t[0] == '-' && t[1] == '-');
    assert(t != "--"@);
    assert(t != "-h"@);
    if t == "--help"@ {
        assert(t.skip(2) =~= "help"@);
    }
    if t == "--version"@ {
        assert(t.skip(2) =~= "version"@);
    }
    let after = t.skip(2);
    assert(after =~= key);
    lemma_find_from(after, '=', 0);
    assert(!(exists|j: int| 0 <= j < after.len() && after[j] == '=')) by {
        if exists|j: int| 0 <= j < after.len() && after[j] == '=' {
            let j = choose|j: int| 0 <= j < after.len() && after[j] == '=';
            assert(key.contains('='));
        }
    }
}

/// A long token that names nothing is refused: `--KEY` (with no `=`) for a
/// KEY that is neither a flag nor an option is an unknown argument, and an
/// option's `--KEY` as the last token, with no value after it, is a missing
/// value; either way the reading checks nothing.
pub proof fn long_token_errors(p: ArgParser, args: Seq<Seq<char>>, i: int, st: Store, key: Seq<char>)
    requires
        0 <= i < args.len(),
        args[i] == "--"@ + key,
        key.len() > 0,
        !key.contains('='),
        key != "help"@,
        key != "version"@,
        first_index(p.flags@, flag_long(key)) < 0,
    ensures
        first_index(p.options@, opt_long(key)) < 0 ==> step(p, args, i, st) == (Step::Failed {
            err: crate::types::ErrorV::UnknownArgument(args[i]),
            checks: seq![],
        }),
        first_index(p.options@, opt_long(key)) >= 0 && i + 1 == args.len() ==> step(p, args, i, st)
            == (Step::Failed { err: crate::types::ErrorV::MissingValue(key), checks: seq![] }),
{
    lemma_long_token(p, args, i, st, key);
}

} // verus!
