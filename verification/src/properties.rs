//! Properties of the library as a whole: what holds across its operations.
use vstd::prelude::*;

use crate::completions::{completion_script, shell_name, shell_named, Shell};
use crate::help::{
    flag_entries, flag_label, help_of, help_preamble, later_sections, max_width, option_description,
    option_entries, option_label, program_label, section_lines, usage_target, Entry,
};
use crate::parser::ArgParser;
use crate::result::{
    assign, keys_of, lemma_keys_of_assign, lemma_lookup_assign_same, values_of, ResultModel,
};
use crate::parser::first_index;
use crate::semantics::{
    cluster_step, env_values, fill, flag_short, gather, has_values, long_step, parse_outcome, scan,
    set_flag, set_short_flags, short_step, single_short_step, step, Check, Filled, Gathered,
    Outcome, Scan, Step, Store,
};
use crate::text::{concat_map, flat_map};
use crate::semantics::{may_fail_with, may_pass, rejects, settles};
use crate::types::ErrorV;
use crate::types::{FlagDef, OptionDef};

verus! {

proof fn lemma_concat_map_push<A>(s: Seq<A>, x: A, f: spec_fn(A) -> Seq<char>)
    ensures
        concat_map(s.push(x), f) == concat_map(s, f) + f(x),
{
    assert(s.push(x).drop_last() =~= s);
}

proof fn lemma_flat_map_push<A>(s: Seq<A>, x: A, f: spec_fn(A) -> Seq<Seq<char>>)
    ensures
        flat_map(s.push(x), f) == flat_map(s, f) + f(x),
{
    assert(s.push(x).drop_last() =~= s);
}

/// Whether `q` is `p` with one more flag, `f`, at the end.
pub open spec fn with_flag(p: ArgParser, q: ArgParser, f: FlagDef) -> bool {
    &&& q.flags@ == p.flags@.push(f)
    &&& q.options@ == p.options@
    &&& q.positionals@ == p.positionals@
    &&& q.subcommands@ == p.subcommands@
    &&& q.program_name == p.program_name
    &&& q.program_desc == p.program_desc
    &&& q.version == p.version
}

/// Whether `q` is `p` with one more option, `o`, at the end.
pub open spec fn with_option(p: ArgParser, q: ArgParser, o: OptionDef) -> bool {
    &&& q.flags@ == p.flags@
    &&& q.options@ == p.options@.push(o)
    &&& q.positionals@ == p.positionals@
    &&& q.subcommands@ == p.subcommands@
    &&& q.program_name == p.program_name
    &&& q.program_desc == p.program_desc
    &&& q.version == p.version
}

/// A hidden flag shows nowhere: adding one to a parser changes neither its
/// help text nor its completion script for any shell.
pub proof fn hidden_flag_is_invisible(p: ArgParser, q: ArgParser, f: FlagDef)
    requires
        f.hidden,
        with_flag(p, q, f),
    ensures
        help_of(q) == help_of(p),
        forall|sh: Shell| completion_script(q, sh) == completion_script(p, sh),
{
    assert(q.flags@.drop_last() =~= p.flags@);
    lemma_flat_map_push(p.flags@, f, |g: FlagDef| crate::completions::flag_words(g));
    lemma_concat_map_push(p.flags@, f, |g: FlagDef| crate::completions::zsh_flag("        "@, g));
    lemma_concat_map_push(
        p.flags@,
        f,
        |g: FlagDef| crate::completions::ps_entry("        "@, g.hidden, g.long@, g.short, g.description@),
    );
    lemma_concat_map_push(
        p.flags@,
        f,
        |g: FlagDef| crate::completions::ps_entry("                "@, g.hidden, g.long@, g.short, g.description@),
    );
    let name = crate::completions::prog_name(p);
    let prefix = "complete -c "@ + name + crate::completions::when(
        p.subcommands@.len() > 0,
        " -n '__fish_use_subcommand'"@,
    );
    lemma_concat_map_push(p.flags@, f, |g: FlagDef| crate::completions::fish_flag(prefix, g));
    assert(flat_map(q.flags@, |g: FlagDef| crate::completions::flag_words(g)) =~= flat_map(
        p.flags@,
        |g: FlagDef| crate::completions::flag_words(g),
    ));
    assert(crate::completions::bash_words(q) == crate::completions::bash_words(p));
    assert(crate::completions::zsh_args(q, "        "@) == crate::completions::zsh_args(p, "        "@));
    assert(crate::completions::ps_completions(q, "        "@) == crate::completions::ps_completions(
        p,
        "        "@,
    ));
    assert(crate::completions::ps_completions(q, "                "@)
        == crate::completions::ps_completions(p, "                "@));
    assert forall|sh: Shell| completion_script(q, sh) == completion_script(p, sh) by {
        match sh {
            Shell::Bash => {
                assert(crate::completions::bash_script(q) == crate::completions::bash_script(p));
            },
            Shell::Zsh => {
                assert(crate::completions::zsh_script(q) == crate::completions::zsh_script(p));
            },
            Shell::Fish => {
                assert(crate::completions::fish_script(q) == crate::completions::fish_script(p));
            },
            Shell::PowerShell => {
                assert(crate::completions::powershell_script(q)
                    == crate::completions::powershell_script(p));
            },
        }
    }
}

/// A hidden option shows nowhere: adding one to a parser changes neither
/// its help text nor its completion script for any shell.
pub proof fn hidden_option_is_invisible(p: ArgParser, q: ArgParser, o: OptionDef)
    requires
        o.hidden,
        with_option(p, q, o),
    ensures
        help_of(q) == help_of(p),
        forall|sh: Shell| completion_script(q, sh) == completion_script(p, sh),
{
    assert(q.options@.drop_last() =~= p.options@);
    lemma_flat_map_push(p.options@, o, |g: OptionDef| crate::completions::option_words(g));
    lemma_concat_map_push(p.options@, o, |g: OptionDef| crate::completions::zsh_option("        "@, g));
    lemma_concat_map_push(
        p.options@,
        o,
        |g: OptionDef| crate::completions::ps_entry("        "@, g.hidden, g.long@, g.short, g.description@),
    );
    lemma_concat_map_push(
        p.options@,
        o,
        |g: OptionDef| crate::completions::ps_entry("                "@, g.hidden, g.long@, g.short, g.description@),
    );
    let name = crate::completions::prog_name(p);
    let prefix = "complete -c "@ + name + crate::completions::when(
        p.subcommands@.len() > 0,
        " -n '__fish_use_subcommand'"@,
    );
    lemma_concat_map_push(p.options@, o, |g: OptionDef| crate::completions::fish_option(prefix, g));
    assert(flat_map(q.options@, |g: OptionDef| crate::completions::option_words(g)) =~= flat_map(
        p.options@,
        |g: OptionDef| crate::completions::option_words(g),
    ));
    assert(crate::completions::bash_words(q) == crate::completions::bash_words(p));
    assert(crate::completions::zsh_args(q, "        "@) == crate::completions::zsh_args(p, "        "@));
    assert(crate::completions::ps_completions(q, "        "@) == crate::completions::ps_completions(
        p,
        "        "@,
    ));
    assert(crate::completions::ps_completions(q, "                "@)
        == crate::completions::ps_completions(p, "                "@));
    assert forall|sh: Shell| completion_script(q, sh) == completion_script(p, sh) by {
        match sh {
            Shell::Bash => {
                assert(crate::completions::bash_script(q) == crate::completions::bash_script(p));
            },
            Shell::Zsh => {
                assert(crate::completions::zsh_script(q) == crate::completions::zsh_script(p));
            },
            Shell::Fish => {
                assert(crate::completions::fish_script(q) == crate::completions::fish_script(p));
            },
            Shell::PowerShell => {
                assert(crate::completions::powershell_script(q)
                    == crate::completions::powershell_script(p));
            },
        }
    }
}

/// Whether a step failed for want of a value after the last token.
pub open spec fn wants_value(s: Step) -> bool {
    s matches Step::Failed { err: ErrorV::MissingValue(_), .. }
}

/// Whether a step consumed the token after it.
pub open spec fn takes_next(s: Step) -> bool {
    s matches Step::Next { extra, .. } && extra
}

proof fn lemma_long_step_extend(p: ArgParser, args: Seq<Seq<char>>, more: Seq<Seq<char>>, i: int, st: Store, t: Seq<char>)
    requires
        0 <= i < args.len(),
        !wants_value(long_step(p, args, i, st, t)),
    ensures
        long_step(p, args + more, i, st, t) == long_step(p, args, i, st, t),
        takes_next(long_step(p, args, i, st, t)) ==> i + 1 < args.len(),
{
    if i + 1 < args.len() {
        assert((args + more)[i + 1] == args[i + 1]);
    }
}

proof fn lemma_single_short_extend(p: ArgParser, args: Seq<Seq<char>>, more: Seq<Seq<char>>, i: int, st: Store, c: char, t: Seq<char>)
    requires
        0 <= i < args.len(),
        !wants_value(single_short_step(p, args, i, st, c, t)),
    ensures
        single_short_step(p, args + more, i, st, c, t) == single_short_step(p, args, i, st, c, t),
        takes_next(single_short_step(p, args, i, st, c, t)) ==> i + 1 < args.len(),
{
    if i + 1 < args.len() {
        assert((args + more)[i + 1] == args[i + 1]);
    }
}

proof fn lemma_cluster_extend(
    p: ArgParser,
    args: Seq<Seq<char>>,
    more: Seq<Seq<char>>,
    i: int,
    st: Store,
    after: Seq<char>,
    j: int,
    t: Seq<char>,
)
    requires
        0 <= i < args.len(),
        !wants_value(cluster_step(p, args, i, st, after, j, t)),
    ensures
        cluster_step(p, args + more, i, st, after, j, t) == cluster_step(p, args, i, st, after, j, t),
        takes_next(cluster_step(p, args, i, st, after, j, t)) ==> i + 1 < args.len(),
    decreases after.len() - j,
{
    if i + 1 < args.len() {
        assert((args + more)[i + 1] == args[i + 1]);
    }
    if 0 <= j < after.len() {
        let c = after[j];
        let fk = crate::parser::first_index(p.flags@, crate::semantics::flag_short(c));
        if !(c == 'h' && crate::parser::first_index(p.flags@, crate::semantics::flag_short('h')) < 0)
            && !(c == 'V' && p.version is Some) && fk >= 0 {
            lemma_cluster_extend(
                p,
                args,
                more,
                i,
                crate::semantics::set_flag(st, p.flags@[fk].long@),
                after,
                j + 1,
                t,
            );
        }
    }
}

/// A step that does not fail for want of a value reads nothing past the
/// tokens it consumes.
pub(crate) proof fn lemma_step_extend(p: ArgParser, args: Seq<Seq<char>>, more: Seq<Seq<char>>, i: int, st: Store)
    requires
        0 <= i < args.len(),
        !wants_value(step(p, args, i, st)),
    ensures
        step(p, args + more, i, st) == step(p, args, i, st),
        takes_next(step(p, args, i, st)) ==> i + 1 < args.len(),
{
    let t = args[i];
    assert((args + more)[i] == t);
    if t == "--"@ || t == "--help"@ || t == "-h"@ || t == "--version"@ {
    } else if t.len() >= 2 && t[0] == '-' && t[1] == '-' {
        lemma_long_step_extend(p, args, more, i, st, t);
    } else if t.len() > 1 && t[0] == '-' {
        let after = t.skip(1);
        let eq = crate::text::find_char(after, '=');
        if eq < 0 {
            if after.len() == 1 && (after[0] as u32) < 128 {
                lemma_single_short_extend(p, args, more, i, st, after[0], t);
            } else {
                lemma_cluster_extend(p, args, more, i, st, after, 0, t);
            }
        }
    }
}

/// Whether a scan ended in a way that later tokens cannot change: at a bare
/// token, at `--`, or with a failure other than a missing trailing value.
pub open spec fn scan_settled(s: Scan) -> bool {
    match s {
        Scan::Done { .. } => false,
        Scan::Failed { err, .. } => !(err is MissingValue),
        _ => true,
    }
}

proof fn lemma_scan_extend(p: ArgParser, args: Seq<Seq<char>>, more: Seq<Seq<char>>, i: int, st: Store, ck: Seq<Check>)
    requires
        0 <= i,
        scan_settled(scan(p, args, i, st, ck)),
    ensures
        scan(p, args + more, i, st, ck) == scan(p, args, i, st, ck),
    decreases args.len() + 1 - i,
{
    if i < args.len() {
        let s = step(p, args, i, st);
        if !wants_value(s) {
            lemma_step_extend(p, args, more, i, st);
            match s {
                Step::Next { store, extra, checks: c } => {
                    let next = i + 1 + if extra {
                        1int
                    } else {
                        0int
                    };
                    lemma_scan_extend(p, args, more, next, store, ck + c);
                },
                _ => {},
            }
        }
    }
}

proof fn lemma_gather_extend(
    p: ArgParser,
    args: Seq<Seq<char>>,
    more: Seq<Seq<char>>,
    i: int,
    st: Store,
    pos: Seq<Seq<char>>,
    ck: Seq<Check>,
)
    requires
        0 <= i,
        gather(p, args, i, st, pos, ck) matches Gathered::Failed { err, .. } && !(err is MissingValue),
    ensures
        gather(p, args + more, i, st, pos, ck) == gather(p, args, i, st, pos, ck),
    decreases args.len() + 1 - i,
{
    crate::semantics::lemma_scan_index(p, args, i, st, ck);
    let sc = scan(p, args, i, st, ck);
    assert(scan_settled(sc));
    lemma_scan_extend(p, args, more, i, st, ck);
    match sc {
        Scan::Bare { index, store, checks } => {
            assert((args + more)[index] == args[index]);
            crate::semantics::lemma_scan_index(p, args + more, i, st, ck);
            lemma_gather_extend(p, args, more, index + 1, store, pos.push(args[index]), checks);
        },
        _ => {},
    }
}

/// Whether `e` answers a request for help or for the version.
pub open spec fn is_request(e: ErrorV) -> bool {
    e is HelpRequested || e is VersionRequested
}

/// A request for help or for the version ends the reading: when parsing
/// `args` stops at such a request, any tokens after them change nothing.
/// So of `--help` and `--version`, the one given first wins, and a request
/// made before a subcommand is the parent's, after it the subcommand's.
pub proof fn request_ends_reading(p: ArgParser, args: Seq<Seq<char>>, more: Seq<Seq<char>>, env: Seq<(Seq<char>, Seq<char>)>)
    requires
        parse_outcome(p, args, env) matches Outcome::Failed { err, .. } && is_request(err),
    ensures
        parse_outcome(p, args + more, env) == parse_outcome(p, args, env),
    decreases p,
{
    if p.subcommands@.len() == 0 {
        let st0 = Store { flags: crate::semantics::initial_flags(p.flags@), options: seq![] };
        let g = gather(p, args, 0, st0, seq![], seq![]);
        match g {
            Gathered::Failed { err, checks } => {
                lemma_gather_extend(p, args, more, 0, st0, seq![], seq![]);
            },
            Gathered::Read { store, positionals, checks } => {
                lemma_fill_fails_missing(p.options@, env, store.options, 0, checks);
            },
            Gathered::Abort { .. } => {},
        }
    } else {
        let sc = scan(p, args, 0, crate::semantics::empty_store(), seq![]);
        crate::semantics::lemma_scan_index(p, args, 0, crate::semantics::empty_store(), seq![]);
        match sc {
            Scan::Bare { index, store, checks } => {
                lemma_scan_extend(p, args, more, 0, crate::semantics::empty_store(), seq![]);
                assert((args + more)[index] == args[index]);
                let k = crate::parser::first_index(
                    p.subcommands@,
                    crate::parser::sub_named(args[index]),
                );
                if k >= 0 {
                    crate::parser::lemma_first_index_from(
                        p.subcommands@,
                        crate::parser::sub_named(args[index]),
                        0,
                    );
                    let sub = p.subcommands@[k];
                    assert((args + more).skip(index + 1) =~= args.skip(index + 1) + more);
                    match parse_outcome(sub.parser, args.skip(index + 1), env) {
                        Outcome::Parsed { result: sr, checks: sc2 } => {
                            lemma_fill_fails_missing(p.options@, env, store.options, 0, checks + sc2);
                        },
                        Outcome::Failed { err, checks: sc2 } => {
                            assert(decreases_to!(p => p.subcommands));
                            assert(decreases_to!(p.subcommands => p.subcommands@));
                            assert(decreases_to!(p.subcommands@ => p.subcommands@[k]));
                            assert(decreases_to!(p.subcommands@[k] => p.subcommands@[k].parser));
                            request_ends_reading(sub.parser, args.skip(index + 1), more, env);
                        },
                        Outcome::Abort { .. } => {},
                    }
                }
            },
            Scan::Failed { err, checks } => {
                lemma_scan_extend(p, args, more, 0, crate::semantics::empty_store(), seq![]);
            },
            _ => {},
        }
    }
}

/// The fallback pass fails only for a missing required option.
proof fn lemma_fill_fails_missing(
    opts: Seq<OptionDef>,
    env: Seq<(Seq<char>, Seq<char>)>,
    values: Seq<(Seq<char>, Seq<Seq<char>>)>,
    k: int,
    checks: Seq<Check>,
)
    ensures
        crate::semantics::fill(opts, env, values, k, checks) matches crate::semantics::Filled::Failed {
            err,
            ..
        } ==> err is MissingRequired,
    decreases opts.len() - k,
{
    if 0 <= k < opts.len() {
        let opt = opts[k];
        let key = opt.long@;
        if crate::semantics::has_values(values, key) {
            lemma_fill_fails_missing(opts, env, values, k + 1, checks);
        } else {
            match crate::semantics::env_values(opt, env) {
                Some(res) => lemma_fill_fails_missing(
                    opts,
                    env,
                    assign(values, key, res),
                    k + 1,
                    checks + crate::semantics::checks_each(opt.validator, key, res),
                ),
                None => match opt.default {
                    Some(d) => lemma_fill_fails_missing(
                        opts,
                        env,
                        assign(values, key, seq![d@]),
                        k + 1,
                        checks + crate::semantics::checks_for(opt.validator, key, d@),
                    ),
                    None => if !opt.required {
                        lemma_fill_fails_missing(opts, env, values, k + 1, checks);
                    },
                },
            }
        }
    }
}

/// Whatever follows `--` is positional: none of it is read as a flag, an
/// option, or a request for help or version.
pub proof fn double_dash_rest_is_positional(
    p: ArgParser,
    post: Seq<Seq<char>>,
    st: Store,
    pos: Seq<Seq<char>>,
    ck: Seq<Check>,
)
    ensures
        gather(p, seq!["--"@] + post, 0, st, pos, ck) == (Gathered::Read {
            store: st,
            positionals: pos + post,
            checks: ck,
        }),
{
    let args = seq!["--"@] + post;
    assert(args[0] == "--"@);
    assert(args.skip(1) =~= post);
}

/// After a leading `--`, parsing fails only for a missing required argument
/// or, in a parser with subcommands, for the missing subcommand: it never
/// answers a request for help or version.
pub proof fn double_dash_never_requests(p: ArgParser, post: Seq<Seq<char>>, env: Seq<(Seq<char>, Seq<char>)>)
    ensures
        parse_outcome(p, seq!["--"@] + post, env) matches Outcome::Failed { err, .. } ==> (
        err is MissingRequired || err is NoSubcommand),
{
    let args = seq!["--"@] + post;
    assert(args[0] == "--"@);
    if p.subcommands@.len() == 0 {
        let st0 = Store { flags: crate::semantics::initial_flags(p.flags@), options: seq![] };
        double_dash_rest_is_positional(p, post, st0, seq![], seq![]);
        lemma_fill_fails_missing(p.options@, env, seq![], 0, seq![]);
    }
}

/// Whether `c` means the same inside a cluster of short forms as on its
/// own: the short form of a flag, other than `h`, `-`, `=`, and other than
/// `V` when the parser has a version.
pub open spec fn plain_short_flag(p: ArgParser, c: char) -> bool {
    &&& first_index(p.flags@, flag_short(c)) >= 0
    &&& c != 'h'
    &&& c != '-'
    &&& c != '='
    &&& !(c == 'V' && p.version is Some)
}

/// The tokens `-a`, `-b`, ... for the characters `a`, `b`, ... of `cs`.
pub open spec fn separate_shorts(cs: Seq<char>) -> Seq<Seq<char>> {
    cs.map_values(|c: char| seq!['-', c])
}

proof fn lemma_set_short_flags_some(p: ArgParser, st: Store, cs: Seq<char>)
    requires
        forall|k: int| 0 <= k < cs.len() ==> plain_short_flag(p, #[trigger] cs[k]),
    ensures
        set_short_flags(p, st, cs) is Some,
    decreases cs.len(),
{
    if cs.len() > 0 {
        let k = first_index(p.flags@, flag_short(cs[0]));
        crate::parser::lemma_first_index_from(p.flags@, flag_short(cs[0]), 0);
        assert(plain_short_flag(p, cs[0]));
        assert forall|j: int| 0 <= j < cs.drop_first().len() implies plain_short_flag(
            p,
            #[trigger] cs.drop_first()[j],
        ) by {
            assert(cs.drop_first()[j] == cs[j + 1]);
        }
        lemma_set_short_flags_some(p, set_flag(st, p.flags@[k].long@), cs.drop_first());
    }
}

proof fn lemma_cluster_of_flags(
    p: ArgParser,
    args: Seq<Seq<char>>,
    i: int,
    st: Store,
    after: Seq<char>,
    j: int,
    t: Seq<char>,
)
    requires
        0 <= j <= after.len(),
        forall|k: int| j <= k < after.len() ==> plain_short_flag(p, #[trigger] after[k]),
    ensures
        set_short_flags(p, st, after.skip(j)) is Some,
        cluster_step(p, args, i, st, after, j, t) == (Step::Next {
            store: set_short_flags(p, st, after.skip(j))->0,
            extra: false,
            checks: seq![],
        }),
    decreases after.len() - j,
{
    if j < after.len() {
        let c = after[j];
        assert(plain_short_flag(p, c));
        crate::parser::lemma_first_index_from(p.flags@, flag_short(c), 0);
        crate::parser::lemma_first_index_from(p.flags@, flag_short('h'), 0);
        let fk = first_index(p.flags@, flag_short(c));
        assert(after.skip(j)[0] == c);
        assert(after.skip(j).drop_first() =~= after.skip(j + 1));
        lemma_cluster_of_flags(p, args, i, set_flag(st, p.flags@[fk].long@), after, j + 1, t);
    } else {
        assert(after.skip(j) =~= Seq::<char>::empty());
    }
}

proof fn lemma_separate_shorts_scan(p: ArgParser, cs: Seq<char>, i: int, st: Store, ck: Seq<Check>)
    requires
        0 <= i <= cs.len(),
        forall|k: int| 0 <= k < cs.len() ==> plain_short_flag(p, #[trigger] cs[k]),
    ensures
        set_short_flags(p, st, cs.skip(i)) is Some,
        scan(p, separate_shorts(cs), i, st, ck) == (Scan::Done {
            store: set_short_flags(p, st, cs.skip(i))->0,
            checks: ck,
        }),
    decreases cs.len() - i,
{
    let args = separate_shorts(cs);
    if i < cs.len() {
        let c = cs[i];
        assert(plain_short_flag(p, c));
        let t = args[i];
        assert(t == seq!['-', c]);
        reveal_strlit("--");
        reveal_strlit("--help");
        reveal_strlit("-h");
        reveal_strlit("--version");
        assert(t != "--"@);
        assert(t != "--help"@);
        assert(t != "-h"@);
        assert(t != "--version"@);
        let after = t.skip(1);
        assert(after =~= seq![c]);
        crate::text::lemma_find_from(after, '=', 0);
        crate::parser::lemma_first_index_from(p.flags@, flag_short(c), 0);
        let fk = first_index(p.flags@, flag_short(c));
        let st2 = set_flag(st, p.flags@[fk].long@);
        lemma_cluster_of_flags(p, args, i, st, after, 0, t);
        assert(after.skip(0) =~= after);
        assert(cs.skip(i)[0] == c);
        assert(cs.skip(i).drop_first() =~= cs.skip(i + 1));
        assert(seq![c].drop_first() =~= Seq::<char>::empty());
        assert(set_short_flags(p, st2, Seq::<char>::empty()) == Some(st2));
        assert(set_short_flags(p, st, after) == Some(st2));
        assert(crate::text::find_char(after, '=') == -1);
        assert(single_short_step(p, args, i, st, c, t) == (Step::Next {
            store: st2,
            extra: false,
            checks: seq![],
        }));
        assert(short_step(p, args, i, st, t) == (Step::Next { store: st2, extra: false, checks: seq![] }));
        assert(step(p, args, i, st) == (Step::Next { store: st2, extra: false, checks: seq![] }));
        assert(ck + Seq::<Check>::empty() =~= ck);
        lemma_separate_shorts_scan(p, cs, i + 1, st2, ck);
    } else {
        assert(cs.skip(i) =~= Seq::<char>::empty());
    }
}

/// A cluster of short flags means the same as the flags given one by one:
/// `-abc` sets exactly what `-a -b -c` sets.
pub proof fn short_cluster_is_separate_flags(p: ArgParser, cs: Seq<char>, st: Store, ck: Seq<Check>)
    requires
        cs.len() >= 1,
        forall|k: int| 0 <= k < cs.len() ==> plain_short_flag(p, #[trigger] cs[k]),
    ensures
        scan(p, seq![seq!['-'] + cs], 0, st, ck) == scan(p, separate_shorts(cs), 0, st, ck),
        set_short_flags(p, st, cs) is Some,
        scan(p, seq![seq!['-'] + cs], 0, st, ck) == (Scan::Done {
            store: set_short_flags(p, st, cs)->0,
            checks: ck,
        }),
{
    let t = seq!['-'] + cs;
    let args = seq![t];
    assert(plain_short_flag(p, cs[0]));
    assert(t[1] == cs[0]);
    reveal_strlit("--");
    reveal_strlit("--help");
    reveal_strlit("-h");
    reveal_strlit("--version");
    assert(t != "--"@);
    assert(t != "--help"@);
    assert(t != "-h"@);
    assert(t != "--version"@);
    let after = t.skip(1);
    assert(after =~= cs);
    crate::text::lemma_find_from(after, '=', 0);
    lemma_cluster_of_flags(p, args, 0, st, after, 0, t);
    assert(after.skip(0) =~= cs);
    lemma_separate_shorts_scan(p, cs, 0, st, ck);
    assert(cs.skip(0) =~= cs);
    crate::parser::lemma_first_index_from(p.flags@, flag_short(cs[0]), 0);
    let st2 = set_short_flags(p, st, cs)->0;
    assert(crate::text::find_char(after, '=') == -1);
    if cs.len() == 1 {
        let fk = first_index(p.flags@, flag_short(cs[0]));
        let st1 = set_flag(st, p.flags@[fk].long@);
        assert(cs.drop_first() =~= Seq::<char>::empty());
        assert(set_short_flags(p, st1, Seq::<char>::empty()) == Some(st1));
        assert(st2 == st1);
        assert(cluster_step(p, args, 0, st, after, 0, t) == (Step::Next {
            store: st2,
            extra: false,
            checks: seq![],
        }));
    }
    assert(short_step(p, args, 0, st, t) == (Step::Next { store: st2, extra: false, checks: seq![] }));
    assert(step(p, args, 0, st) == (Step::Next { store: st2, extra: false, checks: seq![] }));
    assert(ck + Seq::<Check>::empty() =~= ck);
    assert(scan(p, args, 1, st2, ck) == (Scan::Done { store: st2, checks: ck }));
}

/// The values an option ends with: its command-line values, else its
/// environment variable's, else its default; without any of them, what it
/// had (nothing).
pub open spec fn resolved_values(
    values: Seq<(Seq<char>, Seq<Seq<char>>)>,
    env: Seq<(Seq<char>, Seq<char>)>,
    opt: OptionDef,
) -> Option<Seq<Seq<char>>> {
    let key = opt.long@;
    if has_values(values, key) {
        crate::result::lookup(values, key)
    } else {
        match env_values(opt, env) {
            Some(vs) => Some(vs),
            None => match opt.default {
                Some(d) => Some(seq![d@]),
                None => crate::result::lookup(values, key),
            },
        }
    }
}

/// Whether no two options share a long name.
pub open spec fn distinct_longs(opts: Seq<OptionDef>) -> bool {
    forall|a: int, b: int| 0 <= a < b < opts.len() ==> opts[a].long@ != opts[b].long@
}

/// Whether option `opt` is required and has neither a command-line value,
/// nor an environment value, nor a default.
pub open spec fn unresolved_required(
    values: Seq<(Seq<char>, Seq<Seq<char>>)>,
    env: Seq<(Seq<char>, Seq<char>)>,
    opt: OptionDef,
) -> bool {
    opt.required && !has_values(values, opt.long@) && env_values(opt, env) is None
        && opt.default is None
}

proof fn lemma_fill_resolves(
    opts: Seq<OptionDef>,
    env: Seq<(Seq<char>, Seq<char>)>,
    orig: Seq<(Seq<char>, Seq<Seq<char>>)>,
    cur: Seq<(Seq<char>, Seq<Seq<char>>)>,
    k: int,
    checks: Seq<Check>,
)
    requires
        0 <= k <= opts.len(),
        distinct_longs(opts),
        forall|j: int| 0 <= j < k ==> crate::result::lookup(cur, #[trigger] opts[j].long@)
            == resolved_values(orig, env, opts[j]),
        forall|j: int| k <= j < opts.len() ==> crate::result::lookup(cur, #[trigger] opts[j].long@)
            == crate::result::lookup(orig, opts[j].long@),
    ensures
        match fill(opts, env, cur, k, checks) {
            Filled::Filled { options, .. } => forall|j: int| 0 <= j < opts.len()
                ==> crate::result::lookup(options, #[trigger] opts[j].long@) == resolved_values(
                orig,
                env,
                opts[j],
            ),
            Filled::Failed { err, .. } => exists|j: int|
                k <= j < opts.len() && err == ErrorV::MissingRequired(opts[j].long@)
                    && #[trigger] unresolved_required(orig, env, opts[j]),
        },
    decreases opts.len() - k,
{
    if k < opts.len() {
        let opt = opts[k];
        let key = opt.long@;
        assert(crate::result::lookup(cur, opts[k].long@) == crate::result::lookup(orig, key));
        assert(has_values(cur, key) == has_values(orig, key));
        let next = if has_values(cur, key) {
            cur
        } else {
            match env_values(opt, env) {
                Some(res) => assign(cur, key, res),
                None => match opt.default {
                    Some(d) => assign(cur, key, seq![d@]),
                    None => cur,
                },
            }
        };
        if !has_values(cur, key) && env_values(opt, env) is None && opt.default is None
            && opt.required {
            assert(unresolved_required(orig, env, opts[k]));
        } else {
            assert forall|j: int| 0 <= j < opts.len() && j != k implies crate::result::lookup(
                next,
                #[trigger] opts[j].long@,
            ) == crate::result::lookup(cur, opts[j].long@) by {
                if !has_values(cur, key) {
                    if j < k {
                        assert(opts[j].long@ != key);
                    } else {
                        assert(opts[k].long@ != opts[j].long@);
                    }
                    match env_values(opt, env) {
                        Some(res) => crate::result::lemma_lookup_assign_other(cur, key, res, opts[j].long@),
                        None => match opt.default {
                            Some(d) => crate::result::lemma_lookup_assign_other(
                                cur,
                                key,
                                seq![d@],
                                opts[j].long@,
                            ),
                            None => {},
                        },
                    }
                }
            }
            if !has_values(cur, key) {
                match env_values(opt, env) {
                    Some(res) => crate::result::lemma_lookup_assign_same(cur, key, res),
                    None => match opt.default {
                        Some(d) => crate::result::lemma_lookup_assign_same(cur, key, seq![d@]),
                        None => {},
                    },
                }
            }
            assert(crate::result::lookup(next, opts[k].long@) == resolved_values(orig, env, opts[k]));
            let next_checks = if has_values(cur, key) {
                checks
            } else {
                match env_values(opt, env) {
                    Some(res) => checks + crate::semantics::checks_each(opt.validator, key, res),
                    None => match opt.default {
                        Some(d) => checks + crate::semantics::checks_for(opt.validator, key, d@),
                        None => checks,
                    },
                }
            };
            assert(fill(opts, env, cur, k, checks) == fill(opts, env, next, k + 1, next_checks));
            lemma_fill_resolves(opts, env, orig, next, k + 1, next_checks);
        }
    }
}

/// Options resolve in the documented order: a command-line value, else the
/// environment variable, else the default; a required option with none of
/// these is the error `MissingRequired`, and no other error arises.
pub proof fn option_resolution_order(
    opts: Seq<OptionDef>,
    env: Seq<(Seq<char>, Seq<char>)>,
    values: Seq<(Seq<char>, Seq<Seq<char>>)>,
    checks: Seq<Check>,
)
    requires
        distinct_longs(opts),
    ensures
        match fill(opts, env, values, 0, checks) {
            Filled::Filled { options, .. } => forall|j: int| 0 <= j < opts.len()
                ==> crate::result::lookup(options, #[trigger] opts[j].long@) == resolved_values(
                values,
                env,
                opts[j],
            ),
            Filled::Failed { err, .. } => exists|j: int|
                0 <= j < opts.len() && err == ErrorV::MissingRequired(opts[j].long@)
                    && #[trigger] unresolved_required(values, env, opts[j]),
        },
{
    lemma_fill_resolves(opts, env, values, values, 0, checks);
}

/// The error of the first check, from `k` on, whose value its validator
/// rejects when it looks at the value alone.
pub open spec fn first_failure_from(checks: Seq<Check>, k: int) -> Option<ErrorV>
    decreases checks.len() - k,
{
    if k < 0 || k >= checks.len() {
        None
    } else {
        match checks[k].validator.outcome(checks[k].value, false) {
            Some(m) => Some(ErrorV::ValidationFailed { name: checks[k].name, message: m }),
            None => first_failure_from(checks, k + 1),
        }
    }
}

proof fn lemma_pure_check(c: Check)
    requires
        c.validator.is_pure(),
    ensures
        may_pass(c) <==> c.validator.outcome(c.value, false) is None,
        forall|m: Seq<char>| may_fail_with(c, m) <==> c.validator.outcome(c.value, false) == Some(m),
{
    assert forall|b: bool| #[trigger] c.validator.outcome(c.value, b) == c.validator.outcome(
        c.value,
        false,
    ) by {}
    if c.validator.outcome(c.value, false) is None {
        assert(may_pass(c));
    }
    assert forall|m: Seq<char>| c.validator.outcome(c.value, false) == Some(m) implies may_fail_with(
        c,
        m,
    ) by {
        assert(c.validator.outcome(c.value, false) == Some(m));
    }
}

#[verifier::spinoff_prover]
#[verifier::rlimit(30)]
proof fn lemma_first_failure_from(checks: Seq<Check>, k: int, e: ErrorV)
    requires
        0 <= k <= checks.len(),
        forall|j: int| 0 <= j < checks.len() ==> (#[trigger] checks[j]).validator.is_pure(),
    ensures
        first_failure_from(checks, k) is None <==> forall|j: int| k <= j < checks.len() ==> may_pass(
            #[trigger] checks[j],
        ),
        first_failure_from(checks, k) == Some(e) <==> exists|j: int|
            k <= j < checks.len() && (forall|i: int| k <= i < j ==> may_pass(#[trigger] checks[i]))
                && rejects(#[trigger] checks[j], e),
    decreases checks.len() - k,
{
    if k < checks.len() {
        lemma_pure_check(checks[k]);
        lemma_first_failure_from(checks, k + 1, e);
        match checks[k].validator.outcome(checks[k].value, false) {
            Some(m) => {
                assert(!may_pass(checks[k]));
                if first_failure_from(checks, k) == Some(e) {
                    assert(rejects(checks[k], e));
                }
                if exists|j: int|
                    k <= j < checks.len() && (forall|i: int| k <= i < j ==> may_pass(#[trigger] checks[i]))
                        && rejects(#[trigger] checks[j], e) {
                    let j = choose|j: int|
                        k <= j < checks.len() && (forall|i: int| k <= i < j ==> may_pass(#[trigger] checks[i]))
                            && rejects(#[trigger] checks[j], e);
                    if j > k {
                        assert(may_pass(checks[k]));
                    }
                }
            },
            None => {
                assert(may_pass(checks[k]));
                assert((forall|j: int| k <= j < checks.len() ==> may_pass(#[trigger] checks[j]))
                    <==> (forall|j: int| k + 1 <= j < checks.len() ==> may_pass(#[trigger] checks[j])));
                if exists|j: int|
                    k <= j < checks.len() && (forall|i: int| k <= i < j ==> may_pass(#[trigger] checks[i]))
                        && rejects(#[trigger] checks[j], e) {
                    let j = choose|j: int|
                        k <= j < checks.len() && (forall|i: int| k <= i < j ==> may_pass(#[trigger] checks[i]))
                            && rejects(#[trigger] checks[j], e);
                    lemma_pure_check(checks[j]);
                    assert(j != k);
                    assert(forall|i: int| k + 1 <= i < j ==> may_pass(#[trigger] checks[i]));
                }
                if first_failure_from(checks, k + 1) == Some(e) {
                    let j = choose|j: int|
                        k + 1 <= j < checks.len() && (forall|i: int| k + 1 <= i < j ==> may_pass(
                            #[trigger] checks[i],
                        )) && rejects(#[trigger] checks[j], e);
                    assert(forall|i: int| k <= i < j ==> may_pass(#[trigger] checks[i]));
                }
            },
        }
    }
}

/// When every validator looks at the value alone, validation is decided:
/// the parse passes validation exactly when every checked value passes,
/// and otherwise fails with the error of the first value that does not.
pub proof fn pure_validation_is_decided(checks: Seq<Check>, e: ErrorV)
    requires
        forall|j: int| 0 <= j < checks.len() ==> (#[trigger] checks[j]).validator.is_pure(),
    ensures
        settles(checks, None) <==> first_failure_from(checks, 0) is None,
        settles(checks, Some(e)) <==> first_failure_from(checks, 0) == Some(e),
{
    lemma_first_failure_from(checks, 0, e);
}

proof fn lemma_encode_concat(a: Seq<char>, b: Seq<char>)
    ensures
        vstd::utf8::encode_utf8(a + b) == vstd::utf8::encode_utf8(a) + vstd::utf8::encode_utf8(b),
    decreases a.len(),
{
    if a.len() == 0 {
        assert(a + b =~= b);
        assert(vstd::utf8::encode_utf8(a) =~= Seq::<u8>::empty());
        assert(vstd::utf8::encode_utf8(a) + vstd::utf8::encode_utf8(b) =~= vstd::utf8::encode_utf8(b));
    } else {
        assert((a + b)[0] == a[0]);
        assert((a + b).drop_first() =~= a.drop_first() + b);
        lemma_encode_concat(a.drop_first(), b);
        assert(vstd::utf8::encode_utf8(a + b) =~= vstd::utf8::encode_utf8(a) + vstd::utf8::encode_utf8(
            b,
        ));
    }
}

proof fn lemma_one_space()
    ensures
        vstd::utf8::encode_utf8(seq![' ']).len() == 1,
{
    let s = seq![' '];
    assert(s.drop_first() =~= Seq::<char>::empty());
    assert(vstd::utf8::encode_utf8(Seq::<char>::empty()) =~= Seq::<u8>::empty());
    assert((' ' as u32) == 32);
    assert(vstd::utf8::has_width_1_encoding(32));
    assert(vstd::utf8::encode_scalar(32).len() == 1);
    assert(vstd::utf8::encode_utf8(s) == vstd::utf8::encode_scalar(s[0] as u32) + vstd::utf8::encode_utf8(
        s.drop_first(),
    ));
}

proof fn lemma_spaces_width(n: nat)
    ensures
        vstd::utf8::encode_utf8(crate::text::spaces(n)).len() == n,
    decreases n,
{
    if n > 0 {
        lemma_spaces_width((n - 1) as nat);
        lemma_encode_concat(crate::text::spaces((n - 1) as nat), seq![' ']);
        lemma_one_space();
    }
}

proof fn lemma_max_width_bound(es: Seq<Entry>, k: int)
    requires
        0 <= k < es.len(),
    ensures
        crate::text::utf8_width(es[k].0) <= max_width(es),
    decreases es.len(),
{
    if k < es.len() - 1 {
        lemma_max_width_bound(es.drop_last(), k);
    }
}

/// The help line of entry `e` when labels are padded to `width`.
pub open spec fn help_line(e: Entry, width: nat) -> Seq<char> {
    "  "@ + e.0 + crate::text::spaces((width - crate::text::utf8_width(e.0)) as nat) + "  "@ + e.1
        + "\n"@
}

/// The part of a help line before its description.
pub open spec fn line_lead(e: Entry, width: nat) -> Seq<char> {
    "  "@ + e.0 + crate::text::spaces((width - crate::text::utf8_width(e.0)) as nat) + "  "@
}

/// Descriptions in a help section line up: a section is one line per entry,
/// and in every line the description starts at the same byte column, two
/// past the widest label plus the two spaces of indent.
pub proof fn help_columns_align(es: Seq<Entry>, k: int)
    requires
        0 <= k < es.len(),
        forall|j: int|
            0 <= j < es.len() ==> vstd::utf8::encode_utf8((#[trigger] es[j]).0).len() <= usize::MAX,
    ensures
        section_lines(es, max_width(es)) == section_lines(es.take(k), max_width(es)) + help_line(
            es[k],
            max_width(es),
        ) + section_lines(es.skip(k + 1), max_width(es)),
        help_line(es[k], max_width(es)) == line_lead(es[k], max_width(es)) + es[k].1 + "\n"@,
        vstd::utf8::encode_utf8(line_lead(es[k], max_width(es))).len() == max_width(es) + 4,
{
    let w = max_width(es);
    let e = es[k];
    lemma_max_width_bound(es, k);
    let lw = crate::text::utf8_width(e.0);
    assert(es[k] == e);
    assert(lw == vstd::utf8::encode_utf8(e.0).len());
    let pad = crate::text::spaces((w - lw) as nat);
    lemma_spaces_width((w - lw) as nat);
    reveal_strlit("  ");
    assert(vstd::utf8::encode_utf8("  "@).len() == 2) by {
        assert("  "@ =~= seq![' '] + seq![' ']);
        lemma_encode_concat(seq![' '], seq![' ']);
        lemma_one_space();
    }
    lemma_encode_concat("  "@, e.0);
    lemma_encode_concat("  "@ + e.0, pad);
    lemma_encode_concat("  "@ + e.0 + pad, "  "@);
    lemma_section_split(es, w, k);
}

proof fn lemma_section_lines_concat(a: Seq<Entry>, b: Seq<Entry>, w: nat)
    ensures
        section_lines(a + b, w) == section_lines(a, w) + section_lines(b, w),
    decreases b.len(),
{
    if b.len() == 0 {
        assert(a + b =~= a);
    } else {
        assert((a + b).drop_last() =~= a + b.drop_last());
        assert((a + b).last() == b.last());
        lemma_section_lines_concat(a, b.drop_last(), w);
    }
}

proof fn lemma_section_split(es: Seq<Entry>, w: nat, k: int)
    requires
        0 <= k < es.len(),
    ensures
        section_lines(es, w) == section_lines(es.take(k), w) + help_line(es[k], w) + section_lines(
            es.skip(k + 1),
            w,
        ),
{
    assert(es =~= es.take(k) + seq![es[k]] + es.skip(k + 1));
    lemma_section_lines_concat(es.take(k) + seq![es[k]], es.skip(k + 1), w);
    lemma_section_lines_concat(es.take(k), seq![es[k]], w);
    assert(seq![es[k]].drop_last() =~= Seq::<Entry>::empty());
    assert(section_lines(Seq::<Entry>::empty(), w) == Seq::<char>::empty());
    assert(section_lines(seq![es[k]], w) =~= help_line(es[k], w));
}

proof fn lemma_repeat_range<A>(s: Seq<A>, j: int)
    requires
        0 <= j,
    ensures
        crate::builders::first_repeat_from(s, j) == -1 || crate::builders::first_repeat_from(s, j)
            >= j,
    decreases s.len() - j,
{
    if j < s.len() && !s.take(j).contains(s[j]) {
        lemma_repeat_range(s, j + 1);
    }
}

proof fn lemma_no_repeat<A>(s: Seq<A>, j: int)
    requires
        0 <= j,
        crate::builders::first_repeat_from(s, j) == -1,
    ensures
        forall|a: int, b: int| 0 <= a < b < s.len() && j <= b ==> s[a] != s[b],
    decreases s.len() - j,
{
    if j < s.len() {
        assert(!s.take(j).contains(s[j]));
        assert forall|a: int| 0 <= a < j implies s[a] != s[j] by {
            assert(s.take(j)[a] == s[a]);
        }
        lemma_no_repeat(s, j + 1);
    }
}

/// A schema that `build` accepts gives every flag and option its own long
/// name and every short form to one argument only; so the resolution order
/// of [`option_resolution_order`] holds for every parser that `build` gives.
pub proof fn accepted_schema_has_distinct_names(
    version: Option<String>,
    flags: Seq<FlagDef>,
    options: Seq<OptionDef>,
    positionals: Seq<crate::types::PositionalDef>,
)
    requires
        crate::builders::schema_error(version, flags, options, positionals) is None,
    ensures
        distinct_longs(options),
        forall|a: int, b: int| 0 <= a < b < flags.len() ==> flags[a].long@ != flags[b].long@,
        forall|a: int, b: int| 0 <= a < flags.len() && 0 <= b < options.len() ==> flags[a].long@
            != options[b].long@,
        forall|a: int, b: int|
            0 <= a < b < crate::builders::all_shorts(flags, options).len()
                ==> crate::builders::all_shorts(flags, options)[a]
                != crate::builders::all_shorts(flags, options)[b],
{
    let longs = crate::builders::all_longs(flags, options);
    let shorts = crate::builders::all_shorts(flags, options);
    lemma_repeat_range(longs, 0);
    lemma_repeat_range(shorts, 0);
    lemma_no_repeat(longs, 0);
    lemma_no_repeat(shorts, 0);
    let n = flags.len() as int;
    assert forall|a: int, b: int| 0 <= a < b < options.len() implies options[a].long@
        != options[b].long@ by {
        assert(longs[n + a] == options[a].long@);
        assert(longs[n + b] == options[b].long@);
    }
    assert forall|a: int, b: int| 0 <= a < b < flags.len() implies flags[a].long@
        != flags[b].long@ by {
        assert(longs[a] == flags[a].long@);
        assert(longs[b] == flags[b].long@);
    }
    assert forall|a: int, b: int| 0 <= a < flags.len() && 0 <= b < options.len() implies flags[a].long@
        != options[b].long@ by {
        assert(longs[a] == flags[a].long@);
        assert(longs[n + b] == options[b].long@);
    }
}

/// A leading `--help` or `-h` is answered with the parser's help text, and
/// a leading `--version` with its version text (or, without a version, as an
/// unknown argument), whatever follows.
pub proof fn leading_request_answer(p: ArgParser, rest: Seq<Seq<char>>, env: Seq<(Seq<char>, Seq<char>)>)
    ensures
        parse_outcome(p, seq!["--help"@] + rest, env) == (Outcome::Failed {
            err: ErrorV::HelpRequested(help_of(p)),
            checks: seq![],
        }),
        parse_outcome(p, seq!["-h"@] + rest, env) == (Outcome::Failed {
            err: ErrorV::HelpRequested(help_of(p)),
            checks: seq![],
        }),
        parse_outcome(p, seq!["--version"@] + rest, env) == (Outcome::Failed {
            err: match crate::parser::version_text_of(p) {
                Some(v) => ErrorV::VersionRequested(v),
                None => ErrorV::UnknownArgument("--version"@),
            },
            checks: seq![],
        }),
{
    reveal_strlit("--");
    reveal_strlit("--help");
    reveal_strlit("-h");
    reveal_strlit("--version");
    assert("--help"@ != "--"@);
    assert("-h"@ != "--"@);
    assert("--version"@ != "--"@);
    assert("--version"@ != "--help"@);
    assert("--version"@ != "-h"@);
    assert(Seq::<Check>::empty() + Seq::<Check>::empty() =~= Seq::<Check>::empty());
    let a1 = seq!["--help"@] + rest;
    let a2 = seq!["-h"@] + rest;
    let a3 = seq!["--version"@] + rest;
    assert(a1[0] == "--help"@);
    assert(a2[0] == "-h"@);
    assert(a3[0] == "--version"@);
}

/// A value set for a flag is the value read back for it.
pub proof fn flag_read_back(m: ResultModel, name: Seq<char>, value: bool)
    ensures
        (ResultModel { flags: assign(m.flags, name, value), ..m }).flag(name) == value,
{
    lemma_lookup_assign_same(m.flags, name, value);
}

/// A value set for an option is the value read back for it, and its only value.
pub proof fn option_read_back(m: ResultModel, name: Seq<char>, value: Seq<char>)
    ensures
        (ResultModel { options: assign(m.options, name, seq![value]), ..m }).option(name) == Some(
            value,
        ),
        values_of(assign(m.options, name, seq![value]), name) == seq![value],
{
    lemma_lookup_assign_same(m.options, name, seq![value]);
}

/// A value added to a multi-value option comes after the earlier ones, and
/// is the one that `get_option` reads.
pub proof fn multi_option_read_back(m: ResultModel, name: Seq<char>, value: Seq<char>)
    ensures
        values_of(assign(m.options, name, values_of(m.options, name).push(value)), name)
            == values_of(m.options, name).push(value),
        (ResultModel {
            options: assign(m.options, name, values_of(m.options, name).push(value)),
            ..m
        }).option(name) == Some(value),
{
    lemma_lookup_assign_same(m.options, name, values_of(m.options, name).push(value));
}

/// `get_option` reads the last of the values that `get_option_values` reads,
/// and nothing when there are none.
pub proof fn option_is_last_value(m: ResultModel, name: Seq<char>)
    ensures
        m.option(name) == (if values_of(m.options, name).len() > 0 {
            Some(values_of(m.options, name).last())
        } else {
            None
        }),
{
}

/// Every flag and option name set on a builder may be asked of the result
/// that it builds.
pub proof fn built_names_are_known(m: ResultModel, flag: Seq<char>, fv: bool, option: Seq<char>, ov: Seq<Seq<char>>)
    ensures
        (ResultModel {
            known_flags: keys_of(assign(m.flags, flag, fv)),
            known_options: keys_of(m.options),
            ..m
        }).flag_name_known(flag),
        (ResultModel {
            known_flags: keys_of(m.flags),
            known_options: keys_of(assign(m.options, option, ov)),
            ..m
        }).option_name_known(option),
{
    lemma_keys_of_assign(m.flags, flag, fv);
    lemma_keys_of_assign(m.options, option, ov);
}

/// Every shell's name reads back as that shell.
pub proof fn shell_name_round_trip(s: Shell)
    ensures
        shell_named(shell_name(s)) == Some(s),
{
    reveal_strlit("bash");
    reveal_strlit("zsh");
    reveal_strlit("fish");
    reveal_strlit("powershell");
    reveal_strlit("pwsh");
    match s {
        Shell::Bash => {},
        Shell::Zsh => {
            assert("zsh"@.len() != "bash"@.len());
        },
        Shell::Fish => {
            assert("fish"@[0] != "bash"@[0]);
            assert("fish"@.len() != "zsh"@.len());
        },
        Shell::PowerShell => {
            assert("powershell"@.len() != "bash"@.len());
            assert("powershell"@.len() != "zsh"@.len());
            assert("powershell"@.len() != "fish"@.len());
        },
    }
}

/// The entries of the Options section of `p`'s help: its visible flags,
/// then its visible options.
pub open spec fn visible_entries(p: ArgParser) -> Seq<Entry> {
    flag_entries(p.flags@) + option_entries(p.options@)
}

/// Whether some flag or option of `p` is not hidden.
pub open spec fn shows_options(p: ArgParser) -> bool {
    ||| exists|k: int| 0 <= k < p.flags@.len() && !(#[trigger] p.flags@[k]).hidden
    ||| exists|k: int| 0 <= k < p.options@.len() && !(#[trigger] p.options@[k]).hidden
}

proof fn lemma_flag_entry_at(fs: Seq<FlagDef>, k: int) -> (j: int)
    requires
        0 <= k < fs.len(),
        !fs[k].hidden,
    ensures
        0 <= j < flag_entries(fs).len(),
        flag_entries(fs)[j] == (flag_label(fs[k]), fs[k].description@),
    decreases fs.len(),
{
    if k == fs.len() - 1 {
        flag_entries(fs.drop_last()).len() as int
    } else {
        assert(fs.drop_last()[k] == fs[k]);
        lemma_flag_entry_at(fs.drop_last(), k)
    }
}

proof fn lemma_option_entry_at(os: Seq<OptionDef>, k: int) -> (j: int)
    requires
        0 <= k < os.len(),
        !os[k].hidden,
    ensures
        0 <= j < option_entries(os).len(),
        option_entries(os)[j] == (option_label(os[k]), option_description(os[k])),
    decreases os.len(),
{
    if k == os.len() - 1 {
        option_entries(os.drop_last()).len() as int
    } else {
        assert(os.drop_last()[k] == os[k]);
        lemma_option_entry_at(os.drop_last(), k)
    }
}

proof fn lemma_no_flag_entries(fs: Seq<FlagDef>)
    requires
        forall|k: int| 0 <= k < fs.len() ==> (#[trigger] fs[k]).hidden,
    ensures
        flag_entries(fs).len() == 0,
    decreases fs.len(),
{
    if fs.len() > 0 {
        assert(fs.last() == fs[fs.len() - 1]);
        assert forall|k: int| 0 <= k < fs.drop_last().len() implies (#[trigger] fs.drop_last()[k]).hidden by {
            assert(fs.drop_last()[k] == fs[k]);
        }
        lemma_no_flag_entries(fs.drop_last());
    }
}

proof fn lemma_no_option_entries(os: Seq<OptionDef>)
    requires
        forall|k: int| 0 <= k < os.len() ==> (#[trigger] os[k]).hidden,
    ensures
        option_entries(os).len() == 0,
    decreases os.len(),
{
    if os.len() > 0 {
        assert(os.last() == os[os.len() - 1]);
        assert forall|k: int| 0 <= k < os.drop_last().len() implies (#[trigger] os.drop_last()[k]).hidden by {
            assert(os.drop_last()[k] == os[k]);
        }
        lemma_no_option_entries(os.drop_last());
    }
}

/// The help text of a parser with a visible flag or option: its usage line
/// with `[OPTIONS]`, then the Options section.
proof fn lemma_help_with_options(p: ArgParser)
    requires
        visible_entries(p).len() > 0,
    ensures
        help_of(p) == help_preamble(p) + "Usage:"@ + " "@ + program_label(p) + " [OPTIONS]"@
            + usage_target(p) + "\n"@ + ("\n"@ + "Options:"@ + "\n"@ + section_lines(
            visible_entries(p),
            max_width(visible_entries(p)),
        )) + later_sections(p),
{
}

/// The line of entry `j` of the Options section stands in the help text.
#[verifier::spinoff_prover]
#[verifier::rlimit(30)]
proof fn lemma_visible_line(p: ArgParser, j: int)
    requires
        0 <= j < visible_entries(p).len(),
    ensures
        exists|a: Seq<char>, b: Seq<char>|
            help_of(p) == a + help_line(visible_entries(p)[j], max_width(visible_entries(p))) + b,
{
    let es = visible_entries(p);
    let w = max_width(es);
    lemma_section_split(es, w, j);
    lemma_help_with_options(p);
    let head = help_preamble(p) + "Usage:"@ + " "@ + program_label(p) + " [OPTIONS]"@ + usage_target(p)
        + "\n"@;
    let a = head + ("\n"@ + "Options:"@ + "\n"@) + section_lines(es.take(j), w);
    let line = help_line(es[j], w);
    let b = section_lines(es.skip(j + 1), w) + later_sections(p);
    assert(help_of(p) =~= a + line + b);
}

/// The help text shows the `[OPTIONS]` mark on its usage line and an
/// `Options:` section exactly when some flag or option is not hidden: with
/// no visible flag or option, [`visible_entries`] is empty, and the help
/// text has neither.
pub proof fn options_section_iff_visible(p: ArgParser)
    ensures
        shows_options(p) <==> visible_entries(p).len() > 0,
        shows_options(p) ==> help_of(p) == help_preamble(p) + "Usage:"@ + " "@ + program_label(p)
            + " [OPTIONS]"@ + usage_target(p) + "\n"@ + ("\n"@ + "Options:"@ + "\n"@ + section_lines(
            visible_entries(p),
            max_width(visible_entries(p)),
        )) + later_sections(p),
        !shows_options(p) ==> help_of(p) == help_preamble(p) + "Usage:"@ + " "@ + program_label(p)
            + usage_target(p) + "\n"@ + later_sections(p),
{
    if shows_options(p) {
        if exists|k: int| 0 <= k < p.flags@.len() && !(#[trigger] p.flags@[k]).hidden {
            let k = choose|k: int| 0 <= k < p.flags@.len() && !(#[trigger] p.flags@[k]).hidden;
            lemma_flag_entry_at(p.flags@, k);
        } else {
            let k = choose|k: int| 0 <= k < p.options@.len() && !(#[trigger] p.options@[k]).hidden;
            lemma_option_entry_at(p.options@, k);
        }
        lemma_help_with_options(p);
    } else {
        lemma_no_flag_entries(p.flags@);
        lemma_no_option_entries(p.options@);
        let head = help_preamble(p) + "Usage:"@ + " "@ + program_label(p);
        assert(help_of(p) =~= head + usage_target(p) + "\n"@ + later_sections(p));
    }
}

/// Every flag that is not hidden is listed in the help text, on its own
/// line of the Options section: its label (`-c, --long` or `    --long`)
/// padded to the section's width, then its description.
pub proof fn visible_flag_is_listed(p: ArgParser, k: int)
    requires
        0 <= k < p.flags@.len(),
        !p.flags@[k].hidden,
    ensures
        exists|a: Seq<char>, b: Seq<char>|
            help_of(p) == a + help_line(
                (flag_label(p.flags@[k]), p.flags@[k].description@),
                max_width(visible_entries(p)),
            ) + b,
{
    let j = lemma_flag_entry_at(p.flags@, k);
    assert(visible_entries(p)[j] == flag_entries(p.flags@)[j]);
    lemma_visible_line(p, j);
}

/// Every option that is not hidden is listed in the help text, on its own
/// line of the Options section: its label (with `<PLACEHOLDER>`) padded to
/// the section's width, then its description with the marks for required,
/// multiple, default, environment variable and validator hint.
pub proof fn visible_option_is_listed(p: ArgParser, k: int)
    requires
        0 <= k < p.options@.len(),
        !p.options@[k].hidden,
    ensures
        exists|a: Seq<char>, b: Seq<char>|
            help_of(p) == a + help_line(
                (option_label(p.options@[k]), option_description(p.options@[k])),
                max_width(visible_entries(p)),
            ) + b,
{
    let j = lemma_option_entry_at(p.options@, k);
    let fe = flag_entries(p.flags@);
    assert(visible_entries(p)[fe.len() + j] == option_entries(p.options@)[j]);
    lemma_visible_line(p, fe.len() + j);
}

/// The line of entry `j` of the last section of the help text stands in it.
#[verifier::spinoff_prover]
#[verifier::rlimit(30)]
proof fn lemma_later_line(p: ArgParser, header: Seq<char>, es: Seq<Entry>, j: int)
    requires
        0 <= j < es.len(),
        later_sections(p) == crate::help::section(header, es),
    ensures
        exists|a: Seq<char>, b: Seq<char>| help_of(p) == a + help_line(es[j], max_width(es)) + b,
{
    let w = max_width(es);
    lemma_section_split(es, w, j);
    let visible = visible_entries(p);
    let head = help_preamble(p) + "Usage:"@ + " "@ + program_label(p) + (if visible.len() > 0 {
        " [OPTIONS]"@
    } else {
        seq![]
    }) + usage_target(p) + "\n"@ + crate::help::section("Options:"@, visible);
    assert(help_of(p) == head + later_sections(p));
    let a = head + ("\n"@ + header + "\n"@) + section_lines(es.take(j), w);
    let b = section_lines(es.skip(j + 1), w);
    assert(help_of(p) =~= a + help_line(es[j], w) + b);
}

/// Without subcommands, every positional is listed in the help text under
/// `Positional arguments:`, on its own line: its name (with `...` when it
/// takes several values) padded to the section's width, then its
/// description with the marks for required, default and validator hint.
pub proof fn positional_is_listed(p: ArgParser, k: int)
    requires
        p.subcommands@.len() == 0,
        0 <= k < p.positionals@.len(),
    ensures
        exists|a: Seq<char>, b: Seq<char>|
            help_of(p) == a + help_line(
                (crate::help::positional_label(p.positionals@[k]), crate::help::positional_description(
                    p.positionals@[k],
                )),
                max_width(crate::help::positional_entries(p.positionals@)),
            ) + b,
{
    let es = crate::help::positional_entries(p.positionals@);
    assert(es[k] == (crate::help::positional_label(p.positionals@[k]), crate::help::positional_description(
        p.positionals@[k],
    )));
    lemma_later_line(p, "Positional arguments:"@, es, k);
}

/// With subcommands, every subcommand is listed in the help text under
/// `Subcommands:`, on its own line: its name padded to the section's width,
/// then its description.
pub proof fn subcommand_is_listed(p: ArgParser, k: int)
    requires
        0 <= k < p.subcommands@.len(),
    ensures
        exists|a: Seq<char>, b: Seq<char>|
            help_of(p) == a + help_line(
                (p.subcommands@[k].name@, p.subcommands@[k].description@),
                max_width(crate::help::subcommand_entries(p.subcommands@)),
            ) + b,
{
    let es = crate::help::subcommand_entries(p.subcommands@);
    assert(es[k] == (p.subcommands@[k].name@, p.subcommands@[k].description@));
    lemma_later_line(p, "Subcommands:"@, es, k);
}

/// Whether a flag shows in help.
pub open spec fn flag_is_shown() -> spec_fn(FlagDef) -> bool {
    |f: FlagDef| !f.hidden
}

/// Whether an option shows in help.
pub open spec fn option_is_shown() -> spec_fn(OptionDef) -> bool {
    |o: OptionDef| !o.hidden
}

/// The help entry of a flag: its label and description.
pub open spec fn flag_entry() -> spec_fn(FlagDef) -> Entry {
    |f: FlagDef| (flag_label(f), f.description@)
}

/// The help entry of an option: its label and its description with marks.
pub open spec fn option_entry() -> spec_fn(OptionDef) -> Entry {
    |o: OptionDef| (option_label(o), option_description(o))
}

/// The flags of `p` that are not hidden, in order.
pub open spec fn shown_flags(p: ArgParser) -> Seq<FlagDef> {
    p.flags@.filter(flag_is_shown())
}

/// The options of `p` that are not hidden, in order.
pub open spec fn shown_options(p: ArgParser) -> Seq<OptionDef> {
    p.options@.filter(option_is_shown())
}

proof fn lemma_flag_entries_filter(fs: Seq<FlagDef>)
    ensures
        flag_entries(fs) == fs.filter(flag_is_shown()).map_values(flag_entry()),
    decreases fs.len(),
{
    if fs.len() > 0 {
        lemma_flag_entries_filter(fs.drop_last());
        let g = flag_entry();
        let sub = fs.drop_last().filter(flag_is_shown());
        reveal(Seq::filter);
        assert(fs.filter(flag_is_shown()) == if flag_is_shown()(fs.last()) {
            sub.push(fs.last())
        } else {
            sub
        });
        if !fs.last().hidden {
            assert(sub.push(fs.last()).map_values(g) =~= sub.map_values(g).push(g(fs.last())));
            assert(flag_entries(fs) =~= sub.map_values(g).push(g(fs.last())));
        } else {
            assert(flag_entries(fs) =~= sub.map_values(g));
        }
    } else {
        reveal(Seq::filter);
        assert(fs.filter(flag_is_shown()).map_values(flag_entry()) =~= Seq::<Entry>::empty());
    }
}

proof fn lemma_option_entries_filter(os: Seq<OptionDef>)
    ensures
        option_entries(os) == os.filter(option_is_shown()).map_values(option_entry()),
    decreases os.len(),
{
    if os.len() > 0 {
        lemma_option_entries_filter(os.drop_last());
        let g = option_entry();
        let sub = os.drop_last().filter(option_is_shown());
        reveal(Seq::filter);
        assert(os.filter(option_is_shown()) == if option_is_shown()(os.last()) {
            sub.push(os.last())
        } else {
            sub
        });
        if !os.last().hidden {
            assert(sub.push(os.last()).map_values(g) =~= sub.map_values(g).push(g(os.last())));
            assert(option_entries(os) =~= sub.map_values(g).push(g(os.last())));
        } else {
            assert(option_entries(os) =~= sub.map_values(g));
        }
    } else {
        reveal(Seq::filter);
        assert(os.filter(option_is_shown()).map_values(option_entry()) =~= Seq::<Entry>::empty());
    }
}

/// The Options section of the help text lists exactly the flags and then the
/// options that are not hidden, in the order they were defined: a flag by
/// its label (`-c, --long` or `    --long`) and description, an option by
/// its label (with ` <PLACEHOLDER>`) and its description with its marks. A
/// hidden flag or option has no entry.
pub proof fn options_section_lists_shown(p: ArgParser)
    ensures
        visible_entries(p) == shown_flags(p).map_values(flag_entry()) + shown_options(p).map_values(
            option_entry(),
        ),
        forall|k: int| 0 <= k < p.flags@.len() && (#[trigger] p.flags@[k]).hidden ==> !shown_flags(p).contains(p.flags@[k]),
        forall|k: int| 0 <= k < p.options@.len() && (#[trigger] p.options@[k]).hidden ==> !shown_options(p).contains(p.options@[k]),
{
    lemma_flag_entries_filter(p.flags@);
    lemma_option_entries_filter(p.options@);
    assert forall|k: int| 0 <= k < p.flags@.len() && (#[trigger] p.flags@[k]).hidden implies !shown_flags(p).contains(p.flags@[k]) by {
        if shown_flags(p).contains(p.flags@[k]) {
            let i = choose|i: int| 0 <= i < shown_flags(p).len() && shown_flags(p)[i] == p.flags@[k];
            p.flags@.lemma_filter_pred(flag_is_shown(), i);
        }
    }
    assert forall|k: int| 0 <= k < p.options@.len() && (#[trigger] p.options@[k]).hidden implies !shown_options(p).contains(p.options@[k]) by {
        if shown_options(p).contains(p.options@[k]) {
            let i = choose|i: int| 0 <= i < shown_options(p).len() && shown_options(p)[i] == p.options@[k];
            p.options@.lemma_filter_pred(option_is_shown(), i);
        }
    }
}

/// The label of a flag or option names it as `--long`, after `-c, ` for its
/// short form or four spaces without one; an option's label then shows its
/// placeholder as ` <PLACEHOLDER>`. Its description carries ` (required)`
/// exactly when it is required, ` (multiple)` when it takes several values,
/// ` [default: d]` for a default `d`, ` [env: E]` for an environment variable
/// `E`, then the validator's hint. A positional's description carries
/// ` (required)`, ` [default: d]` and the hint in the same way.
pub proof fn help_entry_contents(f: FlagDef, o: OptionDef, q: crate::types::PositionalDef)
    ensures
        flag_label(f) == (match f.short {
            Some(c) => "-"@ + seq![c] + ", "@,
            None => "    "@,
        }) + "--"@ + f.long@,
        option_label(o) == (match o.short {
            Some(c) => "-"@ + seq![c] + ", "@,
            None => "    "@,
        }) + "--"@ + o.long@ + " "@ + "<"@ + o.placeholder@ + ">"@,
        option_description(o) == o.description@ + (if o.required {
            " "@ + "(required)"@
        } else {
            seq![]
        }) + (if o.multi {
            " "@ + "(multiple)"@
        } else {
            seq![]
        }) + (match o.default {
            Some(d) => " "@ + "[default: "@ + d@ + "]"@,
            None => seq![],
        }) + (match o.env_var {
            Some(e) => " "@ + "[env: "@ + e@ + "]"@,
            None => seq![],
        }) + crate::help::hint_suffix(o.validator),
        crate::help::positional_description(q) == q.description@ + (if q.required {
            " "@ + "(required)"@
        } else {
            seq![]
        }) + (match q.default {
            Some(d) => " "@ + "[default: "@ + d@ + "]"@,
            None => seq![],
        }) + crate::help::hint_suffix(q.validator),
        crate::help::positional_label(q) == q.name@ + (if q.multi {
            "..."@
        } else {
            seq![]
        }),
{
    match f.short {
        Some(c) => {
            assert(flag_label(f) =~= "-"@ + seq![c] + ", "@ + "--"@ + f.long@);
        },
        None => {
            assert(flag_label(f) =~= "    "@ + "--"@ + f.long@);
        },
    }
    match o.short {
        Some(c) => {
            assert(option_label(o) =~= "-"@ + seq![c] + ", "@ + "--"@ + o.long@ + " "@ + "<"@ + o.placeholder@ + ">"@);
        },
        None => {
            assert(option_label(o) =~= "    "@ + "--"@ + o.long@ + " "@ + "<"@ + o.placeholder@ + ">"@);
        },
    }
}

/// One positional's part of the usage line: ` <name>` when it is required,
/// ` [name]` otherwise, then `...` when it takes several values.
pub open spec fn usage_piece(q: crate::types::PositionalDef) -> Seq<char> {
    (if q.required {
        " "@ + "<"@ + q.name@ + ">"@
    } else {
        " "@ + "["@ + q.name@ + "]"@
    }) + (if q.multi {
        "..."@
    } else {
        seq![]
    })
}

proof fn lemma_positional_usage(ps: Seq<crate::types::PositionalDef>)
    ensures
        crate::help::positional_usage(ps) == concat_map(ps, |q: crate::types::PositionalDef| usage_piece(q)),
    decreases ps.len(),
{
    if ps.len() > 0 {
        lemma_positional_usage(ps.drop_last());
        let q = ps.last();
        if q.required {
            if q.multi {
                assert(usage_piece(q) =~= " "@ + "<"@ + q.name@ + ">"@ + "..."@);
            } else {
                assert(usage_piece(q) =~= " "@ + "<"@ + q.name@ + ">"@ + seq![]);
            }
        } else {
            if q.multi {
                assert(usage_piece(q) =~= " "@ + "["@ + q.name@ + "]"@ + "..."@);
            } else {
                assert(usage_piece(q) =~= " "@ + "["@ + q.name@ + "]"@ + seq![]);
            }
        }
    }
}

/// The layout of the help text: the description and a blank line when there
/// is one, then the line `Usage: NAME` (the program's name, or `program`),
/// with `[OPTIONS]` when some flag or option is shown. Without subcommands
/// the usage line ends with one piece per positional, in order, and the text
/// ends with the `Positional arguments:` section, present exactly when there
/// are positionals; with subcommands the usage line ends with `<SUBCOMMAND>`
/// and the text ends with the `Subcommands:` section, with no positional
/// section.
pub proof fn help_layout(p: ArgParser)
    ensures
        exists|u: Seq<char>| help_of(p) == help_preamble(p) + "Usage:"@ + " "@ + program_label(p) + u,
        help_preamble(p) == (match p.program_desc {
            Some(d) => d@ + "\n\n"@,
            None => seq![],
        }),
        program_label(p) == (match p.program_name {
            Some(n) => n@,
            None => "program"@,
        }),
        p.subcommands@.len() == 0 ==> usage_target(p) == concat_map(
            p.positionals@,
            |q: crate::types::PositionalDef| usage_piece(q),
        ),
        p.subcommands@.len() == 0 ==> later_sections(p) == (if p.positionals@.len() > 0 {
            "\n"@ + "Positional arguments:"@ + "\n"@ + section_lines(
                crate::help::positional_entries(p.positionals@),
                max_width(crate::help::positional_entries(p.positionals@)),
            )
        } else {
            seq![]
        }),
        p.subcommands@.len() > 0 ==> usage_target(p) == " "@ + "<SUBCOMMAND>"@,
        p.subcommands@.len() > 0 ==> later_sections(p) == "\n"@ + "Subcommands:"@ + "\n"@ + section_lines(
            crate::help::subcommand_entries(p.subcommands@),
            max_width(crate::help::subcommand_entries(p.subcommands@)),
        ),
{
    let visible = visible_entries(p);
    let u = (if visible.len() > 0 {
        " [OPTIONS]"@
    } else {
        seq![]
    }) + usage_target(p) + "\n"@ + crate::help::section("Options:"@, visible) + later_sections(p);
    assert(help_of(p) =~= help_preamble(p) + "Usage:"@ + " "@ + program_label(p) + u);
    lemma_positional_usage(p.positionals@);
}

/// Every section of the help text lines up: for the Options section, the
/// positional section (without subcommands) and the subcommand section (with
/// them), each entry's line in the help text is two spaces, its label padded
/// with spaces to the section's widest label, two spaces and its
/// description; so every description starts at the same byte column, four
/// past the widest label.
pub proof fn help_sections_align(p: ArgParser, es: Seq<Entry>, j: int)
    requires
        es == visible_entries(p) || (p.subcommands@.len() == 0 && es == crate::help::positional_entries(
            p.positionals@,
        )) || (p.subcommands@.len() > 0 && es == crate::help::subcommand_entries(p.subcommands@)),
        0 <= j < es.len(),
        forall|i: int|
            0 <= i < es.len() ==> vstd::utf8::encode_utf8((#[trigger] es[i]).0).len() <= usize::MAX,
    ensures
        exists|a: Seq<char>, b: Seq<char>|
            help_of(p) == a + line_lead(es[j], max_width(es)) + es[j].1 + "\n"@ + b,
        vstd::utf8::encode_utf8(line_lead(es[j], max_width(es))).len() == max_width(es) + 4,
{
    help_columns_align(es, j);
    if es == visible_entries(p) {
        lemma_visible_line(p, j);
    } else if p.subcommands@.len() == 0 {
        lemma_later_line(p, "Positional arguments:"@, es, j);
    } else {
        lemma_later_line(p, "Subcommands:"@, es, j);
    }
    let lead = line_lead(es[j], max_width(es));
    let line = help_line(es[j], max_width(es));
    let (a, b) = choose|a: Seq<char>, b: Seq<char>| help_of(p) == a + line + b;
    lemma_regroup(a, lead, es[j].1, b);
}

proof fn lemma_regroup(a: Seq<char>, lead: Seq<char>, d: Seq<char>, b: Seq<char>)
    ensures
        a + (lead + d + "\n"@) + b == a + lead + d + "\n"@ + b,
{
    assert(a + (lead + d + "\n"@) + b =~= a + lead + d + "\n"@ + b);
}

proof fn lemma_repeat_found<A>(s: Seq<A>, j: int)
    requires
        0 <= j,
        crate::builders::first_repeat_from(s, j) >= 0,
    ensures
        exists|a: int, b: int| 0 <= a < b < s.len() && s[a] == s[b],
    decreases s.len() - j,
{
    if j < s.len() && s.take(j).contains(s[j]) {
        let a = choose|a: int| 0 <= a < s.take(j).len() && s.take(j)[a] == s[j];
        assert(s[a] == s[j]);
    } else if j < s.len() {
        lemma_repeat_found(s, j + 1);
    }
}

proof fn lemma_distinct_iff<A>(s: Seq<A>)
    ensures
        crate::builders::first_repeat(s) < 0 <==> (forall|a: int, b: int|
            0 <= a < b < s.len() ==> s[a] != s[b]),
{
    lemma_repeat_range(s, 0);
    if crate::builders::first_repeat(s) < 0 {
        lemma_no_repeat(s, 0);
    } else {
        lemma_repeat_found(s, 0);
    }
}

proof fn lemma_flag_shorts_contains(fs: Seq<FlagDef>, c: char)
    ensures
        crate::builders::flag_shorts(fs).contains(c) <==> exists|k: int|
            0 <= k < fs.len() && (#[trigger] fs[k]).short == Some(c),
    decreases fs.len(),
{
    if fs.len() > 0 {
        lemma_flag_shorts_contains(fs.drop_last(), c);
        let pre = crate::builders::flag_shorts(fs.drop_last());
        let last = match fs.last().short {
            Some(x) => seq![x],
            None => Seq::<char>::empty(),
        };
        assert(crate::builders::flag_shorts(fs) == pre + last);
        if (pre + last).contains(c) {
            let i = choose|i: int| 0 <= i < (pre + last).len() && (pre + last)[i] == c;
            if i < pre.len() {
                assert(pre[i] == c);
                let k = choose|k: int| 0 <= k < fs.drop_last().len() && (#[trigger] fs.drop_last()[k]).short == Some(c);
                assert(fs[k] == fs.drop_last()[k]);
            } else {
                assert(fs[fs.len() - 1].short == Some(c));
            }
        }
        if exists|k: int| 0 <= k < fs.len() && (#[trigger] fs[k]).short == Some(c) {
            let k = choose|k: int| 0 <= k < fs.len() && (#[trigger] fs[k]).short == Some(c);
            if k < fs.len() - 1 {
                assert(fs.drop_last()[k] == fs[k]);
                let i = choose|i: int| 0 <= i < pre.len() && pre[i] == c;
                assert((pre + last)[i] == c);
            } else {
                assert((pre + last)[pre.len() as int] == c);
            }
        }
    }
}

proof fn lemma_option_shorts_contains(os: Seq<OptionDef>, c: char)
    ensures
        crate::builders::option_shorts(os).contains(c) <==> exists|k: int|
            0 <= k < os.len() && (#[trigger] os[k]).short == Some(c),
    decreases os.len(),
{
    if os.len() > 0 {
        lemma_option_shorts_contains(os.drop_last(), c);
        let pre = crate::builders::option_shorts(os.drop_last());
        let last = match os.last().short {
            Some(x) => seq![x],
            None => Seq::<char>::empty(),
        };
        assert(crate::builders::option_shorts(os) == pre + last);
        if (pre + last).contains(c) {
            let i = choose|i: int| 0 <= i < (pre + last).len() && (pre + last)[i] == c;
            if i < pre.len() {
                assert(pre[i] == c);
                let k = choose|k: int| 0 <= k < os.drop_last().len() && (#[trigger] os.drop_last()[k]).short == Some(c);
                assert(os[k] == os.drop_last()[k]);
            } else {
                assert(os[os.len() - 1].short == Some(c));
            }
        }
        if exists|k: int| 0 <= k < os.len() && (#[trigger] os[k]).short == Some(c) {
            let k = choose|k: int| 0 <= k < os.len() && (#[trigger] os[k]).short == Some(c);
            if k < os.len() - 1 {
                assert(os.drop_last()[k] == os[k]);
                let i = choose|i: int| 0 <= i < pre.len() && pre[i] == c;
                assert((pre + last)[i] == c);
            } else {
                assert((pre + last)[pre.len() as int] == c);
            }
        }
    }
}

/// Whether a positional is required and also has a default or takes several values.
pub open spec fn overdetermined(q: crate::types::PositionalDef) -> bool {
    q.required && (q.default is Some || q.multi)
}

proof fn lemma_bad_positional_iff(ps: Seq<crate::types::PositionalDef>)
    ensures
        crate::builders::first_bad_positional(ps) < 0 <==> forall|k: int|
            0 <= k < ps.len() ==> !overdetermined(#[trigger] ps[k]),
    decreases ps.len(),
{
    if ps.len() > 0 {
        lemma_bad_positional_iff(ps.drop_last());
        if crate::builders::first_bad_positional(ps.drop_last()) < 0 {
            assert forall|k: int| 0 <= k < ps.len() - 1 implies !overdetermined(#[trigger] ps[k]) by {
                assert(ps.drop_last()[k] == ps[k]);
            }
        } else {
            let k = choose|k: int| 0 <= k < ps.drop_last().len() && overdetermined(#[trigger] ps.drop_last()[k]);
            assert(ps[k] == ps.drop_last()[k]);
        }
        assert(ps.last() == ps[ps.len() - 1]);
    }
}

proof fn lemma_early_multi_iff(ps: Seq<crate::types::PositionalDef>)
    ensures
        crate::builders::first_early_multi(ps) < 0 <==> forall|k: int|
            0 <= k < ps.len() - 1 ==> !(#[trigger] ps[k]).multi,
    decreases ps.len(),
{
    if ps.len() > 1 {
        lemma_early_multi_iff(ps.drop_last());
        if crate::builders::first_early_multi(ps.drop_last()) < 0 {
            assert forall|k: int| 0 <= k < ps.len() - 2 implies !(#[trigger] ps[k]).multi by {
                assert(ps.drop_last()[k] == ps[k]);
            }
        } else {
            let k = choose|k: int| 0 <= k < ps.drop_last().len() - 1 && (#[trigger] ps.drop_last()[k]).multi;
            assert(ps[k] == ps.drop_last()[k]);
        }
    }
}

/// `build` accepts a schema exactly when the long names of its flags and
/// options are all different, their short forms are all different, no flag
/// or option uses `-V` when a version is set, no positional is required and
/// also has a default or takes several values, and only the last positional
/// may take several values; otherwise it answers `InvalidFormat`.
pub proof fn build_accepts_exactly(
    version: Option<String>,
    flags: Seq<FlagDef>,
    options: Seq<OptionDef>,
    positionals: Seq<crate::types::PositionalDef>,
)
    ensures
        crate::builders::schema_error(version, flags, options, positionals) is None <==> {
            let longs = crate::builders::all_longs(flags, options);
            let shorts = crate::builders::all_shorts(flags, options);
            &&& forall|a: int, b: int| 0 <= a < b < longs.len() ==> longs[a] != longs[b]
            &&& forall|a: int, b: int| 0 <= a < b < shorts.len() ==> shorts[a] != shorts[b]
            &&& !(version is Some && ((exists|k: int| 0 <= k < flags.len() && (#[trigger] flags[k]).short
                == Some('V')) || (exists|k: int| 0 <= k < options.len() && (#[trigger] options[k]).short
                == Some('V'))))
            &&& forall|k: int| 0 <= k < positionals.len() ==> !overdetermined(#[trigger] positionals[k])
            &&& forall|k: int| 0 <= k < positionals.len() - 1 ==> !(#[trigger] positionals[k]).multi
        },
{
    let longs = crate::builders::all_longs(flags, options);
    let shorts = crate::builders::all_shorts(flags, options);
    lemma_distinct_iff(longs);
    lemma_distinct_iff(shorts);
    lemma_flag_shorts_contains(flags, 'V');
    lemma_option_shorts_contains(options, 'V');
    let fs = crate::builders::flag_shorts(flags);
    let os = crate::builders::option_shorts(options);
    assert(shorts == fs + os);
    if shorts.contains('V') {
        let i = choose|i: int| 0 <= i < shorts.len() && shorts[i] == 'V';
        if i < fs.len() {
            assert(fs[i] == 'V');
        } else {
            assert(os[i - fs.len()] == 'V');
        }
    }
    if fs.contains('V') {
        let i = choose|i: int| 0 <= i < fs.len() && fs[i] == 'V';
        assert(shorts[i] == 'V');
    }
    if os.contains('V') {
        let i = choose|i: int| 0 <= i < os.len() && os[i] == 'V';
        assert(shorts[fs.len() + i] == 'V');
    }
    lemma_bad_positional_iff(positionals);
    lemma_early_multi_iff(positionals);
}

proof fn lemma_concat_map_concat<A>(a: Seq<A>, b: Seq<A>, f: spec_fn(A) -> Seq<char>)
    ensures
        concat_map(a + b, f) == concat_map(a, f) + concat_map(b, f),
    decreases b.len(),
{
    if b.len() == 0 {
        assert(a + b =~= a);
        assert(concat_map(a, f) + concat_map(b, f) =~= concat_map(a, f));
    } else {
        assert((a + b).drop_last() =~= a + b.drop_last());
        lemma_concat_map_concat(a, b.drop_last(), f);
        assert(concat_map(a + b, f) =~= concat_map(a, f) + concat_map(b, f));
    }
}

proof fn lemma_concat_map_at<A>(s: Seq<A>, f: spec_fn(A) -> Seq<char>, k: int) -> (ab: (Seq<char>, Seq<char>))
    requires
        0 <= k < s.len(),
    ensures
        concat_map(s, f) == ab.0 + f(s[k]) + ab.1,
{
    assert(s =~= s.take(k) + seq![s[k]] + s.skip(k + 1));
    lemma_concat_map_concat(s.take(k) + seq![s[k]], s.skip(k + 1), f);
    lemma_concat_map_concat(s.take(k), seq![s[k]], f);
    assert(seq![s[k]].drop_last() =~= Seq::<A>::empty());
    assert(concat_map(Seq::<A>::empty(), f) =~= Seq::<char>::empty());
    assert(concat_map(seq![s[k]], f) =~= f(s[k]));
    let a = concat_map(s.take(k), f);
    let b = concat_map(s.skip(k + 1), f);
    assert(concat_map(s, f) == a + f(s[k]) + b);
    (a, b)
}

proof fn lemma_flat_map_concat<A>(a: Seq<A>, b: Seq<A>, f: spec_fn(A) -> Seq<Seq<char>>)
    ensures
        flat_map(a + b, f) == flat_map(a, f) + flat_map(b, f),
    decreases b.len(),
{
    if b.len() == 0 {
        assert(a + b =~= a);
        assert(flat_map(a, f) + flat_map(b, f) =~= flat_map(a, f));
    } else {
        assert((a + b).drop_last() =~= a + b.drop_last());
        lemma_flat_map_concat(a, b.drop_last(), f);
        assert(flat_map(a + b, f) =~= flat_map(a, f) + flat_map(b, f));
    }
}

proof fn lemma_flat_map_has<A>(s: Seq<A>, f: spec_fn(A) -> Seq<Seq<char>>, k: int, w: Seq<char>)
    requires
        0 <= k < s.len(),
        f(s[k]).contains(w),
    ensures
        flat_map(s, f).contains(w),
{
    assert(s =~= s.take(k) + seq![s[k]] + s.skip(k + 1));
    lemma_flat_map_concat(s.take(k) + seq![s[k]], s.skip(k + 1), f);
    lemma_flat_map_concat(s.take(k), seq![s[k]], f);
    assert(seq![s[k]].drop_last() =~= Seq::<A>::empty());
    assert(flat_map(Seq::<A>::empty(), f) =~= Seq::<Seq<char>>::empty());
    assert(flat_map(seq![s[k]], f) =~= f(s[k]));
    let ws = f(s[k]);
    let i = choose|i: int| 0 <= i < ws.len() && ws[i] == w;
    let pre = flat_map(s.take(k), f);
    assert(flat_map(s, f)[pre.len() + i] == w);
}

/// The fish `complete` prefix of the top-level entries of `p`.
pub open spec fn fish_prefix(p: ArgParser) -> Seq<char> {
    "complete -c "@ + crate::completions::prog_name(p) + crate::completions::when(
        p.subcommands@.len() > 0,
        " -n '__fish_use_subcommand'"@,
    )
}

proof fn lemma_zsh_flag_at(p: ArgParser, k: int, ind: Seq<char>) -> (ab: (Seq<char>, Seq<char>))
    requires
        0 <= k < p.flags@.len(),
    ensures
        crate::completions::zsh_args(p, ind) == ab.0 + crate::completions::zsh_flag(ind, p.flags@[k]) + ab.1,
{
    let (a, b) = lemma_concat_map_at(p.flags@, |g: FlagDef| crate::completions::zsh_flag(ind, g), k);
    let rest = concat_map(p.options@, |o: OptionDef| crate::completions::zsh_option(ind, o));
    assert(crate::completions::zsh_args(p, ind) =~= a + crate::completions::zsh_flag(ind, p.flags@[k]) + (b + rest));
    (a, b + rest)
}

proof fn lemma_zsh_option_at(p: ArgParser, k: int, ind: Seq<char>) -> (ab: (Seq<char>, Seq<char>))
    requires
        0 <= k < p.options@.len(),
    ensures
        crate::completions::zsh_args(p, ind) == ab.0 + crate::completions::zsh_option(ind, p.options@[k]) + ab.1,
{
    let (a, b) = lemma_concat_map_at(p.options@, |g: OptionDef| crate::completions::zsh_option(ind, g), k);
    let head = concat_map(p.flags@, |f: FlagDef| crate::completions::zsh_flag(ind, f));
    assert(crate::completions::zsh_args(p, ind) =~= (head + a) + crate::completions::zsh_option(ind, p.options@[k]) + b);
    (head + a, b)
}

/// The PowerShell completion lines of a flag.
pub open spec fn ps_flag(ind: Seq<char>, f: FlagDef) -> Seq<char> {
    crate::completions::ps_entry(ind, f.hidden, f.long@, f.short, f.description@)
}

/// The PowerShell completion lines of an option.
pub open spec fn ps_option(ind: Seq<char>, o: OptionDef) -> Seq<char> {
    crate::completions::ps_entry(ind, o.hidden, o.long@, o.short, o.description@)
}

proof fn lemma_ps_flag_at(p: ArgParser, k: int, ind: Seq<char>) -> (ab: (Seq<char>, Seq<char>))
    requires
        0 <= k < p.flags@.len(),
    ensures
        crate::completions::ps_completions(p, ind) == ab.0 + ps_flag(ind, p.flags@[k]) + ab.1,
{
    let (a, b) = lemma_concat_map_at(
        p.flags@,
        |g: FlagDef| crate::completions::ps_entry(ind, g.hidden, g.long@, g.short, g.description@),
        k,
    );
    let rest = concat_map(
        p.options@,
        |o: OptionDef| crate::completions::ps_entry(ind, o.hidden, o.long@, o.short, o.description@),
    );
    assert(crate::completions::ps_completions(p, ind) =~= a + ps_flag(ind, p.flags@[k]) + (b + rest));
    (a, b + rest)
}

proof fn lemma_ps_option_at(p: ArgParser, k: int, ind: Seq<char>) -> (ab: (Seq<char>, Seq<char>))
    requires
        0 <= k < p.options@.len(),
    ensures
        crate::completions::ps_completions(p, ind) == ab.0 + ps_option(ind, p.options@[k]) + ab.1,
{
    let (a, b) = lemma_concat_map_at(
        p.options@,
        |g: OptionDef| crate::completions::ps_entry(ind, g.hidden, g.long@, g.short, g.description@),
        k,
    );
    let head = concat_map(
        p.flags@,
        |f: FlagDef| crate::completions::ps_entry(ind, f.hidden, f.long@, f.short, f.description@),
    );
    assert(crate::completions::ps_completions(p, ind) =~= (head + a) + ps_option(ind, p.options@[k]) + b);
    (head + a, b)
}

proof fn lemma_fish_flag_at(p: ArgParser, k: int) -> (ab: (Seq<char>, Seq<char>))
    requires
        0 <= k < p.flags@.len(),
    ensures
        crate::completions::fish_script(p) == ab.0 + crate::completions::fish_flag(fish_prefix(p), p.flags@[k]) + ab.1,
{
    let pre = fish_prefix(p);
    let (a, b) = lemma_concat_map_at(p.flags@, |g: FlagDef| crate::completions::fish_flag(pre, g), k);
    let name = crate::completions::prog_name(p);
    let frest = concat_map(p.options@, |o: OptionDef| crate::completions::fish_option(pre, o)) + concat_map(
        p.subcommands@,
        |s: crate::types::SubcommandDef| crate::completions::fish_sub(name, s),
    );
    assert(crate::completions::fish_script(p) =~= a + crate::completions::fish_flag(pre, p.flags@[k]) + (b + frest));
    (a, b + frest)
}

proof fn lemma_fish_option_at(p: ArgParser, k: int) -> (ab: (Seq<char>, Seq<char>))
    requires
        0 <= k < p.options@.len(),
    ensures
        crate::completions::fish_script(p) == ab.0 + crate::completions::fish_option(fish_prefix(p), p.options@[k]) + ab.1,
{
    let pre = fish_prefix(p);
    let (a, b) = lemma_concat_map_at(p.options@, |g: OptionDef| crate::completions::fish_option(pre, g), k);
    let name = crate::completions::prog_name(p);
    let fhead = concat_map(p.flags@, |f: FlagDef| crate::completions::fish_flag(pre, f));
    let frest = concat_map(p.subcommands@, |s: crate::types::SubcommandDef| crate::completions::fish_sub(name, s));
    assert(crate::completions::fish_script(p) =~= (fhead + a) + crate::completions::fish_option(pre, p.options@[k]) + (b + frest));
    (fhead + a, b + frest)
}

/// Every flag that is not hidden can be completed in every shell: bash
/// offers its `--long` word; the zsh specs, the fish script and the
/// PowerShell completions each hold its entry, which for fish is the line
/// `complete ... -l LONG` with its short form and description.
pub proof fn visible_flag_completes(p: ArgParser, k: int, ind: Seq<char>)
    requires
        0 <= k < p.flags@.len(),
        !p.flags@[k].hidden,
    ensures
        flat_map(p.flags@, |g: FlagDef| crate::completions::flag_words(g)).contains("--"@ + p.flags@[k].long@),
        exists|a: Seq<char>, b: Seq<char>|
            crate::completions::zsh_args(p, ind) == a + crate::completions::zsh_flag(ind, p.flags@[k]) + b,
        exists|a: Seq<char>, b: Seq<char>|
            crate::completions::ps_completions(p, ind) == a + ps_flag(ind, p.flags@[k]) + b,
        exists|a: Seq<char>, b: Seq<char>|
            crate::completions::fish_script(p) == a + crate::completions::fish_flag(fish_prefix(p), p.flags@[k]) + b,
        crate::completions::fish_flag(fish_prefix(p), p.flags@[k]) == fish_prefix(p) + " -l "@ + p.flags@[k].long@
            + crate::completions::fish_short(p.flags@[k].short) + crate::completions::fish_desc(p.flags@[k].description@)
            + "\n"@,
{
    let f = p.flags@[k];
    let fw = |g: FlagDef| crate::completions::flag_words(g);
    assert(fw(f)[0] == "--"@ + f.long@);
    lemma_flat_map_has(p.flags@, fw, k, "--"@ + f.long@);
    let (a1, b1) = lemma_zsh_flag_at(p, k, ind);
    let (a2, b2) = lemma_ps_flag_at(p, k, ind);
    let (a3, b3) = lemma_fish_flag_at(p, k);
    let pre = fish_prefix(p);
    assert(crate::completions::fish_flag(pre, f) =~= pre + " -l "@ + f.long@ + crate::completions::fish_short(f.short)
        + crate::completions::fish_desc(f.description@) + "\n"@);
}

/// Every option that is not hidden can be completed in every shell: bash
/// offers its `--long` word; the zsh specs, the fish script and the
/// PowerShell completions each hold its entry, which for fish is the line
/// `complete ... -l LONG` with its short form, ` -r` (it takes a value) and
/// its description.
pub proof fn visible_option_completes(p: ArgParser, k: int, ind: Seq<char>)
    requires
        0 <= k < p.options@.len(),
        !p.options@[k].hidden,
    ensures
        flat_map(p.options@, |g: OptionDef| crate::completions::option_words(g)).contains("--"@ + p.options@[k].long@),
        exists|a: Seq<char>, b: Seq<char>|
            crate::completions::zsh_args(p, ind) == a + crate::completions::zsh_option(ind, p.options@[k]) + b,
        exists|a: Seq<char>, b: Seq<char>|
            crate::completions::ps_completions(p, ind) == a + ps_option(ind, p.options@[k]) + b,
        exists|a: Seq<char>, b: Seq<char>|
            crate::completions::fish_script(p) == a + crate::completions::fish_option(fish_prefix(p), p.options@[k]) + b,
        crate::completions::fish_option(fish_prefix(p), p.options@[k]) == fish_prefix(p) + " -l "@ + p.options@[k].long@
            + crate::completions::fish_short(p.options@[k].short) + " -r"@ + crate::completions::fish_desc(
            p.options@[k].description@,
        ) + "\n"@,
{
    let o = p.options@[k];
    let ow = |g: OptionDef| crate::completions::option_words(g);
    assert(ow(o)[0] == "--"@ + o.long@);
    lemma_flat_map_has(p.options@, ow, k, "--"@ + o.long@);
    let (a1, b1) = lemma_zsh_option_at(p, k, ind);
    let (a2, b2) = lemma_ps_option_at(p, k, ind);
    let (a3, b3) = lemma_fish_option_at(p, k);
}

/// Whether the subcommands all have different names.
pub open spec fn distinct_sub_names(subs: Seq<crate::types::SubcommandDef>) -> bool {
    forall|a: int, b: int| 0 <= a < b < subs.len() ==> (#[trigger] subs[a]).name@ != (#[trigger] subs[b]).name@
}

/// Registering subcommands keeps one entry per name: a builder starts with
/// none, and registering a name (new or already registered) keeps the names
/// all different, leaves exactly one entry with that name, now with the
/// given description and parser, and adds an entry only for a new name.
pub proof fn one_entry_per_name(
    old_subs: Seq<crate::types::SubcommandDef>,
    new_subs: Seq<crate::types::SubcommandDef>,
    name: Seq<char>,
    desc: Seq<char>,
    parser: ArgParser,
)
    requires
        crate::builders::registered(old_subs, new_subs, name, desc, parser),
        distinct_sub_names(old_subs),
    ensures
        distinct_sub_names(new_subs),
        exists|k: int| 0 <= k < new_subs.len() && crate::builders::sub_entry(new_subs[k], name, desc, parser),
        forall|k: int| 0 <= k < new_subs.len() && (#[trigger] new_subs[k]).name@ == name ==> crate::builders::sub_entry(
            new_subs[k],
            name,
            desc,
            parser,
        ),
        new_subs.len() == old_subs.len() + (if (exists|k: int| 0 <= k < old_subs.len() && (#[trigger] old_subs[k]).name@ == name) {
            0int
        } else {
            1int
        }),
{
    let pred = crate::parser::sub_named(name);
    crate::parser::lemma_first_index_from(old_subs, pred, 0);
    let k = first_index(old_subs, pred);
    if k >= 0 {
        assert(old_subs[k].name@ == name);
        assert forall|a: int, b: int| 0 <= a < b < new_subs.len() implies (#[trigger] new_subs[a]).name@ != (#[trigger] new_subs[b]).name@ by {
            assert(old_subs[a].name@ != old_subs[b].name@);
        }
        assert forall|j: int| 0 <= j < new_subs.len() && (#[trigger] new_subs[j]).name@ == name implies crate::builders::sub_entry(
            new_subs[j],
            name,
            desc,
            parser,
        ) by {
            if j != k {
                if j < k {
                    assert(old_subs[j].name@ != old_subs[k].name@);
                } else {
                    assert(old_subs[k].name@ != old_subs[j].name@);
                }
            }
        }
    } else {
        let n = old_subs.len() as int;
        assert forall|j: int| 0 <= j < n implies new_subs[j] == old_subs[j] by {
            assert(new_subs.take(n)[j] == new_subs[j]);
        }
        assert forall|j: int| 0 <= j < n implies (#[trigger] old_subs[j]).name@ != name by {
            assert(!pred(old_subs[j]));
        }
        assert forall|a: int, b: int| 0 <= a < b < new_subs.len() implies (#[trigger] new_subs[a]).name@ != (#[trigger] new_subs[b]).name@ by {
            if b < n {
                assert(old_subs[a].name@ != old_subs[b].name@);
            } else {
                assert(old_subs[a].name@ != name);
            }
        }
        assert forall|j: int| 0 <= j < new_subs.len() && (#[trigger] new_subs[j]).name@ == name implies crate::builders::sub_entry(
            new_subs[j],
            name,
            desc,
            parser,
        ) by {
            if j < n {
                assert(old_subs[j].name@ != name);
            }
        }
        assert(!(exists|k: int| 0 <= k < old_subs.len() && (#[trigger] old_subs[k]).name@ == name));
    }
}

/// Option modifiers that set different fields can be applied in either
/// order: making change `a` then `b` to a definition gives the same
/// definition as making `b` then `a`.
pub proof fn option_changes_commute(
    d: OptionDef,
    a: crate::builders::OptionChange,
    b: crate::builders::OptionChange,
    d1: OptionDef,
    d2: OptionDef,
    e1: OptionDef,
    e2: OptionDef,
)
    requires
        crate::builders::change_field(a) != crate::builders::change_field(b),
        crate::builders::changed(d, d1, a),
        crate::builders::changed(d1, d2, b),
        crate::builders::changed(d, e1, b),
        crate::builders::changed(e1, e2, a),
    ensures
        crate::builders::same_option(d2, e2),
{
}

/// The flag definitions that `calls` add, in call order.
pub open spec fn flag_calls(calls: Seq<crate::builders::BuilderCall>) -> Seq<FlagDef>
    decreases calls.len(),
{
    if calls.len() == 0 {
        seq![]
    } else {
        flag_calls(calls.drop_last()) + match calls.last() {
            crate::builders::BuilderCall::Flag(f) => seq![f],
            _ => Seq::<FlagDef>::empty(),
        }
    }
}

/// The option definitions that `calls` add, in call order.
pub open spec fn option_calls(calls: Seq<crate::builders::BuilderCall>) -> Seq<OptionDef>
    decreases calls.len(),
{
    if calls.len() == 0 {
        seq![]
    } else {
        option_calls(calls.drop_last()) + match calls.last() {
            crate::builders::BuilderCall::Option(o) => seq![o],
            _ => Seq::<OptionDef>::empty(),
        }
    }
}

/// The positional definitions that `calls` add, in call order.
pub open spec fn positional_calls(calls: Seq<crate::builders::BuilderCall>) -> Seq<crate::types::PositionalDef>
    decreases calls.len(),
{
    if calls.len() == 0 {
        seq![]
    } else {
        positional_calls(calls.drop_last()) + match calls.last() {
            crate::builders::BuilderCall::Positional(q) => seq![q],
            _ => Seq::<crate::types::PositionalDef>::empty(),
        }
    }
}

/// The name that the last `name` call of `calls` sets, if any.
pub open spec fn last_name(calls: Seq<crate::builders::BuilderCall>) -> Option<Seq<char>>
    decreases calls.len(),
{
    if calls.len() == 0 {
        None
    } else {
        match calls.last() {
            crate::builders::BuilderCall::Name(n) => Some(n),
            _ => last_name(calls.drop_last()),
        }
    }
}

/// The description that the last `description` call of `calls` sets, if any.
pub open spec fn last_description(calls: Seq<crate::builders::BuilderCall>) -> Option<Seq<char>>
    decreases calls.len(),
{
    if calls.len() == 0 {
        None
    } else {
        match calls.last() {
            crate::builders::BuilderCall::Description(d) => Some(d),
            _ => last_description(calls.drop_last()),
        }
    }
}

/// A builder keeps its definitions in call order: starting from
/// `ArgBuilder::new()` (schema `schemas[0]`), after the calls `calls` (each
/// taking `schemas[i]` to `schemas[i + 1]`), the schema's flags, options and
/// positionals are the ones added, in the order of the calls, however they
/// are interleaved; its name and description are the last ones set (none
/// when never set); and its subcommands have one entry per name. `build`
/// then gives this schema unchanged when it accepts it.
pub proof fn definitions_in_call_order(calls: Seq<crate::builders::BuilderCall>, schemas: Seq<ArgParser>)
    requires
        schemas.len() == calls.len() + 1,
        schemas[0].program_name is None,
        schemas[0].program_desc is None,
        schemas[0].flags@.len() == 0,
        schemas[0].options@.len() == 0,
        schemas[0].positionals@.len() == 0,
        schemas[0].subcommands@.len() == 0,
        forall|i: int| 0 <= i < calls.len() ==> crate::builders::called(schemas[i], schemas[i + 1], #[trigger] calls[i]),
    ensures
        schemas.last().flags@ == flag_calls(calls),
        schemas.last().options@ == option_calls(calls),
        schemas.last().positionals@ == positional_calls(calls),
        crate::text::opt_view(schemas.last().program_name) == last_name(calls),
        crate::text::opt_view(schemas.last().program_desc) == last_description(calls),
        distinct_sub_names(schemas.last().subcommands@),
    decreases calls.len(),
{
    if calls.len() == 0 {
        assert(flag_calls(calls) =~= Seq::<FlagDef>::empty());
        assert(schemas[0].flags@ =~= Seq::<FlagDef>::empty());
        assert(schemas[0].options@ =~= Seq::<OptionDef>::empty());
        assert(schemas[0].positionals@ =~= Seq::<crate::types::PositionalDef>::empty());
    } else {
        let n = calls.len() - 1;
        let pc = calls.drop_last();
        let ps = schemas.drop_last();
        assert forall|i: int| 0 <= i < pc.len() implies crate::builders::called(ps[i], ps[i + 1], #[trigger] pc[i]) by {
            assert(pc[i] == calls[i]);
            assert(ps[i] == schemas[i]);
            assert(ps[i + 1] == schemas[i + 1]);
        }
        definitions_in_call_order(pc, ps);
        let before = schemas[n];
        let after = schemas[n + 1];
        assert(ps.last() == before);
        assert(schemas.last() == after);
        assert(crate::builders::called(before, after, calls[n]));
        assert(calls.last() == calls[n]);
        match calls[n] {
            crate::builders::BuilderCall::Subcommand(nm, d, q) => {
                one_entry_per_name(before.subcommands@, after.subcommands@, nm, d, q);
            },
            crate::builders::BuilderCall::Flag(f) => {
                assert(after.flags@ == flag_calls(pc) + seq![f]);
            },
            crate::builders::BuilderCall::Option(o) => {
                assert(after.options@ == option_calls(pc) + seq![o]);
            },
            crate::builders::BuilderCall::Positional(q) => {
                assert(after.positionals@ == positional_calls(pc) + seq![q]);
            },
            _ => {},
        }
        assert(flag_calls(calls) =~= after.flags@);
        assert(option_calls(calls) =~= after.options@);
        assert(positional_calls(calls) =~= after.positionals@);
    }
}

/// The fish line that offers subcommand `s` of program `name`: `complete -c
/// NAME -n '__fish_use_subcommand' -a S`, with ` -d 'DESCRIPTION'` when `s`
/// has a description, and a newline.
pub open spec fn fish_offer_line(name: Seq<char>, s: crate::types::SubcommandDef) -> Seq<char> {
    "complete -c "@ + name + " -n '__fish_use_subcommand' -a "@ + s.name@ + (if s.description@.len() > 0 {
        " -d '"@ + crate::completions::quote_escape(s.description@) + "'"@
    } else {
        Seq::<char>::empty()
    }) + "\n"@
}

/// Every subcommand is offered by fish: for each subcommand `s`, the fish
/// script holds the line that offers its name (see [`fish_offer_line`]).
pub proof fn fish_offers_every_subcommand(p: ArgParser, k: int)
    requires
        0 <= k < p.subcommands@.len(),
    ensures
        exists|a: Seq<char>, b: Seq<char>|
            crate::completions::fish_script(p) == a + fish_offer_line(crate::completions::prog_name(p), p.subcommands@[k]) + b,
{
    let name = crate::completions::prog_name(p);
    let pre = fish_prefix(p);
    let s = p.subcommands@[k];
    let (a, b) = lemma_concat_map_at(
        p.subcommands@,
        |t: crate::types::SubcommandDef| crate::completions::fish_sub(name, t),
        k,
    );
    let head = concat_map(p.flags@, |f: FlagDef| crate::completions::fish_flag(pre, f)) + concat_map(
        p.options@,
        |o: OptionDef| crate::completions::fish_option(pre, o),
    );
    let tail = lemma_fish_sub_split(name, s);
    assert(crate::completions::fish_script(p) == head + concat_map(
        p.subcommands@,
        |t: crate::types::SubcommandDef| crate::completions::fish_sub(name, t),
    ));
    lemma_regroup_around(head, a, fish_offer_line(name, s), tail, b);
}

#[verifier::spinoff_prover]
proof fn lemma_fish_sub_split(name: Seq<char>, s: crate::types::SubcommandDef) -> (tail: Seq<char>)
    ensures
        crate::completions::fish_sub(name, s) == fish_offer_line(name, s) + tail,
{
    let prefix2 = "complete -c "@ + name + " -n '__fish_seen_subcommand_from "@ + s.name@ + "'"@;
    let tail = concat_map(s.parser.flags@, |f: FlagDef| crate::completions::fish_flag(prefix2, f)) + concat_map(
        s.parser.options@,
        |o: OptionDef| crate::completions::fish_option(prefix2, o),
    );
    assert(crate::completions::fish_sub(name, s) =~= fish_offer_line(name, s) + tail);
    tail
}

proof fn lemma_regroup_around(h: Seq<char>, a: Seq<char>, l: Seq<char>, t: Seq<char>, b: Seq<char>)
    ensures
        h + (a + (l + t) + b) == (h + a) + l + (t + b),
{
    assert(h + (a + (l + t) + b) =~= (h + a) + l + (t + b));
}

/// A validator's hint shows in help: the description column of an option
/// or positional whose validator has hint `h` ends with ` [h]`.
pub proof fn validator_hint_is_shown(o: OptionDef, q: crate::types::PositionalDef, h: Seq<char>)
    ensures
        (o.validator matches Some(v) && v.hint_view() == Some(h)) ==> exists|pre: Seq<char>|
            option_description(o) == pre + " ["@ + h + "]"@,
        (q.validator matches Some(v) && v.hint_view() == Some(h)) ==> exists|pre: Seq<char>|
            crate::help::positional_description(q) == pre + " ["@ + h + "]"@,
{
    reveal_strlit(" [");
    reveal_strlit(" ");
    reveal_strlit("[");
    assert(" ["@ =~= " "@ + "["@);
    if o.validator matches Some(v) && v.hint_view() == Some(h) {
        let pre = o.description@ + crate::help::required_mark(o.required) + crate::help::multi_mark(o.multi)
            + crate::help::default_mark(o.default) + crate::help::env_mark(o.env_var);
        assert(option_description(o) =~= pre + " ["@ + h + "]"@);
    }
    if q.validator matches Some(v) && v.hint_view() == Some(h) {
        let pre = q.description@ + crate::help::required_mark(q.required) + crate::help::default_mark(q.default);
        assert(crate::help::positional_description(q) =~= pre + " ["@ + h + "]"@);
    }
}

proof fn lemma_in_concat<A>(x: Seq<char>, pre: Seq<char>, items: Seq<A>, f: spec_fn(A) -> Seq<char>, post: Seq<char>, k: int) -> (ab: (Seq<char>, Seq<char>))
    requires
        0 <= k < items.len(),
        x == pre + concat_map(items, f) + post,
    ensures
        x == ab.0 + f(items[k]) + ab.1,
{
    let (a, b) = lemma_concat_map_at(items, f, k);
    assert(x =~= (pre + a) + f(items[k]) + (b + post));
    (pre + a, b + post)
}

/// The bash line that recognises subcommand `s` once typed.
pub open spec fn bash_offer_line(s: crate::types::SubcommandDef) -> Seq<char> {
    "            "@ + s.name@ + ") cmd=\""@ + s.name@ + "\";;\n"@
}

/// The zsh entry that offers subcommand `s` with its description.
pub open spec fn zsh_offer_line(s: crate::types::SubcommandDef) -> Seq<char> {
    "                        '"@ + s.name@ + ":"@ + crate::completions::zsh_escape(s.description@) + "'\n"@
}

/// The PowerShell result that offers subcommand `s` with its description.
pub open spec fn ps_offer_line(s: crate::types::SubcommandDef) -> Seq<char> {
    "                "@ + "[System.Management.Automation.CompletionResult]::new('"@ + s.name@ + "', '"@
        + s.name@ + "', '"@ + "ParameterValue"@ + "', '"@ + crate::completions::ps_escape(s.description@)
        + "')\n"@
}

proof fn lemma_wrap(h: Seq<char>, a: Seq<char>, l: Seq<char>, b: Seq<char>, t: Seq<char>)
    ensures
        h + (a + l + b) + t == (h + a) + l + (b + t),
{
    assert(h + (a + l + b) + t =~= (h + a) + l + (b + t));
}

#[verifier::spinoff_prover]
#[verifier::rlimit(40)]
proof fn lemma_bash_dispatch_offers(p: ArgParser, k: int) -> (ab: (Seq<char>, Seq<char>))
    requires
        0 <= k < p.subcommands@.len(),
    ensures
        crate::completions::bash_dispatch(p) == ab.0 + bash_offer_line(p.subcommands@[k]) + ab.1,
{
    let subs = p.subcommands@;
    let bf = |t: crate::types::SubcommandDef| crate::completions::bash_case_line(t);
    let names = subs.map_values(|t: crate::types::SubcommandDef| t.name@);
    let d1 = "    cmd=\"\"\n"@ + "    for i in \"${COMP_WORDS[@]}\"; do\n"@ + "        case \"${i}\" in\n"@;
    let d2 = "        esac\n"@ + "    done\n\n"@ + "    case \"${cmd}\" in\n"@ + concat_map(
        subs,
        |t: crate::types::SubcommandDef| crate::completions::bash_sub_branch(t),
    ) + "        *)\n"@ + "            opts=\""@ + crate::text::trimmed(
        crate::text::join(names, " "@) + " "@ + crate::completions::bash_words(p),
    ) + "\"\n"@ + "            ;;\n"@ + "    esac\n\n"@
        + "    COMPREPLY=($(compgen -W \"${opts}\" -- \"${cur}\"))\n"@;
    assert(crate::completions::bash_dispatch(p) =~= d1 + concat_map(subs, bf) + d2);
    let (a0, c0) = lemma_in_concat(crate::completions::bash_dispatch(p), d1, subs, bf, d2, k);
    assert(bf(subs[k]) == bash_offer_line(subs[k]));
    (a0, c0)
}

#[verifier::spinoff_prover]
#[verifier::rlimit(40)]
proof fn lemma_bash_offers(p: ArgParser, k: int) -> (ab: (Seq<char>, Seq<char>))
    requires
        0 <= k < p.subcommands@.len(),
    ensures
        crate::completions::bash_script(p) == ab.0 + bash_offer_line(p.subcommands@[k]) + ab.1,
{
    let func = crate::completions::func_name(p);
    let (a, b) = lemma_bash_dispatch_offers(p, k);
    let t = "}\n\n"@ + "complete -F _"@ + func + " -o bashdefault -o default "@ + crate::completions::prog_name(p)
        + "\n"@;
    let h = crate::completions::bash_head(func);
    assert(crate::completions::bash_script(p) == h + crate::completions::bash_dispatch(p) + t);
    lemma_wrap(h, a, bash_offer_line(p.subcommands@[k]), b, t);
    (h + a, b + t)
}

#[verifier::spinoff_prover]
#[verifier::rlimit(40)]
proof fn lemma_zsh_dispatch_offers(p: ArgParser, k: int, func: Seq<char>) -> (ab: (Seq<char>, Seq<char>))
    requires
        0 <= k < p.subcommands@.len(),
    ensures
        crate::completions::zsh_dispatch(p, func) == ab.0 + zsh_offer_line(p.subcommands@[k]) + ab.1,
{
    let subs = p.subcommands@;
    let zf = |t: crate::types::SubcommandDef| crate::completions::zsh_sub_entry(t);
    let z1 = "_"@ + func + "() {\n"@ + "    local line state\n\n"@ + "    _arguments \\\n"@
        + crate::completions::zsh_args(p, "        "@) + "        '*::subcmd:->subcmd' && return\n\n"@
        + "    case $state in\n"@ + "        subcmd)\n"@ + "            case $line[1] in\n"@ + concat_map(
        subs,
        |t: crate::types::SubcommandDef| crate::completions::zsh_sub_branch(func, t),
    ) + "                *)\n"@ + "                    local -a subcmds\n"@ + "                    subcmds=(\n"@;
    let z2 = "                    )\n"@ + "                    _describe 'subcommand' subcmds\n"@
        + "                    ;;\n"@ + "            esac\n"@ + "            ;;\n"@ + "    esac\n"@ + "}\n\n"@
        + concat_map(subs, |t: crate::types::SubcommandDef| crate::completions::zsh_sub_function(func, t));
    assert(crate::completions::zsh_dispatch(p, func) =~= z1 + concat_map(subs, zf) + z2);
    let (a0, c0) = lemma_in_concat(crate::completions::zsh_dispatch(p, func), z1, subs, zf, z2, k);
    assert(zf(subs[k]) == zsh_offer_line(subs[k]));
    (a0, c0)
}

#[verifier::spinoff_prover]
#[verifier::rlimit(40)]
proof fn lemma_zsh_offers(p: ArgParser, k: int) -> (ab: (Seq<char>, Seq<char>))
    requires
        0 <= k < p.subcommands@.len(),
    ensures
        crate::completions::zsh_script(p) == ab.0 + zsh_offer_line(p.subcommands@[k]) + ab.1,
{
    let func = crate::completions::func_name(p);
    let (a, b) = lemma_zsh_dispatch_offers(p, k, func);
    let h = "#compdef "@ + crate::completions::prog_name(p) + "\n\n"@;
    let t = "compdef _"@ + func + " "@ + crate::completions::prog_name(p) + "\n"@;
    assert(crate::completions::zsh_script(p) == h + crate::completions::zsh_dispatch(p, func) + t);
    lemma_wrap(h, a, zsh_offer_line(p.subcommands@[k]), b, t);
    (h + a, b + t)
}

#[verifier::spinoff_prover]
#[verifier::rlimit(40)]
proof fn lemma_ps_offers(p: ArgParser, k: int) -> (ab: (Seq<char>, Seq<char>))
    requires
        0 <= k < p.subcommands@.len(),
    ensures
        crate::completions::powershell_script(p) == ab.0 + ps_offer_line(p.subcommands@[k]) + ab.1,
{
    let subs = p.subcommands@;
    let s = subs[k];
    let func = crate::completions::func_name(p);
    let pf = |t: crate::types::SubcommandDef| crate::completions::ps_sub_name(t);
    let p1 = "Register-ArgumentCompleter -CommandName '"@ + crate::completions::prog_name(p) + "' -ScriptBlock {\n"@
        + "    param($commandName, $wordToComplete, $cursorPosition)\n\n"@ + ("    # Determine the subcommand\n"@
        + "    $tokens = $commandName -split '\\s+'\n"@ + "    $subcmd = $null\n"@
        + "    foreach ($t in $tokens[1..($tokens.Length - 1)]) {\n"@ + "        switch ($t) {\n"@ + concat_map(
        subs,
        |t: crate::types::SubcommandDef| crate::completions::ps_switch_line(t),
    ) + "        }\n"@ + "    }\n\n"@ + "    $completions = @()\n\n"@ + "    switch ($subcmd) {\n"@ + concat_map(
        subs,
        |t: crate::types::SubcommandDef| crate::completions::ps_sub_branch(t),
    ) + "        default {\n"@ + "            $completions = @(\n"@ + crate::completions::ps_completions(
        p,
        "                "@,
    ));
    let p2 = ("            )\n"@ + "        }\n"@ + "    }\n\n"@ + crate::completions::ps_filter()) + "}\n"@;
    assert(crate::completions::powershell_script(p) =~= p1 + concat_map(subs, pf) + p2);
    let (a0, c0) = lemma_in_concat(crate::completions::powershell_script(p), p1, subs, pf, p2, k);
    assert(pf(s) =~= ps_offer_line(s));
    (a0, c0)
}

/// Every subcommand is known to the bash, zsh and PowerShell scripts: bash
/// recognises its name once typed (`NAME) cmd="NAME";;`), zsh offers it with
/// its description, and PowerShell offers it as a parameter value with its
/// description.
pub proof fn every_subcommand_completes(p: ArgParser, k: int)
    requires
        0 <= k < p.subcommands@.len(),
    ensures
        exists|a: Seq<char>, b: Seq<char>|
            crate::completions::bash_script(p) == a + bash_offer_line(p.subcommands@[k]) + b,
        exists|a: Seq<char>, b: Seq<char>|
            crate::completions::zsh_script(p) == a + zsh_offer_line(p.subcommands@[k]) + b,
        exists|a: Seq<char>, b: Seq<char>|
            crate::completions::powershell_script(p) == a + ps_offer_line(p.subcommands@[k]) + b,
{
    let (a1, b1) = lemma_bash_offers(p, k);
    let (a2, b2) = lemma_zsh_offers(p, k);
    let (a3, b3) = lemma_ps_offers(p, k);
}

/// One zsh `_arguments` spec line: `'GROUPFORM[DESCRIPTION]ARG' \`.
pub open spec fn zsh_spec(ind: Seq<char>, group: Seq<char>, form: Seq<char>, desc: Seq<char>, arg: Seq<char>) -> Seq<char> {
    ind + "'"@ + group + form + "["@ + desc + "]"@ + arg + "' \\\n"@
}

/// The zsh specs of a visible flag or option named `long`: with a short
/// form `c`, one spec for `--long` and one for `-c`, each excluding the
/// other; otherwise one spec for `--long`.
pub open spec fn zsh_specs(ind: Seq<char>, long: Seq<char>, short: Option<char>, desc: Seq<char>, arg: Seq<char>) -> Seq<char> {
    let d = crate::completions::zsh_escape(desc);
    match short {
        Some(c) => zsh_spec(ind, "(-"@ + seq![c] + " --"@ + long + ")"@, "--"@ + long, d, arg) + zsh_spec(
            ind,
            "(-"@ + seq![c] + " --"@ + long + ")"@,
            "-"@ + seq![c],
            d,
            arg,
        ),
        None => zsh_spec(ind, seq![], "--"@ + long, d, arg),
    }
}

/// One PowerShell completion result offering `word` as a parameter name.
pub open spec fn ps_word_line(ind: Seq<char>, word: Seq<char>, desc: Seq<char>) -> Seq<char> {
    ind + "[System.Management.Automation.CompletionResult]::new('"@ + word + "', '"@ + word + "', '"@
        + "ParameterName"@ + "', '"@ + crate::completions::ps_escape(desc) + "')\n"@
}

/// The PowerShell results of a visible flag or option: `--long`, then `-c`
/// when it has a short form.
pub open spec fn ps_words(ind: Seq<char>, long: Seq<char>, short: Option<char>, desc: Seq<char>) -> Seq<char> {
    ps_word_line(ind, "--"@ + long, desc) + match short {
        Some(c) => ps_word_line(ind, "-"@ + seq![c], desc),
        None => seq![],
    }
}

/// The completion entries of a visible flag or option name it: the zsh
/// specs cover `--long` (and `-c`), an option's with `:PLACEHOLDER:` (or
/// `:value:` without a placeholder) for its value, and the PowerShell
/// results offer `--long` (and `-c`). A hidden one has no entries.
pub proof fn completion_entries_name_the_argument(f: FlagDef, o: OptionDef, ind: Seq<char>)
    ensures
        !f.hidden ==> crate::completions::zsh_flag(ind, f) == zsh_specs(ind, f.long@, f.short, f.description@, seq![]),
        !f.hidden ==> ps_flag(ind, f) == ps_words(ind, f.long@, f.short, f.description@),
        !o.hidden ==> crate::completions::zsh_option(ind, o) == zsh_specs(
            ind,
            o.long@,
            o.short,
            o.description@,
            ":"@ + (if o.placeholder@.len() == 0 {
                "value"@
            } else {
                o.placeholder@
            }) + ":"@,
        ),
        !o.hidden ==> ps_option(ind, o) == ps_words(ind, o.long@, o.short, o.description@),
        f.hidden ==> crate::completions::zsh_flag(ind, f).len() == 0 && ps_flag(ind, f).len() == 0,
        o.hidden ==> crate::completions::zsh_option(ind, o).len() == 0 && ps_option(ind, o).len() == 0,
{
    if !f.hidden {
        match f.short {
            Some(c) => {
                assert(ps_flag(ind, f) =~= ps_words(ind, f.long@, f.short, f.description@));
            },
            None => {
                assert(ps_flag(ind, f) =~= ps_words(ind, f.long@, f.short, f.description@));
            },
        }
    }
    if !o.hidden {
        match o.short {
            Some(c) => {
                assert(ps_option(ind, o) =~= ps_words(ind, o.long@, o.short, o.description@));
            },
            None => {
                assert(ps_option(ind, o) =~= ps_words(ind, o.long@, o.short, o.description@));
            },
        }
    }
}

/// The words bash completes for a flag or option named `long`: `--long`,
/// then `-c` when it has a short form; none for a hidden one.
pub open spec fn bash_arg_words(hidden: bool, long: Seq<char>, short: Option<char>) -> Seq<Seq<char>> {
    if hidden {
        seq![]
    } else {
        match short {
            Some(c) => seq!["--"@ + long, "-"@ + seq![c]],
            None => seq!["--"@ + long],
        }
    }
}

/// The line that sets the words bash completes for `p`: each flag's and
/// option's `--long` then `-c` (hidden ones left out), flags first, joined
/// with spaces and with `'` escaped.
pub open spec fn bash_opts_line(p: ArgParser) -> Seq<char> {
    "    opts=\""@ + crate::completions::quote_escape(
        crate::text::join(
            flat_map(p.flags@, |f: FlagDef| bash_arg_words(f.hidden, f.long@, f.short)) + flat_map(
                p.options@,
                |o: OptionDef| bash_arg_words(o.hidden, o.long@, o.short),
            ),
            " "@,
        ),
    ) + "\"\n"@
}

/// Bash completes the words of the flags, then of the options: for a parser
/// without subcommands the script holds [`bash_opts_line`].
pub proof fn bash_offers_argument_words(p: ArgParser)
    requires
        p.subcommands@.len() == 0,
    ensures
        exists|a: Seq<char>, b: Seq<char>| crate::completions::bash_script(p) == a + bash_opts_line(p) + b,
{
    let ff = |f: FlagDef| bash_arg_words(f.hidden, f.long@, f.short);
    let fo = |o: OptionDef| bash_arg_words(o.hidden, o.long@, o.short);
    assert(ff =~= (|g: FlagDef| crate::completions::flag_words(g)));
    assert(fo =~= (|g: OptionDef| crate::completions::option_words(g)));
    let func = crate::completions::func_name(p);
    let line = "    opts=\""@ + crate::completions::bash_words(p) + "\"\n"@;
    let a = crate::completions::bash_head(func);
    let b = "    COMPREPLY=($(compgen -W \"${opts}\" -- \"${cur}\"))\n"@ + "}\n\n"@ + "complete -F _"@ + func
        + " -o bashdefault -o default "@ + crate::completions::prog_name(p) + "\n"@;
    assert(line == bash_opts_line(p));
    assert(crate::completions::bash_script(p) =~= a + line + b);
}

} // verus!
