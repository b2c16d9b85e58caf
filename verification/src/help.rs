//! Help text generation.
use vstd::prelude::*;

use crate::parser::ArgParser;
use crate::text;
use crate::text::{append_str, byte_len, owned, push_char, push_spaces};
use crate::types::{FlagDef, OptionDef, PositionalDef, SubcommandDef};

verus! {

/// One line of a help section: the label column and the description column.
pub type Entry = (Seq<char>, Seq<char>);

/// The label of a flag: `-c, --long`, or `    --long` without a short form.
pub open spec fn flag_label(f: FlagDef) -> Seq<char> {
    match f.short {
        Some(c) => "-"@ + seq![c] + ", "@ + "--"@ + f.long@,
        None => "    "@ + "--"@ + f.long@,
    }
}

/// The label of an option: the flag-style label, then ` <PLACEHOLDER>`.
pub open spec fn option_label(o: OptionDef) -> Seq<char> {
    match o.short {
        Some(c) => "-"@ + seq![c] + ", "@ + "--"@ + o.long@ + " "@ + "<"@ + o.placeholder@ + ">"@,
        None => "    "@ + "--"@ + o.long@ + " "@ + "<"@ + o.placeholder@ + ">"@,
    }
}

/// ` [hint]` for a validator with a hint, nothing otherwise.
pub open spec fn hint_suffix(v: Option<crate::validators::Validator>) -> Seq<char> {
    match v {
        Some(val) => match val.hint_view() {
            Some(h) => " "@ + "["@ + h + "]"@,
            None => seq![],
        },
        None => seq![],
    }
}

/// ` (required)` when `b` holds.
pub open spec fn required_mark(b: bool) -> Seq<char> {
    if b {
        " "@ + "(required)"@
    } else {
        seq![]
    }
}

/// ` (multiple)` when `b` holds.
pub open spec fn multi_mark(b: bool) -> Seq<char> {
    if b {
        " "@ + "(multiple)"@
    } else {
        seq![]
    }
}

/// ` [default: value]` when there is a default.
pub open spec fn default_mark(d: Option<String>) -> Seq<char> {
    match d {
        Some(v) => " "@ + "[default: "@ + v@ + "]"@,
        None => seq![],
    }
}

/// ` [env: NAME]` when there is an environment variable.
pub open spec fn env_mark(e: Option<String>) -> Seq<char> {
    match e {
        Some(v) => " "@ + "[env: "@ + v@ + "]"@,
        None => seq![],
    }
}

/// The description column of an option: its description, then the markers
/// for required, multiple, default, environment variable and validator hint.
pub open spec fn option_description(o: OptionDef) -> Seq<char> {
    o.description@ + required_mark(o.required) + multi_mark(o.multi) + default_mark(o.default)
        + env_mark(o.env_var) + hint_suffix(o.validator)
}

/// The label of a positional: its name, with `...` when it is multi.
pub open spec fn positional_label(p: PositionalDef) -> Seq<char> {
    p.name@ + (if p.multi {
        "..."@
    } else {
        seq![]
    })
}

/// The description column of a positional.
pub open spec fn positional_description(p: PositionalDef) -> Seq<char> {
    p.description@ + required_mark(p.required) + default_mark(p.default) + hint_suffix(p.validator)
}

/// Help entries of the flags that are not hidden, in order.
pub open spec fn flag_entries(fs: Seq<FlagDef>) -> Seq<Entry>
    decreases fs.len(),
{
    if fs.len() == 0 {
        seq![]
    } else {
        flag_entries(fs.drop_last()) + if fs.last().hidden {
            Seq::<Entry>::empty()
        } else {
            seq![(flag_label(fs.last()), fs.last().description@)]
        }
    }
}

/// Help entries of the options that are not hidden, in order.
pub open spec fn option_entries(os: Seq<OptionDef>) -> Seq<Entry>
    decreases os.len(),
{
    if os.len() == 0 {
        seq![]
    } else {
        option_entries(os.drop_last()) + if os.last().hidden {
            Seq::<Entry>::empty()
        } else {
            seq![(option_label(os.last()), option_description(os.last()))]
        }
    }
}

/// Help entries of the positionals, in order.
pub open spec fn positional_entries(ps: Seq<PositionalDef>) -> Seq<Entry> {
    ps.map_values(|p: PositionalDef| (positional_label(p), positional_description(p)))
}

/// Help entries of the subcommands, in order.
pub open spec fn subcommand_entries(ss: Seq<SubcommandDef>) -> Seq<Entry> {
    ss.map_values(|s: SubcommandDef| (s.name@, s.description@))
}

/// The widest label of `es`, in bytes.
pub open spec fn max_width(es: Seq<Entry>) -> nat
    decreases es.len(),
{
    if es.len() == 0 {
        0
    } else {
        let w = text::utf8_width(es.last().0);
        let m = max_width(es.drop_last());
        if w > m {
            w
        } else {
            m
        }
    }
}

/// The lines of a section: two spaces, the label padded to `width`, two
/// spaces, the description.
pub open spec fn section_lines(es: Seq<Entry>, width: nat) -> Seq<char>
    decreases es.len(),
{
    if es.len() == 0 {
        seq![]
    } else {
        section_lines(es.drop_last(), width) + "  "@ + es.last().0 + text::spaces(
            (width - text::utf8_width(es.last().0)) as nat,
        ) + "  "@ + es.last().1 + "\n"@
    }
}

/// A section: nothing when it has no entries; otherwise a blank line, the
/// header, and one aligned line per entry.
pub open spec fn section(header: Seq<char>, es: Seq<Entry>) -> Seq<char> {
    if es.len() == 0 {
        seq![]
    } else {
        "\n"@ + header + "\n"@ + section_lines(es, max_width(es))
    }
}

/// The positional part of the usage line.
pub open spec fn positional_usage(ps: Seq<PositionalDef>) -> Seq<char>
    decreases ps.len(),
{
    if ps.len() == 0 {
        seq![]
    } else {
        let p = ps.last();
        let suffix = if p.multi {
            "..."@
        } else {
            seq![]
        };
        positional_usage(ps.drop_last()) + if p.required {
            " "@ + "<"@ + p.name@ + ">"@ + suffix
        } else {
            " "@ + "["@ + p.name@ + "]"@ + suffix
        }
    }
}

/// The program's name as the help text shows it.
pub open spec fn program_label(p: ArgParser) -> Seq<char> {
    match p.program_name {
        Some(n) => n@,
        None => "program"@,
    }
}

/// The description paragraph that opens the help text, if any.
pub open spec fn help_preamble(p: ArgParser) -> Seq<char> {
    match p.program_desc {
        Some(d) => d@ + "\n\n"@,
        None => seq![],
    }
}

/// What the usage line names after the options: `<SUBCOMMAND>`, or the
/// positionals.
pub open spec fn usage_target(p: ArgParser) -> Seq<char> {
    if p.subcommands@.len() > 0 {
        " "@ + "<SUBCOMMAND>"@
    } else {
        positional_usage(p.positionals@)
    }
}

/// The sections after the Options section: the positionals without
/// subcommands, the subcommands otherwise.
pub open spec fn later_sections(p: ArgParser) -> Seq<char> {
    if p.subcommands@.len() > 0 {
        section("Subcommands:"@, subcommand_entries(p.subcommands@))
    } else {
        section("Positional arguments:"@, positional_entries(p.positionals@))
    }
}

/// The full help text of a parser.
pub open spec fn help_of(p: ArgParser) -> Seq<char> {
    let visible = flag_entries(p.flags@) + option_entries(p.options@);
    help_preamble(p) + "Usage:"@ + " "@ + program_label(p) + (if visible.len() > 0 {
        " [OPTIONS]"@
    } else {
        seq![]
    }) + usage_target(p) + "\n"@ + section("Options:"@, visible) + later_sections(p)
}

/// Exec form of a help entry.
struct HelpEntry {
    label: String,
    description: String,
}

spec fn entries_view(es: Seq<HelpEntry>) -> Seq<Entry> {
    es.map_values(|e: HelpEntry| (e.label@, e.description@))
}

/// Formats a help section with column-aligned descriptions.
/// Returns an empty string if there are no entries.
fn format_section(header: &str, entries: &Vec<HelpEntry>) -> (r: String)
    ensures
        r@ == section(header@, entries_view(entries@)),
{
    let ghost es = entries_view(entries@);
    if entries.len() == 0 {
        return String::new();
    }
    let mut max_w: usize = 0;
    let mut i: usize = 0;
    while i < entries.len()
        invariant
            i <= entries.len(),
            es == entries_view(entries@),
            max_w as nat == max_width(es.take(i as int)),
        decreases entries.len() - i,
    {
        assert(es.take(i + 1).drop_last() =~= es.take(i as int));
        let w = byte_len(entries[i].label.as_str());
        if w > max_w {
            max_w = w;
        }
        i += 1;
    }
    assert(es.take(entries.len() as int) =~= es);
    let mut out = owned("\n");
    append_str(&mut out, header);
    append_str(&mut out, "\n");
    let ghost head = out@;
    let mut j: usize = 0;
    while j < entries.len()
        invariant
            j <= entries.len(),
            es == entries_view(entries@),
            max_w as nat == max_width(es),
            out@ == head + section_lines(es.take(j as int), max_w as nat),
        decreases entries.len() - j,
    {
        assert(es.take(j + 1).drop_last() =~= es.take(j as int));
        proof {
            lemma_max_width_bound(es, j as int);
        }
        let w = byte_len(entries[j].label.as_str());
        append_str(&mut out, "  ");
        append_str(&mut out, entries[j].label.as_str());
        push_spaces(&mut out, max_w - w);
        append_str(&mut out, "  ");
        append_str(&mut out, entries[j].description.as_str());
        append_str(&mut out, "\n");
        j += 1;
        assert(out@ =~= head + section_lines(es.take(j as int), max_w as nat));
    }
    assert(es.take(entries.len() as int) =~= es);
    out
}

proof fn lemma_max_width_bound(es: Seq<Entry>, k: int)
    requires
        0 <= k < es.len(),
    ensures
        text::utf8_width(es[k].0) <= max_width(es),
    decreases es.len(),
{
    if k < es.len() - 1 {
        lemma_max_width_bound(es.drop_last(), k);
    }
}

/// The flag-style label prefix: `-c, --long` or `    --long`.
fn push_flag_label(out: &mut String, short: Option<char>, long: &str)
    ensures
        final(out)@ == old(out)@ + match short {
            Some(c) => "-"@ + seq![c] + ", "@ + "--"@ + long@,
            None => "    "@ + "--"@ + long@,
        },
{
    match short {
        Some(c) => {
            append_str(out, "-");
            push_char(out, c);
            append_str(out, ", ");
            append_str(out, "--");
            append_str(out, long);
        },
        None => {
            append_str(out, "    ");
            append_str(out, "--");
            append_str(out, long);
        },
    }
    assert(out@ =~= old(out)@ + match short {
        Some(c) => "-"@ + seq![c] + ", "@ + "--"@ + long@,
        None => "    "@ + "--"@ + long@,
    });
}

/// Appends the ` [hint]` of a validator, if it has one.
fn push_hint(out: &mut String, v: &Option<crate::validators::Validator>)
    ensures
        final(out)@ == old(out)@ + hint_suffix(*v),
{
    match v {
        Some(val) => match val.hint() {
            Some(h) => {
                append_str(out, " ");
                append_str(out, "[");
                append_str(out, h);
                append_str(out, "]");
                assert(out@ =~= old(out)@ + hint_suffix(*v));
            },
            None => {
                assert(out@ =~= old(out)@ + hint_suffix(*v));
            },
        },
        None => {
            assert(out@ =~= old(out)@ + hint_suffix(*v));
        },
    }
}

fn push_required_mark(out: &mut String, b: bool)
    ensures
        final(out)@ == old(out)@ + required_mark(b),
{
    if b {
        append_str(out, " ");
        append_str(out, "(required)");
        assert(out@ =~= old(out)@ + required_mark(b));
    } else {
        assert(out@ =~= old(out)@ + required_mark(b));
    }
}

fn push_multi_mark(out: &mut String, b: bool)
    ensures
        final(out)@ == old(out)@ + multi_mark(b),
{
    if b {
        append_str(out, " ");
        append_str(out, "(multiple)");
        assert(out@ =~= old(out)@ + multi_mark(b));
    } else {
        assert(out@ =~= old(out)@ + multi_mark(b));
    }
}

fn push_default_mark(out: &mut String, d: &Option<String>)
    ensures
        final(out)@ == old(out)@ + default_mark(*d),
{
    match d {
        Some(v) => {
            append_str(out, " ");
            append_str(out, "[default: ");
            append_str(out, v.as_str());
            append_str(out, "]");
        },
        None => {},
    }
    assert(out@ =~= old(out)@ + default_mark(*d));
}

fn push_env_mark(out: &mut String, e: &Option<String>)
    ensures
        final(out)@ == old(out)@ + env_mark(*e),
{
    match e {
        Some(v) => {
            append_str(out, " ");
            append_str(out, "[env: ");
            append_str(out, v.as_str());
            append_str(out, "]");
        },
        None => {},
    }
    assert(out@ =~= old(out)@ + env_mark(*e));
}

fn option_entry(o: &OptionDef) -> (r: HelpEntry)
    ensures
        r.label@ == option_label(*o),
        r.description@ == option_description(*o),
{
    let mut label = String::new();
    push_flag_label(&mut label, o.short, o.long.as_str());
    append_str(&mut label, " ");
    append_str(&mut label, "<");
    append_str(&mut label, o.placeholder.as_str());
    append_str(&mut label, ">");
    assert(label@ =~= option_label(*o));
    let mut d = o.description.clone();
    push_required_mark(&mut d, o.required);
    push_multi_mark(&mut d, o.multi);
    push_default_mark(&mut d, &o.default);
    push_env_mark(&mut d, &o.env_var);
    push_hint(&mut d, &o.validator);
    HelpEntry { label, description: d }
}

fn positional_entry(p: &PositionalDef) -> (r: HelpEntry)
    ensures
        r.label@ == positional_label(*p),
        r.description@ == positional_description(*p),
{
    let mut label = p.name.clone();
    if p.multi {
        append_str(&mut label, "...");
    }
    assert(label@ =~= positional_label(*p));
    let mut d = p.description.clone();
    push_required_mark(&mut d, p.required);
    push_default_mark(&mut d, &p.default);
    push_hint(&mut d, &p.validator);
    HelpEntry { label, description: d }
}

/// Help entries of the visible flags and options.
fn visible_entries(p: &ArgParser) -> (r: Vec<HelpEntry>)
    ensures
        entries_view(r@) == flag_entries(p.flags@) + option_entries(p.options@),
{
    let mut entries: Vec<HelpEntry> = Vec::new();
    let mut i: usize = 0;
    while i < p.flags.len()
        invariant
            i <= p.flags.len(),
            entries_view(entries@) == flag_entries(p.flags@.take(i as int)),
        decreases p.flags.len() - i,
    {
        assert(p.flags@.take(i + 1).drop_last() =~= p.flags@.take(i as int));
        let ghost before = entries@;
        let f = &p.flags[i];
        if !f.hidden {
            let mut label = String::new();
            push_flag_label(&mut label, f.short, f.long.as_str());
            let e = HelpEntry { label, description: f.description.clone() };
            entries.push(e);
            assert(entries_view(entries@) =~= entries_view(before) + seq![(flag_label(*f), f.description@)]);
        } else {
            assert(entries_view(entries@) =~= entries_view(before) + Seq::<Entry>::empty());
        }
        i += 1;
    }
    assert(p.flags@.take(p.flags.len() as int) =~= p.flags@);
    let ghost flag_part = entries_view(entries@);
    let mut k: usize = 0;
    while k < p.options.len()
        invariant
            k <= p.options.len(),
            flag_part == flag_entries(p.flags@),
            entries_view(entries@) == flag_part + option_entries(p.options@.take(k as int)),
        decreases p.options.len() - k,
    {
        assert(p.options@.take(k + 1).drop_last() =~= p.options@.take(k as int));
        let ghost before = entries@;
        let o = &p.options[k];
        if !o.hidden {
            let e = option_entry(o);
            entries.push(e);
            assert(entries_view(entries@) =~= entries_view(before) + seq![(option_label(*o), option_description(*o))]);
        } else {
            assert(entries_view(entries@) =~= entries_view(before) + Seq::<Entry>::empty());
        }
        k += 1;
        assert(entries_view(entries@) =~= flag_part + option_entries(p.options@.take(k as int)));
    }
    assert(p.options@.take(p.options.len() as int) =~= p.options@);
    entries
}

/// Help entries of the positionals.
fn positional_help_entries(p: &ArgParser) -> (r: Vec<HelpEntry>)
    ensures
        entries_view(r@) == positional_entries(p.positionals@),
{
    let mut pentries: Vec<HelpEntry> = Vec::new();
    let mut j: usize = 0;
    while j < p.positionals.len()
        invariant
            j <= p.positionals.len(),
            entries_view(pentries@) == positional_entries(p.positionals@.take(j as int)),
        decreases p.positionals.len() - j,
    {
        let ghost before = pentries@;
        let e = positional_entry(&p.positionals[j]);
        pentries.push(e);
        assert(entries_view(pentries@) =~= entries_view(before).push(
            (positional_label(p.positionals@[j as int]), positional_description(p.positionals@[j as int])),
        ));
        assert(positional_entries(p.positionals@.take(j + 1)) =~= positional_entries(
            p.positionals@.take(j as int),
        ).push(
            (positional_label(p.positionals@[j as int]), positional_description(p.positionals@[j as int])),
        ));
        j += 1;
    }
    assert(p.positionals@.take(p.positionals.len() as int) =~= p.positionals@);
    pentries
}

/// Help entries of the subcommands.
fn subcommand_help_entries(p: &ArgParser) -> (r: Vec<HelpEntry>)
    ensures
        entries_view(r@) == subcommand_entries(p.subcommands@),
{
    let mut sentries: Vec<HelpEntry> = Vec::new();
    let mut j: usize = 0;
    while j < p.subcommands.len()
        invariant
            j <= p.subcommands.len(),
            entries_view(sentries@) == subcommand_entries(p.subcommands@.take(j as int)),
        decreases p.subcommands.len() - j,
    {
        let ghost before = sentries@;
        let sub = &p.subcommands[j];
        sentries.push(HelpEntry { label: sub.name.clone(), description: sub.description.clone() });
        assert(entries_view(sentries@) =~= entries_view(before).push((sub.name@, sub.description@)));
        assert(subcommand_entries(p.subcommands@.take(j + 1)) =~= subcommand_entries(
            p.subcommands@.take(j as int),
        ).push((sub.name@, sub.description@)));
        j += 1;
    }
    assert(p.subcommands@.take(p.subcommands.len() as int) =~= p.subcommands@);
    sentries
}

/// The usage line, with its newline.
fn usage_line(p: &ArgParser, has_visible: bool) -> (r: String)
    ensures
        r@ == "Usage:"@ + " "@ + match p.program_name {
            Some(n) => n@,
            None => "program"@,
        } + (if has_visible {
            " [OPTIONS]"@
        } else {
            seq![]
        }) + (if p.subcommands@.len() > 0 {
            " "@ + "<SUBCOMMAND>"@
        } else {
            positional_usage(p.positionals@)
        }) + "\n"@,
{
    let mut out = owned("Usage:");
    append_str(&mut out, " ");
    match &p.program_name {
        Some(n) => append_str(&mut out, n.as_str()),
        None => append_str(&mut out, "program"),
    }
    if has_visible {
        append_str(&mut out, " [OPTIONS]");
    }
    let ghost head = out@;
    if p.subcommands.len() > 0 {
        append_str(&mut out, " ");
        append_str(&mut out, "<SUBCOMMAND>");
    } else {
        let mut j: usize = 0;
        while j < p.positionals.len()
            invariant
                j <= p.positionals.len(),
                out@ == head + positional_usage(p.positionals@.take(j as int)),
            decreases p.positionals.len() - j,
        {
            assert(p.positionals@.take(j + 1).drop_last() =~= p.positionals@.take(j as int));
            let pd = &p.positionals[j];
            append_str(&mut out, " ");
            if pd.required {
                append_str(&mut out, "<");
                append_str(&mut out, pd.name.as_str());
                append_str(&mut out, ">");
            } else {
                append_str(&mut out, "[");
                append_str(&mut out, pd.name.as_str());
                append_str(&mut out, "]");
            }
            if pd.multi {
                append_str(&mut out, "...");
            }
            j += 1;
            assert(out@ =~= head + positional_usage(p.positionals@.take(j as int)));
        }
        assert(p.positionals@.take(p.positionals.len() as int) =~= p.positionals@);
    }
    append_str(&mut out, "\n");
    out
}

impl ArgParser {
    /// Generate formatted help text for this parser.
    ///
    /// Includes the description, usage line, options, positional arguments,
    /// and subcommands sections.
    pub fn help_text(&self) -> (r: String)
        ensures
            r@ == help_of(*self),
    {
        let mut out = String::new();
        match &self.program_desc {
            Some(d) => {
                append_str(&mut out, d.as_str());
                append_str(&mut out, "\n\n");
            },
            None => {},
        }
        let entries = visible_entries(self);
        let usage = usage_line(self, entries.len() > 0);
        append_str(&mut out, usage.as_str());
        let options_section = format_section("Options:", &entries);
        append_str(&mut out, options_section.as_str());
        if self.subcommands.len() == 0 {
            let pentries = positional_help_entries(self);
            let s = format_section("Positional arguments:", &pentries);
            append_str(&mut out, s.as_str());
        } else {
            let sentries = subcommand_help_entries(self);
            let s = format_section("Subcommands:", &sentries);
            append_str(&mut out, s.as_str());
        }
        assert(out@ =~= help_of(*self));
        out
    }
}

} // verus!
