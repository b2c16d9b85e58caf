//! Shell completion scripts for bash, zsh, fish and PowerShell.
use vstd::prelude::*;

use crate::parser::ArgParser;
use crate::text;
use crate::text::{append_str, concat_map, flat_map, owned, push_char, replace_chars};
use crate::types::{FlagDef, OptionDef, SubcommandDef};
use crate::validators::{join_strings, strs_view};

verus! {

/// Supported shell targets for completion script generation.
///
/// Use with [`ArgParser::generate_completions`] to produce a shell-specific
/// completion script from a CLI schema. Accepted names (in any letter case):
/// `bash`, `zsh`, `fish`, `powershell` (or `pwsh`).
#[derive(Clone, Copy, Debug, PartialEq, Eq, Structural)]
pub enum Shell {
    /// GNU Bourne-Again Shell.
    Bash,
    /// Z Shell — supports descriptions and mutual-exclusion groups.
    Zsh,
    /// Friendly Interactive Shell.
    Fish,
    /// PowerShell (cross-platform).
    PowerShell,
}

/// The name a shell is written as.
pub open spec fn shell_name(s: Shell) -> Seq<char> {
    match s {
        Shell::Bash => "bash"@,
        Shell::Zsh => "zsh"@,
        Shell::Fish => "fish"@,
        Shell::PowerShell => "powershell"@,
    }
}

/// The shell that a lower-case name denotes, if any.
pub open spec fn shell_named(lower: Seq<char>) -> Option<Shell> {
    if lower == "bash"@ {
        Some(Shell::Bash)
    } else if lower == "zsh"@ {
        Some(Shell::Zsh)
    } else if lower == "fish"@ {
        Some(Shell::Fish)
    } else if lower == "powershell"@ || lower == "pwsh"@ {
        Some(Shell::PowerShell)
    } else {
        None
    }
}

/// What `str::to_lowercase` gives for `s` (Unicode lower-case mapping).
pub uninterp spec fn lowercase(s: Seq<char>) -> Seq<char>;

/// `str::to_lowercase`: the Unicode lower-case form of `s`, named
/// [`lowercase`]; nothing more is claimed of the mapping.
#[verifier::external_body]
fn to_lowercase(s: &str) -> (r: String)
    ensures
        r@ == lowercase(s@),
{
    s.to_lowercase()
}

impl Shell {
    /// The shell named by `lower`, the lower-case form of `given`; the
    /// error names `given` as it was written.
    pub fn from_lowercase(lower: &str, given: &str) -> (r: Result<Shell, String>)
        ensures
            match shell_named(lower@) {
                Some(sh) => r == Ok::<Shell, String>(sh),
                None => r matches Err(m) && m@ == "unsupported shell: "@ + given@,
            },
    {
        if text::same(lower, "bash") {
            Ok(Shell::Bash)
        } else if text::same(lower, "zsh") {
            Ok(Shell::Zsh)
        } else if text::same(lower, "fish") {
            Ok(Shell::Fish)
        } else if text::same(lower, "powershell") || text::same(lower, "pwsh") {
            Ok(Shell::PowerShell)
        } else {
            let mut m = owned("unsupported shell: ");
            append_str(&mut m, given);
            Err(m)
        }
    }

    /// The shell named by `s`, compared without regard to letter case.
    pub fn from_name(s: &str) -> (r: Result<Shell, String>)
        ensures
            match shell_named(lowercase(s@)) {
                Some(sh) => r == Ok::<Shell, String>(sh),
                None => r matches Err(m) && m@ == "unsupported shell: "@ + s@,
            },
    {
        let lower = to_lowercase(s);
        Shell::from_lowercase(lower.as_str(), s)
    }

    /// The name of the shell: `bash`, `zsh`, `fish` or `powershell`.
    pub fn to_string(&self) -> (r: String)
        ensures
            r@ == shell_name(*self),
    {
        match self {
            Shell::Bash => owned("bash"),
            Shell::Zsh => owned("zsh"),
            Shell::Fish => owned("fish"),
            Shell::PowerShell => owned("powershell"),
        }
    }
}

impl std::str::FromStr for Shell {
    type Err = String;

    fn from_str(s: &str) -> (r: Result<Self, Self::Err>)
        ensures
            match shell_named(lowercase(s@)) {
                Some(sh) => r == Ok::<Shell, String>(sh),
                None => r matches Err(m) && m@ == "unsupported shell: "@ + s@,
            },
    {
        Shell::from_name(s)
    }
}

// ----- common pieces -----

/// The program name used in scripts (`program` when none is set).
pub open spec fn prog_name(p: ArgParser) -> Seq<char> {
    match p.program_name {
        Some(n) => n@,
        None => "program"@,
    }
}

/// The program name with `-` turned into `_`, for shell function names.
pub open spec fn func_name(p: ArgParser) -> Seq<char> {
    text::replace_char(prog_name(p), '-', "_"@)
}

/// `s` when `b` holds, nothing otherwise.
pub open spec fn when(b: bool, s: Seq<char>) -> Seq<char> {
    if b {
        s
    } else {
        seq![]
    }
}

/// The completion script of `p` for `shell`.
pub open spec fn completion_script(p: ArgParser, shell: Shell) -> Seq<char> {
    match shell {
        Shell::Bash => bash_script(p),
        Shell::Zsh => zsh_script(p),
        Shell::Fish => fish_script(p),
        Shell::PowerShell => powershell_script(p),
    }
}

// ----- bash -----

/// `s` with `'` written so that it can stand in a single-quoted string.
pub open spec fn quote_escape(s: Seq<char>) -> Seq<char> {
    text::replace_char(s, '\'', "'\\''"@)
}

/// The words a flag completes to: `--long`, then `-c` when it has a short form.
pub open spec fn flag_words(f: FlagDef) -> Seq<Seq<char>> {
    if f.hidden {
        seq![]
    } else {
        match f.short {
            Some(c) => seq!["--"@ + f.long@, "-"@ + seq![c]],
            None => seq!["--"@ + f.long@],
        }
    }
}

/// The words an option completes to.
pub open spec fn option_words(o: OptionDef) -> Seq<Seq<char>> {
    if o.hidden {
        seq![]
    } else {
        match o.short {
            Some(c) => seq!["--"@ + o.long@, "-"@ + seq![c]],
            None => seq!["--"@ + o.long@],
        }
    }
}

/// The completable words of a parser: its visible flags, then options,
/// joined with spaces and quote-escaped.
pub open spec fn bash_words(p: ArgParser) -> Seq<char> {
    quote_escape(
        text::join(
            flat_map(p.flags@, |f: FlagDef| flag_words(f)) + flat_map(
                p.options@,
                |o: OptionDef| option_words(o),
            ),
            " "@,
        ),
    )
}

/// The opening of every bash script.
pub open spec fn bash_head(func: Seq<char>) -> Seq<char> {
    "_"@ + func + "() {\n"@ + "    local i cur prev opts cmd\n"@ + "    COMPREPLY=()\n"@
        + "    if type _init_completion &>/dev/null; then\n"@ + "        _init_completion || return\n"@
        + "    else\n"@ + "        cur=\"${COMP_WORDS[COMP_CWORD]}\"\n"@
        + "        prev=\"${COMP_WORDS[COMP_CWORD-1]}\"\n"@ + "    fi\n\n"@
}

/// The line that records which subcommand was typed.
pub open spec fn bash_case_line(s: SubcommandDef) -> Seq<char> {
    "            "@ + s.name@ + ") cmd=\""@ + s.name@ + "\";;\n"@
}

/// The branch that completes a subcommand's words.
pub open spec fn bash_sub_branch(s: SubcommandDef) -> Seq<char> {
    "        "@ + s.name@ + ")\n"@ + "            opts=\""@ + bash_words(s.parser) + "\"\n"@
        + "            ;;\n"@
}

/// The body of a bash script for a parser with subcommands.
pub open spec fn bash_dispatch(p: ArgParser) -> Seq<char> {
    let subs = p.subcommands@;
    let names = subs.map_values(|s: SubcommandDef| s.name@);
    "    cmd=\"\"\n"@ + "    for i in \"${COMP_WORDS[@]}\"; do\n"@ + "        case \"${i}\" in\n"@
        + concat_map(subs, |s: SubcommandDef| bash_case_line(s)) + "        esac\n"@ + "    done\n\n"@
        + "    case \"${cmd}\" in\n"@ + concat_map(subs, |s: SubcommandDef| bash_sub_branch(s))
        + "        *)\n"@ + "            opts=\""@ + text::trimmed(
        text::join(names, " "@) + " "@ + bash_words(p),
    ) + "\"\n"@ + "            ;;\n"@ + "    esac\n\n"@
        + "    COMPREPLY=($(compgen -W \"${opts}\" -- \"${cur}\"))\n"@
}

/// The bash completion script of `p`.
pub open spec fn bash_script(p: ArgParser) -> Seq<char> {
    let func = func_name(p);
    bash_head(func) + (if p.subcommands@.len() == 0 {
        "    opts=\""@ + bash_words(p) + "\"\n"@
            + "    COMPREPLY=($(compgen -W \"${opts}\" -- \"${cur}\"))\n"@
    } else {
        bash_dispatch(p)
    }) + "}\n\n"@ + "complete -F _"@ + func + " -o bashdefault -o default "@ + prog_name(p)
        + "\n"@
}

// ----- zsh -----

/// `s` with `[`, `]` and `:` escaped for zsh `_arguments` specs.
pub open spec fn zsh_escape(s: Seq<char>) -> Seq<char> {
    text::replace_char(
        text::replace_char(text::replace_char(s, '[', "\\["@), ']', "\\]"@),
        ':',
        "\\:"@,
    )
}

/// One `_arguments` spec line: an exclusion group, the form, the escaped
/// description in brackets, and the value part of an option.
pub open spec fn zsh_line(indent: Seq<char>, group: Seq<char>, form: Seq<char>, desc: Seq<char>, arg: Seq<char>) -> Seq<char> {
    indent + "'"@ + group + form + "["@ + desc + "]"@ + arg + "' \\\n"@
}

/// The `_arguments` specs of a flag or option: with a short form, the long
/// and the short spec, each excluding the other.
pub open spec fn zsh_entry(indent: Seq<char>, hidden: bool, long: Seq<char>, short: Option<char>, description: Seq<char>, arg: Seq<char>) -> Seq<char> {
    let desc = zsh_escape(description);
    when(
        !hidden,
        match short {
            Some(c) => {
                let group = "(-"@ + seq![c] + " --"@ + long + ")"@;
                zsh_line(indent, group, "--"@ + long, desc, arg) + zsh_line(
                    indent,
                    group,
                    "-"@ + seq![c],
                    desc,
                    arg,
                )
            },
            None => zsh_line(indent, seq![], "--"@ + long, desc, arg),
        },
    )
}

/// The value placeholder of an option in zsh specs.
pub open spec fn zsh_placeholder(o: OptionDef) -> Seq<char> {
    if o.placeholder@.len() == 0 {
        "value"@
    } else {
        o.placeholder@
    }
}

/// The `_arguments` specs of a flag.
pub open spec fn zsh_flag(indent: Seq<char>, f: FlagDef) -> Seq<char> {
    zsh_entry(indent, f.hidden, f.long@, f.short, f.description@, seq![])
}

/// The `_arguments` specs of an option.
pub open spec fn zsh_option(indent: Seq<char>, o: OptionDef) -> Seq<char> {
    zsh_entry(indent, o.hidden, o.long@, o.short, o.description@, ":"@ + zsh_placeholder(o) + ":"@)
}

/// The `_arguments` specs of all visible flags and options of `p`.
pub open spec fn zsh_args(p: ArgParser, indent: Seq<char>) -> Seq<char> {
    concat_map(p.flags@, |f: FlagDef| zsh_flag(indent, f)) + concat_map(
        p.options@,
        |o: OptionDef| zsh_option(indent, o),
    )
}

/// The name of the zsh function that completes subcommand `s`.
pub open spec fn zsh_sub_func(func: Seq<char>, s: SubcommandDef) -> Seq<char> {
    "_"@ + func + "_"@ + text::replace_char(s.name@, '-', "_"@)
}

/// The dispatch branch of subcommand `s`.
pub open spec fn zsh_sub_branch(func: Seq<char>, s: SubcommandDef) -> Seq<char> {
    "                "@ + s.name@ + ")\n"@ + "                    "@ + zsh_sub_func(func, s) + "\n"@
        + "                    ;;\n"@
}

/// The description entry of subcommand `s`.
pub open spec fn zsh_sub_entry(s: SubcommandDef) -> Seq<char> {
    "                        '"@ + s.name@ + ":"@ + zsh_escape(s.description@) + "'\n"@
}

/// The completion function of subcommand `s`.
pub open spec fn zsh_sub_function(func: Seq<char>, s: SubcommandDef) -> Seq<char> {
    zsh_sub_func(func, s) + "() {\n"@ + "    _arguments \\\n"@ + zsh_args(s.parser, "        "@)
        + "}\n\n"@
}

/// The main function of a zsh script for a parser with subcommands, and
/// the functions of its subcommands.
pub open spec fn zsh_dispatch(p: ArgParser, func: Seq<char>) -> Seq<char> {
    let subs = p.subcommands@;
    "_"@ + func + "() {\n"@ + "    local line state\n\n"@ + "    _arguments \\\n"@ + zsh_args(
        p,
        "        "@,
    ) + "        '*::subcmd:->subcmd' && return\n\n"@ + "    case $state in\n"@ + "        subcmd)\n"@
        + "            case $line[1] in\n"@ + concat_map(
        subs,
        |s: SubcommandDef| zsh_sub_branch(func, s),
    ) + "                *)\n"@ + "                    local -a subcmds\n"@
        + "                    subcmds=(\n"@ + concat_map(subs, |s: SubcommandDef| zsh_sub_entry(s))
        + "                    )\n"@ + "                    _describe 'subcommand' subcmds\n"@
        + "                    ;;\n"@ + "            esac\n"@ + "            ;;\n"@ + "    esac\n"@
        + "}\n\n"@ + concat_map(subs, |s: SubcommandDef| zsh_sub_function(func, s))
}

/// The zsh completion script of `p`.
pub open spec fn zsh_script(p: ArgParser) -> Seq<char> {
    let func = func_name(p);
    "#compdef "@ + prog_name(p) + "\n\n"@ + (if p.subcommands@.len() == 0 {
        "_"@ + func + "() {\n"@ + "    _arguments \\\n"@ + zsh_args(p, "        "@) + "}\n\n"@
    } else {
        zsh_dispatch(p, func)
    }) + "compdef _"@ + func + " "@ + prog_name(p) + "\n"@
}

// ----- fish -----

/// ` -s c` for a short form.
pub open spec fn fish_short(short: Option<char>) -> Seq<char> {
    match short {
        Some(c) => " -s "@ + seq![c],
        None => seq![],
    }
}

/// ` -d 'description'` for a description that is not empty.
pub open spec fn fish_desc(d: Seq<char>) -> Seq<char> {
    when(d.len() > 0, " -d '"@ + quote_escape(d) + "'"@)
}

/// The `complete` line of a flag or option, after the given prefix
/// (`complete -c name ...`); an option is marked ` -r` as taking a value.
pub open spec fn fish_entry(prefix: Seq<char>, hidden: bool, long: Seq<char>, short: Option<char>, takes_value: bool, desc: Seq<char>) -> Seq<char> {
    when(
        !hidden,
        prefix + " -l "@ + long + fish_short(short) + when(takes_value, " -r"@) + fish_desc(desc)
            + "\n"@,
    )
}

/// The `complete` line of a flag.
pub open spec fn fish_flag(prefix: Seq<char>, f: FlagDef) -> Seq<char> {
    fish_entry(prefix, f.hidden, f.long@, f.short, false, f.description@)
}

/// The `complete` line of an option.
pub open spec fn fish_option(prefix: Seq<char>, o: OptionDef) -> Seq<char> {
    fish_entry(prefix, o.hidden, o.long@, o.short, true, o.description@)
}

/// The lines of subcommand `s`: its name, then its flags and options.
pub open spec fn fish_sub(name: Seq<char>, s: SubcommandDef) -> Seq<char> {
    let prefix = "complete -c "@ + name + " -n '__fish_seen_subcommand_from "@ + s.name@ + "'"@;
    "complete -c "@ + name + " -n '__fish_use_subcommand' -a "@ + s.name@ + fish_desc(
        s.description@,
    ) + "\n"@ + concat_map(s.parser.flags@, |f: FlagDef| fish_flag(prefix, f)) + concat_map(
        s.parser.options@,
        |o: OptionDef| fish_option(prefix, o),
    )
}

/// The fish completion script of `p`.
pub open spec fn fish_script(p: ArgParser) -> Seq<char> {
    let name = prog_name(p);
    let prefix = "complete -c "@ + name + when(
        p.subcommands@.len() > 0,
        " -n '__fish_use_subcommand'"@,
    );
    concat_map(p.flags@, |f: FlagDef| fish_flag(prefix, f)) + concat_map(
        p.options@,
        |o: OptionDef| fish_option(prefix, o),
    ) + concat_map(p.subcommands@, |s: SubcommandDef| fish_sub(name, s))
}

// ----- PowerShell -----

/// `s` with `'` doubled, for PowerShell single-quoted strings.
pub open spec fn ps_escape(s: Seq<char>) -> Seq<char> {
    text::replace_char(s, '\'', "''"@)
}

/// One `CompletionResult` line.
pub open spec fn ps_result(indent: Seq<char>, word: Seq<char>, kind: Seq<char>, desc: Seq<char>) -> Seq<
    char,
> {
    indent + "[System.Management.Automation.CompletionResult]::new('"@ + word + "', '"@ + word
        + "', '"@ + kind + "', '"@ + desc + "')\n"@
}

/// The completion lines of a flag or option: the long form, then the short one.
pub open spec fn ps_entry(indent: Seq<char>, hidden: bool, long: Seq<char>, short: Option<char>, desc: Seq<char>) -> Seq<char> {
    let d = ps_escape(desc);
    when(
        !hidden,
        ps_result(indent, "--"@ + long, "ParameterName"@, d) + match short {
            Some(c) => ps_result(indent, "-"@ + seq![c], "ParameterName"@, d),
            None => seq![],
        },
    )
}

/// The completion lines of the visible flags and options of `p`.
pub open spec fn ps_completions(p: ArgParser, indent: Seq<char>) -> Seq<char> {
    concat_map(
        p.flags@,
        |f: FlagDef| ps_entry(indent, f.hidden, f.long@, f.short, f.description@),
    ) + concat_map(
        p.options@,
        |o: OptionDef| ps_entry(indent, o.hidden, o.long@, o.short, o.description@),
    )
}

/// The line that records which subcommand was typed.
pub open spec fn ps_switch_line(s: SubcommandDef) -> Seq<char> {
    "            '"@ + s.name@ + "' { $subcmd = '"@ + s.name@ + "' }\n"@
}

/// The branch that completes a subcommand.
pub open spec fn ps_sub_branch(s: SubcommandDef) -> Seq<char> {
    "        '"@ + s.name@ + "' {\n"@ + "            $completions = @(\n"@ + ps_completions(
        s.parser,
        "                "@,
    ) + "            )\n"@ + "        }\n"@
}

/// The completion line of a subcommand name.
pub open spec fn ps_sub_name(s: SubcommandDef) -> Seq<char> {
    ps_result("                "@, s.name@, "ParameterValue"@, ps_escape(s.description@))
}

/// The filter that ends every PowerShell script block.
pub open spec fn ps_filter() -> Seq<char> {
    "    $completions | Where-Object { $_.CompletionText -like \"$wordToComplete*\" }\n"@
}

/// The body of a PowerShell script for a parser with subcommands.
pub open spec fn ps_dispatch(p: ArgParser) -> Seq<char> {
    let subs = p.subcommands@;
    "    # Determine the subcommand\n"@ + "    $tokens = $commandName -split '\\s+'\n"@
        + "    $subcmd = $null\n"@ + "    foreach ($t in $tokens[1..($tokens.Length - 1)]) {\n"@
        + "        switch ($t) {\n"@ + concat_map(subs, |s: SubcommandDef| ps_switch_line(s))
        + "        }\n"@ + "    }\n\n"@ + "    $completions = @()\n\n"@ + "    switch ($subcmd) {\n"@
        + concat_map(subs, |s: SubcommandDef| ps_sub_branch(s)) + "        default {\n"@
        + "            $completions = @(\n"@ + ps_completions(p, "                "@) + concat_map(
        subs,
        |s: SubcommandDef| ps_sub_name(s),
    ) + "            )\n"@ + "        }\n"@ + "    }\n\n"@ + ps_filter()
}

/// The PowerShell completion script of `p`.
pub open spec fn powershell_script(p: ArgParser) -> Seq<char> {
    "Register-ArgumentCompleter -CommandName '"@ + prog_name(p) + "' -ScriptBlock {\n"@
        + "    param($commandName, $wordToComplete, $cursorPosition)\n\n"@ + (
    if p.subcommands@.len() == 0 {
        "    $completions = @(\n"@ + ps_completions(p, "        "@) + "    )\n\n"@ + ps_filter()
    } else {
        ps_dispatch(p)
    }) + "}\n"@
}

// ----- generation -----

/// The program name used in scripts.
fn program_or_default(p: &ArgParser) -> (r: String)
    ensures
        r@ == prog_name(*p),
{
    match &p.program_name {
        Some(n) => n.clone(),
        None => owned("program"),
    }
}

/// Appends the words of a flag or option.
fn push_words(words: &mut Vec<String>, hidden: bool, long: &str, short: Option<char>)
    ensures
        strs_view(final(words)@) == strs_view(old(words)@) + (if hidden {
            Seq::<Seq<char>>::empty()
        } else {
            match short {
                Some(c) => seq!["--"@ + long@, "-"@ + seq![c]],
                None => seq!["--"@ + long@],
            }
        }),
{
    if hidden {
        assert(strs_view(words@) =~= strs_view(old(words)@) + Seq::<Seq<char>>::empty());
        return;
    }
    let mut w = owned("--");
    append_str(&mut w, long);
    words.push(w);
    match short {
        Some(c) => {
            let mut w2 = owned("-");
            push_char(&mut w2, c);
            assert(w2@ =~= "-"@ + seq![c]);
            let ghost mid = words@;
            assert(strs_view(mid) =~= strs_view(old(words)@) + seq!["--"@ + long@]);
            words.push(w2);
            assert(strs_view(words@) =~= strs_view(mid).push("-"@ + seq![c]));
            assert(strs_view(words@) =~= strs_view(old(words)@) + seq!["--"@ + long@, "-"@ + seq![c]]);
        },
        None => {
            assert(strs_view(words@) =~= strs_view(old(words)@) + seq!["--"@ + long@]);
        },
    }
}

/// The completable words of a parser, joined and quote-escaped.
fn completable_words(p: &ArgParser) -> (r: String)
    ensures
        r@ == bash_words(*p),
{
    let ghost ff = |f: FlagDef| flag_words(f);
    let ghost fo = |o: OptionDef| option_words(o);
    let mut words: Vec<String> = Vec::new();
    assert(strs_view(words@) =~= flat_map(p.flags@.take(0), ff));
    let mut i: usize = 0;
    while i < p.flags.len()
        invariant
            i <= p.flags.len(),
            ff == (|f: FlagDef| flag_words(f)),
            strs_view(words@) == flat_map(p.flags@.take(i as int), ff),
        decreases p.flags.len() - i,
    {
        proof {
            text::lemma_flat_map_step(p.flags@, ff, i as int);
        }
        let f = &p.flags[i];
        push_words(&mut words, f.hidden, f.long.as_str(), f.short);
        i += 1;
    }
    assert(p.flags@.take(p.flags.len() as int) =~= p.flags@);
    let ghost flag_part = strs_view(words@);
    assert(flat_map(p.options@.take(0), fo) =~= Seq::<Seq<char>>::empty());
    assert(strs_view(words@) =~= flag_part + flat_map(p.options@.take(0), fo));
    let mut k: usize = 0;
    while k < p.options.len()
        invariant
            k <= p.options.len(),
            fo == (|o: OptionDef| option_words(o)),
            flag_part == flat_map(p.flags@, ff),
            strs_view(words@) == flag_part + flat_map(p.options@.take(k as int), fo),
        decreases p.options.len() - k,
    {
        proof {
            text::lemma_flat_map_step(p.options@, fo, k as int);
        }
        let o = &p.options[k];
        push_words(&mut words, o.hidden, o.long.as_str(), o.short);
        k += 1;
        assert(strs_view(words@) =~= flag_part + flat_map(p.options@.take(k as int), fo));
    }
    assert(p.options@.take(p.options.len() as int) =~= p.options@);
    let joined = join_strings(&words, " ");
    replace_chars(joined.as_str(), '\'', "'\\''")
}

/// The body of a bash script for a parser with subcommands.
fn bash_dispatch_text(p: &ArgParser) -> (r: String)
    ensures
        r@ == bash_dispatch(*p),
{
    let ghost subs = p.subcommands@;
    let ghost fc = |s: SubcommandDef| bash_case_line(s);
    let ghost fb = |s: SubcommandDef| bash_sub_branch(s);
    let mut out = owned("    cmd=\"\"\n");
    append_str(&mut out, "    for i in \"${COMP_WORDS[@]}\"; do\n");
    append_str(&mut out, "        case \"${i}\" in\n");
    let ghost h1 = out@;
    let mut names: Vec<String> = Vec::new();
    let mut i: usize = 0;
    while i < p.subcommands.len()
        invariant
            i <= p.subcommands.len(),
            subs == p.subcommands@,
            fc == (|s: SubcommandDef| bash_case_line(s)),
            out@ == h1 + concat_map(subs.take(i as int), fc),
            strs_view(names@) == subs.take(i as int).map_values(|s: SubcommandDef| s.name@),
        decreases p.subcommands.len() - i,
    {
        proof {
            text::lemma_concat_map_step(subs, fc, i as int);
        }
        let sub = &p.subcommands[i];
        let ghost before = names@;
        append_str(&mut out, "            ");
        append_str(&mut out, sub.name.as_str());
        append_str(&mut out, ") cmd=\"");
        append_str(&mut out, sub.name.as_str());
        append_str(&mut out, "\";;\n");
        names.push(text::copy_string(&sub.name));
        assert(strs_view(names@) =~= strs_view(before).push(sub.name@));
        assert(subs.take(i + 1) =~= subs.take(i as int).push(subs[i as int]));
        i += 1;
        assert(out@ =~= h1 + concat_map(subs.take(i as int), fc));
        assert(strs_view(names@) =~= subs.take(i as int).map_values(|s: SubcommandDef| s.name@));
    }
    assert(subs.take(subs.len() as int) =~= subs);
    append_str(&mut out, "        esac\n");
    append_str(&mut out, "    done\n\n");
    append_str(&mut out, "    case \"${cmd}\" in\n");
    let ghost h2 = out@;
    let mut j: usize = 0;
    while j < p.subcommands.len()
        invariant
            j <= p.subcommands.len(),
            subs == p.subcommands@,
            fb == (|s: SubcommandDef| bash_sub_branch(s)),
            out@ == h2 + concat_map(subs.take(j as int), fb),
        decreases p.subcommands.len() - j,
    {
        proof {
            text::lemma_concat_map_step(subs, fb, j as int);
        }
        let sub = &p.subcommands[j];
        let words = completable_words(&sub.parser);
        append_str(&mut out, "        ");
        append_str(&mut out, sub.name.as_str());
        append_str(&mut out, ")\n");
        append_str(&mut out, "            opts=\"");
        append_str(&mut out, words.as_str());
        append_str(&mut out, "\"\n");
        append_str(&mut out, "            ;;\n");
        j += 1;
        assert(out@ =~= h2 + concat_map(subs.take(j as int), fb));
    }
    let top = completable_words(p);
    let mut all_top = join_strings(&names, " ");
    append_str(&mut all_top, " ");
    append_str(&mut all_top, top.as_str());
    let trimmed = text::trim_text(all_top.as_str());
    append_str(&mut out, "        *)\n");
    append_str(&mut out, "            opts=\"");
    append_str(&mut out, trimmed.as_str());
    append_str(&mut out, "\"\n");
    append_str(&mut out, "            ;;\n");
    append_str(&mut out, "    esac\n\n");
    append_str(&mut out, "    COMPREPLY=($(compgen -W \"${opts}\" -- \"${cur}\"))\n");
    assert(out@ =~= bash_dispatch(*p));
    out
}

/// The bash completion script.
fn generate_bash(p: &ArgParser) -> (r: String)
    ensures
        r@ == bash_script(*p),
{
    let name = program_or_default(p);
    let func = replace_chars(name.as_str(), '-', "_");
    let mut out = owned("_");
    append_str(&mut out, func.as_str());
    append_str(&mut out, "() {\n");
    append_str(&mut out, "    local i cur prev opts cmd\n");
    append_str(&mut out, "    COMPREPLY=()\n");
    append_str(&mut out, "    if type _init_completion &>/dev/null; then\n");
    append_str(&mut out, "        _init_completion || return\n");
    append_str(&mut out, "    else\n");
    append_str(&mut out, "        cur=\"${COMP_WORDS[COMP_CWORD]}\"\n");
    append_str(&mut out, "        prev=\"${COMP_WORDS[COMP_CWORD-1]}\"\n");
    append_str(&mut out, "    fi\n\n");
    assert(out@ =~= bash_head(func@));
    if p.subcommands.len() == 0 {
        let words = completable_words(p);
        append_str(&mut out, "    opts=\"");
        append_str(&mut out, words.as_str());
        append_str(&mut out, "\"\n");
        append_str(&mut out, "    COMPREPLY=($(compgen -W \"${opts}\" -- \"${cur}\"))\n");
    } else {
        let body = bash_dispatch_text(p);
        append_str(&mut out, body.as_str());
    }
    append_str(&mut out, "}\n\n");
    append_str(&mut out, "complete -F _");
    append_str(&mut out, func.as_str());
    append_str(&mut out, " -o bashdefault -o default ");
    append_str(&mut out, name.as_str());
    append_str(&mut out, "\n");
    assert(out@ =~= bash_script(*p));
    out
}

/// `s` escaped for zsh specs.
fn zsh_escape_text(s: &str) -> (r: String)
    ensures
        r@ == zsh_escape(s@),
{
    let a = replace_chars(s, '[', "\\[");
    let b = replace_chars(a.as_str(), ']', "\\]");
    replace_chars(b.as_str(), ':', "\\:")
}

/// Appends one zsh spec line.
fn push_zsh_line(out: &mut String, indent: &str, group: &str, form: &str, desc: &str, arg: &str)
    ensures
        final(out)@ == old(out)@ + zsh_line(indent@, group@, form@, desc@, arg@),
{
    append_str(out, indent);
    append_str(out, "'");
    append_str(out, group);
    append_str(out, form);
    append_str(out, "[");
    append_str(out, desc);
    append_str(out, "]");
    append_str(out, arg);
    append_str(out, "' \\\n");
    assert(out@ =~= old(out)@ + zsh_line(indent@, group@, form@, desc@, arg@));
}

/// Appends the zsh specs of a flag or option.
fn push_zsh_entry(out: &mut String, indent: &str, hidden: bool, long: &str, short: Option<char>, description: &str, arg: &str)
    ensures
        final(out)@ == old(out)@ + zsh_entry(indent@, hidden, long@, short, description@, arg@),
{
    if hidden {
        assert(out@ =~= old(out)@ + zsh_entry(indent@, hidden, long@, short, description@, arg@));
        return;
    }
    let desc = zsh_escape_text(description);
    let mut long_form = owned("--");
    append_str(&mut long_form, long);
    match short {
        Some(c) => {
            let mut group = owned("(-");
            push_char(&mut group, c);
            append_str(&mut group, " --");
            append_str(&mut group, long);
            append_str(&mut group, ")");
            let mut short_form = owned("-");
            push_char(&mut short_form, c);
            assert(group@ =~= "(-"@ + seq![c] + " --"@ + long@ + ")"@);
            assert(short_form@ =~= "-"@ + seq![c]);
            push_zsh_line(out, indent, group.as_str(), long_form.as_str(), desc.as_str(), arg);
            push_zsh_line(out, indent, group.as_str(), short_form.as_str(), desc.as_str(), arg);
        },
        None => {
            proof {
                reveal_strlit("");
            }
            push_zsh_line(out, indent, "", long_form.as_str(), desc.as_str(), arg);
        },
    }
    assert(out@ =~= old(out)@ + zsh_entry(indent@, hidden, long@, short, description@, arg@));
}

/// Appends the zsh specs of a flag.
fn push_zsh_flag(out: &mut String, indent: &str, f: &FlagDef)
    ensures
        final(out)@ == old(out)@ + zsh_flag(indent@, *f),
{
    proof {
        reveal_strlit("");
    }
    push_zsh_entry(out, indent, f.hidden, f.long.as_str(), f.short, f.description.as_str(), "");
}

/// Appends the zsh specs of an option.
fn push_zsh_option(out: &mut String, indent: &str, o: &OptionDef)
    ensures
        final(out)@ == old(out)@ + zsh_option(indent@, *o),
{
    let mut arg = owned(":");
    if o.placeholder.as_str().is_empty() {
        append_str(&mut arg, "value");
    } else {
        append_str(&mut arg, o.placeholder.as_str());
    }
    append_str(&mut arg, ":");
    assert(arg@ =~= ":"@ + zsh_placeholder(*o) + ":"@);
    push_zsh_entry(out, indent, o.hidden, o.long.as_str(), o.short, o.description.as_str(), arg.as_str());
}

/// Appends the zsh specs of all visible flags and options of `p`.
fn push_zsh_args(out: &mut String, p: &ArgParser, indent: &str)
    ensures
        final(out)@ == old(out)@ + zsh_args(*p, indent@),
{
    let ghost ff = |f: FlagDef| zsh_flag(indent@, f);
    let ghost fo = |o: OptionDef| zsh_option(indent@, o);
    let ghost h0 = out@;
    assert(out@ =~= h0 + concat_map(p.flags@.take(0), ff));
    let mut i: usize = 0;
    while i < p.flags.len()
        invariant
            i <= p.flags.len(),
            ff == (|f: FlagDef| zsh_flag(indent@, f)),
            out@ == h0 + concat_map(p.flags@.take(i as int), ff),
        decreases p.flags.len() - i,
    {
        proof {
            text::lemma_concat_map_step(p.flags@, ff, i as int);
        }
        push_zsh_flag(out, indent, &p.flags[i]);
        i += 1;
        assert(out@ =~= h0 + concat_map(p.flags@.take(i as int), ff));
    }
    assert(p.flags@.take(p.flags.len() as int) =~= p.flags@);
    let ghost h1 = out@;
    assert(out@ =~= h1 + concat_map(p.options@.take(0), fo));
    let mut k: usize = 0;
    while k < p.options.len()
        invariant
            k <= p.options.len(),
            fo == (|o: OptionDef| zsh_option(indent@, o)),
            out@ == h1 + concat_map(p.options@.take(k as int), fo),
        decreases p.options.len() - k,
    {
        proof {
            text::lemma_concat_map_step(p.options@, fo, k as int);
        }
        push_zsh_option(out, indent, &p.options[k]);
        k += 1;
        assert(out@ =~= h1 + concat_map(p.options@.take(k as int), fo));
    }
    assert(p.options@.take(p.options.len() as int) =~= p.options@);
    assert(out@ =~= old(out)@ + zsh_args(*p, indent@));
}

/// The name of the zsh function of a subcommand.
fn zsh_sub_func_name(func: &str, sub: &SubcommandDef) -> (r: String)
    ensures
        r@ == zsh_sub_func(func@, *sub),
{
    let mut r = owned("_");
    append_str(&mut r, func);
    append_str(&mut r, "_");
    let n = replace_chars(sub.name.as_str(), '-', "_");
    append_str(&mut r, n.as_str());
    r
}

/// Appends the completion function of a subcommand.
fn push_zsh_sub_function(out: &mut String, func: &str, sub: &SubcommandDef)
    ensures
        final(out)@ == old(out)@ + zsh_sub_function(func@, *sub),
{
    let sf = zsh_sub_func_name(func, sub);
    append_str(out, sf.as_str());
    append_str(out, "() {\n");
    append_str(out, "    _arguments \\\n");
    push_zsh_args(out, &sub.parser, "        ");
    append_str(out, "}\n\n");
    assert(out@ =~= old(out)@ + zsh_sub_function(func@, *sub));
}

/// The main zsh function of a parser with subcommands, and the functions
/// of its subcommands.
fn zsh_dispatch_text(p: &ArgParser, func: &str) -> (r: String)
    ensures
        r@ == zsh_dispatch(*p, func@),
{
    let ghost subs = p.subcommands@;
    let ghost fb = |s: SubcommandDef| zsh_sub_branch(func@, s);
    let ghost fe = |s: SubcommandDef| zsh_sub_entry(s);
    let ghost ff = |s: SubcommandDef| zsh_sub_function(func@, s);
    let mut out = owned("_");
    append_str(&mut out, func);
    append_str(&mut out, "() {\n");
    append_str(&mut out, "    local line state\n\n");
    append_str(&mut out, "    _arguments \\\n");
    push_zsh_args(&mut out, p, "        ");
    append_str(&mut out, "        '*::subcmd:->subcmd' && return\n\n");
    append_str(&mut out, "    case $state in\n");
    append_str(&mut out, "        subcmd)\n");
    append_str(&mut out, "            case $line[1] in\n");
    let ghost h1 = out@;
    let mut i: usize = 0;
    while i < p.subcommands.len()
        invariant
            i <= p.subcommands.len(),
            subs == p.subcommands@,
            fb == (|s: SubcommandDef| zsh_sub_branch(func@, s)),
            out@ == h1 + concat_map(subs.take(i as int), fb),
        decreases p.subcommands.len() - i,
    {
        proof {
            text::lemma_concat_map_step(subs, fb, i as int);
        }
        let sub = &p.subcommands[i];
        let sf = zsh_sub_func_name(func, sub);
        append_str(&mut out, "                ");
        append_str(&mut out, sub.name.as_str());
        append_str(&mut out, ")\n");
        append_str(&mut out, "                    ");
        append_str(&mut out, sf.as_str());
        append_str(&mut out, "\n");
        append_str(&mut out, "                    ;;\n");
        i += 1;
        assert(out@ =~= h1 + concat_map(subs.take(i as int), fb));
    }
    assert(subs.take(subs.len() as int) =~= subs);
    append_str(&mut out, "                *)\n");
    append_str(&mut out, "                    local -a subcmds\n");
    append_str(&mut out, "                    subcmds=(\n");
    let ghost h2 = out@;
    let mut j: usize = 0;
    while j < p.subcommands.len()
        invariant
            j <= p.subcommands.len(),
            subs == p.subcommands@,
            fe == (|s: SubcommandDef| zsh_sub_entry(s)),
            out@ == h2 + concat_map(subs.take(j as int), fe),
        decreases p.subcommands.len() - j,
    {
        proof {
            text::lemma_concat_map_step(subs, fe, j as int);
        }
        let sub = &p.subcommands[j];
        let desc = zsh_escape_text(sub.description.as_str());
        append_str(&mut out, "                        '");
        append_str(&mut out, sub.name.as_str());
        append_str(&mut out, ":");
        append_str(&mut out, desc.as_str());
        append_str(&mut out, "'\n");
        j += 1;
        assert(out@ =~= h2 + concat_map(subs.take(j as int), fe));
    }
    append_str(&mut out, "                    )\n");
    append_str(&mut out, "                    _describe 'subcommand' subcmds\n");
    append_str(&mut out, "                    ;;\n");
    append_str(&mut out, "            esac\n");
    append_str(&mut out, "            ;;\n");
    append_str(&mut out, "    esac\n");
    append_str(&mut out, "}\n\n");
    let ghost h3 = out@;
    let mut k: usize = 0;
    while k < p.subcommands.len()
        invariant
            k <= p.subcommands.len(),
            subs == p.subcommands@,
            ff == (|s: SubcommandDef| zsh_sub_function(func@, s)),
            out@ == h3 + concat_map(subs.take(k as int), ff),
        decreases p.subcommands.len() - k,
    {
        proof {
            text::lemma_concat_map_step(subs, ff, k as int);
        }
        push_zsh_sub_function(&mut out, func, &p.subcommands[k]);
        k += 1;
        assert(out@ =~= h3 + concat_map(subs.take(k as int), ff));
    }
    assert(out@ =~= zsh_dispatch(*p, func@));
    out
}

/// The zsh completion script.
fn generate_zsh(p: &ArgParser) -> (r: String)
    ensures
        r@ == zsh_script(*p),
{
    let name = program_or_default(p);
    let func = replace_chars(name.as_str(), '-', "_");
    let mut out = owned("#compdef ");
    append_str(&mut out, name.as_str());
    append_str(&mut out, "\n\n");
    if p.subcommands.len() == 0 {
        append_str(&mut out, "_");
        append_str(&mut out, func.as_str());
        append_str(&mut out, "() {\n");
        append_str(&mut out, "    _arguments \\\n");
        push_zsh_args(&mut out, p, "        ");
        append_str(&mut out, "}\n\n");
    } else {
        let body = zsh_dispatch_text(p, func.as_str());
        append_str(&mut out, body.as_str());
    }
    append_str(&mut out, "compdef _");
    append_str(&mut out, func.as_str());
    append_str(&mut out, " ");
    append_str(&mut out, name.as_str());
    append_str(&mut out, "\n");
    assert(out@ =~= zsh_script(*p));
    out
}

/// Appends ` -d 'description'` for a description that is not empty.
fn push_fish_desc(out: &mut String, d: &str)
    ensures
        final(out)@ == old(out)@ + fish_desc(d@),
{
    if !d.is_empty() {
        let e = replace_chars(d, '\'', "'\\''");
        append_str(out, " -d '");
        append_str(out, e.as_str());
        append_str(out, "'");
    }
    assert(out@ =~= old(out)@ + fish_desc(d@));
}

/// Appends the `complete` line of a flag or option.
fn push_fish_entry(out: &mut String, prefix: &str, hidden: bool, long: &str, short: Option<char>, takes_value: bool, desc: &str)
    ensures
        final(out)@ == old(out)@ + fish_entry(prefix@, hidden, long@, short, takes_value, desc@),
{
    if !hidden {
        append_str(out, prefix);
        append_str(out, " -l ");
        append_str(out, long);
        match short {
            Some(c) => {
                append_str(out, " -s ");
                push_char(out, c);
            },
            None => {},
        }
        if takes_value {
            append_str(out, " -r");
        }
        push_fish_desc(out, desc);
        append_str(out, "\n");
    }
    assert(out@ =~= old(out)@ + fish_entry(prefix@, hidden, long@, short, takes_value, desc@));
}

/// Appends the `complete` lines of the flags and options of `p`.
fn push_fish_lines(out: &mut String, p: &ArgParser, prefix: &str)
    ensures
        final(out)@ == old(out)@ + concat_map(p.flags@, |f: FlagDef| fish_flag(prefix@, f))
            + concat_map(p.options@, |o: OptionDef| fish_option(prefix@, o)),
{
    let ghost ff = |f: FlagDef| fish_flag(prefix@, f);
    let ghost fo = |o: OptionDef| fish_option(prefix@, o);
    let ghost h0 = out@;
    assert(out@ =~= h0 + concat_map(p.flags@.take(0), ff));
    let mut i: usize = 0;
    while i < p.flags.len()
        invariant
            i <= p.flags.len(),
            ff == (|f: FlagDef| fish_flag(prefix@, f)),
            out@ == h0 + concat_map(p.flags@.take(i as int), ff),
        decreases p.flags.len() - i,
    {
        proof {
            text::lemma_concat_map_step(p.flags@, ff, i as int);
        }
        let f = &p.flags[i];
        push_fish_entry(out, prefix, f.hidden, f.long.as_str(), f.short, false, f.description.as_str());
        i += 1;
        assert(out@ =~= h0 + concat_map(p.flags@.take(i as int), ff));
    }
    assert(p.flags@.take(p.flags.len() as int) =~= p.flags@);
    let ghost h1 = out@;
    assert(out@ =~= h1 + concat_map(p.options@.take(0), fo));
    let mut k: usize = 0;
    while k < p.options.len()
        invariant
            k <= p.options.len(),
            fo == (|o: OptionDef| fish_option(prefix@, o)),
            out@ == h1 + concat_map(p.options@.take(k as int), fo),
        decreases p.options.len() - k,
    {
        proof {
            text::lemma_concat_map_step(p.options@, fo, k as int);
        }
        let o = &p.options[k];
        push_fish_entry(out, prefix, o.hidden, o.long.as_str(), o.short, true, o.description.as_str());
        k += 1;
        assert(out@ =~= h1 + concat_map(p.options@.take(k as int), fo));
    }
    assert(p.options@.take(p.options.len() as int) =~= p.options@);
    assert(out@ =~= old(out)@ + concat_map(p.flags@, ff) + concat_map(p.options@, fo));
}

/// Appends the lines of a subcommand.
fn push_fish_sub(out: &mut String, name: &str, sub: &SubcommandDef)
    ensures
        final(out)@ == old(out)@ + fish_sub(name@, *sub),
{
    append_str(out, "complete -c ");
    append_str(out, name);
    append_str(out, " -n '__fish_use_subcommand' -a ");
    append_str(out, sub.name.as_str());
    push_fish_desc(out, sub.description.as_str());
    append_str(out, "\n");
    let mut prefix = owned("complete -c ");
    append_str(&mut prefix, name);
    append_str(&mut prefix, " -n '__fish_seen_subcommand_from ");
    append_str(&mut prefix, sub.name.as_str());
    append_str(&mut prefix, "'");
    push_fish_lines(out, &sub.parser, prefix.as_str());
    assert(out@ =~= old(out)@ + fish_sub(name@, *sub));
}

/// The fish completion script.
fn generate_fish(p: &ArgParser) -> (r: String)
    ensures
        r@ == fish_script(*p),
{
    let name = program_or_default(p);
    let mut prefix = owned("complete -c ");
    append_str(&mut prefix, name.as_str());
    if p.subcommands.len() > 0 {
        append_str(&mut prefix, " -n '__fish_use_subcommand'");
    }
    assert(prefix@ =~= "complete -c "@ + name@ + when(
        p.subcommands@.len() > 0,
        " -n '__fish_use_subcommand'"@,
    ));
    let mut out = String::new();
    push_fish_lines(&mut out, p, prefix.as_str());
    let ghost subs = p.subcommands@;
    let ghost fs = |s: SubcommandDef| fish_sub(name@, s);
    let ghost h = out@;
    assert(out@ =~= h + concat_map(subs.take(0), fs));
    let mut i: usize = 0;
    while i < p.subcommands.len()
        invariant
            i <= p.subcommands.len(),
            subs == p.subcommands@,
            fs == (|s: SubcommandDef| fish_sub(name@, s)),
            out@ == h + concat_map(subs.take(i as int), fs),
        decreases p.subcommands.len() - i,
    {
        proof {
            text::lemma_concat_map_step(subs, fs, i as int);
        }
        push_fish_sub(&mut out, name.as_str(), &p.subcommands[i]);
        i += 1;
        assert(out@ =~= h + concat_map(subs.take(i as int), fs));
    }
    assert(subs.take(subs.len() as int) =~= subs);
    assert(out@ =~= fish_script(*p));
    out
}

/// Appends one `CompletionResult` line.
fn push_ps_result(out: &mut String, indent: &str, word: &str, kind: &str, desc: &str)
    ensures
        final(out)@ == old(out)@ + ps_result(indent@, word@, kind@, desc@),
{
    append_str(out, indent);
    append_str(out, "[System.Management.Automation.CompletionResult]::new('");
    append_str(out, word);
    append_str(out, "', '");
    append_str(out, word);
    append_str(out, "', '");
    append_str(out, kind);
    append_str(out, "', '");
    append_str(out, desc);
    append_str(out, "')\n");
    assert(out@ =~= old(out)@ + ps_result(indent@, word@, kind@, desc@));
}

/// Appends the completion lines of a flag or option.
fn push_ps_entry(out: &mut String, indent: &str, hidden: bool, long: &str, short: Option<char>, desc: &str)
    ensures
        final(out)@ == old(out)@ + ps_entry(indent@, hidden, long@, short, desc@),
{
    if !hidden {
        let d = replace_chars(desc, '\'', "''");
        let mut long_form = owned("--");
        append_str(&mut long_form, long);
        push_ps_result(out, indent, long_form.as_str(), "ParameterName", d.as_str());
        match short {
            Some(c) => {
                let mut short_form = owned("-");
                push_char(&mut short_form, c);
                assert(short_form@ =~= "-"@ + seq![c]);
                push_ps_result(out, indent, short_form.as_str(), "ParameterName", d.as_str());
            },
            None => {},
        }
    }
    assert(out@ =~= old(out)@ + ps_entry(indent@, hidden, long@, short, desc@));
}

/// Appends the completion lines of the visible flags and options of `p`.
fn push_ps_completions(out: &mut String, p: &ArgParser, indent: &str)
    ensures
        final(out)@ == old(out)@ + ps_completions(*p, indent@),
{
    let ghost ff = |f: FlagDef| ps_entry(indent@, f.hidden, f.long@, f.short, f.description@);
    let ghost fo = |o: OptionDef| ps_entry(indent@, o.hidden, o.long@, o.short, o.description@);
    let ghost h0 = out@;
    assert(out@ =~= h0 + concat_map(p.flags@.take(0), ff));
    let mut i: usize = 0;
    while i < p.flags.len()
        invariant
            i <= p.flags.len(),
            ff == (|f: FlagDef| ps_entry(indent@, f.hidden, f.long@, f.short, f.description@)),
            out@ == h0 + concat_map(p.flags@.take(i as int), ff),
        decreases p.flags.len() - i,
    {
        proof {
            text::lemma_concat_map_step(p.flags@, ff, i as int);
        }
        let f = &p.flags[i];
        push_ps_entry(out, indent, f.hidden, f.long.as_str(), f.short, f.description.as_str());
        i += 1;
        assert(out@ =~= h0 + concat_map(p.flags@.take(i as int), ff));
    }
    assert(p.flags@.take(p.flags.len() as int) =~= p.flags@);
    let ghost h1 = out@;
    assert(out@ =~= h1 + concat_map(p.options@.take(0), fo));
    let mut k: usize = 0;
    while k < p.options.len()
        invariant
            k <= p.options.len(),
            fo == (|o: OptionDef| ps_entry(indent@, o.hidden, o.long@, o.short, o.description@)),
            out@ == h1 + concat_map(p.options@.take(k as int), fo),
        decreases p.options.len() - k,
    {
        proof {
            text::lemma_concat_map_step(p.options@, fo, k as int);
        }
        let o = &p.options[k];
        push_ps_entry(out, indent, o.hidden, o.long.as_str(), o.short, o.description.as_str());
        k += 1;
        assert(out@ =~= h1 + concat_map(p.options@.take(k as int), fo));
    }
    assert(p.options@.take(p.options.len() as int) =~= p.options@);
    assert(out@ =~= old(out)@ + ps_completions(*p, indent@));
}

/// Appends the branch that completes a subcommand.
fn push_ps_sub_branch(out: &mut String, sub: &SubcommandDef)
    ensures
        final(out)@ == old(out)@ + ps_sub_branch(*sub),
{
    append_str(out, "        '");
    append_str(out, sub.name.as_str());
    append_str(out, "' {\n");
    append_str(out, "            $completions = @(\n");
    push_ps_completions(out, &sub.parser, "                ");
    append_str(out, "            )\n");
    append_str(out, "        }\n");
    assert(out@ =~= old(out)@ + ps_sub_branch(*sub));
}

/// The body of a PowerShell script for a parser with subcommands.
fn ps_dispatch_text(p: &ArgParser) -> (r: String)
    ensures
        r@ == ps_dispatch(*p),
{
    let ghost subs = p.subcommands@;
    let ghost fw = |s: SubcommandDef| ps_switch_line(s);
    let ghost fb = |s: SubcommandDef| ps_sub_branch(s);
    let ghost fn_ = |s: SubcommandDef| ps_sub_name(s);
    let mut out = owned("    # Determine the subcommand\n");
    append_str(&mut out, "    $tokens = $commandName -split '\\s+'\n");
    append_str(&mut out, "    $subcmd = $null\n");
    append_str(&mut out, "    foreach ($t in $tokens[1..($tokens.Length - 1)]) {\n");
    append_str(&mut out, "        switch ($t) {\n");
    let ghost h1 = out@;
    let mut i: usize = 0;
    while i < p.subcommands.len()
        invariant
            i <= p.subcommands.len(),
            subs == p.subcommands@,
            fw == (|s: SubcommandDef| ps_switch_line(s)),
            out@ == h1 + concat_map(subs.take(i as int), fw),
        decreases p.subcommands.len() - i,
    {
        proof {
            text::lemma_concat_map_step(subs, fw, i as int);
        }
        let sub = &p.subcommands[i];
        append_str(&mut out, "            '");
        append_str(&mut out, sub.name.as_str());
        append_str(&mut out, "' { $subcmd = '");
        append_str(&mut out, sub.name.as_str());
        append_str(&mut out, "' }\n");
        i += 1;
        assert(out@ =~= h1 + concat_map(subs.take(i as int), fw));
    }
    assert(subs.take(subs.len() as int) =~= subs);
    append_str(&mut out, "        }\n");
    append_str(&mut out, "    }\n\n");
    append_str(&mut out, "    $completions = @()\n\n");
    append_str(&mut out, "    switch ($subcmd) {\n");
    let ghost h2 = out@;
    let mut j: usize = 0;
    while j < p.subcommands.len()
        invariant
            j <= p.subcommands.len(),
            subs == p.subcommands@,
            fb == (|s: SubcommandDef| ps_sub_branch(s)),
            out@ == h2 + concat_map(subs.take(j as int), fb),
        decreases p.subcommands.len() - j,
    {
        proof {
            text::lemma_concat_map_step(subs, fb, j as int);
        }
        push_ps_sub_branch(&mut out, &p.subcommands[j]);
        j += 1;
        assert(out@ =~= h2 + concat_map(subs.take(j as int), fb));
    }
    append_str(&mut out, "        default {\n");
    append_str(&mut out, "            $completions = @(\n");
    push_ps_completions(&mut out, p, "                ");
    let ghost h3 = out@;
    let mut k: usize = 0;
    while k < p.subcommands.len()
        invariant
            k <= p.subcommands.len(),
            subs == p.subcommands@,
            fn_ == (|s: SubcommandDef| ps_sub_name(s)),
            out@ == h3 + concat_map(subs.take(k as int), fn_),
        decreases p.subcommands.len() - k,
    {
        proof {
            text::lemma_concat_map_step(subs, fn_, k as int);
        }
        let sub = &p.subcommands[k];
        let d = replace_chars(sub.description.as_str(), '\'', "''");
        push_ps_result(&mut out, "                ", sub.name.as_str(), "ParameterValue", d.as_str());
        k += 1;
        assert(out@ =~= h3 + concat_map(subs.take(k as int), fn_));
    }
    append_str(&mut out, "            )\n");
    append_str(&mut out, "        }\n");
    append_str(&mut out, "    }\n\n");
    append_str(&mut out, "    $completions | Where-Object { $_.CompletionText -like \"$wordToComplete*\" }\n");
    assert(out@ =~= ps_dispatch(*p));
    out
}

/// The PowerShell completion script.
fn generate_powershell(p: &ArgParser) -> (r: String)
    ensures
        r@ == powershell_script(*p),
{
    let name = program_or_default(p);
    let mut out = owned("Register-ArgumentCompleter -CommandName '");
    append_str(&mut out, name.as_str());
    append_str(&mut out, "' -ScriptBlock {\n");
    append_str(&mut out, "    param($commandName, $wordToComplete, $cursorPosition)\n\n");
    if p.subcommands.len() == 0 {
        append_str(&mut out, "    $completions = @(\n");
        push_ps_completions(&mut out, p, "        ");
        append_str(&mut out, "    )\n\n");
        append_str(&mut out, "    $completions | Where-Object { $_.CompletionText -like \"$wordToComplete*\" }\n");
    } else {
        let body = ps_dispatch_text(p);
        append_str(&mut out, body.as_str());
    }
    append_str(&mut out, "}\n");
    assert(out@ =~= powershell_script(*p));
    out
}

impl ArgParser {
    /// Generate a shell completion script for the given shell.
    ///
    /// Returns a self-contained script that, when sourced or installed,
    /// provides tab-completion for the CLI's flags, options, and subcommands.
    /// Hidden flags and options are left out.
    pub fn generate_completions(&self, shell: Shell) -> (r: String)
        ensures
            r@ == completion_script(*self, shell),
    {
        match shell {
            Shell::Bash => generate_bash(self),
            Shell::Zsh => generate_zsh(self),
            Shell::Fish => generate_fish(self),
            Shell::PowerShell => generate_powershell(self),
        }
    }
}

} // verus!
