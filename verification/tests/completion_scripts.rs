use nanoargs::{ArgBuilder, Flag, Opt, Shell};

// ── Shell::from_str known variants ─────────────────────────────────────

#[test]
fn shell_from_str_bash() {
    assert_eq!("bash".parse::<Shell>().unwrap(), Shell::Bash);
    assert_eq!("BASH".parse::<Shell>().unwrap(), Shell::Bash);
}

#[test]
fn shell_from_str_zsh() {
    assert_eq!("zsh".parse::<Shell>().unwrap(), Shell::Zsh);
    assert_eq!("ZSH".parse::<Shell>().unwrap(), Shell::Zsh);
}

#[test]
fn shell_from_str_fish() {
    assert_eq!("fish".parse::<Shell>().unwrap(), Shell::Fish);
    assert_eq!("Fish".parse::<Shell>().unwrap(), Shell::Fish);
}

#[test]
fn shell_from_str_powershell() {
    assert_eq!("powershell".parse::<Shell>().unwrap(), Shell::PowerShell);
    assert_eq!("pwsh".parse::<Shell>().unwrap(), Shell::PowerShell);
}

#[test]
fn shell_from_str_unknown() {
    assert!("nushell".parse::<Shell>().is_err());
    assert!("".parse::<Shell>().is_err());
}

// ── Shell-specific structural markers ──────────────────────────────────

fn sample_parser() -> nanoargs::ArgParser {
    ArgBuilder::new()
        .name("myapp")
        .flag(Flag::new("verbose").short('v').desc("Enable verbose"))
        .option(Opt::new("output").short('o').placeholder("FILE").desc("Output file"))
        .build()
        .unwrap()
}

#[test]
fn bash_contains_complete_f() {
    let output = sample_parser().generate_completions(Shell::Bash);
    assert!(output.contains("complete -F"), "Bash output missing 'complete -F'");
}

#[test]
fn zsh_contains_compdef() {
    let output = sample_parser().generate_completions(Shell::Zsh);
    assert!(output.contains("#compdef"), "Zsh output missing '#compdef'");
}

#[test]
fn fish_contains_complete_c() {
    let output = sample_parser().generate_completions(Shell::Fish);
    assert!(output.contains("complete -c"), "Fish output missing 'complete -c'");
}

#[test]
fn powershell_contains_register_argument_completer() {
    let output = sample_parser().generate_completions(Shell::PowerShell);
    assert!(
        output.contains("Register-ArgumentCompleter"),
        "PowerShell output missing 'Register-ArgumentCompleter'"
    );
}

// ── Default program name fallback ──────────────────────────────────────

#[test]
fn default_program_name_fallback() {
    let parser = ArgBuilder::new().flag(Flag::new("verbose").desc("verbose")).build().unwrap();

    for shell in [Shell::Bash, Shell::Zsh, Shell::Fish, Shell::PowerShell] {
        let output = parser.generate_completions(shell);
        assert!(
            output.contains("program"),
            "{:?} output should use 'program' as default name",
            shell
        );
    }
}

// ── Empty parser output ────────────────────────────────────────────────

#[test]
fn empty_parser_produces_valid_output() {
    let parser = ArgBuilder::new().name("empty").build().unwrap();

    // Bash, Zsh, PowerShell still produce structural output; Fish may be empty
    let bash = parser.generate_completions(Shell::Bash);
    assert!(bash.contains("complete -F"));

    let zsh = parser.generate_completions(Shell::Zsh);
    assert!(zsh.contains("#compdef"));

    let ps = parser.generate_completions(Shell::PowerShell);
    assert!(ps.contains("Register-ArgumentCompleter"));
}

// ── Special character escaping in descriptions ─────────────────────────

#[test]
fn bash_escapes_single_quotes() {
    let parser = ArgBuilder::new().name("app").flag(Flag::new("test").desc("it's a flag")).build().unwrap();
    let output = parser.generate_completions(Shell::Bash);
    // Single quote should be escaped as '\'' in bash
    assert!(
        !output.contains("it's"),
        "Bash should escape single quotes in descriptions"
    );
}

#[test]
fn zsh_escapes_brackets_and_colons() {
    let parser = ArgBuilder::new().name("app").flag(Flag::new("test").desc("use [option]: value")).build().unwrap();
    let output = parser.generate_completions(Shell::Zsh);
    assert!(
        output.contains("\\[") && output.contains("\\]") && output.contains("\\:"),
        "Zsh should escape brackets and colons in descriptions"
    );
}

#[test]
fn powershell_escapes_single_quotes() {
    let parser = ArgBuilder::new().name("app").flag(Flag::new("test").desc("it's a flag")).build().unwrap();
    let output = parser.generate_completions(Shell::PowerShell);
    // PowerShell escapes single quotes by doubling them
    assert!(
        output.contains("it''s"),
        "PowerShell should escape single quotes by doubling them"
    );
}

#[test]
fn fish_escapes_single_quotes() {
    let parser = ArgBuilder::new().name("app").flag(Flag::new("test").desc("it's a flag")).build().unwrap();
    let output = parser.generate_completions(Shell::Fish);
    assert!(
        !output.contains("it's a"),
        "Fish should escape single quotes in descriptions"
    );
}

/// Regression: Zsh subcommand dispatch must not fall through to _describe.
/// When a known subcommand is matched, its sub-function should handle
/// completions and _describe (which lists subcommand names) should only
/// appear inside a catch-all `*) ... ;;` branch.
#[test]
fn zsh_subcommand_dispatch_does_not_fall_through_to_describe() {
    let sub = ArgBuilder::new().name("sub").flag(Flag::new("flag").desc("a flag")).build().unwrap();
    let parser = ArgBuilder::new().name("app").subcommand("sub", "A subcommand", sub).build().unwrap();
    let output = parser.generate_completions(Shell::Zsh);

    // _describe must only appear inside a *) default branch, not after esac
    // of the subcommand case dispatch. Find the inner case block and verify
    // _describe is inside *), not after esac.
    let lines: Vec<&str> = output.lines().collect();
    let mut in_subcmd_case = false;
    let mut found_describe_in_default = false;
    let mut found_describe_outside = false;
    let mut in_default_branch = false;

    for line in &lines {
        let trimmed = line.trim();
        if trimmed.starts_with("case $line") {
            in_subcmd_case = true;
            continue;
        }
        if in_subcmd_case {
            if trimmed == "*)" {
                in_default_branch = true;
            }
            if trimmed == "esac" {
                in_subcmd_case = false;
                in_default_branch = false;
                continue;
            }
            if trimmed.contains("_describe") {
                if in_default_branch {
                    found_describe_in_default = true;
                } else {
                    found_describe_outside = true;
                }
            }
        }
    }

    assert!(
        found_describe_in_default,
        "_describe should appear inside the *) default branch"
    );
    assert!(
        !found_describe_outside,
        "_describe should NOT appear outside the *) default branch (would cause fallthrough)"
    );
}
