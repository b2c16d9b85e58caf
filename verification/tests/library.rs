use nanoargs::{
    max_length, min_length, non_empty, one_of, parse_loose_from, path_exists, range, ArgBuilder, ArgParser, Flag,
    FlagDef, Opt, OptionDef, OptionError, ParseError, ParseResultBuilder, Pos, PositionalDef, Shell,
};

fn args(list: &[&str]) -> Vec<String> {
    list.iter().map(|s| s.to_string()).collect()
}

fn env(list: &[(&str, &str)]) -> Vec<(String, String)> {
    list.iter().map(|(k, v)| (k.to_string(), v.to_string())).collect()
}

fn read_u32(v: &str) -> Result<u32, String> {
    v.parse::<u32>().map_err(|e| e.to_string())
}

// ── schema-free parsing ─────────────────────────────────────────────────────

#[test]
fn loose_option_takes_next_token() {
    let r = parse_loose_from(args(&["--output", "file.txt"])).unwrap();
    assert_eq!(r.get_option("output"), Some("file.txt"));
    assert!(!r.get_flag("output"));
}

#[test]
fn loose_flags_when_next_token_is_dashed() {
    let r = parse_loose_from(args(&["--verbose", "--debug"])).unwrap();
    assert!(r.get_flag("verbose"));
    assert!(r.get_flag("debug"));
}

#[test]
fn loose_output_followed_by_short_is_a_flag() {
    let r = parse_loose_from(args(&["--output", "-v"])).unwrap();
    assert!(r.get_flag("output"));
    assert!(r.get_flag("v"));
    assert_eq!(r.get_option("output"), None);
}

#[test]
fn loose_equals_forms_set_options() {
    let r = parse_loose_from(args(&["--key=value", "-x=1", "-n", "5"])).unwrap();
    assert_eq!(r.get_option("key"), Some("value"));
    assert_eq!(r.get_option("x"), Some("1"));
    assert_eq!(r.get_option("n"), Some("5"));
}

#[test]
fn loose_later_value_overwrites() {
    let r = parse_loose_from(args(&["--k", "a", "--k", "b"])).unwrap();
    assert_eq!(r.get_option_values("k"), &["b"]);
}

#[test]
fn loose_double_dash_makes_rest_positional() {
    let r = parse_loose_from(args(&["a", "--", "--help", "-x"])).unwrap();
    assert_eq!(r.get_positionals(), &["a", "--help", "-x"]);
    assert!(!r.get_flag("x"));
}

#[test]
fn loose_help_request() {
    let err = parse_loose_from(args(&["a", "-h", "b"])).unwrap_err();
    assert_eq!(err, ParseError::HelpRequested("Usage: [FLAGS] [OPTIONS] [ARGS]\n".to_string()));
    let err2 = parse_loose_from(args(&["--help"])).unwrap_err();
    assert_eq!(err2.to_string(), "Usage: [FLAGS] [OPTIONS] [ARGS]\n");
}

#[test]
fn loose_single_dash_is_positional() {
    let r = parse_loose_from(args(&["-", "x"])).unwrap();
    assert_eq!(r.get_positionals(), &["-", "x"]);
    assert_eq!(r.subcommand(), None);
}

// ── result builder ──────────────────────────────────────────────────────────

#[test]
fn builder_round_trip() {
    let result = ParseResultBuilder::new()
        .flag("verbose", true)
        .option("output", "file.txt")
        .positional("input.txt")
        .build();
    assert!(result.get_flag("verbose"));
    assert_eq!(result.get_option("output"), Some("file.txt"));
    assert_eq!(result.get_positionals(), &["input.txt"]);
}

#[test]
fn builder_option_overwrites_and_multi_appends() {
    let result = ParseResultBuilder::new()
        .option("level", "1")
        .option("level", "2")
        .multi_option("tag", "a")
        .multi_option("tag", "b")
        .build();
    assert_eq!(result.get_option_values("level"), &["2"]);
    assert_eq!(result.get_option_values("tag"), &["a", "b"]);
    assert_eq!(result.get_option("tag"), Some("b"));
}

#[test]
fn builder_subcommand() {
    let sub = ParseResultBuilder::new().flag("force", true).build();
    let result = ParseResultBuilder::default().subcommand("deploy", sub).build();
    assert_eq!(result.subcommand(), Some("deploy"));
    assert!(result.subcommand_result().unwrap().get_flag("force"));
}

#[test]
fn builder_known_names() {
    let result = ParseResultBuilder::new().flag("a", false).option("b", "1").build();
    assert!(result.flag_name_known("a"));
    assert!(!result.flag_name_known("b"));
    assert!(result.option_name_known("b"));
    assert!(!result.option_name_known("zz"));
}

// ── typed reads ─────────────────────────────────────────────────────────────

#[test]
fn typed_read_present_absent_and_bad() {
    let result = ParseResultBuilder::new().option("port", "8080").option("bad", "x1").build();
    assert_eq!(result.parse_option_or("port", read_u32, || 1), Ok(8080));
    let absent = ParseResultBuilder::new().option("other", "1").flag("f", true).build();
    assert_eq!(absent.parse_option_or("other", read_u32, || 7), Ok(1));
    let empty = ParseResultBuilder::new().build();
    assert_eq!(empty.parse_option_or("port", read_u32, || 7), Ok(7));
    match result.parse_option_or("bad", read_u32, || 7) {
        Err(OptionError::ParseFailed { option, message }) => {
            assert_eq!(option, "bad");
            assert_eq!(message, "invalid digit found in string");
        }
        other => panic!("expected ParseFailed, got {other:?}"),
    }
}

#[test]
fn typed_read_required() {
    let empty = ParseResultBuilder::new().build();
    let err = empty.parse_option_required("port", read_u32).unwrap_err();
    assert_eq!(err, OptionError::Missing { option: "port".to_string() });
    assert_eq!(err.to_string(), "option --port is required but was not provided");
    let result = ParseResultBuilder::new().option("port", "80").build();
    assert_eq!(result.parse_option_required("port", read_u32), Ok(80));
}

#[test]
fn typed_read_values() {
    let result = ParseResultBuilder::new().multi_option("n", "1").multi_option("n", "2").build();
    assert_eq!(result.parse_option_values_or("n", read_u32, vec![9]), Ok(vec![1, 2]));
    let empty = ParseResultBuilder::new().build();
    assert_eq!(empty.parse_option_values_or("n", read_u32, vec![9]), Ok(vec![9]));
    let bad = ParseResultBuilder::new().multi_option("n", "1").multi_option("n", "q").build();
    let err = bad.parse_option_values_or("n", read_u32, vec![9]).unwrap_err();
    assert_eq!(err.to_string(), "option --n: invalid digit found in string");
}

#[test]
fn typed_read_values_reports_first_rejection() {
    let a = ParseResultBuilder::new().multi_option("n", "1").multi_option("n", "q").multi_option("n", "").build();
    assert_eq!(
        a.parse_option_values_or("n", read_u32, vec![]),
        Err(OptionError::ParseFailed { option: "n".to_string(), message: "invalid digit found in string".to_string() })
    );
    let b = ParseResultBuilder::new().multi_option("n", "").multi_option("n", "q").build();
    assert_eq!(
        b.parse_option_values_or("n", read_u32, vec![]),
        Err(OptionError::ParseFailed {
            option: "n".to_string(),
            message: "cannot parse integer from empty string".to_string()
        })
    );
}

// ── validators ──────────────────────────────────────────────────────────────

#[test]
fn range_validator() {
    let v = range(1, 10);
    assert_eq!(v.hint(), Some("[1..10]"));
    assert_eq!(v.validate("5"), Ok(()));
    assert_eq!(v.validate("11"), Err("value must be between 1 and 10".to_string()));
    assert_eq!(v.validate("abc"), Err("'abc' is not a valid number".to_string()));
    assert_eq!(range(-5, -1).hint(), Some("[-5..-1]"));
    assert_eq!(range(-5, -1).validate("-3"), Ok(()));
}

#[test]
fn one_of_validator() {
    let v = one_of(&["json", "yaml"]);
    assert_eq!(v.hint(), Some("json|yaml"));
    assert_eq!(v.validate("yaml"), Ok(()));
    assert_eq!(v.validate("toml"), Err("must be one of: json, yaml".to_string()));
}

#[test]
fn length_validators() {
    assert_eq!(non_empty().hint(), Some("non-empty"));
    assert_eq!(non_empty().validate(""), Err("value must not be empty".to_string()));
    assert_eq!(non_empty().validate("a"), Ok(()));
    assert_eq!(min_length(3).hint(), Some("[min_length: 3]"));
    assert_eq!(min_length(3).validate("ab"), Err("value must be at least 3 characters".to_string()));
    assert_eq!(min_length(3).validate("abc"), Ok(()));
    assert_eq!(max_length(2).hint(), Some("[max_length: 2]"));
    assert_eq!(max_length(2).validate("abc"), Err("value must be at most 2 characters".to_string()));
    assert_eq!(max_length(2).validate("ab"), Ok(()));
}

#[test]
fn length_validators_count_characters() {
    assert!(min_length(2).validate("é").is_err());
    assert_eq!(min_length(1).validate("é"), Ok(()));
    assert_eq!(max_length(1).validate("é"), Ok(()));
    assert!(max_length(1).validate("éé").is_err());
    assert_eq!(min_length(2).validate("日本"), Ok(()));
}

#[test]
fn path_validator() {
    let v = path_exists();
    assert_eq!(v.hint(), Some("existing path"));
    assert_eq!(v.validate("/"), Ok(()));
    assert_eq!(
        v.validate("/no/such/path/here"),
        Err("path '/no/such/path/here' does not exist".to_string())
    );
}

#[test]
fn validators_compare_by_hint() {
    assert_eq!(range(1, 2), range(1, 2));
    assert_ne!(range(1, 2), range(1, 3));
    assert_eq!(one_of(&["a|b"]), one_of(&["a", "b"]));
}

#[test]
fn validation_failure_in_parse() {
    let parser = ArgBuilder::new().option(Opt::new("port").validate(range(1, 100))).build().unwrap();
    let err = parser.parse(args(&["--port", "500"])).unwrap_err();
    assert_eq!(
        err,
        ParseError::ValidationFailed { name: "port".to_string(), message: "value must be between 1 and 100".to_string() }
    );
    assert_eq!(err.to_string(), "invalid value for port: value must be between 1 and 100");
    let ok = parser.parse(args(&["--port", "50"])).unwrap();
    assert_eq!(ok.get_option("port"), Some("50"));
}

#[test]
fn rejected_value_stops_parsing_at_once() {
    let parser = ArgBuilder::new()
        .option(Opt::new("port").validate(range(1, 10)))
        .option(Opt::new("name"))
        .build()
        .unwrap();
    let expected =
        ParseError::ValidationFailed { name: "port".to_string(), message: "'abc' is not a valid number".to_string() };
    assert_eq!(parser.parse(args(&["--port", "abc", "--bogus"])).unwrap_err(), expected);
    assert_eq!(parser.parse(args(&["--port", "abc", "--name", "a", "--name", "b"])).unwrap_err(), expected);
    assert_eq!(parser.parse(args(&["--port", "abc", "-=x"])).unwrap_err(), expected);
    assert_eq!(parser.try_parse_with_env(args(&["--port", "abc", "-=x"]), &env(&[])), Some(Err(expected)));
    assert_eq!(parser.try_parse_with_env(args(&["--port", "5", "-=x"]), &env(&[])), None);
}

#[test]
fn rejected_env_value_is_a_validation_failure() {
    let parser = ArgBuilder::new()
        .option(Opt::new("port").env("APP_PORT").validate(range(1, 10)))
        .build()
        .unwrap();
    let err = parser.parse_with_env(args(&[]), &env(&[("APP_PORT", "50")])).unwrap_err();
    assert_eq!(
        err,
        ParseError::ValidationFailed { name: "port".to_string(), message: "value must be between 1 and 10".to_string() }
    );
    let ok = parser.parse_with_env(args(&[]), &env(&[("APP_PORT", "5")])).unwrap();
    assert_eq!(ok.get_option("port"), Some("5"));
}

#[test]
fn positional_validation() {
    let parser = ArgBuilder::new().positional(Pos::new("name").validate(non_empty())).build().unwrap();
    let err = parser.parse(args(&[""])).unwrap_err();
    assert_eq!(
        err,
        ParseError::ValidationFailed { name: "name".to_string(), message: "value must not be empty".to_string() }
    );
}

// ── environment fallback ────────────────────────────────────────────────────

fn env_parser() -> ArgParser {
    ArgBuilder::new()
        .option(Opt::new("level").env("APP_LEVEL").default("info"))
        .option(Opt::new("tags").env("APP_TAGS").multi())
        .option(Opt::new("token").env("APP_TOKEN").required())
        .build()
        .unwrap()
}

#[test]
fn env_resolution_order() {
    let p = env_parser();
    let cli = p
        .parse_with_env(args(&["--level", "debug", "--token", "t"]), &env(&[("APP_LEVEL", "warn")]))
        .unwrap();
    assert_eq!(cli.get_option("level"), Some("debug"));
    let from_env = p.parse_with_env(args(&["--token", "t"]), &env(&[("APP_LEVEL", "warn")])).unwrap();
    assert_eq!(from_env.get_option("level"), Some("warn"));
    let from_default = p.parse_with_env(args(&["--token", "t"]), &env(&[("APP_LEVEL", "")])).unwrap();
    assert_eq!(from_default.get_option("level"), Some("info"));
    let token_env = p.parse_with_env(args(&[]), &env(&[("APP_TOKEN", "secret")])).unwrap();
    assert_eq!(token_env.get_option("token"), Some("secret"));
    let missing = p.parse_with_env(args(&[]), &env(&[])).unwrap_err();
    assert_eq!(missing, ParseError::MissingRequired("token".to_string()));
    assert_eq!(missing.to_string(), "missing required argument: token");
}

#[test]
fn env_multi_splits_on_commas() {
    let p = env_parser();
    let r = p.parse_with_env(args(&["--token", "t"]), &env(&[("APP_TAGS", "a,,b,")])).unwrap();
    assert_eq!(r.get_option_values("tags"), &["a", "b"]);
}

// ── positionals ─────────────────────────────────────────────────────────────

#[test]
fn positional_defaults_and_multi() {
    let p = ArgBuilder::new()
        .positional(Pos::new("input").required())
        .positional(Pos::new("mode").default("fast"))
        .positional(Pos::new("rest").multi())
        .build()
        .unwrap();
    let r = p.parse(args(&["in.txt"])).unwrap();
    assert_eq!(r.get_positionals(), &["in.txt", "fast"]);
    let r2 = p.parse(args(&["in.txt", "slow", "x", "y"])).unwrap();
    assert_eq!(r2.get_positionals(), &["in.txt", "slow", "x", "y"]);
    let padded = p.parse(args(&[])).unwrap();
    assert_eq!(padded.get_positionals(), &["", "fast"]);
    let strict = ArgBuilder::new()
        .positional(Pos::new("input").required())
        .positional(Pos::new("rest").multi())
        .build()
        .unwrap();
    let err = strict.parse(args(&[])).unwrap_err();
    assert_eq!(err, ParseError::MissingRequired("input".to_string()));
}

#[test]
fn build_rejects_bad_positionals() {
    let err = ArgBuilder::new().positional(Pos::new("a").multi()).positional(Pos::new("b")).build().unwrap_err();
    assert!(matches!(err, ParseError::InvalidFormat(_)));
    let err2 = ArgBuilder::new().positional(Pos::new("a").required().default("x")).build().unwrap_err();
    assert!(matches!(err2, ParseError::InvalidFormat(_)));
}

#[test]
fn build_rejects_short_v_with_version() {
    let err = ArgBuilder::new().version("1.0").flag(Flag::new("verbose").short('V')).build().unwrap_err();
    assert!(matches!(err, ParseError::InvalidFormat(_)));
    assert!(ArgBuilder::new().flag(Flag::new("verbose").short('V')).build().is_ok());
}

// ── definitions ─────────────────────────────────────────────────────────────

#[test]
fn definitions_from_builders() {
    let f: FlagDef = Flag::new("verbose").short('v').desc("Loud").hidden().into();
    assert_eq!(f.long, "verbose");
    assert_eq!(f.short, Some('v'));
    assert_eq!(f.description, "Loud");
    assert!(f.hidden);
    let o: OptionDef = Opt::new("out-file").into();
    assert_eq!(o.placeholder, "OUT-FILE");
    assert!(!o.required);
    let p: PositionalDef = Pos::new("input").desc("Input").required().into();
    assert_eq!(p.name, "input");
    assert!(p.required);
}

// ── help text ───────────────────────────────────────────────────────────────

#[test]
fn help_text_exact() {
    let p = ArgBuilder::new()
        .name("app")
        .description("Does things")
        .flag(Flag::new("verbose").short('v').desc("Enable verbose"))
        .option(Opt::new("output").short('o').placeholder("FILE").desc("Output file").required())
        .positional(Pos::new("input").desc("Input file").required())
        .build()
        .unwrap();
    assert_eq!(
        p.help_text(),
        "Does things\n\nUsage: app [OPTIONS] <input>\n\nOptions:\n  -v, --verbose        Enable verbose\n  -o, --output <FILE>  Output file (required)\n\nPositional arguments:\n  input  Input file (required)\n"
    );
}

#[test]
fn all_hidden_means_no_options_section() {
    let p = ArgBuilder::new()
        .name("app")
        .flag(Flag::new("secret").desc("s").hidden())
        .option(Opt::new("key").desc("k").hidden())
        .positional(Pos::new("file"))
        .build()
        .unwrap();
    let h = p.help_text();
    assert_eq!(h, "Usage: app [file]\n\nPositional arguments:\n  file  \n");
    assert!(!h.contains("[OPTIONS]"));
    assert!(!h.contains("Options:"));
}

#[test]
fn every_visible_entry_has_its_line() {
    let sub = ArgBuilder::new().build().unwrap();
    let p = ArgBuilder::new()
        .name("tool")
        .flag(Flag::new("all").short('a').desc("Everything"))
        .option(Opt::new("level").placeholder("N").desc("Depth").multi())
        .subcommand("run", "Run it", sub)
        .build()
        .unwrap();
    let h = p.help_text();
    assert!(h.starts_with("Usage: tool [OPTIONS] <SUBCOMMAND>\n"));
    assert!(h.contains("\n  -a, --all        Everything\n"));
    assert!(h.contains("\n      --level <N>  Depth (multiple)\n"));
    assert!(h.contains("\nSubcommands:\n  run  Run it\n"));
    assert!(!h.contains("Positional arguments:"));
}

#[test]
fn hidden_flag_leaves_help_unchanged() {
    let plain = ArgBuilder::new().name("app").flag(Flag::new("verbose").desc("v")).build().unwrap();
    let with_hidden = ArgBuilder::new()
        .name("app")
        .flag(Flag::new("verbose").desc("v"))
        .flag(Flag::new("secret").desc("s").hidden())
        .build()
        .unwrap();
    assert_eq!(plain.help_text(), with_hidden.help_text());
    for shell in [Shell::Bash, Shell::Zsh, Shell::Fish, Shell::PowerShell] {
        assert_eq!(plain.generate_completions(shell), with_hidden.generate_completions(shell));
    }
}

#[test]
fn version_text_forms() {
    let named = ArgBuilder::new().name("tool").version("1.2").build().unwrap();
    assert_eq!(named.version_text(), Some("tool 1.2".to_string()));
    let bare = ArgBuilder::new().version("1.2").build().unwrap();
    assert_eq!(bare.version_text(), Some("1.2".to_string()));
    assert_eq!(ArgBuilder::new().build().unwrap().version_text(), None);
}

// ── laws on concrete values ─────────────────────────────────────────────────

fn abc_parser() -> ArgParser {
    ArgBuilder::new()
        .flag(Flag::new("alpha").short('a'))
        .flag(Flag::new("bravo").short('b'))
        .flag(Flag::new("charlie").short('c'))
        .build()
        .unwrap()
}

#[test]
fn cluster_equals_separate_flags() {
    let p = abc_parser();
    let joined = p.parse(args(&["-ac"])).unwrap();
    let apart = p.parse(args(&["-a", "-c"])).unwrap();
    for name in ["alpha", "bravo", "charlie"] {
        assert_eq!(joined.get_flag(name), apart.get_flag(name));
    }
    assert!(joined.get_flag("alpha") && !joined.get_flag("bravo") && joined.get_flag("charlie"));
}

#[test]
fn request_ends_reading_later_tokens() {
    let p = abc_parser();
    let err = p.parse(args(&["-a", "--help", "--no-such-thing", "-zz"])).unwrap_err();
    assert!(matches!(err, ParseError::HelpRequested(_)));
    let err2 = p.parse(args(&["--no-such-thing", "--help"])).unwrap_err();
    assert_eq!(err2, ParseError::UnknownArgument("--no-such-thing".to_string()));
}

#[test]
fn shell_names_round_trip() {
    for shell in [Shell::Bash, Shell::Zsh, Shell::Fish, Shell::PowerShell] {
        assert_eq!(shell.to_string().parse::<Shell>(), Ok(shell));
    }
    assert_eq!(Shell::PowerShell.to_string(), "powershell");
    assert_eq!("PwSh".parse::<Shell>(), Ok(Shell::PowerShell));
    assert_eq!("nushell".parse::<Shell>(), Err("unsupported shell: nushell".to_string()));
}

// ── completion scripts ──────────────────────────────────────────────────────

fn sample() -> ArgParser {
    ArgBuilder::new()
        .name("my-app")
        .flag(Flag::new("verbose").short('v').desc("Enable verbose"))
        .option(Opt::new("output").short('o').placeholder("FILE").desc("Output file"))
        .build()
        .unwrap()
}

#[test]
fn fish_script_exact() {
    assert_eq!(
        sample().generate_completions(Shell::Fish),
        "complete -c my-app -l verbose -s v -d 'Enable verbose'\ncomplete -c my-app -l output -s o -r -d 'Output file'\n"
    );
}

#[test]
fn bash_script_lines() {
    let s = sample().generate_completions(Shell::Bash);
    assert!(s.starts_with("_my_app() {\n"));
    assert!(s.contains("    opts=\"--verbose -v --output -o\"\n"));
    assert!(s.ends_with("}\n\ncomplete -F _my_app -o bashdefault -o default my-app\n"));
}

#[test]
fn bash_subcommand_words_are_trimmed() {
    let sub = ArgBuilder::new().flag(Flag::new("release").short('r')).build().unwrap();
    let p = ArgBuilder::new().name("app").subcommand("build", "Compile", sub).build().unwrap();
    let s = p.generate_completions(Shell::Bash);
    assert!(s.contains("            build) cmd=\"build\";;\n"));
    assert!(s.contains("        build)\n            opts=\"--release -r\"\n            ;;\n"));
    assert!(s.contains("        *)\n            opts=\"build\"\n"));
}

#[test]
fn zsh_script_lines() {
    let s = sample().generate_completions(Shell::Zsh);
    assert!(s.starts_with("#compdef my-app\n\n_my_app() {\n    _arguments \\\n"));
    assert!(s.contains("        '(-v --verbose)--verbose[Enable verbose]' \\\n"));
    assert!(s.contains("        '(-v --verbose)-v[Enable verbose]' \\\n"));
    assert!(s.contains("        '(-o --output)--output[Output file]:FILE:' \\\n"));
    assert!(s.ends_with("}\n\ncompdef _my_app my-app\n"));
}

#[test]
fn powershell_script_lines() {
    let s = sample().generate_completions(Shell::PowerShell);
    assert!(s.starts_with("Register-ArgumentCompleter -CommandName 'my-app' -ScriptBlock {\n"));
    assert!(s.contains(
        "        [System.Management.Automation.CompletionResult]::new('-o', '-o', 'ParameterName', 'Output file')\n"
    ));
    assert!(s.ends_with("}\n"));
}

#[test]
fn nameless_short_equals_is_refused() {
    let p = abc_parser();
    assert!(p.try_parse_with_env(args(&["-=x"]), &env(&[])).is_none());
    let after_dash = p.try_parse_with_env(args(&["--", "-=x"]), &env(&[])).unwrap().unwrap();
    assert_eq!(after_dash.get_positionals(), &["-=x"]);
    let err = p.try_parse_with_env(args(&["-z", "-=x"]), &env(&[])).unwrap().unwrap_err();
    assert!(matches!(err, ParseError::UnknownArgument(_)));
}

#[test]
fn error_messages() {
    let cases = [
        (ParseError::MissingRequired("input".into()), "missing required argument: input"),
        (ParseError::MissingValue("out".into()), "missing value for option: --out"),
        (ParseError::UnknownArgument("--x".into()), "unknown argument: --x"),
        (ParseError::InvalidFormat("bad".into()), "invalid format: bad"),
        (ParseError::HelpRequested("help".into()), "help"),
        (ParseError::VersionRequested("1.0".into()), "1.0"),
        (ParseError::NoSubcommand("a, b".into()), "no subcommand provided. Available: a, b"),
        (ParseError::UnknownSubcommand("zz".into()), "unknown subcommand: zz"),
        (
            ParseError::DuplicateOption("out".into()),
            "option --out was provided more than once (use .multi() to allow repeats)",
        ),
        (ParseError::InvalidUtf8("a\u{fffd}".into()), "argument is not valid UTF-8: a\u{fffd}"),
        (
            ParseError::ValidationFailed { name: "port".into(), message: "too big".into() },
            "invalid value for port: too big",
        ),
    ];
    for (err, text) in cases {
        assert_eq!(err.to_string(), text);
    }
    let failed = OptionError::ParseFailed { option: "n".into(), message: "bad digit".into() };
    assert_eq!(failed.to_string(), "option --n: bad digit");
}

#[test]
fn no_subcommand_lists_names() {
    let a = ArgBuilder::new().build().unwrap();
    let b = ArgBuilder::new().build().unwrap();
    let p = ArgBuilder::new().subcommand("build", "B", a).subcommand("test", "T", b).build().unwrap();
    assert_eq!(p.parse(args(&[])).unwrap_err(), ParseError::NoSubcommand("build, test".to_string()));
    assert_eq!(p.parse(args(&["--"])).unwrap_err(), ParseError::NoSubcommand("build, test".to_string()));
}

#[test]
fn subcommand_result_and_global_flags() {
    let sub = ArgBuilder::new().flag(Flag::new("release").short('r')).build().unwrap();
    let p = ArgBuilder::new()
        .flag(Flag::new("debug").short('d'))
        .option(Opt::new("level").default("1"))
        .subcommand("build", "Compile", sub)
        .build()
        .unwrap();
    let r = p.parse(args(&["-d", "build", "-r", "x"])).unwrap();
    assert!(r.get_flag("debug"));
    assert_eq!(r.get_option("level"), Some("1"));
    assert_eq!(r.subcommand(), Some("build"));
    let sr = r.subcommand_result().unwrap();
    assert!(sr.get_flag("release"));
    assert_eq!(sr.get_positionals(), &["x"]);
    assert!(r.get_positionals().is_empty());
}

#[test]
fn option_modifier_order_independence() {
    let a = Opt::new("out").short('o').multi().required().default("x").env("OUT");
    let b = Opt::new("out").env("OUT").default("x").short('o').required().multi();
    let pa = ArgBuilder::new().option(a).build().unwrap();
    let pb = ArgBuilder::new().option(b).build().unwrap();
    assert_eq!(pa.options()[0], pb.options()[0]);
    assert_eq!(pa.options()[0].placeholder, "OUT");
}

#[test]
fn declaration_order_preserved() {
    let p = ArgBuilder::new()
        .option(Opt::new("b"))
        .option(Opt::new("a"))
        .flag(Flag::new("z"))
        .flag(Flag::new("y"))
        .build()
        .unwrap();
    let longs: Vec<&str> = p.options().iter().map(|o| o.long.as_str()).collect();
    assert_eq!(longs, vec!["b", "a"]);
    let flags: Vec<&str> = p.flags().iter().map(|f| f.long.as_str()).collect();
    assert_eq!(flags, vec!["z", "y"]);
}

#[test]
fn subcommand_registration_replaces_same_name() {
    let first = ArgBuilder::new().flag(Flag::new("one")).build().unwrap();
    let second = ArgBuilder::new().flag(Flag::new("two")).build().unwrap();
    let p = ArgBuilder::new()
        .subcommand("run", "First", first)
        .subcommand("run", "Second", second)
        .build()
        .unwrap();
    assert_eq!(p.subcommands().len(), 1);
    assert_eq!(p.subcommands()[0].description, "Second");
    assert_eq!(p.subcommands()[0].parser.flags()[0].long, "two");
}

#[test]
fn results_clone_equal() {
    let sub = ParseResultBuilder::new().flag("force", true).build();
    let builder = ParseResultBuilder::new().multi_option("t", "a").positional("p").subcommand("go", sub);
    let copy = builder.clone();
    let r1 = builder.build();
    let r2 = copy.build();
    assert_eq!(r1.get_option_values("t"), r2.get_option_values("t"));
    assert_eq!(r1.clone(), r1);
    assert_eq!(r1.subcommand_result().unwrap().clone(), *r2.subcommand_result().unwrap());
}

#[test]
fn leading_requests_answer_texts() {
    let p = ArgBuilder::new().name("tool").version("3.1").flag(Flag::new("x")).build().unwrap();
    assert_eq!(p.parse(args(&["--help", "--nope"])).unwrap_err(), ParseError::HelpRequested(p.help_text()));
    assert_eq!(p.parse(args(&["-h"])).unwrap_err(), ParseError::HelpRequested(p.help_text()));
    assert_eq!(p.parse(args(&["--version", "-q"])).unwrap_err(), ParseError::VersionRequested("tool 3.1".to_string()));
    let bare = ArgBuilder::new().build().unwrap();
    assert_eq!(bare.parse(args(&["--version"])).unwrap_err(), ParseError::UnknownArgument("--version".to_string()));
}

// ── laws on concrete values ─────────────────────────────────────────────────

fn read_i32(v: &str) -> Result<i32, String> {
    v.parse::<i32>().map_err(|e| e.to_string())
}

#[test]
fn parse_option_gives_what_the_reader_gives() {
    let r = ParseResultBuilder::new().option("n", "x").multi_option("m", "1").multi_option("m", "z").build();
    assert_eq!(r.parse_option("n", read_i32), Some(Err("invalid digit found in string".to_string())));
    assert_eq!(r.parse_option("absent", read_i32), None);
    assert_eq!(
        r.parse_option_values("m", read_i32),
        vec![Ok(1), Err("invalid digit found in string".to_string())]
    );
    assert_eq!(r.parse_option_values("absent", read_i32), Vec::<Result<i32, String>>::new());
}

#[test]
fn option_spellings_store_the_same_value() {
    let p = ArgBuilder::new()
        .flag(Flag::new("all").short('a'))
        .option(Opt::new("level").short('l'))
        .build()
        .unwrap();
    for a in [
        args(&["--level", "v9"]),
        args(&["--level=v9"]),
        args(&["-l", "v9"]),
        args(&["-l=v9"]),
        args(&["-lv9"]),
        args(&["-al=v9"]),
        args(&["-alv9"]),
    ] {
        let r = p.parse(a).unwrap();
        assert_eq!(r.get_option("level"), Some("v9"));
    }
    assert!(p.parse(args(&["-alv9"])).unwrap().get_flag("all"));
    let none = p.parse(args(&[])).unwrap();
    assert!(!none.get_flag("all"));
    assert_eq!(none.get_option("level"), None);
}

#[test]
fn bare_words_and_double_dash_keep_order() {
    let p = ArgBuilder::new().flag(Flag::new("x")).positional(Pos::new("first").required()).build().unwrap();
    let toks = args(&["b", "a", "c"]);
    assert_eq!(p.parse(toks.clone()).unwrap().get_positionals(), &["b", "a", "c"]);
    let mut dashed = args(&["--"]);
    dashed.extend(toks.clone());
    assert_eq!(p.parse(dashed).unwrap().get_positionals(), &["b", "a", "c"]);
    let mut mixed = toks.clone();
    mixed.extend(args(&["--", "--not-a-flag", "-abc"]));
    let r = p.parse(mixed).unwrap();
    assert_eq!(r.get_positionals(), &["b", "a", "c", "--not-a-flag", "-abc"]);
    assert_eq!(r.subcommand(), None);
}

#[test]
fn build_accepts_exactly_distinct_schemas() {
    assert!(ArgBuilder::new().flag(Flag::new("a").short('x')).option(Opt::new("b").short('y')).build().is_ok());
    assert!(ArgBuilder::new().flag(Flag::new("a")).option(Opt::new("a")).build().is_err());
    assert!(ArgBuilder::new().flag(Flag::new("a").short('x')).option(Opt::new("b").short('x')).build().is_err());
    assert!(ArgBuilder::new().version("1").flag(Flag::new("v").short('V')).build().is_err());
    assert!(ArgBuilder::new().flag(Flag::new("v").short('V')).build().is_ok());
    assert!(ArgBuilder::new().positional(Pos::new("a").multi()).positional(Pos::new("b")).build().is_err());
    assert!(ArgBuilder::new().positional(Pos::new("a")).positional(Pos::new("b").multi()).build().is_ok());
}

#[test]
fn visible_entries_complete_in_every_shell() {
    let p = ArgBuilder::new()
        .name("tool")
        .flag(Flag::new("loud").short('L').desc("Loud"))
        .flag(Flag::new("quiet").hidden())
        .option(Opt::new("depth").desc("Depth"))
        .build()
        .unwrap();
    for shell in [Shell::Bash, Shell::Zsh, Shell::Fish, Shell::PowerShell] {
        let s = p.generate_completions(shell);
        assert!(s.contains("loud"));
        assert!(s.contains("depth"));
        assert!(!s.contains("quiet"));
    }
    assert!(p.generate_completions(Shell::Fish).contains("complete -c tool -l depth -r -d 'Depth'\n"));
}

#[test]
fn re_registering_keeps_one_entry_per_name() {
    let p = ArgBuilder::new()
        .subcommand("run", "first", ArgBuilder::new().build().unwrap())
        .subcommand("test", "t", ArgBuilder::new().build().unwrap())
        .subcommand("run", "second", ArgBuilder::new().build().unwrap())
        .build()
        .unwrap();
    let names: Vec<&str> = p.subcommands().iter().map(|s| s.name.as_str()).collect();
    assert_eq!(names, vec!["run", "test"]);
    assert_eq!(p.subcommands()[0].description, "second");
}
