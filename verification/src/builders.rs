//! Builders for argument definitions and for the parser itself.
use vstd::prelude::*;

use crate::parser::ArgParser;
use crate::text;
use crate::text::{append_str, owned, push_char, same};
use crate::types::{FlagDef, OptionDef, ParseError, PositionalDef, SubcommandDef};
use crate::validators::Validator;

verus! {

/// What `str::to_uppercase` gives for `s` (Unicode upper-case mapping).
pub uninterp spec fn uppercase(s: Seq<char>) -> Seq<char>;

/// `str::to_uppercase`: the Unicode upper-case form of `s`, named
/// [`uppercase`]; nothing more is claimed of the mapping.
#[verifier::external_body]
fn to_uppercase(s: &str) -> (r: String)
    ensures
        r@ == uppercase(s@),
{
    s.to_uppercase()
}

/// Standalone builder for defining a boolean flag argument.
///
/// Construct with [`Flag::new()`], chain modifiers like [`.short()`](Flag::short)
/// and [`.hidden()`](Flag::hidden), then pass to [`ArgBuilder::flag()`].
#[derive(Clone, Debug)]
pub struct Flag {
    long: String,
    short: Option<char>,
    description: String,
    hidden: bool,
}

impl Flag {
    /// The definition this builder produces.
    pub closed spec fn def(self) -> FlagDef {
        FlagDef { long: self.long, short: self.short, description: self.description, hidden: self.hidden }
    }

    /// Create a new flag with a long name. Description defaults to empty string.
    pub fn new(long: &str) -> (r: Self)
        ensures
            r.def().long@ == long@,
            r.def().short is None,
            r.def().description@ == Seq::<char>::empty(),
            !r.def().hidden,
    {
        Self { long: owned(long), short: None, description: String::new(), hidden: false }
    }

    /// Set the description shown in help text.
    pub fn desc(self, description: &str) -> (r: Self)
        ensures
            r.def().description@ == description@,
            r.def().long == self.def().long,
            r.def().short == self.def().short,
            r.def().hidden == self.def().hidden,
    {
        let mut s = self;
        s.description = owned(description);
        s
    }

    /// Set the optional single-character short form.
    pub fn short(self, ch: char) -> (r: Self)
        ensures
            r.def() == (FlagDef { short: Some(ch), ..self.def() }),
    {
        let mut s = self;
        s.short = Some(ch);
        s
    }

    /// Mark this flag as hidden (excluded from help text).
    pub fn hidden(self) -> (r: Self)
        ensures
            r.def() == (FlagDef { hidden: true, ..self.def() }),
    {
        let mut s = self;
        s.hidden = true;
        s
    }

    /// The definition this builder describes.
    fn into_def(self) -> (r: FlagDef)
        ensures
            r == self.def(),
    {
        FlagDef { long: self.long, short: self.short, description: self.description, hidden: self.hidden }
    }
}

/// A change that a modifier of [`Opt`] makes to the option's definition.
pub enum OptionChange {
    Placeholder(Seq<char>),
    Description(Seq<char>),
    Short(char),
    Required,
    Default(Seq<char>),
    EnvVar(Seq<char>),
    Multi,
    Hidden,
    Validate(Validator),
}

/// The field a change sets, by position in the definition.
pub open spec fn change_field(c: OptionChange) -> int {
    match c {
        OptionChange::Placeholder(_) => 0,
        OptionChange::Description(_) => 1,
        OptionChange::Short(_) => 2,
        OptionChange::Required => 3,
        OptionChange::Default(_) => 4,
        OptionChange::EnvVar(_) => 5,
        OptionChange::Multi => 6,
        OptionChange::Hidden => 7,
        OptionChange::Validate(_) => 8,
    }
}

/// Whether two option definitions agree field by field, text by its characters.
pub open spec fn same_option(a: OptionDef, b: OptionDef) -> bool {
    &&& a.long@ == b.long@
    &&& a.short == b.short
    &&& a.placeholder@ == b.placeholder@
    &&& a.description@ == b.description@
    &&& a.required == b.required
    &&& text::opt_view(a.default) == text::opt_view(b.default)
    &&& text::opt_view(a.env_var) == text::opt_view(b.env_var)
    &&& a.multi == b.multi
    &&& a.hidden == b.hidden
    &&& a.validator == b.validator
}

/// Whether `after` is `before` with change `c` made: the field that `c`
/// sets holds its new value, and every other field is as it was.
pub open spec fn changed(before: OptionDef, after: OptionDef, c: OptionChange) -> bool {
    &&& after.long@ == before.long@
    &&& after.short == (if let OptionChange::Short(ch) = c { Some(ch) } else { before.short })
    &&& after.placeholder@ == (if let OptionChange::Placeholder(t) = c { t } else { before.placeholder@ })
    &&& after.description@ == (if let OptionChange::Description(t) = c { t } else { before.description@ })
    &&& after.required == (c is Required || before.required)
    &&& text::opt_view(after.default) == (if let OptionChange::Default(t) = c {
        Some(t)
    } else {
        text::opt_view(before.default)
    })
    &&& text::opt_view(after.env_var) == (if let OptionChange::EnvVar(t) = c {
        Some(t)
    } else {
        text::opt_view(before.env_var)
    })
    &&& after.multi == (c is Multi || before.multi)
    &&& after.hidden == (c is Hidden || before.hidden)
    &&& after.validator == (if let OptionChange::Validate(v) = c { Some(v) } else { before.validator })
}

/// Standalone builder for defining a key-value option argument.
///
/// Construct with [`Opt::new()`], chain modifiers like [`.short()`](Opt::short),
/// [`.required()`](Opt::required), [`.default()`](Opt::default),
/// [`.env()`](Opt::env), [`.multi()`](Opt::multi), and [`.hidden()`](Opt::hidden),
/// then pass to [`ArgBuilder::option()`].
#[derive(Clone, Debug)]
pub struct Opt {
    long: String,
    short: Option<char>,
    placeholder: String,
    description: String,
    required: bool,
    default: Option<String>,
    env_var: Option<String>,
    multi: bool,
    hidden: bool,
    validator: Option<Validator>,
}

impl Opt {
    /// The definition this builder produces.
    pub closed spec fn def(self) -> OptionDef {
        OptionDef {
            long: self.long,
            short: self.short,
            placeholder: self.placeholder,
            description: self.description,
            required: self.required,
            default: self.default,
            env_var: self.env_var,
            multi: self.multi,
            hidden: self.hidden,
            validator: self.validator,
        }
    }

    /// Create a new option with only the long name.
    /// Placeholder defaults to the uppercased long name; description defaults to empty.
    pub fn new(long: &str) -> (r: Self)
        ensures
            r.def().long@ == long@,
            r.def().short is None,
            r.def().placeholder@ == uppercase(long@),
            r.def().description@ == Seq::<char>::empty(),
            !r.def().required,
            r.def().default is None,
            r.def().env_var is None,
            !r.def().multi,
            !r.def().hidden,
            r.def().validator is None,
    {
        let placeholder = to_uppercase(long);
        Self {
            long: owned(long),
            short: None,
            placeholder,
            description: String::new(),
            required: false,
            default: None,
            env_var: None,
            multi: false,
            hidden: false,
            validator: None,
        }
    }

    /// Set the placeholder shown in help text (e.g. "FILE").
    pub fn placeholder(self, placeholder: &str) -> (r: Self)
        ensures
            r.def().placeholder@ == placeholder@,
            r.def() == (OptionDef { placeholder: r.def().placeholder, ..self.def() }),
            changed(self.def(), r.def(), OptionChange::Placeholder(placeholder@)),
    {
        let mut s = self;
        s.placeholder = owned(placeholder);
        s
    }

    /// Set the description shown in help text.
    pub fn desc(self, description: &str) -> (r: Self)
        ensures
            r.def().description@ == description@,
            r.def() == (OptionDef { description: r.def().description, ..self.def() }),
            changed(self.def(), r.def(), OptionChange::Description(description@)),
    {
        let mut s = self;
        s.description = owned(description);
        s
    }

    /// Set the optional single-character short form.
    pub fn short(self, ch: char) -> (r: Self)
        ensures
            r.def() == (OptionDef { short: Some(ch), ..self.def() }),
            changed(self.def(), r.def(), OptionChange::Short(ch)),
    {
        let mut s = self;
        s.short = Some(ch);
        s
    }

    /// Mark this option as required.
    pub fn required(self) -> (r: Self)
        ensures
            r.def() == (OptionDef { required: true, ..self.def() }),
            changed(self.def(), r.def(), OptionChange::Required),
    {
        let mut s = self;
        s.required = true;
        s
    }

    /// Set a default value for this option.
    pub fn default(self, value: &str) -> (r: Self)
        ensures
            text::opt_view(r.def().default) == Some(value@),
            r.def() == (OptionDef { default: r.def().default, ..self.def() }),
            changed(self.def(), r.def(), OptionChange::Default(value@)),
    {
        let mut s = self;
        s.default = Some(owned(value));
        s
    }

    /// Set an environment variable fallback for this option.
    pub fn env(self, var_name: &str) -> (r: Self)
        ensures
            text::opt_view(r.def().env_var) == Some(var_name@),
            r.def() == (OptionDef { env_var: r.def().env_var, ..self.def() }),
            changed(self.def(), r.def(), OptionChange::EnvVar(var_name@)),
    {
        let mut s = self;
        s.env_var = Some(owned(var_name));
        s
    }

    /// Mark this option as accepting multiple values.
    pub fn multi(self) -> (r: Self)
        ensures
            r.def() == (OptionDef { multi: true, ..self.def() }),
            changed(self.def(), r.def(), OptionChange::Multi),
    {
        let mut s = self;
        s.multi = true;
        s
    }

    /// Mark this option as hidden (excluded from help text).
    pub fn hidden(self) -> (r: Self)
        ensures
            r.def() == (OptionDef { hidden: true, ..self.def() }),
            changed(self.def(), r.def(), OptionChange::Hidden),
    {
        let mut s = self;
        s.hidden = true;
        s
    }

    /// Attach a validator that every value of this option must pass.
    pub fn validate(self, validator: Validator) -> (r: Self)
        ensures
            r.def() == (OptionDef { validator: Some(validator), ..self.def() }),
            changed(self.def(), r.def(), OptionChange::Validate(validator)),
    {
        let mut s = self;
        s.validator = Some(validator);
        s
    }

    /// The definition this builder describes.
    fn into_def(self) -> (r: OptionDef)
        ensures
            r == self.def(),
    {
        OptionDef {
            long: self.long,
            short: self.short,
            placeholder: self.placeholder,
            description: self.description,
            required: self.required,
            default: self.default,
            env_var: self.env_var,
            multi: self.multi,
            hidden: self.hidden,
            validator: self.validator,
        }
    }
}

/// Standalone builder for defining a positional argument.
///
/// Construct with [`Pos::new()`], chain modifiers like [`.desc()`](Pos::desc),
/// [`.required()`](Pos::required), [`.default()`](Pos::default), and
/// [`.multi()`](Pos::multi), then pass to [`ArgBuilder::positional()`].
#[derive(Clone, Debug)]
pub struct Pos {
    name: String,
    description: String,
    required: bool,
    default: Option<String>,
    multi: bool,
    validator: Option<Validator>,
}

impl Pos {
    /// The definition this builder produces.
    pub closed spec fn def(self) -> PositionalDef {
        PositionalDef {
            name: self.name,
            description: self.description,
            required: self.required,
            default: self.default,
            multi: self.multi,
            validator: self.validator,
        }
    }

    /// Create a new positional with a name.
    pub fn new(name: &str) -> (r: Self)
        ensures
            r.def().name@ == name@,
            r.def().description@ == Seq::<char>::empty(),
            !r.def().required,
            r.def().default is None,
            !r.def().multi,
            r.def().validator is None,
    {
        Self {
            name: owned(name),
            description: String::new(),
            required: false,
            default: None,
            multi: false,
            validator: None,
        }
    }

    /// Set the description shown in help text.
    pub fn desc(self, description: &str) -> (r: Self)
        ensures
            r.def().description@ == description@,
            r.def() == (PositionalDef { description: r.def().description, ..self.def() }),
    {
        let mut s = self;
        s.description = owned(description);
        s
    }

    /// Mark this positional as required.
    pub fn required(self) -> (r: Self)
        ensures
            r.def() == (PositionalDef { required: true, ..self.def() }),
    {
        let mut s = self;
        s.required = true;
        s
    }

    /// Set a default value for this positional argument.
    pub fn default(self, value: &str) -> (r: Self)
        ensures
            text::opt_view(r.def().default) == Some(value@),
            r.def() == (PositionalDef { default: r.def().default, ..self.def() }),
    {
        let mut s = self;
        s.default = Some(owned(value));
        s
    }

    /// Mark this positional as collecting all remaining arguments.
    pub fn multi(self) -> (r: Self)
        ensures
            r.def() == (PositionalDef { multi: true, ..self.def() }),
    {
        let mut s = self;
        s.multi = true;
        s
    }

    /// Attach a validator that the value of this positional must pass.
    pub fn validate(self, validator: Validator) -> (r: Self)
        ensures
            r.def() == (PositionalDef { validator: Some(validator), ..self.def() }),
    {
        let mut s = self;
        s.validator = Some(validator);
        s
    }

    /// The definition this builder describes.
    fn into_def(self) -> (r: PositionalDef)
        ensures
            r == self.def(),
    {
        PositionalDef {
            name: self.name,
            description: self.description,
            required: self.required,
            default: self.default,
            multi: self.multi,
            validator: self.validator,
        }
    }
}

/// Index of the first item of `s` that equals an earlier item, or `-1`.
pub open spec fn first_repeat<A>(s: Seq<A>) -> int {
    first_repeat_from(s, 0)
}

pub open spec fn first_repeat_from<A>(s: Seq<A>, j: int) -> int
    decreases s.len() - j,
{
    if j < 0 || j >= s.len() {
        -1
    } else if s.take(j).contains(s[j]) {
        j
    } else {
        first_repeat_from(s, j + 1)
    }
}

/// The long names of flags, then of options, in order.
pub open spec fn all_longs(flags: Seq<FlagDef>, options: Seq<OptionDef>) -> Seq<Seq<char>> {
    flags.map_values(|f: FlagDef| f.long@) + options.map_values(|o: OptionDef| o.long@)
}

/// The short forms of flags, in order (those that have one).
pub open spec fn flag_shorts(flags: Seq<FlagDef>) -> Seq<char>
    decreases flags.len(),
{
    if flags.len() == 0 {
        seq![]
    } else {
        flag_shorts(flags.drop_last()) + match flags.last().short {
            Some(c) => seq![c],
            None => seq![],
        }
    }
}

/// The short forms of options, in order (those that have one).
pub open spec fn option_shorts(options: Seq<OptionDef>) -> Seq<char>
    decreases options.len(),
{
    if options.len() == 0 {
        seq![]
    } else {
        option_shorts(options.drop_last()) + match options.last().short {
            Some(c) => seq![c],
            None => seq![],
        }
    }
}

/// The short forms of flags, then of options, in order (those that have one).
pub open spec fn all_shorts(flags: Seq<FlagDef>, options: Seq<OptionDef>) -> Seq<char> {
    flag_shorts(flags) + option_shorts(options)
}

/// Index of the first positional that is required and also has a default or
/// is multi, or `-1`.
pub open spec fn first_bad_positional(ps: Seq<PositionalDef>) -> int
    decreases ps.len(),
{
    if ps.len() == 0 {
        -1
    } else if first_bad_positional(ps.drop_last()) >= 0 {
        first_bad_positional(ps.drop_last())
    } else if ps.last().required && (ps.last().default is Some || ps.last().multi) {
        ps.len() - 1
    } else {
        -1
    }
}

/// Index of the first multi positional that is not the last one, or `-1`.
pub open spec fn first_early_multi(ps: Seq<PositionalDef>) -> int
    decreases ps.len(),
{
    if ps.len() <= 1 {
        -1
    } else if first_early_multi(ps.drop_last()) >= 0 {
        first_early_multi(ps.drop_last())
    } else if ps[ps.len() - 2].multi {
        ps.len() - 2
    } else {
        -1
    }
}

/// The message with which `build` rejects a schema, or `None` when it accepts it.
pub open spec fn schema_error(
    version: Option<String>,
    flags: Seq<FlagDef>,
    options: Seq<OptionDef>,
    positionals: Seq<PositionalDef>,
) -> Option<Seq<char>> {
    let longs = all_longs(flags, options);
    let shorts = all_shorts(flags, options);
    if first_repeat(longs) >= 0 {
        Some("duplicate long argument name: --"@ + longs[first_repeat(longs)])
    } else if first_repeat(shorts) >= 0 {
        Some("duplicate short argument: -"@ + seq![shorts[first_repeat(shorts)]])
    } else if version is Some && shorts.contains('V') {
        Some("duplicate short argument: -V (reserved for --version)"@)
    } else if first_bad_positional(positionals) >= 0 {
        let p = positionals[first_bad_positional(positionals)];
        if p.default is Some {
            Some("positional '"@ + p.name@ + "' cannot be both required and have a default"@)
        } else {
            Some("positional '"@ + p.name@ + "' cannot be both required and multi"@)
        }
    } else if first_early_multi(positionals) >= 0 {
        Some(
            "multi positional '"@ + positionals[first_early_multi(positionals)].name@
                + "' must be the last positional"@,
        )
    } else {
        None
    }
}

/// Fluent builder for constructing an [`ArgParser`].
///
/// Chain calls to [`flag()`](ArgBuilder::flag), [`option()`](ArgBuilder::option),
/// [`positional()`](ArgBuilder::positional), and [`subcommand()`](ArgBuilder::subcommand)
/// to define the argument schema, then call [`build()`](ArgBuilder::build) to produce
/// the parser.
#[must_use]
#[derive(Debug)]
pub struct ArgBuilder {
    program_name: Option<String>,
    program_desc: Option<String>,
    version: Option<String>,
    flags: Vec<FlagDef>,
    options: Vec<OptionDef>,
    positionals: Vec<PositionalDef>,
    subcommands: Vec<SubcommandDef>,
}

/// Whether `s` is a subcommand entry with this name, description and parser.
pub open spec fn sub_entry(s: SubcommandDef, name: Seq<char>, desc: Seq<char>, parser: ArgParser) -> bool {
    s.name@ == name && s.description@ == desc && s.parser == parser
}

/// Whether `new_subs` is `old_subs` with subcommand `name` registered: an
/// entry with that name is given the new description and parser in place;
/// otherwise a new entry is added at the end.
pub open spec fn registered(
    old_subs: Seq<SubcommandDef>,
    new_subs: Seq<SubcommandDef>,
    name: Seq<char>,
    desc: Seq<char>,
    parser: ArgParser,
) -> bool {
    let k = crate::parser::first_index(old_subs, crate::parser::sub_named(name));
    if k >= 0 {
        &&& new_subs.len() == old_subs.len()
        &&& sub_entry(new_subs[k], name, desc, parser)
        &&& forall|j: int| 0 <= j < old_subs.len() && j != k ==> new_subs[j] == old_subs[j]
    } else {
        &&& new_subs.len() == old_subs.len() + 1
        &&& sub_entry(new_subs[old_subs.len() as int], name, desc, parser)
        &&& new_subs.take(old_subs.len() as int) == old_subs
    }
}

/// A call that adds to an [`ArgBuilder`]'s schema.
pub enum BuilderCall {
    Name(Seq<char>),
    Description(Seq<char>),
    Version(Seq<char>),
    Flag(FlagDef),
    Option(OptionDef),
    Positional(PositionalDef),
    Subcommand(Seq<char>, Seq<char>, ArgParser),
}

/// Whether schema `after` is schema `before` with call `c` made: the part
/// that `c` sets is changed as it says, and every other part is as it was.
pub open spec fn called(before: ArgParser, after: ArgParser, c: BuilderCall) -> bool {
    match c {
        BuilderCall::Name(n) => text::opt_view(after.program_name) == Some(n) && after == (ArgParser {
            program_name: after.program_name,
            ..before
        }),
        BuilderCall::Description(d) => text::opt_view(after.program_desc) == Some(d) && after == (ArgParser {
            program_desc: after.program_desc,
            ..before
        }),
        BuilderCall::Version(v) => text::opt_view(after.version) == Some(v) && after == (ArgParser {
            version: after.version,
            ..before
        }),
        BuilderCall::Flag(f) => after.flags@ == before.flags@.push(f) && after == (ArgParser {
            flags: after.flags,
            ..before
        }),
        BuilderCall::Option(o) => after.options@ == before.options@.push(o) && after == (ArgParser {
            options: after.options,
            ..before
        }),
        BuilderCall::Positional(q) => after.positionals@ == before.positionals@.push(q) && after == (
        ArgParser { positionals: after.positionals, ..before }),
        BuilderCall::Subcommand(n, d, q) => registered(before.subcommands@, after.subcommands@, n, d, q)
            && after == (ArgParser { subcommands: after.subcommands, ..before }),
    }
}

impl ArgBuilder {
    /// The parser this builder describes, before validation.
    pub closed spec fn schema(self) -> ArgParser {
        ArgParser {
            program_name: self.program_name,
            program_desc: self.program_desc,
            version: self.version,
            flags: self.flags,
            options: self.options,
            positionals: self.positionals,
            subcommands: self.subcommands,
        }
    }

    /// Create a new builder with no arguments defined.
    pub fn new() -> (r: Self)
        ensures
            r.schema().program_name is None,
            r.schema().program_desc is None,
            r.schema().version is None,
            r.schema().flags@.len() == 0,
            r.schema().options@.len() == 0,
            r.schema().positionals@.len() == 0,
            r.schema().subcommands@.len() == 0,
    {
        Self {
            program_name: None,
            program_desc: None,
            version: None,
            flags: Vec::new(),
            options: Vec::new(),
            positionals: Vec::new(),
            subcommands: Vec::new(),
        }
    }

    /// Set the program name shown in usage and version text.
    pub fn name(self, name: &str) -> (r: Self)
        ensures
            text::opt_view(r.schema().program_name) == Some(name@),
            r.schema() == (ArgParser { program_name: r.schema().program_name, ..self.schema() }),
            called(self.schema(), r.schema(), BuilderCall::Name(name@)),
    {
        let mut s = self;
        s.program_name = Some(owned(name));
        s
    }

    /// Set the program description shown at the top of help text.
    pub fn description(self, desc: &str) -> (r: Self)
        ensures
            text::opt_view(r.schema().program_desc) == Some(desc@),
            r.schema() == (ArgParser { program_desc: r.schema().program_desc, ..self.schema() }),
            called(self.schema(), r.schema(), BuilderCall::Description(desc@)),
    {
        let mut s = self;
        s.program_desc = Some(owned(desc));
        s
    }

    /// Set the version string. Enables `--version` / `-V` flags.
    pub fn version(self, version: &str) -> (r: Self)
        ensures
            text::opt_view(r.schema().version) == Some(version@),
            r.schema() == (ArgParser { version: r.schema().version, ..self.schema() }),
            called(self.schema(), r.schema(), BuilderCall::Version(version@)),
    {
        let mut s = self;
        s.version = Some(owned(version));
        s
    }

    /// Add a flag definition to the builder.
    pub fn flag(self, flag: Flag) -> (r: Self)
        ensures
            r.schema().flags@ == self.schema().flags@.push(flag.def()),
            r.schema() == (ArgParser { flags: r.schema().flags, ..self.schema() }),
            called(self.schema(), r.schema(), BuilderCall::Flag(flag.def())),
    {
        let mut s = self;
        s.flags.push(flag.into_def());
        s
    }

    /// Add an option definition to the builder.
    pub fn option(self, opt: Opt) -> (r: Self)
        ensures
            r.schema().options@ == self.schema().options@.push(opt.def()),
            r.schema() == (ArgParser { options: r.schema().options, ..self.schema() }),
            called(self.schema(), r.schema(), BuilderCall::Option(opt.def())),
    {
        let mut s = self;
        s.options.push(opt.into_def());
        s
    }

    /// Add a positional argument definition to the builder.
    pub fn positional(self, pos: Pos) -> (r: Self)
        ensures
            r.schema().positionals@ == self.schema().positionals@.push(pos.def()),
            r.schema() == (ArgParser { positionals: r.schema().positionals, ..self.schema() }),
            called(self.schema(), r.schema(), BuilderCall::Positional(pos.def())),
    {
        let mut s = self;
        s.positionals.push(pos.into_def());
        s
    }

    /// Register a subcommand with a name, description, and its own pre-built
    /// ArgParser. Registering a name again replaces that entry's description
    /// and parser in place.
    pub fn subcommand(self, name: &str, desc: &str, parser: ArgParser) -> (r: Self)
        ensures
            r.schema() == (ArgParser { subcommands: r.schema().subcommands, ..self.schema() }),
            registered(self.schema().subcommands@, r.schema().subcommands@, name@, desc@, parser),
            called(self.schema(), r.schema(), BuilderCall::Subcommand(name@, desc@, parser)),
    {
        let mut s = self;
        let ghost old_subs = s.subcommands@;
        let ghost pred = crate::parser::sub_named(name@);
        proof {
            crate::parser::lemma_first_index_from(old_subs, pred, 0);
        }
        let mut i: usize = 0;
        while i < s.subcommands.len()
            invariant
                i <= s.subcommands.len(),
                s.subcommands@ == old_subs,
                self.subcommands@ == old_subs,
                s == (ArgBuilder { subcommands: s.subcommands, ..self }),
                pred == crate::parser::sub_named(name@),
                forall|j: int| 0 <= j < i ==> !pred(#[trigger] old_subs[j]),
            decreases s.subcommands.len() - i,
        {
            if same(s.subcommands[i].name.as_str(), name) {
                assert(pred(old_subs[i as int]));
                proof {
                    crate::parser::lemma_first_index_from(old_subs, pred, 0);
                }
                let mut entry = s.subcommands.remove(i);
                entry.description = owned(desc);
                entry.parser = parser;
                let ghost e = entry;
                s.subcommands.insert(i, entry);
                assert(s.subcommands@ =~= old_subs.update(i as int, e));
                return s;
            }
            i += 1;
        }
        proof {
            crate::parser::lemma_first_index_from(old_subs, pred, 0);
        }
        s.subcommands.push(SubcommandDef { name: owned(name), description: owned(desc), parser });
        assert(s.subcommands@.take(old_subs.len() as int) =~= old_subs);
        s
    }

    /// Validate the schema and produce an [`ArgParser`].
    ///
    /// Returns [`ParseError::InvalidFormat`] if there are duplicate long names,
    /// duplicate short characters, a `-V` conflict when a version is set, a
    /// positional that is required and has a default or is multi, or a multi
    /// positional that is not the last one.
    #[must_use]
    pub fn build(self) -> (r: Result<ArgParser, ParseError>)
        ensures
            match schema_error(
                self.schema().version,
                self.schema().flags@,
                self.schema().options@,
                self.schema().positionals@,
            ) {
                None => r == Ok::<ArgParser, ParseError>(self.schema()),
                Some(m) => r matches Err(ParseError::InvalidFormat(msg)) && msg@ == m,
            },
    {
        let ghost longs_spec = all_longs(self.flags@, self.options@);
        let ghost shorts_spec = all_shorts(self.flags@, self.options@);
        let longs = collect_longs(&self.flags, &self.options);
        let shorts = collect_shorts(&self.flags, &self.options);
        let lr = first_repeat_exec(&longs);
        if lr < longs.len() {
            let mut msg = owned("duplicate long argument name: --");
            append_str(&mut msg, longs[lr].as_str());
            return Err(ParseError::InvalidFormat(msg));
        }
        let sr = first_repeat_char(&shorts);
        if sr < shorts.len() {
            let mut msg = owned("duplicate short argument: -");
            push_char(&mut msg, shorts[sr]);
            return Err(ParseError::InvalidFormat(msg));
        }
        if self.version.is_some() && crate::text::has_char(&shorts, 'V') {
            return Err(
                ParseError::InvalidFormat(
                    owned("duplicate short argument: -V (reserved for --version)"),
                ),
            );
        }
        let bad = first_bad_positional_exec(&self.positionals);
        if bad < self.positionals.len() {
            let p = &self.positionals[bad];
            let mut msg = owned("positional '");
            append_str(&mut msg, p.name.as_str());
            if p.default.is_some() {
                append_str(&mut msg, "' cannot be both required and have a default");
            } else {
                append_str(&mut msg, "' cannot be both required and multi");
            }
            return Err(ParseError::InvalidFormat(msg));
        }
        let early = first_early_multi_exec(&self.positionals);
        if early < self.positionals.len() {
            let mut msg = owned("multi positional '");
            append_str(&mut msg, self.positionals[early].name.as_str());
            append_str(&mut msg, "' must be the last positional");
            return Err(ParseError::InvalidFormat(msg));
        }
        Ok(
            ArgParser {
                program_name: self.program_name,
                program_desc: self.program_desc,
                version: self.version,
                flags: self.flags,
                options: self.options,
                positionals: self.positionals,
                subcommands: self.subcommands,
            },
        )
    }
}

impl Default for ArgBuilder {
    fn default() -> (r: Self)
        ensures
            r.schema().program_name is None,
            r.schema().program_desc is None,
            r.schema().version is None,
            r.schema().flags@.len() == 0,
            r.schema().options@.len() == 0,
            r.schema().positionals@.len() == 0,
            r.schema().subcommands@.len() == 0,
    {
        Self::new()
    }
}

/// The long names of `flags` then `options`.
fn collect_longs(flags: &Vec<FlagDef>, options: &Vec<OptionDef>) -> (r: Vec<String>)
    ensures
        crate::validators::strs_view(r@) == all_longs(flags@, options@),
{
    let mut r: Vec<String> = Vec::new();
    let mut i: usize = 0;
    while i < flags.len()
        invariant
            i <= flags.len(),
            r.len() == i,
            forall|k: int| 0 <= k < i ==> (#[trigger] r@[k])@ == flags@[k].long@,
        decreases flags.len() - i,
    {
        r.push(flags[i].long.clone());
        i += 1;
    }
    let mut j: usize = 0;
    while j < options.len()
        invariant
            j <= options.len(),
            r.len() == flags.len() + j,
            forall|k: int| 0 <= k < flags.len() ==> (#[trigger] r@[k])@ == flags@[k].long@,
            forall|k: int|
                flags.len() <= k < r.len() ==> (#[trigger] r@[k])@ == options@[k - flags.len()].long@,
        decreases options.len() - j,
    {
        r.push(options[j].long.clone());
        j += 1;
    }
    assert(crate::validators::strs_view(r@) =~= all_longs(flags@, options@));
    r
}

/// The short forms of `flags` then `options`, skipping entries without one.
fn collect_shorts(flags: &Vec<FlagDef>, options: &Vec<OptionDef>) -> (r: Vec<char>)
    ensures
        r@ == all_shorts(flags@, options@),
{
    let mut r: Vec<char> = Vec::new();
    let mut i: usize = 0;
    while i < flags.len()
        invariant
            i <= flags.len(),
            r@ == flag_shorts(flags@.take(i as int)),
        decreases flags.len() - i,
    {
        assert(flags@.take(i + 1).drop_last() =~= flags@.take(i as int));
        if let Some(c) = flags[i].short {
            r.push(c);
        }
        i += 1;
    }
    assert(flags@.take(flags.len() as int) =~= flags@);
    let ghost mid = r@;
    let mut j: usize = 0;
    while j < options.len()
        invariant
            j <= options.len(),
            mid == flag_shorts(flags@),
            r@ == mid + option_shorts(options@.take(j as int)),
        decreases options.len() - j,
    {
        assert(options@.take(j + 1).drop_last() =~= options@.take(j as int));
        if let Some(c) = options[j].short {
            r.push(c);
        }
        j += 1;
        assert(r@ =~= mid + option_shorts(options@.take(j as int)));
    }
    assert(options@.take(options.len() as int) =~= options@);
    r
}

/// Index of the first string equal to an earlier one, or `v.len()`.
fn first_repeat_exec(v: &Vec<String>) -> (r: usize)
    ensures
        r <= v.len(),
        r == v.len() <==> first_repeat(crate::validators::strs_view(v@)) == -1,
        r < v.len() ==> r == first_repeat(crate::validators::strs_view(v@)),
{
    let ghost s = crate::validators::strs_view(v@);
    let mut j: usize = 0;
    while j < v.len()
        invariant
            j <= v.len(),
            s == crate::validators::strs_view(v@),
            first_repeat_from(s, 0) == first_repeat_from(s, j as int),
        decreases v.len() - j,
    {
        let mut k: usize = 0;
        while k < j
            invariant
                k <= j < v.len(),
                s == crate::validators::strs_view(v@),
                first_repeat_from(s, 0) == first_repeat_from(s, j as int),
                forall|m: int| 0 <= m < k ==> s[m] != s[j as int],
            decreases j - k,
        {
            if same(v[k].as_str(), v[j].as_str()) {
                assert(s.take(j as int)[k as int] == s[j as int]);
                assert(s.take(j as int).contains(s[j as int]));
                return j;
            }
            k += 1;
        }
        assert(!s.take(j as int).contains(s[j as int]));
        j += 1;
    }
    j
}

/// Index of the first character equal to an earlier one, or `v.len()`.
fn first_repeat_char(v: &Vec<char>) -> (r: usize)
    ensures
        r <= v.len(),
        r == v.len() <==> first_repeat(v@) == -1,
        r < v.len() ==> r == first_repeat(v@),
{
    let mut j: usize = 0;
    while j < v.len()
        invariant
            j <= v.len(),
            first_repeat_from(v@, 0) == first_repeat_from(v@, j as int),
        decreases v.len() - j,
    {
        let mut k: usize = 0;
        while k < j
            invariant
                k <= j < v.len(),
                first_repeat_from(v@, 0) == first_repeat_from(v@, j as int),
                forall|m: int| 0 <= m < k ==> v@[m] != v@[j as int],
            decreases j - k,
        {
            if v[k] == v[j] {
                assert(v@.take(j as int)[k as int] == v@[j as int]);
                assert(v@.take(j as int).contains(v@[j as int]));
                return j;
            }
            k += 1;
        }
        assert(!v@.take(j as int).contains(v@[j as int]));
        j += 1;
    }
    j
}

/// Index of the first positional that is required and has a default or is
/// multi, or `ps.len()`.
fn first_bad_positional_exec(ps: &Vec<PositionalDef>) -> (r: usize)
    ensures
        r <= ps.len(),
        r == ps.len() <==> first_bad_positional(ps@) == -1,
        r < ps.len() ==> r == first_bad_positional(ps@),
{
    let mut i: usize = 0;
    while i < ps.len()
        invariant
            i <= ps.len(),
            first_bad_positional(ps@.take(i as int)) == -1,
        decreases ps.len() - i,
    {
        assert(ps@.take(i + 1).drop_last() =~= ps@.take(i as int));
        let p = &ps[i];
        if p.required && (p.default.is_some() || p.multi) {
            proof {
                lemma_bad_positional_prefix(ps@, i as int + 1);
            }
            return i;
        }
        i += 1;
    }
    assert(ps@.take(ps.len() as int) =~= ps@);
    i
}

proof fn lemma_bad_positional_prefix(ps: Seq<PositionalDef>, n: int)
    requires
        0 <= n <= ps.len(),
        first_bad_positional(ps.take(n)) >= 0,
    ensures
        first_bad_positional(ps) == first_bad_positional(ps.take(n)),
    decreases ps.len() - n,
{
    if n < ps.len() {
        assert(ps.take(n + 1).drop_last() =~= ps.take(n));
        lemma_bad_positional_prefix(ps, n + 1);
    } else {
        assert(ps.take(n) =~= ps);
    }
}

proof fn lemma_early_multi_prefix(ps: Seq<PositionalDef>, n: int)
    requires
        0 <= n <= ps.len(),
        first_early_multi(ps.take(n)) >= 0,
    ensures
        first_early_multi(ps) == first_early_multi(ps.take(n)),
    decreases ps.len() - n,
{
    if n < ps.len() {
        assert(ps.take(n + 1).drop_last() =~= ps.take(n));
        lemma_early_multi_prefix(ps, n + 1);
    } else {
        assert(ps.take(n) =~= ps);
    }
}

/// Index of the first multi positional that is not last, or `ps.len()`.
fn first_early_multi_exec(ps: &Vec<PositionalDef>) -> (r: usize)
    ensures
        r <= ps.len(),
        r == ps.len() <==> first_early_multi(ps@) == -1,
        r < ps.len() ==> r == first_early_multi(ps@),
{
    if ps.len() <= 1 {
        assert(ps@.len() <= 1);
        return ps.len();
    }
    let mut i: usize = 1;
    while i < ps.len()
        invariant
            1 <= i <= ps.len(),
            first_early_multi(ps@.take(i as int)) == -1,
        decreases ps.len() - i,
    {
        assert(ps@.take(i + 1).drop_last() =~= ps@.take(i as int));
        assert(ps@.take(i + 1)[i - 1] == ps@[i - 1]);
        if ps[i - 1].multi {
            proof {
                lemma_early_multi_prefix(ps@, i as int + 1);
            }
            return i - 1;
        }
        i += 1;
    }
    assert(ps@.take(ps.len() as int) =~= ps@);
    i
}

impl From<Flag> for FlagDef {
    fn from(f: Flag) -> (r: FlagDef) {
        f.into_def()
    }
}

impl vstd::std_specs::convert::FromSpecImpl<Flag> for FlagDef {
    open spec fn obeys_from_spec() -> bool {
        true
    }

    open spec fn from_spec(v: Flag) -> FlagDef {
        v.def()
    }
}

impl From<Opt> for OptionDef {
    fn from(o: Opt) -> (r: OptionDef) {
        o.into_def()
    }
}

impl vstd::std_specs::convert::FromSpecImpl<Opt> for OptionDef {
    open spec fn obeys_from_spec() -> bool {
        true
    }

    open spec fn from_spec(v: Opt) -> OptionDef {
        v.def()
    }
}

impl From<Pos> for PositionalDef {
    fn from(p: Pos) -> (r: PositionalDef) {
        p.into_def()
    }
}

impl vstd::std_specs::convert::FromSpecImpl<Pos> for PositionalDef {
    open spec fn obeys_from_spec() -> bool {
        true
    }

    open spec fn from_spec(v: Pos) -> PositionalDef {
        v.def()
    }
}

} // verus!
