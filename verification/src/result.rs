//! The result of parsing, its accessors, and a builder for it.
use vstd::prelude::*;

use crate::parser::{first_index, lemma_first_index_from};
use crate::text::owned;
use crate::validators::strs_view;

verus! {

/// Whether a keyed entry has the key `k`.
pub open spec fn key_is<V>(k: Seq<char>) -> spec_fn((Seq<char>, V)) -> bool {
    |p: (Seq<char>, V)| p.0 == k
}

/// The value stored under `k` (the first entry with that key), if any.
pub open spec fn lookup<V>(l: Seq<(Seq<char>, V)>, k: Seq<char>) -> Option<V> {
    let i = first_index(l, key_is::<V>(k));
    if i >= 0 {
        Some(l[i].1)
    } else {
        None
    }
}

/// `l` with the value under `k` set to `v`: the entry is replaced in place
/// when the key is present, and appended otherwise.
pub open spec fn assign<V>(l: Seq<(Seq<char>, V)>, k: Seq<char>, v: V) -> Seq<(Seq<char>, V)> {
    let i = first_index(l, key_is::<V>(k));
    if i >= 0 {
        l.update(i, (k, v))
    } else {
        l.push((k, v))
    }
}

/// The values stored under `k`, or none.
pub open spec fn values_of(l: Seq<(Seq<char>, Seq<Seq<char>>)>, k: Seq<char>) -> Seq<Seq<char>> {
    match lookup(l, k) {
        Some(vs) => vs,
        None => seq![],
    }
}

/// The contents of flag entries.
pub open spec fn flag_pairs(v: Seq<(String, bool)>) -> Seq<(Seq<char>, bool)> {
    v.map_values(|p: (String, bool)| (p.0@, p.1))
}

/// The contents of option entries.
pub open spec fn option_pairs(v: Seq<(String, Vec<String>)>) -> Seq<(Seq<char>, Seq<Seq<char>>)> {
    v.map_values(|p: (String, Vec<String>)| (p.0@, strs_view(p.1@)))
}

/// The mathematical content of a [`ParseResult`].
pub struct ResultModel {
    pub flags: Seq<(Seq<char>, bool)>,
    pub options: Seq<(Seq<char>, Seq<Seq<char>>)>,
    pub positionals: Seq<Seq<char>>,
    pub subcommand: Option<Seq<char>>,
    pub sub_result: Option<Box<ResultModel>>,
    pub known_flags: Seq<Seq<char>>,
    pub known_options: Seq<Seq<char>>,
}

impl ResultModel {
    /// Whether the result carries the schema's flag and option names.
    pub open spec fn has_schema(self) -> bool {
        self.known_flags.len() > 0 || self.known_options.len() > 0
    }

    /// The value reported for flag `name`.
    pub open spec fn flag(self, name: Seq<char>) -> bool {
        match lookup(self.flags, name) {
            Some(b) => b,
            None => false,
        }
    }

    /// The last value given for option `name`, if any.
    pub open spec fn option(self, name: Seq<char>) -> Option<Seq<char>> {
        let vs = values_of(self.options, name);
        if vs.len() > 0 {
            Some(vs.last())
        } else {
            None
        }
    }

    /// Whether `name` may be asked of `get_flag`: the result has no schema,
    /// or `name` is one of its flags.
    pub open spec fn flag_name_known(self, name: Seq<char>) -> bool {
        !self.has_schema() || self.known_flags.contains(name)
    }

    /// Whether `name` may be asked of the option accessors.
    pub open spec fn option_name_known(self, name: Seq<char>) -> bool {
        !self.has_schema() || self.known_options.contains(name)
    }
}

/// The result of parsing a set of arguments.
///
/// Provides accessors for flags, options, positionals, and subcommands.
/// Constructed by [`ArgParser::parse()`](crate::ArgParser::parse) or [`ParseResultBuilder::build()`].
#[derive(Debug, PartialEq)]
pub struct ParseResult {
    /// Flag and option values are kept as lists of name/value entries, one
    /// entry per name, in the order the names were first set: lookups and
    /// updates then have exact contracts over `Seq`s of pairs.
    flags: Vec<(String, bool)>,
    option_values: Vec<(String, Vec<String>)>,
    positionals: Vec<String>,
    subcommand: Option<String>,
    subcommand_result: Option<Box<ParseResult>>,
    /// Known flag and option names from the schema (empty for schema-free parsing).
    known_flags: Vec<String>,
    known_options: Vec<String>,
}

impl ParseResult {
    /// The mathematical content of this result.
    pub closed spec fn model(&self) -> ResultModel
        decreases self,
    {
        ResultModel {
            flags: flag_pairs(self.flags@),
            options: option_pairs(self.option_values@),
            positionals: strs_view(self.positionals@),
            subcommand: crate::text::opt_view(self.subcommand),
            sub_result: match &self.subcommand_result {
                Some(b) => Some(Box::new((**b).model())),
                None => None,
            },
            known_flags: strs_view(self.known_flags@),
            known_options: strs_view(self.known_options@),
        }
    }

    /// Internal constructor used by the parser and the schema-free parser.
    pub(crate) fn new(
        flags: Vec<(String, bool)>,
        option_values: Vec<(String, Vec<String>)>,
        positionals: Vec<String>,
        subcommand: Option<String>,
        subcommand_result: Option<Box<ParseResult>>,
    ) -> (r: Self)
        ensures
            r.model().flags == flag_pairs(flags@),
            r.model().options == option_pairs(option_values@),
            r.model().positionals == strs_view(positionals@),
            r.model().subcommand == crate::text::opt_view(subcommand),
            r.model().sub_result == match subcommand_result {
                Some(b) => Some(Box::new(b.model())),
                None => None::<Box<ResultModel>>,
            },
            r.model().known_flags == Seq::<Seq<char>>::empty(),
            r.model().known_options == Seq::<Seq<char>>::empty(),
    {
        let r = Self {
            flags,
            option_values,
            positionals,
            subcommand,
            subcommand_result,
            known_flags: Vec::new(),
            known_options: Vec::new(),
        };
        assert(strs_view(r.known_flags@) =~= Seq::<Seq<char>>::empty());
        assert(strs_view(r.known_options@) =~= Seq::<Seq<char>>::empty());
        r
    }

    /// Attach the schema's flag and option names.
    pub(crate) fn set_known_names(&mut self, flags: Vec<String>, options: Vec<String>)
        ensures
            final(self).model() == (ResultModel {
                known_flags: strs_view(flags@),
                known_options: strs_view(options@),
                ..old(self).model()
            }),
    {
        self.known_flags = flags;
        self.known_options = options;
    }

    /// Returns `true` when schema metadata is present.
    fn has_schema(&self) -> (r: bool)
        ensures
            r == self.model().has_schema(),
    {
        self.known_flags.len() > 0 || self.known_options.len() > 0
    }

    /// Whether `name` is one of `names`.
    fn names_contain(names: &Vec<String>, name: &str) -> (r: bool)
        ensures
            r == strs_view(names@).contains(name@),
    {
        let mut i: usize = 0;
        while i < names.len()
            invariant
                i <= names.len(),
                forall|k: int| 0 <= k < i ==> (#[trigger] names@[k])@ != name@,
            decreases names.len() - i,
        {
            if crate::text::same(names[i].as_str(), name) {
                assert(strs_view(names@)[i as int] == name@);
                return true;
            }
            i += 1;
        }
        assert(!strs_view(names@).contains(name@)) by {
            if strs_view(names@).contains(name@) {
                let k = choose|k: int| 0 <= k < names@.len() && strs_view(names@)[k] == name@;
                assert(names@[k]@ == name@);
            }
        }
        false
    }

    /// Whether `name` may be asked of `get_flag`.
    pub fn flag_name_known(&self, name: &str) -> (r: bool)
        ensures
            r == self.model().flag_name_known(name@),
    {
        !self.has_schema() || Self::names_contain(&self.known_flags, name)
    }

    /// Whether `name` may be asked of the option accessors.
    pub fn option_name_known(&self, name: &str) -> (r: bool)
        ensures
            r == self.model().option_name_known(name@),
    {
        !self.has_schema() || Self::names_contain(&self.known_options, name)
    }

    /// Returns `true` if the flag was provided, `false` otherwise.
    ///
    /// A name that the schema does not know is a programming error: debug
    /// builds panic on it, so callers must only ask for registered flags.
    pub fn get_flag(&self, name: &str) -> (r: bool)
        requires
            self.model().flag_name_known(name@),
        ensures
            r == self.model().flag(name@),
    {
        let i = find_flag_entry(&self.flags, name);
        if i < self.flags.len() {
            self.flags[i].1
        } else {
            false
        }
    }

    /// Index of option `name` in the stored values, or their count.
    fn option_index(&self, name: &str) -> (r: usize)
        ensures
            r <= self.option_values.len(),
            r < self.option_values.len() ==> lookup(self.model().options, name@) == Some(
                strs_view(self.option_values@[r as int].1@),
            ),
            r == self.option_values.len() ==> lookup(self.model().options, name@) is None,
    {
        find_option_entry(&self.option_values, name)
    }

    /// Returns the last value for an option, or `None` if absent.
    ///
    /// A name that the schema does not know is a programming error: debug
    /// builds panic on it, so callers must only ask for registered options.
    pub fn get_option(&self, name: &str) -> (r: Option<&str>)
        requires
            self.model().option_name_known(name@),
        ensures
            match r {
                Some(v) => self.model().option(name@) == Some(v@),
                None => self.model().option(name@) is None,
            },
    {
        let i = self.option_index(name);
        if i < self.option_values.len() {
            let vs = &self.option_values[i].1;
            if vs.len() > 0 {
                Some(vs[vs.len() - 1].as_str())
            } else {
                None
            }
        } else {
            None
        }
    }

    /// Returns all collected values for an option. For single-value options this
    /// is a one-element slice; for multi-value options it contains every collected
    /// value in order; for absent options it returns an empty slice.
    pub fn get_option_values(&self, name: &str) -> (r: &[String])
        requires
            self.model().option_name_known(name@),
        ensures
            strs_view(r@) == values_of(self.model().options, name@),
    {
        let i = self.option_index(name);
        if i < self.option_values.len() {
            self.option_values[i].1.as_slice()
        } else {
            let empty: &[String] = &[];
            assert(strs_view(empty@) =~= Seq::<Seq<char>>::empty());
            empty
        }
    }

    /// Returns the positional arguments in the order they were provided.
    pub fn get_positionals(&self) -> (r: &[String])
        ensures
            strs_view(r@) == self.model().positionals,
    {
        self.positionals.as_slice()
    }

    /// Returns the matched subcommand name, if any.
    pub fn subcommand(&self) -> (r: Option<&str>)
        ensures
            match r {
                Some(s) => self.model().subcommand == Some(s@),
                None => self.model().subcommand is None,
            },
    {
        match &self.subcommand {
            Some(s) => Some(s.as_str()),
            None => None,
        }
    }

    /// Returns the parse result for the matched subcommand, if any.
    pub fn subcommand_result(&self) -> (r: Option<&ParseResult>)
        ensures
            match r {
                Some(s) => self.model().sub_result == Some(Box::new(s.model())),
                None => self.model().sub_result is None,
            },
    {
        match &self.subcommand_result {
            Some(b) => Some(&**b),
            None => None,
        }
    }
}

/// Index of the entry for `key`, or the number of entries.
pub(crate) fn find_flag_entry(l: &Vec<(String, bool)>, key: &str) -> (r: usize)
    ensures
        r <= l.len(),
        r == l.len() <==> first_index(flag_pairs(l@), key_is::<bool>(key@)) == -1,
        r < l.len() ==> r == first_index(flag_pairs(l@), key_is::<bool>(key@)),
{
    let ghost s = flag_pairs(l@);
    proof {
        lemma_first_index_from(s, key_is::<bool>(key@), 0);
    }
    let mut i: usize = 0;
    while i < l.len()
        invariant
            i <= l.len(),
            s == flag_pairs(l@),
            forall|k: int| 0 <= k < i ==> !key_is::<bool>(key@)(#[trigger] s[k]),
        decreases l.len() - i,
    {
        if crate::text::same(l[i].0.as_str(), key) {
            assert(key_is::<bool>(key@)(s[i as int]));
            proof {
                lemma_first_index_from(s, key_is::<bool>(key@), 0);
            }
            return i;
        }
        assert(!key_is::<bool>(key@)(s[i as int]));
        i += 1;
    }
    proof {
        lemma_first_index_from(s, key_is::<bool>(key@), 0);
    }
    i
}

/// Index of the entry for `key`, or the number of entries.
pub(crate) fn find_option_entry(l: &Vec<(String, Vec<String>)>, key: &str) -> (r: usize)
    ensures
        r <= l.len(),
        r == l.len() <==> first_index(option_pairs(l@), key_is::<Seq<Seq<char>>>(key@)) == -1,
        r < l.len() ==> r == first_index(option_pairs(l@), key_is::<Seq<Seq<char>>>(key@)),
        r < l.len() ==> lookup(option_pairs(l@), key@) == Some(strs_view(l@[r as int].1@)),
        r == l.len() ==> lookup(option_pairs(l@), key@) is None,
{
    let ghost s = option_pairs(l@);
    proof {
        lemma_first_index_from(s, key_is::<Seq<Seq<char>>>(key@), 0);
    }
    let mut i: usize = 0;
    while i < l.len()
        invariant
            i <= l.len(),
            s == option_pairs(l@),
            forall|k: int| 0 <= k < i ==> !key_is::<Seq<Seq<char>>>(key@)(#[trigger] s[k]),
        decreases l.len() - i,
    {
        if crate::text::same(l[i].0.as_str(), key) {
            assert(key_is::<Seq<Seq<char>>>(key@)(s[i as int]));
            proof {
                lemma_first_index_from(s, key_is::<Seq<Seq<char>>>(key@), 0);
            }
            return i;
        }
        assert(!key_is::<Seq<Seq<char>>>(key@)(s[i as int]));
        i += 1;
    }
    proof {
        lemma_first_index_from(s, key_is::<Seq<Seq<char>>>(key@), 0);
    }
    i
}

/// Sets the flag `key` to `value`.
pub(crate) fn assign_flag(l: &mut Vec<(String, bool)>, key: &str, value: bool)
    ensures
        flag_pairs(final(l)@) == assign(flag_pairs(old(l)@), key@, value),
{
    let i = find_flag_entry(l, key);
    if i < l.len() {
        let ghost before = l@;
        proof {
            lemma_first_index_from(flag_pairs(before), key_is::<bool>(key@), 0);
            assert(flag_pairs(before)[i as int].0 == key@);
        }
        let entry = l.remove(i);
        l.insert(i, (entry.0, value));
        assert(flag_pairs(l@) =~= assign(flag_pairs(before), key@, value));
    } else {
        l.push((owned(key), value));
        assert(flag_pairs(l@) =~= assign(flag_pairs(old(l)@), key@, value));
    }
}

/// Sets the values under `key` to `values`.
pub(crate) fn assign_values(l: &mut Vec<(String, Vec<String>)>, key: &str, values: Vec<String>)
    ensures
        option_pairs(final(l)@) == assign(option_pairs(old(l)@), key@, strs_view(values@)),
{
    let i = find_option_entry(l, key);
    if i < l.len() {
        let ghost before = l@;
        proof {
            lemma_first_index_from(option_pairs(before), key_is::<Seq<Seq<char>>>(key@), 0);
            assert(option_pairs(before)[i as int].0 == key@);
        }
        let entry = l.remove(i);
        l.insert(i, (entry.0, values));
        assert(option_pairs(l@) =~= assign(option_pairs(before), key@, strs_view(values@)));
    } else {
        l.push((owned(key), values));
        assert(option_pairs(l@) =~= assign(option_pairs(old(l)@), key@, strs_view(values@)));
    }
}

/// Appends `value` to the values under `key` (creating the entry when absent).
pub(crate) fn append_value(l: &mut Vec<(String, Vec<String>)>, key: &str, value: String)
    ensures
        option_pairs(final(l)@) == assign(
            option_pairs(old(l)@),
            key@,
            values_of(option_pairs(old(l)@), key@).push(value@),
        ),
{
    let i = find_option_entry(l, key);
    if i < l.len() {
        let ghost before = l@;
        proof {
            lemma_first_index_from(option_pairs(before), key_is::<Seq<Seq<char>>>(key@), 0);
            assert(option_pairs(before)[i as int].0 == key@);
        }
        let entry = l.remove(i);
        let mut vs = entry.1;
        vs.push(value);
        let ghost nv = vs@;
        l.insert(i, (entry.0, vs));
        assert(strs_view(nv) =~= strs_view(before[i as int].1@).push(value@));
        assert(option_pairs(l@) =~= assign(
            option_pairs(before),
            key@,
            values_of(option_pairs(before), key@).push(value@),
        ));
    } else {
        let mut vs: Vec<String> = Vec::new();
        vs.push(value);
        assert(strs_view(vs@) =~= seq![value@]);
        l.push((owned(key), vs));
        assert(option_pairs(l@) =~= assign(
            option_pairs(old(l)@),
            key@,
            values_of(option_pairs(old(l)@), key@).push(value@),
        ));
    }
}

/// Error returned by the typed option accessors when the option is missing
/// or its value cannot be parsed.
#[derive(Clone, Debug, PartialEq, Eq)]
pub enum OptionError {
    /// The option was not provided on the command line.
    Missing { option: String },
    /// The option value could not be parsed into the target type.
    ParseFailed { option: String, message: String },
}

/// The text that describes an option error to a user.
pub open spec fn option_error_text(e: OptionError) -> Seq<char> {
    match e {
        OptionError::Missing { option } => "option --"@ + option@
            + " is required but was not provided"@,
        OptionError::ParseFailed { option, message } => "option --"@ + option@ + ": "@ + message@,
    }
}

impl OptionError {
    /// The message that describes this error to a user.
    pub fn to_string(&self) -> (r: String)
        ensures
            r@ == option_error_text(*self),
    {
        match self {
            OptionError::Missing { option } => {
                let mut s = owned("option --");
                crate::text::append_str(&mut s, option.as_str());
                crate::text::append_str(&mut s, " is required but was not provided");
                s
            },
            OptionError::ParseFailed { option, message } => {
                let mut s = owned("option --");
                crate::text::append_str(&mut s, option.as_str());
                crate::text::append_str(&mut s, ": ");
                crate::text::append_str(&mut s, message.as_str());
                s
            },
        }
    }
}

/// Whether `r` is what option `name` gives when its value `v` was read by
/// `parse`: the parsed value, or a `ParseFailed` error with the message.
pub open spec fn parsed_by<T, P: Fn(&str) -> Result<T, String>>(
    parse: P,
    v: &str,
    name: Seq<char>,
    r: Result<T, OptionError>,
) -> bool {
    match r {
        Ok(x) => parse.ensures((v,), Ok::<T, String>(x)),
        Err(OptionError::ParseFailed { option, message }) => option@ == name && parse.ensures(
            (v,),
            Err::<T, String>(message),
        ),
        Err(OptionError::Missing { .. }) => false,
    }
}

/// Whether `parse` may give `x` for a value spelled `val`.
pub open spec fn reads_as<T, P: Fn(&str) -> Result<T, String>>(parse: P, val: Seq<char>, x: T) -> bool {
    exists|v: &str| v@ == val && #[trigger] parse.ensures((v,), Ok::<T, String>(x))
}

/// Whether `parse` may give `x`, success or error, for a value spelled `val`.
pub open spec fn gives<T, E, P: Fn(&str) -> Result<T, E>>(parse: P, val: Seq<char>, x: Result<T, E>) -> bool {
    exists|v: &str| v@ == val && #[trigger] parse.ensures((v,), x)
}

/// Whether `parse` may accept a value spelled `val`.
pub open spec fn readable<T, P: Fn(&str) -> Result<T, String>>(parse: P, val: Seq<char>) -> bool {
    exists|x: T| reads_as(parse, val, x)
}

/// Whether `parse` may reject a value spelled `val` with message `m`.
pub open spec fn rejected_with<T, P: Fn(&str) -> Result<T, String>>(parse: P, val: Seq<char>, m: String) -> bool {
    exists|v: &str| v@ == val && #[trigger] parse.ensures((v,), Err::<T, String>(m))
}

/// The outcome of reading the value `v` of option `name` with `parse`.
fn read_with<T, P: Fn(&str) -> Result<T, String>>(name: &str, v: &str, parse: &P) -> (r: Result<
    T,
    OptionError,
>)
    requires
        parse.requires((v,)),
    ensures
        parsed_by(*parse, v, name@, r),
{
    match parse(v) {
        Ok(x) => Ok(x),
        Err(m) => Err(OptionError::ParseFailed { option: owned(name), message: m }),
    }
}

impl ParseResult {
    /// Reads the value of option `name` with `parse`, or calls `fallback`
    /// when the option is absent.
    ///
    /// Returns `Err(OptionError::ParseFailed)` with the message of `parse`
    /// when the option is present but `parse` rejects its value; `fallback`
    /// is only called when the option was not provided at all.
    pub fn parse_option_or<T, P: Fn(&str) -> Result<T, String>, F: FnOnce() -> T>(
        &self,
        name: &str,
        parse: P,
        fallback: F,
    ) -> (r: Result<T, OptionError>)
        requires
            self.model().option_name_known(name@),
            forall|v: &str| parse.requires((v,)),
            self.model().option(name@) is None ==> fallback.requires(()),
        ensures
            match self.model().option(name@) {
                None => r matches Ok(x) && fallback.ensures((), x),
                Some(val) => exists|v: &str| v@ == val && parsed_by(parse, v, name@, r),
            },
    {
        match self.get_option(name) {
            Some(v) => read_with(name, v, &parse),
            None => Ok(fallback()),
        }
    }

    /// Reads the value of option `name` with `parse`: `None` when the
    /// option is absent, otherwise what `parse` gives for its value, success
    /// or error alike.
    pub fn parse_option<T, E, P: Fn(&str) -> Result<T, E>>(&self, name: &str, parse: P) -> (r: Option<
        Result<T, E>,
    >)
        requires
            self.model().option_name_known(name@),
            forall|v: &str| parse.requires((v,)),
        ensures
            match self.model().option(name@) {
                None => r is None,
                Some(val) => r matches Some(x) && gives(parse, val, x),
            },
    {
        match self.get_option(name) {
            Some(v) => Some(parse(v)),
            None => None,
        }
    }

    /// Reads every value of option `name` with `parse`, in order, giving
    /// what `parse` gives for each, success or error alike (no values for an
    /// absent option).
    pub fn parse_option_values<T, E, P: Fn(&str) -> Result<T, E>>(&self, name: &str, parse: P) -> (r: Vec<
        Result<T, E>,
    >)
        requires
            self.model().option_name_known(name@),
            forall|v: &str| parse.requires((v,)),
        ensures
            r.len() == values_of(self.model().options, name@).len(),
            forall|i: int|
                0 <= i < r.len() ==> gives(parse, values_of(self.model().options, name@)[i], #[trigger] r@[i]),
    {
        let raw = self.get_option_values(name);
        let ghost vals = values_of(self.model().options, name@);
        let mut out: Vec<Result<T, E>> = Vec::new();
        let mut i: usize = 0;
        while i < raw.len()
            invariant
                i <= raw.len(),
                strs_view(raw@) == vals,
                forall|v: &str| parse.requires((v,)),
                out.len() == i,
                forall|k: int| 0 <= k < i ==> gives(parse, vals[k], #[trigger] out@[k]),
            decreases raw.len() - i,
        {
            let v = raw[i].as_str();
            assert(v@ == vals[i as int]);
            let x = parse(v);
            let ghost before = out@;
            out.push(x);
            assert forall|k: int| 0 <= k < i + 1 implies gives(parse, vals[k], #[trigger] out@[k]) by {
                if k < i {
                    assert(out@[k] == before[k]);
                } else {
                    assert(parse.ensures((v,), out@[k]));
                }
            }
            i += 1;
        }
        out
    }

    /// Reads the value of option `name` with `parse`; an absent option is
    /// the error `OptionError::Missing`.
    pub fn parse_option_required<T, P: Fn(&str) -> Result<T, String>>(&self, name: &str, parse: P) -> (r:
        Result<T, OptionError>)
        requires
            self.model().option_name_known(name@),
            forall|v: &str| parse.requires((v,)),
        ensures
            match self.model().option(name@) {
                None => r matches Err(OptionError::Missing { option }) && option@ == name@,
                Some(val) => exists|v: &str| v@ == val && parsed_by(parse, v, name@, r),
            },
    {
        match self.get_option(name) {
            Some(v) => read_with(name, v, &parse),
            None => Err(OptionError::Missing { option: owned(name) }),
        }
    }

    /// Reads every value of option `name` with `parse`, in order, or gives
    /// `default` when the option has no values.
    ///
    /// The first value that `parse` rejects makes the whole read the error
    /// `OptionError::ParseFailed` with its message.
    pub fn parse_option_values_or<T, P: Fn(&str) -> Result<T, String>>(
        &self,
        name: &str,
        parse: P,
        default: Vec<T>,
    ) -> (r: Result<Vec<T>, OptionError>)
        requires
            self.model().option_name_known(name@),
            forall|v: &str| parse.requires((v,)),
        ensures
            values_of(self.model().options, name@).len() == 0 ==> r == Ok::<Vec<T>, OptionError>(
                default,
            ),
            values_of(self.model().options, name@).len() > 0 ==> match r {
                Ok(xs) => xs.len() == values_of(self.model().options, name@).len() && forall|i: int|
                    0 <= i < xs.len() ==> reads_as(
                        parse,
                        values_of(self.model().options, name@)[i],
                        #[trigger] xs@[i],
                    ),
                Err(OptionError::ParseFailed { option, message }) => option@ == name@ && exists|
                    i: int,
                |
                    0 <= i < values_of(self.model().options, name@).len() && (forall|j: int|
                        0 <= j < i ==> readable::<T, P>(
                            parse,
                            #[trigger] values_of(self.model().options, name@)[j],
                        )) && rejected_with(
                        parse,
                        #[trigger] values_of(self.model().options, name@)[i],
                        message,
                    ),
                Err(OptionError::Missing { .. }) => false,
            },
    {
        let raw = self.get_option_values(name);
        let ghost vals = values_of(self.model().options, name@);
        if raw.len() == 0 {
            return Ok(default);
        }
        let mut out: Vec<T> = Vec::new();
        let mut i: usize = 0;
        while i < raw.len()
            invariant
                i <= raw.len(),
                raw.len() > 0,
                strs_view(raw@) == vals,
                vals == values_of(self.model().options, name@),
                forall|v: &str| parse.requires((v,)),
                out.len() == i,
                forall|k: int| 0 <= k < i ==> reads_as(parse, vals[k], #[trigger] out@[k]),
            decreases raw.len() - i,
        {
            let v = raw[i].as_str();
            assert(v@ == vals[i as int]);
            match parse(v) {
                Ok(x) => {
                    let ghost before = out@;
                    out.push(x);
                    assert forall|k: int| 0 <= k < i + 1 implies reads_as(
                        parse,
                        vals[k],
                        #[trigger] out@[k],
                    ) by {
                        if k < i {
                            assert(out@[k] == before[k]);
                        } else {
                            assert(parse.ensures((v,), Ok::<T, String>(out@[k])));
                        }
                    }
                },
                Err(m) => {
                    assert(parse.ensures((v,), Err::<T, String>(m)));
                    assert(rejected_with(parse, vals[i as int], m));
                    assert forall|j: int| 0 <= j < i implies readable::<T, P>(parse, #[trigger] vals[j]) by {
                        assert(reads_as(parse, vals[j], out@[j]));
                    }
                    return Err(OptionError::ParseFailed { option: owned(name), message: m });
                },
            }
            i += 1;
        }
        Ok(out)
    }
}

/// The names of keyed entries, in order.
pub open spec fn keys_of<V>(l: Seq<(Seq<char>, V)>) -> Seq<Seq<char>> {
    l.map_values(|p: (Seq<char>, V)| p.0)
}

/// The result that a builder holds before `build`: no schema names yet.
pub open spec fn empty_model() -> ResultModel {
    ResultModel {
        flags: seq![],
        options: seq![],
        positionals: seq![],
        subcommand: None,
        sub_result: None,
        known_flags: seq![],
        known_options: seq![],
    }
}

/// Builder for constructing a [`ParseResult`] by hand.
///
/// Useful for testing code that consumes parse results without running a real
/// parser.
#[derive(Debug)]
pub struct ParseResultBuilder {
    flags: Vec<(String, bool)>,
    option_values: Vec<(String, Vec<String>)>,
    positionals: Vec<String>,
    subcommand: Option<String>,
    subcommand_result: Option<Box<ParseResult>>,
}

impl ParseResultBuilder {
    /// What the builder holds, as the result it would build (without the
    /// schema names that `build` adds).
    pub closed spec fn model(&self) -> ResultModel {
        ResultModel {
            flags: flag_pairs(self.flags@),
            options: option_pairs(self.option_values@),
            positionals: strs_view(self.positionals@),
            subcommand: crate::text::opt_view(self.subcommand),
            sub_result: match &self.subcommand_result {
                Some(b) => Some(Box::new((**b).model())),
                None => None,
            },
            known_flags: seq![],
            known_options: seq![],
        }
    }

    /// An empty builder.
    pub fn new() -> (r: Self)
        ensures
            r.model() == empty_model(),
    {
        let r = ParseResultBuilder {
            flags: Vec::new(),
            option_values: Vec::new(),
            positionals: Vec::new(),
            subcommand: None,
            subcommand_result: None,
        };
        assert(flag_pairs(r.flags@) =~= seq![]);
        assert(option_pairs(r.option_values@) =~= seq![]);
        assert(strs_view(r.positionals@) =~= seq![]);
        r
    }

    /// Set a flag value.
    pub fn flag(self, name: &str, value: bool) -> (r: Self)
        ensures
            r.model() == (ResultModel { flags: assign(self.model().flags, name@, value), ..self.model() }),
    {
        let mut b = self;
        assign_flag(&mut b.flags, name, value);
        b
    }

    /// Set an option value (overwrites any previous value).
    pub fn option(self, name: &str, value: &str) -> (r: Self)
        ensures
            r.model() == (ResultModel {
                options: assign(self.model().options, name@, seq![value@]),
                ..self.model()
            }),
    {
        let mut b = self;
        let mut vs: Vec<String> = Vec::new();
        vs.push(owned(value));
        assert(strs_view(vs@) =~= seq![value@]);
        assign_values(&mut b.option_values, name, vs);
        b
    }

    /// Append a value to a multi-value option.
    pub fn multi_option(self, name: &str, value: &str) -> (r: Self)
        ensures
            r.model() == (ResultModel {
                options: assign(
                    self.model().options,
                    name@,
                    values_of(self.model().options, name@).push(value@),
                ),
                ..self.model()
            }),
    {
        let mut b = self;
        append_value(&mut b.option_values, name, owned(value));
        b
    }

    /// Add a positional argument.
    pub fn positional(self, value: &str) -> (r: Self)
        ensures
            r.model() == (ResultModel {
                positionals: self.model().positionals.push(value@),
                ..self.model()
            }),
    {
        let mut b = self;
        let ghost before = b.positionals@;
        b.positionals.push(owned(value));
        assert(strs_view(b.positionals@) =~= strs_view(before).push(value@));
        b
    }

    /// Set the subcommand name and its parse result.
    pub fn subcommand(self, name: &str, result: ParseResult) -> (r: Self)
        ensures
            r.model() == (ResultModel {
                subcommand: Some(name@),
                sub_result: Some(Box::new(result.model())),
                ..self.model()
            }),
    {
        let mut b = self;
        b.subcommand = Some(owned(name));
        b.subcommand_result = Some(Box::new(result));
        b
    }

    /// Build the [`ParseResult`].
    ///
    /// The result knows the builder's flag and option names as its schema,
    /// so the accessors accept exactly those names.
    pub fn build(self) -> (r: ParseResult)
        ensures
            r.model() == (ResultModel {
                known_flags: keys_of(self.model().flags),
                known_options: keys_of(self.model().options),
                ..self.model()
            }),
    {
        let mut known_flags: Vec<String> = Vec::new();
        let mut i: usize = 0;
        while i < self.flags.len()
            invariant
                i <= self.flags.len(),
                strs_view(known_flags@) == keys_of(flag_pairs(self.flags@)).take(i as int),
            decreases self.flags.len() - i,
        {
            let ghost before = known_flags@;
            let name = crate::text::copy_string(&self.flags[i].0);
            known_flags.push(name);
            assert(strs_view(known_flags@) =~= strs_view(before).push(self.flags@[i as int].0@));
            assert(keys_of(flag_pairs(self.flags@)).take(i + 1) =~= keys_of(flag_pairs(self.flags@)).take(
                i as int,
            ).push(self.flags@[i as int].0@));
            assert(strs_view(known_flags@) =~= keys_of(flag_pairs(self.flags@)).take(i + 1));
            i += 1;
        }
        assert(keys_of(flag_pairs(self.flags@)).take(self.flags.len() as int) =~= keys_of(
            flag_pairs(self.flags@),
        ));
        let mut known_options: Vec<String> = Vec::new();
        let mut k: usize = 0;
        while k < self.option_values.len()
            invariant
                k <= self.option_values.len(),
                strs_view(known_options@) == keys_of(option_pairs(self.option_values@)).take(
                    k as int,
                ),
            decreases self.option_values.len() - k,
        {
            let ghost before = known_options@;
            let name = crate::text::copy_string(&self.option_values[k].0);
            known_options.push(name);
            assert(strs_view(known_options@) =~= strs_view(before).push(
                self.option_values@[k as int].0@,
            ));
            assert(keys_of(option_pairs(self.option_values@)).take(k + 1) =~= keys_of(
                option_pairs(self.option_values@),
            ).take(k as int).push(self.option_values@[k as int].0@));
            assert(strs_view(known_options@) =~= keys_of(option_pairs(self.option_values@)).take(
                k + 1,
            ));
            k += 1;
        }
        assert(keys_of(option_pairs(self.option_values@)).take(
            self.option_values.len() as int,
        ) =~= keys_of(option_pairs(self.option_values@)));
        let ParseResultBuilder { flags, option_values, positionals, subcommand, subcommand_result } =
            self;
        let mut result = ParseResult::new(flags, option_values, positionals, subcommand, subcommand_result);
        result.set_known_names(known_flags, known_options);
        result
    }
}

impl Default for ParseResultBuilder {
    fn default() -> (r: Self)
        ensures
            r.model() == empty_model(),
    {
        ParseResultBuilder::new()
    }
}

/// Reading a key right after assigning it gives the assigned value.
pub proof fn lemma_lookup_assign_same<V>(l: Seq<(Seq<char>, V)>, k: Seq<char>, v: V)
    ensures
        lookup(assign(l, k, v), k) == Some(v),
{
    lemma_first_index_from(l, key_is::<V>(k), 0);
    let i = first_index(l, key_is::<V>(k));
    let l2 = assign(l, k, v);
    lemma_first_index_from(l2, key_is::<V>(k), 0);
    if i >= 0 {
        assert(key_is::<V>(k)(l2[i]));
        assert(forall|j: int| 0 <= j < i ==> l2[j] == l[j]);
    } else {
        assert(key_is::<V>(k)(l2[l.len() as int]));
        assert(forall|j: int| 0 <= j < l.len() ==> l2[j] == l[j]);
    }
}

/// Assigning one key leaves every other key as it was.
pub proof fn lemma_lookup_assign_other<V>(l: Seq<(Seq<char>, V)>, k: Seq<char>, v: V, k2: Seq<char>)
    requires
        k != k2,
    ensures
        lookup(assign(l, k, v), k2) == lookup(l, k2),
{
    lemma_first_index_from(l, key_is::<V>(k), 0);
    lemma_first_index_from(l, key_is::<V>(k2), 0);
    let l2 = assign(l, k, v);
    lemma_first_index_from(l2, key_is::<V>(k2), 0);
    let i = first_index(l, key_is::<V>(k));
    let j2 = first_index(l, key_is::<V>(k2));
    let j3 = first_index(l2, key_is::<V>(k2));
    if i >= 0 {
        assert(l2.len() == l.len());
        assert(forall|j: int| 0 <= j < l.len() && j != i ==> l2[j] == l[j]);
        assert(!key_is::<V>(k2)(l2[i]));
        if j2 >= 0 {
            assert(j2 != i);
            assert(key_is::<V>(k2)(l2[j2]));
        }
        if j3 >= 0 {
            assert(j3 != i);
            assert(key_is::<V>(k2)(l[j3]));
        }
    } else {
        assert(forall|j: int| 0 <= j < l.len() ==> l2[j] == l[j]);
        assert(!key_is::<V>(k2)(l2[l.len() as int]));
        if j2 >= 0 {
            assert(key_is::<V>(k2)(l2[j2]));
        }
        if j3 >= 0 {
            assert(j3 < l.len());
            assert(key_is::<V>(k2)(l[j3]));
        }
    }
}

/// An assigned key is among the keys.
pub proof fn lemma_keys_of_assign<V>(l: Seq<(Seq<char>, V)>, k: Seq<char>, v: V)
    ensures
        keys_of(assign(l, k, v)).contains(k),
{
    lemma_first_index_from(l, key_is::<V>(k), 0);
    let i = first_index(l, key_is::<V>(k));
    let l2 = assign(l, k, v);
    if i >= 0 {
        assert(keys_of(l2)[i] == k);
    } else {
        assert(keys_of(l2)[l.len() as int] == k);
    }
}

/// A copy of a list of strings.
fn copy_strings(v: &Vec<String>) -> (r: Vec<String>)
    ensures
        strs_view(r@) == strs_view(v@),
{
    let mut r: Vec<String> = Vec::new();
    let mut i: usize = 0;
    while i < v.len()
        invariant
            i <= v.len(),
            strs_view(r@) == strs_view(v@).take(i as int),
        decreases v.len() - i,
    {
        let ghost before = r@;
        r.push(crate::text::copy_string(&v[i]));
        assert(strs_view(r@) =~= strs_view(before).push(v@[i as int]@));
        assert(strs_view(v@).take(i + 1) =~= strs_view(v@).take(i as int).push(v@[i as int]@));
        i += 1;
    }
    assert(strs_view(v@).take(v.len() as int) =~= strs_view(v@));
    r
}

/// A copy of flag entries.
fn copy_flag_entries(v: &Vec<(String, bool)>) -> (r: Vec<(String, bool)>)
    ensures
        flag_pairs(r@) == flag_pairs(v@),
{
    let mut r: Vec<(String, bool)> = Vec::new();
    let mut i: usize = 0;
    while i < v.len()
        invariant
            i <= v.len(),
            flag_pairs(r@) == flag_pairs(v@).take(i as int),
        decreases v.len() - i,
    {
        let ghost before = r@;
        r.push((crate::text::copy_string(&v[i].0), v[i].1));
        assert(flag_pairs(r@) =~= flag_pairs(before).push((v@[i as int].0@, v@[i as int].1)));
        assert(flag_pairs(v@).take(i + 1) =~= flag_pairs(v@).take(i as int).push(
            (v@[i as int].0@, v@[i as int].1),
        ));
        i += 1;
    }
    assert(flag_pairs(v@).take(v.len() as int) =~= flag_pairs(v@));
    r
}

/// A copy of option entries.
fn copy_option_entries(v: &Vec<(String, Vec<String>)>) -> (r: Vec<(String, Vec<String>)>)
    ensures
        option_pairs(r@) == option_pairs(v@),
{
    let mut r: Vec<(String, Vec<String>)> = Vec::new();
    let mut i: usize = 0;
    while i < v.len()
        invariant
            i <= v.len(),
            option_pairs(r@) == option_pairs(v@).take(i as int),
        decreases v.len() - i,
    {
        let ghost before = r@;
        r.push((crate::text::copy_string(&v[i].0), copy_strings(&v[i].1)));
        assert(option_pairs(r@) =~= option_pairs(before).push(
            (v@[i as int].0@, strs_view(v@[i as int].1@)),
        ));
        assert(option_pairs(v@).take(i + 1) =~= option_pairs(v@).take(i as int).push(
            (v@[i as int].0@, strs_view(v@[i as int].1@)),
        ));
        i += 1;
    }
    assert(option_pairs(v@).take(v.len() as int) =~= option_pairs(v@));
    r
}

impl ParseResult {
    /// A copy of this result, down through its subcommand results.
    fn copy(&self) -> (r: ParseResult)
        ensures
            r.model() == self.model(),
        decreases self,
    {
        let sub = match &self.subcommand_result {
            Some(b) => {
                assert(decreases_to!(self => self.subcommand_result));
                Some(Box::new((**b).copy()))
            },
            None => None,
        };
        let name = match &self.subcommand {
            Some(n) => Some(crate::text::copy_string(n)),
            None => None,
        };
        ParseResult {
            flags: copy_flag_entries(&self.flags),
            option_values: copy_option_entries(&self.option_values),
            positionals: copy_strings(&self.positionals),
            subcommand: name,
            subcommand_result: sub,
            known_flags: copy_strings(&self.known_flags),
            known_options: copy_strings(&self.known_options),
        }
    }
}

impl Clone for ParseResult {
    fn clone(&self) -> (r: Self)
        ensures
            r.model() == self.model(),
    {
        self.copy()
    }
}

impl Clone for ParseResultBuilder {
    fn clone(&self) -> (r: Self)
        ensures
            r.model() == self.model(),
    {
        let sub = match &self.subcommand_result {
            Some(b) => Some(Box::new((**b).copy())),
            None => None,
        };
        let name = match &self.subcommand {
            Some(n) => Some(crate::text::copy_string(n)),
            None => None,
        };
        ParseResultBuilder {
            flags: copy_flag_entries(&self.flags),
            option_values: copy_option_entries(&self.option_values),
            positionals: copy_strings(&self.positionals),
            subcommand: name,
            subcommand_result: sub,
        }
    }
}

} // verus!
