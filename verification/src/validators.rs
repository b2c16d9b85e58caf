//! Value validators: checks that an option or positional value must pass.
use vstd::prelude::*;

use crate::text;
use crate::text::{append_str, chars_of, owned, push_decimal, push_signed, same};

verus! {

/// The check a [`Validator`] performs.
#[derive(Clone, Debug, PartialEq, Eq)]
pub enum Rule {
    /// The value is a decimal `i64` within `[min, max]`.
    Range(i64, i64),
    /// The value is one of the listed strings.
    OneOf(Vec<String>),
    /// The value is not empty.
    NonEmpty,
    /// The value has at least this many characters.
    MinLength(usize),
    /// The value has at most this many characters.
    MaxLength(usize),
    /// The value names a path that exists on disk.
    PathExists,
}

/// A value validator: a check on a raw string value, plus an optional hint
/// string for help text. Two validators are equal when their hints are.
#[derive(Clone, Debug, Eq)]
pub struct Validator {
    rule: Rule,
    hint: Option<String>,
}

/// Whether `s` is a non-empty run of ASCII digits.
pub open spec fn all_digits(s: Seq<char>) -> bool {
    s.len() > 0 && forall|k: int| 0 <= k < s.len() ==> '0' <= #[trigger] s[k] <= '9'
}

/// The number that a run of ASCII digits spells.
pub open spec fn digits_value(s: Seq<char>) -> nat
    decreases s.len(),
{
    if s.len() == 0 {
        0
    } else {
        digits_value(s.drop_last()) * 10 + ((s.last() as u32) - ('0' as u32)) as nat
    }
}

/// What `str::parse::<i64>` gives for `s`: an optional `+` or `-` sign, then
/// one or more decimal digits, within the range of `i64`.
pub open spec fn parse_i64(s: Seq<char>) -> Option<int> {
    let neg = s.len() > 0 && s[0] == '-';
    let body = if s.len() > 0 && (s[0] == '-' || s[0] == '+') {
        s.drop_first()
    } else {
        s
    };
    let v: int = if neg {
        -(digits_value(body) as int)
    } else {
        digits_value(body) as int
    };
    if all_digits(body) && i64::MIN <= v <= i64::MAX {
        Some(v)
    } else {
        None
    }
}

/// Whether `v` is one of `list`.
pub open spec fn listed(list: Seq<String>, v: Seq<char>) -> bool {
    exists|k: int| 0 <= k < list.len() && (#[trigger] list[k])@ == v
}

/// The views of a list of strings.
pub open spec fn strs_view(list: Seq<String>) -> Seq<Seq<char>> {
    list.map_values(|s: String| s@)
}

/// The outcome of checking `value` against `rule`: `None` when the value
/// passes, or the message that rejects it. `on_disk` says whether the value
/// names an existing path; only [`Rule::PathExists`] reads it.
pub open spec fn rule_outcome(rule: Rule, value: Seq<char>, on_disk: bool) -> Option<Seq<char>> {
    match rule {
        Rule::Range(min, max) => match parse_i64(value) {
            Some(n) => if min <= n <= max {
                None
            } else {
                Some(
                    "value must be between "@ + text::signed_decimal(min as int) + " and "@
                        + text::signed_decimal(max as int),
                )
            },
            None => Some("'"@ + value + "' is not a valid number"@),
        },
        Rule::OneOf(list) => if listed(list@, value) {
            None
        } else {
            Some("must be one of: "@ + text::join(strs_view(list@), ", "@))
        },
        Rule::NonEmpty => if value.len() == 0 {
            Some("value must not be empty"@)
        } else {
            None
        },
        Rule::MinLength(n) => if value.len() >= n {
            None
        } else {
            Some("value must be at least "@ + text::decimal(n as nat) + " characters"@)
        },
        Rule::MaxLength(n) => if value.len() <= n {
            None
        } else {
            Some("value must be at most "@ + text::decimal(n as nat) + " characters"@)
        },
        Rule::PathExists => if on_disk {
            None
        } else {
            Some("path '"@ + value + "' does not exist"@)
        },
    }
}

/// Whether the outcome of a rule depends on nothing but the value.
pub open spec fn rule_is_pure(rule: Rule) -> bool {
    !(rule is PathExists)
}

/// `std::path::Path::exists`: whether a path names something on disk.
/// Nothing is stated of the answer: it depends on the file system at the
/// moment of the call.
#[verifier::external_body]
fn path_is_on_disk(p: &str) -> bool {
    std::path::Path::new(p).exists()
}

/// The decimal `i64` that `v` spells, as `str::parse::<i64>` reads it.
pub fn parse_decimal_i64(v: &str) -> (r: Option<i64>)
    ensures
        match parse_i64(v@) {
            Some(n) => r == Some(n as i64),
            None => r is None,
        },
{
    let cs = chars_of(v);
    let n = cs.len();
    if n == 0 {
        return None;
    }
    let neg = cs[0] == '-';
    let start: usize = if cs[0] == '-' || cs[0] == '+' { 1 } else { 0 };
    let ghost body = if cs@[0] == '-' || cs@[0] == '+' { cs@.drop_first() } else { cs@ };
    assert(body =~= cs@.subrange(start as int, n as int));
    if start == n {
        assert(body.len() == 0);
        return None;
    }
    // Largest magnitude that still fits: 2^63 for negatives, 2^63 - 1 otherwise.
    let limit: u64 = if neg { 9223372036854775808u64 } else { 9223372036854775807u64 };
    let mut acc: u64 = 0;
    let mut too_big = false;
    let mut i = start;
    while i < n
        invariant
            start <= i <= n,
            n == cs.len(),
            start < n,
            cs@ == v@,
            body == (if cs@[0] == '-' || cs@[0] == '+' { cs@.drop_first() } else { cs@ }),
            neg == (cs@[0] == '-'),
            limit == (if neg { 9223372036854775808u64 } else { 9223372036854775807u64 }),
            body == cs@.subrange(start as int, n as int),
            forall|k: int| start <= k < i ==> '0' <= #[trigger] cs@[k] <= '9',
            !too_big ==> acc == digits_value(cs@.subrange(start as int, i as int)),
            !too_big ==> acc <= limit,
            too_big ==> digits_value(cs@.subrange(start as int, i as int)) > limit,
            limit == 9223372036854775808u64 || limit == 9223372036854775807u64,
        decreases n - i,
    {
        let c = cs[i];
        if c < '0' || c > '9' {
            assert(!all_digits(body)) by {
                assert(body[i - start] == c);
            }
            return None;
        }
        let d = (c as u32 - '0' as u32) as u64;
        let ghost prev = cs@.subrange(start as int, i as int);
        let ghost next = cs@.subrange(start as int, i + 1);
        assert(next.drop_last() =~= prev);
        if !too_big {
            if acc > (limit - d) / 10 {
                too_big = true;
                assert(digits_value(next) == digits_value(prev) * 10 + d);
                assert(digits_value(next) > limit) by (nonlinear_arith)
                    requires
                        digits_value(next) == digits_value(prev) * 10 + d,
                        digits_value(prev) == acc,
                        acc > (limit - d) / 10,
                        d <= 9,
                        limit >= 9,
                {
                }
            } else {
                assert(acc * 10 + d <= limit) by (nonlinear_arith)
                    requires
                        acc <= (limit - d) / 10,
                        d <= 9,
                        limit >= 9,
                {
                }
                acc = acc * 10 + d;
            }
        } else {
            assert(digits_value(next) >= digits_value(prev)) by (nonlinear_arith)
                requires
                    digits_value(next) == digits_value(prev) * 10 + d,
            {
            }
        }
        i += 1;
    }
    assert(cs@.subrange(start as int, n as int) == body);
    assert(all_digits(body));
    if too_big {
        return None;
    }
    if neg {
        if acc == 9223372036854775808u64 {
            Some(i64::MIN)
        } else {
            Some(-(acc as i64))
        }
    } else {
        Some(acc as i64)
    }
}

impl Validator {
    /// The check this validator performs.
    pub closed spec fn rule(&self) -> Rule {
        self.rule
    }

    /// The hint shown in help text, if any.
    pub closed spec fn hint_view(&self) -> Option<Seq<char>> {
        text::opt_view(self.hint)
    }

    /// The outcome of checking `value`, given whether it names a path on disk.
    pub open spec fn outcome(&self, value: Seq<char>, on_disk: bool) -> Option<Seq<char>> {
        rule_outcome(self.rule(), value, on_disk)
    }

    /// Whether the outcome depends on nothing but the value.
    pub open spec fn is_pure(&self) -> bool {
        rule_is_pure(self.rule())
    }

    /// Run the validator on a value.
    pub fn validate(&self, value: &str) -> (r: Result<(), String>)
        ensures
            exists|on_disk: bool|
                match #[trigger] self.outcome(value@, on_disk) {
                    None => r is Ok,
                    Some(m) => r matches Err(e) && e@ == m,
                },
            self.is_pure() ==> match self.outcome(value@, false) {
                None => r is Ok,
                Some(m) => r matches Err(e) && e@ == m,
            },
    {
        match &self.rule {
            Rule::Range(min, max) => {
                let parsed = parse_decimal_i64(value);
                let r = match parsed {
                    Some(n) => if *min <= n && n <= *max {
                        Ok(())
                    } else {
                        let mut s = owned("value must be between ");
                        push_signed(&mut s, *min);
                        append_str(&mut s, " and ");
                        push_signed(&mut s, *max);
                        Err(s)
                    },
                    None => {
                        let mut s = owned("'");
                        append_str(&mut s, value);
                        append_str(&mut s, "' is not a valid number");
                        Err(s)
                    },
                };
                assert(self.outcome(value@, false) == self.outcome(value@, true));
                r
            },
            Rule::OneOf(list) => {
                let mut i: usize = 0;
                while i < list.len()
                    invariant
                        i <= list.len(),
                        self.rule == Rule::OneOf(*list),
                        forall|k: int| 0 <= k < i ==> (#[trigger] list@[k])@ != value@,
                    decreases list.len() - i,
                {
                    if same(list[i].as_str(), value) {
                        assert(listed(list@, value@));
                        assert(self.outcome(value@, false) == self.outcome(value@, true));
                        return Ok(());
                    }
                    i += 1;
                }
                let mut s = owned("must be one of: ");
                let joined = join_strings(list, ", ");
                append_str(&mut s, joined.as_str());
                assert(self.outcome(value@, false) == self.outcome(value@, true));
                Err(s)
            },
            Rule::NonEmpty => {
                assert(self.outcome(value@, false) == self.outcome(value@, true));
                if value.is_empty() {
                    Err(owned("value must not be empty"))
                } else {
                    Ok(())
                }
            },
            Rule::MinLength(n) => {
                assert(self.outcome(value@, false) == self.outcome(value@, true));
                if chars_of(value).len() >= *n {
                    Ok(())
                } else {
                    let mut s = owned("value must be at least ");
                    push_decimal(&mut s, *n as u64);
                    append_str(&mut s, " characters");
                    Err(s)
                }
            },
            Rule::MaxLength(n) => {
                assert(self.outcome(value@, false) == self.outcome(value@, true));
                if chars_of(value).len() <= *n {
                    Ok(())
                } else {
                    let mut s = owned("value must be at most ");
                    push_decimal(&mut s, *n as u64);
                    append_str(&mut s, " characters");
                    Err(s)
                }
            },
            Rule::PathExists => {
                let on_disk = path_is_on_disk(value);
                if on_disk {
                    assert(self.outcome(value@, on_disk) is None);
                    Ok(())
                } else {
                    let mut s = owned("path '");
                    append_str(&mut s, value);
                    append_str(&mut s, "' does not exist");
                    assert(self.outcome(value@, on_disk) == Some(s@));
                    Err(s)
                }
            },
        }
    }

    /// Returns the hint string, if any.
    pub fn hint(&self) -> (r: Option<&str>)
        ensures
            match r {
                Some(h) => self.hint_view() == Some(h@),
                None => self.hint_view() is None,
            },
    {
        match &self.hint {
            Some(h) => Some(h.as_str()),
            None => None,
        }
    }
}

/// The items of `list` joined with `sep`.
pub fn join_strings(list: &Vec<String>, sep: &str) -> (r: String)
    ensures
        r@ == text::join(strs_view(list@), sep@),
{
    let mut out = String::new();
    let mut i: usize = 0;
    while i < list.len()
        invariant
            i <= list.len(),
            out@ == text::join(strs_view(list@).take(i as int), sep@),
        decreases list.len() - i,
    {
        let ghost before = strs_view(list@).take(i as int);
        let ghost after = strs_view(list@).take(i + 1);
        assert(after.drop_last() =~= before);
        if i > 0 {
            append_str(&mut out, sep);
        }
        append_str(&mut out, list[i].as_str());
        i += 1;
        assert(out@ =~= text::join(after, sep@));
    }
    assert(strs_view(list@).take(list.len() as int) =~= strs_view(list@));
    out
}

/// The hint text of a range validator: `[min..max]`.
pub open spec fn range_hint(min: i64, max: i64) -> Seq<char> {
    "["@ + text::signed_decimal(min as int) + ".."@ + text::signed_decimal(max as int) + "]"@
}

/// Returns a Validator that checks if the value parses as i64 and falls within [min, max].
pub fn range(min: i64, max: i64) -> (v: Validator)
    ensures
        v.rule() == Rule::Range(min, max),
        v.hint_view() == Some(range_hint(min, max)),
{
    let mut h = owned("[");
    push_signed(&mut h, min);
    append_str(&mut h, "..");
    push_signed(&mut h, max);
    append_str(&mut h, "]");
    Validator { rule: Rule::Range(min, max), hint: Some(h) }
}

/// Returns a Validator that checks if the value is one of the allowed strings.
pub fn one_of(allowed: &[&str]) -> (v: Validator)
    ensures
        v.rule() matches Rule::OneOf(list) && strs_view(list@) == allowed@.map_values(
            |s: &str| s@,
        ),
        v.hint_view() == Some(text::join(allowed@.map_values(|s: &str| s@), "|"@)),
{
    let mut owned_list: Vec<String> = Vec::new();
    let mut i: usize = 0;
    while i < allowed.len()
        invariant
            i <= allowed.len(),
            owned_list.len() == i,
            forall|k: int| 0 <= k < i ==> (#[trigger] owned_list@[k])@ == allowed@[k]@,
        decreases allowed.len() - i,
    {
        owned_list.push(owned(allowed[i]));
        i += 1;
    }
    assert(strs_view(owned_list@) =~= allowed@.map_values(|s: &str| s@));
    let hint = join_strings(&owned_list, "|");
    Validator { rule: Rule::OneOf(owned_list), hint: Some(hint) }
}

/// Returns a Validator that rejects empty strings.
pub fn non_empty() -> (v: Validator)
    ensures
        v.rule() == Rule::NonEmpty,
        v.hint_view() == Some("non-empty"@),
{
    Validator { rule: Rule::NonEmpty, hint: Some(owned("non-empty")) }
}

/// Returns a Validator that rejects strings of fewer than `n` characters.
pub fn min_length(n: usize) -> (v: Validator)
    ensures
        v.rule() == Rule::MinLength(n),
        v.hint_view() == Some("[min_length: "@ + text::decimal(n as nat) + "]"@),
{
    let mut h = owned("[min_length: ");
    push_decimal(&mut h, n as u64);
    append_str(&mut h, "]");
    Validator { rule: Rule::MinLength(n), hint: Some(h) }
}

/// Returns a Validator that rejects strings of more than `n` characters.
pub fn max_length(n: usize) -> (v: Validator)
    ensures
        v.rule() == Rule::MaxLength(n),
        v.hint_view() == Some("[max_length: "@ + text::decimal(n as nat) + "]"@),
{
    let mut h = owned("[max_length: ");
    push_decimal(&mut h, n as u64);
    append_str(&mut h, "]");
    Validator { rule: Rule::MaxLength(n), hint: Some(h) }
}

/// Returns a Validator that rejects values where the path does not exist.
pub fn path_exists() -> (v: Validator)
    ensures
        v.rule() == Rule::PathExists,
        v.hint_view() == Some("existing path"@),
{
    Validator { rule: Rule::PathExists, hint: Some(owned("existing path")) }
}

impl PartialEq for Validator {
    fn eq(&self, other: &Self) -> (r: bool) {
        match (&self.hint, &other.hint) {
            (Some(a), Some(b)) => same(a.as_str(), b.as_str()),
            (None, None) => true,
            _ => false,
        }
    }
}

impl vstd::std_specs::cmp::PartialEqSpecImpl for Validator {
    open spec fn obeys_eq_spec() -> bool {
        true
    }

    open spec fn eq_spec(&self, other: &Self) -> bool {
        self.hint_view() == other.hint_view()
    }
}

/// A range validator accepts a value exactly when the value is a number
/// (an `i64`, as `str::parse` reads it) between its bounds, both included;
/// a number below the lower bound or above the upper one is rejected with
/// `value must be between MIN and MAX`, and a value that is no number with
/// `'VALUE' is not a valid number`. Disk state plays no part.
pub proof fn range_accepts_exactly_its_bounds(v: Validator, min: i64, max: i64, value: Seq<char>, on_disk: bool)
    requires
        v.rule() == Rule::Range(min, max),
    ensures
        v.is_pure(),
        v.outcome(value, on_disk) is None <==> (parse_i64(value) matches Some(n) && min <= n && n <= max),
        (parse_i64(value) matches Some(n) && (n < min || n > max)) ==> v.outcome(value, on_disk) == Some(
            "value must be between "@ + text::signed_decimal(min as int) + " and "@ + text::signed_decimal(
                max as int,
            ),
        ),
        parse_i64(value) is None ==> v.outcome(value, on_disk) == Some("'"@ + value + "' is not a valid number"@),
{
}

proof fn lemma_decimal_digits(n: nat)
    ensures
        all_digits(text::decimal(n)),
        digits_value(text::decimal(n)) == n,
    decreases n,
{
    let d = text::decimal(n);
    if n < 10 {
        assert(d.drop_last() =~= Seq::<char>::empty());
        assert(digits_value(d.drop_last()) == 0);
    } else {
        lemma_decimal_digits(n / 10);
        let q = text::decimal(n / 10);
        assert(d.drop_last() =~= q);
        assert(d.last() == text::digit_char(n % 10));
        assert(n == (n / 10) * 10 + n % 10) by (nonlinear_arith);
        assert forall|k: int| 0 <= k < d.len() implies '0' <= #[trigger] d[k] <= '9' by {
            if k < q.len() {
                assert(d[k] == q[k]);
            }
        }
    }
}

/// Every `i64` written in decimal reads back as itself.
pub proof fn lemma_signed_decimal_reads_back(n: i64)
    ensures
        parse_i64(text::signed_decimal(n as int)) == Some(n as int),
{
    let s = text::signed_decimal(n as int);
    if n < 0 {
        let m = (-(n as int)) as nat;
        lemma_decimal_digits(m);
        assert(s.drop_first() =~= text::decimal(m));
    } else {
        lemma_decimal_digits(n as nat);
        let d = text::decimal(n as nat);
        assert('0' <= d[0] <= '9');
    }
}

/// A range validator accepts the decimal text of a number exactly when the
/// number lies between its bounds, both included.
pub proof fn range_accepts_numbers_within(v: Validator, min: i64, max: i64, n: i64, on_disk: bool)
    requires
        v.rule() == Rule::Range(min, max),
    ensures
        v.outcome(text::signed_decimal(n as int), on_disk) is None <==> min <= n <= max,
{
    lemma_signed_decimal_reads_back(n);
}

/// What the other built-in validators accept: `one_of` exactly the listed
/// values, `non_empty` exactly the non-empty values, `min_length(n)` values
/// of at least `n` characters, `max_length(n)` values of at most `n`
/// characters, and `path_exists` exactly the values that name something on
/// disk. Each rejects every other value.
pub proof fn builtin_rules_accept_exactly(v: Validator, value: Seq<char>, on_disk: bool)
    ensures
        v.rule() matches Rule::OneOf(list) ==> (v.outcome(value, on_disk) is None <==> exists|k: int|
            0 <= k < list@.len() && (#[trigger] list@[k])@ == value),
        v.rule() is NonEmpty ==> (v.outcome(value, on_disk) is None <==> value.len() > 0),
        v.rule() matches Rule::MinLength(n) ==> (v.outcome(value, on_disk) is None <==> value.len() >= n),
        v.rule() matches Rule::MaxLength(n) ==> (v.outcome(value, on_disk) is None <==> value.len() <= n),
        v.rule() is PathExists ==> (v.outcome(value, on_disk) is None <==> on_disk),
{
}

} // verus!
