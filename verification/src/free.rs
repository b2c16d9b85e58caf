//! Schema-free parsing of an argument list.
//!
//! Without a schema the parser has to guess whether `--key` is a flag or an
//! option: when a next token exists and does not start with `-`, it is taken
//! as the value. So `--output file.txt` sets option `output`, while
//! `--output -v` makes `output` a flag and reads `-v` on its own.
use vstd::prelude::*;

use crate::result::{assign, assign_flag, assign_values, ParseResult, ResultModel};
use crate::semantics::{empty_store, set_flag, Store};
use crate::text;
use crate::text::{chars_are, chars_of, find_char_from, string_of_range};
use crate::types::{ErrorV, ParseError};
use crate::validators::strs_view;

verus! {

/// The help text answered to `--help` or `-h` when there is no schema.
pub open spec fn loose_usage() -> Seq<char> {
    "Usage: [FLAGS] [OPTIONS] [ARGS]\n"@
}

/// Whether a token starts with `-`, so that it is never taken as a value.
pub open spec fn dash_led(t: Seq<char>) -> bool {
    t.len() > 0 && t[0] == '-'
}

/// Where the key of a dashed token starts: after `--`, after a single `-`
/// (when something follows it), or `0` for a token that is a positional.
pub open spec fn key_start(t: Seq<char>) -> int {
    if t.len() >= 2 && t[0] == '-' && t[1] == '-' {
        2
    } else if t.len() > 1 && t[0] == '-' {
        1
    } else {
        0
    }
}

/// `st` with option `key` holding the single value `value`.
pub open spec fn set_single(st: Store, key: Seq<char>, value: Seq<char>) -> Store {
    Store { options: assign(st.options, key, seq![value]), ..st }
}

/// Reads `args` from position `i` on, with `st` and `pos` gathered so far.
/// `None` means that a help request was met.
pub open spec fn loose_scan(args: Seq<Seq<char>>, i: int, st: Store, pos: Seq<Seq<char>>) -> Option<
    (Store, Seq<Seq<char>>),
>
    decreases args.len() - i,
{
    if i < 0 || i >= args.len() {
        Some((st, pos))
    } else {
        let t = args[i];
        if t == "--"@ {
            Some((st, pos + args.skip(i + 1)))
        } else if t == "--help"@ || t == "-h"@ {
            None
        } else if key_start(t) == 0 {
            loose_scan(args, i + 1, st, pos.push(t))
        } else {
            let after = t.skip(key_start(t));
            let eq = text::find_char(after, '=');
            if eq >= 0 {
                loose_scan(args, i + 1, set_single(st, after.take(eq), after.skip(eq + 1)), pos)
            } else if i + 1 < args.len() && !dash_led(args[i + 1]) {
                loose_scan(args, i + 2, set_single(st, after, args[i + 1]), pos)
            } else {
                loose_scan(args, i + 1, set_flag(st, after), pos)
            }
        }
    }
}

/// What schema-free parsing of `args` gives.
pub open spec fn loose_result(args: Seq<Seq<char>>) -> Result<ResultModel, ErrorV> {
    match loose_scan(args, 0, empty_store(), seq![]) {
        None => Err(ErrorV::HelpRequested(loose_usage())),
        Some((st, pos)) => Ok(
            ResultModel {
                flags: st.flags,
                options: st.options,
                positionals: pos,
                subcommand: None,
                sub_result: None,
                known_flags: seq![],
                known_options: seq![],
            },
        ),
    }
}

/// Schema-free parse of an argument list.
///
/// `--key value` and `-k value` set an option when the next token does not
/// start with `-`; `--key=value` and `-k=value` always do; otherwise the
/// dashed token sets a flag. `--` makes every later token a positional, and
/// `--help` or `-h` before it asks for the generic usage line.
pub fn parse_loose_from(args: Vec<String>) -> (r: Result<ParseResult, ParseError>)
    ensures
        match loose_result(strs_view(args@)) {
            Ok(m) => r matches Ok(res) && res.model() == m,
            Err(e) => r matches Err(err) && err@ == e,
        },
{
    let ghost a = strs_view(args@);
    let mut flags: Vec<(String, bool)> = Vec::new();
    let mut options: Vec<(String, Vec<String>)> = Vec::new();
    let mut positionals: Vec<String> = Vec::new();
    let ghost st0 = empty_store();
    proof {
        assert(crate::result::flag_pairs(flags@) =~= st0.flags);
        assert(crate::result::option_pairs(options@) =~= st0.options);
        assert(strs_view(positionals@) =~= Seq::<Seq<char>>::empty());
    }
    let n = args.len();
    let mut i: usize = 0;
    while i < n
        invariant
            n == args.len(),
            a == strs_view(args@),
            i <= n,
            loose_scan(a, i as int, Store {
                flags: crate::result::flag_pairs(flags@),
                options: crate::result::option_pairs(options@),
            }, strs_view(positionals@)) == loose_scan(a, 0, empty_store(), seq![]),
        decreases n - i,
    {
        let ghost st = Store {
            flags: crate::result::flag_pairs(flags@),
            options: crate::result::option_pairs(options@),
        };
        let ghost pos = strs_view(positionals@);
        let tv = chars_of(args[i].as_str());
        assert(tv@ == a[i as int]);
        if chars_are(&tv, "--") {
            let mut j: usize = i + 1;
            while j < n
                invariant
                    n == args.len(),
                    a == strs_view(args@),
                    i < j <= n,
                    strs_view(positionals@) == pos + a.subrange(i + 1, j as int),
                decreases n - j,
            {
                let c = text::copy_string(&args[j]);
                assert(c@ == a[j as int]);
                let ghost before = positionals@;
                positionals.push(c);
                assert(strs_view(positionals@) =~= strs_view(before).push(a[j as int]));
                assert(a.subrange(i + 1, j + 1) =~= a.subrange(i + 1, j as int).push(a[j as int]));
                j += 1;
                assert(strs_view(positionals@) =~= pos + a.subrange(i + 1, j as int));
            }
            assert(a.subrange(i + 1, n as int) =~= a.skip(i + 1));
            return Ok(ParseResult::new(flags, options, positionals, None, None));
        }
        if chars_are(&tv, "--help") || chars_are(&tv, "-h") {
            return Err(ParseError::HelpRequested(text::owned("Usage: [FLAGS] [OPTIONS] [ARGS]\n")));
        }
        let start: usize = if tv.len() >= 2 && tv[0] == '-' && tv[1] == '-' {
            2
        } else if tv.len() > 1 && tv[0] == '-' {
            1
        } else {
            0
        };
        if start == 0 {
            positionals.push(args[i].clone());
            assert(strs_view(positionals@) =~= pos.push(tv@));
            i += 1;
        } else {
            let ghost after = tv@.skip(start as int);
            let eq = find_char_from(&tv, '=', start);
            proof {
                text::lemma_find_shift(tv@, '=', start as int);
            }
            if eq < tv.len() {
                let key = string_of_range(&tv, start, eq);
                let value = string_of_range(&tv, eq + 1, tv.len());
                assert(key@ =~= after.take(eq - start));
                assert(value@ =~= after.skip(eq - start + 1));
                let mut vs: Vec<String> = Vec::new();
                let ghost v = value@;
                vs.push(value);
                assert(strs_view(vs@) =~= seq![v]);
                assign_values(&mut options, key.as_str(), vs);
                i += 1;
            } else {
                let key = string_of_range(&tv, start, tv.len());
                assert(key@ =~= after);
                let mut takes_value = false;
                if i + 1 < n {
                    let next = chars_of(args[i + 1].as_str());
                    assert(next@ == a[i + 1]);
                    takes_value = !(next.len() > 0 && next[0] == '-');
                }
                if takes_value {
                    let mut vs: Vec<String> = Vec::new();
                    let ghost v = args@[i + 1]@;
                    vs.push(args[i + 1].clone());
                    assert(strs_view(vs@) =~= seq![v]);
                    assign_values(&mut options, key.as_str(), vs);
                    i += 2;
                } else {
                    assign_flag(&mut flags, key.as_str(), true);
                    i += 1;
                }
            }
        }
    }
    Ok(ParseResult::new(flags, options, positionals, None, None))
}

} // verus!
