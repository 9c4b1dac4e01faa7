//! The argument parser: turns a stream of command-line tokens into a
//! validated search configuration, or fails with a descriptive error.
//!
//! A token whose first character is a dash is an option token: each of its
//! characters other than the dashes themselves is an option character. Every
//! other token is positional. The positional token at index 0 is a
//! placeholder (conventionally the program name), the one at index 1 is the
//! query and the one at index 2 is the file path; callers must supply at
//! least those three.

use vstd::prelude::*;
use crate::filtering::lemma_filter_singleton;

verus! {

/// Why a token stream could not be turned into a `Config`.
#[derive(Debug, Clone, Copy, PartialEq, Eq)]
pub enum ParseError {
    /// Fewer than three tokens were supplied.
    InsufficientArguments,
    /// An option character other than `i` was supplied; carries that
    /// character.
    InvalidFlag(char),
}

/// A validated search configuration.
#[derive(Debug, PartialEq, Eq)]
pub struct Config {
    /// The substring to search for.
    pub query: String,
    /// Where the text to search lives; not validated at this layer.
    pub file_path: String,
    /// Whether the search folds case.
    pub ignore_case: bool,
}

/// The views of a sequence of owned tokens.
pub open spec fn token_views(args: Seq<String>) -> Seq<Seq<char>> {
    args.map_values(|a: String| a@)
}

/// The views of a sequence of borrowed tokens.
pub open spec fn ref_views(ks: Seq<&String>) -> Seq<Seq<char>> {
    ks.map_values(|a: &String| a@)
}

/// A token is an option token when its first character is a dash.
pub open spec fn is_flag_token(t: Seq<char>) -> bool {
    t.len() > 0 && t[0] == '-'
}

/// Keeps the characters of an option token that are not dashes.
pub open spec fn non_dash() -> spec_fn(char) -> bool {
    |c: char| c != '-'
}

/// Keeps the positional tokens.
pub open spec fn keyword_pred() -> spec_fn(Seq<char>) -> bool {
    |t: Seq<char>| !is_flag_token(t)
}

/// The option characters contributed by one token: every character except
/// the dashes themselves for an option token, nothing for a positional one.
pub open spec fn flag_chars_of(t: Seq<char>) -> Seq<char> {
    if is_flag_token(t) {
        t.filter(non_dash())
    } else {
        Seq::empty()
    }
}

/// All option characters of the token stream, in token order and, within a
/// token, in character order.
pub open spec fn spec_flags(ts: Seq<Seq<char>>) -> Seq<char>
    decreases ts.len(),
{
    if ts.len() == 0 {
        Seq::empty()
    } else {
        spec_flags(ts.drop_last()) + flag_chars_of(ts.last())
    }
}

/// The positional tokens of the stream, in original order.
pub open spec fn spec_keywords(ts: Seq<Seq<char>>) -> Seq<Seq<char>> {
    ts.filter(keyword_pred())
}

/// Every option character of the stream is the recognized `i`.
pub open spec fn flags_all_valid(fl: Seq<char>) -> bool {
    forall|k: int| 0 <= k < fl.len() ==> fl[k] == 'i'
}

/// Index of the first unrecognized option character.
pub open spec fn first_invalid_flag(fl: Seq<char>) -> nat
    decreases fl.len(),
{
    if fl.len() == 0 {
        0
    } else if fl[0] != 'i' {
        0
    } else {
        1 + first_invalid_flag(fl.drop_first())
    }
}

proof fn lemma_first_invalid_flag_is(fl: Seq<char>, k: int)
    requires
        0 <= k < fl.len(),
        forall|m: int| 0 <= m < k ==> fl[m] == 'i',
        fl[k] != 'i',
    ensures
        first_invalid_flag(fl) == k,
    decreases k,
{
    if k == 0 {
    } else {
        assert(fl[0] == 'i');
        assert forall|m: int| 0 <= m < k - 1 implies fl.drop_first()[m] == 'i' by {
            assert(fl[m + 1] == 'i');
        }
        lemma_first_invalid_flag_is(fl.drop_first(), k - 1);
    }
}

/// Partitions the token stream: the positional tokens in order, and the
/// option characters of the option tokens in order, dashes dropped. A token
/// consisting only of dashes contributes no option character; an empty token
/// is positional.
pub fn parse_args<'a>(args: &'a [String]) -> (r: (Vec<&'a String>, Vec<char>))
    ensures
        ref_views(r.0@) == spec_keywords(token_views(args@)),
        r.1@ == spec_flags(token_views(args@)),
{
    let mut keywords: Vec<&'a String> = Vec::new();
    let mut flags: Vec<char> = Vec::new();
    let ghost tv = token_views(args@);
    proof {
        reveal(Seq::filter);
        assert(tv.subrange(0, 0).len() == 0);
        assert(ref_views(keywords@) =~= spec_keywords(tv.subrange(0, 0)));
    }
    let mut idx: usize = 0;
    while idx < args.len()
        invariant
            idx <= args@.len(),
            tv == token_views(args@),
            ref_views(keywords@) == spec_keywords(tv.subrange(0, idx as int)),
            flags@ == spec_flags(tv.subrange(0, idx as int)),
        decreases args@.len() - idx,
    {
        let arg: &'a String = &args[idx];
        let ghost k_old = keywords@;
        let ghost f_old = flags@;
        proof {
            assert(arg@ == tv[idx as int]);
        }
        let alen = arg.as_str().unicode_len();
        if alen > 0 && arg.as_str().get_char(0) == '-' {
            let mut j: usize = 0;
            while j < alen
                invariant
                    j <= alen,
                    alen == arg@.len(),
                    is_flag_token(arg@),
                    flags@ == f_old + arg@.subrange(0, j as int).filter(non_dash()),
                decreases alen - j,
            {
                let c = arg.as_str().get_char(j);
                let ghost fpref = arg@.subrange(0, j as int);
                if c != '-' {
                    flags.push(c);
                }
                proof {
                    assert(arg@.subrange(0, j + 1) =~= fpref + seq![c]);
                    Seq::filter_distributes_over_add(fpref, seq![c], non_dash());
                    lemma_filter_singleton(c, non_dash());
                    if c != '-' {
                        assert(flags@ =~= f_old + (fpref.filter(non_dash()) + seq![c]));
                    } else {
                        assert(flags@ =~= f_old + (fpref.filter(non_dash())
                            + Seq::<char>::empty()));
                    }
                }
                j += 1;
            }
            proof {
                assert(arg@.subrange(0, alen as int) =~= arg@);
                assert(flags@ == f_old + flag_chars_of(arg@));
            }
        } else {
            proof {
                assert(!is_flag_token(arg@));
                assert(flag_chars_of(arg@) == Seq::<char>::empty());
                assert(flags@ =~= f_old + flag_chars_of(arg@));
            }
            keywords.push(arg);
        }
        proof {
            let prefix = tv.subrange(0, idx as int);
            let prefix1 = tv.subrange(0, idx + 1);
            assert(prefix1 =~= prefix + seq![arg@]);
            assert(prefix1.drop_last() =~= prefix);
            assert(prefix1.last() == arg@);
            assert(prefix1.len() > 0);
            assert(spec_flags(prefix1) == spec_flags(prefix) + flag_chars_of(arg@));
            Seq::filter_distributes_over_add(prefix, seq![arg@], keyword_pred());
            lemma_filter_singleton(arg@, keyword_pred());
            if is_flag_token(arg@) {
                assert(spec_keywords(prefix1) =~= spec_keywords(prefix));
                assert(ref_views(keywords@) == spec_keywords(prefix1));
            } else {
                assert(spec_keywords(prefix1) =~= spec_keywords(prefix) + seq![arg@]);
                assert(ref_views(keywords@) =~= ref_views(k_old) + seq![arg@]);
            }
        }
        idx += 1;
    }
    proof {
        assert(tv.subrange(0, args@.len() as int) =~= tv);
    }
    (keywords, flags)
}

impl Config {
    /// Builds a configuration from the token stream. `ignore_case_default`
    /// is the environment-derived default for case-insensitive search; the
    /// recognized option `i` also enables it, and neither overrides the
    /// other. Callers must supply at least three positional tokens whenever
    /// the stream would otherwise be accepted.
    pub fn build(args: &[String], ignore_case_default: bool) -> (r: Result<Config, ParseError>)
        requires
            args@.len() >= 3 && flags_all_valid(spec_flags(token_views(args@)))
                ==> spec_keywords(token_views(args@)).len() >= 3,
        ensures
            args@.len() < 3 ==> r == Result::<Config, ParseError>::Err(
                ParseError::InsufficientArguments,
            ),
            args@.len() >= 3 && !flags_all_valid(spec_flags(token_views(args@))) ==> r
                == Result::<Config, ParseError>::Err(
                ParseError::InvalidFlag(
                    spec_flags(token_views(args@))[first_invalid_flag(
                        spec_flags(token_views(args@)),
                    ) as int],
                ),
            ),
            args@.len() >= 3 && flags_all_valid(spec_flags(token_views(args@))) ==> {
                &&& r is Ok
                &&& r->Ok_0.query@ == spec_keywords(token_views(args@))[1]
                &&& r->Ok_0.file_path@ == spec_keywords(token_views(args@))[2]
                &&& r->Ok_0.ignore_case == (ignore_case_default || spec_flags(
                    token_views(args@),
                ).len() > 0)
            },
    {
        if args.len() < 3 {
            return Err(ParseError::InsufficientArguments);
        }
        let (keywords, flags) = parse_args(args);
        let mut ignore_case = ignore_case_default;
        let mut fi: usize = 0;
        while fi < flags.len()
            invariant
                fi <= flags@.len(),
                args@.len() >= 3,
                flags@ == spec_flags(token_views(args@)),
                forall|k: int| 0 <= k < fi ==> flags@[k] == 'i',
                ignore_case == (ignore_case_default || fi > 0),
            decreases flags@.len() - fi,
        {
            let c = flags[fi];
            if c == 'i' {
                ignore_case = true;
            } else {
                proof {
                    lemma_first_invalid_flag_is(flags@, fi as int);
                }
                return Err(ParseError::InvalidFlag(c));
            }
            fi += 1;
        }
        let query = keywords[1].clone();
        let file_path = keywords[2].clone();
        Ok(Config { query, file_path, ignore_case })
    }
}

} // verus!
