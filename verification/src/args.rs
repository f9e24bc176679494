//! Command-line argument parsing: raw tokens in, a validated target
//! address and worker count out, or a structured error.

use vstd::prelude::*;
use vstd::string::StringExecFns;
use crate::addr::{parse_ip_addr, spec_parse_ip, IpAddress};
use crate::errors::SnifferError;
use crate::text::{all_digits, dec_val, digit_val, is_digit, lemma_dec_val_prefix, str_eq};

verus! {

/// Whether the first character of `s` is a minus sign.
pub open spec fn has_minus(s: Seq<char>) -> bool {
    s.len() > 0 && s[0] == '-'
}

/// Whether `s` starts with an explicit sign character.
pub open spec fn has_sign(s: Seq<char>) -> bool {
    s.len() > 0 && (s[0] == '+' || s[0] == '-')
}

/// The digits of `s` after any sign character.
pub open spec fn num_body(s: Seq<char>) -> Seq<char> {
    if has_sign(s) {
        s.subrange(1, s.len() as int)
    } else {
        s
    }
}

/// Whether `s` is a decimal numeral a 32-bit signed integer can hold: an
/// optional sign, at least one digit, and a value in range.
pub open spec fn is_i32_str(s: Seq<char>) -> bool {
    &&& num_body(s).len() > 0
    &&& all_digits(num_body(s))
    &&& (if has_minus(s) {
        dec_val(num_body(s)) <= 0x8000_0000
    } else {
        dec_val(num_body(s)) <= 0x7fff_ffff
    })
}

/// The value of such a numeral.
pub open spec fn i32_str_val(s: Seq<char>) -> int {
    if has_minus(s) {
        -dec_val(num_body(s))
    } else {
        dec_val(num_body(s))
    }
}

/// Parses a decimal numeral into a 32-bit signed integer, accepting
/// exactly the strings `is_i32_str` describes.
pub fn parse_i32(s: &str) -> (r: Option<i32>)
    ensures
        match r {
            Option::Some(v) => is_i32_str(s@) && v as int == i32_str_val(s@),
            Option::None => !is_i32_str(s@),
        },
{
    let n = s.unicode_len();
    if n == 0 {
        return Option::None;
    }
    let c0 = s.get_char(0);
    let neg = c0 == '-';
    let start: usize = if neg || c0 == '+' {
        1
    } else {
        0
    };
    let ghost body = num_body(s@);
    proof {
        assert(body =~= s@.subrange(start as int, n as int));
    }
    if start >= n {
        return Option::None;
    }
    let mut acc: u64 = 0;
    let mut i: usize = start;
    while i < n
        invariant
            start <= i <= n,
            n == s@.len(),
            start < n,
            body == num_body(s@),
            body == s@.subrange(start as int, n as int),
            all_digits(s@.subrange(start as int, i as int)),
            acc == dec_val(s@.subrange(start as int, i as int)),
            acc <= 0x8000_0000,
        decreases n - i,
    {
        let c = s.get_char(i);
        let u = c as u32;
        if u < 48 || u > 57 {
            proof {
                assert(body[i - start] == s@[i as int]);
                assert(!is_digit(s@[i as int]));
            }
            return Option::None;
        }
        proof {
            let t = s@.subrange(start as int, i as int + 1);
            assert(t.drop_last() =~= s@.subrange(start as int, i as int));
            assert(t.last() == s@[i as int]);
            assert(forall|j: int| 0 <= j < t.len() ==> t[j] == s@[start + j]);
            assert(digit_val(s@[i as int]) == u - 48);
        }
        acc = acc * 10 + ((u - 48) as u64);
        if acc > 0x8000_0000 {
            proof {
                // Every further digit only grows the value, so the whole
                // numeral is out of range.
                let pre = s@.subrange(start as int, i as int + 1);
                assert(acc == dec_val(pre));
                assert(forall|j: int| 0 <= j < pre.len() ==> pre[j] == body[j]);
                if all_digits(body) {
                    assert(pre =~= body.subrange(0, i + 1 - start));
                    lemma_dec_val_prefix(body, i + 1 - start);
                }
            }
            return Option::None;
        }
        i = i + 1;
    }
    proof {
        assert(s@.subrange(start as int, n as int) =~= body);
    }
    if neg {
        Option::Some((-(acc as i64)) as i32)
    } else {
        if acc > 0x7fff_ffff {
            return Option::None;
        }
        Option::Some(acc as i32)
    }
}

/// What parsing a token list comes to: a worker count and an address, or
/// the error to report.
pub enum ArgsOutcome {
    Parsed(int, IpAddress),
    NotEnough,
    Invalid(Seq<char>),
    Missing(Seq<char>),
    HelpRequested,
}

/// Parses `toks` from position `i` onward, with `threads` and `ip` holding
/// what earlier tokens established: `--help` and `-h` win immediately,
/// `-j` takes the next token as the worker count, and any other token is
/// the target address — at most one, and it must parse.
pub open spec fn parse_args_from(
    toks: Seq<Seq<char>>,
    i: int,
    threads: int,
    ip: Option<IpAddress>,
) -> ArgsOutcome
    decreases toks.len() - i,
        when 0 <= i <= toks.len()
{
    if i >= toks.len() {
        match ip {
            Option::Some(a) => ArgsOutcome::Parsed(threads, a),
            Option::None => ArgsOutcome::Missing("ip_addr"@),
        }
    } else {
        let tok = toks[i];
        if tok == "--help"@ || tok == "-h"@ {
            ArgsOutcome::HelpRequested
        } else if tok == "-j"@ {
            if i + 1 >= toks.len() {
                ArgsOutcome::Missing(tok)
            } else if is_i32_str(toks[i + 1]) {
                parse_args_from(toks, i + 2, i32_str_val(toks[i + 1]), ip)
            } else {
                ArgsOutcome::Invalid(toks[i + 1])
            }
        } else {
            if ip is Some {
                ArgsOutcome::Invalid(tok)
            } else {
                match spec_parse_ip(tok) {
                    Option::Some(a) => parse_args_from(toks, i + 1, threads, Option::Some(a)),
                    Option::None => ArgsOutcome::Invalid(tok),
                }
            }
        }
    }
}

/// The views of a list of tokens.
pub open spec fn tok_views(args: Seq<String>) -> Seq<Seq<char>> {
    args.map_values(|s: String| s@)
}

/// What parsing the whole token list comes to, with the worker count
/// defaulting to four.
pub open spec fn args_outcome(toks: Seq<Seq<char>>) -> ArgsOutcome {
    if toks.len() == 0 {
        ArgsOutcome::NotEnough
    } else {
        parse_args_from(toks, 0, 4, Option::None)
    }
}

/// Whether the parser's result reports exactly the outcome the token list
/// calls for.
pub open spec fn args_result_matches(r: Result<Arguments, SnifferError>, out: ArgsOutcome) -> bool {
    match r {
        Result::Ok(a) => out == ArgsOutcome::Parsed(a.spec_num_threads() as int, a.spec_ip_addr()),
        Result::Err(e) => match e {
            SnifferError::NotEnoughArgs => out == ArgsOutcome::NotEnough,
            SnifferError::Help => out == ArgsOutcome::HelpRequested,
            SnifferError::InvalidArgs(t) => match out {
                ArgsOutcome::Invalid(u) => t@ == u,
                _ => false,
            },
            SnifferError::MissingArg(t) => match out {
                ArgsOutcome::Missing(u) => t@ == u,
                _ => false,
            },
        },
    }
}

/// The validated scan parameters: how many workers, and which address.
#[derive(Debug)]
pub struct Arguments {
    num_threads: i32,
    ip_addr: IpAddress,
}

impl Arguments {
    /// The worker count this value holds.
    pub closed spec fn spec_num_threads(&self) -> i32 {
        self.num_threads
    }

    /// The address this value holds.
    pub closed spec fn spec_ip_addr(&self) -> IpAddress {
        self.ip_addr
    }

    /// Parses the raw command-line tokens (after the program name) into a
    /// worker count and a target address, or the error to report.
    pub fn new(args: &[String]) -> (r: Result<Arguments, SnifferError>)
        ensures
            args_result_matches(r, args_outcome(tok_views(args@))),
    {
        let ghost toks = tok_views(args@);
        if args.len() == 0 {
            return Result::Err(SnifferError::NotEnoughArgs);
        }
        let mut num_threads: i32 = 4;
        let mut ip: Option<IpAddress> = Option::None;
        let mut idx: usize = 0;
        while idx < args.len()
            invariant
                idx <= args@.len(),
                toks == tok_views(args@),
                toks.len() == args@.len(),
                toks.len() > 0,
                parse_args_from(toks, idx as int, num_threads as int, ip) == args_outcome(toks),
            decreases args@.len() - idx,
        {
            let tok = &args[idx];
            proof {
                assert(toks[idx as int] == args@[idx as int]@);
            }
            if str_eq(tok.as_str(), "--help") || str_eq(tok.as_str(), "-h") {
                return Result::Err(SnifferError::Help);
            } else if str_eq(tok.as_str(), "-j") {
                if idx + 1 >= args.len() {
                    return Result::Err(SnifferError::MissingArg(tok.clone()));
                }
                let val = &args[idx + 1];
                proof {
                    assert(toks[idx as int + 1] == args@[idx as int + 1]@);
                }
                match parse_i32(val.as_str()) {
                    Option::Some(v) => {
                        num_threads = v;
                        idx = idx + 2;
                    },
                    Option::None => {
                        return Result::Err(SnifferError::InvalidArgs(val.clone()));
                    },
                }
            } else {
                if ip.is_some() {
                    return Result::Err(SnifferError::InvalidArgs(tok.clone()));
                }
                match parse_ip_addr(tok.as_str()) {
                    Option::Some(a) => {
                        ip = Option::Some(a);
                        idx = idx + 1;
                    },
                    Option::None => {
                        return Result::Err(SnifferError::InvalidArgs(tok.clone()));
                    },
                }
            }
        }
        match ip {
            Option::Some(a) => Result::Ok(Arguments { num_threads, ip_addr: a }),
            Option::None => Result::Err(SnifferError::MissingArg(String::from_str("ip_addr"))),
        }
    }

    /// The worker count.
    pub fn num_threads(&self) -> (r: i32)
        ensures
            r == self.spec_num_threads(),
    {
        self.num_threads
    }

    /// The target address.
    pub fn ip_addr(&self) -> (r: IpAddress)
        ensures
            r == self.spec_ip_addr(),
    {
        self.ip_addr
    }
}

} // verus!
