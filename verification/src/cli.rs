//! Command-line request: how long to record.

use crate::text::texts;
use vstd::prelude::*;
use vstd::string::*;

verus! {

/// What the command line asks for.
#[derive(Clone, Copy, Debug, PartialEq, Eq, Structural)]
pub enum CliRequest {
    /// Print the help text and stop.
    Help,
    /// Record until stopped by hand.
    Unlimited,
    /// Record at most this many events; never zero.
    Limit(u64),
    /// The limit was given as zero.
    ZeroLimit,
    /// The argument at this position should be the limit and is no number.
    InvalidLimit(usize),
}

/// Whether the character is a decimal digit.
pub open spec fn is_digit(c: char) -> bool {
    0x30 <= c as u32 <= 0x39
}

/// The number that a string of decimal digits stands for.
pub open spec fn decimal_value(digits: Seq<char>) -> nat
    decreases digits.len(),
{
    if digits.len() == 0 {
        0
    } else {
        decimal_value(digits.drop_last()) * 10 + (digits.last() as u32 - 0x30) as nat
    }
}

/// The text without one leading plus sign.
pub open spec fn unsigned_part(text: Seq<char>) -> Seq<char> {
    if text.len() > 0 && text[0] == '+' {
        text.subrange(1, text.len() as int)
    } else {
        text
    }
}

/// The count that a text stands for: decimal digits, at least one, after an
/// optional plus sign, with a value that fits in 64 bits.
pub open spec fn parsed_count(text: Seq<char>) -> Option<u64> {
    let digits = unsigned_part(text);
    if digits.len() > 0 && (forall|i: int| 0 <= i < digits.len() ==> is_digit(#[trigger] digits[i]))
        && decimal_value(digits) <= u64::MAX {
        Some(decimal_value(digits) as u64)
    } else {
        None
    }
}

/// Whether the argument asks for the help text.
pub open spec fn is_help_flag(arg: Seq<char>) -> bool {
    arg == "-h"@ || arg == "--help"@
}

/// Whether the argument announces the limit.
pub open spec fn is_limit_flag(arg: Seq<char>) -> bool {
    arg == "-n"@ || arg == "--max-events"@
}

/// The request that the arguments from position `start` on make: the first
/// help flag or limit flag with a value behind it decides.
pub open spec fn request_from(args: Seq<Seq<char>>, start: int) -> CliRequest
    decreases args.len() - start,
{
    if start < 0 || start >= args.len() {
        CliRequest::Unlimited
    } else if is_help_flag(args[start]) {
        CliRequest::Help
    } else if is_limit_flag(args[start]) && start + 1 < args.len() {
        match parsed_count(args[start + 1]) {
            Some(limit) => if limit > 0 {
                CliRequest::Limit(limit)
            } else {
                CliRequest::ZeroLimit
            },
            None => CliRequest::InvalidLimit((start + 1) as usize),
        }
    } else {
        request_from(args, start + 1)
    }
}

/// A string of digits is worth no less than any of its beginnings.
proof fn lemma_decimal_value_grows(digits: Seq<char>, shorter: int)
    requires
        0 <= shorter <= digits.len(),
    ensures
        decimal_value(digits.take(shorter)) <= decimal_value(digits),
    decreases digits.len() - shorter,
{
    if shorter == digits.len() {
        assert(digits.take(shorter) =~= digits);
    } else {
        lemma_decimal_value_grows(digits.drop_last(), shorter);
        assert(digits.drop_last().take(shorter) =~= digits.take(shorter));
    }
}

/// Reads a count as `parsed_count` describes it.
pub fn parse_count(text: &str) -> (count: Option<u64>)
    ensures
        count == parsed_count(text@),
{
    let length: usize = text.unicode_len();
    let first: usize = if length > 0 && text.get_char(0) == '+' {
        1
    } else {
        0
    };
    let ghost digits = unsigned_part(text@);
    if first == length {
        return None;
    }
    let mut value: u64 = 0;
    let mut index: usize = first;
    assert(digits.take(0) =~= Seq::<char>::empty());
    while index < length
        invariant
            length == text@.len(),
            digits == unsigned_part(text@),
            digits.len() == length - first,
            first <= index <= length,
            first <= 1,
            forall|i: int| 0 <= i < digits.len() ==> digits[i] == text@[i + first],
            forall|i: int| 0 <= i < index - first ==> is_digit(#[trigger] digits[i]),
            value == decimal_value(digits.take(index - first)),
        decreases length - index,
    {
        let c: char = text.get_char(index);
        let code: u32 = c as u32;
        if code < 0x30 || code > 0x39 {
            assert(!is_digit(digits[index - first]));
            return None;
        }
        let digit: u64 = (code - 0x30) as u64;
        proof {
            let longer = digits.take(index - first + 1);
            assert(longer.drop_last() =~= digits.take(index - first));
            assert(longer.last() == c);
            lemma_decimal_value_grows(digits, index - first + 1);
        }
        let scaled = match value.checked_mul(10) {
            Some(scaled) => scaled,
            None => {
                return None;
            },
        };
        value = match scaled.checked_add(digit) {
            Some(sum) => sum,
            None => {
                return None;
            },
        };
        index = index + 1;
    }
    assert(digits.take(index - first) =~= digits);
    Some(value)
}

/// Decides what the command line asks for. The arguments are read in
/// order, the program's own name included; a limit flag in last place is
/// passed over.
pub fn parse_max_events(args: &Vec<String>) -> (request: CliRequest)
    ensures
        request == request_from(texts(args@), 0),
{
    let help_short = String::from_str("-h");
    let help_long = String::from_str("--help");
    let limit_short = String::from_str("-n");
    let limit_long = String::from_str("--max-events");
    let ghost all = texts(args@);
    let mut index: usize = 0;
    while index < args.len()
        invariant
            all == texts(args@),
            index <= args.len(),
            help_short@ == "-h"@,
            help_long@ == "--help"@,
            limit_short@ == "-n"@,
            limit_long@ == "--max-events"@,
            request_from(all, 0) == request_from(all, index as int),
        decreases args.len() - index,
    {
        let arg = &args[index];
        assert(all[index as int] == arg@);
        if *arg == help_short || *arg == help_long {
            return CliRequest::Help;
        }
        if (*arg == limit_short || *arg == limit_long) && index + 1 < args.len() {
            assert(all[index + 1] == args@[index + 1]@);
            return match parse_count(args[index + 1].as_str()) {
                Some(limit) => if limit > 0 {
                    CliRequest::Limit(limit)
                } else {
                    CliRequest::ZeroLimit
                },
                None => CliRequest::InvalidLimit(index + 1),
            };
        }
        index = index + 1;
    }
    CliRequest::Unlimited
}

} // verus!
