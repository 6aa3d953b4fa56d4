//! The settings of a run: the port to probe, the number of workers and the
//! time allowed for one probe.

use vstd::prelude::*;

verus! {

/// Number of workers of a run, unless the caller asks for another.
pub const DEFAULT_WORKERS: usize = 50;

/// Time in milliseconds allowed for one probe, unless the caller asks for another.
pub const DEFAULT_TIMEOUT_MS: u64 = 500;

/// The greatest port number.
pub const MAX_PORT: u32 = 65535;

/// The text given for the port is not a number from 0 to 65535.
#[derive(Clone, Copy, Debug, PartialEq, Eq, Structural)]
pub struct InvalidPort;

/// The settings of a run.
#[derive(Clone, Copy, Debug, PartialEq, Eq, Structural)]
pub struct ScanConfig {
    /// The TCP port probed on every host.
    pub port: u16,
    /// How many workers share the hosts.
    pub workers: usize,
    /// Time in milliseconds allowed for one probe.
    pub timeout_ms: u64,
}

impl ScanConfig {
    /// The settings for a port, with the default number of workers and the
    /// default time for a probe.
    pub fn new(port: u16) -> (config: ScanConfig)
        ensures
            config == (ScanConfig {
                port,
                workers: DEFAULT_WORKERS,
                timeout_ms: DEFAULT_TIMEOUT_MS,
            }),
    {
        ScanConfig { port, workers: DEFAULT_WORKERS, timeout_ms: DEFAULT_TIMEOUT_MS }
    }
}

/// Whether `c` is one of the digits `0` to `9`.
pub open spec fn is_digit(c: char) -> bool {
    '0' <= c <= '9'
}

/// The number that a string of digits writes in base ten.
pub open spec fn decimal_value(digits: Seq<char>) -> nat
    decreases digits.len(),
{
    if digits.len() == 0 {
        0
    } else {
        decimal_value(digits.drop_last()) * 10 + (digits.last() as nat - '0' as nat) as nat
    }
}

/// The digits of a port text: the text itself, or what follows its `+` sign.
pub open spec fn port_digits(text: Seq<char>) -> Seq<char> {
    if text.len() > 0 && text[0] == '+' {
        text.drop_first()
    } else {
        text
    }
}

/// The port that a text names, if it names one: one or more digits, with or
/// without a `+` sign before them, that write a number up to 65535. Zeros
/// may lead; no blank and no other character may stand anywhere.
pub open spec fn port_of(text: Seq<char>) -> Option<u16> {
    let digits = port_digits(text);
    if digits.len() > 0 && (forall|i: int| 0 <= i < digits.len() ==> is_digit(#[trigger] digits[i]))
        && decimal_value(digits) <= MAX_PORT {
        Some(decimal_value(digits) as u16)
    } else {
        None
    }
}

/// The value of a string of digits does not shrink as the string grows.
proof fn lemma_decimal_value_grows(digits: Seq<char>, n: int)
    requires
        0 <= n <= digits.len(),
        forall|i: int| 0 <= i < digits.len() ==> is_digit(#[trigger] digits[i]),
    ensures
        decimal_value(digits.take(n)) <= decimal_value(digits),
    decreases digits.len() - n,
{
    if n == digits.len() {
        assert(digits.take(n) =~= digits);
    } else {
        lemma_decimal_value_grows(digits, n + 1);
        assert(digits.take(n + 1).drop_last() =~= digits.take(n));
    }
}

/// Reads a port number from its text, or refuses the text where it names
/// no port.
pub fn parse_port(text: &str) -> (r: Result<u16, InvalidPort>)
    ensures
        match r {
            Ok(port) => port_of(text@) == Some(port),
            Err(_) => port_of(text@) is None,
        },
{
    broadcast use vstd::string::group_string_axioms;

    let ghost digits = port_digits(text@);
    let ghost sign: int = text@.len() - digits.len();
    let ghost mut seen: int = 0;
    let mut value: u32 = 0;
    let mut any_digit: bool = false;
    let mut first: bool = true;
    for c in it: text.chars()
        invariant
            it.seq() == text@,
            digits == port_digits(text@),
            sign == text@.len() - digits.len(),
            0 <= sign <= 1,
            first == (it.index() == 0),
            it.index() >= sign ==> seen == it.index() - sign,
            it.index() < sign ==> seen == 0,
            any_digit == (seen > 0),
            forall|i: int| 0 <= i < seen ==> is_digit(#[trigger] digits[i]),
            value == decimal_value(digits.take(seen)),
            value <= MAX_PORT,
    {
        let is_sign: bool = first && c == '+';
        first = false;
        if !is_sign {
            proof {
                // `c` stands at place `seen` of the digits.
                assert(digits.take(seen + 1).drop_last() =~= digits.take(seen));
                assert(digits.take(seen + 1).last() == c);
            }
            if !('0' <= c && c <= '9') {
                return Err(InvalidPort);
            }
            let digit: u32 = c as u32 - '0' as u32;
            value = value * 10 + digit;
            any_digit = true;
            proof {
                seen = seen + 1;
            }
            if value > MAX_PORT {
                proof {
                    // Digits that follow can only make the number greater.
                    if forall|i: int| 0 <= i < digits.len() ==> is_digit(#[trigger] digits[i]) {
                        lemma_decimal_value_grows(digits, seen);
                    }
                }
                return Err(InvalidPort);
            }
        }
    }
    proof {
        assert(digits.take(seen) =~= digits);
    }
    if !any_digit {
        Err(InvalidPort)
    } else {
        Ok(value as u16)
    }
}

} // verus!
