//! The configuration file of the battery monitor: lines of the form
//! `key = value`, with comments and section headers between them.

use vstd::prelude::*;
use vstd::string::StringSliceAdditionalSpecFns;
use crate::power::UpsConfig;
use crate::text::{
    find_byte, find_line_end, index_of, line_end, number_value, parse_number, range_is, strip,
    stripped, Strip, TextRange,
};

verus! {

pub const HASH: u8 = 35;

pub const OPENING_BRACKET: u8 = 91;

pub const EQUALS: u8 = 61;

pub const LOWER_X: u8 = 120;

pub const UPPER_X: u8 = 88;

/// What a configuration file says.
#[derive(Clone, Copy, Debug, PartialEq, Eq, Structural)]
pub struct ParsedUpsConfig {
    /// The configuration, but for the voltage threshold, which stays at its
    /// default.
    pub config: UpsConfig,
    /// Where the file gives the voltage threshold: the stretch of the text
    /// that holds the number, in volts.
    pub voltage_threshold_text: Option<TextRange>,
}

/// Whether the stretch begins with `0x` or `0X`.
pub open spec fn has_hex_prefix(s: Seq<u8>, from: int, to: int) -> bool {
    to - from >= 2 && s[from] == 48 && (s[from + 1] == 120 || s[from + 1] == 88)
}

/// The number that a value spells, or `fallback` where it spells none of at
/// most `max`.
pub open spec fn number_or(s: Seq<u8>, radix: int, max: int, fallback: int) -> int {
    match number_value(s, radix, max) {
        Some(v) => v,
        None => fallback,
    }
}

/// What is known after the line that stands from `from` to `to`.
///
/// A line is read without the blanks around it. An empty line, a line that
/// begins with `#` or with `[`, and a line without `=` say nothing. In
/// every other line the key stands before the first `=` and the value
/// behind it, both without the blanks around them, the value also without
/// the quotes around it. A key that is not known says nothing. A number
/// that cannot be read gives the fallback of its key.
pub open spec fn after_line(c: ParsedUpsConfig, s: Seq<u8>, from: int, to: int) -> ParsedUpsConfig {
    let (a, b) = stripped(s, Strip::Blanks, from, to);
    if a == b || s[a] == 35 || s[a] == 91 {
        c
    } else {
        let eq = index_of(s, 61, a, b);
        if eq == b {
            c
        } else {
            let (ka, kb) = stripped(s, Strip::Blanks, a, eq);
            let (ra, rb) = stripped(s, Strip::Blanks, eq + 1, b);
            let (va, vb) = stripped(s, Strip::Quotes, ra, rb);
            let key = s.subrange(ka, kb);
            let value = s.subrange(va, vb);
            if key == "enabled".spec_bytes() {
                ParsedUpsConfig {
                    config: UpsConfig { enabled: value == "true".spec_bytes(), ..c.config },
                    ..c
                }
            } else if key == "i2c_bus".spec_bytes() {
                ParsedUpsConfig {
                    config: UpsConfig { i2c_bus: number_or(value, 10, 255, 1) as u8, ..c.config },
                    ..c
                }
            } else if key == "i2c_address".spec_bytes() {
                ParsedUpsConfig {
                    config: UpsConfig {
                        i2c_address: if has_hex_prefix(s, va, vb) {
                            number_or(s.subrange(va + 2, vb), 16, 255, 0x36) as u8
                        } else {
                            number_or(value, 10, 255, 0x36) as u8
                        },
                        ..c.config
                    },
                    ..c
                }
            } else if key == "voltage_threshold".spec_bytes() {
                ParsedUpsConfig {
                    voltage_threshold_text: Some(
                        TextRange { start: va as usize, end: vb as usize },
                    ),
                    ..c
                }
            } else if key == "check_interval_secs".spec_bytes() {
                ParsedUpsConfig {
                    config: UpsConfig {
                        check_interval_secs: number_or(value, 10, u64::MAX as int, 10) as u64,
                        ..c.config
                    },
                    ..c
                }
            } else {
                c
            }
        }
    }
}

/// What is known after the lines of the text from `from` on. A later line
/// overrides an earlier one.
pub open spec fn after_lines(c: ParsedUpsConfig, s: Seq<u8>, from: int) -> ParsedUpsConfig
    decreases s.len() - from + 1,
    via after_lines_decreases
{
    if from < 0 || from >= s.len() {
        c
    } else {
        after_lines(after_line(c, s, from, line_end(s, from)), s, line_end(s, from) + 1)
    }
}

#[via_fn]
proof fn after_lines_decreases(c: ParsedUpsConfig, s: Seq<u8>, from: int) {
    if 0 <= from <= s.len() {
        crate::text::lemma_line_end(s, from);
    }
}

/// What a configuration file says: what its lines say, one after the other,
/// beginning with the default configuration.
pub open spec fn parsed_config(s: Seq<u8>) -> ParsedUpsConfig {
    after_lines(
        ParsedUpsConfig {
            config: UpsConfig {
                enabled: false,
                i2c_bus: 1,
                i2c_address: 0x36,
                voltage_threshold: 3200,
                check_interval_secs: 5,
            },
            voltage_threshold_text: None,
        },
        s,
        0,
    )
}

/// The number that the stretch spells, or `fallback`.
fn number_in(text: &[u8], from: usize, to: usize, hex: bool, max: u64, fallback: u64) -> (v: u64)
    requires
        from <= to <= text@.len(),
        fallback <= max,
    ensures
        v == number_or(
            text@.subrange(from as int, to as int),
            if hex {
                16
            } else {
                10
            },
            max as int,
            fallback as int,
        ),
        v <= max,
{
    match parse_number(text, from, to, hex, max) {
        Some(v) => v,
        None => fallback,
    }
}

/// Takes in one line.
fn read_line(c: ParsedUpsConfig, text: &[u8], from: usize, to: usize) -> (r: ParsedUpsConfig)
    requires
        from <= to <= text@.len(),
    ensures
        r == after_line(c, text@, from as int, to as int),
{
    let line: TextRange = strip(text, Strip::Blanks, from, to);
    if line.start == line.end || text[line.start] == HASH || text[line.start] == OPENING_BRACKET {
        return c;
    }
    let eq: usize = find_byte(text, EQUALS, line.start, line.end);
    if eq == line.end {
        return c;
    }
    let key: TextRange = strip(text, Strip::Blanks, line.start, eq);
    let raw: TextRange = strip(text, Strip::Blanks, eq + 1, line.end);
    let value: TextRange = strip(text, Strip::Quotes, raw.start, raw.end);
    let mut r: ParsedUpsConfig = c;
    if range_is(text, key.start, key.end, "enabled") {
        r.config.enabled = range_is(text, value.start, value.end, "true");
    } else if range_is(text, key.start, key.end, "i2c_bus") {
        r.config.i2c_bus = number_in(text, value.start, value.end, false, 255, 1) as u8;
    } else if range_is(text, key.start, key.end, "i2c_address") {
        let hex: bool = value.end - value.start >= 2 && text[value.start] == crate::text::DIGIT_ZERO
            && (text[value.start + 1] == LOWER_X || text[value.start + 1] == UPPER_X);
        r.config.i2c_address = if hex {
            number_in(text, value.start + 2, value.end, true, 255, 0x36) as u8
        } else {
            number_in(text, value.start, value.end, false, 255, 0x36) as u8
        };
    } else if range_is(text, key.start, key.end, "voltage_threshold") {
        r.voltage_threshold_text = Some(value);
    } else if range_is(text, key.start, key.end, "check_interval_secs") {
        r.config.check_interval_secs = number_in(
            text,
            value.start,
            value.end,
            false,
            u64::MAX,
            10,
        );
    }
    r
}

/// Reads a configuration file. Every text is a configuration: what cannot
/// be read is passed over.
pub fn parse_ups_config(text: &[u8]) -> (r: ParsedUpsConfig)
    ensures
        r == parsed_config(text@),
{
    let mut c = ParsedUpsConfig { config: UpsConfig::default(), voltage_threshold_text: None };
    let len: usize = text.len();
    let mut from: usize = 0;
    while from < len
        invariant
            from <= len,
            len == text@.len(),
            after_lines(c, text@, from as int) == parsed_config(text@),
        decreases len - from,
    {
        let end: usize = find_line_end(text, from);
        let ghost before = c;
        c = read_line(c, text, from, end);
        proof {
            assert(after_lines(before, text@, from as int) == after_lines(c, text@, end + 1));
            assert(after_lines(c, text@, len + 1) == c);
            assert(after_lines(c, text@, len as int) == c);
        }
        if end == len {
            from = len;
        } else {
            from = end + 1;
        }
    }
    c
}

} // verus!
