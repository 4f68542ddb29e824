//! Numbers given on the command line of the collision tool.
use vstd::prelude::*;
use crate::text::{parse_u32, parse_u32_radix, str_chars};

verus! {

/// A number as the collision tool reads it: hexadecimal after a `0x` or
/// `0X` prefix, else decimal.
pub open spec fn cli_u32(s: Seq<char>) -> Option<u32> {
    if s.len() >= 2 && s[0] == '0' && (s[1] == 'x' || s[1] == 'X') {
        parse_u32(s.subrange(2, s.len() as int), 16)
    } else {
        parse_u32(s, 10)
    }
}

/// Reads a number given on the command line: hexadecimal after `0x` or
/// `0X`, else decimal; `None` where it is no `u32`.
pub fn parse_str_to_u32(input: &str) -> (r: Option<u32>)
    ensures
        r == cli_u32(input@),
{
    let c = str_chars(input);
    if c.len() >= 2 && c[0] == '0' && (c[1] == 'x' || c[1] == 'X') {
        let (_, rest) = c.as_slice().split_at(2);
        parse_u32_radix(rest, 16)
    } else {
        parse_u32_radix(c.as_slice(), 10)
    }
}

} // verus!
