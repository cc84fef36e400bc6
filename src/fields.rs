//! Decoding the value tokens of a statement, by position.
use vstd::prelude::*;
use crate::command::{Mirroring, Polarity, Unit};
use crate::error::{agrees, semantic, semantic3, GerberError};
use crate::number::{
    decimal_in, parse_decimal, parse_u32, parse_u8, push_range, text_chars, uint_in_u32,
    uint_in_u8, uint_text, Decimal,
};
use crate::syntax::SyntaxNode;

verus! {

/// A required decimal at position `i`.
pub open spec fn req_decimal(c: Seq<SyntaxNode>, i: int, missing: Seq<char>, bad: Seq<char>) -> Result<
    Decimal,
    Seq<char>,
> {
    if i >= c.len() {
        Err(missing)
    } else {
        match decimal_in(c[i].text@) {
            Some(d) => Ok(d),
            None => Err(bad),
        }
    }
}

/// An optional decimal at position `i`.
pub open spec fn opt_decimal(c: Seq<SyntaxNode>, i: int, bad: Seq<char>) -> Result<
    Option<Decimal>,
    Seq<char>,
> {
    if i >= c.len() {
        Ok(None)
    } else {
        match decimal_in(c[i].text@) {
            Some(d) => Ok(Some(d)),
            None => Err(bad),
        }
    }
}

/// A required unsigned 32-bit integer at position `i`.
pub open spec fn req_u32(c: Seq<SyntaxNode>, i: int, missing: Seq<char>, bad: Seq<char>) -> Result<
    u32,
    Seq<char>,
> {
    if i >= c.len() {
        Err(missing)
    } else {
        match uint_in_u32(c[i].text@) {
            Some(d) => Ok(d),
            None => Err(bad),
        }
    }
}

/// A required unsigned 8-bit integer at position `i`.
pub open spec fn req_u8(c: Seq<SyntaxNode>, i: int, missing: Seq<char>, bad: Seq<char>) -> Result<
    u8,
    Seq<char>,
> {
    if i >= c.len() {
        Err(missing)
    } else {
        match uint_in_u8(c[i].text@) {
            Some(d) => Ok(d),
            None => Err(bad),
        }
    }
}

pub fn required_decimal(c: &Vec<SyntaxNode>, i: usize, missing: &str, bad: &str) -> (r: Result<
    Decimal,
    GerberError,
>)
    ensures
        agrees(r, req_decimal(c@, i as int, missing@, bad@)),
{
    if i >= c.len() {
        return Err(semantic(missing));
    }
    match parse_decimal(c[i].text.as_str()) {
        Some(d) => Ok(d),
        None => Err(semantic(bad)),
    }
}

pub fn optional_decimal(c: &Vec<SyntaxNode>, i: usize, bad: &str) -> (r: Result<
    Option<Decimal>,
    GerberError,
>)
    ensures
        agrees(r, opt_decimal(c@, i as int, bad@)),
{
    if i >= c.len() {
        return Ok(None);
    }
    match parse_decimal(c[i].text.as_str()) {
        Some(d) => Ok(Some(d)),
        None => Err(semantic(bad)),
    }
}

pub fn required_u32(c: &Vec<SyntaxNode>, i: usize, missing: &str, bad: &str) -> (r: Result<
    u32,
    GerberError,
>)
    ensures
        agrees(r, req_u32(c@, i as int, missing@, bad@)),
{
    if i >= c.len() {
        return Err(semantic(missing));
    }
    match parse_u32(c[i].text.as_str()) {
        Some(d) => Ok(d),
        None => Err(semantic(bad)),
    }
}

pub fn required_u8(c: &Vec<SyntaxNode>, i: usize, missing: &str, bad: &str) -> (r: Result<
    u8,
    GerberError,
>)
    ensures
        agrees(r, req_u8(c@, i as int, missing@, bad@)),
{
    if i >= c.len() {
        return Err(semantic(missing));
    }
    match parse_u8(c[i].text.as_str()) {
        Some(d) => Ok(d),
        None => Err(semantic(bad)),
    }
}

/// `s` without its leading `D` characters.
pub open spec fn strip_d(s: Seq<char>) -> Seq<char>
    decreases s.len(),
{
    if s.len() > 0 && s[0] == 'D' {
        strip_d(s.drop_first())
    } else {
        s
    }
}

/// The number of an aperture code token (`D` followed by digits).
pub open spec fn code_in(s: Seq<char>) -> Option<u32> {
    uint_in_u32(strip_d(s))
}

/// Decodes an aperture code token.
pub fn parse_code(s: &str) -> (r: Option<u32>)
    ensures
        r == code_in(s@),
{
    let cs = text_chars(s);
    let n = cs.len();
    let mut i: usize = 0;
    assert(cs@.subrange(0, n as int) =~= cs@);
    while i < n && cs[i] == 'D'
        invariant
            i <= n == cs@.len(),
            strip_d(s@) == strip_d(cs@.subrange(i as int, n as int)),
        decreases n - i,
    {
        assert(cs@.subrange(i as int, n as int).drop_first() =~= cs@.subrange(
            i + 1,
            n as int,
        ));
        i = i + 1;
    }
    let mut rest: Vec<char> = Vec::new();
    push_range(&mut rest, &cs, i, n);
    assert(rest@ =~= cs@.subrange(i as int, n as int));
    match uint_text(&rest, 0xffff_ffff) {
        Some(v) => Some(v as u32),
        None => None,
    }
}

/// The code at position 0 of an AD or Dnn statement.
pub open spec fn req_code(c: Seq<SyntaxNode>, missing: Seq<char>) -> Result<u32, Seq<char>> {
    if c.len() == 0 {
        Err(missing)
    } else {
        match code_in(c[0].text@) {
            Some(v) => Ok(v),
            None => Err(
                "Aperture code '"@ + c[0].text@ + "' could not be parsed as an integer."@,
            ),
        }
    }
}

pub fn required_code(c: &Vec<SyntaxNode>, missing: &str) -> (r: Result<u32, GerberError>)
    ensures
        agrees(r, req_code(c@, missing@)),
{
    if c.len() == 0 {
        return Err(semantic(missing));
    }
    match parse_code(c[0].text.as_str()) {
        Some(v) => Ok(v),
        None => Err(
            semantic3(
                "Aperture code '",
                c[0].text.as_str(),
                "' could not be parsed as an integer.",
            ),
        ),
    }
}

/// `c` is the letter whose upper and lower case forms are given.
pub open spec fn letter(c: char, upper: char, lower: char) -> bool {
    c == upper || c == lower
}

pub open spec fn unit_of(s: Seq<char>) -> Option<Unit> {
    if s.len() == 2 && letter(s[0], 'M', 'm') && letter(s[1], 'M', 'm') {
        Some(Unit::Millimeters)
    } else if s.len() == 2 && letter(s[0], 'I', 'i') && letter(s[1], 'N', 'n') {
        Some(Unit::Inches)
    } else {
        None
    }
}

pub open spec fn polarity_of(s: Seq<char>) -> Option<Polarity> {
    if s.len() == 1 && letter(s[0], 'D', 'd') {
        Some(Polarity::Dark)
    } else if s.len() == 1 && letter(s[0], 'C', 'c') {
        Some(Polarity::Clear)
    } else {
        None
    }
}

pub open spec fn mirroring_of(s: Seq<char>) -> Option<Mirroring> {
    if s.len() == 1 && letter(s[0], 'N', 'n') {
        Some(Mirroring::NoMirroring)
    } else if s.len() == 1 && letter(s[0], 'X', 'x') {
        Some(Mirroring::X)
    } else if s.len() == 1 && letter(s[0], 'Y', 'y') {
        Some(Mirroring::Y)
    } else if s.len() == 2 && letter(s[0], 'X', 'x') && letter(s[1], 'Y', 'y') {
        Some(Mirroring::XY)
    } else {
        None
    }
}

fn is_letter(c: char, upper: char, lower: char) -> (r: bool)
    ensures
        r == letter(c, upper, lower),
{
    c == upper || c == lower
}

/// Reads a unit keyword, ignoring case.
pub fn unit_keyword(s: &str) -> (r: Option<Unit>)
    ensures
        r == unit_of(s@),
{
    let cs = text_chars(s);
    if cs.len() == 2 && is_letter(cs[0], 'M', 'm') && is_letter(cs[1], 'M', 'm') {
        Some(Unit::Millimeters)
    } else if cs.len() == 2 && is_letter(cs[0], 'I', 'i') && is_letter(cs[1], 'N', 'n') {
        Some(Unit::Inches)
    } else {
        None
    }
}

/// Reads a polarity keyword, ignoring case.
pub fn polarity_keyword(s: &str) -> (r: Option<Polarity>)
    ensures
        r == polarity_of(s@),
{
    let cs = text_chars(s);
    if cs.len() == 1 && is_letter(cs[0], 'D', 'd') {
        Some(Polarity::Dark)
    } else if cs.len() == 1 && is_letter(cs[0], 'C', 'c') {
        Some(Polarity::Clear)
    } else {
        None
    }
}

/// Reads a mirroring keyword, ignoring case.
pub fn mirroring_keyword(s: &str) -> (r: Option<Mirroring>)
    ensures
        r == mirroring_of(s@),
{
    let cs = text_chars(s);
    if cs.len() == 1 && is_letter(cs[0], 'N', 'n') {
        Some(Mirroring::NoMirroring)
    } else if cs.len() == 1 && is_letter(cs[0], 'X', 'x') {
        Some(Mirroring::X)
    } else if cs.len() == 1 && is_letter(cs[0], 'Y', 'y') {
        Some(Mirroring::Y)
    } else if cs.len() == 2 && is_letter(cs[0], 'X', 'x') && is_letter(cs[1], 'Y', 'y') {
        Some(Mirroring::XY)
    } else {
        None
    }
}

} // verus!
