//! Where a named sprite lies in a sprite sheet, and its line in a sprite map.
use vstd::prelude::*;
use vstd::string::StringSliceAdditionalSpecFns;
use vstd::utf8::{
    decode_utf8, encode_utf8_decode_utf8, encode_utf8_valid_utf8,
    is_char_boundary_iff_not_is_continuation_byte,
};
use crate::dimensions::{DisplayPoint, DisplayRect};
use crate::map_text::{parse_u32, parse_u32_spec};

verus! {

/// A sprite's name; it holds no spaces.
pub type SpriteKey = String;

pub struct SpriteRef {
    pub name: SpriteKey,
    pub offset_x: u32,
    pub offset_y: u32,
    pub width: u32,
    pub height: u32,
}

/// Why a sprite-map line was refused.
#[derive(Clone, Copy, Debug, PartialEq, Eq, Structural)]
pub enum SpriteParseError {
    /// The line does not hold exactly five fields separated by single spaces.
    WrongFieldCount,
    /// One of the four numbers is not a decimal `u32`.
    BadNumber,
}

/// Index of the first space at or after `start`, or the length of the line.
pub open spec fn field_end(s: Seq<u8>, start: int) -> int
    decreases s.len() - start,
{
    if start >= s.len() || start < 0 {
        s.len() as int
    } else if s[start] == 32u8 {
        start
    } else {
        field_end(s, start + 1)
    }
}

/// The ends of the first four fields of a line that splits at single spaces into
/// exactly five fields.
pub open spec fn field_ends(s: Seq<u8>) -> Option<(int, int, int, int)> {
    let e0 = field_end(s, 0);
    let e1 = field_end(s, e0 + 1);
    let e2 = field_end(s, e1 + 1);
    let e3 = field_end(s, e2 + 1);
    if e0 < s.len() && e1 < s.len() && e2 < s.len() && e3 < s.len() && field_end(s, e3 + 1)
        == s.len() {
        Some((e0, e1, e2, e3))
    } else {
        None
    }
}

/// What the line `NAME OFF_X OFF_Y WIDTH HEIGHT` (its UTF-8 bytes) describes.
pub open spec fn sprite_line_spec(s: Seq<u8>) -> Result<
    (Seq<char>, u32, u32, u32, u32),
    SpriteParseError,
> {
    match field_ends(s) {
        None => Err(SpriteParseError::WrongFieldCount),
        Some((e0, e1, e2, e3)) => {
            let a = parse_u32_spec(s.subrange(e0 + 1, e1));
            let b = parse_u32_spec(s.subrange(e1 + 1, e2));
            let c = parse_u32_spec(s.subrange(e2 + 1, e3));
            let d = parse_u32_spec(s.subrange(e3 + 1, s.len() as int));
            if a is Some && b is Some && c is Some && d is Some {
                Ok((decode_utf8(s.subrange(0, e0)), a->0, b->0, c->0, d->0))
            } else {
                Err(SpriteParseError::BadNumber)
            }
        },
    }
}

proof fn lemma_field_end_is_space(s: Seq<u8>, start: int)
    requires
        0 <= start,
    ensures
        field_end(s, start) < s.len() ==> s[field_end(s, start)] == 32u8,
    decreases s.len() - start,
{
    if start < s.len() && s[start] != 32u8 {
        lemma_field_end_is_space(s, start + 1);
    }
}

fn find_space(text: &[u8], start: usize) -> (e: usize)
    requires
        start <= text@.len(),
    ensures
        e == field_end(text@, start as int),
        start <= e <= text@.len(),
{
    let mut i = start;
    while i < text.len() && text[i] != 32u8
        invariant
            start <= i <= text@.len(),
            field_end(text@, start as int) == field_end(text@, i as int),
        decreases text@.len() - i,
    {
        i = i + 1;
    }
    i
}

impl SpriteRef {
    /// Reads a line `NAME OFF_X OFF_Y WIDTH HEIGHT`.
    pub fn from_str(line: &str) -> (r: Result<SpriteRef, SpriteParseError>)
        ensures
            match sprite_line_spec(line.spec_bytes()) {
                Ok((n, a, b, c, d)) => r matches Ok(sr) && sr.name@ == n && sr.offset_x == a
                    && sr.offset_y == b && sr.width == c && sr.height == d,
                Err(e) => r matches Err(re) && re == e,
            },
    {
        let bytes = line.as_bytes();
        let ghost s = bytes@;
        let e0 = find_space(bytes, 0);
        if e0 >= bytes.len() {
            return Err(SpriteParseError::WrongFieldCount);
        }
        let e1 = find_space(bytes, e0 + 1);
        if e1 >= bytes.len() {
            return Err(SpriteParseError::WrongFieldCount);
        }
        let e2 = find_space(bytes, e1 + 1);
        if e2 >= bytes.len() {
            return Err(SpriteParseError::WrongFieldCount);
        }
        let e3 = find_space(bytes, e2 + 1);
        if e3 >= bytes.len() {
            return Err(SpriteParseError::WrongFieldCount);
        }
        let e4 = find_space(bytes, e3 + 1);
        if e4 < bytes.len() {
            return Err(SpriteParseError::WrongFieldCount);
        }
        let a = parse_u32(bytes, e0 + 1, e1);
        let b = parse_u32(bytes, e1 + 1, e2);
        let c = parse_u32(bytes, e2 + 1, e3);
        let d = parse_u32(bytes, e3 + 1, bytes.len());
        match (a, b, c, d) {
            (Some(offset_x), Some(offset_y), Some(width), Some(height)) => {
                proof {
                    encode_utf8_valid_utf8(line@);
                    lemma_field_end_is_space(s, 0);
                    assert(s[e0 as int] == 32u8);
                    is_char_boundary_iff_not_is_continuation_byte(s, e0 as int);
                }
                let (head, _rest) = line.split_at(e0);
                proof {
                    encode_utf8_decode_utf8(head@);
                }
                let name = head.to_owned();
                Ok(SpriteRef { name, offset_x, offset_y, width, height })
            },
            _ => Err(SpriteParseError::BadNumber),
        }
    }

    /// The sprite's area in the sheet. Offsets beyond the `i32` range are out of any
    /// sheet and are clamped to it.
    pub fn rect(&self) -> (r: DisplayRect)
        ensures
            r.top_left.x == if self.offset_x > i32::MAX { i32::MAX as int } else { self.offset_x as int },
            r.top_left.y == if self.offset_y > i32::MAX { i32::MAX as int } else { self.offset_y as int },
            r.width == self.width,
            r.height == self.height,
    {
        let x = if self.offset_x > i32::MAX as u32 { i32::MAX } else { self.offset_x as i32 };
        let y = if self.offset_y > i32::MAX as u32 { i32::MAX } else { self.offset_y as i32 };
        DisplayRect { top_left: DisplayPoint { x, y }, width: self.width, height: self.height }
    }
}

} // verus!
