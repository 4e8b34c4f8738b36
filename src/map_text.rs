//! Reading a tile map from its text form.
//!
//! The text holds the width on its first line, the height on its second, then `height`
//! rows of exactly `width` cells each: `X` for an obstacle, `O` for an empty tile.
//! Lines end with `\n` or `\r\n`; the last line needs no ending.
use vstd::prelude::*;
use crate::map::{GridTile, TileMap};

verus! {

/// Why a map text was refused.
#[derive(Clone, Copy, Debug, PartialEq, Eq, Structural)]
pub enum MapLoadError {
    MissingWidth,
    BadWidth,
    MissingHeight,
    BadHeight,
    /// The text ends before row `row` (counted from 0).
    MissingRow { row: u32 },
    /// Row `row` has `len` cells where `expected` were due.
    RowLength { row: u32, len: usize, expected: u32 },
    /// Row `row` holds a character other than `X` and `O`.
    BadTile { row: u32 },
}

/// Index of the first `\n` at or after `start`, or the length of the text.
pub open spec fn line_end(s: Seq<u8>, start: int) -> int
    decreases s.len() - start,
{
    if start >= s.len() || start < 0 {
        s.len() as int
    } else if s[start] == 10u8 {
        start
    } else {
        line_end(s, start + 1)
    }
}

/// The line that begins at `start`, without its ending.
pub open spec fn line_at(s: Seq<u8>, start: int) -> Seq<u8> {
    let e = line_end(s, start);
    if e < s.len() && e > start && s[e - 1] == 13u8 {
        s.subrange(start, e - 1)
    } else {
        s.subrange(start, e)
    }
}

pub open spec fn next_line(s: Seq<u8>, start: int) -> int {
    line_end(s, start) + 1
}

/// Where the `i`-th line after the one at `first` begins.
pub open spec fn row_start(s: Seq<u8>, first: int, i: nat) -> int
    decreases i,
{
    if i == 0 {
        first
    } else {
        next_line(s, row_start(s, first, (i - 1) as nat))
    }
}

pub open spec fn is_digit(c: u8) -> bool {
    48u8 <= c <= 57u8
}

pub open spec fn all_digits(s: Seq<u8>) -> bool {
    forall|j: int| 0 <= j < s.len() ==> is_digit(#[trigger] s[j])
}

/// The decimal value of a string of digits.
pub open spec fn digits_value(s: Seq<u8>) -> int
    decreases s.len(),
{
    if s.len() == 0 {
        0
    } else {
        digits_value(s.drop_last()) * 10 + (s.last() - 48)
    }
}

/// A `u32` written in decimal, with an optional leading `+`.
pub open spec fn parse_u32_spec(s: Seq<u8>) -> Option<u32> {
    let d = if s.len() > 0 && s[0] == 43u8 {
        s.drop_first()
    } else {
        s
    };
    if d.len() > 0 && all_digits(d) && digits_value(d) <= u32::MAX {
        Some(digits_value(d) as u32)
    } else {
        None
    }
}

pub open spec fn is_tile_char(c: u8) -> bool {
    c == 88u8 || c == 79u8
}

pub open spec fn tile_of_char(c: u8) -> GridTile {
    if c == 88u8 {
        GridTile::Obstacle
    } else {
        GridTile::Empty
    }
}

pub open spec fn row_tiles(row: Seq<u8>) -> Seq<GridTile> {
    row.map_values(|c: u8| tile_of_char(c))
}

/// The tiles of the first `i` rows, the rows starting at `first`, or the error the
/// first faulty one of them gives.
pub open spec fn rows_upto(s: Seq<u8>, width: u32, first: int, i: nat) -> Result<
    Seq<GridTile>,
    MapLoadError,
>
    decreases i,
{
    if i == 0 {
        Ok(Seq::empty())
    } else {
        match rows_upto(s, width, first, (i - 1) as nat) {
            Err(e) => Err(e),
            Ok(t) => {
                let st = row_start(s, first, (i - 1) as nat);
                let row = line_at(s, st);
                if st >= s.len() {
                    Err(MapLoadError::MissingRow { row: (i - 1) as u32 })
                } else if row.len() != width {
                    Err(
                        MapLoadError::RowLength {
                            row: (i - 1) as u32,
                            len: row.len() as usize,
                            expected: width,
                        },
                    )
                } else if !(forall|j: int| 0 <= j < row.len() ==> is_tile_char(#[trigger] row[j])) {
                    Err(MapLoadError::BadTile { row: (i - 1) as u32 })
                } else {
                    Ok(t + row_tiles(row))
                }
            },
        }
    }
}

/// What a map text describes: width, height and the tiles row after row, or the error.
pub open spec fn parse_map_spec(s: Seq<u8>) -> Result<(u32, u32, Seq<GridTile>), MapLoadError> {
    if s.len() == 0 {
        Err(MapLoadError::MissingWidth)
    } else {
        match parse_u32_spec(line_at(s, 0)) {
            None => Err(MapLoadError::BadWidth),
            Some(w) => {
                let l1 = next_line(s, 0);
                if l1 >= s.len() {
                    Err(MapLoadError::MissingHeight)
                } else {
                    match parse_u32_spec(line_at(s, l1)) {
                        None => Err(MapLoadError::BadHeight),
                        Some(h) => match rows_upto(s, w, next_line(s, l1), h as nat) {
                            Err(e) => Err(e),
                            Ok(t) => Ok((w, h, t)),
                        },
                    }
                }
            },
        }
    }
}

proof fn lemma_line_end_bounds(s: Seq<u8>, start: int)
    requires
        0 <= start,
    ensures
        start <= line_end(s, start) <= s.len() || (start > s.len() && line_end(s, start) == s.len()),
        line_end(s, start) < s.len() ==> s[line_end(s, start)] == 10u8,
    decreases s.len() - start,
{
    if start < s.len() && s[start] != 10u8 {
        lemma_line_end_bounds(s, start + 1);
    }
}

fn find_line_end(text: &[u8], start: usize) -> (e: usize)
    requires
        start <= text@.len(),
    ensures
        e == line_end(text@, start as int),
        start <= e <= text@.len(),
{
    let mut i = start;
    while i < text.len() && text[i] != 10u8
        invariant
            start <= i <= text@.len(),
            line_end(text@, start as int) == line_end(text@, i as int),
        decreases text@.len() - i,
    {
        i = i + 1;
    }
    i
}

/// End of the line's content: the `\r` of a `\r\n` ending left out.
fn content_end(text: &[u8], start: usize, e: usize) -> (ce: usize)
    requires
        start <= e <= text@.len(),
        e == line_end(text@, start as int),
    ensures
        start <= ce <= e,
        text@.subrange(start as int, ce as int) == line_at(text@, start as int),
{
    if e < text.len() && e > start && text[e - 1] == 13u8 {
        e - 1
    } else {
        e
    }
}

proof fn lemma_digits_prefix(s: Seq<u8>, k: int)
    requires
        0 <= k <= s.len(),
        all_digits(s),
    ensures
        0 <= digits_value(s.subrange(0, k)) <= digits_value(s),
    decreases s.len(),
{
    if k < s.len() {
        assert(s.drop_last().subrange(0, k) =~= s.subrange(0, k));
        lemma_digits_prefix(s.drop_last(), k);
        lemma_digits_prefix(s.drop_last(), s.len() - 1);
        assert(s.drop_last().subrange(0, s.len() - 1) =~= s.drop_last());
    } else {
        assert(s.subrange(0, k) =~= s);
        if s.len() > 0 {
            lemma_digits_prefix(s.drop_last(), s.len() - 1);
            assert(s.drop_last().subrange(0, s.len() - 1) =~= s.drop_last());
        }
    }
}

/// Reads the decimal `u32` that fills `text[start..end]`.
pub(crate) fn parse_u32(text: &[u8], start: usize, end: usize) -> (r: Option<u32>)
    requires
        start <= end <= text@.len(),
    ensures
        r == parse_u32_spec(text@.subrange(start as int, end as int)),
{
    let ghost s = text@.subrange(start as int, end as int);
    let mut i = start;
    if i < end && text[i] == 43u8 {
        i = i + 1;
    }
    let ghost d = text@.subrange(i as int, end as int);
    assert(d == if s.len() > 0 && s[0] == 43u8 { s.drop_first() } else { s });
    if i == end {
        return None;
    }
    let first = i;
    let mut acc: u64 = 0;
    while i < end
        invariant
            first <= i <= end <= text@.len(),
            d == text@.subrange(first as int, end as int),
            s == text@.subrange(start as int, end as int),
            d == if s.len() > 0 && s[0] == 43u8 {
                s.drop_first()
            } else {
                s
            },
            acc == digits_value(text@.subrange(first as int, i as int)),
            acc <= u32::MAX,
            all_digits(text@.subrange(first as int, i as int)),
        decreases end - i,
    {
        let c = text[i];
        assert(text@.subrange(first as int, i + 1).drop_last() =~= text@.subrange(
            first as int,
            i as int,
        ));
        if c < 48u8 || c > 57u8 {
            assert(d[(i - first) as int] == c);
            assert(!is_digit(d[(i - first) as int]));
            return None;
        }
        assert(text@.subrange(first as int, i + 1).last() == c);
        acc = acc * 10 + (c - 48u8) as u64;
        assert(acc == digits_value(text@.subrange(first as int, i + 1)));
        assert(all_digits(text@.subrange(first as int, i + 1)));
        if acc > u32::MAX as u64 {
            proof {
                if all_digits(d) {
                    assert(d.subrange(0, i + 1 - first) =~= text@.subrange(first as int, i + 1));
                    lemma_digits_prefix(d, i + 1 - first);
                }
            }
            return None;
        }
        i = i + 1;
    }
    assert(text@.subrange(first as int, i as int) =~= d);
    Some(acc as u32)
}

proof fn lemma_rows_err_persists(s: Seq<u8>, width: u32, first: int, i: nat, j: nat)
    requires
        rows_upto(s, width, first, i) is Err,
        i <= j,
    ensures
        rows_upto(s, width, first, j) == rows_upto(s, width, first, i),
    decreases j - i,
{
    if i < j {
        lemma_rows_err_persists(s, width, first, i, (j - 1) as nat);
    }
}

impl TileMap {
    /// Reads a map from its text form.
    pub fn from_text(text: &[u8]) -> (r: Result<TileMap, MapLoadError>)
        ensures
            match parse_map_spec(text@) {
                Ok((w, h, t)) => r matches Ok(m) && m.width == w && m.height == h && m.grid_tiles@
                    == t && m.wf(),
                Err(e) => r matches Err(re) && re == e,
            },
    {
        let ghost s = text@;
        if text.len() == 0 {
            return Err(MapLoadError::MissingWidth);
        }
        let e0 = find_line_end(text, 0);
        let c0 = content_end(text, 0, e0);
        let width = match parse_u32(text, 0, c0) {
            None => {
                return Err(MapLoadError::BadWidth);
            },
            Some(w) => w,
        };
        if e0 >= text.len() || e0 + 1 >= text.len() {
            return Err(MapLoadError::MissingHeight);
        }
        let l1 = e0 + 1;
        let e1 = find_line_end(text, l1);
        let c1 = content_end(text, l1, e1);
        let height = match parse_u32(text, l1, c1) {
            None => {
                return Err(MapLoadError::BadHeight);
            },
            Some(h) => h,
        };
        let ghost first = next_line(s, l1 as int);
        let mut pos: usize = if e1 < text.len() {
            e1 + 1
        } else {
            text.len()
        };
        let mut grid_tiles: Vec<GridTile> = Vec::new();
        let mut i: u32 = 0;
        while i < height
            invariant
                s == text@,
                first == next_line(s, l1 as int),
                0 <= i <= height,
                pos <= s.len(),
                pos == row_start(s, first, i as nat) || (pos == s.len() && row_start(
                    s,
                    first,
                    i as nat,
                ) >= s.len()),
                rows_upto(s, width, first, i as nat) == Ok::<Seq<GridTile>, MapLoadError>(
                    grid_tiles@,
                ),
                grid_tiles@.len() == i * width,
                parse_map_spec(s) == match rows_upto(s, width, first, height as nat) {
                    Err(e) => Err(e),
                    Ok(t) => Ok((width, height, t)),
                },
            decreases height - i,
        {
            if pos >= text.len() {
                proof {
                    lemma_rows_err_persists(s, width, first, (i + 1) as nat, height as nat);
                }
                return Err(MapLoadError::MissingRow { row: i });
            }
            let e = find_line_end(text, pos);
            let ce = content_end(text, pos, e);
            if ce - pos != width as usize {
                proof {
                    lemma_rows_err_persists(s, width, first, (i + 1) as nat, height as nat);
                }
                return Err(MapLoadError::RowLength { row: i, len: ce - pos, expected: width });
            }
            let ghost prev = grid_tiles@;
            let ghost row = line_at(s, pos as int);
            let mut k = pos;
            while k < ce
                invariant
                    s == text@,
                    pos <= k <= ce <= s.len(),
                    row == s.subrange(pos as int, ce as int),
                    grid_tiles@ == prev + row_tiles(s.subrange(pos as int, k as int)),
                    forall|j: int| pos <= j < k ==> is_tile_char(#[trigger] s[j]),
                    ce - pos == width,
                    pos < s.len(),
                    pos == row_start(s, first, i as nat),
                    i < height,
                    e == line_end(s, pos as int),
                    row == line_at(s, pos as int),
                    rows_upto(s, width, first, i as nat) == Ok::<Seq<GridTile>, MapLoadError>(prev),
                    prev.len() == i * width,
                    first == next_line(s, l1 as int),
                    parse_map_spec(s) == match rows_upto(s, width, first, height as nat) {
                        Err(e) => Err(e),
                        Ok(t) => Ok((width, height, t)),
                    },
                decreases ce - k,
            {
                let c = text[k];
                assert(row_tiles(s.subrange(pos as int, k + 1)) =~= row_tiles(
                    s.subrange(pos as int, k as int),
                ).push(tile_of_char(c)));
                if c == 88u8 {
                    grid_tiles.push(GridTile::Obstacle);
                } else if c == 79u8 {
                    grid_tiles.push(GridTile::Empty);
                } else {
                    assert(row[k - pos] == c);
                    assert(!is_tile_char(row[k - pos]));
                    proof {
                        lemma_rows_err_persists(s, width, first, (i + 1) as nat, height as nat);
                    }
                    return Err(MapLoadError::BadTile { row: i });
                }
                k = k + 1;
            }
            assert forall|j: int| 0 <= j < row.len() implies is_tile_char(#[trigger] row[j]) by {
                assert(row[j] == s[pos + j]);
            }
            assert(grid_tiles@ == prev + row_tiles(row));
            assert(grid_tiles@.len() == (i + 1) * width) by (nonlinear_arith)
                requires
                    grid_tiles@.len() == prev.len() + width,
                    prev.len() == i * width,
            ;
            pos = if e < text.len() {
                e + 1
            } else {
                text.len()
            };
            i = i + 1;
        }
        assert(grid_tiles@.len() == width * height) by (nonlinear_arith)
            requires
                grid_tiles@.len() == i * width,
                i == height,
        ;
        Ok(TileMap { width, height, grid_tiles })
    }
}

} // verus!
