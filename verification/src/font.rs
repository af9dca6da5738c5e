//! The vector font: ninety-five glyphs of points and line pairs.
use vstd::prelude::*;
use crate::assets::Asset;

verus! {

/// One glyph: grid points and index pairs of lines between them.
pub struct Glyph {
    pub points: Vec<(u8, u8)>,
    pub lines: Vec<(u8, u8)>,
}

/// Every line endpoint names an existing point.
pub open spec fn glyph_wf(g: Glyph) -> bool {
    forall|i: int|
        0 <= i < g.lines@.len() ==> ((#[trigger] g.lines@[i]).0 as int) < g.points@.len() && (
        g.lines@[i].1 as int) < g.points@.len()
}

/// Whether the bytes from `pos` hold a complete glyph record: a count
/// byte (low bits points, high bits lines), the packed points, and line
/// index pairs all below the point count.
pub open spec fn glyph_format_ok(data: Seq<u8>, pos: int) -> bool {
    &&& 0 <= pos < data.len()
    &&& ({
        let np = (data[pos] & 15) as int;
        let nl = (data[pos] >> 4) as int;
        &&& pos + 1 + np + nl <= data.len()
        &&& forall|k: int|
            0 <= k < nl ==> (((#[trigger] data[pos + 1 + np + k]) & 15) as int) < np && ((data[pos
                + 1 + np + k] >> 4) as int) < np
    })
}

/// Where a glyph record starting at `pos` ends.
pub open spec fn glyph_end(data: Seq<u8>, pos: int) -> int {
    pos + 1 + ((data[pos] & 15) as int) + ((data[pos] >> 4) as int)
}

impl Glyph {
    /// Loads one glyph. Succeeds exactly when the bytes at the cursor
    /// form a complete record whose line indices stay below the point
    /// count; the cursor then stands at the record's end.
    pub fn load(asset: &mut Asset) -> (r: Option<Glyph>)
        ensures
            final(asset).data() == old(asset).data(),
            r is Some <==> glyph_format_ok(old(asset).data(), old(asset).pos()),
            r is Some ==> glyph_wf(r->Some_0) && r->Some_0.points@.len() == ((old(asset).data()[old(
                asset,
            ).pos()] & 15) as int) && r->Some_0.lines@.len() == ((old(asset).data()[old(
                asset,
            ).pos()] >> 4) as int) && final(asset).pos() == glyph_end(
                old(asset).data(),
                old(asset).pos(),
            ),
    {
        proof {
            asset.lemma_pos_nonneg();
        }
        let ghost p0 = asset.pos();
        let ranges = match asset.read_byte() {
            Some(b) => b,
            None => {
                proof {
                    assert(!glyph_format_ok(old(asset).data(), p0));
                }
                return None;
            },
        };
        let num_points = (ranges & 15) as usize;
        let num_lines = (ranges >> 4) as usize;
        proof {
            assert((ranges & 15) <= 15 && (ranges >> 4) <= 15) by (bit_vector);
        }
        let ghost np = num_points as int;
        let ghost nl = num_lines as int;
        let mut points: Vec<(u8, u8)> = Vec::new();
        let mut i: usize = 0;
        while i < num_points
            invariant
                i <= num_points,
                points@.len() == i,
                asset.data() == old(asset).data(),
                np == num_points as int,
                nl == num_lines as int,
                0 <= p0,
                p0 == old(asset).pos(),
                p0 < old(asset).data().len(),
                (old(asset).data()[p0] & 15) as int == np,
                (old(asset).data()[p0] >> 4) as int == nl,
                asset.pos() == p0 + 1 + i,
                asset.pos() <= old(asset).data().len(),
            decreases num_points - i,
        {
            let p = match asset.read_byte() {
                Some(b) => b,
                None => {
                    proof {
                        assert(!glyph_format_ok(old(asset).data(), p0));
                    }
                    return None;
                },
            };
            points.push((p & 15, p >> 4));
            i += 1;
        }
        let mut lines: Vec<(u8, u8)> = Vec::new();
        let mut j: usize = 0;
        while j < num_lines
            invariant
                j <= num_lines,
                lines@.len() == j,
                points@.len() == np,
                asset.data() == old(asset).data(),
                np == num_points as int,
                nl == num_lines as int,
                np <= 15,
                0 <= p0,
                p0 == old(asset).pos(),
                p0 < old(asset).data().len(),
                (old(asset).data()[p0] & 15) as int == np,
                (old(asset).data()[p0] >> 4) as int == nl,
                asset.pos() == p0 + 1 + np + j,
                asset.pos() <= old(asset).data().len(),
                forall|k: int|
                    0 <= k < j ==> (((#[trigger] old(asset).data()[p0 + 1 + np + k]) & 15) as int)
                        < np && ((old(asset).data()[p0 + 1 + np + k] >> 4) as int) < np,
                forall|k: int|
                    0 <= k < j ==> ((#[trigger] lines@[k]).0 as int) < np && (lines@[k].1 as int)
                        < np,
            decreases num_lines - j,
        {
            let p = match asset.read_byte() {
                Some(b) => b,
                None => {
                    proof {
                        assert(!glyph_format_ok(old(asset).data(), p0));
                    }
                    return None;
                },
            };
            let a = p & 15;
            let b = p >> 4;
            if a as usize >= num_points || b as usize >= num_points {
                proof {
                    assert(!glyph_format_ok(old(asset).data(), p0));
                }
                return None;
            }
            lines.push((a, b));
            j += 1;
        }
        proof {
            assert(glyph_format_ok(old(asset).data(), p0));
        }
        Some(Glyph { points, lines })
    }
}

/// Whether `count` glyph records parse back to back from `pos`.
pub open spec fn glyphs_format_ok(data: Seq<u8>, pos: int, count: nat) -> bool
    decreases count,
{
    count == 0 || (glyph_format_ok(data, pos) && glyphs_format_ok(
        data,
        glyph_end(data, pos),
        (count - 1) as nat,
    ))
}

/// The ninety-five printable-character glyphs.
pub struct Font {
    pub glyphs: Vec<Glyph>,
}

/// A loaded font has one well-formed glyph per printable character.
pub open spec fn font_wf(f: Font) -> bool {
    &&& f.glyphs@.len() == 95
    &&& forall|i: int| 0 <= i < f.glyphs@.len() ==> glyph_wf(#[trigger] f.glyphs@[i])
}

impl Font {
    /// Loads the font: exactly ninety-five glyphs back to back. Succeeds
    /// exactly when ninety-five well-formed glyph records parse in
    /// sequence from the cursor.
    pub fn new(asset: &mut Asset) -> (r: Option<Font>)
        ensures
            final(asset).data() == old(asset).data(),
            r is Some <==> glyphs_format_ok(old(asset).data(), old(asset).pos(), 95),
            r is Some ==> font_wf(r->Some_0),
    {
        let ghost p0 = asset.pos();
        let mut glyphs: Vec<Glyph> = Vec::new();
        let mut i: usize = 0;
        while i < 95
            invariant
                i <= 95,
                glyphs@.len() == i,
                asset.data() == old(asset).data(),
                p0 == old(asset).pos(),
                forall|k: int| 0 <= k < i ==> glyph_wf(#[trigger] glyphs@[k]),
                glyphs_format_ok(old(asset).data(), p0, 95) <==> glyphs_format_ok(
                    old(asset).data(),
                    asset.pos(),
                    (95 - i) as nat,
                ),
            decreases 95 - i,
        {
            let g = match Glyph::load(asset) {
                Some(g) => g,
                None => {
                    return None;
                },
            };
            glyphs.push(g);
            i += 1;
        }
        Some(Font { glyphs })
    }
}

} // verus!
