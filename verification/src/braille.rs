//! Packing blocks of two by four binary samples into Braille glyphs.

use crate::raster::Raster;
use vstd::prelude::*;

verus! {

/// Code point of the Braille pattern without any dot.
pub const BRAILLE_BASE: u32 = 0x2800;

/// Whether a sample counts as a raised dot: at or above the threshold, or,
/// inverted, below it.
pub open spec fn is_on(value: u8, threshold: u8, invert: bool) -> bool {
    if invert {
        value < threshold
    } else {
        value >= threshold
    }
}

/// The binary sample at `(x, y)`: 1 for a raised dot, 0 otherwise and for
/// every position outside the raster.
pub open spec fn bit_at(raster: &Raster, x: int, y: int, threshold: u8, invert: bool) -> int {
    if 0 <= x < raster.width && 0 <= y < raster.height && is_on(
        raster.sample(x, y),
        threshold,
        invert,
    ) {
        1
    } else {
        0
    }
}

/// The dots of the block anchored at `(x, y)` as a number: the left column
/// from the top holds bits 0, 1, 2 and 6, the right column bits 3, 4, 5 and 7.
pub open spec fn mask_at(raster: &Raster, x: int, y: int, threshold: u8, invert: bool) -> int {
    bit_at(raster, x, y, threshold, invert) + 2 * bit_at(raster, x, y + 1, threshold, invert) + 4
        * bit_at(raster, x, y + 2, threshold, invert) + 8 * bit_at(
        raster,
        x + 1,
        y,
        threshold,
        invert,
    ) + 16 * bit_at(raster, x + 1, y + 1, threshold, invert) + 32 * bit_at(
        raster,
        x + 1,
        y + 2,
        threshold,
        invert,
    ) + 64 * bit_at(raster, x, y + 3, threshold, invert) + 128 * bit_at(
        raster,
        x + 1,
        y + 3,
        threshold,
        invert,
    )
}

/// The Braille pattern whose dots are the bits of `mask`.
pub open spec fn glyph_of(mask: int) -> char {
    (BRAILLE_BASE + mask) as char
}

/// Glyphs in a line: one for every two columns of samples, the last of them
/// possibly half filled.
pub open spec fn columns_of(raster: &Raster) -> int {
    (raster.width + 1) / 2
}

/// Lines of text: one for every four rows of samples, the last of them
/// possibly partly filled.
pub open spec fn rows_of(raster: &Raster) -> int {
    (raster.height + 3) / 4
}

/// The text of line `row`: the glyphs of its blocks from left to right.
pub open spec fn line_of(raster: &Raster, row: int, threshold: u8, invert: bool) -> Seq<char> {
    Seq::new(
        columns_of(raster) as nat,
        |j: int| glyph_of(mask_at(raster, 2 * j, 4 * row, threshold, invert)),
    )
}

/// The first `n` glyphs of line `row`.
pub open spec fn line_prefix(raster: &Raster, row: int, n: int, threshold: u8, invert: bool) -> Seq<
    char,
> {
    Seq::new(n as nat, |j: int| glyph_of(mask_at(raster, 2 * j, 4 * row, threshold, invert)))
}

/// Inverting flips every sample inside the raster and leaves the positions
/// outside it at 0, so that a block that lies wholly inside gets the
/// complementary mask.
pub proof fn lemma_invert_complements(raster: &Raster, x: int, y: int, threshold: u8)
    ensures
        0 <= x < raster.width && 0 <= y < raster.height ==> bit_at(raster, x, y, threshold, true)
            + bit_at(raster, x, y, threshold, false) == 1,
        !(0 <= x < raster.width && 0 <= y < raster.height) ==> bit_at(
            raster,
            x,
            y,
            threshold,
            true,
        ) == 0 && bit_at(raster, x, y, threshold, false) == 0,
        0 <= x && x + 1 < raster.width && 0 <= y && y + 3 < raster.height ==> mask_at(
            raster,
            x,
            y,
            threshold,
            true,
        ) + mask_at(raster, x, y, threshold, false) == 255,
{
}

/// Every mask is a byte, so that every glyph lies in the block of Braille
/// patterns, U+2800 to U+28FF.
pub proof fn lemma_glyph_is_braille(raster: &Raster, x: int, y: int, threshold: u8, invert: bool)
    ensures
        0 <= mask_at(raster, x, y, threshold, invert) <= 255,
        0x2800 <= glyph_of(mask_at(raster, x, y, threshold, invert)) as u32 <= 0x28FF,
        glyph_of(mask_at(raster, x, y, threshold, invert)) as u32 == 0x2800 + mask_at(
            raster,
            x,
            y,
            threshold,
            invert,
        ),
{
}

/// `char::from_u32`: the character with the given code point. Every number up
/// to 0x10FFFF outside the surrogate range 0xD800..=0xDFFF is a code point of
/// a character, and no other number is.
#[verifier::external_body]
fn scalar_from_u32(code: u32) -> (c: Option<char>)
    ensures
        (code <= 0xD7FF || 0xE000 <= code <= 0x10FFFF) ==> c == Some(code as char),
        !(code <= 0xD7FF || 0xE000 <= code <= 0x10FFFF) ==> c is None,
{
    char::from_u32(code)
}

/// `String::push`: appends one character to the end of the string.
#[verifier::external_body]
fn push_char(line: &mut String, c: char)
    ensures
        final(line)@ == old(line)@.push(c),
{
    line.push(c)
}

/// Reads one binary sample; positions outside the raster read as 0.
pub fn bit_if_on(raster: &Raster, x: u64, y: u64, threshold: u8, invert: bool) -> (bit: u8)
    requires
        raster.wf(),
    ensures
        bit == bit_at(raster, x as int, y as int, threshold, invert),
        x >= raster.width || y >= raster.height ==> bit == 0,
        bit <= 1,
{
    if x >= raster.width as u64 || y >= raster.height as u64 {
        return 0;
    }
    let v: u8 = raster.get(x as u32, y as u32);
    let on: bool = if invert {
        v < threshold
    } else {
        v >= threshold
    };
    if on {
        1
    } else {
        0
    }
}

/// Packs the block anchored at `(x, y)` into its mask.
pub fn cell_mask(raster: &Raster, x: u32, y: u32, threshold: u8, invert: bool) -> (mask: u8)
    requires
        raster.wf(),
    ensures
        mask == mask_at(raster, x as int, y as int, threshold, invert),
{
    let left: u64 = x as u64;
    let top: u64 = y as u64;
    let b0: u8 = bit_if_on(raster, left, top, threshold, invert);
    let b1: u8 = bit_if_on(raster, left, top + 1, threshold, invert);
    let b2: u8 = bit_if_on(raster, left, top + 2, threshold, invert);
    let b3: u8 = bit_if_on(raster, left + 1, top, threshold, invert);
    let b4: u8 = bit_if_on(raster, left + 1, top + 1, threshold, invert);
    let b5: u8 = bit_if_on(raster, left + 1, top + 2, threshold, invert);
    let b6: u8 = bit_if_on(raster, left, top + 3, threshold, invert);
    let b7: u8 = bit_if_on(raster, left + 1, top + 3, threshold, invert);
    let mask: u8 = b0 | (b1 << 1) | (b2 << 2) | (b3 << 3) | (b4 << 4) | (b5 << 5) | (b6 << 6) | (b7
        << 7);
    assert(mask == b0 + 2 * b1 + 4 * b2 + 8 * b3 + 16 * b4 + 32 * b5 + 64 * b6 + 128 * b7)
        by (bit_vector)
        requires
            mask == b0 | (b1 << 1) | (b2 << 2) | (b3 << 3) | (b4 << 4) | (b5 << 5) | (b6 << 6) | (b7
                << 7),
            b0 <= 1,
            b1 <= 1,
            b2 <= 1,
            b3 <= 1,
            b4 <= 1,
            b5 <= 1,
            b6 <= 1,
            b7 <= 1,
    ;
    mask
}

/// The glyph for a mask: the character `mask` places after U+2800.
pub fn braille_char(mask: u8) -> (c: char)
    ensures
        c == glyph_of(mask as int),
        c as u32 == BRAILLE_BASE + mask,
{
    match scalar_from_u32(BRAILLE_BASE + mask as u32) {
        Some(c) => c,
        None => '\u{2800}',
    }
}

/// Renders line `row` of the picture: the glyphs of the blocks whose top row
/// of samples is `4 * row`.
pub fn render_line(raster: &Raster, row: u32, threshold: u8, invert: bool) -> (line: String)
    requires
        raster.wf(),
        row < rows_of(raster),
    ensures
        line@ == line_of(raster, row as int, threshold, invert),
{
    let columns: u64 = (raster.width as u64 + 1) / 2;
    let top: u32 = 4 * row;
    let mut line = String::new();
    let mut j: u64 = 0;
    assert(line@ =~= line_prefix(raster, row as int, 0, threshold, invert));
    while j < columns
        invariant
            raster.wf(),
            j <= columns,
            columns == columns_of(raster),
            top == 4 * row,
            line@ == line_prefix(raster, row as int, j as int, threshold, invert),
        decreases columns - j,
    {
        let mask: u8 = cell_mask(raster, (2 * j) as u32, top, threshold, invert);
        push_char(&mut line, braille_char(mask));
        assert(line@ =~= line_prefix(raster, row as int, j + 1, threshold, invert));
        j = j + 1;
    }
    assert(line@ =~= line_of(raster, row as int, threshold, invert));
    line
}

/// Renders the picture: one line of text for every four rows of samples, from
/// top to bottom.
pub fn render(raster: &Raster, threshold: u8, invert: bool) -> (lines: Vec<String>)
    requires
        raster.wf(),
    ensures
        lines@.len() == rows_of(raster),
        forall|i: int|
            0 <= i < lines@.len() ==> (#[trigger] lines@[i])@ == line_of(
                raster,
                i,
                threshold,
                invert,
            ),
{
    let rows: u64 = (raster.height as u64 + 3) / 4;
    let mut lines: Vec<String> = Vec::new();
    let mut i: u64 = 0;
    while i < rows
        invariant
            raster.wf(),
            i <= rows,
            rows == rows_of(raster),
            lines@.len() == i,
            forall|k: int|
                0 <= k < lines@.len() ==> (#[trigger] lines@[k])@ == line_of(
                    raster,
                    k,
                    threshold,
                    invert,
                ),
        decreases rows - i,
    {
        let line: String = render_line(raster, i as u32, threshold, invert);
        lines.push(line);
        i = i + 1;
    }
    lines
}

} // verus!
