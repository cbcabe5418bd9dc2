use vstd::prelude::*;

verus! {

/// Glyph width in pixels.
pub const W: usize = 8;

/// Glyph height in pixels.
pub const H: usize = 8;

/// Number of glyphs: the printable ASCII range `0x20..=0x7E`.
pub const GLYPHS: usize = 95;

/// An 8x8 bitmap font covering printable ASCII. Glyph `i` draws the byte
/// `0x20 + i`; each glyph is eight rows, top to bottom, and bit 7 of a row is
/// its leftmost pixel.
pub struct Font {
    glyphs: Vec<[u8; 8]>,
}

/// Index of the glyph that draws byte `c`: printable ASCII maps to its own
/// glyph, anything else to the space glyph.
pub open spec fn glyph_index_spec(c: u8) -> int {
    if 0x20 <= c && c <= 0x7E {
        c - 0x20
    } else {
        0
    }
}

impl Font {
    #[verifier::type_invariant]
    pub(crate) open spec fn complete(self) -> bool {
        self@.len() == GLYPHS
    }

    /// The glyph table.
    pub closed spec fn view(&self) -> Seq<[u8; 8]> {
        self.glyphs@
    }

    /// Builds a font from its glyph table; `None` unless the table holds
    /// exactly one glyph for each of the 95 printable ASCII bytes.
    pub fn from_glyphs(glyphs: Vec<[u8; 8]>) -> (r: Option<Font>)
        ensures
            r is Some <==> glyphs@.len() == GLYPHS,
            r matches Some(f) ==> f@ == glyphs@,
    {
        if glyphs.len() == GLYPHS {
            Some(Font { glyphs })
        } else {
            None
        }
    }

    /// The number of glyphs, always 95.
    pub fn len(&self) -> (n: usize)
        ensures
            n == self@.len(),
            n == GLYPHS,
    {
        proof {
            use_type_invariant(self);
        }
        self.glyphs.len()
    }

    /// The rows of the glyph that draws byte `c`.
    pub fn glyph(&self, c: u8) -> (g: [u8; 8])
        ensures
            g == self@[glyph_index_spec(c)],
    {
        proof {
            use_type_invariant(self);
        }
        self.glyphs[glyph_index(c)]
    }
}

/// Index of the glyph that draws byte `c`.
pub fn glyph_index(c: u8) -> (i: usize)
    ensures
        i == glyph_index_spec(c),
        i < GLYPHS,
{
    if 0x20 <= c && c <= 0x7E {
        (c - 0x20) as usize
    } else {
        0
    }
}

} // verus!
