//! Pixel-buffer types and output formats.
//!
//! Serializing a buffer to disk is the caller's business; the tracer only
//! produces the row-major buffer and names the formats a caller may choose.

use crate::vec3::{append_u8, dec_chars};
use vstd::prelude::*;

verus! {

/// One 8-bit RGB pixel.
pub type Pixel = (u8, u8, u8);

/// A row-major pixel buffer: `height` rows of `width` pixels.
pub type Img = Vec<Vec<Pixel>>;

/// The output encodings a caller can ask for.
#[derive(Debug, Clone, Copy, PartialEq, Eq, Structural)]
pub enum FileFormat {
    PPM,
    PNG,
}

/// One plain-text pixel line, `"R G B"` in decimal, for the portable
/// pixmap encoding.
pub fn pixel_line(p: Pixel) -> (s: String)
    ensures
        s@ == dec_chars(p.0 as int) + seq![' '] + dec_chars(p.1 as int) + seq![' '] + dec_chars(
            p.2 as int,
        ),
{
    let mut s = String::new();
    append_u8(&mut s, p.0);
    proof {
        reveal_strlit(" ");
    }
    s.append(" ");
    append_u8(&mut s, p.1);
    s.append(" ");
    append_u8(&mut s, p.2);
    proof {
        assert(s@ =~= dec_chars(p.0 as int) + seq![' '] + dec_chars(p.1 as int) + seq![' ']
            + dec_chars(p.2 as int));
    }
    s
}

} // verus!
