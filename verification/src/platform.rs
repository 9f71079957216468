//! The window-style bits that make the overlay window frameless and let mouse
//! input pass through it.
use vstd::prelude::*;

verus! {

/// `style` without the thick-frame and border bits.
pub fn frameless_style(style: i32, thickframe: i32, border: i32) -> (r: i32)
    ensures
        r == style & !(thickframe | border),
{
    style & !(thickframe | border)
}

/// `ex_style` with the layered bit added, and the transparent bit cleared and then set.
pub fn passthrough_ex_style(ex_style: i32, layered: i32, transparent: i32) -> (r: i32)
    ensures
        r == (ex_style | layered) & !transparent | transparent,
{
    (ex_style | layered) & !transparent | transparent
}

/// The frameless style has neither frame bit, and keeps every other bit of the style.
pub proof fn law_frameless_style(style: i32, thickframe: i32, border: i32)
    ensures
        (style & !(thickframe | border)) & thickframe == 0,
        (style & !(thickframe | border)) & border == 0,
        (style & !(thickframe | border)) | (style & (thickframe | border)) == style,
{
    assert((style & !(thickframe | border)) & thickframe == 0) by (bit_vector);
    assert((style & !(thickframe | border)) & border == 0) by (bit_vector);
    assert((style & !(thickframe | border)) | (style & (thickframe | border)) == style) by (bit_vector);
}

/// The pass-through style has both the layered and the transparent bit, and keeps every
/// other bit of the extended style.
pub proof fn law_passthrough_ex_style(ex_style: i32, layered: i32, transparent: i32)
    ensures
        ((ex_style | layered) & !transparent | transparent) & layered == layered,
        ((ex_style | layered) & !transparent | transparent) & transparent == transparent,
        ((ex_style | layered) & !transparent | transparent) == ex_style | layered | transparent,
{
    assert(((ex_style | layered) & !transparent | transparent) & layered == layered) by (bit_vector);
    assert(((ex_style | layered) & !transparent | transparent) & transparent == transparent) by (bit_vector);
    assert(((ex_style | layered) & !transparent | transparent) == ex_style | layered | transparent) by (bit_vector);
}

} // verus!
