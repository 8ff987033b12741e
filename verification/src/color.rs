//! The colours of the cells: cursive's `ColorStyle`, and the little that
//! the library takes on trust about it.
use cursive::style::{Color, ColorStyle};
use vstd::prelude::*;

verus! {

/// cursive's `ColorStyle`. The library carries such values from the caller
/// to the cells and back, and never looks inside one.
#[verifier::external_type_specification]
#[verifier::external_body]
pub struct ExColorStyle(ColorStyle);

/// The style that cursive's `ColorStyle::new` makes of a front colour
/// `Color::Rgb(fr, fg, fb)` and a back colour `Color::Rgb(br, bg, bb)`.
/// Nothing is said of it but that the same six numbers give the same style.
pub uninterp spec fn rgb_style(fr: u8, fg: u8, fb: u8, br: u8, bg: u8, bb: u8) -> ColorStyle;

/// Calls cursive's `ColorStyle::new` with two true colours. That the result
/// is the style which `rgb_style` names is taken on trust.
#[verifier::external_body]
pub(crate) fn make_rgb_style(fr: u8, fg: u8, fb: u8, br: u8, bg: u8, bb: u8) -> (style: ColorStyle)
    ensures
        style == rgb_style(fr, fg, fb, br, bg, bb),
{
    ColorStyle::new(Color::Rgb(fr, fg, fb), Color::Rgb(br, bg, bb))
}

/// Compares two styles with the `==` that cursive derives for `ColorStyle`,
/// which compares front with front and back with back. That it says yes
/// exactly of equal styles is taken on trust.
#[verifier::external_body]
pub(crate) fn same_color(a: &ColorStyle, b: &ColorStyle) -> (same: bool)
    ensures
        same == (*a == *b),
{
    a == b
}

} // verus!
