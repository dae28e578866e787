//! Display colours, as red, green and blue components, and the named
//! colours of the palette that the game uses.

use vstd::prelude::*;

verus! {

/// A colour, by its three components.
#[derive(Clone, Copy, Debug, PartialEq, Eq, Structural)]
pub struct Color {
    pub r: u8,
    pub g: u8,
    pub b: u8,
}

/// The colour black, in contracts.
pub open spec fn spec_black() -> Color {
    Color { r: 0, g: 0, b: 0 }
}

/// The colour black.
#[verifier::when_used_as_spec(spec_black)]
pub fn black() -> (c: Color)
    ensures
        c == spec_black(),
{
    Color { r: 0, g: 0, b: 0 }
}

/// The colour white, in contracts.
pub open spec fn spec_white() -> Color {
    Color { r: 255, g: 255, b: 255 }
}

/// The colour white.
#[verifier::when_used_as_spec(spec_white)]
pub fn white() -> (c: Color)
    ensures
        c == spec_white(),
{
    Color { r: 255, g: 255, b: 255 }
}

/// The colour light grey, in contracts.
pub open spec fn spec_light_grey() -> Color {
    Color { r: 159, g: 159, b: 159 }
}

/// The colour light grey.
#[verifier::when_used_as_spec(spec_light_grey)]
pub fn light_grey() -> (c: Color)
    ensures
        c == spec_light_grey(),
{
    Color { r: 159, g: 159, b: 159 }
}

/// The colour red, in contracts.
pub open spec fn spec_red() -> Color {
    Color { r: 255, g: 0, b: 0 }
}

/// The colour red.
#[verifier::when_used_as_spec(spec_red)]
pub fn red() -> (c: Color)
    ensures
        c == spec_red(),
{
    Color { r: 255, g: 0, b: 0 }
}

/// The colour light red, in contracts.
pub open spec fn spec_light_red() -> Color {
    Color { r: 255, g: 63, b: 63 }
}

/// The colour light red.
#[verifier::when_used_as_spec(spec_light_red)]
pub fn light_red() -> (c: Color)
    ensures
        c == spec_light_red(),
{
    Color { r: 255, g: 63, b: 63 }
}

/// The colour dark red, in contracts.
pub open spec fn spec_dark_red() -> Color {
    Color { r: 191, g: 0, b: 0 }
}

/// The colour dark red.
#[verifier::when_used_as_spec(spec_dark_red)]
pub fn dark_red() -> (c: Color)
    ensures
        c == spec_dark_red(),
{
    Color { r: 191, g: 0, b: 0 }
}

/// The colour darker red, in contracts.
pub open spec fn spec_darker_red() -> Color {
    Color { r: 127, g: 0, b: 0 }
}

/// The colour darker red.
#[verifier::when_used_as_spec(spec_darker_red)]
pub fn darker_red() -> (c: Color)
    ensures
        c == spec_darker_red(),
{
    Color { r: 127, g: 0, b: 0 }
}

/// The colour orange, in contracts.
pub open spec fn spec_orange() -> Color {
    Color { r: 255, g: 127, b: 0 }
}

/// The colour orange.
#[verifier::when_used_as_spec(spec_orange)]
pub fn orange() -> (c: Color)
    ensures
        c == spec_orange(),
{
    Color { r: 255, g: 127, b: 0 }
}

/// The colour darker orange, in contracts.
pub open spec fn spec_darker_orange() -> Color {
    Color { r: 127, g: 63, b: 0 }
}

/// The colour darker orange.
#[verifier::when_used_as_spec(spec_darker_orange)]
pub fn darker_orange() -> (c: Color)
    ensures
        c == spec_darker_orange(),
{
    Color { r: 127, g: 63, b: 0 }
}

/// The colour yellow, in contracts.
pub open spec fn spec_yellow() -> Color {
    Color { r: 255, g: 255, b: 0 }
}

/// The colour yellow.
#[verifier::when_used_as_spec(spec_yellow)]
pub fn yellow() -> (c: Color)
    ensures
        c == spec_yellow(),
{
    Color { r: 255, g: 255, b: 0 }
}

/// The colour light yellow, in contracts.
pub open spec fn spec_light_yellow() -> Color {
    Color { r: 255, g: 255, b: 63 }
}

/// The colour light yellow.
#[verifier::when_used_as_spec(spec_light_yellow)]
pub fn light_yellow() -> (c: Color)
    ensures
        c == spec_light_yellow(),
{
    Color { r: 255, g: 255, b: 63 }
}

/// The colour green, in contracts.
pub open spec fn spec_green() -> Color {
    Color { r: 0, g: 255, b: 0 }
}

/// The colour green.
#[verifier::when_used_as_spec(spec_green)]
pub fn green() -> (c: Color)
    ensures
        c == spec_green(),
{
    Color { r: 0, g: 255, b: 0 }
}

/// The colour light green, in contracts.
pub open spec fn spec_light_green() -> Color {
    Color { r: 63, g: 255, b: 63 }
}

/// The colour light green.
#[verifier::when_used_as_spec(spec_light_green)]
pub fn light_green() -> (c: Color)
    ensures
        c == spec_light_green(),
{
    Color { r: 63, g: 255, b: 63 }
}

/// The colour darker green, in contracts.
pub open spec fn spec_darker_green() -> Color {
    Color { r: 0, g: 127, b: 0 }
}

/// The colour darker green.
#[verifier::when_used_as_spec(spec_darker_green)]
pub fn darker_green() -> (c: Color)
    ensures
        c == spec_darker_green(),
{
    Color { r: 0, g: 127, b: 0 }
}

/// The colour desaturated green, in contracts.
pub open spec fn spec_desaturated_green() -> Color {
    Color { r: 63, g: 127, b: 63 }
}

/// The colour desaturated green.
#[verifier::when_used_as_spec(spec_desaturated_green)]
pub fn desaturated_green() -> (c: Color)
    ensures
        c == spec_desaturated_green(),
{
    Color { r: 63, g: 127, b: 63 }
}

/// The colour light cyan, in contracts.
pub open spec fn spec_light_cyan() -> Color {
    Color { r: 63, g: 255, b: 255 }
}

/// The colour light cyan.
#[verifier::when_used_as_spec(spec_light_cyan)]
pub fn light_cyan() -> (c: Color)
    ensures
        c == spec_light_cyan(),
{
    Color { r: 63, g: 255, b: 255 }
}

/// The colour sky blue, in contracts.
pub open spec fn spec_sky() -> Color {
    Color { r: 0, g: 191, b: 255 }
}

/// The colour sky blue.
#[verifier::when_used_as_spec(spec_sky)]
pub fn sky() -> (c: Color)
    ensures
        c == spec_sky(),
{
    Color { r: 0, g: 191, b: 255 }
}

/// The colour light blue, in contracts.
pub open spec fn spec_light_blue() -> Color {
    Color { r: 63, g: 63, b: 255 }
}

/// The colour light blue.
#[verifier::when_used_as_spec(spec_light_blue)]
pub fn light_blue() -> (c: Color)
    ensures
        c == spec_light_blue(),
{
    Color { r: 63, g: 63, b: 255 }
}

/// The colour violet, in contracts.
pub open spec fn spec_violet() -> Color {
    Color { r: 127, g: 0, b: 255 }
}

/// The colour violet.
#[verifier::when_used_as_spec(spec_violet)]
pub fn violet() -> (c: Color)
    ensures
        c == spec_violet(),
{
    Color { r: 127, g: 0, b: 255 }
}

/// The colour light violet, in contracts.
pub open spec fn spec_light_violet() -> Color {
    Color { r: 159, g: 63, b: 255 }
}

/// The colour light violet.
#[verifier::when_used_as_spec(spec_light_violet)]
pub fn light_violet() -> (c: Color)
    ensures
        c == spec_light_violet(),
{
    Color { r: 159, g: 63, b: 255 }
}

} // verus!
