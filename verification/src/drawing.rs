//! Options of drawing operations.

use vstd::prelude::*;

verus! {

/// Position of a border relative to the shape boundary.
#[derive(Debug, Clone, Copy, Eq, PartialEq, Structural)]
pub enum BorderPosition {
    /// Draw the border inside the shape boundary.
    Inside,
    /// Draw the border outside the shape boundary.
    Outside,
}

/// Image repeat mode.
#[derive(Copy, Clone, Debug, Eq, PartialEq, Ord, PartialOrd, Hash, Structural)]
pub enum RepeatMode {
    Repeat,
    NoRepeat,
}

/// Color space for gradient interpolation.
#[derive(Copy, Clone, Debug, PartialEq, Eq, Structural)]
pub enum InterpolationColorSpace {
    SrgbLinear,
    Srgb,
    Oklab,
}

impl Default for InterpolationColorSpace {
    /// Linear sRGB.
    fn default() -> (r: InterpolationColorSpace)
        ensures
            r == InterpolationColorSpace::SrgbLinear,
    {
        InterpolationColorSpace::SrgbLinear
    }
}

/// An entry of the registry of templates: the name of a template.
#[derive(Copy, Clone)]
pub struct TemplateEntry {
    pub name: &'static str,
}

} // verus!
