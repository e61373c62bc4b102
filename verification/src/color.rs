//! RGB colors.
//!
//! A color has three unclamped scalar channels; values outside `[0, 1]`
//! arise as intermediate composition results and are clamped only when a
//! canvas is serialized.

use vstd::prelude::*;

verus! {

use crate::rational::{Rat, Scalar, rat_wf, rat_eq, in_range};

/// Mathematical model of a color: three rational channels.
pub ghost struct ColorV {
    pub red: Rat,
    pub green: Rat,
    pub blue: Rat,
}

/// All channels are well-formed representations.
pub open spec fn color_wf(c: ColorV) -> bool {
    rat_wf(c.red) && rat_wf(c.green) && rat_wf(c.blue)
}

/// All channels fit the scalar range.
pub open spec fn color_in_range(c: ColorV) -> bool {
    in_range(c.red) && in_range(c.green) && in_range(c.blue)
}

/// Channelwise exact equality of the denoted rationals.
pub open spec fn color_eq(a: ColorV, b: ColorV) -> bool {
    rat_eq(a.red, b.red) && rat_eq(a.green, b.green) && rat_eq(a.blue, b.blue)
}

/// Channelwise approximate equality: every channel differs by less than
/// the canonical tolerance.
pub open spec fn color_near(a: ColorV, b: ColorV) -> bool {
    crate::util::rat_near(a.red, b.red) && crate::util::rat_near(a.green, b.green)
        && crate::util::rat_near(a.blue, b.blue)
}

/// An RGB color of exact scalars.
#[derive(Clone, Copy, Debug)]
pub struct Color {
    pub red: Scalar,
    pub green: Scalar,
    pub blue: Scalar,
}

impl View for Color {
    type V = ColorV;

    open spec fn view(&self) -> ColorV {
        ColorV { red: self.red@, green: self.green@, blue: self.blue@ }
    }
}

impl DeepView for Color {
    type V = ColorV;

    open spec fn deep_view(&self) -> ColorV {
        self.view()
    }
}

impl Color {
    pub fn new(red: Scalar, green: Scalar, blue: Scalar) -> (r: Color)
        ensures
            r@ == (ColorV { red: red@, green: green@, blue: blue@ }),
    {
        Color { red, green, blue }
    }

    /// Every color models well-formed, representable channels.
    pub fn wf_facts(&self)
        ensures
            color_wf(self@),
            color_in_range(self@),
    {
        self.red.wf_facts();
        self.green.wf_facts();
        self.blue.wf_facts();
    }
}

impl PartialEq for Color {
    /// Channelwise approximate equality under the canonical tolerance.
    /// Like any tolerance-based comparison, this relation is reflexive and
    /// symmetric but not transitive.
    fn eq(&self, other: &Color) -> (r: bool) {
        crate::util::almost_equal(&self.red, &other.red) && crate::util::almost_equal(
            &self.green,
            &other.green,
        ) && crate::util::almost_equal(&self.blue, &other.blue)
    }
}

impl vstd::std_specs::cmp::PartialEqSpecImpl for Color {
    open spec fn obeys_eq_spec() -> bool {
        true
    }

    open spec fn eq_spec(&self, other: &Color) -> bool {
        color_near(self.view(), other.view())
    }
}

} // verus!
