//! How the lightbox fits an image to its body.

use vstd::prelude::*;

verus! {

#[derive(Clone, Copy, Debug, PartialEq, Eq, Structural)]
pub enum ViewMode {
    Fit,
    Fill,
    Actual,
}

pub open spec fn mode_text(m: ViewMode) -> Seq<char> {
    match m {
        ViewMode::Fit => "fit"@,
        ViewMode::Fill => "fill"@,
        ViewMode::Actual => "100%"@,
    }
}

/// The mode as the lightbox header names it.
pub fn mode_label(mode: ViewMode) -> (r: &'static str)
    ensures
        r@ == mode_text(mode),
{
    match mode {
        ViewMode::Fit => "fit",
        ViewMode::Fill => "fill",
        ViewMode::Actual => "100%",
    }
}

} // verus!
