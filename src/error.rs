use vstd::prelude::*;

verus! {

/// Why a render call was aborted.
#[derive(Clone, Copy, Debug, PartialEq, Eq, Structural)]
pub enum RenderError {
    /// The shaped text does not fit the widget's content box.
    TextOverflow { shaped_width: u32, shaped_height: u128, box_width: u32, box_height: u32 },
    /// A color is not a string of six hexadecimal digits.
    InvalidColor,
}

} // verus!
