use vstd::prelude::*;
use crate::color::Rgba;
use crate::units::UnitPolicy;

verus! {

/// Horizontal alignment of each text line inside its box.
#[derive(Clone, Copy, Debug, PartialEq, Eq, Structural)]
pub enum HAlign {
    Start,
    Center,
    End,
}

/// Vertical placement of the whole text block inside its box.
#[derive(Clone, Copy, Debug, PartialEq, Eq, Structural)]
pub enum VAlign {
    Top,
    Middle,
    Bottom,
}

/// A run of literal text with optional style overrides.
///
/// Sizes are fixed-point values (see `units::STEPS`).
#[derive(Debug)]
pub struct Texts {
    pub font: Option<u32>,
    pub font_size: Option<u32>,
    pub color: Option<String>,
    pub text: String,
}

/// A node of the layout tree: a box that may be filled, hold text and hold children.
///
/// Geometry and sizes are fixed-point values (see `units::STEPS`) read through the
/// render call's `UnitPolicy`; colors are six hex digits `rrggbb`.
#[derive(Debug)]
pub struct Widget {
    pub align: HAlign,
    pub place: VAlign,
    pub x: Option<u32>,
    pub y: Option<u32>,
    pub w: Option<u32>,
    pub h: Option<u32>,
    pub font: Option<u32>,
    pub font_size: Option<u32>,
    pub color: Option<String>,
    pub fill: Option<String>,
    pub line_height: Option<u32>,
    pub spans: Vec<Texts>,
    pub children: Vec<Widget>,
    pub margin_left: Option<u32>,
    pub margin_top: Option<u32>,
    pub margin_right: Option<u32>,
    pub margin_bottom: Option<u32>,
}

impl Texts {
    /// A span of `text` that overrides nothing.
    pub fn new(text: String) -> (r: Texts)
        ensures
            r.font is None,
            r.font_size is None,
            r.color is None,
            r.text == text,
    {
        Texts { font: None, font_size: None, color: None, text }
    }
}

impl Widget {
    /// A widget that sets nothing: it fills its parent's box, starts at the top
    /// left and has no fill, text or children.
    pub fn new() -> (r: Widget)
        ensures
            r.align == HAlign::Start,
            r.place == VAlign::Top,
            r.x is None && r.y is None && r.w is None && r.h is None,
            r.font is None && r.font_size is None && r.color is None,
            r.fill is None && r.line_height is None,
            r.spans@.len() == 0 && r.children@.len() == 0,
            r.margin_left is None && r.margin_top is None,
            r.margin_right is None && r.margin_bottom is None,
    {
        Widget {
            align: HAlign::Start,
            place: VAlign::Top,
            x: None,
            y: None,
            w: None,
            h: None,
            font: None,
            font_size: None,
            color: None,
            fill: None,
            line_height: None,
            spans: Vec::new(),
            children: Vec::new(),
            margin_left: None,
            margin_top: None,
            margin_right: None,
            margin_bottom: None,
        }
    }
}

/// Line-height multiplier used when a widget sets none (`1.5`).
pub const DEFAULT_LINE_HEIGHT: u32 = 150;

/// A box in raster pixel space.
#[derive(Clone, Copy, Debug, PartialEq, Eq, Structural)]
pub struct Frame {
    pub x: u32,
    pub y: u32,
    pub width: u32,
    pub height: u32,
}

/// Style a widget inherits from its parent (or from the caller, at the root).
#[derive(Debug)]
pub struct Style {
    pub font: u32,
    pub font_size: u32,
    pub color: String,
}

/// What stays fixed for a whole render call.
#[derive(Clone, Copy, Debug, PartialEq, Eq, Structural)]
pub struct LayoutContext {
    pub policy: UnitPolicy,
    /// Width of the target raster; font sizes are resolved against it.
    pub raster_width: u32,
    /// Number of entries in the font table.
    pub font_count: usize,
}

/// One styled run handed to the shaping service.
#[derive(Debug)]
pub struct Run {
    pub text: String,
    /// Index into the font table.
    pub font: usize,
    /// Font size in hundredths of a pixel.
    pub size: u64,
    /// Line height in hundredths of a pixel.
    pub line_height: u64,
    pub color: Rgba,
}

/// A widget with its geometry and style resolved, ready to shape and composite.
#[derive(Debug)]
pub struct Placed {
    pub frame: Frame,
    pub fill: Option<Rgba>,
    pub runs: Vec<Run>,
    pub align: HAlign,
    pub place: VAlign,
}

/// A run as the contracts see it.
pub struct RunModel {
    pub text: Seq<char>,
    pub font: nat,
    pub size: nat,
    pub line_height: nat,
    pub color: Rgba,
}

/// A placed widget as the contracts see it.
pub struct PlacedModel {
    pub frame: Frame,
    pub fill: Option<Rgba>,
    pub runs: Seq<RunModel>,
    pub align: HAlign,
    pub place: VAlign,
}

impl View for Run {
    type V = RunModel;

    open spec fn view(&self) -> RunModel {
        RunModel {
            text: self.text@,
            font: self.font as nat,
            size: self.size as nat,
            line_height: self.line_height as nat,
            color: self.color,
        }
    }
}

/// The models of a sequence of runs.
pub open spec fn run_models(v: Seq<Run>) -> Seq<RunModel> {
    v.map_values(|r: Run| r@)
}

impl View for Placed {
    type V = PlacedModel;

    open spec fn view(&self) -> PlacedModel {
        PlacedModel {
            frame: self.frame,
            fill: self.fill,
            runs: run_models(self.runs@),
            align: self.align,
            place: self.place,
        }
    }
}

/// The models of a sequence of placed widgets.
pub open spec fn placed_models(v: Seq<Placed>) -> Seq<PlacedModel> {
    v.map_values(|p: Placed| p@)
}

} // verus!
