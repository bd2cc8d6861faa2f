use vstd::prelude::*;
use crate::pos::Pos;

verus! {

/// Horizontal alignment of a cell's text.
#[derive(Clone, Copy, Debug, PartialEq, Eq, Structural)]
pub enum CellAlign {
    Left,
    Center,
    Right,
}

/// The full state stored for an occupied cell. `text` is the display
/// value that an evaluator already computed; `formula` is the source it
/// came from, which rendering never needs.
#[derive(Clone, Debug)]
pub struct CellRecord {
    pub text: String,
    pub formula: Option<String>,
    pub align: CellAlign,
    pub bold: bool,
    pub italic: bool,
    pub has_error: bool,
    pub merged: bool,
}

/// What a renderer receives for one occupied coordinate: the coordinate
/// and the resolved display attributes of its record.
#[derive(Clone, Debug, PartialEq, Eq)]
pub struct RenderCell {
    pub x: i64,
    pub y: i64,
    pub text: String,
    pub align: CellAlign,
    pub bold: bool,
    pub italic: bool,
    pub has_error: bool,
    pub merged: bool,
}

/// The descriptor of record `c` at position `p`.
pub open spec fn render_cell(p: Pos, c: CellRecord) -> RenderCell {
    RenderCell {
        x: p.x,
        y: p.y,
        text: c.text,
        align: c.align,
        bold: c.bold,
        italic: c.italic,
        has_error: c.has_error,
        merged: c.merged,
    }
}

/// The position a descriptor stands at.
pub open spec fn render_pos(r: RenderCell) -> Pos {
    Pos { x: r.x, y: r.y }
}

impl CellRecord {
    /// A plain record that shows `text`, left aligned, with no flags set.
    pub fn from_text(text: String) -> (r: CellRecord)
        ensures
            r.text == text,
            r.formula is None,
            r.align == CellAlign::Left,
            !r.bold && !r.italic && !r.has_error && !r.merged,
    {
        CellRecord {
            text,
            formula: None,
            align: CellAlign::Left,
            bold: false,
            italic: false,
            has_error: false,
            merged: false,
        }
    }

    /// Projects the record at `p` onto its render descriptor.
    pub fn to_render(&self, p: Pos) -> (r: RenderCell)
        ensures
            r == render_cell(p, *self),
    {
        RenderCell {
            x: p.x,
            y: p.y,
            text: self.text.clone(),
            align: self.align,
            bold: self.bold,
            italic: self.italic,
            has_error: self.has_error,
            merged: self.merged,
        }
    }
}

} // verus!
