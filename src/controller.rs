//! The entry points a host calls: queries over a sheet named by its id.
use vstd::prelude::*;
use crate::json::{cells_json, render_cells_json};
use crate::cell::RenderCell;
use crate::pos::Rect;
use crate::sheet::Sheet;

verus! {

/// A sheet and the id a host names it by.
pub struct SheetSlot {
    pub id: String,
    pub sheet: Sheet,
}

/// The sheets of a workbook, in the order they were added.
pub struct GridController {
    sheets: Vec<SheetSlot>,
}

/// The message of a query on an id that names no sheet.
pub open spec fn sheet_not_found() -> Seq<char> {
    "Sheet not found"@
}

impl GridController {
    /// Every sheet's index is well formed.
    pub closed spec fn wf(&self) -> bool {
        forall|i: int| 0 <= i < self.sheets@.len() ==> (#[trigger] self.sheets@[i]).sheet.wf()
    }

    /// Each sheet with its id, in order.
    pub closed spec fn view(&self) -> Seq<(Seq<char>, Sheet)> {
        self.sheets@.map_values(|s: SheetSlot| (s.id@, s.sheet))
    }

    /// Sheet `i` is the first whose id is `id`; queries resolve `id` to it.
    pub open spec fn resolves_to(&self, id: Seq<char>, i: int) -> bool {
        &&& 0 <= i < self@.len()
        &&& self@[i].0 == id
        &&& forall|j: int| 0 <= j < i ==> (#[trigger] self@[j]).0 != id
    }

    /// `t` is the JSON text of the render enumeration of `rect` on the sheet
    /// that `id` resolves to.
    pub open spec fn is_render_json(&self, id: Seq<char>, rect: Rect, t: Seq<char>) -> bool {
        exists|i: int, cells: Seq<RenderCell>|
            self.resolves_to(id, i) && #[trigger] self@[i].1.is_render_of(rect, cells) && t
                == cells_json(cells)
    }

    /// Whether some sheet has id `id`.
    pub open spec fn has_sheet(&self, id: Seq<char>) -> bool {
        exists|i: int| 0 <= i < self@.len() && (#[trigger] self@[i]).0 == id
    }

    /// A workbook with no sheets.
    pub fn new() -> (g: GridController)
        ensures
            g.wf(),
            g@ == Seq::<(Seq<char>, Sheet)>::empty(),
    {
        let g = GridController { sheets: Vec::new() };
        assert(g@ =~= Seq::<(Seq<char>, Sheet)>::empty());
        g
    }

    /// Adds `sheet` under `id`, after the sheets already there.
    pub fn add_sheet(&mut self, id: String, sheet: Sheet)
        requires
            old(self).wf(),
            sheet.wf(),
        ensures
            final(self).wf(),
            final(self)@ == old(self)@.push((id@, sheet)),
    {
        let ghost pre = self@;
        self.sheets.push(SheetSlot { id, sheet });
        assert(self@ =~= pre.push((id@, sheet)));
    }

    /// The first sheet whose id is `id`, if there is one.
    pub fn try_sheet_from_string_id(&self, id: &String) -> (r: Option<&Sheet>)
        requires
            self.wf(),
        ensures
            r is None <==> !self.has_sheet(id@),
            r matches Some(s) ==> s.wf() && exists|i: int| self.resolves_to(id@, i) && *s == self@[i].1,
    {
        let mut i: usize = 0;
        while i < self.sheets.len()
            invariant
                self.wf(),
                i <= self.sheets@.len(),
                forall|j: int| 0 <= j < i ==> (#[trigger] self@[j]).0 != id@,
            decreases self.sheets@.len() - i,
        {
            if self.sheets[i].id == *id {
                assert(self.resolves_to(id@, i as int));
                return Some(&self.sheets[i].sheet);
            }
            i = i + 1;
        }
        None
    }

    /// Whether the sheet named `sheet_id` has any cell to render within
    /// `region`; `false` where no sheet has that id.
    pub fn has_render_cells(&self, sheet_id: String, region: &Rect) -> (b: bool)
        requires
            self.wf(),
        ensures
            b == exists|i: int| self.resolves_to(sheet_id@, i) && #[trigger] self@[i].1.occupied_in(*region),
    {
        match self.try_sheet_from_string_id(&sheet_id) {
            None => false,
            Some(sheet) => {
                let b = sheet.has_render_cells(region);
                proof {
                    let i = choose|i: int| self.resolves_to(sheet_id@, i) && *sheet == self@[i].1;
                    assert forall|k: int| self.resolves_to(sheet_id@, k) implies k == i by {
                        if k < i {
                            assert(self@[k].0 != sheet_id@);
                        } else if i < k {
                            assert(self@[i].0 != sheet_id@);
                        }
                    }
                }
                b
            },
        }
    }

    /// The cells to render within `rect` on the sheet named `sheet_id`, as
    /// a JSON array in ascending row then column order. Fails, with
    /// "Sheet not found", exactly where no sheet has that id.
    pub fn get_render_cells(&self, sheet_id: String, rect: &Rect) -> (r: Result<String, String>)
        requires
            self.wf(),
        ensures
            r is Ok <==> self.has_sheet(sheet_id@),
            !self.has_sheet(sheet_id@) ==> (r matches Err(e) && e@ == sheet_not_found()),
            r matches Ok(t) ==> self.is_render_json(sheet_id@, *rect, t@),
    {
        match self.try_sheet_from_string_id(&sheet_id) {
            None => Err(String::from_str("Sheet not found")),
            Some(sheet) => {
                let cells = sheet.get_render_cells(rect);
                render_cells_json(&cells)
            },
        }
    }
}

} // verus!
