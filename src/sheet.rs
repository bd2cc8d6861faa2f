use vstd::prelude::*;
use crate::cell::{render_cell, render_pos, CellRecord, RenderCell};
use crate::pos::{in_domain, in_rect, is_degenerate, pos_lt, GridError, Pos, Rect, MAX_COORD};

verus! {

/// One occupied coordinate and its record.
#[derive(Clone, Debug)]
pub struct Entry {
    pub pos: Pos,
    pub cell: CellRecord,
}

/// A sparse cell store. Records are kept in one vector ordered by row,
/// then column; memory grows with occupancy, never with the area that
/// the coordinates span. Range and occupancy queries binary-search this
/// index and skip whole stretches of a row that lie outside the query.
pub struct Sheet {
    entries: Vec<Entry>,
}

impl Sheet {
    /// The index is strictly ascending in render order, so no coordinate
    /// occurs twice.
    pub closed spec fn wf(&self) -> bool {
        forall|i: int, j: int|
            0 <= i < j < self.entries@.len() ==> pos_lt(
                #[trigger] self.entries@[i].pos,
                #[trigger] self.entries@[j].pos,
            )
    }

    /// Whether index entry `i` holds coordinate `p`.
    spec fn holds_at(&self, i: int, p: Pos) -> bool {
        0 <= i < self.entries@.len() && self.entries@[i].pos == p
    }

    /// Whether some record is stored at `p`.
    spec fn occupied(&self, p: Pos) -> bool {
        exists|i: int| self.holds_at(i, p)
    }

    /// The store's contents: each occupied coordinate with its record.
    pub closed spec fn view(&self) -> Map<Pos, CellRecord> {
        Map::new(
            |p: Pos| self.occupied(p),
            |p: Pos| self.entries@[choose|i: int| self.holds_at(i, p)].cell,
        )
    }

    /// Whether some occupied coordinate lies within `r`.
    pub open spec fn occupied_in(&self, r: Rect) -> bool {
        exists|p: Pos| #[trigger] self@.contains_key(p) && in_rect(r, p)
    }

    /// `cells` is the render enumeration of `r`: one descriptor for each
    /// occupied coordinate within `r`, in ascending row then column order.
    pub open spec fn is_render_of(&self, r: Rect, cells: Seq<RenderCell>) -> bool {
        &&& forall|i: int, j: int|
            0 <= i < j < cells.len() ==> pos_lt(
                render_pos(#[trigger] cells[i]),
                render_pos(#[trigger] cells[j]),
            )
        &&& forall|i: int|
            0 <= i < cells.len() ==> {
                let p = render_pos(#[trigger] cells[i]);
                &&& in_rect(r, p)
                &&& self@.contains_key(p)
                &&& cells[i] == render_cell(p, self@[p])
            }
        &&& forall|p: Pos|
            #[trigger] self@.contains_key(p) && in_rect(r, p) ==> exists|i: int|
                0 <= i < cells.len() && render_pos(#[trigger] cells[i]) == p
    }

    /// Entry `i` of a well-formed index is what the view holds at its
    /// coordinate.
    proof fn lemma_entry_in_view(&self, i: int)
        requires
            self.wf(),
            0 <= i < self.entries@.len(),
        ensures
            self@.contains_key(self.entries@[i].pos),
            self@[self.entries@[i].pos] == self.entries@[i].cell,
    {
        let p = self.entries@[i].pos;
        assert(self.holds_at(i, p));
        let k = choose|k: int| self.holds_at(k, p);
        if k < i {
            assert(pos_lt(self.entries@[k].pos, self.entries@[i].pos));
        } else if i < k {
            assert(pos_lt(self.entries@[i].pos, self.entries@[k].pos));
        }
    }

    /// The view holds exactly the coordinates of the index, each with the
    /// record of its entry.
    proof fn lemma_view(&self)
        requires
            self.wf(),
        ensures
            forall|p: Pos| #[trigger] self@.contains_key(p) <==> self.occupied(p),
            forall|i: int|
                0 <= i < self.entries@.len() ==> self@.contains_key(#[trigger] self.entries@[i].pos)
                    && self@[self.entries@[i].pos] == self.entries@[i].cell,
    {
        assert forall|i: int| 0 <= i < self.entries@.len() implies self@.contains_key(
            #[trigger] self.entries@[i].pos,
        ) && self@[self.entries@[i].pos] == self.entries@[i].cell by {
            self.lemma_entry_in_view(i);
        }
    }

    /// An empty store.
    pub fn new() -> (s: Sheet)
        ensures
            s.wf(),
            s@ == Map::<Pos, CellRecord>::empty(),
    {
        let s = Sheet { entries: Vec::new() };
        assert(s@ =~= Map::<Pos, CellRecord>::empty());
        s
    }

    /// The first index whose coordinate does not come before `p`.
    fn lower_bound(&self, p: Pos) -> (r: usize)
        requires
            self.wf(),
        ensures
            r <= self.entries@.len(),
            forall|i: int| 0 <= i < r ==> pos_lt(#[trigger] self.entries@[i].pos, p),
            forall|i: int|
                r <= i < self.entries@.len() ==> !pos_lt(#[trigger] self.entries@[i].pos, p),
    {
        let mut lo: usize = 0;
        let mut hi: usize = self.entries.len();
        while lo < hi
            invariant
                self.wf(),
                lo <= hi <= self.entries@.len(),
                forall|i: int| 0 <= i < lo ==> pos_lt(#[trigger] self.entries@[i].pos, p),
                forall|i: int|
                    hi <= i < self.entries@.len() ==> !pos_lt(#[trigger] self.entries@[i].pos, p),
            decreases hi - lo,
        {
            let mid = lo + (hi - lo) / 2;
            if self.entries[mid].pos.before(&p) {
                assert forall|i: int| 0 <= i < mid + 1 implies pos_lt(
                    #[trigger] self.entries@[i].pos,
                    p,
                ) by {
                    if i < mid {
                        assert(pos_lt(self.entries@[i].pos, self.entries@[mid as int].pos));
                    }
                }
                lo = mid + 1;
            } else {
                assert forall|i: int| mid <= i < self.entries@.len() implies !pos_lt(
                    #[trigger] self.entries@[i].pos,
                    p,
                ) by {
                    if mid < i {
                        assert(pos_lt(self.entries@[mid as int].pos, self.entries@[i].pos));
                    }
                }
                hi = mid;
            }
        }
        lo
    }

    /// The record stored at `p`, if any.
    pub fn get(&self, p: Pos) -> (r: Option<&CellRecord>)
        requires
            self.wf(),
        ensures
            r is Some <==> self@.contains_key(p),
            r matches Some(c) ==> *c == self@[p],
    {
        proof {
            self.lemma_view();
        }
        let i = self.lower_bound(p);
        if i < self.entries.len() && self.entries[i].pos == p {
            Some(&self.entries[i].cell)
        } else {
            proof {
                assert forall|k: int| !self.holds_at(k, p) by {
                    if 0 <= k < self.entries@.len() && self.entries@[k].pos == p {
                        if k > i {
                            assert(pos_lt(self.entries@[i as int].pos, self.entries@[k].pos));
                        }
                    }
                }
            }
            None
        }
    }

    /// Stores `cell` at `p`, replacing what was there.
    fn put(&mut self, p: Pos, cell: CellRecord)
        requires
            old(self).wf(),
        ensures
            final(self).wf(),
            final(self)@ == old(self)@.insert(p, cell),
    {
        proof {
            self.lemma_view();
        }
        let ghost pre = *self;
        let i = self.lower_bound(p);
        let e = Entry { pos: p, cell };
        if i < self.entries.len() && self.entries[i].pos == p {
            self.entries.set(i, e);
            proof {
                assert(self.wf()) by {
                    assert forall|a: int, b: int|
                        0 <= a < b < self.entries@.len() implies pos_lt(
                        #[trigger] self.entries@[a].pos,
                        #[trigger] self.entries@[b].pos,
                    ) by {
                        assert(pos_lt(pre.entries@[a].pos, pre.entries@[b].pos));
                    }
                }
                self.lemma_view();
                assert forall|q: Pos| #[trigger] self@.contains_key(q) <==> pre@.insert(p, e.cell).contains_key(q) by {
                    if self.occupied(q) {
                        let k = choose|k: int| self.holds_at(k, q);
                        assert(pre.holds_at(k, q) || q == p);
                    }
                    if pre.occupied(q) {
                        let k = choose|k: int| pre.holds_at(k, q);
                        assert(self.holds_at(k, q) || q == p);
                    }
                    if q == p {
                        assert(self.holds_at(i as int, p));
                    }
                }
                assert forall|q: Pos| #[trigger] self@.contains_key(q) implies self@[q] == pre@.insert(p, e.cell)[q] by {
                    let k = choose|k: int| self.holds_at(k, q);
                    if k != i {
                        assert(pre.holds_at(k, q));
                        assert(q != p);
                    }
                }
                assert(self@ =~= pre@.insert(p, e.cell));
            }
        } else {
            self.entries.insert(i, e);
            proof {
                assert(self.wf()) by {
                    assert forall|a: int, b: int|
                        0 <= a < b < self.entries@.len() implies pos_lt(
                        #[trigger] self.entries@[a].pos,
                        #[trigger] self.entries@[b].pos,
                    ) by {
                        if a < i && b > i {
                            assert(pos_lt(pre.entries@[a].pos, pre.entries@[b - 1].pos));
                        } else if a > i {
                            assert(pos_lt(pre.entries@[a - 1].pos, pre.entries@[b - 1].pos));
                        } else if b < i {
                            assert(pos_lt(pre.entries@[a].pos, pre.entries@[b].pos));
                        } else if a == i {
                            assert(!pos_lt(pre.entries@[b - 1].pos, p));
                        } else {
                            assert(pos_lt(pre.entries@[a].pos, p));
                        }
                    }
                }
                self.lemma_view();
                assert forall|q: Pos| #[trigger] self@.contains_key(q) <==> pre@.insert(p, e.cell).contains_key(q) by {
                    if self.occupied(q) {
                        let k = choose|k: int| self.holds_at(k, q);
                        if k < i {
                            assert(pre.holds_at(k, q));
                        } else if k > i {
                            assert(pre.holds_at(k - 1, q));
                        }
                    }
                    if pre.occupied(q) {
                        let k = choose|k: int| pre.holds_at(k, q);
                        if k < i {
                            assert(self.holds_at(k, q));
                        } else {
                            assert(self.holds_at(k + 1, q));
                        }
                    }
                    if q == p {
                        assert(self.holds_at(i as int, p));
                    }
                }
                assert forall|q: Pos| #[trigger] self@.contains_key(q) implies self@[q] == pre@.insert(p, e.cell)[q] by {
                    let k = choose|k: int| self.holds_at(k, q);
                    if k < i {
                        assert(pre.holds_at(k, q));
                        assert(pos_lt(q, p));
                    } else if k > i {
                        assert(pre.holds_at(k - 1, q));
                        assert(!pos_lt(q, p));
                        assert(pos_lt(p, q));
                    }
                }
                assert(self@ =~= pre@.insert(p, e.cell));
            }
        }
    }

    /// Removes any record at `p`.
    fn take(&mut self, p: Pos)
        requires
            old(self).wf(),
        ensures
            final(self).wf(),
            final(self)@ == old(self)@.remove(p),
    {
        proof {
            self.lemma_view();
        }
        let ghost pre = *self;
        let i = self.lower_bound(p);
        if i < self.entries.len() && self.entries[i].pos == p {
            self.entries.remove(i);
            proof {
                assert(self.wf()) by {
                    assert forall|a: int, b: int|
                        0 <= a < b < self.entries@.len() implies pos_lt(
                        #[trigger] self.entries@[a].pos,
                        #[trigger] self.entries@[b].pos,
                    ) by {
                        if a < i && b >= i {
                            assert(pos_lt(pre.entries@[a].pos, pre.entries@[b + 1].pos));
                        } else if a >= i {
                            assert(pos_lt(pre.entries@[a + 1].pos, pre.entries@[b + 1].pos));
                        } else {
                            assert(pos_lt(pre.entries@[a].pos, pre.entries@[b].pos));
                        }
                    }
                }
                self.lemma_view();
                assert forall|q: Pos| #[trigger] self@.contains_key(q) <==> pre@.remove(p).contains_key(q) by {
                    if self.occupied(q) {
                        let k = choose|k: int| self.holds_at(k, q);
                        if k < i {
                            assert(pre.holds_at(k, q));
                            assert(pos_lt(q, p));
                        } else {
                            assert(pre.holds_at(k + 1, q));
                            assert(pos_lt(p, q));
                        }
                    }
                    if pre.occupied(q) && q != p {
                        let k = choose|k: int| pre.holds_at(k, q);
                        if k < i {
                            assert(self.holds_at(k, q));
                        } else {
                            assert(k != i);
                            assert(self.holds_at(k - 1, q));
                        }
                    }
                }
                assert forall|q: Pos| #[trigger] self@.contains_key(q) implies self@[q] == pre@.remove(p)[q] by {
                    let k = choose|k: int| self.holds_at(k, q);
                    if k < i {
                        assert(pre.holds_at(k, q));
                    } else {
                        assert(pre.holds_at(k + 1, q));
                    }
                }
                assert(self@ =~= pre@.remove(p));
            }
        } else {
            proof {
                assert forall|k: int| !pre.holds_at(k, p) by {
                    if 0 <= k < pre.entries@.len() && pre.entries@[k].pos == p {
                        if k > i {
                            assert(pos_lt(pre.entries@[i as int].pos, pre.entries@[k].pos));
                        }
                    }
                }
                assert(self@ =~= pre@.remove(p));
            }
        }
    }

    /// Stores `cell` at column `x`, row `y`, replacing any record there.
    /// Fails with `OutOfRange`, leaving the store as it was, where a
    /// coordinate lies outside `MIN_COORD ..= MAX_COORD`.
    pub fn set(&mut self, x: i128, y: i128, cell: CellRecord) -> (r: Result<(), GridError>)
        requires
            old(self).wf(),
        ensures
            final(self).wf(),
            r is Ok <==> in_domain(x as int, y as int),
            r is Ok ==> final(self)@ == old(self)@.insert(Pos { x: x as i64, y: y as i64 }, cell),
            r is Err ==> r == Err::<(), GridError>(GridError::OutOfRange) && final(self)@ == old(self)@,
    {
        match Pos::checked_new(x, y) {
            Ok(p) => {
                self.put(p, cell);
                Ok(())
            },
            Err(e) => Err(e),
        }
    }

    /// Removes any record at column `x`, row `y`; a no-op where there is
    /// none. Fails with `OutOfRange`, leaving the store as it was, where a
    /// coordinate lies outside `MIN_COORD ..= MAX_COORD`.
    pub fn clear(&mut self, x: i128, y: i128) -> (r: Result<(), GridError>)
        requires
            old(self).wf(),
        ensures
            final(self).wf(),
            r is Ok <==> in_domain(x as int, y as int),
            r is Ok ==> final(self)@ == old(self)@.remove(Pos { x: x as i64, y: y as i64 }),
            r is Err ==> r == Err::<(), GridError>(GridError::OutOfRange) && final(self)@ == old(self)@,
    {
        match Pos::checked_new(x, y) {
            Ok(p) => {
                self.take(p);
                Ok(())
            },
            Err(e) => Err(e),
        }
    }


    /// Every occupied coordinate within `r`, as render descriptors in
    /// ascending row then column order. A degenerate `r` gives none.
    pub fn get_render_cells(&self, r: &Rect) -> (out: Vec<RenderCell>)
        requires
            self.wf(),
        ensures
            self.is_render_of(*r, out@),
    {
        proof {
            self.lemma_view();
        }
        let mut out: Vec<RenderCell> = Vec::new();
        if r.is_empty() {
            return out;
        }
        let start = self.lower_bound(r.min);
        let n = self.entries.len();
        let mut i = start;
        let mut done = false;
        let ghost mut last: int = 0;
        while i < n && !done
            invariant
                self.wf(),
                n == self.entries@.len(),
                start <= i <= n,
                forall|k: int| 0 <= k < start ==> pos_lt(#[trigger] self.entries@[k].pos, r.min),
                done ==> i < n && self.entries@[i as int].pos.y > r.max.y,
                forall|a: int, b: int|
                    0 <= a < b < out@.len() ==> pos_lt(
                        render_pos(#[trigger] out@[a]),
                        render_pos(#[trigger] out@[b]),
                    ),
                out@.len() > 0 ==> start <= last < i && render_pos(out@.last())
                    == self.entries@[last].pos,
                forall|j: int|
                    0 <= j < out@.len() ==> {
                        let p = render_pos(#[trigger] out@[j]);
                        &&& in_rect(*r, p)
                        &&& self@.contains_key(p)
                        &&& out@[j] == render_cell(p, self@[p])
                    },
                forall|k: int|
                    start <= k < i && in_rect(*r, #[trigger] self.entries@[k].pos) ==> exists|j: int|
                        0 <= j < out@.len() && render_pos(out@[j]) == self.entries@[k].pos,
            decreases n - i + (if done { 0int } else { 1int }),
        {
            let p = self.entries[i].pos;
            if p.y > r.max.y {
                done = true;
            } else {
                if r.contains(&p) {
                    let ghost pre = out@;
                    let rc = self.entries[i].cell.to_render(p);
                    out.push(rc);
                    proof {
                        self.lemma_view();
                        assert(render_pos(out@[pre.len() as int]) == p);
                        assert forall|j: int| 0 <= j < pre.len() implies out@[j] == pre[j] by {}
                        assert forall|a: int, b: int|
                            0 <= a < b < out@.len() implies pos_lt(
                            render_pos(#[trigger] out@[a]),
                            render_pos(#[trigger] out@[b]),
                        ) by {
                            if b == pre.len() {
                                assert(pos_lt(self.entries@[last].pos, p));
                                if a < pre.len() - 1 {
                                    assert(pos_lt(render_pos(pre[a]), render_pos(pre.last())));
                                }
                            } else {
                                assert(out@[a] == pre[a] && out@[b] == pre[b]);
                            }
                        }
                        assert forall|k: int|
                            start <= k < i + 1 && in_rect(*r, #[trigger] self.entries@[k].pos) implies exists|j: int|
                                0 <= j < out@.len() && render_pos(out@[j]) == self.entries@[k].pos by {
                            if k < i {
                                let j = choose|j: int|
                                    0 <= j < pre.len() && render_pos(pre[j]) == self.entries@[k].pos;
                                assert(out@[j] == pre[j]);
                            } else {
                                assert(render_pos(out@[pre.len() as int]) == self.entries@[k].pos);
                            }
                        }
                        last = i as int;
                    }
                }
                i = i + 1;
            }
        }
        proof {
            assert forall|q: Pos| #[trigger] self@.contains_key(q) && in_rect(*r, q) implies exists|j: int|
                0 <= j < out@.len() && render_pos(#[trigger] out@[j]) == q by {
                let k = choose|k: int| self.holds_at(k, q);
                if k > i {
                    assert(pos_lt(self.entries@[i as int].pos, self.entries@[k].pos));
                }
                assert(self.entries@[k].pos == q);
            }
        }
        out
    }

    /// Whether any occupied coordinate lies within `r`. Rows of the index
    /// are skipped by binary search, so the work grows with the number of
    /// occupied rows that `r` spans, not with the cells inside it.
    pub fn has_render_cells(&self, r: &Rect) -> (b: bool)
        requires
            self.wf(),
        ensures
            b == self.occupied_in(*r),
    {
        proof {
            self.lemma_view();
        }
        if r.is_empty() {
            return false;
        }
        let n = self.entries.len();
        let mut i = self.lower_bound(r.min);
        while i < n
            invariant
                self.wf(),
                n == self.entries@.len(),
                i <= n,
                forall|k: int| 0 <= k < i ==> !in_rect(*r, #[trigger] self.entries@[k].pos),
                forall|k: int| i <= k < n ==> (#[trigger] self.entries@[k].pos).y >= r.min.y,
            decreases n - i,
        {
            let p = self.entries[i].pos;
            if p.y > r.max.y {
                proof {
                    assert forall|k: int| 0 <= k < n implies !in_rect(*r, #[trigger] self.entries@[k].pos) by {
                        if k > i {
                            assert(pos_lt(p, self.entries@[k].pos));
                        }
                    }
                    self.lemma_none_in(*r);
                }
                return false;
            }
            if p.x < r.min.x {
                let ghost old_i = i;
                i = self.lower_bound(Pos { x: r.min.x, y: p.y });
                proof {
                    assert forall|k: int| 0 <= k < i implies !in_rect(*r, #[trigger] self.entries@[k].pos) by {
                        if k > old_i {
                            assert(pos_lt(p, self.entries@[k].pos));
                        }
                    }
                }
            } else if p.x <= r.max.x {
                proof {
                    assert(in_rect(*r, p));
                    self.lemma_view();
                    assert(self@.contains_key(self.entries@[i as int].pos));
                }
                return true;
            } else if p.y == MAX_COORD {
                proof {
                    assert forall|k: int| 0 <= k < n implies !in_rect(*r, #[trigger] self.entries@[k].pos) by {
                        if k > i {
                            assert(pos_lt(p, self.entries@[k].pos));
                        }
                    }
                    self.lemma_none_in(*r);
                }
                return false;
            } else {
                let ghost old_i = i;
                i = self.lower_bound(Pos { x: r.min.x, y: p.y + 1 });
                proof {
                    assert forall|k: int| 0 <= k < i implies !in_rect(*r, #[trigger] self.entries@[k].pos) by {
                        if k > old_i {
                            assert(pos_lt(p, self.entries@[k].pos));
                        }
                    }
                }
            }
        }
        proof {
            self.lemma_none_in(*r);
        }
        false
    }

    /// Where no entry of the index lies within `r`, no occupied coordinate
    /// does.
    proof fn lemma_none_in(&self, r: Rect)
        requires
            self.wf(),
            forall|k: int|
                0 <= k < self.entries@.len() ==> !in_rect(r, #[trigger] self.entries@[k].pos),
        ensures
            !self.occupied_in(r),
    {
        self.lemma_view();
        assert forall|q: Pos| #[trigger] self@.contains_key(q) implies !in_rect(r, q) by {
            let k = choose|k: int| self.holds_at(k, q);
            assert(self.entries@[k].pos == q);
        }
    }
}

} // verus!
