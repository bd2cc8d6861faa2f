//! What holds between the store's updates and its two render queries.
use vstd::prelude::*;
use crate::cell::{render_cell, render_pos, CellRecord, RenderCell};
use crate::pos::{in_rect, is_degenerate, pos_lt, Pos, Rect};
use crate::controller::GridController;
use crate::sheet::Sheet;

verus! {

/// Descriptors strictly ascending in render order.
pub open spec fn ascending(cells: Seq<RenderCell>) -> bool {
    forall|i: int, j: int|
        0 <= i < j < cells.len() ==> pos_lt(
            render_pos(#[trigger] cells[i]),
            render_pos(#[trigger] cells[j]),
        )
}

/// Whether some descriptor of `cells` stands at `p`.
pub open spec fn lists(cells: Seq<RenderCell>, p: Pos) -> bool {
    exists|i: int| 0 <= i < cells.len() && render_pos(#[trigger] cells[i]) == p
}

/// The occupancy test answers `true` exactly where the enumeration of the
/// same rectangle is non-empty.
pub proof fn lemma_occupancy_agrees(s: Sheet, r: Rect, cells: Seq<RenderCell>)
    requires
        s.is_render_of(r, cells),
    ensures
        s.occupied_in(r) <==> cells.len() > 0,
{
    if cells.len() > 0 {
        let p = render_pos(cells[0]);
        assert(s@.contains_key(p) && in_rect(r, p));
    }
    if s.occupied_in(r) {
        let p = choose|p: Pos| #[trigger] s@.contains_key(p) && in_rect(r, p);
        assert(exists|i: int| 0 <= i < cells.len() && render_pos(#[trigger] cells[i]) == p);
    }
}

/// The enumeration lists a coordinate exactly when it is occupied and lies
/// within the rectangle, and it lists the record stored there.
pub proof fn lemma_enumeration_exact(s: Sheet, r: Rect, cells: Seq<RenderCell>)
    requires
        s.is_render_of(r, cells),
    ensures
        forall|p: Pos| lists(cells, p) <==> (#[trigger] s@.contains_key(p) && in_rect(r, p)),
        forall|i: int|
            0 <= i < cells.len() ==> #[trigger] cells[i] == render_cell(
                render_pos(cells[i]),
                s@[render_pos(cells[i])],
            ),
{
    assert forall|p: Pos| lists(cells, p) <==> (#[trigger] s@.contains_key(p) && in_rect(r, p)) by {
        if lists(cells, p) {
            let i = choose|i: int| 0 <= i < cells.len() && render_pos(#[trigger] cells[i]) == p;
            assert(s@.contains_key(render_pos(cells[i])));
        }
    }
}

/// Two strictly ascending sequences with the same elements are equal.
proof fn lemma_ascending_unique(a: Seq<RenderCell>, b: Seq<RenderCell>)
    requires
        ascending(a),
        ascending(b),
        forall|i: int| 0 <= i < a.len() ==> b.contains(#[trigger] a[i]),
        forall|j: int| 0 <= j < b.len() ==> a.contains(#[trigger] b[j]),
    ensures
        a == b,
    decreases a.len(),
{
    if a.len() == 0 {
        if b.len() > 0 {
            assert(a.contains(b[0]));
        }
        assert(a =~= b);
    } else {
        assert(b.contains(a[0]));
        let j = choose|j: int| 0 <= j < b.len() && b[j] == a[0];
        assert(a.contains(b[0]));
        let k = choose|k: int| 0 <= k < a.len() && a[k] == b[0];
        if j > 0 {
            assert(pos_lt(render_pos(b[0]), render_pos(b[j])));
            if k > 0 {
                assert(pos_lt(render_pos(a[0]), render_pos(a[k])));
            }
        }
        let a1 = a.subrange(1, a.len() as int);
        let b1 = b.subrange(1, b.len() as int);
        assert forall|i: int| 0 <= i < a1.len() implies b1.contains(#[trigger] a1[i]) by {
            assert(pos_lt(render_pos(a[0]), render_pos(a[i + 1])));
            assert(b.contains(a[i + 1]));
            let m = choose|m: int| 0 <= m < b.len() && b[m] == a[i + 1];
            assert(m != 0);
            assert(b1[m - 1] == a1[i]);
        }
        assert forall|i: int| 0 <= i < b1.len() implies a1.contains(#[trigger] b1[i]) by {
            assert(pos_lt(render_pos(b[0]), render_pos(b[i + 1])));
            assert(a.contains(b[i + 1]));
            let m = choose|m: int| 0 <= m < a.len() && a[m] == b[i + 1];
            assert(m != 0);
            assert(a1[m - 1] == b1[i]);
        }
        assert forall|x: int, y: int| 0 <= x < y < a1.len() implies pos_lt(
            render_pos(#[trigger] a1[x]),
            render_pos(#[trigger] a1[y]),
        ) by {
            assert(pos_lt(render_pos(a[x + 1]), render_pos(a[y + 1])));
        }
        assert forall|x: int, y: int| 0 <= x < y < b1.len() implies pos_lt(
            render_pos(#[trigger] b1[x]),
            render_pos(#[trigger] b1[y]),
        ) by {
            assert(pos_lt(render_pos(b[x + 1]), render_pos(b[y + 1])));
        }
        lemma_ascending_unique(a1, b1);
        assert(a =~= seq![a[0]] + a1);
        assert(b =~= seq![b[0]] + b1);
    }
}

/// The enumeration of a rectangle is ascending by row, then column, and
/// it is determined by the store's contents: any two enumerations of the
/// same rectangle over the same contents are the same sequence.
pub proof fn lemma_enumeration_deterministic(
    s: Sheet,
    t: Sheet,
    r: Rect,
    a: Seq<RenderCell>,
    b: Seq<RenderCell>,
)
    requires
        s@ == t@,
        s.is_render_of(r, a),
        t.is_render_of(r, b),
    ensures
        ascending(a),
        a == b,
{
    assert forall|i: int| 0 <= i < a.len() implies b.contains(#[trigger] a[i]) by {
        let p = render_pos(a[i]);
        assert(t@.contains_key(p) && in_rect(r, p));
        let j = choose|j: int| 0 <= j < b.len() && render_pos(#[trigger] b[j]) == p;
        assert(b[j] == a[i]);
    }
    assert forall|j: int| 0 <= j < b.len() implies a.contains(#[trigger] b[j]) by {
        let p = render_pos(b[j]);
        assert(s@.contains_key(p) && in_rect(r, p));
        let i = choose|i: int| 0 <= i < a.len() && render_pos(#[trigger] a[i]) == p;
        assert(b[j] == a[i]);
    }
    lemma_ascending_unique(a, b);
}

/// A rectangle whose minimum exceeds its maximum on an axis enumerates
/// nothing and is unoccupied.
pub proof fn lemma_degenerate_rect(s: Sheet, r: Rect, cells: Seq<RenderCell>)
    requires
        is_degenerate(r),
        s.is_render_of(r, cells),
    ensures
        cells.len() == 0,
        !s.occupied_in(r),
{
    if cells.len() > 0 {
        assert(in_rect(r, render_pos(cells[0])));
    }
}

/// After storing `v` at `p`, a rectangle around `p` lists `p` with `v`;
/// after then clearing `p`, the same rectangle no longer lists it.
pub proof fn lemma_set_then_clear(
    s0: Sheet,
    s1: Sheet,
    s2: Sheet,
    p: Pos,
    v: CellRecord,
    r: Rect,
    after_set: Seq<RenderCell>,
    after_clear: Seq<RenderCell>,
)
    requires
        s1@ == s0@.insert(p, v),
        s2@ == s1@.remove(p),
        in_rect(r, p),
        s1.is_render_of(r, after_set),
        s2.is_render_of(r, after_clear),
    ensures
        exists|i: int|
            0 <= i < after_set.len() && #[trigger] after_set[i] == render_cell(p, v),
        !lists(after_clear, p),
{
    assert(s1@.contains_key(p));
    let i = choose|i: int| 0 <= i < after_set.len() && render_pos(#[trigger] after_set[i]) == p;
    assert(after_set[i] == render_cell(p, v));
    if lists(after_clear, p) {
        let j = choose|j: int| 0 <= j < after_clear.len() && render_pos(#[trigger] after_clear[j]) == p;
        assert(s2@.contains_key(render_pos(after_clear[j])));
    }
}

/// The JSON text of a query on a sheet id is determined: two texts that
/// both render the same rectangle of the same workbook are equal.
pub proof fn lemma_render_json_deterministic(
    g: GridController,
    id: Seq<char>,
    r: Rect,
    t1: Seq<char>,
    t2: Seq<char>,
)
    requires
        g.is_render_json(id, r, t1),
        g.is_render_json(id, r, t2),
    ensures
        t1 == t2,
{
    let (i, a) = choose|i: int, a: Seq<RenderCell>|
        g.resolves_to(id, i) && #[trigger] g@[i].1.is_render_of(r, a) && t1 == crate::json::cells_json(a);
    let (j, b) = choose|j: int, b: Seq<RenderCell>|
        g.resolves_to(id, j) && #[trigger] g@[j].1.is_render_of(r, b) && t2 == crate::json::cells_json(b);
    if i < j {
        assert(g@[i].0 != id);
    } else if j < i {
        assert(g@[j].0 != id);
    }
    lemma_enumeration_deterministic(g@[i].1, g@[j].1, r, a, b);
}

} // verus!
