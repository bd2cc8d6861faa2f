use quadratic_core::cell::{CellAlign, CellRecord, RenderCell};
use quadratic_core::controller::GridController;
use quadratic_core::json::{cell_json, push_int, render_cells_json};
use quadratic_core::pos::{GridError, Pos, Rect, MAX_COORD, MIN_COORD};
use quadratic_core::sheet::Sheet;

fn rect(x0: i64, y0: i64, x1: i64, y1: i64) -> Rect {
    Rect::new(Pos::new(x0, y0), Pos::new(x1, y1))
}

fn text(s: &str) -> CellRecord {
    CellRecord::from_text(s.to_string())
}

fn coords(cells: &[RenderCell]) -> Vec<(i64, i64)> {
    cells.iter().map(|c| (c.x, c.y)).collect()
}

#[test]
fn empty_store_has_nothing_to_render() {
    let s = Sheet::new();
    let r = rect(0, 0, 9, 9);
    assert!(s.get_render_cells(&r).is_empty());
    assert!(!s.has_render_cells(&r));
}

#[test]
fn single_cell_is_rendered() {
    let mut s = Sheet::new();
    assert_eq!(s.set(3, 3, text("Hi")), Ok(()));
    let cells = s.get_render_cells(&rect(0, 0, 9, 9));
    assert_eq!(cells.len(), 1);
    assert_eq!((cells[0].x, cells[0].y), (3, 3));
    assert_eq!(cells[0].text, "Hi");
    assert!(s.has_render_cells(&rect(0, 0, 9, 9)));
    assert!(!s.has_render_cells(&rect(4, 4, 9, 9)));
}

#[test]
fn cells_come_in_row_then_column_order() {
    let mut s = Sheet::new();
    s.set(2, 5, text("A")).unwrap();
    s.set(2, 2, text("B")).unwrap();
    s.set(5, 2, text("C")).unwrap();
    let cells = s.get_render_cells(&rect(0, 0, 9, 9));
    assert_eq!(coords(&cells), vec![(2, 2), (5, 2), (2, 5)]);
    let texts: Vec<&str> = cells.iter().map(|c| c.text.as_str()).collect();
    assert_eq!(texts, vec!["B", "C", "A"]);
}

#[test]
fn coordinate_past_the_domain_is_out_of_range() {
    let mut s = Sheet::new();
    let past = MAX_COORD as i128 + 1;
    assert_eq!(s.set(past, 0, text("x")), Err(GridError::OutOfRange));
    assert_eq!(s.set(0, past, text("x")), Err(GridError::OutOfRange));
    assert_eq!(s.set(MIN_COORD as i128 - 1, 0, text("x")), Err(GridError::OutOfRange));
    assert_eq!(s.clear(past, 0), Err(GridError::OutOfRange));
    assert!(!s.has_render_cells(&rect(MIN_COORD, MIN_COORD, MAX_COORD, MAX_COORD)));
    assert_eq!(s.set(MAX_COORD as i128, MIN_COORD as i128, text("edge")), Ok(()));
    let cells = s.get_render_cells(&rect(MIN_COORD, MIN_COORD, MAX_COORD, MAX_COORD));
    assert_eq!(coords(&cells), vec![(MAX_COORD, MIN_COORD)]);
}

#[test]
fn occupancy_agrees_with_enumeration() {
    let mut s = Sheet::new();
    s.set(-4, 7, text("a")).unwrap();
    s.set(10, -2, text("b")).unwrap();
    s.set(0, 0, text("c")).unwrap();
    let rects = [
        rect(0, 0, 0, 0),
        rect(-5, -5, 5, 5),
        rect(1, 1, 9, 6),
        rect(-4, 7, -4, 7),
        rect(11, -100, 100, 100),
        rect(-100, -100, 100, 100),
        rect(5, 0, 4, 9),
    ];
    for r in rects.iter() {
        assert_eq!(s.has_render_cells(r), !s.get_render_cells(r).is_empty());
    }
}

#[test]
fn enumeration_is_exact() {
    let mut s = Sheet::new();
    for (x, y) in [(1, 1), (3, 1), (1, 4), (8, 8), (-1, 2), (2, 9)] {
        s.set(x, y, text("v")).unwrap();
    }
    let cells = s.get_render_cells(&rect(0, 0, 5, 5));
    assert_eq!(coords(&cells), vec![(1, 1), (3, 1), (1, 4)]);
}

#[test]
fn repeated_queries_are_identical() {
    let mut s = Sheet::new();
    s.set(4, 1, text("p")).unwrap();
    s.set(1, 4, text("q")).unwrap();
    s.set(2, 1, text("r")).unwrap();
    let r = rect(0, 0, 9, 9);
    let a = s.get_render_cells(&r);
    let b = s.get_render_cells(&r);
    assert_eq!(a, b);
    assert_eq!(coords(&a), vec![(2, 1), (4, 1), (1, 4)]);
}

#[test]
fn degenerate_rect_is_empty() {
    let mut s = Sheet::new();
    s.set(1, 1, text("z")).unwrap();
    for r in [rect(2, 0, 1, 9), rect(0, 2, 9, 1), rect(1, 1, 0, 0)] {
        assert!(s.get_render_cells(&r).is_empty());
        assert!(!s.has_render_cells(&r));
    }
}

#[test]
fn set_then_clear_round_trip() {
    let mut s = Sheet::new();
    let r = rect(-3, -3, 3, 3);
    s.set(-2, 2, text("t")).unwrap();
    assert_eq!(coords(&s.get_render_cells(&r)), vec![(-2, 2)]);
    assert!(s.has_render_cells(&r));
    assert_eq!(s.clear(-2, 2), Ok(()));
    assert!(s.get_render_cells(&r).is_empty());
    assert!(!s.has_render_cells(&r));
    assert_eq!(s.clear(-2, 2), Ok(()));
    assert!(s.get(Pos::new(-2, 2)).is_none());
}

#[test]
fn set_replaces_existing_record() {
    let mut s = Sheet::new();
    s.set(0, 0, text("old")).unwrap();
    s.set(0, 0, text("new")).unwrap();
    let cells = s.get_render_cells(&rect(0, 0, 0, 0));
    assert_eq!(cells.len(), 1);
    assert_eq!(cells[0].text, "new");
    assert_eq!(s.get(Pos::new(0, 0)).map(|c| c.text.clone()), Some("new".to_string()));
}

#[test]
fn projection_drops_formula_and_keeps_flags() {
    let mut s = Sheet::new();
    let rec = CellRecord {
        text: "#DIV/0".to_string(),
        formula: Some("=1/0".to_string()),
        align: CellAlign::Right,
        bold: true,
        italic: false,
        has_error: true,
        merged: false,
    };
    s.set(7, -7, rec).unwrap();
    let cells = s.get_render_cells(&rect(7, -7, 7, -7));
    let expected = RenderCell {
        x: 7,
        y: -7,
        text: "#DIV/0".to_string(),
        align: CellAlign::Right,
        bold: true,
        italic: false,
        has_error: true,
        merged: false,
    };
    assert_eq!(cells, vec![expected]);
}

#[test]
fn occupancy_skips_rows_outside_the_columns() {
    let mut s = Sheet::new();
    for y in 0..50i128 {
        s.set(100, y, text("far")).unwrap();
        s.set(-100, y, text("far")).unwrap();
    }
    assert!(!s.has_render_cells(&rect(-10, 0, 10, 49)));
    s.set(0, 49, text("near")).unwrap();
    assert!(s.has_render_cells(&rect(-10, 0, 10, 49)));
    assert_eq!(coords(&s.get_render_cells(&rect(-10, 0, 10, 49))), vec![(0, 49)]);
}

#[test]
fn occupancy_at_last_row() {
    let mut s = Sheet::new();
    s.set(50, MAX_COORD as i128, text("x")).unwrap();
    assert!(!s.has_render_cells(&rect(0, MAX_COORD - 1, 10, MAX_COORD)));
    assert!(s.has_render_cells(&rect(0, MAX_COORD - 1, 50, MAX_COORD)));
}

#[test]
fn integers_are_written_in_decimal() {
    for (v, want) in [
        (0i64, "0"),
        (7, "7"),
        (10, "10"),
        (-305, "-305"),
        (i64::MAX, "9223372036854775807"),
        (i64::MIN, "-9223372036854775808"),
    ] {
        let mut out = String::new();
        push_int(&mut out, v);
        assert_eq!(out, want);
    }
}

#[test]
fn cell_object_text() {
    let c = RenderCell {
        x: -1,
        y: 20,
        text: "ignored".to_string(),
        align: CellAlign::Center,
        bold: false,
        italic: true,
        has_error: false,
        merged: true,
    };
    assert_eq!(
        cell_json(&c, "\"q\""),
        "{\"x\":-1,\"y\":20,\"text\":\"q\",\"align\":\"center\",\"bold\":false,\"italic\":true,\"hasError\":false,\"merged\":true}"
    );
}

#[test]
fn cell_text_is_escaped() {
    let mut s = Sheet::new();
    s.set(0, 0, text("say \"hi\"\n")).unwrap();
    let json = render_cells_json(&s.get_render_cells(&rect(0, 0, 0, 0))).unwrap();
    assert_eq!(
        json,
        "[{\"x\":0,\"y\":0,\"text\":\"say \\\"hi\\\"\\n\",\"align\":\"left\",\"bold\":false,\"italic\":false,\"hasError\":false,\"merged\":false}]"
    );
}

#[test]
fn empty_enumeration_is_empty_array() {
    assert_eq!(render_cells_json(&Vec::new()).unwrap(), "[]");
}

#[test]
fn controller_renders_named_sheet() {
    let mut s = Sheet::new();
    s.set(3, 3, text("Hi")).unwrap();
    s.set(1, 4, text("Yo")).unwrap();
    let mut g = GridController::new();
    g.add_sheet("other".to_string(), Sheet::new());
    g.add_sheet("main".to_string(), s);
    assert_eq!(
        g.get_render_cells("main".to_string(), &rect(0, 0, 9, 9)).unwrap(),
        "[{\"x\":3,\"y\":3,\"text\":\"Hi\",\"align\":\"left\",\"bold\":false,\"italic\":false,\"hasError\":false,\"merged\":false},\
{\"x\":1,\"y\":4,\"text\":\"Yo\",\"align\":\"left\",\"bold\":false,\"italic\":false,\"hasError\":false,\"merged\":false}]"
    );
    assert!(g.has_render_cells("main".to_string(), &rect(0, 0, 9, 9)));
    assert!(!g.has_render_cells("other".to_string(), &rect(0, 0, 9, 9)));
    assert_eq!(g.get_render_cells("other".to_string(), &rect(0, 0, 9, 9)).unwrap(), "[]");
}

#[test]
fn controller_unknown_sheet() {
    let mut g = GridController::new();
    g.add_sheet("main".to_string(), Sheet::new());
    assert_eq!(
        g.get_render_cells("nope".to_string(), &rect(0, 0, 9, 9)),
        Err("Sheet not found".to_string())
    );
    assert!(!g.has_render_cells("nope".to_string(), &rect(0, 0, 9, 9)));
    assert!(g.try_sheet_from_string_id(&"nope".to_string()).is_none());
    assert!(g.try_sheet_from_string_id(&"main".to_string()).is_some());
}

#[test]
fn checked_position() {
    assert_eq!(Pos::checked_new(-5, 6), Ok(Pos::new(-5, 6)));
    assert_eq!(Pos::checked_new(1i128 << 63, 0), Err(GridError::OutOfRange));
    assert!(rect(0, 0, 2, 2).contains(&Pos::new(2, 0)));
    assert!(!rect(0, 0, 2, 2).contains(&Pos::new(3, 0)));
    assert!(rect(1, 0, 0, 0).is_empty());
    assert!(Pos::new(9, 1).before(&Pos::new(0, 2)));
    assert!(!Pos::new(0, 2).before(&Pos::new(9, 1)));
}

#[test]
fn controller_known_sheet_always_succeeds() {
    let mut s = Sheet::new();
    s.set(1, 1, text("q\\\"")).unwrap();
    let mut g = GridController::new();
    g.add_sheet("main".to_string(), s);
    assert_eq!(g.get_render_cells("main".to_string(), &rect(5, 0, 4, 9)), Ok("[]".to_string()));
    let a = g.get_render_cells("main".to_string(), &rect(0, 0, 9, 9));
    let b = g.get_render_cells("main".to_string(), &rect(0, 0, 9, 9));
    assert!(a.is_ok());
    assert_eq!(a, b);
}
