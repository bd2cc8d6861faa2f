//! The text form of a render enumeration: a JSON array with one object per
//! descriptor. Numbers, flags and punctuation are written here; cell text
//! is escaped by serde_json.
use vstd::prelude::*;
use vstd::seq_lib::lemma_concat_associative;
use crate::cell::{CellAlign, RenderCell};

verus! {

/// The JSON string literal, quotes included, that serde_json writes for
/// the text `s`.
pub uninterp spec fn json_string_of(s: Seq<char>) -> Seq<char>;

/// Relies on serde_json::to_string, applied to a `str`: its result is
/// the escaped string literal, quotes included, and depends on the text
/// alone. Serializing a `str` into serde_json's in-memory buffer does
/// not fail, so the result is always `Ok`; the error arm only passes the
/// message on.
#[verifier::external_body]
fn quote_json(s: &str) -> (r: Result<String, String>)
    ensures
        r is Ok,
        r matches Ok(t) ==> t@ == json_string_of(s@),
{
    serde_json::to_string(s).map_err(|e| e.to_string())
}

/// The decimal digit `d`.
pub open spec fn digit_text(d: nat) -> Seq<char> {
    if d == 0 {
        "0"@
    } else if d == 1 {
        "1"@
    } else if d == 2 {
        "2"@
    } else if d == 3 {
        "3"@
    } else if d == 4 {
        "4"@
    } else if d == 5 {
        "5"@
    } else if d == 6 {
        "6"@
    } else if d == 7 {
        "7"@
    } else if d == 8 {
        "8"@
    } else {
        "9"@
    }
}

/// The decimal digits of `n`, without leading zeros.
pub open spec fn decimal(n: nat) -> Seq<char>
    decreases n,
{
    if n < 10 {
        digit_text(n)
    } else {
        decimal(n / 10) + digit_text(n % 10)
    }
}

/// The JSON number for `v`.
#[verifier::opaque]
pub open spec fn int_text(v: int) -> Seq<char> {
    if v < 0 {
        "-"@ + decimal((-v) as nat)
    } else {
        decimal(v as nat)
    }
}

/// The JSON literal for `b`.
#[verifier::opaque]
pub open spec fn bool_text(b: bool) -> Seq<char> {
    if b {
        "true"@
    } else {
        "false"@
    }
}

/// The JSON string naming an alignment.
#[verifier::opaque]
pub open spec fn align_text(a: CellAlign) -> Seq<char> {
    match a {
        CellAlign::Left => "\"left\""@,
        CellAlign::Center => "\"center\""@,
        CellAlign::Right => "\"right\""@,
    }
}

/// The coordinate members of the JSON object for `c`.
pub open spec fn coords_text(c: RenderCell) -> Seq<char> {
    "{\"x\":"@ + int_text(c.x as int) + ",\"y\":"@ + int_text(c.y as int)
}

/// The text and alignment members of the JSON object for `c`.
pub open spec fn text_members(c: RenderCell, quoted_text: Seq<char>) -> Seq<char> {
    ",\"text\":"@ + quoted_text + ",\"align\":"@ + align_text(c.align)
}

/// The flag members of the JSON object for `c`, and its closing brace.
pub open spec fn flags_text(c: RenderCell) -> Seq<char> {
    ",\"bold\":"@ + bool_text(c.bold) + ",\"italic\":"@ + bool_text(c.italic) + ",\"hasError\":"@
        + bool_text(c.has_error) + ",\"merged\":"@ + bool_text(c.merged) + "}"@
}

/// The JSON object for descriptor `c`, whose text is already written as
/// the string literal `quoted_text`.
pub open spec fn cell_object(c: RenderCell, quoted_text: Seq<char>) -> Seq<char> {
    coords_text(c) + text_members(c, quoted_text) + flags_text(c)
}

/// The comma-separated objects of `cells`, each with its text escaped.
pub open spec fn objects_text(cells: Seq<RenderCell>) -> Seq<char>
    decreases cells.len(),
{
    if cells.len() == 0 {
        Seq::empty()
    } else {
        let init = cells.drop_last();
        let sep = if init.len() == 0 {
            Seq::<char>::empty()
        } else {
            ","@
        };
        objects_text(init) + sep + cell_object(cells.last(), json_string_of(cells.last().text@))
    }
}

/// The JSON array of `cells`.
pub open spec fn cells_json(cells: Seq<RenderCell>) -> Seq<char> {
    "["@ + objects_text(cells) + "]"@
}

fn digit_str(d: u64) -> (r: &'static str)
    requires
        d < 10,
    ensures
        r@ == digit_text(d as nat),
{
    match d {
        0 => "0",
        1 => "1",
        2 => "2",
        3 => "3",
        4 => "4",
        5 => "5",
        6 => "6",
        7 => "7",
        8 => "8",
        _ => "9",
    }
}

fn push_decimal(out: &mut String, n: u64)
    ensures
        final(out)@ == old(out)@ + decimal(n as nat),
    decreases n,
{
    if n >= 10 {
        push_decimal(out, n / 10);
        out.append(digit_str(n % 10));
        assert(final(out)@ =~= old(out)@ + decimal(n as nat));
    } else {
        out.append(digit_str(n));
    }
}

/// Appends the JSON number for `v`.
pub fn push_int(out: &mut String, v: i64)
    ensures
        final(out)@ == old(out)@ + int_text(v as int),
{
    reveal(int_text);
    if v < 0 {
        out.append("-");
        let m: u64 = (0 - (v as i128)) as u64;
        push_decimal(out, m);
        assert(final(out)@ =~= old(out)@ + int_text(v as int));
    } else {
        push_decimal(out, v as u64);
    }
}

fn push_bool(out: &mut String, b: bool)
    ensures
        final(out)@ == old(out)@ + bool_text(b),
{
    reveal(bool_text);
    if b {
        out.append("true");
    } else {
        out.append("false");
    }
}

fn align_str(a: CellAlign) -> (r: &'static str)
    ensures
        r@ == align_text(a),
{
    reveal(align_text);
    match a {
        CellAlign::Left => "\"left\"",
        CellAlign::Center => "\"center\"",
        CellAlign::Right => "\"right\"",
    }
}

fn push_coords(out: &mut String, c: &RenderCell)
    ensures
        final(out)@ == old(out)@ + coords_text(*c),
{
    let ghost s0 = out@;
    out.append("{\"x\":");
    push_int(out, c.x);
    out.append(",\"y\":");
    push_int(out, c.y);
    assert(out@ =~= s0 + coords_text(*c));
}

fn push_text_members(out: &mut String, c: &RenderCell, quoted_text: &str)
    ensures
        final(out)@ == old(out)@ + text_members(*c, quoted_text@),
{
    let ghost s0 = out@;
    out.append(",\"text\":");
    out.append(quoted_text);
    out.append(",\"align\":");
    out.append(align_str(c.align));
    assert(out@ =~= s0 + text_members(*c, quoted_text@));
}

fn push_member(out: &mut String, key: &str, b: bool)
    ensures
        final(out)@ == old(out)@ + (key@ + bool_text(b)),
{
    let ghost s0 = out@;
    out.append(key);
    push_bool(out, b);
    assert(out@ =~= s0 + (key@ + bool_text(b)));
}

fn push_flags(out: &mut String, c: &RenderCell)
    ensures
        final(out)@ == old(out)@ + flags_text(*c),
{
    let ghost s0 = out@;
    let ghost b = ",\"bold\":"@ + bool_text(c.bold);
    let ghost it = ",\"italic\":"@ + bool_text(c.italic);
    let ghost e = ",\"hasError\":"@ + bool_text(c.has_error);
    let ghost m = ",\"merged\":"@ + bool_text(c.merged);
    push_member(out, ",\"bold\":", c.bold);
    push_member(out, ",\"italic\":", c.italic);
    proof {
        lemma_concat_associative(s0, b, it);
    }
    push_member(out, ",\"hasError\":", c.has_error);
    proof {
        lemma_concat_associative(s0, b + it, e);
    }
    push_member(out, ",\"merged\":", c.merged);
    proof {
        lemma_concat_associative(s0, b + it + e, m);
    }
    out.append("}");
    proof {
        lemma_concat_associative(s0, b + it + e + m, "}"@);
    }
}

/// Appends the JSON object for `c`, whose text is already written as the
/// string literal `quoted_text`.
pub fn push_cell_object(out: &mut String, c: &RenderCell, quoted_text: &str)
    ensures
        final(out)@ == old(out)@ + cell_object(*c, quoted_text@),
{
    let ghost s0 = out@;
    push_coords(out, c);
    push_text_members(out, c, quoted_text);
    push_flags(out, c);
    assert(out@ =~= s0 + cell_object(*c, quoted_text@));
}

/// The JSON object for `c`, whose text is already written as the string
/// literal `quoted_text`.
pub fn cell_json(c: &RenderCell, quoted_text: &str) -> (r: String)
    ensures
        r@ == cell_object(*c, quoted_text@),
{
    let mut out = String::new();
    push_cell_object(&mut out, c, quoted_text);
    assert(out@ =~= cell_object(*c, quoted_text@));
    out
}

/// The JSON array of `cells`. Escaping text does not fail, so the
/// result is always `Ok`.
pub fn render_cells_json(cells: &Vec<RenderCell>) -> (r: Result<String, String>)
    ensures
        r is Ok,
        r matches Ok(t) ==> t@ == cells_json(cells@),
{
    let mut out = String::new();
    out.append("[");
    let mut i: usize = 0;
    while i < cells.len()
        invariant
            i <= cells@.len(),
            out@ == "["@ + objects_text(cells@.subrange(0, i as int)),
        decreases cells@.len() - i,
    {
        let ghost pre = out@;
        if i > 0 {
            out.append(",");
        }
        let q = match quote_json(cells[i].text.as_str()) {
            Ok(q) => q,
            Err(e) => {
                return Err(e);
            },
        };
        push_cell_object(&mut out, &cells[i], q.as_str());
        proof {
            let s = cells@.subrange(0, i + 1);
            assert(s.drop_last() =~= cells@.subrange(0, i as int));
            assert(s.last() == cells@[i as int]);
            assert(out@ =~= "["@ + objects_text(s));
        }
        i = i + 1;
    }
    out.append("]");
    assert(cells@.subrange(0, cells@.len() as int) =~= cells@);
    assert(out@ =~= cells_json(cells@));
    Ok(out)
}

} // verus!
