//! The table renderer: computes the header line, the row labels and each
//! padded cell of a collection's comparison table, together with the
//! swatch and contrast choice for every cell. Emitting the text and
//! painting the swatches is left to the caller: the renderer itself is an
//! infallible projection of the collection.

use vstd::prelude::*;
use vstd::string::*;

use crate::collection::{Collection, CollectionView};
use crate::color::{format_color, spec_brightness, Color, THRESHOLD};
use crate::text::{append_center, append_left_just, center, left_just};

verus! {

/// The display length of a palette name: 0 where there is none.
pub open spec fn name_len(n: Option<Seq<char>>) -> nat {
    match n {
        Some(s) => s.len(),
        None => 0,
    }
}

/// The widest palette name among `names`.
pub open spec fn max_name_len(names: Seq<Option<Seq<char>>>) -> nat
    decreases names.len(),
{
    if names.len() == 0 {
        0
    } else {
        let rest = max_name_len(names.drop_last());
        let last = name_len(names.last());
        if last > rest {
            last
        } else {
            rest
        }
    }
}

/// The width of every palette column: the widest name, floored at 7, the
/// width of a `#rrggbb` swatch.
pub open spec fn col_width(v: CollectionView) -> nat {
    let m = max_name_len(v.names);
    if m > 7 {
        m
    } else {
        7
    }
}

/// The widest color-slot key among `rows`.
pub open spec fn max_key_len(rows: Seq<(Seq<char>, Seq<Option<Color>>)>) -> nat
    decreases rows.len(),
{
    if rows.len() == 0 {
        0
    } else {
        let rest = max_key_len(rows.drop_last());
        let last = rows.last().0.len();
        if last > rest {
            last
        } else {
            rest
        }
    }
}

/// The width of the row-header column: the widest key, floored at 5, the
/// width of the label `name`.
pub open spec fn head_width(v: CollectionView) -> nat {
    let m = max_key_len(v.rows);
    if m > 5 {
        m
    } else {
        5
    }
}

/// The display text of a palette name: empty where there is none.
pub open spec fn name_text(n: Option<Seq<char>>) -> Seq<char> {
    match n {
        Some(s) => s,
        None => Seq::empty(),
    }
}

/// The header cells: for each palette in order, `| `, its name centered
/// in the column width, and a closing space.
pub open spec fn header_cells(names: Seq<Option<Seq<char>>>, w: nat) -> Seq<char>
    decreases names.len(),
{
    if names.len() == 0 {
        Seq::empty()
    } else {
        header_cells(names.drop_last(), w) + seq!['|', ' '] + center(name_text(names.last()), w)
            + seq![' ']
    }
}

/// The header line: the label `name` left-justified in the row-header
/// width, a space, then one cell per palette. No trailing newline.
pub open spec fn header_line(v: CollectionView) -> Seq<char> {
    left_just(seq!['n', 'a', 'm', 'e'], head_width(v)) + seq![' '] + header_cells(
        v.names,
        col_width(v),
    )
}

/// One rendered cell: its padded text, the swatch to paint behind it
/// (`None` for a blank cell), and whether the overlay text is white.
pub struct RenderedCell {
    pub text: String,
    pub bg: Option<Color>,
    pub white_text: bool,
}

/// The text of one cell: a space, the slot's hex text (nothing for a
/// blank slot) centered in the column width, and a closing space.
pub open spec fn cell_text(slot: Option<Color>, w: nat) -> Seq<char> {
    match slot {
        None => seq![' '] + center(Seq::empty(), w) + seq![' '],
        Some(c) => seq![' '] + center(format_color(c), w) + seq![' '],
    }
}

/// What one rendered cell must be for the slot it shows: the padded text,
/// the slot itself as the background, and white overlay text exactly on
/// the swatches darker than the threshold.
pub open spec fn cell_spec(slot: Option<Color>, w: nat, cell: RenderedCell) -> bool {
    &&& cell.text@ == cell_text(slot, w)
    &&& cell.bg == slot
    &&& cell.white_text == match slot {
        Some(c) => spec_brightness(c) < THRESHOLD as int,
        None => false,
    }
}

/// Renders the collection: the header line, and one `(label, cells)` pair
/// per row, the label being the key left-justified in the row-header
/// width followed by the separating space. The caller only emits them,
/// painting each cell whose `bg` is set.
pub fn render(c: &Collection) -> (r: (String, Vec<(String, Vec<RenderedCell>)>))
    requires
        c.wf(),
    ensures
        r.0@ == header_line(c@),
        r.1@.len() == c@.rows.len(),
        forall|i: int|
            0 <= i < c@.rows.len() ==> {
                &&& (#[trigger] r.1@[i]).0@ == left_just(c@.rows[i].0, head_width(c@)) + seq![' ']
                &&& r.1@[i].1@.len() == c@.names.len()
                &&& forall|j: int|
                    0 <= j < c@.names.len() ==> cell_spec(
                        c@.rows[i].1[j],
                        col_width(c@),
                        #[trigger] r.1@[i].1@[j],
                    )
            },
{
    let names = c.names();
    let rows = c.rows();
    // the two widths
    let mut cw: usize = 7;
    let mut i: usize = 0;
    proof {
        assert(c@.names.take(0) =~= Seq::<Option<Seq<char>>>::empty());
    }
    while i < names.len()
        invariant
            i <= names@.len(),
            crate::collection::names_view(names@) == c@.names,
            names@.len() == c@.names.len(),
            cw as nat == if max_name_len(c@.names.take(i as int)) > 7 {
                max_name_len(c@.names.take(i as int))
            } else {
                7nat
            },
        decreases names@.len() - i,
    {
        proof {
            assert(c@.names.take(i + 1).drop_last() =~= c@.names.take(i as int));
            assert(c@.names.take(i + 1).last() == c@.names[i as int]);
        }
        match &names[i] {
            Some(s) => {
                let l = s.as_str().unicode_len();
                if l > cw {
                    cw = l;
                }
            },
            None => {},
        }
        i = i + 1;
    }
    proof {
        assert(c@.names.take(c@.names.len() as int) =~= c@.names);
        assert(cw as nat == col_width(c@));
    }
    let mut hw: usize = 5;
    let mut i: usize = 0;
    proof {
        assert(c@.rows.take(0) =~= Seq::<(Seq<char>, Seq<Option<Color>>)>::empty());
    }
    while i < rows.len()
        invariant
            i <= rows@.len(),
            crate::collection::rows_view(rows@) == c@.rows,
            rows@.len() == c@.rows.len(),
            hw as nat == if max_key_len(c@.rows.take(i as int)) > 5 {
                max_key_len(c@.rows.take(i as int))
            } else {
                5nat
            },
        decreases rows@.len() - i,
    {
        proof {
            assert(c@.rows.take(i + 1).drop_last() =~= c@.rows.take(i as int));
            assert(c@.rows.take(i + 1).last() == c@.rows[i as int]);
            assert(c@.rows[i as int].0 == rows@[i as int].0@);
        }
        let l = rows[i].0.as_str().unicode_len();
        if l > hw {
            hw = l;
        }
        i = i + 1;
    }
    proof {
        assert(c@.rows.take(c@.rows.len() as int) =~= c@.rows);
        assert(hw as nat == head_width(c@));
    }
    // the header line
    let mut header = String::new();
    append_left_just(&mut header, "name", hw);
    header.append(" ");
    proof {
        reveal_strlit("name");
        reveal_strlit(" ");
        assert("name"@ =~= seq!['n', 'a', 'm', 'e']);
        assert(header@ =~= left_just(seq!['n', 'a', 'm', 'e'], hw as nat) + seq![' ']
            + header_cells(c@.names.take(0), cw as nat));
    }
    let mut i: usize = 0;
    while i < names.len()
        invariant
            i <= names@.len(),
            crate::collection::names_view(names@) == c@.names,
            names@.len() == c@.names.len(),
            cw as nat == col_width(c@),
            hw as nat == head_width(c@),
            header@ == left_just(seq!['n', 'a', 'm', 'e'], hw as nat) + seq![' '] + header_cells(
                c@.names.take(i as int),
                cw as nat,
            ),
        decreases names@.len() - i,
    {
        header.append("| ");
        let ghost mid = header@;
        match &names[i] {
            Some(s) => append_center(&mut header, s.as_str(), cw),
            None => append_center(&mut header, "", cw),
        }
        proof {
            reveal_strlit("| ");
            reveal_strlit("");
            assert(header@ =~= mid + center(name_text(c@.names[i as int]), cw as nat));
        }
        header.append(" ");
        proof {
            reveal_strlit(" ");
            assert(c@.names.take(i + 1).drop_last() =~= c@.names.take(i as int));
            assert(c@.names.take(i + 1).last() == c@.names[i as int]);
            assert(header@ =~= left_just(seq!['n', 'a', 'm', 'e'], hw as nat) + seq![' ']
                + header_cells(c@.names.take(i + 1), cw as nat));
        }
        i = i + 1;
    }
    proof {
        assert(c@.names.take(c@.names.len() as int) =~= c@.names);
        assert(header@ == header_line(c@));
    }
    // the rows
    let mut out: Vec<(String, Vec<RenderedCell>)> = Vec::new();
    let mut i: usize = 0;
    while i < rows.len()
        invariant
            i <= rows@.len(),
            c.wf(),
            crate::collection::rows_view(rows@) == c@.rows,
            rows@.len() == c@.rows.len(),
            cw as nat == col_width(c@),
            hw as nat == head_width(c@),
            out@.len() == i,
            forall|a: int|
                0 <= a < i ==> {
                    &&& (#[trigger] out@[a]).0@ == left_just(c@.rows[a].0, head_width(c@))
                        + seq![' ']
                    &&& out@[a].1@.len() == c@.names.len()
                    &&& forall|b: int|
                        0 <= b < c@.names.len() ==> cell_spec(
                            c@.rows[a].1[b],
                            col_width(c@),
                            #[trigger] out@[a].1@[b],
                        )
                },
        decreases rows@.len() - i,
    {
        proof {
            assert(c@.rows[i as int].0 == rows@[i as int].0@);
            assert(c@.rows[i as int].1 == rows@[i as int].1@);
        }
        let mut label = String::new();
        append_left_just(&mut label, rows[i].0.as_str(), hw);
        label.append(" ");
        proof {
            reveal_strlit(" ");
            assert(label@ =~= left_just(c@.rows[i as int].0, hw as nat) + seq![' ']);
        }
        let row = &rows[i].1;
        let mut cells: Vec<RenderedCell> = Vec::new();
        let mut j: usize = 0;
        while j < row.len()
            invariant
                j <= row@.len(),
                row@ == c@.rows[i as int].1,
                0 <= i < c@.rows.len(),
                cw as nat == col_width(c@),
                cells@.len() == j,
                forall|b: int|
                    0 <= b < j ==> cell_spec(
                        c@.rows[i as int].1[b],
                        col_width(c@),
                        #[trigger] cells@[b],
                    ),
            decreases row@.len() - j,
        {
            let cell = match row[j] {
                None => {
                    let mut t = String::from_str(" ");
                    append_center(&mut t, "", cw);
                    t.append(" ");
                    proof {
                        reveal_strlit(" ");
                        reveal_strlit("");
                        assert(t@ =~= cell_text(None, cw as nat));
                    }
                    RenderedCell { text: t, bg: None, white_text: false }
                },
                Some(col) => {
                    let hx = col.to_hex();
                    let mut t = String::from_str(" ");
                    append_center(&mut t, hx.as_str(), cw);
                    t.append(" ");
                    let wt = col.brightness() < THRESHOLD;
                    proof {
                        reveal_strlit(" ");
                        assert(t@ =~= cell_text(Some(col), cw as nat));
                    }
                    RenderedCell { text: t, bg: Some(col), white_text: wt }
                },
            };
            cells.push(cell);
            j = j + 1;
        }
        proof {
            assert(c@.rows[i as int].1.len() == c@.names.len());
        }
        let ghost before = out@;
        out.push((label, cells));
        proof {
            assert(forall|a: int| 0 <= a < i ==> #[trigger] out@[a] == before[a]);
        }
        i = i + 1;
    }
    (header, out)
}

} // verus!
