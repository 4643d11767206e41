//! An ordered accumulation of palettes: one column per palette, one row
//! per color-slot key seen across all of them, kept rectangular.

use vstd::prelude::*;
use vstd::string::*;

use crate::color::Color;
use crate::palette::{has_key_of, key_index_of, lemma_key_index_props, lemma_key_index_same_keys, palette_get, Palette};

verus! {

/// The mathematical value of a collection: the palette names in insertion
/// order (the column order), and the rows, one per color-slot key in
/// first-seen order, each holding one optional color per column.
pub ghost struct CollectionView {
    pub names: Seq<Option<Seq<char>>>,
    pub rows: Seq<(Seq<char>, Seq<Option<Color>>)>,
}

/// The views of the owned name options.
pub open spec fn names_view(ns: Seq<Option<String>>) -> Seq<Option<Seq<char>>> {
    ns.map_values(
        |n: Option<String>|
            match n {
                Some(s) => Some(s@),
                None => None,
            },
    )
}

/// The views of the owned rows.
pub open spec fn rows_view(rs: Seq<(String, Vec<Option<Color>>)>) -> Seq<
    (Seq<char>, Seq<Option<Color>>),
> {
    rs.map_values(|e: (String, Vec<Option<Color>>)| (e.0@, e.1@))
}

/// The entries of `pc` whose keys are not yet keys of `rows`, in order:
/// the brand-new rows that one palette contributes.
pub open spec fn fresh_entries(
    pc: Seq<(Seq<char>, Color)>,
    rows: Seq<(Seq<char>, Seq<Option<Color>>)>,
) -> Seq<(Seq<char>, Color)>
    decreases pc.len(),
{
    if pc.len() == 0 {
        Seq::empty()
    } else if has_key_of(rows, pc.last().0) {
        fresh_entries(pc.drop_last(), rows)
    } else {
        fresh_entries(pc.drop_last(), rows).push(pc.last())
    }
}

/// `n` blank cells.
pub open spec fn blanks(n: nat) -> Seq<Option<Color>> {
    Seq::new(n, |k: int| None::<Color>)
}

/// An ordered accumulation of palettes, merged into one sparse table.
#[derive(Debug)]
pub struct Collection {
    names: Vec<Option<String>>,
    colors: Vec<(String, Vec<Option<Color>>)>,
}

impl View for Collection {
    type V = CollectionView;

    closed spec fn view(&self) -> CollectionView {
        CollectionView { names: names_view(self.names@), rows: rows_view(self.colors@) }
    }
}

impl Collection {
    /// Rectangular: every row holds exactly one slot per palette added.
    pub open spec fn wf(&self) -> bool {
        forall|i: int|
            0 <= i < self@.rows.len() ==> (#[trigger] self@.rows[i]).1.len() == self@.names.len()
    }

    /// An empty collection: no columns, no rows.
    pub fn new() -> (r: Collection)
        ensures
            r.wf(),
            r@.names == Seq::<Option<Seq<char>>>::empty(),
            r@.rows == Seq::<(Seq<char>, Seq<Option<Color>>)>::empty(),
    {
        let r = Collection { names: Vec::new(), colors: Vec::new() };
        proof {
            assert(r@.names =~= Seq::<Option<Seq<char>>>::empty());
            assert(r@.rows =~= Seq::<(Seq<char>, Seq<Option<Color>>)>::empty());
        }
        r
    }

    /// Absorbs one palette: its name becomes the next column, every
    /// existing row is extended by that palette's color for its key (or a
    /// blank), and every brand-new key of the palette becomes a row,
    /// back-filled with blanks for all earlier palettes. The table stays
    /// rectangular.
    ///
    /// The rows are kept in a key-unique vector, so one call costs time
    /// proportional to the number of existing rows times the palette's
    /// keys, not to their sum as a hash-backed table would.
    pub fn add(&mut self, p: Palette)
        requires
            old(self).wf(),
        ensures
            final(self).wf(),
            final(self)@.names == old(self)@.names.push(p@.name),
            final(self)@.rows.len() == old(self)@.rows.len() + fresh_entries(
                p@.colors,
                old(self)@.rows,
            ).len(),
            forall|i: int|
                0 <= i < old(self)@.rows.len() ==> (#[trigger] final(self)@.rows[i]).0 == old(
                    self,
                )@.rows[i].0 && final(self)@.rows[i].1 == old(self)@.rows[i].1.push(
                    palette_get(p@.colors, old(self)@.rows[i].0),
                ),
            forall|j: int|
                0 <= j < fresh_entries(p@.colors, old(self)@.rows).len() ==> (
                #[trigger] final(self)@.rows[old(self)@.rows.len() + j]).0 == fresh_entries(
                    p@.colors,
                    old(self)@.rows,
                )[j].0 && final(self)@.rows[old(self)@.rows.len() + j].1 == blanks(old(self)@.names.len()).push(Some(fresh_entries(p@.colors, old(self)@.rows)[j].1)),
    {
        let ghost old_rows = self@.rows;
        let ghost old_names = self@.names;
        let n_old = self.names.len();
        let row_count = self.colors.len();
        match p.name() {
            Some(s) => self.names.push(Some(s.to_owned())),
            None => self.names.push(None),
        }
        proof {
            assert(names_view(self.names@) =~= old_names.push(p@.name));
        }
        // extend every existing row by this palette's color for its key
        let mut rest: Vec<(String, Vec<Option<Color>>)> = Vec::new();
        core::mem::swap(&mut rest, &mut self.colors);
        let ghost rest0 = rest@;
        let mut i: usize = 0;
        proof {
            assert(rest0.skip(0) =~= rest0);
            assert(rows_view(self.colors@) =~= Seq::<(Seq<char>, Seq<Option<Color>>)>::empty());
        }
        while i < row_count
            invariant
                i <= row_count,
                row_count == rest0.len(),
                old_rows == rows_view(rest0),
                rest@ == rest0.skip(i as int),
                names_view(self.names@) == old_names.push(p@.name),
                self.colors@.len() == i,
                forall|a: int|
                    0 <= a < i ==> (#[trigger] rows_view(self.colors@)[a]).0 == old_rows[a].0
                        && rows_view(self.colors@)[a].1 == old_rows[a].1.push(
                        palette_get(p@.colors, old_rows[a].0),
                    ),
            decreases row_count - i,
        {
            proof {
                assert(rest@[0] == rest0[i as int]);
            }
            let v = p.get(&rest[0].0);
            let kv = rest.remove(0);
            let k = kv.0;
            let mut row = kv.1;
            proof {
                assert(rest@ =~= rest0.skip(i + 1));
                assert(k@ == old_rows[i as int].0);
                assert(row@ == old_rows[i as int].1);
            }
            row.push(v);
            let ghost before = self.colors@;
            self.colors.push((k, row));
            proof {
                assert(rows_view(self.colors@)[i as int].0 == old_rows[i as int].0);
                assert(rows_view(self.colors@)[i as int].1 =~= old_rows[i as int].1.push(
                    palette_get(p@.colors, old_rows[i as int].0),
                ));
                assert forall|a: int| 0 <= a < i implies #[trigger] rows_view(self.colors@)[a]
                    == rows_view(before)[a] by {
                    assert(self.colors@[a] == before[a]);
                }
            }
            i = i + 1;
        }
        // append a back-filled row for every brand-new key
        let pc = p.colors();
        let ghost pcv = p@.colors;
        let mut j: usize = 0;
        proof {
            assert(pcv.take(0) =~= Seq::<(Seq<char>, Color)>::empty());
        }
        while j < pc.len()
            invariant
                j <= pc.len(),
                pc@.len() == pcv.len(),
                crate::palette::colors_view(pc@) == pcv,
                row_count == old_rows.len(),
                names_view(self.names@) == old_names.push(p@.name),
                n_old == old_names.len(),
                self.colors@.len() == row_count + fresh_entries(pcv.take(j as int), old_rows).len(),
                forall|a: int|
                    0 <= a < row_count ==> (#[trigger] rows_view(self.colors@)[a]).0
                        == old_rows[a].0 && rows_view(self.colors@)[a].1 == old_rows[a].1.push(
                        palette_get(pcv, old_rows[a].0),
                    ),
                forall|b: int|
                    0 <= b < fresh_entries(pcv.take(j as int), old_rows).len() ==> (
                    #[trigger] rows_view(self.colors@)[row_count + b]).0 == fresh_entries(
                        pcv.take(j as int),
                        old_rows,
                    )[b].0 && rows_view(self.colors@)[row_count + b].1 == blanks(n_old as nat).push(Some(fresh_entries(pcv.take(j as int), old_rows)[b].1)),
            decreases pc.len() - j,
        {
            let ghost e = pcv[j as int];
            proof {
                assert(pcv.take(j + 1).drop_last() =~= pcv.take(j as int));
                assert(pcv.take(j + 1).last() == e);
            }
            let key = &pc[j].0;
            proof {
                assert(e.0 == key@);
            }
            let present = has_row_among(&self.colors, row_count, key);
            proof {
                assert(rows_view(self.colors@.take(row_count as int)) =~= rows_view(
                    self.colors@,
                ).take(row_count as int));
                lemma_key_index_same_keys(
                    rows_view(self.colors@.take(row_count as int)),
                    old_rows,
                    e.0,
                );
            }
            if !present {
                proof {
                    lemma_key_index_props(old_rows, e.0);
                    assert(!has_key_of(old_rows, e.0));
                }
                let mut row: Vec<Option<Color>> = Vec::new();
                let mut f: usize = 0;
                while f < n_old
                    invariant
                        f <= n_old,
                        row@ =~= blanks(f as nat),
                    decreases n_old - f,
                {
                    row.push(None);
                    proof {
                        assert(row@ =~= blanks((f + 1) as nat));
                    }
                    f = f + 1;
                }
                row.push(Some(pc[j].1));
                let kc = pc[j].0.clone();
                let ghost before = self.colors@;
                self.colors.push((kc, row));
                proof {
                    assert(fresh_entries(pcv.take(j + 1), old_rows) =~= fresh_entries(
                        pcv.take(j as int),
                        old_rows,
                    ).push(e));
                    assert(rows_view(self.colors@)[self.colors@.len() - 1].0 == e.0);
                    assert(rows_view(self.colors@)[self.colors@.len() - 1].1 =~= blanks(n_old as nat).push(Some(e.1)));
                    assert forall|b: int|
                        0 <= b < before.len() implies #[trigger] rows_view(self.colors@)[b]
                        == rows_view(before)[b] by {
                        assert(self.colors@[b] == before[b]);
                    }
                }
            } else {
                proof {
                    assert(fresh_entries(pcv.take(j + 1), old_rows) =~= fresh_entries(
                        pcv.take(j as int),
                        old_rows,
                    ));
                }
            }
            j = j + 1;
        }
        proof {
            assert(pcv.take(pcv.len() as int) =~= pcv);
            let fr = fresh_entries(pcv, old_rows);
            assert forall|i2: int|
                0 <= i2 < self@.rows.len() implies (#[trigger] self@.rows[i2]).1.len()
                == self@.names.len() by {
                if i2 < row_count {
                    assert(self@.rows[i2].1 == old_rows[i2].1.push(
                        palette_get(pcv, old_rows[i2].0),
                    ));
                } else {
                    let b = i2 - row_count;
                    assert(pcv.take(j as int) == pcv);
                    assert(fr == fresh_entries(pcv.take(j as int), old_rows));
                    assert(self@.rows == rows_view(self.colors@));
                    assert(rows_view(self.colors@)[row_count + b].1 == blanks(n_old as nat).push(
                        Some(fresh_entries(pcv.take(j as int), old_rows)[b].1),
                    ));
                    assert(self@.rows[i2].1 == blanks(n_old as nat).push(Some(fr[b].1)));
                }
            }
        }
    }

    /// The palette names, one per added palette, in insertion order.
    pub fn names(&self) -> (r: &Vec<Option<String>>)
        ensures
            names_view(r@) == self@.names,
    {
        &self.names
    }

    /// The rows: one per color-slot key in first-seen order, each holding
    /// one optional color per palette column.
    pub fn rows(&self) -> (r: &Vec<(String, Vec<Option<Color>>)>)
        ensures
            rows_view(r@) == self@.rows,
    {
        &self.colors
    }

    /// This collection with one more palette absorbed, as by `add`.
    pub fn with_added(self, p: Palette) -> (r: Collection)
        requires
            self.wf(),
        ensures
            r.wf(),
            r@.names == self@.names.push(p@.name),
            r@.rows.len() == self@.rows.len() + fresh_entries(p@.colors, self@.rows).len(),
            forall|i: int|
                0 <= i < self@.rows.len() ==> (#[trigger] r@.rows[i]).0 == self@.rows[i].0
                    && r@.rows[i].1 == self@.rows[i].1.push(
                    palette_get(p@.colors, self@.rows[i].0),
                ),
            forall|j: int|
                0 <= j < fresh_entries(p@.colors, self@.rows).len() ==> (
                #[trigger] r@.rows[self@.rows.len() + j]).0 == fresh_entries(
                    p@.colors,
                    self@.rows,
                )[j].0 && r@.rows[self@.rows.len() + j].1 == blanks(self@.names.len()).push(Some(fresh_entries(p@.colors, self@.rows)[j].1)),
    {
        let mut c = self;
        c.add(p);
        c
    }
}


/// Whether `key` is the key of one of the first `upto` rows.
fn has_row_among(cols: &Vec<(String, Vec<Option<Color>>)>, upto: usize, key: &String) -> (r: bool)
    requires
        upto <= cols@.len(),
    ensures
        r == has_key_of(rows_view(cols@.take(upto as int)), key@),
{
    let ghost t = rows_view(cols@.take(upto as int));
    let mut a: usize = 0;
    while a < upto
        invariant
            a <= upto,
            upto <= cols@.len(),
            t == rows_view(cols@.take(upto as int)),
            forall|b: int| 0 <= b < a ==> (#[trigger] t[b]).0 != key@,
        decreases upto - a,
    {
        if cols[a].0.eq(key) {
            proof {
                lemma_key_index_props(t, key@);
                assert(t[a as int].0 == key@);
            }
            return true;
        }
        a = a + 1;
    }
    proof {
        lemma_key_index_props(t, key@);
    }
    false
}

} // verus!
