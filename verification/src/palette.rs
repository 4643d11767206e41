//! A named mapping from normalized color-slot keys to colors, built from
//! a decoded flat string table.

use vstd::prelude::*;
use vstd::string::*;

use crate::color::{parse_color, Color};
use crate::error::PaletteError;
use crate::text::norm_key;

verus! {

/// The reserved key whose value is a palette's display name, never a
/// color slot.
pub open spec fn name_key() -> Seq<char> {
    seq!['n', 'a', 'm', 'e']
}

/// The index of the first entry of `t` whose key is `k`, or -1.
pub open spec fn key_index_of<V>(t: Seq<(Seq<char>, V)>, k: Seq<char>) -> int
    decreases t.len(),
{
    if t.len() == 0 {
        -1
    } else if t[0].0 == k {
        0
    } else {
        let r = key_index_of(t.drop_first(), k);
        if r < 0 {
            -1
        } else {
            r + 1
        }
    }
}

/// Whether some entry of `t` has the key `k`.
pub open spec fn has_key_of<V>(t: Seq<(Seq<char>, V)>, k: Seq<char>) -> bool {
    key_index_of(t, k) >= 0
}

/// `key_index_of` finds the first entry with key `k`, and -1 means none.
pub proof fn lemma_key_index_props<V>(t: Seq<(Seq<char>, V)>, k: Seq<char>)
    ensures
        key_index_of(t, k) == -1 || 0 <= key_index_of(t, k) < t.len(),
        key_index_of(t, k) == -1 ==> forall|j: int| 0 <= j < t.len() ==> (#[trigger] t[j]).0 != k,
        key_index_of(t, k) >= 0 ==> t[key_index_of(t, k)].0 == k && forall|j: int|
            0 <= j < key_index_of(t, k) ==> (#[trigger] t[j]).0 != k,
    decreases t.len(),
{
    if t.len() > 0 && t[0].0 != k {
        let d = t.drop_first();
        lemma_key_index_props(d, k);
        let r = key_index_of(d, k);
        if r == -1 {
            assert forall|j: int| 0 <= j < t.len() implies (#[trigger] t[j]).0 != k by {
                if j >= 1 {
                    assert(t[j] == d[j - 1]);
                }
            }
        } else {
            assert(t[r + 1] == d[r]);
            assert forall|j: int| 0 <= j < r + 1 implies (#[trigger] t[j]).0 != k by {
                if j >= 1 {
                    assert(t[j] == d[j - 1]);
                }
            }
        }
    }
}

/// How `key_index_of` changes when an entry is pushed at the back.
pub proof fn lemma_key_index_push<V>(t: Seq<(Seq<char>, V)>, k: Seq<char>, x: (Seq<char>, V))
    ensures
        key_index_of(t.push(x), k) == if key_index_of(t, k) >= 0 {
            key_index_of(t, k)
        } else if x.0 == k {
            t.len() as int
        } else {
            -1
        },
    decreases t.len(),
{
    if t.len() == 0 {
        assert(t.push(x)[0] == x);
        assert(t.push(x).drop_first() =~= Seq::<(Seq<char>, V)>::empty());
        assert(key_index_of(t.push(x).drop_first(), k) == -1);
    } else {
        assert(t.push(x)[0] == t[0]);
        assert(t.push(x).drop_first() =~= t.drop_first().push(x));
        lemma_key_index_push(t.drop_first(), k, x);
        assert(key_index_of(t.push(x).drop_first(), k) == key_index_of(
            t.drop_first().push(x),
            k,
        ));
    }
}

/// Two tables with the same keys in the same order index any key alike.
pub proof fn lemma_key_index_same_keys<V, W>(s: Seq<(Seq<char>, V)>, t: Seq<(Seq<char>, W)>, k: Seq<char>)
    requires
        s.len() == t.len(),
        forall|i: int| 0 <= i < s.len() ==> (#[trigger] s[i]).0 == (#[trigger] t[i]).0,
    ensures
        key_index_of(s, k) == key_index_of(t, k),
    decreases s.len(),
{
    if s.len() > 0 && s[0].0 != k {
        assert(forall|i: int|
            0 <= i < s.len() - 1 ==> (#[trigger] s.drop_first()[i]).0 == (
            #[trigger] t.drop_first()[i]).0);
        lemma_key_index_same_keys(s.drop_first(), t.drop_first(), k);
    }
}

/// `t` with the entry at `i` replaced when `k` is already a key (`i` the
/// first index bearing it), else with `(k, v)` appended: the shape of one
/// step of last-write-wins accumulation.
pub open spec fn upsert<V>(t: Seq<(Seq<char>, V)>, k: Seq<char>, v: V) -> Seq<(Seq<char>, V)> {
    let i = key_index_of(t, k);
    if i >= 0 {
        t.update(i, (k, v))
    } else {
        t.push((k, v))
    }
}

/// `t` collapsed to one entry per key: first-seen key order, last value
/// wins.
pub open spec fn dedup_keys<V>(t: Seq<(Seq<char>, V)>) -> Seq<(Seq<char>, V)>
    decreases t.len(),
{
    if t.len() == 0 {
        Seq::empty()
    } else {
        upsert(dedup_keys(t.drop_last()), t.last().0, t.last().1)
    }
}

/// The keys of `dedup_keys(t)` are distinct.
pub proof fn lemma_dedup_keys_distinct<V>(t: Seq<(Seq<char>, V)>)
    ensures
        forall|a: int, b: int|
            0 <= a < b < dedup_keys(t).len() ==> (#[trigger] dedup_keys(t)[a]).0 != (
            #[trigger] dedup_keys(t)[b]).0,
    decreases t.len(),
{
    if t.len() > 0 {
        let prev = dedup_keys(t.drop_last());
        lemma_dedup_keys_distinct(t.drop_last());
        lemma_key_index_props(prev, t.last().0);
        let d = dedup_keys(t);
        let ki = key_index_of(prev, t.last().0);
        if ki >= 0 {
            assert(d == prev.update(ki, (t.last().0, t.last().1)));
            assert(forall|a: int| 0 <= a < d.len() ==> (#[trigger] d[a]).0 == prev[a].0);
        } else {
            assert(d == prev.push((t.last().0, t.last().1)));
        }
    }
}

/// Deduplication keeps every key that the entries of `t` share: when all
/// keys of `t` satisfy the normal form, so do the keys of the result.
pub proof fn lemma_dedup_keys_normalized<V>(t: Seq<(Seq<char>, V)>)
    requires
        forall|i: int| 0 <= i < t.len() ==> norm_key((#[trigger] t[i]).0) == t[i].0,
    ensures
        forall|a: int|
            0 <= a < dedup_keys(t).len() ==> norm_key((#[trigger] dedup_keys(t)[a]).0)
                == dedup_keys(t)[a].0,
    decreases t.len(),
{
    if t.len() > 0 {
        let prev = dedup_keys(t.drop_last());
        assert(forall|i: int| 0 <= i < t.len() - 1 ==> #[trigger] t.drop_last()[i] == t[i]);
        lemma_dedup_keys_normalized(t.drop_last());
        lemma_key_index_props(prev, t.last().0);
        let d = dedup_keys(t);
        let ki = key_index_of(prev, t.last().0);
        assert(t[t.len() - 1] == t.last());
        if ki >= 0 {
            assert(d == prev.update(ki, (t.last().0, t.last().1)));
            assert(forall|a: int| 0 <= a < d.len() && a != ki ==> #[trigger] d[a] == prev[a]);
        } else {
            assert(d == prev.push((t.last().0, t.last().1)));
            assert(forall|a: int| 0 <= a < d.len() - 1 ==> #[trigger] d[a] == prev[a]);
        }
    }
}

/// The table `t` with its keys normalized, in order.
pub open spec fn normalize_table(t: Seq<(Seq<char>, Seq<char>)>) -> Seq<(Seq<char>, Seq<char>)> {
    t.map_values(|e: (Seq<char>, Seq<char>)| (norm_key(e.0), e.1))
}

/// The views of a vector of owned string pairs.
pub open spec fn entries_view(es: Seq<(String, String)>) -> Seq<(Seq<char>, Seq<char>)> {
    es.map_values(|e: (String, String)| (e.0@, e.1@))
}

/// The views of a vector of owned key/color pairs.
pub open spec fn colors_view(cs: Seq<(String, Color)>) -> Seq<(Seq<char>, Color)> {
    cs.map_values(|e: (String, Color)| (e.0@, e.1))
}

/// Well-formed color slots: keys distinct, in normal form, and never the
/// reserved key `name`.
pub open spec fn wf_slots(cs: Seq<(Seq<char>, Color)>) -> bool {
    &&& forall|a: int, b: int|
        0 <= a < b < cs.len() ==> (#[trigger] cs[a]).0 != (#[trigger] cs[b]).0
    &&& forall|a: int|
        0 <= a < cs.len() ==> norm_key((#[trigger] cs[a]).0) == cs[a].0 && cs[a].0 != name_key()
}

/// The mathematical value of a palette: an optional display name and the
/// color slots in first-seen key order.
pub ghost struct PaletteView {
    pub name: Option<Seq<char>>,
    pub colors: Seq<(Seq<char>, Color)>,
}

/// One pass over the collapsed table `d`, last entry first: the `name`
/// entry gives the display name, every other value must parse as a hex
/// color and becomes a slot, in order; any unparseable value rejects the
/// whole table.
pub open spec fn build_of(d: Seq<(Seq<char>, Seq<char>)>) -> Option<
    (Option<Seq<char>>, Seq<(Seq<char>, Color)>),
>
    decreases d.len(),
{
    if d.len() == 0 {
        Some((None, Seq::empty()))
    } else {
        match build_of(d.drop_last()) {
            None => None,
            Some((nm, cs)) => {
                if d.last().0 == name_key() {
                    Some((Some(d.last().1), cs))
                } else {
                    match parse_color(d.last().1) {
                        None => None,
                        Some(c) => Some((nm, cs.push((d.last().0, c)))),
                    }
                }
            },
        }
    }
}

/// Once `build_of` rejects a prefix of `d`, it rejects `d` itself.
pub proof fn lemma_build_of_none(d: Seq<(Seq<char>, Seq<char>)>, i: int)
    requires
        0 <= i <= d.len(),
        build_of(d.take(i)) is None,
    ensures
        build_of(d) is None,
    decreases d.len() - i,
{
    if i < d.len() {
        assert(d.take(i + 1).drop_last() =~= d.take(i));
        assert(build_of(d.take(i + 1)) is None);
        lemma_build_of_none(d, i + 1);
    } else {
        assert(d.take(i) =~= d);
    }
}

/// The slots that `build_of` accepts carry keys of `d` other than `name`,
/// without repetition, in the normal form that `d`'s keys have.
pub proof fn lemma_build_of_wf(d: Seq<(Seq<char>, Seq<char>)>)
    requires
        forall|a: int, b: int|
            0 <= a < b < d.len() ==> (#[trigger] d[a]).0 != (#[trigger] d[b]).0,
        forall|i: int| 0 <= i < d.len() ==> norm_key((#[trigger] d[i]).0) == d[i].0,
    ensures
        match build_of(d) {
            None => true,
            Some((nm, cs)) => wf_slots(cs) && forall|j: int|
                0 <= j < cs.len() ==> has_key_of(d, (#[trigger] cs[j]).0),
        },
    decreases d.len(),
{
    if d.len() > 0 {
        let s = d.drop_last();
        assert(forall|i: int| 0 <= i < d.len() - 1 ==> #[trigger] s[i] == d[i]);
        lemma_build_of_wf(s);
        if build_of(d) is Some {
            let (nm0, cs0) = build_of(s)->Some_0;
            let (nm, cs) = build_of(d)->Some_0;
            assert forall|j: int| 0 <= j < cs0.len() implies has_key_of(
                d,
                (#[trigger] cs0[j]).0,
            ) by {
                lemma_key_index_push(s, cs0[j].0, d.last());
                assert(d =~= s.push(d.last()));
            }
            if d.last().0 != name_key() {
                assert(cs == cs0.push((d.last().0, parse_color(d.last().1)->Some_0)));
                lemma_key_index_push(s, d.last().0, d.last());
                assert(d =~= s.push(d.last()));
                assert forall|a: int, b: int|
                    0 <= a < b < cs.len() implies (#[trigger] cs[a]).0 != (
                #[trigger] cs[b]).0 by {
                    if b == cs.len() - 1 {
                        lemma_key_index_props(s, cs0[a].0);
                        let ki = key_index_of(s, cs0[a].0);
                        assert(s[ki].0 == cs0[a].0);
                        assert(s[ki].0 != d.last().0);
                    }
                }
                assert forall|a: int|
                    0 <= a < cs.len() implies norm_key((#[trigger] cs[a]).0) == cs[a].0 && cs[a].0
                    != name_key() by {
                    if a < cs.len() - 1 {
                        lemma_key_index_props(s, cs0[a].0);
                        let ki = key_index_of(s, cs0[a].0);
                        assert(s[ki].0 == cs0[a].0);
                    } else {
                        assert(d[d.len() - 1] == d.last());
                    }
                }
            } else {
                assert forall|a: int|
                    0 <= a < cs.len() implies norm_key((#[trigger] cs[a]).0) == cs[a].0 && cs[a].0
                    != name_key() by {
                    lemma_key_index_props(s, cs0[a].0);
                    let ki = key_index_of(s, cs0[a].0);
                    assert(s[ki].0 == cs0[a].0);
                }
            }
        }
    }
}

/// The palette that the decoded flat table `t` describes: keys are
/// normalized, a repeated normalized key keeps its first position and its
/// last value, the `name` entry (if any) becomes the display name, and
/// every remaining value must parse as a hex color, else the whole table
/// is rejected.
pub open spec fn palette_of_table(t: Seq<(Seq<char>, Seq<char>)>) -> Option<PaletteView> {
    match build_of(dedup_keys(normalize_table(t))) {
        None => None,
        Some((nm, cs)) => Some(PaletteView { name: nm, colors: cs }),
    }
}

/// The color of slot `k` among `colors`, if a slot bears that key.
pub open spec fn palette_get(colors: Seq<(Seq<char>, Color)>, k: Seq<char>) -> Option<Color> {
    let i = key_index_of(colors, k);
    if i >= 0 {
        Some(colors[i].1)
    } else {
        None
    }
}

/// A named mapping from normalized color-slot keys to colors.
///
/// Built only from a decoded flat string table; read-only thereafter.
#[derive(Debug, Clone)]
pub struct Palette {
    name: Option<String>,
    colors: Vec<(String, Color)>,
}

impl View for Palette {
    type V = PaletteView;

    closed spec fn view(&self) -> PaletteView {
        PaletteView {
            name: match self.name {
                Some(s) => Some(s@),
                None => None,
            },
            colors: colors_view(self.colors@),
        }
    }
}

impl Palette {
    /// Well-formed: slot keys are distinct, already in normal form, and
    /// never the reserved key `name`.
    pub open spec fn wf(&self) -> bool {
        wf_slots(self@.colors)
    }

    /// The palette's display name, if it has one.
    pub fn name(&self) -> (r: Option<&str>)
        ensures
            match r {
                Some(s) => self@.name == Some(s@),
                None => self@.name is None,
            },
    {
        match &self.name {
            Some(s) => Some(s.as_str()),
            None => None,
        }
    }

    /// The color slots, as key/color pairs in first-seen key order.
    pub fn colors(&self) -> (r: &Vec<(String, Color)>)
        ensures
            colors_view(r@) == self@.colors,
    {
        &self.colors
    }

    /// The color of slot `key`, if this palette has that slot.
    pub fn get(&self, key: &String) -> (r: Option<Color>)
        ensures
            r == palette_get(self@.colors, key@),
    {
        let mut i: usize = 0;
        while i < self.colors.len()
            invariant
                i <= self.colors.len(),
                forall|j: int| 0 <= j < i ==> (#[trigger] colors_view(self.colors@)[j]).0 != key@,
            decreases self.colors.len() - i,
        {
            if self.colors[i].0.eq(key) {
                proof {
                    lemma_key_index_props(self@.colors, key@);
                    assert(colors_view(self.colors@)[i as int].0 == key@);
                    assert(key_index_of(self@.colors, key@) == i as int);
                }
                return Some(self.colors[i].1);
            }
            i = i + 1;
        }
        proof {
            lemma_key_index_props(self@.colors, key@);
            assert(key_index_of(self@.colors, key@) == -1);
        }
        None
    }

    /// This palette, given the display name `fallback` where it has none.
    pub fn or_name(self, fallback: String) -> (r: Palette)
        ensures
            r@.colors == self@.colors,
            self.wf() ==> r.wf(),
            r@.name == if self@.name is Some {
                self@.name
            } else {
                Some(fallback@)
            },
    {
        match self.name {
            Some(n) => Palette { name: Some(n), colors: self.colors },
            None => Palette { name: Some(fallback), colors: self.colors },
        }
    }

    /// Builds a palette from a decoded flat table, in decoder order.
    ///
    /// Keys are normalized; a repeated normalized key keeps its first
    /// position and its last value; the `name` entry, if present, becomes
    /// the display name; every other value must be a hex color string, or
    /// the whole table is rejected with `FormatError`.
    pub fn from_entries(entries: Vec<(String, String)>) -> (r: Result<Palette, PaletteError>)
        ensures
            match palette_of_table(entries_view(entries@)) {
                Some(pv) => r matches Ok(p) && p@ == pv && p.wf(),
                None => r == Err::<Palette, PaletteError>(PaletteError::Format),
            },
    {
        let ghost evs = entries_view(entries@);
        let table = dedup_table(&entries);
        build_palette(table, Ghost(evs))
    }
}

/// Builds the palette from the already collapsed table: the `name` entry
/// becomes the display name, every other value must parse as a hex color.
fn build_palette(table: Vec<(String, String)>, Ghost(evs): Ghost<Seq<(Seq<char>, Seq<char>)>>) -> (r:
    Result<Palette, PaletteError>)
    requires
        entries_view(table@) == dedup_keys(normalize_table(evs)),
    ensures
        match palette_of_table(evs) {
            Some(pv) => r matches Ok(p) && p@ == pv && p.wf(),
            None => r == Err::<Palette, PaletteError>(PaletteError::Format),
        },
{
    let ghost d = dedup_keys(normalize_table(evs));
    let name_lit = String::from_str("name");
    proof {
        reveal_strlit("name");
        assert(name_lit@ =~= name_key());
    }
    let mut name: Option<String> = None;
    let mut colors: Vec<(String, Color)> = Vec::new();
    let mut i: usize = 0;
    proof {
        assert(d.take(0) =~= Seq::<(Seq<char>, Seq<char>)>::empty());
        assert(colors_view(colors@) =~= Seq::<(Seq<char>, Color)>::empty());
    }
    while i < table.len()
        invariant
            i <= table.len(),
            d == dedup_keys(normalize_table(evs)),
            entries_view(table@) == d,
            table@.len() == d.len(),
            name_lit@ == name_key(),
            build_of(d.take(i as int)) == Some(
                (
                    match name {
                        Some(nm) => Some(nm@),
                        None => None::<Seq<char>>,
                    },
                    colors_view(colors@),
                ),
            ),
        decreases table.len() - i,
    {
        let ghost e = d[i as int];
        proof {
            assert(d.take(i + 1).drop_last() =~= d.take(i as int));
            assert(d.take(i + 1).last() == e);
        }
        if table[i].0.eq(&name_lit) {
            proof {
                assert(e.0 == name_key());
            }
            name = Some(table[i].1.clone());
            proof {
                assert(build_of(d.take(i + 1)) == Some(
                    (Some(e.1), colors_view(colors@)),
                ));
            }
        } else {
            proof {
                assert(e.0 != name_key());
            }
            match Color::from_str(table[i].1.as_str()) {
                Ok(c) => {
                    let kc = table[i].0.clone();
                    colors.push((kc, c));
                    proof {
                        assert(colors_view(colors@) =~= colors_view(
                            colors@.drop_last(),
                        ).push((kc@, c)));
                        assert(colors@.drop_last() =~= colors@.subrange(
                            0,
                            colors@.len() - 1,
                        ));
                    }
                },
                Err(err) => {
                    proof {
                        assert(parse_color(e.1) is None);
                        assert(build_of(d.take(i + 1)) is None);
                        lemma_build_of_none(d, i + 1);
                        assert(palette_of_table(evs) is None);
                    }
                    return Err(err);
                },
            }
        }
        i = i + 1;
    }
    proof {
        assert(d.take(table@.len() as int) =~= d);
        assert(build_of(d) is Some);
    }
    let p = Palette { name, colors };
    proof {
        let pv = palette_of_table(evs)->Some_0;
        assert(p@.colors == pv.colors);
        assert(p@.name == pv.name);
        assert(p@ == pv);
        lemma_dedup_keys_distinct(normalize_table(evs));
        assert forall|j: int|
            0 <= j < normalize_table(evs).len() implies norm_key(
            (#[trigger] normalize_table(evs)[j]).0,
        ) == normalize_table(evs)[j].0 by {
            assert(normalize_table(evs)[j].0 == norm_key(evs[j].0));
            crate::text::lemma_norm_idempotent(evs[j].0);
        }
        lemma_dedup_keys_normalized(normalize_table(evs));
        lemma_build_of_wf(d);
        assert(p.wf());
    }
    Ok(p)
}

/// The index of the first entry of `table` whose key equals `k`.
fn find_key(table: &Vec<(String, String)>, k: &String) -> (r: Option<usize>)
    ensures
        match r {
            Some(j) => j < table@.len() && key_index_of(entries_view(table@), k@) == j as int,
            None => key_index_of(entries_view(table@), k@) == -1,
        },
{
    proof {
        lemma_key_index_props(entries_view(table@), k@);
    }
    let mut j: usize = 0;
    while j < table.len()
        invariant
            j <= table.len(),
            forall|a: int| 0 <= a < j ==> (#[trigger] entries_view(table@)[a]).0 != k@,
        decreases table.len() - j,
    {
        if table[j].0.eq(k) {
            proof {
                lemma_key_index_props(entries_view(table@), k@);
                assert(entries_view(table@)[j as int].0 == k@);
            }
            return Some(j);
        }
        j = j + 1;
    }
    proof {
        lemma_key_index_props(entries_view(table@), k@);
    }
    None
}

/// Collapses `entries` to one entry per normalized key: first-seen key
/// position, last value wins.
fn dedup_table(entries: &Vec<(String, String)>) -> (table: Vec<(String, String)>)
    ensures
        entries_view(table@) == dedup_keys(normalize_table(entries_view(entries@))),
{
    let ghost evs = entries_view(entries@);
    let mut table: Vec<(String, String)> = Vec::new();
    let mut idx: usize = 0;
    proof {
        assert(evs.take(0) =~= Seq::<(Seq<char>, Seq<char>)>::empty());
        assert(normalize_table(evs.take(0)) =~= Seq::<(Seq<char>, Seq<char>)>::empty());
    }
    while idx < entries.len()
        invariant
            idx <= entries.len(),
            evs == entries_view(entries@),
            entries_view(table@) == dedup_keys(normalize_table(evs.take(idx as int))),
        decreases entries.len() - idx,
    {
        let k = crate::text::lower_string(entries[idx].0.as_str());
        let v = entries[idx].1.clone();
        let ghost prev = entries_view(table@);
        match find_key(&table, &k) {
            Some(j) => {
                let kc = k.clone();
                let vc = v.clone();
                table[j] = (kc, vc);
                proof {
                    assert(entries_view(table@) =~= prev.update(j as int, (k@, v@)));
                }
            },
            None => {
                table.push((k, v));
                proof {
                    assert(entries_view(table@) =~= prev.push((k@, v@)));
                }
            },
        }
        proof {
            let e = evs[idx as int];
            assert(e == (entries@[idx as int].0@, entries@[idx as int].1@));
            assert(evs.take(idx + 1) =~= evs.take(idx as int).push(e));
            assert(normalize_table(evs.take(idx + 1)) =~= normalize_table(
                evs.take(idx as int),
            ).push((norm_key(e.0), e.1)));
            assert(normalize_table(evs.take(idx + 1)).drop_last() =~= normalize_table(
                evs.take(idx as int),
            ));
            assert(entries_view(table@) == upsert(prev, norm_key(e.0), e.1));
            assert(entries_view(table@) == dedup_keys(normalize_table(evs.take(idx + 1))));
        }
        idx = idx + 1;
    }
    proof {
        assert(evs.take(entries@.len() as int) =~= evs);
    }
    table
}

} // verus!
