//! Palette files: one variant per recognized file-name suffix, each
//! turning decoded text into a palette; unrecognized suffixes always fail
//! at parse time.

use vstd::prelude::*;
use vstd::string::*;

use crate::error::PaletteError;
use crate::palette::{palette_of_table, Palette, PaletteView};
use crate::text::{ends_with, file_stem, file_stem_of, str_ends_with};

verus! {

/// What toml::from_str decodes `s` to, when its root is read as a table:
/// `None` on a syntax error, else the entries in the order the decoder's
/// table yields them (deterministic for given text; insertion order in
/// this build, whose table preserves order), a string value as `Some`,
/// any other shape as `None`.
pub uninterp spec fn toml_doc_of(s: Seq<char>) -> Option<Seq<(String, Option<String>)>>;

/// What serde_json::from_str decodes `s` to: `None` on a syntax error,
/// `Some(None)` when the root is no object, else the entries in the
/// decoder's (sorted) order, non-string values as `None`.
pub uninterp spec fn json_doc_of(s: Seq<char>) -> Option<Option<Seq<(String, Option<String>)>>>;

/// What yaml_rust2's loader decodes `s` to: `None` on a scan error,
/// `Some(None)` when there is no document or its root is no mapping, else
/// the entries in document order, non-string keys and values as `None`.
pub uninterp spec fn yaml_doc_of(s: Seq<char>) -> Option<
    Option<Seq<(Option<String>, Option<String>)>>,
>;

/// What nuon::from_nuon decodes `s` to: `None` on a parse error,
/// `Some(None)` when the value is no record, else the record's entries in
/// order, non-string values as `None`.
pub uninterp spec fn nuon_doc_of(s: Seq<char>) -> Option<Option<Seq<(String, Option<String>)>>>;

/// Relies on toml::from_str (through str::parse::<toml::Table>): decoding
/// is a function of the text alone, and the table iterates in a
/// deterministic order. Converts each value: a TOML string stays, any
/// other shape becomes `None`.
#[verifier::external_body]
fn decode_toml(contents: &str) -> (r: Option<Vec<(String, Option<String>)>>)
    ensures
        r is Some <==> toml_doc_of(contents@) is Some,
        r matches Some(v) ==> Some(v@) == toml_doc_of(contents@),
{
    let t = match contents.parse::<toml::Table>() { Ok(t) => t, Err(_) => return None };
    let conv = |v: toml::Value| if let toml::Value::String(s) = v { Some(s) } else { None };
    Some(t.into_iter().map(|(k, v)| (k, conv(v))).collect())
}

/// Relies on serde_json::from_str::<serde_json::Value>: decoding is a
/// function of the text alone, and an object's map iterates in sorted key
/// order. Converts each value: a JSON string stays, any other shape
/// becomes `None`; a non-object root is told apart from a syntax error.
#[verifier::external_body]
fn decode_json(contents: &str) -> (r: Option<Option<Vec<(String, Option<String>)>>>)
    ensures
        r is Some <==> json_doc_of(contents@) is Some,
        r matches Some(d) ==> (d is Some <==> json_doc_of(contents@)->Some_0 is Some),
        r matches Some(d) ==> (d matches Some(v) ==> Some(Some(v@)) == json_doc_of(contents@)),
{
    let val = match serde_json::from_str::<serde_json::Value>(contents) { Ok(v) => v, Err(_) => return None };
    let map = match val { serde_json::Value::Object(m) => m, _ => return Some(None) };
    let conv = |v: serde_json::Value| if let serde_json::Value::String(s) = v { Some(s) } else { None };
    Some(Some(map.into_iter().map(|(k, v)| (k, conv(v))).collect()))
}

/// Relies on yaml_rust2::YamlLoader::load_from_str: decoding is a function
/// of the text alone, and a mapping iterates in insertion order. Takes the
/// first document's root mapping; string keys and values stay, any other
/// shape becomes `None`.
#[verifier::external_body]
fn decode_yaml(contents: &str) -> (r: Option<Option<Vec<(Option<String>, Option<String>)>>>)
    ensures
        r is Some <==> yaml_doc_of(contents@) is Some,
        r matches Some(d) ==> (d is Some <==> yaml_doc_of(contents@)->Some_0 is Some),
        r matches Some(d) ==> (d matches Some(v) ==> Some(Some(v@)) == yaml_doc_of(contents@)),
{
    let docs = match yaml_rust2::YamlLoader::load_from_str(contents) { Ok(d) => d, Err(_) => return None };
    let h = match docs.into_iter().next() { Some(yaml_rust2::Yaml::Hash(h)) => h, _ => return Some(None) };
    let conv = |y: yaml_rust2::Yaml| if let yaml_rust2::Yaml::String(s) = y { Some(s) } else { None };
    Some(Some(h.into_iter().map(|(k, v)| (conv(k), conv(v))).collect()))
}

/// Relies on nuon::from_nuon: decoding is a function of the text alone
/// (the engine state it builds per call is constant), and a record
/// iterates in insertion order. String values stay, any other shape
/// becomes `None`; a non-record value is told apart from a parse error.
/// The underlying parser has no recursion cap, so pathologically nested
/// input can exhaust the stack, as any input can exhaust memory.
#[verifier::external_body]
fn decode_nuon(contents: &str) -> (r: Option<Option<Vec<(String, Option<String>)>>>)
    ensures
        r is Some <==> nuon_doc_of(contents@) is Some,
        r matches Some(d) ==> (d is Some <==> nuon_doc_of(contents@)->Some_0 is Some),
        r matches Some(d) ==> (d matches Some(v) ==> Some(Some(v@)) == nuon_doc_of(contents@)),
{
    let val = match nuon::from_nuon(contents, None) { Ok(v) => v, Err(_) => return None };
    let rec = match val { nu_protocol::Value::Record { val, .. } => val, _ => return Some(None) };
    let conv = |v: &nu_protocol::Value| if let nu_protocol::Value::String { val: s, .. } = v { Some(s.clone()) } else { None };
    Some(Some(rec.iter().map(|(k, v)| (k.clone(), conv(v))).collect()))
}

/// The flat string table of a decoded document whose values are all
/// strings; `None` where some value has another shape.
pub open spec fn doc_table_view(doc: Seq<(String, Option<String>)>) -> Seq<
    (Seq<char>, Seq<char>),
> {
    doc.map_values(|e: (String, Option<String>)| (e.0@, (e.1->Some_0)@))
}

pub open spec fn table_of_doc(doc: Seq<(String, Option<String>)>) -> Option<
    Seq<(Seq<char>, Seq<char>)>,
> {
    if forall|i: int| 0 <= i < doc.len() ==> (#[trigger] doc[i]).1 is Some {
        Some(doc_table_view(doc))
    } else {
        None
    }
}

/// `pv` with `fb` as its display name where it has none.
pub open spec fn with_fallback(pv: PaletteView, fb: Seq<char>) -> PaletteView {
    PaletteView {
        name: if pv.name is Some {
            pv.name
        } else {
            Some(fb)
        },
        colors: pv.colors,
    }
}

/// The palette that the decoded document `doc` of the file at `path`
/// describes: every value must be a string and the resulting flat table a
/// valid palette table, with the file's stem as the fallback name.
pub open spec fn doc_palette(doc: Seq<(String, Option<String>)>, path: Seq<char>) -> Option<
    PaletteView,
> {
    match table_of_doc(doc) {
        None => None,
        Some(t) => match palette_of_table(t) {
            None => None,
            Some(pv) => Some(with_fallback(pv, file_stem(path))),
        },
    }
}

/// Builds the palette of one decoded document: a non-string value is a
/// `FormatError`, and so is any value that is no hex color.
fn palette_from_doc(doc: Vec<(String, Option<String>)>, path: &str) -> (r: Result<
    Palette,
    PaletteError,
>)
    ensures
        match doc_palette(doc@, path@) {
            Some(pv) => r matches Ok(p) && p@ == pv && p.wf(),
            None => r == Err::<Palette, PaletteError>(PaletteError::Format),
        },
{
    let mut flat: Vec<(String, String)> = Vec::new();
    let mut i: usize = 0;
    while i < doc.len()
        invariant
            i <= doc.len(),
            flat@.len() == i,
            forall|j: int| 0 <= j < i ==> (#[trigger] doc@[j]).1 is Some,
            forall|j: int|
                0 <= j < i ==> (#[trigger] flat@[j]).0 == doc@[j].0 && Some(flat@[j].1)
                    == doc@[j].1,
        decreases doc.len() - i,
    {
        match &doc[i].1 {
            Some(s) => {
                let kc = doc[i].0.clone();
                let sc = s.clone();
                flat.push((kc, sc));
            },
            None => {
                proof {
                    assert(doc@[i as int].1 is None);
                    assert(table_of_doc(doc@) is None);
                }
                return Err(PaletteError::Format);
            },
        }
        i = i + 1;
    }
    proof {
        assert forall|j: int|
            0 <= j < doc@.len() implies crate::palette::entries_view(flat@)[j] == doc_table_view(
            doc@,
        )[j] by {
            assert(flat@[j].0 == doc@[j].0);
            assert(Some(flat@[j].1) == doc@[j].1);
        }
        assert(crate::palette::entries_view(flat@) =~= doc_table_view(doc@));
        assert(table_of_doc(doc@) == Some(crate::palette::entries_view(flat@)));
    }
    match Palette::from_entries(flat) {
        Err(e) => Err(e),
        Ok(p) => {
            let stem = file_stem_of(path);
            Ok(p.or_name(stem))
        },
    }
}

/// A source of one palette: it can be asked to parse the text that was
/// read from its file.
pub trait PaletteFile {
    /// Parses the file's text `contents` into a palette.
    fn parse(&self, contents: &str) -> (r: Result<Palette, PaletteError>);
}

/// What parsing a TOML palette file yields for the given path and text.
pub open spec fn toml_parse_post(
    path: Seq<char>,
    s: Seq<char>,
    r: Result<Palette, PaletteError>,
) -> bool {
    match toml_doc_of(s) {
        None => r == Err::<Palette, PaletteError>(PaletteError::Decode),
        Some(doc) => match doc_palette(doc, path) {
            Some(pv) => r matches Ok(p) && p@ == pv && p.wf(),
            None => r == Err::<Palette, PaletteError>(PaletteError::Format),
        },
    }
}

/// What parsing a JSON, YAML or NUON palette file yields, given the
/// decoded document of its text: a syntax error is a `DecodeError`, a
/// non-record root a `FormatError`, else the document's palette.
pub open spec fn doc_parse_post(
    path: Seq<char>,
    dec: Option<Option<Seq<(String, Option<String>)>>>,
    r: Result<Palette, PaletteError>,
) -> bool {
    match dec {
        None => r == Err::<Palette, PaletteError>(PaletteError::Decode),
        Some(None) => r == Err::<Palette, PaletteError>(PaletteError::Format),
        Some(Some(doc)) => match doc_palette(doc, path) {
            Some(pv) => r matches Ok(p) && p@ == pv && p.wf(),
            None => r == Err::<Palette, PaletteError>(PaletteError::Format),
        },
    }
}

/// A TOML file containing a color palette; holds the path to the file.
pub struct TomlFile(pub String);

impl PaletteFile for TomlFile {
    fn parse(&self, contents: &str) -> (r: Result<Palette, PaletteError>)
        ensures
            toml_parse_post(self.0@, contents@, r),
    {
        match decode_toml(contents) {
            None => Err(PaletteError::Decode),
            Some(doc) => palette_from_doc(doc, self.0.as_str()),
        }
    }
}

/// A JSON file containing a color palette; holds the path to the file.
pub struct JsonFile(pub String);

impl PaletteFile for JsonFile {
    fn parse(&self, contents: &str) -> (r: Result<Palette, PaletteError>)
        ensures
            doc_parse_post(self.0@, json_doc_of(contents@), r),
    {
        match decode_json(contents) {
            None => Err(PaletteError::Decode),
            Some(None) => Err(PaletteError::Format),
            Some(Some(doc)) => palette_from_doc(doc, self.0.as_str()),
        }
    }
}

/// The document with every key checked to be a string; `None` where a key
/// has another shape.
pub open spec fn keyed_view(doc: Seq<(Option<String>, Option<String>)>) -> Seq<
    (String, Option<String>),
> {
    doc.map_values(|e: (Option<String>, Option<String>)| (e.0->Some_0, e.1))
}

pub open spec fn keyed_doc(doc: Seq<(Option<String>, Option<String>)>) -> Option<
    Seq<(String, Option<String>)>,
> {
    if forall|i: int| 0 <= i < doc.len() ==> (#[trigger] doc[i]).0 is Some {
        Some(keyed_view(doc))
    } else {
        None
    }
}

/// What parsing a YAML palette file yields for the given path and text: a
/// non-string key is a `FormatError` like any other wrong shape.
pub open spec fn yaml_parse_post(
    path: Seq<char>,
    s: Seq<char>,
    r: Result<Palette, PaletteError>,
) -> bool {
    match yaml_doc_of(s) {
        None => r == Err::<Palette, PaletteError>(PaletteError::Decode),
        Some(None) => r == Err::<Palette, PaletteError>(PaletteError::Format),
        Some(Some(kdoc)) => match keyed_doc(kdoc) {
            None => r == Err::<Palette, PaletteError>(PaletteError::Format),
            Some(doc) => match doc_palette(doc, path) {
                Some(pv) => r matches Ok(p) && p@ == pv && p.wf(),
                None => r == Err::<Palette, PaletteError>(PaletteError::Format),
            },
        },
    }
}

/// A YAML file containing a color palette; holds the path to the file.
pub struct YamlFile(pub String);

impl PaletteFile for YamlFile {
    fn parse(&self, contents: &str) -> (r: Result<Palette, PaletteError>)
        ensures
            yaml_parse_post(self.0@, contents@, r),
    {
        match decode_yaml(contents) {
            None => Err(PaletteError::Decode),
            Some(None) => Err(PaletteError::Format),
            Some(Some(kdoc)) => {
                let mut doc: Vec<(String, Option<String>)> = Vec::new();
                let mut i: usize = 0;
                proof {
                    assert(doc@ =~= keyed_view(kdoc@.take(0)));
                }
                while i < kdoc.len()
                    invariant
                        i <= kdoc.len(),
                        forall|j: int| 0 <= j < i ==> (#[trigger] kdoc@[j]).0 is Some,
                        doc@ == keyed_view(kdoc@.take(i as int)),
                        Some(Some(kdoc@)) == yaml_doc_of(contents@),
                    decreases kdoc.len() - i,
                {
                    match &kdoc[i].0 {
                        Some(k) => {
                            let kc = k.clone();
                            let vc = kdoc[i].1.clone();
                            doc.push((kc, vc));
                            proof {
                                assert(kdoc@.take(i + 1).drop_last() =~= kdoc@.take(i as int));
                                assert(doc@ =~= keyed_view(kdoc@.take(i + 1)));
                            }
                        },
                        None => {
                            proof {
                                assert(kdoc@[i as int].0 is None);
                                assert(keyed_doc(kdoc@) is None);
                            }
                            return Err(PaletteError::Format);
                        },
                    }
                    i = i + 1;
                }
                proof {
                    assert(kdoc@.take(kdoc@.len() as int) =~= kdoc@);
                    assert(keyed_doc(kdoc@) == Some(doc@));
                }
                palette_from_doc(doc, self.0.as_str())
            },
        }
    }
}

/// A NUON file containing a color palette; holds the path to the file.
pub struct NuonFile(pub String);

impl PaletteFile for NuonFile {
    fn parse(&self, contents: &str) -> (r: Result<Palette, PaletteError>)
        ensures
            doc_parse_post(self.0@, nuon_doc_of(contents@), r),
    {
        match decode_nuon(contents) {
            None => Err(PaletteError::Decode),
            Some(None) => Err(PaletteError::Format),
            Some(Some(doc)) => palette_from_doc(doc, self.0.as_str()),
        }
    }
}

/// A file of an unrecognized type; holds the path, and always fails to
/// parse with `UnsupportedFormatError`.
pub struct UnsupportedFile(pub String);

impl PaletteFile for UnsupportedFile {
    fn parse(&self, _contents: &str) -> (r: Result<Palette, PaletteError>)
        ensures
            r matches Err(e) && e matches PaletteError::UnsupportedFormat(p) && p@ == self.0@,
    {
        Err(PaletteError::UnsupportedFormat(self.0.clone()))
    }
}

/// One palette file of a recognized format, or an unsupported one.
pub enum PaletteSource {
    Toml(TomlFile),
    Json(JsonFile),
    Yaml(YamlFile),
    Nuon(NuonFile),
    Unsupported(UnsupportedFile),
}

impl PaletteFile for PaletteSource {
    fn parse(&self, contents: &str) -> (r: Result<Palette, PaletteError>)
        ensures
            match self {
                PaletteSource::Toml(f) => toml_parse_post(f.0@, contents@, r),
                PaletteSource::Json(f) => doc_parse_post(f.0@, json_doc_of(contents@), r),
                PaletteSource::Yaml(f) => yaml_parse_post(f.0@, contents@, r),
                PaletteSource::Nuon(f) => doc_parse_post(f.0@, nuon_doc_of(contents@), r),
                PaletteSource::Unsupported(f) => r matches Err(e) && e
                    matches PaletteError::UnsupportedFormat(p) && p@ == f.0@,
            },
    {
        match self {
            PaletteSource::Toml(f) => f.parse(contents),
            PaletteSource::Json(f) => f.parse(contents),
            PaletteSource::Yaml(f) => f.parse(contents),
            PaletteSource::Nuon(f) => f.parse(contents),
            PaletteSource::Unsupported(f) => f.parse(contents),
        }
    }
}

/// Creates a palette file from a file path.
///
/// The file type is determined by the file suffix: `.toml`, `.json`,
/// `.yaml`/`.yml` and `.nuon` each select their format; any other suffix
/// selects an unsupported file, which fails when parsed.
pub fn from_path(path: String) -> (r: PaletteSource)
    ensures
        ends_with(path@, ".toml"@) ==> (r matches PaletteSource::Toml(f) && f.0@ == path@),
        !ends_with(path@, ".toml"@) && ends_with(path@, ".json"@) ==> (r
            matches PaletteSource::Json(f) && f.0@ == path@),
        !ends_with(path@, ".toml"@) && !ends_with(path@, ".json"@) && (ends_with(path@, ".yaml"@)
            || ends_with(path@, ".yml"@)) ==> (r matches PaletteSource::Yaml(f) && f.0@ == path@),
        !ends_with(path@, ".toml"@) && !ends_with(path@, ".json"@) && !ends_with(path@, ".yaml"@)
            && !ends_with(path@, ".yml"@) && ends_with(path@, ".nuon"@) ==> (r
            matches PaletteSource::Nuon(f) && f.0@ == path@),
        !ends_with(path@, ".toml"@) && !ends_with(path@, ".json"@) && !ends_with(path@, ".yaml"@)
            && !ends_with(path@, ".yml"@) && !ends_with(path@, ".nuon"@) ==> (r
            matches PaletteSource::Unsupported(f) && f.0@ == path@),
{
    if str_ends_with(path.as_str(), ".toml") {
        PaletteSource::Toml(TomlFile(path))
    } else if str_ends_with(path.as_str(), ".json") {
        PaletteSource::Json(JsonFile(path))
    } else if str_ends_with(path.as_str(), ".yaml") || str_ends_with(path.as_str(), ".yml") {
        PaletteSource::Yaml(YamlFile(path))
    } else if str_ends_with(path.as_str(), ".nuon") {
        PaletteSource::Nuon(NuonFile(path))
    } else {
        PaletteSource::Unsupported(UnsupportedFile(path))
    }
}

} // verus!
