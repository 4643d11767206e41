use palette::collection::Collection;
use palette::color::{Color, THRESHOLD};
use palette::error::PaletteError;
use palette::palette::Palette;
use palette::render::render;
use palette::palette_file::{
    from_path, JsonFile, NuonFile, PaletteFile, PaletteSource, TomlFile, UnsupportedFile, YamlFile,
};

fn entries(pairs: &[(&str, &str)]) -> Vec<(String, String)> {
    pairs.iter().map(|(k, v)| (k.to_string(), v.to_string())).collect()
}

#[test]
fn color_round_trip_normalizes_case() {
    let c = Color::from_str("#FF4500").unwrap();
    assert_eq!(c, Color(255, 69, 0));
    assert_eq!(c.to_hex(), "#ff4500");
    assert_eq!(Color::from_str(&c.to_hex()).unwrap(), c);
}

#[test]
fn color_parse_rejects_bad_text() {
    assert_eq!(Color::from_str("ff4500"), Err(PaletteError::Format));
    assert_eq!(Color::from_str("#ff450"), Err(PaletteError::Format));
    assert_eq!(Color::from_str("#ff45000"), Err(PaletteError::Format));
    assert_eq!(Color::from_str("#gg4500"), Err(PaletteError::Format));
}

#[test]
fn contrast_rule_black_and_white() {
    assert!(Color(0, 0, 0).brightness() < THRESHOLD);
    assert!(Color(255, 255, 255).brightness() >= THRESHOLD);
}

#[test]
fn key_normalization_last_write_wins() {
    let p = Palette::from_entries(entries(&[
        ("Red", "#ff0000"),
        ("RED", "#00ff00"),
        ("red", "#0000ff"),
        ("Name", "Warm"),
    ]))
    .unwrap();
    assert_eq!(p.name(), Some("Warm"));
    let cs = p.colors();
    assert_eq!(cs.len(), 1);
    assert_eq!(cs[0].0, "red");
    assert_eq!(cs[0].1, Color(0, 0, 255));
}

#[test]
fn palette_rejects_bad_color_value() {
    let r = Palette::from_entries(entries(&[("primary", "not-a-color")]));
    assert_eq!(r.err(), Some(PaletteError::Format));
}

#[test]
fn empty_table_is_a_valid_palette() {
    let p = Palette::from_entries(Vec::new()).unwrap();
    assert_eq!(p.name(), None);
    assert!(p.colors().is_empty());
}

#[test]
fn unsupported_suffix_fails_without_decoding() {
    let src = from_path("x.bmp".to_string());
    assert!(matches!(src, PaletteSource::Unsupported(_)));
    match src.parse("") {
        Err(PaletteError::UnsupportedFormat(p)) => assert_eq!(p, "x.bmp"),
        other => panic!("expected UnsupportedFormat, got {:?}", other.map(|_| ())),
    }
}

#[test]
fn suffix_dispatch() {
    assert!(matches!(from_path("a.toml".to_string()), PaletteSource::Toml(_)));
    assert!(matches!(from_path("a.json".to_string()), PaletteSource::Json(_)));
    assert!(matches!(from_path("a.yaml".to_string()), PaletteSource::Yaml(_)));
    assert!(matches!(from_path("a.yml".to_string()), PaletteSource::Yaml(_)));
    assert!(matches!(from_path("a.nuon".to_string()), PaletteSource::Nuon(_)));
}

#[test]
fn toml_file_parses_and_keeps_explicit_name() {
    let f = TomlFile("sunset.toml".to_string());
    let p = f.parse("name = \"Sunset\"\nprimary = \"#ff4500\"").unwrap();
    assert_eq!(p.name(), Some("Sunset"));
    assert_eq!(p.get(&"primary".to_string()), Some(Color(255, 69, 0)));
}

#[test]
fn toml_file_stem_is_fallback_name() {
    let f = TomlFile("palettes/ocean.toml".to_string());
    let p = f.parse("primary = \"#1e90ff\"").unwrap();
    assert_eq!(p.name(), Some("ocean"));
}

#[test]
fn toml_decode_error() {
    let f = TomlFile("a.toml".to_string());
    assert_eq!(f.parse("= bad toml").err(), Some(PaletteError::Decode));
}

#[test]
fn toml_nested_value_is_format_error() {
    let f = TomlFile("a.toml".to_string());
    assert_eq!(f.parse("[primary]\nr = 1").err(), Some(PaletteError::Format));
}

#[test]
fn json_file_parses() {
    let f = JsonFile("ocean.json".to_string());
    let p = f.parse("{\"name\": \"Ocean\", \"primary\": \"#1e90ff\"}").unwrap();
    assert_eq!(p.name(), Some("Ocean"));
    assert_eq!(p.get(&"primary".to_string()), Some(Color(30, 144, 255)));
}

#[test]
fn json_non_object_root_is_format_error() {
    let f = JsonFile("a.json".to_string());
    assert_eq!(f.parse("[1, 2]").err(), Some(PaletteError::Format));
    assert_eq!(f.parse("{not json").err(), Some(PaletteError::Decode));
}

#[test]
fn yaml_file_parses() {
    let f = YamlFile("warm.yaml".to_string());
    let p = f.parse("name: Warm\nprimary: \"#ff4500\"").unwrap();
    assert_eq!(p.name(), Some("Warm"));
    assert_eq!(p.get(&"primary".to_string()), Some(Color(255, 69, 0)));
}

#[test]
fn nuon_file_parses() {
    let f = NuonFile("cool.nuon".to_string());
    let p = f.parse("{ name: Cool, primary: \"#1e90ff\" }").unwrap();
    assert_eq!(p.name(), Some("Cool"));
    assert_eq!(p.get(&"primary".to_string()), Some(Color(30, 144, 255)));
}

#[test]
fn unsupported_file_reports_path() {
    let f = UnsupportedFile("notes.txt".to_string());
    match f.parse("anything") {
        Err(PaletteError::UnsupportedFormat(p)) => assert_eq!(p, "notes.txt"),
        other => panic!("expected UnsupportedFormat, got {:?}", other.map(|_| ())),
    }
}

#[test]
fn collection_stays_rectangular() {
    let a = Palette::from_entries(entries(&[("name", "Sunset"), ("primary", "#ff4500")])).unwrap();
    let b = Palette::from_entries(entries(&[
        ("name", "Ocean"),
        ("primary", "#1e90ff"),
        ("secondary", "#003366"),
    ]))
    .unwrap();
    let mut c = Collection::new();
    c.add(a);
    c.add(b);
    assert_eq!(c.names().len(), 2);
    for (_, row) in c.rows().iter() {
        assert_eq!(row.len(), 2);
    }
}

#[test]
fn end_to_end_two_files() {
    let a = TomlFile("a.toml".to_string())
        .parse("name = \"Sunset\"\nprimary = \"#ff4500\"")
        .unwrap();
    let b = TomlFile("b.toml".to_string())
        .parse("name = \"Ocean\"\nprimary = \"#1e90ff\"\nsecondary = \"#003366\"")
        .unwrap();
    let c = Collection::new().with_added(a).with_added(b);
    assert_eq!(
        c.names(),
        &vec![Some("Sunset".to_string()), Some("Ocean".to_string())]
    );
    let rows = c.rows();
    assert_eq!(rows.len(), 2);
    assert_eq!(rows[0].0, "primary");
    assert_eq!(rows[0].1, vec![Some(Color(255, 69, 0)), Some(Color(30, 144, 255))]);
    assert_eq!(rows[1].0, "secondary");
    assert_eq!(rows[1].1, vec![None, Some(Color(0, 51, 102))]);
}

#[test]
fn empty_palette_contributes_a_column_and_no_rows() {
    let a = Palette::from_entries(entries(&[("name", "Empty")])).unwrap();
    let b = Palette::from_entries(entries(&[("name", "Full"), ("primary", "#010203")])).unwrap();
    let mut c = Collection::new();
    c.add(a);
    c.add(b);
    assert_eq!(
        c.names(),
        &vec![Some("Empty".to_string()), Some("Full".to_string())]
    );
    let rows = c.rows();
    assert_eq!(rows.len(), 1);
    assert_eq!(rows[0].0, "primary");
    assert_eq!(rows[0].1, vec![None, Some(Color(1, 2, 3))]);
}

#[test]
fn render_header_and_rows() {
    let a = TomlFile("a.toml".to_string())
        .parse("name = \"Sunset\"\nprimary = \"#ff4500\"")
        .unwrap();
    let b = TomlFile("b.toml".to_string())
        .parse("name = \"Ocean\"\nprimary = \"#1e90ff\"\nsecondary = \"#003366\"")
        .unwrap();
    let c = Collection::new().with_added(a).with_added(b);
    let (header, rows) = render(&c);
    assert_eq!(header, "name      | Sunset  |  Ocean  ");
    assert_eq!(rows.len(), 2);
    assert_eq!(rows[0].0, "primary   ");
    assert_eq!(rows[1].0, "secondary ");
    // primary: two painted swatches
    assert_eq!(rows[0].1[0].text, " #ff4500 ");
    assert_eq!(rows[0].1[0].bg, Some(Color(255, 69, 0)));
    assert_eq!(rows[0].1[1].text, " #1e90ff ");
    assert_eq!(rows[0].1[1].bg, Some(Color(30, 144, 255)));
}

#[test]
fn render_missing_slot_is_blank_and_unpainted() {
    let a = Palette::from_entries(entries(&[("name", "Sunset"), ("primary", "#ff4500")])).unwrap();
    let b = Palette::from_entries(entries(&[
        ("name", "Ocean"),
        ("primary", "#1e90ff"),
        ("secondary", "#003366"),
    ]))
    .unwrap();
    let c = Collection::new().with_added(a).with_added(b);
    let (_, rows) = render(&c);
    let blank = &rows[1].1[0];
    assert_eq!(blank.bg, None);
    assert!(!blank.white_text);
    assert_eq!(blank.text, "         ");
    let painted = &rows[1].1[1];
    assert_eq!(painted.bg, Some(Color(0, 51, 102)));
    assert_eq!(painted.text, " #003366 ");
}

#[test]
fn render_contrast_choice_per_cell() {
    let p = Palette::from_entries(entries(&[
        ("dark", "#000000"),
        ("light", "#ffffff"),
    ]))
    .unwrap();
    let c = Collection::new().with_added(p);
    let (_, rows) = render(&c);
    let dark = rows.iter().find(|(k, _)| k.trim() == "dark").unwrap();
    let light = rows.iter().find(|(k, _)| k.trim() == "light").unwrap();
    assert!(dark.1[0].white_text);
    assert!(!light.1[0].white_text);
}

#[test]
fn render_empty_collection_is_header_only() {
    let c = Collection::new();
    let (header, rows) = render(&c);
    assert_eq!(header, "name  ");
    assert!(rows.is_empty());
}

#[test]
fn render_unnamed_column_is_blank() {
    let p = Palette::from_entries(entries(&[("primary", "#010203")])).unwrap();
    let c = Collection::new().with_added(p);
    let (header, _) = render(&c);
    assert_eq!(header, "name    |         ");
}
