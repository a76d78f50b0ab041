use rainworld_level::error::LoadError;
use rainworld_level::json::{JsonValue, Number};
use rainworld_level::lingo_to_json::{
    convert_lines, convert_to_json, jsonify_lingo_objects, split_records, wrap_in_braces,
};
use rainworld_level::rwlevel::RWLevel;
use rainworld_level::tile::Geometry;
use serde_json::Value;

const PROJECT: &str = r##"[[[[4, []], [0, []], [0, []]], [[0, []], [0, []], [0, []]], [[0, []], [0, []], [0, []]], [[0, []], [0, []], [0, []]], [[2, []], [0, []], [0, []]]], [[[0, []], [0, []], [0, []]], [[0, []], [0, []], [0, []]], [[0, []], [0, []], [0, []]], [[0, []], [0, []], [0, []]], [[0, []], [0, []], [0, []]]], [[[0, []], [0, []], [0, []]], [[0, []], [0, []], [0, []]], [[0, []], [0, []], [0, []]], [[0, []], [0, []], [0, []]], [[0, []], [0, []], [0, []]]], [[[0, []], [0, []], [0, []]], [[0, []], [0, []], [0, []]], [[0, []], [0, []], [0, []]], [[0, []], [0, []], [0, []]], [[0, []], [0, []], [0, []]]], [[[5, []], [0, []], [0, []]], [[0, []], [0, []], [0, []]], [[0, []], [0, []], [0, []]], [[0, []], [0, []], [0, []]], [[3, []], [0, []], [0, []]]]]
[#lastKeys: [#L: 0, #m1: 0, #m2: 0, #w: 0, #a: 0, #s: 0, #d: 0, #c: 0, #q: 0], #Keys: [#L: 0, #m1: 0, #m2: 0, #w: 0, #a: 0, #s: 0, #d: 0, #c: 0, #q: 0], #workLayer: 1, #lstMsPs: point(8, -1), #tlMatrix: [[[[#tp: "default", #Data: 0], [#tp: "default", #Data: 0], [#tp: "default", #Data: 0]], [[#tp: "default", #Data: 0], [#tp: "default", #Data: 0], [#tp: "default", #Data: 0]], [[#tp: "default", #Data: 0], [#tp: "default", #Data: 0], [#tp: "default", #Data: 0]], [[#tp: "default", #Data: 0], [#tp: "default", #Data: 0], [#tp: "default", #Data: 0]], [[#tp: "default", #Data: 0], [#tp: "default", #Data: 0], [#tp: "default", #Data: 0]]], [[[#tp: "default", #Data: 0], [#tp: "default", #Data: 0], [#tp: "default", #Data: 0]], [[#tp: "default", #Data: 0], [#tp: "default", #Data: 0], [#tp: "default", #Data: 0]], [[#tp: "default", #Data: 0], [#tp: "default", #Data: 0], [#tp: "default", #Data: 0]], [[#tp: "default", #Data: 0], [#tp: "default", #Data: 0], [#tp: "default", #Data: 0]], [[#tp: "default", #Data: 0], [#tp: "default", #Data: 0], [#tp: "default", #Data: 0]]], [[[#tp: "default", #Data: 0], [#tp: "default", #Data: 0], [#tp: "default", #Data: 0]], [[#tp: "default", #Data: 0], [#tp: "default", #Data: 0], [#tp: "default", #Data: 0]], [[#tp: "default", #Data: 0], [#tp: "default", #Data: 0], [#tp: "default", #Data: 0]], [[#tp: "default", #Data: 0], [#tp: "default", #Data: 0], [#tp: "default", #Data: 0]], [[#tp: "default", #Data: 0], [#tp: "default", #Data: 0], [#tp: "default", #Data: 0]]], [[[#tp: "default", #Data: 0], [#tp: "default", #Data: 0], [#tp: "default", #Data: 0]], [[#tp: "default", #Data: 0], [#tp: "default", #Data: 0], [#tp: "default", #Data: 0]], [[#tp: "default", #Data: 0], [#tp: "default", #Data: 0], [#tp: "default", #Data: 0]], [[#tp: "default", #Data: 0], [#tp: "default", #Data: 0], [#tp: "default", #Data: 0]], [[#tp: "default", #Data: 0], [#tp: "default", #Data: 0], [#tp: "default", #Data: 0]]], [[[#tp: "default", #Data: 0], [#tp: "default", #Data: 0], [#tp: "default", #Data: 0]], [[#tp: "default", #Data: 0], [#tp: "default", #Data: 0], [#tp: "default", #Data: 0]], [[#tp: "default", #Data: 0], [#tp: "default", #Data: 0], [#tp: "default", #Data: 0]], [[#tp: "default", #Data: 0], [#tp: "default", #Data: 0], [#tp: "default", #Data: 0]], [[#tp: "default", #Data: 0], [#tp: "default", #Data: 0], [#tp: "default", #Data: 0]]]], #defaultMaterial: "Concrete", #toolType: "tile", #toolData: "TILE", #tmPos: point(2, 1), #tmSavPosL: [1, 3, 1, 1, 1, 1, 1, 1, 1, 1, 1, 1, 1, 1, 1, 1, 1, 1, 1, 1, 1, 1, 1, 1, 1, 1, 1, 1, 1, 1, 1, 1, 1, 1, 1, 1, 1, 1, 28], #specialEdit: 0]
[#lastKeys: [], #Keys: [], #lstMsPs: point(0, 0), #effects: [], #emPos: point(1, 1), #editEffect: 0, #selectEditEffect: 0, #mode: "createNew", #brushSize: 5]
[#pos: point(567, 695), #rot: 0, #sz: point(50, 70), #col: 1, #Keys: [#m1: 0, #m2: 0, #w: 0, #a: 0, #s: 0, #d: 0, #r: 0, #f: 0, #z: 0, #m: 0], #lastKeys: [#m1: 0, #m2: 0, #w: 0, #a: 0, #s: 0, #d: 0, #r: 0, #f: 0, #z: 0, #m: 0], #lastTm: 301443808, #lightAngle: 180, #flatness: 1, #lightRect: rect(1000, 1000, -1000, -1000), #paintShape: "pxl"]
[#timeLimit: 4800, #defaultTerrain: 1, #maxFlies: 10, #flySpawnRate: 50, #lizards: [], #ambientSounds: [], #music: "NONE", #tags: [], #lightType: "Static", #waterDrips: 1, #lightRect: rect(0, 0, 1040, 800), #Matrix: []]
[#mouse: 1, #lastMouse: 1, #mouseClick: 0, #pal: 1, #pals: [[#detCol: color( 255, 0, 0 )]], #eCol1: 1, #eCol2: 2, #totEcols: 5, #tileSeed: 237, #colGlows: [0, 0], #size: point(5, 5), #extraTiles: [12, 3, 12, 5], #light: 1]
[#cameras: [point(20, 30)], #selectedCamera: 0, #quads: [[[0, 0], [0, 0], [0, 0], [0, 0]]], #Keys: [#n: 0, #d: 0, #e: 0, #p: 0], #lastKeys: [#n: 0, #d: 0, #e: 0, #p: 0]]
[#waterLevel: -1, #waterInFront: 1, #waveLength: 60, #waveAmplitude: 5, #waveSpeed: 10]
[#props: [], #lastKeys: [], #Keys: [], #workLayer: 1, #lstMsPs: point(0, 0), #pmPos: point(1, 1), #pmSavPosL: [], #propRotation: 0, #propStretchX: 1, #propStretchY: 1, #propFlipX: 1, #propFlipY: 1, #depth: 0, #color: 0]"##;

fn to_json(v: &Value) -> JsonValue {
    match v {
        Value::Null => JsonValue::Null,
        Value::Bool(b) => JsonValue::Bool(*b),
        Value::Number(n) => JsonValue::Number(match (n.as_u64(), n.as_i64()) {
            (Some(u), _) => Number::PosInt(u),
            (None, Some(i)) => Number::NegInt(i),
            (None, None) => Number::Float(n.as_f64().unwrap_or(0.0).to_bits()),
        }),
        Value::String(s) => JsonValue::String(s.clone()),
        Value::Array(a) => JsonValue::Array(a.iter().map(to_json).collect()),
        Value::Object(m) => {
            JsonValue::Object(m.iter().map(|(k, v)| (k.clone(), to_json(v))).collect())
        }
    }
}

fn chars(s: &str) -> Vec<char> {
    s.chars().collect()
}

#[test]
fn test_json_convert() {
    let line = "[#cameras: [point(20, 30)], #selectedCamera: 0, #quads: [[[0, 0], [0, 0], [0, 0], [0, 0]]], #Keys: [#n: 0, #d: 0, #e: 0, #p: 0], #lastKeys: [#n: 0, #d: 0, #e: 0, #p: 0]]";
    let fixed = convert_to_json(line).unwrap();

    println!("{line}");
    println!("{fixed}");

    let value: Value = serde_json::from_str(&fixed).unwrap();
    assert_eq!(value["#cameras"][0], Value::String("point(20, 30)".to_string()));
    assert!(value["#Keys"].is_object());
    assert!(value["#quads"].is_array());
}

#[test]
fn test_full_convert() {
    let json = convert_lines(PROJECT, '\n').unwrap();
    let entry = json
        .geom
        .get(0)
        .and_then(|v| v.get(1))
        .and_then(|v| v.get(1))
        .and_then(|v| v.get(1))
        .unwrap();
    assert_eq!(entry, &Value::Array(vec![]));
}

#[test]
fn record_without_sigil_is_kept() {
    let line = "[[[4, []], [0, []]], [[0, [1, 2]], [9, []]]]";
    assert_eq!(convert_to_json(line), Ok(line.to_string()));
    assert_eq!(convert_to_json(""), Ok(String::new()));
}

#[test]
fn nested_property_lists_become_objects() {
    let fixed = convert_to_json("[#a: [0,1], #b: [#c: 2]]").unwrap();
    assert_eq!(fixed, "{\"#a\": [0,1], \"#b\": {\"#c\": 2}}");
    let value: Value = serde_json::from_str(&fixed).unwrap();
    assert!(value["#a"].is_array());
    assert!(value["#b"].is_object());
    assert_eq!(value["#b"]["#c"], Value::from(2));
}

#[test]
fn keys_and_literals_are_quoted() {
    let fixed = convert_to_json("[#size: point(5, -5), #col: color( 255, 0, 0 ), #r: rect(1, 2, 3, 4)]").unwrap();
    assert_eq!(
        fixed,
        "{\"#size\": \"point(5, -5)\", \"#col\": \"color( 255, 0, 0 )\", \"#r\": \"rect(1, 2, 3, 4)\"}"
    );
}

#[test]
fn reclassify_rewrites_only_property_lists() {
    let out = jsonify_lingo_objects(&chars("[[#a: 1], [2, [#b: [3]]]]")).unwrap();
    let text: String = out.into_iter().collect();
    assert_eq!(text, "[{#a: 1}, [2, {#b: [3]}]]");
}

#[test]
fn unclosed_property_list_is_a_format_error() {
    assert_eq!(jsonify_lingo_objects(&chars("[#a: [1, 2]")), Err(LoadError::Format));
    assert_eq!(convert_to_json("[#a: [1, 2]"), Err(LoadError::Format));
    assert_eq!(jsonify_lingo_objects(&chars("[0, 1]]")).map(|c| c.len()), Ok(7));
}

#[test]
fn braces_replace_outer_brackets() {
    assert_eq!(wrap_in_braces("[1, 2]"), Ok("{1, 2}".to_string()));
    assert_eq!(wrap_in_braces("x"), Ok("}".to_string()));
    assert_eq!(wrap_in_braces(""), Err(LoadError::Format));
}

#[test]
fn records_split_on_separator() {
    assert_eq!(split_records("a\rb\r", '\r'), vec!["a", "b", ""]);
    assert_eq!(split_records("", ','), vec![""]);
    assert_eq!(split_records("1, 2", ','), vec!["1", " 2"]);
}

#[test]
fn wrong_record_count_fails() {
    let eight: Vec<&str> = PROJECT.split('\n').take(8).collect();
    assert_eq!(convert_lines(&eight.join("\n"), '\n').map(|_| ()), Err(LoadError::Format));
    let ten = format!("{PROJECT}\n[1]");
    assert_eq!(convert_lines(&ten, '\n').map(|_| ()), Err(LoadError::Format));
    assert_eq!(convert_lines("", '\n').map(|_| ()), Err(LoadError::Format));
    assert_eq!(convert_lines(PROJECT, '\r').map(|_| ()), Err(LoadError::Format));
}

#[test]
fn record_that_is_not_json_fails() {
    let mut records: Vec<&str> = PROJECT.split('\n').collect();
    records[7] = "[#waterLevel: -1, #waveLength: ]";
    assert_eq!(convert_lines(&records.join("\n"), '\n').map(|_| ()), Err(LoadError::Format));
}

#[test]
fn fixture_loads_end_to_end() {
    let json = convert_lines(PROJECT, '\n').unwrap();
    let level = RWLevel::assemble(
        "fixture".to_string(),
        &to_json(&json.geom),
        &to_json(&json.settings2),
        to_json(&json.effects),
    )
    .unwrap();
    assert_eq!(level.name(), "fixture");
    assert_eq!(level.dimensions(), (5, 5));
    assert_eq!(level.meta().dimensions(), (5, 5));
    let total: usize = (0..3).map(|layer| level.tiles(layer).len()).sum();
    assert_eq!(total, 75);
    let fg = level.tiles(RWLevel::L1_FG);
    assert_eq!(fg[0].geometry, Geometry::SlopeNW);
    assert_eq!(fg[4].geometry, Geometry::SlopeNE);
    assert_eq!(fg[20].geometry, Geometry::SlopeSW);
    assert_eq!(fg[24].geometry, Geometry::SlopeSE);
    assert_eq!(fg[12].geometry, Geometry::Air);
    assert!(fg.iter().all(|t| t.features().is_empty()));
    assert!(level.tiles(RWLevel::L2_MG).iter().all(|t| t.geometry == Geometry::Air));
    assert!(level.tiles(RWLevel::L3_BG).iter().all(|t| t.geometry == Geometry::Air));
    assert!(level.effects().is_empty());
}
