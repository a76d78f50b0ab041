use rainworld_level::error::LoadError;
use rainworld_level::json::{JsonValue, Number};
use rainworld_level::rwlevel::{load_effects, load_tiles, RWLevel};
use rainworld_level::tile::{Feature, Geometry};

fn num(n: u64) -> JsonValue {
    JsonValue::Number(Number::PosInt(n))
}

fn text(s: &str) -> JsonValue {
    JsonValue::String(s.to_string())
}

fn arr(items: Vec<JsonValue>) -> JsonValue {
    JsonValue::Array(items)
}

fn obj(members: Vec<(&str, JsonValue)>) -> JsonValue {
    JsonValue::Object(members.into_iter().map(|(k, v)| (k.to_string(), v)).collect())
}

/// A cell entry `[code, [features...]]`.
fn cell(code: u64, features: &[u64]) -> JsonValue {
    arr(vec![num(code), arr(features.iter().map(|f| num(*f)).collect())])
}

/// A geometry record of `width` columns and `height` rows whose cells hold
/// `code(x, y, layer)`.
fn grid(width: u64, height: u64, code: impl Fn(u64, u64, u64) -> JsonValue) -> JsonValue {
    arr((0..width)
        .map(|x| arr((0..height).map(|y| arr((0..3).map(|l| code(x, y, l)).collect())).collect()))
        .collect())
}

fn settings(size: &str) -> JsonValue {
    obj(vec![("#mouse", num(1)), ("#size", text(size))])
}

fn no_effects() -> JsonValue {
    obj(vec![("#effects", arr(vec![]))])
}

#[test]
fn tiles_are_laid_out_row_major() {
    let geom = grid(3, 2, |x, y, l| cell(if l == 0 { x + 3 * y } else { 1 }, &[]));
    let layers = load_tiles(&geom, 3, 2).unwrap();
    assert_eq!(layers[0].len(), 6);
    assert_eq!(layers[0][1].geometry, Geometry::Wall);
    assert_eq!(layers[0][2].geometry, Geometry::SlopeSW);
    assert_eq!(layers[0][3].geometry, Geometry::SlopeSE);
    assert_eq!(layers[0][5].geometry, Geometry::SlopeNE);
    assert!(layers[1].iter().all(|t| t.geometry == Geometry::Wall));
}

#[test]
fn unknown_features_are_dropped_and_repeats_removed() {
    let geom = grid(1, 1, |_, _, _| cell(0, &[1, 8, 2, 1, 300, 21]));
    let layers = load_tiles(&geom, 1, 1).unwrap();
    assert_eq!(
        layers[2][0].features(),
        &[Feature::HPole, Feature::VPole, Feature::ScavengerHole]
    );
}

#[test]
fn unknown_geometry_is_fatal() {
    let geom = grid(2, 2, |x, y, l| cell(if (x, y, l) == (1, 1, 2) { 8 } else { 0 }, &[]));
    assert_eq!(load_tiles(&geom, 2, 2).map(|_| ()), Err(LoadError::TileDecode));
    let wide = grid(1, 1, |_, _, _| cell(257, &[]));
    assert_eq!(load_tiles(&wide, 1, 1).map(|_| ()), Err(LoadError::TileDecode));
}

#[test]
fn missing_cells_are_fatal() {
    let geom = grid(2, 2, |_, _, _| cell(0, &[]));
    assert_eq!(load_tiles(&geom, 3, 2).map(|_| ()), Err(LoadError::TileDecode));
    assert_eq!(load_tiles(&geom, 2, 3).map(|_| ()), Err(LoadError::TileDecode));
    let no_features = grid(1, 1, |_, _, _| arr(vec![num(0)]));
    assert_eq!(load_tiles(&no_features, 1, 1).map(|_| ()), Err(LoadError::TileDecode));
    assert_eq!(load_tiles(&geom, 0, 7).map(|l| l[0].len()), Ok(0));
}

#[test]
fn effects_record_without_list_gives_no_effects() {
    assert_eq!(load_effects(obj(vec![("#mode", text("createNew"))])).map(|e| e.len()), Ok(0));
    assert_eq!(load_effects(no_effects()).map(|e| e.len()), Ok(0));
    assert_eq!(load_effects(obj(vec![("#effects", num(3))])).map(|e| e.len()), Ok(0));
    assert_eq!(load_effects(JsonValue::Null).map(|e| e.len()), Ok(0));
}

#[test]
fn effects_are_read_in_order() {
    let record = obj(vec![(
        "#effects",
        arr(vec![
            obj(vec![
                ("#nm", text("Slime")),
                ("#mtrx", arr(vec![arr(vec![num(100), text("x"), num(0)]), arr(vec![])])),
                ("#Options", arr(vec![text("Seed")])),
            ]),
            obj(vec![("#mtrx", arr(vec![])), ("#nm", text("Rust"))]),
        ]),
    )]);
    let effects = load_effects(record).unwrap();
    assert_eq!(effects.len(), 2);
    assert_eq!(effects[0].name, "Slime");
    assert_eq!(effects[0].matrix, vec![vec![Number::PosInt(100), Number::PosInt(0)], vec![]]);
    assert!(matches!(&effects[0].options, JsonValue::Array(a) if a.len() == 1));
    assert_eq!(effects[1].name, "Rust");
    assert!(effects[1].matrix.is_empty());
    assert!(matches!(effects[1].options, JsonValue::Null));
}

#[test]
fn effect_without_name_or_matrix_is_fatal() {
    let no_name = obj(vec![("#effects", arr(vec![obj(vec![("#mtrx", arr(vec![]))])]))]);
    assert_eq!(load_effects(no_name).map(|_| ()), Err(LoadError::EffectDecode));
    let no_matrix = obj(vec![("#effects", arr(vec![obj(vec![("#nm", text("a"))])]))]);
    assert_eq!(load_effects(no_matrix).map(|_| ()), Err(LoadError::EffectDecode));
    let bad_row = obj(vec![(
        "#effects",
        arr(vec![obj(vec![("#nm", text("a")), ("#mtrx", arr(vec![num(1)]))])]),
    )]);
    assert_eq!(load_effects(bad_row).map(|_| ()), Err(LoadError::EffectDecode));
    let name_not_text = obj(vec![(
        "#effects",
        arr(vec![obj(vec![("#nm", num(1)), ("#mtrx", arr(vec![]))])]),
    )]);
    assert_eq!(load_effects(name_not_text).map(|_| ()), Err(LoadError::EffectDecode));
}

#[test]
fn room_size_must_be_a_point() {
    let geom = grid(1, 1, |_, _, _| cell(0, &[]));
    let cases = [
        obj(vec![("#mouse", num(1))]),
        obj(vec![("#size", num(5))]),
        settings("point(1)"),
        settings("point(-1, 1)"),
        settings("rect(1, 1, 1, 1)"),
    ];
    for s in cases.iter() {
        let r = RWLevel::assemble("r".to_string(), &geom, s, no_effects());
        assert_eq!(r.map(|_| ()), Err(LoadError::Size));
    }
}

#[test]
fn assemble_reports_tiles_before_effects() {
    let geom = grid(1, 1, |_, _, _| cell(8, &[]));
    let bad_effects = obj(vec![("#effects", arr(vec![num(1)]))]);
    let r = RWLevel::assemble("r".to_string(), &geom, &settings("point(1, 1)"), bad_effects);
    assert_eq!(r.map(|_| ()), Err(LoadError::TileDecode));
    let good = grid(1, 1, |_, _, _| cell(0, &[]));
    let bad_effects = obj(vec![("#effects", arr(vec![num(1)]))]);
    let r = RWLevel::assemble("r".to_string(), &good, &settings("point(1, 1)"), bad_effects);
    assert_eq!(r.map(|_| ()), Err(LoadError::EffectDecode));
}

#[test]
fn assemble_builds_the_room() {
    let geom = grid(2, 1, |x, _, l| cell(if x == 1 && l == 1 { 9 } else { 6 }, &[4]));
    let level = RWLevel::assemble("room_a".to_string(), &geom, &settings("point(2, 1)"), no_effects())
        .unwrap();
    assert_eq!(level.name(), "room_a");
    assert_eq!(level.dimensions(), (2, 1));
    assert_eq!(level.tiles(RWLevel::L2_MG)[1].geometry, Geometry::Glass);
    assert_eq!(level.tiles(RWLevel::L2_MG)[0].geometry, Geometry::Floor);
    assert_eq!(level.tiles(RWLevel::L3_BG)[1].features(), &[Feature::ShortcutEntrance]);
}
