use vstd::arithmetic::div_mod::lemma_fundamental_div_mod_converse;
use vstd::prelude::*;

use crate::effect::Effect;
use crate::error::LoadError;
use crate::json::{JsonValue, Number};
use crate::lingo_dsl::{point_of, Point};
use crate::tile::{
    feature_of, geometry_of, is_geometry_code, lemma_geometry_codes, with_features, Feature, Geometry,
    Tile,
};

verus! {

/// The member of the settings record that holds the room size.
pub const SIZE_KEY: &'static str = "#size";

/// The member of the effects record that holds the effect list.
pub const EFFECTS_KEY: &'static str = "#effects";

/// The member of an effect entry that holds its name.
pub const NAME_KEY: &'static str = "#nm";

/// The member of an effect entry that holds its matrix.
pub const MATRIX_KEY: &'static str = "#mtrx";

/// The member of an effect entry that holds its options.
pub const OPTIONS_KEY: &'static str = "#Options";

/// Room settings.
#[derive(Copy, Clone, Debug)]
pub struct RWLevelMeta {
    /// (Width, Height) dimensions of the level
    dimensions: (usize, usize),
}

impl View for RWLevelMeta {
    /// (Width, Height) of the room.
    type V = (nat, nat);

    closed spec fn view(&self) -> (nat, nat) {
        (self.dimensions.0 as nat, self.dimensions.1 as nat)
    }
}

/// A room: its name, its size, three layers of tiles and its effects.
#[derive(Debug)]
pub struct RWLevel {
    /// Based off the file name that the room was loaded from
    name: String,
    /// Room settings such as dimensions
    meta: RWLevelMeta,
    /// Tiles composing the room. Each index is a layer, starting with the
    /// foreground at index 0. Each layer is row-major: the tile at (x, y)
    /// stands at `y * width + x`.
    tiles: [Vec<Tile>; 3],
    effects: Vec<Effect>,
}

/// What a room holds.
pub struct RoomView {
    pub name: Seq<char>,
    pub width: nat,
    pub height: nat,
    pub tiles: Seq<Seq<Tile>>,
    pub effects: Seq<Effect>,
}

impl View for RWLevel {
    type V = RoomView;

    closed spec fn view(&self) -> RoomView {
        RoomView {
            name: self.name@,
            width: self.meta.dimensions.0 as nat,
            height: self.meta.dimensions.1 as nat,
            tiles: seq![self.tiles[0]@, self.tiles[1]@, self.tiles[2]@],
            effects: self.effects@,
        }
    }
}

/// The room size that the settings record gives: a `point` literal of two
/// non-negative integers under the size key.
pub open spec fn room_size(settings: JsonValue) -> Option<(usize, usize)> {
    match settings.member(SIZE_KEY@) {
        Some(v) => match v.text() {
            Some(s) => match point_of(s) {
                Some(p) => if p.fst >= 0 && p.snd >= 0 {
                    Some((p.fst as usize, p.snd as usize))
                } else {
                    None
                },
                None => None,
            },
            None => None,
        },
        None => None,
    }
}

/// The entry of the geometry record for the cell at (x, y) in `layer`:
/// the record is indexed by x, then y, then layer.
pub open spec fn cell(geom: JsonValue, x: int, y: int, layer: int) -> Option<JsonValue> {
    match geom.at(x) {
        Some(column) => match column.at(y) {
            Some(stack) => stack.at(layer),
            None => None,
        },
        None => None,
    }
}

/// The geometry that a code names; codes over 255 name none.
pub open spec fn code_geometry(v: JsonValue) -> Option<Geometry> {
    match v.unsigned() {
        Some(n) => if n <= 255 {
            geometry_of(n as u8)
        } else {
            None
        },
        None => None,
    }
}

/// The feature that a code names; codes over 255 name none.
pub open spec fn code_feature(v: JsonValue) -> Option<Feature> {
    match v.unsigned() {
        Some(n) => if n <= 255 {
            feature_of(n as u8)
        } else {
            None
        },
        None => None,
    }
}

/// The features that `items` name, in order; items that name none are dropped.
pub open spec fn decoded_features(items: Seq<JsonValue>) -> Seq<Feature>
    decreases items.len(),
{
    if items.len() == 0 {
        Seq::empty()
    } else {
        let prev = decoded_features(items.drop_last());
        match code_feature(items.last()) {
            Some(f) => prev.push(f),
            None => prev,
        }
    }
}

/// The geometry of a cell entry `[code, features]`.
pub open spec fn entry_geometry(entry: JsonValue) -> Option<Geometry> {
    match entry.at(0) {
        Some(code) => code_geometry(code),
        None => None,
    }
}

/// The feature codes of a cell entry `[code, features]`.
pub open spec fn entry_feature_codes(entry: JsonValue) -> Option<Seq<JsonValue>> {
    match entry.at(1) {
        Some(list) => list.items(),
        None => None,
    }
}

/// The cell at (x, y) in `layer` is present, has a known geometry and a list
/// of feature codes.
pub open spec fn cell_decodes(geom: JsonValue, x: int, y: int, layer: int) -> bool {
    &&& cell(geom, x, y, layer) is Some
    &&& entry_geometry(cell(geom, x, y, layer)->0) is Some
    &&& entry_feature_codes(cell(geom, x, y, layer)->0) is Some
}

/// Every cell of a `width` by `height` room decodes, in each of the three layers.
pub open spec fn grid_decodes(geom: JsonValue, width: int, height: int) -> bool {
    forall|x: int, y: int, layer: int|
        0 <= x < width && 0 <= y < height && 0 <= layer < 3 ==> #[trigger] cell_decodes(
            geom,
            x,
            y,
            layer,
        )
}

/// A cell whose code names no geometry keeps the whole grid from decoding.
pub proof fn lemma_unknown_geometry_is_fatal(
    geom: JsonValue,
    width: int,
    height: int,
    x: int,
    y: int,
    layer: int,
)
    requires
        0 <= x < width,
        0 <= y < height,
        0 <= layer < 3,
        cell(geom, x, y, layer) matches Some(entry) && entry.at(0) matches Some(code)
            && code.unsigned() matches Some(n) && !(n <= 255 && is_geometry_code(n as u8)),
    ensures
        !grid_decodes(geom, width, height),
{
    let n = cell(geom, x, y, layer)->0.at(0)->0.unsigned()->0;
    if n <= 255 {
        lemma_geometry_codes(n as u8);
    }
    assert(!cell_decodes(geom, x, y, layer));
}

/// `t` is the tile that the cell at (x, y) in `layer` decodes to: its
/// geometry, and its known features without repeats.
pub open spec fn tile_matches(t: Tile, geom: JsonValue, x: int, y: int, layer: int) -> bool {
    let entry = cell(geom, x, y, layer)->0;
    &&& t.geometry == entry_geometry(entry)->0
    &&& t.features@ == with_features(
        Seq::empty(),
        decoded_features(entry_feature_codes(entry)->0),
    )
}

/// The entries of the effect list; none where the record has no list.
pub open spec fn effect_entries(record: JsonValue) -> Seq<JsonValue> {
    match record.member(EFFECTS_KEY@) {
        Some(v) => match v.items() {
            Some(items) => items,
            None => Seq::empty(),
        },
        None => Seq::empty(),
    }
}

/// The numbers among `items`, in order.
pub open spec fn numbers_of(items: Seq<JsonValue>) -> Seq<Number>
    decreases items.len(),
{
    if items.len() == 0 {
        Seq::empty()
    } else {
        let prev = numbers_of(items.drop_last());
        match items.last() {
            JsonValue::Number(n) => prev.push(n),
            _ => prev,
        }
    }
}

/// The rows of an entry's matrix.
pub open spec fn matrix_rows(entry: JsonValue) -> Seq<JsonValue> {
    entry.member(MATRIX_KEY@)->0.items()->0
}

/// An effect entry has a name that is a string and a matrix that is a list
/// of lists.
pub open spec fn entry_loads(entry: JsonValue) -> bool {
    &&& entry.member(NAME_KEY@) matches Some(n) && n.text() is Some
    &&& entry.member(MATRIX_KEY@) matches Some(m) && m.items() is Some
    &&& forall|i: int|
        0 <= i < matrix_rows(entry).len() ==> (#[trigger] matrix_rows(entry)[i]).items() is Some
}

/// `fx` is the effect that `entry` describes: its name, the numbers of each
/// matrix row, and its options, or null where it has none.
pub open spec fn effect_matches(fx: Effect, entry: JsonValue) -> bool {
    &&& fx.name@ == entry.member(NAME_KEY@)->0.text()->0
    &&& fx.matrix@.len() == matrix_rows(entry).len()
    &&& forall|i: int|
        0 <= i < fx.matrix@.len() ==> (#[trigger] fx.matrix@[i])@ == numbers_of(
            matrix_rows(entry)[i].items()->0,
        )
    &&& fx.options == match entry.member(OPTIONS_KEY@) {
        Some(o) => o,
        None => JsonValue::Null,
    }
}

/// Every entry of the effect list loads.
pub open spec fn effects_load(record: JsonValue) -> bool {
    forall|i: int|
        0 <= i < effect_entries(record).len() ==> #[trigger] entry_loads(effect_entries(record)[i])
}

/// The room size from the settings record.
fn load_size(settings: &JsonValue) -> (r: Result<(usize, usize), LoadError>)
    ensures
        r matches Ok(d) ==> room_size(*settings) == Some(d),
        r is Err ==> room_size(*settings) is None,
        r matches Err(e) ==> e == LoadError::Size,
{
    let key = SIZE_KEY.to_owned();
    let text = match settings.get(&key) {
        Some(v) => match v.as_str() {
            Some(s) => s,
            None => return Err(LoadError::Size),
        },
        None => return Err(LoadError::Size),
    };
    match Point::parse(text) {
        Some(p) => if p.fst >= 0 && p.snd >= 0 {
            Ok((p.fst as usize, p.snd as usize))
        } else {
            Err(LoadError::Size)
        },
        None => Err(LoadError::Size),
    }
}

/// The feature that a code names, if any.
fn feature_code(v: &JsonValue) -> (r: Option<Feature>)
    ensures
        r == code_feature(*v),
{
    match v.as_u64() {
        Some(n) => if n <= 255 {
            Feature::from_data(n as u8)
        } else {
            None
        },
        None => None,
    }
}

/// The tile that a cell entry `[code, features]` decodes to.
fn decode_cell(entry: &JsonValue) -> (r: Option<Tile>)
    ensures
        r is Some <==> entry_geometry(*entry) is Some && entry_feature_codes(*entry) is Some,
        r matches Some(t) ==> t.geometry == entry_geometry(*entry)->0 && t.features@
            == with_features(Seq::empty(), decoded_features(entry_feature_codes(*entry)->0)),
{
    let geometry = match entry.get_index(0) {
        Some(code) => match code.as_u64() {
            Some(n) => if n <= 255 {
                match Geometry::from_data(n as u8) {
                    Some(g) => g,
                    None => return None,
                }
            } else {
                return None;
            },
            None => return None,
        },
        None => return None,
    };
    let codes = match entry.get_index(1) {
        Some(list) => match list.as_array() {
            Some(a) => a,
            None => return None,
        },
        None => return None,
    };
    let mut decoded: Vec<Feature> = Vec::new();
    let mut i: usize = 0;
    while i < codes.len()
        invariant
            i <= codes@.len(),
            decoded@ == decoded_features(codes@.take(i as int)),
        decreases codes@.len() - i,
    {
        proof {
            assert(codes@.take(i + 1).drop_last() == codes@.take(i as int));
        }
        match feature_code(&codes[i]) {
            Some(f) => decoded.push(f),
            None => {},
        }
        i = i + 1;
    }
    proof {
        assert(codes@.take(i as int) == codes@);
    }
    let mut tile = geometry.to_tile();
    tile.add_features(decoded.as_slice());
    Some(tile)
}

/// The flat index `y * width + x` of a cell in a layer.
proof fn lemma_flat_index(x: int, y: int, width: int, height: int)
    requires
        0 <= x < width,
        0 <= y < height,
    ensures
        0 <= y * width + x < width * height,
        (y * width + x) % width == x,
        (y * width + x) / width == y,
{
    lemma_fundamental_div_mod_converse(y * width + x, width, y, x);
    assert(y * width + x < width * height) by (nonlinear_arith)
        requires
            0 <= x < width,
            0 <= y < height,
    ;
    assert(0 <= y * width) by (nonlinear_arith)
        requires
            0 <= y,
            0 <= width,
    ;
}

/// The column of the flat index `k` in a layer `width` cells wide.
spec fn column_of(k: int, width: int) -> int {
    k % width
}

/// The row of the flat index `k` in a layer `width` cells wide.
spec fn row_of(k: int, width: int) -> int {
    k / width
}

/// The tile at `k` of a layer `width` cells wide is the tile of its cell,
/// the cell at (k % width, k / width).
spec fn placed_at(tiles: Seq<Tile>, geom: JsonValue, width: int, layer: int, k: int) -> bool {
    &&& cell_decodes(geom, column_of(k, width), row_of(k, width), layer)
    &&& tile_matches(tiles[k], geom, column_of(k, width), row_of(k, width), layer)
}

/// Each of `tiles` is the tile of its cell.
spec fn tiles_placed(tiles: Seq<Tile>, geom: JsonValue, width: int, layer: int) -> bool {
    forall|k: int| 0 <= k < tiles.len() ==> #[trigger] placed_at(tiles, geom, width, layer, k)
}

/// Placing the tile of the next cell keeps the tiles placed.
proof fn lemma_place_next(
    tiles: Seq<Tile>,
    t: Tile,
    geom: JsonValue,
    x: int,
    y: int,
    width: int,
    layer: int,
)
    requires
        0 <= x < width,
        0 <= y,
        tiles.len() == y * width + x,
        tiles_placed(tiles, geom, width, layer),
        cell_decodes(geom, x, y, layer),
        tile_matches(t, geom, x, y, layer),
    ensures
        tiles_placed(tiles.push(t), geom, width, layer),
{
    lemma_fundamental_div_mod_converse(y * width + x, width, y, x);
    let next = tiles.push(t);
    assert forall|k: int| 0 <= k < next.len() implies #[trigger] placed_at(
        next,
        geom,
        width,
        layer,
        k,
    ) by {
        if k < tiles.len() {
            assert(placed_at(tiles, geom, width, layer, k));
            assert(next[k] == tiles[k]);
        } else {
            assert(k == y * width + x);
            assert(column_of(k, width) == x && row_of(k, width) == y);
            assert(next[k] == t);
        }
    }
}

/// The tiles of one layer, row by row.
fn load_layer(geom: &JsonValue, width: usize, height: usize, layer: usize) -> (r: Result<
    Vec<Tile>,
    LoadError,
>)
    requires
        width > 0,
        layer < 3,
    ensures
        r is Ok <==> forall|x: int, y: int|
            0 <= x < width && 0 <= y < height ==> #[trigger] cell_decodes(*geom, x, y, layer as int),
        r matches Ok(tiles) ==> tiles@.len() == width * height && forall|x: int, y: int|
            0 <= x < width && 0 <= y < height ==> tile_matches(
                #[trigger] tiles@[y * width + x],
                *geom,
                x,
                y,
                layer as int,
            ),
        r matches Err(e) ==> e == LoadError::TileDecode,
{
    let ghost w = width as int;
    let ghost l = layer as int;
    let mut tiles: Vec<Tile> = Vec::new();
    let mut y: usize = 0;
    while y < height
        invariant
            w == width > 0,
            l == layer,
            y <= height,
            tiles@.len() == y * w,
            tiles_placed(tiles@, *geom, w, l),
        decreases height - y,
    {
        let mut x: usize = 0;
        while x < width
            invariant
                w == width > 0,
                l == layer,
                y < height,
                x <= width,
                tiles@.len() == y * w + x,
                tiles_placed(tiles@, *geom, w, l),
            decreases width - x,
        {
            let entry = match geom.get_index(x) {
                Some(column) => match column.get_index(y) {
                    Some(stack) => stack.get_index(layer),
                    None => None,
                },
                None => None,
            };
            let tile = match entry {
                Some(e) => decode_cell(e),
                None => None,
            };
            match tile {
                Some(t) => {
                    proof {
                        lemma_place_next(tiles@, t, *geom, x as int, y as int, w, l);
                    }
                    tiles.push(t);
                },
                None => {
                    assert(!cell_decodes(*geom, x as int, y as int, l));
                    return Err(LoadError::TileDecode);
                },
            }
            x = x + 1;
        }
        proof {
            assert(y * w + w == (y + 1) * w) by (nonlinear_arith);
        }
        y = y + 1;
    }
    proof {
        assert forall|x: int, y: int| 0 <= x < width && 0 <= y < height implies #[trigger] cell_decodes(
            *geom,
            x,
            y,
            l,
        ) && tile_matches(tiles@[y * width + x], *geom, x, y, l) by {
            lemma_flat_index(x, y, w, height as int);
            let k = y * w + x;
            assert(column_of(k, w) == x && row_of(k, w) == y);
            assert(placed_at(tiles@, *geom, w, l, k));
        }
        assert forall|x: int, y: int| 0 <= x < width && 0 <= y < height implies tile_matches(
            #[trigger] tiles@[y * width + x],
            *geom,
            x,
            y,
            l,
        ) by {
            assert(cell_decodes(*geom, x, y, l));
        }
        assert(tiles@.len() == width * height) by (nonlinear_arith)
            requires
                tiles@.len() == y * w,
                y == height,
                w == width,
        ;
    }
    Ok(tiles)
}

/// The three layers of tiles of a `width` by `height` room.
pub fn load_tiles(geom: &JsonValue, width: usize, height: usize) -> (r: Result<[Vec<Tile>; 3], LoadError>)
    ensures
        r is Ok <==> grid_decodes(*geom, width as int, height as int),
        r matches Ok(layers) ==> forall|layer: int|
            0 <= layer < 3 ==> (#[trigger] layers[layer])@.len() == width * height,
        r matches Ok(layers) ==> forall|x: int, y: int, layer: int|
            0 <= x < width && 0 <= y < height && 0 <= layer < 3 ==> tile_matches(
                #[trigger] layers[layer]@[y * width + x],
                *geom,
                x,
                y,
                layer,
            ),
        r matches Err(e) ==> e == LoadError::TileDecode,
{
    if width == 0 {
        let layers: [Vec<Tile>; 3] = [Vec::new(), Vec::new(), Vec::new()];
        proof {
            assert(width * height == 0) by (nonlinear_arith)
                requires
                    width == 0,
            ;
            assert forall|layer: int| 0 <= layer < 3 implies (#[trigger] layers[layer])@.len() == 0 by {}
        }
        return Ok(layers);
    }
    let fg = match load_layer(geom, width, height, 0) {
        Ok(t) => t,
        Err(e) => return Err(e),
    };
    let mg = match load_layer(geom, width, height, 1) {
        Ok(t) => t,
        Err(e) => return Err(e),
    };
    let bg = match load_layer(geom, width, height, 2) {
        Ok(t) => t,
        Err(e) => return Err(e),
    };
    Ok([fg, mg, bg])
}

/// The member `key` of an object, moved out of it.
#[verifier::loop_isolation(false)]
fn take_member(v: JsonValue, key: &String) -> (r: Option<JsonValue>)
    ensures
        r == v.member(key@),
{
    match v {
        JsonValue::Object(mut m) => {
            let ghost members = m@;
            let mut i: usize = 0;
            assert(members.subrange(0, members.len() as int) == members);
            while i < m.len()
                invariant
                    m@ == members,
                    i <= members.len(),
                    crate::json::member(members, key@) == crate::json::member(
                        members.subrange(i as int, members.len() as int),
                        key@,
                    ),
                decreases members.len() - i,
            {
                proof {
                    assert(members.subrange(i as int, members.len() as int).drop_first()
                        == members.subrange(i + 1, members.len() as int));
                }
                if m[i].0 == *key {
                    assert(members.subrange(i as int, members.len() as int)[0] == members[i as int]);
                    let (_, value) = m.remove(i);
                    return Some(value);
                }
                i = i + 1;
            }
            None
        },
        _ => None,
    }
}

/// The numbers among the items of a matrix row, in order.
fn row_numbers(items: &Vec<JsonValue>) -> (r: Vec<Number>)
    ensures
        r@ == numbers_of(items@),
{
    let mut out: Vec<Number> = Vec::new();
    let mut i: usize = 0;
    while i < items.len()
        invariant
            i <= items@.len(),
            out@ == numbers_of(items@.take(i as int)),
        decreases items@.len() - i,
    {
        proof {
            assert(items@.take(i + 1).drop_last() == items@.take(i as int));
        }
        match &items[i] {
            JsonValue::Number(n) => out.push(*n),
            _ => {},
        }
        i = i + 1;
    }
    proof {
        assert(items@.take(i as int) == items@);
    }
    out
}

/// The effect that an entry of the effect list describes.
#[verifier::loop_isolation(false)]
fn load_effect(entry: JsonValue) -> (r: Result<Effect, LoadError>)
    ensures
        r is Ok <==> entry_loads(entry),
        r matches Ok(fx) ==> effect_matches(fx, entry),
        r matches Err(e) ==> e == LoadError::EffectDecode,
{
    let name_key = NAME_KEY.to_owned();
    let matrix_key = MATRIX_KEY.to_owned();
    let options_key = OPTIONS_KEY.to_owned();
    let name = match entry.get(&name_key) {
        Some(v) => match v.as_str() {
            Some(s) => s.to_owned(),
            None => return Err(LoadError::EffectDecode),
        },
        None => return Err(LoadError::EffectDecode),
    };
    let rows = match entry.get(&matrix_key) {
        Some(v) => match v.as_array() {
            Some(a) => a,
            None => return Err(LoadError::EffectDecode),
        },
        None => return Err(LoadError::EffectDecode),
    };
    let ghost rows_spec = matrix_rows(entry);
    assert(rows@ == rows_spec);
    let mut matrix: Vec<Vec<Number>> = Vec::new();
    let mut i: usize = 0;
    while i < rows.len()
        invariant
            rows@ == rows_spec,
            i <= rows@.len(),
            matrix@.len() == i,
            forall|j: int| 0 <= j < i ==> (#[trigger] rows_spec[j]).items() is Some,
            forall|j: int|
                0 <= j < i ==> (#[trigger] matrix@[j])@ == numbers_of(rows_spec[j].items()->0),
        decreases rows@.len() - i,
    {
        match rows[i].as_array() {
            Some(items) => {
                let numbers = row_numbers(items);
                matrix.push(numbers);
            },
            None => {
                assert(!entry_loads(entry));
                return Err(LoadError::EffectDecode);
            },
        }
        i = i + 1;
    }
    let options = match take_member(entry, &options_key) {
        Some(o) => o,
        None => JsonValue::Null,
    };
    Ok(Effect { name, matrix, options })
}

/// The effects that the effects record lists, in order.
#[verifier::loop_isolation(false)]
pub fn load_effects(record: JsonValue) -> (r: Result<Vec<Effect>, LoadError>)
    ensures
        r is Ok <==> effects_load(record),
        r matches Ok(fx) ==> fx@.len() == effect_entries(record).len() && forall|i: int|
            0 <= i < fx@.len() ==> effect_matches(#[trigger] fx@[i], effect_entries(record)[i]),
        effect_entries(record).len() == 0 ==> (r matches Ok(fx) && fx@.len() == 0),
        r matches Err(e) ==> e == LoadError::EffectDecode,
{
    let ghost all = effect_entries(record);
    let key = EFFECTS_KEY.to_owned();
    let mut entries: Vec<JsonValue> = match take_member(record, &key) {
        Some(JsonValue::Array(items)) => items,
        _ => Vec::new(),
    };
    assert(entries@ == all.subrange(0, all.len() as int));
    let n = entries.len();
    let mut out: Vec<Effect> = Vec::new();
    let mut i: usize = 0;
    while entries.len() > 0
        invariant
            entries@ == all.subrange(i as int, all.len() as int),
            all.len() == n,
            i <= all.len(),
            out@.len() == i,
            forall|j: int| 0 <= j < i ==> #[trigger] entry_loads(all[j]),
            forall|j: int| 0 <= j < i ==> effect_matches(#[trigger] out@[j], all[j]),
        decreases entries@.len(),
    {
        let entry = entries.remove(0);
        assert(entry == all[i as int]);
        match load_effect(entry) {
            Ok(fx) => out.push(fx),
            Err(e) => {
                assert(!entry_loads(all[i as int]));
                return Err(e);
            },
        }
        i = i + 1;
        assert(entries@ == all.subrange(i as int, all.len() as int));
    }
    Ok(out)
}

/// `level` is the room that the three records describe, under `name`.
pub open spec fn room_matches(
    level: RoomView,
    name: Seq<char>,
    geometry: JsonValue,
    settings: JsonValue,
    effects: JsonValue,
) -> bool {
    let (width, height) = room_size(settings)->0;
    &&& level.name == name
    &&& level.width == width && level.height == height
    &&& level.tiles.len() == 3
    &&& forall|layer: int| 0 <= layer < 3 ==> (#[trigger] level.tiles[layer]).len() == width * height
    &&& forall|x: int, y: int, layer: int|
        0 <= x < width && 0 <= y < height && 0 <= layer < 3 ==> tile_matches(
            #[trigger] level.tiles[layer][y * width + x],
            geometry,
            x,
            y,
            layer,
        )
    &&& level.effects.len() == effect_entries(effects).len()
    &&& forall|i: int|
        0 <= i < level.effects.len() ==> effect_matches(
            #[trigger] level.effects[i],
            effect_entries(effects)[i],
        )
}

impl RWLevelMeta {
    /// (Width, Height) of the room.
    pub fn dimensions(&self) -> (r: (usize, usize))
        ensures
            r.0 == self@.0,
            r.1 == self@.1,
    {
        self.dimensions
    }
}

impl RWLevel {
    /// Index of the foreground layer in the tiles.
    pub const L1_FG: usize = 0;

    /// Index of the midground layer in the tiles.
    pub const L2_MG: usize = 1;

    /// Index of the background layer in the tiles.
    pub const L3_BG: usize = 2;

    /// Assembles a room from the geometry, settings and effects records of a
    /// project. The size comes from the settings; every cell of the geometry
    /// record must decode; every effect entry must have a name and a matrix.
    pub fn assemble(name: String, geometry: &JsonValue, settings: &JsonValue, effects: JsonValue) -> (r:
        Result<RWLevel, LoadError>)
        ensures
            room_size(*settings) is None ==> r == Err::<RWLevel, LoadError>(LoadError::Size),
            room_size(*settings) matches Some(d) ==> {
                &&& !grid_decodes(*geometry, d.0 as int, d.1 as int) ==> r == Err::<
                    RWLevel,
                    LoadError,
                >(LoadError::TileDecode)
                &&& grid_decodes(*geometry, d.0 as int, d.1 as int) && !effects_load(effects)
                    ==> r == Err::<RWLevel, LoadError>(LoadError::EffectDecode)
                &&& grid_decodes(*geometry, d.0 as int, d.1 as int) && effects_load(effects)
                    ==> r is Ok
            },
            r matches Ok(level) ==> room_matches(level@, name@, *geometry, *settings, effects),
    {
        let (width, height) = match load_size(settings) {
            Ok(d) => d,
            Err(e) => return Err(e),
        };
        let tiles = match load_tiles(geometry, width, height) {
            Ok(t) => t,
            Err(e) => return Err(e),
        };
        let effects = match load_effects(effects) {
            Ok(f) => f,
            Err(e) => return Err(e),
        };
        let level = RWLevel { name, meta: RWLevelMeta { dimensions: (width, height) }, tiles, effects };
        proof {
            assert forall|x: int, y: int, layer: int|
                0 <= x < width && 0 <= y < height && 0 <= layer < 3 implies tile_matches(
                #[trigger] level@.tiles[layer][y * width + x],
                *geometry,
                x,
                y,
                layer,
            ) by {
                assert(level@.tiles[layer] == level.tiles[layer]@);
            }
            assert forall|layer: int| 0 <= layer < 3 implies (#[trigger] level@.tiles[layer]).len()
                == width * height by {
                assert(level@.tiles[layer] == level.tiles[layer]@);
            }
        }
        Ok(level)
    }

    /// The name of the room.
    pub fn name(&self) -> (r: &str)
        ensures
            r@ == self@.name,
    {
        self.name.as_str()
    }

    /// The room settings.
    pub fn meta(&self) -> (r: RWLevelMeta)
        ensures
            r@ == (self@.width, self@.height),
    {
        self.meta
    }

    /// (Width, Height) of the room.
    pub fn dimensions(&self) -> (r: (usize, usize))
        ensures
            r.0 == self@.width,
            r.1 == self@.height,
    {
        self.meta.dimensions
    }

    /// The tiles of a layer, row by row.
    pub fn tiles(&self, layer: usize) -> (r: &[Tile])
        requires
            layer < 3,
        ensures
            r@ == self@.tiles[layer as int],
    {
        self.tiles[layer].as_slice()
    }

    /// The effects of the room, in order.
    pub fn effects(&self) -> (r: &[Effect])
        ensures
            r@ == self@.effects,
    {
        self.effects.as_slice()
    }
}

} // verus!
