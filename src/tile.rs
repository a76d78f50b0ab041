use vstd::prelude::*;

verus! {

/// A tile's terrain classification. Each variant stands for one code of the
/// level format; see [`Geometry::code`].
#[derive(Copy, Clone, Debug, PartialEq, Eq, Structural)]
pub enum Geometry {
    /// Passable tile
    Air,
    /// Solid wall
    Wall,
    /// Slope with the southwest half solid
    SlopeSW,
    /// Slope with the southeast half solid
    SlopeSE,
    /// Slope with the northeast half solid
    SlopeNW,
    /// Slope with the northwest half solid
    SlopeNE,
    /// Solid, but can be dropped through
    Floor,
    /// Shortcut entrance
    ShortcutEntrance,
    /// Invisible wall
    Glass,
}

/// A traversal or gameplay marker attached to a tile. Each variant stands for
/// one code of the level format; see [`Feature::code`].
#[derive(Copy, Clone, Debug, PartialEq, Eq, Structural)]
pub enum Feature {
    /// Horizontal pole that can be climbed on
    HPole,
    /// Vertical pole that can be climbed on
    VPole,
    /// Batflies can use these to travel across the room quickly
    Hive,
    /// Small triangle pipe for traversing the room quickly. Accessible to slugcats
    ShortcutEntrance,
    /// Connects shortcut entrances together
    ShortcutPathDot,
    /// Pipe for travelling from one room to another
    RoomEntrance,
    /// Spawns creatures based off the parent region's entries for the room
    CreatureDen,
    /// Give a 60% chance of spawning a rock here
    Rock,
    /// Give a 60% chance of spawning a spear here
    Spear,
    /// Renders as a rough crack in the tile. Traversable by slugcats
    Fissure,
    /// Forbid batflies from hanging here
    ForbidBatflyChain,
    /// Spawn a garbage worm here
    GarbageWormDen,
    /// Causes a waterfall to appear, beginning with this tile
    Waterfall,
    /// Creature-exclusive shortcuts. Inaccessible to slugcats
    GopherHole,
    /// Place wormgrass here
    WormGrass,
    /// Used by all scavengers in the region to traverse rooms
    ScavengerHole,
}

/// One cell of a layer: exactly one geometry and a list of features.
#[derive(Clone, Debug)]
pub struct Tile {
    pub geometry: Geometry,
    pub features: Vec<Feature>,
}

/// The geometry that a code of the level format stands for.
pub open spec fn geometry_of(data: u8) -> Option<Geometry> {
    match data {
        0 => Some(Geometry::Air),
        1 => Some(Geometry::Wall),
        2 => Some(Geometry::SlopeSW),
        3 => Some(Geometry::SlopeSE),
        4 => Some(Geometry::SlopeNW),
        5 => Some(Geometry::SlopeNE),
        6 => Some(Geometry::Floor),
        7 => Some(Geometry::ShortcutEntrance),
        9 => Some(Geometry::Glass),
        _ => None,
    }
}

/// The feature that a code of the level format stands for.
pub open spec fn feature_of(data: u8) -> Option<Feature> {
    match data {
        1 => Some(Feature::HPole),
        2 => Some(Feature::VPole),
        3 => Some(Feature::Hive),
        4 => Some(Feature::ShortcutEntrance),
        5 => Some(Feature::ShortcutPathDot),
        6 => Some(Feature::RoomEntrance),
        7 => Some(Feature::CreatureDen),
        9 => Some(Feature::Rock),
        10 => Some(Feature::Spear),
        11 => Some(Feature::Fissure),
        12 => Some(Feature::ForbidBatflyChain),
        13 => Some(Feature::GarbageWormDen),
        18 => Some(Feature::Waterfall),
        19 => Some(Feature::GopherHole),
        20 => Some(Feature::WormGrass),
        21 => Some(Feature::ScavengerHole),
        _ => None,
    }
}

/// The codes that name a geometry.
pub open spec fn is_geometry_code(data: u8) -> bool {
    data <= 7 || data == 9
}

/// `fs` extended by each item of `added` in turn, skipping those already present.
pub open spec fn with_features(fs: Seq<Feature>, added: Seq<Feature>) -> Seq<Feature>
    decreases added.len(),
{
    if added.len() == 0 {
        fs
    } else {
        let prev = with_features(fs, added.drop_last());
        if prev.contains(added.last()) {
            prev
        } else {
            prev.push(added.last())
        }
    }
}

/// `fs` without the items that occur in `removed`, in their order.
pub open spec fn without_features(fs: Seq<Feature>, removed: Seq<Feature>) -> Seq<Feature> {
    fs.filter(|f: Feature| !removed.contains(f))
}

impl Geometry {
    /// The code of this geometry in the level format.
    pub open spec fn code(self) -> u8 {
        match self {
            Geometry::Air => 0,
            Geometry::Wall => 1,
            Geometry::SlopeSW => 2,
            Geometry::SlopeSE => 3,
            Geometry::SlopeNW => 4,
            Geometry::SlopeNE => 5,
            Geometry::Floor => 6,
            Geometry::ShortcutEntrance => 7,
            Geometry::Glass => 9,
        }
    }

    /// A tile of this geometry without features.
    pub fn to_tile(&self) -> (r: Tile)
        ensures
            r.geometry == *self,
            r.features@ == Seq::<Feature>::empty(),
    {
        Tile { geometry: *self, features: Vec::new() }
    }

    /// The geometry that `data` stands for, or `None` for a code that names none.
    pub fn from_data(data: u8) -> (r: Option<Self>)
        ensures
            r == geometry_of(data),
    {
        match data {
            0 => Some(Geometry::Air),
            1 => Some(Geometry::Wall),
            2 => Some(Geometry::SlopeSW),
            3 => Some(Geometry::SlopeSE),
            4 => Some(Geometry::SlopeNW),
            5 => Some(Geometry::SlopeNE),
            6 => Some(Geometry::Floor),
            7 => Some(Geometry::ShortcutEntrance),
            9 => Some(Geometry::Glass),
            _ => None,
        }
    }

    /// The code of this geometry in the level format.
    pub fn to_data(&self) -> (r: u8)
        ensures
            r == self.code(),
    {
        match self {
            Geometry::Air => 0,
            Geometry::Wall => 1,
            Geometry::SlopeSW => 2,
            Geometry::SlopeSE => 3,
            Geometry::SlopeNW => 4,
            Geometry::SlopeNE => 5,
            Geometry::Floor => 6,
            Geometry::ShortcutEntrance => 7,
            Geometry::Glass => 9,
        }
    }
}

impl Feature {
    /// The code of this feature in the level format.
    pub open spec fn code(self) -> u8 {
        match self {
            Feature::HPole => 1,
            Feature::VPole => 2,
            Feature::Hive => 3,
            Feature::ShortcutEntrance => 4,
            Feature::ShortcutPathDot => 5,
            Feature::RoomEntrance => 6,
            Feature::CreatureDen => 7,
            Feature::Rock => 9,
            Feature::Spear => 10,
            Feature::Fissure => 11,
            Feature::ForbidBatflyChain => 12,
            Feature::GarbageWormDen => 13,
            Feature::Waterfall => 18,
            Feature::GopherHole => 19,
            Feature::WormGrass => 20,
            Feature::ScavengerHole => 21,
        }
    }

    /// The feature that `data` stands for, or `None` for a code that names none.
    pub fn from_data(data: u8) -> (r: Option<Self>)
        ensures
            r == feature_of(data),
    {
        match data {
            1 => Some(Feature::HPole),
            2 => Some(Feature::VPole),
            3 => Some(Feature::Hive),
            4 => Some(Feature::ShortcutEntrance),
            5 => Some(Feature::ShortcutPathDot),
            6 => Some(Feature::RoomEntrance),
            7 => Some(Feature::CreatureDen),
            9 => Some(Feature::Rock),
            10 => Some(Feature::Spear),
            11 => Some(Feature::Fissure),
            12 => Some(Feature::ForbidBatflyChain),
            13 => Some(Feature::GarbageWormDen),
            18 => Some(Feature::Waterfall),
            19 => Some(Feature::GopherHole),
            20 => Some(Feature::WormGrass),
            21 => Some(Feature::ScavengerHole),
            _ => None,
        }
    }
}

/// Whether `f` occurs in `fs`.
fn has_feature(fs: &[Feature], f: Feature) -> (r: bool)
    ensures
        r == fs@.contains(f),
{
    let mut i: usize = 0;
    while i < fs.len()
        invariant
            i <= fs@.len(),
            forall|j: int| 0 <= j < i ==> fs@[j] != f,
        decreases fs@.len() - i,
    {
        if fs[i] == f {
            return true;
        }
        i = i + 1;
    }
    false
}

impl Default for Tile {
    /// A wall without features.
    fn default() -> (r: Tile)
        ensures
            r.geometry == Geometry::Wall,
            r.features@ == Seq::<Feature>::empty(),
    {
        Tile { geometry: Geometry::Wall, features: Vec::new() }
    }
}

impl Tile {
    /// Appends each of `features` that the tile does not hold yet, in order.
    pub fn add_features(&mut self, features: &[Feature])
        ensures
            final(self).geometry == old(self).geometry,
            final(self).features@ == with_features(old(self).features@, features@),
            final(self).features@.to_set() == old(self).features@.to_set().union(
                features@.to_set(),
            ),
            old(self).features@.no_duplicates() ==> final(self).features@.no_duplicates(),
    {
        let mut i: usize = 0;
        while i < features.len()
            invariant
                i <= features@.len(),
                self.geometry == old(self).geometry,
                self.features@ == with_features(old(self).features@, features@.take(i as int)),
            decreases features@.len() - i,
        {
            let f = features[i];
            proof {
                assert(features@.take(i + 1).drop_last() == features@.take(i as int));
            }
            if !has_feature(self.features.as_slice(), f) {
                self.features.push(f);
            }
            i = i + 1;
        }
        proof {
            assert(features@.take(i as int) == features@);
            lemma_with_features_set(old(self).features@, features@);
        }
    }

    /// Drops every feature that occurs in `features`, keeping the others in order.
    pub fn remove_features(&mut self, features: &[Feature])
        ensures
            final(self).geometry == old(self).geometry,
            final(self).features@ == without_features(old(self).features@, features@),
    {
        let mut kept: Vec<Feature> = Vec::new();
        let mut i: usize = 0;
        while i < self.features.len()
            invariant
                i <= self.features@.len(),
                self.features@ == old(self).features@,
                self.geometry == old(self).geometry,
                kept@ == without_features(self.features@.take(i as int), features@),
            decreases self.features@.len() - i,
        {
            let f = self.features[i];
            proof {
                let s = self.features@.take(i + 1);
                assert(s.drop_last() == self.features@.take(i as int));
                reveal(Seq::filter);
            }
            if !has_feature(features, f) {
                kept.push(f);
            }
            i = i + 1;
        }
        proof {
            assert(self.features@.take(i as int) == self.features@);
        }
        self.features = kept;
    }

    /// The features of the tile.
    pub fn features(&self) -> (r: &[Feature])
        ensures
            r@ == self.features@,
    {
        self.features.as_slice()
    }
}

/// Adding features only adds their members, and keeps a list free of duplicates.
pub proof fn lemma_with_features_set(fs: Seq<Feature>, added: Seq<Feature>)
    ensures
        with_features(fs, added).to_set() == fs.to_set().union(added.to_set()),
        fs.no_duplicates() ==> with_features(fs, added).no_duplicates(),
    decreases added.len(),
{
    if added.len() > 0 {
        let init = added.drop_last();
        lemma_with_features_set(fs, init);
        let prev = with_features(fs, init);
        let x = added.last();
        assert(added == init.push(x));
        assert(added.to_set() =~= init.to_set().insert(x)) by {
            init.lemma_push_to_set_commute(x)
        };
        if prev.contains(x) {
            assert(prev.to_set().contains(x));
            assert(prev.to_set() =~= prev.to_set().insert(x));
        } else {
            assert(prev.push(x).to_set() =~= prev.to_set().insert(x)) by {
                prev.lemma_push_to_set_commute(x)
            };
        }
        assert(with_features(fs, added).to_set() =~= fs.to_set().union(added.to_set()));
    } else {
        assert(added.to_set() =~= Set::<Feature>::empty());
        assert(fs.to_set().union(added.to_set()) =~= fs.to_set());
    }
}

/// Decoding a geometry's code gives that geometry back.
pub proof fn lemma_geometry_decode_recovers(g: Geometry)
    ensures
        geometry_of(g.code()) == Some(g),
        is_geometry_code(g.code()),
{
}

/// A code decodes to a geometry exactly when it is one of the defined codes, and
/// then to the geometry whose code it is.
pub proof fn lemma_geometry_codes(data: u8)
    ensures
        geometry_of(data) is Some <==> is_geometry_code(data),
        geometry_of(data) matches Some(g) ==> g.code() == data,
{
}

/// Decoding a feature's code gives that feature back, and a code that decodes
/// to a feature is that feature's code.
pub proof fn lemma_feature_codes(f: Feature, data: u8)
    ensures
        feature_of(f.code()) == Some(f),
        feature_of(data) matches Some(g) ==> g.code() == data,
{
}

} // verus!
