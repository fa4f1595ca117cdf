//! Terrain: octaved noise fields, the lattice of noise samples of a world, and
//! the classification of a tile from its elevation, temperature and humidity.
//!
//! Noise values are fixed-point numbers. A sample of a noise field is an
//! integer in `0..=NOISE_UNIT`. The classification works on a finer scale, in
//! which `FINE_ONE` stands for one: on that scale the border attenuation and
//! the climate corrections are exact integer arithmetic.

use vstd::prelude::*;
use crate::config::{
    CHUNK_SIZE, NOISE_UNIT, WATER_EDGE_SIZE, WORLD_ENTITY_SPAWN_RATE, WORLD_SIZE,
};
use crate::entity::EntityType;

verus! {

/// Largest number of octaves a noise field may have.
pub const MAX_OCTAVES: u32 = 16;

/// The value one on the scale of the classification (`NOISE_UNIT` times 1280).
pub const FINE_ONE: i64 = 1280000000;

/// Elevation below which a tile is deep water (0.40).
pub const DEEP_SEA_LEVEL: i64 = 512000000;

/// Elevation below which a tile is water (0.45).
pub const SEA_LEVEL: i64 = 576000000;

/// Elevation below which a tile is beach (0.48).
pub const BEACH_LEVEL: i64 = 614400000;

/// Elevation above which frozen ground is ice instead of snow (0.55).
pub const ICE_LEVEL: i64 = 704000000;

/// Temperature above which the climate is hot (0.55).
pub const HOT: i64 = 704000000;

/// Temperature above which the climate is warm (0.5).
pub const WARM: i64 = 640000000;

/// Temperature above which the climate is cool (0.3).
pub const COOL: i64 = 384000000;

/// Temperature above which the climate is cold, below it frozen (0.1).
pub const COLD: i64 = 128000000;

/// Humidity below which hot land is desert (0.5).
pub const DRY: i64 = 640000000;

/// Humidity from which land is wet (0.6).
pub const WET: i64 = 768000000;

/// Humidity below which cool land is tundra (0.35).
pub const COOL_DRY: i64 = 448000000;

/// Humidity below which cold land is tundra (0.1).
pub const COLD_DRY: i64 = 128000000;

/// The kinds of ground.
#[derive(Clone, Copy, Debug, PartialEq, Eq, Hash, Structural)]
pub enum TileType {
    DeepWater,
    Water,
    Beach,
    Grass,
    Forest,
    Desert,
    Savanna,
    Tundra,
    Snow,
    Stone,
    Jungle,
    Swamp,
    Ice,
}

/// A noise field made of several octaves of one base noise. The octave `i`
/// samples the base noise at the coordinate times `scale / 100` times
/// `lacunarity` to the power `i`, and weighs half as much as the octave
/// before it.
#[derive(Clone, Copy, Debug)]
pub struct OctavedNoise {
    pub seed: u32,
    pub octaves: u32,
    pub lacunarity: u32,
    /// Scale of the first octave, in hundredths.
    pub scale: u32,
}

/// The octaves of one point summed, each weighing twice the one after it.
pub open spec fn octave_sum(samples: Seq<i32>) -> int
    decreases samples.len(),
{
    if samples.len() == 0 {
        0
    } else {
        2 * octave_sum(samples.drop_last()) + samples.last()
    }
}

/// The weights of `n` octaves summed: two to the `n`, less one.
pub open spec fn amplitude_sum(n: nat) -> int
    decreases n,
{
    if n == 0 {
        0
    } else {
        2 * amplitude_sum((n - 1) as nat) + 1
    }
}

/// The weighted mean of the octaves, moved from `-NOISE_UNIT..=NOISE_UNIT` to
/// `0..=NOISE_UNIT` and rounded down.
pub open spec fn normalized(samples: Seq<i32>) -> int {
    (octave_sum(samples) + amplitude_sum(samples.len()) * NOISE_UNIT) / (2 * amplitude_sum(
        samples.len(),
    ))
}

/// Whether every octave lies in `-NOISE_UNIT..=NOISE_UNIT`.
pub open spec fn octaves_in_range(samples: Seq<i32>) -> bool {
    forall|i: int| 0 <= i < samples.len() ==> -NOISE_UNIT <= #[trigger] samples[i] <= NOISE_UNIT
}

proof fn lemma_amplitude_sum_bound(n: nat)
    requires
        n <= MAX_OCTAVES,
    ensures
        n <= amplitude_sum(n) <= 65535,
        n > 0 ==> amplitude_sum(n) >= 1,
    decreases 16 - n,
{
    if n == 16 {
        reveal_with_fuel(amplitude_sum, 17);
        assert(amplitude_sum(16) == 65535);
    } else {
        lemma_amplitude_sum_bound(n + 1);
        assert(amplitude_sum(n + 1) == 2 * amplitude_sum(n) + 1);
        if n > 0 {
            assert(amplitude_sum(n) == 2 * amplitude_sum((n - 1) as nat) + 1);
            lemma_amplitude_sum_nonneg((n - 1) as nat);
        }
    }
}

proof fn lemma_amplitude_sum_nonneg(n: nat)
    ensures
        amplitude_sum(n) >= n,
    decreases n,
{
    if n > 0 {
        lemma_amplitude_sum_nonneg((n - 1) as nat);
    }
}

proof fn lemma_octave_sum_bound(samples: Seq<i32>)
    requires
        octaves_in_range(samples),
    ensures
        -amplitude_sum(samples.len()) * NOISE_UNIT <= octave_sum(samples) <= amplitude_sum(
            samples.len(),
        ) * NOISE_UNIT,
    decreases samples.len(),
{
    if samples.len() > 0 {
        let front = samples.drop_last();
        assert(octaves_in_range(front)) by {
            assert forall|i: int| 0 <= i < front.len() implies -NOISE_UNIT <= #[trigger] front[i]
                <= NOISE_UNIT by {
                assert(front[i] == samples[i]);
            }
        }
        lemma_octave_sum_bound(front);
        assert(-NOISE_UNIT <= samples[samples.len() - 1] <= NOISE_UNIT);
    }
}

/// A normalized value lies between zero and one.
pub proof fn lemma_normalized_range(samples: Seq<i32>)
    requires
        0 < samples.len(),
        octaves_in_range(samples),
    ensures
        0 <= normalized(samples) <= NOISE_UNIT,
{
    lemma_octave_sum_bound(samples);
    lemma_amplitude_sum_nonneg(samples.len());
    let amp = amplitude_sum(samples.len());
    let top = octave_sum(samples) + amp * NOISE_UNIT;
    assert(0 <= top / (2 * amp) <= NOISE_UNIT) by (nonlinear_arith)
        requires
            amp >= 1,
            0 <= top <= 2 * amp * NOISE_UNIT,
    ;
}

impl OctavedNoise {
    pub fn new(seed: u32, octaves: u32, lacunarity: u32, scale: u32) -> (field: Self)
        ensures
            field == (OctavedNoise { seed, octaves, lacunarity, scale }),
    {
        OctavedNoise { seed, octaves, lacunarity, scale }
    }

    /// Whether `samples` holds one sample in range for each octave of this
    /// field, and the field has a supported number of octaves.
    pub open spec fn fits(&self, samples: Seq<i32>) -> bool {
        &&& 1 <= self.octaves <= MAX_OCTAVES
        &&& samples.len() == self.octaves
        &&& octaves_in_range(samples)
    }

    /// The value of the field at a point, from the samples of the base noise
    /// at that point, one for each octave, the first octave first.
    pub fn get(&self, samples: &Vec<i32>) -> (value: Option<u32>)
        ensures
            value.is_some() == self.fits(samples@),
            value.is_some() ==> value.unwrap() == normalized(samples@),
            value.is_some() ==> value.unwrap() <= NOISE_UNIT,
    {
        if self.octaves < 1 || self.octaves > MAX_OCTAVES || samples.len() != self.octaves as usize {
            return None;
        }
        let n: usize = samples.len();
        let mut total: i64 = 0;
        let mut amplitude: i64 = 0;
        let mut i: usize = 0;
        while i < n
            invariant
                n == samples.len(),
                n <= MAX_OCTAVES,
                0 <= i <= n,
                octaves_in_range(samples@.take(i as int)),
                total == octave_sum(samples@.take(i as int)),
                amplitude == amplitude_sum(i as nat),
            decreases n - i,
        {
            let sample: i32 = samples[i];
            if sample < -(NOISE_UNIT as i32) || sample > NOISE_UNIT as i32 {
                return None;
            }
            proof {
                let before = samples@.take(i as int);
                let after = samples@.take(i + 1);
                assert(after.drop_last() =~= before);
                assert(after.last() == sample);
                assert(octaves_in_range(after)) by {
                    assert forall|k: int| 0 <= k < after.len() implies -NOISE_UNIT
                        <= #[trigger] after[k] <= NOISE_UNIT by {
                        if k < i {
                            assert(after[k] == before[k]);
                        }
                    }
                }
                lemma_octave_sum_bound(before);
                lemma_amplitude_sum_bound(i as nat);
                lemma_amplitude_sum_bound((i + 1) as nat);
                assert(amplitude * NOISE_UNIT <= 65535 * 1000000) by (nonlinear_arith)
                    requires
                        0 <= amplitude <= 65535,
                        NOISE_UNIT == 1000000,
                ;
            }
            total = 2 * total + sample as i64;
            amplitude = 2 * amplitude + 1;
            i = i + 1;
        }
        proof {
            assert(samples@.take(n as int) =~= samples@);
            lemma_octave_sum_bound(samples@);
            lemma_amplitude_sum_bound(n as nat);
            lemma_normalized_range(samples@);
            assert(amplitude * NOISE_UNIT <= 65535 * 1000000) by (nonlinear_arith)
                requires
                    0 <= amplitude <= 65535,
                    NOISE_UNIT == 1000000,
            ;
        }
        let value: i64 = (total + amplitude * (NOISE_UNIT as i64)) / (2 * amplitude);
        Some(value as u32)
    }
}

/// The noise of one tile: the value of each of the four fields there, each in
/// `0..=NOISE_UNIT`.
#[derive(Clone, Copy, Debug, PartialEq, Eq, Structural)]
pub struct TileSample {
    pub elevation: u32,
    pub temperature: u32,
    pub humidity: u32,
    pub resource: u32,
}

impl TileSample {
    /// Whether every value lies in `0..=NOISE_UNIT`.
    pub open spec fn valid(self) -> bool {
        &&& self.elevation <= NOISE_UNIT
        &&& self.temperature <= NOISE_UNIT
        &&& self.humidity <= NOISE_UNIT
        &&& self.resource <= NOISE_UNIT
    }

    /// Whether every value lies in `0..=NOISE_UNIT`.
    pub fn is_valid(&self) -> (ok: bool)
        ensures
            ok == self.valid(),
    {
        self.elevation <= NOISE_UNIT && self.temperature <= NOISE_UNIT && self.humidity
            <= NOISE_UNIT && self.resource <= NOISE_UNIT
    }
}

/// Whether the tile `(x, y)` belongs to the world.
pub open spec fn in_world(x: int, y: int) -> bool {
    0 <= x < WORLD_SIZE && 0 <= y < WORLD_SIZE
}

/// How far the tile `(x, y)` reaches into the band along the border, in
/// tiles: positive inside the band, `WATER_EDGE_SIZE` on the border itself,
/// more beyond it.
pub open spec fn border_depth(x: int, y: int) -> int {
    let half = WORLD_SIZE / 2;
    let dx = if x >= half { x - half } else { half - x };
    let dy = if y >= half { y - half } else { half - y };
    (if dx >= dy { dx } else { dy }) - half + WATER_EDGE_SIZE
}

/// The elevation of a tile on the fine scale: the sampled elevation, less
/// the share `border_depth / WATER_EDGE_SIZE` of one inside the border band.
pub open spec fn attenuated_elevation(elevation: int, x: int, y: int) -> int {
    let depth = border_depth(x, y);
    elevation * 1280 - if depth > 0 { depth * 10 * NOISE_UNIT } else { 0 }
}

/// The temperature of a tile on the fine scale: the sampled temperature,
/// less six tenths of what the elevation `e` exceeds the beach level by,
/// kept between zero and one.
pub open spec fn adjusted_temperature(temperature: int, e: int) -> int {
    let t = temperature * 1280 - (e - BEACH_LEVEL) / 10 * 6;
    if t < 0 { 0 } else if t > FINE_ONE { FINE_ONE as int } else { t }
}

/// The humidity that nearby water gives a tile of elevation `e`: one at
/// sea level, falling by five for each unit of elevation away from it, never
/// below zero.
pub open spec fn water_humidity(e: int) -> int {
    let away = if e >= SEA_LEVEL { e - SEA_LEVEL } else { SEA_LEVEL - e };
    let h = FINE_ONE - 5 * away;
    if h < 0 { 0 } else { h }
}

/// The humidity of a tile on the fine scale: six tenths of the sampled
/// humidity and four tenths of the humidity from water.
pub open spec fn adjusted_humidity(humidity: int, e: int) -> int {
    humidity * 768 + water_humidity(e) / 10 * 4
}

/// The kind of land at elevation `e`, temperature `t` and humidity `h`, all
/// on the fine scale. The rows are tried in this order and the first that
/// matches decides.
pub open spec fn land_tile(e: int, t: int, h: int) -> TileType {
    if t > HOT && h < DRY {
        TileType::Desert
    } else if t > HOT && h < WET {
        TileType::Savanna
    } else if t > HOT {
        TileType::Jungle
    } else if t > WARM && h < WET {
        TileType::Grass
    } else if t > WARM {
        TileType::Forest
    } else if t > COOL && h < COOL_DRY {
        TileType::Tundra
    } else if t > COOL && h < WET {
        TileType::Forest
    } else if t > COOL {
        TileType::Swamp
    } else if t > COLD && h < COLD_DRY {
        TileType::Tundra
    } else if e > ICE_LEVEL {
        TileType::Ice
    } else {
        TileType::Snow
    }
}

/// The kind of the tile `(x, y)` whose noise is `sample`: deep water, water
/// or beach by the attenuated elevation, in that order, else land by climate.
pub open spec fn classify(sample: TileSample, x: int, y: int) -> TileType {
    let e = attenuated_elevation(sample.elevation as int, x, y);
    if e < DEEP_SEA_LEVEL {
        TileType::DeepWater
    } else if e < SEA_LEVEL {
        TileType::Water
    } else if e < BEACH_LEVEL {
        TileType::Beach
    } else {
        land_tile(
            e,
            adjusted_temperature(sample.temperature as int, e),
            adjusted_humidity(sample.humidity as int, e),
        )
    }
}

/// Whether a tile is water of either depth.
pub open spec fn is_water(tile: TileType) -> bool {
    tile == TileType::Water || tile == TileType::DeepWater
}

/// Inside the band along the border, a tile whose attenuated elevation is
/// below sea level is water.
pub proof fn lemma_border_ring(sample: TileSample, x: int, y: int)
    requires
        sample.valid(),
        in_world(x, y),
        border_depth(x, y) > 0,
        attenuated_elevation(sample.elevation as int, x, y) < SEA_LEVEL,
    ensures
        is_water(classify(sample, x, y)),
{
}

/// Where the border band is deeper than fifty-five hundredths of its width,
/// every tile is water, whatever its noise.
pub proof fn lemma_outer_ring_is_water(sample: TileSample, x: int, y: int)
    requires
        sample.valid(),
        border_depth(x, y) * 100 > WATER_EDGE_SIZE * 55,
    ensures
        is_water(classify(sample, x, y)),
{
}

/// Beyond the border of the world every tile is deep water, whatever its
/// noise.
pub proof fn lemma_outside_is_deep_water(sample: TileSample, x: int, y: int)
    requires
        sample.valid(),
        !in_world(x, y),
    ensures
        classify(sample, x, y) == TileType::DeepWater,
{
}

/// Terrain is a function of the lattice alone: generators over the same
/// lattice give the same tile and the same resource at every coordinate.
pub proof fn lemma_terrain_is_determined(a: TerrainGenerator, b: TerrainGenerator, x: int, y: int)
    requires
        a.lattice() == b.lattice(),
    ensures
        a.tile_at(x, y) == b.tile_at(x, y),
        a.entity_at(x, y) == b.entity_at(x, y),
{
}

/// The static resource that grows on a kind of tile, if any.
pub open spec fn resource_of(tile: TileType) -> Option<EntityType> {
    match tile {
        TileType::Forest => Some(EntityType::ForestTree),
        TileType::Stone => Some(EntityType::Rock),
        _ => None,
    }
}

/// Derives terrain for a world from the noise of its tiles: the kind of each
/// tile and the static resource on it. It holds the four noise fields that
/// the samples were taken from and the lattice of samples, one for each tile
/// of the world, row by row.
pub struct TerrainGenerator {
    elev_noise: OctavedNoise,
    temp_noise: OctavedNoise,
    humid_noise: OctavedNoise,
    entity_noise: OctavedNoise,
    samples: Vec<TileSample>,
}

/// Whether `samples` is a lattice for a whole world: one valid sample for
/// each tile.
pub open spec fn is_lattice(samples: Seq<TileSample>) -> bool {
    &&& samples.len() == WORLD_SIZE * WORLD_SIZE
    &&& forall|i: int| 0 <= i < samples.len() ==> (#[trigger] samples[i]).valid()
}

/// The place of the tile `(x, y)` in a lattice.
fn lattice_index(x: i32, y: i32) -> (index: usize)
    requires
        in_world(x as int, y as int),
    ensures
        index == y * WORLD_SIZE + x,
        index < WORLD_SIZE * WORLD_SIZE,
{
    let row: usize = y as usize;
    let column: usize = x as usize;
    assert(row * 1024 + column < 1024 * 1024);
    row * 1024 + column
}

impl TerrainGenerator {
    /// The lattice of samples, row by row.
    pub closed spec fn lattice(&self) -> Seq<TileSample> {
        self.samples@
    }

    /// The field that elevation is sampled from.
    pub closed spec fn elevation_field(&self) -> OctavedNoise {
        self.elev_noise
    }

    /// The field that temperature is sampled from.
    pub closed spec fn temperature_field(&self) -> OctavedNoise {
        self.temp_noise
    }

    /// The field that humidity is sampled from.
    pub closed spec fn humidity_field(&self) -> OctavedNoise {
        self.humid_noise
    }

    /// The field that decides where static resources are placed.
    pub closed spec fn resource_field(&self) -> OctavedNoise {
        self.entity_noise
    }

    /// Well-formedness: the lattice covers the world with valid samples.
    pub open spec fn wf(&self) -> bool {
        is_lattice(self.lattice())
    }

    /// The sample of the tile `(x, y)` of the world.
    pub open spec fn sample_at(&self, x: int, y: int) -> TileSample
        recommends
            in_world(x, y),
    {
        self.lattice()[y * WORLD_SIZE + x]
    }

    /// The kind of the tile `(x, y)`: inside the world, what its sample
    /// classifies as; beyond it, deep water.
    pub open spec fn tile_at(&self, x: int, y: int) -> TileType {
        if in_world(x, y) {
            classify(self.sample_at(x, y), x, y)
        } else {
            TileType::DeepWater
        }
    }

    /// Whether a static resource may stand on the tile `(x, y)`: inside the
    /// world, where the resource field is below the spawn rate.
    pub open spec fn spawns_at(&self, x: int, y: int) -> bool {
        in_world(x, y) && self.sample_at(x, y).resource < WORLD_ENTITY_SPAWN_RATE
    }

    /// The static resource on the tile `(x, y)`, if any.
    pub open spec fn entity_at(&self, x: int, y: int) -> Option<EntityType> {
        if self.spawns_at(x, y) {
            resource_of(self.tile_at(x, y))
        } else {
            None
        }
    }

    /// The tiles that bear a static resource, of those with a place below
    /// `n` in the lattice, row by row.
    pub open spec fn resource_tiles_below(&self, n: int) -> Seq<(int, int)>
        decreases n,
    {
        if n <= 0 {
            Seq::empty()
        } else {
            let x = (n - 1) % (WORLD_SIZE as int);
            let y = (n - 1) / (WORLD_SIZE as int);
            if self.entity_at(x, y).is_some() {
                self.resource_tiles_below(n - 1).push((x, y))
            } else {
                self.resource_tiles_below(n - 1)
            }
        }
    }

    /// The tiles of the world that bear a static resource, row by row.
    pub open spec fn resource_tiles(&self) -> Seq<(int, int)> {
        self.resource_tiles_below(WORLD_SIZE * WORLD_SIZE)
    }

    /// The four noise fields of a world: elevation, temperature, humidity and
    /// resources, in that order.
    pub open spec fn fields_of(seed: u32) -> (OctavedNoise, OctavedNoise, OctavedNoise, OctavedNoise) {
        (
            OctavedNoise { seed, octaves: 5, lacunarity: 2, scale: 4 },
            OctavedNoise {
                seed: ((seed + 420) % 0x1_0000_0000) as u32,
                octaves: 3,
                lacunarity: 4,
                scale: 1,
            },
            OctavedNoise {
                seed: ((seed + 1337) % 0x1_0000_0000) as u32,
                octaves: 3,
                lacunarity: 4,
                scale: 1,
            },
            OctavedNoise {
                seed: ((seed + 6969) % 0x1_0000_0000) as u32,
                octaves: 4,
                lacunarity: 2,
                scale: 100,
            },
        )
    }

    /// The generator of the world of `seed` over the lattice `samples`. There
    /// is none where `samples` is not a lattice of the world.
    pub fn new(seed: u32, samples: Vec<TileSample>) -> (generator: Option<Self>)
        ensures
            generator.is_some() == is_lattice(samples@),
            generator matches Some(g) ==> {
                &&& g.wf()
                &&& g.lattice() == samples@
                &&& (
                    g.elevation_field(),
                    g.temperature_field(),
                    g.humidity_field(),
                    g.resource_field(),
                ) == Self::fields_of(seed)
            },
    {
        if samples.len() != 1048576 {
            return None;
        }
        let mut i: usize = 0;
        while i < samples.len()
            invariant
                samples.len() == 1048576,
                0 <= i <= samples.len(),
                forall|k: int| 0 <= k < i ==> (#[trigger] samples@[k]).valid(),
            decreases samples.len() - i,
        {
            if !samples[i].is_valid() {
                return None;
            }
            i = i + 1;
        }
        let (elev_noise, temp_noise, humid_noise, entity_noise) = Self::fields_for(seed);
        Some(TerrainGenerator { elev_noise, temp_noise, humid_noise, entity_noise, samples })
    }

    /// The four noise fields of the world of `seed`: elevation,
    /// temperature, humidity and resources. The lattice of a world holds the
    /// values of these fields at its tiles.
    pub fn fields_for(seed: u32) -> (fields: (OctavedNoise, OctavedNoise, OctavedNoise, OctavedNoise))
        ensures
            fields == Self::fields_of(seed),
    {
        (
            OctavedNoise::new(seed, 5, 2, 4),
            OctavedNoise::new(seed.wrapping_add(420), 3, 4, 1),
            OctavedNoise::new(seed.wrapping_add(1337), 3, 4, 1),
            OctavedNoise::new(seed.wrapping_add(6969), 4, 2, 100),
        )
    }

    /// The four noise fields: elevation, temperature, humidity and resources.
    pub fn fields(&self) -> (fields: (OctavedNoise, OctavedNoise, OctavedNoise, OctavedNoise))
        ensures
            fields == (
                self.elevation_field(),
                self.temperature_field(),
                self.humidity_field(),
                self.resource_field(),
            ),
    {
        (self.elev_noise, self.temp_noise, self.humid_noise, self.entity_noise)
    }

    /// The kind of land at elevation `e`, temperature `t` and humidity `h`,
    /// all on the fine scale.
    pub fn get_tile_from_environment(e: i64, t: i64, h: i64) -> (tile: TileType)
        ensures
            tile == land_tile(e as int, t as int, h as int),
    {
        if t > HOT && h < DRY {
            TileType::Desert
        } else if t > HOT && h < WET {
            TileType::Savanna
        } else if t > HOT {
            TileType::Jungle
        } else if t > WARM && h < WET {
            TileType::Grass
        } else if t > WARM {
            TileType::Forest
        } else if t > COOL && h < COOL_DRY {
            TileType::Tundra
        } else if t > COOL && h < WET {
            TileType::Forest
        } else if t > COOL {
            TileType::Swamp
        } else if t > COLD && h < COLD_DRY {
            TileType::Tundra
        } else if e > ICE_LEVEL {
            TileType::Ice
        } else {
            TileType::Snow
        }
    }

    /// The kind of the tile `(x, y)`.
    pub fn get_tile(&self, x: i32, y: i32) -> (tile: TileType)
        requires
            self.wf(),
        ensures
            tile == self.tile_at(x as int, y as int),
    {
        if x < 0 || x >= WORLD_SIZE || y < 0 || y >= WORLD_SIZE {
            return TileType::DeepWater;
        }
        let index: usize = lattice_index(x, y);
        let sample: TileSample = self.samples[index];
        assert(sample == self.sample_at(x as int, y as int));
        assert(sample.valid());
        let half: i64 = (WORLD_SIZE / 2) as i64;
        let dx: i64 = if x as i64 >= half { x as i64 - half } else { half - x as i64 };
        let dy: i64 = if y as i64 >= half { y as i64 - half } else { half - y as i64 };
        let depth: i64 = (if dx >= dy { dx } else { dy }) - half + WATER_EDGE_SIZE as i64;
        assert(depth == border_depth(x as int, y as int));
        let mut e: i64 = sample.elevation as i64 * 1280;
        if depth > 0 {
            e = e - depth * 10 * (NOISE_UNIT as i64);
        }
        assert(e == attenuated_elevation(sample.elevation as int, x as int, y as int));
        if e < DEEP_SEA_LEVEL {
            return TileType::DeepWater;
        }
        if e < SEA_LEVEL {
            return TileType::Water;
        }
        if e < BEACH_LEVEL {
            return TileType::Beach;
        }
        let raw_t: i64 = sample.temperature as i64 * 1280 - (e - BEACH_LEVEL) / 10 * 6;
        let t: i64 = if raw_t < 0 { 0 } else if raw_t > FINE_ONE { FINE_ONE } else { raw_t };
        let away: i64 = e - SEA_LEVEL;
        let raw_w: i64 = FINE_ONE - 5 * away;
        let w: i64 = if raw_w < 0 { 0 } else { raw_w };
        let h: i64 = sample.humidity as i64 * 768 + w / 10 * 4;
        Self::get_tile_from_environment(e, t, h)
    }

    /// Whether a static resource may stand on the tile `(x, y)`.
    pub fn should_spawn_entity(&self, x: i32, y: i32) -> (spawns: bool)
        requires
            self.wf(),
        ensures
            spawns == self.spawns_at(x as int, y as int),
    {
        if x < 0 || x >= WORLD_SIZE || y < 0 || y >= WORLD_SIZE {
            return false;
        }
        let index: usize = lattice_index(x, y);
        self.samples[index].resource < WORLD_ENTITY_SPAWN_RATE
    }

    /// The static resource on the tile `(x, y)`, whose kind is `tile`.
    pub fn get_entity_from_tile(&self, x: i32, y: i32, tile: TileType) -> (entity: Option<
        EntityType,
    >)
        requires
            self.wf(),
        ensures
            entity == if self.spawns_at(x as int, y as int) {
                resource_of(tile)
            } else {
                None
            },
    {
        if !self.should_spawn_entity(x, y) {
            return None;
        }
        match tile {
            TileType::Forest => Some(EntityType::ForestTree),
            TileType::Stone => Some(EntityType::Rock),
            _ => None,
        }
    }

    /// The kind of the tile `(x, y)` and the static resource on it.
    pub fn get_contents(&self, x: i32, y: i32) -> (contents: (TileType, Option<EntityType>))
        requires
            self.wf(),
        ensures
            contents.0 == self.tile_at(x as int, y as int),
            contents.1 == self.entity_at(x as int, y as int),
    {
        let tile = self.get_tile(x, y);
        let entity = self.get_entity_from_tile(x, y, tile);
        (tile, entity)
    }
}

/// The tiles of one chunk.
#[derive(Debug)]
pub struct TerrainChunk {
    /// The chunk's column and row in the grid of chunks.
    pub position: (i32, i32),
    /// The tiles, row by row.
    pub contents: Vec<TileType>,
}

/// The tiles of one chunk as mathematical values.
pub struct TerrainChunkView {
    pub position: (i32, i32),
    pub contents: Seq<TileType>,
}

impl View for TerrainChunk {
    type V = TerrainChunkView;

    open spec fn view(&self) -> TerrainChunkView {
        TerrainChunkView { position: self.position, contents: self.contents@ }
    }
}

impl TerrainGenerator {
    /// The chunk `(cx, cy)`: its `CHUNK_SIZE` rows of `CHUNK_SIZE` tiles,
    /// one row after the other.
    pub open spec fn chunk_at(&self, cx: i32, cy: i32) -> TerrainChunkView {
        TerrainChunkView {
            position: (cx, cy),
            contents: Seq::new(
                (CHUNK_SIZE * CHUNK_SIZE) as nat,
                |k: int|
                    self.tile_at(
                        CHUNK_SIZE * cx + k % (CHUNK_SIZE as int),
                        CHUNK_SIZE * cy + k / (CHUNK_SIZE as int),
                    ),
            ),
        }
    }
}

} // verus!
