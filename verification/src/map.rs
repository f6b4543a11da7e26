use vstd::prelude::*;
use crate::entities::{ResourceType, World};

verus! {

broadcast use vstd::std_specs::hash::group_hash_axioms;

/// Terrain classes, stored in the grid as the small ordinals 0 to 3
/// (`Plain` is 0, `Hill` 1, `Mountain` 2, `Canyon` 3).
#[derive(Debug, Clone, Copy, PartialEq, Eq, Structural)]
pub enum TerrainType {
    Plain,
    Hill,
    Mountain,
    Canyon,
}

impl TerrainType {
    /// The class a stored ordinal decodes to; unknown ordinals default to `Plain`.
    pub open spec fn from_code_spec(value: u8) -> TerrainType {
        if value == 1 {
            TerrainType::Hill
        } else if value == 2 {
            TerrainType::Mountain
        } else if value == 3 {
            TerrainType::Canyon
        } else {
            TerrainType::Plain
        }
    }
}

impl From<u8> for TerrainType {
    fn from(value: u8) -> (r: TerrainType) {
        match value {
            1 => TerrainType::Hill,
            2 => TerrainType::Mountain,
            3 => TerrainType::Canyon,
            _ => TerrainType::Plain,
        }
    }
}

impl vstd::std_specs::convert::FromSpecImpl<u8> for TerrainType {
    open spec fn obeys_from_spec() -> bool {
        true
    }

    open spec fn from_spec(value: u8) -> TerrainType {
        TerrainType::from_code_spec(value)
    }
}

/// Fixed tuning constants for world generation.
///
/// Noise samples reach the generator as integer levels in per mille of the
/// normalized noise range: a raw coherent-noise value v in [-1, 1] is mapped
/// by the sampler to floor(((v + 1) / 2) * 1000), so the thresholds below
/// are per-mille counterparts of fractions of that range.
pub struct MapConstants {
    /// Levels strictly above this place an energy deposit.
    pub energy_threshold: u32,
    /// Levels strictly above this place a mineral deposit.
    pub mineral_threshold: u32,
    /// Levels strictly above this place a scientific-interest deposit.
    pub scientific_threshold: u32,
    /// Upper bound of every deposit's starting amount.
    pub max_resource_amount: u32,
}

impl MapConstants {
    pub open spec fn default_spec() -> MapConstants {
        MapConstants {
            energy_threshold: 600,
            mineral_threshold: 700,
            scientific_threshold: 850,
            max_resource_amount: 100,
        }
    }
}

impl Default for MapConstants {
    fn default() -> (r: Self)
        ensures
            r == MapConstants::default_spec(),
    {
        MapConstants {
            energy_threshold: 600,
            mineral_threshold: 700,
            scientific_threshold: 850,
            max_resource_amount: 100,
        }
    }
}

/// Errors of the world's accessors and mutators, and of the persistence
/// boundary around it. All are recoverable and returned to the caller.
#[derive(Debug, PartialEq)]
pub enum MapError {
    OutOfBounds(usize, usize),
    NoResourceAtPosition(usize, usize),
    InsufficientResources,
    SerializationFailure,
    IOFailure,
}

/// Result type for world operations.
pub type MapResult<T> = Result<T, MapError>;

impl World {
    /// Shape invariant: both grids are exactly `height` rows of `width`
    /// columns, cell indices fit in `usize`, and every deposit key denotes
    /// a cell inside the bounds.
    pub open spec fn wf(self) -> bool {
        &&& self.terrain@.len() == self.height
        &&& forall|y: int|
            0 <= y < self.height ==> (#[trigger] self.terrain@[y])@.len() == self.width
        &&& self.discovered@.len() == self.height
        &&& forall|y: int|
            0 <= y < self.height ==> (#[trigger] self.discovered@[y])@.len() == self.width
        &&& self.width * self.height <= usize::MAX
        &&& forall|k: u64|
            #[trigger] self.resources@.contains_key(k) ==> k < self.width * self.height
    }

    pub open spec fn in_bounds(self, x: int, y: int) -> bool {
        0 <= x < self.width && 0 <= y < self.height
    }

    /// The row-major index a cell's deposit is keyed by.
    pub open spec fn cell_key(self, x: int, y: int) -> u64 {
        (y * self.width + x) as u64
    }

    /// The deposit at a cell, if any: the mathematical reading of `resources`.
    pub open spec fn res_at(self, x: int, y: int) -> Option<(ResourceType, u32)> {
        if self.resources@.contains_key(self.cell_key(x, y)) {
            Some(self.resources@[self.cell_key(x, y)])
        } else {
            None
        }
    }

    pub open spec fn terrain_at(self, x: int, y: int) -> u8 {
        self.terrain@[y]@[x]
    }

    pub open spec fn discovered_at(self, x: int, y: int) -> bool {
        self.discovered@[y]@[x]
    }

    /// In-bounds cells get cell keys below `width * height`, and distinct
    /// in-bounds cells get distinct keys.
    pub proof fn lemma_cell_key(self, x: int, y: int)
        requires
            self.in_bounds(x, y),
            self.width * self.height <= usize::MAX,
        ensures
            0 <= y * self.width + x < self.width * self.height,
            self.cell_key(x, y) == y * self.width + x,
            forall|i: int, j: int|
                self.in_bounds(i, j) && #[trigger] self.cell_key(i, j) == self.cell_key(x, y)
                    ==> i == x && j == y,
    {
        let w = self.width as int;
        let h = self.height as int;
        lemma_row_major_in_range(x, y, w, h);
        assert forall|i: int, j: int|
            self.in_bounds(i, j) && #[trigger] self.cell_key(i, j) == self.cell_key(x, y)
                implies i == x && j == y by {
            lemma_row_major_in_range(i, j, w, h);
            lemma_row_major_in_range(x, y, w, h);
            lemma_row_major_injective(i, j, x, y, w);
        }
    }

    /// Checks whether the given position lies within the world bounds.
    pub fn is_position_valid(&self, x: usize, y: usize) -> (r: bool)
        ensures
            r == self.in_bounds(x as int, y as int),
    {
        x < self.width && y < self.height
    }

    /// The row-major key of an in-bounds cell.
    pub(crate) fn key_at(&self, x: usize, y: usize) -> (k: u64)
        requires
            self.wf(),
            self.in_bounds(x as int, y as int),
        ensures
            k == self.cell_key(x as int, y as int),
    {
        proof {
            self.lemma_cell_key(x as int, y as int);
        }
        (y * self.width + x) as u64
    }

    /// The terrain class at a position, or `OutOfBounds`.
    pub fn get_terrain(&self, x: usize, y: usize) -> (r: MapResult<TerrainType>)
        requires
            self.wf(),
        ensures
            !self.in_bounds(x as int, y as int) ==> r == MapResult::<TerrainType>::Err(
                MapError::OutOfBounds(x, y),
            ),
            self.in_bounds(x as int, y as int) ==> r == MapResult::<TerrainType>::Ok(
                TerrainType::from_code_spec(self.terrain_at(x as int, y as int)),
            ),
    {
        if !self.is_position_valid(x, y) {
            return Err(MapError::OutOfBounds(x, y));
        }
        Ok(TerrainType::from(self.terrain[y][x]))
    }

    /// Marks a position as discovered. Discovery is monotonic: no flag is
    /// ever cleared, and a failed call changes nothing.
    pub fn discover(&mut self, x: usize, y: usize) -> (r: MapResult<()>)
        requires
            old(self).wf(),
        ensures
            final(self).wf(),
            final(self).width == old(self).width,
            final(self).height == old(self).height,
            final(self).seed == old(self).seed,
            final(self).terrain == old(self).terrain,
            final(self).resources == old(self).resources,
            !old(self).in_bounds(x as int, y as int) ==> r == MapResult::<()>::Err(
                MapError::OutOfBounds(x, y),
            ) && *final(self) == *old(self),
            old(self).in_bounds(x as int, y as int) ==> r == MapResult::<()>::Ok(()) && forall|
                i: int,
                j: int,
            |
                old(self).in_bounds(i, j) ==> #[trigger] final(self).discovered_at(i, j) == (
                old(self).discovered_at(i, j) || (i == x && j == y)),
    {
        if !self.is_position_valid(x, y) {
            return Err(MapError::OutOfBounds(x, y));
        }
        let row = &mut self.discovered[y];
        row[x] = true;
        Ok(())
    }

    /// Whether a position has been discovered, or `OutOfBounds`.
    pub fn is_discovered(&self, x: usize, y: usize) -> (r: MapResult<bool>)
        requires
            self.wf(),
        ensures
            !self.in_bounds(x as int, y as int) ==> r == MapResult::<bool>::Err(
                MapError::OutOfBounds(x, y),
            ),
            self.in_bounds(x as int, y as int) ==> r == MapResult::<bool>::Ok(
                self.discovered_at(x as int, y as int),
            ),
    {
        if !self.is_position_valid(x, y) {
            return Err(MapError::OutOfBounds(x, y));
        }
        Ok(self.discovered[y][x])
    }

    /// The deposit at a position (kind and remaining amount), or `OutOfBounds`.
    pub fn get_resource(&self, x: usize, y: usize) -> (r: MapResult<
        Option<(ResourceType, u32)>,
    >)
        requires
            self.wf(),
        ensures
            !self.in_bounds(x as int, y as int) ==> r == MapResult::<
                Option<(ResourceType, u32)>,
            >::Err(MapError::OutOfBounds(x, y)),
            self.in_bounds(x as int, y as int) ==> r == MapResult::<
                Option<(ResourceType, u32)>,
            >::Ok(self.res_at(x as int, y as int)),
    {
        if !self.is_position_valid(x, y) {
            return Err(MapError::OutOfBounds(x, y));
        }
        let k = self.key_at(x, y);
        match self.resources.get(&k) {
            Some(p) => Ok(Some((p.0, p.1))),
            None => Ok(None),
        }
    }

    /// Places or overwrites a deposit at a cell.
    pub fn set_resource(&mut self, x: usize, y: usize, kind: ResourceType, amount: u32) -> (r:
        MapResult<()>)
        requires
            old(self).wf(),
        ensures
            final(self).wf(),
            final(self).width == old(self).width,
            final(self).height == old(self).height,
            final(self).seed == old(self).seed,
            final(self).terrain == old(self).terrain,
            final(self).discovered == old(self).discovered,
            !old(self).in_bounds(x as int, y as int) ==> r == MapResult::<()>::Err(
                MapError::OutOfBounds(x, y),
            ) && *final(self) == *old(self),
            old(self).in_bounds(x as int, y as int) ==> r == MapResult::<()>::Ok(())
                && final(self).resources@ == old(self).resources@.insert(
                old(self).cell_key(x as int, y as int),
                (kind, amount),
            ),
    {
        if !self.is_position_valid(x, y) {
            return Err(MapError::OutOfBounds(x, y));
        }
        let k = self.key_at(x, y);
        proof {
            self.lemma_cell_key(x as int, y as int);
        }
        self.resources.insert(k, (kind, amount));
        Ok(())
    }

    /// Collects `amount` units from the deposit at (x, y).
    ///
    /// Fails with `OutOfBounds`, `NoResourceAtPosition` or
    /// `InsufficientResources` exactly as those names say, leaving the world
    /// unchanged; on success the remaining amount drops by exactly `amount`,
    /// and the entry disappears when it reaches zero.
    pub fn collect_resource(&mut self, x: usize, y: usize, amount: u32) -> (r: MapResult<
        (ResourceType, u32),
    >)
        requires
            old(self).wf(),
        ensures
            final(self).wf(),
            final(self).width == old(self).width,
            final(self).height == old(self).height,
            final(self).seed == old(self).seed,
            final(self).terrain == old(self).terrain,
            final(self).discovered == old(self).discovered,
            !old(self).in_bounds(x as int, y as int) ==> r == MapResult::<
                (ResourceType, u32),
            >::Err(MapError::OutOfBounds(x, y)) && *final(self) == *old(self),
            old(self).in_bounds(x as int, y as int) && old(self).res_at(x as int, y as int)
                is None ==> r == MapResult::<(ResourceType, u32)>::Err(
                MapError::NoResourceAtPosition(x, y),
            ) && *final(self) == *old(self),
            old(self).in_bounds(x as int, y as int) && match old(self).res_at(
                x as int,
                y as int,
            ) {
                Some((kind, avail)) => avail < amount,
                None => false,
            } ==> r == MapResult::<(ResourceType, u32)>::Err(MapError::InsufficientResources)
                && *final(self) == *old(self),
            old(self).in_bounds(x as int, y as int) && match old(self).res_at(
                x as int,
                y as int,
            ) {
                Some((kind, avail)) => amount <= avail,
                None => false,
            } ==> {
                let (kind, avail) = old(self).res_at(x as int, y as int)->Some_0;
                let k = old(self).cell_key(x as int, y as int);
                &&& r == MapResult::<(ResourceType, u32)>::Ok((kind, amount))
                &&& amount < avail ==> final(self).resources@ == old(self).resources@.insert(
                    k,
                    (kind, (avail - amount) as u32),
                )
                &&& amount == avail ==> final(self).resources@ == old(self).resources@.remove(k)
            },
    {
        if !self.is_position_valid(x, y) {
            return Err(MapError::OutOfBounds(x, y));
        }
        let k = self.key_at(x, y);
        proof {
            self.lemma_cell_key(x as int, y as int);
        }
        let found: Option<(ResourceType, u32)> = match self.resources.get(&k) {
            Some(p) => Some((p.0, p.1)),
            None => None,
        };
        if let Some((resource_type, available_amount)) = found {
            if available_amount < amount {
                return Err(MapError::InsufficientResources);
            }
            let new_amount = available_amount - amount;
            if new_amount == 0 {
                self.resources.remove(&k);
            } else {
                self.resources.insert(k, (resource_type, new_amount));
            }
            Ok((resource_type, amount))
        } else {
            Err(MapError::NoResourceAtPosition(x, y))
        }
    }

    /// Whether any deposit lies at the given in-bounds cell.
    pub fn has_resource_at(&self, x: usize, y: usize) -> (b: bool)
        requires
            self.wf(),
            self.in_bounds(x as int, y as int),
        ensures
            b == (self.res_at(x as int, y as int) is Some),
    {
        let k = self.key_at(x, y);
        self.resources.contains_key(&k)
    }

    /// How many cells currently hold a deposit.
    pub fn resource_count(&self) -> (n: usize)
        ensures
            n == self.resources@.len(),
    {
        self.resources.len()
    }

    /// The seed the world was generated from.
    pub fn get_seed(&self) -> (r: u64)
        ensures
            r == self.seed,
    {
        self.seed
    }

    /// The world dimensions as (width, height).
    pub fn dimensions(&self) -> (r: (usize, usize))
        ensures
            r == (self.width, self.height),
    {
        (self.width, self.height)
    }

    /// The cost of one step onto the given terrain class.
    pub open spec fn movement_cost_spec(terrain_type: TerrainType) -> u32 {
        match terrain_type {
            TerrainType::Plain => 1,
            TerrainType::Hill => 2,
            TerrainType::Mountain => 3,
            TerrainType::Canyon => 4,
        }
    }

    pub fn movement_cost(&self, terrain_type: TerrainType) -> (r: u32)
        ensures
            r == World::movement_cost_spec(terrain_type),
    {
        match terrain_type {
            TerrainType::Plain => 1,
            TerrainType::Hill => 2,
            TerrainType::Mountain => 3,
            TerrainType::Canyon => 4,
        }
    }

    /// Whether a position can be entered at all: every in-bounds cell can,
    /// at the cost `movement_cost` gives; out of bounds is an error.
    pub fn is_traversable(&self, x: usize, y: usize) -> (r: MapResult<bool>)
        requires
            self.wf(),
        ensures
            !self.in_bounds(x as int, y as int) ==> r == MapResult::<bool>::Err(
                MapError::OutOfBounds(x, y),
            ),
            self.in_bounds(x as int, y as int) ==> r == MapResult::<bool>::Ok(true),
    {
        match self.get_terrain(x, y) {
            Ok(_) => Ok(true),
            Err(e) => Err(e),
        }
    }
}

/// The terrain ordinal a per-mille noise level classifies to, by the fixed
/// ascending thresholds: below 400 plain, below 700 hill, below 850
/// mountain, else canyon.
pub open spec fn terrain_code_of_level(level: u32) -> u8 {
    if level < 400 {
        0
    } else if level < 700 {
        1
    } else if level < 850 {
        2
    } else {
        3
    }
}

/// The deposit kind a per-mille noise level places, by descending rarity:
/// the scientific threshold is checked first, then mineral, then energy,
/// and later checks are never reached once an earlier one matches.
pub open spec fn resource_kind_of_level(level: u32) -> Option<ResourceType> {
    let c = MapConstants::default_spec();
    if level > c.scientific_threshold {
        Some(ResourceType::ScientificInterest)
    } else if level > c.mineral_threshold {
        Some(ResourceType::Mineral)
    } else if level > c.energy_threshold {
        Some(ResourceType::Energy)
    } else {
        None
    }
}

/// The lower bound of a fresh deposit's amount roll; the upper bound is
/// `max_resource_amount` for every kind.
pub open spec fn amount_lower_bound(kind: ResourceType) -> u32 {
    match kind {
        ResourceType::ScientificInterest => 10,
        ResourceType::Mineral => 20,
        ResourceType::Energy => 30,
    }
}

/// The inclusive amount ranges of the deposits placed by the first `n` cells
/// of a row-major scan over the resource noise levels `rl`, in scan order.
/// The amount stream is advanced once per deposit placed, so this sequence
/// is exactly the draw history of the stream.
pub open spec fn gen_ranges(rl: Seq<u32>, n: int) -> Seq<(u32, u32)>
    decreases n,
{
    if n <= 0 {
        Seq::empty()
    } else {
        let prev = gen_ranges(rl, n - 1);
        match resource_kind_of_level(rl[n - 1]) {
            Some(kind) => prev.push(
                (amount_lower_bound(kind), MapConstants::default_spec().max_resource_amount),
            ),
            None => prev,
        }
    }
}

/// The deposit mapping (keyed by row-major cell index) after the first `n`
/// cells of the generation scan, with each amount given by the deterministic
/// ChaCha stream for `seed` at that point of the draw history.
pub open spec fn gen_resources(seed: u64, rl: Seq<u32>, n: int) -> Map<u64, (ResourceType, u32)>
    decreases n,
{
    if n <= 0 {
        Map::empty()
    } else {
        let prev = gen_resources(seed, rl, n - 1);
        match resource_kind_of_level(rl[n - 1]) {
            Some(kind) => prev.insert(
                (n - 1) as u64,
                (
                    kind,
                    crate::rng::chacha_draw(
                        seed,
                        gen_ranges(rl, n - 1),
                        amount_lower_bound(kind),
                        MapConstants::default_spec().max_resource_amount,
                    ),
                ),
            ),
            None => prev,
        }
    }
}

/// Every amount range the generation scan queues is nonempty and ends at
/// the fixed maximum.
proof fn lemma_gen_ranges_bounds(rl: Seq<u32>, n: int)
    ensures
        forall|j: int|
            0 <= j < gen_ranges(rl, n).len() ==> (#[trigger] gen_ranges(rl, n)[j]).0 <= gen_ranges(
                rl,
                n,
            )[j].1,
    decreases n,
{
    if n > 0 {
        lemma_gen_ranges_bounds(rl, n - 1);
        let prev = gen_ranges(rl, n - 1);
        let cur = gen_ranges(rl, n);
        assert forall|j: int| 0 <= j < cur.len() implies (#[trigger] cur[j]).0 <= cur[j].1 by {
            if j < prev.len() {
                assert(cur[j] == prev[j]);
            }
        }
    }
}

/// The draw history after `i` cells is a prefix of the history after `n`.
proof fn lemma_gen_ranges_prefix(rl: Seq<u32>, i: int, n: int)
    requires
        0 <= i <= n,
    ensures
        gen_ranges(rl, i).len() <= gen_ranges(rl, n).len(),
        gen_ranges(rl, n).take(gen_ranges(rl, i).len() as int) == gen_ranges(rl, i),
    decreases n - i,
{
    if i < n {
        lemma_gen_ranges_prefix(rl, i, n - 1);
        let prev = gen_ranges(rl, n - 1);
        let li = gen_ranges(rl, i).len() as int;
        match resource_kind_of_level(rl[n - 1]) {
            Some(kind) => {
                assert(gen_ranges(rl, n).take(li) =~= prev.take(li));
            },
            None => {},
        }
    } else {
        assert(gen_ranges(rl, n).take(gen_ranges(rl, i).len() as int) =~= gen_ranges(rl, i));
    }
}

/// Every key the generation scan has inserted after `n` cells is the
/// row-major index of one of those cells.
proof fn lemma_gen_resources_keys(seed: u64, rl: Seq<u32>, n: int)
    requires
        n <= u64::MAX,
    ensures
        forall|k: u64| #[trigger] gen_resources(seed, rl, n).contains_key(k) ==> k < n,
    decreases n,
{
    if n > 0 {
        lemma_gen_resources_keys(seed, rl, n - 1);
        let prev = gen_resources(seed, rl, n - 1);
        let cur = gen_resources(seed, rl, n);
        assert forall|k: u64| #[trigger] cur.contains_key(k) implies k < n by {
            if prev.contains_key(k) {
            } else {
                assert(k == (n - 1) as u64);
            }
        }
    }
}

impl World {
    /// What it means for a world to be the one generated from `seed` and the
    /// given dimensions and flat row-major noise-level grids: exactly the
    /// postcondition of `generate`.
    pub open spec fn generated_from(
        self,
        width: usize,
        height: usize,
        seed: u64,
        tl: Seq<u32>,
        rl: Seq<u32>,
    ) -> bool {
        &&& self.wf()
        &&& self.width == width
        &&& self.height == height
        &&& self.seed == seed
        &&& forall|x: int, y: int|
            self.in_bounds(x, y) ==> #[trigger] self.terrain_at(x, y) == terrain_code_of_level(
                tl[y * width + x],
            )
        &&& forall|x: int, y: int|
            self.in_bounds(x, y) ==> !(#[trigger] self.discovered_at(x, y))
        &&& self.resources@ == gen_resources(seed, rl, (width * height) as int)
    }

    /// Builds the world a seed and its two noise fields determine.
    ///
    /// `terrain_levels` and `resource_levels` are the two coherent-noise
    /// fields sampled per cell in row-major order and normalized to per-mille
    /// levels; the caller derives them from `seed` alone, so the whole result
    /// is a function of (width, height, seed). The terrain pass classifies
    /// by ascending thresholds; the resource pass classifies by descending
    /// rarity and rolls each amount from a single deterministic ChaCha
    /// stream seeded from `seed`, advanced once per deposit placed in scan
    /// order.
    pub fn generate(
        width: usize,
        height: usize,
        seed: u64,
        terrain_levels: &Vec<u32>,
        resource_levels: &Vec<u32>,
    ) -> (r: World)
        requires
            width * height <= usize::MAX,
            terrain_levels@.len() == width * height,
            resource_levels@.len() == width * height,
        ensures
            r.generated_from(width, height, seed, terrain_levels@, resource_levels@),
    {
        let total = width * height;

        // Terrain pass: classify every cell's level, row by row.
        let mut terrain: Vec<Vec<u8>> = Vec::new();
        let mut y: usize = 0;
        while y < height
            invariant
                y <= height,
                width * height <= usize::MAX,
                terrain_levels@.len() == width * height,
                terrain@.len() == y,
                forall|j: int| 0 <= j < y ==> (#[trigger] terrain@[j])@.len() == width,
                forall|j: int, x: int|
                    0 <= j < y && 0 <= x < width ==> (#[trigger] terrain@[j]@[x])
                        == terrain_code_of_level(terrain_levels@[j * width + x]),
            decreases height - y,
        {
            let mut row: Vec<u8> = Vec::new();
            let mut x: usize = 0;
            while x < width
                invariant
                    x <= width,
                    y < height,
                    width * height <= usize::MAX,
                    terrain_levels@.len() == width * height,
                    row@.len() == x,
                    forall|i: int|
                        0 <= i < x ==> #[trigger] row@[i] == terrain_code_of_level(
                            terrain_levels@[y * width + i],
                        ),
                decreases width - x,
            {
                proof {
                    lemma_row_major_in_range(x as int, y as int, width as int, height as int);
                }
                let idx = y * width + x;
                let level = terrain_levels[idx];
                let code: u8 = if level < 400 {
                    0
                } else if level < 700 {
                    1
                } else if level < 850 {
                    2
                } else {
                    3
                };
                row.push(code);
                x += 1;
            }
            terrain.push(row);
            y += 1;
        }

        // Fog of war: everything starts undiscovered.
        let discovered = make_bool_grid(width, height);

        // Resource pass, first half: queue one amount range per deposit, in
        // row-major scan order.
        let mut ranges: Vec<(u32, u32)> = Vec::new();
        let mut i: usize = 0;
        while i < total
            invariant
                i <= total,
                total == width * height,
                resource_levels@.len() == total,
                ranges@ == gen_ranges(resource_levels@, i as int),
            decreases total - i,
        {
            let level = resource_levels[i];
            if level > 850 {
                ranges.push((10, 100));
            } else if level > 700 {
                ranges.push((20, 100));
            } else if level > 600 {
                ranges.push((30, 100));
            }
            i += 1;
        }

        // Draw every amount from the single seeded stream.
        proof {
            lemma_gen_ranges_bounds(resource_levels@, total as int);
        }
        let amounts = crate::rng::chacha_range_draws(seed, &ranges);

        // Resource pass, second half: place the deposits.
        let ghost full_ranges = gen_ranges(resource_levels@, total as int);
        let mut resources: std::collections::HashMap<u64, (ResourceType, u32)> =
            std::collections::HashMap::new();
        let mut j: usize = 0;
        let mut i: usize = 0;
        while i < total
            invariant
                i <= total,
                total == width * height,
                resource_levels@.len() == total,
                amounts@.len() == full_ranges.len(),
                full_ranges == gen_ranges(resource_levels@, total as int),
                forall|p: int|
                    0 <= p < full_ranges.len() ==> #[trigger] amounts@[p] == crate::rng::chacha_draw(
                        seed,
                        full_ranges.take(p),
                        full_ranges[p].0,
                        full_ranges[p].1,
                    ),
                j == gen_ranges(resource_levels@, i as int).len(),
                resources@ == gen_resources(seed, resource_levels@, i as int),
            decreases total - i,
        {
            let level = resource_levels[i];
            let kind: Option<ResourceType> = if level > 850 {
                Some(ResourceType::ScientificInterest)
            } else if level > 700 {
                Some(ResourceType::Mineral)
            } else if level > 600 {
                Some(ResourceType::Energy)
            } else {
                None
            };
            if let Some(k) = kind {
                proof {
                    lemma_gen_ranges_prefix(resource_levels@, i as int, total as int);
                    lemma_gen_ranges_prefix(resource_levels@, i as int + 1, total as int);
                    assert(full_ranges.take(j as int) == gen_ranges(resource_levels@, i as int));
                    assert(full_ranges.take(j as int + 1) == gen_ranges(
                        resource_levels@,
                        i as int + 1,
                    ));
                    assert(full_ranges[j as int] == gen_ranges(resource_levels@, i as int + 1)[
                        j as int]);
                    assert(j + 1 <= full_ranges.len());
                    assert(j < amounts.len());
                }
                let amount = amounts[j];
                resources.insert(i as u64, (k, amount));
                j += 1;
            }
            i += 1;
        }

        let r = World { width, height, terrain, resources, discovered, seed };
        proof {
            lemma_gen_resources_keys(seed, resource_levels@, total as int);
        }
        r
    }

    /// Whether a grid is exactly `height` rows of `width` columns.
    pub open spec fn grid_shape_ok<T>(grid: Seq<Vec<T>>, width: usize, height: usize) -> bool {
        grid.len() == height && forall|y: int| 0 <= y < height ==> (#[trigger] grid[y])@.len()
            == width
    }

    /// The deposit mapping a persisted entry list denotes: entries applied
    /// in order, later entries overwriting earlier ones at the same cell.
    pub open spec fn entries_map(
        entries: Seq<((usize, usize), (ResourceType, u32))>,
        width: usize,
        n: int,
    ) -> Map<u64, (ResourceType, u32)>
        decreases n,
    {
        if n <= 0 {
            Map::empty()
        } else {
            let e = entries[n - 1];
            World::entries_map(entries, width, n - 1).insert(
                (e.0.1 * width + e.0.0) as u64,
                e.1,
            )
        }
    }

    /// Rebuilds a world from its persisted parts. Both grids must be exactly
    /// `height` rows of `width` columns and every deposit entry must name a
    /// cell within bounds; any violation rejects the whole load and nothing
    /// is rebuilt from it.
    pub fn from_parts(
        width: usize,
        height: usize,
        seed: u64,
        terrain: Vec<Vec<u8>>,
        resources: Vec<((usize, usize), (ResourceType, u32))>,
        discovered: Vec<Vec<bool>>,
    ) -> (r: Result<World, MapError>)
        requires
            width * height <= usize::MAX,
        ensures
            match r {
                Ok(wld) => {
                    &&& World::grid_shape_ok(terrain@, width, height)
                    &&& World::grid_shape_ok(discovered@, width, height)
                    &&& forall|i: int|
                        0 <= i < resources@.len() ==> (#[trigger] resources@[i]).0.0 < width
                            && resources@[i].0.1 < height
                    &&& wld.wf()
                    &&& wld.width == width
                    &&& wld.height == height
                    &&& wld.seed == seed
                    &&& wld.terrain == terrain
                    &&& wld.discovered == discovered
                    &&& wld.resources@ == World::entries_map(
                        resources@,
                        width,
                        resources@.len() as int,
                    )
                },
                Err(e) => {
                    &&& e == MapError::SerializationFailure
                    &&& !(World::grid_shape_ok(terrain@, width, height) && World::grid_shape_ok(
                        discovered@,
                        width,
                        height,
                    ) && forall|i: int|
                        0 <= i < resources@.len() ==> (#[trigger] resources@[i]).0.0 < width
                            && resources@[i].0.1 < height)
                },
            },
    {
        if !grid_u8_shape_ok(&terrain, width, height) {
            return Err(MapError::SerializationFailure);
        }
        if !grid_bool_shape_ok(&discovered, width, height) {
            return Err(MapError::SerializationFailure);
        }
        let mut res: std::collections::HashMap<u64, (ResourceType, u32)> =
            std::collections::HashMap::new();
        let mut i: usize = 0;
        while i < resources.len()
            invariant
                i <= resources@.len(),
                width * height <= usize::MAX,
                forall|j: int|
                    0 <= j < i ==> (#[trigger] resources@[j]).0.0 < width && resources@[j].0.1
                        < height,
                res@ == World::entries_map(resources@, width, i as int),
                forall|k: u64| #[trigger] res@.contains_key(k) ==> k < width * height,
            decreases resources@.len() - i,
        {
            let ((x, y), (kind, amount)) = resources[i];
            if x >= width || y >= height {
                return Err(MapError::SerializationFailure);
            }
            proof {
                lemma_row_major_in_range(x as int, y as int, width as int, height as int);
            }
            res.insert((y * width + x) as u64, (kind, amount));
            i += 1;
        }
        Ok(World { width, height, terrain, resources: res, discovered, seed })
    }

    /// A blank world for tests: all plain terrain, no deposits, nothing
    /// discovered, seed fixed at 42.
    pub fn new_test_map(width: usize, height: usize) -> (r: World)
        requires
            width * height <= usize::MAX,
        ensures
            r.wf(),
            r.width == width,
            r.height == height,
            r.seed == 42,
            forall|x: int, y: int| r.in_bounds(x, y) ==> #[trigger] r.terrain_at(x, y) == 0,
            forall|x: int, y: int| r.in_bounds(x, y) ==> !(#[trigger] r.discovered_at(x, y)),
            r.resources@ == Map::<u64, (ResourceType, u32)>::empty(),
    {
        World {
            width,
            height,
            terrain: make_u8_grid(width, height),
            resources: std::collections::HashMap::new(),
            discovered: make_bool_grid(width, height),
            seed: 42,
        }
    }
}

/// Whether a u8 grid is exactly `height` rows of `width` columns.
fn grid_u8_shape_ok(grid: &Vec<Vec<u8>>, width: usize, height: usize) -> (b: bool)
    ensures
        b == World::grid_shape_ok(grid@, width, height),
{
    if grid.len() != height {
        return false;
    }
    let mut y: usize = 0;
    while y < height
        invariant
            y <= height,
            grid@.len() == height,
            forall|j: int| 0 <= j < y ==> (#[trigger] grid@[j])@.len() == width,
        decreases height - y,
    {
        if grid[y].len() != width {
            return false;
        }
        y += 1;
    }
    true
}

/// Whether a bool grid is exactly `height` rows of `width` columns.
fn grid_bool_shape_ok(grid: &Vec<Vec<bool>>, width: usize, height: usize) -> (b: bool)
    ensures
        b == World::grid_shape_ok(grid@, width, height),
{
    if grid.len() != height {
        return false;
    }
    let mut y: usize = 0;
    while y < height
        invariant
            y <= height,
            grid@.len() == height,
            forall|j: int| 0 <= j < y ==> (#[trigger] grid@[j])@.len() == width,
        decreases height - y,
    {
        if grid[y].len() != width {
            return false;
        }
        y += 1;
    }
    true
}

/// A `height`-by-`width` grid of zeros.
fn make_u8_grid(width: usize, height: usize) -> (g: Vec<Vec<u8>>)
    ensures
        g@.len() == height,
        forall|j: int| 0 <= j < height ==> (#[trigger] g@[j])@.len() == width,
        forall|j: int, x: int|
            0 <= j < height && 0 <= x < width ==> (#[trigger] g@[j]@[x]) == 0,
{
    let mut g: Vec<Vec<u8>> = Vec::new();
    let mut y: usize = 0;
    while y < height
        invariant
            y <= height,
            g@.len() == y,
            forall|j: int| 0 <= j < y ==> (#[trigger] g@[j])@.len() == width,
            forall|j: int, x: int| 0 <= j < y && 0 <= x < width ==> (#[trigger] g@[j]@[x]) == 0,
        decreases height - y,
    {
        let mut row: Vec<u8> = Vec::new();
        let mut x: usize = 0;
        while x < width
            invariant
                x <= width,
                row@.len() == x,
                forall|i: int| 0 <= i < x ==> #[trigger] row@[i] == 0,
            decreases width - x,
        {
            row.push(0);
            x += 1;
        }
        g.push(row);
        y += 1;
    }
    g
}

/// A `height`-by-`width` grid of `false`.
fn make_bool_grid(width: usize, height: usize) -> (g: Vec<Vec<bool>>)
    ensures
        g@.len() == height,
        forall|j: int| 0 <= j < height ==> (#[trigger] g@[j])@.len() == width,
        forall|j: int, x: int|
            0 <= j < height && 0 <= x < width ==> !(#[trigger] g@[j]@[x]),
{
    let mut g: Vec<Vec<bool>> = Vec::new();
    let mut y: usize = 0;
    while y < height
        invariant
            y <= height,
            g@.len() == y,
            forall|j: int| 0 <= j < y ==> (#[trigger] g@[j])@.len() == width,
            forall|j: int, x: int| 0 <= j < y && 0 <= x < width ==> !(#[trigger] g@[j]@[x]),
        decreases height - y,
    {
        let mut row: Vec<bool> = Vec::new();
        let mut x: usize = 0;
        while x < width
            invariant
                x <= width,
                row@.len() == x,
                forall|i: int| 0 <= i < x ==> !(#[trigger] row@[i]),
            decreases width - x,
        {
            row.push(false);
            x += 1;
        }
        g.push(row);
        y += 1;
    }
    g
}

/// Determinism of generation: two worlds generated from the same seed,
/// dimensions and noise levels are identical in every observable part —
/// terrain grids, deposit maps and fog of war alike.
pub proof fn lemma_generation_deterministic(
    a: World,
    b: World,
    width: usize,
    height: usize,
    seed: u64,
    tl: Seq<u32>,
    rl: Seq<u32>,
)
    requires
        a.generated_from(width, height, seed, tl, rl),
        b.generated_from(width, height, seed, tl, rl),
    ensures
        forall|x: int, y: int|
            a.in_bounds(x, y) ==> #[trigger] a.terrain_at(x, y) == b.terrain_at(x, y),
        a.resources@ == b.resources@,
        forall|x: int, y: int|
            a.in_bounds(x, y) ==> #[trigger] a.discovered_at(x, y) == b.discovered_at(x, y),
{
}

/// The collection invariant: a successful partial collection of k units
/// leaves exactly available - k behind, a full collection removes the entry,
/// and either way no other cell's deposit moves. `after` is related to
/// `before` exactly as `collect_resource`'s postcondition states.
pub proof fn lemma_collection_invariant(
    before: World,
    after: World,
    x: int,
    y: int,
    kind: ResourceType,
    available: u32,
    k: u32,
)
    requires
        before.wf(),
        before.in_bounds(x, y),
        before.res_at(x, y) == Some((kind, available)),
        k <= available,
        after.width == before.width,
        after.height == before.height,
        after.resources@ == if k < available {
            before.resources@.insert(before.cell_key(x, y), (kind, (available - k) as u32))
        } else {
            before.resources@.remove(before.cell_key(x, y))
        },
    ensures
        k < available ==> after.res_at(x, y) == Some((kind, (available - k) as u32)),
        k == available ==> after.res_at(x, y) is None,
        forall|i: int, j: int|
            before.in_bounds(i, j) && (i != x || j != y) ==> #[trigger] after.res_at(i, j)
                == before.res_at(i, j),
{
    before.lemma_cell_key(x, y);
    assert forall|i: int, j: int|
        before.in_bounds(i, j) && (i != x || j != y) implies #[trigger] after.res_at(i, j)
        == before.res_at(i, j) by {
        before.lemma_cell_key(i, j);
        assert(before.cell_key(i, j) != before.cell_key(x, y));
        assert(after.cell_key(i, j) == before.cell_key(i, j));
    }
}

/// 0 <= y * w + x < w * h whenever (x, y) is a cell of a w-by-h grid.
proof fn lemma_row_major_in_range(x: int, y: int, w: int, h: int)
    by (nonlinear_arith)
    requires
        0 <= x < w,
        0 <= y < h,
    ensures
        0 <= y * w + x < w * h,
{
}

/// Row-major indexing is injective on the cells of a fixed-width grid.
proof fn lemma_row_major_injective(x1: int, y1: int, x2: int, y2: int, w: int)
    by (nonlinear_arith)
    requires
        0 <= x1 < w,
        0 <= x2 < w,
        y1 * w + x1 == y2 * w + x2,
    ensures
        x1 == x2,
        y1 == y2,
{
}

} // verus!
