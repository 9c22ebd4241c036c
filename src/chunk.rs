use vstd::prelude::*;
use crate::block::BlockType;

verus! {

/// Width and depth of a chunk, in blocks.
pub const CHUNK_SIZE: usize = 16;

/// Height of a chunk, in blocks.
pub const CHUNK_HEIGHT: usize = 64;

/// Number of cells in a chunk.
pub const CHUNK_VOLUME: usize = CHUNK_SIZE * CHUNK_HEIGHT * CHUNK_SIZE;

/// Number of vertical columns in a chunk.
pub const CHUNK_COLUMNS: usize = CHUNK_SIZE * CHUNK_SIZE;

/// Whether local coordinates lie inside a chunk.
pub open spec fn in_bounds(x: int, y: int, z: int) -> bool {
    0 <= x < CHUNK_SIZE && 0 <= y < CHUNK_HEIGHT && 0 <= z < CHUNK_SIZE
}

/// Position in the flat grid of the cell at local coordinates (x, y, z).
pub open spec fn cell_index(x: int, y: int, z: int) -> int {
    (x * CHUNK_HEIGHT + y) * CHUNK_SIZE + z
}

/// Different in-range coordinates name different cells of the grid.
proof fn lemma_cell_index(x: int, y: int, z: int, a: int, b: int, c: int)
    requires
        in_bounds(x, y, z),
        in_bounds(a, b, c),
    ensures
        0 <= cell_index(x, y, z) < CHUNK_VOLUME,
        cell_index(x, y, z) == cell_index(a, b, c) ==> (x == a && y == b && z == c),
{
}

/// What `get_block` reports for local coordinates (x, y, z) of chunk `c`.
pub open spec fn lookup(c: Chunk, x: int, y: int, z: int) -> Option<BlockType> {
    if in_bounds(x, y, z) {
        Some(c.block_at(x, y, z))
    } else {
        None
    }
}

/// `after` is `before` with `block` written at (x, y, z), or `before`
/// unchanged when (x, y, z) is out of range.
pub open spec fn stored(before: Chunk, after: Chunk, x: int, y: int, z: int, block: BlockType) -> bool {
    &&& after.wf()
    &&& after.spec_position() == before.spec_position()
    &&& forall|a: int, b: int, c: int|
        in_bounds(a, b, c) ==> #[trigger] after.block_at(a, b, c) == (if a == x && b == y && c
            == z {
            block
        } else {
            before.block_at(a, b, c)
        })
}

/// World block coordinate of local offset `local` in the chunk at chunk
/// coordinate `chunk`, along one horizontal axis.
pub open spec fn world_of(chunk: int, local: int) -> int {
    chunk * CHUNK_SIZE + local
}

/// Index of the column (x, z) among a chunk's columns.
pub open spec fn column_of(x: int, z: int) -> int {
    x * CHUNK_SIZE + z
}

/// A sampled column height cut down to the top cell of a chunk.
pub open spec fn clamp_height(raw: int) -> int {
    if raw < CHUNK_HEIGHT - 1 {
        raw
    } else {
        CHUNK_HEIGHT - 1
    }
}

/// The block that terrain generation puts at height `y` of a column whose
/// surface is at height `h` (for `y <= h`): grass on top, two layers of dirt
/// below, stone under that.
pub open spec fn column_block(h: int, y: int) -> BlockType {
    if y == h {
        BlockType::Grass
    } else if h - 3 < y {
        BlockType::Dirt
    } else {
        BlockType::Stone
    }
}

/// What a cell at height `y` holds after its column was filled up to `h`, when
/// it held `prev` before: cells above the surface are left alone.
pub open spec fn after_fill(prev: BlockType, h: int, y: int) -> BlockType {
    if y <= h {
        column_block(h, y)
    } else {
        prev
    }
}

/// `heights` holds, for each column (x, z) of a chunk at `position`, a value
/// that `sample` may return at that column's world coordinates.
pub open spec fn samples_of<F: Fn(i64, i64) -> usize>(
    sample: F,
    position: (i32, i32),
    heights: Seq<usize>,
) -> bool {
    &&& heights.len() == CHUNK_COLUMNS
    &&& forall|x: int, z: int|
        0 <= x < CHUNK_SIZE && 0 <= z < CHUNK_SIZE ==> sample.ensures(
            (world_of(position.0 as int, x) as i64, world_of(position.1 as int, z) as i64),
            #[trigger] heights[column_of(x, z)],
        )
}

/// `after` is `before` with each column (x, z) filled up to the clamped height
/// `heights[column_of(x, z)]`.
pub open spec fn generated_from(before: Chunk, after: Chunk, heights: Seq<usize>) -> bool {
    &&& after.wf()
    &&& after.spec_position() == before.spec_position()
    &&& heights.len() == CHUNK_COLUMNS
    &&& forall|x: int, y: int, z: int|
        in_bounds(x, y, z) ==> #[trigger] after.block_at(x, y, z) == after_fill(
            before.block_at(x, y, z),
            clamp_height(heights[column_of(x, z)] as int),
            y,
        )
}

/// World block coordinate of local offset `local` in the chunk at chunk
/// coordinate `chunk`, along one horizontal axis. Computed in 64 bits, so it
/// cannot overflow for any chunk coordinate.
pub fn world_coord(chunk: i32, local: usize) -> (r: i64)
    requires
        local < CHUNK_SIZE,
    ensures
        r == world_of(chunk as int, local as int),
{
    let size: i64 = CHUNK_SIZE as i64;
    assert(size == 16);
    chunk as i64 * size + local as i64
}

/// Column height for a sampled height: the sample, cut down to the top cell
/// of a chunk.
pub fn column_height(raw: usize) -> (r: usize)
    ensures
        r == clamp_height(raw as int),
        r <= CHUNK_HEIGHT - 1,
{
    if raw < CHUNK_HEIGHT - 1 {
        raw
    } else {
        CHUNK_HEIGHT - 1
    }
}

/// The block at height `y` of a column whose surface is at `height`.
pub fn terrain_block(height: usize, y: usize) -> (r: BlockType)
    ensures
        r == column_block(height as int, y as int),
{
    if y == height {
        BlockType::Grass
    } else if y > height || height - y < 3 {
        BlockType::Dirt
    } else {
        BlockType::Stone
    }
}

/// One chunk of the voxel world: a dense grid of blocks, CHUNK_SIZE wide and
/// deep and CHUNK_HEIGHT high, at a position in the grid of chunks.
pub struct Chunk {
    /// Cells in x, then y, then z order (see `cell_index`).
    blocks: Vec<BlockType>,
    /// Position of the chunk in chunk coordinates.
    pub position: (i32, i32),
}

impl Chunk {
    /// The block held at local coordinates (x, y, z).
    pub closed spec fn block_at(&self, x: int, y: int, z: int) -> BlockType {
        self.blocks@[cell_index(x, y, z)]
    }

    /// Position of the chunk in chunk coordinates.
    pub closed spec fn spec_position(&self) -> (i32, i32) {
        self.position
    }

    /// The grid holds one cell for each in-range coordinate.
    pub closed spec fn wf(&self) -> bool {
        self.blocks@.len() == CHUNK_VOLUME
    }

    /// Creates a chunk at the given position with every cell set to air.
    pub fn new(position: (i32, i32)) -> (r: Self)
        ensures
            r.wf(),
            r.spec_position() == position,
            forall|x: int, y: int, z: int|
                in_bounds(x, y, z) ==> #[trigger] r.block_at(x, y, z) == BlockType::Air,
    {
        let mut blocks: Vec<BlockType> = Vec::new();
        while blocks.len() < CHUNK_VOLUME
            invariant
                blocks@.len() <= CHUNK_VOLUME,
                forall|i: int| 0 <= i < blocks@.len() ==> blocks@[i] == BlockType::Air,
            decreases CHUNK_VOLUME - blocks@.len(),
        {
            blocks.push(BlockType::Air);
        }
        let r = Chunk { blocks, position };
        assert forall|x: int, y: int, z: int| in_bounds(x, y, z) implies #[trigger] r.block_at(
            x,
            y,
            z,
        ) == BlockType::Air by {
            lemma_cell_index(x, y, z, x, y, z);
        }
        r
    }

    /// The block at local coordinates (x, y, z), or `None` when any of them is
    /// past its axis's extent.
    pub fn get_block(&self, x: usize, y: usize, z: usize) -> (r: Option<BlockType>)
        requires
            self.wf(),
        ensures
            r == lookup(*self, x as int, y as int, z as int),
    {
        if x >= CHUNK_SIZE || y >= CHUNK_HEIGHT || z >= CHUNK_SIZE {
            return None;
        }
        proof {
            lemma_cell_index(x as int, y as int, z as int, x as int, y as int, z as int);
        }
        Some(self.blocks[(x * CHUNK_HEIGHT + y) * CHUNK_SIZE + z])
    }

    /// Writes `block` at local coordinates (x, y, z) and returns true; returns
    /// false and leaves the chunk as it was when any coordinate is out of range.
    pub fn set_block(&mut self, x: usize, y: usize, z: usize, block: BlockType) -> (r: bool)
        requires
            old(self).wf(),
        ensures
            r == in_bounds(x as int, y as int, z as int),
            stored(*old(self), *final(self), x as int, y as int, z as int, block),
    {
        if x >= CHUNK_SIZE || y >= CHUNK_HEIGHT || z >= CHUNK_SIZE {
            return false;
        }
        proof {
            lemma_cell_index(x as int, y as int, z as int, x as int, y as int, z as int);
        }
        self.blocks.set((x * CHUNK_HEIGHT + y) * CHUNK_SIZE + z, block);
        assert forall|a: int, b: int, c: int| in_bounds(a, b, c) implies #[trigger] self.block_at(
            a,
            b,
            c,
        ) == (if a == x && b == y && c == z {
            block
        } else {
            old(self).block_at(a, b, c)
        }) by {
            lemma_cell_index(a, b, c, x as int, y as int, z as int);
        }
        true
    }
    /// Fills column (x, z) from the bottom up to the clamped height of `raw`:
    /// grass at the surface, dirt in the two cells below it, stone underneath.
    /// Cells above the surface keep what they held. Returns false and changes
    /// nothing when x or z is out of range.
    pub fn fill_column(&mut self, x: usize, z: usize, raw: usize) -> (r: bool)
        requires
            old(self).wf(),
        ensures
            final(self).wf(),
            final(self).spec_position() == old(self).spec_position(),
            r == (x < CHUNK_SIZE && z < CHUNK_SIZE),
            forall|a: int, b: int, c: int|
                in_bounds(a, b, c) ==> #[trigger] final(self).block_at(a, b, c) == (if r && a == x
                    && c == z {
                    after_fill(old(self).block_at(a, b, c), clamp_height(raw as int), b)
                } else {
                    old(self).block_at(a, b, c)
                }),
    {
        if x >= CHUNK_SIZE || z >= CHUNK_SIZE {
            return false;
        }
        let ghost before = *self;
        let height: usize = column_height(raw);
        let mut y: usize = 0;
        while y <= height
            invariant
                self.wf(),
                self.spec_position() == before.spec_position(),
                x < CHUNK_SIZE,
                z < CHUNK_SIZE,
                height == clamp_height(raw as int),
                height < CHUNK_HEIGHT,
                y <= height + 1,
                forall|a: int, b: int, c: int|
                    in_bounds(a, b, c) ==> #[trigger] self.block_at(a, b, c) == (if a == x && c
                        == z && b < y {
                        column_block(height as int, b)
                    } else {
                        before.block_at(a, b, c)
                    }),
            decreases height + 1 - y,
        {
            let block = terrain_block(height, y);
            self.set_block(x, y, z, block);
            y = y + 1;
        }
        true
    }

    /// Fills every column of the chunk with terrain. For column (x, z) the
    /// surface height is `sample(wx, wz)` at the column's world coordinates
    /// (see `world_coord`), cut down to the top cell; the column is then filled
    /// as `fill_column` does. Cells above the surface keep what they held.
    pub fn generate_terrain<F: Fn(i64, i64) -> usize>(&mut self, sample: &F)
        requires
            old(self).wf(),
            forall|a: i64, b: i64| sample.requires((a, b)),
        ensures
            exists|heights: Seq<usize>|
                samples_of(*sample, old(self).spec_position(), heights) && generated_from(
                    *old(self),
                    *final(self),
                    heights,
                ),
    {
        let ghost before = *self;
        let ghost mut heights: Seq<usize> = Seq::new(CHUNK_COLUMNS as nat, |i: int| 0usize);
        let (chunk_x, chunk_z) = self.position;
        let mut x: usize = 0;
        while x < CHUNK_SIZE
            invariant
                self.wf(),
                self.spec_position() == before.spec_position(),
                (chunk_x, chunk_z) == before.spec_position(),
                forall|a: i64, b: i64| sample.requires((a, b)),
                x <= CHUNK_SIZE,
                heights.len() == CHUNK_COLUMNS,
                forall|a: int, c: int|
                    0 <= a < x && 0 <= c < CHUNK_SIZE ==> sample.ensures(
                        (world_of(chunk_x as int, a) as i64, world_of(chunk_z as int, c) as i64),
                        #[trigger] heights[column_of(a, c)],
                    ),
                forall|a: int, b: int, c: int|
                    in_bounds(a, b, c) ==> #[trigger] self.block_at(a, b, c) == (if a < x {
                        after_fill(
                            before.block_at(a, b, c),
                            clamp_height(heights[column_of(a, c)] as int),
                            b,
                        )
                    } else {
                        before.block_at(a, b, c)
                    }),
            decreases CHUNK_SIZE - x,
        {
            let mut z: usize = 0;
            while z < CHUNK_SIZE
                invariant
                    self.wf(),
                    self.spec_position() == before.spec_position(),
                    (chunk_x, chunk_z) == before.spec_position(),
                    forall|a: i64, b: i64| sample.requires((a, b)),
                    x < CHUNK_SIZE,
                    z <= CHUNK_SIZE,
                    heights.len() == CHUNK_COLUMNS,
                    forall|a: int, c: int|
                        0 <= a < CHUNK_SIZE && 0 <= c < CHUNK_SIZE && (a < x || (a == x && c < z))
                            ==> sample.ensures(
                            (world_of(chunk_x as int, a) as i64, world_of(chunk_z as int, c) as i64),
                            #[trigger] heights[column_of(a, c)],
                        ),
                    forall|a: int, b: int, c: int|
                        in_bounds(a, b, c) ==> #[trigger] self.block_at(a, b, c) == (if a < x || (a
                            == x && c < z) {
                            after_fill(
                                before.block_at(a, b, c),
                                clamp_height(heights[column_of(a, c)] as int),
                                b,
                            )
                        } else {
                            before.block_at(a, b, c)
                        }),
                decreases CHUNK_SIZE - z,
            {
                let world_x: i64 = world_coord(chunk_x, x);
                let world_z: i64 = world_coord(chunk_z, z);
                let raw: usize = sample(world_x, world_z);
                proof {
                    heights = heights.update(column_of(x as int, z as int), raw);
                    assert forall|a: int, c: int|
                        0 <= a < CHUNK_SIZE && 0 <= c < CHUNK_SIZE && (a < x || (a == x && c < z))
                            implies column_of(a, c) != column_of(x as int, z as int) by {}
                }
                self.fill_column(x, z, raw);
                z = z + 1;
            }
            x = x + 1;
        }
        assert(samples_of(*sample, before.spec_position(), heights));
        assert(generated_from(before, *self, heights));
    }
}

/// Every cell of `c` holds air.
pub open spec fn all_air(c: Chunk) -> bool {
    forall|x: int, y: int, z: int| in_bounds(x, y, z) ==> #[trigger] c.block_at(x, y, z) == BlockType::Air
}

/// Chunk coordinate of the chunk that holds the world coordinate opposite to
/// local offset `local` of chunk `chunk`.
pub open spec fn mirror_chunk(chunk: int, local: int) -> int {
    if local == 0 {
        -chunk
    } else {
        -chunk - 1
    }
}

/// Local offset, in the chunk given by `mirror_chunk`, of the world
/// coordinate opposite to local offset `local`.
pub open spec fn mirror_local(local: int) -> int {
    if local == 0 {
        0
    } else {
        CHUNK_SIZE - local
    }
}

/// After a block is written at an in-range cell, reading that cell gives the
/// block back, and reading any other cell gives what it gave before.
pub proof fn lemma_set_then_get(
    before: Chunk,
    after: Chunk,
    x: int,
    y: int,
    z: int,
    block: BlockType,
    a: int,
    b: int,
    c: int,
)
    requires
        stored(before, after, x, y, z, block),
    ensures
        in_bounds(x, y, z) ==> lookup(after, x, y, z) == Some(block),
        !(a == x && b == y && c == z) ==> lookup(after, a, b, c) == lookup(before, a, b, c),
{
    if in_bounds(a, b, c) {
        assert(after.block_at(a, b, c) == (if a == x && b == y && c == z {
            block
        } else {
            before.block_at(a, b, c)
        }));
    }
    if in_bounds(x, y, z) {
        assert(after.block_at(x, y, z) == block);
    }
}

/// Generating terrain twice on a fresh chunk at the same position, with a
/// sampler that always gives the same height at the same coordinates, gives
/// the same grid both times.
pub proof fn lemma_generation_deterministic<F: Fn(i64, i64) -> usize>(
    sample: F,
    first_before: Chunk,
    first_after: Chunk,
    first_heights: Seq<usize>,
    second_before: Chunk,
    second_after: Chunk,
    second_heights: Seq<usize>,
)
    requires
        forall|p: (i64, i64), u: usize, v: usize|
            #[trigger] sample.ensures(p, u) && #[trigger] sample.ensures(p, v) ==> u == v,
        all_air(first_before),
        all_air(second_before),
        first_before.spec_position() == second_before.spec_position(),
        samples_of(sample, first_before.spec_position(), first_heights),
        samples_of(sample, second_before.spec_position(), second_heights),
        generated_from(first_before, first_after, first_heights),
        generated_from(second_before, second_after, second_heights),
    ensures
        first_after.spec_position() == second_after.spec_position(),
        forall|x: int, y: int, z: int|
            in_bounds(x, y, z) ==> #[trigger] first_after.block_at(x, y, z)
                == second_after.block_at(x, y, z),
{
    assert forall|x: int, y: int, z: int| in_bounds(x, y, z) implies #[trigger] first_after.block_at(
        x,
        y,
        z,
    ) == second_after.block_at(x, y, z) by {
        let p = (
            world_of(first_before.spec_position().0 as int, x) as i64,
            world_of(first_before.spec_position().1 as int, z) as i64,
        );
        assert(sample.ensures(p, first_heights[column_of(x, z)]));
        assert(sample.ensures(p, second_heights[column_of(x, z)]));
        assert(first_before.block_at(x, y, z) == BlockType::Air);
        assert(second_before.block_at(x, y, z) == BlockType::Air);
    }
}

/// In a column generated on a fresh chunk, with surface height `h` (the
/// clamped sample), the one grass cell is at `h`, the cells at `h - 1` and
/// `h - 2` (those at 0 or above) hold dirt, the cells from 0 up to `h - 3`
/// hold stone, and every cell above `h` is still air.
pub proof fn lemma_generated_column(
    before: Chunk,
    after: Chunk,
    heights: Seq<usize>,
    x: int,
    y: int,
    z: int,
)
    requires
        all_air(before),
        generated_from(before, after, heights),
        in_bounds(x, y, z),
    ensures
        ({
            let h: int = clamp_height(heights[column_of(x, z)] as int);
            &&& 0 <= h < CHUNK_HEIGHT
            &&& (after.block_at(x, y, z) == BlockType::Grass) == (y == h)
            &&& (after.block_at(x, y, z) == BlockType::Dirt) == (h - 3 < y < h)
            &&& (after.block_at(x, y, z) == BlockType::Stone) == (y <= h - 3)
            &&& (after.block_at(x, y, z) == BlockType::Air) == (h < y)
        }),
{
    assert(before.block_at(x, y, z) == BlockType::Air);
    assert(0 <= column_of(x, z) < CHUNK_COLUMNS);
}

/// The world coordinate opposite to local offset `local` of chunk `chunk` is
/// local offset `mirror_local(local)` of chunk `mirror_chunk(chunk, local)`,
/// and that chunk coordinate fits an `i32` whenever `chunk` is above
/// `i32::MIN`.
pub proof fn lemma_mirror_world(chunk: i32, local: int)
    requires
        0 <= local < CHUNK_SIZE,
    ensures
        0 <= mirror_local(local) < CHUNK_SIZE,
        world_of(mirror_chunk(chunk as int, local), mirror_local(local)) == -world_of(
            chunk as int,
            local,
        ),
        chunk > i32::MIN ==> i32::MIN <= mirror_chunk(chunk as int, local) <= i32::MAX,
{
}

/// With a sampler that gives the same height at opposite world coordinates,
/// the column (x, z) of the chunk at `position` gets the same height as the
/// column at the opposite world coordinates, in the chunk `mirror_chunk` names.
pub proof fn lemma_mirrored_column_height<F: Fn(i64, i64) -> usize>(
    sample: F,
    position: (i32, i32),
    heights: Seq<usize>,
    mirrored: (i32, i32),
    mirrored_heights: Seq<usize>,
    x: int,
    z: int,
)
    requires
        forall|p: (i64, i64), q: (i64, i64), u: usize, v: usize|
            p.0 == -q.0 && p.1 == -q.1 && #[trigger] sample.ensures(p, u) && #[trigger] sample.ensures(
                q,
                v,
            ) ==> u == v,
        0 <= x < CHUNK_SIZE,
        0 <= z < CHUNK_SIZE,
        mirrored.0 == mirror_chunk(position.0 as int, x),
        mirrored.1 == mirror_chunk(position.1 as int, z),
        samples_of(sample, position, heights),
        samples_of(sample, mirrored, mirrored_heights),
    ensures
        heights[column_of(x, z)] == mirrored_heights[column_of(mirror_local(x), mirror_local(z))],
        clamp_height(heights[column_of(x, z)] as int) == clamp_height(
            mirrored_heights[column_of(mirror_local(x), mirror_local(z))] as int,
        ),
{
    let mx: int = mirror_local(x);
    let mz: int = mirror_local(z);
    let p = (world_of(position.0 as int, x) as i64, world_of(position.1 as int, z) as i64);
    let q = (world_of(mirrored.0 as int, mx) as i64, world_of(mirrored.1 as int, mz) as i64);
    assert(sample.ensures(p, heights[column_of(x, z)]));
    assert(sample.ensures(q, mirrored_heights[column_of(mx, mz)]));
}

} // verus!
