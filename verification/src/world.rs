use vstd::prelude::*;

use std::collections::{HashMap, HashSet};

use vstd::std_specs::iter::IteratorSpec;

use crate::chunks::hash_map_keys;
use crate::types::{chunk_key, key_pos, key_to_pos, pos_key, ChunkPos, MAX_CONCURRENT_LOADS, RENDER_DISTANCE};

verus! {

broadcast use vstd::std_specs::hash::group_hash_axioms;

/// Whether the offset `(dx, dz)` lies within the render distance (a disk of
/// radius `RENDER_DISTANCE` chunks).
pub open spec fn in_disk(dx: int, dz: int) -> bool {
    dx * dx + dz * dz <= RENDER_DISTANCE * RENDER_DISTANCE
}

/// The order in which chunks around the player are loaded: by squared
/// distance, then by `dz`, then by `dx`.
pub open spec fn offset_before(dx1: int, dz1: int, dx2: int, dz2: int) -> bool {
    let d1 = dx1 * dx1 + dz1 * dz1;
    let d2 = dx2 * dx2 + dz2 * dz2;
    d1 < d2 || (d1 == d2 && (dz1 < dz2 || (dz1 == dz2 && dx1 < dx2)))
}

/// Whether every chunk within the render distance of `player` can be named.
pub open spec fn player_in_range(player: ChunkPos) -> bool {
    i32::MIN + RENDER_DISTANCE <= player.x <= i32::MAX - RENDER_DISTANCE
        && i32::MIN + RENDER_DISTANCE <= player.y <= i32::MAX - RENDER_DISTANCE
}

/// Whether `r` lists the chunks within the render distance of `player`, each
/// once, closest first (ties by `dz`, then `dx`).
pub open spec fn desired_spec(player: ChunkPos, r: Seq<ChunkPos>) -> bool {
    &&& forall|i: int| 0 <= i < r.len() ==> in_disk(#[trigger] r[i].x - player.x, r[i].y - player.y)
    &&& forall|i: int, j: int|
        0 <= i < j < r.len() ==> offset_before(
            #[trigger] r[i].x - player.x,
            r[i].y - player.y,
            #[trigger] r[j].x - player.x,
            r[j].y - player.y,
        )
    &&& forall|dx: int, dz: int|
        in_disk(dx, dz) ==> r.contains(#[trigger] offset_pos(player, dx, dz))
}

/// The chunk at offset `(dx, dz)` from `player`.
pub open spec fn offset_pos(player: ChunkPos, dx: int, dz: int) -> ChunkPos {
    ChunkPos { x: (player.x + dx) as i32, y: (player.y + dz) as i32 }
}

/// An offset whose square is `n` has the integer square root of `n` as its size.
proof fn lemma_square_root_unique(dx: int, s: int, n: int)
    requires
        0 <= s,
        s * s <= n < (s + 1) * (s + 1),
        dx * dx == n,
    ensures
        dx == s || dx == -s,
{
    let a = if dx < 0 { -dx } else { dx };
    assert(a * a == n) by (nonlinear_arith)
        requires
            a == dx || a == -dx,
            dx * dx == n,
    ;
    assert(a == s) by (nonlinear_arith)
        requires
            0 <= a,
            0 <= s,
            a * a == n,
            s * s <= n < (s + 1) * (s + 1),
    ;
}

proof fn lemma_disk_bounds(dx: int, dz: int)
    ensures
        dx * dx >= 0,
        dz * dz >= 0,
        (-dx) * (-dx) == dx * dx,
        in_disk(dx, dz) ==> -64 <= dx <= 64 && -64 <= dz <= 64,
{
    assert(dx * dx >= 0 && dz * dz >= 0 && (-dx) * (-dx) == dx * dx) by (nonlinear_arith);
    if in_disk(dx, dz) {
        assert(-64 <= dx <= 64 && -64 <= dz <= 64) by (nonlinear_arith)
            requires
                dx * dx + dz * dz <= 4096,
        ;
    }
}

/// The chunks within the render distance of `player`, closest first: the
/// order in which chunks are loaded.
pub fn desired_chunks(player: ChunkPos) -> (r: Vec<ChunkPos>)
    requires
        player_in_range(player),
    ensures
        desired_spec(player, r@),
{
    let rd: i64 = RENDER_DISTANCE as i64;
    let mut r: Vec<ChunkPos> = Vec::new();
    let mut d: i64 = 0;
    proof {
        assert forall|dx: int, dz: int| in_disk(dx, dz) && dx * dx + dz * dz < d implies r@.contains(#[trigger] offset_pos(player, dx, dz)) by {
            lemma_disk_bounds(dx, dz);
        }
    }
    while d <= rd * rd
        invariant
            player_in_range(player),
            rd == 64,
            0 <= d <= 4097,
            forall|i: int| 0 <= i < r@.len() ==> in_disk(#[trigger] r@[i].x - player.x, r@[i].y - player.y)
                && (r@[i].x - player.x) * (r@[i].x - player.x) + (r@[i].y - player.y) * (r@[i].y - player.y) < d,
            forall|i: int, j: int|
                0 <= i < j < r@.len() ==> offset_before(
                    #[trigger] r@[i].x - player.x,
                    r@[i].y - player.y,
                    #[trigger] r@[j].x - player.x,
                    r@[j].y - player.y,
                ),
            forall|dx: int, dz: int|
                in_disk(dx, dz) && dx * dx + dz * dz < d ==> r@.contains(#[trigger] offset_pos(player, dx, dz)),
        decreases 4097 - d,
    {
        let mut dz: i64 = -rd;
        proof {
            assert forall|dx: int, z: int|
                in_disk(dx, z) && (dx * dx + z * z < d || (dx * dx + z * z == d && z < dz)) implies r@.contains(#[trigger] offset_pos(player, dx, z)) by {
                lemma_disk_bounds(dx, z);
            }
        }
        while dz <= rd
            invariant
                player_in_range(player),
                rd == 64,
                0 <= d <= 4096,
                -64 <= dz <= 65,
                forall|i: int| 0 <= i < r@.len() ==> in_disk(#[trigger] r@[i].x - player.x, r@[i].y - player.y)
                    && {
                    let sq = (r@[i].x - player.x) * (r@[i].x - player.x) + (r@[i].y - player.y) * (r@[i].y - player.y);
                    sq < d || (sq == d && r@[i].y - player.y < dz)
                },
                forall|i: int, j: int|
                    0 <= i < j < r@.len() ==> offset_before(
                        #[trigger] r@[i].x - player.x,
                        r@[i].y - player.y,
                        #[trigger] r@[j].x - player.x,
                        r@[j].y - player.y,
                    ),
                forall|dx: int, z: int|
                    in_disk(dx, z) && (dx * dx + z * z < d || (dx * dx + z * z == d && z < dz)) ==> r@.contains(#[trigger] offset_pos(player, dx, z)),
            decreases 65 - dz,
        {
            assert(0 <= dz * dz <= 4096) by (nonlinear_arith)
                requires
                    -64 <= dz <= 64,
            ;
            let rem = d - dz * dz;
            let ghost before = r@;
            if rem >= 0 {
                let s = isqrt(rem);
                if s * s == rem {
                    proof {
                        lemma_disk_bounds(s as int, dz as int);
                        assert(in_disk(s as int, dz as int) && in_disk(-s, dz as int));
                    }
                    if s == 0 {
                        r.push(ChunkPos { x: player.x, y: (player.y as i64 + dz) as i32 });
                        assert(r@.last() == offset_pos(player, 0, dz as int));
                    } else {
                        r.push(ChunkPos { x: (player.x as i64 - s) as i32, y: (player.y as i64 + dz) as i32 });
                        assert(r@.last() == offset_pos(player, -s, dz as int));
                        r.push(ChunkPos { x: (player.x as i64 + s) as i32, y: (player.y as i64 + dz) as i32 });
                        assert(r@.last() == offset_pos(player, s as int, dz as int));
                        assert(r@[r@.len() - 2] == offset_pos(player, -s, dz as int));
                    }
                }
                proof {
                    assert forall|i: int| 0 <= i < r@.len() implies in_disk(#[trigger] r@[i].x - player.x, r@[i].y - player.y)
                        && {
                        let sq = (r@[i].x - player.x) * (r@[i].x - player.x) + (r@[i].y - player.y) * (r@[i].y - player.y);
                        sq < d || (sq == d && r@[i].y - player.y < dz + 1)
                    } by {
                        if i < before.len() {
                            assert(r@[i] == before[i]);
                        }
                    }
                    assert forall|i: int, j: int|
                        0 <= i < j < r@.len() implies offset_before(
                            #[trigger] r@[i].x - player.x,
                            r@[i].y - player.y,
                            #[trigger] r@[j].x - player.x,
                            r@[j].y - player.y,
                        ) by {
                        if j < before.len() {
                            assert(r@[i] == before[i] && r@[j] == before[j]);
                        } else if i < before.len() {
                            assert(r@[i] == before[i]);
                        }
                    }
                    assert forall|dx: int, z: int|
                        in_disk(dx, z) && (dx * dx + z * z < d || (dx * dx + z * z == d && z < dz + 1)) implies r@.contains(#[trigger] offset_pos(player, dx, z)) by {
                        if dx * dx + z * z == d && z == dz {
                            lemma_square_root_unique(dx, s as int, rem as int);
                            lemma_disk_bounds(s as int, dz as int);
                            assert(s * s == rem);
                            if s == 0 {
                                assert(r@[r@.len() - 1] == offset_pos(player, dx, z));
                            } else if dx == -s {
                                assert(r@[r@.len() - 2] == offset_pos(player, dx, z));
                            } else {
                                assert(r@[r@.len() - 1] == offset_pos(player, dx, z));
                            }
                        } else {
                            assert(before.contains(offset_pos(player, dx, z)));
                            let k = choose|k: int| 0 <= k < before.len() && before[k] == offset_pos(player, dx, z);
                            assert(r@[k] == before[k]);
                        }
                    }
                }
            } else {
                proof {
                    assert forall|dx: int, z: int|
                        in_disk(dx, z) && (dx * dx + z * z < d || (dx * dx + z * z == d && z < dz + 1)) implies r@.contains(#[trigger] offset_pos(player, dx, z)) by {
                        if dx * dx + z * z == d && z == dz {
                            assert(dx * dx >= 0) by (nonlinear_arith);
                        }
                    }
                }
            }
            dz = dz + 1;
        }
        proof {
            assert forall|dx: int, z: int| in_disk(dx, z) && dx * dx + z * z < d + 1 implies r@.contains(#[trigger] offset_pos(player, dx, z)) by {
                lemma_disk_bounds(dx, z);
            }
        }
        d = d + 1;
    }
    proof {
        assert forall|dx: int, dz: int| in_disk(dx, dz) implies r@.contains(#[trigger] offset_pos(player, dx, dz)) by {
            assert(dx * dx + dz * dz < d);
        }
    }
    r
}

/// Whether `pos` lies within the render distance of `player`.
pub fn in_render_distance(player: ChunkPos, pos: ChunkPos) -> (r: bool)
    ensures
        r == in_disk(pos.x - player.x, pos.y - player.y),
{
    let dx: i64 = pos.x as i64 - player.x as i64;
    let dz: i64 = pos.y as i64 - player.y as i64;
    let rd = RENDER_DISTANCE as i64;
    if dx < -rd || dx > rd || dz < -rd || dz > rd {
        proof {
            assert(!in_disk(dx as int, dz as int)) by (nonlinear_arith)
                requires
                    dx < -64 || dx > 64 || dz < -64 || dz > 64,
            ;
        }
        false
    } else {
        assert(0 <= dx * dx <= 4096 && 0 <= dz * dz <= 4096) by (nonlinear_arith)
            requires
                -64 <= dx <= 64,
                -64 <= dz <= 64,
        ;
        dx * dx + dz * dz <= rd * rd
    }
}

/// The integer square root of `n`: the largest `s` with `s * s <= n`.
fn isqrt(n: i64) -> (s: i64)
    requires
        0 <= n <= 4096,
    ensures
        0 <= s <= 64,
        s * s <= n < (s + 1) * (s + 1),
{
    let mut lo: i64 = 0;
    let mut hi: i64 = 65;
    while hi - lo > 1
        invariant
            0 <= lo < hi <= 65,
            lo * lo <= n,
            n < hi * hi,
        decreases hi - lo,
    {
        let mid = lo + (hi - lo) / 2;
        assert(0 <= mid * mid <= 65 * 65) by (nonlinear_arith)
            requires
                0 <= mid <= 65,
        ;
        if mid * mid <= n {
            lo = mid;
        } else {
            hi = mid;
        }
    }
    lo
}

/// The `i`-th horizontal neighbour of `pos`: west, east, north, south.
pub open spec fn neighbor_pos(pos: ChunkPos, i: int) -> ChunkPos {
    if i == 0 {
        ChunkPos { x: (pos.x - 1) as i32, y: pos.y }
    } else if i == 1 {
        ChunkPos { x: (pos.x + 1) as i32, y: pos.y }
    } else if i == 2 {
        ChunkPos { x: pos.x, y: (pos.y - 1) as i32 }
    } else {
        ChunkPos { x: pos.x, y: (pos.y + 1) as i32 }
    }
}

/// The four horizontal neighbours of `pos`: west, east, north, south.
pub fn neighbor_positions(pos: ChunkPos) -> (r: Vec<ChunkPos>)
    requires
        crate::meshing::pos_inner(pos),
    ensures
        r@.len() == 4,
        forall|i: int| 0 <= i < 4 ==> #[trigger] r@[i] == neighbor_pos(pos, i),
{
    let mut r: Vec<ChunkPos> = Vec::new();
    r.push(ChunkPos { x: pos.x - 1, y: pos.y });
    r.push(ChunkPos { x: pos.x + 1, y: pos.y });
    r.push(ChunkPos { x: pos.x, y: pos.y - 1 });
    r.push(ChunkPos { x: pos.x, y: pos.y + 1 });
    r
}

/// The chunks currently loaded, keyed by `chunk_key` of their position, each
/// with the handle (`E`) the game keeps for it.
pub struct ChunkMap<E> {
    pub loaded_chunks: HashMap<u64, E>,
}

impl<E> ChunkMap<E> {
    /// Whether the chunk at `p` is loaded.
    pub open spec fn is_loaded(&self, p: ChunkPos) -> bool {
        self.loaded_chunks@.contains_key(pos_key(p))
    }

    /// No chunk loaded.
    pub fn new() -> (r: ChunkMap<E>)
        ensures
            r.loaded_chunks@ == Map::<u64, E>::empty(),
    {
        ChunkMap { loaded_chunks: HashMap::new() }
    }

    /// Whether the chunk at `pos` is loaded.
    pub fn contains(&self, pos: ChunkPos) -> (r: bool)
        ensures
            r == self.is_loaded(pos),
    {
        self.loaded_chunks.contains_key(&chunk_key(pos))
    }

    /// The handle of the chunk at `pos`, if it is loaded.
    pub fn get(&self, pos: ChunkPos) -> (r: Option<&E>)
        ensures
            match r {
                Some(e) => self.is_loaded(pos) && *e == self.loaded_chunks@[pos_key(pos)],
                None => !self.is_loaded(pos),
            },
    {
        self.loaded_chunks.get(&chunk_key(pos))
    }

    /// Records that the chunk at `pos` is loaded, with handle `e`.
    pub fn insert(&mut self, pos: ChunkPos, e: E)
        ensures
            final(self).loaded_chunks@ == old(self).loaded_chunks@.insert(pos_key(pos), e),
    {
        self.loaded_chunks.insert(chunk_key(pos), e);
    }

    /// Forgets the chunk at `pos`, returning its handle if it was loaded.
    pub fn remove(&mut self, pos: ChunkPos) -> (r: Option<E>)
        ensures
            final(self).loaded_chunks@ == old(self).loaded_chunks@.remove(pos_key(pos)),
            match r {
                Some(e) => old(self).is_loaded(pos) && e == old(self).loaded_chunks@[pos_key(pos)],
                None => !old(self).is_loaded(pos),
            },
    {
        self.loaded_chunks.remove(&chunk_key(pos))
    }

    /// Forgets every chunk.
    pub fn clear(&mut self)
        ensures
            final(self).loaded_chunks@ == Map::<u64, E>::empty(),
    {
        self.loaded_chunks.clear();
    }

    /// The number of loaded chunks.
    pub fn len(&self) -> (r: usize)
        ensures
            r == self.loaded_chunks@.dom().len(),
    {
        self.loaded_chunks.len()
    }

    /// The positions of the loaded chunks, each once.
    pub fn positions(&self) -> (r: Vec<ChunkPos>)
        ensures
            r@.no_duplicates(),
            forall|p: ChunkPos| r@.contains(p) <==> self.is_loaded(p),
    {
        let keys = hash_map_keys(&self.loaded_chunks);
        let mut r: Vec<ChunkPos> = Vec::new();
        let mut i: usize = 0;
        while i < keys.len()
            invariant
                i <= keys@.len(),
                keys@.to_set() == self.loaded_chunks@.dom(),
                keys@.no_duplicates(),
                r@.len() == i,
                forall|j: int| 0 <= j < i ==> #[trigger] r@[j] == key_pos(keys@[j]),
            decreases keys@.len() - i,
        {
            r.push(key_to_pos(keys[i]));
            i = i + 1;
        }
        proof {
            assert forall|a: int, b: int| 0 <= a < b < r@.len() implies r@[a] != r@[b] by {
                crate::types::lemma_key_pos_roundtrip(keys@[a]);
                crate::types::lemma_key_pos_roundtrip(keys@[b]);
            }
            assert forall|p: ChunkPos| r@.contains(p) <==> self.is_loaded(p) by {
                if r@.contains(p) {
                    let j = choose|j: int| 0 <= j < r@.len() && r@[j] == p;
                    crate::types::lemma_key_pos_roundtrip(keys@[j]);
                    assert(keys@.to_set().contains(keys@[j]));
                }
                if self.is_loaded(p) {
                    assert(keys@.to_set().contains(pos_key(p)));
                    let j = choose|j: int| 0 <= j < keys@.len() && keys@[j] == pos_key(p);
                    crate::types::lemma_pos_key_roundtrip(p);
                    assert(r@[j] == p);
                }
            }
        }
        r
    }

    /// Whether the four horizontal neighbours of `pos` are loaded.
    pub fn all_neighbors_loaded(&self, pos: ChunkPos) -> (r: bool)
        requires
            crate::meshing::pos_inner(pos),
        ensures
            r == forall|i: int| 0 <= i < 4 ==> self.is_loaded(#[trigger] neighbor_pos(pos, i)),
    {
        let offsets = neighbor_positions(pos);
        let mut i: usize = 0;
        while i < 4
            invariant
                i <= 4,
                offsets@.len() == 4,
                forall|j: int| 0 <= j < 4 ==> #[trigger] offsets@[j] == neighbor_pos(pos, j),
                forall|j: int| 0 <= j < i ==> self.is_loaded(#[trigger] neighbor_pos(pos, j)),
            decreases 4 - i,
        {
            if !self.contains(offsets[i]) {
                return false;
            }
            i = i + 1;
        }
        true
    }
}

impl<E> Default for ChunkMap<E> {
    fn default() -> (r: ChunkMap<E>)
        ensures
            r.loaded_chunks@ == Map::<u64, E>::empty(),
    {
        ChunkMap::new()
    }
}

/// The positions of `s` for which `busy` does not hold, in order.
pub open spec fn available(s: Seq<ChunkPos>, busy: spec_fn(ChunkPos) -> bool) -> Seq<ChunkPos>
    decreases s.len(),
{
    if s.len() == 0 {
        s
    } else if busy(s.last()) {
        available(s.drop_last(), busy)
    } else {
        available(s.drop_last(), busy).push(s.last())
    }
}

/// The available positions of a prefix are a prefix of the available positions.
pub proof fn lemma_available_prefix(s: Seq<ChunkPos>, busy: spec_fn(ChunkPos) -> bool, i: int)
    requires
        0 <= i <= s.len(),
    ensures
        available(s.take(i), busy).len() <= available(s, busy).len(),
        available(s, busy).take(available(s.take(i), busy).len() as int) == available(s.take(i), busy),
    decreases s.len() - i,
{
    if i == s.len() {
        assert(s.take(i) =~= s);
        assert(available(s, busy).take(available(s, busy).len() as int) =~= available(s, busy));
    } else {
        lemma_available_prefix(s, busy, i + 1);
        assert(s.take(i + 1).drop_last() =~= s.take(i));
        let a = available(s.take(i), busy);
        let b = available(s.take(i + 1), busy);
        let c = available(s, busy);
        assert(b.take(a.len() as int) =~= a);
        assert(c.take(a.len() as int) =~= b.take(a.len() as int));
    }
}

/// What decides which chunks are loaded: the loading tasks under way (keyed by
/// `chunk_key`, each with the task handle `T`), the chunk the player was last
/// seen in, and the chunks within the render distance of it, closest first.
pub struct ChunkLoadState<T> {
    pub tasks: HashMap<u64, T>,
    pub last_player_chunk: Option<ChunkPos>,
    pub sorted_desired: Vec<ChunkPos>,
}

impl<T> ChunkLoadState<T> {
    /// Whether the chunk at `p` is wanted: it lies within the render distance
    /// of the chunk the player was last seen in.
    pub open spec fn is_desired(&self, p: ChunkPos) -> bool {
        match self.last_player_chunk {
            Some(c) => in_disk(p.x - c.x, p.y - c.y),
            None => false,
        }
    }

    /// No task, no player position, nothing wanted.
    pub fn new() -> (r: ChunkLoadState<T>)
        ensures
            r.tasks@ == Map::<u64, T>::empty(),
            r.last_player_chunk is None,
            r.sorted_desired@ == Seq::<ChunkPos>::empty(),
    {
        ChunkLoadState { tasks: HashMap::new(), last_player_chunk: None, sorted_desired: Vec::new() }
    }

    /// Forgets every task and the player's position.
    pub fn reset(&mut self)
        ensures
            final(self).tasks@ == Map::<u64, T>::empty(),
            final(self).last_player_chunk is None,
            final(self).sorted_desired@ == Seq::<ChunkPos>::empty(),
    {
        self.tasks.clear();
        self.last_player_chunk = None;
        self.sorted_desired = Vec::new();
    }

    /// Records the chunk the player is in; when it changed, the wanted chunks
    /// are listed again around it, closest first.
    pub fn update_player_chunk(&mut self, player: ChunkPos)
        requires
            player_in_range(player),
        ensures
            final(self).last_player_chunk == Some(player),
            final(self).tasks@ == old(self).tasks@,
            old(self).last_player_chunk == Some(player) ==> final(self).sorted_desired@ == old(self).sorted_desired@,
            old(self).last_player_chunk != Some(player) ==> desired_spec(player, final(self).sorted_desired@),
    {
        let changed = match self.last_player_chunk {
            Some(c) => c != player,
            None => true,
        };
        if changed {
            self.sorted_desired = desired_chunks(player);
            self.last_player_chunk = Some(player);
        }
    }

    /// Unloads the loaded chunks that are not wanted, with their loading tasks,
    /// and returns their handles (each once).
    pub fn unload_unwanted<E>(&mut self, chunk_map: &mut ChunkMap<E>) -> (r: Vec<E>)
        ensures
            final(self).last_player_chunk == old(self).last_player_chunk,
            final(self).sorted_desired@ == old(self).sorted_desired@,
            forall|p: ChunkPos| #[trigger] final(chunk_map).is_loaded(p) <==> old(chunk_map).is_loaded(p) && old(self).is_desired(p),
            forall|p: ChunkPos| final(chunk_map).is_loaded(p) ==> #[trigger] final(chunk_map).loaded_chunks@[pos_key(p)] == old(chunk_map).loaded_chunks@[pos_key(p)],
            forall|k: u64| #[trigger] final(self).tasks@.contains_key(k) <==> old(self).tasks@.contains_key(k) && !(old(chunk_map).loaded_chunks@.contains_key(k) && !old(self).is_desired(key_pos(k))),
            forall|k: u64| final(self).tasks@.contains_key(k) ==> #[trigger] final(self).tasks@[k] == old(self).tasks@[k],
            exists|ks: Seq<u64>| {
                &&& ks.no_duplicates()
                &&& forall|k: u64| ks.contains(k) <==> old(chunk_map).loaded_chunks@.contains_key(k) && !old(self).is_desired(key_pos(k))
                &&& r@ == ks.map_values(|k: u64| old(chunk_map).loaded_chunks@[k])
            },
    {
        let keys = hash_map_keys(&chunk_map.loaded_chunks);
        let ghost old_map = chunk_map.loaded_chunks@;
        let ghost old_tasks = self.tasks@;
        let ghost old_self_desired = |p: ChunkPos| self.is_desired(p);
        let mut removed: Vec<E> = Vec::new();
        let ghost mut ks: Seq<u64> = Seq::empty();
        let mut i: usize = 0;
        while i < keys.len()
            invariant
                i <= keys@.len(),
                keys@.to_set() == old_map.dom(),
                keys@.no_duplicates(),
                self.last_player_chunk == old(self).last_player_chunk,
                self.sorted_desired@ == old(self).sorted_desired@,
                old_map == old(chunk_map).loaded_chunks@,
                old_tasks == old(self).tasks@,
                forall|k: u64| #![trigger chunk_map.loaded_chunks@.contains_key(k)]
                    chunk_map.loaded_chunks@.contains_key(k) <==> old_map.contains_key(k) && !(keys@.subrange(0, i as int).contains(k) && !self.is_desired(key_pos(k))),
                forall|k: u64| chunk_map.loaded_chunks@.contains_key(k) ==> #[trigger] chunk_map.loaded_chunks@[k] == old_map[k],
                forall|k: u64| #![trigger self.tasks@.contains_key(k)]
                    self.tasks@.contains_key(k) <==> old_tasks.contains_key(k) && !(old_map.contains_key(k) && keys@.subrange(0, i as int).contains(k) && !self.is_desired(key_pos(k))),
                forall|k: u64| self.tasks@.contains_key(k) ==> #[trigger] self.tasks@[k] == old_tasks[k],
                ks.no_duplicates(),
                forall|k: u64| ks.contains(k) <==> keys@.subrange(0, i as int).contains(k) && !self.is_desired(key_pos(k)),
                removed@ == ks.map_values(|k: u64| old_map[k]),
            decreases keys@.len() - i,
        {
            let k = keys[i];
            let ghost done = keys@.subrange(0, i as int);
            let ghost next = keys@.subrange(0, i + 1);
            assert(keys@.to_set().contains(k));
            assert(!done.contains(k)) by {
                if done.contains(k) {
                    let j = choose|j: int| 0 <= j < i && done[j] == k;
                    assert(keys@[j] == keys@[i as int]);
                }
            }
            let pos = key_to_pos(k);
            proof {
                crate::types::lemma_key_pos_roundtrip(k);
            }
            let wanted = match self.last_player_chunk {
                Some(c) => in_render_distance(c, pos),
                None => false,
            };
            assert(wanted == self.is_desired(key_pos(k)));
            let ghost prev_ks = ks;
            if !wanted {
                let ghost prev_map = chunk_map.loaded_chunks@;
                let ghost prev_tasks = self.tasks@;
                match chunk_map.loaded_chunks.remove(&k) {
                    Some(e) => {
                        removed.push(e);
                    },
                    None => {},
                }
                self.tasks.remove(&k);
                proof {
                    assert(prev_map.contains_key(k));
                    assert(!ks.contains(k));
                    let ks2 = ks.push(k);
                    assert(ks2.no_duplicates());
                    assert(removed@ =~= ks2.map_values(|kk: u64| old_map[kk]));
                    ks = ks2;
                }
            }
            proof {
                assert forall|kk: u64| #![trigger chunk_map.loaded_chunks@.contains_key(kk)]
                    chunk_map.loaded_chunks@.contains_key(kk) <==> old_map.contains_key(kk) && !(next.contains(kk) && !self.is_desired(key_pos(kk))) by {
                    if next.contains(kk) && kk != k {
                        let j = choose|j: int| 0 <= j < i + 1 && next[j] == kk;
                        assert(done[j] == kk);
                    }
                    if done.contains(kk) {
                        let j = choose|j: int| 0 <= j < i && done[j] == kk;
                        assert(next[j] == kk);
                    }
                    assert(next[i as int] == k);
                }
                assert forall|kk: u64| #![trigger self.tasks@.contains_key(kk)]
                    self.tasks@.contains_key(kk) <==> old_tasks.contains_key(kk) && !(old_map.contains_key(kk) && next.contains(kk) && !self.is_desired(key_pos(kk))) by {
                    if next.contains(kk) && kk != k {
                        let j = choose|j: int| 0 <= j < i + 1 && next[j] == kk;
                        assert(done[j] == kk);
                    }
                    if done.contains(kk) {
                        let j = choose|j: int| 0 <= j < i && done[j] == kk;
                        assert(next[j] == kk);
                    }
                    assert(next[i as int] == k);
                }
                assert forall|kk: u64| ks.contains(kk) <==> next.contains(kk) && !self.is_desired(key_pos(kk)) by {
                    if !wanted {
                        assert(ks == prev_ks.push(k));
                        assert(ks.contains(kk) <==> prev_ks.contains(kk) || kk == k) by {
                            if ks.contains(kk) && kk != k {
                                let j = choose|j: int| 0 <= j < ks.len() && ks[j] == kk;
                                assert(prev_ks[j] == kk);
                            }
                            if prev_ks.contains(kk) {
                                let j = choose|j: int| 0 <= j < prev_ks.len() && prev_ks[j] == kk;
                                assert(ks[j] == kk);
                            }
                            if kk == k {
                                assert(ks[prev_ks.len() as int] == kk);
                            }
                        }
                    }
                    if next.contains(kk) && kk != k {
                        let j = choose|j: int| 0 <= j < i + 1 && next[j] == kk;
                        assert(done[j] == kk);
                    }
                    if done.contains(kk) {
                        let j = choose|j: int| 0 <= j < i && done[j] == kk;
                        assert(next[j] == kk);
                    }
                    assert(next[i as int] == k);
                }
            }
            i = i + 1;
        }
        proof {
            assert(keys@.subrange(0, keys@.len() as int) =~= keys@);
            assert forall|kk: u64| old_map.contains_key(kk) implies keys@.contains(kk) by {
                assert(keys@.to_set().contains(kk));
            }
            assert forall|p: ChunkPos| #[trigger] chunk_map.is_loaded(p) <==> old(chunk_map).is_loaded(p) && old(self).is_desired(p) by {
                crate::types::lemma_pos_key_roundtrip(p);
            }
        }
        removed
    }

    /// The wanted chunks to start loading now, closest first: those neither
    /// loaded nor being loaded, at most as many as keep the number of loading
    /// tasks within `MAX_CONCURRENT_LOADS`.
    pub fn chunks_to_load<E>(&self, chunk_map: &ChunkMap<E>) -> (r: Vec<ChunkPos>)
        ensures
            r@ == planned_loads(self.sorted_desired@, *chunk_map, self.tasks@),
    {
        let ghost busy = busy_in(*chunk_map, self.tasks@);
        let running = self.tasks.len();
        let room: usize = if running >= MAX_CONCURRENT_LOADS { 0 } else { MAX_CONCURRENT_LOADS - running };
        let mut r: Vec<ChunkPos> = Vec::new();
        let mut i: usize = 0;
        while i < self.sorted_desired.len() && r.len() < room
            invariant
                i <= self.sorted_desired@.len(),
                r@.len() <= room,
                room == if self.tasks@.dom().len() >= MAX_CONCURRENT_LOADS { 0 } else { MAX_CONCURRENT_LOADS - self.tasks@.dom().len() },
                busy == busy_in(*chunk_map, self.tasks@),
                r@ == available(self.sorted_desired@.take(i as int), busy),
            decreases self.sorted_desired@.len() - i,
        {
            let pos = self.sorted_desired[i];
            assert(self.sorted_desired@.take(i + 1).drop_last() =~= self.sorted_desired@.take(i as int));
            // Skip chunks already loaded or being loaded.
            if !(chunk_map.contains(pos) || self.tasks.contains_key(&chunk_key(pos))) {
                r.push(pos);
            }
            i = i + 1;
        }
        proof {
            let s = self.sorted_desired@;
            lemma_available_prefix(s, busy, i as int);
            let avail = available(s, busy);
            if i == s.len() {
                assert(s.take(i as int) =~= s);
                assert(avail.take(avail.len() as int) =~= avail);
            }
        }
        r
    }

    /// The wanted chunks are those listed around the chunk the player was last
    /// seen in.
    pub open spec fn wf(&self) -> bool {
        match self.last_player_chunk {
            Some(c) => desired_spec(c, self.sorted_desired@),
            None => true,
        }
    }

    /// Decides, for the player now in the chunk at `player`, which loaded
    /// chunks to unload (their tasks are dropped and their handles returned,
    /// each once) and which chunks to start loading now, closest first.
    pub fn plan_chunk_loading<E>(&mut self, player: ChunkPos, chunk_map: &mut ChunkMap<E>) -> (r: (Vec<E>, Vec<ChunkPos>))
        requires
            player_in_range(player),
            old(self).wf(),
        ensures
            final(self).wf(),
            final(self).last_player_chunk == Some(player),
            desired_spec(player, final(self).sorted_desired@),
            forall|p: ChunkPos|
                #[trigger] final(chunk_map).is_loaded(p) <==> old(chunk_map).is_loaded(p) && in_disk(p.x - player.x, p.y - player.y),
            forall|p: ChunkPos| final(chunk_map).is_loaded(p) ==> #[trigger] final(chunk_map).loaded_chunks@[pos_key(p)] == old(chunk_map).loaded_chunks@[pos_key(p)],
            forall|k: u64|
                #[trigger] final(self).tasks@.contains_key(k) <==> old(self).tasks@.contains_key(k) && !(old(chunk_map).loaded_chunks@.contains_key(k)
                    && !in_disk(key_pos(k).x - player.x, key_pos(k).y - player.y)),
            forall|k: u64| final(self).tasks@.contains_key(k) ==> #[trigger] final(self).tasks@[k] == old(self).tasks@[k],
            exists|ks: Seq<u64>| {
                &&& ks.no_duplicates()
                &&& forall|k: u64| ks.contains(k) <==> old(chunk_map).loaded_chunks@.contains_key(k) && !in_disk(key_pos(k).x - player.x, key_pos(k).y - player.y)
                &&& r.0@ == ks.map_values(|k: u64| old(chunk_map).loaded_chunks@[k])
            },
            r.1@ == planned_loads(final(self).sorted_desired@, *final(chunk_map), final(self).tasks@),
            r.1@.no_duplicates(),
            forall|i: int|
                0 <= i < r.1@.len() ==> {
                    let p = #[trigger] r.1@[i];
                    &&& final(self).sorted_desired@.contains(p)
                    &&& in_disk(p.x - player.x, p.y - player.y)
                    &&& !final(chunk_map).is_loaded(p)
                    &&& !final(self).tasks@.contains_key(pos_key(p))
                },
            r.1@.len() == 0 || final(self).tasks@.dom().len() + r.1@.len() <= MAX_CONCURRENT_LOADS,
            final(self).tasks@.dom().len() <= old(self).tasks@.dom().len(),
    {
        self.update_player_chunk(player);
        let unloaded = self.unload_unwanted(chunk_map);
        let to_load = self.chunks_to_load(chunk_map);
        proof {
            lemma_planned_loads_fit(player, self.sorted_desired@, *chunk_map, self.tasks@);
            vstd::set_lib::lemma_len_subset(self.tasks@.dom(), old(self).tasks@.dom());
        }
        (unloaded, to_load)
    }

    /// One loading step for the player now in the chunk at `player`: the
    /// loaded chunks that are no longer wanted are unloaded (their handles are
    /// returned, each once) with their tasks, and a loading task made by
    /// `spawn` is started for each wanted chunk that is neither loaded nor
    /// being loaded, closest first, as many as keep the number of loading
    /// tasks within `MAX_CONCURRENT_LOADS`.
    pub fn loading_step<E, F: Fn(ChunkPos) -> T>(&mut self, player: ChunkPos, chunk_map: &mut ChunkMap<E>, spawn: F) -> (r: Vec<E>)
        requires
            player_in_range(player),
            old(self).wf(),
            forall|p: ChunkPos| #[trigger] spawn.requires((p,)),
        ensures
            final(self).wf(),
            final(self).last_player_chunk == Some(player),
            desired_spec(player, final(self).sorted_desired@),
            forall|p: ChunkPos|
                #[trigger] final(chunk_map).is_loaded(p) <==> old(chunk_map).is_loaded(p) && in_disk(p.x - player.x, p.y - player.y),
            forall|p: ChunkPos| final(chunk_map).is_loaded(p) ==> #[trigger] final(chunk_map).loaded_chunks@[pos_key(p)] == old(chunk_map).loaded_chunks@[pos_key(p)],
            exists|ks: Seq<u64>| {
                &&& ks.no_duplicates()
                &&& forall|k: u64| ks.contains(k) <==> old(chunk_map).loaded_chunks@.contains_key(k) && !in_disk(key_pos(k).x - player.x, key_pos(k).y - player.y)
                &&& r@ == ks.map_values(|k: u64| old(chunk_map).loaded_chunks@[k])
            },
            forall|k: u64|
                #[trigger] old(self).tasks@.contains_key(k) ==> (final(self).tasks@.contains_key(k) <==> kept_tasks(
                    old(self).tasks@,
                    old(chunk_map).loaded_chunks@,
                    player,
                ).contains_key(k)),
            forall|k: u64|
                #[trigger] kept_tasks(old(self).tasks@, old(chunk_map).loaded_chunks@, player).contains_key(k) ==> final(self).tasks@[k]
                    == old(self).tasks@[k],
            ({
                let planned = planned_loads(
                    final(self).sorted_desired@,
                    *final(chunk_map),
                    kept_tasks(old(self).tasks@, old(chunk_map).loaded_chunks@, player),
                );
                &&& forall|k: u64|
                    #[trigger] final(self).tasks@.contains_key(k) && !old(self).tasks@.contains_key(k) <==> exists|i: int|
                        0 <= i < planned.len() && pos_key(#[trigger] planned[i]) == k
                &&& forall|i: int|
                    0 <= i < planned.len() ==> {
                        let p = #[trigger] planned[i];
                        &&& final(self).sorted_desired@.contains(p)
                        &&& in_disk(p.x - player.x, p.y - player.y)
                        &&& !old(chunk_map).is_loaded(p)
                        &&& !old(self).tasks@.contains_key(pos_key(p))
                        &&& spawn.ensures((p,), final(self).tasks@[pos_key(p)])
                    }
            }),
            old(self).tasks@.dom().len() <= MAX_CONCURRENT_LOADS ==> final(self).tasks@.dom().len() <= MAX_CONCURRENT_LOADS,
    {
        let ghost old_tasks = self.tasks@;
        let ghost old_loaded = chunk_map.loaded_chunks@;
        let ghost old_map = *chunk_map;
        let (unloaded, to_load) = self.plan_chunk_loading(player, chunk_map);
        let ghost mid = self.tasks@;
        assert(mid =~= kept_tasks(old_tasks, old_loaded, player));
        let mut started: Vec<(ChunkPos, T)> = Vec::new();
        let mut i: usize = 0;
        while i < to_load.len()
            invariant
                i <= to_load@.len(),
                started@.len() == i,
                forall|p: ChunkPos| #[trigger] spawn.requires((p,)),
                forall|j: int|
                    0 <= j < i ==> (#[trigger] started@[j]).0 == to_load@[j] && spawn.ensures((to_load@[j],), started@[j].1),
            decreases to_load@.len() - i,
        {
            let pos = to_load[i];
            let task = spawn(pos);
            started.push((pos, task));
            i = i + 1;
        }
        proof {
            assert forall|a: int, b: int| 0 <= a < b < started@.len() implies (#[trigger] started@[a]).0 != (#[trigger] started@[b]).0 by {
                assert(to_load@[a] != to_load@[b]);
            }
            assert forall|a: int| 0 <= a < started@.len() implies !self.tasks@.contains_key(pos_key((#[trigger] started@[a]).0)) by {
                assert(to_load@[a] == to_load@[a]);
            }
        }
        let ghost started_s = started@;
        self.record_tasks(started);
        proof {
            let planned = to_load@;
            assert forall|a: int| 0 <= a < planned.len() implies !old_tasks.contains_key(pos_key(#[trigger] planned[a])) by {
                let p = planned[a];
                crate::types::lemma_pos_key_roundtrip(p);
                assert(!mid.contains_key(pos_key(p)));
                assert(in_disk(p.x - player.x, p.y - player.y));
            }
            assert forall|a: int| 0 <= a < planned.len() implies !old_map.is_loaded(#[trigger] planned[a]) by {
                let p = planned[a];
                assert(!chunk_map.is_loaded(p));
                assert(in_disk(p.x - player.x, p.y - player.y));
            }
            assert forall|k: u64|
                #[trigger] self.tasks@.contains_key(k) && !old_tasks.contains_key(k) <==> exists|a: int|
                    0 <= a < planned.len() && pos_key(#[trigger] planned[a]) == k by {
                if self.tasks@.contains_key(k) && !old_tasks.contains_key(k) {
                    assert(!mid.contains_key(k));
                    let a = choose|a: int| 0 <= a < started_s.len() && pos_key((#[trigger] started_s[a]).0) == k;
                    assert(pos_key(planned[a]) == k);
                }
                if exists|a: int| 0 <= a < planned.len() && pos_key(#[trigger] planned[a]) == k {
                    let a = choose|a: int| 0 <= a < planned.len() && pos_key(#[trigger] planned[a]) == k;
                    assert(started_s[a].0 == planned[a]);
                    assert(self.tasks@.contains_key(pos_key(started_s[a].0)));
                }
            }
            assert forall|a: int| 0 <= a < planned.len() implies spawn.ensures((#[trigger] planned[a],), self.tasks@[pos_key(planned[a])]) by {
                assert(started_s[a].0 == planned[a]);
                assert(self.tasks@[pos_key(started_s[a].0)] == started_s[a].1);
            }
        }
        unloaded
    }

    /// Records the loading tasks just started, each for its own chunk position
    /// that had no task.
    pub fn record_tasks(&mut self, started: Vec<(ChunkPos, T)>)
        requires
            forall|i: int, j: int| 0 <= i < j < started@.len() ==> (#[trigger] started@[i]).0 != (#[trigger] started@[j]).0,
            forall|i: int| 0 <= i < started@.len() ==> !old(self).tasks@.contains_key(pos_key((#[trigger] started@[i]).0)),
            started@.len() == 0 || old(self).tasks@.dom().len() + started@.len() <= MAX_CONCURRENT_LOADS,
        ensures
            final(self).last_player_chunk == old(self).last_player_chunk,
            final(self).sorted_desired@ == old(self).sorted_desired@,
            forall|i: int|
                0 <= i < started@.len() ==> final(self).tasks@.contains_key(pos_key((#[trigger] started@[i]).0))
                    && final(self).tasks@[pos_key(started@[i].0)] == started@[i].1,
            forall|k: u64|
                #[trigger] final(self).tasks@.contains_key(k) <==> old(self).tasks@.contains_key(k) || exists|i: int|
                    0 <= i < started@.len() && pos_key((#[trigger] started@[i]).0) == k,
            forall|k: u64| #[trigger] old(self).tasks@.contains_key(k) ==> final(self).tasks@[k] == old(self).tasks@[k],
            final(self).tasks@.dom().len() == old(self).tasks@.dom().len() + started@.len(),
            old(self).tasks@.dom().len() <= MAX_CONCURRENT_LOADS ==> final(self).tasks@.dom().len() <= MAX_CONCURRENT_LOADS,
    {
        let ghost all = started@;
        let ghost old_tasks = self.tasks@;
        let mut started = started;
        while started.len() > 0
            invariant
                started@.len() <= all.len(),
                started@ == all.take(started@.len() as int),
                self.last_player_chunk == old(self).last_player_chunk,
                self.sorted_desired@ == old(self).sorted_desired@,
                old_tasks == old(self).tasks@,
                old_tasks.dom().finite(),
                forall|i: int, j: int| 0 <= i < j < all.len() ==> (#[trigger] all[i]).0 != (#[trigger] all[j]).0,
                forall|i: int| 0 <= i < all.len() ==> !old_tasks.contains_key(pos_key((#[trigger] all[i]).0)),
                forall|i: int|
                    started@.len() <= i < all.len() ==> self.tasks@.contains_key(pos_key((#[trigger] all[i]).0))
                        && self.tasks@[pos_key(all[i].0)] == all[i].1,
                forall|k: u64|
                    #[trigger] self.tasks@.contains_key(k) <==> old_tasks.contains_key(k) || exists|i: int|
                        started@.len() <= i < all.len() && pos_key((#[trigger] all[i]).0) == k,
                forall|k: u64| #[trigger] old_tasks.contains_key(k) ==> self.tasks@[k] == old_tasks[k],
                self.tasks@.dom().len() == old_tasks.dom().len() + (all.len() - started@.len()),
            decreases started@.len(),
        {
            let ghost n = started@.len() - 1;
            let (pos, task) = started.pop().unwrap();
            let k = chunk_key(pos);
            assert(all[n] == (pos, task));
            assert(!self.tasks@.contains_key(k)) by {
                if self.tasks@.contains_key(k) {
                    if !old_tasks.contains_key(k) {
                        let i = choose|i: int| n + 1 <= i < all.len() && pos_key((#[trigger] all[i]).0) == k;
                        crate::types::lemma_pos_key_injective(all[i].0, pos);
                        assert(all[n].0 != all[i].0);
                    }
                }
            }
            self.tasks.insert(k, task);
            assert(started@ =~= all.take(n));
            assert forall|kk: u64|
                #[trigger] self.tasks@.contains_key(kk) <==> old_tasks.contains_key(kk) || exists|i: int|
                    n <= i < all.len() && pos_key((#[trigger] all[i]).0) == kk by {
                if kk == k {
                    assert(pos_key(all[n].0) == kk);
                } else if exists|i: int| n <= i < all.len() && pos_key((#[trigger] all[i]).0) == kk {
                    let i = choose|i: int| n <= i < all.len() && pos_key((#[trigger] all[i]).0) == kk;
                    assert(i != n);
                }
            }
            assert forall|i: int|
                n <= i < all.len() implies self.tasks@.contains_key(pos_key((#[trigger] all[i]).0))
                    && self.tasks@[pos_key(all[i].0)] == all[i].1 by {
                if i != n {
                    crate::types::lemma_pos_key_injective(all[i].0, pos);
                }
            }
        }
        assert(all.take(0) =~= started@);
    }
}

/// The loading tasks that a loading step keeps: those of chunks that are not
/// loaded, or are loaded and still within the render distance of `player`.
pub open spec fn kept_tasks<T, E>(tasks: Map<u64, T>, loaded: Map<u64, E>, player: ChunkPos) -> Map<u64, T> {
    Map::new(
        |k: u64|
            tasks.contains_key(k) && !(loaded.contains_key(k) && !in_disk(key_pos(k).x - player.x, key_pos(k).y - player.y)),
        |k: u64| tasks[k],
    )
}

/// Whether the chunk at `p` is loaded or being loaded.
pub open spec fn busy_in<E, T>(chunk_map: ChunkMap<E>, tasks: Map<u64, T>) -> spec_fn(ChunkPos) -> bool {
    |p: ChunkPos| chunk_map.is_loaded(p) || tasks.contains_key(pos_key(p))
}

/// The wanted chunks (`desired`, closest first) to start loading now: those
/// neither loaded nor being loaded, at most as many as keep the number of
/// loading tasks within `MAX_CONCURRENT_LOADS`.
pub open spec fn planned_loads<E, T>(desired: Seq<ChunkPos>, chunk_map: ChunkMap<E>, tasks: Map<u64, T>) -> Seq<ChunkPos> {
    let avail = available(desired, busy_in(chunk_map, tasks));
    let room = if tasks.dom().len() >= MAX_CONCURRENT_LOADS {
        0
    } else {
        MAX_CONCURRENT_LOADS - tasks.dom().len()
    };
    avail.take(if avail.len() < room { avail.len() as int } else { room as int })
}

/// The available positions of a list without repetition are taken from it, are
/// not busy, and do not repeat.
proof fn lemma_available_distinct(s: Seq<ChunkPos>, busy: spec_fn(ChunkPos) -> bool)
    requires
        s.no_duplicates(),
    ensures
        available(s, busy).no_duplicates(),
        forall|i: int| 0 <= i < available(s, busy).len() ==> s.contains(#[trigger] available(s, busy)[i]) && !busy(available(s, busy)[i]),
    decreases s.len(),
{
    if s.len() > 0 {
        let d = s.drop_last();
        assert(d.no_duplicates());
        lemma_available_distinct(d, busy);
        let a = available(d, busy);
        assert forall|i: int| 0 <= i < a.len() implies s.contains(#[trigger] a[i]) by {
            let j = choose|j: int| 0 <= j < d.len() && d[j] == a[i];
            assert(s[j] == a[i]);
        }
        if !busy(s.last()) {
            assert(!a.contains(s.last())) by {
                if a.contains(s.last()) {
                    let i = choose|i: int| 0 <= i < a.len() && a[i] == s.last();
                    let j = choose|j: int| 0 <= j < d.len() && d[j] == a[i];
                    assert(s[j] == s[s.len() - 1]);
                }
            }
            assert forall|i: int| 0 <= i < a.push(s.last()).len() implies s.contains(#[trigger] a.push(s.last())[i]) by {
                if i == a.len() {
                    assert(s[s.len() - 1] == s.last());
                } else {
                    assert(s.contains(a[i]));
                }
            }
        }
    }
}

/// The chunks planned for loading around the player can all be started: they
/// are wanted, neither loaded nor being loaded, listed once each, and starting
/// them keeps the number of loading tasks within `MAX_CONCURRENT_LOADS`.
pub proof fn lemma_planned_loads_fit<E, T>(
    player: ChunkPos,
    desired: Seq<ChunkPos>,
    chunk_map: ChunkMap<E>,
    tasks: Map<u64, T>,
)
    requires
        desired_spec(player, desired),
    ensures
        planned_loads(desired, chunk_map, tasks).no_duplicates(),
        forall|i: int|
            0 <= i < planned_loads(desired, chunk_map, tasks).len() ==> {
                let p = #[trigger] planned_loads(desired, chunk_map, tasks)[i];
                &&& desired.contains(p)
                &&& in_disk(p.x - player.x, p.y - player.y)
                &&& !chunk_map.is_loaded(p)
                &&& !tasks.contains_key(pos_key(p))
            },
        planned_loads(desired, chunk_map, tasks).len() == 0 || tasks.dom().len() + planned_loads(
            desired,
            chunk_map,
            tasks,
        ).len() <= MAX_CONCURRENT_LOADS,
{
    let busy = busy_in(chunk_map, tasks);
    assert(desired.no_duplicates()) by {
        assert forall|i: int, j: int| 0 <= i < desired.len() && 0 <= j < desired.len() && i != j implies desired[i] != desired[j] by {
            if i < j {
                assert(offset_before(desired[i].x - player.x, desired[i].y - player.y, desired[j].x - player.x, desired[j].y - player.y));
            } else {
                assert(offset_before(desired[j].x - player.x, desired[j].y - player.y, desired[i].x - player.x, desired[i].y - player.y));
            }
        }
    }
    lemma_available_distinct(desired, busy);
    let avail = available(desired, busy);
    let r = planned_loads(desired, chunk_map, tasks);
    assert forall|i: int| 0 <= i < r.len() implies {
        let p = #[trigger] r[i];
        &&& desired.contains(p)
        &&& in_disk(p.x - player.x, p.y - player.y)
        &&& !chunk_map.is_loaded(p)
        &&& !tasks.contains_key(pos_key(p))
    } by {
        assert(r[i] == avail[i]);
        assert(desired.contains(avail[i]));
        assert(!busy(avail[i]));
        let j = choose|j: int| 0 <= j < desired.len() && desired[j] == avail[i];
        assert(in_disk(desired[j].x - player.x, desired[j].y - player.y));
    }
}

/// The elements of a hash set, each once, in the set's iteration order.
fn hash_set_elems(s: &HashSet<u64>) -> (r: Vec<u64>)
    ensures
        r@.to_set() == s@,
        r@.no_duplicates(),
{
    let ghost elems = vstd::std_specs::hash::spec_hash_keys_iter(s).remaining();
    let mut r: Vec<u64> = Vec::new();
    for k in it: s.iter()
        invariant
            it.seq() == elems,
            r@ == elems.subrange(0, it.index()).map_values(|k: &u64| *k),
    {
        r.push(*k);
    }
    assert(r@ =~= elems.unref());
    r
}

/// The chunks that are loaded and wait for their four neighbours to be loaded
/// before being meshed, keyed by `chunk_key`.
pub struct ChunkMeshQueue {
    pub queue: HashSet<u64>,
}

impl ChunkMeshQueue {
    /// Whether the chunk at `p` waits to be meshed.
    pub open spec fn is_queued(&self, p: ChunkPos) -> bool {
        self.queue@.contains(pos_key(p))
    }

    /// An empty queue.
    pub fn new() -> (r: ChunkMeshQueue)
        ensures
            r.queue@ == Set::<u64>::empty(),
    {
        ChunkMeshQueue { queue: HashSet::new() }
    }

    /// Makes the chunk at `pos` wait to be meshed.
    pub fn push(&mut self, pos: ChunkPos)
        ensures
            final(self).queue@ == old(self).queue@.insert(pos_key(pos)),
    {
        self.queue.insert(chunk_key(pos));
    }

    /// Empties the queue.
    pub fn clear(&mut self)
        ensures
            final(self).queue@ == Set::<u64>::empty(),
    {
        self.queue.clear();
    }

    /// Removes from the queue, and returns (each once), the chunks whose four
    /// horizontal neighbours are loaded.
    pub fn take_ready<E>(&mut self, chunk_map: &ChunkMap<E>) -> (r: Vec<ChunkPos>)
        requires
            forall|k: u64| old(self).queue@.contains(k) ==> crate::meshing::pos_inner(#[trigger] key_pos(k)),
        ensures
            r@.no_duplicates(),
            forall|p: ChunkPos|
                #[trigger] r@.contains(p) <==> old(self).is_queued(p) && forall|i: int| 0 <= i < 4 ==> chunk_map.is_loaded(#[trigger] neighbor_pos(p, i)),
            forall|p: ChunkPos| #[trigger] final(self).is_queued(p) <==> old(self).is_queued(p) && !r@.contains(p),
    {
        let keys = hash_set_elems(&self.queue);
        let ghost old_q = self.queue@;
        let mut ready: Vec<ChunkPos> = Vec::new();
        let mut i: usize = 0;
        while i < keys.len()
            invariant
                i <= keys@.len(),
                keys@.to_set() == old_q,
                keys@.no_duplicates(),
                old_q == old(self).queue@,
                forall|k: u64| old_q.contains(k) ==> crate::meshing::pos_inner(#[trigger] key_pos(k)),
                ready@.no_duplicates(),
                forall|p: ChunkPos|
                    #[trigger] ready@.contains(p) <==> keys@.subrange(0, i as int).contains(pos_key(p)) && forall|j: int| 0 <= j < 4 ==> chunk_map.is_loaded(#[trigger] neighbor_pos(p, j)),
            decreases keys@.len() - i,
        {
            let k = keys[i];
            let ghost done = keys@.subrange(0, i as int);
            let ghost next = keys@.subrange(0, i + 1);
            assert(keys@.to_set().contains(k));
            assert(!done.contains(k)) by {
                if done.contains(k) {
                    let j = choose|j: int| 0 <= j < i && done[j] == k;
                    assert(keys@[j] == keys@[i as int]);
                }
            }
            let pos = key_to_pos(k);
            proof {
                crate::types::lemma_key_pos_roundtrip(k);
            }
            let ghost prev = ready@;
            if chunk_map.all_neighbors_loaded(pos) {
                proof {
                    if prev.contains(pos) {
                        assert(done.contains(pos_key(pos)));
                    }
                }
                ready.push(pos);
            }
            proof {
                assert forall|p: ChunkPos|
                    #[trigger] ready@.contains(p) <==> next.contains(pos_key(p)) && forall|j: int| 0 <= j < 4 ==> chunk_map.is_loaded(#[trigger] neighbor_pos(p, j)) by {
                    crate::types::lemma_pos_key_injective(p, pos);
                    if ready@.contains(p) && p != pos {
                        let j = choose|j: int| 0 <= j < ready@.len() && ready@[j] == p;
                        assert(prev[j] == p);
                    }
                    if prev.contains(p) {
                        let j = choose|j: int| 0 <= j < prev.len() && prev[j] == p;
                        assert(ready@[j] == p);
                    }
                    if p == pos && ready@.len() > prev.len() {
                        assert(ready@[prev.len() as int] == p);
                    }
                    if next.contains(pos_key(p)) && pos_key(p) != k {
                        let j = choose|j: int| 0 <= j < i + 1 && next[j] == pos_key(p);
                        assert(done[j] == pos_key(p));
                    }
                    if done.contains(pos_key(p)) {
                        let j = choose|j: int| 0 <= j < i && done[j] == pos_key(p);
                        assert(next[j] == pos_key(p));
                    }
                    assert(next[i as int] == k);
                }
            }
            i = i + 1;
        }
        let mut j: usize = 0;
        while j < ready.len()
            invariant
                j <= ready@.len(),
                forall|p: ChunkPos| #[trigger] self.queue@.contains(pos_key(p)) <==> old(self).is_queued(p) && !ready@.subrange(0, j as int).contains(p),
            decreases ready@.len() - j,
        {
            let ghost before = self.queue@;
            self.queue.remove(&chunk_key(ready[j]));
            proof {
                assert forall|p: ChunkPos| #[trigger] self.queue@.contains(pos_key(p)) <==> old(self).is_queued(p) && !ready@.subrange(0, j + 1).contains(p) by {
                    crate::types::lemma_pos_key_injective(p, ready@[j as int]);
                    let sub = ready@.subrange(0, j as int);
                    let sub2 = ready@.subrange(0, j + 1);
                    if sub2.contains(p) && p != ready@[j as int] {
                        let t = choose|t: int| 0 <= t < j + 1 && sub2[t] == p;
                        assert(sub[t] == p);
                    }
                    if sub.contains(p) {
                        let t = choose|t: int| 0 <= t < j && sub[t] == p;
                        assert(sub2[t] == p);
                    }
                    assert(sub2[j as int] == ready@[j as int]);
                    assert(before.contains(pos_key(p)) == (old(self).is_queued(p) && !sub.contains(p)));
                }
            }
            j = j + 1;
        }
        proof {
            assert(keys@.subrange(0, keys@.len() as int) =~= keys@);
            assert(ready@.subrange(0, ready@.len() as int) =~= ready@);
            assert forall|p: ChunkPos|
                #[trigger] ready@.contains(p) <==> old(self).is_queued(p) && forall|i: int| 0 <= i < 4 ==> chunk_map.is_loaded(#[trigger] neighbor_pos(p, i)) by {
                if old(self).is_queued(p) {
                    assert(keys@.to_set().contains(pos_key(p)));
                }
                if keys@.contains(pos_key(p)) {
                    let t = choose|t: int| 0 <= t < keys@.len() && keys@[t] == pos_key(p);
                    assert(keys@.to_set().contains(pos_key(p)));
                }
            }
        }
        ready
    }
}

impl Default for ChunkMeshQueue {
    fn default() -> (r: ChunkMeshQueue)
        ensures
            r.queue@ == Set::<u64>::empty(),
    {
        ChunkMeshQueue::new()
    }
}

impl<T> Default for ChunkLoadState<T> {
    fn default() -> (r: ChunkLoadState<T>)
        ensures
            r.tasks@ == Map::<u64, T>::empty(),
            r.last_player_chunk is None,
            r.sorted_desired@ == Seq::<ChunkPos>::empty(),
    {
        ChunkLoadState::new()
    }
}

} // verus!


