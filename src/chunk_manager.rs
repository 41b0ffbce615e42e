use vstd::prelude::*;
use crate::block_collections::{chunk_pos_in_range, filled_voxels, MAX_CHUNK_COORD};
use crate::chunk::Chunk;
use crate::chunk_builder::{ChunkGenStrategy, NoiseSamples};
use crate::mesh::Mesh;
use crate::utils::{chunk_of_world, world_to_chunk_position};
use crate::voxel::{Voxel, VoxelKind};
use vstd::arithmetic::div_mod::{lemma_fundamental_div_mod, lemma_fundamental_div_mod_converse};
use vstd::seq_lib::lemma_no_dup_in_concat;

verus! {

/// How far from the viewer's chunk, in chunks along x and along z, chunks are kept loaded.
pub const CHUNK_LOAD_DISTANCE: i32 = 4;

/// How many queued chunks one update builds at most.
pub const CHUNKS_TO_BUILT_PER_TICK: usize = 1;

/// The number of chunk positions within the load distance of a chunk.
pub const CHUNKS_AROUND: usize = 81;

/// The largest distance from the origin, in voxels along x and along z, at
/// which the viewer can stand: the chunks around it then stay within range.
pub const MAX_WORLD_COORD: i32 = 2_147_000_000;

/// If the chunk is currently loaded or not.
#[derive(Debug, Clone, Copy, PartialEq, Eq, Structural)]
pub enum ChunkState {
    Loaded,
    Unloaded,
}

/// What the manager records of one chunk: where it stands, its voxels, its
/// cached mesh and whether it is loaded.
pub struct ChunkEntry {
    pub position: (i32, i32),
    pub voxels: Seq<Voxel>,
    pub mesh: Option<Mesh>,
    pub state: ChunkState,
}

/// The state of a chunk manager: its chunks in the order they were built, the
/// viewer's chunk and the queue of positions waiting to be built (the last one
/// is built first).
pub struct ManagerView {
    pub entries: Seq<ChunkEntry>,
    pub current: (i32, i32),
    pub queue: Seq<(i32, i32)>,
}

/// The entry of a built chunk.
pub open spec fn entry_of(e: (Chunk, ChunkState)) -> ChunkEntry {
    ChunkEntry { position: e.0.position, voxels: e.0.blocks@, mesh: e.0.mesh, state: e.1 }
}

/// The chunk positions within the load distance of `c`, going through x from
/// low to high and, for each x, through z from low to high.
pub open spec fn chunks_around(c: (i32, i32)) -> Seq<(i32, i32)> {
    Seq::new(
        CHUNKS_AROUND as nat,
        |k: int|
            (
                (c.0 + k / (2 * CHUNK_LOAD_DISTANCE + 1) - CHUNK_LOAD_DISTANCE) as i32,
                (c.1 + k % (2 * CHUNK_LOAD_DISTANCE + 1) - CHUNK_LOAD_DISTANCE) as i32,
            ),
    )
}

/// Whether chunk position `p` is farther than the load distance from `c` along x or z.
pub open spec fn is_far(p: (i32, i32), c: (i32, i32)) -> bool {
    p.0 - c.0 > CHUNK_LOAD_DISTANCE || c.0 - p.0 > CHUNK_LOAD_DISTANCE || p.1 - c.1 > CHUNK_LOAD_DISTANCE
        || c.1 - p.1 > CHUNK_LOAD_DISTANCE
}

/// Whether some entry stands at position `p`.
pub open spec fn has_entry(entries: Seq<ChunkEntry>, p: (i32, i32)) -> bool {
    exists|i: int| 0 <= i < entries.len() && entries[i].position == p
}

/// The first entry that stands at position `p`.
pub open spec fn first_entry(entries: Seq<ChunkEntry>, p: (i32, i32)) -> int {
    choose|i: int|
        0 <= i < entries.len() && entries[i].position == p && forall|j: int|
            0 <= j < i ==> entries[j].position != p
}

/// The voxels of a chunk newly built at `p` by `strategy` from `noise`.
pub open spec fn generated_voxels(strategy: ChunkGenStrategy, p: (i32, i32), noise: NoiseSamples) -> Seq<Voxel> {
    strategy.applied(noise, filled_voxels(p, VoxelKind::Air))
}

#[verifier::opaque]
/// Building the chunk at `p`: a chunk already there is loaded again as it is;
/// otherwise a new one is generated and appended, loaded.
pub open spec fn build_step(
    strategy: ChunkGenStrategy,
    entries: Seq<ChunkEntry>,
    p: (i32, i32),
    noise: NoiseSamples,
) -> Seq<ChunkEntry> {
    if has_entry(entries, p) {
        let i = first_entry(entries, p);
        entries.update(i, ChunkEntry { state: ChunkState::Loaded, ..entries[i] })
    } else {
        entries.push(
            ChunkEntry {
                position: p,
                voxels: generated_voxels(strategy, p, noise),
                mesh: None,
                state: ChunkState::Loaded,
            },
        )
    }
}

/// Building the positions of `popped` in turn, the k-th from `noise[k]`.
pub open spec fn build_steps(
    strategy: ChunkGenStrategy,
    entries: Seq<ChunkEntry>,
    popped: Seq<(i32, i32)>,
    noise: Seq<NoiseSamples>,
) -> Seq<ChunkEntry>
    decreases popped.len(),
{
    if popped.len() == 0 {
        entries
    } else {
        build_step(
            strategy,
            build_steps(strategy, entries, popped.drop_last(), noise),
            popped.last(),
            noise[popped.len() - 1],
        )
    }
}

/// How many positions the next update takes off `queue`.
pub open spec fn builds_due(queue: Seq<(i32, i32)>) -> nat {
    if queue.len() < CHUNKS_TO_BUILT_PER_TICK {
        queue.len()
    } else {
        CHUNKS_TO_BUILT_PER_TICK as nat
    }
}

/// The positions that the next update takes off `queue`, in the order it
/// builds them: last in, first out.
pub open spec fn due_positions(queue: Seq<(i32, i32)>) -> Seq<(i32, i32)> {
    Seq::new(builds_due(queue), |k: int| queue[queue.len() - 1 - k])
}

/// `queue` without the positions that the next update takes off it.
pub open spec fn queue_rest(queue: Seq<(i32, i32)>) -> Seq<(i32, i32)> {
    queue.take(queue.len() - builds_due(queue))
}

/// The positions around `c` that neither have a chunk nor wait in `queue`, in
/// the order of `chunks_around`.
pub open spec fn positions_to_queue(c: (i32, i32), entries: Seq<ChunkEntry>, queue: Seq<(i32, i32)>) -> Seq<(i32, i32)> {
    chunks_around(c).filter(|p: (i32, i32)| !has_entry(entries, p) && !queue.contains(p))
}

/// Every entry farther than the load distance from `c` marked unloaded; the others unchanged.
pub open spec fn unload_far(entries: Seq<ChunkEntry>, c: (i32, i32)) -> Seq<ChunkEntry> {
    Seq::new(
        entries.len(),
        |i: int|
            if is_far(entries[i].position, c) {
                ChunkEntry { state: ChunkState::Unloaded, ..entries[i] }
            } else {
                entries[i]
            },
    )
}

/// The state after one update with the viewer at world column `(x, z)`: the
/// due positions are built, then, if the viewer has changed chunks, the
/// missing positions around it are queued and the far chunks unloaded.
pub open spec fn next_state(
    strategy: ChunkGenStrategy,
    v: ManagerView,
    x: i32,
    z: i32,
    noise: Seq<NoiseSamples>,
) -> ManagerView {
    let built = build_steps(strategy, v.entries, due_positions(v.queue), noise);
    let rest = queue_rest(v.queue);
    let c = (chunk_of_world(x as int, z as int).0 as i32, chunk_of_world(x as int, z as int).1 as i32);
    if c == v.current {
        ManagerView { entries: built, current: v.current, queue: rest }
    } else {
        ManagerView {
            entries: unload_far(built, c),
            current: c,
            queue: rest + positions_to_queue(c, built, rest),
        }
    }
}

/// Where some entry stands at `p`, there is a first one.
proof fn lemma_first_entry(entries: Seq<ChunkEntry>, p: (i32, i32), i: int)
    requires
        0 <= i < entries.len(),
        entries[i].position == p,
    ensures
        0 <= first_entry(entries, p) < entries.len(),
        entries[first_entry(entries, p)].position == p,
        forall|j: int| 0 <= j < first_entry(entries, p) ==> entries[j].position != p,
    decreases i,
{
    if exists|j: int| 0 <= j < i && entries[j].position == p {
        let j = choose|j: int| 0 <= j < i && entries[j].position == p;
        lemma_first_entry(entries, p, j);
    } else {
        assert(forall|j: int| 0 <= j < i ==> entries[j].position != p);
    }
}

/// Building a sequence of positions adds at most one chunk per position.
proof fn lemma_build_steps_len(
    strategy: ChunkGenStrategy,
    entries: Seq<ChunkEntry>,
    popped: Seq<(i32, i32)>,
    noise: Seq<NoiseSamples>,
)
    ensures
        entries.len() <= build_steps(strategy, entries, popped, noise).len() <= entries.len() + popped.len(),
    decreases popped.len(),
{
    reveal(build_step);
    if popped.len() > 0 {
        lemma_build_steps_len(strategy, entries, popped.drop_last(), noise);
        let mid = build_steps(strategy, entries, popped.drop_last(), noise);
        if has_entry(mid, popped.last()) {
            let i = choose|i: int| 0 <= i < mid.len() && mid[i].position == popped.last();
            lemma_first_entry(mid, popped.last(), i);
        }
    }
}

/// One update takes at most `CHUNKS_TO_BUILT_PER_TICK` positions off the
/// queue, whatever its length, and adds at most that many chunks; the rest of
/// the queue stays in front of whatever it queues.
pub proof fn lemma_update_bounded_work(
    strategy: ChunkGenStrategy,
    v: ManagerView,
    x: i32,
    z: i32,
    noise: Seq<NoiseSamples>,
)
    ensures
        v.queue.len() - queue_rest(v.queue).len() <= CHUNKS_TO_BUILT_PER_TICK,
        queue_rest(v.queue).len() <= next_state(strategy, v, x, z, noise).queue.len(),
        next_state(strategy, v, x, z, noise).queue.take(queue_rest(v.queue).len() as int) == queue_rest(v.queue),
        next_state(strategy, v, x, z, noise).entries.len() <= v.entries.len() + CHUNKS_TO_BUILT_PER_TICK,
{
    lemma_build_steps_len(strategy, v.entries, due_positions(v.queue), noise);
    let n = next_state(strategy, v, x, z, noise);
    let rest = queue_rest(v.queue);
    assert(n.queue.take(rest.len() as int) =~= rest);
}

/// Two updates in a row with the viewer in the same chunk: the second queues
/// no new position, its queue is the first one's minus what it builds.
pub proof fn lemma_update_twice_queues_nothing(
    strategy: ChunkGenStrategy,
    v: ManagerView,
    x: i32,
    z: i32,
    first: Seq<NoiseSamples>,
    second: Seq<NoiseSamples>,
)
    ensures
        next_state(strategy, next_state(strategy, v, x, z, first), x, z, second).queue == queue_rest(
            next_state(strategy, v, x, z, first).queue,
        ),
        forall|p: (i32, i32)|
            next_state(strategy, next_state(strategy, v, x, z, first), x, z, second).queue.contains(p)
                ==> next_state(strategy, v, x, z, first).queue.contains(p),
{
    let v1 = next_state(strategy, v, x, z, first);
    let v2 = next_state(strategy, v1, x, z, second);
    assert forall|p: (i32, i32)| v2.queue.contains(p) implies v1.queue.contains(p) by {
        let w = choose|w: int| 0 <= w < v2.queue.len() && v2.queue[w] == p;
        assert(v1.queue[w] == p);
    }
}

/// Whether no two entries stand at the same position.
pub open spec fn entries_distinct(entries: Seq<ChunkEntry>) -> bool {
    forall|i: int, j: int|
        0 <= i < entries.len() && 0 <= j < entries.len() && i != j ==> (#[trigger] entries[i]).position
            != (#[trigger] entries[j]).position
}

/// A chunk position has at most one chunk, no position waits in the queue
/// twice, and no queued position has a chunk yet: each queued position is
/// generated exactly once.
pub open spec fn queue_consistent(v: ManagerView) -> bool {
    &&& entries_distinct(v.entries)
    &&& v.queue.no_duplicates()
    &&& forall|i: int| 0 <= i < v.queue.len() ==> !has_entry(v.entries, #[trigger] v.queue[i])
}

/// Building at `p` leaves a chunk at `p` and moves no other chunk.
proof fn lemma_build_step_has_entry(
    strategy: ChunkGenStrategy,
    entries: Seq<ChunkEntry>,
    p: (i32, i32),
    noise: NoiseSamples,
    q: (i32, i32),
)
    ensures
        has_entry(build_step(strategy, entries, p, noise), q) == (has_entry(entries, q) || q == p),
{
    reveal(build_step);
    let after = build_step(strategy, entries, p, noise);
    if has_entry(entries, p) {
        let w = choose|w: int| 0 <= w < entries.len() && entries[w].position == p;
        lemma_first_entry(entries, p, w);
        assert forall|j: int| 0 <= j < entries.len() implies #[trigger] after[j].position == entries[j].position by {}
        if has_entry(entries, q) {
            let k = choose|k: int| 0 <= k < entries.len() && entries[k].position == q;
            assert(after[k].position == q);
        }
        if has_entry(after, q) {
            let k = choose|k: int| 0 <= k < after.len() && after[k].position == q;
            assert(entries[k].position == q);
        }
    } else {
        if has_entry(entries, q) {
            let k = choose|k: int| 0 <= k < entries.len() && entries[k].position == q;
            assert(after[k].position == q);
        }
        if q == p {
            assert(after[entries.len() as int].position == q);
        }
        if has_entry(after, q) {
            let k = choose|k: int| 0 <= k < after.len() && after[k].position == q;
            if k < entries.len() {
                assert(entries[k].position == q);
            }
        }
    }
}

/// Building a sequence of positions leaves a chunk at each of them and moves
/// no other chunk.
proof fn lemma_build_steps_has_entry(
    strategy: ChunkGenStrategy,
    entries: Seq<ChunkEntry>,
    popped: Seq<(i32, i32)>,
    noise: Seq<NoiseSamples>,
    q: (i32, i32),
)
    ensures
        has_entry(build_steps(strategy, entries, popped, noise), q) == (has_entry(entries, q) || popped.contains(q)),
    decreases popped.len(),
{
    if popped.len() > 0 {
        let prev = popped.drop_last();
        lemma_build_steps_has_entry(strategy, entries, prev, noise, q);
        lemma_build_step_has_entry(
            strategy,
            build_steps(strategy, entries, prev, noise),
            popped.last(),
            noise[popped.len() - 1],
            q,
        );
        if prev.contains(q) {
            let w = choose|w: int| 0 <= w < prev.len() && prev[w] == q;
            assert(popped[w] == q);
        }
        if popped.contains(q) && q != popped.last() {
            let w = choose|w: int| 0 <= w < popped.len() && popped[w] == q;
            assert(prev[w] == q);
        }
    }
}

/// Replacing an entry by one at the same position keeps positions distinct.
proof fn lemma_distinct_update(entries: Seq<ChunkEntry>, k: int, e: ChunkEntry)
    requires
        entries_distinct(entries),
        0 <= k < entries.len(),
        e.position == entries[k].position,
    ensures
        entries_distinct(entries.update(k, e)),
{
    let after = entries.update(k, e);
    assert forall|i: int, j: int|
        0 <= i < after.len() && 0 <= j < after.len() && i != j implies (#[trigger] after[i]).position
        != (#[trigger] after[j]).position by {
        assert(after[i].position == entries[i].position);
        assert(after[j].position == entries[j].position);
    }
}

/// Appending an entry at a new position keeps positions distinct.
proof fn lemma_distinct_push(entries: Seq<ChunkEntry>, e: ChunkEntry)
    requires
        entries_distinct(entries),
        !has_entry(entries, e.position),
    ensures
        entries_distinct(entries.push(e)),
{
    let after = entries.push(e);
    assert forall|i: int, j: int|
        0 <= i < after.len() && 0 <= j < after.len() && i != j implies (#[trigger] after[i]).position
        != (#[trigger] after[j]).position by {
        if i == entries.len() {
            assert(after[j] == entries[j]);
        } else if j == entries.len() {
            assert(after[i] == entries[i]);
        } else {
            assert(after[i] == entries[i] && after[j] == entries[j]);
        }
    }
}

/// Building one position keeps at most one chunk per position.
proof fn lemma_build_step_distinct(
    strategy: ChunkGenStrategy,
    entries: Seq<ChunkEntry>,
    p: (i32, i32),
    noise: NoiseSamples,
)
    requires
        entries_distinct(entries),
    ensures
        entries_distinct(build_step(strategy, entries, p, noise)),
{
    reveal(build_step);
    if has_entry(entries, p) {
        let w = choose|w: int| 0 <= w < entries.len() && entries[w].position == p;
        lemma_first_entry(entries, p, w);
        let f = first_entry(entries, p);
        lemma_distinct_update(entries, f, ChunkEntry { state: ChunkState::Loaded, ..entries[f] });
    } else {
        lemma_distinct_push(
            entries,
            ChunkEntry {
                position: p,
                voxels: generated_voxels(strategy, p, noise),
                mesh: None,
                state: ChunkState::Loaded,
            },
        );
    }
}

/// Building keeps at most one chunk per position.
proof fn lemma_build_steps_distinct(
    strategy: ChunkGenStrategy,
    entries: Seq<ChunkEntry>,
    popped: Seq<(i32, i32)>,
    noise: Seq<NoiseSamples>,
)
    requires
        entries_distinct(entries),
    ensures
        entries_distinct(build_steps(strategy, entries, popped, noise)),
    decreases popped.len(),
{
    if popped.len() > 0 {
        lemma_build_steps_distinct(strategy, entries, popped.drop_last(), noise);
        lemma_build_step_distinct(
            strategy,
            build_steps(strategy, entries, popped.drop_last(), noise),
            popped.last(),
            noise[popped.len() - 1],
        );
    }
}

/// Unloading moves no chunk.
proof fn lemma_unload_far_has_entry(entries: Seq<ChunkEntry>, c: (i32, i32), q: (i32, i32))
    ensures
        has_entry(unload_far(entries, c), q) == has_entry(entries, q),
{
    let after = unload_far(entries, c);
    if has_entry(entries, q) {
        let k = choose|k: int| 0 <= k < entries.len() && entries[k].position == q;
        assert(after[k].position == q);
    }
    if has_entry(after, q) {
        let k = choose|k: int| 0 <= k < after.len() && after[k].position == q;
        assert(entries[k].position == q);
    }
}

/// Keeping some elements of a sequence without duplicates gives a sequence
/// without duplicates.
proof fn lemma_filter_no_duplicates(s: Seq<(i32, i32)>, pred: spec_fn((i32, i32)) -> bool)
    requires
        s.no_duplicates(),
    ensures
        s.filter(pred).no_duplicates(),
    decreases s.len(),
{
    reveal(Seq::filter);
    if s.len() > 0 {
        let prev = s.drop_last();
        lemma_filter_no_duplicates(prev, pred);
        let f = prev.filter(pred);
        if f.contains(s.last()) {
            prev.lemma_filter_contains_rev(pred, s.last());
            let w = choose|w: int| 0 <= w < prev.len() && prev[w] == s.last();
            assert(s[w] == s[s.len() - 1]);
        }
        if pred(s.last()) {
            assert forall|i: int, j: int|
                0 <= i < f.push(s.last()).len() && 0 <= j < f.push(s.last()).len() && i != j implies f.push(
                s.last(),
            )[i] != f.push(s.last())[j] by {
                if i == f.len() {
                    assert(f[j] != s.last());
                } else if j == f.len() {
                    assert(f[i] != s.last());
                }
            }
        }
    }
}

/// The positions around a chunk are all different.
proof fn lemma_chunks_around_no_duplicates(c: (i32, i32))
    requires
        -0x1000_0000 <= c.0 <= 0x1000_0000,
        -0x1000_0000 <= c.1 <= 0x1000_0000,
    ensures
        chunks_around(c).no_duplicates(),
{
    let a = chunks_around(c);
    assert forall|i: int, j: int| 0 <= i < a.len() && 0 <= j < a.len() && i != j implies a[i] != a[j] by {
        lemma_fundamental_div_mod(i, 2 * CHUNK_LOAD_DISTANCE + 1);
        lemma_fundamental_div_mod(j, 2 * CHUNK_LOAD_DISTANCE + 1);
        assert(0 <= i / 9 <= 8 && 0 <= j / 9 <= 8);
        assert(0 <= i % 9 <= 8 && 0 <= j % 9 <= 8);
    }
}

/// An update keeps the queue consistent: the positions it builds leave the
/// queue as their chunks appear, and it queues only positions that neither
/// have a chunk nor wait already, each once.
pub proof fn lemma_update_keeps_queue_consistent(
    strategy: ChunkGenStrategy,
    v: ManagerView,
    x: i32,
    z: i32,
    noise: Seq<NoiseSamples>,
)
    requires
        queue_consistent(v),
    ensures
        queue_consistent(next_state(strategy, v, x, z, noise)),
{
    let due = due_positions(v.queue);
    let built = build_steps(strategy, v.entries, due, noise);
    let rest = queue_rest(v.queue);
    let n = next_state(strategy, v, x, z, noise);
    let c = n.current;
    lemma_build_steps_distinct(strategy, v.entries, due, noise);
    assert(entries_distinct(n.entries)) by {
        if c != v.current {
            let u = unload_far(built, c);
            assert forall|i: int, j: int|
                0 <= i < u.len() && 0 <= j < u.len() && i != j implies (#[trigger] u[i]).position
                != (#[trigger] u[j]).position by {
                assert(u[i].position == built[i].position && u[j].position == built[j].position);
            }
        }
    }
    assert forall|i: int| 0 <= i < rest.len() implies !has_entry(built, #[trigger] rest[i]) by {
        lemma_build_steps_has_entry(strategy, v.entries, due, noise, rest[i]);
        assert(v.queue[i] == rest[i]);
        if due.contains(rest[i]) {
            let w = choose|w: int| 0 <= w < due.len() && due[w] == rest[i];
            assert(v.queue[v.queue.len() - 1 - w] == v.queue[i]);
        }
    }
    assert(rest.no_duplicates()) by {
        assert forall|i: int, j: int| 0 <= i < rest.len() && 0 <= j < rest.len() && i != j implies rest[i] != rest[j] by {
            assert(rest[i] == v.queue[i] && rest[j] == v.queue[j]);
        }
    }
    if c != v.current {
        let pred = |p: (i32, i32)| !has_entry(built, p) && !rest.contains(p);
        let added = positions_to_queue(c, built, rest);
        assert(added == chunks_around(c).filter(pred));
        lemma_chunks_around_no_duplicates(c);
        lemma_filter_no_duplicates(chunks_around(c), pred);
        assert forall|i: int| 0 <= i < added.len() implies pred(#[trigger] added[i]) by {
            chunks_around(c).lemma_filter_pred(pred, i);
        }
        assert forall|i: int, j: int| 0 <= i < rest.len() && 0 <= j < added.len() implies rest[i] != added[j] by {
            assert(pred(added[j]));
            if rest[i] == added[j] {
                assert(rest.contains(added[j]));
            }
        }
        lemma_no_dup_in_concat(rest, added);
        assert forall|i: int| 0 <= i < n.queue.len() implies !has_entry(n.entries, #[trigger] n.queue[i]) by {
            lemma_unload_far_has_entry(built, c, n.queue[i]);
            if i >= rest.len() {
                assert(n.queue[i] == added[i - rest.len()]);
                assert(pred(added[i - rest.len()]));
            } else {
                assert(n.queue[i] == rest[i]);
            }
        }
    }
}

/// Whether the viewer may stand at world column `(x, z)`.
pub open spec fn world_pos_in_range(x: i32, z: i32) -> bool {
    -MAX_WORLD_COORD <= x <= MAX_WORLD_COORD && -MAX_WORLD_COORD <= z <= MAX_WORLD_COORD
}

/// Whether every chunk within the load distance of `c` stays within range.
pub open spec fn center_in_range(c: (i32, i32)) -> bool {
    -MAX_CHUNK_COORD + CHUNK_LOAD_DISTANCE <= c.0 <= MAX_CHUNK_COORD - CHUNK_LOAD_DISTANCE
        && -MAX_CHUNK_COORD + CHUNK_LOAD_DISTANCE <= c.1 <= MAX_CHUNK_COORD - CHUNK_LOAD_DISTANCE
}

/// Manages all chunks near the player.
/// Automatically loads and unloads chunks as the player moves.
pub struct ChunkManager {
    /// All chunks that have been built, regardless of whether they are loaded or not.
    pub chunks: Vec<(Chunk, ChunkState)>,
    /// The current chunk that the player is in.
    pub current_chunk: (i32, i32),
    /// The strategy to use for generating chunks.
    pub gen_strategy: ChunkGenStrategy,
    /// The queue of chunks that still need to be built.
    pub chunk_queue: Vec<(i32, i32)>,
}

impl View for ChunkManager {
    type V = ManagerView;

    open spec fn view(&self) -> ManagerView {
        ManagerView {
            entries: self.chunks@.map_values(|e: (Chunk, ChunkState)| entry_of(e)),
            current: self.current_chunk,
            queue: self.chunk_queue@,
        }
    }
}

impl ChunkManager {
    /// Every chunk is complete, every queued position and the viewer's chunk
    /// are within range.
    pub open spec fn wf(&self) -> bool {
        &&& forall|i: int| 0 <= i < self.chunks@.len() ==> (#[trigger] self.chunks@[i]).0.wf()
        &&& forall|i: int| 0 <= i < self.chunk_queue@.len() ==> chunk_pos_in_range(#[trigger] self.chunk_queue@[i])
        &&& center_in_range(self.current_chunk)
    }

    /// Gets the list of chunk positions within the load distance of `chunk_pos`.
    #[verifier::spinoff_prover]
    fn get_chunks_around(&self, chunk_pos: (i32, i32)) -> (r: Vec<(i32, i32)>)
        requires
            center_in_range(chunk_pos),
        ensures
            r@ == chunks_around(chunk_pos),
            r@.len() == CHUNKS_AROUND,
    {
        let mut chunks: Vec<(i32, i32)> = Vec::new();
        let (cx, cz) = chunk_pos;
        let mut x: i32 = -CHUNK_LOAD_DISTANCE;
        while x <= CHUNK_LOAD_DISTANCE
            invariant
                -CHUNK_LOAD_DISTANCE <= x <= CHUNK_LOAD_DISTANCE + 1,
                center_in_range(chunk_pos),
                (cx, cz) == chunk_pos,
                chunks@ == chunks_around(chunk_pos).take((x + CHUNK_LOAD_DISTANCE) * (2 * CHUNK_LOAD_DISTANCE + 1)),
            decreases CHUNK_LOAD_DISTANCE + 1 - x,
        {
            let mut z: i32 = -CHUNK_LOAD_DISTANCE;
            while z <= CHUNK_LOAD_DISTANCE
                invariant
                    -CHUNK_LOAD_DISTANCE <= x <= CHUNK_LOAD_DISTANCE,
                    -CHUNK_LOAD_DISTANCE <= z <= CHUNK_LOAD_DISTANCE + 1,
                    center_in_range(chunk_pos),
                    (cx, cz) == chunk_pos,
                    chunks@ == chunks_around(chunk_pos).take(
                        (x + CHUNK_LOAD_DISTANCE) * (2 * CHUNK_LOAD_DISTANCE + 1) + z + CHUNK_LOAD_DISTANCE,
                    ),
                decreases CHUNK_LOAD_DISTANCE + 1 - z,
            {
                let ghost k = (x + CHUNK_LOAD_DISTANCE) * (2 * CHUNK_LOAD_DISTANCE + 1) + z + CHUNK_LOAD_DISTANCE;
                proof {
                    lemma_fundamental_div_mod_converse(
                        k,
                        2 * CHUNK_LOAD_DISTANCE + 1,
                        x + CHUNK_LOAD_DISTANCE,
                        z + CHUNK_LOAD_DISTANCE,
                    );
                }
                assert(k / 9 == x + 4);
                assert(k % 9 == z + 4);
                assert(chunks_around(chunk_pos)[k] == ((cx + x) as i32, (cz + z) as i32));
                chunks.push((cx + x, cz + z));
                assert(chunks@ =~= chunks_around(chunk_pos).take(k + 1));
                z = z + 1;
            }
            assert((x + CHUNK_LOAD_DISTANCE) * (2 * CHUNK_LOAD_DISTANCE + 1) + 2 * CHUNK_LOAD_DISTANCE + 1
                == (x + 1 + CHUNK_LOAD_DISTANCE) * (2 * CHUNK_LOAD_DISTANCE + 1)) by (nonlinear_arith);
            x = x + 1;
        }
        assert(x == CHUNK_LOAD_DISTANCE + 1);
        assert(chunks@ == chunks_around(chunk_pos).take(CHUNKS_AROUND as int));
        assert(chunks_around(chunk_pos).take(CHUNKS_AROUND as int) =~= chunks_around(chunk_pos));
        chunks
    }

    /// The index of the first chunk at `pos`, if any chunk stands there.
    fn find_chunk(&self, pos: (i32, i32)) -> (r: Option<usize>)
        ensures
            r is None <==> !has_entry(self@.entries, pos),
            r matches Some(i) ==> i == first_entry(self@.entries, pos) && i < self.chunks@.len(),
    {
        let mut i: usize = 0;
        while i < self.chunks.len()
            invariant
                i <= self.chunks@.len(),
                forall|j: int| 0 <= j < i ==> (#[trigger] self@.entries[j]).position != pos,
            decreases self.chunks@.len() - i,
        {
            if self.chunks[i].0.position.0 == pos.0 && self.chunks[i].0.position.1 == pos.1 {
                proof {
                    let e = self@.entries;
                    let f = first_entry(e, pos);
                    assert(e[i as int].position == pos);
                    if f != i {
                        if f < i {
                            assert(e[f].position != pos);
                        } else {
                            assert(e[i as int].position != pos);
                        }
                    }
                }
                return Some(i);
            }
            i = i + 1;
        }
        None
    }

    /// Builds the chunk at `pos`: loads again a chunk already there, or
    /// generates a new one from `noise` and appends it, loaded.
    fn build_chunk_at(&mut self, pos: (i32, i32), noise: &NoiseSamples)
        requires
            old(self).wf(),
            chunk_pos_in_range(pos),
            old(self).gen_strategy.accepts(*noise),
        ensures
            final(self).wf(),
            final(self).gen_strategy == old(self).gen_strategy,
            final(self).current_chunk == old(self).current_chunk,
            final(self).chunk_queue@ == old(self).chunk_queue@,
            final(self)@.entries == build_step(old(self).gen_strategy, old(self)@.entries, pos, *noise),
    {
        match self.find_chunk(pos) {
            Some(i) => {
                self.chunks[i].1 = ChunkState::Loaded;
                assert(self@.entries =~= build_step(self.gen_strategy, old(self)@.entries, pos, *noise)) by {
                    reveal(build_step);
                }
            },
            None => {
                let mut chunk = Chunk::new(pos);
                self.gen_strategy.apply(&mut chunk, noise);
                self.chunks.push((chunk, ChunkState::Loaded));
                assert(self@.entries =~= build_step(self.gen_strategy, old(self)@.entries, pos, *noise)) by {
                    reveal(build_step);
                }
            },
        }
    }

    /// Builds at most `CHUNKS_TO_BUILT_PER_TICK` queued chunks, last queued
    /// first, the k-th of them from `noise[k]`. This bounds the work of one update.
    #[verifier::spinoff_prover]
    fn build_next_chunks(&mut self, noise: &Vec<NoiseSamples>)
        requires
            old(self).wf(),
            noise@.len() >= builds_due(old(self).chunk_queue@),
            forall|k: int| 0 <= k < builds_due(old(self).chunk_queue@) ==> old(self).gen_strategy.accepts(#[trigger] noise@[k]),
        ensures
            final(self).wf(),
            final(self).gen_strategy == old(self).gen_strategy,
            final(self).current_chunk == old(self).current_chunk,
            final(self).chunk_queue@ == queue_rest(old(self).chunk_queue@),
            final(self)@.entries == build_steps(
                old(self).gen_strategy,
                old(self)@.entries,
                due_positions(old(self).chunk_queue@),
                noise@,
            ),
    {
        let ghost q = self.chunk_queue@;
        let ghost due = due_positions(q);
        let ghost entries0 = self@.entries;
        let mut k: usize = 0;
        while k < CHUNKS_TO_BUILT_PER_TICK
            invariant
                k <= CHUNKS_TO_BUILT_PER_TICK,
                self.wf(),
                q == old(self).chunk_queue@,
                due == due_positions(q),
                entries0 == old(self)@.entries,
                self.gen_strategy == old(self).gen_strategy,
                self.current_chunk == old(self).current_chunk,
                noise@.len() >= builds_due(q),
                forall|j: int| 0 <= j < builds_due(q) ==> self.gen_strategy.accepts(#[trigger] noise@[j]),
                k <= q.len() ==> self.chunk_queue@ == q.take(q.len() - k),
                k <= q.len() ==> self@.entries == build_steps(self.gen_strategy, entries0, due.take(k as int), noise@),
                k > q.len() ==> self.chunk_queue@ == q.take(0),
                k > q.len() ==> self@.entries == build_steps(self.gen_strategy, entries0, due.take(q.len() as int), noise@),
            decreases CHUNKS_TO_BUILT_PER_TICK - k,
        {
            if let Some((cx, cz)) = self.chunk_queue.pop() {
                proof {
                    assert(k < q.len());
                    assert(due.take(k + 1).drop_last() =~= due.take(k as int));
                    assert(due[k as int] == (cx, cz));
                }
                self.build_chunk_at((cx, cz), &noise[k]);
            } else {
                proof {
                    assert(k >= q.len());
                }
            }
            k = k + 1;
        }
        assert(due.take(builds_due(q) as int) =~= due);
    }

    /// Creates a new chunk manager for a viewer at world column `(player_x, player_z)`.
    pub fn new(gen_strategy: ChunkGenStrategy, player_x: i32, player_z: i32) -> (r: Self)
        requires
            world_pos_in_range(player_x, player_z),
        ensures
            r.wf(),
            r.gen_strategy == gen_strategy,
            queue_consistent(r@),
            r@.entries == Seq::<ChunkEntry>::empty(),
            r@.queue == Seq::<(i32, i32)>::empty(),
            (r@.current.0 as int, r@.current.1 as int) == chunk_of_world(player_x as int, player_z as int),
    {
        let chunk_pos = world_to_chunk_position(player_x, player_z);
        let r = ChunkManager { chunks: Vec::new(), current_chunk: chunk_pos, gen_strategy, chunk_queue: Vec::new() };
        assert(r@.entries =~= Seq::<ChunkEntry>::empty());
        r
    }

    /// The positions that the next update builds, in the order it builds them.
    /// The k-th of them is generated from the k-th noise samples handed to `update`.
    pub fn pending_builds(&self) -> (r: Vec<(i32, i32)>)
        ensures
            r@ == due_positions(self.chunk_queue@),
    {
        let mut r: Vec<(i32, i32)> = Vec::new();
        let n = self.chunk_queue.len();
        let mut k: usize = 0;
        while k < CHUNKS_TO_BUILT_PER_TICK && k < n
            invariant
                n == self.chunk_queue@.len(),
                k <= builds_due(self.chunk_queue@),
                r@ == due_positions(self.chunk_queue@).take(k as int),
            decreases n - k,
        {
            r.push(self.chunk_queue[n - 1 - k]);
            k = k + 1;
            assert(r@ =~= due_positions(self.chunk_queue@).take(k as int));
        }
        assert(due_positions(self.chunk_queue@).take(k as int) =~= due_positions(self.chunk_queue@));
        r
    }

    /// Whether `pos` waits in the queue.
    fn queue_contains(&self, pos: (i32, i32)) -> (r: bool)
        ensures
            r == self.chunk_queue@.contains(pos),
    {
        let mut i: usize = 0;
        while i < self.chunk_queue.len()
            invariant
                i <= self.chunk_queue@.len(),
                forall|j: int| 0 <= j < i ==> self.chunk_queue@[j] != pos,
            decreases self.chunk_queue@.len() - i,
        {
            let p = self.chunk_queue[i];
            if p.0 == pos.0 && p.1 == pos.1 {
                assert(self.chunk_queue@[i as int] == pos);
                return true;
            }
            i = i + 1;
        }
        false
    }

    /// Adds all of the chunks that need to be loaded to the queue: those
    /// around the current chunk that neither have been built nor wait already.
    fn add_chunks_to_queue(&mut self)
        requires
            old(self).wf(),
        ensures
            final(self).wf(),
            final(self).gen_strategy == old(self).gen_strategy,
            final(self).current_chunk == old(self).current_chunk,
            final(self).chunks == old(self).chunks,
            final(self).chunk_queue@ == old(self).chunk_queue@ + positions_to_queue(
                old(self).current_chunk,
                old(self)@.entries,
                old(self).chunk_queue@,
            ),
    {
        let chunks_to_load = self.get_chunks_around(self.current_chunk);
        let ghost entries = self@.entries;
        let ghost queue = self.chunk_queue@;
        let ghost pred = |p: (i32, i32)| !has_entry(entries, p) && !queue.contains(p);
        let mut to_load: Vec<(i32, i32)> = Vec::new();
        let mut k: usize = 0;
        while k < chunks_to_load.len()
            invariant
                k <= chunks_to_load@.len(),
                chunks_to_load@ == chunks_around(self.current_chunk),
                entries == self@.entries,
                queue == self.chunk_queue@,
                pred == (|p: (i32, i32)| !has_entry(entries, p) && !queue.contains(p)),
                to_load@ == chunks_to_load@.take(k as int).filter(pred),
            decreases chunks_to_load@.len() - k,
        {
            let p = chunks_to_load[k];
            proof {
                reveal(Seq::filter);
                assert(chunks_to_load@.take(k + 1).drop_last() =~= chunks_to_load@.take(k as int));
            }
            if self.find_chunk(p).is_none() && !self.queue_contains(p) {
                to_load.push(p);
            }
            k = k + 1;
        }
        assert(chunks_to_load@.take(k as int) =~= chunks_to_load@);
        let ghost added = to_load@;
        proof {
            assert forall|i: int| 0 <= i < added.len() implies chunk_pos_in_range(#[trigger] added[i]) by {
                assert(added.contains(added[i]));
                chunks_to_load@.lemma_filter_contains_rev(pred, added[i]);
                let w = choose|w: int| 0 <= w < chunks_to_load@.len() && chunks_to_load@[w] == added[i];
                assert(0 <= w / 9 <= 8);
                assert(0 <= w % 9 <= 8);
            }
        }
        let mut j: usize = 0;
        while j < to_load.len()
            invariant
                j <= to_load@.len(),
                added == to_load@,
                forall|i: int| 0 <= i < added.len() ==> chunk_pos_in_range(#[trigger] added[i]),
                self.chunk_queue@ == queue + added.take(j as int),
                self.chunks == old(self).chunks,
                self.gen_strategy == old(self).gen_strategy,
                self.current_chunk == old(self).current_chunk,
                queue == old(self).chunk_queue@,
                old(self).wf(),
            decreases to_load@.len() - j,
        {
            self.chunk_queue.push(to_load[j]);
            j = j + 1;
            assert(self.chunk_queue@ =~= queue + added.take(j as int));
        }
        assert(added.take(j as int) =~= added);
    }

    /// Marks unloaded every chunk that is farther than the load distance from
    /// the current chunk.
    fn unload_distant_chunks(&mut self)
        requires
            old(self).wf(),
        ensures
            final(self).wf(),
            final(self).gen_strategy == old(self).gen_strategy,
            final(self).current_chunk == old(self).current_chunk,
            final(self).chunk_queue@ == old(self).chunk_queue@,
            final(self)@.entries == unload_far(old(self)@.entries, old(self).current_chunk),
    {
        let ghost e0 = self@.entries;
        let (px, pz) = self.current_chunk;
        let mut i: usize = 0;
        while i < self.chunks.len()
            invariant
                i <= self.chunks@.len(),
                self.chunks@.len() == e0.len(),
                (px, pz) == self.current_chunk,
                self.wf(),
                e0 == old(self)@.entries,
                self.gen_strategy == old(self).gen_strategy,
                self.current_chunk == old(self).current_chunk,
                self.chunk_queue@ == old(self).chunk_queue@,
                forall|j: int| 0 <= j < i ==> #[trigger] self@.entries[j] == unload_far(e0, self.current_chunk)[j],
                forall|j: int| i <= j < e0.len() ==> #[trigger] self@.entries[j] == e0[j],
            decreases self.chunks@.len() - i,
        {
            let (cx, cz) = self.chunks[i].0.position;
            let dx = cx - px;
            let dz = cz - pz;
            let ghost before = self@.entries;
            if dx > CHUNK_LOAD_DISTANCE || dx < -CHUNK_LOAD_DISTANCE || dz > CHUNK_LOAD_DISTANCE || dz < -CHUNK_LOAD_DISTANCE {
                self.chunks[i].1 = ChunkState::Unloaded;
                assert(self@.entries =~= before.update(i as int, ChunkEntry { state: ChunkState::Unloaded, ..before[i as int] }));
            } else {
                assert(self@.entries =~= before);
            }
            assert(self@.entries[i as int] == unload_far(e0, self.current_chunk)[i as int]);
            i = i + 1;
        }
        assert(self@.entries =~= unload_far(e0, self.current_chunk));
    }

    /// One tick: builds at most `CHUNKS_TO_BUILT_PER_TICK` queued chunks (the
    /// k-th from `noise[k]`), then, if the viewer at world column
    /// `(player_x, player_z)` has changed chunks, queues the missing chunks
    /// around it and marks the far ones unloaded.
    pub fn update(&mut self, player_x: i32, player_z: i32, noise: &Vec<NoiseSamples>)
        requires
            old(self).wf(),
            world_pos_in_range(player_x, player_z),
            noise@.len() >= builds_due(old(self).chunk_queue@),
            forall|k: int| 0 <= k < builds_due(old(self).chunk_queue@) ==> old(self).gen_strategy.accepts(#[trigger] noise@[k]),
        ensures
            final(self).wf(),
            final(self).gen_strategy == old(self).gen_strategy,
            final(self)@ == next_state(old(self).gen_strategy, old(self)@, player_x, player_z, noise@),
    {
        // Build chunks in the queue
        self.build_next_chunks(noise);

        let current_chunk = world_to_chunk_position(player_x, player_z);

        if current_chunk.0 != self.current_chunk.0 || current_chunk.1 != self.current_chunk.1 {
            self.current_chunk = current_chunk;
            self.add_chunks_to_queue();
            self.unload_distant_chunks();
        }
    }
}

} // verus!
