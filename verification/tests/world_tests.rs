use minecraft::types::{chunk_key, ChunkPos};
use minecraft::world::{
    desired_chunks, in_render_distance, neighbor_positions, ChunkLoadState, ChunkMap, ChunkMeshQueue,
};

fn p(x: i32, y: i32) -> ChunkPos {
    ChunkPos { x, y }
}

#[test]
fn desired_chunks_cover_the_disk_closest_first() {
    let player = p(10, -20);
    let d = desired_chunks(player);
    let mut expected = 0;
    for dz in -64i64..=64 {
        for dx in -64i64..=64 {
            if dx * dx + dz * dz <= 64 * 64 {
                expected += 1;
            }
        }
    }
    assert_eq!(d.len(), expected);
    assert_eq!(d[0], player);
    assert_eq!(&d[1..5], &[p(10, -21), p(9, -20), p(11, -20), p(10, -19)]);
    let key = |c: &ChunkPos| {
        let dx = (c.x - player.x) as i64;
        let dz = (c.y - player.y) as i64;
        (dx * dx + dz * dz, dz, dx)
    };
    for w in d.windows(2) {
        assert!(key(&w[0]) < key(&w[1]));
    }
    assert!(d.contains(&p(10 + 64, -20)));
    assert!(!d.contains(&p(10 + 64, -19)));
}

#[test]
fn render_distance_is_a_disk() {
    let c = p(0, 0);
    assert!(in_render_distance(c, p(64, 0)));
    assert!(!in_render_distance(c, p(64, 1)));
    assert!(in_render_distance(c, p(-45, 45)));
    assert!(!in_render_distance(c, p(-46, 46)));
    assert!(!in_render_distance(c, p(i32::MIN, i32::MAX)));
}

#[test]
fn chunk_map_tracks_loaded_chunks() {
    let mut m: ChunkMap<u32> = ChunkMap::new();
    m.insert(p(0, 0), 7);
    m.insert(p(1, 0), 8);
    assert!(m.contains(p(0, 0)));
    assert_eq!(m.get(p(1, 0)), Some(&8));
    assert_eq!(m.get(p(2, 0)), None);
    assert_eq!(m.len(), 2);
    assert_eq!(m.remove(p(0, 0)), Some(7));
    assert_eq!(m.remove(p(0, 0)), None);
    assert_eq!(m.positions(), vec![p(1, 0)]);
    m.clear();
    assert_eq!(m.len(), 0);
}

#[test]
fn neighbors_are_west_east_north_south() {
    assert_eq!(neighbor_positions(p(5, 5)), vec![p(4, 5), p(6, 5), p(5, 4), p(5, 6)]);
    let mut m: ChunkMap<()> = ChunkMap::new();
    for n in neighbor_positions(p(5, 5)).iter().take(3) {
        m.insert(*n, ());
    }
    assert!(!m.all_neighbors_loaded(p(5, 5)));
    m.insert(p(5, 6), ());
    assert!(m.all_neighbors_loaded(p(5, 5)));
}

#[test]
fn loading_plan_respects_the_task_limit() {
    let mut state: ChunkLoadState<u8> = ChunkLoadState::new();
    state.update_player_chunk(p(0, 0));
    let mut m: ChunkMap<u8> = ChunkMap::new();
    m.insert(p(0, 0), 1);
    state.tasks.insert(chunk_key(p(0, -1)), 2);
    let plan = state.chunks_to_load(&m);
    assert_eq!(plan.len(), 63);
    assert_eq!(&plan[0..3], &[p(-1, 0), p(1, 0), p(0, 1)]);
    for i in 0..70 {
        state.tasks.insert(chunk_key(p(1000 + i, 0)), 0);
    }
    assert_eq!(state.chunks_to_load(&m), vec![]);
}

#[test]
fn unwanted_chunks_are_unloaded() {
    let mut state: ChunkLoadState<u8> = ChunkLoadState::new();
    state.update_player_chunk(p(0, 0));
    let mut m: ChunkMap<u32> = ChunkMap::new();
    m.insert(p(0, 0), 1);
    m.insert(p(100, 0), 2);
    m.insert(p(0, 65), 3);
    state.tasks.insert(chunk_key(p(100, 0)), 9);
    state.tasks.insert(chunk_key(p(1, 1)), 4);
    let mut removed = state.unload_unwanted(&mut m);
    removed.sort();
    assert_eq!(removed, vec![2, 3]);
    assert_eq!(m.positions(), vec![p(0, 0)]);
    assert!(!state.tasks.contains_key(&chunk_key(p(100, 0))));
    assert!(state.tasks.contains_key(&chunk_key(p(1, 1))));
}

#[test]
fn player_moves_change_the_wanted_chunks() {
    let mut state: ChunkLoadState<u8> = ChunkLoadState::new();
    state.update_player_chunk(p(0, 0));
    assert_eq!(state.sorted_desired[0], p(0, 0));
    state.update_player_chunk(p(3, 4));
    assert_eq!(state.last_player_chunk, Some(p(3, 4)));
    assert_eq!(state.sorted_desired[0], p(3, 4));
    state.reset();
    assert_eq!(state.last_player_chunk, None);
    assert!(state.sorted_desired.is_empty());
}

#[test]
fn mesh_queue_releases_chunks_with_all_neighbors() {
    let mut q = ChunkMeshQueue::new();
    q.push(p(0, 0));
    q.push(p(10, 10));
    let mut m: ChunkMap<()> = ChunkMap::new();
    for n in neighbor_positions(p(0, 0)) {
        m.insert(n, ());
    }
    assert_eq!(q.take_ready(&m), vec![p(0, 0)]);
    assert_eq!(q.take_ready(&m), vec![]);
    assert!(q.queue.contains(&chunk_key(p(10, 10))));
    q.clear();
    assert!(q.queue.is_empty());
}

#[test]
fn planned_loading_stays_within_the_task_limit() {
    let mut state: ChunkLoadState<u32> = ChunkLoadState::new();
    let mut m: ChunkMap<u8> = ChunkMap::new();
    m.insert(p(0, 0), 1);
    m.insert(p(200, 0), 2);
    state.tasks.insert(chunk_key(p(0, 1)), 7);
    let (unloaded, to_load) = state.plan_chunk_loading(p(0, 0), &mut m);
    assert_eq!(unloaded, vec![2]);
    assert_eq!(m.positions(), vec![p(0, 0)]);
    assert_eq!(to_load.len(), 63);
    assert_eq!(&to_load[0..3], &[p(0, -1), p(-1, 0), p(1, 0)]);
    let started: Vec<(ChunkPos, u32)> = to_load.iter().enumerate().map(|(i, q)| (*q, i as u32)).collect();
    state.record_tasks(started);
    assert_eq!(state.tasks.len(), 64);
    assert_eq!(state.tasks[&chunk_key(p(1, 0))], 2);
    assert_eq!(state.tasks[&chunk_key(p(0, 1))], 7);
    let (unloaded, to_load) = state.plan_chunk_loading(p(0, 0), &mut m);
    assert!(unloaded.is_empty());
    assert!(to_load.is_empty());
}

#[test]
fn loading_step_starts_tasks_within_the_limit() {
    let mut state: ChunkLoadState<(i32, i32)> = ChunkLoadState::new();
    let mut m: ChunkMap<u8> = ChunkMap::new();
    m.insert(p(0, 0), 1);
    m.insert(p(200, 0), 2);
    let unloaded = state.loading_step(p(0, 0), &mut m, |q: ChunkPos| (q.x, q.y));
    assert_eq!(unloaded, vec![2]);
    assert_eq!(m.positions(), vec![p(0, 0)]);
    assert_eq!(state.tasks.len(), 64);
    assert_eq!(state.tasks[&chunk_key(p(1, 0))], (1, 0));
    assert!(!state.tasks.contains_key(&chunk_key(p(0, 0))));
    let unloaded = state.loading_step(p(0, 0), &mut m, |q: ChunkPos| (q.x, q.y));
    assert!(unloaded.is_empty());
    assert_eq!(state.tasks.len(), 64);
}
