use voxel_fluid::backend::{run_tile, ChunkUpdate, TileError, TileOutput};
use voxel_fluid::block::BlockType;
use voxel_fluid::chunk::{Chunk, CHUNK_VOLUME};
use voxel_fluid::kernel::{kernel_start_exec, simulate_exec, vertical_pass_exec, x_pass_exec, z_pass_exec};
use voxel_fluid::load::LoadMonitor;
use voxel_fluid::system::{FluidSystem, MAX_IN_FLIGHT};
use voxel_fluid::tile::{build_tile_input, index_3d, TILE_BLOCKS, TILE_CELLS};
use voxel_fluid::world::{split_coord, ChunkPos, World};

fn floored_chunk() -> Chunk {
    let mut c = Chunk::new();
    for x in 0..16 {
        for z in 0..16 {
            c.set_block(x, 0, z, BlockType::Stone);
        }
    }
    c
}

fn world_with(xs: std::ops::Range<i32>, zs: std::ops::Range<i32>) -> World {
    let mut w = World::new();
    for x in xs {
        for z in zs.clone() {
            w.load_chunk(ChunkPos { x, z }, floored_chunk());
        }
    }
    w
}

fn tile_cell(x: usize, y: usize, z: usize) -> usize {
    index_3d(x, y, z, TILE_BLOCKS, TILE_BLOCKS)
}

#[test]
fn coordinates_split_by_floor() {
    assert_eq!(split_coord(17), (1, 1));
    assert_eq!(split_coord(-1), (-1, 15));
    assert_eq!(split_coord(-16), (-1, 0));
    assert_eq!(split_coord(-17), (-2, 15));
    assert_eq!(tile_cell(1, 2, 3), 1 + 80 * (3 + 80 * 2));
}

#[test]
fn world_tracks_settling_chunks() {
    let mut w = world_with(0..2, 0..1);
    assert!(w.active_fluid_chunks_snapshot().is_empty());
    let mut wet = floored_chunk();
    wet.set_fluid(2, 1, 2, 5);
    w.load_chunk(ChunkPos { x: 5, z: 5 }, wet);
    assert_eq!(w.active_fluid_chunks_snapshot(), vec![ChunkPos { x: 5, z: 5 }]);
    w.set_fluid_amount(3, 1, 3, 20);
    assert_eq!(w.get_fluid_amount(3, 1, 3), 12);
    assert!(w.is_fluid_active(ChunkPos { x: 0, z: 0 }));
    assert!(w.is_fluid_active(ChunkPos { x: 1, z: 0 }));
    w.finalize_fluid_chunk_state(ChunkPos { x: 0, z: 0 }, false, true);
    assert!(!w.is_fluid_active(ChunkPos { x: 0, z: 0 }));
    w.unload_chunk(ChunkPos { x: 1, z: 0 });
    assert!(!w.is_fluid_active(ChunkPos { x: 1, z: 0 }));
    assert!(!w.contains_chunk(ChunkPos { x: 1, z: 0 }));
    assert_eq!(w.get_block(-1, 0, 0), BlockType::Air);
    assert_eq!(w.get_block(0, 0, 0), BlockType::Stone);
    w.add_fluid(3, 1, 3, 4);
    assert_eq!(w.get_fluid_amount(3, 1, 3), 12);
}

#[test]
fn tile_needs_every_core_chunk() {
    let w = world_with(0..3, 0..2);
    assert!(build_tile_input(&w, 0, 0).is_none());
}

#[test]
fn missing_padding_chunks_are_closed() {
    let mut w = world_with(0..3, 0..3);
    w.set_fluid_amount(5, 1, 5, 12);
    let t = build_tile_input(&w, 0, 0).expect("core is loaded");
    assert_eq!(t.chunk_info.len(), 25);
    assert!(!t.chunk_info[0].exists);
    assert!(!t.chunk_info[0].is_core);
    assert!(t.chunk_info[6].exists && t.chunk_info[6].is_core);
    assert_eq!(t.chunk_info[6].pos, ChunkPos { x: 0, z: 0 });
    for y in [0usize, 1, 100, 255] {
        for x in 0..16 {
            assert_eq!(t.solid[tile_cell(x, y, 3)], 1);
            assert_eq!(t.original[tile_cell(x, y, 3)], 0);
        }
    }
    assert_eq!(t.solid[tile_cell(16, 0, 16)], 1);
    assert_eq!(t.solid[tile_cell(16, 1, 16)], 0);
    assert_eq!(t.original[tile_cell(21, 1, 21)], 12);
    let updates = run_tile(&t).expect("well-formed tile");
    assert_eq!(updates.len(), 25);
    assert!(updates[0].fluids.is_empty());
    assert!(!updates[0].changed);
    assert!(updates[6].changed);
    assert!(updates[6].has_fluid);
    assert_eq!(updates[6].fluids.len(), CHUNK_VOLUME);
}

#[test]
fn malformed_tiles_are_refused() {
    let w = world_with(0..3, 0..3);
    let t = build_tile_input(&w, 0, 0).unwrap();
    let mut bad = t.clone();
    bad.tile_width_blocks = 48;
    assert_eq!(run_tile(&bad).unwrap_err(), TileError::UnsupportedShape);
    let mut bad = t.clone();
    bad.chunk_info.pop();
    assert_eq!(run_tile(&bad).unwrap_err(), TileError::ChunkInfoMismatch);
    let mut bad = t;
    bad.solid.pop();
    assert_eq!(run_tile(&bad).unwrap_err(), TileError::BufferLength);
}

fn floor_tile() -> (Vec<u32>, Vec<u32>) {
    let v = vec![0u32; TILE_CELLS];
    let mut s = vec![0u32; TILE_CELLS];
    for x in 0..80 {
        for z in 0..80 {
            s[tile_cell(x, 0, z)] = 1;
        }
    }
    (v, s)
}

#[test]
fn single_source_spreads_and_settles() {
    let (mut v, s) = floor_tile();
    v[tile_cell(40, 1, 40)] = 12;
    let mut cur = kernel_start_exec(&v, &s);
    for _ in 0..3 {
        cur = simulate_exec(cur, &s, 1);
    }
    let total: u32 = cur.iter().sum();
    assert_eq!(total, 12);
    for x in 0..80 {
        for z in 0..80 {
            assert!(cur[tile_cell(x, 1, z)] <= 9);
        }
    }
    assert!(cur[tile_cell(41, 1, 40)] > 0);
    assert!(cur[tile_cell(40, 1, 41)] > 0);
    let again = simulate_exec(cur.clone(), &s, 2);
    assert_eq!(again, cur);
}

#[test]
fn column_keeps_its_total() {
    let mut v = vec![0u32; TILE_CELLS];
    let mut s = vec![0u32; TILE_CELLS];
    s[tile_cell(7, 0, 9)] = 1;
    v[tile_cell(7, 10, 9)] = 12;
    v[tile_cell(7, 11, 9)] = 5;
    v[tile_cell(7, 3, 9)] = 2;
    let out = vertical_pass_exec(&v, &s);
    let column: u32 = (0..256).map(|y| out[tile_cell(7, y, 9)]).sum();
    assert_eq!(column, 19);
    assert_eq!(out[tile_cell(7, 1, 9)], 12);
    assert_eq!(out[tile_cell(7, 2, 9)], 7);
    assert_eq!(out[tile_cell(7, 3, 9)], 0);
    assert_eq!(out[tile_cell(7, 10, 9)], 0);
    let again = vertical_pass_exec(&out, &s);
    assert_eq!(again, out);
}

#[test]
fn settle_pours_a_column_to_its_floor() {
    let mut v = vec![0u32; TILE_CELLS];
    let mut s = vec![0u32; TILE_CELLS];
    v[tile_cell(3, 2, 3)] = 12;
    s[tile_cell(3, 5, 3)] = 1;
    v[tile_cell(3, 7, 3)] = 4;
    let out = vertical_pass_exec(&v, &s);
    assert_eq!(out[tile_cell(3, 0, 3)], 12);
    assert_eq!(out[tile_cell(3, 1, 3)], 0);
    assert_eq!(out[tile_cell(3, 2, 3)], 0);
    assert_eq!(out[tile_cell(3, 6, 3)], 4);
    assert_eq!(out[tile_cell(3, 7, 3)], 0);
}

#[test]
fn lateral_flow_goes_downhill() {
    let (mut v, s) = floor_tile();
    v[tile_cell(10, 1, 10)] = 12;
    v[tile_cell(11, 1, 10)] = 4;
    let out = x_pass_exec(&v, &s);
    assert_eq!(out[tile_cell(10, 1, 10)], 12 - 2 - 3);
    assert_eq!(out[tile_cell(11, 1, 10)], 4 + 2 - 1);
    assert_eq!(out[tile_cell(9, 1, 10)], 3);
    assert_eq!(out[tile_cell(12, 1, 10)], 1);
    let out = z_pass_exec(&out, &s);
    assert_eq!(out[tile_cell(10, 1, 10)], 5);
    assert_eq!(out[tile_cell(10, 1, 11)], 1);
    assert_eq!(out[tile_cell(11, 1, 10)], 3);
}

#[test]
fn settled_tile_reports_no_change() {
    let mut w = world_with(0..3, 0..3);
    for x in 0..48 {
        for z in 0..48 {
            w.set_fluid_amount(x, 1, z, 12);
        }
    }
    let t = build_tile_input(&w, 0, 0).unwrap();
    let updates = run_tile(&t).unwrap();
    for u in &updates {
        assert!(!u.changed);
        if u.is_core {
            assert!(u.has_fluid);
        }
    }
}

#[test]
fn load_monitor_overloads_and_recovers() {
    let mut m = LoadMonitor::new(0);
    for _ in 0..3 {
        m.record(7000, 1000);
        assert!(!m.is_overloaded(1000));
    }
    m.record(7000, 1000);
    assert!(m.is_overloaded(1000));
    assert!(m.is_overloaded(1079));
    assert!(!m.is_overloaded(1080));
    m.record(7000, 1050);
    assert!(m.is_overloaded(1129));
    for _ in 0..40 {
        m.record(1000, 1200);
    }
    assert!(!m.is_overloaded(1200));
}

#[test]
fn recovery_waits_for_cooldown() {
    let mut m = LoadMonitor::new(0);
    for _ in 0..4 {
        m.record(9000, 500);
    }
    assert!(m.is_overloaded(520));
    for _ in 0..40 {
        m.record(100, 520);
    }
    assert!(m.is_overloaded(520));
    m.record(100, 600);
    assert!(!m.is_overloaded(600));
}

#[test]
fn at_most_two_tiles_in_flight() {
    let mut w = world_with(0..5, 0..3);
    for x in 1..4 {
        w.queue_fluid_chunk(ChunkPos { x, z: 1 });
    }
    let mut sys = FluidSystem::new(0);
    assert!(sys.pump(&w, 0).is_some());
    assert!(sys.pump(&w, 0).is_some());
    assert!(sys.pump(&w, 0).is_none());
    assert_eq!(sys.in_flight(), MAX_IN_FLIGHT);
}

fn update(pos: ChunkPos, changed: bool) -> ChunkUpdate {
    ChunkUpdate { pos, fluids: vec![0u8; CHUNK_VOLUME], changed, has_fluid: false, exists: true, is_core: true }
}

#[test]
fn change_wakes_neighbour_chunk() {
    let a = ChunkPos { x: 0, z: 0 };
    let b = ChunkPos { x: 1, z: 0 };
    for order in [true, false] {
        let mut w = world_with(0..2, 0..1);
        w.queue_fluid_chunk(a);
        w.queue_fluid_chunk(b);
        let mut sys = FluidSystem::new(0);
        let ups = if order { vec![update(a, true), update(b, false)] } else { vec![update(b, false), update(a, true)] };
        let out = TileOutput { base_chunk: ChunkPos { x: -1, z: -1 }, chunk_updates: ups, compute_time_us: 500 };
        assert!(sys.handle_tile_output(&mut w, out, 10));
        assert!(w.is_fluid_active(a));
        assert!(w.is_fluid_active(b));
        assert!(w.take_dirty());
    }
}

#[test]
fn unchanged_chunk_settles() {
    let a = ChunkPos { x: 0, z: 0 };
    let mut w = world_with(0..1, 0..1);
    w.queue_fluid_chunk(a);
    let mut sys = FluidSystem::new(0);
    let out = TileOutput { base_chunk: ChunkPos { x: -1, z: -1 }, chunk_updates: vec![update(a, false)], compute_time_us: 500 };
    assert!(!sys.handle_tile_output(&mut w, out, 10));
    assert!(!w.is_fluid_active(a));
    assert!(!w.take_dirty());
}

#[test]
fn gravity_moves_three_down() {
    let mut w = World::new();
    let mut c = floored_chunk();
    c.set_fluid(8, 5, 8, 12);
    w.load_chunk(ChunkPos { x: 0, z: 0 }, c);
    assert!(w.step_fluids());
    assert_eq!(w.get_fluid_amount(8, 5, 8), 9);
    assert_eq!(w.get_fluid_amount(8, 4, 8), 3);
}

#[test]
fn source_spreads_sideways_on_floor() {
    let mut w = World::new();
    let mut c = floored_chunk();
    c.set_fluid(8, 1, 8, 12);
    w.load_chunk(ChunkPos { x: 0, z: 0 }, c);
    assert!(w.step_fluids());
    assert_eq!(w.get_fluid_amount(9, 1, 8), 3);
    assert_eq!(w.get_fluid_amount(7, 1, 8), 3);
    assert_eq!(w.get_fluid_amount(8, 1, 9), 3);
    assert_eq!(w.get_fluid_amount(8, 1, 7), 3);
    assert_eq!(w.get_fluid_amount(8, 1, 8), 0);
}

#[test]
fn thin_film_on_solid_ground_stays() {
    let mut w = World::new();
    let mut c = floored_chunk();
    c.set_fluid(2, 1, 2, 1);
    c.set_block(3, 1, 2, BlockType::Stone);
    c.set_block(1, 1, 2, BlockType::Stone);
    c.set_block(2, 1, 3, BlockType::Stone);
    c.set_block(2, 1, 1, BlockType::Stone);
    w.load_chunk(ChunkPos { x: 0, z: 0 }, c);
    assert!(!w.step_fluids());
    assert_eq!(w.get_fluid_amount(2, 1, 2), 1);
}

#[test]
fn thin_film_over_open_cell_falls() {
    let mut w = World::new();
    let mut c = floored_chunk();
    c.set_fluid(2, 4, 2, 1);
    w.load_chunk(ChunkPos { x: 0, z: 0 }, c);
    assert!(w.step_fluids());
    assert_eq!(w.get_fluid_amount(2, 4, 2), 0);
    assert_eq!(w.get_fluid_amount(2, 3, 2), 1);
}

#[test]
fn fallback_runs_only_when_due() {
    let mut w = World::new();
    let mut c = floored_chunk();
    c.set_fluid(8, 5, 8, 12);
    w.load_chunk(ChunkPos { x: 0, z: 0 }, c);
    let mut sys = FluidSystem::new(0);
    assert!(!sys.fallback_step(&mut w, 5));
    assert_eq!(w.get_fluid_amount(8, 5, 8), 12);
    sys.disconnect();
    assert!(sys.fallback_step(&mut w, 5));
    assert!(!sys.fallback_step(&mut w, 10));
    assert!(sys.fallback_step(&mut w, 21));
    assert!(sys.pump(&w, 30).is_none());
}

#[test]
fn placing_a_block_clears_fluid_and_wakes_chunks() {
    let mut w = world_with(0..2, 0..1);
    w.set_fluid_amount(20, 3, 4, 6);
    w.finalize_fluid_chunk_state(ChunkPos { x: 0, z: 0 }, false, false);
    w.finalize_fluid_chunk_state(ChunkPos { x: 1, z: 0 }, false, false);
    w.set_block(20, 3, 4, BlockType::Dirt);
    assert_eq!(w.get_fluid_amount(20, 3, 4), 0);
    assert_eq!(w.get_block(20, 3, 4), BlockType::Dirt);
    assert!(w.is_fluid_active(ChunkPos { x: 1, z: 0 }));
    assert!(w.is_fluid_active(ChunkPos { x: 0, z: 0 }));
    w.set_block(20, 3, 4, BlockType::Air);
    assert!(w.is_open_cell(20, 3, 4));
    assert!(!w.is_open_cell(20, 0, 4));
    assert!(!w.is_open_cell(100, 3, 4));
}

#[test]
fn overfull_update_is_clamped() {
    let a = ChunkPos { x: 0, z: 0 };
    let mut w = world_with(0..1, 0..1);
    w.queue_fluid_chunk(a);
    let mut sys = FluidSystem::new(0);
    let mut u = update(a, true);
    u.fluids[5 + 16 * (5 + 16 * 3)] = 40;
    let out = TileOutput { base_chunk: ChunkPos { x: -1, z: -1 }, chunk_updates: vec![u], compute_time_us: 10 };
    assert!(sys.handle_tile_output(&mut w, out, 0));
    assert_eq!(w.get_fluid_amount(5, 3, 5), 12);
}

#[test]
fn fallback_step_keeps_fluid() {
    let mut w = World::new();
    let mut c = floored_chunk();
    c.set_block(0, 1, 0, BlockType::Stone);
    c.set_fluid(0, 2, 0, 9);
    c.set_fluid(1, 2, 0, 5);
    w.load_chunk(ChunkPos { x: 0, z: 0 }, c);
    assert!(w.step_fluids());
    assert_eq!(w.get_fluid_amount(0, 2, 0), 6);
    assert_eq!(w.get_fluid_amount(1, 2, 0), 3);
    assert_eq!(w.get_fluid_amount(0, 2, 1), 2);
    assert_eq!(w.get_fluid_amount(1, 1, 0), 3);
    let mut total: u32 = 0;
    for x in 0..16 {
        for y in 0..8 {
            for z in 0..16 {
                total += w.get_fluid_amount(x, y, z) as u32;
            }
        }
    }
    assert_eq!(total, 14);
}

#[test]
fn fallback_column_keeps_inflow() {
    let mut w = World::new();
    let mut c = floored_chunk();
    c.set_fluid(4, 3, 4, 2);
    c.set_fluid(4, 4, 4, 12);
    w.load_chunk(ChunkPos { x: 0, z: 0 }, c);
    assert!(w.step_fluids());
    assert_eq!(w.get_fluid_amount(4, 2, 4), 2);
    assert_eq!(w.get_fluid_amount(4, 3, 4), 3);
    assert_eq!(w.get_fluid_amount(4, 4, 4), 9);
}
