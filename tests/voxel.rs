use rustcraft::block::{Block, BlockId};
use rustcraft::catalog::{
    create_blocks_storage, BlockFaces, BlockImageStorage, BlockStorage, UnMeshedBlockType,
};
use rustcraft::chunk::{Chunk, CHUNK_D, CHUNK_H, CHUNK_VOLUME, CHUNK_W};
use rustcraft::compressed::CompressedChunk;
use rustcraft::mesh::{
    create_cube_mesh, merge_mesh, square_mesh, void_mesh, Mesh, Rect, Side,
};
use rustcraft::mesher::{create_chunk_mesh, generate_sides_mesh, make_meshes, visible_faces};
use rustcraft::pipeline::{create_load_pipeline, load, LoadChunksPipeLine, LoadedChunksInPipeline};
use rustcraft::player::{pick_block, player_edit, SelectedBlock};
use rustcraft::settings::{GameState, OSType};
use rustcraft::store::{generate, pos_key_of, ChunksStorage};
use rustcraft::world::{get_chunk_entity, UpdateChunks};

fn idx(x: usize, y: usize, z: usize) -> usize {
    (y * CHUNK_D + z) * CHUNK_W + x
}

fn faces(m: &Mesh) -> usize {
    m.positions.len() / 4
}

fn stone() -> Block {
    Block::Solid(BlockId(1))
}

fn fill(w: &mut UpdateChunks, slot: usize) {
    for i in 0..CHUNK_VOLUME {
        w.chunks[slot].blocks[i] = stone();
    }
}

fn named(s: &str) -> UnMeshedBlockType {
    UnMeshedBlockType::Block {
        faces: BlockFaces {
            top: s.to_string(),
            bottom: s.to_string(),
            left: s.to_string(),
            right: s.to_string(),
            forward: s.to_string(),
            backward: s.to_string(),
        },
    }
}

#[test]
fn is_solid_tells_air_from_blocks() {
    assert!(!Block::Air.is_solid());
    assert!(Block::Solid(BlockId(0)).is_solid());
    assert_eq!(Block::default(), Block::Air);
    assert_eq!(BlockId::default(), BlockId(0));
}

#[test]
fn compress_round_trip_keeps_every_voxel() {
    let mut g = vec![Block::Air; CHUNK_VOLUME];
    g[0] = Block::Solid(BlockId(0));
    g[1] = Block::Solid(BlockId(7));
    g[CHUNK_VOLUME - 1] = Block::Solid(BlockId(u32::MAX - 1));
    let c = CompressedChunk::compress(&g);
    assert_eq!(c.decompress(), g);
}

#[test]
fn compress_encodes_air_as_zero_and_ids_shifted_by_one() {
    let mut g = vec![Block::Air; CHUNK_VOLUME];
    g[3] = Block::Solid(BlockId(0));
    g[4] = Block::Solid(BlockId(41));
    let c = CompressedChunk::compress(&g);
    assert_eq!(c.blocks[0], 0);
    assert_eq!(c.blocks[3], 1);
    assert_eq!(c.blocks[4], 42);
    assert_eq!(c.blocks.len(), CHUNK_VOLUME);
}

#[test]
fn chunk_reads_and_writes_in_bounds_only() {
    let mut c = Chunk::new_air((3, 4));
    assert_eq!(c.pos, (3, 4));
    assert_eq!(c.get(0, 0, 0), Some(Block::Air));
    assert_eq!(c.get(CHUNK_W, 0, 0), None);
    c.set_as_generated();
    assert!(c.is_generated_mesh());
    c.set(1, 2, 3, stone());
    assert!(!c.is_generated_mesh());
    assert_eq!(c.get_from_only_my(1, 2, 3), stone());
    assert_eq!(c.blocks[idx(1, 2, 3)], stone());
    assert_eq!(c.get_i32(1, 2, 3), Some(stone()));
    assert_eq!(c.get_i32(-1, 2, 3), None);
    c.set_as_generated();
    c.set_i32(-1, 0, 0, stone());
    assert!(c.is_generated_mesh());
    c.set_i32(0, CHUNK_H as i32 - 1, 0, stone());
    assert_eq!(c.get(0, CHUNK_H - 1, 0), Some(stone()));
    assert!(!c.is_generated_mesh());
}

#[test]
fn chunk_translation_and_builders() {
    let mut c = Chunk::air();
    assert_eq!(c.translation(), None);
    c.with_translation((32, 0, 64));
    assert_eq!(c.translation(), Some((32, 0, 64)));
    let d = Chunk::new(|| Chunk::new_air((1, 1)));
    assert_eq!(d.pos, (1, 1));
    assert!(d.blocks.iter().all(|b| *b == Block::Air));
}

#[test]
fn arena_links_neighbours_by_grid_position() {
    let w = UpdateChunks::new_air_with_size((3, 2));
    assert_eq!(w.chunks.len(), 6);
    let c = &w.chunks[4];
    assert_eq!(c.pos, (1, 1));
    assert_eq!(c.left_chunk, Some(3));
    assert_eq!(c.right_chunk, Some(5));
    assert_eq!(c.backward_chunk, Some(1));
    assert_eq!(c.forward_chunk, None);
    assert_eq!(c.translation, Some((32, 0, 32)));
    assert_eq!(w.chunks[0].left_chunk, None);
    assert_eq!(w.get_chunk_entity(2, 1), 5);
    assert!(w.get_chunk(3, 0).is_none());
    assert_eq!(w.get_chunk(2, 1).unwrap().pos, (2, 1));
    assert_eq!(get_chunk_entity(-1, 0, (3, 2), 6), None);
    assert_eq!(get_chunk_entity(1, 1, (3, 2), 6), Some(4));
    assert_eq!(get_chunk_entity(1, 1, (3, 2), 4), None);
}

#[test]
fn get_around_crosses_into_neighbours() {
    let mut w = UpdateChunks::new_air_with_size((2, 2));
    w.chunks[0].blocks[idx(CHUNK_W - 1, 4, 5)] = stone();
    w.chunks[2].blocks[idx(6, 4, 0)] = stone();
    assert_eq!(w.get_around(1, -1, 4, 5), stone());
    assert_eq!(w.get_around(0, CHUNK_W as i32, 4, 5), Block::Air);
    assert_eq!(w.get_around(0, 6, 4, CHUNK_D as i32), stone());
    assert_eq!(w.get_around(0, -1, 4, 5), Block::Air);
    assert_eq!(w.get_around(0, 0, -1, 0), Block::Air);
    assert_eq!(w.get_around(0, 0, CHUNK_H as i32, 0), Block::Air);
    assert_eq!(w.get_around(3, -1, 4, -1), Block::Air);
}

#[test]
fn world_coordinates_map_to_chunk_and_local_voxel() {
    let mut w = UpdateChunks::new_air_with_size((2, 2));
    w.set(17, 3, 18, stone());
    assert_eq!(w.chunks[3].blocks[idx(1, 3, 2)], stone());
    assert_eq!(w.get(17, 3, 18), Some(stone()));
    assert_eq!(w.get(32, 0, 0), None);
    assert_eq!(w.get(-1, 0, 0), None);
    w.set(-1, 0, 0, stone());
    assert_eq!(w.get(0, 0, 0), Some(Block::Air));
}

#[test]
fn edit_on_a_side_marks_the_neighbour_dirty() {
    let mut w = UpdateChunks::new_air_with_size((2, 1));
    let cat = BlockStorage::new();
    make_meshes(&mut w, &cat);
    assert!(w.chunks.iter().all(|c| c.is_generated_mesh));
    w.set_in_chunk(1, 0, 5, 5, stone());
    assert!(!w.chunks[1].is_generated_mesh);
    assert!(!w.chunks[0].is_generated_mesh);
}

#[test]
fn interior_edit_marks_only_its_chunk() {
    let mut w = UpdateChunks::new_air_with_size((3, 3));
    let cat = BlockStorage::new();
    make_meshes(&mut w, &cat);
    w.set_in_chunk(4, 5, 5, 5, stone());
    for (i, c) in w.chunks.iter().enumerate() {
        assert_eq!(c.is_generated_mesh, i != 4);
    }
}

#[test]
fn edit_on_a_corner_marks_both_neighbours() {
    let mut w = UpdateChunks::new_air_with_size((3, 3));
    let cat = BlockStorage::new();
    make_meshes(&mut w, &cat);
    w.set_in_chunk(4, 0, 0, 0, stone());
    let dirty: Vec<usize> = (0..9).filter(|i| !w.chunks[*i].is_generated_mesh).collect();
    assert_eq!(dirty, vec![1, 3, 4]);
}

#[test]
fn lone_voxel_has_six_faces() {
    let mut w = UpdateChunks::new_air_with_size((1, 1));
    let cat = BlockStorage::new();
    w.chunks[0].blocks[idx(5, 5, 5)] = stone();
    let (m, t) = create_chunk_mesh(&w, 0, &cat);
    assert_eq!(faces(&m), 6);
    assert_eq!(m.indices.len(), 36);
    assert_eq!(m.uvs.len(), 24);
    assert_eq!(t, (0, 0, 0));
    assert_eq!(m.positions[0..4], [(9, 9, 9), (9, 9, 11), (9, 11, 11), (9, 11, 9)]);
    assert_eq!(m.indices[0..6], [0, 1, 3, 1, 2, 3]);
    assert_eq!(m.indices[6..12], [4, 7, 5, 5, 7, 6]);
}

#[test]
fn buried_chunk_shows_only_top_and_bottom_layers() {
    let mut w = UpdateChunks::new_air_with_size((3, 3));
    let cat = BlockStorage::new();
    for s in 0..9 {
        fill(&mut w, s);
    }
    let (m, _) = create_chunk_mesh(&w, 4, &cat);
    assert_eq!(faces(&m), 2 * CHUNK_W * CHUNK_D);
    let v = visible_faces(&w, 4);
    assert!(v.left.iter().all(|b| !b));
    assert!(v.forward.iter().all(|b| !b));
    assert!(v.top[idx(3, CHUNK_H - 1, 3)]);
    assert!(!v.top[idx(3, CHUNK_H - 2, 3)]);
    assert!(v.bottom[idx(3, 0, 3)]);
}

#[test]
fn stacked_voxels_hide_the_faces_between_them() {
    let mut w = UpdateChunks::new_air_with_size((1, 1));
    let cat = BlockStorage::new();
    w.chunks[0].blocks[idx(2, 3, 2)] = stone();
    w.chunks[0].blocks[idx(2, 4, 2)] = stone();
    let v = visible_faces(&w, 0);
    assert!(!v.top[idx(2, 3, 2)]);
    assert!(v.bottom[idx(2, 3, 2)]);
    assert!(!v.bottom[idx(2, 4, 2)]);
    assert!(v.top[idx(2, 4, 2)]);
    let (m, _) = create_chunk_mesh(&w, 0, &cat);
    assert_eq!(faces(&m), 10);
}

#[test]
fn top_layer_voxel_shows_its_top_face() {
    let mut w = UpdateChunks::new_air_with_size((1, 1));
    w.chunks[0].blocks[idx(0, CHUNK_H - 1, 0)] = stone();
    let v = visible_faces(&w, 0);
    assert!(v.top[idx(0, CHUNK_H - 1, 0)]);
    assert!(v.bottom[idx(0, CHUNK_H - 1, 0)]);
    assert!(!v.top[idx(0, 0, 0)]);
}

#[test]
fn boundary_face_shows_until_a_solid_neighbour_is_attached() {
    let mut w = UpdateChunks::new_air_with_size((2, 1));
    let cat = BlockStorage::new();
    w.chunks[1].blocks[idx(0, 5, 5)] = stone();
    assert!(visible_faces(&w, 1).left[idx(0, 5, 5)]);
    assert_eq!(faces(&create_chunk_mesh(&w, 1, &cat).0), 6);
    w.set_in_chunk(0, CHUNK_W - 1, 5, 5, stone());
    assert!(!visible_faces(&w, 1).left[idx(0, 5, 5)]);
    assert_eq!(faces(&create_chunk_mesh(&w, 1, &cat).0), 5);
    let mut lone = UpdateChunks::new_air_with_size((1, 1));
    lone.chunks[0].blocks[idx(0, 5, 5)] = stone();
    assert!(visible_faces(&lone, 0).left[idx(0, 5, 5)]);
}

#[test]
fn bitmask_mesh_matches_per_voxel_meshes() {
    let mut w = UpdateChunks::new_air_with_size((2, 2));
    let cat = BlockStorage::new();
    for i in 0..CHUNK_VOLUME {
        if (i * 7919) % 5 < 2 {
            w.chunks[0].blocks[i] = stone();
        }
        if (i * 104729) % 3 == 0 {
            w.chunks[1].blocks[i] = Block::Solid(BlockId(9));
        }
    }
    let (m, _) = create_chunk_mesh(&w, 0, &cat);
    let mut expected = void_mesh();
    for y in 0..CHUNK_H {
        for z in 0..CHUNK_D {
            for x in 0..CHUNK_W {
                let part = generate_sides_mesh(&w, 0, x as i32, y as i32, z as i32, &cat);
                expected.merge(&part);
            }
        }
    }
    assert_eq!(m.positions, expected.positions);
    assert_eq!(m.uvs, expected.uvs);
    assert_eq!(m.indices, expected.indices);
}

#[test]
fn make_meshes_rebuilds_only_dirty_chunks() {
    let mut w = UpdateChunks::new_air_with_size((2, 2));
    let cat = BlockStorage::new();
    let first = make_meshes(&mut w, &cat);
    assert_eq!(first.iter().map(|e| e.0).collect::<Vec<_>>(), vec![0, 1, 2, 3]);
    assert!(make_meshes(&mut w, &cat).is_empty());
    w.set_in_chunk(3, 5, 5, 5, stone());
    let again = make_meshes(&mut w, &cat);
    assert_eq!(again.len(), 1);
    assert_eq!(again[0].0, 3);
    assert_eq!(faces(&again[0].1), 6);
    assert_eq!(again[0].2, (32, 0, 32));
}

#[test]
fn catalog_starts_with_unknown_as_id_one() {
    let cat = create_blocks_storage();
    assert_eq!(cat.get_id_by_name(&"unknown".to_string()), Some(BlockId(1)));
    assert_eq!(cat.last_id, BlockId(2));
    assert!(cat.get(BlockId(1)).is_some());
    assert!(cat.get(BlockId(0)).is_none());
    assert!(cat.get(BlockId(2)).is_none());
    assert_eq!(cat.get_id_by_name(&"grass".to_string()), None);
}

#[test]
fn get_or_default_falls_back_to_unknown() {
    let mut cat = BlockStorage::new();
    cat.add("grass".to_string(), named("grass"));
    let unknown = cat.get_or_default(BlockId(1));
    let missing = cat.get_or_default(BlockId(99));
    assert_eq!(missing.sides.top.0.positions, unknown.sides.top.0.positions);
    assert_eq!(missing.sides.top.0.uvs, unknown.sides.top.0.uvs);
    assert_eq!(cat.get_id_by_name(&"grass".to_string()), Some(BlockId(2)));
    assert!(cat.get_or_default(BlockId(2)).sides.left.0.positions.len() == 4);
}

#[test]
fn registering_a_name_again_rebinds_it() {
    let mut cat = BlockStorage::new();
    cat.add("grass".to_string(), named("grass"));
    cat.add("grass".to_string(), named("dirt"));
    assert_eq!(cat.get_id_by_name(&"grass".to_string()), Some(BlockId(3)));
    assert!(cat.get(BlockId(2)).is_some());
}

#[test]
fn texture_lookup_falls_back_to_slot_zero() {
    let imgs = BlockImageStorage::empty();
    let r = imgs.get_texture_rect(&"nothing".to_string());
    assert_eq!(r, Rect { min_x: 0, min_y: 0, max_x: 16, max_y: 16 });
    let mut bad = BlockImageStorage::empty();
    bad.binds.push(("far".to_string(), 9));
    assert_eq!(bad.get_texture_rect(&"far".to_string()), r);
}

fn new_atlas() -> BlockImageStorage {
    BlockImageStorage {
        texture_size: (32, 16),
        rects: vec![
            Rect { min_x: 0, min_y: 0, max_x: 16, max_y: 16 },
            Rect { min_x: 16, min_y: 0, max_x: 32, max_y: 16 },
        ],
        binds: vec![("grass".to_string(), 0), ("dirt".to_string(), 1)],
    }
}

#[test]
fn atlas_merge_moves_rectangles_and_rebinds_names() {
    let mut imgs = BlockImageStorage::empty();
    imgs.merge(&new_atlas(), (0, 0), (16, 0), (48, 16));
    assert_eq!(imgs.texture_size, (48, 16));
    assert_eq!(imgs.rects.len(), 3);
    assert_eq!(imgs.rects[2], Rect { min_x: 32, min_y: 0, max_x: 48, max_y: 16 });
    assert_eq!(
        imgs.get_texture_rect(&"dirt".to_string()),
        Rect { min_x: 32, min_y: 0, max_x: 48, max_y: 16 }
    );
    assert_eq!(
        imgs.get_texture_rect(&"unknown".to_string()),
        Rect { min_x: 0, min_y: 0, max_x: 16, max_y: 16 }
    );
}

#[test]
fn add_block_types_remeshes_and_registers_in_order() {
    let mut cat = BlockStorage::new();
    cat.add("grass".to_string(), named("grass"));
    let before = cat.get(BlockId(2)).unwrap().sides.left.0.uvs.clone();
    assert_eq!(before, vec![(16, 16), (0, 16), (0, 0), (16, 0)]);
    cat.add_block_types(
        &new_atlas(),
        (0, 0),
        (16, 0),
        (48, 16),
        vec![("stone".to_string(), named("dirt")), ("sand".to_string(), named("sand"))],
    );
    let after = &cat.get(BlockId(2)).unwrap().sides.left.0.uvs;
    assert_eq!(*after, vec![(32, 16), (16, 16), (16, 0), (32, 0)]);
    assert_eq!(cat.get_id_by_name(&"stone".to_string()), Some(BlockId(3)));
    assert_eq!(cat.get_id_by_name(&"sand".to_string()), Some(BlockId(4)));
    assert_eq!(cat.get(BlockId(3)).unwrap().sides.back.0.uvs[0], (48, 16));
    assert_eq!(cat.last_id, BlockId(5));
}

#[test]
fn square_mesh_matches_the_face_table() {
    let r = Rect { min_x: 1, min_y: 2, max_x: 3, max_y: 4 };
    let top = square_mesh(Side::Top, r);
    assert_eq!(top.positions, vec![(-1, 1, -1), (1, 1, -1), (1, 1, 1), (-1, 1, 1)]);
    assert_eq!(top.indices, vec![0, 3, 1, 1, 3, 2]);
    assert_eq!(top.uvs, vec![(3, 4), (1, 4), (1, 2), (3, 2)]);
    let fwd = square_mesh(Side::Forward, r);
    assert_eq!(fwd.positions, vec![(-1, -1, -1), (-1, 1, -1), (1, 1, -1), (1, -1, -1)]);
    assert_eq!(fwd.uvs, vec![(3, 4), (3, 2), (1, 2), (1, 4)]);
    assert_eq!(fwd.indices, vec![0, 1, 3, 1, 2, 3]);
    let cube = create_cube_mesh(r);
    assert_eq!(cube.positions.len(), 24);
    assert_eq!(cube.indices[6..12], [4, 5, 7, 5, 6, 7]);
}

#[test]
fn merge_offsets_indices_and_merge_mesh_moves_each_mesh() {
    let r = Rect { min_x: 0, min_y: 0, max_x: 1, max_y: 1 };
    let mut m = square_mesh(Side::Back, r);
    m.merge(&square_mesh(Side::Back, r));
    assert_eq!(m.indices[6..12], [4, 7, 5, 5, 7, 6]);
    let mut moved = square_mesh(Side::Back, r);
    moved.translate_by((2, 0, 0));
    assert_eq!(moved.positions[0], (1, -1, 1));
    let mut all = void_mesh();
    merge_mesh(&mut all, &vec![square_mesh(Side::Back, r), square_mesh(Side::Back, r)], (2, 0, 0));
    assert_eq!(all.positions[0], (-1, -1, 1));
    assert_eq!(all.positions[4], (1, -1, 1));
    assert_eq!(all.indices.len(), 12);
}

#[test]
fn generator_lays_ground_by_row() {
    let mut cat = BlockStorage::new();
    let g = generate((0, 3), &cat);
    assert_eq!(g[idx(0, 3, 0)], Block::Solid(BlockId(1)));
    assert_eq!(g[idx(15, 4, 15)], Block::Air);
    cat.add("grass".to_string(), named("grass"));
    let g2 = generate((7, 8), &cat);
    assert_eq!(g2[idx(4, 3, 4)], Block::Solid(BlockId(2)));
    assert_eq!(g2[idx(4, 4, 4)], Block::Air);
    assert!(generate((0, -7), &cat).iter().all(|b| *b == Block::Air));
    assert_eq!(generate((0, 0), &cat), generate((0, 0), &cat));
}

#[test]
fn store_generates_once_then_answers_from_archive() {
    let mut store = ChunksStorage::new();
    let mut cat = BlockStorage::new();
    let first = store.get((1, 2), &cat);
    assert!(store.chunks.contains_key(&pos_key_of((1, 2))));
    cat.add("grass".to_string(), named("grass"));
    let second = store.get((1, 2), &cat);
    assert_eq!(first, second);
    assert_eq!(second[idx(0, 2, 0)], Block::Solid(BlockId(1)));
    assert_eq!(store.chunks.len(), 1);
    assert_ne!(pos_key_of((1, 2)), pos_key_of((2, 1)));
}

#[test]
fn load_pipeline_orders_slots_ring_by_ring() {
    let mut loaded = LoadedChunksInPipeline { chunks: Vec::new() };
    let mut pl = LoadChunksPipeLine { pipeline: Vec::new(), speed: 1 };
    create_load_pipeline(&mut loaded, &mut pl, (5, 5));
    assert_eq!(pl.pipeline.len(), 25);
    assert_eq!(pl.pipeline[0], (2, 2));
    assert_eq!(
        pl.pipeline[1..9],
        [(1, 1), (1, 2), (1, 3), (2, 1), (2, 3), (3, 1), (3, 2), (3, 3)]
    );
    assert_eq!(pl.pipeline[9], (0, 0));
    assert!(loaded.chunks.iter().all(|row| row.iter().all(|b| *b)));
    create_load_pipeline(&mut loaded, &mut pl, (5, 5));
    assert_eq!(pl.pipeline.len(), 25);
}

#[test]
fn single_slot_window_is_queued_once() {
    let mut loaded = LoadedChunksInPipeline { chunks: Vec::new() };
    let mut pl = LoadChunksPipeLine { pipeline: Vec::new(), speed: 3 };
    create_load_pipeline(&mut loaded, &mut pl, (1, 1));
    create_load_pipeline(&mut loaded, &mut pl, (1, 1));
    assert_eq!(pl.pipeline, vec![(0, 0)]);
}

#[test]
fn pipeline_takes_speed_plus_one_per_tick() {
    let mut loaded = LoadedChunksInPipeline { chunks: Vec::new() };
    let mut pl = LoadChunksPipeLine { pipeline: Vec::new(), speed: 1 };
    let mut w = UpdateChunks::new_air_with_size((5, 5));
    let mut store = ChunksStorage::new();
    let cat = BlockStorage::new();
    make_meshes(&mut w, &cat);
    create_load_pipeline(&mut loaded, &mut pl, (5, 5));
    load(&mut pl, &mut w, &mut store, &cat);
    assert_eq!(pl.pipeline.len(), 23);
    assert_eq!(store.chunks.len(), 2);
    let centre = &w.chunks[12];
    assert_eq!(centre.blocks[idx(0, 2, 0)], Block::Solid(BlockId(1)));
    assert_eq!(centre.blocks[idx(0, 3, 0)], Block::Air);
    assert!(!centre.is_generated_mesh);
    assert!(!w.chunks[7].is_generated_mesh);
    assert!(w.chunks[0].is_generated_mesh);
    let mut ticks = 1;
    while !pl.pipeline.is_empty() {
        load(&mut pl, &mut w, &mut store, &cat);
        ticks += 1;
    }
    assert_eq!(ticks, 13);
    assert_eq!(store.chunks.len(), 25);
}

#[test]
fn pipeline_at_speed_zero_takes_one_per_tick() {
    let mut pl = LoadChunksPipeLine { pipeline: vec![(0, 0), (1, 0), (0, 1)], speed: 0 };
    let mut w = UpdateChunks::new_air_with_size((2, 2));
    let mut store = ChunksStorage::new();
    let cat = BlockStorage::new();
    load(&mut pl, &mut w, &mut store, &cat);
    assert_eq!(pl.pipeline, vec![(1, 0), (0, 1)]);
    let mut one = LoadChunksPipeLine { pipeline: vec![(1, 1)], speed: 5 };
    load(&mut one, &mut w, &mut store, &cat);
    assert!(one.pipeline.is_empty());
    assert_eq!(store.chunks.len(), 2);
}

#[test]
fn settings_and_states() {
    assert_eq!(rustcraft::settings::load().lang.lang, "ru_RU");
    assert_eq!(GameState::default(), GameState::PreLoad);
    assert!(OSType::Android.is_mobile());
    assert!(OSType::Ios.is_mobile());
    assert!(!OSType::Linux.is_mobile());
}

#[test]
fn digit_keys_select_block_types() {
    let mut sel = SelectedBlock::new();
    assert_eq!(sel.0, "grass");
    sel.select(2);
    assert_eq!(sel.0, "dirt");
    sel.select(3);
    assert_eq!(sel.0, "cobblestone");
    sel.select(9);
    assert_eq!(sel.0, "cobblestone");
    sel.select(1);
    assert_eq!(sel.0, "grass");
    let mut cat = BlockStorage::new();
    assert_eq!(sel.block_id(&cat), BlockId(1));
    cat.add("grass".to_string(), named("grass"));
    assert_eq!(sel.block_id(&cat), BlockId(2));
}

#[test]
fn ray_picks_first_solid_cell_and_edits_around_it() {
    let mut c = Chunk::new_air((0, 0));
    c.set(3, 0, 0, stone());
    let cells = vec![(0, 0, 0), (1, 0, 0), (2, 0, 0), (3, 0, 0), (4, 0, 0)];
    let (hit, prev) = pick_block(&c, &cells).unwrap();
    assert_eq!((hit, prev), ((3, 0, 0), (2, 0, 0)));
    assert!(pick_block(&c, &vec![(0, 1, 0), (-1, 0, 0)]).is_none());
    c.set_as_generated();
    player_edit(&mut c, hit, prev, true, false, BlockId(5));
    assert_eq!(c.get(2, 0, 0), Some(Block::Solid(BlockId(5))));
    assert!(!c.is_generated_mesh());
    player_edit(&mut c, hit, prev, false, true, BlockId(5));
    assert_eq!(c.get(3, 0, 0), Some(Block::Air));
    c.set_as_generated();
    player_edit(&mut c, hit, hit, true, false, BlockId(5));
    assert!(c.is_generated_mesh());
}

#[test]
fn bit_helpers_set_and_read_single_bits() {
    let mut m: u32 = 0;
    rustcraft::mesher::set_bit_u32(&mut m, 17, true);
    rustcraft::mesher::set_bit_u32(&mut m, 3, false);
    assert_eq!(m, 1 << 17);
    assert!(rustcraft::mesher::get_bit_u32(m, 17));
    assert!(!rustcraft::mesher::get_bit_u32(m, 3));
}

#[test]
fn spawned_window_is_five_by_five_air() {
    let w = rustcraft::world::spawn_chunks();
    assert_eq!(w.size, (5, 5));
    assert_eq!(w.chunks.len(), 25);
    assert!(w.chunks.iter().all(|c| c.blocks.iter().all(|b| *b == Block::Air)));
}

#[test]
fn merge_attrs_moves_then_appends() {
    let r = Rect { min_x: 0, min_y: 0, max_x: 1, max_y: 1 };
    let mut base = square_mesh(Side::Left, r);
    let mut other = square_mesh(Side::Left, r);
    rustcraft::mesh::merge_attrs((0, 4, 0), &mut other, &mut base);
    assert_eq!(other.positions[0], (-1, 3, -1));
    assert_eq!(base.positions.len(), 8);
    assert_eq!(base.positions[4], (-1, 3, -1));
    assert_eq!(base.indices[6], 4);
}
