use minecraft::chunks::{Modification, WorldMap, REMESH_MARKER};
use minecraft::saves::{edits_for_save, generate_new_save_file_name, map_from_save, save_base_name, sort_saves, SaveMetadata};
use minecraft::types::{BlockType, ChunkPos};

fn meta(file: &str, world: &str) -> SaveMetadata {
    SaveMetadata { file_name: file.to_string(), world_name: world.to_string() }
}

#[test]
fn new_save_names_take_the_first_free_number() {
    assert_eq!(generate_new_save_file_name(&vec![]), "world1");
    assert_eq!(generate_new_save_file_name(&vec![meta("world1", "a"), meta("world2", "b")]), "world3");
    assert_eq!(generate_new_save_file_name(&vec![meta("world2", "a"), meta("other", "b")]), "world1");
    let many: Vec<SaveMetadata> = (1..=12).map(|i| meta(&format!("world{}", i), "x")).collect();
    assert_eq!(generate_new_save_file_name(&many), "world13");
}

#[test]
fn save_file_names_lose_their_extension() {
    assert_eq!(save_base_name("world1.json"), Some("world1".to_string()));
    assert_eq!(save_base_name(".json"), Some("".to_string()));
    assert_eq!(save_base_name("notes.txt"), None);
    assert_eq!(save_base_name("json"), None);
    assert_eq!(save_base_name("été.json"), Some("été".to_string()));
}

#[test]
fn saves_sort_by_length_then_name() {
    let mut saves = vec![meta("world10", "a"), meta("world2", "b"), meta("world1", "c"), meta("b", "d"), meta("world2", "e")];
    sort_saves(&mut saves);
    let names: Vec<(&str, &str)> = saves.iter().map(|s| (s.file_name.as_str(), s.world_name.as_str())).collect();
    assert_eq!(names, vec![("b", "d"), ("world1", "c"), ("world2", "b"), ("world2", "e"), ("world10", "a")]);
}

#[test]
fn saved_edits_load_back() {
    let mut map = WorldMap::new(42, "Home".to_string(), "world1".to_string());
    let a = ChunkPos { x: -1, y: 2 };
    let b = ChunkPos { x: 5, y: 5 };
    map.record(a, Modification { index: 3, new: BlockType::Stone });
    map.record(a, Modification { index: 4, new: BlockType::Air });
    map.record(b, Modification { index: REMESH_MARKER, new: BlockType::Air });
    let entries = edits_for_save(&map);
    assert_eq!(entries.len(), 2);
    let back = map_from_save(42, "Home".to_string(), "world1".to_string(), entries);
    assert_eq!(back.seed, 42);
    assert_eq!(back.world_name, "Home");
    assert_eq!(back.modifications_for(a), map.modifications_for(a));
    assert_eq!(back.modifications_for(b), map.modifications_for(b));
}

#[test]
fn later_save_entries_replace_earlier_ones() {
    let pos = ChunkPos { x: 0, y: 0 };
    let entries = vec![(pos, vec![(1usize, BlockType::Sand)]), (pos, vec![(2usize, BlockType::Clay)])];
    let map = map_from_save(1, String::new(), String::new(), entries);
    assert_eq!(map.modifications_for(pos), vec![Modification { index: 2, new: BlockType::Clay }]);
}
