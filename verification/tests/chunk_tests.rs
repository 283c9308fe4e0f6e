use heightmap_generator::chunk::{get_terrain_chunk, identify_meshes, is_terrain_name, select_terrain_chunk, ChunkFile, Export};
use heightmap_generator::error::GenerationError;

fn names(list: &[Option<&str>]) -> Vec<Option<String>> {
    list.iter().map(|n| n.map(|s| s.to_string())).collect()
}

#[test]
fn generated_chunk_names_are_not_terrain() {
    assert!(!is_terrain_name("ABCDEFGHIJKLMNOPQRSTUVWX1"));
    assert!(!is_terrain_name("0123456789012345678901234"));
}

#[test]
fn other_names_are_terrain() {
    assert!(is_terrain_name("Terrain_Chunk.json"));
    assert!(is_terrain_name("abcdefghijklmnopqrstuvwxyz"));
}

#[test]
fn capitals_of_other_length_are_terrain_only_if_not_all_capitals() {
    // 24 capitals: length differs but every char is a capital, so not terrain
    assert!(!is_terrain_name("ABCDEFGHIJKLMNOPQRSTUVWX"));
    assert!(!is_terrain_name(""));
    // 25 bytes but with a lower-case letter: the length rules it out
    assert!(!is_terrain_name("ABCDEFGHIJKLMNOPQRSTUVWXy"));
}

#[test]
fn byte_length_counts_not_chars() {
    // 24 characters, 25 bytes: counts as length 25
    assert!(!is_terrain_name("ABCDEFGHIJKLMNOPQRSTUVWé"));
    // 25 characters, 26 bytes
    assert!(is_terrain_name("ABCDEFGHIJKLMNOPQRSTUVWXé"));
}

#[test]
fn terrain_chunk_is_first_terrain_name() {
    let files = names(&[
        Some("ABCDEFGHIJKLMNOPQRSTUVWX1"),
        None,
        Some("Landscape.json"),
        Some("Other.json"),
    ]);
    assert_eq!(get_terrain_chunk(&files), Some(2));
}

#[test]
fn no_terrain_chunk() {
    let files = names(&[Some("ABCDEFGHIJKLMNOPQRSTUVWX1"), None]);
    assert_eq!(get_terrain_chunk(&files), None);
    assert_eq!(get_terrain_chunk(&Vec::new()), None);
}

#[test]
fn meshes_come_from_first_export_of_each_chunk() {
    let chunks = vec![
        ChunkFile { exports: vec![Export { meshes: vec![1u32, 2] }, Export { meshes: vec![99] }] },
        ChunkFile { exports: vec![] },
        ChunkFile { exports: vec![Export { meshes: vec![3] }] },
    ];
    assert_eq!(identify_meshes(chunks), vec![1, 2, 3]);
}

#[test]
fn no_chunks_no_meshes() {
    let chunks: Vec<ChunkFile<u32>> = Vec::new();
    assert!(identify_meshes(chunks).is_empty());
}

#[test]
fn terrain_required_but_missing_is_an_error() {
    let files = names(&[Some("ABCDEFGHIJKLMNOPQRSTUVWX1")]);
    match select_terrain_chunk(&files, true) {
        Err(GenerationError::ChunkError(m)) => assert_eq!(m, "Couldn't identify terrains chunk"),
        _ => panic!("expected an error"),
    }
    assert!(matches!(select_terrain_chunk(&files, false), Ok(None)));
}

#[test]
fn terrain_found_whether_required_or_not() {
    let files = names(&[Some("ABCDEFGHIJKLMNOPQRSTUVWX1"), Some("Terrain")]);
    assert!(matches!(select_terrain_chunk(&files, true), Ok(Some(1))));
    assert!(matches!(select_terrain_chunk(&files, false), Ok(Some(1))));
}
