use heightmap_generator::error::GenerationError;
use heightmap_generator::mesh::{mesh_model_path, model_file_name_of, MeshAssembly};

#[test]
fn model_file_name_strips_slashes_and_extension() {
    assert_eq!(model_file_name_of("/Game/Meshes/Rock.Rock"), "Game/Meshes/Rock.uemodel");
    assert_eq!(model_file_name_of("//a/b"), "a/b.uemodel");
    assert_eq!(model_file_name_of("x.y.z"), "x.uemodel");
    assert_eq!(model_file_name_of("/"), ".uemodel");
    assert_eq!(model_file_name_of("dir/ä.b"), "dir/ä.uemodel");
}

#[test]
fn missing_mesh_path_is_an_error() {
    match mesh_model_path(&None) {
        Err(GenerationError::MeshPathMalformed(m)) => assert_eq!(m, "Mesh path was None"),
        _ => panic!("expected an error"),
    }
}

#[test]
fn empty_mesh_path_is_skipped() {
    assert!(matches!(mesh_model_path(&Some(String::new())), Ok(None)));
}

#[test]
fn mesh_path_gives_model_file() {
    match mesh_model_path(&Some("/Game/Tree.Tree".to_string())) {
        Ok(Some(f)) => assert_eq!(f, "Game/Tree.uemodel"),
        _ => panic!("expected a model file"),
    }
}

#[test]
fn faces_are_shifted_by_earlier_vertices() {
    let mut a = MeshAssembly::new();
    a.add_mesh(0, 3, &vec![[0, 1, 2]]);
    a.add_mesh(2, 4, &vec![[0, 1, 2], [1, 2, 3]]);
    assert_eq!(a.vertex_total(), 7);
    match a.finish() {
        Ok((faces, owners)) => {
            assert_eq!(faces, vec![[0, 1, 2], [3, 4, 5], [4, 5, 6]]);
            assert_eq!(owners, vec![0, 2, 2]);
        }
        Err(_) => panic!("expected faces"),
    }
}

#[test]
fn empty_scene_is_an_error() {
    let a = MeshAssembly::new();
    assert!(matches!(a.finish(), Err(GenerationError::LoadMeshError)));
}

#[test]
fn vertices_without_faces_is_an_error() {
    let mut a = MeshAssembly::new();
    a.add_mesh(0, 5, &Vec::new());
    assert!(matches!(a.finish(), Err(GenerationError::LoadMeshError)));
}

#[test]
fn faces_without_vertices_is_an_error() {
    let mut a = MeshAssembly::new();
    a.add_mesh(0, 0, &vec![[0, 0, 0]]);
    assert!(matches!(a.finish(), Err(GenerationError::LoadMeshError)));
}
