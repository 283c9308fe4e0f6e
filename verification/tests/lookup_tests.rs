use heightmap_generator::lookup::{generate_mesh_lookup, pixel_rows_text};
use heightmap_generator::text::push_decimal;

#[test]
fn decimal_text() {
    let mut s = String::from("n=");
    push_decimal(&mut s, 0);
    push_decimal(&mut s, 1);
    push_decimal(&mut s, 907);
    assert_eq!(s, "n=01907");
    let mut m = String::new();
    push_decimal(&mut m, usize::MAX);
    assert_eq!(m, usize::MAX.to_string());
}

#[test]
fn lookup_maps_pixels_to_meshes() {
    let faces = vec![0, 2, 1, 2];
    let face_to_mesh = vec![5, 5, 1];
    let lookup = generate_mesh_lookup(&faces, &face_to_mesh, 6).unwrap();
    assert_eq!(lookup.pixel_mesh_ids, vec![5, 1, 5, 1]);
    let mut ids = lookup.mesh_ids.clone();
    ids.sort();
    assert_eq!(ids, vec![1, 5]);
}

#[test]
fn lookup_fails_at_first_unknown_face() {
    let faces = vec![0, 7, usize::MAX];
    let face_to_mesh = vec![0];
    match generate_mesh_lookup(&faces, &face_to_mesh, 1) {
        Err(m) => assert_eq!(m, "Face id 7 out of bounds"),
        Ok(_) => panic!("expected an error"),
    }
}

#[test]
fn uncovered_pixel_is_an_unknown_face() {
    let faces = vec![usize::MAX];
    let face_to_mesh = vec![0];
    match generate_mesh_lookup(&faces, &face_to_mesh, 1) {
        Err(m) => assert_eq!(m, format!("Face id {} out of bounds", usize::MAX)),
        Ok(_) => panic!("expected an error"),
    }
}

#[test]
fn empty_lookup() {
    let lookup = generate_mesh_lookup(&Vec::new(), &Vec::new(), 0).unwrap();
    assert!(lookup.pixel_mesh_ids.is_empty());
    assert!(lookup.mesh_ids.is_empty());
}

#[test]
fn pixel_text_rows() {
    assert_eq!(pixel_rows_text(&vec![1, 2, 3, 40, 5], 2), "1 2\n3 40\n5");
    assert_eq!(pixel_rows_text(&vec![7, 8], 2), "7 8");
    assert_eq!(pixel_rows_text(&vec![7, 8], 1), "7\n8");
    assert_eq!(pixel_rows_text(&Vec::new(), 3), "");
}

#[test]
fn decimal_text_reads_back() {
    for n in [0usize, 5, 10, 99, 100, 12345, usize::MAX] {
        let mut s = String::new();
        push_decimal(&mut s, n);
        assert_eq!(s.parse::<usize>().unwrap(), n);
        assert!(s == "0" || !s.starts_with('0'));
    }
}
