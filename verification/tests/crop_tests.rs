use heightmap_generator::crop::{crop_window, rotate_crop};

#[test]
fn window_without_trim_is_whole_grid() {
    let w = crop_window(4, 3, 0, 0, 0, 0);
    assert_eq!((w.x0, w.y0, w.width, w.height), (0, 0, 4, 3));
}

#[test]
fn window_trims_each_side() {
    let w = crop_window(10, 8, 2, 3, 1, 4);
    assert_eq!((w.x0, w.y0, w.width, w.height), (2, 1, 5, 3));
}

#[test]
fn window_keeps_at_least_one_pixel() {
    let w = crop_window(4, 4, 3, 3, 4, 0);
    assert_eq!((w.width, w.height), (1, 1));
}

#[test]
fn rotation_of_whole_grid() {
    // grid 3 wide, 2 tall:
    // 0 1 2
    // 3 4 5
    let data = vec![0u8, 1, 2, 3, 4, 5];
    let w = crop_window(3, 2, 0, 0, 0, 0);
    let out = rotate_crop(&data, 3, &w);
    // image is 2 wide (rows of the grid) and 3 tall (columns of the grid)
    assert_eq!(out, vec![5, 2, 4, 1, 3, 0]);
}

#[test]
fn rotation_of_a_window() {
    // grid 4x4 with values 0..16, keep columns 1..3 and rows 1..2
    let data: Vec<u32> = (0..16).collect();
    let w = crop_window(4, 4, 1, 1, 1, 2);
    assert_eq!((w.x0, w.y0, w.width, w.height), (1, 1, 2, 1));
    let out = rotate_crop(&data, 4, &w);
    assert_eq!(out, vec![6, 5]);
}

#[test]
fn rotation_shows_every_kept_cell_once() {
    let data: Vec<u32> = (0..30).collect(); // 6 wide, 5 tall
    let w = crop_window(6, 5, 1, 2, 1, 1);
    let out = rotate_crop(&data, 6, &w);
    assert_eq!(out.len(), (w.width * w.height) as usize);
    let mut expected: Vec<u32> = Vec::new();
    for y in 0..w.height {
        for x in 0..w.width {
            expected.push((w.y0 + y) * 6 + w.x0 + x);
        }
    }
    let mut got = out.clone();
    got.sort();
    expected.sort();
    assert_eq!(got, expected);
    // cell (x, y) of the window sits at row width-1-x, column height-1-y
    let (x, y) = (0u32, 2u32);
    let row = w.width - 1 - x;
    let col = w.height - 1 - y;
    assert_eq!(out[(row * w.height + col) as usize], (w.y0 + y) * 6 + w.x0 + x);
}
