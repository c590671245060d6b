use raytracer::grid::transpose;

#[test]
fn transpose_swaps_rows_and_columns() {
    let m = [[1, 2, 3, 4], [5, 6, 7, 8], [9, 10, 11, 12], [13, 14, 15, 16]];
    let t = transpose(&m);
    assert_eq!(t, [[1, 5, 9, 13], [2, 6, 10, 14], [3, 7, 11, 15], [4, 8, 12, 16]]);
    for i in 0..4 {
        for j in 0..4 {
            assert_eq!(t[i][j], m[j][i]);
        }
    }
}

#[test]
fn transposing_twice_gives_the_grid_back() {
    let m = [[0.5f64, -1.0, 2.0, 3.0], [4.0, 5.0, 6.0, 7.0], [8.0, 9.0, 1e9, 11.0], [0.0, 0.0, 0.0, 1.0]];
    assert_eq!(transpose(&transpose(&m)), m);
}

#[test]
fn a_symmetric_grid_is_its_own_transpose() {
    let id = [[1u8, 0, 0, 0], [0, 1, 0, 0], [0, 0, 1, 0], [0, 0, 0, 1]];
    assert_eq!(transpose(&id), id);
}

#[test]
fn the_transpose_of_a_translation_holds_it_in_the_last_row() {
    let m = [[1.0f64, 0.0, 0.0, 2.0], [0.0, 1.0, 0.0, 3.0], [0.0, 0.0, 1.0, 4.0], [0.0, 0.0, 0.0, 1.0]];
    assert_eq!(transpose(&m)[3], [2.0, 3.0, 4.0, 1.0]);
}
