use orbit_engine::managers::resource::topology::{
    circle_line_indices, flatten_triangles, grid_line_indices, icosahedron_indices,
    lat_long_sphere_corners, lat_long_sphere_indices, subdivide_triangles,
};

#[test]
fn grid_of_three_lines() {
    let r = grid_line_indices(3);
    assert_eq!(r, vec![0, 6, 1, 7, 2, 8, 0, 2, 3, 5, 6, 8]);
}

#[test]
fn grid_of_eleven_lines_spans_the_grid() {
    let r = grid_line_indices(11);
    assert_eq!(r.len(), 44);
    assert_eq!(r[1], 110);
    assert_eq!(r[21], 120);
    assert_eq!(r[22], 0);
    assert_eq!(r[43], 120);
}

#[test]
fn circle_closes_the_loop() {
    assert_eq!(circle_line_indices(3), vec![0, 1, 1, 2, 2, 0]);
    let r = circle_line_indices(100);
    assert_eq!(r.len(), 200);
    assert_eq!(r[198], 99);
    assert_eq!(r[199], 0);
}

#[test]
fn smallest_lat_long_sphere() {
    let r = lat_long_sphere_corners(3, 3);
    assert_eq!(r.len(), 6 * 3 * 2);
    // top row: lower triangles only
    assert_eq!(&r[0..3], &[1, 4, 5]);
    assert_eq!(&r[3..6], &[2, 5, 6]);
    // middle row: both triangles
    assert_eq!(&r[9..15], &[4, 8, 5, 5, 8, 9]);
    // bottom row: upper triangles only
    assert_eq!(&r[27..30], &[8, 12, 9]);
    assert!(r.iter().all(|k| *k < 16));
}

#[test]
fn segment_counts_below_three_are_raised() {
    assert_eq!(lat_long_sphere_corners(1, 2), lat_long_sphere_corners(3, 3));
}

#[test]
fn default_sphere_corner_count() {
    let r = lat_long_sphere_corners(32, 32);
    assert_eq!(r.len(), 6 * 32 * 31);
    assert!(r.iter().all(|k| *k < 33 * 33));
}

#[test]
fn sphere_indices_shared_and_unshared() {
    let corners = lat_long_sphere_corners(3, 3);
    let shared = lat_long_sphere_indices(&corners, true);
    assert_eq!(shared, corners.iter().map(|k| *k as u16).collect::<Vec<u16>>());
    let unshared = lat_long_sphere_indices(&corners, false);
    assert_eq!(unshared, (0..36u16).collect::<Vec<u16>>());
}

#[test]
fn icosahedron_has_twenty_faces() {
    let r = icosahedron_indices();
    assert_eq!(r.len(), 60);
    assert_eq!(&r[0..6], &[0, 4, 1, 0, 9, 4]);
    assert!(r.iter().all(|k| *k < 12));
}

#[test]
fn subdividing_one_triangle() {
    let (verts, tris) = subdivide_triangles(&vec![7, 8, 9]);
    assert_eq!(verts, vec![(7, 7), (8, 8), (9, 9), (7, 8), (7, 9), (8, 9)]);
    assert_eq!(tris, vec![0, 3, 4, 3, 1, 5, 3, 5, 4, 4, 5, 2]);
}

#[test]
fn subdividing_quadruples_the_triangles() {
    let ico = icosahedron_indices();
    let (verts, tris) = subdivide_triangles(&ico);
    assert_eq!(verts.len(), 120);
    assert_eq!(tris.len(), 240);
    assert_eq!(tris[12], 6);
    let (verts2, tris2) = subdivide_triangles(&tris);
    assert_eq!(verts2.len(), 480);
    assert_eq!(tris2.len(), 960);
}

#[test]
fn flattening_turns_the_winding() {
    let (sources, tris) = flatten_triangles(&vec![5, 6, 7, 1, 2, 3, 9]);
    assert_eq!(sources, vec![5, 6, 7, 1, 2, 3]);
    assert_eq!(tris, vec![0, 2, 1, 3, 5, 4]);
}
