use std::collections::BTreeMap;

use ski_grid::hex::Hex;
use ski_grid::hex_mesh::{
    cell_smooth_corners, cell_triangle_corners, fuzzy_triangles, smooth_layout, triangle_fan, SmoothVertex,
};

fn samples(v: &[ski_grid::hex_mesh::CornerSample]) -> Vec<(u8, u32, u32)> {
    v.iter().map(|s| (s.slot, s.height_sum, s.height_count)).collect()
}

#[test]
fn fan_joins_center_with_ring_pairs() {
    assert_eq!(triangle_fan(0, &vec![1, 2, 3]), vec![0, 2, 1, 0, 3, 2, 0, 1, 3]);
    assert!(triangle_fan(9, &Vec::<i32>::new()).is_empty());
}

#[test]
fn fuzzy_triangles_match_single_hexagon_indices() {
    assert_eq!(fuzzy_triangles(1), vec![0, 2, 1, 0, 3, 2, 0, 4, 3, 0, 5, 4, 0, 6, 5, 0, 1, 6]);
    let two = fuzzy_triangles(2);
    assert_eq!(two.len(), 36);
    assert_eq!(&two[18..21], &[7, 9, 8]);
    assert_eq!(&two[33..36], &[7, 8, 13]);
}

#[test]
fn lone_cell_has_no_triangle_corners() {
    let mut heights = BTreeMap::new();
    heights.insert((0, 0), 3u16);
    assert!(cell_triangle_corners(&heights, Hex::new(0, 0)).is_empty());
    let smooth = cell_smooth_corners(&heights, Hex::new(0, 0));
    assert_eq!(smooth.len(), 12);
    assert_eq!(samples(&smooth[0..2]), vec![(0, 6, 2), (1, 3, 1)]);
}

#[test]
fn triangle_corners_average_existing_neighbors() {
    let mut heights = BTreeMap::new();
    heights.insert((0, 0), 4u16);
    heights.insert((1, 0), 8u16);
    heights.insert((0, 1), 10u16);
    let corners = cell_triangle_corners(&heights, Hex::new(0, 0));
    assert_eq!(
        samples(&corners),
        vec![(0, 12, 2), (1, 22, 3), (2, 14, 2), (3, 14, 2), (11, 12, 2)]
    );
    let smooth = cell_smooth_corners(&heights, Hex::new(0, 0));
    assert_eq!(samples(&smooth[4..6]), vec![(4, 8, 2), (5, 4, 1)]);
}

#[test]
fn smooth_layout_shares_corners_between_cells() {
    let a = [(0, 0, 0), (1, 0, 0), (0, 1, 0), (1, 1, 0), (0, 2, 0), (1, 2, 0)];
    let b = [(0, 2, 0), (1, 2, 0), (0, 3, 0), (1, 3, 0), (0, 4, 0), (0, 0, 0)];
    let layout = smooth_layout(&vec![a, b]).expect("small mesh fits");
    assert_eq!(layout.vertices.len(), 1 + 6 + 1 + 3);
    assert_eq!(layout.vertices[7], SmoothVertex::Center(1));
    assert_eq!(layout.vertices[8], SmoothVertex::Corner(1, 2));
    assert_eq!(&layout.triangles[0..3], &[0, 2, 1]);
    assert_eq!(&layout.triangles[18..21], &[7, 6, 5]);
    assert_eq!(&layout.triangles[33..36], &[7, 5, 1]);
}

#[test]
fn smooth_layout_refuses_more_than_u16_vertices() {
    let cells: Vec<[(u8, i32, i32); 6]> = (0..9362)
        .map(|c| {
            let mut ks = [(0u8, 0i32, 0i32); 6];
            for j in 0..6 {
                ks[j] = (0, c, j as i32);
            }
            ks
        })
        .collect();
    assert!(smooth_layout(&cells).is_some());
    let mut more = cells.clone();
    more.push([(1, 0, 0), (1, 0, 1), (1, 0, 2), (1, 0, 3), (1, 0, 4), (1, 0, 5)]);
    assert!(smooth_layout(&more).is_none());
}
