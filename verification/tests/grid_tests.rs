use std::collections::BTreeMap;

use ski_grid::grid::{cell_offsets, GeneratedCell, Grid, TREE_STRUCTURE_ID};
use ski_grid::hex::Hex;
use ski_grid::object::{LiftInstance, ObjectInstance, StructureInstance, Surface};

fn empty_grid() -> Grid {
    Grid::new(0, 0, &Vec::new())
}

fn structure(id: u32, x: i32, y: i32) -> ObjectInstance {
    ObjectInstance::Structure(StructureInstance::new(id, Hex::new(x, y)))
}

#[test]
fn neighbors_follow_edge_direction_order() {
    let n = Hex::new(10, 5).all_neighbors();
    let expected = [(11, 5), (10, 6), (9, 6), (9, 5), (10, 4), (11, 4)];
    for i in 0..6 {
        assert_eq!((n[i].x, n[i].y), expected[i]);
    }
}

#[test]
fn push_object_numbers_from_zero() {
    let mut grid = empty_grid();
    assert_eq!(grid.push_object(structure(1, 0, 0)), 0);
    assert_eq!(grid.push_object(structure(1, 1, 0)), 1);
    assert_eq!(grid.push_object(structure(2, 1, 0)), 2);
    assert_eq!(grid.objects.len(), 3);
}

#[test]
fn push_object_follows_largest_id() {
    let mut grid = empty_grid();
    grid.objects.insert(5, structure(1, 0, 0));
    grid.objects.insert(2, structure(1, 0, 1));
    assert_eq!(grid.push_object(structure(3, 4, 4)), 6);
    match grid.objects.get(&6) {
        Some(ObjectInstance::Structure(s)) => assert_eq!((s.structure_id, s.pos), (3, Hex::new(4, 4))),
        _ => panic!("object 6 missing"),
    }
    assert_eq!(grid.objects.len(), 3);
}

#[test]
fn cell_objects_lists_structures_on_cell_in_id_order() {
    let mut grid = empty_grid();
    grid.push_object(structure(1, 2, 3));
    grid.push_object(structure(1, 0, 0));
    grid.push_object(ObjectInstance::Lift(LiftInstance { nodes: vec![Hex::new(2, 3)] }));
    grid.push_object(structure(4, 2, 3));
    assert_eq!(grid.get_cell_objects(Hex::new(2, 3)), Some(vec![0, 3]));
    assert_eq!(grid.get_cell_objects(Hex::new(0, 0)), Some(vec![1]));
}

#[test]
fn cell_objects_none_when_nothing_stands_there() {
    let mut grid = empty_grid();
    assert_eq!(grid.get_cell_objects(Hex::new(0, 0)), None);
    grid.push_object(ObjectInstance::Lift(LiftInstance { nodes: vec![Hex::new(0, 0)] }));
    grid.push_object(structure(1, 1, 1));
    assert_eq!(grid.get_cell_objects(Hex::new(0, 0)), None);
}

#[test]
fn offsets_add_a_row_to_odd_columns() {
    let offsets = cell_offsets(3, 2);
    assert_eq!(offsets, vec![(0, 0), (0, 1), (1, 0), (1, 1), (1, 2), (2, 0), (2, 1)]);
    assert_eq!(cell_offsets(4, 5).len(), 4 * 5 + 2);
    assert_eq!(cell_offsets(0, 7).len(), 0);
    let mut sorted = cell_offsets(5, 4);
    sorted.sort();
    sorted.dedup();
    assert_eq!(sorted.len(), 5 * 4 + 2);
}

#[test]
fn new_grid_records_terrain_and_plants_trees_on_dry_land() {
    let cells = vec![
        GeneratedCell { pos: Hex::new(0, 0), height: 4, below_water: false, tree: true },
        GeneratedCell { pos: Hex::new(0, 1), height: 0, below_water: true, tree: true },
        GeneratedCell { pos: Hex::new(1, 0), height: 7, below_water: false, tree: false },
        GeneratedCell { pos: Hex::new(1, 1), height: 9, below_water: false, tree: true },
    ];
    let grid = Grid::new(2, 2, &cells);
    assert_eq!((grid.width, grid.length), (2, 2));
    let heights: Vec<((i32, i32), u16)> = grid.heights.iter().map(|(k, v)| (*k, *v)).collect();
    assert_eq!(heights, vec![((0, 0), 4), ((0, 1), 0), ((1, 0), 7), ((1, 1), 9)]);
    let surface_keys: Vec<(i32, i32)> = grid.surfaces.keys().copied().collect();
    let height_keys: Vec<(i32, i32)> = grid.heights.keys().copied().collect();
    assert_eq!(surface_keys, height_keys);
    assert_eq!(grid.surfaces.get(&(0, 1)), Some(&Surface::Water));
    assert_eq!(grid.surfaces.get(&(1, 0)), Some(&Surface::Normal));
    assert_eq!(grid.objects.len(), 2);
    assert_eq!(grid.get_cell_objects(Hex::new(0, 0)), Some(vec![0]));
    assert_eq!(grid.get_cell_objects(Hex::new(1, 1)), Some(vec![1]));
    assert_eq!(grid.get_cell_objects(Hex::new(0, 1)), None);
    match grid.objects.get(&1) {
        Some(ObjectInstance::Structure(s)) => assert_eq!(s.structure_id, TREE_STRUCTURE_ID),
        _ => panic!("tree 1 missing"),
    }
}

#[test]
fn cell_lookups() {
    let mut heights = BTreeMap::new();
    heights.insert((3, -2), 12u16);
    let grid = Grid { heights, surfaces: BTreeMap::new(), objects: BTreeMap::new(), width: 1, length: 1 };
    assert_eq!(grid.cell_height(Hex::new(3, -2)), Some(12));
    assert_eq!(grid.cell_height(Hex::new(0, 0)), None);
    assert_eq!(grid.cell_surface(Hex::new(3, -2)), None);
}
