use ski_grid::grid::{GeneratedCell, Grid};
use ski_grid::grid_entity::{
    handle_click, handle_hover_end, handle_hover_start, setup_cells, setup_objects, Cursor, GridEvent,
    PointerButton, Tool,
};
use ski_grid::hex::Hex;
use ski_grid::object::{ObjectInstance, ObjectType, Surface};

fn small_grid() -> Grid {
    let cells = vec![
        GeneratedCell { pos: Hex::new(0, 0), height: 0, below_water: false, tree: false },
        GeneratedCell { pos: Hex::new(0, 1), height: 5, below_water: false, tree: true },
        GeneratedCell { pos: Hex::new(1, 0), height: 1, below_water: true, tree: false },
    ];
    Grid::new(2, 1, &cells)
}

fn cursor(tool: Tool) -> Cursor {
    Cursor { tool, selected_object_type: None, hover_cell: None }
}

fn names(events: &[GridEvent]) -> Vec<&'static str> {
    events
        .iter()
        .map(|e| match e {
            GridEvent::UpdateMeshes => "meshes",
            GridEvent::UpdateMaterials => "materials",
            GridEvent::UpdateStructureHeights => "structure_heights",
            GridEvent::UpdateHoverGizmo => "hover_gizmo",
            GridEvent::UpdateHoverOutline => "hover_outline",
            GridEvent::SetHoverGizmo(_) => "set_gizmo",
            GridEvent::RemoveHoverGizmo(_) => "remove_gizmo",
            GridEvent::SpawnStructure(_, _) => "spawn_structure",
            GridEvent::SpawnLift(_, _) => "spawn_lift",
        })
        .collect()
}

#[test]
fn terrain_raise_then_lower_restores_height() {
    let mut grid = small_grid();
    let c = cursor(Tool::Terrain);
    let pos = Hex::new(0, 1);
    let events = handle_click(&mut grid, &c, pos, PointerButton::Primary);
    assert_eq!(grid.cell_height(pos), Some(6));
    assert_eq!(names(&events), vec!["meshes", "materials", "structure_heights", "hover_gizmo"]);
    let events = handle_click(&mut grid, &c, pos, PointerButton::Secondary);
    assert_eq!(grid.cell_height(pos), Some(5));
    assert_eq!(events.len(), 4);
}

#[test]
fn terrain_lower_then_raise_restores_height() {
    let mut grid = small_grid();
    let c = cursor(Tool::Terrain);
    let pos = Hex::new(1, 0);
    handle_click(&mut grid, &c, pos, PointerButton::Secondary);
    assert_eq!(grid.cell_height(pos), Some(0));
    handle_click(&mut grid, &c, pos, PointerButton::Primary);
    assert_eq!(grid.cell_height(pos), Some(1));
}

#[test]
fn terrain_cannot_lower_below_zero() {
    let mut grid = small_grid();
    let events = handle_click(&mut grid, &cursor(Tool::Terrain), Hex::new(0, 0), PointerButton::Secondary);
    assert!(events.is_empty());
    assert_eq!(grid.cell_height(Hex::new(0, 0)), Some(0));
    let events = handle_click(&mut grid, &cursor(Tool::Terrain), Hex::new(0, 0), PointerButton::Middle);
    assert!(events.is_empty());
}

#[test]
fn clicks_outside_the_grid_change_nothing() {
    let mut grid = small_grid();
    let far = Hex::new(40, 40);
    assert!(handle_click(&mut grid, &cursor(Tool::Terrain), far, PointerButton::Primary).is_empty());
    assert!(handle_click(&mut grid, &cursor(Tool::Surface), far, PointerButton::Primary).is_empty());
    assert_eq!(grid.heights.len(), 3);
    assert_eq!(grid.surfaces.len(), 3);
}

#[test]
fn surface_tool_lays_and_removes_piste() {
    let mut grid = small_grid();
    let c = cursor(Tool::Surface);
    let pos = Hex::new(0, 0);
    let events = handle_click(&mut grid, &c, pos, PointerButton::Primary);
    assert_eq!(grid.cell_surface(pos), Some(Surface::Piste));
    assert_eq!(names(&events), vec!["materials", "materials"]);
    let events = handle_click(&mut grid, &c, pos, PointerButton::Primary);
    assert_eq!(grid.cell_surface(pos), Some(Surface::Piste));
    assert_eq!(names(&events), vec!["materials"]);
    let events = handle_click(&mut grid, &c, pos, PointerButton::Secondary);
    assert_eq!(grid.cell_surface(pos), Some(Surface::Normal));
    assert_eq!(events.len(), 2);
    let events = handle_click(&mut grid, &c, Hex::new(1, 0), PointerButton::Primary);
    assert_eq!(grid.cell_surface(Hex::new(1, 0)), Some(Surface::Water));
    assert_eq!(events.len(), 1);
}

#[test]
fn place_tool_pushes_selected_object() {
    let mut grid = small_grid();
    let mut c = cursor(Tool::Place);
    let pos = Hex::new(1, 0);
    assert!(handle_click(&mut grid, &c, pos, PointerButton::Primary).is_empty());
    c.selected_object_type = Some(ObjectType::Structure(7));
    assert!(handle_click(&mut grid, &c, pos, PointerButton::Secondary).is_empty());
    let events = handle_click(&mut grid, &c, pos, PointerButton::Primary);
    match &events[..] {
        [GridEvent::SpawnStructure(1, s)] => assert_eq!((s.structure_id, s.pos), (7, pos)),
        _ => panic!("expected one structure spawn"),
    }
    assert_eq!(grid.get_cell_objects(pos), Some(vec![1]));
    c.selected_object_type = Some(ObjectType::Lift);
    let events = handle_click(&mut grid, &c, pos, PointerButton::Primary);
    match &events[..] {
        [GridEvent::SpawnLift(2, l)] => assert!(l.nodes.is_empty()),
        _ => panic!("expected one lift spawn"),
    }
    assert!(matches!(grid.objects.get(&2), Some(ObjectInstance::Lift(_))));
}

#[test]
fn idle_and_select_tools_do_nothing() {
    let mut grid = small_grid();
    assert!(handle_click(&mut grid, &cursor(Tool::Idle), Hex::new(0, 1), PointerButton::Primary).is_empty());
    assert!(handle_click(&mut grid, &cursor(Tool::Select(0)), Hex::new(0, 1), PointerButton::Primary).is_empty());
    assert_eq!(grid.cell_height(Hex::new(0, 1)), Some(5));
}

#[test]
fn hover_start_then_end_clears_hover() {
    let mut c = cursor(Tool::Idle);
    let pos = Hex::new(2, -1);
    let events = handle_hover_start(&mut c, pos);
    assert_eq!(c.hover_cell, Some(pos));
    assert!(matches!(events[..], [GridEvent::SetHoverGizmo(p)] if p == pos));
    let events = handle_hover_end(&mut c, pos);
    assert_eq!(c.hover_cell, None);
    assert_eq!(names(&events), vec!["hover_outline", "remove_gizmo"]);
}

#[test]
fn hover_end_elsewhere_keeps_hover() {
    let mut c = cursor(Tool::Idle);
    assert!(handle_hover_end(&mut c, Hex::new(0, 0)).is_empty());
    handle_hover_start(&mut c, Hex::new(1, 1));
    let events = handle_hover_end(&mut c, Hex::new(0, 0));
    assert_eq!(c.hover_cell, Some(Hex::new(1, 1)));
    assert!(matches!(events[..], [GridEvent::RemoveHoverGizmo(p)] if p == Hex::new(0, 0)));
}

#[test]
fn setup_lists_cells_and_objects_in_order() {
    let mut grid = small_grid();
    grid.surfaces.remove(&(1, 0));
    let cells = setup_cells(&grid);
    let listed: Vec<((i32, i32), Option<Surface>)> = cells.iter().map(|c| ((c.pos.x, c.pos.y), c.surface)).collect();
    assert_eq!(listed, vec![((0, 0), Some(Surface::Normal)), ((0, 1), Some(Surface::Normal)), ((1, 0), None)]);
    let c = Cursor { tool: Tool::Place, selected_object_type: Some(ObjectType::Lift), hover_cell: None };
    handle_click(&mut grid, &c, Hex::new(0, 0), PointerButton::Primary);
    let events = setup_objects(&grid);
    assert_eq!(names(&events), vec!["spawn_structure", "spawn_lift"]);
    assert!(matches!(events[0], GridEvent::SpawnStructure(0, s) if s.pos == Hex::new(0, 1)));
    assert!(matches!(&events[1], GridEvent::SpawnLift(1, _)));
}
