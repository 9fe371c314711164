use vstd::prelude::*;
use vstd::std_specs::btree::{increasing_seq, spec_btree_map_iter};
use vstd::std_specs::iter::IteratorSpec;
use crate::grid::{next_instance_id, Grid};
use crate::hex::Hex;
use crate::object::{LiftInstance, ObjectInstance, ObjectType, StructureInstance, Surface};

verus! {

/// The editing tool that the cursor holds.
#[derive(Debug, Clone, Copy, PartialEq, Eq, Structural)]
pub enum Tool {
    Idle,
    Select(u32),
    Terrain,
    Surface,
    Place,
}

/// The mouse button of a click.
#[derive(Debug, Clone, Copy, PartialEq, Eq, Structural)]
pub enum PointerButton {
    Primary,
    Secondary,
    Middle,
}

/// What the cursor holds and hovers over.
#[derive(Debug, Clone, Copy, PartialEq, Eq, Structural)]
pub struct Cursor {
    pub tool: Tool,
    /// The kind of object that the place tool puts down.
    pub selected_object_type: Option<ObjectType>,
    /// The cell under the mouse, if any.
    pub hover_cell: Option<Hex>,
}

/// What the grid editor asks the rest of the game to do, in the order asked.
#[derive(Debug, Clone)]
pub enum GridEvent {
    UpdateMeshes,
    UpdateMaterials,
    UpdateStructureHeights,
    UpdateHoverGizmo,
    UpdateHoverOutline,
    SetHoverGizmo(Hex),
    RemoveHoverGizmo(Hex),
    SpawnStructure(u32, StructureInstance),
    SpawnLift(u32, LiftInstance),
}

/// The height that a terrain click gives a cell: the primary button raises it
/// by one, the secondary button lowers it by one unless it is already 0.
/// `None` when the click leaves the height as it is.
pub open spec fn terrain_edit(height: u16, button: PointerButton) -> Option<int> {
    match button {
        PointerButton::Primary => Some(height + 1),
        PointerButton::Secondary => if height == 0 {
            None
        } else {
            Some(height - 1)
        },
        PointerButton::Middle => None,
    }
}

/// The surface that a surface click gives a cell: the primary button turns a
/// normal cell into piste, the secondary button turns piste back into a normal
/// cell. `None` when the click leaves the surface as it is.
pub open spec fn surface_edit(surface: Surface, button: PointerButton) -> Option<Surface> {
    match button {
        PointerButton::Primary => if surface == Surface::Normal {
            Some(Surface::Piste)
        } else {
            None
        },
        PointerButton::Secondary => if surface == Surface::Piste {
            Some(Surface::Normal)
        } else {
            None
        },
        PointerButton::Middle => None,
    }
}

/// Events asked for after a cell's height changed.
pub open spec fn height_changed_events() -> Seq<GridEvent> {
    seq![
        GridEvent::UpdateMeshes,
        GridEvent::UpdateMaterials,
        GridEvent::UpdateStructureHeights,
        GridEvent::UpdateHoverGizmo,
    ]
}

/// `object` is what the place tool puts on `pos` for the selected `object_type`:
/// a structure of that kind on the cell, or a lift without nodes.
pub open spec fn is_placed_object(object: ObjectInstance, object_type: ObjectType, pos: Hex) -> bool {
    match object_type {
        ObjectType::Structure(structure_id) => object == ObjectInstance::Structure(
            StructureInstance { structure_id, pos },
        ),
        ObjectType::Lift => object matches ObjectInstance::Lift(lift) && lift.nodes@.len() == 0,
    }
}

/// `event` spawns the visible form of object `id`, which is `object` (a lift
/// is matched by the cells of its nodes).
pub open spec fn spawns(event: GridEvent, id: u32, object: ObjectInstance) -> bool {
    match object {
        ObjectInstance::Structure(s) => event == GridEvent::SpawnStructure(id, s),
        ObjectInstance::Lift(l) => event matches GridEvent::SpawnLift(i, e) && i == id
            && e.nodes@ == l.nodes@,
    }
}

/// A click can be carried out without overflow: raising stops below the largest
/// height, and placing needs a free instance id.
pub open spec fn click_fits(grid: Grid, cursor: Cursor, pos: Hex, button: PointerButton) -> bool {
    &&& (cursor.tool == Tool::Terrain && button == PointerButton::Primary
        && grid.heights@.contains_key(pos.key())) ==> grid.heights@[pos.key()] < u16::MAX
    &&& (cursor.tool == Tool::Place && button == PointerButton::Primary
        && cursor.selected_object_type is Some) ==> next_instance_id(grid.objects@) <= u32::MAX
}

/// Raising a cell with the terrain tool and then lowering it gives back the
/// height it had.
pub proof fn lemma_raise_then_lower(heights: Map<(i32, i32), u16>, k: (i32, i32))
    requires
        heights.contains_key(k),
        heights[k] < u16::MAX,
    ensures
        ({
            let raised = heights.insert(k, terrain_edit(heights[k], PointerButton::Primary)->0 as u16);
            &&& terrain_edit(raised[k], PointerButton::Secondary) is Some
            &&& raised.insert(k, terrain_edit(raised[k], PointerButton::Secondary)->0 as u16) == heights
        }),
{
    let raised = heights.insert(k, terrain_edit(heights[k], PointerButton::Primary)->0 as u16);
    assert(raised.insert(k, terrain_edit(raised[k], PointerButton::Secondary)->0 as u16) =~= heights);
}

/// Lowering a cell that is above height 0 and then raising it gives back the
/// height it had; a cell at height 0 cannot be lowered.
pub proof fn lemma_lower_then_raise(heights: Map<(i32, i32), u16>, k: (i32, i32))
    requires
        heights.contains_key(k),
    ensures
        heights[k] == 0 ==> terrain_edit(heights[k], PointerButton::Secondary) is None,
        heights[k] > 0 ==> ({
            let lowered = heights.insert(k, terrain_edit(heights[k], PointerButton::Secondary)->0 as u16);
            lowered.insert(k, terrain_edit(lowered[k], PointerButton::Primary)->0 as u16) == heights
        }),
{
    if heights[k] > 0 {
        let lowered = heights.insert(k, terrain_edit(heights[k], PointerButton::Secondary)->0 as u16);
        assert(lowered.insert(k, terrain_edit(lowered[k], PointerButton::Primary)->0 as u16) =~= heights);
    }
}

/// Laying piste on a normal cell and removing it again gives back a normal
/// cell, removing piste and laying it again gives back piste, and water never
/// changes under the surface tool.
pub proof fn lemma_piste_round_trip(surface: Surface)
    ensures
        surface == Surface::Normal ==> surface_edit(
            surface_edit(surface, PointerButton::Primary)->0,
            PointerButton::Secondary,
        ) == Some(Surface::Normal),
        surface == Surface::Piste ==> surface_edit(
            surface_edit(surface, PointerButton::Secondary)->0,
            PointerButton::Primary,
        ) == Some(Surface::Piste),
        surface == Surface::Water ==> forall|b: PointerButton| surface_edit(surface, b) is None,
{
}

/// The terrain tool changes a height only with the primary button (up by
/// exactly one, always) or the secondary button (down by exactly one, only
/// above 0); every other button leaves every height alone.
pub proof fn lemma_terrain_buttons(height: u16, button: PointerButton)
    ensures
        terrain_edit(height, button) is Some <==> (button == PointerButton::Primary || (
        button == PointerButton::Secondary && height > 0)),
        terrain_edit(height, button) matches Some(h) ==> (
            (button == PointerButton::Primary && h == height + 1)
            || (button == PointerButton::Secondary && h + 1 == height)),
        button != PointerButton::Primary && button != PointerButton::Secondary ==> terrain_edit(
            height,
            button,
        ) is None,
{
}

/// The surface tool changes a surface only from normal to piste with the
/// primary button, or from piste to normal with the secondary button; water,
/// the middle button, and a button that does not fit the surface change nothing.
pub proof fn lemma_surface_buttons(surface: Surface, button: PointerButton)
    ensures
        surface_edit(surface, button) is Some <==> (
            (button == PointerButton::Primary && surface == Surface::Normal)
            || (button == PointerButton::Secondary && surface == Surface::Piste)),
        surface_edit(surface, button) matches Some(s) ==> (
            (surface == Surface::Normal && s == Surface::Piste)
            || (surface == Surface::Piste && s == Surface::Normal)),
        button == PointerButton::Secondary && surface != Surface::Piste ==> surface_edit(surface, button) is None,
        surface == Surface::Water ==> surface_edit(surface, button) is None,
{
}

/// Applies a click on the cell at `pos` with the cursor's tool and returns the
/// events that the click asks for.
pub fn handle_click(grid: &mut Grid, cursor: &Cursor, pos: Hex, button: PointerButton) -> (events: Vec<GridEvent>)
    requires
        click_fits(*old(grid), *cursor, pos, button),
    ensures
        final(grid).width == old(grid).width,
        final(grid).length == old(grid).length,
        final(grid).heights@.dom() == old(grid).heights@.dom(),
        final(grid).surfaces@.dom() == old(grid).surfaces@.dom(),
        cursor.tool != Tool::Terrain ==> final(grid).heights@ == old(grid).heights@,
        cursor.tool != Tool::Surface ==> final(grid).surfaces@ == old(grid).surfaces@,
        cursor.tool != Tool::Place ==> final(grid).objects@ == old(grid).objects@,
        (cursor.tool != Tool::Terrain && cursor.tool != Tool::Surface && cursor.tool != Tool::Place)
            ==> events@.len() == 0,
        cursor.tool == Tool::Terrain && button != PointerButton::Primary
            && button != PointerButton::Secondary ==> final(grid).heights@ == old(grid).heights@
            && events@.len() == 0,
        cursor.tool == Tool::Terrain && button == PointerButton::Secondary ==> forall|k: (i32, i32)|
            #[trigger] final(grid).heights@.contains_key(k) ==> final(grid).heights@[k] == old(grid).heights@[k]
                || final(grid).heights@[k] + 1 == old(grid).heights@[k],
        cursor.tool == Tool::Terrain && button == PointerButton::Primary ==> forall|k: (i32, i32)|
            #[trigger] final(grid).heights@.contains_key(k) ==> final(grid).heights@[k] == old(grid).heights@[k]
                || final(grid).heights@[k] == old(grid).heights@[k] + 1,
        cursor.tool == Tool::Surface && old(grid).surfaces@.contains_key(pos.key()) && !(
            (button == PointerButton::Primary && old(grid).surfaces@[pos.key()] == Surface::Normal)
            || (button == PointerButton::Secondary && old(grid).surfaces@[pos.key()] == Surface::Piste))
            ==> final(grid).surfaces@ == old(grid).surfaces@ && events@ == seq![GridEvent::UpdateMaterials],
        cursor.tool == Tool::Surface ==> forall|k: (i32, i32)| #[trigger] final(grid).surfaces@.contains_key(k)
            && final(grid).surfaces@[k] != old(grid).surfaces@[k] ==> k == pos.key() && (
                (old(grid).surfaces@[k] == Surface::Normal && final(grid).surfaces@[k] == Surface::Piste
                    && button == PointerButton::Primary)
                || (old(grid).surfaces@[k] == Surface::Piste && final(grid).surfaces@[k] == Surface::Normal
                    && button == PointerButton::Secondary)),
        cursor.tool == Tool::Terrain ==> {
            let k = pos.key();
            if old(grid).heights@.contains_key(k) && terrain_edit(old(grid).heights@[k], button) is Some {
                &&& final(grid).heights@ == old(grid).heights@.insert(
                    k,
                    terrain_edit(old(grid).heights@[k], button)->0 as u16,
                )
                &&& events@ == height_changed_events()
            } else {
                &&& final(grid).heights@ == old(grid).heights@
                &&& events@.len() == 0
            }
        },
        cursor.tool == Tool::Surface ==> {
            let k = pos.key();
            if !old(grid).surfaces@.contains_key(k) {
                &&& final(grid).surfaces@ == old(grid).surfaces@
                &&& events@.len() == 0
            } else if surface_edit(old(grid).surfaces@[k], button) is Some {
                &&& final(grid).surfaces@ == old(grid).surfaces@.insert(
                    k,
                    surface_edit(old(grid).surfaces@[k], button)->0,
                )
                &&& events@ == seq![GridEvent::UpdateMaterials, GridEvent::UpdateMaterials]
            } else {
                &&& final(grid).surfaces@ == old(grid).surfaces@
                &&& events@ == seq![GridEvent::UpdateMaterials]
            }
        },
        cursor.tool == Tool::Place ==> {
            if button == PointerButton::Primary && cursor.selected_object_type is Some {
                let id = next_instance_id(old(grid).objects@);
                let object = final(grid).objects@[id as u32];
                &&& !old(grid).objects@.contains_key(id as u32)
                &&& final(grid).objects@ == old(grid).objects@.insert(id as u32, object)
                &&& is_placed_object(object, cursor.selected_object_type->0, pos)
                &&& events@.len() == 1
                &&& spawns(events@[0], id as u32, object)
            } else {
                &&& final(grid).objects@ == old(grid).objects@
                &&& events@.len() == 0
            }
        },
{
    let mut events: Vec<GridEvent> = Vec::new();
    match cursor.tool {
        Tool::Terrain => {
            let key = pos.to_key();
            let height = match grid.heights.get(&key) {
                Some(h) => *h,
                None => return events,
            };
            match button {
                PointerButton::Primary => {
                    grid.heights.insert(key, height + 1);
                    events.push(GridEvent::UpdateMeshes);
                    events.push(GridEvent::UpdateMaterials);
                    events.push(GridEvent::UpdateStructureHeights);
                    events.push(GridEvent::UpdateHoverGizmo);
                },
                PointerButton::Secondary => {
                    if height > 0 {
                        grid.heights.insert(key, height - 1);
                        events.push(GridEvent::UpdateMeshes);
                        events.push(GridEvent::UpdateMaterials);
                        events.push(GridEvent::UpdateStructureHeights);
                        events.push(GridEvent::UpdateHoverGizmo);
                    }
                },
                PointerButton::Middle => {},
            }
        },
        Tool::Surface => {
            let key = pos.to_key();
            let surface = match grid.surfaces.get(&key) {
                Some(s) => *s,
                None => return events,
            };
            match button {
                PointerButton::Primary => {
                    if surface == Surface::Normal {
                        grid.surfaces.insert(key, Surface::Piste);
                        events.push(GridEvent::UpdateMaterials);
                    }
                },
                PointerButton::Secondary => {
                    if surface == Surface::Piste {
                        grid.surfaces.insert(key, Surface::Normal);
                        events.push(GridEvent::UpdateMaterials);
                    }
                },
                PointerButton::Middle => {},
            }
            events.push(GridEvent::UpdateMaterials);
        },
        Tool::Place => {
            if button == PointerButton::Primary {
                match cursor.selected_object_type {
                    Some(object_type) => {
                        match object_type {
                            ObjectType::Structure(structure_id) => {
                                let instance = StructureInstance::new(structure_id, pos);
                                let instance_id = grid.push_object(ObjectInstance::Structure(instance));
                                events.push(GridEvent::SpawnStructure(instance_id, instance));
                            },
                            ObjectType::Lift => {
                                let instance_id = grid.push_object(
                                    ObjectInstance::Lift(LiftInstance { nodes: Vec::new() }),
                                );
                                events.push(GridEvent::SpawnLift(instance_id, LiftInstance { nodes: Vec::new() }));
                            },
                        }
                    },
                    None => {},
                }
            }
        },
        _ => {},
    }
    events
}

/// The mouse moved onto the cell at `pos`: it becomes the hovered cell and the
/// hover gizmo is shown there.
pub fn handle_hover_start(cursor: &mut Cursor, pos: Hex) -> (events: Vec<GridEvent>)
    ensures
        *final(cursor) == (Cursor { hover_cell: Some(pos), ..*old(cursor) }),
        events@ == seq![GridEvent::SetHoverGizmo(pos)],
{
    cursor.hover_cell = Some(pos);
    let mut events: Vec<GridEvent> = Vec::new();
    events.push(GridEvent::SetHoverGizmo(pos));
    events
}

/// The mouse left the cell at `cell_pos`. With no hovered cell nothing happens.
/// Otherwise the gizmo on `cell_pos` is removed, and when `cell_pos` is the
/// hovered cell the hover ends first and the hover outline is refreshed.
pub fn handle_hover_end(cursor: &mut Cursor, cell_pos: Hex) -> (events: Vec<GridEvent>)
    ensures
        match old(cursor).hover_cell {
            None => *final(cursor) == *old(cursor) && events@.len() == 0,
            Some(hovered) => if hovered == cell_pos {
                &&& *final(cursor) == (Cursor { hover_cell: None, ..*old(cursor) })
                &&& events@ == seq![GridEvent::UpdateHoverOutline, GridEvent::RemoveHoverGizmo(cell_pos)]
            } else {
                &&& *final(cursor) == *old(cursor)
                &&& events@ == seq![GridEvent::RemoveHoverGizmo(cell_pos)]
            },
        },
{
    let mut events: Vec<GridEvent> = Vec::new();
    let hovered = match cursor.hover_cell {
        Some(p) => p,
        None => return events,
    };
    if hovered == cell_pos {
        cursor.hover_cell = None;
        events.push(GridEvent::UpdateHoverOutline);
    }
    events.push(GridEvent::RemoveHoverGizmo(cell_pos));
    events
}

/// A cell to show when the grid is first displayed, with the surface that
/// decides its material (`None` when the grid has no surface for it).
#[derive(Debug, Clone, Copy, PartialEq, Eq, Structural)]
pub struct CellSpawn {
    pub pos: Hex,
    pub surface: Option<Surface>,
}

/// The cells to show when the grid is first displayed: one for each cell with
/// a height, in increasing key order, each with its recorded surface.
pub fn setup_cells(grid: &Grid) -> (cells: Vec<CellSpawn>)
    ensures
        cells.len() == grid.heights@.dom().len(),
        increasing_seq(cells@.map_values(|c: CellSpawn| c.pos.key())),
        forall|i: int| 0 <= i < cells.len() ==> grid.heights@.contains_key(#[trigger] cells@[i].pos.key()),
        forall|k: (i32, i32)| grid.heights@.contains_key(k) ==> exists|i: int|
            0 <= i < cells.len() && #[trigger] cells@[i].pos.key() == k,
        forall|i: int| 0 <= i < cells.len() ==> #[trigger] cells@[i].surface == (
            if grid.surfaces@.contains_key(cells@[i].pos.key()) {
                Some(grid.surfaces@[cells@[i].pos.key()])
            } else {
                None
            }),
{
    let mut cells: Vec<CellSpawn> = Vec::new();
    let ghost entries = spec_btree_map_iter(&grid.heights).remaining();
    let ghost mut n: int = 0;
    for (key, _height) in it: grid.heights.iter()
        invariant
            it.seq() == entries,
            n == it.index(),
            cells.len() == n,
            forall|i: int| 0 <= i < n ==> #[trigger] cells@[i].pos.key() == *entries[i].0,
            forall|i: int| 0 <= i < n ==> #[trigger] cells@[i].surface == (
                if grid.surfaces@.contains_key(cells@[i].pos.key()) {
                    Some(grid.surfaces@[cells@[i].pos.key()])
                } else {
                    None
                }),
    {
        let pos = Hex::from_key(*key);
        let surface = grid.cell_surface(pos);
        cells.push(CellSpawn { pos, surface });
        proof { n = n + 1; }
    }
    proof {
        let m = grid.heights@;
        assert(n == entries.len());
        assert(cells@.map_values(|c: CellSpawn| c.pos.key())
            =~= entries.map_values(|kv: (&(i32, i32), &u16)| *kv.0));
        assert forall|i: int| 0 <= i < cells.len() implies m.contains_key(#[trigger] cells@[i].pos.key()) by {
            assert(m.contains_key(*entries[i].0));
        }
        assert forall|k: (i32, i32)| m.contains_key(k) implies exists|i: int|
            0 <= i < cells.len() && #[trigger] cells@[i].pos.key() == k by {
            assert(entries.contains((&k, &m[k])));
            let j = choose|j: int| 0 <= j < entries.len() && entries[j] == (&k, &m[k]);
            assert(cells@[j].pos.key() == k);
        }
    }
    cells
}

/// The events that spawn every placed object when the grid is first
/// displayed, in increasing instance-id order: `ids` lists those ids.
pub open spec fn spawns_all(events: Seq<GridEvent>, objects: Map<u32, ObjectInstance>) -> bool {
    let ids = events.map_values(|e: GridEvent| event_id(e));
    &&& forall|i: int, j: int| 0 <= i < j < ids.len() ==> ids[i] < ids[j]
    &&& forall|id: u32| objects.contains_key(id) <==> ids.contains(id)
    &&& forall|i: int| 0 <= i < events.len() ==> spawns(#[trigger] events[i], ids[i], objects[ids[i]])
}

/// The events that spawn every placed object when the grid is first displayed.
pub fn setup_objects(grid: &Grid) -> (events: Vec<GridEvent>)
    ensures
        spawns_all(events@, grid.objects@),
{
    let mut events: Vec<GridEvent> = Vec::new();
    let ghost entries = spec_btree_map_iter(&grid.objects).remaining();
    let ghost keys = entries.map_values(|kv: (&u32, &ObjectInstance)| *kv.0);
    let ghost mut n: int = 0;
    for (instance_id, instance) in it: grid.objects.iter()
        invariant
            it.seq() == entries,
            n == it.index(),
            keys == entries.map_values(|kv: (&u32, &ObjectInstance)| *kv.0),
            increasing_seq(keys),
            events.len() == n,
            forall|i: int| 0 <= i < n ==> event_id(#[trigger] events@[i]) == *entries[i].0
                && spawns(events@[i], *entries[i].0, *entries[i].1),
    {
        match instance {
            ObjectInstance::Structure(s) => events.push(GridEvent::SpawnStructure(*instance_id, *s)),
            ObjectInstance::Lift(l) => {
                let nodes = l.nodes.clone();
                assert(nodes@ =~= l.nodes@);
                events.push(GridEvent::SpawnLift(*instance_id, LiftInstance { nodes }));
            },
        }
        proof { n = n + 1; }
    }
    proof {
        let m = grid.objects@;
        assert(n == entries.len());
        let ids = events@.map_values(|e: GridEvent| event_id(e));
        assert(ids =~= keys);
        assert forall|i: int, j: int| 0 <= i < j < ids.len() implies ids[i] < ids[j] by {
            crate::grid::lemma_increasing_ids(keys, i, j);
        }
        assert forall|i: int| 0 <= i < events.len() implies spawns(#[trigger] events@[i], ids[i], m[ids[i]]) by {
            assert(m.contains_key(*entries[i].0) && m[*entries[i].0] == *entries[i].1);
        }
        assert forall|id: u32| m.contains_key(id) implies ids.contains(id) by {
            assert(entries.contains((&id, &m[id])));
            let j = choose|j: int| 0 <= j < entries.len() && entries[j] == (&id, &m[id]);
            assert(ids[j] == id);
        }
        assert forall|id: u32| ids.contains(id) implies m.contains_key(id) by {
            let j = choose|j: int| 0 <= j < ids.len() && ids[j] == id;
            assert(m.contains_key(*entries[j].0));
        }
    }
    events
}

/// The instance id that a spawn event names (0 for other events).
pub open spec fn event_id(event: GridEvent) -> u32 {
    match event {
        GridEvent::SpawnStructure(id, _) => id,
        GridEvent::SpawnLift(id, _) => id,
        _ => 0,
    }
}

} // verus!
