use vstd::prelude::*;
use std::collections::BTreeMap;
use vstd::std_specs::btree::{increasing_seq, spec_btree_map_iter};
use vstd::std_specs::iter::IteratorSpec;
use vstd::std_specs::cmp::OrdSpec;
use crate::hex::Hex;
use crate::object::{is_structure_at, ObjectInstance, StructureInstance, Surface};

verus! {

/// The terrain: a height and a surface for each cell, and every placed object
/// indexed by its instance id. Cells are keyed by their axial coordinates.
#[derive(Debug, Clone)]
pub struct Grid {
    pub heights: BTreeMap<(i32, i32), u16>,
    pub surfaces: BTreeMap<(i32, i32), Surface>,
    /// All placed objects indexed by their instance id.
    pub objects: BTreeMap<u32, ObjectInstance>,
    pub width: u16,
    pub length: u16,
}

/// Structure kind of the trees that grid generation plants.
pub const TREE_STRUCTURE_ID: u32 = 1;

/// Terrain chosen for one cell while generating a grid: its height, whether it
/// lies below the water line, and whether a tree would grow there.
#[derive(Debug, Clone, Copy, PartialEq, Eq, Structural)]
pub struct GeneratedCell {
    pub pos: Hex,
    pub height: u16,
    pub below_water: bool,
    pub tree: bool,
}

impl GeneratedCell {
    /// Cells under water get water; every other cell a normal surface.
    pub open spec fn surface(self) -> Surface {
        if self.below_water {
            Surface::Water
        } else {
            Surface::Normal
        }
    }

    /// Trees are planted only where the cell is not water.
    pub open spec fn plants_tree(self) -> bool {
        !self.below_water && self.tree
    }
}

/// The tree object that grid generation places on `pos`.
pub open spec fn tree_at(pos: Hex) -> ObjectInstance {
    ObjectInstance::Structure(StructureInstance { structure_id: TREE_STRUCTURE_ID, pos })
}

/// Heights after recording the cells in order (a later cell overwrites an earlier one).
pub open spec fn generated_heights(cells: Seq<GeneratedCell>) -> Map<(i32, i32), u16>
    decreases cells.len(),
{
    if cells.len() == 0 {
        Map::empty()
    } else {
        generated_heights(cells.drop_last()).insert(cells.last().pos.key(), cells.last().height)
    }
}

/// Surfaces after recording the cells in order (a later cell overwrites an earlier one).
pub open spec fn generated_surfaces(cells: Seq<GeneratedCell>) -> Map<(i32, i32), Surface>
    decreases cells.len(),
{
    if cells.len() == 0 {
        Map::empty()
    } else {
        generated_surfaces(cells.drop_last()).insert(cells.last().pos.key(), cells.last().surface())
    }
}

/// The positions, in order, of the cells that plant a tree.
pub open spec fn tree_positions(cells: Seq<GeneratedCell>) -> Seq<Hex>
    decreases cells.len(),
{
    if cells.len() == 0 {
        Seq::empty()
    } else if cells.last().plants_tree() {
        tree_positions(cells.drop_last()).push(cells.last().pos)
    } else {
        tree_positions(cells.drop_last())
    }
}

/// Trees numbered 0, 1, 2, ... in the order of their positions.
pub open spec fn tree_objects(trees: Seq<Hex>) -> Map<u32, ObjectInstance> {
    Map::new(|id: u32| id < trees.len(), |id: u32| tree_at(trees[id as int]))
}

/// There are never more trees than cells.
pub proof fn lemma_tree_count(cells: Seq<GeneratedCell>)
    ensures
        tree_positions(cells).len() <= cells.len(),
    decreases cells.len(),
{
    if cells.len() > 0 {
        lemma_tree_count(cells.drop_last());
    }
}

/// The next instance id after `n` consecutively numbered trees is `n`.
proof fn lemma_next_id_after_trees(trees: Seq<Hex>)
    requires
        trees.len() <= u32::MAX,
    ensures
        next_instance_id(tree_objects(trees)) == trees.len(),
{
    let m = tree_objects(trees);
    if trees.len() == 0 {
        assert(m.dom() =~= Set::<u32>::empty());
    } else {
        let last = (trees.len() - 1) as u32;
        assert(is_max_id(m, last));
        assert(!m.dom().is_empty()) by {
            assert(m.dom().contains(last));
        }
        let c = choose|id: u32| is_max_id(m, id);
        assert(c == last);
    }
}

/// Offset coordinates (column, row) of the cells in the first `columns` columns
/// of a grid with rows of `length` cells: column by column, every odd column
/// one row longer than `length`.
pub open spec fn offsets_before(columns: int, length: int) -> Seq<(i32, i32)>
    decreases columns,
{
    if columns <= 0 {
        Seq::empty()
    } else {
        let col = columns - 1;
        offsets_before(col, length) + Seq::new(
            (length + col % 2) as nat,
            |row: int| (col as i32, row as i32),
        )
    }
}

/// The offset coordinates (column, row) of every cell of a `width` by `length`
/// grid, in generation order. Every other column gets one extra row, which
/// avoids sharp corners.
pub fn cell_offsets(width: u16, length: u16) -> (offsets: Vec<(i32, i32)>)
    ensures
        offsets@ == offsets_before(width as int, length as int),
{
    let mut offsets: Vec<(i32, i32)> = Vec::new();
    let w: i32 = width as i32;
    let len: i32 = length as i32;
    for col in 0..w
        invariant
            w == width,
            len == length,
            offsets@ == offsets_before(col as int, len as int),
    {
        let ghost before = offsets@;
        let rows: i32 = len + col % 2;
        for row in 0..rows
            invariant
                0 <= col < w,
                w == width,
                len == length,
                rows == len + col % 2,
                offsets@ == before + Seq::new(row as nat, |r: int| (col, r as i32)),
        {
            offsets.push((col, row));
            assert(offsets@ =~= before + Seq::new((row + 1) as nat, |r: int| (col, r as i32)));
        }
        assert(offsets@ =~= offsets_before(col + 1, len as int));
    }
    offsets
}

/// A grid of `width` columns has `width * length` cells plus one extra for
/// every odd column.
pub proof fn lemma_cell_count(width: int, length: int)
    requires
        0 <= width,
        0 <= length,
    ensures
        offsets_before(width, length).len() == width * length + width / 2,
    decreases width,
{
    if width > 0 {
        lemma_cell_count(width - 1, length);
        assert((width - 1) * length + length == width * length) by (nonlinear_arith);
        assert((width - 1) / 2 + (width - 1) % 2 == width / 2);
        let col = width - 1;
        let column = Seq::new((length + col % 2) as nat, |row: int| (col as i32, row as i32));
        assert(offsets_before(width, length) == offsets_before(col, length) + column);
        assert(column.len() == length + col % 2);
        assert(offsets_before(width, length).len() == offsets_before(col, length).len() + column.len());
    } else {
        assert(0 * length == 0);
    }
}

/// Every cell of a grid is listed once: the offsets have no repeats, and the
/// column of each lies in `0..columns`.
pub proof fn lemma_offsets_distinct(columns: int, length: int)
    requires
        0 <= columns <= u16::MAX + 1,
        0 <= length <= u16::MAX,
    ensures
        offsets_before(columns, length).no_duplicates(),
        forall|i: int| 0 <= i < offsets_before(columns, length).len()
            ==> 0 <= (#[trigger] offsets_before(columns, length)[i]).0 < columns,
    decreases columns,
{
    if columns > 0 {
        let col = columns - 1;
        lemma_offsets_distinct(col, length);
        let before = offsets_before(col, length);
        let column = Seq::new((length + col % 2) as nat, |row: int| (col as i32, row as i32));
        let all = offsets_before(columns, length);
        assert(all == before + column);
        assert forall|i: int| 0 <= i < all.len() implies 0 <= (#[trigger] all[i]).0 < columns by {
            if i >= before.len() {
                assert(all[i] == column[i - before.len()]);
            } else {
                assert(all[i] == before[i]);
            }
        }
        assert forall|i: int, j: int| 0 <= i < all.len() && 0 <= j < all.len() && i != j implies all[i] != all[j] by {
            if i < before.len() && j < before.len() {
                assert(all[i] == before[i] && all[j] == before[j]);
            } else if i >= before.len() && j >= before.len() {
                assert(all[i] == column[i - before.len()] && all[j] == column[j - before.len()]);
            } else if i < before.len() {
                assert(all[i] == before[i] && all[j] == column[j - before.len()]);
            } else {
                assert(all[j] == before[j] && all[i] == column[i - before.len()]);
            }
        }
    }
}

/// Every generated cell has both a height and a surface, and nothing else has.
pub proof fn lemma_generated_cells_agree(cells: Seq<GeneratedCell>)
    ensures
        generated_heights(cells).dom() == generated_surfaces(cells).dom(),
        forall|k: (i32, i32)| generated_heights(cells).contains_key(k) <==> exists|i: int|
            0 <= i < cells.len() && #[trigger] cells[i].pos.key() == k,
    decreases cells.len(),
{
    if cells.len() > 0 {
        let rest = cells.drop_last();
        lemma_generated_cells_agree(rest);
        assert(generated_heights(cells).dom() =~= generated_surfaces(cells).dom());
        assert forall|k: (i32, i32)| generated_heights(cells).contains_key(k) implies exists|i: int|
            0 <= i < cells.len() && #[trigger] cells[i].pos.key() == k by {
            if k != cells.last().pos.key() {
                let i = choose|i: int| 0 <= i < rest.len() && #[trigger] rest[i].pos.key() == k;
                assert(cells[i] == rest[i]);
            } else {
                assert(cells[cells.len() - 1].pos.key() == k);
            }
        }
        assert forall|k: (i32, i32)| (exists|i: int| 0 <= i < cells.len() && #[trigger] cells[i].pos.key() == k)
            implies generated_heights(cells).contains_key(k) by {
            let i = choose|i: int| 0 <= i < cells.len() && #[trigger] cells[i].pos.key() == k;
            if i < cells.len() - 1 {
                assert(rest[i] == cells[i]);
            }
        }
    }
}

/// Trees never grow in water: when no two generated cells share a position,
/// every planted tree stands on a cell whose surface is normal.
pub proof fn lemma_trees_on_dry_land(cells: Seq<GeneratedCell>)
    requires
        forall|i: int, j: int| 0 <= i < j < cells.len() ==> cells[i].pos != cells[j].pos,
    ensures
        forall|t: int| 0 <= t < tree_positions(cells).len() ==> {
            let k = #[trigger] tree_positions(cells)[t].key();
            generated_surfaces(cells).contains_key(k) && generated_surfaces(cells)[k] == Surface::Normal
        },
    decreases cells.len(),
{
    if cells.len() > 0 {
        let rest = cells.drop_last();
        lemma_trees_on_dry_land(rest);
        lemma_tree_positions_from(rest);
        let last = cells.last();
        assert forall|t: int| 0 <= t < tree_positions(cells).len() implies {
            let k = #[trigger] tree_positions(cells)[t].key();
            generated_surfaces(cells).contains_key(k) && generated_surfaces(cells)[k] == Surface::Normal
        } by {
            if t < tree_positions(rest).len() {
                assert(tree_positions(cells)[t] == tree_positions(rest)[t]);
                let i = choose|i: int| 0 <= i < rest.len() && rest[i].pos == tree_positions(rest)[t];
                assert(cells[i] == rest[i]);
                assert(tree_positions(rest)[t].key() != last.pos.key());
            }
        }
    }
}

/// Every planted tree stands where some generated cell lies.
proof fn lemma_tree_positions_from(cells: Seq<GeneratedCell>)
    ensures
        forall|t: int| 0 <= t < tree_positions(cells).len() ==> exists|i: int|
            0 <= i < cells.len() && cells[i].pos == #[trigger] tree_positions(cells)[t],
    decreases cells.len(),
{
    if cells.len() > 0 {
        let rest = cells.drop_last();
        lemma_tree_positions_from(rest);
        assert forall|t: int| 0 <= t < tree_positions(cells).len() implies exists|i: int|
            0 <= i < cells.len() && cells[i].pos == #[trigger] tree_positions(cells)[t] by {
            if t < tree_positions(rest).len() {
                let i = choose|i: int| 0 <= i < rest.len() && rest[i].pos == tree_positions(rest)[t];
                assert(cells[i] == rest[i]);
                assert(tree_positions(cells)[t] == tree_positions(rest)[t]);
            } else {
                assert(cells[cells.len() - 1].pos == tree_positions(cells)[t]);
            }
        }
    }
}

/// Instance ids are handed out in sequence: the id after pushing an object
/// with the next id is one more than that id.
pub proof fn lemma_next_id_after_push(objects: Map<u32, ObjectInstance>, object: ObjectInstance)
    requires
        objects.dom().finite(),
        next_instance_id(objects) < u32::MAX,
    ensures
        next_instance_id(objects.insert(next_instance_id(objects) as u32, object))
            == next_instance_id(objects) + 1,
{
    let id = next_instance_id(objects) as u32;
    let m = objects.insert(id, object);
    assert(is_max_id(m, id)) by {
        if !objects.dom().is_empty() {
            let top = choose|j: u32| is_max_id(objects, j);
            lemma_max_id_exists(objects);
        } else {
            assert forall|j: u32| m.contains_key(j) implies j <= id by {
                if j != id {
                    assert(objects.dom().contains(j));
                }
            }
        }
    }
    assert(m.dom().contains(id));
    let c = choose|j: u32| is_max_id(m, j);
    assert(c == id);
}

/// Placing a structure under a fresh id puts it among the objects of its own
/// cell and leaves the objects of every other cell as they were.
pub proof fn lemma_push_structure_on_cell(
    objects: Map<u32, ObjectInstance>,
    id: u32,
    structure: StructureInstance,
    cell: Hex,
)
    requires
        !objects.contains_key(id),
    ensures
        ({
            let after = objects.insert(id, ObjectInstance::Structure(structure));
            &&& is_structure_at(after[id], structure.pos)
            &&& cell != structure.pos ==> forall|j: u32|
                (after.contains_key(j) && is_structure_at(#[trigger] after[j], cell))
                    <==> (objects.contains_key(j) && is_structure_at(objects[j], cell))
        }),
{
}

/// A finite non-empty map of objects has a largest instance id.
pub proof fn lemma_max_id_exists(objects: Map<u32, ObjectInstance>)
    requires
        objects.dom().finite(),
        !objects.dom().is_empty(),
    ensures
        exists|id: u32| is_max_id(objects, id),
    decreases objects.dom().len(),
{
    let k = objects.dom().choose();
    let rest = objects.remove(k);
    assert(rest.dom() =~= objects.dom().remove(k));
    if rest.dom().is_empty() {
        assert(is_max_id(objects, k)) by {
            assert forall|j: u32| objects.contains_key(j) implies j <= k by {
                if j != k {
                    assert(rest.dom().contains(j));
                }
            }
        }
    } else {
        lemma_max_id_exists(rest);
        let r = choose|id: u32| is_max_id(rest, id);
        if r < k {
            assert(is_max_id(objects, k)) by {
                assert forall|j: u32| objects.contains_key(j) implies j <= k by {
                    if j != k {
                        assert(rest.contains_key(j));
                    }
                }
            }
        } else {
            assert(is_max_id(objects, r)) by {
                assert forall|j: u32| objects.contains_key(j) implies j <= r by {
                    if j != k {
                        assert(rest.contains_key(j));
                    }
                }
            }
        }
    }
}

/// `id` is the largest instance id in `objects`.
pub open spec fn is_max_id(objects: Map<u32, ObjectInstance>, id: u32) -> bool {
    objects.contains_key(id) && forall|j: u32| objects.contains_key(j) ==> j <= id
}

/// The id that the next pushed object gets: one past the largest id in use, or 0.
pub open spec fn next_instance_id(objects: Map<u32, ObjectInstance>) -> int {
    if objects.dom().is_empty() {
        0
    } else {
        (choose|id: u32| is_max_id(objects, id)) + 1
    }
}

/// The ids, in increasing order, of the structures that stand on `pos`.
pub open spec fn ids_at(objects: Map<u32, ObjectInstance>, pos: Hex, ids: Seq<u32>) -> bool {
    &&& forall|i: int, j: int| 0 <= i < j < ids.len() ==> ids[i] < ids[j]
    &&& forall|id: u32|
        ids.contains(id) <==> (objects.contains_key(id) && is_structure_at(objects[id], pos))
}

/// Calls `BTreeMap::last_key_value`; std documents that it returns the entry
/// with the maximum key, or `None` for an empty map. The contract claims that
/// of the key handed back.
#[verifier::external_body]
fn last_instance_id(objects: &BTreeMap<u32, ObjectInstance>) -> (r: Option<u32>)
    ensures
        r is None <==> objects@.dom().is_empty(),
        r matches Some(id) ==> is_max_id(objects@, id),
{
    objects.last_key_value().map(|(id, _object)| *id)
}

/// In an increasing sequence of ids, an earlier id is smaller than a later one.
pub(crate) proof fn lemma_increasing_ids(ids: Seq<u32>, i: int, j: int)
    requires
        increasing_seq(ids),
        0 <= i < j < ids.len(),
    ensures
        ids[i] < ids[j],
{
    assert(ids[i].cmp_spec(&ids[j]) is Less);
}

impl Grid {
    /// Builds a grid of the given size from the terrain generated for its
    /// cells: each cell's height, water below the water line and a normal
    /// surface elsewhere, and a tree (numbered from 0 in cell order) on every
    /// dry cell chosen for one.
    pub fn new(width: u16, length: u16, cells: &Vec<GeneratedCell>) -> (grid: Grid)
        requires
            cells.len() <= u32::MAX,
        ensures
            grid.width == width,
            grid.length == length,
            grid.heights@ == generated_heights(cells@),
            grid.surfaces@ == generated_surfaces(cells@),
            grid.objects@ == tree_objects(tree_positions(cells@)),
            grid.heights@.dom() == grid.surfaces@.dom(),
    {
        let mut grid = Grid {
            heights: BTreeMap::new(),
            surfaces: BTreeMap::new(),
            objects: BTreeMap::new(),
            width,
            length,
        };
        assert(grid.objects@ =~= tree_objects(tree_positions(cells@.take(0))));
        for i in 0..cells.len()
            invariant
                cells.len() <= u32::MAX,
                grid.width == width,
                grid.length == length,
                grid.heights@ == generated_heights(cells@.take(i as int)),
                grid.surfaces@ == generated_surfaces(cells@.take(i as int)),
                grid.objects@ == tree_objects(tree_positions(cells@.take(i as int))),
        {
            let cell = cells[i];
            let ghost prefix = cells@.take(i as int);
            assert(cells@.take(i + 1).drop_last() =~= prefix);
            let key = cell.pos.to_key();
            grid.heights.insert(key, cell.height);
            let surface = if cell.below_water {
                Surface::Water
            } else {
                Surface::Normal
            };
            grid.surfaces.insert(key, surface);
            if !cell.below_water && cell.tree {
                proof {
                    lemma_tree_count(prefix);
                    lemma_next_id_after_trees(tree_positions(prefix));
                }
                let _instance_id = grid.push_object(ObjectInstance::Structure(StructureInstance::new(TREE_STRUCTURE_ID, cell.pos)));
                assert(grid.objects@ =~= tree_objects(tree_positions(cells@.take(i + 1))));
            }
        }
        assert(cells@.take(cells.len() as int) =~= cells@);
        proof {
            lemma_generated_cells_agree(cells@);
        }
        grid
    }

    /// The height of the cell at `pos`, if the grid has that cell.
    pub fn cell_height(&self, pos: Hex) -> (h: Option<u16>)
        ensures
            h == (if self.heights@.contains_key(pos.key()) {
                Some(self.heights@[pos.key()])
            } else {
                None
            }),
    {
        match self.heights.get(&pos.to_key()) {
            Some(h) => Some(*h),
            None => None,
        }
    }

    /// The surface of the cell at `pos`, if the grid records one.
    pub fn cell_surface(&self, pos: Hex) -> (s: Option<Surface>)
        ensures
            s == (if self.surfaces@.contains_key(pos.key()) {
                Some(self.surfaces@[pos.key()])
            } else {
                None
            }),
    {
        match self.surfaces.get(&pos.to_key()) {
            Some(s) => Some(*s),
            None => None,
        }
    }

    /// Adds the specified object to the objects map and returns its new
    /// instance id: one past the largest id in use, or 0 on an empty map.
    pub fn push_object(&mut self, object: ObjectInstance) -> (instance_id: u32)
        requires
            next_instance_id(old(self).objects@) <= u32::MAX,
        ensures
            instance_id == next_instance_id(old(self).objects@),
            !old(self).objects@.contains_key(instance_id),
            final(self).objects@ == old(self).objects@.insert(instance_id, object),
            final(self).heights@ == old(self).heights@,
            final(self).surfaces@ == old(self).surfaces@,
            final(self).width == old(self).width,
            final(self).length == old(self).length,
    {
        let instance_id = match last_instance_id(&self.objects) {
            Some(id) => id + 1,
            None => 0,
        };
        let replaced = self.objects.insert(instance_id, object);
        assert(replaced is None);
        instance_id
    }

    /// Finds all structures that stand on the specified cell and returns their
    /// instance ids in increasing order, or `None` when there are none.
    pub fn get_cell_objects(&self, pos: Hex) -> (r: Option<Vec<u32>>)
        ensures
            r is None <==> forall|id: u32|
                self.objects@.contains_key(id) ==> !is_structure_at(self.objects@[id], pos),
            r matches Some(ids) ==> ids_at(self.objects@, pos, ids@),
    {
        let mut results: Vec<u32> = Vec::new();
        let ghost entries = spec_btree_map_iter(&self.objects).remaining();
        let ghost keys = entries.map_values(|kv: (&u32, &ObjectInstance)| *kv.0);
        let ghost mut found: Seq<int> = Seq::empty();
        let ghost mut n: int = 0;
        for (instance_id, object) in it: self.objects.iter()
            invariant
                it.seq() == entries,
                n == it.index(),
                keys == entries.map_values(|kv: (&u32, &ObjectInstance)| *kv.0),
                increasing_seq(keys),
                found.len() == results.len(),
                forall|k: int|
                    0 <= k < results.len() ==> 0 <= #[trigger] found[k] < n
                        && results@[k] == *entries[found[k]].0
                        && is_structure_at(*entries[found[k]].1, pos),
                forall|j: int|
                    0 <= j < n && is_structure_at(*entries[j].1, pos)
                        ==> results@.contains(*entries[j].0),
                forall|k: int, l: int| 0 <= k < l < results.len() ==> results@[k] < results@[l],
                forall|k: int, j: int|
                    0 <= k < results.len() && n <= j < entries.len()
                        ==> results@[k] < *entries[j].0,
        {
            let ghost j = n;
            assert(*instance_id == *entries[j].0 && *object == *entries[j].1);
            assert forall|jj: int| j < jj < entries.len() implies *entries[j].0 < *entries[jj].0 by {
                assert(keys[j] == *entries[j].0);
                assert(keys[jj] == *entries[jj].0);
                lemma_increasing_ids(keys, j, jj);
            }
            match object {
                ObjectInstance::Structure(structure) => {
                    if structure.pos == pos {
                        let ghost before = results@;
                        results.push(*instance_id);
                        proof {
                            found = found.push(j);
                            assert forall|i: int|
                                0 <= i < j + 1 && is_structure_at(*entries[i].1, pos)
                                    implies results@.contains(*entries[i].0) by {
                                if i < j {
                                    assert(before.contains(*entries[i].0));
                                    let w = choose|w: int| 0 <= w < before.len() && before[w] == *entries[i].0;
                                    assert(results@[w] == before[w]);
                                } else {
                                    assert(results@[results.len() - 1] == *entries[j].0);
                                }
                            }
                        }
                    }
                },
                ObjectInstance::Lift(_lift) => {},
            }
            proof { n = n + 1; }
        }
        assert(n == entries.len());
        proof {
            let m = self.objects@;
            assert forall|id: u32| m.contains_key(id) && is_structure_at(m[id], pos)
                implies results@.contains(id) by {
                assert(entries.contains((&id, &m[id])));
                let j = choose|j: int| 0 <= j < entries.len() && entries[j] == (&id, &m[id]);
                assert(is_structure_at(*entries[j].1, pos));
            }
            assert forall|id: u32| results@.contains(id)
                implies m.contains_key(id) && is_structure_at(m[id], pos) by {
                let k = choose|k: int| 0 <= k < results.len() && results@[k] == id;
                let j = found[k];
                assert(m.contains_key(*entries[j].0) && m[*entries[j].0] == *entries[j].1);
            }
            if results.len() > 0 {
                assert(results@.contains(results@[0]));
            }
        }
        if results.len() == 0 {
            return None;
        }
        Some(results)
    }
}

} // verus!
