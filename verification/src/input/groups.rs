//! Groups: named sets of cells that can be selected as a whole.

use crate::data::coord::CoordSet;
use crate::data::group::group_models;
use crate::data::group::Group;
use crate::data::group::GroupModel;
use crate::data::selection::bounding_rect;
use crate::data::selection::compute_bounding_rect;
use crate::data::selection::Selection;
use crate::data::selection::SelectionKind;
use crate::data::selection::SelectionModel;
use crate::data::selection::SelectionStateModel;
use crate::input::dispatcher::apply_changes_and_record;
use crate::rendering::canvas::CanvasRenderer;
use crate::state::ApplicationState;
use crate::state::CellChange;
use crate::state::Editor;
use crate::state::StateModel;
use vstd::prelude::*;
use vstd::string::StringExecFns;

verus! {

/// The character of a decimal digit.
pub open spec fn digit_char(d: nat) -> char {
    if d == 0 {
        '0'
    } else if d == 1 {
        '1'
    } else if d == 2 {
        '2'
    } else if d == 3 {
        '3'
    } else if d == 4 {
        '4'
    } else if d == 5 {
        '5'
    } else if d == 6 {
        '6'
    } else if d == 7 {
        '7'
    } else if d == 8 {
        '8'
    } else {
        '9'
    }
}

/// A number written in decimal, without leading zeros.
pub open spec fn decimal_digits(n: nat) -> Seq<char>
    decreases n,
{
    if n < 10 {
        seq![digit_char(n)]
    } else {
        decimal_digits(n / 10).push(digit_char(n % 10))
    }
}

/// The name that a new group gets: the word Group, a space, and its id.
pub open spec fn group_name(id: u32) -> Seq<char> {
    "Group "@ + decimal_digits(id as nat)
}

/// `i` is the place of the first group with this id.
pub open spec fn is_first_with_id(groups: Seq<GroupModel>, id: u32, i: int) -> bool {
    &&& 0 <= i < groups.len()
    &&& groups[i].id == id
    &&& forall|j: int| 0 <= j < i ==> (#[trigger] groups[j]).id != id
}

/// The place of the first group with this id, if there is one.
pub open spec fn group_position(groups: Seq<GroupModel>, id: u32) -> Option<int> {
    if exists|i: int| is_first_with_id(groups, id, i) {
        Some(choose|i: int| is_first_with_id(groups, id, i))
    } else {
        None
    }
}

/// `i` is the place of the first group made of exactly these cells.
pub open spec fn is_first_with_cells(groups: Seq<GroupModel>, cells: Set<(i32, i32)>, i: int) -> bool {
    &&& 0 <= i < groups.len()
    &&& groups[i].cells == cells
    &&& forall|j: int| 0 <= j < i ==> (#[trigger] groups[j]).cells != cells
}

/// The id of the first group made of exactly these cells, if there is one.
pub open spec fn group_of_cells(groups: Seq<GroupModel>, cells: Set<(i32, i32)>) -> Option<u32> {
    if exists|i: int| is_first_with_cells(groups, cells, i) {
        Some(groups[choose|i: int| is_first_with_cells(groups, cells, i)].id)
    } else {
        None
    }
}

/// `index` with every cell of `cells` assigned to group `id`.
pub open spec fn assign_cells(index: Map<(i32, i32), u32>, cells: Set<(i32, i32)>, id: u32) -> Map<
    (i32, i32),
    u32,
> {
    Map::new(
        |c: (i32, i32)| index.contains_key(c) || cells.contains(c),
        |c: (i32, i32)|
            if cells.contains(c) {
                id
            } else {
                index[c]
            },
    )
}

impl StateModel {
    /// The selected cells become a new group, which is then the selected
    /// group. An empty selection makes no group.
    pub open spec fn create_group_from_selection(self) -> StateModel {
        match self.selection.current {
            Some(sel) => if sel.cells.is_empty() {
                self
            } else {
                let id = self.next_group_id;
                StateModel {
                    groups: self.groups.push(
                        GroupModel { id, name: group_name(id), cells: sel.cells },
                    ),
                    group_index: assign_cells(self.group_index, sel.cells, id),
                    next_group_id: vstd::wrapping::u32_specs::wrapping_add(id, 1),
                    selected_group_id: Some(id),
                    ..self
                }
            },
            None => self,
        }
    }

    /// The cells of the group become the selection. A group without cells,
    /// or an id that no group has, changes nothing.
    pub open spec fn select_group(self, id: u32) -> StateModel {
        match group_position(self.groups, id) {
            Some(pos) => if self.groups[pos].cells.is_empty() {
                self
            } else {
                StateModel {
                    selection: SelectionStateModel {
                        current: Some(
                            SelectionModel {
                                rect: bounding_rect(self.groups[pos].cells),
                                cells: self.groups[pos].cells,
                                preview: None,
                            },
                        ),
                        ..self.selection
                    },
                    selected_group_id: Some(id),
                    ..self
                }
            },
            None => self,
        }
    }

    /// The group gets a new name.
    pub open spec fn rename_group(self, id: u32, name: Seq<char>) -> StateModel {
        match group_position(self.groups, id) {
            Some(pos) => StateModel {
                groups: self.groups.update(pos, GroupModel { name, ..self.groups[pos] }),
                ..self
            },
            None => self,
        }
    }

    /// The group is dissolved: its cells belong to no group any more, and it
    /// is no longer the selected group. The cells stay painted.
    pub open spec fn ungroup(self, id: u32) -> StateModel {
        match group_position(self.groups, id) {
            Some(pos) => StateModel {
                groups: self.groups.remove(pos),
                group_index: self.group_index.remove_keys(self.groups[pos].cells),
                selected_group_id: if self.selected_group_id == Some(id) {
                    None
                } else {
                    self.selected_group_id
                },
                ..self
            },
            None => self,
        }
    }

    /// A grouped cell went from `from` to `to`: it stays in its group under
    /// its new coordinate.
    pub open spec fn move_member(self, from: (i32, i32), to: (i32, i32)) -> StateModel {
        if self.group_index.contains_key(from) {
            let id = self.group_index[from];
            StateModel {
                group_index: self.group_index.remove(from).insert(to, id),
                groups: match group_position(self.groups, id) {
                    Some(pos) => self.groups.update(
                        pos,
                        GroupModel {
                            cells: self.groups[pos].cells.remove(from).insert(to),
                            ..self.groups[pos]
                        },
                    ),
                    None => self.groups,
                },
                ..self
            }
        } else {
            self
        }
    }

    /// Each pair of `moved` in turn names a cell that went from its first
    /// coordinate to its second.
    pub open spec fn update_membership_on_move(
        self,
        moved: Seq<((i32, i32), (i32, i32))>,
    ) -> StateModel
        decreases moved.len(),
    {
        if moved.len() == 0 {
            self
        } else {
            self.update_membership_on_move(moved.drop_last()).move_member(
                moved.last().0,
                moved.last().1,
            )
        }
    }

    /// A cell was deleted: it leaves its group.
    pub open spec fn remove_member(self, cell: (i32, i32)) -> StateModel {
        if self.group_index.contains_key(cell) {
            let id = self.group_index[cell];
            StateModel {
                group_index: self.group_index.remove(cell),
                groups: match group_position(self.groups, id) {
                    Some(pos) => self.groups.update(
                        pos,
                        GroupModel { cells: self.groups[pos].cells.remove(cell), ..self.groups[pos] },
                    ),
                    None => self.groups,
                },
                ..self
            }
        } else {
            self
        }
    }

    /// Each cell of `cells` in turn leaves its group.
    pub open spec fn remove_cells_from_groups(self, cells: Seq<(i32, i32)>) -> StateModel
        decreases cells.len(),
    {
        if cells.len() == 0 {
            self
        } else {
            self.remove_cells_from_groups(cells.drop_last()).remove_member(cells.last())
        }
    }

    /// The selected group is the first group made of exactly the selected
    /// cells, and none if there is no such group or nothing is selected.
    pub open spec fn sync_selected_group_from_selection(self) -> StateModel {
        StateModel {
            selected_group_id: match self.selection.current {
                Some(sel) => group_of_cells(self.groups, sel.cells),
                None => None,
            },
            ..self
        }
    }
}

/// The place of the first group with this id.
pub fn find_group(groups: &Vec<Group>, id: u32) -> (pos: Option<usize>)
    ensures
        match pos {
            Some(p) => group_position(group_models(groups@), id) == Some(p as int) && p
                < groups@.len(),
            None => group_position(group_models(groups@), id) is None,
        },
{
    let ghost models = group_models(groups@);
    let mut i: usize = 0;
    while i < groups.len()
        invariant
            i <= groups@.len(),
            models == group_models(groups@),
            forall|j: int| 0 <= j < i ==> (#[trigger] models[j]).id != id,
        decreases groups@.len() - i,
    {
        if groups[i].id == id {
            proof {
                assert(models[i as int] == groups@[i as int]@);
                assert(is_first_with_id(models, id, i as int));
                let chosen = choose|k: int| is_first_with_id(models, id, k);
                assert(models[chosen].id == id);
                assert(models[i as int].id == id);
                if chosen < i {
                    assert(models[chosen].id != id);
                }
                if i < chosen {
                    assert(models[i as int].id != id);
                }
            }
            return Some(i);
        }
        i += 1;
    }
    None
}

fn digit_str(d: u32) -> (s: &'static str)
    requires
        d < 10,
    ensures
        s@ == seq![digit_char(d as nat)],
{
    proof {
        reveal_strlit("0");
        reveal_strlit("1");
        reveal_strlit("2");
        reveal_strlit("3");
        reveal_strlit("4");
        reveal_strlit("5");
        reveal_strlit("6");
        reveal_strlit("7");
        reveal_strlit("8");
        reveal_strlit("9");
    }
    if d == 0 {
        "0"
    } else if d == 1 {
        "1"
    } else if d == 2 {
        "2"
    } else if d == 3 {
        "3"
    } else if d == 4 {
        "4"
    } else if d == 5 {
        "5"
    } else if d == 6 {
        "6"
    } else if d == 7 {
        "7"
    } else if d == 8 {
        "8"
    } else {
        "9"
    }
}

fn append_decimal(text: &mut String, n: u32)
    ensures
        final(text)@ == old(text)@ + decimal_digits(n as nat),
    decreases n,
{
    if n >= 10 {
        append_decimal(text, n / 10);
    }
    text.append(digit_str(n % 10));
}

/// The name of a new group with this id.
pub fn new_group_name(id: u32) -> (name: String)
    ensures
        name@ == group_name(id),
{
    let mut name = String::from_str("Group ");
    append_decimal(&mut name, id);
    name
}

/// Makes a group of the selected cells; see
/// [`StateModel::create_group_from_selection`].
pub fn create_group_from_selection(state: &mut ApplicationState)
    ensures
        final(state)@ == old(state)@.create_group_from_selection(),
{
    let cells = match &state.selection.current {
        Some(sel) => sel.cells().clone(),
        None => {
            return ;
        },
    };
    if cells.is_empty() {
        return ;
    }
    let id = state.next_group_id;
    state.next_group_id = id.wrapping_add(1);
    let members = cells.to_vec();
    let mut i: usize = 0;
    while i < members.len()
        invariant
            i <= members@.len(),
            id == old(state).next_group_id,
            state@ == (StateModel {
                group_index: assign_cells(
                    old(state).group_index@,
                    members@.take(i as int).to_set(),
                    id,
                ),
                next_group_id: vstd::wrapping::u32_specs::wrapping_add(id, 1),
                ..old(state)@
            }),
        decreases members@.len() - i,
    {
        proof {
            crate::input::edit::lemma_take_to_set_step(members@, i as int);
        }
        state.group_index.insert(members[i], id);
        i += 1;
    }
    proof {
        assert(members@.take(members@.len() as int) =~= members@);
    }
    let group = Group { id, name: new_group_name(id), cells };
    state.groups.push(group);
    state.selected_group_id = Some(id);
}

/// Makes the cells of a group the selection; see
/// [`StateModel::select_group`].
pub fn select_group(state: &mut ApplicationState, id: u32)
    ensures
        final(state)@ == old(state)@.select_group(id),
        old(state)@.selection.is_tight() ==> final(state)@.selection.is_tight(),
{
    match find_group(&state.groups, id) {
        Some(pos) => {
            let cells = state.groups[pos].cells.clone();
            match compute_bounding_rect(&cells) {
                Some(rect) => {
                    state.selection.current =
                    Some(Selection { rect, kind: SelectionKind::Cells(cells), preview: None });
                    state.selected_group_id = Some(id);
                },
                None => {},
            }
        },
        None => {},
    }
}

/// Gives a group a new name; see [`StateModel::rename_group`].
pub fn rename_group(state: &mut ApplicationState, id: u32, new_name: String)
    ensures
        final(state)@ == old(state)@.rename_group(id, new_name@),
{
    match find_group(&state.groups, id) {
        Some(pos) => {
            let mut group = state.groups.remove(pos);
            group.name = new_name;
            state.groups.insert(pos, group);
        },
        None => {},
    }
}

/// Takes every cell of `cells` out of `index`.
fn remove_from_index(index: &mut crate::data::coord::CoordMap<u32>, cells: &CoordSet)
    ensures
        final(index)@ == old(index)@.remove_keys(cells@),
{
    let members = cells.to_vec();
    let mut i: usize = 0;
    while i < members.len()
        invariant
            i <= members@.len(),
            index@ == old(index)@.remove_keys(members@.take(i as int).to_set()),
        decreases members@.len() - i,
    {
        proof {
            crate::input::edit::lemma_take_to_set_step(members@, i as int);
        }
        index.remove(members[i]);
        i += 1;
    }
    proof {
        assert(members@.take(members@.len() as int) =~= members@);
    }
}

/// Dissolves a group; see [`StateModel::ungroup`].
pub fn ungroup(state: &mut ApplicationState, id: u32)
    ensures
        final(state)@ == old(state)@.ungroup(id),
{
    match find_group(&state.groups, id) {
        Some(pos) => {
            let group = state.groups.remove(pos);
            remove_from_index(&mut state.group_index, &group.cells);
            let selected = match state.selected_group_id {
                Some(s) => s == id,
                None => false,
            };
            if selected {
                state.selected_group_id = None;
            }
        },
        None => {},
    }
}

/// Changes the cells of the group at `pos`: takes `from` out and, if `to` is
/// given, puts it in.
fn change_member(state: &mut ApplicationState, pos: usize, from: (i32, i32), to: Option<(i32, i32)>)
    requires
        pos < old(state).groups@.len(),
    ensures
        final(state)@ == (StateModel {
            groups: old(state)@.groups.update(
                pos as int,
                GroupModel {
                    cells: match to {
                        Some(t) => old(state)@.groups[pos as int].cells.remove(from).insert(t),
                        None => old(state)@.groups[pos as int].cells.remove(from),
                    },
                    ..old(state)@.groups[pos as int]
                },
            ),
            ..old(state)@
        }),
{
    let mut group = state.groups.remove(pos);
    group.cells.remove(from);
    match to {
        Some(t) => {
            group.cells.insert(t);
        },
        None => {},
    }
    state.groups.insert(pos, group);
}

/// Renames one grouped cell; see [`StateModel::move_member`].
fn move_member(state: &mut ApplicationState, from: (i32, i32), to: (i32, i32))
    ensures
        final(state)@ == old(state)@.move_member(from, to),
{
    match state.group_index.remove(from) {
        Some(id) => {
            state.group_index.insert(to, id);
            match find_group(&state.groups, id) {
                Some(pos) => {
                    change_member(state, pos, from, Some(to));
                },
                None => {},
            }
        },
        None => {},
    }
}

/// Keeps the groups up to date after cells were moved; see
/// [`StateModel::update_membership_on_move`].
pub fn update_membership_on_move(state: &mut ApplicationState, moved: &[((i32, i32), (i32, i32))])
    ensures
        final(state)@ == old(state)@.update_membership_on_move(moved@),
{
    let mut i: usize = 0;
    while i < moved.len()
        invariant
            i <= moved@.len(),
            state@ == old(state)@.update_membership_on_move(moved@.take(i as int)),
        decreases moved@.len() - i,
    {
        proof {
            let next = moved@.take(i + 1);
            assert(next.drop_last() =~= moved@.take(i as int));
            assert(next.last() == moved@[i as int]);
        }
        let pair = moved[i];
        move_member(state, pair.0, pair.1);
        i += 1;
    }
    proof {
        assert(moved@.take(moved@.len() as int) =~= moved@);
    }
}

/// Takes one deleted cell out of its group; see
/// [`StateModel::remove_member`].
fn remove_member(state: &mut ApplicationState, cell: (i32, i32))
    ensures
        final(state)@ == old(state)@.remove_member(cell),
{
    match state.group_index.remove(cell) {
        Some(id) => {
            match find_group(&state.groups, id) {
                Some(pos) => {
                    change_member(state, pos, cell, None);
                },
                None => {},
            }
        },
        None => {},
    }
}

/// Keeps the groups up to date after cells were deleted; see
/// [`StateModel::remove_cells_from_groups`].
pub fn remove_cells_from_groups(state: &mut ApplicationState, cells: &[(i32, i32)])
    ensures
        final(state)@ == old(state)@.remove_cells_from_groups(cells@),
{
    let mut i: usize = 0;
    while i < cells.len()
        invariant
            i <= cells@.len(),
            state@ == old(state)@.remove_cells_from_groups(cells@.take(i as int)),
        decreases cells@.len() - i,
    {
        proof {
            let next = cells@.take(i + 1);
            assert(next.drop_last() =~= cells@.take(i as int));
            assert(next.last() == cells@[i as int]);
        }
        remove_member(state, cells[i]);
        i += 1;
    }
    proof {
        assert(cells@.take(cells@.len() as int) =~= cells@);
    }
}

/// Whether two sets hold the same cells.
pub fn same_cells(a: &CoordSet, b: &CoordSet) -> (same: bool)
    ensures
        same == (a@ == b@),
{
    if a.len() != b.len() {
        return false;
    }
    let members = a.to_vec();
    let mut i: usize = 0;
    while i < members.len()
        invariant
            i <= members@.len(),
            members@.to_set() == a@,
            forall|j: int| 0 <= j < i ==> b@.contains(#[trigger] members@[j]),
        decreases members@.len() - i,
    {
        if !b.contains(members[i]) {
            return false;
        }
        i += 1;
    }
    proof {
        assert forall|c: (i32, i32)| a@.contains(c) implies b@.contains(c) by {
            assert(members@.to_set().contains(c));
            let j = choose|j: int| 0 <= j < members@.len() && members@[j] == c;
            assert(b@.contains(members@[j]));
        }
        vstd::set_lib::lemma_subset_equality(a@, b@);
    }
    true
}

/// Finds the group that the selection stands for; see
/// [`StateModel::sync_selected_group_from_selection`].
pub fn sync_selected_group_from_selection(state: &mut ApplicationState)
    ensures
        final(state)@ == old(state)@.sync_selected_group_from_selection(),
{
    let found = match &state.selection.current {
        Some(sel) => {
            let selected = sel.cells();
            let ghost models = group_models(state.groups@);
            let mut found: Option<u32> = None;
            let mut i: usize = 0;
            while i < state.groups.len() && found.is_none()
                invariant
                    i <= state.groups@.len(),
                    models == group_models(state.groups@),
                    found is None ==> forall|j: int|
                        0 <= j < i ==> (#[trigger] models[j]).cells != selected@,
                    found is Some ==> group_of_cells(models, selected@) == found,
                decreases
                        state.groups@.len() - i + if found is None {
                            1int
                        } else {
                            0int
                        },
            {
                if same_cells(&state.groups[i].cells, selected) {
                    found = Some(state.groups[i].id);
                    proof {
                        assert(is_first_with_cells(models, selected@, i as int));
                        let chosen = choose|k: int| is_first_with_cells(models, selected@, k);
                        if chosen < i {
                            assert(models[chosen].cells != selected@);
                        }
                        if i < chosen {
                            assert(models[i as int].cells != selected@);
                        }
                    }
                } else {
                    i += 1;
                }
            }
            found
        },
        None => None,
    };
    state.selected_group_id = found;
}

/// `cmd` clears each cell of `cells` once, in some order, and leaves it to
/// the recording to say what the cells held.
pub open spec fn clears_each_once(cmd: Seq<CellChange>, cells: Set<(i32, i32)>) -> bool {
    &&& forall|i: int|
        0 <= i < cmd.len() ==> cells.contains((#[trigger] cmd[i]).coord) && cmd[i].before is None
            && cmd[i].after is None
    &&& forall|c: (i32, i32)| #[trigger]
        cells.contains(c) ==> exists|i: int| 0 <= i < cmd.len() && (#[trigger] cmd[i]).coord == c
    &&& forall|i: int, j: int|
        0 <= i < j < cmd.len() ==> (#[trigger] cmd[i]).coord != (#[trigger] cmd[j]).coord
}

impl Editor {
    /// The painted cells of the group with this id, which go when the group
    /// is deleted.
    pub open spec fn doomed_cells(self, id: u32) -> Set<(i32, i32)> {
        match group_position(self.state.groups, id) {
            Some(pos) => self.state.groups[pos].cells.intersect(self.state.cells.dom()),
            None => Set::empty(),
        }
    }

    /// The group is dissolved and its painted cells are cleared by `cmd`,
    /// which is recorded for undo unless it is empty. If the group was the
    /// selected group, nothing is selected any more.
    pub open spec fn delete_group_and_cells(self, id: u32, cmd: Seq<CellChange>) -> Editor {
        match group_position(self.state.groups, id) {
            Some(pos) => {
                let ungrouped = Editor {
                    state: StateModel {
                        groups: self.state.groups.remove(pos),
                        group_index: self.state.group_index.remove_keys(self.state.groups[pos].cells),
                        ..self.state
                    },
                    ..self
                };
                let cleared = if cmd.len() == 0 {
                    ungrouped
                } else {
                    ungrouped.record(cmd)
                };
                if self.state.selected_group_id == Some(id) {
                    Editor {
                        state: StateModel {
                            selected_group_id: None,
                            selection: SelectionStateModel {
                                current: None,
                                ..cleared.state.selection
                            },
                            ..cleared.state
                        },
                        ..cleared
                    }
                } else {
                    cleared
                }
            },
            None => self,
        }
    }
}

/// Deletes a group together with its cells. The cells are cleared by one
/// command, which lists them in no particular order; see
/// [`Editor::delete_group_and_cells`].
pub fn delete_group_and_cells(state: &mut ApplicationState, canvas: &mut CanvasRenderer, id: u32)
    ensures
        exists|cmd: Seq<CellChange>| #[trigger]
            clears_each_once(cmd, Editor::of(old(state), old(canvas)).doomed_cells(id))
                && Editor::of(final(state), final(canvas)) == Editor::of(
                old(state),
                old(canvas),
            ).delete_group_and_cells(id, cmd),
{
    let ghost pre = Editor::of(state, canvas);
    match find_group(&state.groups, id) {
        Some(pos) => {
            let ghost before = state.groups@;
            let group = state.groups.remove(pos);
            let members = group.cells.to_vec();
            let mut changes: Vec<CellChange> = Vec::new();
            let mut i: usize = 0;
            while i < members.len()
                invariant
                    i <= members@.len(),
                    members@.no_duplicates(),
                    state.cells@ == pre.state.cells,
                    forall|k: int|
                        0 <= k < changes@.len() ==> (#[trigger] changes@[k]).before is None
                            && changes@[k].after is None && pre.state.cells.contains_key(
                            changes@[k].coord,
                        ) && exists|j: int| 0 <= j < i && members@[j] == changes@[k].coord,
                    forall|j: int|
                        0 <= j < i && pre.state.cells.contains_key(#[trigger] members@[j])
                            ==> exists|k: int|
                            0 <= k < changes@.len() && (#[trigger] changes@[k]).coord == members@[j],
                    forall|k: int, l: int|
                        0 <= k < l < changes@.len() ==> (#[trigger] changes@[k]).coord != (
                        #[trigger] changes@[l]).coord,
                decreases members@.len() - i,
            {
                let c = members[i];
                let ghost recorded = changes@;
                if state.cells.contains(c) {
                    changes.push(CellChange { coord: c, before: None, after: None });
                    proof {
                        assert forall|j: int|
                            0 <= j < i + 1 && pre.state.cells.contains_key(
                                #[trigger] members@[j],
                            ) implies exists|k: int|
                            0 <= k < changes@.len() && (#[trigger] changes@[k]).coord
                                == members@[j] by {
                            if j < i {
                                let k = choose|k: int|
                                    0 <= k < recorded.len() && (#[trigger] recorded[k]).coord
                                        == members@[j];
                                assert(changes@[k].coord == members@[j]);
                            } else {
                                assert(changes@[recorded.len() as int].coord == members@[j]);
                            }
                        }
                        assert forall|k: int| 0 <= k < changes@.len() implies exists|j: int|
                            0 <= j < i + 1 && members@[j] == (#[trigger] changes@[k]).coord by {
                            if k < recorded.len() {
                                let j = choose|j: int|
                                    0 <= j < i && members@[j] == recorded[k].coord;
                                assert(members@[j] == changes@[k].coord);
                            } else {
                                assert(members@[i as int] == changes@[k].coord);
                            }
                        }
                    }
                }
                i += 1;
            }
            remove_from_index(&mut state.group_index, &group.cells);
            let ghost cmd = changes@;
            proof {
                let doomed = pre.doomed_cells(id);
                assert forall|k: int| 0 <= k < cmd.len() implies doomed.contains(
                    (#[trigger] cmd[k]).coord,
                ) by {
                    let j = choose|j: int| 0 <= j < members@.len() && members@[j] == cmd[k].coord;
                    assert(members@.to_set().contains(members@[j]));
                }
                assert forall|c: (i32, i32)| #[trigger] doomed.contains(c) implies exists|k: int|
                    0 <= k < cmd.len() && (#[trigger] cmd[k]).coord == c by {
                    assert(members@.to_set().contains(c));
                    let j = choose|j: int| 0 <= j < members@.len() && members@[j] == c;
                    assert(pre.state.cells.contains_key(members@[j]));
                }
                assert(clears_each_once(cmd, doomed));
            }
            if changes.len() > 0 {
                apply_changes_and_record(state, canvas, changes);
            }
            let selected = match state.selected_group_id {
                Some(s) => s == id,
                None => false,
            };
            if selected {
                state.selected_group_id = None;
                state.selection.current = None;
            }
        },
        None => {
            proof {
                let cmd = Seq::<CellChange>::empty();
                assert(clears_each_once(cmd, pre.doomed_cells(id)));
                assert(Editor::of(state, canvas) == pre.delete_group_and_cells(id, cmd));
            }
        },
    }
}

} // verus!
