//! Recording changes for undo, undoing them, and the dispatch of one frame
//! of input to the tools.

use crate::data::cell::grid_set;
use crate::data::cell::Cell;
use crate::input::clipboard::copy_selection;
use crate::input::clipboard::cut_selection;
use crate::input::clipboard::paste_clipboard_at_cursor;
use crate::input::selection::delete_selection;
use crate::input::selection::handle_select_tool;
use crate::input::selection::PointerInput;
use crate::input::tools::perform_drawing;
use crate::rendering::canvas::lemma_mark_cells_step;
use crate::rendering::canvas::mark_cells;
use crate::rendering::canvas::CanvasRenderer;
use crate::state::ApplicationState;
use crate::state::CellChange;
use crate::state::Command;
use crate::state::Editor;
use crate::state::Mode;
use crate::state::StateModel;
use vstd::prelude::*;

verus! {

/// `change` with its `before` value taken from `grid` if it has none.
pub open spec fn fill_before(change: CellChange, grid: Map<(i32, i32), Cell>) -> CellChange {
    if change.before is None {
        CellChange { before: grid.get(change.coord), ..change }
    } else {
        change
    }
}

/// `changes`, each with its `before` value taken from `grid` if it has none.
pub open spec fn fill_all_before(changes: Seq<CellChange>, grid: Map<(i32, i32), Cell>) -> Seq<
    CellChange,
> {
    Seq::new(changes.len(), |i: int| fill_before(changes[i], grid))
}

/// `grid` after the `after` values of `changes` were written, in order.
pub open spec fn apply_after(grid: Map<(i32, i32), Cell>, changes: Seq<CellChange>) -> Map<
    (i32, i32),
    Cell,
>
    decreases changes.len(),
{
    if changes.len() == 0 {
        grid
    } else {
        grid_set(apply_after(grid, changes.drop_last()), changes.last().coord, changes.last().after)
    }
}

/// `grid` after the `before` values of `changes` were written, in order.
pub open spec fn apply_before(grid: Map<(i32, i32), Cell>, changes: Seq<CellChange>) -> Map<
    (i32, i32),
    Cell,
>
    decreases changes.len(),
{
    if changes.len() == 0 {
        grid
    } else {
        grid_set(apply_before(grid, changes.drop_last()), changes.last().coord, changes.last().before)
    }
}

/// The cells that `changes` speak of.
pub open spec fn changed_cells(changes: Seq<CellChange>) -> Set<(i32, i32)> {
    Set::new(|c: (i32, i32)| exists|i: int| 0 <= i < changes.len() && (#[trigger] changes[i]).coord == c)
}

impl Editor {
    /// `changes` are applied and recorded: each change that names no
    /// `before` value gets the one the grid holds, all of them before any is
    /// applied; then the `after` values are written in order, the chunks of
    /// the changed cells become dirty, and the changes are the newest command
    /// of the history.
    pub open spec fn record(self, changes: Seq<CellChange>) -> Editor {
        let filled = fill_all_before(changes, self.state.cells);
        Editor {
            state: StateModel {
                cells: apply_after(self.state.cells, filled),
                history: self.state.history.push(filled),
                ..self.state
            },
            chunks: mark_cells(self.chunks, changed_cells(filled)),
        }
    }

    /// The newest command leaves the history and its `before` values are
    /// written back in order; the chunks of its cells become dirty. An empty
    /// history changes nothing.
    pub open spec fn undo(self) -> Editor {
        match self.state.history.newest() {
            Some(cmd) => Editor {
                state: StateModel {
                    cells: apply_before(self.state.cells, cmd),
                    history: self.state.history.pop(),
                    ..self.state
                },
                chunks: mark_cells(self.chunks, changed_cells(cmd)),
            },
            None => self,
        }
    }
}

proof fn lemma_changed_cells_step(changes: Seq<CellChange>, i: int)
    requires
        0 <= i < changes.len(),
    ensures
        changed_cells(changes.take(i + 1)) == changed_cells(changes.take(i)).insert(changes[i].coord),
        changes.take(i + 1).drop_last() == changes.take(i),
        changes.take(i + 1).last() == changes[i],
        changed_cells(changes.take(0)) == Set::<(i32, i32)>::empty(),
        changes.take(changes.len() as int) == changes,
{
    let longer = changes.take(i + 1);
    let shorter = changes.take(i);
    assert forall|c: (i32, i32)|
        changed_cells(longer).contains(c) <==> changed_cells(shorter).insert(
            changes[i].coord,
        ).contains(c) by {
        if changed_cells(longer).contains(c) {
            let j = choose|j: int| 0 <= j < longer.len() && (#[trigger] longer[j]).coord == c;
            if j < i {
                assert(shorter[j].coord == c);
            }
        }
        if changed_cells(shorter).contains(c) {
            let j = choose|j: int| 0 <= j < shorter.len() && (#[trigger] shorter[j]).coord == c;
            assert(longer[j].coord == c);
        }
        if c == changes[i].coord {
            assert(longer[i].coord == c);
        }
    }
    assert(changed_cells(longer) =~= changed_cells(shorter).insert(changes[i].coord));
    assert(longer.drop_last() =~= shorter);
    assert(changed_cells(changes.take(0)) =~= Set::<(i32, i32)>::empty());
    assert(changes.take(changes.len() as int) =~= changes);
}

/// Writes one side of every change to the grid, in order, and marks the
/// chunks of the changed cells dirty.
fn apply_changes(
    state: &mut ApplicationState,
    canvas: &mut CanvasRenderer,
    changes: &Vec<CellChange>,
    forward: bool,
)
    ensures
        final(state)@ == (StateModel {
            cells: if forward {
                apply_after(old(state)@.cells, changes@)
            } else {
                apply_before(old(state)@.cells, changes@)
            },
            ..old(state)@
        }),
        final(canvas)@ == mark_cells(old(canvas)@, changed_cells(changes@)),
{
    let mut i: usize = 0;
    proof {
        lemma_mark_cells_step(canvas@, Set::empty(), (0, 0));
        if changes@.len() > 0 {
            lemma_changed_cells_step(changes@, 0);
        } else {
            assert(changed_cells(changes@.take(0)) =~= Set::<(i32, i32)>::empty());
        }
    }
    while i < changes.len()
        invariant
            i <= changes@.len(),
            state@ == (StateModel {
                cells: if forward {
                    apply_after(old(state)@.cells, changes@.take(i as int))
                } else {
                    apply_before(old(state)@.cells, changes@.take(i as int))
                },
                ..old(state)@
            }),
            canvas@ == mark_cells(old(canvas)@, changed_cells(changes@.take(i as int))),
        decreases changes@.len() - i,
    {
        let change = changes[i];
        proof {
            lemma_changed_cells_step(changes@, i as int);
            lemma_mark_cells_step(
                old(canvas)@,
                changed_cells(changes@.take(i as int)),
                change.coord,
            );
        }
        state.cells.set(
            change.coord,
            if forward {
                change.after
            } else {
                change.before
            },
        );
        canvas.mark_dirty(change.coord);
        i += 1;
    }
}

/// Applies `changes` to the grid and records them for undo; see
/// [`Editor::record`].
pub fn apply_changes_and_record(
    state: &mut ApplicationState,
    canvas: &mut CanvasRenderer,
    changes: Vec<CellChange>,
)
    ensures
        Editor::of(final(state), final(canvas)) == Editor::of(old(state), old(canvas)).record(
            changes@,
        ),
{
    let mut filled: Vec<CellChange> = Vec::new();
    let mut i: usize = 0;
    while i < changes.len()
        invariant
            i <= changes@.len(),
            filled@.len() == i,
            forall|j: int| 0 <= j < i ==> filled@[j] == fill_before(changes@[j], state@.cells),
        decreases changes@.len() - i,
    {
        let change = changes[i];
        if change.before.is_none() {
            filled.push(
                CellChange {
                    coord: change.coord,
                    before: state.cells.get(change.coord),
                    after: change.after,
                },
            );
        } else {
            filled.push(change);
        }
        i += 1;
    }
    assert(filled@ =~= fill_all_before(changes@, state@.cells));
    apply_changes(state, canvas, &filled, true);
    state.history.push(Command { changes: filled });
}

/// Undoes the newest command; see [`Editor::undo`].
pub fn undo_last(state: &mut ApplicationState, canvas: &mut CanvasRenderer)
    ensures
        Editor::of(final(state), final(canvas)) == Editor::of(old(state), old(canvas)).undo(),
{
    match state.history.pop() {
        Some(cmd) => {
            apply_changes(state, canvas, &cmd.changes, false);
        },
        None => {},
    }
}

/// What the keyboard and the pointer did during one frame.
#[derive(Clone, Copy, Debug)]
pub struct InputFrame {
    /// A control or command key is held.
    pub ctrl_or_cmd: bool,
    /// The keys that went down in this frame.
    pub key_c: bool,
    pub key_x: bool,
    pub key_v: bool,
    pub key_z: bool,
    pub key_b: bool,
    pub key_e: bool,
    pub key_h: bool,
    pub key_space: bool,
    pub key_delete: bool,
    pub key_backspace: bool,
    /// The pointer.
    pub pointer: PointerInput,
}

impl Editor {
    /// The editor with `mode` as the tool in hand.
    pub open spec fn with_mode(self, mode: Mode) -> Editor {
        Editor { state: StateModel { mode, ..self.state }, ..self }
    }

    /// The clipboard and undo shortcuts of one frame, in the order copy, cut,
    /// paste at the pointer, undo; each needs control or command held.
    pub open spec fn shortcuts(self, frame: InputFrame) -> Editor {
        let copied = if frame.ctrl_or_cmd && frame.key_c {
            Editor { state: self.state.copy_selection(), ..self }
        } else {
            self
        };
        let cut = if frame.ctrl_or_cmd && frame.key_x {
            copied.cut_selection()
        } else {
            copied
        };
        let pasted = if frame.ctrl_or_cmd && frame.key_v {
            cut.paste(frame.pointer.cell)
        } else {
            cut
        };
        if frame.ctrl_or_cmd && frame.key_z {
            pasted.undo()
        } else {
            pasted
        }
    }

    /// The tool keys of one frame: B paints, E erases, V alone selects, H or
    /// the space bar pans. Where several went down, the last of these wins.
    pub open spec fn mode_keys(self, frame: InputFrame) -> Editor {
        let b = if frame.key_b {
            self.with_mode(Mode::Paint)
        } else {
            self
        };
        let e = if frame.key_e {
            b.with_mode(Mode::Erase)
        } else {
            b
        };
        let v = if !frame.ctrl_or_cmd && frame.key_v {
            e.with_mode(Mode::Select)
        } else {
            e
        };
        if frame.key_h || frame.key_space {
            v.with_mode(Mode::Pan)
        } else {
            v
        }
    }

    /// The tool in hand gets the pointer. Panning moves the camera only, so
    /// it leaves the editor as it is.
    pub open spec fn tool(self, pointer: PointerInput) -> Editor {
        match self.state.mode {
            Mode::Paint => self.perform_drawing(pointer, false),
            Mode::Erase => self.perform_drawing(pointer, true),
            Mode::Pan => self,
            Mode::Select => self.select_tool(pointer),
        }
    }

    /// The keyboard of one frame: the shortcuts, then the tool keys, then
    /// the delete key, which deletes the selection.
    pub open spec fn keys(self, frame: InputFrame) -> Editor {
        let keyed = self.shortcuts(frame).mode_keys(frame);
        if frame.key_delete || frame.key_backspace {
            keyed.delete_selection()
        } else {
            keyed
        }
    }

    /// One frame of input: the keyboard, and then the tool in hand.
    pub open spec fn handle_input(self, frame: InputFrame) -> Editor {
        self.keys(frame).tool(frame.pointer)
    }
}

/// The clipboard and undo shortcuts; see [`Editor::shortcuts`].
pub fn handle_shortcuts(
    state: &mut ApplicationState,
    canvas_renderer: &mut CanvasRenderer,
    frame: &InputFrame,
)
    ensures
        Editor::of(final(state), final(canvas_renderer)) == Editor::of(
            old(state),
            old(canvas_renderer),
        ).shortcuts(*frame),
        old(state)@.selection.is_tight() ==> final(state)@.selection.is_tight(),
{
    if frame.ctrl_or_cmd && frame.key_c {
        copy_selection(state);
    }
    if frame.ctrl_or_cmd && frame.key_x {
        cut_selection(state, canvas_renderer);
    }
    if frame.ctrl_or_cmd && frame.key_v {
        paste_clipboard_at_cursor(state, canvas_renderer, frame.pointer.cell);
    }
    if frame.ctrl_or_cmd && frame.key_z {
        undo_last(state, canvas_renderer);
    }
}

/// The tool keys; see [`Editor::mode_keys`].
pub fn handle_mode_keys(
    state: &mut ApplicationState,
    canvas_renderer: &CanvasRenderer,
    frame: &InputFrame,
)
    ensures
        Editor::of(final(state), canvas_renderer) == Editor::of(old(state), canvas_renderer).mode_keys(
            *frame,
        ),
{
    if frame.key_b {
        state.mode = Mode::Paint;
    }
    if frame.key_e {
        state.mode = Mode::Erase;
    }
    if !frame.ctrl_or_cmd && frame.key_v {
        state.mode = Mode::Select;
    }
    if frame.key_h || frame.key_space {
        state.mode = Mode::Pan;
    }
}

/// Hands the pointer to the tool in hand; see [`Editor::tool`].
pub fn handle_tool(
    state: &mut ApplicationState,
    canvas_renderer: &mut CanvasRenderer,
    pointer: &PointerInput,
)
    ensures
        Editor::of(final(state), final(canvas_renderer)) == Editor::of(
            old(state),
            old(canvas_renderer),
        ).tool(*pointer),
        old(state)@.selection.is_tight() ==> final(state)@.selection.is_tight(),
{
    match state.mode {
        Mode::Paint => perform_drawing(state, pointer, false, canvas_renderer),
        Mode::Erase => perform_drawing(state, pointer, true, canvas_renderer),
        Mode::Pan => {},
        Mode::Select => handle_select_tool(state, canvas_renderer, pointer),
    }
}

/// Handles the keyboard of one frame: the shortcuts, the tool keys and
/// the delete key; see [`Editor::keys`].
pub fn handle_keys(
    state: &mut ApplicationState,
    canvas_renderer: &mut CanvasRenderer,
    frame: &InputFrame,
)
    ensures
        Editor::of(final(state), final(canvas_renderer)) == Editor::of(
            old(state),
            old(canvas_renderer),
        ).keys(*frame),
        old(state)@.selection.is_tight() ==> final(state)@.selection.is_tight(),
{
    handle_shortcuts(state, canvas_renderer, frame);
    handle_mode_keys(state, canvas_renderer, frame);
    if frame.key_delete || frame.key_backspace {
        delete_selection(state, canvas_renderer);
    }
}

/// Handles one frame of input; see [`Editor::handle_input`].
pub fn handle_input(
    state: &mut ApplicationState,
    canvas_renderer: &mut CanvasRenderer,
    frame: &InputFrame,
)
    ensures
        Editor::of(final(state), final(canvas_renderer)) == Editor::of(
            old(state),
            old(canvas_renderer),
        ).handle_input(*frame),
        old(state)@.selection.is_tight() ==> final(state)@.selection.is_tight(),
{
    handle_keys(state, canvas_renderer, frame);
    handle_tool(state, canvas_renderer, &frame.pointer);
}

/// Every cell of `grid` is filled, as the cells of a grid always are.
pub open spec fn all_filled(grid: Map<(i32, i32), Cell>) -> bool {
    forall|c: (i32, i32)| grid.contains_key(c) ==> (#[trigger] grid[c]).is_filled
}

/// Every `before` value that `changes` name is the one that `grid` holds.
pub open spec fn befores_agree(grid: Map<(i32, i32), Cell>, changes: Seq<CellChange>) -> bool {
    forall|i: int|
        0 <= i < changes.len() && (#[trigger] changes[i]).before is Some ==> changes[i].before
            == grid.get(changes[i].coord)
}

/// Undoing `changes` right after they were recorded on `grid` gives `grid`
/// back.
pub open spec fn undoes_cleanly(grid: Map<(i32, i32), Cell>, changes: Seq<CellChange>) -> bool {
    apply_before(apply_after(grid, fill_all_before(changes, grid)), fill_all_before(changes, grid))
        == grid
}

impl Editor {
    /// The editor after each command of `cmds` was recorded, in order.
    pub open spec fn record_all(self, cmds: Seq<Seq<CellChange>>) -> Editor
        decreases cmds.len(),
    {
        if cmds.len() == 0 {
            self
        } else {
            self.record_all(cmds.drop_last()).record(cmds.last())
        }
    }

    /// The editor after `n` undos.
    pub open spec fn undo_times(self, n: nat) -> Editor
        decreases n,
    {
        if n == 0 {
            self
        } else {
            self.undo().undo_times((n - 1) as nat)
        }
    }

    /// Each command of `cmds` could be undone right after it is recorded.
    pub open spec fn undoes_cleanly_all(self, cmds: Seq<Seq<CellChange>>) -> bool
        decreases cmds.len(),
    {
        cmds.len() == 0 || (self.undoes_cleanly_all(cmds.drop_last()) && undoes_cleanly(
            self.record_all(cmds.drop_last()).state.cells,
            cmds.last(),
        ))
    }

    /// Each command of `cmds`, at the time it is recorded, names no `before`
    /// value other than the one the grid holds.
    pub open spec fn befores_agree_all(self, cmds: Seq<Seq<CellChange>>) -> bool
        decreases cmds.len(),
    {
        cmds.len() == 0 || (self.befores_agree_all(cmds.drop_last()) && befores_agree(
            self.record_all(cmds.drop_last()).state.cells,
            cmds.last(),
        ))
    }
}

proof fn lemma_apply_after_filled(grid: Map<(i32, i32), Cell>, changes: Seq<CellChange>)
    requires
        all_filled(grid),
    ensures
        all_filled(apply_after(grid, changes)),
    decreases changes.len(),
{
    if changes.len() > 0 {
        lemma_apply_after_filled(grid, changes.drop_last());
    }
}

proof fn lemma_apply_after_untouched(
    grid: Map<(i32, i32), Cell>,
    changes: Seq<CellChange>,
    c: (i32, i32),
)
    requires
        !changed_cells(changes).contains(c),
    ensures
        apply_after(grid, changes).get(c) == grid.get(c),
    decreases changes.len(),
{
    if changes.len() > 0 {
        let rest = changes.drop_last();
        assert(changes[changes.len() - 1].coord != c);
        assert(!changed_cells(rest).contains(c)) by {
            if changed_cells(rest).contains(c) {
                let i = choose|i: int| 0 <= i < rest.len() && (#[trigger] rest[i]).coord == c;
                assert(changes[i].coord == c);
            }
        }
        lemma_apply_after_untouched(grid, rest, c);
    }
}

proof fn lemma_apply_before_restores(
    now: Map<(i32, i32), Cell>,
    was: Map<(i32, i32), Cell>,
    changes: Seq<CellChange>,
    c: (i32, i32),
)
    requires
        all_filled(was),
        forall|i: int| 0 <= i < changes.len() ==> (#[trigger] changes[i]).before == was.get(changes[i].coord),
    ensures
        apply_before(now, changes).get(c) == if changed_cells(changes).contains(c) {
            was.get(c)
        } else {
            now.get(c)
        },
    decreases changes.len(),
{
    if changes.len() > 0 {
        let rest = changes.drop_last();
        let last = changes[changes.len() - 1];
        assert forall|i: int| 0 <= i < rest.len() implies (#[trigger] rest[i]).before == was.get(
            rest[i].coord,
        ) by {
            assert(rest[i] == changes[i]);
        }
        lemma_apply_before_restores(now, was, rest, c);
        if changed_cells(rest).contains(c) {
            let i = choose|i: int| 0 <= i < rest.len() && (#[trigger] rest[i]).coord == c;
            assert(changes[i].coord == c);
        }
        if changed_cells(changes).contains(c) && last.coord != c {
            let i = choose|i: int| 0 <= i < changes.len() && (#[trigger] changes[i]).coord == c;
            assert(rest[i].coord == c);
        }
    } else {
        assert(!changed_cells(changes).contains(c));
    }
}

/// A command that names no `before` value other than the one the grid
/// holds can be undone: undoing it right after it was recorded gives the
/// grid back as it was.
pub proof fn lemma_undo_restores_grid(grid: Map<(i32, i32), Cell>, changes: Seq<CellChange>)
    requires
        all_filled(grid),
        befores_agree(grid, changes),
    ensures
        undoes_cleanly(grid, changes),
{
    let filled = fill_all_before(changes, grid);
    let after = apply_after(grid, filled);
    let back = apply_before(after, filled);
    assert forall|i: int| 0 <= i < filled.len() implies (#[trigger] filled[i]).before == grid.get(
        filled[i].coord,
    ) by {
        assert(filled[i] == fill_before(changes[i], grid));
    }
    assert forall|c: (i32, i32)| #[trigger]
        back.dom().contains(c) == grid.dom().contains(c) && (back.dom().contains(c) ==> back[c]
            == grid[c]) by {
        lemma_apply_before_restores(after, grid, filled, c);
        if !changed_cells(filled).contains(c) {
            lemma_apply_after_untouched(grid, filled, c);
        }
        assert(back.get(c) == grid.get(c));
    }
    assert(back =~= grid);
}

proof fn lemma_record_all_history(editor: Editor, cmds: Seq<Seq<CellChange>>)
    requires
        cmds.len() <= editor.state.history.max,
    ensures
        editor.record_all(cmds).state.history.max == editor.state.history.max,
        editor.record_all(cmds).state.history.stack.len() >= cmds.len(),
    decreases cmds.len(),
{
    if cmds.len() > 0 {
        lemma_record_all_history(editor, cmds.drop_last());
    }
}

proof fn lemma_record_all_filled(editor: Editor, cmds: Seq<Seq<CellChange>>)
    requires
        all_filled(editor.state.cells),
    ensures
        all_filled(editor.record_all(cmds).state.cells),
    decreases cmds.len(),
{
    if cmds.len() > 0 {
        lemma_record_all_filled(editor, cmds.drop_last());
        let before = editor.record_all(cmds.drop_last());
        lemma_apply_after_filled(before.state.cells, fill_all_before(cmds.last(), before.state.cells));
    }
}

/// The command that is `i` places from the newest.
spec fn nth_newest(stack: Seq<Seq<CellChange>>, i: int) -> Seq<CellChange> {
    stack[stack.len() - 1 - i]
}

/// Two editors with the same grid, and the same `n` newest commands, have
/// the same grid after `n` undos.
proof fn lemma_undo_times_agree(a: Editor, b: Editor, n: nat)
    requires
        a.state.cells == b.state.cells,
        a.state.history.stack.len() >= n,
        b.state.history.stack.len() >= n,
        forall|i: int|
            0 <= i < n ==> #[trigger] nth_newest(a.state.history.stack, i) == nth_newest(
                b.state.history.stack,
                i,
            ),
    ensures
        a.undo_times(n).state.cells == b.undo_times(n).state.cells,
    decreases n,
{
    if n > 0 {
        let sa = a.state.history.stack;
        let sb = b.state.history.stack;
        assert(nth_newest(sa, 0) == nth_newest(sb, 0));
        let ua = a.undo();
        let ub = b.undo();
        assert forall|i: int| 0 <= i < n - 1 implies #[trigger] nth_newest(
            ua.state.history.stack,
            i,
        ) == nth_newest(ub.state.history.stack, i) by {
            assert(nth_newest(sa, i + 1) == nth_newest(sb, i + 1));
        }
        lemma_undo_times_agree(ua, ub, (n - 1) as nat);
    }
}

/// After any commands were recorded, as many undos as there were commands
/// give the grid back exactly as it was before the first of them. This holds
/// when the history keeps at least that many commands, and each command
/// could be undone right after it was recorded.
pub proof fn lemma_undo_round_trip(editor: Editor, cmds: Seq<Seq<CellChange>>)
    requires
        cmds.len() <= editor.state.history.max,
        editor.undoes_cleanly_all(cmds),
    ensures
        editor.record_all(cmds).undo_times(cmds.len()).state.cells == editor.state.cells,
    decreases cmds.len(),
{
    if cmds.len() > 0 {
        let rest = cmds.drop_last();
        let before = editor.record_all(rest);
        let after = before.record(cmds.last());
        let undone = after.undo();
        lemma_record_all_history(editor, rest);
        lemma_undo_round_trip(editor, rest);
        let filled = fill_all_before(cmds.last(), before.state.cells);
        let pushed = before.state.history.stack.push(filled);
        assert(after.state.history.stack.len() > 0);
        assert(after.state.history.newest() == Some(filled)) by {
            if before.state.history.stack.len() + 1 > before.state.history.max {
                assert(pushed.drop_first().last() == filled);
            } else {
                assert(pushed.last() == filled);
            }
        }
        assert(undone.state.cells == before.state.cells);
        let n = rest.len();
        assert forall|i: int| 0 <= i < n implies #[trigger] nth_newest(
            undone.state.history.stack,
            i,
        ) == nth_newest(before.state.history.stack, i) by {
            let len = before.state.history.stack.len() as int;
            if len + 1 > before.state.history.max {
                assert(undone.state.history.stack =~= pushed.drop_first().drop_last());
                assert(pushed.drop_first().drop_last()[len - 2 - i] == before.state.history.stack[len
                    - 1 - i]);
            } else {
                assert(undone.state.history.stack =~= before.state.history.stack);
            }
        }
        lemma_undo_times_agree(undone, before, n);
        assert(after.undo_times(cmds.len()) == undone.undo_times(n));
    }
}

/// Commands that name no `before` value other than the one the grid holds
/// at the time can all be undone; so after they were recorded, as many
/// undos as there were commands give the grid back, if the history keeps
/// that many.
pub proof fn lemma_undo_round_trip_of_agreeing(editor: Editor, cmds: Seq<Seq<CellChange>>)
    requires
        all_filled(editor.state.cells),
        cmds.len() <= editor.state.history.max,
        editor.befores_agree_all(cmds),
    ensures
        editor.undoes_cleanly_all(cmds),
        editor.record_all(cmds).undo_times(cmds.len()).state.cells == editor.state.cells,
{
    lemma_agreeing_undo_cleanly(editor, cmds);
    lemma_undo_round_trip(editor, cmds);
}

proof fn lemma_agreeing_undo_cleanly(editor: Editor, cmds: Seq<Seq<CellChange>>)
    requires
        all_filled(editor.state.cells),
        editor.befores_agree_all(cmds),
    ensures
        editor.undoes_cleanly_all(cmds),
    decreases cmds.len(),
{
    if cmds.len() > 0 {
        let rest = cmds.drop_last();
        lemma_agreeing_undo_cleanly(editor, rest);
        lemma_record_all_filled(editor, rest);
        lemma_undo_restores_grid(editor.record_all(rest).state.cells, cmds.last());
    }
}

} // verus!
