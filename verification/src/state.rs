//! The state of the editor and its mathematical model.

use crate::data::cell::Cell;
use crate::data::cell::CellGrid;
use crate::data::color::Rgba;
use crate::data::coord::CoordMap;
use crate::data::group::group_models;
use crate::data::group::Group;
use crate::data::group::GroupModel;
use crate::data::selection::SelectionState;
use crate::data::selection::SelectionStateModel;
use crate::rendering::canvas::CanvasRenderer;
use vstd::prelude::*;

verus! {

/// The tool in hand.
#[derive(Clone, Copy, Debug, PartialEq, Eq, Structural)]
pub enum Mode {
    /// Paints cells in the current colour.
    Paint,
    /// Clears cells.
    Erase,
    /// Moves the camera.
    Pan,
    /// Selects and moves cells.
    Select,
}

/// Which palette the colour window shows.
#[derive(Clone, Copy, Debug, PartialEq, Eq, Structural)]
pub enum PaletteMode {
    Basic,
    Extended,
}

/// Cells that were copied or cut, keyed by their place relative to the top
/// left corner of the selection they came from.
#[derive(Debug)]
pub struct Clipboard {
    pub width: i64,
    pub height: i64,
    pub cells: CellGrid,
    pub has_data: bool,
}

/// What a [`Clipboard`] stands for.
#[verifier::ext_equal]
pub struct ClipboardModel {
    pub width: int,
    pub height: int,
    pub cells: Map<(i32, i32), Cell>,
    pub has_data: bool,
}

impl View for Clipboard {
    type V = ClipboardModel;

    open spec fn view(&self) -> ClipboardModel {
        ClipboardModel {
            width: self.width as int,
            height: self.height as int,
            cells: self.cells@,
            has_data: self.has_data,
        }
    }
}

impl ClipboardModel {
    pub open spec fn empty() -> ClipboardModel {
        ClipboardModel { width: 0, height: 0, cells: Map::empty(), has_data: false }
    }
}

impl Clipboard {
    pub fn empty() -> (clipboard: Clipboard)
        ensures
            clipboard@ == ClipboardModel::empty(),
    {
        Clipboard { width: 0, height: 0, cells: CellGrid::new(), has_data: false }
    }
}

/// One cell of a command: what it held before, and what it holds after.
#[derive(Clone, Copy, Debug, PartialEq, Eq)]
pub struct CellChange {
    pub coord: (i32, i32),
    pub before: Option<Cell>,
    pub after: Option<Cell>,
}

/// A change to the grid that can be undone as a whole.
#[derive(Debug)]
pub struct Command {
    pub changes: Vec<CellChange>,
}

impl View for Command {
    type V = Seq<CellChange>;

    open spec fn view(&self) -> Seq<CellChange> {
        self.changes@
    }
}

/// The commands that can still be undone, oldest first, and how many of them
/// are kept.
#[derive(Debug)]
pub struct History {
    pub stack: Vec<Command>,
    pub max: usize,
}

/// What a [`History`] stands for.
#[verifier::ext_equal]
pub struct HistoryModel {
    pub stack: Seq<Seq<CellChange>>,
    pub max: usize,
}

impl View for History {
    type V = HistoryModel;

    open spec fn view(&self) -> HistoryModel {
        HistoryModel { stack: self.stack@.map_values(|c: Command| c@), max: self.max }
    }
}

impl HistoryModel {
    pub open spec fn empty(max: usize) -> HistoryModel {
        HistoryModel { stack: Seq::empty(), max }
    }

    /// `cmd` becomes the newest command. If that is one more than are kept,
    /// the oldest is dropped.
    pub open spec fn push(self, cmd: Seq<CellChange>) -> HistoryModel {
        if self.stack.len() + 1 > self.max {
            HistoryModel { stack: self.stack.push(cmd).drop_first(), ..self }
        } else {
            HistoryModel { stack: self.stack.push(cmd), ..self }
        }
    }

    /// The newest command, if there is one.
    pub open spec fn newest(self) -> Option<Seq<CellChange>> {
        if self.stack.len() > 0 {
            Some(self.stack.last())
        } else {
            None
        }
    }

    /// The history without its newest command.
    pub open spec fn pop(self) -> HistoryModel {
        if self.stack.len() > 0 {
            HistoryModel { stack: self.stack.drop_last(), ..self }
        } else {
            self
        }
    }

    /// The history after every command of `cmds` was pushed, in order.
    pub open spec fn push_all(self, cmds: Seq<Seq<CellChange>>) -> HistoryModel
        decreases cmds.len(),
    {
        if cmds.len() == 0 {
            self
        } else {
            self.push_all(cmds.drop_last()).push(cmds.last())
        }
    }
}

/// A history that holds no more commands than it keeps stays that way when a
/// command is pushed, and the command pushed is then the newest, unless the
/// history keeps none.
pub proof fn lemma_push_keeps_bound(history: HistoryModel, cmd: Seq<CellChange>)
    requires
        history.stack.len() <= history.max,
    ensures
        history.push(cmd).stack.len() <= history.max,
        history.push(cmd).max == history.max,
        history.max > 0 ==> history.push(cmd).newest() == Some(cmd),
{
}

/// A history that began empty holds the newest commands that were pushed, as
/// many as it keeps: pushing `max + 1` commands leaves exactly `max`, the
/// oldest of them gone.
pub proof fn lemma_history_bound(max: usize, cmds: Seq<Seq<CellChange>>)
    ensures
        HistoryModel::empty(max).push_all(cmds).max == max,
        HistoryModel::empty(max).push_all(cmds).stack == if cmds.len() <= max {
            cmds
        } else {
            cmds.subrange(cmds.len() - max, cmds.len() as int)
        },
        cmds.len() == max + 1 ==> HistoryModel::empty(max).push_all(cmds).stack == cmds.drop_first()
            && HistoryModel::empty(max).push_all(cmds).stack.len() == max,
    decreases cmds.len(),
{
    if cmds.len() > 0 {
        let rest = cmds.drop_last();
        lemma_history_bound(max, rest);
        let before = HistoryModel::empty(max).push_all(rest);
        let after = before.push(cmds.last());
        assert(HistoryModel::empty(max).push_all(cmds) == after);
        if cmds.len() <= max {
            assert(after.stack =~= cmds);
        } else if rest.len() <= max {
            assert(after.stack =~= cmds.subrange(cmds.len() - max, cmds.len() as int));
        } else {
            assert(after.stack =~= cmds.subrange(cmds.len() - max, cmds.len() as int));
        }
        if cmds.len() == max + 1 {
            assert(cmds.subrange(cmds.len() - max, cmds.len() as int) =~= cmds.drop_first());
        }
    } else {
        assert(HistoryModel::empty(max).push_all(cmds).stack =~= cmds);
    }
}

impl History {
    /// An empty history that keeps up to `max` commands.
    pub fn new(max: usize) -> (history: History)
        ensures
            history@ == HistoryModel::empty(max),
    {
        History { stack: Vec::new(), max }
    }

    /// Records `cmd` as the newest command, dropping the oldest if the
    /// history is full.
    pub fn push(&mut self, cmd: Command)
        ensures
            final(self)@ == old(self)@.push(cmd@),
    {
        self.stack.push(cmd);
        if self.stack.len() > self.max {
            self.stack.remove(0);
        }
    }

    /// Takes the newest command out.
    pub fn pop(&mut self) -> (cmd: Option<Command>)
        ensures
            final(self)@ == old(self)@.pop(),
            match cmd {
                Some(c) => old(self)@.newest() == Some(c@),
                None => old(self)@.newest() is None,
            },
    {
        self.stack.pop()
    }
}

/// Everything the editor knows, but for the camera and the images.
#[derive(Debug)]
pub struct ApplicationState {
    /// The tool in hand.
    pub mode: Mode,
    /// Whether the colour window is open.
    pub show_palette: bool,
    /// The colour that painting uses.
    pub current_color: Rgba,
    /// The painted cells.
    pub cells: CellGrid,
    /// The selection tool.
    pub selection: SelectionState,
    /// Where the stroke in progress was last, for joining up fast strokes.
    pub last_painted_cell: Option<(i32, i32)>,
    /// What was copied or cut.
    pub clipboard: Clipboard,
    /// What can be undone.
    pub history: History,
    /// Which palette the colour window shows.
    pub palette_mode: PaletteMode,
    /// Which page of it.
    pub palette_page: usize,
    /// The groups, in the order they were made.
    pub groups: Vec<Group>,
    /// For each grouped cell, the id of its group.
    pub group_index: CoordMap<u32>,
    /// The id that the next group gets.
    pub next_group_id: u32,
    /// The group that the selection stands for, if it is one.
    pub selected_group_id: Option<u32>,
}

/// What an [`ApplicationState`] stands for.
#[verifier::ext_equal]
pub struct StateModel {
    pub mode: Mode,
    pub show_palette: bool,
    pub current_color: Rgba,
    pub cells: Map<(i32, i32), Cell>,
    pub selection: SelectionStateModel,
    pub last_painted_cell: Option<(i32, i32)>,
    pub clipboard: ClipboardModel,
    pub history: HistoryModel,
    pub palette_mode: PaletteMode,
    pub palette_page: usize,
    pub groups: Seq<GroupModel>,
    pub group_index: Map<(i32, i32), u32>,
    pub next_group_id: u32,
    pub selected_group_id: Option<u32>,
}

impl View for ApplicationState {
    type V = StateModel;

    open spec fn view(&self) -> StateModel {
        StateModel {
            mode: self.mode,
            show_palette: self.show_palette,
            current_color: self.current_color,
            cells: self.cells@,
            selection: self.selection@,
            last_painted_cell: self.last_painted_cell,
            clipboard: self.clipboard@,
            history: self.history@,
            palette_mode: self.palette_mode,
            palette_page: self.palette_page,
            groups: group_models(self.groups@),
            group_index: self.group_index@,
            next_group_id: self.next_group_id,
            selected_group_id: self.selected_group_id,
        }
    }
}

/// The number of commands that a new editor keeps for undo.
pub const DEFAULT_HISTORY_SIZE: usize = 50;

impl StateModel {
    /// The editor as it starts: the paint tool in blue on an empty canvas.
    pub open spec fn initial() -> StateModel {
        StateModel {
            mode: Mode::Paint,
            show_palette: false,
            current_color: Rgba { r: 0, g: 119, b: 242, a: 255 },
            cells: Map::empty(),
            selection: SelectionStateModel::idle(),
            last_painted_cell: None,
            clipboard: ClipboardModel::empty(),
            history: HistoryModel::empty(DEFAULT_HISTORY_SIZE),
            palette_mode: PaletteMode::Basic,
            palette_page: 0,
            groups: Seq::empty(),
            group_index: Map::empty(),
            next_group_id: 0,
            selected_group_id: None,
        }
    }
}

impl ApplicationState {
    pub fn new() -> (state: ApplicationState)
        ensures
            state@ == StateModel::initial(),
    {
        let state = ApplicationState {
            mode: Mode::Paint,
            show_palette: false,
            current_color: Rgba::rgba(0, 119, 242, 255),
            cells: CellGrid::new(),
            selection: SelectionState::new(),
            last_painted_cell: None,
            clipboard: Clipboard::empty(),
            history: History::new(DEFAULT_HISTORY_SIZE),
            palette_mode: PaletteMode::Basic,
            palette_page: 0,
            groups: Vec::new(),
            group_index: CoordMap::new(),
            next_group_id: 0,
            selected_group_id: None,
        };
        state
    }
}

/// The editor as a whole: the state, and which chunks of the canvas exist
/// and are dirty.
#[verifier::ext_equal]
pub struct Editor {
    pub state: StateModel,
    pub chunks: Map<(i32, i32), bool>,
}

impl Editor {
    /// The model of a state and the render cache that goes with it.
    pub open spec fn of(state: &ApplicationState, canvas: &CanvasRenderer) -> Editor {
        Editor { state: state@, chunks: canvas@ }
    }
}

} // verus!
