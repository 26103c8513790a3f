//! What the widgets do to the editor: the tool buttons and the colour
//! palette with its pages.

use crate::data::color::gba_extended_color_spec;
use crate::data::color::generate_gba_extended_palette;
use crate::data::color::Rgba;
use crate::state::ApplicationState;
use crate::state::Mode;
use crate::state::PaletteMode;
use crate::state::StateModel;
use vstd::prelude::*;

verus! {

/// A button of the tool bar.
#[derive(Clone, Copy, Debug, PartialEq, Eq, Structural)]
pub enum ToolbarButton {
    Paint,
    Erase,
    Pan,
    Select,
    Palette,
}

/// The number of colours of the extended palette.
pub const EXTENDED_PALETTE_SIZE: usize = 343;

/// The number of colours on a full page of the extended palette.
pub const PALETTE_COLORS_PER_PAGE: usize = 200;

/// The number of pages of the extended palette.
pub const PALETTE_PAGES: usize = 2;

/// The number of swatches in a row of the extended palette.
pub const PALETTE_COLUMNS: usize = 20;

impl StateModel {
    /// A tool button takes its tool in hand; the palette button opens the
    /// colour window, or closes it if it is open.
    pub open spec fn press_button(self, button: ToolbarButton) -> StateModel {
        match button {
            ToolbarButton::Paint => StateModel { mode: Mode::Paint, ..self },
            ToolbarButton::Erase => StateModel { mode: Mode::Erase, ..self },
            ToolbarButton::Pan => StateModel { mode: Mode::Pan, ..self },
            ToolbarButton::Select => StateModel { mode: Mode::Select, ..self },
            ToolbarButton::Palette => StateModel { show_palette: !self.show_palette, ..self },
        }
    }

    /// The colour window shows `mode`, from its first page.
    pub open spec fn select_palette_mode(self, mode: PaletteMode) -> StateModel {
        StateModel { palette_mode: mode, palette_page: 0, ..self }
    }

    /// A page number past the last page becomes the last page.
    pub open spec fn clamp_palette_page(self) -> StateModel {
        if self.palette_page >= PALETTE_PAGES {
            StateModel { palette_page: (PALETTE_PAGES - 1) as usize, ..self }
        } else {
            self
        }
    }

    /// The place in the extended palette of the first colour on the page.
    pub open spec fn palette_page_start(self) -> int {
        self.palette_page * PALETTE_COLORS_PER_PAGE
    }

    /// The place in the extended palette just after the last colour on the
    /// page.
    pub open spec fn palette_page_end(self) -> int {
        if self.palette_page_start() + PALETTE_COLORS_PER_PAGE <= EXTENDED_PALETTE_SIZE {
            self.palette_page_start() + PALETTE_COLORS_PER_PAGE
        } else {
            EXTENDED_PALETTE_SIZE as int
        }
    }

    /// The page before, unless this is the first.
    pub open spec fn palette_prev_page(self) -> StateModel {
        if self.palette_page > 0 {
            StateModel { palette_page: (self.palette_page - 1) as usize, ..self }
        } else {
            self
        }
    }

    /// The page after, unless this is the last.
    pub open spec fn palette_next_page(self) -> StateModel {
        if self.palette_page < PALETTE_PAGES - 1 {
            StateModel { palette_page: (self.palette_page + 1) as usize, ..self }
        } else {
            self
        }
    }

    /// `color` becomes the colour that painting uses.
    pub open spec fn pick_color(self, color: Rgba) -> StateModel {
        StateModel { current_color: color, ..self }
    }
}

/// Presses a button of the tool bar; see [`StateModel::press_button`].
pub fn press_toolbar_button(state: &mut ApplicationState, button: ToolbarButton)
    ensures
        final(state)@ == old(state)@.press_button(button),
{
    match button {
        ToolbarButton::Paint => {
            state.mode = Mode::Paint;
        },
        ToolbarButton::Erase => {
            state.mode = Mode::Erase;
        },
        ToolbarButton::Pan => {
            state.mode = Mode::Pan;
        },
        ToolbarButton::Select => {
            state.mode = Mode::Select;
        },
        ToolbarButton::Palette => {
            state.show_palette = !state.show_palette;
        },
    }
}

/// Switches the colour window to `mode`; see
/// [`StateModel::select_palette_mode`].
pub fn select_palette_mode(state: &mut ApplicationState, mode: PaletteMode)
    ensures
        final(state)@ == old(state)@.select_palette_mode(mode),
{
    state.palette_mode = mode;
    state.palette_page = 0;
}

/// The colours on the current page of the extended palette, in order. A
/// page number past the last page is first set to the last page.
pub fn palette_page_colors(state: &mut ApplicationState) -> (colors: Vec<Rgba>)
    ensures
        final(state)@ == old(state)@.clamp_palette_page(),
        colors@.len() == final(state)@.palette_page_end() - final(state)@.palette_page_start(),
        forall|i: int|
            0 <= i < colors@.len() ==> #[trigger] colors@[i] == gba_extended_color_spec(
                final(state)@.palette_page_start() + i,
            ),
{
    if state.palette_page >= PALETTE_PAGES {
        state.palette_page = PALETTE_PAGES - 1;
    }
    let palette = generate_gba_extended_palette();
    let start: usize = state.palette_page * PALETTE_COLORS_PER_PAGE;
    let end: usize = if start + PALETTE_COLORS_PER_PAGE <= EXTENDED_PALETTE_SIZE {
        start + PALETTE_COLORS_PER_PAGE
    } else {
        EXTENDED_PALETTE_SIZE
    };
    let mut colors: Vec<Rgba> = Vec::new();
    let mut i: usize = start;
    while i < end
        invariant
            start <= i <= end <= 343,
            palette@.len() == 343,
            forall|k: int| 0 <= k < 343 ==> #[trigger] palette@[k] == gba_extended_color_spec(k),
            colors@.len() == i - start,
            forall|k: int|
                0 <= k < colors@.len() ==> #[trigger] colors@[k] == gba_extended_color_spec(start + k),
        decreases end - i,
    {
        colors.push(palette[i]);
        i += 1;
    }
    colors
}

/// Turns to the page before; see [`StateModel::palette_prev_page`].
pub fn palette_prev_page(state: &mut ApplicationState)
    ensures
        final(state)@ == old(state)@.palette_prev_page(),
{
    if state.palette_page > 0 {
        state.palette_page = state.palette_page - 1;
    }
}

/// Turns to the page after; see [`StateModel::palette_next_page`].
pub fn palette_next_page(state: &mut ApplicationState)
    ensures
        final(state)@ == old(state)@.palette_next_page(),
{
    if state.palette_page < PALETTE_PAGES - 1 {
        state.palette_page = state.palette_page + 1;
    }
}

/// Takes up a colour; see [`StateModel::pick_color`].
pub fn pick_color(state: &mut ApplicationState, color: Rgba)
    ensures
        final(state)@ == old(state)@.pick_color(color),
{
    state.current_color = color;
}

} // verus!
