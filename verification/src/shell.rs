//! The application's step function, free of any windowing toolkit.
//!
//! A windowing shell owns the event loop; this module owns the decisions.
//! Each event the shell delivers becomes a [`Message`]; [`AppState::update`]
//! takes one step and answers with the [`Effect`] the shell must carry out:
//! nothing, write the stored geometry and finish closing, or enumerate the
//! font database and rebuild the catalog.

use vstd::prelude::*;

use crate::catalog::Fonts;
use crate::geometry::Position;
use crate::geometry::WindowPos;
use crate::geometry::default_placement;
use crate::geometry::spec_save;

verus! {

/// An event the windowing shell delivers.
pub enum Message {
    /// The window was resized to the given size in pixels.
    WindowResized(i32, i32),
    /// The window was moved to the given coordinates in pixels.
    WindowMoved(i32, i32),
    /// The user asked to close the window.
    WindowClosed,
    /// The user pressed the rebuild button.
    ClickMe,
    /// The pointer entered the row with the given index.
    Hover(usize),
}

/// What the shell must do after a step.
pub enum Effect {
    /// Nothing beyond rendering the new state.
    Nothing,
    /// Write the given text as the stored geometry, then finish closing
    /// the window.
    WriteAndClose(String),
    /// Enumerate the font database and hand the faces to
    /// [`Fonts::rebuild`].
    RebuildFonts,
}

/// Everything the application tracks between events.
pub struct AppState {
    /// The catalog shown in the list.
    pub fonts: Fonts,
    /// The window's current placement, kept up to date on every move and
    /// resize so it can be stored on close.
    pub window_pos: WindowPos,
    /// The list row the pointer is on, if any.
    pub hovered: Option<usize>,
}

impl AppState {
    /// The state at startup: an empty catalog, the given placement, no row
    /// hovered.
    pub fn init(window_pos: WindowPos) -> (s: AppState)
        ensures
            s.fonts.fonts@.len() == 0,
            s.window_pos == window_pos,
            s.hovered is None,
    {
        AppState { fonts: Fonts { fonts: Vec::new() }, window_pos, hovered: None }
    }

    /// Take one step: record what the event changed, and answer with what
    /// the shell must now do. Only a close request asks for a write, and
    /// only a press of the rebuild button asks for a rebuild.
    pub fn update(&mut self, msg: Message) -> (e: Effect)
        ensures
            match msg {
                Message::WindowResized(w, h) => {
                    &&& final(self).window_pos.width == w
                    &&& final(self).window_pos.height == h
                    &&& final(self).window_pos.pos == old(self).window_pos.pos
                    &&& final(self).fonts == old(self).fonts
                    &&& final(self).hovered == old(self).hovered
                    &&& (e is Nothing)
                },
                Message::WindowMoved(x, y) => {
                    &&& final(self).window_pos.pos == Position::Specific(x, y)
                    &&& final(self).window_pos.width == old(self).window_pos.width
                    &&& final(self).window_pos.height == old(self).window_pos.height
                    &&& final(self).fonts == old(self).fonts
                    &&& final(self).hovered == old(self).hovered
                    &&& (e is Nothing)
                },
                Message::WindowClosed => {
                    &&& *final(self) == *old(self)
                    &&& (e matches Effect::WriteAndClose(text) && text@ == spec_save(
                        old(self).window_pos,
                    ))
                },
                Message::ClickMe => {
                    &&& final(self).hovered is None
                    &&& final(self).window_pos == old(self).window_pos
                    &&& final(self).fonts == old(self).fonts
                    &&& (e is RebuildFonts)
                },
                Message::Hover(i) => {
                    &&& final(self).hovered == Some(i)
                    &&& final(self).window_pos == old(self).window_pos
                    &&& final(self).fonts == old(self).fonts
                    &&& (e is Nothing)
                },
            },
    {
        match msg {
            Message::WindowResized(w, h) => {
                self.window_pos.width = w;
                self.window_pos.height = h;
                Effect::Nothing
            },
            Message::WindowMoved(x, y) => {
                self.window_pos.pos = Position::Specific(x, y);
                Effect::Nothing
            },
            Message::WindowClosed => Effect::WriteAndClose(self.window_pos.save()),
            Message::ClickMe => {
                self.hovered = None;
                Effect::RebuildFonts
            },
            Message::Hover(i) => {
                self.hovered = Some(i);
                Effect::Nothing
            },
        }
    }
}

impl Default for AppState {
    /// The state before any stored geometry is read: an empty catalog and
    /// the default placement.
    fn default() -> (s: AppState)
        ensures
            s.fonts.fonts@.len() == 0,
            s.window_pos == default_placement(),
            s.hovered is None,
    {
        AppState {
            fonts: Fonts { fonts: Vec::new() },
            window_pos: WindowPos { pos: Position::Centered, width: 800, height: 600 },
            hovered: None,
        }
    }
}

} // verus!
