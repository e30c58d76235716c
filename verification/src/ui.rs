//! What the token view decides: how a key changes it, and how its panels
//! are laid out.

use vstd::prelude::*;
use vstd::string::*;

verus! {

/// A key, as far as the view tells keys apart.
#[derive(Debug, Clone, Copy, PartialEq, Eq, Structural)]
pub enum Key {
    /// The letter `q`.
    Quit,
    Up,
    Down,
    Other,
}

/// The view of the tokens as they arrive.
#[derive(Debug, Clone)]
pub struct ViewState {
    pub token_stream: String,
    pub should_quit: bool,
    pub scroll_offset: u32,
}

/// A `ViewState` as a mathematical value.
pub struct ViewModel {
    pub token_stream: Seq<char>,
    pub should_quit: bool,
    pub scroll_offset: int,
}

impl View for ViewState {
    type V = ViewModel;

    open spec fn view(&self) -> ViewModel {
        ViewModel {
            token_stream: self.token_stream@,
            should_quit: self.should_quit,
            scroll_offset: self.scroll_offset as int,
        }
    }
}

/// The view after the key `key`: `q` asks to quit, the arrows scroll by one
/// line, never above the first line nor past the largest offset.
pub open spec fn after_key(view: ViewModel, key: Key) -> ViewModel {
    match key {
        Key::Quit => ViewModel { should_quit: true, ..view },
        Key::Up => if view.scroll_offset > 0 {
            ViewModel { scroll_offset: view.scroll_offset - 1, ..view }
        } else {
            view
        },
        Key::Down => if view.scroll_offset < i32::MAX {
            ViewModel { scroll_offset: view.scroll_offset + 1, ..view }
        } else {
            view
        },
        Key::Other => view,
    }
}

impl ViewState {
    /// The view before the first token.
    pub fn new() -> (r: Self)
        ensures
            r@ == (ViewModel { token_stream: Seq::empty(), should_quit: false, scroll_offset: 0 }),
    {
        ViewState { token_stream: String::new(), should_quit: false, scroll_offset: 0 }
    }

    /// Takes a key.
    pub fn on_key(&mut self, key: Key)
        ensures
            final(self)@ == after_key(old(self)@, key),
    {
        match key {
            Key::Quit => {
                self.should_quit = true;
            },
            Key::Up => {
                if self.scroll_offset > 0 {
                    self.scroll_offset = self.scroll_offset - 1;
                }
            },
            Key::Down => {
                if self.scroll_offset < 0x7fff_ffff {
                    self.scroll_offset = self.scroll_offset + 1;
                }
            },
            Key::Other => {},
        }
    }

    /// Appends a token to the text shown.
    pub fn push_token(&mut self, token: &str)
        ensures
            final(self)@ == (ViewModel {
                token_stream: old(self)@.token_stream + token@,
                ..old(self)@
            }),
    {
        self.token_stream.append(token);
    }

    /// The first row shown: the offset, counted modulo 2^16.
    pub fn scroll_row(&self) -> (r: u16)
        ensures
            r == self@.scroll_offset % 0x1_0000,
    {
        (self.scroll_offset % 0x1_0000) as u16
    }
}

/// The height of a panel.
#[derive(Debug, Clone, Copy, PartialEq, Eq, Structural)]
pub enum PanelSize {
    /// This number of rows.
    Length(u16),
    /// What is left, and at least this number of rows.
    Min(u16),
}

/// The panels of the view from the top: errors where there are any, the
/// model and the prompt, the tokens, the controls.
pub open spec fn panels(has_errors: bool) -> Seq<PanelSize> {
    if has_errors {
        seq![PanelSize::Length(5), PanelSize::Length(5), PanelSize::Min(1), PanelSize::Length(3)]
    } else {
        seq![PanelSize::Length(5), PanelSize::Min(1), PanelSize::Length(3)]
    }
}

/// The heights of the panels of the view, from the top.
pub fn panel_sizes(has_errors: bool) -> (r: Vec<PanelSize>)
    ensures
        r@ == panels(has_errors),
{
    let mut sizes: Vec<PanelSize> = Vec::new();
    if has_errors {
        sizes.push(PanelSize::Length(5));
    }
    sizes.push(PanelSize::Length(5));
    sizes.push(PanelSize::Min(1));
    sizes.push(PanelSize::Length(3));
    assert(sizes@ =~= panels(has_errors));
    sizes
}

/// Where each part of the view is drawn: positions among the panels.
#[derive(Debug, Clone, Copy, PartialEq, Eq, Structural)]
pub struct PanelSlots {
    pub errors: Option<usize>,
    pub model_prompt: usize,
    pub token_stream: usize,
    pub controls: usize,
}

/// The panel of each part of the view. With errors to show they take the
/// first panel, and the other parts move down by one.
pub fn panel_slots(has_errors: bool) -> (r: PanelSlots)
    ensures
        r.errors == (if has_errors {
            Some(0usize)
        } else {
            None
        }),
        r.model_prompt == (if has_errors {
            1usize
        } else {
            0usize
        }),
        r.token_stream == r.model_prompt + 1,
        r.controls == r.model_prompt + 2,
        r.controls + 1 == panels(has_errors).len(),
{
    if has_errors {
        PanelSlots { errors: Some(0), model_prompt: 1, token_stream: 2, controls: 3 }
    } else {
        PanelSlots { errors: None, model_prompt: 0, token_stream: 1, controls: 2 }
    }
}

} // verus!
