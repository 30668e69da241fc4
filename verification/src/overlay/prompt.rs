//! Generic single-line input overlay (used by Save As). While open it is
//! fully modal: every key is consumed here.

use vstd::prelude::*;
use vstd::string::*;

use crate::key::{Key, KeyEvent, Modifiers};
use crate::overlay::palette_box::{clip_text, clipped, drawn, pad_text, padded, DrawnText, TextStyle};
use crate::text::{pop_char, push_char};

verus! {

/// What the current prompt session will do with its submitted input.
#[derive(Debug, Clone, Copy, PartialEq, Eq, Structural)]
pub enum PromptPurpose {
    SaveAs,
    GoToLine,
}

/// Result of feeding one key to the overlay.
#[derive(Debug, Clone, Copy, PartialEq, Eq, Structural)]
pub enum PromptOutcome {
    /// The key was consumed (input edited, or ignored); the overlay stays open.
    Continue,
    /// Enter: the caller acts on `input` for the current `purpose`.
    Submit,
    /// Esc: the caller closes the overlay and discards the input.
    Cancel,
}

#[derive(Debug, Clone)]
pub struct PromptOverlay {
    pub visible: bool,
    pub purpose: Option<PromptPurpose>,
    pub label: String,
    pub input: String,
}

impl Default for PromptOverlay {
    fn default() -> (res: Self)
        ensures
            !res.visible,
            res.purpose is None,
            res.label@.len() == 0,
            res.input@.len() == 0,
    {
        PromptOverlay { visible: false, purpose: None, label: String::new(), input: String::new() }
    }
}

/// How the prompt's input changes on a key, and what the key reports.
pub open spec fn prompt_key(input: Seq<char>, event: KeyEvent) -> (Seq<char>, PromptOutcome) {
    let plain = event.modifiers == Modifiers::none_spec();
    match event.key {
        Key::Esc => (input, if plain { PromptOutcome::Cancel } else { PromptOutcome::Continue }),
        Key::Enter => (input, if plain { PromptOutcome::Submit } else { PromptOutcome::Continue }),
        Key::Backspace => (
            if plain && input.len() > 0 {
                input.drop_last()
            } else {
                input
            },
            PromptOutcome::Continue,
        ),
        Key::Char(c) => (
            if !event.modifiers.ctrl && !event.modifiers.alt && !event.modifiers.super_key {
                input.push(c)
            } else {
                input
            },
            PromptOutcome::Continue,
        ),
        _ => (input, PromptOutcome::Continue),
    }
}

impl PromptOverlay {
    /// Opens the prompt with `initial` pre-filled.
    pub fn open(&mut self, purpose: PromptPurpose, label: &str, initial: &str)
        ensures
            final(self).visible,
            final(self).purpose == Some(purpose),
            final(self).label@ == label@,
            final(self).input@ == initial@,
    {
        self.visible = true;
        self.purpose = Some(purpose);
        self.label = label.to_owned();
        self.input = initial.to_owned();
    }

    /// Hides the prompt and clears all its state.
    pub fn close(&mut self)
        ensures
            !final(self).visible,
            final(self).purpose is None,
            final(self).label@.len() == 0,
            final(self).input@.len() == 0,
    {
        self.visible = false;
        self.purpose = None;
        self.label = String::new();
        self.input = String::new();
    }

    /// Appends pasted text (the caller strips line breaks first).
    pub fn paste_text(&mut self, text: &str)
        ensures
            final(self).input@ == old(self).input@ + text@,
            final(self).visible == old(self).visible,
            final(self).purpose == old(self).purpose,
            final(self).label@ == old(self).label@,
    {
        self.input.append(text);
    }

    /// Feeds one key: Esc cancels, Enter submits, Backspace and plain
    /// characters edit the input, anything else is swallowed.
    pub fn handle_key(&mut self, event: &KeyEvent) -> (res: PromptOutcome)
        ensures
            (final(self).input@, res) == prompt_key(old(self).input@, *event),
            final(self).visible == old(self).visible,
            final(self).purpose == old(self).purpose,
            final(self).label@ == old(self).label@,
    {
        let plain = event.modifiers == Modifiers::none();
        match event.key {
            Key::Esc => {
                if plain {
                    PromptOutcome::Cancel
                } else {
                    PromptOutcome::Continue
                }
            },
            Key::Enter => {
                if plain {
                    PromptOutcome::Submit
                } else {
                    PromptOutcome::Continue
                }
            },
            Key::Backspace => {
                if plain {
                    pop_char(&mut self.input);
                }
                PromptOutcome::Continue
            },
            Key::Char(c) => {
                if !event.modifiers.contains_ctrl() && !event.modifiers.contains_alt()
                    && !event.modifiers.contains_super() {
                    push_char(&mut self.input, c);
                }
                PromptOutcome::Continue
            },
            _ => PromptOutcome::Continue,
        }
    }
}

/// `a`, or `cap` when `a` is past it.
pub open spec fn capped_at(a: int, cap: int) -> int {
    if a < cap {
        a
    } else {
        cap
    }
}

/// What the prompt draws on a `width` x `height` screen, and where the
/// cursor goes: nothing when it is hidden or the screen is empty; else the
/// top row holds the label, a space and the input (cut and padded to the
/// width, dim) with the label redrawn in the normal style, and the cursor
/// sits after the input (at most on the last column).
pub open spec fn prompt_rows_spec(p: PromptOverlay, width: u16, height: u16) -> (Seq<DrawnText>, Option<(u16, u16)>) {
    if !p.visible || width == 0 || height == 0 {
        (Seq::empty(), None)
    } else {
        let w = width as nat;
        let line = p.label@ + seq![' '] + p.input@;
        (
            seq![(0u16, 0u16, padded(clipped(line, w), w), TextStyle::Dim), (0u16, 0u16, p.label@, TextStyle::Normal)],
            Some((capped_at((p.label@.len() + 1 + p.input@.len()) as int, w - 1) as u16, 0u16)),
        )
    }
}

impl PromptOverlay {
    /// What the prompt draws and where the cursor goes (see
    /// [`prompt_rows_spec`]).
    pub fn rows(&self, width: u16, height: u16) -> (res: (Vec<(u16, u16, String, TextStyle)>, Option<(u16, u16)>))
        ensures
            (drawn(res.0@), res.1) == prompt_rows_spec(*self, width, height),
    {
        let mut out: Vec<(u16, u16, String, TextStyle)> = Vec::new();
        if !self.visible || width == 0 || height == 0 {
            assert(drawn(out@) =~= Seq::<DrawnText>::empty());
            return (out, None);
        }
        let w = width as usize;
        let mut line = self.label.clone();
        push_char(&mut line, ' ');
        line.append(self.input.as_str());
        assert(line@ =~= self.label@ + seq![' '] + self.input@);
        let bar = pad_text(clip_text(line.as_str(), w), w);
        let ghost bar_v = bar@;
        out.push((0u16, 0u16, bar, TextStyle::Dim));
        let label = self.label.clone();
        assert(label@ == self.label@);
        out.push((0u16, 0u16, label, TextStyle::Normal));
        assert(drawn(out@) =~= seq![(0u16, 0u16, bar_v, TextStyle::Dim), (0u16, 0u16, self.label@, TextStyle::Normal)]);
        let cap = w - 1;
        let label_len = self.label.as_str().unicode_len();
        let input_len = self.input.as_str().unicode_len();
        let x = if label_len >= cap || input_len >= cap {
            cap
        } else if label_len + 1 + input_len < cap {
            label_len + 1 + input_len
        } else {
            cap
        };
        assert(drawn(out@) =~= prompt_rows_spec(*self, width, height).0);
        (out, Some((x as u16, 0u16)))
    }
}

} // verus!