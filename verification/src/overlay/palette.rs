//! Command palette state: the query, the selected row, and the scroll window
//! that keeps the selection visible.

use vstd::prelude::*;
use vstd::string::*;

use crate::key::{Key, KeyEvent, Modifiers};
use crate::text::{pop_char, push_char};

verus! {

#[derive(Debug, Clone)]
pub struct CommandPalette {
    pub visible: bool,
    pub query: String,
    pub selected: usize,
}

impl Default for CommandPalette {
    fn default() -> (res: Self)
        ensures
            !res.visible,
            res.query@.len() == 0,
            res.selected == 0,
    {
        CommandPalette { visible: false, query: String::new(), selected: 0 }
    }
}

/// The row selected after moving `delta` rows from `selected` in a list of
/// `count` items, wrapping around at both ends.
pub open spec fn moved_selection(selected: usize, delta: int, count: usize) -> usize {
    if count == 0 {
        0
    } else {
        let current = if selected < count {
            selected as int
        } else {
            count - 1
        };
        ((current + delta) % (count as int)) as usize
    }
}

impl CommandPalette {
    /// Shows the palette with an empty query and the first row selected.
    pub fn open(&mut self)
        ensures
            final(self).visible,
            final(self).query@.len() == 0,
            final(self).selected == 0,
    {
        self.visible = true;
        self.query = String::new();
        self.selected = 0;
    }

    /// Hides the palette and resets its query and selection.
    pub fn close(&mut self)
        ensures
            !final(self).visible,
            final(self).query@.len() == 0,
            final(self).selected == 0,
    {
        self.visible = false;
        self.query = String::new();
        self.selected = 0;
    }

    /// Types one character into the query; the selection returns to the top.
    pub fn push_char(&mut self, character: char)
        ensures
            final(self).query@ == old(self).query@.push(character),
            final(self).selected == 0,
            final(self).visible == old(self).visible,
    {
        push_char(&mut self.query, character);
        self.selected = 0;
    }

    /// Appends pasted text to the query; the selection returns to the top.
    pub fn push_text(&mut self, text: &str)
        ensures
            final(self).query@ == old(self).query@ + text@,
            final(self).selected == 0,
            final(self).visible == old(self).visible,
    {
        self.query.append(text);
        self.selected = 0;
    }

    /// Deletes the query's last character, if any; the selection returns to
    /// the top.
    pub fn backspace(&mut self)
        ensures
            final(self).query@ == (if old(self).query@.len() > 0 {
                old(self).query@.drop_last()
            } else {
                old(self).query@
            }),
            final(self).selected == 0,
            final(self).visible == old(self).visible,
    {
        pop_char(&mut self.query);
        self.selected = 0;
    }

    /// Empties the query; the selection returns to the top.
    pub fn clear_query(&mut self)
        ensures
            final(self).query@.len() == 0,
            final(self).selected == 0,
            final(self).visible == old(self).visible,
    {
        self.query = String::new();
        self.selected = 0;
    }

    /// Moves the selection by `delta` rows among `item_count` items, wrapping
    /// around at both ends.
    pub fn move_selection(&mut self, delta: isize, item_count: usize)
        ensures
            final(self).selected == moved_selection(old(self).selected, delta as int, item_count),
            final(self).query@ == old(self).query@,
            final(self).visible == old(self).visible,
    {
        if item_count == 0 {
            self.selected = 0;
            return;
        }
        let current: usize = if self.selected < item_count {
            self.selected
        } else {
            item_count - 1
        };
        let n = item_count as u128;
        let c = current as u128;
        let r: u128 = if delta >= 0 {
            let d = (delta as u128) % n;
            proof {
                vstd::arithmetic::div_mod::lemma_add_mod_noop_right(current as int, delta as int, n as int);
                vstd::arithmetic::div_mod::lemma_mod_bound(delta as int, n as int);
            }
            (c + d) % n
        } else {
            let a = (0i128 - delta as i128) as u128;
            let d = a % n;
            proof {
                vstd::arithmetic::div_mod::lemma_mod_bound(a as int, n as int);
                vstd::arithmetic::div_mod::lemma_sub_mod_noop(current as int, a as int, n as int);
                vstd::arithmetic::div_mod::lemma_mod_add_multiples_vanish(current - d, n as int);
                vstd::arithmetic::div_mod::lemma_small_mod(current as nat, n as nat);
                assert(current as int + delta as int == current - a);
            }
            (c + n - d) % n
        };
        proof {
            vstd::arithmetic::div_mod::lemma_mod_bound((current as int + delta as int), n as int);
        }
        self.selected = r as usize;
    }
}

/// The first visible row of a list of `item_count` rows shown `max_rows` at a
/// time, so that `selected` stays on screen.
pub open spec fn scroll_offset_spec(selected: usize, item_count: usize, max_rows: usize) -> usize {
    if max_rows == 0 || item_count <= max_rows {
        0
    } else {
        let low = if selected >= max_rows - 1 {
            selected - (max_rows - 1)
        } else {
            0
        };
        let max_offset = item_count - max_rows;
        (if low < max_offset {
            low
        } else {
            max_offset
        }) as usize
    }
}

/// Returns the first visible item index so `selected` stays on screen.
pub fn scroll_offset(selected: usize, item_count: usize, max_rows: usize) -> (res: usize)
    ensures
        res == scroll_offset_spec(selected, item_count, max_rows),
        selected < item_count && max_rows > 0 ==> res <= selected < res + max_rows,
        res == 0 || res + max_rows <= item_count,
{
    if max_rows == 0 || item_count <= max_rows {
        return 0;
    }
    let max_offset = item_count - max_rows;
    let low = selected.saturating_sub(max_rows - 1);
    if low < max_offset {
        low
    } else {
        max_offset
    }
}

/// What a key does while the palette is open.
#[derive(Debug, Clone, Copy, PartialEq, Eq, Structural)]
pub enum PaletteOutcome {
    /// The palette does not take the key.
    Unhandled,
    /// The key was consumed; the palette stays as it now is.
    Continue,
    /// Enter on row `index` of the filtered list: the palette closed, and the
    /// caller runs that row's action.
    Run(usize),
}

/// The palette's state: shown, query and selected row.
pub open spec fn palette_state(p: CommandPalette) -> (bool, Seq<char>, usize) {
    (p.visible, p.query@, p.selected)
}

/// The palette's state and outcome after a key, with `count` items listed:
/// Esc closes, Up/Ctrl+P and Down/Ctrl+N move the selection (wrapping),
/// Enter runs the selected item and closes, Backspace and Ctrl+U edit the
/// query, plain characters type into it.
pub open spec fn palette_key_spec(s: (bool, Seq<char>, usize), event: KeyEvent, count: usize) -> (
    (bool, Seq<char>, usize),
    PaletteOutcome,
) {
    let (visible, query, selected) = s;
    let m = event.modifiers;
    let none = Modifiers::none_spec();
    let ctrl = Modifiers { ctrl: true, ..none };
    let up = (event.key == Key::Up && m == none) || (event.key == Key::Char('p') && m == ctrl);
    let down = (event.key == Key::Down && m == none) || (event.key == Key::Char('n') && m == ctrl);
    if event.key == Key::Esc && m == none {
        ((false, Seq::empty(), 0), PaletteOutcome::Continue)
    } else if up {
        ((visible, query, moved_selection(selected, -1, count)), PaletteOutcome::Continue)
    } else if down {
        ((visible, query, moved_selection(selected, 1, count)), PaletteOutcome::Continue)
    } else if event.key == Key::Enter && m == none {
        if selected < count {
            ((false, Seq::empty(), 0), PaletteOutcome::Run(selected))
        } else {
            (s, PaletteOutcome::Continue)
        }
    } else if event.key == Key::Backspace && m == none {
        ((visible, if query.len() > 0 { query.drop_last() } else { query }, 0), PaletteOutcome::Continue)
    } else if event.key == Key::Char('u') && m == ctrl {
        ((visible, Seq::empty(), 0), PaletteOutcome::Continue)
    } else {
        match event.key {
            Key::Char(c) => if !m.ctrl && !m.alt && !m.super_key {
                ((visible, query.push(c), 0), PaletteOutcome::Continue)
            } else {
                (s, PaletteOutcome::Unhandled)
            },
            _ => (s, PaletteOutcome::Unhandled),
        }
    }
}

impl CommandPalette {
    /// Feeds one key to the open palette, which lists `item_count` actions.
    pub fn handle_key(&mut self, event: &KeyEvent, item_count: usize) -> (res: PaletteOutcome)
        ensures
            (palette_state(*final(self)), res) == palette_key_spec(palette_state(*old(self)), *event, item_count),
    {
        let m = event.modifiers;
        let none = Modifiers::none();
        let ctrl = Modifiers::ctrl();
        let key = event.key;
        if key == Key::Esc && m == none {
            self.close();
            return PaletteOutcome::Continue;
        }
        if (key == Key::Up && m == none) || (key == Key::Char('p') && m == ctrl) {
            self.move_selection(-1, item_count);
            return PaletteOutcome::Continue;
        }
        if (key == Key::Down && m == none) || (key == Key::Char('n') && m == ctrl) {
            self.move_selection(1, item_count);
            return PaletteOutcome::Continue;
        }
        if key == Key::Enter && m == none {
            if self.selected < item_count {
                let index = self.selected;
                self.close();
                return PaletteOutcome::Run(index);
            }
            return PaletteOutcome::Continue;
        }
        if key == Key::Backspace && m == none {
            self.backspace();
            return PaletteOutcome::Continue;
        }
        if key == Key::Char('u') && m == ctrl {
            self.clear_query();
            return PaletteOutcome::Continue;
        }
        match key {
            Key::Char(c) => {
                if !m.contains_ctrl() && !m.contains_alt() && !m.contains_super() {
                    self.push_char(c);
                    PaletteOutcome::Continue
                } else {
                    PaletteOutcome::Unhandled
                }
            },
            _ => PaletteOutcome::Unhandled,
        }
    }
}

} // verus!
