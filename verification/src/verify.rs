//! `keymap verify`: the user presses each chord the keymap relies on, and
//! the session records what the terminal really delivered: the chord itself,
//! something else (the terminal consumed or rewrote it), or a skip (Esc).
//! Ctrl+C stops the measurement and leaves the rest untested.
//!
//! This is the decision core; reading keys from the terminal is the
//! caller's part.

use vstd::prelude::*;
use vstd::string::*;

use crate::key::{Key, KeyEvent, Modifiers};
use crate::model::buffer::strings_view;
use crate::session::{join_strings, joined};
use crate::text::{decimal, decimal_string, push_char, str_equals};

verus! {

broadcast use {vstd::seq::group_seq_axioms, vstd::seq_lib::group_seq_properties};

/// `c` in upper case when it is an ASCII lower-case letter.
pub open spec fn upper_ascii(c: char) -> char {
    if 'a' <= c && c <= 'z' {
        ((c as int) - 32) as char
    } else {
        c
    }
}

/// The name of a key: in the config form (`escape`, `f5`, `z`) or the
/// display form (`Esc`, `F5`, `Z`).
pub open spec fn key_name(k: Key, config: bool) -> Seq<char> {
    match k {
        Key::Char(c) => seq![if config { c } else { upper_ascii(c) }],
        Key::Enter => if config { "enter"@ } else { "Enter"@ },
        Key::Esc => if config { "escape"@ } else { "Esc"@ },
        Key::Backspace => if config { "backspace"@ } else { "Backspace"@ },
        Key::Tab => if config { "tab"@ } else { "Tab"@ },
        Key::Up => if config { "up"@ } else { "Up"@ },
        Key::Down => if config { "down"@ } else { "Down"@ },
        Key::Left => if config { "left"@ } else { "Left"@ },
        Key::Right => if config { "right"@ } else { "Right"@ },
        Key::F(n) => seq![if config { 'f' } else { 'F' }] + decimal(n as nat),
    }
}

/// The held modifiers, each followed by `+`, in the order Ctrl, Alt, Shift,
/// Cmd.
pub open spec fn modifier_prefix(m: Modifiers, config: bool) -> Seq<char> {
    (if m.ctrl { if config { "ctrl+"@ } else { "Ctrl+"@ } } else { Seq::empty() })
        + (if m.alt { if config { "alt+"@ } else { "Alt+"@ } } else { Seq::empty() })
        + (if m.shift { if config { "shift+"@ } else { "Shift+"@ } } else { Seq::empty() })
        + (if m.super_key { if config { "cmd+"@ } else { "Cmd+"@ } } else { Seq::empty() })
}

/// A key event as text: `ctrl+z` in the config form, `Ctrl+Z` in the
/// display form.
pub open spec fn key_text_spec(e: KeyEvent, config: bool) -> Seq<char> {
    modifier_prefix(e.modifiers, config) + key_name(e.key, config)
}

/// Appends `a` or `b` to `s`, as `first` says.
fn append_either(s: &mut String, first: bool, a: &str, b: &str)
    ensures
        final(s)@ == old(s)@ + (if first { a@ } else { b@ }),
{
    if first {
        s.append(a);
    } else {
        s.append(b);
    }
}

/// A key event as text (see [`key_text_spec`]).
pub fn key_text(e: KeyEvent, config: bool) -> (res: String)
    ensures
        res@ == key_text_spec(e, config),
{
    let mut s = String::new();
    if e.modifiers.ctrl {
        append_either(&mut s, config, "ctrl+", "Ctrl+");
    }
    if e.modifiers.alt {
        append_either(&mut s, config, "alt+", "Alt+");
    }
    if e.modifiers.shift {
        append_either(&mut s, config, "shift+", "Shift+");
    }
    if e.modifiers.super_key {
        append_either(&mut s, config, "cmd+", "Cmd+");
    }
    let ghost prefix = s@;
    assert(prefix =~= modifier_prefix(e.modifiers, config));
    match e.key {
        Key::Char(c) => {
            if !config && 'a' <= c && c <= 'z' {
                let upper = ((c as u32) - 32) as u8;
                let u = upper as char;
                assert(u == upper_ascii(c)) by {
                    assert((c as int) - 32 == upper as int);
                }
                push_char(&mut s, u);
            } else {
                push_char(&mut s, c);
            }
        },
        Key::Enter => append_either(&mut s, config, "enter", "Enter"),
        Key::Esc => append_either(&mut s, config, "escape", "Esc"),
        Key::Backspace => append_either(&mut s, config, "backspace", "Backspace"),
        Key::Tab => append_either(&mut s, config, "tab", "Tab"),
        Key::Up => append_either(&mut s, config, "up", "Up"),
        Key::Down => append_either(&mut s, config, "down", "Down"),
        Key::Left => append_either(&mut s, config, "left", "Left"),
        Key::Right => append_either(&mut s, config, "right", "Right"),
        Key::F(n) => {
            push_char(&mut s, if config { 'f' } else { 'F' });
            s.append(decimal_string(n as usize).as_str());
        },
    }
    assert(s@ =~= key_text_spec(e, config));
    s
}

/// One chord to verify, with the actions it is bound to.
#[derive(Debug, Clone, PartialEq, Eq)]
pub struct VerifyTarget {
    pub chord: KeyEvent,
    pub actions: Vec<String>,
}

/// What a pressed chord showed.
#[derive(Debug, Clone, Copy, PartialEq, Eq, Structural)]
pub enum ChordOutcome {
    /// The key decoded to exactly the expected chord.
    Delivered,
    /// Something else arrived: the terminal consumed or rewrote the chord.
    Mismatch(KeyEvent),
    /// The user skipped the chord (Esc).
    Skipped,
}

/// What feeding a key did.
#[derive(Debug, Clone, Copy, PartialEq, Eq, Structural)]
pub enum FeedResult {
    /// The key was recorded, or ignored because verification is done.
    Recorded,
    /// The user aborted with Ctrl+C; the remaining chords stay untested.
    Aborted,
}

/// The measurement in progress: the chords, what each showed so far, and
/// the one asked for next.
#[derive(Debug, Clone)]
pub struct VerifySession {
    pub targets: Vec<VerifyTarget>,
    pub outcomes: Vec<Option<ChordOutcome>>,
    pub index: usize,
}

/// Esc without modifiers: skips a chord.
pub open spec fn esc_plain() -> KeyEvent {
    KeyEvent { key: Key::Esc, modifiers: Modifiers::none_spec() }
}

/// Ctrl+C: aborts the measurement.
pub open spec fn ctrl_c() -> KeyEvent {
    KeyEvent { key: Key::Char('c'), modifiers: Modifiers { shift: false, ctrl: true, alt: false, super_key: false } }
}

/// `f` is `o` with `outcome` recorded for the current chord and the next
/// one asked for.
pub open spec fn recorded(o: VerifySession, f: VerifySession, outcome: ChordOutcome) -> bool {
    &&& f.targets@ == o.targets@
    &&& f.outcomes@ == o.outcomes@.update(o.index as int, Some(outcome))
    &&& f.index == o.index + 1
}

/// What feeding `event` to `o` gives: the expected chord is checked before
/// the control keys, so a chord that is Esc or Ctrl+C itself can be
/// verified as delivered.
pub open spec fn feed_rel(o: VerifySession, event: KeyEvent, f: VerifySession, res: FeedResult) -> bool {
    if o.index >= o.targets@.len() {
        f == o && res == FeedResult::Recorded
    } else {
        let t = o.targets@[o.index as int];
        if event == t.chord {
            recorded(o, f, ChordOutcome::Delivered) && res == FeedResult::Recorded
        } else if event == esc_plain() {
            recorded(o, f, ChordOutcome::Skipped) && res == FeedResult::Recorded
        } else if event == ctrl_c() {
            f == o && res == FeedResult::Aborted
        } else {
            recorded(o, f, ChordOutcome::Mismatch(event)) && res == FeedResult::Recorded
        }
    }
}

/// The line shown after a chord was pressed.
pub open spec fn outcome_line(outcome: ChordOutcome) -> Seq<char> {
    match outcome {
        ChordOutcome::Delivered => "  -> delivered"@,
        ChordOutcome::Mismatch(actual) => "  -> arrived as "@ + key_text_spec(actual, false),
        ChordOutcome::Skipped => "  -> skipped"@,
    }
}

/// The prompt for target `i` of `n`: its number, the chord and the actions
/// it serves.
pub open spec fn prompt_text(i: int, n: int, t: VerifyTarget) -> Seq<char> {
    seq!['['] + decimal((i + 1) as nat) + seq!['/'] + decimal(n as nat) + "] press: "@ + key_text_spec(t.chord, true)
        + "  ("@ + joined(strings_view(t.actions@), ", "@) + seq![')']
}

/// The prompt for the chord asked for next, if any.
pub open spec fn prompt_spec(s: VerifySession) -> Option<Seq<char>> {
    if s.index < s.targets@.len() {
        Some(prompt_text(s.index as int, s.targets@.len() as int, s.targets@[s.index as int]))
    } else {
        None
    }
}

/// The lines shown after feeding a key to `o`, which gave `f`, and whether
/// the measurement stops: "aborted" on Ctrl+C; else the outcome line and the
/// next prompt, stopping when no chord is left.
pub open spec fn step_lines(o: VerifySession, f: VerifySession, res: FeedResult) -> (Seq<Seq<char>>, bool) {
    if res == FeedResult::Aborted {
        (seq!["aborted"@], true)
    } else if o.index >= o.targets@.len() {
        (Seq::empty(), true)
    } else {
        let line = outcome_line(f.outcomes@[o.index as int].unwrap());
        match prompt_spec(f) {
            Some(p) => (seq![line, p], false),
            None => (seq![line], true),
        }
    }
}

impl VerifySession {
    /// Outcomes as long as the targets, the next chord among them or just
    /// past the end, and an outcome for exactly the chords before it (the
    /// rest are untested).
    pub open spec fn wf(&self) -> bool {
        &&& self.outcomes@.len() == self.targets@.len()
        &&& self.index <= self.targets@.len()
        &&& forall|i: int| 0 <= i < self.outcomes@.len() ==> (#[trigger] self.outcomes@[i] is Some <==> i < self.index)
    }

    /// A session over `targets`, none tested yet.
    pub fn new(targets: Vec<VerifyTarget>) -> (res: VerifySession)
        ensures
            res.wf(),
            res.targets@ == targets@,
            res.index == 0,
            forall|i: int| 0 <= i < res.outcomes@.len() ==> res.outcomes@[i] is None,
    {
        let mut outcomes: Vec<Option<ChordOutcome>> = Vec::new();
        let mut i: usize = 0;
        while i < targets.len()
            invariant
                i <= targets@.len(),
                outcomes@.len() == i,
                forall|j: int| 0 <= j < i ==> outcomes@[j] is None,
            decreases targets.len() - i,
        {
            outcomes.push(None);
            i = i + 1;
        }
        VerifySession { targets, outcomes, index: 0 }
    }

    /// Whether there is nothing to verify.
    pub fn is_empty(&self) -> (res: bool)
        ensures
            res == (self.targets@.len() == 0),
    {
        self.targets.len() == 0
    }

    /// Whether every chord has been asked for.
    pub fn is_done(&self) -> (res: bool)
        ensures
            res == (self.index >= self.targets@.len()),
    {
        self.index >= self.targets.len()
    }

    /// The chord asked for next.
    pub fn current(&self) -> (res: Option<&VerifyTarget>)
        ensures
            res == (if self.index < self.targets@.len() {
                Some(&self.targets@[self.index as int])
            } else {
                None
            }),
    {
        if self.index < self.targets.len() {
            Some(&self.targets[self.index])
        } else {
            None
        }
    }

    /// Records what a pressed key shows for the current chord (see
    /// [`feed_rel`]).
    pub fn feed(&mut self, event: KeyEvent) -> (res: FeedResult)
        requires
            old(self).wf(),
        ensures
            final(self).wf(),
            feed_rel(*old(self), event, *final(self), res),
    {
        if self.index >= self.targets.len() {
            return FeedResult::Recorded;
        }
        let outcome = if event == self.targets[self.index].chord {
            ChordOutcome::Delivered
        } else if event == KeyEvent::plain(Key::Esc) {
            ChordOutcome::Skipped
        } else if event == KeyEvent::new(Key::Char('c'), Modifiers::ctrl()) {
            return FeedResult::Aborted;
        } else {
            ChordOutcome::Mismatch(event)
        };
        let i = self.index;
        self.outcomes.set(i, Some(outcome));
        self.index = i + 1;
        FeedResult::Recorded
    }

    /// The prompt for the chord asked for next (see [`prompt_text`]).
    pub fn prompt(&self) -> (res: Option<String>)
        requires
            self.wf(),
        ensures
            res matches Some(p) ==> prompt_spec(*self) == Some(p@),
            res is None <==> prompt_spec(*self) is None,
    {
        if self.index >= self.targets.len() {
            return None;
        }
        let t = &self.targets[self.index];
        let mut line = String::new();
        push_char(&mut line, '[');
        line.append(decimal_string(self.index + 1).as_str());
        push_char(&mut line, '/');
        line.append(decimal_string(self.targets.len()).as_str());
        line.append("] press: ");
        line.append(key_text(t.chord, true).as_str());
        line.append("  (");
        line.append(join_strings(t.actions.as_slice(), ", ").as_str());
        push_char(&mut line, ')');
        assert(line@ =~= prompt_text(self.index as int, self.targets@.len() as int, *t));
        Some(line)
    }

    /// Feeds a key and returns what it did, the lines to show and whether
    /// to stop (see [`step_lines`]).
    pub fn step(&mut self, event: KeyEvent) -> (res: (FeedResult, Vec<String>, bool))
        requires
            old(self).wf(),
        ensures
            final(self).wf(),
            feed_rel(*old(self), event, *final(self), res.0),
            strings_view(res.1@) == step_lines(*old(self), *final(self), res.0).0,
            res.2 == step_lines(*old(self), *final(self), res.0).1,
    {
        let before = self.index;
        let ghost o = *self;
        let result = self.feed(event);
        let mut lines: Vec<String> = Vec::new();
        match result {
            FeedResult::Aborted => {
                let m = "aborted";
                lines.push(m.to_owned());
                assert(strings_view(lines@) =~= seq!["aborted"@]);
                (result, lines, true)
            },
            FeedResult::Recorded => {
                if before >= self.targets.len() {
                    assert(strings_view(lines@) =~= Seq::<Seq<char>>::empty());
                    return (result, lines, true);
                }
                let text = match self.outcomes[before] {
                    Some(ChordOutcome::Delivered) => "  -> delivered".to_owned(),
                    Some(ChordOutcome::Mismatch(actual)) => {
                        let mut t = "  -> arrived as ".to_owned();
                        t.append(key_text(actual, false).as_str());
                        t
                    },
                    Some(ChordOutcome::Skipped) => "  -> skipped".to_owned(),
                    None => String::new(),
                };
                assert(text@ == outcome_line(self.outcomes@[before as int].unwrap()));
                lines.push(text);
                match self.prompt() {
                    Some(p) => {
                        lines.push(p);
                        assert(strings_view(lines@) =~= step_lines(o, *self, FeedResult::Recorded).0);
                        (result, lines, false)
                    },
                    None => {
                        assert(strings_view(lines@) =~= step_lines(o, *self, FeedResult::Recorded).0);
                        (result, lines, true)
                    },
                }
            },
        }
    }
}

/// A binding as `keymap verify` sees it: its chords, the action's name, and
/// whether it was imported.
#[derive(Debug, Clone)]
pub struct VerifyBinding {
    pub keys: Vec<KeyEvent>,
    pub action: String,
    pub imported: bool,
}

/// A target as a chord and its action names.
pub open spec fn target_view(t: VerifyTarget) -> (KeyEvent, Seq<Seq<char>>) {
    (t.chord, strings_view(t.actions@))
}

/// The targets as chords and action names.
pub open spec fn targets_view(ts: Seq<VerifyTarget>) -> Seq<(KeyEvent, Seq<Seq<char>>)> {
    ts.map_values(|t: VerifyTarget| target_view(t))
}

/// The first target from `i` on with `chord`, or -1.
pub open spec fn chord_index(t: Seq<(KeyEvent, Seq<Seq<char>>)>, chord: KeyEvent, i: int) -> int
    decreases t.len() - i,
{
    if i < 0 || i >= t.len() {
        -1
    } else if t[i].0 == chord {
        i
    } else {
        chord_index(t, chord, i + 1)
    }
}

/// `t` with `action` listed for `chord`: added to the chord's target
/// (once), or as a new target at the end.
pub open spec fn add_chord(t: Seq<(KeyEvent, Seq<Seq<char>>)>, chord: KeyEvent, action: Seq<char>) -> Seq<(KeyEvent, Seq<Seq<char>>)> {
    let k = chord_index(t, chord, 0);
    if k >= 0 {
        if t[k].1.contains(action) {
            t
        } else {
            t.update(k, (chord, t[k].1.push(action)))
        }
    } else {
        t.push((chord, seq![action]))
    }
}

/// `t` with `action` listed for each of `keys`, in order.
pub open spec fn add_chords(t: Seq<(KeyEvent, Seq<Seq<char>>)>, keys: Seq<KeyEvent>, action: Seq<char>) -> Seq<(KeyEvent, Seq<Seq<char>>)>
    decreases keys.len(),
{
    if keys.len() == 0 {
        t
    } else {
        add_chord(add_chords(t, keys.drop_last(), action), keys.last(), action)
    }
}

/// Whether a binding's chords are measured: it was imported, or one of its
/// chords holds Cmd (which terminals reserve key by key).
pub open spec fn measured(b: VerifyBinding) -> bool {
    b.imported || exists|k: int| 0 <= k < b.keys@.len() && (#[trigger] b.keys@[k]).modifiers.super_key
}

/// The targets for `bindings`: every chord of a measured binding once, in
/// order of first appearance, with the actions it serves.
pub open spec fn collect_targets(bindings: Seq<VerifyBinding>) -> Seq<(KeyEvent, Seq<Seq<char>>)>
    decreases bindings.len(),
{
    if bindings.len() == 0 {
        Seq::empty()
    } else {
        let prev = collect_targets(bindings.drop_last());
        let b = bindings.last();
        if measured(b) {
            add_chords(prev, b.keys@, b.action@)
        } else {
            prev
        }
    }
}

/// Lists `action` for `chord` in `targets` (see [`add_chord`]).
fn add_target_chord(targets: &mut Vec<VerifyTarget>, chord: KeyEvent, action: &String)
    ensures
        targets_view(final(targets)@) == add_chord(targets_view(old(targets)@), chord, action@),
{
    let ghost tv = targets_view(targets@);
    let mut i: usize = 0;
    while i < targets.len() && targets[i].chord != chord
        invariant
            i <= targets@.len(),
            tv == targets_view(targets@),
            chord_index(tv, chord, 0) == chord_index(tv, chord, i as int),
        decreases targets.len() - i,
    {
        i = i + 1;
    }
    if i < targets.len() {
        assert(chord_index(tv, chord, 0) == i);
        let mut found = false;
        let mut j: usize = 0;
        let n = targets[i].actions.len();
        while j < n
            invariant
                i < targets@.len(),
                n == targets@[i as int].actions@.len(),
                j <= n,
                found == exists|k: int| 0 <= k < j && targets@[i as int].actions@[k]@ == action@,
            decreases n - j,
        {
            if str_equals(targets[i].actions[j].as_str(), action.as_str()) {
                found = true;
            }
            j = j + 1;
        }
        let ghost acts = strings_view(targets@[i as int].actions@);
        if found {
            assert(acts.contains(action@)) by {
                let k = choose|k: int| 0 <= k < n && targets@[i as int].actions@[k]@ == action@;
                assert(acts[k] == action@);
            }
        } else {
            assert(!acts.contains(action@)) by {
                if acts.contains(action@) {
                    let k = choose|k: int| 0 <= k < acts.len() && acts[k] == action@;
                    assert(targets@[i as int].actions@[k]@ == action@);
                }
            }
            let mut t = targets.remove(i);
            t.actions.push(action.clone());
            assert(strings_view(t.actions@) =~= acts.push(action@));
            targets.insert(i, t);
            assert(targets_view(targets@) =~= tv.update(i as int, (chord, acts.push(action@))));
        }
    } else {
        assert(chord_index(tv, chord, 0) == -1);
        let t = VerifyTarget { chord, actions: vec![action.clone()] };
        assert(strings_view(t.actions@) =~= seq![action@]);
        targets.push(t);
        assert(targets_view(targets@) =~= tv.push((chord, seq![action@])));
    }
}

/// The summary line of one target.
pub open spec fn target_line(t: VerifyTarget, outcome: Option<ChordOutcome>) -> Seq<char> {
    let chord = key_text_spec(t.chord, true);
    let actions = "  ("@ + joined(strings_view(t.actions@), ", "@) + seq![')'];
    match outcome {
        Some(ChordOutcome::Delivered) => "delivered  "@ + chord + actions,
        Some(ChordOutcome::Mismatch(actual)) => "MISMATCH   "@ + chord + "  arrived as "@ + key_text_spec(actual, false)
            + actions,
        Some(ChordOutcome::Skipped) => "skipped    "@ + chord + actions,
        None => "untested   "@ + chord + actions,
    }
}

/// How many outcomes are delivered, mismatched, skipped and untested.
pub open spec fn tally(outcomes: Seq<Option<ChordOutcome>>) -> (nat, nat, nat, nat)
    decreases outcomes.len(),
{
    if outcomes.len() == 0 {
        (0, 0, 0, 0)
    } else {
        let (d, m, s, u) = tally(outcomes.drop_last());
        match outcomes.last() {
            Some(ChordOutcome::Delivered) => (d + 1, m, s, u),
            Some(ChordOutcome::Mismatch(_)) => (d, m + 1, s, u),
            Some(ChordOutcome::Skipped) => (d, m, s + 1, u),
            None => (d, m, s, u + 1),
        }
    }
}

/// The totals line.
pub open spec fn totals_line(t: (nat, nat, nat, nat)) -> Seq<char> {
    "total: "@ + decimal(t.0) + " delivered, "@ + decimal(t.1) + " mismatched, "@ + decimal(t.2) + " skipped, "@
        + decimal(t.3) + " untested"@
}

/// Whether an outcome is a mismatch.
pub open spec fn is_mismatch(o: Option<ChordOutcome>) -> bool {
    match o {
        Some(ChordOutcome::Mismatch(_)) => true,
        _ => false,
    }
}

/// Whether a Cmd chord arrived as something else.
pub open spec fn super_undelivered(targets: Seq<VerifyTarget>, outcomes: Seq<Option<ChordOutcome>>) -> bool {
    exists|i: int|
        0 <= i < targets.len() && is_mismatch(#[trigger] outcomes[i])
            && targets[i].chord.modifiers.super_key
}

/// The hint shown when a Cmd chord did not arrive.
pub open spec fn super_hint() -> Seq<char> {
    "hint: a Cmd/Super chord did not arrive — the terminal may reserve it; consider re-importing with --cmd=ctrl"@
}

/// The report: one line per target, the totals, and the hint to re-import
/// with `--cmd=ctrl` when a Cmd chord did not arrive.
pub open spec fn summary_spec(s: VerifySession) -> Seq<Seq<char>> {
    Seq::new(s.targets@.len(), |i: int| target_line(s.targets@[i], s.outcomes@[i])) + seq![totals_line(tally(s.outcomes@))]
        + if super_undelivered(s.targets@, s.outcomes@) {
        seq![super_hint()]
    } else {
        Seq::empty()
    }
}

impl VerifySession {
    /// A session over the chords of `bindings` (see [`collect_targets`]),
    /// none tested yet.
    pub fn from_bindings(bindings: &[VerifyBinding]) -> (res: VerifySession)
        ensures
            res.wf(),
            targets_view(res.targets@) == collect_targets(bindings@),
            res.index == 0,
            forall|i: int| 0 <= i < res.outcomes@.len() ==> res.outcomes@[i] is None,
    {
        let mut targets: Vec<VerifyTarget> = Vec::new();
        let mut i: usize = 0;
        assert(bindings@.take(0) =~= Seq::<VerifyBinding>::empty());
        while i < bindings.len()
            invariant
                i <= bindings@.len(),
                targets_view(targets@) == collect_targets(bindings@.take(i as int)),
            decreases bindings.len() - i,
        {
            let b = &bindings[i];
            let mut any_super = false;
            let mut j: usize = 0;
            while j < b.keys.len()
                invariant
                    j <= b.keys@.len(),
                    any_super == exists|k: int| 0 <= k < j && (#[trigger] b.keys@[k]).modifiers.super_key,
                decreases b.keys.len() - j,
            {
                if b.keys[j].modifiers.super_key {
                    any_super = true;
                }
                j = j + 1;
            }
            assert(bindings@.take(i + 1).drop_last() =~= bindings@.take(i as int));
            let ghost prev = collect_targets(bindings@.take(i as int));
            if b.imported || any_super {
                let mut k: usize = 0;
                assert(b.keys@.take(0) =~= Seq::<KeyEvent>::empty());
                while k < b.keys.len()
                    invariant
                        k <= b.keys@.len(),
                        targets_view(targets@) == add_chords(prev, b.keys@.take(k as int), b.action@),
                    decreases b.keys.len() - k,
                {
                    add_target_chord(&mut targets, b.keys[k], &b.action);
                    assert(b.keys@.take(k + 1).drop_last() =~= b.keys@.take(k as int));
                    k = k + 1;
                }
                assert(b.keys@.take(b.keys@.len() as int) =~= b.keys@);
            }
            i = i + 1;
        }
        assert(bindings@.take(bindings@.len() as int) =~= bindings@);
        let res = VerifySession::new(targets);
        res
    }

    /// The report (see [`summary_spec`]).
    pub fn summary_lines(&self) -> (res: Vec<String>)
        requires
            self.wf(),
        ensures
            strings_view(res@) == summary_spec(*self),
    {
        let mut lines: Vec<String> = Vec::new();
        let mut d: usize = 0;
        let mut m: usize = 0;
        let mut sk: usize = 0;
        let mut u: usize = 0;
        let mut hint = false;
        let n = self.targets.len();
        let ghost ts = self.targets@;
        let ghost os = self.outcomes@;
        let mut i: usize = 0;
        assert(os.take(0) =~= Seq::<Option<ChordOutcome>>::empty());
        while i < n
            invariant
                n == ts.len(),
                ts == self.targets@,
                os == self.outcomes@,
                os.len() == n,
                i <= n,
                d + m + sk + u == i,
                tally(os.take(i as int)) == (d as nat, m as nat, sk as nat, u as nat),
                hint == exists|j: int|
                    0 <= j < i && is_mismatch(#[trigger] os[j])
                        && ts[j].chord.modifiers.super_key,
                strings_view(lines@) == Seq::new(i as nat, |j: int| target_line(ts[j], os[j])),
            decreases n - i,
        {
            let t = &self.targets[i];
            let chord = key_text(t.chord, true);
            let mut actions = "  (".to_owned();
            actions.append(join_strings(t.actions.as_slice(), ", ").as_str());
            push_char(&mut actions, ')');
            let mut line = match self.outcomes[i] {
                Some(ChordOutcome::Delivered) => {
                    d = d + 1;
                    "delivered  ".to_owned()
                },
                Some(ChordOutcome::Mismatch(_)) => {
                    m = m + 1;
                    if t.chord.modifiers.super_key {
                        hint = true;
                    }
                    "MISMATCH   ".to_owned()
                },
                Some(ChordOutcome::Skipped) => {
                    sk = sk + 1;
                    "skipped    ".to_owned()
                },
                None => {
                    u = u + 1;
                    "untested   ".to_owned()
                },
            };
            line.append(chord.as_str());
            match self.outcomes[i] {
                Some(ChordOutcome::Mismatch(actual)) => {
                    line.append("  arrived as ");
                    line.append(key_text(actual, false).as_str());
                },
                _ => {},
            }
            line.append(actions.as_str());
            assert(line@ =~= target_line(ts[i as int], os[i as int]));
            let ghost before = lines@;
            let ghost lv = line@;
            lines.push(line);
            assert(strings_view(lines@) =~= strings_view(before).push(lv));
            assert(os.take(i + 1).drop_last() =~= os.take(i as int));
            assert(strings_view(lines@) =~= Seq::new((i + 1) as nat, |j: int| target_line(ts[j], os[j])));
            i = i + 1;
        }
        assert(os.take(n as int) =~= os);
        let mut total = "total: ".to_owned();
        total.append(decimal_string(d).as_str());
        total.append(" delivered, ");
        total.append(decimal_string(m).as_str());
        total.append(" mismatched, ");
        total.append(decimal_string(sk).as_str());
        total.append(" skipped, ");
        total.append(decimal_string(u).as_str());
        total.append(" untested");
        assert(total@ =~= totals_line(tally(os)));
        lines.push(total);
        if hint {
            let h = "hint: a Cmd/Super chord did not arrive — the terminal may reserve it; consider re-importing with --cmd=ctrl";
            lines.push(h.to_owned());
        }
        assert(strings_view(lines@) =~= summary_spec(*self));
        lines
    }
}

} // verus!
