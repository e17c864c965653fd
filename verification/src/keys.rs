//! Keys, paste and the mouse: which pane owns them, and what they do.
use crate::app::{App, Approval};
use crate::input;
use crate::input::Input;
use crate::model;
use crate::model::{Decision, KeyCode, KeyEvent, MouseKind, Theme};
use crate::picker;
use crate::picker::{Asked, Picker, PickerAction, PickerKind};
use crate::spine;
use crate::spine::{Focus, Spine};
use crate::text;
use crate::text::{replace_char, text2, trim_text};
use vstd::prelude::*;
use vstd::string::*;

verus! {

/// What the run loop has to do for a key.
#[derive(Debug)]
pub enum KeyAction {
    Stay,
    /// The composer is to be submitted.
    Submit,
    /// The run in flight is to be cancelled.
    Cancel,
    /// The approval is answered; an abort also cancels the run in flight.
    Reply { decision: Decision, cancel: bool },
    /// The workflow is to be run again.
    Repeat { workflow: String, input: String },
    CycleAgent { reverse: bool },
    /// A row of a dialog was chosen; the dialog is closed meanwhile.
    Pick { picker: Picker, reference: String },
}

/// What a key means in the composer.
#[derive(Clone, Copy)]
pub enum Edit {
    Nothing,
    Interrupt,
    Submit,
    Insert(char),
    QuitIfEmpty,
    Clear,
    WordBack,
    Backspace,
    Delete,
    WordLeft,
    WordRight,
    Left,
    Right,
    Top,
    Bottom,
    Home,
    End,
    PageUp,
    PageDown,
    Older,
    Newer,
    Help,
}

/// What a key means in the composer.
pub open spec fn edit_of(key: KeyEvent) -> Edit {
    let m = key.modifiers;
    match key.code {
        KeyCode::Char('c') if m.control => Edit::Interrupt,
        KeyCode::Enter => if m.alt || m.shift {
            Edit::Insert('\n')
        } else {
            Edit::Submit
        },
        KeyCode::Char('j') if m.control => Edit::Insert('\n'),
        KeyCode::Char('d') if m.control => Edit::QuitIfEmpty,
        KeyCode::Char('u') if m.control => Edit::Clear,
        KeyCode::Char('h') if m.control => Edit::WordBack,
        KeyCode::Char(c) if !m.control && !m.alt => Edit::Insert(c),
        KeyCode::Backspace => if m.control {
            Edit::WordBack
        } else {
            Edit::Backspace
        },
        KeyCode::Delete => Edit::Delete,
        KeyCode::Left => if m.control {
            Edit::WordLeft
        } else {
            Edit::Left
        },
        KeyCode::Right => if m.control {
            Edit::WordRight
        } else {
            Edit::Right
        },
        KeyCode::Home => if m.control {
            Edit::Top
        } else {
            Edit::Home
        },
        KeyCode::End => if m.control {
            Edit::Bottom
        } else {
            Edit::End
        },
        KeyCode::PageUp => Edit::PageUp,
        KeyCode::PageDown => Edit::PageDown,
        KeyCode::Up => Edit::Older,
        KeyCode::Down => Edit::Newer,
        KeyCode::F(1) => Edit::Help,
        _ => Edit::Nothing,
    }
}

/// A number, moved up and held at the largest one.
pub open spec fn raised(n: usize, by: int) -> usize {
    if n + by > usize::MAX {
        usize::MAX
    } else {
        (n + by) as usize
    }
}

/// A number, moved down and held at zero.
pub open spec fn lowered(n: usize, by: int) -> usize {
    if n < by {
        0
    } else {
        (n - by) as usize
    }
}

/// Only the composer changed: it holds `s` with the cursor at `k`.
pub open spec fn composed(a: App, b: App, s: Seq<char>, k: int) -> bool {
    b == (App { input: b.input, ..a }) && b.input.is(s, k)
}

/// Nothing but the status line changed.
pub open spec fn said(a: App, b: App, status: Seq<char>) -> bool {
    b == (App { status: b.status, ..a }) && b.status@ == status
}

/// The run in flight is cancelled, if there is one, and an approval is
/// answered by an abort.
pub open spec fn interrupted(a: App, b: App, r: KeyAction) -> bool {
    &&& b == (App { status: b.status, approval: None, ..a })
    &&& b.status@ == if a.busy {
        "Cancelling..."@
    } else {
        a.status@
    }
    &&& r == if a.approval is Some {
        KeyAction::Reply { decision: Decision::Abort, cancel: a.busy }
    } else if a.busy {
        KeyAction::Cancel
    } else {
        KeyAction::Stay
    }
}

/// The text and the cursor that an edit makes of `s` with the cursor at `k`;
/// `None` for one that leaves the composer alone.
pub open spec fn edited(s: Seq<char>, k: int, edit: Edit) -> Option<(Seq<char>, int)> {
    match edit {
        Edit::Insert(c) => Some((s.take(k) + seq![c] + s.skip(k), k + 1)),
        Edit::Clear => Some((Seq::empty(), 0)),
        Edit::WordBack => Some(
            (s.take(input::word_start(s, k)) + s.skip(k), input::word_start(s, k)),
        ),
        Edit::Backspace => Some(
            if k > 0 {
                (s.take(k - 1) + s.skip(k), k - 1)
            } else {
                (s, 0)
            },
        ),
        Edit::Delete => Some(
            if k < s.len() {
                (s.take(k) + s.skip(k + 1), k)
            } else {
                (s, k)
            },
        ),
        Edit::WordLeft => Some((s, input::word_start(s, k))),
        Edit::WordRight => Some((s, input::word_end(s, k))),
        Edit::Left => Some(
            (
                s,
                if k > 0 {
                    k - 1
                } else {
                    0
                },
            ),
        ),
        Edit::Right => Some(
            (
                s,
                if k < s.len() {
                    k + 1
                } else {
                    k
                },
            ),
        ),
        Edit::Home => Some((s, input::line_start(s, k))),
        Edit::End => Some((s, input::line_end(s, k))),
        _ => None,
    }
}

/// What a key does in the composer.
pub open spec fn composer_effect(a: App, key: KeyEvent, b: App, r: KeyAction) -> bool {
    let edit = edit_of(key);
    match edited(a.input.text@, a.input.at(), edit) {
        Some((s, k)) => r == KeyAction::Stay && composed(a, b, s, k),
        None => match edit {
            Edit::Interrupt => interrupted(a, b, r),
            Edit::Submit => r == KeyAction::Submit && b == a,
            _ => r == KeyAction::Stay && outside_effect(a, edit, b),
        },
    }
}

/// What an edit does outside of the composer's text.
pub open spec fn outside_effect(a: App, edit: Edit, b: App) -> bool {
    match edit {
        Edit::QuitIfEmpty => b == (App { quit: a.quit || a.input.text@.len() == 0, ..a }),
        Edit::Top => b == (App { scroll: usize::MAX, ..a }),
        Edit::Bottom => b == (App { scroll: 0, ..a }),
        Edit::PageUp => b == (App { scroll: raised(a.scroll, 10), ..a }),
        Edit::PageDown => b == (App { scroll: lowered(a.scroll, 10), ..a }),
        Edit::Older => if a.history_index > 0 {
            recalled(a, a.history_index - 1, b)
        } else {
            b == a
        },
        Edit::Newer => recalled(
            a,
            if a.history_index < a.input_history@.len() {
                a.history_index + 1
            } else {
                a.history_index as int
            },
            b,
        ),
        Edit::Help => b == (App { help: true, overlay_scroll: 0, ..a }),
        _ => b == a,
    }
}

/// The composer shows an earlier input, or nothing past the last one.
pub open spec fn recalled(a: App, index: int, b: App) -> bool {
    let s = if index < a.input_history@.len() {
        a.input_history@[index]@
    } else {
        Seq::empty()
    };
    &&& b.history_index == index
    &&& b == (App { input: b.input, history_index: b.history_index, ..a })
    &&& b.input.is(s, s.len() as int)
}

/// Where a key scrolls an overlay to; `None` for a key that does not.
pub open spec fn overlay_scrolled(n: usize, key: KeyEvent) -> Option<usize> {
    match key.code {
        KeyCode::PageDown => Some(raised(n, 10)),
        KeyCode::PageUp => Some(lowered(n, 10)),
        KeyCode::Home => Some(0),
        KeyCode::End => Some(usize::MAX),
        _ => None,
    }
}

/// The answer that a key gives to an approval. Letters count only without
/// modifiers; Ctrl+C aborts and Esc rejects.
pub open spec fn decision_of(key: KeyEvent, workflow: bool) -> Option<Decision> {
    let plain = key.modifiers.empty();
    match key.code {
        KeyCode::Char('c') if key.modifiers.control => Some(Decision::Abort),
        KeyCode::Esc => Some(Decision::Reject),
        KeyCode::Char('y') if plain => Some(Decision::Approve),
        KeyCode::Char('n') if plain => Some(Decision::Reject),
        KeyCode::Char('q') if plain => Some(Decision::Abort),
        KeyCode::Char('r') if plain && workflow => Some(Decision::Retry),
        KeyCode::Char('s') if plain && workflow => Some(Decision::Skip),
        _ => None,
    }
}

/// What a key does to an approval.
pub open spec fn approval_effect(a: App, key: KeyEvent, b: App, r: KeyAction) -> bool {
    match overlay_scrolled(a.overlay_scroll, key) {
        Some(n) => r == KeyAction::Stay && b == (App { overlay_scroll: n, ..a }),
        None => match decision_of(key, a.approval->0.workflow) {
            Some(decision) => {
                &&& b == (App { approval: None, ..a })
                &&& r == KeyAction::Reply {
                    decision,
                    cancel: decision == Decision::Abort && a.busy,
                }
            },
            None => r == KeyAction::Stay && b == a,
        },
    }
}

/// The key closes the help.
pub open spec fn closes_help(key: KeyEvent) -> bool {
    match key.code {
        KeyCode::Esc | KeyCode::Char('q') | KeyCode::F(1) => true,
        KeyCode::Char('c') => key.modifiers.control,
        _ => false,
    }
}

/// What a key does to the help.
pub open spec fn help_effect(a: App, key: KeyEvent, b: App, r: KeyAction) -> bool {
    &&& r == KeyAction::Stay
    &&& b == match overlay_scrolled(a.overlay_scroll, key) {
        Some(n) => App { overlay_scroll: n, ..a },
        None => App { help: a.help && !closes_help(key), ..a },
    }
}

/// What a key does to the overlay of a finished workflow. Letters count only
/// without modifiers.
pub open spec fn complete_effect(a: App, key: KeyEvent, b: App, r: Result<KeyAction, String>) -> bool {
    let plain = key.modifiers.empty();
    let stays = r == Ok::<KeyAction, String>(KeyAction::Stay);
    match overlay_scrolled(a.overlay_scroll, key) {
        Some(n) => stays && b == (App { overlay_scroll: n, ..a }),
        None => match key.code {
            KeyCode::Char('n') if plain => stays && said(
                App { workflow_complete: false, queue_blocked: None, ..a },
                b,
                "Enter input for a new workflow run"@,
            ),
            KeyCode::Char('r') if plain => match a.workflow_mode {
                Some(workflow) => {
                    &&& b == (App { queue_blocked: None, ..a })
                    &&& r matches Ok(KeyAction::Repeat { workflow: w, input }) && w == workflow
                        && input@ == match a.last_workflow_input {
                        Some(last) => last@,
                        None => Seq::empty(),
                    }
                },
                None => b == a && r is Err && r->Err_0@ == "Workflow is not selected"@,
            },
            KeyCode::Char('q') if plain => stays && left_workflow(a, b),
            KeyCode::Esc => stays && left_workflow(a, b),
            KeyCode::Enter if a.queue_blocked is Some && text::trim(a.input.text@).len() == 0 => r
                == Ok::<KeyAction, String>(KeyAction::Submit) && b == a,
            _ => stays && b == a,
        },
    }
}

/// Workflow mode is over; the queue is kept but nothing blocks it.
pub open spec fn left_workflow(a: App, b: App) -> bool {
    said(
        App {
            workflow_complete: false,
            workflow_mode: None,
            last_workflow_input: None,
            queue_blocked: None,
            ..a
        },
        b,
        "Exited workflow mode"@,
    )
}

/// The theme that a dialog previews, or else the one in use.
pub open spec fn previewed_over(p: Picker, theme: Theme) -> Theme {
    match p.previewed() {
        Some(t) => t,
        None => theme,
    }
}

/// What a key does to an open dialog. Closing a theme dialog brings the theme
/// back; moving in it previews.
pub open spec fn dialog_effect(a: App, key: KeyEvent, b: App, r: KeyAction) -> bool {
    let p = a.picker->0;
    match picker::key_choice(p, key) {
        Asked::Close => r == KeyAction::Stay && b == (App {
            picker: None,
            theme: match p.kind {
                PickerKind::Themes { original, .. } => original,
                _ => a.theme,
            },
            ..a
        }),
        Asked::Select(reference) => if p.kind is Themes {
            r == KeyAction::Stay && said(
                App { picker: None, theme: previewed_over(p, a.theme), ..a },
                b,
                "Theme: "@ + reference,
            )
        } else {
            &&& b == (App { picker: None, ..a })
            &&& r matches KeyAction::Pick { picker: q, reference: chosen } && q == p && chosen@
                == reference
        },
        Asked::Stay => {
            &&& r == KeyAction::Stay
            &&& b.picker is Some
            &&& picker::key_effect(p, key, b.picker->0)
            &&& b.picker->0.same_content(p)
            &&& b == (App {
                picker: b.picker,
                theme: previewed_over(b.picker->0, a.theme),
                ..a
            })
        },
    }
}

/// What a key does while the spine owns the keyboard. The composer and its
/// history are out of reach.
pub open spec fn spine_effect(a: App, key: KeyEvent, b: App, r: KeyAction) -> bool {
    let s = a.spine();
    let control = key.modifiers.control;
    &&& r == KeyAction::Stay
    &&& a.same_aside(b)
    &&& b.spine() == match key.code {
        KeyCode::Up => s.focus_moved(false),
        KeyCode::Down => s.focus_moved(true),
        KeyCode::Left => s.row_expanded(Some(false)),
        KeyCode::Right => s.row_expanded(Some(true)),
        KeyCode::Enter | KeyCode::Char(' ') => s.row_expanded(None),
        KeyCode::PageUp => Spine { scroll: raised(s.scroll, 10), ..s },
        KeyCode::PageDown => Spine { scroll: lowered(s.scroll, 10), ..s },
        KeyCode::Home if control => Spine { scroll: usize::MAX, ..s },
        KeyCode::End if control => Spine { scroll: 0, ..s },
        _ => s,
    }
}

impl Spine {
    /// The expansion of the focused row is set, or flipped by `None`.
    pub open spec fn row_expanded(self, to: Option<bool>) -> Spine {
        match self.focused {
            Some(id) => self.expanded(id, to),
            None => self,
        }
    }
}

/// The pane that a key belongs to.
pub enum Pane {
    Approval,
    Help,
    Complete,
    Dialog,
    Main,
}

/// The pane on top: an approval lies over the help, over the overlay of a
/// finished workflow, over a dialog.
pub open spec fn top_pane(a: App) -> Pane {
    if a.approval is Some {
        Pane::Approval
    } else if a.help {
        Pane::Help
    } else if a.workflow_complete {
        Pane::Complete
    } else if a.picker is Some {
        Pane::Dialog
    } else {
        Pane::Main
    }
}

/// What a key does where nothing lies over the transcript and the composer.
pub open spec fn main_effect(a: App, key: KeyEvent, b: App, r: KeyAction) -> bool {
    let control = key.modifiers.control;
    let interrupts = key.code == KeyCode::Esc || (key.code == KeyCode::Char('c') && control);
    if a.focus == Focus::Activity && key.code == KeyCode::Esc {
        r == KeyAction::Stay && b == (App { focus: Focus::Input, ..a })
    } else if a.busy && interrupts {
        r == KeyAction::Cancel && said(a, b, "Cancelling..."@)
    } else if key.code == KeyCode::Tab || key.code == KeyCode::BackTab {
        if a.workflow_mode is Some {
            r == KeyAction::Stay && said(a, b, "Agent cycling disabled in workflow mode"@)
        } else {
            b == a && r == KeyAction::CycleAgent {
                reverse: key.code == KeyCode::BackTab || key.modifiers.shift,
            }
        }
    } else if key.code == KeyCode::F(6) {
        &&& r == KeyAction::Stay
        &&& b.spine() == a.spine().focus_toggled()
        &&& b == (App {
            focus: b.focus,
            focused_activity: b.focused_activity,
            status: b.status,
            ..a
        })
        &&& b.status@ == if a.focus == Focus::Input && a.spine().visible().len() == 0 {
            "No activity to focus"@
        } else {
            a.status@
        }
    } else if a.focus == Focus::Activity {
        spine_effect(a, key, b, r)
    } else {
        composer_effect(a, key, b, r)
    }
}

impl App {
    /// Scrolls an overlay, if the key does.
    fn scroll_overlay(&mut self, key: KeyEvent) -> (r: bool)
        ensures
            match overlay_scrolled(old(self).overlay_scroll, key) {
                Some(n) => r && *final(self) == (App { overlay_scroll: n, ..*old(self) }),
                None => !r && *final(self) == *old(self),
            },
    {
        match key.code {
            KeyCode::PageDown => {
                self.overlay_scroll = self.overlay_scroll.saturating_add(10);
            },
            KeyCode::PageUp => {
                self.overlay_scroll = self.overlay_scroll.saturating_sub(10);
            },
            KeyCode::Home => {
                self.overlay_scroll = 0;
            },
            KeyCode::End => {
                self.overlay_scroll = usize::MAX;
            },
            _ => {
                return false;
            },
        }
        true
    }

    /// Cancels the run in flight and aborts an approval.
    fn cancel_active_run(&mut self) -> (r: KeyAction)
        ensures
            interrupted(*old(self), *final(self), r),
    {
        if self.busy {
            self.status = "Cancelling...".to_owned();
        }
        if self.approval.is_some() {
            self.approval = None;
            return KeyAction::Reply { decision: Decision::Abort, cancel: self.busy };
        }
        if self.busy {
            KeyAction::Cancel
        } else {
            KeyAction::Stay
        }
    }

    /// The answer that a key gives to an approval.
    fn decide(key: KeyEvent, workflow: bool) -> (r: Option<Decision>)
        ensures
            r == decision_of(key, workflow),
    {
        let plain = key.modifiers.is_empty();
        match key.code {
            KeyCode::Char('c') if key.modifiers.control => Some(Decision::Abort),
            KeyCode::Esc => Some(Decision::Reject),
            KeyCode::Char('y') if plain => Some(Decision::Approve),
            KeyCode::Char('n') if plain => Some(Decision::Reject),
            KeyCode::Char('q') if plain => Some(Decision::Abort),
            KeyCode::Char('r') if plain && workflow => Some(Decision::Retry),
            KeyCode::Char('s') if plain && workflow => Some(Decision::Skip),
            _ => None,
        }
    }

    /// Handles a key for an approval, the help or the composer, in this order.
    pub fn edit_key(&mut self, key: KeyEvent) -> (r: KeyAction)
        requires
            old(self).wf(),
        ensures
            final(self).wf(),
            if key.release {
                r == KeyAction::Stay && *final(self) == *old(self)
            } else if old(self).approval is Some {
                approval_effect(*old(self), key, *final(self), r)
            } else if old(self).help {
                help_effect(*old(self), key, *final(self), r)
            } else {
                composer_effect(*old(self), key, *final(self), r)
            },
    {
        if key.release {
            return KeyAction::Stay;
        }
        let control = key.modifiers.control;
        if (self.approval.is_some() || self.help) && self.scroll_overlay(key) {
            return KeyAction::Stay;
        }
        let workflow: Option<bool> = match &self.approval {
            Some(approval) => Some(approval.workflow),
            None => None,
        };
        if let Some(workflow) = workflow {
            return match Self::decide(key, workflow) {
                Some(decision) => {
                    self.approval = None;
                    KeyAction::Reply { decision, cancel: decision == Decision::Abort && self.busy }
                },
                None => KeyAction::Stay,
            };
        }
        if self.help {
            let closes = match key.code {
                KeyCode::Esc | KeyCode::Char('q') | KeyCode::F(1) => true,
                KeyCode::Char('c') => control,
                _ => false,
            };
            if closes {
                self.help = false;
            }
            return KeyAction::Stay;
        }
        self.compose(key)
    }

    /// Handles a key for the composer.
    fn compose(&mut self, key: KeyEvent) -> (r: KeyAction)
        requires
            old(self).wf(),
            old(self).approval is None,
        ensures
            final(self).wf(),
            composer_effect(*old(self), key, *final(self), r),
    {
        let edit = meaning(key);
        if apply_edit(&mut self.input, edit) {
            return KeyAction::Stay;
        }
        match edit {
            Edit::Interrupt => self.cancel_active_run(),
            Edit::Submit => KeyAction::Submit,
            _ => {
                self.apply_outside(edit);
                KeyAction::Stay
            },
        }
    }

    /// Applies an edit that is not one of the composer's text.
    fn apply_outside(&mut self, edit: Edit)
        requires
            old(self).wf(),
        ensures
            final(self).wf(),
            outside_effect(*old(self), edit, *final(self)),
    {
        let scroll: usize = self.scroll;
        match edit {
            Edit::QuitIfEmpty => {
                if self.input.text.as_str().is_empty() {
                    self.quit = true;
                }
            },
            Edit::Top => {
                self.scroll_to(usize::MAX);
            },
            Edit::Bottom => {
                self.scroll_to(0);
            },
            Edit::PageUp => {
                self.scroll_to(scroll.saturating_add(10));
            },
            Edit::PageDown => {
                self.scroll_to(scroll.saturating_sub(10));
            },
            Edit::Older => {
                if self.history_index > 0 {
                    self.recall(self.history_index - 1);
                }
            },
            Edit::Newer => {
                if self.history_index < self.input_history.len() {
                    self.recall(self.history_index + 1);
                } else {
                    self.recall(self.history_index);
                }
            },
            Edit::Help => {
                self.help = true;
                self.overlay_scroll = 0;
            },
            _ => {},
        }
    }

    /// Scrolls the transcript to a distance from its end.
    fn scroll_to(&mut self, scroll: usize)
        requires
            old(self).wf(),
        ensures
            final(self).wf(),
            *final(self) == (App { scroll, ..*old(self) }),
            final(self).spine() == (Spine { scroll, ..old(self).spine() }),
    {
        proof {
            self.spine().lemma_scrolled(scroll);
        }
        self.scroll = scroll;
    }

    /// Shows the input at a place in the history.
    fn recall(&mut self, index: usize)
        requires
            old(self).wf(),
            index <= old(self).input_history@.len(),
        ensures
            final(self).wf(),
            recalled(*old(self), index as int, *final(self)),
    {
        let text = if index < self.input_history.len() {
            self.input_history[index].clone()
        } else {
            String::new()
        };
        assert(index >= self.input_history@.len() ==> text@ =~= Seq::<char>::empty());
        self.history_index = index;
        self.input.set(text);
    }
}

/// What a key means in the composer.
fn meaning(key: KeyEvent) -> (r: Edit)
    ensures
        r == edit_of(key),
{
    let m = key.modifiers;
    match key.code {
        KeyCode::Char('c') if m.control => Edit::Interrupt,
        KeyCode::Enter => if m.alt || m.shift {
            Edit::Insert('\n')
        } else {
            Edit::Submit
        },
        KeyCode::Char('j') if m.control => Edit::Insert('\n'),
        KeyCode::Char('d') if m.control => Edit::QuitIfEmpty,
        KeyCode::Char('u') if m.control => Edit::Clear,
        KeyCode::Char('h') if m.control => Edit::WordBack,
        KeyCode::Char(c) if !m.control && !m.alt => Edit::Insert(c),
        KeyCode::Backspace => if m.control {
            Edit::WordBack
        } else {
            Edit::Backspace
        },
        KeyCode::Delete => Edit::Delete,
        KeyCode::Left => if m.control {
            Edit::WordLeft
        } else {
            Edit::Left
        },
        KeyCode::Right => if m.control {
            Edit::WordRight
        } else {
            Edit::Right
        },
        KeyCode::Home => if m.control {
            Edit::Top
        } else {
            Edit::Home
        },
        KeyCode::End => if m.control {
            Edit::Bottom
        } else {
            Edit::End
        },
        KeyCode::PageUp => Edit::PageUp,
        KeyCode::PageDown => Edit::PageDown,
        KeyCode::Up => Edit::Older,
        KeyCode::Down => Edit::Newer,
        KeyCode::F(1) => Edit::Help,
        _ => Edit::Nothing,
    }
}

/// Applies an edit to the composer; false where it leaves the composer alone.
fn apply_edit(input: &mut Input, edit: Edit) -> (r: bool)
    requires
        old(input).wf(),
    ensures
        match edited(old(input).text@, old(input).at(), edit) {
            Some((s, k)) => r && final(input).is(s, k),
            None => !r && *final(input) == *old(input),
        },
{
    proof {
        input::lemma_at_bounds(*input);
    }
    match edit {
        Edit::Insert(c) => {
            let mut typed = String::new();
            typed.push(c);
            assert(typed@ =~= seq![c]);
            input.insert(typed.as_str());
        },
        Edit::Clear => {
            let _ = input.take();
        },
        Edit::WordBack => input.delete_word_backward(),
        Edit::Backspace => input.backspace(),
        Edit::Delete => input.delete(),
        Edit::WordLeft => input.word_left(),
        Edit::WordRight => input.word_right(),
        Edit::Left => input.left(),
        Edit::Right => input.right(),
        Edit::Home => input.home(),
        Edit::End => input.end(),
        _ => {
            return false;
        },
    }
    true
}

impl App {
    /// Handles a key for the overlay of a finished workflow.
    fn complete_key(&mut self, key: KeyEvent) -> (r: Result<KeyAction, String>)
        requires
            old(self).wf(),
        ensures
            final(self).wf(),
            complete_effect(*old(self), key, *final(self), r),
    {
        if self.scroll_overlay(key) {
            return Ok(KeyAction::Stay);
        }
        let plain = key.modifiers.is_empty();
        match key.code {
            KeyCode::Char('n') if plain => {
                self.workflow_complete = false;
                self.queue_blocked = None;
                self.status = "Enter input for a new workflow run".to_owned();
                Ok(KeyAction::Stay)
            },
            KeyCode::Char('r') if plain => {
                let workflow = match &self.workflow_mode {
                    Some(workflow) => workflow.clone(),
                    None => {
                        return Err("Workflow is not selected".to_owned());
                    },
                };
                let input = match &self.last_workflow_input {
                    Some(input) => input.clone(),
                    None => String::new(),
                };
                assert(self.last_workflow_input is None ==> input@ =~= Seq::<char>::empty());
                self.queue_blocked = None;
                Ok(KeyAction::Repeat { workflow, input })
            },
            KeyCode::Char('q') if plain => {
                self.leave_workflow();
                Ok(KeyAction::Stay)
            },
            KeyCode::Esc => {
                self.leave_workflow();
                Ok(KeyAction::Stay)
            },
            KeyCode::Enter => {
                if self.queue_blocked.is_some() && trim_text(
                    self.input.text.as_str(),
                ).as_str().is_empty() {
                    Ok(KeyAction::Submit)
                } else {
                    Ok(KeyAction::Stay)
                }
            },
            _ => Ok(KeyAction::Stay),
        }
    }

    /// Leaves workflow mode. The queue is kept, but nothing blocks it.
    fn leave_workflow(&mut self)
        requires
            old(self).wf(),
        ensures
            final(self).wf(),
            left_workflow(*old(self), *final(self)),
    {
        self.workflow_complete = false;
        self.workflow_mode = None;
        self.last_workflow_input = None;
        self.queue_blocked = None;
        self.status = "Exited workflow mode".to_owned();
    }

    /// Handles a key for an open dialog.
    fn dialog_key(&mut self, picker: Picker, key: KeyEvent) -> (r: KeyAction)
        requires
            (App { picker: Some(picker), ..*old(self) }).wf(),
            old(self).picker is None,
        ensures
            final(self).wf(),
            dialog_effect(App { picker: Some(picker), ..*old(self) }, key, *final(self), r),
    {
        let ghost before = App { picker: Some(picker), ..*self };
        assert(self.spine() == before.spine());
        let mut picker = picker;
        match picker.key(key) {
            PickerAction::Close => {
                match &picker.kind {
                    PickerKind::Themes { original, choices: _ } => {
                        self.theme = original.duplicate();
                    },
                    _ => {},
                }
                KeyAction::Stay
            },
            PickerAction::Select(reference) => {
                match &picker.kind {
                    PickerKind::Themes { original: _, choices: _ } => {
                        match picker.preview_theme() {
                            Some(theme) => {
                                self.theme = theme.duplicate();
                            },
                            None => {},
                        }
                        self.status = text2("Theme: ", reference.as_str());
                        return KeyAction::Stay;
                    },
                    _ => {},
                }
                KeyAction::Pick { picker, reference }
            },
            PickerAction::Stay => {
                match picker.preview_theme() {
                    Some(theme) => {
                        self.theme = theme.duplicate();
                    },
                    None => {},
                }
                self.picker = Some(picker);
                KeyAction::Stay
            },
        }
    }

    /// Sets the expansion of the focused row, or flips it for `None`.
    fn expand_row(&mut self, to: Option<bool>)
        requires
            old(self).wf(),
        ensures
            final(self).wf(),
            final(self).spine() == old(self).spine().row_expanded(to),
            old(self).same_aside(*final(self)),
    {
        let id = match &self.focused_activity {
            Some(id) => id.clone(),
            None => {
                return;
            },
        };
        self.set_activity_expanded(id.as_str(), to);
    }

    /// Handles a key while the spine owns the keyboard.
    pub fn activity_key(&mut self, key: KeyEvent) -> (r: KeyAction)
        requires
            old(self).wf(),
        ensures
            final(self).wf(),
            spine_effect(*old(self), key, *final(self), r),
    {
        let control = key.modifiers.control;
        let scroll: usize = self.scroll;
        match key.code {
            KeyCode::Up => self.move_activity_focus(false),
            KeyCode::Down => self.move_activity_focus(true),
            KeyCode::Left => self.expand_row(Some(false)),
            KeyCode::Right => self.expand_row(Some(true)),
            KeyCode::Enter | KeyCode::Char(' ') => self.expand_row(None),
            KeyCode::PageUp => self.scroll_to(scroll.saturating_add(10)),
            KeyCode::PageDown => self.scroll_to(scroll.saturating_sub(10)),
            KeyCode::Home => {
                if control {
                    self.scroll_to(usize::MAX);
                }
            },
            KeyCode::End => {
                if control {
                    self.scroll_to(0);
                }
            },
            _ => {},
        }
        KeyAction::Stay
    }

    /// Handles a key where nothing lies over the transcript and the composer.
    fn main_key(&mut self, key: KeyEvent) -> (r: KeyAction)
        requires
            old(self).wf(),
            !key.release,
            top_pane(*old(self)) is Main,
        ensures
            final(self).wf(),
            main_effect(*old(self), key, *final(self), r),
    {
        let control = key.modifiers.control;
        if self.focus == Focus::Activity && key.code == KeyCode::Esc {
            proof {
                self.spine().lemma_refocused(Focus::Input, self.spine().focused);
            }
            self.focus = Focus::Input;
            return KeyAction::Stay;
        }
        if self.busy && (key.code == KeyCode::Esc || (key.code == KeyCode::Char('c') && control)) {
            return self.cancel_active_run();
        }
        if key.code == KeyCode::Tab || key.code == KeyCode::BackTab {
            if self.workflow_mode.is_some() {
                self.status = "Agent cycling disabled in workflow mode".to_owned();
                return KeyAction::Stay;
            }
            let reverse = key.code == KeyCode::BackTab || key.modifiers.shift;
            return KeyAction::CycleAgent { reverse };
        }
        if key.code == KeyCode::F(6) {
            self.toggle_focus();
            return KeyAction::Stay;
        }
        if self.focus == Focus::Activity {
            return self.activity_key(key);
        }
        self.edit_key(key)
    }

    /// Handles a key. It belongs to the pane on top: an approval, the help, the
    /// overlay of a finished workflow, a dialog, and then the spine or the
    /// composer. A key's release does nothing.
    pub fn handle_key(&mut self, key: KeyEvent) -> (r: Result<KeyAction, String>)
        requires
            old(self).wf(),
        ensures
            final(self).wf(),
            key_handled(*old(self), key, *final(self), r),
    {
        if key.release {
            return Ok(KeyAction::Stay);
        }
        if self.approval.is_some() || self.help {
            return Ok(self.edit_key(key));
        }
        if self.workflow_complete {
            return self.complete_key(key);
        }
        match self.picker.take() {
            Some(picker) => {
                assert(*old(self) == (App { picker: Some(picker), ..*self }));
                Ok(self.dialog_key(picker, key))
            },
            None => Ok(self.main_key(key)),
        }
    }

    /// What pasted text does: a dialog searches for it, the composer takes it
    /// in, and every other pane ignores it.
    pub fn paste(&mut self, text: &str)
        requires
            old(self).wf(),
        ensures
            final(self).wf(),
            paste_effect(*old(self), text@, *final(self)),
    {
        if self.approval.is_some() || self.help || self.workflow_complete || self.focus
            == Focus::Activity {
            return;
        }
        match self.picker.take() {
            Some(picker) => {
                let ghost before = *old(self);
                assert(before == (App { picker: Some(picker), ..*self }));
                assert(self.spine() == before.spine());
                let mut picker = picker;
                picker.paste(text);
                match picker.preview_theme() {
                    Some(theme) => {
                        self.theme = theme.duplicate();
                    },
                    None => {},
                }
                self.picker = Some(picker);
            },
            None => {
                let lines = replace_char(text, '\r', '\n');
                self.input.insert(lines.as_str());
            },
        }
    }

    /// Mouse handling without a hit-tested row: a click does nothing.
    pub fn handle_mouse(&mut self, mouse: MouseKind)
        requires
            old(self).wf(),
        ensures
            final(self).wf(),
            mouse_effect(*old(self), mouse, None, *final(self)),
    {
        self.handle_mouse_with_activity_target(mouse, None);
    }

    /// Handles the mouse. The wheel scrolls what is on top; a left click on a
    /// visible row of the spine focuses and flips it.
    pub fn handle_mouse_with_activity_target(
        &mut self,
        mouse: MouseKind,
        activity_target: Option<String>,
    )
        requires
            old(self).wf(),
        ensures
            final(self).wf(),
            mouse_effect(*old(self), mouse, model::opt_text(activity_target), *final(self)),
    {
        if !self.mouse_enabled {
            return;
        }
        match mouse {
            MouseKind::ScrollUp => self.wheel(true),
            MouseKind::ScrollDown => self.wheel(false),
            MouseKind::LeftDown => {
                if self.approval.is_some() || self.help || self.workflow_complete
                    || self.picker.is_some() {
                    return;
                }
                let id = match activity_target {
                    Some(id) => id,
                    None => {
                        return;
                    },
                };
                self.click(id);
            },
            MouseKind::Other => {},
        }
    }

    /// A click on a row of the spine.
    fn click(&mut self, id: String)
        requires
            old(self).wf(),
        ensures
            final(self).wf(),
            old(self).same_aside(*final(self)),
            final(self).spine() == old(self).spine().clicked(id@),
    {
        if self.position(id.as_str()).is_none() || !self.all_ancestors_expanded(id.as_str()) {
            return;
        }
        let ghost s0 = self.spine();
        proof {
            let i = spine::pos(s0.nodes, id@);
            assert(s0.nodes[i].start.id == id@);
            assert(s0.timeline.contains(spine::ItemView::Activity(id@)));
            let slot = choose|x: int|
                0 <= x < s0.timeline.len() && s0.timeline[x] == spine::ItemView::Activity(id@);
            assert(s0.timeline[slot] is Activity);
            spine::lemma_visible(s0.nodes, s0.timeline, s0.timeline.len() as int);
            s0.lemma_refocused(Focus::Activity, Some(id@));
        }
        self.focus = Focus::Activity;
        self.focused_activity = Some(id.clone());
        self.toggle_activity_expanded(id.as_str());
    }

    /// The wheel, by one notch.
    fn wheel(&mut self, up: bool)
        requires
            old(self).wf(),
        ensures
            final(self).wf(),
            wheel_effect(*old(self), up, *final(self)),
    {
        let rows: usize = 3;
        if self.approval.is_some() || self.help || self.workflow_complete {
            self.overlay_scroll = if up {
                self.overlay_scroll.saturating_add(rows)
            } else {
                self.overlay_scroll.saturating_sub(rows)
            };
            return;
        }
        let scroll: usize = self.scroll;
        match self.picker.take() {
            Some(picker) => {
                assert(*old(self) == (App { picker: Some(picker), ..*self }));
                assert(self.spine() == old(self).spine());
                let mut picker = picker;
                picker.scroll(
                    if up {
                        -3
                    } else {
                        3
                    },
                );
                self.picker = Some(picker);
            },
            None => {
                self.scroll_to(
                    if up {
                        scroll.saturating_add(rows)
                    } else {
                        scroll.saturating_sub(rows)
                    },
                );
            },
        }
    }
}

/// What pasted text does.
pub open spec fn paste_effect(a: App, text: Seq<char>, b: App) -> bool {
    if a.approval is Some || a.help || a.workflow_complete || a.focus == Focus::Activity {
        b == a
    } else if a.picker is Some {
        let p = a.picker->0;
        let s = p.query.text@;
        let k = p.query.at();
        let clean = picker::printable(text);
        &&& b.picker is Some
        &&& b.picker->0.same_content(p)
        &&& picker::searched(b.picker->0, s.take(k) + clean + s.skip(k), k + clean.len())
        &&& b == (App { picker: b.picker, theme: previewed_over(b.picker->0, a.theme), ..a })
    } else {
        let s = a.input.text@;
        let k = a.input.at();
        composed(
            a,
            b,
            s.take(k) + text::replaced(text, '\r', '\n') + s.skip(k),
            k + text.len(),
        )
    }
}

impl Spine {
    /// A click on a visible row focuses and flips it; any other id is ignored.
    pub open spec fn clicked(self, id: Seq<char>) -> Spine {
        if spine::known(self.nodes, id) && spine::shown(self.nodes, id) {
            (Spine { focus: Focus::Activity, focused: Some(id), ..self }).expanded(id, None)
        } else {
            self
        }
    }
}

/// What one notch of the wheel does: it scrolls an overlay, or moves the
/// selection of a dialog, or scrolls the transcript.
pub open spec fn wheel_effect(a: App, up: bool, b: App) -> bool {
    match top_pane(a) {
        Pane::Approval | Pane::Help | Pane::Complete => b == (App {
            overlay_scroll: if up {
                raised(a.overlay_scroll, 3)
            } else {
                lowered(a.overlay_scroll, 3)
            },
            ..a
        }),
        Pane::Dialog => {
            &&& b == (App { picker: b.picker, ..a })
            &&& b.picker is Some
            &&& picker::moved_to(
                a.picker->0,
                if up {
                    a.picker->0.selected - 3
                } else {
                    a.picker->0.selected + 3
                },
                b.picker->0,
            )
        },
        Pane::Main => b == (App {
            scroll: if up {
                raised(a.scroll, 3)
            } else {
                lowered(a.scroll, 3)
            },
            ..a
        }),
    }
}

/// What the mouse does. Switched off, it does nothing; a click counts only
/// where nothing lies over the transcript.
pub open spec fn mouse_effect(a: App, mouse: MouseKind, target: Option<Seq<char>>, b: App) -> bool {
    if !a.mouse_enabled {
        b == a
    } else {
        match mouse {
            MouseKind::ScrollUp => wheel_effect(a, true, b),
            MouseKind::ScrollDown => wheel_effect(a, false, b),
            MouseKind::LeftDown => match target {
                Some(id) if top_pane(a) is Main => a.same_aside(b) && b.spine()
                    == a.spine().clicked(id),
                _ => b == a,
            },
            MouseKind::Other => b == a,
        }
    }
}

/// What a key does: it belongs to the pane on top, and its release does nothing.
pub open spec fn key_handled(a: App, key: KeyEvent, b: App, r: Result<KeyAction, String>) -> bool {
    if key.release {
        r == Ok::<KeyAction, String>(KeyAction::Stay) && b == a
    } else {
        match top_pane(a) {
            Pane::Approval => r is Ok && approval_effect(
                a,
                key,
                b,
                r->Ok_0,
            ),
            Pane::Help => r is Ok && help_effect(a, key, b, r->Ok_0),
            Pane::Complete => complete_effect(a, key, b, r),
            Pane::Dialog => r is Ok && dialog_effect(
                a,
                key,
                b,
                r->Ok_0,
            ),
            Pane::Main => r is Ok && main_effect(a, key, b, r->Ok_0),
        }
    }
}

} // verus!
