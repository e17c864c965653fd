//! What holds of the keyboard, the mouse and pasted text: what was typed can be
//! called back, what is over the composer answers first, and nothing is
//! approved that was not.
use crate::app::App;
use crate::input;
use crate::keys;
use crate::keys::KeyAction;
use crate::model::{Decision, KeyCode, KeyEvent, MouseKind};
use crate::picker;
use crate::runs;
use crate::runs::Submission;
use crate::spine;
use crate::spine::Focus;
use crate::spine_laws;
use crate::text;
use vstd::prelude::*;

verus! {

/// The key is held with no modifier.
pub open spec fn plain(key: KeyEvent, code: KeyCode) -> bool {
    key.code == code && !key.modifiers.shift && !key.modifiers.control && !key.modifiers.alt
        && !key.modifiers.other
}

/// The composer has the keyboard, and holds `s` with the cursor behind its
/// first `k` characters.
pub open spec fn composing(a: App, s: Seq<char>, k: int) -> bool {
    &&& a.focus == Focus::Input
    &&& a.input.text@ == s
    &&& a.input.at() == k
    &&& 0 <= k <= s.len()
}

// ---------------------------------------------------------------------------
// Earlier inputs
// ---------------------------------------------------------------------------

/// Up, pressed again and again behind the last input, shows the inputs from the
/// last one back to the first.
pub proof fn law_up_walks_back(states: Seq<App>, up: KeyEvent, k: int)
    requires
        states.len() > k >= 1,
        k <= states[0].input_history@.len(),
        states[0].focus == Focus::Input,
        states[0].history_index == states[0].input_history@.len(),
        up.code == KeyCode::Up,
        forall|i: int|
            0 <= i < states.len() - 1 ==> #[trigger] keys::main_effect(
                states[i],
                up,
                states[i + 1],
                KeyAction::Stay,
            ),
    ensures
        states[k].input.text@ == states[0].input_history@[states[0].input_history@.len() - k]@,
        states[k].input.at() == states[k].input.text@.len(),
        states[k].history_index == states[0].input_history@.len() - k,
        states[k].input_history == states[0].input_history,
        states[k].focus == Focus::Input,
    decreases k,
{
    if k > 1 {
        law_up_walks_back(states, up, k - 1);
    }
    assert(keys::main_effect(states[k - 1], up, states[k - 1 + 1], KeyAction::Stay));
}

/// Up at the first input stays there.
pub proof fn law_up_stops_at_the_first(a: App, up: KeyEvent, b: App, r: KeyAction)
    requires
        a.focus == Focus::Input,
        a.history_index == 0,
        up.code == KeyCode::Up,
        keys::main_effect(a, up, b, r),
    ensures
        b == a,
{
}

/// Down undoes Up: it comes back to the input that was shown before, or to an
/// empty composer behind the last one.
pub proof fn law_down_undoes_up(
    a: App,
    up: KeyEvent,
    b: App,
    down: KeyEvent,
    c: App,
    r: KeyAction,
    q: KeyAction,
)
    requires
        a.wf(),
        a.focus == Focus::Input,
        a.history_index > 0,
        up.code == KeyCode::Up,
        down.code == KeyCode::Down,
        keys::main_effect(a, up, b, r),
        keys::main_effect(b, down, c, q),
    ensures
        c.history_index == a.history_index,
        c.input_history == a.input_history,
        a.history_index < a.input_history@.len() ==> c.input.text@
            == a.input_history@[a.history_index as int]@,
        a.history_index == a.input_history@.len() ==> c.input.text@.len() == 0,
{
}

/// What was submitted is the first that Up brings back, without the white space
/// around it.
pub proof fn law_up_brings_the_input_back(
    a: App,
    b: App,
    r: Submission,
    up: KeyEvent,
    c: App,
    q: KeyAction,
)
    requires
        a.focus == Focus::Input,
        text::trim(a.input.text@).len() > 0,
        runs::submit_effect(a, b, r),
        up.code == KeyCode::Up,
        keys::main_effect(b, up, c, q),
    ensures
        b.input.text@.len() == 0,
        c.input.text@ == text::trim(a.input.text@),
        b.input_history@.len() == a.input_history@.len() + 1,
        forall|i: int|
            0 <= i < a.input_history@.len() ==> #[trigger] b.input_history@[i]
                == a.input_history@[i],
{
    assert forall|i: int| 0 <= i < a.input_history@.len() implies #[trigger] b.input_history@[i]
        == a.input_history@[i] by {
        assert(b.input_history@.drop_last()[i] == b.input_history@[i]);
    }
}

/// What was submitted is not lost: it is a command that is carried out, or a
/// run that starts, or it waits behind all others.
pub proof fn law_submitted_text_is_not_lost(a: App, b: App, r: Submission)
    requires
        text::trim(a.input.text@).len() > 0,
        runs::submit_effect(a, b, r),
    ensures
        ({
            let s = text::trim(a.input.text@);
            let command = s[0] == '/' || s == ":q"@;
            match r {
                Submission::Command(text) => command && text@ == s && b.queued_inputs
                    == a.queued_inputs,
                Submission::Start(text) => !command && !a.busy && a.queue_blocked is None && text@
                    == s && b.queued_inputs == a.queued_inputs,
                Submission::Stay => {
                    &&& !command
                    &&& a.busy || a.queue_blocked is Some
                    &&& b.queued_inputs@.len() == a.queued_inputs@.len() + 1
                    &&& b.queued_inputs@.last()@ == s
                    &&& forall|i: int|
                        0 <= i < a.queued_inputs@.len() ==> #[trigger] b.queued_inputs@[i]
                            == a.queued_inputs@[i]
                },
                Submission::Retry(_) => false,
            }
        }),
{
    let s = text::trim(a.input.text@);
    reveal_strlit("/");
    assert(text::begins(s, "/"@) <==> s[0] == '/') by {
        if s[0] == '/' {
            assert(s.take(1) =~= "/"@);
        }
        if text::begins(s, "/"@) {
            assert(s.take(1)[0] == "/"@[0]);
        }
    }
    if r is Stay {
        assert forall|i: int| 0 <= i < a.queued_inputs@.len() implies #[trigger] b.queued_inputs@[i]
            == a.queued_inputs@[i] by {
            assert(b.queued_inputs@.drop_last()[i] == b.queued_inputs@[i]);
        }
    }
}

// ---------------------------------------------------------------------------
// Editing
// ---------------------------------------------------------------------------

/// A letter goes in at the cursor, which stands behind it then; Backspace takes
/// it out again.
pub proof fn law_typing_is_undone(
    a: App,
    s: Seq<char>,
    k: int,
    key: KeyEvent,
    letter: char,
    b: App,
    back: KeyEvent,
    c: App,
    r: KeyAction,
    q: KeyAction,
)
    requires
        composing(a, s, k),
        plain(key, KeyCode::Char(letter)),
        plain(back, KeyCode::Backspace),
        keys::main_effect(a, key, b, r),
        keys::main_effect(b, back, c, q),
    ensures
        r is Stay && q is Stay,
        composing(b, s.take(k) + seq![letter] + s.skip(k), k + 1),
        composing(c, s, k),
{
    let t = s.take(k) + seq![letter] + s.skip(k);
    assert(t.take(k) =~= s.take(k));
    assert(t.skip(k + 1) =~= s.skip(k));
    assert(s.take(k) + s.skip(k) =~= s);
}

/// Left goes one character to the left and Right one to the right; at the ends
/// they stay. Neither changes the text.
pub proof fn law_the_cursor_walks(a: App, s: Seq<char>, k: int, key: KeyEvent, b: App, r: KeyAction)
    requires
        composing(a, s, k),
        keys::main_effect(a, key, b, r),
    ensures
        plain(key, KeyCode::Left) && k > 0 ==> composing(b, s, k - 1),
        plain(key, KeyCode::Left) && k == 0 ==> composing(b, s, 0),
        plain(key, KeyCode::Right) && k < s.len() ==> composing(b, s, k + 1),
        plain(key, KeyCode::Right) && k == s.len() ==> composing(b, s, k),
{
}

/// Backspace removes the character in front of the cursor, and Delete the one
/// behind it, which is the same as going right first.
pub proof fn law_characters_are_removed(
    a: App,
    s: Seq<char>,
    k: int,
    key: KeyEvent,
    b: App,
    r: KeyAction,
)
    requires
        composing(a, s, k),
        keys::main_effect(a, key, b, r),
    ensures
        plain(key, KeyCode::Backspace) && k > 0 ==> composing(b, s.remove(k - 1), k - 1),
        plain(key, KeyCode::Delete) && k < s.len() ==> composing(b, s.remove(k), k),
        plain(key, KeyCode::Backspace) && k == 0 ==> composing(b, s, 0),
        plain(key, KeyCode::Delete) && k == s.len() ==> composing(b, s, k),
{
    if k > 0 {
        assert(s.remove(k - 1) =~= s.take(k - 1) + s.skip(k));
    }
    if k < s.len() {
        assert(s.remove(k) =~= s.take(k) + s.skip(k + 1));
    }
}

proof fn lemma_line_start(s: Seq<char>, k: int)
    requires
        0 <= k <= s.len(),
    ensures
        ({
            let i = input::line_start(s, k);
            &&& 0 <= i <= k
            &&& i == 0 || s[i - 1] == '\n'
            &&& forall|j: int| i <= j < k ==> #[trigger] s[j] != '\n'
        }),
    decreases k,
{
    if 0 < k && s[k - 1] != '\n' {
        lemma_line_start(s, k - 1);
    }
}

proof fn lemma_line_end(s: Seq<char>, k: int)
    requires
        0 <= k <= s.len(),
    ensures
        ({
            let i = input::line_end(s, k);
            &&& k <= i <= s.len()
            &&& i == s.len() || s[i] == '\n'
            &&& forall|j: int| k <= j < i ==> #[trigger] s[j] != '\n'
        }),
    decreases s.len() - k,
{
    if k < s.len() && s[k] != '\n' {
        lemma_line_end(s, k + 1);
    }
}

/// Home and End go to the ends of the line that the cursor is in.
pub proof fn law_lines_have_ends(a: App, s: Seq<char>, k: int, key: KeyEvent, b: App, r: KeyAction)
    requires
        composing(a, s, k),
        plain(key, KeyCode::Home) || plain(key, KeyCode::End),
        keys::main_effect(a, key, b, r),
    ensures
        b.input.text@ == s,
        ({
            let i = b.input.at();
            &&& plain(key, KeyCode::Home) ==> i <= k && (i == 0 || s[i - 1] == '\n')
            &&& plain(key, KeyCode::End) ==> i >= k && (i == s.len() || s[i] == '\n')
            &&& forall|j: int| (i <= j < k || k <= j < i) ==> #[trigger] s[j] != '\n'
        }),
{
    lemma_line_start(s, k);
    lemma_line_end(s, k);
}

/// Enter submits and leaves the composer as it is. With Alt or Shift it is a
/// line break like any other letter, and so is Ctrl+J.
pub proof fn law_enter_submits(a: App, s: Seq<char>, k: int, key: KeyEvent, b: App, r: KeyAction)
    requires
        composing(a, s, k),
        keys::main_effect(a, key, b, r),
    ensures
        plain(key, KeyCode::Enter) ==> r == KeyAction::Submit && b == a,
        key.code == KeyCode::Enter && (key.modifiers.alt || key.modifiers.shift) ==> r is Stay
            && composing(b, s.insert(k, '\n'), k + 1),
        key.code == KeyCode::Char('j') && key.modifiers.control ==> r is Stay && composing(
            b,
            s.insert(k, '\n'),
            k + 1,
        ),
        r is Submit ==> key.code == KeyCode::Enter,
{
    assert(s.insert(k, '\n') =~= s.take(k) + seq!['\n'] + s.skip(k));
}

/// Ctrl+U empties the composer; Ctrl+D quits, but only where it is empty, and
/// nothing else typed into it does.
pub proof fn law_clearing_and_quitting(
    a: App,
    s: Seq<char>,
    k: int,
    key: KeyEvent,
    b: App,
    r: KeyAction,
)
    requires
        composing(a, s, k),
        !a.quit,
        keys::main_effect(a, key, b, r),
    ensures
        key.code == KeyCode::Char('u') && key.modifiers.control ==> composing(b, Seq::empty(), 0),
        b.quit <==> key.code == KeyCode::Char('d') && key.modifiers.control && s.len() == 0,
{
}

/// A word is deleted to the left of the cursor with the white space behind it;
/// the text behind the cursor stays.
pub proof fn law_words_are_deleted(a: App, s: Seq<char>, k: int, key: KeyEvent, b: App, r: KeyAction)
    requires
        composing(a, s, k),
        key.code == KeyCode::Backspace && key.modifiers.control,
        keys::main_effect(a, key, b, r),
    ensures
        ({
            let i = b.input.at();
            &&& 0 <= i <= k
            &&& b.input.text@ == s.take(i) + s.skip(k)
            &&& k > 0 ==> i < k
            &&& i == 0 || text::white(s[i - 1]) || forall|j: int|
                i <= j < k ==> text::white(#[trigger] s[j])
        }),
{
    let w = input::back_over_white(s, k);
    lemma_back_over_white(s, k);
    lemma_back_over_word(s, w);
}

proof fn lemma_back_over_white(s: Seq<char>, k: int)
    requires
        0 <= k <= s.len(),
    ensures
        ({
            let i = input::back_over_white(s, k);
            &&& 0 <= i <= k
            &&& i == 0 || !text::white(s[i - 1])
            &&& forall|j: int| i <= j < k ==> text::white(#[trigger] s[j])
        }),
    decreases k,
{
    if 0 < k && text::white(s[k - 1]) {
        lemma_back_over_white(s, k - 1);
    }
}

proof fn lemma_back_over_word(s: Seq<char>, k: int)
    requires
        0 <= k <= s.len(),
    ensures
        ({
            let i = input::back_over_word(s, k);
            &&& 0 <= i <= k
            &&& i == 0 || text::white(s[i - 1])
            &&& forall|j: int| i <= j < k ==> !text::white(#[trigger] s[j])
            &&& k > 0 && !text::white(s[k - 1]) ==> i < k
        }),
    decreases k,
{
    if 0 < k && !text::white(s[k - 1]) {
        lemma_back_over_word(s, k - 1);
    }
}

/// Pasted text goes in at the cursor, which stands behind it then. It keeps its
/// length, and all of its characters but for the form of its line breaks.
pub proof fn law_pasted_text_goes_in(a: App, s: Seq<char>, k: int, pasted: Seq<char>, b: App)
    requires
        composing(a, s, k),
        keys::top_pane(a) is Main,
        keys::paste_effect(a, pasted, b),
    ensures
        b.input.text@.len() == s.len() + pasted.len(),
        b.input.at() == k + pasted.len(),
        b.input.text@.take(k) == s.take(k),
        b.input.text@.skip(k + pasted.len()) == s.skip(k),
        forall|i: int|
            0 <= i < pasted.len() ==> #[trigger] b.input.text@[k + i] == if pasted[i] == '\r' {
                '\n'
            } else {
                pasted[i]
            },
{
    let t = b.input.text@;
    let clean = text::replaced(pasted, '\r', '\n');
    assert(t == s.take(k) + clean + s.skip(k));
    assert(t.take(k) =~= s.take(k));
    assert(t.skip(k + pasted.len()) =~= s.skip(k));
    assert forall|i: int| 0 <= i < pasted.len() implies #[trigger] t[k + i] == if pasted[i] == '\r' {
        '\n'
    } else {
        pasted[i]
    } by {
        assert(t[k + i] == clean[i]);
    }
}

/// Text is pasted into nothing that lies over the composer but a dialog.
pub proof fn law_overlays_take_no_text(a: App, pasted: Seq<char>, b: App)
    requires
        a.approval is Some || a.help || a.workflow_complete,
        keys::paste_effect(a, pasted, b),
    ensures
        b == a,
{
}

// ---------------------------------------------------------------------------
// Running and scrolling
// ---------------------------------------------------------------------------

/// Esc and Ctrl+C cancel a run that is in flight, also while the spine has the
/// keyboard for the latter. Without a run nothing is cancelled.
pub proof fn law_runs_are_cancelled(a: App, key: KeyEvent, b: App, r: KeyAction)
    requires
        a.approval is None,
        keys::main_effect(a, key, b, r),
    ensures
        a.busy && key.code == KeyCode::Char('c') && key.modifiers.control ==> r is Cancel
            && b.status@ == "Cancelling..."@,
        a.busy && a.focus == Focus::Input && key.code == KeyCode::Esc ==> r is Cancel && b.status@
            == "Cancelling..."@,
        r is Cancel ==> a.busy && (key.code == KeyCode::Esc || (key.code == KeyCode::Char('c')
            && key.modifiers.control)),
{
}

/// A page up goes ten rows back and a page down ten rows ahead, so that one
/// undoes the other; Ctrl+Home goes to the beginning and Ctrl+End to the end.
pub proof fn law_pages_are_turned(
    a: App,
    up: KeyEvent,
    b: App,
    down: KeyEvent,
    c: App,
    r: KeyAction,
    q: KeyAction,
)
    requires
        a.scroll + 10 <= usize::MAX,
        up.code == KeyCode::PageUp,
        down.code == KeyCode::PageDown,
        keys::main_effect(a, up, b, r),
        keys::main_effect(b, down, c, q),
    ensures
        b.scroll == a.scroll + 10,
        c.scroll == a.scroll,
{
    assert(b.spine().scroll == b.scroll);
    assert(c.spine().scroll == c.scroll);
}

/// Ctrl+End shows the end of the transcript, and a page down never goes past
/// it. Ctrl+Home goes as far back as there is.
pub proof fn law_transcript_has_ends(a: App, key: KeyEvent, b: App, r: KeyAction)
    requires
        keys::main_effect(a, key, b, r),
    ensures
        key.code == KeyCode::End && key.modifiers.control ==> b.scroll == 0,
        key.code == KeyCode::Home && key.modifiers.control ==> b.scroll == usize::MAX,
        key.code == KeyCode::PageDown && a.scroll < 10 ==> b.scroll == 0,
{
    assert(b.spine().scroll == b.scroll);
}

/// A notch of the wheel scrolls three rows of what is on top, and only of that.
pub proof fn law_wheel_turns_what_is_on_top(a: App, b: App, up: bool)
    requires
        keys::wheel_effect(a, up, b),
        3 <= a.scroll <= usize::MAX - 3,
        3 <= a.overlay_scroll <= usize::MAX - 3,
    ensures
        keys::top_pane(a) is Main ==> b == (App {
            scroll: (if up {
                a.scroll + 3
            } else {
                a.scroll - 3
            }) as usize,
            ..a
        }),
        a.approval is Some || a.help || a.workflow_complete ==> b == (App {
            overlay_scroll: (if up {
                a.overlay_scroll + 3
            } else {
                a.overlay_scroll - 3
            }) as usize,
            ..a
        }),
        keys::top_pane(a) is Dialog ==> b.scroll == a.scroll && b.overlay_scroll
            == a.overlay_scroll,
{
}

/// The mouse does nothing where it is switched off, and a click does nothing
/// where something lies over the transcript.
pub proof fn law_clicks_need_the_transcript(
    a: App,
    mouse: MouseKind,
    target: Option<Seq<char>>,
    b: App,
)
    requires
        keys::mouse_effect(a, mouse, target, b),
    ensures
        !a.mouse_enabled ==> b == a,
        mouse is LeftDown && (a.approval is Some || a.help || a.workflow_complete || a.picker is Some)
            ==> b == a,
        mouse is LeftDown && target is None ==> b == a,
{
}

/// A click on the row of an activity focuses it and opens or closes it, and no
/// other activity.
pub proof fn law_clicks_open_and_close(a: App, id: Seq<char>, b: App, i: int)
    requires
        a.wf(),
        a.mouse_enabled,
        keys::top_pane(a) is Main,
        keys::mouse_effect(a, MouseKind::LeftDown, Some(id), b),
        0 <= i < a.spine().nodes.len(),
        a.spine().nodes[i].start.id == id,
        spine::shown(a.spine().nodes, id),
    ensures
        b.focus == Focus::Activity,
        b.spine().nodes.len() == a.spine().nodes.len(),
        b.spine().nodes[i].expanded == !a.spine().nodes[i].expanded,
        forall|j: int|
            0 <= j < a.spine().nodes.len() && j != i ==> #[trigger] b.spine().nodes[j]
                == a.spine().nodes[j],
{
    let s = a.spine();
    spine::lemma_pos(s.nodes, i);
    assert(b.spine().focus == b.focus);
    let node = s.nodes[i];
    let flipped = s.nodes.update(
        i,
        spine::NodeView { expanded: !node.expanded, revision: spine::bump(node.revision), ..node },
    );
    spine_laws::lemma_flip_keeps(s.nodes, flipped, i);
    assert(spine::same_ids(s.nodes, flipped));
    spine::lemma_same_ids(s.nodes, flipped);
    spine::lemma_visible(flipped, s.timeline, s.timeline.len() as int);
    assert(s.timeline.contains(spine::ItemView::Activity(id)));
    let k = choose|k: int| 0 <= k < s.timeline.len() && s.timeline[k] == spine::ItemView::Activity(id);
    assert(s.timeline[k] is Activity);
    assert(spine::visible_before(flipped, s.timeline, s.timeline.len() as int).contains(id));
}

// ---------------------------------------------------------------------------
// What lies over the composer
// ---------------------------------------------------------------------------

/// Only a plain `y` approves. Other answers close the approval as well, and
/// whatever is no answer leaves it open.
pub proof fn law_only_yes_approves(a: App, key: KeyEvent, b: App, r: KeyAction)
    requires
        a.approval is Some,
        keys::approval_effect(a, key, b, r),
    ensures
        r matches KeyAction::Reply { decision, .. } && decision == Decision::Approve ==> plain(
            key,
            KeyCode::Char('y'),
        ),
        plain(key, KeyCode::Char('y')) ==> r == (KeyAction::Reply {
            decision: Decision::Approve,
            cancel: false,
        }) && b.approval is None,
        plain(key, KeyCode::Char('n')) || key.code == KeyCode::Esc ==> r == (KeyAction::Reply {
            decision: Decision::Reject,
            cancel: false,
        }) && b.approval is None,
        plain(key, KeyCode::Char('q')) ==> r == (KeyAction::Reply {
            decision: Decision::Abort,
            cancel: a.busy,
        }) && b.approval is None,
        key.code == KeyCode::Char('c') && key.modifiers.control ==> r == (KeyAction::Reply {
            decision: Decision::Abort,
            cancel: a.busy,
        }) && b.approval is None,
        b.approval is None <==> r is Reply,
        !(r is Reply) ==> b.approval == a.approval,
{
}

/// Retrying and skipping are answers to a step of a workflow, and to nothing
/// else.
pub proof fn law_steps_are_retried_or_skipped(a: App, key: KeyEvent, b: App, r: KeyAction)
    requires
        a.approval is Some,
        keys::approval_effect(a, key, b, r),
    ensures
        a.approval->0.workflow && plain(key, KeyCode::Char('r')) ==> r == (KeyAction::Reply {
            decision: Decision::Retry,
            cancel: false,
        }),
        a.approval->0.workflow && plain(key, KeyCode::Char('s')) ==> r == (KeyAction::Reply {
            decision: Decision::Skip,
            cancel: false,
        }),
        !a.approval->0.workflow ==> (r matches KeyAction::Reply { decision, .. } ==> decision
            != Decision::Retry && decision != Decision::Skip),
{
}

/// An approval is answered before anything else, the help lies over the overlay
/// of a finished workflow, and that over a dialog.
pub proof fn law_panes_lie_over_each_other(a: App)
    ensures
        a.approval is Some <==> keys::top_pane(a) is Approval,
        keys::top_pane(a) is Help <==> a.approval is None && a.help,
        keys::top_pane(a) is Complete <==> a.approval is None && !a.help && a.workflow_complete,
        keys::top_pane(a) is Dialog <==> a.approval is None && !a.help && !a.workflow_complete
            && a.picker is Some,
        keys::top_pane(a) is Main <==> a.approval is None && !a.help && !a.workflow_complete
            && a.picker is None,
{
}

/// The help opens with F1 at its top, is scrolled and closed, and changes
/// nothing else.
pub proof fn law_help_opens_and_closes(a: App, key: KeyEvent, b: App, r: KeyAction, c: App, q: KeyAction)
    requires
        composing(a, a.input.text@, a.input.at()),
        key.code == KeyCode::F(1),
        keys::main_effect(a, key, b, r),
        keys::help_effect(b, key, c, q),
    ensures
        b.help && b.overlay_scroll == 0,
        !c.help,
        b == (App { help: true, overlay_scroll: 0, ..a }),
        c == (App { help: false, overlay_scroll: 0, ..a }),
{
}

/// Keys that scroll an overlay: a page is ten rows, and both ends are reached.
pub proof fn law_overlays_are_scrolled(a: App, key: KeyEvent, b: App, r: KeyAction)
    requires
        a.help,
        10 <= a.overlay_scroll <= usize::MAX - 10,
        keys::help_effect(a, key, b, r),
    ensures
        key.code == KeyCode::PageDown ==> b == (App {
            overlay_scroll: (a.overlay_scroll + 10) as usize,
            ..a
        }),
        key.code == KeyCode::PageUp ==> b == (App {
            overlay_scroll: (a.overlay_scroll - 10) as usize,
            ..a
        }),
        key.code == KeyCode::Home ==> b == (App { overlay_scroll: 0, ..a }),
        key.code == KeyCode::End ==> b == (App { overlay_scroll: usize::MAX, ..a }),
        key.code == KeyCode::Esc || key.code == KeyCode::F(1) ==> !b.help,
{
}

/// The overlay of a finished workflow: `n` makes room for new input, `r` runs
/// the workflow again on its last input, `q` and Esc leave workflow mode and
/// keep the queue.
pub proof fn law_finished_workflows(a: App, key: KeyEvent, b: App, r: Result<KeyAction, String>)
    requires
        a.workflow_complete,
        keys::complete_effect(a, key, b, r),
    ensures
        plain(key, KeyCode::Char('n')) ==> !b.workflow_complete && b.workflow_mode == a.workflow_mode
            && b.queue_blocked is None,
        plain(key, KeyCode::Char('q')) || key.code == KeyCode::Esc ==> !b.workflow_complete
            && b.workflow_mode is None && b.queue_blocked is None && b.last_workflow_input is None,
        plain(key, KeyCode::Char('r')) && a.workflow_mode is Some ==> b.queue_blocked is None,
        plain(key, KeyCode::Char('r')) && a.workflow_mode is Some && a.last_workflow_input is Some
            ==> (r matches Ok(KeyAction::Repeat { workflow, input }) && workflow
            == a.workflow_mode->0 && input@ == a.last_workflow_input->0@),
        plain(key, KeyCode::Char('r')) && a.workflow_mode is None ==> r is Err,
        r is Ok && r->Ok_0 is Repeat ==> plain(key, KeyCode::Char('r')),
        b.queued_inputs == a.queued_inputs,
        b.input == a.input,
{
}

/// The dialog on top closes on Esc without picking anything, and Enter picks
/// the selected row of it.
pub proof fn law_dialogs_pick_what_is_selected(a: App, key: KeyEvent, b: App, r: KeyAction)
    requires
        a.picker is Some,
        a.picker->0.wf(),
        a.picker->0.matches@.len() > 0,
        !(a.picker->0.kind is Themes),
        keys::dialog_effect(a, key, b, r),
    ensures
        key.code == KeyCode::Esc ==> b.picker is None && r is Stay,
        key.code == KeyCode::Enter ==> b.picker is None && (r matches KeyAction::Pick {
            picker,
            reference,
        } && reference@ == a.picker->0.choices@[a.picker->0.matches@[a.picker->0.selected as int] as int].reference@
            && picker == a.picker->0),
        r is Pick ==> key.code == KeyCode::Enter,
        b.theme == a.theme || !(r is Pick),
{
    assert(picker::key_choice(a.picker->0, key) is Select ==> key.code == KeyCode::Enter);
}

/// Tab asks for the next agent, and Shift+Tab for the one before.
pub proof fn law_tab_cycles_agents(a: App, key: KeyEvent, b: App, r: KeyAction)
    requires
        a.workflow_mode is None,
        keys::main_effect(a, key, b, r),
    ensures
        plain(key, KeyCode::Tab) ==> r == (KeyAction::CycleAgent { reverse: false }) && b == a,
        key.code == KeyCode::BackTab || (key.code == KeyCode::Tab && key.modifiers.shift) ==> r == (
        KeyAction::CycleAgent { reverse: true }) && b == a,
        r is CycleAgent ==> key.code == KeyCode::Tab || key.code == KeyCode::BackTab,
{
}

// ---------------------------------------------------------------------------
// Words, themes and queues
// ---------------------------------------------------------------------------

/// With Ctrl the arrows go by words: to the start of the word on the left, or
/// to the end of the one on the right. The text stays.
pub proof fn law_arrows_go_by_words(a: App, s: Seq<char>, k: int, key: KeyEvent, b: App, r: KeyAction)
    requires
        composing(a, s, k),
        key.modifiers.control,
        key.code == KeyCode::Left || key.code == KeyCode::Right,
        keys::main_effect(a, key, b, r),
    ensures
        b.input.text@ == s,
        ({
            let i = b.input.at();
            &&& key.code == KeyCode::Left ==> {
                &&& 0 <= i <= k
                &&& i == 0 || text::white(s[i - 1])
                &&& k > 0 ==> i < k
                &&& i < k && !(forall|j: int| i <= j < k ==> text::white(#[trigger] s[j]))
                    ==> !text::white(s[i])
            }
            &&& key.code == KeyCode::Right ==> {
                &&& k <= i <= s.len()
                &&& i == s.len() || text::white(s[i])
                &&& k < s.len() ==> i > k
            }
        }),
{
    let w = input::back_over_white(s, k);
    lemma_back_over_white(s, k);
    lemma_back_over_word(s, w);
    let v = input::over_white(s, k);
    lemma_over_white(s, k);
    lemma_over_word(s, v);
    let i = input::word_start(s, k);
    if key.code == KeyCode::Left && i < w {
        assert(!text::white(s[i]));
    }
    if key.code == KeyCode::Left && i == w {
        assert forall|j: int| i <= j < k implies text::white(#[trigger] s[j]) by {}
    }
}

proof fn lemma_over_white(s: Seq<char>, k: int)
    requires
        0 <= k <= s.len(),
    ensures
        ({
            let i = input::over_white(s, k);
            &&& k <= i <= s.len()
            &&& i == s.len() || !text::white(s[i])
            &&& forall|j: int| k <= j < i ==> text::white(#[trigger] s[j])
        }),
    decreases s.len() - k,
{
    if k < s.len() && text::white(s[k]) {
        lemma_over_white(s, k + 1);
    }
}

proof fn lemma_over_word(s: Seq<char>, k: int)
    requires
        0 <= k <= s.len(),
    ensures
        ({
            let i = input::over_word(s, k);
            &&& k <= i <= s.len()
            &&& i == s.len() || text::white(s[i])
            &&& k < s.len() && !text::white(s[k]) ==> i > k
        }),
    decreases s.len() - k,
{
    if k < s.len() && !text::white(s[k]) {
        lemma_over_word(s, k + 1);
    }
}

/// Moving in a dialog of themes shows the theme of the selected row, and Enter
/// keeps what is shown.
pub proof fn law_themes_are_previewed(a: App, key: KeyEvent, b: App, r: KeyAction)
    requires
        a.picker is Some,
        a.picker->0.kind is Themes,
        keys::dialog_effect(a, key, b, r),
    ensures
        b.picker is Some && b.picker->0.previewed() is Some ==> b.theme == b.picker->0.previewed()->0,
        key.code == KeyCode::Enter && a.picker->0.matches@.len() > 0
            && a.picker->0.previewed() is Some ==> b.picker is None && b.theme
            == a.picker->0.previewed()->0,
        !(r is Pick),
{
}

/// Enter retries a queue that is blocked from the overlay of a finished
/// workflow, where nothing is typed.
pub proof fn law_enter_retries_from_the_overlay(
    a: App,
    key: KeyEvent,
    b: App,
    r: Result<KeyAction, String>,
)
    requires
        a.workflow_complete,
        key.code == KeyCode::Enter,
        keys::complete_effect(a, key, b, r),
    ensures
        b == a,
        r is Ok,
        r->Ok_0 is Submit <==> a.queue_blocked is Some && text::trim(a.input.text@).len() == 0,
{
}

/// An input that has to wait is counted in the status line.
pub proof fn law_waiting_inputs_are_counted(a: App, b: App, r: Submission)
    requires
        runs::submit_effect(a, b, r),
        text::trim(a.input.text@).len() > 0,
        b.queued_inputs@.len() > a.queued_inputs@.len(),
    ensures
        text::begins(
            b.status@,
            "Queued "@ + text::decimal((a.queued_inputs@.len() + 1) as nat) + " message(s)"@,
        ),
        a.queue_blocked is Some ==> b.status@ == "Queued "@ + text::decimal(
            (a.queued_inputs@.len() + 1) as nat,
        ) + " message(s) | blocked at front; press Enter to retry"@,
        a.queue_blocked is Some || a.busy,
        b.queue_blocked == a.queue_blocked,
{
    let d = text::decimal((a.queued_inputs@.len() + 1) as nat);
    let front = "Queued "@ + d + " message(s)"@;
    reveal_strlit(" message(s)");
    reveal_strlit(" message(s) | blocked at front; press Enter to retry");
    reveal_strlit(" | blocked at front; press Enter to retry");
    assert(" message(s) | blocked at front; press Enter to retry"@ =~= " message(s)"@
        + " | blocked at front; press Enter to retry"@);
    assert(b.status@.take(front.len() as int) =~= front);
}

/// The overlay of a finished workflow starts at its top when it comes up, and
/// stays where it is while it is up.
pub proof fn law_overlay_starts_at_its_top(a: App)
    ensures
        runs::completed(a).workflow_complete,
        !a.workflow_complete ==> runs::completed(a).overlay_scroll == 0,
        a.workflow_complete ==> runs::completed(a) == a,
{
}

/// Text that is pasted into a dialog goes into its search without control codes,
/// and the best match is selected. The composer stays as it is.
pub proof fn law_dialogs_take_pasted_text(a: App, pasted: Seq<char>, b: App)
    requires
        keys::top_pane(a) is Dialog,
        a.focus == Focus::Input,
        0 <= a.picker->0.query.at() <= a.picker->0.query.text@.len(),
        forall|i: int| 0 <= i < pasted.len() ==> !text::control(#[trigger] pasted[i]),
        keys::paste_effect(a, pasted, b),
    ensures
        b.picker is Some,
        b.picker->0.query.text@ == a.picker->0.query.text@.take(a.picker->0.query.at()) + pasted
            + a.picker->0.query.text@.skip(a.picker->0.query.at()),
        b.picker->0.selected == 0,
        b.input == a.input,
{
    crate::picker_laws::lemma_nothing_dropped(pasted);
}

/// A dialog of themes that is closed brings back the theme from before it, and
/// any other dialog leaves the theme alone.
pub proof fn law_closing_brings_the_theme_back(a: App, key: KeyEvent, b: App, r: KeyAction)
    requires
        a.picker is Some,
        key.code == KeyCode::Esc,
        keys::dialog_effect(a, key, b, r),
    ensures
        b.picker is None,
        match a.picker->0.kind {
            picker::PickerKind::Themes { original, .. } => b.theme == original,
            _ => b.theme == a.theme,
        },
{
}

} // verus!
