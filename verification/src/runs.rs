//! Runs and their queue: what is submitted, started, parked and finished. The
//! work itself is done by the engine; these functions decide what to ask of it
//! and take in what came of it.
use crate::app::{App, QueueBlocked};
use crate::events;
use crate::input::Input;
use crate::keys;
use crate::model;
use crate::model::{
    as_ref_str, used_agent, ActivityStatus, DisplayEvent, Selection, Spend, Theme,
};
use crate::spine;
use crate::spine::{Focus, Spine};
use crate::text;
use crate::text::{count_text, same, starts_with_text, text2, text3, trim_text};
use std::collections::VecDeque;
use vstd::hash_map::StringHashMap;
use vstd::prelude::*;
use vstd::string::*;

verus! {

/// What the configuration says at the start.
#[derive(Debug)]
pub struct Settings {
    pub workspace: String,
    pub theme: Theme,
    pub default_agent: Option<String>,
    pub provider: String,
    pub model: String,
    /// How the engine writes that nothing was spent.
    pub no_spend: String,
}

/// What the engine resolved a selection to.
#[derive(Debug)]
pub struct ModelInfo {
    pub provider: String,
    pub model: String,
    pub effort: Option<String>,
    pub default_agent: Option<String>,
    pub max_tokens: u32,
    pub workspace: String,
}

/// What a submitted input asks for.
#[derive(Debug)]
pub enum Submission {
    Stay,
    /// A slash command.
    Command(String),
    /// A new run.
    Start(String),
    /// The parked front of the queue, taken out of it, is to be started.
    Retry(String),
}

/// A run that the engine is to start.
#[derive(Debug)]
pub enum Launch {
    Turn { text: String },
    Workflow { name: String, input: String },
}

/// How a run ended. A lost one was cancelled, aborted or panicked.
#[derive(Debug)]
pub enum RunOutcome {
    Done,
    Failed(String),
    Lost(String),
}

/// The labels are those of a model.
pub open spec fn shows(b: App, info: ModelInfo) -> bool {
    &&& b.model_label@ == info.provider@ + ":"@ + info.model@
    &&& b.effort_label@ == match info.effort {
        Some(e) => e@,
        None => "default"@,
    }
    &&& b.effective_agent_label@ == model::agent_in_use(
        b.selection,
        model::opt_text(info.default_agent),
    )
    &&& b.context_limit == info.max_tokens
    &&& b.workspace == info.workspace
}

/// The state with the labels of another.
pub open spec fn with_labels(a: App, b: App) -> App {
    App {
        model_label: b.model_label,
        effort_label: b.effort_label,
        effective_agent_label: b.effective_agent_label,
        context_limit: b.context_limit,
        workspace: b.workspace,
        ..a
    }
}

/// Only the labels changed, to those of a model.
pub open spec fn labelled(a: App, info: ModelInfo, b: App) -> bool {
    b == with_labels(a, b) && shows(b, info)
}

/// The state that a launch leaves: a run is in flight, and a workflow is the
/// one to repeat.
pub open spec fn launched(a: App, launch: Launch, b: App) -> bool {
    match launch {
        Launch::Turn { .. } => b == (App { busy: true, ..a }),
        Launch::Workflow { name, input } => b == (App {
            busy: true,
            last_workflow_input: Some(input),
            workflow_mode: Some(name),
            workflow_complete: false,
            ..a
        }),
    }
}

/// The status line of a run with others behind it.
pub open spec fn running_status(queued: nat) -> Seq<char> {
    "Running | "@ + text::decimal(queued) + " message(s) queued | Ctrl+C to cancel"@
}

/// An input was taken out of the composer into the history, and the transcript
/// shows its end.
pub open spec fn noted_input(a: App, b: App, text: Seq<char>) -> bool {
    &&& b.input.is(Seq::empty(), 0)
    &&& b.input_history@.len() == a.input_history@.len() + 1
    &&& b.input_history@.drop_last() == a.input_history@
    &&& b.input_history@.last()@ == text
    &&& b.history_index == b.input_history@.len()
    &&& b.scroll == 0
}

/// A text is a slash command, or the short form of the one that quits.
pub open spec fn is_command(s: Seq<char>) -> bool {
    text::begins(s, "/"@) || s == ":q"@
}

/// Only the composer, its history and the scroll differ.
pub open spec fn same_but_input(a: App, b: App) -> bool {
    b == (App {
        input: b.input,
        input_history: b.input_history,
        history_index: b.history_index,
        scroll: b.scroll,
        ..a
    })
}

/// What submitting the composer does.
///
/// An empty input does nothing, or retries the parked front of a blocked queue
/// if no run is in flight. A command is handed on. Any other text starts a run;
/// while one is in flight, or while the queue is blocked, it waits at the end
/// of the queue.
pub open spec fn submit_effect(a: App, b: App, r: Submission) -> bool {
    let s = text::trim(a.input.text@);
    if s.len() == 0 {
        if a.queue_blocked is Some {
            if a.busy {
                r == Submission::Stay && keys::said(
                    a,
                    b,
                    "Queue blocked; wait for the active run before retrying"@,
                )
            } else {
                retry_effect(a, b, r)
            }
        } else {
            r == Submission::Stay && b == (App { input: b.input, ..a }) && b.input.is(
                Seq::empty(),
                0,
            )
        }
    } else if is_command(s) {
        &&& noted_input(a, b, s)
        &&& same_but_input(a, b)
        &&& r matches Submission::Command(text) && text@ == s
    } else if a.queue_blocked is Some || a.busy {
        &&& r == Submission::Stay
        &&& noted_input(a, b, s)
        &&& same_but_input(App { queued_inputs: b.queued_inputs, status: b.status, ..a }, b)
        &&& b.queued_inputs@.len() == a.queued_inputs@.len() + 1
        &&& b.queued_inputs@.drop_last() == a.queued_inputs@
        &&& b.queued_inputs@.last()@ == s
        &&& b.status@ == "Queued "@ + text::decimal(b.queued_inputs@.len()) + if a.queue_blocked is Some {
            " message(s) | blocked at front; press Enter to retry"@
        } else {
            " message(s)"@
        }
    } else {
        &&& noted_input(a, b, s)
        &&& same_but_input(a, b)
        &&& r matches Submission::Start(text) && text@ == s
    }
}

/// What a retry does: the front leaves the queue to be started. An empty queue
/// is not blocked.
pub open spec fn retry_effect(a: App, b: App, r: Submission) -> bool {
    if a.queued_inputs@.len() == 0 {
        r == Submission::Stay && b == (App { queue_blocked: None, queued_inputs: b.queued_inputs, ..a })
            && b.queued_inputs@ == a.queued_inputs@
    } else {
        &&& b == (App { queued_inputs: b.queued_inputs, ..a })
        &&& b.queued_inputs@ == a.queued_inputs@.skip(1)
        &&& r == Submission::Retry(a.queued_inputs@[0])
    }
}

impl App {
    /// The state at the start.
    pub fn new(settings: &Settings, selection: Selection) -> (r: App)
        ensures
            r.wf(),
            opened(*settings, selection, r),
    {
        let mut selection = selection;
        if selection.agent.is_none() {
            selection.agent = model::copy_opt(&settings.default_agent);
        }
        let effective_agent_label = used_agent(&selection, None);
        let r = App {
            entries: Vec::new(),
            streams: StringHashMap::new(),
            input: Input::default(),
            input_history: Vec::new(),
            history_index: 0,
            spend: Spend { label: settings.no_spend.clone(), unpriced_requests: 0 },
            context_limit: 0,
            context_tokens: 0,
            workspace: settings.workspace.clone(),
            queued_inputs: VecDeque::new(),
            theme: settings.theme.duplicate(),
            selection,
            mode: None,
            mouse_enabled: true,
            workflow_mode: None,
            workflow_complete: false,
            last_workflow_input: None,
            status: "Ready".to_owned(),
            model_label: text3(settings.provider.as_str(), ":", settings.model.as_str()),
            effort_label: "default".to_owned(),
            effective_agent_label,
            scroll: 0,
            overlay_scroll: 0,
            help: false,
            picker: None,
            approval: None,
            busy: false,
            queue_blocked: None,
            quit: false,
            history_generation: 0,
            activities: Vec::new(),
            activity_index: StringHashMap::new(),
            pending_activity_ends: StringHashMap::new(),
            activity_by_context: StringHashMap::new(),
            activity_by_external: Vec::new(),
            timeline: Vec::new(),
            focus: Focus::Input,
            focused_activity: None,
        };
        proof {
            assert(r.spine() =~= events::blank());
            assert(r.input.text@ =~= Seq::<char>::empty());
            text::lemma_offset_ends(r.input.text@);
        }
        r
    }

    /// Takes in what the engine resolved the selection to.
    pub fn refresh_model(&mut self, info: ModelInfo)
        requires
            old(self).wf(),
        ensures
            final(self).wf(),
            labelled(*old(self), info, *final(self)),
    {
        self.model_label = text3(info.provider.as_str(), ":", info.model.as_str());
        self.effort_label = match info.effort {
            Some(effort) => effort,
            None => "default".to_owned(),
        };
        self.effective_agent_label = used_agent(&self.selection, as_ref_str(&info.default_agent));
        self.context_limit = info.max_tokens;
        self.workspace = info.workspace;
    }

    /// Refuses while a run is in flight.
    pub fn require_idle(&self) -> (r: Result<(), String>)
        ensures
            r is Ok <==> !self.busy,
            r is Err ==> r->Err_0@ == "Wait for the active run or cancel it with Ctrl+C"@,
    {
        if self.busy {
            Err("Wait for the active run or cancel it with Ctrl+C".to_owned())
        } else {
            Ok(())
        }
    }

    /// Submits the composer.
    pub fn submit(&mut self) -> (r: Submission)
        requires
            old(self).wf(),
        ensures
            final(self).wf(),
            submit_effect(*old(self), *final(self), r),
    {
        let text = trim_text(self.input.text.as_str());
        if text.as_str().is_empty() {
            if self.queue_blocked.is_some() {
                return self.retry_queued();
            }
            let _ = self.input.take();
            return Submission::Stay;
        }
        let ghost s = text@;
        let _ = self.input.take();
        self.input_history.push(text.clone());
        self.history_index = self.input_history.len();
        proof {
            self.spine().lemma_scrolled(0);
            assert(self.input_history@.drop_last() =~= old(self).input_history@);
        }
        self.scroll = 0;
        if starts_with_text(text.as_str(), "/") || same(text.as_str(), ":q") {
            return Submission::Command(text);
        }
        let blocked = self.queue_blocked.is_some();
        if blocked || self.busy {
            self.queued_inputs.push_back(text);
            assert(self.queued_inputs@.drop_last() =~= old(self).queued_inputs@);
            let count = count_text(self.queued_inputs.len());
            self.status = text3(
                "Queued ",
                count.as_str(),
                if blocked {
                    " message(s) | blocked at front; press Enter to retry"
                } else {
                    " message(s)"
                },
            );
            return Submission::Stay;
        }
        Submission::Start(text)
    }

    /// Takes the parked front out of the queue to be started. While a run is
    /// in flight it stays where it is.
    pub fn retry_queued(&mut self) -> (r: Submission)
        requires
            old(self).wf(),
        ensures
            final(self).wf(),
            if old(self).busy {
                r == Submission::Stay && keys::said(
                    *old(self),
                    *final(self),
                    "Queue blocked; wait for the active run before retrying"@,
                )
            } else {
                retry_effect(*old(self), *final(self), r)
            },
    {
        if self.busy {
            self.status = "Queue blocked; wait for the active run before retrying".to_owned();
            return Submission::Stay;
        }
        match self.queued_inputs.pop_front() {
            None => {
                self.queue_blocked = None;
                Submission::Stay
            },
            Some(input) => {
                assert(self.queued_inputs@ =~= old(self).queued_inputs@.skip(1));
                Submission::Retry(input)
            },
        }
    }

    /// The run that an input starts: one of the workflow whose mode is on, or
    /// a turn of the conversation.
    pub fn start_input(&self, text: String) -> (r: Launch)
        ensures
            launch_of(*self, text, r),
    {
        match &self.workflow_mode {
            Some(name) => Launch::Workflow { name: name.clone(), input: text },
            None => Launch::Turn { text },
        }
    }

    /// The run of a workflow, unless another run is in flight.
    pub fn start_workflow(&self, name: &str, input: String) -> (r: Result<Launch, String>)
        ensures
            workflow_launch(*self, name@, input, r),
    {
        match self.require_idle() {
            Ok(_) => Ok(Launch::Workflow { name: name.to_owned(), input }),
            Err(e) => Err(e),
        }
    }

    /// A launch succeeded: its run is in flight.
    pub fn run_started(&mut self, launch: Launch)
        requires
            old(self).wf(),
        ensures
            final(self).wf(),
            launched(*old(self), launch, *final(self)),
    {
        self.busy = true;
        match launch {
            Launch::Turn { text: _ } => {},
            Launch::Workflow { name, input } => {
                self.last_workflow_input = Some(input);
                self.workflow_mode = Some(name);
                self.workflow_complete = false;
            },
        }
    }

    /// The launch of a submitted input succeeded.
    pub fn input_started(&mut self, launch: Launch)
        requires
            old(self).wf(),
        ensures
            final(self).wf(),
            turn_started(*old(self), launch, *final(self)),
    {
        self.run_started(launch);
        self.status = "Running | Ctrl+C to cancel".to_owned();
    }

    /// The launch of the front of the queue succeeded: nothing blocks the
    /// queue.
    pub fn queued_started(&mut self, launch: Launch)
        requires
            old(self).wf(),
        ensures
            final(self).wf(),
            queued_in_flight(*old(self), launch, *final(self)),
    {
        self.run_started(launch);
        self.queue_blocked = None;
        let count = count_text(self.queued_inputs.len());
        self.status = text3(
            "Running | ",
            count.as_str(),
            " message(s) queued | Ctrl+C to cancel",
        );
    }

    /// The launch of the front of the queue failed: it goes back to the front,
    /// and the queue is blocked.
    pub fn queued_failed(&mut self, input: String, error: &str)
        requires
            old(self).wf(),
        ensures
            final(self).wf(),
            put_back(*old(self), input, error@, *final(self)),
    {
        self.queued_inputs.push_front(input);
        self.mark_queue_blocked(error);
    }

    /// Raises the overlay of a finished workflow, at its top.
    pub fn enter_workflow_complete(&mut self)
        requires
            old(self).wf(),
        ensures
            final(self).wf(),
            *final(self) == completed(*old(self)),
    {
        if !self.workflow_complete {
            self.overlay_scroll = 0;
        }
        self.workflow_complete = true;
    }

    /// The front of the queue could not be started: says why and waits for a
    /// retry. In workflow mode the overlay is raised too.
    pub fn mark_queue_blocked(&mut self, error: &str)
        requires
            old(self).wf(),
        ensures
            final(self).wf(),
            blocked_by(*old(self), error@, *final(self)),
    {
        let pending: usize = self.queued_inputs.len();
        self.error(error);
        self.queue_blocked = Some(QueueBlocked { error: error.to_owned(), pending });
        if self.workflow_mode.is_some() {
            self.enter_workflow_complete();
        }
        let count = count_text(pending);
        self.status = text3(
            "Queued ",
            count.as_str(),
            " message(s) blocked | start failed; press Enter to retry",
        );
    }

    /// Takes in what became of the run in flight, `None` while it goes on.
    /// True if it ended: streams are closed and an open approval is dropped.
    pub fn finish_run(&mut self, outcome: Option<RunOutcome>) -> (r: bool)
        requires
            old(self).wf(),
        ensures
            final(self).wf(),
            settled(*old(self), outcome, *final(self), r),
    {
        if !self.busy {
            return false;
        }
        let outcome = match outcome {
            Some(outcome) => outcome,
            None => {
                return false;
            },
        };
        self.busy = false;
        match outcome {
            RunOutcome::Done => {
                if self.workflow_mode.is_some() {
                    self.enter_workflow_complete();
                    self.status =
                    "Workflow complete | n new | r repeat | q exit workflow".to_owned();
                } else {
                    self.status = "Ready".to_owned();
                }
            },
            RunOutcome::Failed(e) => {
                self.error(e.as_str());
                self.status = "Run ended".to_owned();
            },
            RunOutcome::Lost(e) => {
                let message = text2("Run failed: ", e.as_str());
                self.error(message.as_str());
                self.status = message;
            },
        }
        self.finish_streaming_entries();
        self.approval = None;
        true
    }

    /// The next input to start after a run, unless the queue is blocked.
    pub fn next_queued(&mut self) -> (r: Option<String>)
        requires
            old(self).wf(),
        ensures
            final(self).wf(),
            taken(*old(self), r, *final(self)),
    {
        if self.queue_blocked.is_some() {
            return None;
        }
        let r = self.queued_inputs.pop_front();
        assert(r is Some ==> self.queued_inputs@ =~= old(self).queued_inputs@.skip(1));
        r
    }

    /// The run in flight is given up, and an approval with it. True if there
    /// was one to cancel.
    pub fn cancel_and_join(&mut self) -> (r: bool)
        requires
            old(self).wf(),
        ensures
            final(self).wf(),
            given_up(*old(self), *final(self), r),
    {
        if !self.busy {
            return false;
        }
        self.busy = false;
        self.approval = None;
        true
    }
}

/// The overlay of a finished workflow is up; a fresh one starts at its top.
pub open spec fn completed(a: App) -> App {
    App {
        overlay_scroll: if a.workflow_complete {
            a.overlay_scroll
        } else {
            0
        },
        workflow_complete: true,
        ..a
    }
}

/// The queue is blocked by an error.
pub open spec fn blocked_by(a: App, error: Seq<char>, b: App) -> bool {
    let c = if a.workflow_mode is Some {
        completed(a)
    } else {
        a
    };
    &&& b.spine() == a.spine().pushed("error"@, "main"@, error, None)
    &&& (App { queue_blocked: b.queue_blocked, status: b.status, ..c }).same_aside(b)
    &&& b.queue_blocked is Some
    &&& b.queue_blocked->0.error@ == error
    &&& b.queue_blocked->0.pending == a.queued_inputs@.len()
    &&& b.status@ == "Queued "@ + text::decimal(a.queued_inputs@.len())
        + " message(s) blocked | start failed; press Enter to retry"@
}

/// A run ended.
pub open spec fn finished(a: App, outcome: RunOutcome, b: App) -> bool {
    let s = a.spine();
    match outcome {
        RunOutcome::Done => {
            let c = if a.workflow_mode is Some {
                completed(a)
            } else {
                a
            };
            &&& b.spine() == s.streams_closed()
            &&& (App { busy: false, approval: None, status: b.status, ..c }).same_aside(b)
            &&& b.status@ == if a.workflow_mode is Some {
                "Workflow complete | n new | r repeat | q exit workflow"@
            } else {
                "Ready"@
            }
        },
        RunOutcome::Failed(e) => {
            &&& b.spine() == s.pushed("error"@, "main"@, e@, None).streams_closed()
            &&& (App { busy: false, approval: None, status: b.status, ..a }).same_aside(b)
            &&& b.status@ == "Run ended"@
        },
        RunOutcome::Lost(e) => {
            let message = "Run failed: "@ + e@;
            &&& b.spine() == s.pushed("error"@, "main"@, message, None).streams_closed()
            &&& (App { busy: false, approval: None, status: b.status, ..a }).same_aside(b)
            &&& b.status@ == message
        },
    }
}

/// What became of the run in flight is taken in, if it ended.
pub open spec fn settled(a: App, outcome: Option<RunOutcome>, b: App, r: bool) -> bool {
    &&& r == (a.busy && outcome is Some)
    &&& if r {
        finished(a, outcome->0, b)
    } else {
        b == a
    }
}

/// The front of the queue is taken from it, unless the queue is blocked or
/// empty.
pub open spec fn taken(a: App, r: Option<String>, b: App) -> bool {
    &&& b == (App { queued_inputs: b.queued_inputs, ..a })
    &&& if a.queue_blocked is Some || a.queued_inputs@.len() == 0 {
        r is None && b.queued_inputs@ == a.queued_inputs@
    } else {
        r == Some(a.queued_inputs@[0]) && b.queued_inputs@ == a.queued_inputs@.skip(1)
    }
}

/// An input that could not be started goes back to the front of the queue,
/// which is blocked by the error.
pub open spec fn put_back(a: App, input: String, error: Seq<char>, b: App) -> bool {
    &&& b.queued_inputs@ == seq![input] + a.queued_inputs@
    &&& blocked_by(App { queued_inputs: b.queued_inputs, ..a }, error, b)
}

/// The first `n` events of a stored session are taken in.
pub open spec fn replayed(s: Spine, events: Seq<DisplayEvent>, legacy: bool, n: int) -> Spine
    decreases n,
{
    if n <= 0 {
        s
    } else {
        let before = replayed(s, events, legacy, n - 1);
        match events[n - 1] {
            DisplayEvent::Message { context, message } => before.told(context@, message@, legacy),
            DisplayEvent::Activity(e) => before.handled(e@),
        }
    }
}

/// A session without an activity record, which predates them.
pub open spec fn predates_records(events: Seq<DisplayEvent>) -> bool {
    forall|k: int| 0 <= k < events.len() ==> (#[trigger] events[k]) is Message
}

impl App {
    /// Takes up a stored session: what it cost, how full its context is, and
    /// its events. Where it has no activity records they are made up. What was
    /// started and never ended was cancelled.
    #[verifier::spinoff_prover]
    pub fn replay_session(
        &mut self,
        session: &str,
        spend: Spend,
        context_tokens: u64,
        events: Vec<DisplayEvent>,
        recovered: &Vec<String>,
    )
        requires
            old(self).wf(),
        ensures
            final(self).wf(),
            session_replayed(
                *old(self),
                session@,
                spend,
                context_tokens,
                events@,
                text::texts(recovered@),
                *final(self),
            ),
    {
        self.spend = spend;
        self.context_tokens = context_tokens;
        self.status = text3("Session ", session, " | /help");
        let ghost s0 = self.spine();
        let ghost whole = *self;
        let ghost all = events@;
        let mut legacy = true;
        let mut k: usize = 0;
        while k < events.len()
            invariant
                k <= events@.len(),
                legacy == (forall|j: int| 0 <= j < k ==> (#[trigger] events@[j]) is Message),
            decreases events@.len() - k,
        {
            if let DisplayEvent::Activity(_) = &events[k] {
                legacy = false;
            }
            k = k + 1;
        }
        for event in it: events.into_iter()
            invariant
                self.wf(),
                it.seq() == all,
                self.spine() == replayed(s0, all, legacy, it.index() as int),
                whole.same_aside(*self),
        {
            assert(event == all[it.index() as int]);
            self.replay_display_event(event, legacy);
        }
        self.finish_legacy_replay();
        self.apply_unmatched_ids(recovered);
    }
}

/// The state at the start.
pub open spec fn opened(settings: Settings, selection: Selection, r: App) -> bool {
    &&& r.spine() == events::blank()
    &&& r.input.is(Seq::empty(), 0)
    &&& r.input_history@.len() == 0
    &&& r.history_index == 0
    &&& r.spend == (Spend { label: settings.no_spend, unpriced_requests: 0 })
    &&& r.context_limit == 0 && r.context_tokens == 0
    &&& r.workspace == settings.workspace
    &&& r.queued_inputs@.len() == 0
    &&& r.theme == settings.theme
    &&& r.selection == (Selection {
        agent: if selection.agent is None {
            settings.default_agent
        } else {
            selection.agent
        },
        ..selection
    })
    &&& r.mode is None
    &&& r.mouse_enabled
    &&& r.workflow_mode is None && !r.workflow_complete && r.last_workflow_input is None
    &&& r.status@ == "Ready"@
    &&& r.model_label@ == settings.provider@ + ":"@ + settings.model@
    &&& r.effort_label@ == "default"@
    &&& r.effective_agent_label@ == model::agent_in_use(r.selection, None)
    &&& r.overlay_scroll == 0 && !r.help && r.picker is None && r.approval is None
    &&& !r.busy && r.queue_blocked is None && !r.quit
    &&& r.history_generation == 0
}

/// How an input is launched.
pub open spec fn launch_of(a: App, text: String, r: Launch) -> bool {
    match a.workflow_mode {
        Some(name) => r == (Launch::Workflow { name, input: text }),
        None => r == (Launch::Turn { text }),
    }
}

/// How a workflow is launched.
pub open spec fn workflow_launch(
    a: App,
    name: Seq<char>,
    input: String,
    r: Result<Launch, String>,
) -> bool {
    match r {
        Ok(launch) => {
            &&& !a.busy
            &&& launch matches Launch::Workflow { name: n, input: i } && n@ == name && i
                == input
        },
        Err(e) => a.busy && e@ == "Wait for the active run or cancel it with Ctrl+C"@,
    }
}

/// A run that was asked for is in flight.
pub open spec fn turn_started(a: App, launch: Launch, b: App) -> bool {
    &&& launched(
        App { status: b.status, ..a },
        launch,
        b,
    )
    &&& b.status@ == "Running | Ctrl+C to cancel"@
}

/// A run from the queue is in flight.
pub open spec fn queued_in_flight(a: App, launch: Launch, b: App) -> bool {
    &&& launched(
        App { status: b.status, queue_blocked: None, ..a },
        launch,
        b,
    )
    &&& b.status@ == running_status(a.queued_inputs@.len())
}

/// The run in flight is given up.
pub open spec fn given_up(a: App, b: App, r: bool) -> bool {
    &&& r == a.busy
    &&& b == if a.busy {
        App { busy: false, approval: None, ..a }
    } else {
        a
    }
}

/// A stored session was taken up.
pub open spec fn session_replayed(
    a: App,
    session: Seq<char>,
    spend: Spend,
    context_tokens: u64,
    events: Seq<DisplayEvent>,
    recovered: Seq<Seq<char>>,
    b: App,
) -> bool {
    &&& b.spine() == replayed(
        a.spine(),
        events,
        predates_records(events),
        events.len() as int,
    ).swept(
        |id: Seq<char>| text::begins(id, "legacy:"@),
        ActivityStatus::Success,
    ).swept(
        |id: Seq<char>| recovered.contains(id),
        ActivityStatus::Cancelled,
    )
    &&& (App { spend, context_tokens, status: b.status, ..a }).same_aside(b)
    &&& b.status@ == "Session "@ + session + " | /help"@
}

} // verus!
