//! What holds of the slash commands, of what can be chosen with them, and of
//! the runs that inputs start.
use crate::app::App;
use crate::choices;
use crate::choices::{AgentModels, AgentSwitch, Reasoning, Resolved};
use crate::commands;
use crate::commands::{CommandAction, McpAction};
use crate::keys;
use crate::model;
use crate::model::{Selection, UiEvent};
use crate::picker::{McpServer, Picker, Preset};
use crate::runs;
use crate::runs::{Launch, ModelInfo, RunOutcome, Submission};
use crate::spine::Spine;
use crate::text;
use vstd::prelude::*;

verus! {

// ---------------------------------------------------------------------------
// Words of a command
// ---------------------------------------------------------------------------

proof fn lemma_first_gap(s: Seq<char>, k: int)
    requires
        0 <= k <= s.len(),
    ensures
        ({
            let i = commands::first_gap(s, k);
            &&& k <= i <= s.len()
            &&& i < s.len() ==> text::white(s[i])
            &&& forall|j: int| k <= j < i ==> !text::white(#[trigger] s[j])
        }),
    decreases s.len() - k,
{
    if k < s.len() && !text::white(s[k]) {
        lemma_first_gap(s, k + 1);
    }
}

/// A command is its first word, and the rest is what stands behind the gap.
pub proof fn law_commands_are_split(head: Seq<char>, gap: char, rest: Seq<char>)
    requires
        head.len() > 0,
        forall|i: int| 0 <= i < head.len() ==> !text::white(#[trigger] head[i]),
        text::white(gap),
        rest.len() > 0,
        !text::white(rest[0]),
        !text::white(rest.last()),
    ensures
        commands::head_of(head) == head,
        commands::rest_of(head).len() == 0,
        commands::head_of(head + seq![gap] + rest) == head,
        commands::rest_of(head + seq![gap] + rest) == rest,
{
    let whole = head + seq![gap] + rest;
    assert(whole[0] == head[0]);
    assert(whole.last() == rest.last());
    assert(text::trim(whole) == whole);
    assert(head[head.len() - 1] == head.last());
    assert(text::trim(head) == head);
    lemma_first_gap(whole, 0);
    lemma_first_gap(head, 0);
    let i = commands::first_gap(whole, 0);
    if i < head.len() {
        assert(whole[i] == head[i]);
    }
    assert(whole[head.len() as int] == gap);
    assert(i == head.len());
    assert(whole.take(i) =~= head);
    assert(whole.skip(i + 1) =~= rest);
    assert(text::trim(rest) == rest);
    assert(commands::first_gap(head, 0) == head.len());
    assert(head.take(head.len() as int) =~= head);
}

// ---------------------------------------------------------------------------
// What a command asks for
// ---------------------------------------------------------------------------

/// Each request is made by its own command, with what stands behind it.
pub proof fn law_requests_have_their_command(
    a: App,
    text: Seq<char>,
    b: App,
    r: Result<CommandAction, String>,
)
    requires
        commands::command_effect(a, text, b, r),
        r is Ok,
    ensures
        ({
            let head = commands::head_of(text);
            let rest = commands::rest_of(text);
            match r->Ok_0 {
                CommandAction::Done => head == "/quit"@ || head == ":q"@ || head == "/help"@ || head
                    == "/mouse"@ || head == "/cost"@,
                CommandAction::Tools(x) => head == "/tools"@ && x@ == rest,
                CommandAction::Mcp(x) => head == "/mcp"@ && x@ == rest,
                CommandAction::Theme(x) => head == "/theme"@ && x@ == rest,
                CommandAction::Model(x) => head == "/model"@ && x@ == rest,
                CommandAction::Effort(x) => head == "/effort"@ && x@ == rest,
                CommandAction::Agent(x) => head == "/agent"@ && x@ == rest,
                CommandAction::Mode(x) => head == "/mode"@ && x@ == rest,
                CommandAction::ListWorkflows => head == "/workflow"@ && rest.len() == 0,
                CommandAction::RunWorkflow { name, input } => head == "/workflow"@ && name@
                    == commands::head_of(rest) && input@ == commands::rest_of(rest),
                CommandAction::Skills(x) => head == "/skills"@ && x@ == rest,
                CommandAction::InstallSkill(x) => head == "/install-skill"@ && x@ == rest,
                CommandAction::Export(x) => head == "/export"@ && x@ == rest,
                CommandAction::Reset => head == "/clear"@ || head == "/new"@,
                CommandAction::Reload => head == "/reload"@,
            }
        }),
{
}

/// While a run is in flight nothing is asked for that would disturb it, and a
/// command that would is refused and changes nothing.
pub proof fn law_runs_are_not_disturbed(
    a: App,
    text: Seq<char>,
    b: App,
    r: Result<CommandAction, String>,
)
    requires
        commands::command_effect(a, text, b, r),
        a.busy,
    ensures
        r is Ok ==> r->Ok_0 is Done || r->Ok_0 is Tools || r->Ok_0 is Mcp || r->Ok_0 is Theme,
        r is Err ==> b == a,
        b.busy,
{
}

/// A command that is not known is named in the refusal, and changes nothing.
pub proof fn law_unknown_commands_are_refused(
    a: App,
    text: Seq<char>,
    b: App,
    r: Result<CommandAction, String>,
)
    requires
        commands::command_effect(a, text, b, r),
        !a.busy,
        r is Err,
    ensures
        b == a,
        commands::head_of(text) != "/mouse"@ ==> crate::result_laws::shown_in(
            commands::head_of(text),
            r->Err_0@,
        ),
{
    let head = commands::head_of(text);
    if head != "/mouse"@ {
        let whole = r->Err_0@;
        let n = "Unknown command: "@.len() as int;
        assert(whole.subrange(n, n + head.len()) =~= head);
    }
}

/// Only the command to quit quits, and it always does.
pub proof fn law_quitting_is_asked_for(
    a: App,
    text: Seq<char>,
    b: App,
    r: Result<CommandAction, String>,
)
    requires
        commands::command_effect(a, text, b, r),
        !a.quit,
    ensures
        commands::head_of(text) == "/quit"@ || commands::head_of(text) == ":q"@ <==> b.quit,
{
}

/// The mouse is switched as it is asked, and the status says how.
pub proof fn law_mouse_is_switched(a: App, text: Seq<char>, b: App, r: Result<CommandAction, String>)
    requires
        commands::command_effect(a, text, b, r),
        commands::head_of(text) == "/mouse"@,
    ensures
        ({
            let rest = commands::rest_of(text);
            &&& rest == "on"@ ==> r is Ok && b.mouse_enabled
            &&& rest == "off"@ ==> r is Ok && !b.mouse_enabled
            &&& rest == "toggle"@ ==> r is Ok && b.mouse_enabled == !a.mouse_enabled
            &&& rest.len() == 0 ==> r is Ok && b.mouse_enabled == a.mouse_enabled
            &&& r is Ok && b.mouse_enabled ==> b.status@ == "Mouse capture enabled"@
            &&& r is Ok && !b.mouse_enabled ==> b.status@ == "Mouse capture disabled"@
            &&& b == (App { mouse_enabled: b.mouse_enabled, status: b.status, ..a })
        }),
{
    assert(commands::head_of(text) != "/quit"@ && commands::head_of(text) != ":q"@
        && commands::head_of(text) != "/help"@) by {
        reveal_strlit("/mouse");
        reveal_strlit("/quit");
        reveal_strlit(":q");
        reveal_strlit("/help");
        assert("/mouse"@.len() == 6 && "/quit"@.len() == 5 && ":q"@.len() == 2);
        assert("/help"@.len() == 5);
    }
    let rest = commands::rest_of(text);
    reveal_strlit("on");
    reveal_strlit("off");
    reveal_strlit("toggle");
    assert("on"@.len() == 2 && "off"@.len() == 3 && "toggle"@.len() == 6);
}

/// A word switches on or off, and never both.
pub proof fn law_switching_words()
    ensures
        commands::switch_of("on"@) == Some(true),
        commands::switch_of("activate"@) == Some(true),
        commands::switch_of("off"@) == Some(false),
        commands::switch_of("deactivate"@) == Some(false),
        forall|s: Seq<char>| #[trigger] commands::switch_of(s) == Some(true) ==> s == "on"@ || s
            == "activate"@,
        forall|s: Seq<char>| #[trigger] commands::switch_of(s) == Some(false) ==> s == "off"@ || s
            == "deactivate"@,
        commands::state_of(true) == "on "@,
        commands::state_of(false) == "off"@,
{
    reveal_strlit("on");
    reveal_strlit("off");
    reveal_strlit("activate");
    reveal_strlit("deactivate");
    assert("on"@.len() == 2 && "off"@.len() == 3);
    assert("activate"@.len() == 8 && "deactivate"@.len() == 10);
}

/// A server that is not configured is neither switched nor restarted, and one
/// that is restarted or switched is the one that was named.
pub proof fn law_servers_are_switched_by_name(
    a: App,
    rest: Seq<char>,
    servers: Seq<McpServer>,
    b: App,
    r: Result<McpAction, String>,
)
    requires
        commands::mcp_effect(a, rest, servers, b, r),
        r is Ok,
    ensures
        match r->Ok_0 {
            McpAction::Switch(w) => {
                &&& exists|k: int| 0 <= k < servers.len() && (#[trigger] servers[k]).name@ == w.name@
                &&& w.enabled ==> {
                    ||| commands::rest_of(rest) == "on"@
                    ||| commands::rest_of(rest) == "activate"@
                    ||| commands::head_of(rest) == "activate"@
                }
                &&& !w.enabled ==> {
                    ||| commands::rest_of(rest) == "off"@
                    ||| commands::rest_of(rest) == "deactivate"@
                    ||| commands::head_of(rest) == "deactivate"@
                }
            },
            McpAction::Restart(name) => {
                &&& exists|k: int| 0 <= k < servers.len() && (#[trigger] servers[k]).name@ == name@
                &&& !a.busy
            },
            McpAction::Add { .. } => !a.busy && text::begins(rest, "add "@),
            McpAction::Done => rest.len() == 0 && b.picker is Some,
        },
{
    law_switching_words();
    reveal_strlit("restart");
    reveal_strlit("activate");
    reveal_strlit("deactivate");
    assert("restart"@.len() == 7 && "activate"@.len() == 8 && "deactivate"@.len() == 10);
}

/// Taking a name out of a list leaves the others, in order.
pub proof fn law_names_are_taken_out(all: Seq<Seq<char>>, name: Seq<char>)
    ensures
        !commands::without(all, name).contains(name),
        forall|x: Seq<char>|
            x != name ==> (commands::without(all, name).contains(x) <==> #[trigger] all.contains(x)),
        !all.contains(name) ==> commands::without(all, name) == all,
    decreases all.len(),
{
    if all.len() > 0 {
        let front = all.drop_last();
        let kept = commands::without(front, name);
        let r = commands::without(all, name);
        law_names_are_taken_out(front, name);
        assert(all =~= front.push(all.last()));
        assert forall|x: Seq<char>| x != name implies (r.contains(x) <==> #[trigger] all.contains(x)) by {
            assert(kept.contains(x) <==> front.contains(x));
            if all.contains(x) {
                let i = choose|i: int| 0 <= i < all.len() && all[i] == x;
                if i < front.len() {
                    assert(front[i] == x);
                    let j = choose|j: int| 0 <= j < kept.len() && kept[j] == x;
                    assert(r[j] == x);
                } else {
                    assert(r.last() == x);
                    assert(r[r.len() - 1] == x);
                }
            }
            if r.contains(x) {
                let j = choose|j: int| 0 <= j < r.len() && r[j] == x;
                if j < kept.len() {
                    assert(kept[j] == x);
                    let i = choose|i: int| 0 <= i < front.len() && front[i] == x;
                    assert(all[i] == x);
                } else {
                    assert(all[all.len() - 1] == x);
                }
            }
        }
        if r.contains(name) {
            let j = choose|j: int| 0 <= j < r.len() && r[j] == name;
            if j < kept.len() {
                assert(kept[j] == name);
            }
        }
        if !all.contains(name) {
            assert(all[all.len() - 1] != name);
            assert forall|i: int| 0 <= i < front.len() implies front[i] != name by {
                assert(all[i] == front[i]);
            }
            assert(!front.contains(name));
        }
    }
}

/// One line is listed for each tool, with its state in front of its name.
pub proof fn law_tools_are_listed(tools: Seq<commands::ToolState>, k: int)
    requires
        0 <= k < tools.len(),
    ensures
        commands::tool_lines(tools).len() == tools.len(),
        tools[k].enabled ==> commands::tool_lines(tools)[k] == "on "@ + " "@ + tools[k].name@,
        !tools[k].enabled ==> commands::tool_lines(tools)[k] == "off"@ + " "@ + tools[k].name@,
{
}

/// One line is listed for each skill, with its state in front of its name.
pub proof fn law_skills_are_listed(
    skills: Seq<commands::SkillInfo>,
    enabled: Seq<Seq<char>>,
    k: int,
)
    requires
        0 <= k < skills.len(),
    ensures
        commands::skill_lines(skills, enabled).len() == skills.len(),
        enabled.contains(skills[k].name@) ==> commands::skill_lines(skills, enabled)[k] == "on "@
            + " "@ + skills[k].name@ + " - "@ + skills[k].description@,
        !enabled.contains(skills[k].name@) ==> commands::skill_lines(skills, enabled)[k] == "off"@
            + " "@ + skills[k].name@ + " - "@ + skills[k].description@,
{
}

// ---------------------------------------------------------------------------
// What can be chosen
// ---------------------------------------------------------------------------

/// The preset that a name stands for is the first of that name.
pub proof fn law_presets_are_found_by_name(presets: Seq<Preset>, name: Seq<char>, from: int, k: int)
    requires
        0 <= from <= k < presets.len(),
        presets[k].name@ == name,
        forall|j: int| from <= j < k ==> (#[trigger] presets[j]).name@ != name,
    ensures
        choices::preset_named(presets, name, from) == Some(presets[k].theme),
    decreases k - from,
{
    if from < k {
        law_presets_are_found_by_name(presets, name, from + 1, k);
    }
}

/// A model is chosen by the user before the agent's mode, and by the mode before
/// the agent.
pub proof fn law_the_user_chooses_first(s: Selection, agent: AgentModels)
    ensures
        s.model is Some ==> choices::effective_reference(s, Some(agent)) == s.model,
        s.model is Some ==> choices::effective_reference(s, None) == s.model,
        s.model is None && s.agent_mode is None ==> choices::effective_reference(s, Some(agent))
            == agent.model,
        s.model is None ==> choices::effective_reference(s, None) is None,
        s.model is None && s.agent_mode is Some && (exists|k: int|
            0 <= k < agent.modes@.len() && (#[trigger] agent.modes@[k]).name@ == s.agent_mode->0@)
            && agent.modes@.len() == 1 && agent.modes@[0].model is Some
            ==> choices::effective_reference(s, Some(agent)) == agent.modes@[0].model,
{
    reveal_with_fuel(choices::mode_model, 2);
}

/// Another model comes with its own effort, and leaves the agent as it is.
pub proof fn law_models_come_with_their_effort(a: Selection, reference: Seq<char>, b: Selection)
    requires
        choices::model_selection(a, reference, b),
    ensures
        b.model is Some && b.model->0@ == reference,
        b.effort is None,
        b.agent == a.agent,
        b.agent_mode == a.agent_mode,
{
}

/// Another agent comes with its own model and effort.
pub proof fn law_agents_come_with_their_model(name: Seq<char>, has_default: bool, s: Selection)
    requires
        choices::agent_selection(name, has_default, s),
    ensures
        s.model is None && s.effort is None && s.agent_mode is None,
        name != "default"@ ==> s.agent is Some && s.agent->0@ == name,
        name == "default"@ && !has_default ==> s.agent is None,
{
}

/// `/agent` switches to the agent that it names, in the mode that it names.
pub proof fn law_agents_are_switched_by_name(rest: Seq<char>, w: AgentSwitch)
    requires
        choices::agent_switch(rest, w),
    ensures
        w.name@ == commands::head_of(rest),
        commands::head_of(rest) != "default"@ ==> w.selection.agent is Some
            && w.selection.agent->0@ == commands::head_of(rest),
        commands::head_of(rest) == "default"@ ==> w.selection.agent is None,
        commands::rest_of(rest).len() > 0 ==> w.selection.agent_mode is Some
            && w.selection.agent_mode->0@ == commands::rest_of(rest),
        commands::rest_of(rest).len() == 0 ==> w.selection.agent_mode is None,
        w.selection.model is None && w.selection.effort is None,
{
}

/// An effort is handed on as it was typed, `default` takes it back, and without
/// one the efforts that there are get listed.
pub proof fn law_efforts_are_set(
    a: App,
    rest: Seq<char>,
    reasoning: Reasoning,
    b: App,
    r: Result<Option<String>, String>,
)
    requires
        choices::effort_effect(a, rest, Ok(Some(reasoning)), b, r),
    ensures
        rest == "default"@ ==> b.selection.effort is None && r == Ok::<Option<String>, String>(None),
        rest != "default"@ && rest.len() > 0 ==> b == a && r is Ok && r->Ok_0 is Some
            && r->Ok_0->0@ == rest,
        rest.len() == 0 ==> b.entries@.len() == a.entries@.len() + 1,
        b.selection.model == a.selection.model && b.selection.agent == a.selection.agent,
{
    if rest.len() == 0 {
        assert("default"@.len() == 7) by {
            reveal_strlit("default");
        }
        assert(b.spine().entries.len() == a.spine().entries.len() + 1);
    }
}

/// The header follows the model that was resolved.
pub proof fn law_labels_follow_the_model(a: App, info: ModelInfo, b: App)
    requires
        runs::labelled(a, info, b),
    ensures
        b.model_label@ == info.provider@ + ":"@ + info.model@,
        info.effort is Some ==> b.effort_label@ == info.effort->0@,
        b.context_limit == info.max_tokens,
        b.selection == a.selection,
        b.selection.agent is Some ==> b.effective_agent_label@ == b.selection.agent->0@,
        b.selection.agent is None && info.default_agent is Some ==> b.effective_agent_label@
            == info.default_agent->0@,
        b.entries == a.entries && b.busy == a.busy && b.queued_inputs == a.queued_inputs,
{
}

/// A model that was picked is the one in use from then on, and the transcript
/// says so.
pub proof fn law_picked_models_are_used(a: App, reference: Seq<char>, resolved: Resolved, b: App)
    requires
        choices::model_picked(a, reference, resolved, b),
        resolved.info is Ok,
    ensures
        b.selection == resolved.selection,
        b.spine().entries.len() == a.spine().entries.len() + 1,
        b.spine().entries.last().text == "Switched model to "@ + reference,
        b.model_label@ == resolved.info->Ok_0.provider@ + ":"@ + resolved.info->Ok_0.model@,
        b.queued_inputs == a.queued_inputs && b.busy == a.busy,
{
}

/// An agent that was picked is the one in use from then on. It ends workflow
/// mode, and nothing blocks the queue.
pub proof fn law_picked_agents_are_used(a: App, reference: Seq<char>, resolved: Resolved, b: App)
    requires
        choices::agent_picked(a, reference, resolved, b),
    ensures
        b.selection == resolved.selection,
        b.workflow_mode is None && b.mode is None && !b.workflow_complete,
        b.queue_blocked is None,
        b.spine().entries.last().text == "Switched agent to "@ + reference,
        b.queued_inputs == a.queued_inputs && b.busy == a.busy,
{
}

/// What could not be picked is not used: the dialog is open again as it was, and
/// the error is shown.
pub proof fn law_failed_picks_change_nothing(
    a: App,
    picker: Picker,
    error: Seq<char>,
    status: Seq<char>,
    b: App,
)
    requires
        choices::pick_failed(a, picker, error, status, b),
    ensures
        b.picker == Some(picker),
        b.selection == a.selection,
        b.spine().entries.last().role == "error"@ && b.spine().entries.last().text == error,
        b.workflow_mode == a.workflow_mode && b.queued_inputs == a.queued_inputs,
{
}

// ---------------------------------------------------------------------------
// Runs
// ---------------------------------------------------------------------------

/// A run that started is in flight. A workflow can be repeated on its input.
pub proof fn law_launches_are_in_flight(a: App, launch: Launch, b: App)
    requires
        runs::launched(a, launch, b),
    ensures
        b.busy,
        launch matches Launch::Workflow { name, input } ==> b.workflow_mode == Some(name)
            && b.last_workflow_input == Some(input) && !b.workflow_complete,
        launch is Turn ==> b.workflow_mode == a.workflow_mode && b.last_workflow_input
            == a.last_workflow_input,
        b.queued_inputs == a.queued_inputs && b.entries == a.entries && b.input == a.input,
{
}

/// A run that ended is not in flight, nothing is streamed any more and nothing
/// waits for an answer. How it ended is in the status line, and a failure is in
/// the transcript as well.
pub proof fn law_ended_runs_are_reported(a: App, outcome: RunOutcome, b: App)
    requires
        runs::finished(a, outcome, b),
    ensures
        !b.busy,
        b.approval is None,
        b.spine().streams == Map::<Seq<char>, usize>::empty(),
        forall|i: int|
            0 <= i < b.spine().entries.len() ==> !(#[trigger] b.spine().entries[i]).streaming,
        outcome is Done && a.workflow_mode is None ==> b.status@ == "Ready"@,
        outcome is Done && a.workflow_mode is Some ==> b.workflow_complete,
        outcome is Done ==> b.spine().entries.len() == a.spine().entries.len(),
        outcome matches RunOutcome::Failed(e) ==> {
            &&& b.spine().entries.len() == a.spine().entries.len() + 1
            &&& b.spine().entries.last().role == "error"@
            &&& b.spine().entries.last().text == e@
        },
        outcome matches RunOutcome::Lost(e) ==> {
            &&& b.spine().entries.len() == a.spine().entries.len() + 1
            &&& b.spine().entries.last().role == "error"@
            &&& b.spine().entries.last().text == "Run failed: "@ + e@
            &&& b.status@ == "Run failed: "@ + e@
        },
        b.queued_inputs == a.queued_inputs && b.input == a.input,
{
    let n = b.spine().entries.len() as int;
    match outcome {
        RunOutcome::Done => {},
        RunOutcome::Failed(e) => {
            assert(b.spine().entries[n - 1].text == e@);
        },
        RunOutcome::Lost(e) => {
            assert(b.spine().entries[n - 1].text == "Run failed: "@ + e@);
        },
    }
}

/// An empty input starts nothing by itself; it only retries a queue that is
/// blocked, with its front, and never while a run is in flight.
pub proof fn law_empty_input_only_retries(a: App, b: App, r: Submission)
    requires
        text::trim(a.input.text@).len() == 0,
        runs::submit_effect(a, b, r),
    ensures
        r is Retry ==> a.queue_blocked is Some && !a.busy && a.queued_inputs@.len() > 0 && r
            == Submission::Retry(a.queued_inputs@[0]),
        !(r is Start) && !(r is Command),
        b.input_history == a.input_history,
        a.queue_blocked is Some && !a.busy && a.queued_inputs@.len() > 0 ==> r is Retry,
        a.queue_blocked is Some && a.busy ==> b.queued_inputs == a.queued_inputs
            && b.queue_blocked == a.queue_blocked && r is Stay,
        a.queue_blocked is Some && !a.busy && a.queued_inputs@.len() == 0 ==> b.queue_blocked is None
            && r is Stay,
        a.queue_blocked is None ==> b.queued_inputs == a.queued_inputs && b.input.text@.len() == 0
            && b.status == a.status,
{
}

// ---------------------------------------------------------------------------
// Events of the engine
// ---------------------------------------------------------------------------

/// A request for approval is put before the user as it came, from its top,
/// unless nobody waits for the answer any more.
pub proof fn law_approvals_are_put_before_the_user(
    a: App,
    title: String,
    detail: String,
    workflow: bool,
    open: bool,
)
    ensures
        ({
            let b = a.after_event(UiEvent::Approval { title, detail, workflow, open });
            &&& open ==> b.approval is Some && b.approval->0.title == title && b.approval->0.detail
                == detail && b.approval->0.workflow == workflow
            &&& !open ==> b.approval == a.approval
            &&& b.overlay_scroll == 0
            &&& b.busy == a.busy && b.input == a.input && b.status == a.status
        }),
{
}

/// The status line, the cost and the size of the context follow the engine;
/// what runs beside the main conversation does not touch them.
pub proof fn law_status_follows_the_main_run(a: App, context: String, text: String, tokens: u64)
    ensures
        context@ == "main"@ ==> a.after_event(UiEvent::Status { context, text }).status == text,
        context@ != "main"@ ==> a.after_event(UiEvent::Status { context, text }) == a,
        context@ == "main"@ ==> a.after_event(
            UiEvent::Context { context, tokens },
        ).context_tokens == tokens,
        context@ != "main"@ ==> a.after_event(UiEvent::Context { context, tokens }) == a,
{
}

/// Records that never ended get a status where they are picked, and no record
/// loses the one it has.
pub proof fn law_open_records_are_closed(
    s: Spine,
    pick: spec_fn(Seq<char>) -> bool,
    status: model::ActivityStatus,
    i: int,
)
    requires
        0 <= i < s.nodes.len(),
    ensures
        ({
            let r = s.swept(pick, status);
            &&& r.nodes.len() == s.nodes.len()
            &&& s.nodes[i].status is Some ==> r.nodes[i] == s.nodes[i]
            &&& s.nodes[i].status is None && pick(s.nodes[i].start.id) ==> r.nodes[i].status == Some(
                status,
            )
            &&& !pick(s.nodes[i].start.id) ==> r.nodes[i] == s.nodes[i]
            &&& r.entries == s.entries && r.timeline == s.timeline
        }),
{
}

// ---------------------------------------------------------------------------
// Tools, skills and themes
// ---------------------------------------------------------------------------

/// `/tools` lists every tool, and switches the one that it names as it is told.
/// A tool that is not there is refused, and nothing changes.
pub proof fn law_tools_are_switched_by_name(
    a: App,
    rest: Seq<char>,
    tools: Seq<commands::ToolState>,
    b: App,
    r: Result<Option<commands::Switch>, String>,
)
    requires
        commands::tools_effect(a, rest, tools, b, r),
    ensures
        rest.len() == 0 ==> r is Ok && b.spine().entries.last().text == text::joined(
            commands::tool_lines(tools),
            "\n"@,
        ),
        r is Err ==> b == a,
        r matches Ok(Some(w)) ==> {
            &&& w.name@ == commands::head_of(rest)
            &&& w.enabled ==> commands::rest_of(rest) == "on"@ || commands::rest_of(rest)
                == "activate"@
            &&& !w.enabled ==> commands::rest_of(rest) == "off"@ || commands::rest_of(rest)
                == "deactivate"@
            &&& text::begins(w.name@, "mcp_"@) || exists|k: int|
                0 <= k < tools.len() && (#[trigger] tools[k]).name@ == w.name@
        },
        commands::rest_of(rest) == "on"@ && rest.len() > 0 && commands::tool_listed(
            tools,
            commands::head_of(rest),
        ) ==> r is Ok && r->Ok_0 is Some && r->Ok_0->0.enabled,
        commands::rest_of(rest) == "off"@ && rest.len() > 0 && commands::tool_listed(
            tools,
            commands::head_of(rest),
        ) ==> r is Ok && r->Ok_0 is Some && !r->Ok_0->0.enabled,
{
    law_switching_words();
}

/// `/skills` gives the names of the skills that are on once one was switched:
/// the one that was named is among them or is not, as it was told, and no other
/// changes.
pub proof fn law_skills_are_switched_by_name(
    a: App,
    rest: Seq<char>,
    skills: Seq<commands::SkillInfo>,
    enabled: Seq<Seq<char>>,
    b: App,
    r: Result<Option<Vec<String>>, String>,
    other: Seq<char>,
)
    requires
        commands::skills_effect(a, rest, skills, enabled, b, r),
        r is Ok,
        r->Ok_0 is Some,
        other != commands::head_of(rest),
    ensures
        ({
            let on = text::texts(r->Ok_0->0@);
            let name = commands::head_of(rest);
            &&& on.contains(name) <==> commands::rest_of(rest) == "on"@ || commands::rest_of(rest)
                == "activate"@
            &&& on.contains(other) <==> enabled.contains(other)
            &&& exists|k: int| 0 <= k < skills.len() && (#[trigger] skills[k]).name@ == name
        }),
{
    law_switching_words();
    let name = commands::head_of(rest);
    let on = text::texts(r->Ok_0->0@);
    let kept = commands::without(enabled, name);
    law_names_are_taken_out(enabled, name);
    assert(kept.contains(other) <==> enabled.contains(other));
    if commands::switch_of(commands::rest_of(rest)) == Some(true) {
        assert(on == kept.push(name));
        assert(on[on.len() - 1] == name);
        if kept.contains(other) {
            let i = choose|i: int| 0 <= i < kept.len() && kept[i] == other;
            assert(on[i] == other);
        }
        if on.contains(other) {
            let i = choose|i: int| 0 <= i < on.len() && on[i] == other;
            assert(kept[i] == other);
        }
    } else {
        assert(on == kept);
    }
}

/// `/theme` shows the theme that it names, and keeps the borders and the
/// highlighting that are in use. A theme that is not there is refused.
pub proof fn law_themes_are_taken_by_name(
    a: App,
    rest: Seq<char>,
    configured: model::Theme,
    presets: Seq<Preset>,
    b: App,
    r: Result<(), String>,
    k: int,
)
    requires
        choices::theme_effect(a, rest, configured, presets, b, r),
        rest.len() > 0,
        0 <= k < presets.len(),
        forall|j: int| 0 <= j < k ==> (#[trigger] presets[j]).name@ != rest,
    ensures
        rest == "configured"@ ==> r is Ok && b.theme == configured,
        rest != "configured"@ && presets[k].name@ == rest ==> {
            &&& r is Ok
            &&& b.theme.accent == presets[k].theme.accent
            &&& b.theme.background == presets[k].theme.background
            &&& b.theme.foreground == presets[k].theme.foreground
            &&& b.theme.ascii == a.theme.ascii
            &&& b.theme.syntax_highlighting == a.theme.syntax_highlighting
        },
        r is Err ==> b == a,
        b == (App { theme: b.theme, status: b.status, ..a }),
{
    if presets[k].name@ == rest {
        law_presets_are_found_by_name(presets, rest, 0, k);
    }
}

// ---------------------------------------------------------------------------
// Models and agents
// ---------------------------------------------------------------------------

/// `/model` opens the dialog, adds a model, or asks for the one that it names;
/// while a run is in flight it asks for none.
pub proof fn law_models_are_asked_for(a: App, rest: Seq<char>, r: Result<choices::ModelAction, String>)
    requires
        choices::model_request(a, rest, r),
    ensures
        rest.len() == 0 ==> r is Ok && r->Ok_0 is Browse,
        r is Ok && r->Ok_0 is Browse ==> rest.len() == 0,
        r matches Ok(choices::ModelAction::Select { reference, selection }) ==> {
            &&& !a.busy
            &&& reference@ == rest
            &&& selection.model is Some && selection.model->0@ == rest
            &&& selection.agent == a.selection.agent
        },
        r matches Ok(choices::ModelAction::Add { name, .. }) ==> name@ == commands::head_of(
            rest.skip(4),
        ) && text::begins(rest, "add "@),
        a.busy && rest.len() > 0 && !text::begins(rest, "add "@) ==> r is Err,
{
}

/// A model that was added is the one in use.
pub proof fn law_added_models_are_used(a: App, name: Seq<char>, b: App)
    requires
        choices::model_in_place(a, name, b),
    ensures
        b.selection.model is Some && b.selection.model->0@ == name,
        b.selection.effort is None,
        b.selection.agent == a.selection.agent,
        b.spine().entries.last().text == "Added and selected model "@ + name,
        b.spine().entries.len() == a.spine().entries.len() + 1,
{
}

/// An effort that was chosen is the one in use, with the same model and agent.
pub proof fn law_chosen_efforts_are_used(a: App, effort: String, b: App)
    requires
        choices::effort_in_place(a, effort, b),
    ensures
        b.selection.effort == Some(effort),
        b.selection.model == a.selection.model && b.selection.agent == a.selection.agent,
        b.spine().entries.last().text == "Reasoning effort: "@ + effort@,
{
}

/// An agent that was switched to is the one in use. It ends workflow mode, and
/// nothing blocks the queue.
pub proof fn law_switched_agents_are_used(a: App, switch: AgentSwitch, b: App)
    requires
        choices::agent_in_place(a, switch, b),
    ensures
        b.selection == switch.selection,
        b.workflow_mode is None && b.mode is None && b.queue_blocked is None,
        b.queued_inputs == a.queued_inputs,
        switch.mode@.len() == 0 ==> b.spine().entries.last().text == "Switched agent to "@
            + switch.name@,
{
}

/// A mode that was chosen is in use, with its agent and its workflow.
pub proof fn law_chosen_modes_are_used(
    a: App,
    selection: Selection,
    workflow: Option<String>,
    name: String,
    b: App,
)
    requires
        choices::mode_in_place(a, selection, workflow, name, b),
    ensures
        b.selection == selection,
        b.workflow_mode == workflow,
        b.mode == Some(name),
        b.queued_inputs == a.queued_inputs && b.entries == a.entries,
{
}

/// A server that was switched in its dialog shows its new state there, and the
/// dialog stays open on the same row.
pub proof fn law_switched_servers_show(
    a: App,
    picker: Picker,
    reference: Seq<char>,
    enabled: bool,
    b: App,
    k: int,
)
    requires
        choices::server_switched(a, picker, reference, enabled, b),
        0 <= k < picker.choices@.len(),
        picker.choices@[k].reference@ == reference,
        forall|j: int|
            0 <= j < picker.choices@.len() && j != k ==> (#[trigger] picker.choices@[j]).reference@
                != reference,
    ensures
        b.picker is Some,
        b.picker->0.choices@[k].enabled == Some(enabled),
        b.picker->0.selected == picker.selected && b.picker->0.query == picker.query,
        enabled ==> b.status@ == "MCP "@ + reference + ": "@ + "on"@,
        !enabled ==> b.status@ == "MCP "@ + reference + ": "@ + "off"@,
{
    let c = crate::picker::choices_view(picker.choices@);
    assert forall|j: int| 0 <= j < c.len() && j != k implies (#[trigger] c[j]).reference != reference by {
        assert(picker.choices@[j].reference@ != reference);
    }
    assert(c[k].reference == reference);
    crate::picker_laws::law_switching_shows(c, reference, enabled, k);
    let d = crate::picker::choices_view(b.picker->0.choices@);
    assert(d[k].enabled == Some(enabled));
    assert(d.len() == b.picker->0.choices@.len());
    assert(d[k] == b.picker->0.choices@[k]@);
}

/// The agent that Tab asks for is the next one of those on offer, and with only
/// one on offer none is asked for.
pub proof fn law_next_agents_are_asked_for(
    a: App,
    names: Seq<Seq<char>>,
    default: Option<Seq<char>>,
    reverse: bool,
    b: App,
    r: Option<Selection>,
    k: int,
)
    requires
        choices::agent_asked(a, names, default, reverse, b, r),
        ({
            let offered = crate::picker::agent_names(names, default is Some);
            &&& offered.no_duplicates()
            &&& 0 <= k < offered.len()
            &&& model::agent_in_use(a.selection, default) == offered[k]
        }),
    ensures
        ({
            let offered = crate::picker::agent_names(names, default is Some);
            let n = offered.len() as int;
            &&& n < 2 ==> r is None && b.selection == a.selection
            &&& n >= 2 ==> r is Some && b == a
            &&& n >= 2 && !reverse ==> model::agent_in_use(r->0, default) == offered[if k + 1 < n {
                k + 1
            } else {
                0
            }]
            &&& n >= 2 && reverse ==> model::agent_in_use(r->0, default) == offered[if k > 0 {
                k - 1
            } else {
                n - 1
            }]
        }),
{
    let offered = crate::picker::agent_names(names, default is Some);
    let n = offered.len() as int;
    if n >= 2 {
        crate::laws::lemma_place(offered, k, 0);
        vstd::arithmetic::div_mod::lemma_mod_self_0(n);
        if k + 1 < n {
            vstd::arithmetic::div_mod::lemma_small_mod((k + 1) as nat, n as nat);
        }
        vstd::arithmetic::div_mod::lemma_small_mod((n - 1) as nat, n as nat);
        if k > 0 {
            vstd::arithmetic::div_mod::lemma_small_mod((k - 1) as nat, n as nat);
            vstd::arithmetic::div_mod::lemma_mod_add_multiples_vanish(k - 1, n);
        }
        crate::laws::law_chosen_agent_is_in_use(
            choices::next_agent(offered, offered[k], reverse),
            default,
            r->0,
        );
    }
}

// ---------------------------------------------------------------------------
// Sessions
// ---------------------------------------------------------------------------

/// At the start nothing runs, nothing waits and nothing is shown, under the
/// theme and the agent that are configured.
pub proof fn law_a_fresh_start(settings: runs::Settings, selection: Selection, r: App)
    requires
        runs::opened(settings, selection, r),
    ensures
        !r.busy && !r.quit && !r.help,
        r.entries@.len() == 0 && r.timeline@.len() == 0 && r.activities@.len() == 0,
        r.input.text@.len() == 0 && r.queued_inputs@.len() == 0 && r.queue_blocked is None,
        r.approval is None && r.picker is None && !r.workflow_complete && r.workflow_mode is None,
        r.theme == settings.theme,
        selection.agent is Some ==> r.selection.agent == selection.agent,
        selection.agent is None ==> r.selection.agent == settings.default_agent,
        r.selection.model == selection.model,
        r.scroll == 0,
{
    assert(r.spine().entries.len() == 0);
    assert(r.spine().timeline.len() == 0);
    assert(r.spine().nodes.len() == 0);
    assert(r.spine().scroll == r.scroll);
}

/// A new session shows nothing of the one before, and nothing of it waits or
/// can be called back. The selection and the theme stay.
pub proof fn law_new_sessions_are_empty(a: App, session: Seq<char>, no_spend: Seq<char>, b: App)
    requires
        choices::session_reset(a, session, no_spend, b),
    ensures
        b.entries@.len() == 0 && b.timeline@.len() == 0 && b.activities@.len() == 0,
        b.input.text@.len() == 0 && b.input_history@.len() == 0 && b.history_index == 0,
        b.queued_inputs@.len() == 0 && b.queue_blocked is None,
        b.spend.label@ == no_spend && b.context_tokens == 0,
        b.selection == a.selection && b.theme == a.theme,
        b.workflow_mode is None && !b.workflow_complete,
        a.history_generation < u64::MAX ==> b.history_generation != a.history_generation,
        crate::result_laws::shown_in(session, b.status@),
{
    assert(b.spine().entries.len() == 0);
    assert(b.spine().timeline.len() == 0);
    assert(b.spine().nodes.len() == 0);
    let n = "Session "@.len() as int;
    assert(b.status@.subrange(n, n + session.len()) =~= session);
}

/// A reloaded configuration shows its theme and takes back what was chosen by
/// hand. The queue is kept, and nothing blocks it.
pub proof fn law_reloading_takes_choices_back(a: App, theme: model::Theme, b: App)
    requires
        choices::config_reloaded(a, theme, b),
    ensures
        b.theme == theme,
        b.selection.model is None && b.selection.agent is None && b.selection.effort is None,
        b.mode is None && b.workflow_mode is None && !b.workflow_complete,
        b.queue_blocked is None && b.queued_inputs == a.queued_inputs,
        b.spine().entries.len() == a.spine().entries.len() + 1,
        b.busy == a.busy && b.input == a.input,
{
}

/// A stored session is taken up with its cost and its context. No call of a
/// session without records is left running, and neither is what was recovered
/// as never ended.
pub proof fn law_stored_sessions_are_taken_up(
    a: App,
    session: Seq<char>,
    spend: model::Spend,
    context_tokens: u64,
    events: Seq<model::DisplayEvent>,
    recovered: Seq<Seq<char>>,
    b: App,
    i: int,
)
    requires
        runs::session_replayed(a, session, spend, context_tokens, events, recovered, b),
        0 <= i < b.spine().nodes.len(),
    ensures
        b.spend == spend && b.context_tokens == context_tokens,
        text::begins(b.spine().nodes[i].start.id, "legacy:"@) ==> b.spine().nodes[i].status is Some,
        recovered.contains(b.spine().nodes[i].start.id) ==> b.spine().nodes[i].status is Some,
        ({
            let before = runs::replayed(
                a.spine(),
                events,
                runs::predates_records(events),
                events.len() as int,
            ).nodes;
            let id = before[i].start.id;
            let now = b.spine().nodes[i];
            &&& before.len() == b.spine().nodes.len() && now.start == before[i].start
            &&& before[i].status is Some ==> now == before[i]
            &&& before[i].status is None && text::begins(id, "legacy:"@) ==> now.status == Some(
                model::ActivityStatus::Success,
            )
            &&& before[i].status is None && !text::begins(id, "legacy:"@) && recovered.contains(id)
                ==> now.status == Some(model::ActivityStatus::Cancelled)
            &&& before[i].status is None && !text::begins(id, "legacy:"@) && !recovered.contains(id)
                ==> now.status is None
        }),
        b.selection == a.selection && b.busy == a.busy && b.input == a.input,
        crate::result_laws::shown_in(session, b.status@),
{
    let n = "Session "@.len() as int;
    assert(b.status@.subrange(n, n + session.len()) =~= session);
}

/// What is stored is shown in the order in which it happened: taking up more
/// events only goes on from where the earlier ones led.
pub proof fn law_sessions_are_replayed_in_order(
    s: Spine,
    events: Seq<model::DisplayEvent>,
    legacy: bool,
    n: int,
)
    requires
        0 <= n < events.len(),
    ensures
        ({
            let before = runs::replayed(s, events, legacy, n);
            let after = runs::replayed(s, events, legacy, n + 1);
            match events[n] {
                model::DisplayEvent::Message { context, message } => after == before.told(
                    context@,
                    message@,
                    legacy,
                ),
                model::DisplayEvent::Activity(e) => after == before.handled(e@),
            }
        }),
        runs::replayed(s, events, legacy, 0) == s,
{
}

// ---------------------------------------------------------------------------
// Launching
// ---------------------------------------------------------------------------

/// In workflow mode an input runs the workflow, otherwise it is a turn of the
/// conversation; either way it runs on what was typed.
pub proof fn law_inputs_are_launched(a: App, input: String, r: Launch)
    requires
        runs::launch_of(a, input, r),
    ensures
        a.workflow_mode is None ==> r == (Launch::Turn { text: input }),
        a.workflow_mode is Some ==> r == (Launch::Workflow { name: a.workflow_mode->0, input }),
{
}

/// A workflow is launched by its name on its input, unless a run is in flight.
pub proof fn law_workflows_are_launched(
    a: App,
    name: Seq<char>,
    input: String,
    r: Result<Launch, String>,
)
    requires
        runs::workflow_launch(a, name, input, r),
    ensures
        r is Err <==> a.busy,
        !a.busy ==> (r matches Ok(Launch::Workflow { name: n, input: i }) && n@ == name && i == input),
{
}

/// What was launched from the queue is in flight, the status says how many
/// inputs wait, and nothing blocks the queue.
pub proof fn law_queued_runs_are_in_flight(a: App, launch: Launch, b: App)
    requires
        runs::queued_in_flight(a, launch, b),
    ensures
        b.busy,
        b.queue_blocked is None,
        b.queued_inputs == a.queued_inputs,
        crate::result_laws::shown_in(
            text::decimal(a.queued_inputs@.len()) + " message(s) queued"@,
            b.status@,
        ),
{
    let d = text::decimal(a.queued_inputs@.len());
    let part = d + " message(s) queued"@;
    let n = "Running | "@.len() as int;
    reveal_strlit(" message(s) queued");
    reveal_strlit(" message(s) queued | Ctrl+C to cancel");
    reveal_strlit(" | Ctrl+C to cancel");
    assert(" message(s) queued | Ctrl+C to cancel"@ =~= " message(s) queued"@
        + " | Ctrl+C to cancel"@);
    assert(b.status@.subrange(n, n + part.len()) =~= part);
}

/// A run that is given up is not in flight any more, and waits for no answer.
pub proof fn law_given_up_runs_are_over(a: App, b: App, r: bool)
    requires
        runs::given_up(a, b, r),
    ensures
        !b.busy,
        r == a.busy,
        a.busy ==> b.approval is None,
        b.queued_inputs == a.queued_inputs && b.entries == a.entries && b.input == a.input,
{
}

// ---------------------------------------------------------------------------
// What events leave alone
// ---------------------------------------------------------------------------

/// What the engine says never touches what the user is typing, what waits, or
/// what can be called back.
pub proof fn law_events_leave_the_user_alone(a: App, event: UiEvent, b: App)
    requires
        crate::events::event_effect(a, event, b),
    ensures
        b.input == a.input,
        b.input_history == a.input_history && b.history_index == a.history_index,
        b.queued_inputs == a.queued_inputs && b.queue_blocked == a.queue_blocked,
        b.selection == a.selection && b.theme == a.theme && b.busy == a.busy && b.quit == a.quit,
        b.picker == a.picker && b.help == a.help,
        !(event is Approval) ==> b.approval == a.approval,
{
}

/// Every event has its place: text goes to the entry of its context, messages
/// and activities to the transcript, and the model that answers to the header.
pub proof fn law_events_have_their_place(a: App, event: UiEvent, b: App)
    requires
        crate::events::event_effect(a, event, b),
    ensures
        event matches UiEvent::Delta { context, text } ==> b.spine() == a.spine().streamed(
            context@,
            text@,
        ) && b.status == a.status,
        event matches UiEvent::Message { context, message } ==> b.spine() == a.spine().told(
            context@,
            message@,
            false,
        ) && b.status == a.status,
        event matches UiEvent::Activity(e) ==> b.spine() == a.spine().handled(e@) && b.status
            == a.status,
        event matches UiEvent::Model { context, provider, model, effort } ==> {
            &&& context@ == "main"@ ==> b.model_label@ == provider@ + ":"@ + model@
            &&& context@ == "main"@ && effort is Some ==> b.effort_label@ == effort->0@
            &&& context@ != "main"@ ==> b.model_label == a.model_label && b.status == a.status
            &&& b.spine() == a.spine()
        },
        event matches UiEvent::Spend(spend) ==> b.spend == spend,
        !(event is Spend) ==> b.spend == a.spend,
        !(event is Context) ==> b.context_tokens == a.context_tokens,
{
}

/// The rows of a dialog that are loaded later leave the selection on the row
/// that it was on, if that still matches.
pub proof fn law_loading_keeps_the_selection(
    a: Picker,
    results: Seq<crate::picker::CatalogResult>,
    b: Picker,
    r: bool,
    k: int,
)
    requires
        crate::picker::polled(a, results, b, r),
        r,
        a.wf(),
        a.matches@.len() > 0,
        0 <= k < b.matches@.len(),
        b.choices@[b.matches@[k] as int].reference@ == a.choices@[a.matches@[a.selected as int] as int].reference@,
    ensures
        b.choices@[b.matches@[b.selected as int] as int].reference@
            == a.choices@[a.matches@[a.selected as int] as int].reference@,
        b.query == a.query && b.kind == a.kind,
        results.len() <= a.pending ==> b.pending == a.pending - results.len(),
{
    let c = crate::picker::choices_view(b.choices@);
    let reference = a.choices@[a.matches@[a.selected as int] as int].reference@;
    let i = b.matches@[k] as int;
    assert(c.len() == b.choices@.len());
    assert(b.matches@[k] < c.len());
    assert(c[i] == b.choices@[i]@);
    crate::picker_laws::law_kept_rows_stay_selected(c, b.matches@, reference, k);
    let row = b.selected as int;
    assert(b.matches@[row] < c.len());
    assert(c[b.matches@[row] as int] == b.choices@[b.matches@[row] as int]@);
}

/// Keys that are let go do nothing, and what lies on top keeps keys from all
/// that is below it.
pub proof fn law_keys_go_to_the_top_pane(
    a: App,
    key: model::KeyEvent,
    b: App,
    r: Result<keys::KeyAction, String>,
)
    requires
        keys::key_handled(a, key, b, r),
    ensures
        key.release ==> b == a && r == Ok::<keys::KeyAction, String>(keys::KeyAction::Stay),
        !key.release && a.approval is Some ==> r is Ok && keys::approval_effect(
            a,
            key,
            b,
            r->Ok_0,
        ) && b == (App { approval: b.approval, overlay_scroll: b.overlay_scroll, ..a }),
        !key.release && a.approval is None && a.help ==> r is Ok && r->Ok_0 is Stay && b == (App {
            help: b.help,
            overlay_scroll: b.overlay_scroll,
            ..a
        }),
        a.approval is None && !a.help && a.workflow_complete ==> b.input == a.input && b.entries
            == a.entries && b.picker == a.picker,
        a.approval is None && !a.help && !a.workflow_complete && a.picker is Some ==> b.input
            == a.input && b.entries == a.entries && b.scroll == a.scroll,
        !key.release && a.approval is None && !a.help && !a.workflow_complete && a.picker is None
            ==> r is Ok && keys::main_effect(a, key, b, r->Ok_0),
        r matches Ok(keys::KeyAction::Reply { .. }) ==> a.approval is Some,
        r matches Ok(keys::KeyAction::Pick { .. }) ==> a.picker is Some && b.picker is None,
{
}

/// `/help` opens the help at its top, also during a run.
pub proof fn law_help_is_asked_for(a: App, text: Seq<char>, b: App, r: Result<CommandAction, String>)
    requires
        commands::command_effect(a, text, b, r),
        commands::head_of(text) == "/help"@,
    ensures
        r is Ok,
        b.help && b.overlay_scroll == 0,
        b.busy == a.busy && b.entries == a.entries && b.input == a.input && b.quit == a.quit,
{
    reveal_strlit("/help");
    reveal_strlit("/quit");
    reveal_strlit(":q");
    assert("/help"@[1] == 'h' && "/quit"@[1] == 'q');
    assert(":q"@.len() == 2 && "/help"@.len() == 5);
}

/// A server that there is can be switched by its name, and restarted while no
/// run is in flight. The transcript notes it.
pub proof fn law_servers_answer_to_their_name(
    a: App,
    rest: Seq<char>,
    servers: Seq<McpServer>,
    b: App,
    r: Result<McpAction, String>,
    k: int,
)
    requires
        commands::mcp_effect(a, rest, servers, b, r),
        rest.len() > 0,
        !text::begins(rest, "add "@),
        commands::head_of(rest) != "activate"@,
        commands::head_of(rest) != "deactivate"@,
        0 <= k < servers.len(),
        servers[k].name@ == commands::head_of(rest),
    ensures
        commands::rest_of(rest) == "on"@ ==> (r matches Ok(McpAction::Switch(w)) && w.name@
            == servers[k].name@ && w.enabled),
        commands::rest_of(rest) == "off"@ ==> (r matches Ok(McpAction::Switch(w)) && w.name@
            == servers[k].name@ && !w.enabled),
        commands::rest_of(rest) == "restart"@ && !a.busy ==> (r matches Ok(McpAction::Restart(n))
            && n@ == servers[k].name@),
        commands::rest_of(rest) == "restart"@ && a.busy ==> r is Err && b == a,
        r is Ok ==> b.spine().entries.len() == a.spine().entries.len() + 1
            && b.spine().entries.last().text == "MCP "@ + servers[k].name@ + ": "@
            + commands::rest_of(rest),
{
    law_switching_words();
    reveal_strlit("restart");
    reveal_strlit("on");
    reveal_strlit("off");
    assert("restart"@.len() == 7 && "on"@.len() == 2 && "off"@.len() == 3);
}

} // verus!
