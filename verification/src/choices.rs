//! Choosing a theme, a model, an effort, an agent or a mode. The engine says
//! whether a selection resolves; these functions make the candidate and take
//! in the answer.
use crate::app::App;
use crate::commands;
use crate::commands::split_head;
use crate::events;
use crate::input::Input;
use crate::json;
use crate::json::{read_json, Json};
use crate::keys;
use crate::model;
use crate::model::{as_ref_str, copy_opt, used_agent, Selection, Spend, Theme};
use crate::picker;
use crate::picker::{offered_agents, McpServer, ModelAlias, ModelRef, Picker, Preset};
use crate::runs;
use crate::runs::ModelInfo;
use crate::spine;
use crate::text;
use crate::text::{chars_of, join_text, same, starts_with_text, string_of, text2, text3};
use vstd::prelude::*;
use vstd::string::*;

verus! {

/// What a model is added as.
#[derive(Debug)]
pub enum Definition {
    /// A definition of its own.
    Object(Json),
    /// Another name of a reference.
    Reference(String),
}

/// What `/model` asks of the engine.
#[derive(Debug)]
pub enum ModelAction {
    /// The dialog is to be opened.
    Browse,
    /// A model is to be added to the configuration.
    Add { name: String, definition: Definition },
    /// The engine is to resolve the selection.
    Select { reference: String, selection: Selection },
}

/// The reasoning of a model, as it is configured.
#[derive(Debug)]
pub struct Reasoning {
    pub effort: Option<String>,
    pub supported: Vec<String>,
}

/// The model that an agent's mode asks for.
#[derive(Debug)]
pub struct AgentMode {
    pub name: String,
    pub model: Option<String>,
}

/// The models that an agent asks for.
#[derive(Debug)]
pub struct AgentModels {
    pub model: Option<String>,
    pub modes: Vec<AgentMode>,
}

/// A selection that an agent is switched to, under the name that was given.
#[derive(Debug)]
pub struct AgentSwitch {
    pub selection: Selection,
    pub name: String,
    pub mode: String,
}

/// A mode of the configuration.
#[derive(Debug)]
pub struct ModeInfo {
    pub name: String,
    pub agent: Option<String>,
    pub agent_mode: Option<String>,
    pub workflow: Option<String>,
}

/// What `/mode` asks of the engine.
#[derive(Debug)]
pub enum ModeAction {
    Done,
    Agent(AgentSwitch),
    Mode { selection: Selection, workflow: Option<String>, name: String },
}

/// The preset of that name, from the `k`-th on.
pub open spec fn preset_named(presets: Seq<Preset>, name: Seq<char>, k: int) -> Option<Theme>
    decreases presets.len() - k,
{
    if k < 0 || k >= presets.len() {
        None
    } else if presets[k].name@ == name {
        Some(presets[k].theme)
    } else {
        preset_named(presets, name, k + 1)
    }
}

/// The model of the first mode of that name, from the `k`-th on.
pub open spec fn mode_model(modes: Seq<AgentMode>, name: Seq<char>, k: int) -> Option<String>
    decreases modes.len() - k,
{
    if k < 0 || k >= modes.len() {
        None
    } else if modes[k].name@ == name {
        modes[k].model
    } else {
        mode_model(modes, name, k + 1)
    }
}

/// The reference under which the current model was chosen: the user's, else
/// that of the agent's mode, else that of the agent.
pub open spec fn effective_reference(s: Selection, agent: Option<AgentModels>) -> Option<String> {
    match s.model {
        Some(model) => Some(model),
        None => match agent {
            Some(agent) => {
                let of_mode = match s.agent_mode {
                    Some(mode) => mode_model(agent.modes@, mode@, 0),
                    None => None,
                };
                match of_mode {
                    Some(model) => Some(model),
                    None => agent.model,
                }
            },
            None => None,
        },
    }
}

/// The selection of an agent by its listed name. The name `default` stands for
/// no agent where none is the default.
pub open spec fn agent_selection(reference: Seq<char>, has_default: bool, s: Selection) -> bool {
    &&& s == (Selection { agent: s.agent, agent_mode: None, model: None, effort: None })
    &&& model::opt_text(s.agent) == if reference != "default"@ || has_default {
        Some(reference)
    } else {
        None
    }
}

/// The agent that follows, or precedes, the one in use in a list that wraps
/// around.
pub open spec fn next_agent(offered: Seq<Seq<char>>, now: Seq<char>, reverse: bool) -> Seq<char> {
    let at = match spine::place(offered, now, 0) {
        Some(k) => k,
        None => 0,
    };
    offered[if reverse {
        (at + offered.len() - 1) % (offered.len() as int)
    } else {
        (at + 1) % (offered.len() as int)
    }]
}

/// The mode of that name, from the `k`-th on.
pub open spec fn mode_named(modes: Seq<ModeInfo>, name: Seq<char>, k: int) -> Option<ModeInfo>
    decreases modes.len() - k,
{
    if k < 0 || k >= modes.len() {
        None
    } else if modes[k].name@ == name {
        Some(modes[k])
    } else {
        mode_named(modes, name, k + 1)
    }
}

/// The names of the modes.
pub open spec fn mode_names(modes: Seq<ModeInfo>) -> Seq<Seq<char>> {
    modes.map_values(|m: ModeInfo| m.name@)
}

/// The switch that `/agent` with a name asks for.
pub open spec fn agent_switch(rest: Seq<char>, w: AgentSwitch) -> bool {
    let name = commands::head_of(rest);
    let mode = commands::rest_of(rest);
    &&& w.name@ == name
    &&& w.mode@ == mode
    &&& w.selection == (Selection {
        agent: w.selection.agent,
        agent_mode: w.selection.agent_mode,
        model: None,
        effort: None,
    })
    &&& model::opt_text(w.selection.agent) == if name != "default"@ {
        Some(name)
    } else {
        None
    }
    &&& model::opt_text(w.selection.agent_mode) == if mode.len() > 0 {
        Some(mode)
    } else {
        None
    }
}

impl App {
    /// Opens the dialog of the themes, or takes one by its name.
    pub fn theme_command(&mut self, rest: &str, configured: &Theme, presets: &Vec<Preset>) -> (r:
        Result<(), String>)
        requires
            old(self).wf(),
        ensures
            final(self).wf(),
            theme_effect(*old(self), rest@, *configured, presets@, *final(self), r),
    {
        if rest.is_empty() {
            self.picker = Some(Picker::themes(&self.theme, configured, presets));
            return Ok(());
        }
        if same(rest, "configured") {
            self.theme = configured.duplicate();
        } else {
            let mut i: usize = 0;
            while i < presets.len() && !same(presets[i].name.as_str(), rest)
                invariant
                    i <= presets@.len(),
                    preset_named(presets@, rest@, 0) == preset_named(presets@, rest@, i as int),
                decreases presets@.len() - i,
            {
                i = i + 1;
            }
            if i >= presets.len() {
                return Err("Unknown theme; use /theme to browse".to_owned());
            }
            let mut theme = presets[i].theme.duplicate();
            theme.ascii = self.theme.ascii;
            theme.syntax_highlighting = self.theme.syntax_highlighting;
            self.theme = theme;
        }
        self.status = text2("Theme: ", rest);
        Ok(())
    }

    /// What `/model` asks for. A definition that opens with a brace is JSON.
    pub fn model_command(&self, rest: &str) -> (r: Result<ModelAction, String>)
        ensures
            model_request(*self, rest@, r),
    {
        proof {
            reveal_strlit("add ");
        }
        if rest.is_empty() {
            return Ok(ModelAction::Browse);
        }
        if starts_with_text(rest, "add ") {
            let v = chars_of(rest);
            let add = string_of(&v, 4, v.len());
            assert(add@ =~= rest@.skip(4));
            let (name, given) = split_head(add.as_str());
            if !starts_with_text(given.as_str(), "{") {
                return Ok(ModelAction::Add { name, definition: Definition::Reference(given) });
            }
            return match read_json(given.as_str()) {
                Ok(value) => Ok(ModelAction::Add { name, definition: Definition::Object(value) }),
                Err(e) => Err(e),
            };
        }
        match self.select_model(rest) {
            Ok(selection) => Ok(ModelAction::Select { reference: rest.to_owned(), selection }),
            Err(e) => Err(e),
        }
    }

    /// The selection with another model, for the engine to resolve; refused
    /// while a run is in flight.
    pub fn select_model(&self, reference: &str) -> (r: Result<Selection, String>)
        ensures
            match r {
                Ok(s) => !self.busy && model_selection(self.selection, reference@, s),
                Err(e) => self.busy && e@ == "Wait for the active run or cancel it with Ctrl+C"@,
            },
    {
        match self.require_idle() {
            Ok(_) => {},
            Err(e) => {
                return Err(e);
            },
        }
        let mut selection = self.selection.duplicate();
        selection.model = Some(reference.to_owned());
        selection.effort = None;
        Ok(selection)
    }

    /// The engine resolved the selection of a model.
    pub fn model_selected(&mut self, reference: &str, selection: Selection)
        requires
            old(self).wf(),
        ensures
            final(self).wf(),
            commands::noted(
                App { selection, ..*old(self) },
                *final(self),
                "Switched model to "@ + reference@,
            ),
    {
        self.selection = selection;
        let text = text2("Switched model to ", reference);
        self.note(text.as_str());
    }

    /// A model was added to the configuration; it is the selected one.
    pub fn model_added(&mut self, name: &str)
        requires
            old(self).wf(),
        ensures
            final(self).wf(),
            model_in_place(*old(self), name@, *final(self)),
    {
        self.selection.model = Some(name.to_owned());
        self.selection.effort = None;
        let text = text2("Added and selected model ", name);
        self.note(text.as_str());
    }

    /// Opens the dialog of the models; `requests` catalogs are being loaded.
    pub fn browse_models(
        &mut self,
        aliases: &Vec<ModelAlias>,
        default: &ModelRef,
        current: &ModelRef,
        agent: &Option<AgentModels>,
        requests: usize,
    )
        requires
            old(self).wf(),
        ensures
            final(self).wf(),
            *final(self) == (App { picker: final(self).picker, ..*old(self) }),
            final(self).picker is Some,
            final(self).picker->0.pending == requests,
            picker::models_dialog(
                Picker { pending: 0, ..final(self).picker->0 },
                aliases@,
                *default,
                *current,
                model::opt_text(effective_reference(old(self).selection, *agent)),
            ),
    {
        let reference = self.model_reference(agent);
        let mut picker = Picker::models(aliases, default, current, as_ref_str(&reference));
        let ghost fresh = picker;
        picker.load(requests);
        assert(fresh == (Picker { pending: 0, ..picker }));
        self.picker = Some(picker);
    }

    /// The reference under which the current model was chosen.
    fn model_reference(&self, agent: &Option<AgentModels>) -> (r: Option<String>)
        ensures
            r == effective_reference(self.selection, *agent),
    {
        if self.selection.model.is_some() {
            return copy_opt(&self.selection.model);
        }
        match agent {
            None => None,
            Some(agent) => {
                match &self.selection.agent_mode {
                    Some(mode) => {
                        let mut i: usize = 0;
                        while i < agent.modes.len() && !same(
                            agent.modes[i].name.as_str(),
                            mode.as_str(),
                        )
                            invariant
                                i <= agent.modes@.len(),
                                mode_model(agent.modes@, mode@, 0) == mode_model(
                                    agent.modes@,
                                    mode@,
                                    i as int,
                                ),
                            decreases agent.modes@.len() - i,
                        {
                            i = i + 1;
                        }
                        if i < agent.modes.len() && agent.modes[i].model.is_some() {
                            copy_opt(&agent.modes[i].model)
                        } else {
                            copy_opt(&agent.model)
                        }
                    },
                    None => copy_opt(&agent.model),
                }
            },
        }
    }

    /// Shows the reasoning effort, or gives the one for the engine to set.
    /// `scope` is what the engine resolved the selection to; `default` needs
    /// no answer.
    pub fn effort_command(
        &mut self,
        rest: &str,
        scope: Result<Option<Reasoning>, String>,
    ) -> (r: Result<Option<String>, String>)
        requires
            old(self).wf(),
        ensures
            final(self).wf(),
            effort_effect(*old(self), rest@, scope, *final(self), r),
    {
        if same(rest, "default") {
            self.selection.effort = None;
            return Ok(None);
        }
        let reasoning = match scope {
            Err(e) => {
                return Err(e);
            },
            Ok(None) => {
                return Err(
                    "This model has no reasoning.supported_efforts configured".to_owned(),
                );
            },
            Ok(Some(reasoning)) => reasoning,
        };
        if rest.is_empty() {
            let effort = match &reasoning.effort {
                Some(effort) => effort.clone(),
                None => "provider default".to_owned(),
            };
            let supported = join_text(&reasoning.supported, ", ");
            let text = text2(
                text3("Effort: ", effort.as_str(), "\nSupported: ").as_str(),
                supported.as_str(),
            );
            self.note(text.as_str());
            return Ok(None);
        }
        Ok(Some(rest.to_owned()))
    }

    /// The engine accepted an effort.
    pub fn effort_set(&mut self, effort: String)
        requires
            old(self).wf(),
        ensures
            final(self).wf(),
            effort_in_place(*old(self), effort, *final(self)),
    {
        let text = text2("Reasoning effort: ", effort.as_str());
        self.selection.effort = Some(effort);
        self.note(text.as_str());
    }

    /// Opens the dialog of the agents, or gives the switch to one for the
    /// engine to resolve.
    pub fn agent_command(&mut self, rest: &str, names: &Vec<String>, default: Option<&str>) -> (r:
        Option<AgentSwitch>)
        requires
            old(self).wf(),
        ensures
            final(self).wf(),
            agent_effect(
                *old(self),
                rest@,
                text::texts(names@),
                model::opt_view(default),
                *final(self),
                r,
            ),
    {
        if rest.is_empty() {
            self.picker = Some(Picker::agents(names, default));
            return None;
        }
        let (name, mode) = split_head(rest);
        let agent = if same(name.as_str(), "default") {
            None
        } else {
            Some(name.clone())
        };
        let agent_mode = if mode.as_str().is_empty() {
            None
        } else {
            Some(mode.clone())
        };
        let selection = Selection { agent, agent_mode, model: None, effort: None };
        Some(AgentSwitch { selection, name, mode })
    }

    /// The engine resolved the switch to an agent. Workflow mode is left, and
    /// nothing blocks the queue.
    pub fn agent_switched(&mut self, switch: AgentSwitch)
        requires
            old(self).wf(),
        ensures
            final(self).wf(),
            agent_in_place(*old(self), switch, *final(self)),
    {
        self.selection = switch.selection;
        self.mode = None;
        self.workflow_mode = None;
        self.queue_blocked = None;
        let mut text = text2("Switched agent to ", switch.name.as_str());
        if !switch.mode.as_str().is_empty() {
            text = text2(text3(text.as_str(), " (", switch.mode.as_str()).as_str(), ")");
        }
        self.note(text.as_str());
    }

    /// Lists the modes, or gives the switch to an agent or to a mode for the
    /// engine to resolve. An agent's name is tried first.
    pub fn mode_command(
        &mut self,
        rest: &str,
        names: &Vec<String>,
        default: Option<&str>,
        modes: &Vec<ModeInfo>,
    ) -> (r: Result<ModeAction, String>)
        requires
            old(self).wf(),
        ensures
            final(self).wf(),
            mode_effect(
                *old(self),
                rest@,
                text::texts(names@),
                model::opt_view(default),
                modes@,
                *final(self),
                r,
            ),
    {
        let mut is_agent = same(rest, "default");
        let mut k: usize = 0;
        while k < names.len()
            invariant
                k <= names@.len(),
                is_agent == (rest@ == "default"@ || exists|j: int|
                    0 <= j < k && (#[trigger] text::texts(names@)[j]) == rest@),
            decreases names@.len() - k,
        {
            assert(text::texts(names@)[k as int] == names@[k as int]@);
            if same(names[k].as_str(), rest) {
                is_agent = true;
            }
            k = k + 1;
        }
        if is_agent {
            return match self.agent_command(rest, names, default) {
                Some(switch) => Ok(ModeAction::Agent(switch)),
                None => Ok(ModeAction::Done),
            };
        }
        if rest.is_empty() {
            let mut all: Vec<String> = Vec::new();
            let mut i: usize = 0;
            while i < modes.len()
                invariant
                    i <= modes@.len(),
                    text::texts(all@) == mode_names(modes@).take(i as int),
                decreases modes@.len() - i,
            {
                proof {
                    text::lemma_texts_push(all@, modes@[i as int].name);
                    assert(mode_names(modes@).take(i + 1) =~= mode_names(modes@).take(
                        i as int,
                    ).push(modes@[i as int].name@));
                }
                all.push(modes[i].name.clone());
                i = i + 1;
            }
            assert(mode_names(modes@).take(i as int) =~= mode_names(modes@));
            let text = text2("Modes: ", join_text(&all, ", ").as_str());
            self.note(text.as_str());
            return Ok(ModeAction::Done);
        }
        let mut i: usize = 0;
        while i < modes.len() && !same(modes[i].name.as_str(), rest)
            invariant
                i <= modes@.len(),
                mode_named(modes@, rest@, 0) == mode_named(modes@, rest@, i as int),
            decreases modes@.len() - i,
        {
            i = i + 1;
        }
        if i >= modes.len() {
            return Err("Unknown mode".to_owned());
        }
        let selection = Selection {
            agent: copy_opt(&modes[i].agent),
            agent_mode: copy_opt(&modes[i].agent_mode),
            model: None,
            effort: None,
        };
        Ok(
            ModeAction::Mode {
                selection,
                workflow: copy_opt(&modes[i].workflow),
                name: rest.to_owned(),
            },
        )
    }

    /// The engine resolved the selection of a mode.
    pub fn mode_switched(&mut self, selection: Selection, workflow: Option<String>, name: String)
        requires
            old(self).wf(),
        ensures
            final(self).wf(),
            mode_in_place(*old(self), selection, workflow, name, *final(self)),
    {
        self.selection = selection;
        self.workflow_mode = workflow;
        self.mode = Some(name);
    }

    /// The selection of the next, or the previous, agent for the engine to
    /// resolve. With fewer than two agents there is none, and the status line
    /// says so.
    pub fn cycle_agent(&mut self, names: &Vec<String>, default: Option<&str>, reverse: bool) -> (r:
        Option<Selection>)
        requires
            old(self).wf(),
        ensures
            final(self).wf(),
            agent_asked(
                *old(self),
                text::texts(names@),
                model::opt_view(default),
                reverse,
                *final(self),
                r,
            ),
    {
        let offered = offered_agents(names, default.is_some());
        let ghost all = text::texts(offered@);
        assert(all.len() == offered@.len());
        let n: usize = offered.len();
        if n < 2 {
            self.status = "Only one agent is configured".to_owned();
            return None;
        }
        let now = used_agent(&self.selection, default);
        let mut at: usize = 0;
        while at < n && !same(offered[at].as_str(), now.as_str())
            invariant
                at <= n,
                n == offered@.len(),
                all == text::texts(offered@),
                spine::place(all, now@, 0) == spine::place(all, now@, at as int),
            decreases n - at,
        {
            assert(all[at as int] == offered@[at as int]@);
            at = at + 1;
        }
        if at < n {
            assert(all[at as int] == offered@[at as int]@);
        }
        let current: usize = if at < n {
            at
        } else {
            0
        };
        let next: usize = if reverse {
            if current == 0 {
                n - 1
            } else {
                current - 1
            }
        } else if current == n - 1 {
            0
        } else {
            current + 1
        };
        proof {
            let k = current as int;
            let m = n as int;
            if reverse {
                if k == 0 {
                    assert((k + m - 1) % m == m - 1) by (nonlinear_arith)
                        requires
                            k == 0,
                            m >= 2,
                    ;
                } else {
                    assert((k + m - 1) % m == k - 1) by (nonlinear_arith)
                        requires
                            0 < k < m,
                            m >= 2,
                    ;
                }
            } else if k == m - 1 {
                assert((k + 1) % m == 0) by (nonlinear_arith)
                    requires
                        k == m - 1,
                        m >= 2,
                ;
            } else {
                assert((k + 1) % m == k + 1) by (nonlinear_arith)
                    requires
                        0 <= k < m - 1,
                        m >= 2,
                ;
            }
            assert(all[next as int] == offered@[next as int]@);
        }
        Some(agent_candidate(offered[next].as_str(), default.is_some()))
    }

    /// The engine resolved the selection of the next agent.
    pub fn agent_cycled(&mut self, selection: Selection)
        requires
            old(self).wf(),
        ensures
            final(self).wf(),
            *final(self) == (App { selection, mode: None, ..*old(self) }),
    {
        self.selection = selection;
        self.mode = None;
    }

    /// A new session was opened. The view, the composer, the queue, the
    /// workflow and what was spent start afresh; settings are kept.
    pub fn reset_session(&mut self, session: &str, no_spend: &str)
        requires
            old(self).wf(),
        ensures
            final(self).wf(),
            session_reset(*old(self), session@, no_spend@, *final(self)),
    {
        self.status = text3("Session ", session, " | Ready");
        self.reset_view();
        self.input = Input::default();
        self.input_history.clear();
        self.spend = Spend { label: no_spend.to_owned(), unpriced_requests: 0 };
        self.context_tokens = 0;
        self.queued_inputs.clear();
        self.queue_blocked = None;
        self.workflow_complete = false;
        self.workflow_mode = None;
        self.last_workflow_input = None;
        proof {
            assert(self.input.text@ =~= Seq::<char>::empty());
            text::lemma_offset_ends(self.input.text@);
        }
    }

    /// The configuration was loaded again. Selections and the workflow are
    /// forgotten; the queue is kept but nothing blocks it.
    pub fn reloaded(&mut self, theme: Theme)
        requires
            old(self).wf(),
        ensures
            final(self).wf(),
            config_reloaded(*old(self), theme, *final(self)),
    {
        self.theme = theme;
        self.selection = Selection::default();
        self.mode = None;
        self.workflow_mode = None;
        self.workflow_complete = false;
        self.last_workflow_input = None;
        if self.queue_blocked.is_some() {
            self.queue_blocked = None;
            self.status = "Ready".to_owned();
        }
        self.note("Configuration reloaded; runtime overrides reset");
    }
}

/// Choosing a server in its dialog turns it on, unless it is listed as on.
pub fn mcp_toggled(reference: &str, servers: &Vec<McpServer>) -> (r: bool)
    ensures
        r == !(exists|k: int|
            0 <= k < servers@.len() && (#[trigger] servers@[k]).name@ == reference@
                && servers@[k].enabled),
{
    let mut k: usize = 0;
    while k < servers.len()
        invariant
            k <= servers@.len(),
            forall|j: int|
                0 <= j < k ==> !((#[trigger] servers@[j]).name@ == reference@
                    && servers@[j].enabled),
        decreases servers@.len() - k,
    {
        if servers[k].enabled && same(servers[k].name.as_str(), reference) {
            assert(servers@[k as int].name@ == reference@);
            return false;
        }
        k = k + 1;
    }
    true
}

/// The selection of an agent by its listed name.
pub fn agent_candidate(reference: &str, has_default: bool) -> (r: Selection)
    ensures
        agent_selection(reference@, has_default, r),
{
    let agent = if !same(reference, "default") || has_default {
        Some(reference.to_owned())
    } else {
        None
    };
    Selection { agent, agent_mode: None, model: None, effort: None }
}

/// The selection with another model and the model's own effort.
pub open spec fn model_selection(a: Selection, reference: Seq<char>, b: Selection) -> bool {
    &&& b == (Selection { model: b.model, effort: None, ..a })
    &&& model::opt_text(b.model) == Some(reference)
}

/// What `/effort` does.
pub open spec fn effort_effect(
    a: App,
    rest: Seq<char>,
    scope: Result<Option<Reasoning>, String>,
    b: App,
    r: Result<Option<String>, String>,
) -> bool {
    if rest == "default"@ {
        (r matches Ok(None)) && b == (App {
            selection: Selection { effort: None, ..a.selection },
            ..a
        })
    } else {
        match scope {
            Err(e) => b == a && r == Err::<Option<String>, String>(e),
            Ok(None) => b == a && r is Err && r->Err_0@
                == "This model has no reasoning.supported_efforts configured"@,
            Ok(Some(reasoning)) => if rest.len() == 0 {
                (r matches Ok(None)) && commands::noted(
                    a,
                    b,
                    "Effort: "@ + match reasoning.effort {
                        Some(e) => e@,
                        None => "provider default"@,
                    } + "\nSupported: "@ + text::joined(
                        text::texts(reasoning.supported@),
                        ", "@,
                    ),
                )
            } else {
                b == a && (r matches Ok(Some(e)) && e@ == rest)
            },
        }
    }
}

/// What `/agent` does.
pub open spec fn agent_effect(
    a: App,
    rest: Seq<char>,
    names: Seq<Seq<char>>,
    default: Option<Seq<char>>,
    b: App,
    r: Option<AgentSwitch>,
) -> bool {
    if rest.len() == 0 {
        &&& r is None
        &&& b == (App { picker: b.picker, ..a })
        &&& b.picker is Some && picker::agents_dialog(b.picker->0, names, default)
    } else {
        b == a && r is Some && agent_switch(rest, r->0)
    }
}

/// What `/mode` does.
pub open spec fn mode_effect(
    a: App,
    rest: Seq<char>,
    names: Seq<Seq<char>>,
    default: Option<Seq<char>>,
    modes: Seq<ModeInfo>,
    b: App,
    r: Result<ModeAction, String>,
) -> bool {
    if rest == "default"@ || names.contains(rest) {
        match r {
            Ok(ModeAction::Agent(w)) => agent_effect(a, rest, names, default, b, Some(w)),
            Ok(ModeAction::Done) => agent_effect(a, rest, names, default, b, None),
            _ => false,
        }
    } else if rest.len() == 0 {
        (r matches Ok(ModeAction::Done)) && commands::noted(
            a,
            b,
            "Modes: "@ + text::joined(mode_names(modes), ", "@),
        )
    } else {
        match mode_named(modes, rest, 0) {
            None => b == a && r is Err && r->Err_0@ == "Unknown mode"@,
            Some(mode) => b == a && (r matches Ok(ModeAction::Mode { selection, workflow, name })
                && selection == (Selection {
                agent: mode.agent,
                agent_mode: mode.agent_mode,
                model: None,
                effort: None,
            }) && workflow == mode.workflow && name@ == rest),
        }
    }
}

/// What the engine made of a chosen row: the selection that it resolved, and
/// what that selection now stands for.
#[derive(Debug)]
pub struct Resolved {
    pub selection: Selection,
    pub info: Result<ModelInfo, String>,
}

/// The labels follow what the engine resolved; an error is shown instead.
pub open spec fn refreshed(a: App, info: Result<ModelInfo, String>, b: App) -> bool {
    match info {
        Ok(info) => runs::labelled(a, info, b),
        Err(e) => a.same_aside(b) && b.spine() == a.spine().pushed("error"@, "main"@, e@, None),
    }
}

/// A row could not be chosen: the error is shown and the dialog is open again.
pub open spec fn pick_failed(a: App, picker: Picker, error: Seq<char>, status: Seq<char>, b: App) -> bool {
    &&& (App { picker: Some(picker), status: b.status, ..a }).same_aside(b)
    &&& b.spine() == a.spine().pushed("error"@, "main"@, error, None)
    &&& b.status@ == status
}

/// A model was chosen.
pub open spec fn model_picked(a: App, reference: Seq<char>, resolved: Resolved, b: App) -> bool {
    let c = App { selection: resolved.selection, status: b.status, ..a };
    let s = a.spine().pushed("status"@, "main"@, "Switched model to "@ + reference, None);
    &&& b.status@ == "Selected "@ + b.model_label@
    &&& match resolved.info {
        Ok(info) => {
            &&& runs::shows(b, info)
            &&& runs::with_labels(c, b).same_aside(b)
            &&& b.spine() == s
        },
        Err(e) => {
            &&& c.same_aside(b)
            &&& b.spine() == s.pushed("error"@, "main"@, e@, None)
        },
    }
}

/// An agent was chosen: workflow mode is left, and nothing blocks the queue.
pub open spec fn agent_picked(a: App, reference: Seq<char>, resolved: Resolved, b: App) -> bool {
    let c = App {
        selection: resolved.selection,
        mode: None,
        workflow_mode: None,
        workflow_complete: false,
        last_workflow_input: None,
        queue_blocked: None,
        status: b.status,
        ..a
    };
    let text = "Switched agent to "@ + reference;
    &&& b.status@ == "Selected agent "@ + reference
    &&& match resolved.info {
        Ok(info) => {
            &&& runs::shows(b, info)
            &&& runs::with_labels(c, b).same_aside(b)
            &&& b.spine() == a.spine().pushed("status"@, "main"@, text, None)
        },
        Err(e) => {
            &&& c.same_aside(b)
            &&& b.spine() == a.spine().pushed("error"@, "main"@, e@, None).pushed(
                "status"@,
                "main"@,
                text,
                None,
            )
        },
    }
}

impl App {
    /// Takes in what the engine resolved, or shows its error.
    pub fn take_refresh(&mut self, info: Result<ModelInfo, String>)
        requires
            old(self).wf(),
        ensures
            final(self).wf(),
            refreshed(*old(self), info, *final(self)),
    {
        match info {
            Ok(info) => {
                self.refresh_model(info);
            },
            Err(e) => {
                self.error(e.as_str());
            },
        }
    }

    /// A row could not be chosen.
    fn reopen(&mut self, picker: Picker, error: &str, status: String)
        requires
            old(self).wf(),
            picker.wf(),
        ensures
            final(self).wf(),
            pick_failed(*old(self), picker, error@, status@, *final(self)),
    {
        self.error(error);
        self.status = status;
        self.picker = Some(picker);
    }

    /// Takes in what came of a chosen model. A failure opens the dialog again.
    pub fn finish_model_pick(
        &mut self,
        picker: Picker,
        reference: &str,
        outcome: Result<Resolved, String>,
    )
        requires
            old(self).wf(),
            picker.wf(),
        ensures
            final(self).wf(),
            match outcome {
                Ok(resolved) => model_picked(*old(self), reference@, resolved, *final(self)),
                Err(e) => pick_failed(
                    *old(self),
                    picker,
                    e@,
                    "Model not selected: "@ + reference@,
                    *final(self),
                ),
            },
    {
        match outcome {
            Ok(resolved) => {
                self.model_selected(reference, resolved.selection);
                self.take_refresh(resolved.info);
                self.status = text2("Selected ", self.model_label.as_str());
            },
            Err(e) => {
                let status = text2("Model not selected: ", reference);
                self.reopen(picker, e.as_str(), status);
            },
        }
    }

    /// Takes in what came of a chosen agent. Workflow mode is left, and nothing
    /// blocks the queue. A failure opens the dialog again.
    pub fn finish_agent_pick(
        &mut self,
        picker: Picker,
        reference: &str,
        outcome: Result<Resolved, String>,
    )
        requires
            old(self).wf(),
            picker.wf(),
        ensures
            final(self).wf(),
            match outcome {
                Ok(resolved) => agent_picked(*old(self), reference@, resolved, *final(self)),
                Err(e) => pick_failed(
                    *old(self),
                    picker,
                    e@,
                    "Agent not selected: "@ + reference@,
                    *final(self),
                ),
            },
    {
        match outcome {
            Ok(resolved) => {
                self.selection = resolved.selection;
                self.mode = None;
                self.workflow_mode = None;
                self.workflow_complete = false;
                self.last_workflow_input = None;
                self.queue_blocked = None;
                self.take_refresh(resolved.info);
                let text = text2("Switched agent to ", reference);
                self.note(text.as_str());
                self.status = text2("Selected agent ", reference);
            },
            Err(e) => {
                let status = text2("Agent not selected: ", reference);
                self.reopen(picker, e.as_str(), status);
            },
        }
    }

    /// A server was switched from its dialog, which stays open and shows it.
    pub fn finish_mcp_pick(&mut self, picker: Picker, reference: &str, enabled: bool)
        requires
            old(self).wf(),
            picker.wf(),
        ensures
            final(self).wf(),
            server_switched(*old(self), picker, reference@, enabled, *final(self)),
    {
        let mut picker = picker;
        picker.set_enabled(reference, enabled);
        self.status = text2(
            text3("MCP ", reference, ": ").as_str(),
            if enabled {
                "on"
            } else {
                "off"
            },
        );
        self.picker = Some(picker);
    }
}

/// What `/theme` does.
pub open spec fn theme_effect(
    a: App,
    rest: Seq<char>,
    configured: Theme,
    presets: Seq<Preset>,
    b: App,
    r: Result<(), String>,
) -> bool {
    let chosen = if rest == "configured"@ {
        Some(configured)
    } else {
        match preset_named(presets, rest, 0) {
            Some(t) => Some(
                Theme {
                    ascii: a.theme.ascii,
                    syntax_highlighting: a.theme.syntax_highlighting,
                    ..t
                },
            ),
            None => None,
        }
    };
    if rest.len() == 0 {
        &&& r is Ok
        &&& b == (App { picker: b.picker, ..a })
        &&& b.picker is Some
        &&& picker::themes_dialog(b.picker->0, a.theme, configured, presets)
    } else {
        match chosen {
            Some(theme) => r is Ok && keys::said(
                App { theme, ..a },
                b,
                "Theme: "@ + rest,
            ),
            None => b == a && r is Err && r->Err_0@
                == "Unknown theme; use /theme to browse"@,
        }
    }
}

/// What `/model` asks for.
pub open spec fn model_request(a: App, rest: Seq<char>, r: Result<ModelAction, String>) -> bool {
    if rest.len() == 0 {
        r matches Ok(ModelAction::Browse)
    } else if text::begins(rest, "add "@) {
        let head = commands::head_of(rest.skip(4));
        let given = commands::rest_of(rest.skip(4));
        if text::begins(given, "{"@) {
            match json::parsed_json(given) {
                Some(t) => r matches Ok(
                    ModelAction::Add { name, definition: Definition::Object(j) },
                ) && name@ == head && j@ == t,
                None => r is Err && r->Err_0@ == json::json_fault(given),
            }
        } else {
            r matches Ok(ModelAction::Add { name, definition: Definition::Reference(d) })
                && name@ == head && d@ == given
        }
    } else if a.busy {
        r is Err && r->Err_0@ == "Wait for the active run or cancel it with Ctrl+C"@
    } else {
        r matches Ok(ModelAction::Select { reference, selection }) && reference@ == rest
            && model_selection(a.selection, rest, selection)
    }
}

/// A new session was opened: nothing of the one before is left.
pub open spec fn session_reset(a: App, session: Seq<char>, no_spend: Seq<char>, b: App) -> bool {
    &&& b.spine() == events::blank()
    &&& b.input.is(Seq::empty(), 0)
    &&& b.input_history@.len() == 0
    &&& b.spend.label@ == no_spend && b.spend.unpriced_requests == 0
    &&& b.queued_inputs@.len() == 0
    &&& b.status@ == "Session "@ + session + " | Ready"@
    &&& (App {
        history_index: 0,
        history_generation: spine::bump(a.history_generation),
        input: b.input,
        input_history: b.input_history,
        spend: b.spend,
        context_tokens: 0,
        queued_inputs: b.queued_inputs,
        queue_blocked: None,
        workflow_complete: false,
        workflow_mode: None,
        last_workflow_input: None,
        status: b.status,
        ..a
    }).same_aside(b)
}

/// The configuration was read again.
pub open spec fn config_reloaded(a: App, theme: Theme, b: App) -> bool {
    &&& commands::noted(
        App {
            theme,
            selection: b.selection,
            mode: None,
            workflow_mode: None,
            workflow_complete: false,
            last_workflow_input: None,
            queue_blocked: None,
            status: b.status,
            ..a
        },
        b,
        "Configuration reloaded; runtime overrides reset"@,
    )
    &&& b.selection.none()
    &&& b.status@ == if a.queue_blocked is Some {
        "Ready"@
    } else {
        a.status@
    }
}

/// The agent was switched by a command.
pub open spec fn agent_in_place(a: App, switch: AgentSwitch, b: App) -> bool {
    commands::noted(
        App {
            selection: switch.selection,
            mode: None,
            workflow_mode: None,
            queue_blocked: None,
            ..a
        },
        b,
        if switch.mode@.len() == 0 {
            "Switched agent to "@ + switch.name@
        } else {
            "Switched agent to "@ + switch.name@ + " ("@ + switch.mode@ + ")"@
        },
    )
}

/// A mode was chosen.
pub open spec fn mode_in_place(
    a: App,
    selection: Selection,
    workflow: Option<String>,
    name: String,
    b: App,
) -> bool {
    b == (App {
        selection,
        workflow_mode: workflow,
        mode: Some(name),
        ..a
    })
}

/// An effort was chosen.
pub open spec fn effort_in_place(a: App, effort: String, b: App) -> bool {
    commands::noted(
        App {
            selection: Selection { effort: Some(effort), ..a.selection },
            ..a
        },
        b,
        "Reasoning effort: "@ + effort@,
    )
}

/// A model was added and is the selected one.
pub open spec fn model_in_place(a: App, name: Seq<char>, b: App) -> bool {
    &&& commands::noted(
        App { selection: b.selection, ..a },
        b,
        "Added and selected model "@ + name,
    )
    &&& model_selection(a.selection, name, b.selection)
}

/// A server was switched in its dialog.
pub open spec fn server_switched(
    a: App,
    picker: Picker,
    reference: Seq<char>,
    enabled: bool,
    b: App,
) -> bool {
    &&& b == (App {
        picker: b.picker,
        status: b.status,
        ..a
    })
    &&& b.status@ == "MCP "@ + reference + ": "@ + if enabled {
        "on"@
    } else {
        "off"@
    }
    &&& b.picker is Some
    &&& b.picker->0 == (Picker { choices: b.picker->0.choices, ..picker })
    &&& picker::choices_view(b.picker->0.choices@) == picker::switched(
        picker::choices_view(picker.choices@),
        reference,
        enabled,
    )
}

/// The agent beside the one in use is asked for.
pub open spec fn agent_asked(
    a: App,
    names: Seq<Seq<char>>,
    default: Option<Seq<char>>,
    reverse: bool,
    b: App,
    r: Option<Selection>,
) -> bool {
    let offered = picker::agent_names(names, default is Some);
    let now = model::agent_in_use(a.selection, default);
    if offered.len() < 2 {
        r is None && keys::said(
            a,
            b,
            "Only one agent is configured"@,
        )
    } else {
        &&& b == a
        &&& r is Some
        &&& agent_selection(next_agent(offered, now, reverse), default is Some, r->0)
    }
}

} // verus!
