use soda_tui::app::{App, Approval, QueueBlocked, TimelineItem};
use soda_tui::choices::{agent_candidate, ModeAction, ModeInfo, ModelAction, Reasoning, Resolved};
use soda_tui::choices::{mcp_toggled, AgentMode, AgentModels, Definition};
use soda_tui::commands::{split_head, state, toggle, CommandAction, McpAction, SkillInfo};
use soda_tui::commands::{ToolState, HELP};
use soda_tui::json::{arguments_of, Json};
use soda_tui::keys::KeyAction;
use soda_tui::model::{
    ActivityEvent, ActivityKind, ActivityPhase, Decision, KeyCode, KeyEvent, Message, Modifiers,
    MouseKind, Selection, Spend, Theme, UiEvent,
};
use soda_tui::picker::{McpServer, ModelAlias, ModelRef, Picker, PickerKind, Preset};
use soda_tui::runs::{Launch, ModelInfo, RunOutcome, Settings, Submission};
use soda_tui::spine::Focus;

/// A theme with a color of its own for every role.
fn theme() -> Theme {
    Theme {
        background: "#101418".to_owned(),
        foreground: "#e6e6e6".to_owned(),
        border: "#5c6370".to_owned(),
        muted: "#7f848e".to_owned(),
        accent: "#61afef".to_owned(),
        user: "#98c379".to_owned(),
        assistant: "#c678dd".to_owned(),
        tool: "#56b6c2".to_owned(),
        error: "#e06c75".to_owned(),
        warning: "#e5c07b".to_owned(),
        success: "#8cc265".to_owned(),
        cta_foreground: "#101418".to_owned(),
        cta_background: "#d19a66".to_owned(),
        syntax_theme: "base16-ocean.dark".to_owned(),
        ascii: false,
        syntax_highlighting: true,
    }
}

fn preset(name: &str, tint: &str) -> Preset {
    let mut theme = theme();
    theme.assistant = tint.to_owned();
    Preset { name: name.to_owned(), description: format!("{name} colors"), theme }
}

fn presets() -> Vec<Preset> {
    vec![
        preset("haxx0r", "#00ff00"),
        preset("BnP", "#ff00ff"),
        preset("mama_j", "#aaaaaa"),
        preset("blue", "#0000ff"),
        preset("diet_soda", "#c0c0c0"),
    ]
}

/// The theme that a preset stands for.
fn preset_theme(name: &str) -> String {
    let all = presets();
    format!("{:?}", all.iter().find(|preset| preset.name == name).unwrap().theme)
}

/// The `enabled` entry of a server's definition.
fn switched_on(definition: &Json) -> bool {
    let Json::Object(members) = definition else {
        panic!("a server is defined by an object");
    };
    members.iter().any(|m| m.key == "enabled" && matches!(m.value, Json::Bool(true)))
}

/// What the parser says of a text that is no JSON.
fn fault(text: &str) -> String {
    serde_json::from_str::<serde_json::Value>(text).unwrap_err().to_string()
}

struct Agent {
    name: &'static str,
    default: bool,
    model: Option<&'static str>,
    modes: Vec<(&'static str, &'static str)>,
}

fn agent(name: &'static str) -> Agent {
    Agent { name, default: false, model: None, modes: Vec::new() }
}

struct Alias {
    name: &'static str,
    provider: &'static str,
    model: &'static str,
    max_tokens: u32,
    effort: Option<&'static str>,
    supported: Vec<&'static str>,
}

/// The user interface on an engine that answers at once: selections are
/// resolved from the agents and models below, and runs are only noted down.
struct Desk {
    app: App,
    agents: Vec<Agent>,
    aliases: Vec<Alias>,
    servers: Vec<McpServer>,
    workflows: Vec<&'static str>,
    configured: Theme,
    model: &'static str,
    sessions: usize,
    cancelled: bool,
    replies: Vec<Decision>,
    launches: Vec<Launch>,
}

fn desk() -> Desk {
    let settings = Settings {
        workspace: "/work".to_owned(),
        theme: theme(),
        default_agent: None,
        provider: "openrouter".to_owned(),
        model: "openai/gpt-4.1-mini".to_owned(),
        no_spend: "$0.0000".to_owned(),
    };
    Desk {
        app: App::new(&settings, Selection::default()),
        agents: Vec::new(),
        aliases: Vec::new(),
        servers: Vec::new(),
        workflows: Vec::new(),
        configured: theme(),
        model: "openrouter:openai/gpt-4.1-mini",
        sessions: 0,
        cancelled: false,
        replies: Vec::new(),
        launches: Vec::new(),
    }
}

impl Desk {
    fn names(&self) -> Vec<String> {
        let mut names: Vec<String> = self.agents.iter().map(|a| a.name.to_owned()).collect();
        names.sort();
        names
    }

    fn default_agent(&self) -> Option<&'static str> {
        self.agents.iter().find(|a| a.default).map(|a| a.name)
    }

    /// The agent, the model and its alias that a selection stands for.
    fn reference(&self, selection: &Selection) -> Result<String, String> {
        let name = selection.agent.as_deref().or(self.default_agent());
        let agent = match name {
            None => None,
            Some(name) => match self.agents.iter().find(|a| a.name == name) {
                Some(agent) => Some(agent),
                None => return Err(format!("Unknown agent: {name}")),
            },
        };
        let mode = match &selection.agent_mode {
            None => None,
            Some(mode) => {
                let found = agent.and_then(|a| a.modes.iter().find(|m| m.0 == mode.as_str()));
                match found {
                    Some(found) => Some(found.1),
                    None => return Err(format!("Unknown mode: {mode}")),
                }
            }
        };
        let model = selection
            .model
            .as_deref()
            .or(mode)
            .or(agent.and_then(|a| a.model))
            .unwrap_or(self.model);
        Ok(model.to_owned())
    }

    fn scope(&self, selection: &Selection) -> Result<ModelInfo, String> {
        let reference = self.reference(selection)?;
        let alias = self.aliases.iter().find(|a| a.name == reference);
        let (provider, model) = match alias {
            Some(alias) => (alias.provider, alias.model),
            None => match reference.split_once(':') {
                Some(parts) => parts,
                None => return Err(format!("Unknown model: {reference}")),
            },
        };
        if provider != "openrouter" {
            return Err(format!("Unknown provider: {provider}"));
        }
        let own = alias.and_then(|a| a.effort).map(str::to_owned);
        Ok(ModelInfo {
            provider: provider.to_owned(),
            model: model.to_owned(),
            effort: selection.effort.clone().or(own),
            default_agent: self.default_agent().map(str::to_owned),
            max_tokens: alias.map_or(4096, |a| a.max_tokens),
            workspace: "/work".to_owned(),
        })
    }

    fn refresh(&mut self) -> Result<(), String> {
        let info = self.scope(&self.app.selection)?;
        self.app.refresh_model(info);
        Ok(())
    }

    fn reasoning(&self) -> Result<Option<Reasoning>, String> {
        let reference = self.reference(&self.app.selection)?;
        let alias = self.aliases.iter().find(|a| a.name == reference);
        Ok(alias.filter(|a| !a.supported.is_empty()).map(|a| Reasoning {
            effort: self.app.selection.effort.clone().or(a.effort.map(str::to_owned)),
            supported: a.supported.iter().map(|e| e.to_string()).collect(),
        }))
    }

    /// The engine takes a run on, if its workflow exists.
    fn accepts(&self, launch: &Launch) -> Result<(), String> {
        match launch {
            Launch::Turn { .. } => Ok(()),
            Launch::Workflow { name, .. } => {
                if self.workflows.contains(&name.as_str()) {
                    Ok(())
                } else {
                    Err(format!("Cannot load workflow {name}"))
                }
            }
        }
    }

    fn started(&mut self, launch: &Launch) {
        self.launches.push(match launch {
            Launch::Turn { text } => Launch::Turn { text: text.clone() },
            Launch::Workflow { name, input } => {
                Launch::Workflow { name: name.clone(), input: input.clone() }
            }
        });
    }

    fn start_queued(&mut self, input: String) {
        let launch = self.app.start_input(input.clone());
        match self.accepts(&launch) {
            Ok(()) => {
                self.started(&launch);
                self.app.queued_started(launch);
            }
            Err(error) => self.app.queued_failed(input, &error),
        }
    }

    fn start_workflow(&mut self, name: &str, input: String) -> Result<(), String> {
        let launch = self.app.start_workflow(name, input)?;
        self.accepts(&launch)?;
        self.started(&launch);
        self.app.run_started(launch);
        Ok(())
    }

    fn submit(&mut self) -> Result<(), String> {
        match self.app.submit() {
            Submission::Stay => Ok(()),
            Submission::Command(text) => self.command(&text),
            Submission::Start(text) => {
                let launch = self.app.start_input(text);
                self.accepts(&launch)?;
                self.started(&launch);
                self.app.input_started(launch);
                Ok(())
            }
            Submission::Retry(input) => {
                self.start_queued(input);
                Ok(())
            }
        }
    }

    /// The run in flight ended. True if there was one.
    fn finish(&mut self, outcome: RunOutcome) -> bool {
        if !self.app.finish_run(Some(outcome)) {
            return false;
        }
        let info = self.scope(&self.app.selection);
        self.app.take_refresh(info);
        if let Some(input) = self.app.next_queued() {
            self.start_queued(input);
        }
        true
    }

    fn command(&mut self, text: &str) -> Result<(), String> {
        let idle = match self.app.command(text)? {
            CommandAction::Done => false,
            CommandAction::Tools(rest) => {
                let tools = vec![
                    ToolState { name: "read_file".to_owned(), enabled: true },
                    ToolState { name: "shell".to_owned(), enabled: false },
                ];
                self.app.tools_command(&rest, &tools)?;
                false
            }
            CommandAction::Mcp(rest) => {
                self.mcp(&rest)?;
                false
            }
            CommandAction::Theme(rest) => {
                self.app.theme_command(&rest, &self.configured, &presets())?;
                false
            }
            CommandAction::Model(rest) => {
                self.model(&rest)?;
                true
            }
            CommandAction::Effort(rest) => {
                let scope = self.reasoning();
                if let Some(effort) = self.app.effort_command(&rest, scope)? {
                    let supported = self.reasoning()?.unwrap().supported;
                    if !supported.contains(&effort) {
                        return Err(format!("Unsupported effort: {effort}"));
                    }
                    self.app.effort_set(effort);
                }
                true
            }
            CommandAction::Agent(rest) => {
                let (names, default) = (self.names(), self.default_agent());
                if let Some(switch) = self.app.agent_command(&rest, &names, default) {
                    self.scope(&switch.selection)?;
                    self.app.agent_switched(switch);
                }
                true
            }
            CommandAction::Mode(rest) => {
                let (names, default) = (self.names(), self.default_agent());
                let modes = vec![ModeInfo {
                    name: "plan".to_owned(),
                    agent: Some("operator".to_owned()),
                    agent_mode: Some("deep".to_owned()),
                    workflow: Some("planner".to_owned()),
                }];
                match self.app.mode_command(&rest, &names, default, &modes)? {
                    ModeAction::Done => {}
                    ModeAction::Agent(switch) => {
                        self.scope(&switch.selection)?;
                        self.app.agent_switched(switch);
                    }
                    ModeAction::Mode { selection, workflow, name } => {
                        self.scope(&selection)?;
                        self.app.mode_switched(selection, workflow, name);
                    }
                }
                true
            }
            CommandAction::ListWorkflows => {
                let listed: Vec<String> =
                    self.workflows.iter().map(|name| format!("{name}.json")).collect();
                self.app.workflows_listed(&listed);
                true
            }
            CommandAction::RunWorkflow { name, input } => {
                self.start_workflow(&name, input)?;
                true
            }
            CommandAction::Reset => {
                self.sessions += 1;
                let session = format!("s{}", self.sessions);
                self.app.reset_session(&session, "$0.0000");
                true
            }
            CommandAction::Reload => {
                self.app.reloaded(theme());
                true
            }
            CommandAction::Skills(_)
            | CommandAction::InstallSkill(_)
            | CommandAction::Export(_) => true,
        };
        if idle {
            self.refresh()?;
        }
        Ok(())
    }

    fn mcp(&mut self, rest: &str) -> Result<(), String> {
        match self.app.mcp_command(rest, &self.servers)? {
            McpAction::Done | McpAction::Restart(_) => {}
            McpAction::Add { name, definition } => {
                let uuid = format!("{name}-id");
                self.app.mcp_added(&name, &uuid);
                let enabled = switched_on(&definition);
                self.servers.push(McpServer { name, uuid, enabled });
            }
            McpAction::Switch(switch) => {
                for server in &mut self.servers {
                    if server.name == switch.name {
                        server.enabled = switch.enabled;
                    }
                }
            }
        }
        Ok(())
    }

    fn model(&mut self, rest: &str) -> Result<(), String> {
        match self.app.model_command(rest)? {
            ModelAction::Browse => {
                let aliases: Vec<ModelAlias> = self
                    .aliases
                    .iter()
                    .map(|a| ModelAlias {
                        alias: a.name.to_owned(),
                        model: ModelRef {
                            provider: a.provider.to_owned(),
                            model: a.model.to_owned(),
                        },
                    })
                    .collect();
                let info = self.scope(&self.app.selection)?;
                let current = ModelRef { provider: info.provider, model: info.model };
                let default = ModelRef {
                    provider: "openrouter".to_owned(),
                    model: "openai/gpt-4.1-mini".to_owned(),
                };
                let chosen = self.app.selection.agent.clone();
                let agent = self
                    .agents
                    .iter()
                    .find(|a| Some(a.name) == chosen.as_deref())
                    .map(|a| AgentModels {
                        model: a.model.map(str::to_owned),
                        modes: a
                            .modes
                            .iter()
                            .map(|m| AgentMode {
                                name: m.0.to_owned(),
                                model: Some(m.1.to_owned()),
                            })
                            .collect(),
                    });
                self.app.browse_models(&aliases, &default, &current, &agent, 0);
            }
            ModelAction::Add { name, definition } => {
                if self.aliases.iter().any(|a| a.name == name) {
                    return Err(format!("models.{name} already exists"));
                }
                assert!(matches!(definition, Definition::Object(Json::Object(_))));
                self.aliases.push(thinker());
                self.app.model_added(&name);
            }
            ModelAction::Select { reference, selection } => {
                self.scope(&selection)?;
                self.app.model_selected(&reference, selection);
            }
        }
        Ok(())
    }

    /// A key, as the event loop handles it. Returns whether it asks for a
    /// submission.
    fn key(&mut self, key: KeyEvent) -> bool {
        match self.app.handle_key(key).unwrap() {
            KeyAction::Stay => false,
            KeyAction::Submit => true,
            KeyAction::Cancel => {
                self.cancelled = true;
                false
            }
            KeyAction::Reply { decision, cancel } => {
                self.replies.push(decision);
                self.cancelled = self.cancelled || cancel;
                false
            }
            KeyAction::Repeat { workflow, input } => {
                self.start_workflow(&workflow, input).unwrap();
                false
            }
            KeyAction::CycleAgent { reverse } => {
                let (names, default) = (self.names(), self.default_agent());
                if let Some(selection) = self.app.cycle_agent(&names, default, reverse) {
                    self.scope(&selection).unwrap();
                    self.app.agent_cycled(selection);
                    self.refresh().unwrap();
                }
                false
            }
            KeyAction::Pick { picker, reference } => {
                self.pick(picker, &reference);
                false
            }
        }
    }

    fn pick(&mut self, picker: Picker, reference: &str) {
        match picker.kind {
            PickerKind::Models => {
                let outcome = self.app.select_model(reference).and_then(|selection| {
                    self.scope(&selection)?;
                    let info = self.scope(&selection);
                    Ok(Resolved { selection, info })
                });
                self.app.finish_model_pick(picker, reference, outcome);
            }
            PickerKind::Agents => {
                let selection = agent_candidate(reference, self.default_agent().is_some());
                let outcome = self.scope(&selection).map(|_| {
                    let info = self.scope(&selection);
                    Resolved { selection, info }
                });
                self.app.finish_agent_pick(picker, reference, outcome);
            }
            PickerKind::Mcps => {
                let enabled = mcp_toggled(reference, &self.servers);
                for server in &mut self.servers {
                    if server.name == reference {
                        server.enabled = enabled;
                    }
                }
                self.app.finish_mcp_pick(picker, reference, enabled);
            }
            PickerKind::Themes { .. } => unreachable!(),
        }
    }

    fn press(&mut self, code: KeyCode) -> bool {
        self.key(KeyEvent::new(code, Modifiers::none()))
    }

    fn type_into(&mut self, text: &str) {
        self.app.input.set(text.to_owned());
    }

    fn queue(&mut self, text: &str) {
        self.app.queued_inputs.push_back(text.to_owned());
    }

    fn queued(&self) -> Vec<&str> {
        self.app.queued_inputs.iter().map(String::as_str).collect()
    }

    fn block(&mut self, pending: usize) {
        self.app.queue_blocked =
            Some(QueueBlocked { error: "synthetic".to_owned(), pending });
    }

    fn in_workflow(&mut self, name: &str, complete: bool) {
        self.app.workflow_mode = Some(name.to_owned());
        self.app.workflow_complete = complete;
        self.app.last_workflow_input = Some("seed".to_owned());
    }

    fn approval(&mut self) {
        self.app.event(UiEvent::Approval {
            title: "Approve?".to_owned(),
            detail: "test".to_owned(),
            workflow: false,
            open: true,
        });
    }

    fn agent(&self) -> Option<&str> {
        self.app.selection.agent.as_deref()
    }

    fn shown_theme(&self) -> String {
        format!("{:?}", self.app.theme)
    }
}

fn thinker() -> Alias {
    Alias {
        name: "thinker",
        provider: "openrouter",
        model: "test/reasoner",
        max_tokens: 8192,
        effort: Some("low"),
        supported: vec!["low", "high"],
    }
}

const THINKER: &str = r#"/model add thinker {"provider":"openrouter","model":"test/reasoner","reasoning":{"supported_efforts":["low","high"],"effort":"low"}}"#;

fn shift(code: KeyCode) -> KeyEvent {
    KeyEvent::new(code, Modifiers { shift: true, ..Modifiers::none() })
}

fn control(code: KeyCode) -> KeyEvent {
    KeyEvent::new(code, Modifiers { control: true, ..Modifiers::none() })
}

fn tool_start(id: &str, title: &str, external: Option<&str>) -> ActivityEvent {
    ActivityEvent {
        id: id.to_owned(),
        parent_id: None,
        context: "main".to_owned(),
        kind: ActivityKind::Tool,
        phase: ActivityPhase::Start,
        title: title.to_owned(),
        external_id: external.map(str::to_owned),
        status: None,
    }
}

fn last_status(app: &App) -> &str {
    app.entries.iter().rev().find(|entry| entry.role == "status").unwrap().text.as_str()
}

#[test]
fn model_add_and_effort_are_validated_and_preserve_relative_config_paths() {
    let mut desk = desk();
    desk.command(THINKER).unwrap();
    desk.command("/effort high").unwrap();
    assert_eq!(desk.app.selection.effort.as_deref(), Some("high"));
    assert_eq!(desk.app.effort_label, "high");
    assert!(desk.command("/effort medium").is_err());
    assert_eq!(desk.app.selection.effort.as_deref(), Some("high"));
    assert!(desk.command("/model add thinker openrouter:x").is_err());
    desk.command("/model openrouter:other").unwrap();
    assert_eq!(desk.app.selection.effort, None);
    assert_eq!(desk.app.model_label, "openrouter:other");
    let refused = desk.command("/effort low").unwrap_err();
    assert_eq!(refused, "This model has no reasoning.supported_efforts configured");
}

#[test]
fn workflow_command_lists_names_and_starts_without_consuming_draft() {
    let mut desk = desk();
    desk.workflows.push("local");
    desk.command("/workflow").unwrap();
    assert!(last_status(&desk.app).contains("local.json"));

    desk.type_into("draft retained while selecting workflow");
    desk.command("/workflow local workflow input").unwrap();
    assert_eq!(desk.app.input.text, "draft retained while selecting workflow");
    assert_eq!(desk.app.workflow_mode.as_deref(), Some("local"));
    assert_eq!(desk.app.last_workflow_input.as_deref(), Some("workflow input"));
    assert!(desk.app.busy);
    assert!(desk.app.cancel_and_join());
    assert!(!desk.app.busy);
}

#[test]
fn effort_default_clears_override_and_refreshes_effective_label() {
    let mut desk = desk();
    desk.command(THINKER).unwrap();
    desk.command("/effort high").unwrap();
    assert_eq!(desk.app.selection.effort.as_deref(), Some("high"));
    assert_eq!(desk.app.effort_label, "high");

    desk.command("/effort default").unwrap();
    assert_eq!(desk.app.selection.effort, None);
    assert_eq!(desk.app.effort_label, "low");

    desk.command("/effort").unwrap();
    assert_eq!(last_status(&desk.app), "Effort: low\nSupported: low, high");
}

#[test]
fn mcp_add_persists_definition_and_activation_is_runtime_only() {
    let mut desk = desk();
    desk.command(
        r#"/mcp add local {"transport":"stdio","command":"never-started","enabled":false}"#,
    )
    .unwrap();
    assert_eq!(
        last_status(&desk.app),
        "Added MCP local (local-id); connects when its tools are needed"
    );
    desk.command("/mcp activate local").unwrap();
    assert!(desk.servers[0].enabled);
    assert_eq!(last_status(&desk.app), "MCP local: activate");
    desk.command("/mcp local off").unwrap();
    assert!(!desk.servers[0].enabled);
    desk.command("/mcp local restart").unwrap();
    assert_eq!(last_status(&desk.app), "MCP local: restart");
    assert_eq!(desk.command("/mcp ghost on").unwrap_err(), "Unknown MCP server: ghost");
    assert_eq!(
        desk.command("/mcp local maybe").unwrap_err(),
        "Expected on/off (or activate/deactivate)"
    );
}

#[test]
fn export_then_clear_resets_spend_history_and_id_without_deleting_old_session() {
    let mut desk = desk();
    desk.app.event(UiEvent::Spend(Spend { label: "$0.0001".to_owned(), unpriced_requests: 2 }));
    desk.app.message("main".into(), Message::new("user", "Remember this"));
    desk.command("/cost").unwrap();
    assert_eq!(last_status(&desk.app), "Spend: $0.0001 (2 unpriced requests)");
    desk.command("/clear").unwrap();
    assert_eq!(desk.app.spend.label, "$0.0000");
    assert_eq!(desk.app.spend.unpriced_requests, 0);
    assert_eq!(desk.app.status, "Session s1 | Ready");
    assert!(desk.app.entries.is_empty());
    assert_eq!(desk.app.history_generation, 1);
}

#[test]
fn colon_q_quits_without_sending_a_model_request() {
    let mut desk = desk();
    desk.app.input.insert(":q");
    desk.submit().unwrap();
    assert!(desk.app.quit);
    assert!(desk.launches.is_empty());
}

#[test]
fn context_events_only_track_the_main_conversation() {
    let mut desk = desk();
    desk.app.event(UiEvent::Context { context: "main".into(), tokens: 42 });
    assert_eq!(desk.app.context_tokens, 42);
    desk.app.event(UiEvent::Context { context: "subagent:x".into(), tokens: 99 });
    assert_eq!(desk.app.context_tokens, 42);
}

#[test]
fn messages_can_be_queued_while_a_run_is_active() {
    let mut desk = desk();
    desk.app.busy = true;
    desk.type_into("run this next");
    desk.submit().unwrap();
    assert!(desk.app.input.text.is_empty());
    assert_eq!(desk.queued(), ["run this next"]);
    assert_eq!(desk.app.status, "Queued 1 message(s)");
}

#[test]
fn mouse_command_reports_and_changes_session_state_without_requiring_idle() {
    let mut desk = desk();
    assert!(desk.app.mouse_enabled);

    desk.command("/mouse").unwrap();
    assert!(desk.app.mouse_enabled);
    assert_eq!(desk.app.status, "Mouse capture enabled");

    desk.command("/mouse off").unwrap();
    assert!(!desk.app.mouse_enabled);
    assert_eq!(desk.app.status, "Mouse capture disabled");
    desk.command("/mouse toggle").unwrap();
    assert!(desk.app.mouse_enabled);
    desk.command("/mouse on").unwrap();
    assert!(desk.app.mouse_enabled);
    desk.command("/mouse off").unwrap();
    assert!(!desk.app.mouse_enabled);

    assert_eq!(desk.command("/mouse maybe").unwrap_err(), "Usage: /mouse [on|off|toggle]");
    assert!(!desk.app.mouse_enabled);

    desk.app.busy = true;
    desk.queue("already queued");
    desk.type_into("/mouse on");
    desk.submit().unwrap();
    assert!(desk.app.mouse_enabled);
    assert_eq!(desk.queued(), ["already queued"]);
}

#[test]
fn session_resets_and_reload_preserve_mouse_state() {
    let mut desk = desk();
    desk.command("/mouse off").unwrap();

    desk.command("/clear").unwrap();
    assert!(!desk.app.mouse_enabled);
    desk.command("/new").unwrap();
    assert!(!desk.app.mouse_enabled);
    desk.command("/reload").unwrap();
    assert!(!desk.app.mouse_enabled);

    desk.command("/mouse on").unwrap();
    desk.command("/clear").unwrap();
    assert!(desk.app.mouse_enabled);
    desk.command("/reload").unwrap();
    assert!(desk.app.mouse_enabled);
}

#[test]
fn tab_switches_agents_silently_while_a_run_is_active() {
    let mut desk = desk();
    desk.agents = vec![agent("alpha"), agent("beta")];
    desk.app.busy = true;
    let entries = desk.app.entries.len();
    let status = desk.app.status.clone();
    desk.press(KeyCode::Tab);
    assert_eq!(desk.agent(), Some("alpha"));
    assert_eq!(desk.app.entries.len(), entries);
    assert_eq!(desk.app.status, status);
}

#[test]
fn tab_cycles_visible_agents_in_both_directions_preserving_the_draft() {
    let mut desk = desk();
    desk.agents = vec![
        Agent { model: Some("openrouter:research-model"), ..agent("researcher") },
        agent("reviser"),
    ];
    desk.type_into("keep my draft 漢");
    desk.app.input.left();
    let cursor = desk.app.input.cursor;
    desk.press(KeyCode::Tab);
    assert_eq!(desk.agent(), Some("researcher"));
    assert_eq!(desk.app.model_label, "openrouter:research-model");
    desk.press(KeyCode::Tab);
    assert_eq!(desk.agent(), Some("reviser"));
    desk.key(shift(KeyCode::BackTab));
    let released = KeyEvent { release: true, ..KeyEvent::new(KeyCode::Tab, Modifiers::none()) };
    desk.key(released);
    desk.command("/help").unwrap();
    desk.press(KeyCode::Tab);
    assert_eq!(desk.agent(), Some("researcher"));
    assert_eq!(desk.app.input.text, "keep my draft 漢");
    assert_eq!(desk.app.input.cursor, cursor);
    assert!(desk.launches.is_empty());
}

#[test]
fn agent_command_opens_picker_and_selects_without_losing_draft() {
    let mut desk = desk();
    desk.agents = vec![Agent { model: Some("openrouter:research-model"), ..agent("researcher") }];
    desk.type_into("keep this draft");
    desk.command("/agent").unwrap();
    assert!(matches!(desk.app.picker.as_ref().unwrap().kind, PickerKind::Agents));
    desk.app.paste("research");
    assert_eq!(desk.app.picker.as_ref().unwrap().matches.len(), 1);
    desk.press(KeyCode::Enter);
    assert!(desk.app.picker.is_none());
    assert_eq!(desk.agent(), Some("researcher"));
    assert_eq!(desk.app.input.text, "keep this draft");
    assert_eq!(desk.app.model_label, "openrouter:research-model");
    assert_eq!(desk.app.status, "Selected agent researcher");
}

fn operator() -> Agent {
    Agent {
        model: Some("openrouter:base-model"),
        modes: vec![("deep", "openrouter:deep-model")],
        ..agent("operator")
    }
}

#[test]
fn agent_command_selects_named_and_default_modes_and_updates_scope_header_and_status() {
    let mut desk = desk();
    desk.agents = vec![Agent { default: true, ..operator() }];
    desk.app.mode = Some("legacy-mode".into());
    desk.command("/agent operator deep").unwrap();
    assert_eq!(desk.agent(), Some("operator"));
    assert_eq!(desk.app.selection.agent_mode.as_deref(), Some("deep"));
    assert!(desk.app.mode.is_none());
    assert_eq!(desk.app.model_label, "openrouter:deep-model");
    assert_eq!(desk.app.entries.last().unwrap().text, "Switched agent to operator (deep)");

    desk.command("/agent default deep").unwrap();
    assert!(desk.agent().is_none());
    assert_eq!(desk.app.selection.agent_mode.as_deref(), Some("deep"));
    assert!(desk.app.selection.model.is_none());
    assert!(desk.app.mode.is_none());
    assert_eq!(desk.app.model_label, "openrouter:deep-model");
    assert_eq!(desk.app.entries.last().unwrap().text, "Switched agent to default (deep)");
}

#[test]
fn agent_command_without_mode_clears_mode_override_and_restores_agent_model() {
    let mut desk = desk();
    desk.agents = vec![operator()];
    desk.command("/agent operator deep").unwrap();
    desk.command("/agent operator").unwrap();

    assert_eq!(desk.agent(), Some("operator"));
    assert!(desk.app.selection.agent_mode.is_none());
    assert_eq!(desk.app.model_label, "openrouter:base-model");
    assert_eq!(desk.app.entries.last().unwrap().text, "Switched agent to operator");
}

#[test]
fn agent_command_rejects_unknown_mode_without_mutating_selection_or_draft() {
    let mut desk = desk();
    desk.agents = vec![operator()];
    desk.command("/agent operator deep").unwrap();
    desk.type_into("unsent draft");
    let entries = desk.app.entries.len();

    assert!(desk.command("/agent operator unknown").is_err());
    assert_eq!(desk.agent(), Some("operator"));
    assert_eq!(desk.app.selection.agent_mode.as_deref(), Some("deep"));
    assert_eq!(desk.app.selection.model, None);
    assert_eq!(desk.app.mode, None);
    assert_eq!(desk.app.input.text, "unsent draft");
    assert_eq!(desk.app.entries.len(), entries);
}

#[test]
fn bare_agent_command_only_opens_picker_and_preserves_selection_and_draft() {
    let mut desk = desk();
    desk.agents = vec![operator()];
    desk.app.selection.agent = Some("operator".into());
    desk.app.selection.agent_mode = Some("deep".into());
    desk.type_into("keep this draft");

    desk.command("/agent").unwrap();

    assert!(matches!(desk.app.picker.as_ref().unwrap().kind, PickerKind::Agents));
    assert_eq!(desk.agent(), Some("operator"));
    assert_eq!(desk.app.selection.agent_mode.as_deref(), Some("deep"));
    assert_eq!(desk.app.input.text, "keep this draft");
}

#[test]
fn model_dialog_routes_search_paste_selection_and_cancel_without_submitting() {
    let mut desk = desk();
    desk.aliases = vec![Alias { model: "anthropic/swift-sonnet", ..thinker() }];
    desk.agents = vec![Agent {
        model: Some("openrouter:fallback"),
        modes: vec![("deep", "thinker")],
        ..agent("researcher")
    }];
    desk.app.selection.agent = Some("researcher".into());
    desk.app.selection.agent_mode = Some("deep".into());
    desk.type_into("unsent draft");
    desk.command("/model").unwrap();
    assert_eq!(desk.app.picker.as_ref().unwrap().current().unwrap().reference, "thinker");
    desk.app.paste("SNNT\r\n");
    assert_eq!(desk.app.picker.as_ref().unwrap().matches.len(), 1);
    desk.press(KeyCode::Tab);
    assert!(desk.app.mode.is_none());
    assert!(!desk.press(KeyCode::Enter));
    assert!(desk.app.picker.is_none());
    assert_eq!(desk.app.selection.model.as_deref(), Some("thinker"));
    assert_eq!(desk.app.effort_label, "low");
    assert_eq!(desk.app.context_limit, 8192);
    desk.command("/model").unwrap();
    desk.app.paste("no-match-xyz");
    desk.press(KeyCode::Enter);
    assert!(desk.app.picker.is_some());
    desk.press(KeyCode::Esc);
    assert!(desk.app.picker.is_none());
    assert_eq!(desk.app.selection.model.as_deref(), Some("thinker"));
    assert_eq!(desk.app.input.text, "unsent draft");
    assert!(desk.launches.is_empty());
}

#[test]
fn mcp_picker_toggles_runtime_state_and_yields_to_approvals() {
    let mut desk = desk();
    desk.command(
        r#"/mcp add browser {"transport":"stdio","command":"never-started","enabled":false}"#,
    )
    .unwrap();
    desk.command(
        r#"/mcp add search {"transport":"stdio","command":"never-started","enabled":true}"#,
    )
    .unwrap();
    desk.type_into("keep the draft");
    desk.command("/mcp").unwrap();
    desk.app.paste("brwsr");
    assert_eq!(desk.app.picker.as_ref().unwrap().matches.len(), 1);
    assert!(!desk.press(KeyCode::Enter));
    assert_eq!(desk.app.picker.as_ref().unwrap().current().unwrap().enabled, Some(true));
    assert!(desk.servers[0].enabled);
    assert_eq!(desk.app.status, "MCP browser: on");
    desk.approval();
    desk.app.paste("not a search");
    desk.press(KeyCode::Enter);
    assert_eq!(desk.app.picker.as_ref().unwrap().query.text, "brwsr");
    assert_eq!(desk.app.picker.as_ref().unwrap().current().unwrap().enabled, Some(true));
    desk.press(KeyCode::Char('n'));
    assert_eq!(desk.replies, [Decision::Reject]);
    desk.press(KeyCode::Enter);
    assert_eq!(desk.app.picker.as_ref().unwrap().current().unwrap().enabled, Some(false));
    desk.press(KeyCode::Enter);
    desk.press(KeyCode::Esc);
    assert!(desk.app.picker.is_none());
    assert!(desk.servers[0].enabled);
    assert_eq!(desk.app.input.text, "keep the draft");
    assert!(desk.launches.is_empty());
}

#[test]
fn theme_picker_previews_restores_applies_and_reloads_without_writing_config() {
    let mut desk = desk();
    let configured = desk.shown_theme();
    desk.type_into("unsent draft");
    desk.command("/theme").unwrap();
    desk.app.paste("hxx0r");
    assert_eq!(desk.shown_theme(), preset_theme("haxx0r"));
    desk.press(KeyCode::Esc);
    assert_eq!(desk.shown_theme(), configured);
    desk.command("/theme").unwrap();
    desk.app.paste("bnp");
    assert_eq!(desk.shown_theme(), preset_theme("BnP"));
    desk.press(KeyCode::Enter);
    assert!(desk.app.picker.is_none());
    assert_eq!(desk.shown_theme(), preset_theme("BnP"));
    desk.command("/theme").unwrap();
    desk.app.paste("mama");
    assert_eq!(desk.shown_theme(), preset_theme("mama_j"));
    desk.key(control(KeyCode::Char('c')));
    assert_eq!(desk.shown_theme(), preset_theme("BnP"));
    assert_eq!(
        desk.command("/theme missing").unwrap_err(),
        "Unknown theme; use /theme to browse"
    );
    assert_eq!(desk.shown_theme(), preset_theme("BnP"));
    desk.command("/theme configured").unwrap();
    assert_eq!(desk.shown_theme(), configured);
    desk.app.theme.ascii = true;
    desk.command("/theme blue").unwrap();
    assert!(desk.app.theme.ascii);
    assert_eq!(desk.app.status, "Theme: blue");
    desk.command("/reload").unwrap();
    assert_eq!(desk.shown_theme(), configured);
    assert_eq!(desk.app.input.text, "unsent draft");
}

#[test]
fn reload_reads_disk_changes_and_clears_old_selections_without_resetting_the_session() {
    let mut desk = desk();
    desk.command("/model openrouter:temporary").unwrap();
    assert_eq!(desk.app.model_label, "openrouter:temporary");
    desk.model = "openrouter:updated/model";
    desk.command("/reload").unwrap();
    assert_eq!(desk.app.model_label, "openrouter:updated/model");
    assert!(desk.app.selection.model.is_none());
    assert_eq!(desk.sessions, 0);
}

#[test]
fn reload_clears_queue_block_but_preserves_transcript_activity_and_truthful_note() {
    let mut desk = desk();
    desk.app.message("main".into(), Message::new("assistant", "visible transcript"));
    desk.app.event(UiEvent::Activity(tool_start("activity", "visible activity", None)));
    desk.app.focus = Focus::Activity;
    desk.app.focused_activity = Some("activity".to_owned());
    desk.block(1);
    desk.app.status = "Queued 1 message(s) blocked | start failed; press Enter to retry".into();

    desk.command("/reload").unwrap();

    assert!(desk.app.queue_blocked.is_none());
    assert_eq!(desk.app.status, "Ready");
    assert!(desk.app.entries.iter().any(|entry| entry.text == "visible transcript"));
    assert_eq!(desk.app.activities.len(), 1);
    assert_eq!(desk.app.focus, Focus::Activity);
    assert!(desk.app.entries.iter().any(|e| e.text.contains("Configuration reloaded")));
}

#[test]
fn help_documents_mouse_and_escape_behavior() {
    assert!(HELP.contains("/mouse [on|off|toggle]"));
    assert!(HELP.contains("Esc: return to input"));
    assert!(HELP.contains("Left-click: toggle a visible activity row"));
    assert!(HELP.contains("bare Esc cancels the active run"));
}

#[test]
fn bare_escape_cancels_run_only_when_no_modal_is_open() {
    let mut desk = desk();
    desk.app.busy = true;
    assert!(!desk.press(KeyCode::Esc));
    assert_eq!(desk.app.status, "Cancelling...");
    assert!(desk.cancelled);
    assert!(desk.app.busy);
    assert!(desk.app.cancel_and_join());
    assert!(!desk.app.busy);
}

#[test]
fn picker_escape_closes_picker_without_cancelling_run() {
    let mut desk = desk();
    desk.command("/theme").unwrap();
    assert!(desk.app.picker.is_some());
    desk.app.busy = true;
    assert!(!desk.press(KeyCode::Esc));
    assert!(desk.app.picker.is_none());
    assert!(!desk.cancelled);
}

#[test]
fn help_escape_closes_help_without_cancelling_run() {
    let mut desk = desk();
    desk.command("/help").unwrap();
    assert!(desk.app.help);
    desk.app.busy = true;
    assert!(!desk.press(KeyCode::Esc));
    assert!(!desk.app.help);
    assert!(!desk.cancelled);
}

#[test]
fn approval_escape_rejects_call_without_aborting_run() {
    let mut desk = desk();
    desk.app.busy = true;
    desk.approval();
    assert!(!desk.press(KeyCode::Esc));
    assert_eq!(desk.replies, [Decision::Reject]);
    assert!(desk.app.approval.is_none());
    assert!(!desk.cancelled);
}

#[test]
fn ctrl_c_aborts_active_run_when_no_modal_is_open() {
    let mut desk = desk();
    desk.app.busy = true;
    assert!(!desk.key(control(KeyCode::Char('c'))));
    assert!(desk.cancelled);
}

#[test]
fn release_events_are_dropped_even_when_shift_is_held() {
    let mut desk = desk();
    desk.agents = vec![agent("alpha"), agent("beta")];
    desk.key(KeyEvent { release: true, ..shift(KeyCode::Tab) });
    desk.key(KeyEvent { release: true, ..shift(KeyCode::Char('A')) });
    assert!(desk.agent().is_none());
    assert!(desk.app.input.text.is_empty());
}

#[test]
fn tab_is_blocked_with_a_clear_status_when_a_workflow_is_running() {
    let mut desk = desk();
    desk.app.busy = true;
    desk.app.workflow_mode = Some("plan".into());
    let status = desk.app.status.clone();
    assert!(!desk.press(KeyCode::Tab));
    assert_eq!(desk.app.status, "Agent cycling disabled in workflow mode");
    assert_ne!(desk.app.status, status);
    assert!(desk.agent().is_none());
    desk.agents = vec![agent("alpha")];
    assert!(!desk.key(shift(KeyCode::BackTab)));
    assert!(desk.agent().is_none());
    assert_eq!(desk.app.workflow_mode.as_deref(), Some("plan"));
}

#[test]
fn shifted_text_pastes_through_the_picker_and_filters_case_insensitively() {
    let mut desk = desk();
    desk.agents = vec![agent("researcher"), agent("REVISER")];
    desk.command("/agent").unwrap();
    desk.app.paste("Re");
    let picker = desk.app.picker.as_ref().unwrap();
    assert_eq!(picker.matches.len(), 2);
    assert_eq!(picker.query.text, "Re");
    let selected_before = picker.selected;
    assert!(!desk.key(shift(KeyCode::BackTab)));
    let picker = desk.app.picker.as_ref().unwrap();
    assert!(picker.selected <= selected_before);
    assert_eq!(picker.query.text, "Re");
    assert!(desk.agent().is_none());
}

#[test]
fn cycle_and_picker_skip_a_user_default_agent_when_no_real_default_exists() {
    let mut desk = desk();
    desk.agents = vec![agent("default"), agent("alpha"), agent("beta")];
    desk.press(KeyCode::Tab);
    let first = desk.app.selection.agent.clone();
    desk.press(KeyCode::Tab);
    let after = desk.app.selection.agent.clone();
    assert!(after.as_deref() != Some("default"));
    assert_ne!(first, after);
    desk.command("/agent").unwrap();
    let picker = desk.app.picker.as_ref().unwrap();
    let mut default_count = 0;
    for choice in &picker.choices {
        if choice.reference == "default" {
            default_count += 1;
        } else {
            assert!(choice.reference == "alpha" || choice.reference == "beta");
        }
    }
    assert_eq!(default_count, 1);
}

#[test]
fn cycle_and_picker_keep_user_default_agent_when_marked_default() {
    let mut desk = desk();
    desk.agents = vec![Agent { default: true, ..agent("default") }, agent("alpha")];
    desk.press(KeyCode::Tab);
    assert_eq!(desk.agent(), Some("alpha"));
    desk.press(KeyCode::Tab);
    assert_eq!(desk.agent(), Some("default"));
    desk.command("/agent").unwrap();
    let picker = desk.app.picker.as_ref().unwrap();
    let count = |name: &str| picker.choices.iter().filter(|c| c.reference == name).count();
    assert_eq!(count("default"), 1);
    assert_eq!(count("alpha"), 1);
    assert_eq!(picker.choices.len(), 2);
    let default_choice = picker.choices.iter().find(|c| c.reference == "default").unwrap();
    assert!(default_choice.label.contains("(default)"));
}

#[test]
fn two_queued_messages_run_in_fifo_order() {
    let mut desk = desk();
    desk.app.busy = true;
    desk.type_into("first queued");
    desk.submit().unwrap();
    desk.type_into("second queued");
    desk.submit().unwrap();
    assert_eq!(desk.queued(), ["first queued", "second queued"]);
    assert!(desk.finish(RunOutcome::Done));
    assert_eq!(desk.queued(), ["second queued"]);
    assert!(matches!(&desk.launches[0], Launch::Turn { text } if text == "first queued"));
    assert_eq!(desk.app.status, "Running | 1 message(s) queued | Ctrl+C to cancel");
    assert!(desk.finish(RunOutcome::Done));
    assert!(desk.queued().is_empty());
    assert!(matches!(&desk.launches[1], Launch::Turn { text } if text == "second queued"));
    assert!(desk.finish(RunOutcome::Done));
    assert_eq!(desk.app.status, "Ready");
    assert_eq!(desk.launches.len(), 2);
}

#[test]
fn finish_run_marks_queue_blocked_when_workflow_file_is_missing() {
    let mut desk = desk();
    desk.workflows.push("good");
    desk.app.workflow_mode = Some("missing".into());
    desk.queue("queued attempt");
    desk.app.busy = true;
    assert!(desk.finish(RunOutcome::Done));
    assert_eq!(desk.queued(), ["queued attempt"]);
    assert!(desk.app.status.contains("Queued 1 message(s) blocked"));
    assert!(desk.app.status.contains("press Enter to retry"));
    let blocked = desk.app.queue_blocked.as_ref().unwrap();
    assert_eq!(blocked.pending, 1);
    assert_eq!(blocked.error, "Cannot load workflow missing");
    assert!(!desk.app.busy);
    assert!(desk.app.workflow_complete);
    assert!(!desk.finish(RunOutcome::Done));
    assert_eq!(desk.app.next_queued(), None);
    assert_eq!(desk.queued(), ["queued attempt"]);
}

#[test]
fn finish_run_preserves_fifo_and_marks_blocked_for_corrupt_workflow() {
    let mut desk = desk();
    desk.app.workflow_mode = Some("bad".into());
    desk.queue("first");
    desk.queue("second");
    desk.app.busy = true;
    assert!(desk.finish(RunOutcome::Done));
    assert_eq!(desk.queued(), ["first", "second"]);
    assert!(desk.app.status.contains("Queued 2 message(s) blocked"));
    assert!(!desk.app.busy);
    assert_eq!(desk.app.queue_blocked.as_ref().unwrap().pending, 2);
    assert!(desk.app.workflow_complete);
}

#[test]
fn a_run_that_goes_on_is_left_alone() {
    let mut desk = desk();
    desk.queue("waiting");
    assert!(!desk.app.finish_run(None));
    assert!(!desk.app.finish_run(Some(RunOutcome::Done)));
    desk.app.busy = true;
    desk.app.status = "Running | Ctrl+C to cancel".into();
    assert!(!desk.app.finish_run(None));
    assert!(desk.app.busy);
    assert_eq!(desk.app.status, "Running | Ctrl+C to cancel");
    assert_eq!(desk.queued(), ["waiting"]);
    assert!(desk.app.finish_run(Some(RunOutcome::Done)));
    assert!(!desk.app.busy);
    assert_eq!(desk.app.status, "Ready");
}

#[test]
fn a_server_needs_a_definition_in_json() {
    let mut desk = desk();
    for text in ["", "{", "{\"command\":}", "never-started", "[1,]"] {
        let error = desk.command(&format!("/mcp add local {text}")).unwrap_err();
        assert_eq!(error, fault(text));
    }
    assert!(desk.servers.is_empty());
    match desk.app.mcp_command(r#"add local {"command":"x","port":7}"#, &Vec::new()) {
        Ok(McpAction::Add { name, definition: Json::Object(members) }) => {
            assert_eq!(name, "local");
            let mut keys: Vec<&str> = members.iter().map(|m| m.key.as_str()).collect();
            keys.sort();
            assert_eq!(keys, ["command", "port"]);
            for member in &members {
                match &member.value {
                    Json::Text(text) => assert_eq!(text, "x"),
                    Json::Number(text, value) => {
                        assert_eq!(text, "7");
                        assert_eq!(*value, Some(7));
                    }
                    other => panic!("{other:?}"),
                }
            }
        }
        other => panic!("{other:?}"),
    }
    // Any JSON is handed on, and a busy engine is asked for nothing.
    assert!(matches!(
        desk.app.mcp_command("add local null", &Vec::new()),
        Ok(McpAction::Add { definition: Json::Null, .. })
    ));
    desk.app.busy = true;
    assert_eq!(
        desk.app.mcp_command("add local {", &Vec::new()).unwrap_err(),
        "Wait for the active run or cancel it with Ctrl+C"
    );
}

#[test]
fn a_model_is_added_as_json_or_as_a_reference() {
    let desk = desk();
    match desk.app.model_command(r#"add fast {"id":"gpt-5"}"#) {
        Ok(ModelAction::Add { name, definition: Definition::Object(Json::Object(members)) }) => {
            assert_eq!(name, "fast");
            assert_eq!(members.len(), 1);
            assert_eq!(members[0].key, "id");
            assert!(matches!(&members[0].value, Json::Text(text) if text == "gpt-5"));
        }
        other => panic!("{other:?}"),
    }
    match desk.app.model_command("add fast openai:gpt-5") {
        Ok(ModelAction::Add { name, definition: Definition::Reference(reference) }) => {
            assert_eq!(name, "fast");
            assert_eq!(reference, "openai:gpt-5");
        }
        other => panic!("{other:?}"),
    }
    assert_eq!(
        desk.app.model_command(r#"add fast {"id":"#).unwrap_err(),
        fault(r#"{"id":"#)
    );
}

#[test]
fn arguments_that_are_no_json_are_a_text() {
    assert!(matches!(arguments_of("{}"), Json::Object(members) if members.is_empty()));
    assert!(matches!(arguments_of("true"), Json::Bool(true)));
    assert!(matches!(arguments_of(r#""ls""#), Json::Text(text) if text == "ls"));
    assert!(matches!(arguments_of("ls -l"), Json::Text(text) if text == "ls -l"));
    assert!(matches!(arguments_of(""), Json::Text(text) if text.is_empty()));
}

#[test]
fn what_the_host_did_is_noted() {
    let mut desk = desk();
    desk.app.workflows_listed(&vec!["one.json".to_owned(), "two.json".to_owned()]);
    assert_eq!(desk.app.entries.last().unwrap().text, "one.json\ntwo.json");
    desk.app.skill_installed("/skills/draw");
    assert_eq!(desk.app.entries.last().unwrap().text, "Installed /skills/draw");
    desk.app.exported("/tmp/out");
    assert_eq!(desk.app.entries.last().unwrap().text, "Exported /tmp/out");
    assert!(desk.app.entries.iter().all(|entry| entry.role == "status"));
}

#[test]
fn choosing_a_server_turns_it_on_unless_it_is_on() {
    let server = |name: &str, enabled: bool| McpServer {
        name: name.to_owned(),
        uuid: "u".to_owned(),
        enabled,
    };
    let servers = vec![server("browser", false), server("search", true)];
    assert!(mcp_toggled("browser", &servers));
    assert!(!mcp_toggled("search", &servers));
    assert!(mcp_toggled("missing", &servers));
    let twice = vec![server("search", false), server("search", true)];
    assert!(!mcp_toggled("search", &twice));
    assert!(mcp_toggled("search", &Vec::new()));
}

#[test]
fn mouse_wheel_routes_to_overlay_or_transcript_and_saturates() {
    let mut desk = desk();
    desk.app.scroll = usize::MAX;
    desk.app.handle_mouse(MouseKind::ScrollUp);
    assert_eq!(desk.app.scroll, usize::MAX);
    desk.app.handle_mouse(MouseKind::ScrollDown);
    assert_eq!(desk.app.scroll, usize::MAX - 3);
    desk.app.help = true;
    desk.app.overlay_scroll = 0;
    desk.app.handle_mouse(MouseKind::ScrollUp);
    assert_eq!(desk.app.overlay_scroll, 3);
    desk.app.handle_mouse(MouseKind::ScrollDown);
    assert_eq!(desk.app.overlay_scroll, 0);
    desk.app.help = false;
    desk.approval();
    let scroll_before = desk.app.scroll;
    desk.app.overlay_scroll = 1;
    desk.app.handle_mouse(MouseKind::ScrollUp);
    assert_eq!(desk.app.overlay_scroll, 4);
    assert_eq!(desk.app.scroll, scroll_before);
    desk.app.handle_mouse(MouseKind::Other);
    desk.app.handle_mouse(MouseKind::LeftDown);
    assert_eq!(desk.app.scroll, scroll_before);
}

#[test]
fn help_modal_routes_keys_above_picker_and_run() {
    let mut desk = desk();
    desk.app.busy = true;
    desk.command("/theme").unwrap();
    assert!(desk.app.picker.is_some());
    desk.command("/help").unwrap();
    assert!(desk.app.help);
    assert!(!desk.press(KeyCode::Esc));
    assert!(!desk.app.help);
    assert!(desk.app.picker.is_some());
    assert!(!desk.cancelled);
    desk.command("/help").unwrap();
    assert!(desk.app.help);
    assert!(!desk.key(control(KeyCode::Char('c'))));
    assert!(!desk.app.help);
    assert!(!desk.cancelled);
    assert!(!desk.press(KeyCode::Esc));
    assert!(desk.app.picker.is_none());
    assert!(!desk.cancelled);
}

#[test]
fn bare_q_closes_help_without_touching_picker_or_run() {
    let mut desk = desk();
    desk.app.busy = true;
    desk.command("/theme").unwrap();
    desk.command("/help").unwrap();
    assert!(desk.app.help);
    assert!(!desk.press(KeyCode::Char('q')));
    assert!(!desk.app.help);
    assert!(desk.app.picker.is_some());
    assert!(!desk.cancelled);
}

#[test]
fn approval_routes_keys_above_every_other_modal() {
    let mut desk = desk();
    desk.app.busy = true;
    desk.command("/help").unwrap();
    desk.command("/theme").unwrap();
    desk.approval();
    assert!(!desk.press(KeyCode::Esc));
    assert_eq!(desk.replies, [Decision::Reject]);
    assert!(desk.app.help);
    assert!(desk.app.picker.is_some());
    assert!(!desk.cancelled);
}

#[test]
fn workflow_complete_modal_sits_above_picker() {
    let mut desk = desk();
    desk.in_workflow("plan", true);
    desk.command("/theme").unwrap();
    assert!(desk.app.picker.is_some());
    assert!(!desk.press(KeyCode::Esc));
    assert!(!desk.app.workflow_complete);
    assert!(desk.app.workflow_mode.is_none());
    assert!(desk.app.picker.is_some());
    assert!(!desk.press(KeyCode::Esc));
    assert!(desk.app.picker.is_none());
}

#[test]
fn workflow_n_preserves_user_draft() {
    let mut desk = desk();
    desk.in_workflow("plan", true);
    desk.queue("queued first");
    desk.queue("queued second");
    desk.block(2);
    desk.type_into("user draft I do not want to lose");
    let cursor = desk.app.input.cursor;
    assert!(!desk.press(KeyCode::Char('n')));
    assert!(!desk.app.workflow_complete);
    assert!(desk.app.queue_blocked.is_none());
    assert_eq!(desk.queued(), ["queued first", "queued second"]);
    assert_eq!(desk.app.input.text, "user draft I do not want to lose");
    assert_eq!(desk.app.input.cursor, cursor);
}

#[test]
fn workflow_r_clears_queue_blocked_and_preserves_queued_inputs() {
    let mut desk = desk();
    desk.workflows.push("plan");
    desk.in_workflow("plan", true);
    desk.app.last_workflow_input = Some("repeat me".into());
    desk.queue("queued first");
    desk.queue("queued second");
    desk.block(2);

    assert!(!desk.press(KeyCode::Char('r')));

    assert!(desk.app.queue_blocked.is_none());
    assert_eq!(desk.app.workflow_mode.as_deref(), Some("plan"));
    assert!(!desk.app.workflow_complete);
    assert_eq!(desk.queued(), ["queued first", "queued second"]);
    assert!(matches!(
        &desk.launches[0],
        Launch::Workflow { name, input } if name == "plan" && input == "repeat me"
    ));
}

#[test]
fn tab_is_blocked_across_all_workflow_mode_states() {
    let mut desk = desk();
    desk.agents = vec![agent("alpha"), agent("beta")];

    desk.app.workflow_mode = Some("plan".into());
    desk.type_into("keep my draft 漢");
    let cursor = desk.app.input.cursor;
    assert!(!desk.press(KeyCode::Tab));
    assert!(!desk.key(shift(KeyCode::BackTab)));
    assert_eq!(desk.app.status, "Agent cycling disabled in workflow mode");
    assert!(desk.agent().is_none());
    assert_eq!(desk.app.workflow_mode.as_deref(), Some("plan"));
    assert_eq!(desk.app.input.text, "keep my draft 漢");
    assert_eq!(desk.app.input.cursor, cursor);
    desk.app.status = "Ready".into();

    desk.block(1);
    desk.queue("next");
    assert!(!desk.press(KeyCode::Tab));
    assert!(!desk.key(shift(KeyCode::BackTab)));
    assert_eq!(desk.app.status, "Agent cycling disabled in workflow mode");
    assert!(desk.agent().is_none());
    assert_eq!(desk.app.workflow_mode.as_deref(), Some("plan"));
    assert!(desk.app.queue_blocked.is_some());
    assert_eq!(desk.queued(), ["next"]);
    desk.app.queue_blocked = None;
    desk.app.queued_inputs.clear();
    desk.app.status = "Ready".into();

    desk.in_workflow("plan", true);
    desk.type_into("user draft");
    assert!(!desk.press(KeyCode::Tab));
    assert!(desk.app.workflow_complete);
    assert_eq!(desk.app.workflow_mode.as_deref(), Some("plan"));
    assert_eq!(desk.app.input.text, "user draft");
    assert_eq!(desk.app.status, "Ready");
    assert!(!desk.press(KeyCode::Char('q')));
    assert!(!desk.app.workflow_complete);
    assert!(desk.app.workflow_mode.is_none());
    desk.app.status = "Ready".into();

    desk.type_into("kept draft");
    let cursor = desk.app.input.cursor;
    let before = desk.app.selection.agent.clone();
    assert!(!desk.press(KeyCode::Tab));
    assert_ne!(desk.app.selection.agent, before);
    assert_eq!(desk.app.status, "Ready");
    assert_eq!(desk.app.input.text, "kept draft");
    assert_eq!(desk.app.input.cursor, cursor);
    assert_eq!(desk.app.workflow_mode, None);
    assert!(!desk.key(shift(KeyCode::BackTab)));
    assert_eq!(desk.app.selection.agent, before);
    assert!(desk.launches.is_empty());
}

#[test]
fn empty_enter_retries_blocked_queue_preserving_draft() {
    let mut desk = desk();
    desk.workflows.push("good");
    desk.app.workflow_mode = Some("good".into());
    desk.queue("queued");
    desk.block(1);
    desk.type_into("");
    assert!(desk.press(KeyCode::Enter));
    desk.submit().unwrap();
    assert!(desk.app.queue_blocked.is_none());
    assert!(desk.app.busy);
    assert!(desk.queued().is_empty());
    desk.app.workflow_mode = None;
    desk.app.cancel_and_join();

    desk.app.workflow_mode = Some("good".into());
    desk.queue("front");
    desk.block(1);
    desk.app.busy = true;
    let draft = "this is the user draft they want to keep";
    desk.type_into(draft);
    assert!(desk.press(KeyCode::Enter));
    desk.submit().unwrap();
    assert_eq!(desk.app.input.text, "");
    assert_eq!(desk.queued(), ["front", draft]);
    assert!(desk.app.queue_blocked.is_some());
}

#[test]
fn enter_retry_succeeds_and_clears_blocked_state() {
    let mut desk = desk();
    desk.workflows.push("good");
    desk.app.workflow_mode = Some("good".into());
    desk.block(1);
    desk.queue("go");
    desk.type_into("");
    assert!(desk.press(KeyCode::Enter));
    desk.submit().unwrap();
    assert!(desk.app.queue_blocked.is_none());
    assert!(desk.app.busy);
}

#[test]
fn clear_resets_blocked_queue_and_workflow_state() {
    let mut desk = desk();
    desk.in_workflow("plan", true);
    desk.queue("a");
    desk.queue("b");
    desk.block(2);
    desk.type_into("draft to drop");
    desk.command("/clear").unwrap();
    assert!(desk.app.queue_blocked.is_none());
    assert!(desk.queued().is_empty());
    assert!(desk.app.workflow_mode.is_none());
    assert!(!desk.app.workflow_complete);
    assert!(desk.app.last_workflow_input.is_none());
    assert_eq!(desk.app.input.text, "");
}

#[test]
fn clear_clears_view_state_and_reload_preserves_it() {
    let mut desk = desk();
    desk.app.message("main".into(), Message::new("user", "keep me"));
    desk.app.event(UiEvent::Delta { context: "main".into(), text: "partial".into() });
    desk.app.event(UiEvent::Activity(tool_start("tool-1", "tool-1 title", Some("req-1"))));
    desk.app.scroll = 12;
    desk.app.input_history.push("prior".into());
    desk.app.history_index = 1;
    let theme_before = desk.shown_theme();

    desk.command("/clear").unwrap();
    assert!(desk.app.entries.is_empty());
    assert!(desk.app.streams.is_empty());
    assert!(desk.app.timeline.is_empty());
    assert!(desk.app.activities.is_empty());
    assert!(desk.app.activity_index.is_empty());
    assert!(desk.app.pending_activity_ends.is_empty());
    assert!(desk.app.activity_by_context.is_empty());
    assert!(desk.app.activity_by_external.is_empty());
    assert_eq!(desk.app.scroll, 0);
    assert_eq!(desk.app.history_index, 0);
    assert_eq!(desk.shown_theme(), theme_before);
    assert_eq!(desk.app.selection.agent, None);
    assert_eq!(desk.app.selection.model, None);

    desk.app.message("main".into(), Message::new("user", "again"));
    desk.app.event(UiEvent::Delta { context: "main".into(), text: "again".into() });
    assert!(!desk.app.entries.is_empty());
    desk.command("/new").unwrap();
    assert!(desk.app.entries.is_empty());
    assert!(desk.app.streams.is_empty());
    assert!(desk.app.timeline.is_empty());
    assert!(desk.app.activities.is_empty());

    desk.app.message("main".into(), Message::new("user", "survive"));
    desk.app.event(UiEvent::Delta { context: "main".into(), text: "delta".into() });
    desk.app.event(UiEvent::Activity(tool_start(
        "tool-survives",
        "tool-survives",
        Some("req-survives"),
    )));
    desk.app.scroll = 5;
    let entries = desk.app.entries.len();
    let timeline = desk.app.timeline.len();
    let activities = desk.app.activities.len();
    assert!(entries >= 1);
    assert!(activities >= 1);
    desk.command("/reload").unwrap();
    assert_eq!(desk.app.entries.len(), entries + 1);
    assert!(!desk.app.streams.is_empty());
    assert_eq!(desk.app.timeline.len(), timeline + 1);
    assert_eq!(desk.app.activities.len(), activities);
    assert_eq!(desk.app.scroll, 5);
    assert!(desk.app.entries.iter().any(|e| e.text.contains("Configuration reloaded")));
}

#[test]
fn two_queued_items_keep_fifo_across_blocked_then_success() {
    let mut desk = desk();
    desk.workflows.push("good");
    desk.app.workflow_mode = Some("bad".into());
    desk.queue("first");
    desk.queue("second");
    desk.app.busy = true;
    assert!(desk.finish(RunOutcome::Done));
    assert_eq!(desk.queued(), ["first", "second"]);
    desk.app.workflow_mode = Some("good".into());
    desk.block(2);
    desk.type_into("");
    assert!(desk.press(KeyCode::Enter));
    desk.submit().unwrap();
    assert!(desk.app.queue_blocked.is_none());
    assert!(desk.app.busy);
    assert_eq!(desk.queued(), ["second"]);
}

#[test]
fn mouse_wheel_routes_to_open_picker() {
    let mut desk = desk();
    for (name, model) in [("alias-0", "model-0"), ("alias-1", "model-1"), ("alias-2", "model-2")] {
        desk.aliases.push(Alias { name, model, ..thinker() });
    }
    for (name, model) in [("alias-3", "model-3"), ("alias-4", "model-4"), ("alias-5", "model-5")] {
        desk.aliases.push(Alias { name, model, ..thinker() });
    }
    desk.command("/model").unwrap();
    let scroll_before = desk.app.scroll;
    let initial = desk.app.picker.as_ref().unwrap().selected;
    desk.app.handle_mouse(MouseKind::ScrollDown);
    let after_down = desk.app.picker.as_ref().unwrap().selected;
    assert!(after_down >= initial);
    assert_eq!(desk.app.scroll, scroll_before);
    desk.app.handle_mouse(MouseKind::ScrollUp);
    let after_up = desk.app.picker.as_ref().unwrap().selected;
    assert!(after_up <= after_down);
    desk.app.handle_mouse(MouseKind::LeftDown);
    assert_eq!(desk.app.picker.as_ref().unwrap().selected, after_up);
    assert!(!desk.press(KeyCode::Esc));
    assert!(desk.app.picker.is_none());
    desk.app.scroll = 6;
    desk.app.handle_mouse(MouseKind::ScrollDown);
    assert_eq!(desk.app.scroll, 3);
    desk.app.handle_mouse(MouseKind::ScrollUp);
    assert_eq!(desk.app.scroll, 6);
}

#[test]
fn picker_preserves_state_on_fallible_model_selection() {
    let mut desk = desk();
    desk.aliases.push(Alias {
        name: "broken",
        provider: "ghost-provider",
        model: "does-not-resolve",
        ..thinker()
    });
    desk.command("/model").unwrap();
    desk.app.paste("brkn");
    assert!(!desk.press(KeyCode::Enter));
    assert!(desk.app.picker.is_some());
    let error = desk.app.entries.iter().rev().find(|e| e.role == "error").unwrap();
    assert_eq!(error.text, "Unknown provider: ghost-provider");
    assert_eq!(desk.app.status, "Model not selected: broken");
    assert_eq!(desk.app.picker.as_ref().unwrap().query.text, "brkn");
}

#[test]
fn picker_preserves_state_on_fallible_agent_selection() {
    let mut desk = desk();
    desk.agents = vec![Agent { model: Some("ghost-provider:foo"), ..agent("broken") }];
    desk.command("/agent").unwrap();
    desk.app.paste("brkn");
    assert!(!desk.press(KeyCode::Enter));
    assert!(desk.app.picker.is_some());
    assert!(desk.agent().is_none());
    assert_eq!(desk.app.status, "Agent not selected: broken");
}

#[test]
fn queue_blocked_with_draft_and_no_busy_queues_behind_parked_front() {
    let mut desk = desk();
    desk.workflows.push("good");
    desk.app.workflow_mode = Some("good".into());
    desk.queue("parked-front");
    desk.block(1);
    let draft = "user draft that must be queued, not started";
    desk.type_into(draft);
    assert!(desk.press(KeyCode::Enter));
    desk.submit().unwrap();
    assert_eq!(desk.queued(), ["parked-front", draft]);
    assert!(!desk.app.busy);
    assert!(desk.app.queue_blocked.is_some());
    assert_eq!(desk.app.input.text, "");
    assert!(desk.app.input_history.iter().any(|s| s == draft));
    assert_eq!(
        desk.app.status,
        "Queued 2 message(s) | blocked at front; press Enter to retry"
    );
}

#[test]
fn queue_blocked_with_draft_and_busy_queues_behind_parked_front() {
    let mut desk = desk();
    desk.app.busy = true;
    desk.app.workflow_mode = Some("good".into());
    desk.queue("parked-front");
    desk.block(1);
    let draft = "draft while busy and blocked";
    desk.type_into(draft);
    assert!(desk.press(KeyCode::Enter));
    desk.submit().unwrap();
    assert_eq!(desk.queued(), ["parked-front", draft]);
    assert!(desk.app.queue_blocked.is_some());
    assert!(desk.app.busy);
    assert!(desk.launches.is_empty());
    assert_eq!(desk.app.input.text, "");
}

#[test]
fn retry_queued_refuses_and_reparks_when_busy() {
    let mut desk = desk();
    desk.workflows.push("good");
    desk.app.workflow_mode = Some("good".into());
    desk.queue("parked");
    desk.block(1);
    desk.app.busy = true;
    assert!(desk.press(KeyCode::Enter));
    desk.submit().unwrap();
    assert_eq!(desk.queued(), ["parked"]);
    assert!(desk.app.queue_blocked.is_some());
    assert!(desk.app.status.contains("Queue blocked; wait for the active run"));
    assert!(desk.app.busy);
    assert!(desk.launches.is_empty());
    assert!(matches!(desk.app.retry_queued(), Submission::Stay));
    assert_eq!(desk.queued(), ["parked"]);
}

#[test]
fn workflow_complete_q_and_esc_clear_queue_blocked() {
    let mut desk = desk();
    desk.in_workflow("plan", true);
    desk.queue("parked-front");
    desk.block(1);
    assert!(!desk.press(KeyCode::Char('q')));
    assert!(!desk.app.workflow_complete);
    assert!(desk.app.workflow_mode.is_none());
    assert!(desk.app.last_workflow_input.is_none());
    assert!(desk.app.queue_blocked.is_none());
    assert_eq!(desk.queued(), ["parked-front"]);

    desk.in_workflow("plan", true);
    desk.block(1);
    desk.queue("parked-again");
    assert!(!desk.press(KeyCode::Esc));
    assert!(desk.app.workflow_mode.is_none());
    assert!(desk.app.queue_blocked.is_none());
    assert_eq!(desk.queued(), ["parked-front", "parked-again"]);
}

#[test]
fn reload_clears_queue_blocked() {
    let mut desk = desk();
    desk.in_workflow("plan", true);
    desk.queue("parked");
    desk.block(1);
    desk.command("/reload").unwrap();
    assert!(desk.app.queue_blocked.is_none());
    assert!(desk.app.workflow_mode.is_none());
    assert!(!desk.app.workflow_complete);
    assert!(desk.app.last_workflow_input.is_none());
    assert_eq!(desk.queued(), ["parked"]);
}

#[test]
fn agent_command_and_picker_clear_queue_blocked() {
    let mut desk = desk();
    desk.agents = vec![agent("alpha")];
    desk.in_workflow("plan", true);
    desk.block(1);
    desk.queue("parked");
    desk.command("/agent alpha").unwrap();
    assert!(desk.app.queue_blocked.is_none());
    assert!(desk.app.workflow_mode.is_none());
    assert_eq!(desk.agent(), Some("alpha"));
    assert_eq!(desk.queued(), ["parked"]);

    desk.in_workflow("plan", false);
    desk.block(1);
    desk.command("/agent").unwrap();
    desk.app.paste("alpha");
    assert!(!desk.press(KeyCode::Enter));
    assert!(desk.app.queue_blocked.is_none());
    assert!(desk.app.workflow_mode.is_none());
    assert_eq!(desk.agent(), Some("alpha"));
}

#[test]
fn workflow_complete_overlay_accepts_overlay_scroll_keys() {
    let mut desk = desk();
    desk.in_workflow("plan", true);
    desk.block(1);
    let transcript = desk.app.scroll;
    assert!(!desk.press(KeyCode::PageDown));
    assert_eq!(desk.app.overlay_scroll, 10);
    assert!(!desk.press(KeyCode::PageUp));
    assert_eq!(desk.app.overlay_scroll, 0);
    assert_eq!(desk.app.scroll, transcript);
    desk.app.overlay_scroll = 5;
    assert!(!desk.press(KeyCode::End));
    assert_eq!(desk.app.overlay_scroll, usize::MAX);
    assert!(!desk.press(KeyCode::Home));
    assert_eq!(desk.app.overlay_scroll, 0);
}

#[test]
fn mouse_wheel_scrolls_workflow_complete_overlay_not_transcript() {
    let mut desk = desk();
    desk.in_workflow("plan", true);
    let transcript = desk.app.scroll;
    desk.app.handle_mouse(MouseKind::ScrollUp);
    assert_eq!(desk.app.overlay_scroll, 3);
    assert_eq!(desk.app.scroll, transcript);
    desk.app.handle_mouse(MouseKind::ScrollDown);
    assert_eq!(desk.app.overlay_scroll, 0);
    desk.app.handle_mouse(MouseKind::Other);
    assert_eq!(desk.app.overlay_scroll, 0);
    assert_eq!(desk.app.scroll, transcript);
}

#[test]
fn join_error_sets_a_sane_status_instead_of_leaving_running_stale() {
    let mut desk = desk();
    desk.app.busy = true;
    desk.app.status = "Running | Ctrl+C to cancel".into();
    assert!(desk.finish(RunOutcome::Lost("task panicked".to_owned())));
    assert_eq!(desk.app.status, "Run failed: task panicked");
    assert!(!desk.app.busy);
    assert_eq!(desk.app.entries.last().unwrap().text, "Run failed: task panicked");

    desk.app.busy = true;
    assert!(desk.finish(RunOutcome::Failed("provider said no".to_owned())));
    assert_eq!(desk.app.status, "Run ended");
    assert_eq!(desk.app.entries.last().unwrap().role, "error");
    assert_eq!(desk.app.entries.last().unwrap().text, "provider said no");
}

#[test]
fn ui_event_activity_records_into_the_spine_without_touching_chat_state() {
    let mut desk = desk();
    let entries = desk.app.entries.len();
    let status = desk.app.status.clone();
    desk.app.event(UiEvent::Activity(tool_start("act-1", "web_search", Some("req-1"))));
    assert_eq!(desk.app.entries.len(), entries);
    assert_eq!(desk.app.status, status);
    assert_eq!(desk.app.input.text, "");
    assert_eq!(desk.app.scroll, 0);
    assert_eq!(desk.app.overlay_scroll, 0);
    assert_eq!(desk.app.timeline.len(), 1);
    assert!(matches!(&desk.app.timeline[0], TimelineItem::Activity(id) if id == "act-1"));
    let node = desk.app.activity("act-1").unwrap();
    assert_eq!(node.start.kind, ActivityKind::Tool);
    assert!(!node.expanded);
}

#[test]
fn workflow_complete_exit_leaves_no_orphaned_handles() {
    let mut desk = desk();
    desk.app.busy = true;
    desk.in_workflow("plan", true);
    desk.queue("parked");
    desk.block(1);
    assert!(!desk.press(KeyCode::Char('q')));
    assert!(desk.app.busy);
    assert!(desk.app.queue_blocked.is_none());
    assert!(desk.app.workflow_mode.is_none());
    assert!(!desk.app.workflow_complete);
    assert!(desk.app.last_workflow_input.is_none());
    assert!(desk.app.cancel_and_join());
    assert!(!desk.app.busy);
    assert!(!desk.app.cancel_and_join());
}

#[test]
fn alternate_enter_and_ctrl_j_insert_newlines_without_submitting() {
    let mut desk = desk();
    let alt = Modifiers { alt: true, ..Modifiers::none() };
    assert!(!desk.key(KeyEvent::new(KeyCode::Enter, alt)));
    assert!(!desk.key(control(KeyCode::Char('j'))));
    assert_eq!(desk.app.input.text, "\n\n");
    assert!(!desk.app.quit);
}

#[test]
fn ctrl_d_quits_only_with_empty_input_and_preserves_nonempty_text() {
    let mut desk = desk();
    desk.type_into("retain this draft");
    assert!(!desk.key(control(KeyCode::Char('d'))));
    assert!(!desk.app.quit);
    assert_eq!(desk.app.input.text, "retain this draft");

    desk.type_into("");
    assert!(!desk.key(control(KeyCode::Char('d'))));
    assert!(desk.app.quit);
}

#[test]
fn conversation_scroll_keys_work_without_activity_focus_and_do_not_change_history() {
    let mut desk = desk();
    desk.app.input_history = vec!["older request".into(), "newer request".into()];
    desk.app.history_index = 2;
    desk.type_into("draft");

    assert!(!desk.press(KeyCode::PageUp));
    assert_eq!(desk.app.scroll, 10);
    assert!(!desk.press(KeyCode::PageDown));
    assert_eq!(desk.app.scroll, 0);
    assert!(!desk.key(control(KeyCode::Home)));
    assert_eq!(desk.app.scroll, usize::MAX);
    assert!(!desk.key(control(KeyCode::End)));
    assert_eq!(desk.app.scroll, 0);
    assert_eq!(desk.app.history_index, 2);
    assert_eq!(desk.app.input.text, "draft");
}

#[test]
fn slash_commands_are_available_mid_run_without_entering_the_queue() {
    let mut desk = desk();
    desk.app.busy = true;
    for command in ["/tools", "/mcp", "/theme", "/help", "/cost"] {
        desk.type_into(command);
        desk.submit().unwrap();
        assert!(desk.queued().is_empty(), "{command} must not be queued");
        assert!(desk.app.busy, "{command} must not stop the run");
    }
    for command in ["/model", "/effort", "/agent", "/mode", "/workflow", "/reload", "/nothing"] {
        desk.type_into(command);
        let refused = desk.submit().unwrap_err();
        assert_eq!(refused, "Wait for the active run or cancel it with Ctrl+C");
    }
}

#[test]
fn clear_and_new_drop_queued_messages() {
    let mut desk = desk();
    desk.queue("first pending");
    desk.queue("second pending");
    desk.command("/clear").unwrap();
    assert!(desk.queued().is_empty());

    desk.queue("third pending");
    desk.command("/new").unwrap();
    assert!(desk.queued().is_empty());
}

#[test]
fn commands_are_split_at_white_space() {
    assert_eq!(split_head("  /agent\t operator  deep "), ("/agent".into(), "operator  deep".into()));
    assert_eq!(split_head("/quit"), ("/quit".into(), String::new()));
    assert_eq!(split_head("   "), (String::new(), String::new()));
}

#[test]
fn switches_read_four_words() {
    assert_eq!(toggle("on"), Ok(true));
    assert_eq!(toggle("activate"), Ok(true));
    assert_eq!(toggle("off"), Ok(false));
    assert_eq!(toggle("deactivate"), Ok(false));
    assert!(toggle("On").is_err());
    assert_eq!(state(true), "on ");
    assert_eq!(state(false), "off");
}

#[test]
fn unknown_commands_are_named() {
    let mut desk = desk();
    assert_eq!(
        desk.command("/nothing at all").unwrap_err(),
        "Unknown command: /nothing; /help lists commands"
    );
}

#[test]
fn tools_are_listed_and_switched() {
    let mut desk = desk();
    desk.command("/tools").unwrap();
    assert_eq!(last_status(&desk.app), "on  read_file\noff shell");
    desk.command("/tools shell on").unwrap();
    assert_eq!(last_status(&desk.app), "Tool shell: on");
    desk.command("/tools mcp_browser_open off").unwrap();
    assert_eq!(last_status(&desk.app), "Tool mcp_browser_open: off");
    assert_eq!(desk.command("/tools ghost on").unwrap_err(), "Unknown tool: ghost");
    assert_eq!(
        desk.command("/tools shell perhaps").unwrap_err(),
        "Expected on/off (or activate/deactivate)"
    );
}

#[test]
fn skills_are_listed_and_switched() {
    let mut desk = desk();
    let skills = vec![
        SkillInfo { name: "draw".to_owned(), description: "Draws".to_owned() },
        SkillInfo { name: "sing".to_owned(), description: "Sings".to_owned() },
    ];
    let enabled = vec!["sing".to_owned()];
    assert_eq!(desk.app.skills_command("", &skills, &enabled), Ok(None));
    assert_eq!(last_status(&desk.app), "off draw - Draws\non  sing - Sings");
    assert_eq!(
        desk.app.skills_command("draw on", &skills, &enabled),
        Ok(Some(vec!["sing".to_owned(), "draw".to_owned()]))
    );
    assert_eq!(desk.app.skills_command("sing off", &skills, &enabled), Ok(Some(vec![])));
    assert_eq!(
        desk.app.skills_command("fly on", &skills, &enabled),
        Err("Skill not installed".to_owned())
    );
    assert_eq!(
        desk.app.skills_command("draw maybe", &skills, &enabled),
        Err("Expected on/off (or activate/deactivate)".to_owned())
    );
}

#[test]
fn modes_are_listed_and_resolved_behind_agents() {
    let mut desk = desk();
    desk.agents = vec![operator()];
    desk.command("/mode").unwrap();
    assert_eq!(last_status(&desk.app), "Modes: plan");
    desk.command("/mode plan").unwrap();
    assert_eq!(desk.agent(), Some("operator"));
    assert_eq!(desk.app.selection.agent_mode.as_deref(), Some("deep"));
    assert_eq!(desk.app.workflow_mode.as_deref(), Some("planner"));
    assert_eq!(desk.app.mode.as_deref(), Some("plan"));
    assert_eq!(desk.command("/mode ghost").unwrap_err(), "Unknown mode");
    desk.command("/mode operator").unwrap();
    assert_eq!(desk.app.workflow_mode, None);
    assert_eq!(desk.app.mode, None);
    desk.command("/mode default").unwrap();
    assert_eq!(desk.agent(), None);
}

#[test]
fn one_agent_alone_is_not_cycled() {
    let mut desk = desk();
    assert!(!desk.press(KeyCode::Tab));
    assert_eq!(desk.app.status, "Only one agent is configured");
}

#[test]
fn an_approval_whose_requester_left_is_not_shown() {
    let mut desk = desk();
    desk.app.event(UiEvent::Approval {
        title: "late".to_owned(),
        detail: String::new(),
        workflow: false,
        open: false,
    });
    assert!(desk.app.approval.is_none());
    desk.app.approval =
        Some(Approval { title: "x".to_owned(), detail: "y".to_owned(), workflow: true });
    desk.press(KeyCode::Char('s'));
    assert_eq!(desk.replies, [Decision::Skip]);
}
