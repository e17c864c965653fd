//! Plain values that the engine and the terminal exchange with the library.
use crate::text::same;
use vstd::prelude::*;
use vstd::string::*;

verus! {

/// What an activity is.
#[derive(Debug, Clone, Copy, PartialEq, Eq, Structural)]
pub enum ActivityKind {
    Tool,
    Subagent,
    WorkflowStep,
}

/// Which end of an activity an event reports.
#[derive(Debug, Clone, Copy, PartialEq, Eq, Structural)]
pub enum ActivityPhase {
    Start,
    End,
}

/// How an activity ended.
#[derive(Debug, Clone, Copy, PartialEq, Eq, Structural)]
pub enum ActivityStatus {
    Success,
    Error,
    Cancelled,
    Denied,
}

/// A key without its modifiers.
#[derive(Debug, Clone, Copy, PartialEq, Eq, Structural)]
pub enum KeyCode {
    Char(char),
    F(u8),
    Enter,
    Esc,
    Tab,
    BackTab,
    Backspace,
    Delete,
    Left,
    Right,
    Up,
    Down,
    Home,
    End,
    PageUp,
    PageDown,
    Other,
}

/// Modifiers held with a key. `other` stands for the keys that no shortcut
/// uses, such as Super or Meta.
#[derive(Debug, Clone, Copy, PartialEq, Eq, Structural)]
pub struct Modifiers {
    pub shift: bool,
    pub control: bool,
    pub alt: bool,
    pub other: bool,
}

impl Modifiers {
    /// No modifier is held.
    pub open spec fn empty(self) -> bool {
        !self.shift && !self.control && !self.alt && !self.other
    }

    /// Whether no modifier is held.
    pub fn is_empty(self) -> (r: bool)
        ensures
            r == self.empty(),
    {
        !self.shift && !self.control && !self.alt && !self.other
    }

    /// No modifier at all.
    pub fn none() -> (r: Modifiers)
        ensures
            r.empty(),
            r == (Modifiers { shift: false, control: false, alt: false, other: false }),
    {
        Modifiers { shift: false, control: false, alt: false, other: false }
    }
}

/// A key press, repeat or release.
#[derive(Debug, Clone, Copy, PartialEq, Eq, Structural)]
pub struct KeyEvent {
    pub code: KeyCode,
    pub modifiers: Modifiers,
    pub release: bool,
}

impl KeyEvent {
    /// A press of `code` with `modifiers`.
    pub fn new(code: KeyCode, modifiers: Modifiers) -> (r: KeyEvent)
        ensures
            r == (KeyEvent { code, modifiers, release: false }),
    {
        KeyEvent { code, modifiers, release: false }
    }
}

/// What the mouse did.
#[derive(Debug, Clone, Copy, PartialEq, Eq, Structural)]
pub enum MouseKind {
    ScrollUp,
    ScrollDown,
    LeftDown,
    Other,
}

/// Colors and switches of a theme. Colors are hex strings.
#[derive(Debug)]
pub struct Theme {
    pub background: String,
    pub foreground: String,
    pub border: String,
    pub muted: String,
    pub accent: String,
    pub user: String,
    pub assistant: String,
    pub tool: String,
    pub error: String,
    pub warning: String,
    pub success: String,
    pub cta_foreground: String,
    pub cta_background: String,
    pub syntax_theme: String,
    pub ascii: bool,
    pub syntax_highlighting: bool,
}

/// Mathematical value of a theme.
pub struct ThemeView {
    pub background: Seq<char>,
    pub foreground: Seq<char>,
    pub border: Seq<char>,
    pub muted: Seq<char>,
    pub accent: Seq<char>,
    pub user: Seq<char>,
    pub assistant: Seq<char>,
    pub tool: Seq<char>,
    pub error: Seq<char>,
    pub warning: Seq<char>,
    pub success: Seq<char>,
    pub cta_foreground: Seq<char>,
    pub cta_background: Seq<char>,
    pub syntax_theme: Seq<char>,
    pub ascii: bool,
    pub syntax_highlighting: bool,
}

impl View for Theme {
    type V = ThemeView;

    open spec fn view(&self) -> ThemeView {
        ThemeView {
            background: self.background@,
            foreground: self.foreground@,
            border: self.border@,
            muted: self.muted@,
            accent: self.accent@,
            user: self.user@,
            assistant: self.assistant@,
            tool: self.tool@,
            error: self.error@,
            warning: self.warning@,
            success: self.success@,
            cta_foreground: self.cta_foreground@,
            cta_background: self.cta_background@,
            syntax_theme: self.syntax_theme@,
            ascii: self.ascii,
            syntax_highlighting: self.syntax_highlighting,
        }
    }
}

impl Theme {
    /// The same theme again.
    pub fn duplicate(&self) -> (r: Theme)
        ensures
            r == *self,
    {
        Theme {
            background: self.background.clone(),
            foreground: self.foreground.clone(),
            border: self.border.clone(),
            muted: self.muted.clone(),
            accent: self.accent.clone(),
            user: self.user.clone(),
            assistant: self.assistant.clone(),
            tool: self.tool.clone(),
            error: self.error.clone(),
            warning: self.warning.clone(),
            success: self.success.clone(),
            cta_foreground: self.cta_foreground.clone(),
            cta_background: self.cta_background.clone(),
            syntax_theme: self.syntax_theme.clone(),
            ascii: self.ascii,
            syntax_highlighting: self.syntax_highlighting,
        }
    }

    /// Whether two themes have the same colors and switches.
    pub fn same(&self, other: &Theme) -> (r: bool)
        ensures
            r == (self@ == other@),
    {
        same(self.background.as_str(), other.background.as_str()) && same(
            self.foreground.as_str(),
            other.foreground.as_str(),
        ) && same(self.border.as_str(), other.border.as_str()) && same(
            self.muted.as_str(),
            other.muted.as_str(),
        ) && same(self.accent.as_str(), other.accent.as_str()) && same(
            self.user.as_str(),
            other.user.as_str(),
        ) && same(self.assistant.as_str(), other.assistant.as_str()) && same(
            self.tool.as_str(),
            other.tool.as_str(),
        ) && same(self.error.as_str(), other.error.as_str()) && same(
            self.warning.as_str(),
            other.warning.as_str(),
        ) && same(self.success.as_str(), other.success.as_str()) && same(
            self.cta_foreground.as_str(),
            other.cta_foreground.as_str(),
        ) && same(self.cta_background.as_str(), other.cta_background.as_str()) && same(
            self.syntax_theme.as_str(),
            other.syntax_theme.as_str(),
        ) && self.ascii == other.ascii && self.syntax_highlighting == other.syntax_highlighting
    }
}

/// The text of an optional string.
pub open spec fn opt_text(s: Option<String>) -> Option<Seq<char>> {
    match s {
        Some(s) => Some(s@),
        None => None,
    }
}

/// The same optional string again.
pub fn copy_opt(s: &Option<String>) -> (r: Option<String>)
    ensures
        r == *s,
{
    match s {
        Some(s) => Some(s.clone()),
        None => None,
    }
}

/// One end of an activity: a tool call, a subagent or a workflow step.
#[derive(Debug)]
pub struct ActivityEvent {
    pub id: String,
    pub parent_id: Option<String>,
    pub context: String,
    pub kind: ActivityKind,
    pub phase: ActivityPhase,
    pub title: String,
    pub external_id: Option<String>,
    pub status: Option<ActivityStatus>,
}

/// Mathematical value of an activity event.
pub struct EventView {
    pub id: Seq<char>,
    pub parent: Option<Seq<char>>,
    pub context: Seq<char>,
    pub kind: ActivityKind,
    pub phase: ActivityPhase,
    pub title: Seq<char>,
    pub external: Option<Seq<char>>,
    pub status: Option<ActivityStatus>,
}

impl View for ActivityEvent {
    type V = EventView;

    open spec fn view(&self) -> EventView {
        EventView {
            id: self.id@,
            parent: opt_text(self.parent_id),
            context: self.context@,
            kind: self.kind,
            phase: self.phase,
            title: self.title@,
            external: opt_text(self.external_id),
            status: self.status,
        }
    }
}

impl ActivityEvent {
    /// The same event again.
    pub fn duplicate(&self) -> (r: ActivityEvent)
        ensures
            r == *self,
    {
        ActivityEvent {
            id: self.id.clone(),
            parent_id: copy_opt(&self.parent_id),
            context: self.context.clone(),
            kind: self.kind,
            phase: self.phase,
            title: self.title.clone(),
            external_id: copy_opt(&self.external_id),
            status: self.status,
        }
    }
}

/// A tool call that a model made. The arguments are text as the model wrote
/// it. The description is what the tool layer says of the call, given the
/// arguments as JSON.
#[derive(Debug)]
pub struct ToolCall {
    pub id: String,
    pub name: String,
    pub arguments: String,
    pub description: String,
}

/// A message of a conversation. `incomplete` holds the reason, possibly empty,
/// for which the provider's stream ended before its completion.
#[derive(Debug)]
pub struct Message {
    pub role: String,
    pub content: String,
    pub tool_calls: Vec<ToolCall>,
    pub tool_call_id: Option<String>,
    /// The model's reasoning. It is never shown.
    pub reasoning: Option<String>,
    pub incomplete: Option<String>,
}

/// Mathematical value of a tool call.
pub struct CallView {
    pub id: Seq<char>,
    pub name: Seq<char>,
    pub arguments: Seq<char>,
    pub description: Seq<char>,
}

impl View for ToolCall {
    type V = CallView;

    open spec fn view(&self) -> CallView {
        CallView {
            id: self.id@,
            name: self.name@,
            arguments: self.arguments@,
            description: self.description@,
        }
    }
}

/// Mathematical value of a message.
pub struct MessageView {
    pub role: Seq<char>,
    pub content: Seq<char>,
    pub calls: Seq<CallView>,
    pub call: Option<Seq<char>>,
    pub reasoning: Option<Seq<char>>,
    pub incomplete: Option<Seq<char>>,
}

impl View for Message {
    type V = MessageView;

    open spec fn view(&self) -> MessageView {
        MessageView {
            role: self.role@,
            content: self.content@,
            calls: self.tool_calls@.map_values(|c: ToolCall| c@),
            call: opt_text(self.tool_call_id),
            reasoning: opt_text(self.reasoning),
            incomplete: opt_text(self.incomplete),
        }
    }
}

impl Message {
    /// A message without tool calls.
    pub fn new(role: &str, content: &str) -> (r: Message)
        ensures
            r.role@ == role@,
            r.content@ == content@,
            r.tool_calls@.len() == 0,
            r.tool_call_id is None,
            r.reasoning is None,
            r.incomplete is None,
    {
        Message {
            role: role.to_owned(),
            content: content.to_owned(),
            tool_calls: Vec::new(),
            tool_call_id: None,
            reasoning: None,
            incomplete: None,
        }
    }

    /// The result of a tool call.
    pub fn tool(id: &str, content: &str) -> (r: Message)
        ensures
            r.role@ == "tool"@,
            r.content@ == content@,
            r.tool_calls@.len() == 0,
            r.tool_call_id is Some,
            r.tool_call_id->0@ == id@,
            r.reasoning is None,
            r.incomplete is None,
    {
        Message {
            role: "tool".to_owned(),
            content: content.to_owned(),
            tool_calls: Vec::new(),
            tool_call_id: Some(id.to_owned()),
            reasoning: None,
            incomplete: None,
        }
    }

    /// What came of an assistant's message whose stream ended early.
    pub fn incomplete_assistant(content: &str, reason: &str) -> (r: Message)
        ensures
            r.role@ == "assistant"@,
            r.content@ == content@,
            r.tool_calls@.len() == 0,
            r.tool_call_id is None,
            r.reasoning is None,
            r.incomplete is Some,
            r.incomplete->0@ == reason@,
    {
        let mut r = Message::new("assistant", content);
        r.incomplete = Some(reason.to_owned());
        r
    }
}

/// What a session has cost, as it is shown.
#[derive(Debug)]
pub struct Spend {
    pub label: String,
    pub unpriced_requests: u64,
}

/// The user's answer to an approval.
#[derive(Debug, Clone, Copy, PartialEq, Eq, Structural)]
pub enum Decision {
    Approve,
    Reject,
    Abort,
    Retry,
    Skip,
}

/// What the engine tells the user interface. The context `main` is the main
/// conversation; others belong to subagents and workflow steps.
#[derive(Debug)]
pub enum UiEvent {
    Model { context: String, provider: String, model: String, effort: Option<String> },
    Delta { context: String, text: String },
    Message { context: String, message: Message },
    Status { context: String, text: String },
    Spend(Spend),
    Context { context: String, tokens: u64 },
    /// `open` says whether the requester is still waiting for an answer.
    Approval { title: String, detail: String, workflow: bool, open: bool },
    Activity(ActivityEvent),
}

/// One event of a stored session.
#[derive(Debug)]
pub enum DisplayEvent {
    Message { context: String, message: Message },
    Activity(ActivityEvent),
}

/// What the user has selected to run with; `None` leaves the configuration's
/// choice.
#[derive(Debug)]
pub struct Selection {
    pub agent: Option<String>,
    pub agent_mode: Option<String>,
    pub model: Option<String>,
    pub effort: Option<String>,
}

impl Selection {
    /// Nothing is selected.
    pub open spec fn none(self) -> bool {
        self.agent is None && self.agent_mode is None && self.model is None && self.effort is None
    }

    /// The same selection again.
    pub fn duplicate(&self) -> (r: Selection)
        ensures
            r == *self,
    {
        Selection {
            agent: copy_opt(&self.agent),
            agent_mode: copy_opt(&self.agent_mode),
            model: copy_opt(&self.model),
            effort: copy_opt(&self.effort),
        }
    }
}

impl Default for Selection {
    fn default() -> (r: Selection)
        ensures
            r.none(),
            r == (Selection { agent: None, agent_mode: None, model: None, effort: None }),
    {
        Selection { agent: None, agent_mode: None, model: None, effort: None }
    }
}

/// The text of an optional reference.
pub open spec fn opt_view(s: Option<&str>) -> Option<Seq<char>> {
    match s {
        Some(s) => Some(s@),
        None => None,
    }
}

/// The agent in use, by its listed name.
pub open spec fn agent_in_use(s: Selection, default: Option<Seq<char>>) -> Seq<char> {
    match s.agent {
        Some(agent) => agent@,
        None => match default {
            Some(d) => d,
            None => "default"@,
        },
    }
}

/// A reference to the text of an optional string.
pub fn as_ref_str(s: &Option<String>) -> (r: Option<&str>)
    ensures
        opt_view(r) == opt_text(*s),
{
    match s {
        Some(s) => Some(s.as_str()),
        None => None,
    }
}

/// The agent in use, by its listed name: the selected one, else the default
/// one, else `default`.
pub fn used_agent(s: &Selection, default: Option<&str>) -> (r: String)
    ensures
        r@ == agent_in_use(*s, opt_view(default)),
{
    match &s.agent {
        Some(agent) => agent.clone(),
        None => match default {
            Some(d) => d.to_owned(),
            None => "default".to_owned(),
        },
    }
}

} // verus!
