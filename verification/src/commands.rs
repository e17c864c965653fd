//! Slash commands: what they mean, what they change, and what they ask of the
//! engine.
use crate::app::App;
use crate::json;
use crate::json::{read_json, Json};
use crate::keys;
use crate::model;
use crate::model::{Spend, Theme};
use crate::picker;
use crate::picker::{McpServer, Picker};
use crate::spine;
use crate::text;
use crate::text::{
    chars_of, decimal_text, is_white_space, join_text, same, starts_with_text, string_of, text2,
    text3, trim_text,
};
use vstd::prelude::*;
use vstd::string::*;

verus! {

/// The reference that `/help` shows.
pub const HELP: &'static str = r#"Commands
/agent [name|default]       Show or change the active agent
/mode [name|default]        Alias for changing agents; legacy modes still work
/model                    Browse/search models in a dialog
/model <alias|provider:id> Switch the active model directly
/model add <alias> <JSON>   Add a model to config and select it
/model add <alias> <ref>    Add an alias for provider:model-id
/effort [level|default]    Show or change supported reasoning effort
/mcp                      Open the searchable MCP on/off dialog
/mcp <name on|off|restart> Activate, deactivate, or restart MCP
/mcp add <name> <JSON>     Add a server; generate UUID if omitted
/theme [name|configured]  Browse/preview themes or select one directly
/tools [name on|off]       List or toggle tools at runtime
/mouse [on|off|toggle]    Session mouse capture; off restores native terminal selection
/workflow [file] [input]   List workflows or run one
/skills [name on|off]      List or activate installed skills
/install-skill <source>    Install a local/HTTPS skill
/export [directory]       Export the complete session as timestamped text
/clear                    Start a fresh session and reset spend/history
/new                      Alias for /clear; old session files remain
/cost                     Show session spend
/reload                   Reload config and reset runtime overrides
/help                     Show this reference
/quit or :q               Quit, cancelling active work

Examples
/model add fast openrouter:openai/gpt-4.1-mini
/mcp add demo {"transport":"stdio","command":"python3","args":["server.py"],"enabled":true}
/effort low

Keys
Enter: send | Alt+Enter or Ctrl+J: newline
Left/Right/Home/End: edit | Up/Down: input history
PageUp/PageDown/Home/End: scroll history, dialogs, or the workflow-complete overlay
Ctrl+Home/End: history top/bottom | Tab/Shift+Tab: next/previous agent
F6: focus transcript/activity | Esc: return to input
Activity focus: Up/Down select, Left/Right collapse/expand, Enter/Space toggle
Left-click: toggle a visible activity row | Wheel: scroll the active transcript, overlay, or picker
Ctrl+C: cancel | Ctrl+D: quit with empty input
Approvals: y approve, n reject, q abort (workflow approvals: r retry, s skip)
Pickers: type to fuzzy-filter, Up/Down browse, Enter select/toggle, Esc close
Workflow-complete: n new run | r repeat | q exit workflow
Esc: close dialogs or reject approval; bare Esc cancels the active run when no dialog or activity focus owns it

Fonts
The TUI uses your terminal emulator's selected system/monospace font.
No special font is required. Set theme.ascii=true for ASCII borders.
"#;

/// What a command asks of the engine.
#[derive(Debug)]
pub enum CommandAction {
    /// Nothing: the command is done.
    Done,
    Tools(String),
    Mcp(String),
    Theme(String),
    Model(String),
    Effort(String),
    Agent(String),
    Mode(String),
    ListWorkflows,
    RunWorkflow { name: String, input: String },
    Skills(String),
    InstallSkill(String),
    Export(String),
    Reset,
    Reload,
}

/// Where the first white space stands from `k` on, or the end.
pub open spec fn first_gap(s: Seq<char>, k: int) -> int
    decreases s.len() - k,
{
    if 0 <= k < s.len() && !text::white(s[k]) {
        first_gap(s, k + 1)
    } else {
        k
    }
}

/// The first word of a text.
pub open spec fn head_of(s: Seq<char>) -> Seq<char> {
    let t = text::trim(s);
    t.take(first_gap(t, 0))
}

/// What stands behind the first word of a text, trimmed.
pub open spec fn rest_of(s: Seq<char>) -> Seq<char> {
    let t = text::trim(s);
    let i = first_gap(t, 0);
    if i < t.len() {
        text::trim(t.skip(i + 1))
    } else {
        Seq::empty()
    }
}

/// The first word of a text and what stands behind it.
pub fn split_head(text: &str) -> (r: (String, String))
    ensures
        r.0@ == head_of(text@),
        r.1@ == rest_of(text@),
{
    let t = trim_text(text);
    let v = chars_of(t.as_str());
    let mut i: usize = 0;
    while i < v.len() && !is_white_space(v[i])
        invariant
            i <= v@.len(),
            first_gap(v@, 0) == first_gap(v@, i as int),
        decreases v@.len() - i,
    {
        i = i + 1;
    }
    let head = string_of(&v, 0, i);
    assert(head@ =~= t@.take(i as int));
    if i < v.len() {
        let tail = string_of(&v, i + 1, v.len());
        assert(tail@ =~= t@.skip(i + 1));
        (head, trim_text(tail.as_str()))
    } else {
        let empty = String::new();
        assert(empty@ =~= Seq::<char>::empty());
        (head, empty)
    }
}

/// Whether a word switches on or off.
pub open spec fn switch_of(s: Seq<char>) -> Option<bool> {
    if s == "on"@ || s == "activate"@ {
        Some(true)
    } else if s == "off"@ || s == "deactivate"@ {
        Some(false)
    } else {
        None
    }
}

/// Whether a word switches on or off; any other word is refused.
pub fn toggle(value: &str) -> (r: Result<bool, String>)
    ensures
        match r {
            Ok(on) => switch_of(value@) == Some(on),
            Err(e) => switch_of(value@) is None && e@
                == "Expected on/off (or activate/deactivate)"@,
        },
{
    if same(value, "on") || same(value, "activate") {
        Ok(true)
    } else if same(value, "off") || same(value, "deactivate") {
        Ok(false)
    } else {
        Err("Expected on/off (or activate/deactivate)".to_owned())
    }
}

/// A state, three characters wide.
pub open spec fn state_of(enabled: bool) -> Seq<char> {
    if enabled {
        "on "@
    } else {
        "off"@
    }
}

/// A state, three characters wide.
pub fn state(enabled: bool) -> (r: &'static str)
    ensures
        r@ == state_of(enabled),
{
    if enabled {
        "on "
    } else {
        "off"
    }
}

/// The request of a command that needs the engine to be idle; `None` for an
/// unknown one.
pub open spec fn idle_request(head: Seq<char>, rest: Seq<char>, r: CommandAction) -> bool {
    if head == "/model"@ {
        r matches CommandAction::Model(x) && x@ == rest
    } else if head == "/effort"@ {
        r matches CommandAction::Effort(x) && x@ == rest
    } else if head == "/agent"@ {
        r matches CommandAction::Agent(x) && x@ == rest
    } else if head == "/mode"@ {
        r matches CommandAction::Mode(x) && x@ == rest
    } else if head == "/workflow"@ {
        if rest.len() == 0 {
            r is ListWorkflows
        } else {
            r matches CommandAction::RunWorkflow { name, input } && name@ == head_of(rest)
                && input@ == rest_of(rest)
        }
    } else if head == "/skills"@ {
        r matches CommandAction::Skills(x) && x@ == rest
    } else if head == "/install-skill"@ {
        r matches CommandAction::InstallSkill(x) && x@ == rest
    } else if head == "/export"@ {
        r matches CommandAction::Export(x) && x@ == rest
    } else if head == "/clear"@ || head == "/new"@ {
        r is Reset
    } else {
        r is Reload
    }
}

/// A command that needs the engine to be idle.
pub open spec fn idle_command(head: Seq<char>) -> bool {
    ||| head == "/model"@
    ||| head == "/effort"@
    ||| head == "/agent"@
    ||| head == "/mode"@
    ||| head == "/workflow"@
    ||| head == "/skills"@
    ||| head == "/install-skill"@
    ||| head == "/export"@
    ||| head == "/clear"@
    ||| head == "/new"@
    ||| head == "/reload"@
}

/// Where `/mouse` sets the mouse to; `None` for a wrong argument.
pub open spec fn mouse_setting(rest: Seq<char>, now: bool) -> Option<bool> {
    if rest.len() == 0 {
        Some(now)
    } else if rest == "on"@ {
        Some(true)
    } else if rest == "off"@ {
        Some(false)
    } else if rest == "toggle"@ {
        Some(!now)
    } else {
        None
    }
}

/// What a slash command does, and what it asks of the engine.
pub open spec fn command_effect(
    a: App,
    text: Seq<char>,
    b: App,
    r: Result<CommandAction, String>,
) -> bool {
    let head = head_of(text);
    let rest = rest_of(text);
    let done = r is Ok && r->Ok_0 is Done;
    if head == "/quit"@ || head == ":q"@ {
        done && b == (App { quit: true, ..a })
    } else if head == "/help"@ {
        done && b == (App { help: true, overlay_scroll: 0, ..a })
    } else if head == "/mouse"@ {
        match mouse_setting(rest, a.mouse_enabled) {
            Some(on) => done && keys::said(
                App { mouse_enabled: on, ..a },
                b,
                if on {
                    "Mouse capture enabled"@
                } else {
                    "Mouse capture disabled"@
                },
            ),
            None => b == a && r is Err && r->Err_0@ == "Usage: /mouse [on|off|toggle]"@,
        }
    } else if head == "/cost"@ {
        &&& done
        &&& a.same_aside(b)
        &&& b.spine() == a.spine().pushed(
            "status"@,
            "main"@,
            "Spend: "@ + a.spend.label@ + " ("@ + text::decimal(a.spend.unpriced_requests as nat)
                + " unpriced requests)"@,
            None,
        )
    } else if head == "/tools"@ {
        b == a && (r matches Ok(CommandAction::Tools(x)) && x@ == rest)
    } else if head == "/mcp"@ {
        b == a && (r matches Ok(CommandAction::Mcp(x)) && x@ == rest)
    } else if head == "/theme"@ {
        b == a && (r matches Ok(CommandAction::Theme(x)) && x@ == rest)
    } else if a.busy {
        b == a && r is Err && r->Err_0@ == "Wait for the active run or cancel it with Ctrl+C"@
    } else if idle_command(head) {
        b == a && r is Ok && idle_request(head, rest, r->Ok_0)
    } else {
        b == a && r is Err && r->Err_0@ == "Unknown command: "@ + head
            + "; /help lists commands"@
    }
}

impl App {
    /// Reads a slash command and does what it can do alone.
    pub fn command(&mut self, text: &str) -> (r: Result<CommandAction, String>)
        requires
            old(self).wf(),
        ensures
            final(self).wf(),
            command_effect(*old(self), text@, *final(self), r),
    {
        let (head, rest) = split_head(text);
        let head = head.as_str();
        if same(head, "/quit") || same(head, ":q") {
            self.quit = true;
            return Ok(CommandAction::Done);
        }
        if same(head, "/help") {
            self.help = true;
            self.overlay_scroll = 0;
            return Ok(CommandAction::Done);
        }
        if same(head, "/mouse") {
            return self.mouse_command(rest.as_str());
        }
        if same(head, "/cost") {
            let count = decimal_text(self.spend.unpriced_requests as u128);
            let text = text2(
                text3(
                    text2("Spend: ", self.spend.label.as_str()).as_str(),
                    " (",
                    count.as_str(),
                ).as_str(),
                " unpriced requests)",
            );
            self.note(text.as_str());
            return Ok(CommandAction::Done);
        }
        if same(head, "/tools") {
            return Ok(CommandAction::Tools(rest));
        }
        if same(head, "/mcp") {
            return Ok(CommandAction::Mcp(rest));
        }
        if same(head, "/theme") {
            return Ok(CommandAction::Theme(rest));
        }
        match self.require_idle() {
            Ok(_) => {},
            Err(e) => {
                return Err(e);
            },
        }
        request(head, rest)
    }

    /// Sets the mouse and says how it is set.
    fn mouse_command(&mut self, rest: &str) -> (r: Result<CommandAction, String>)
        requires
            old(self).wf(),
        ensures
            final(self).wf(),
            match mouse_setting(rest@, old(self).mouse_enabled) {
                Some(on) => r is Ok && r->Ok_0 is Done && keys::said(
                    App { mouse_enabled: on, ..*old(self) },
                    *final(self),
                    if on {
                        "Mouse capture enabled"@
                    } else {
                        "Mouse capture disabled"@
                    },
                ),
                None => *final(self) == *old(self) && r is Err && r->Err_0@
                    == "Usage: /mouse [on|off|toggle]"@,
            },
    {
        let enabled = if rest.is_empty() {
            self.mouse_enabled
        } else if same(rest, "on") {
            true
        } else if same(rest, "off") {
            false
        } else if same(rest, "toggle") {
            !self.mouse_enabled
        } else {
            return Err("Usage: /mouse [on|off|toggle]".to_owned());
        };
        self.mouse_enabled = enabled;
        self.status = if enabled {
            "Mouse capture enabled".to_owned()
        } else {
            "Mouse capture disabled".to_owned()
        };
        Ok(CommandAction::Done)
    }
}

/// The request of a command that needs the engine to be idle.
fn request(head: &str, rest: String) -> (r: Result<CommandAction, String>)
    ensures
        if idle_command(head@) {
            r is Ok && idle_request(head@, rest@, r->Ok_0)
        } else {
            r is Err && r->Err_0@ == "Unknown command: "@ + head@ + "; /help lists commands"@
        },
{
    if same(head, "/model") {
        Ok(CommandAction::Model(rest))
    } else if same(head, "/effort") {
        Ok(CommandAction::Effort(rest))
    } else if same(head, "/agent") {
        Ok(CommandAction::Agent(rest))
    } else if same(head, "/mode") {
        Ok(CommandAction::Mode(rest))
    } else if same(head, "/workflow") {
        if rest.as_str().is_empty() {
            Ok(CommandAction::ListWorkflows)
        } else {
            let (name, input) = split_head(rest.as_str());
            Ok(CommandAction::RunWorkflow { name, input })
        }
    } else if same(head, "/skills") {
        Ok(CommandAction::Skills(rest))
    } else if same(head, "/install-skill") {
        Ok(CommandAction::InstallSkill(rest))
    } else if same(head, "/export") {
        Ok(CommandAction::Export(rest))
    } else if same(head, "/clear") || same(head, "/new") {
        Ok(CommandAction::Reset)
    } else if same(head, "/reload") {
        Ok(CommandAction::Reload)
    } else {
        Err(text3("Unknown command: ", head, "; /help lists commands"))
    }
}

// ---------------------------------------------------------------------------
// Tools, servers and skills
// ---------------------------------------------------------------------------

/// A tool and whether it is switched on.
#[derive(Debug)]
pub struct ToolState {
    pub name: String,
    pub enabled: bool,
}

/// Something to be switched on or off.
#[derive(Debug)]
pub struct Switch {
    pub name: String,
    pub enabled: bool,
}

/// A line of status was appended, and nothing else changed.
pub open spec fn noted(a: App, b: App, text: Seq<char>) -> bool {
    a.same_aside(b) && b.spine() == a.spine().pushed("status"@, "main"@, text, None)
}

/// One line for each tool, with its state in front.
pub open spec fn tool_lines(tools: Seq<ToolState>) -> Seq<Seq<char>> {
    tools.map_values(|t: ToolState| state_of(t.enabled) + " "@ + t.name@)
}

/// A tool of that name is listed.
pub open spec fn tool_listed(tools: Seq<ToolState>, name: Seq<char>) -> bool {
    exists|k: int| 0 <= k < tools.len() && (#[trigger] tools[k]).name@ == name
}

/// A server of that name is configured.
pub open spec fn server_listed(servers: Seq<McpServer>, name: Seq<char>) -> bool {
    exists|k: int| 0 <= k < servers.len() && (#[trigger] servers[k]).name@ == name
}

/// What `/mcp` asks of the engine.
#[derive(Debug)]
pub enum McpAction {
    Done,
    /// A server is to be added to the configuration.
    Add { name: String, definition: Json },
    Restart(String),
    Switch(Switch),
}

/// The server and the action that `/mcp` names, in either order.
pub open spec fn mcp_words(rest: Seq<char>) -> (Seq<char>, Seq<char>) {
    let head = head_of(rest);
    if head == "activate"@ || head == "deactivate"@ {
        (rest_of(rest), head)
    } else {
        (head, rest_of(rest))
    }
}

/// What `/mcp` does. Adding and restarting a server need the engine to be
/// idle, and a server that is added needs a definition in JSON.
pub open spec fn mcp_effect(
    a: App,
    rest: Seq<char>,
    servers: Seq<McpServer>,
    b: App,
    r: Result<McpAction, String>,
) -> bool {
    let (name, action) = mcp_words(rest);
    let wait = b == a && r is Err && r->Err_0@
        == "Wait for the active run or cancel it with Ctrl+C"@;
    if text::begins(rest, "add "@) {
        if a.busy {
            wait
        } else {
            let given = rest_of(rest.skip(4));
            b == a && match json::parsed_json(given) {
                Some(t) => r matches Ok(McpAction::Add { name: n, definition }) && n@ == head_of(
                    rest.skip(4),
                ) && definition@ == t,
                None => r is Err && r->Err_0@ == json::json_fault(given),
            }
        }
    } else if rest.len() == 0 {
        &&& r is Ok && r->Ok_0 is Done
        &&& b == (App { picker: b.picker, ..a })
        &&& b.picker is Some && picker::mcps_dialog(b.picker->0, servers)
    } else if !server_listed(servers, name) {
        b == a && r is Err && r->Err_0@ == "Unknown MCP server: "@ + name
    } else if action == "restart"@ {
        if a.busy {
            wait
        } else {
            noted(a, b, "MCP "@ + name + ": "@ + action) && (r matches Ok(McpAction::Restart(n))
                && n@ == name)
        }
    } else {
        match switch_of(action) {
            Some(on) => noted(a, b, "MCP "@ + name + ": "@ + action) && (r matches Ok(
                McpAction::Switch(w),
            ) && w.name@ == name && w.enabled == on),
            None => b == a && r is Err && r->Err_0@
                == "Expected on/off (or activate/deactivate)"@,
        }
    }
}

/// A skill that is installed.
#[derive(Debug)]
pub struct SkillInfo {
    pub name: String,
    pub description: String,
}

/// One line for each skill, with its state in front.
pub open spec fn skill_lines(skills: Seq<SkillInfo>, enabled: Seq<Seq<char>>) -> Seq<Seq<char>> {
    skills.map_values(
        |s: SkillInfo| state_of(enabled.contains(s.name@)) + " "@ + s.name@ + " - "@ + s.description@,
    )
}

/// A skill of that name is installed.
pub open spec fn skill_listed(skills: Seq<SkillInfo>, name: Seq<char>) -> bool {
    exists|k: int| 0 <= k < skills.len() && (#[trigger] skills[k]).name@ == name
}

/// The texts other than `name`.
pub open spec fn without(all: Seq<Seq<char>>, name: Seq<char>) -> Seq<Seq<char>>
    decreases all.len(),
{
    if all.len() == 0 {
        Seq::empty()
    } else if all.last() == name {
        without(all.drop_last(), name)
    } else {
        without(all.drop_last(), name).push(all.last())
    }
}

/// Whether a list holds a text.
fn holds(all: &Vec<String>, s: &str) -> (r: bool)
    ensures
        r == text::texts(all@).contains(s@),
{
    let mut k: usize = 0;
    while k < all.len()
        invariant
            k <= all@.len(),
            forall|j: int| 0 <= j < k ==> (#[trigger] text::texts(all@)[j]) != s@,
        decreases all@.len() - k,
    {
        assert(text::texts(all@)[k as int] == all@[k as int]@);
        if same(all[k].as_str(), s) {
            return true;
        }
        k = k + 1;
    }
    false
}

/// A text without its first four characters.
fn after_add(s: &str) -> (r: String)
    requires
        s@.len() >= 4,
    ensures
        r@ == s@.skip(4),
{
    let v = chars_of(s);
    let r = string_of(&v, 4, v.len());
    assert(r@ =~= s@.skip(4));
    r
}

impl App {
    /// Lists the tools, or hands on the switch of one.
    pub fn tools_command(&mut self, rest: &str, tools: &Vec<ToolState>) -> (r: Result<
        Option<Switch>,
        String,
    >)
        requires
            old(self).wf(),
        ensures
            final(self).wf(),
            tools_effect(*old(self), rest@, tools@, *final(self), r),
    {
        if rest.is_empty() {
            let mut lines: Vec<String> = Vec::new();
            let mut i: usize = 0;
            while i < tools.len()
                invariant
                    i <= tools@.len(),
                    text::texts(lines@) == tool_lines(tools@).take(i as int),
                decreases tools@.len() - i,
            {
                let line = text3(state(tools[i].enabled), " ", tools[i].name.as_str());
                proof {
                    text::lemma_texts_push(lines@, line);
                    assert(tool_lines(tools@).take(i + 1) =~= tool_lines(tools@).take(
                        i as int,
                    ).push(line@));
                }
                lines.push(line);
                i = i + 1;
            }
            assert(tool_lines(tools@).take(i as int) =~= tool_lines(tools@));
            let text = join_text(&lines, "\n");
            self.note(text.as_str());
            return Ok(None);
        }
        let (name, action) = split_head(rest);
        let mut listed = false;
        let mut i: usize = 0;
        while i < tools.len()
            invariant
                i <= tools@.len(),
                listed == exists|k: int| 0 <= k < i && (#[trigger] tools@[k]).name@ == name@,
            decreases tools@.len() - i,
        {
            if same(tools[i].name.as_str(), name.as_str()) {
                listed = true;
            }
            i = i + 1;
        }
        if !listed && !starts_with_text(name.as_str(), "mcp_") {
            return Err(text2("Unknown tool: ", name.as_str()));
        }
        match toggle(action.as_str()) {
            Ok(enabled) => {
                let text = text2(
                    text3("Tool ", name.as_str(), ": ").as_str(),
                    action.as_str(),
                );
                self.note(text.as_str());
                Ok(Some(Switch { name, enabled }))
            },
            Err(e) => Err(e),
        }
    }

    /// Opens the dialog of the servers, or hands on what is to be done with
    /// one.
    pub fn mcp_command(&mut self, rest: &str, servers: &Vec<McpServer>) -> (r: Result<
        McpAction,
        String,
    >)
        requires
            old(self).wf(),
        ensures
            final(self).wf(),
            mcp_effect(*old(self), rest@, servers@, *final(self), r),
    {
        proof {
            reveal_strlit("add ");
        }
        if starts_with_text(rest, "add ") {
            match self.require_idle() {
                Ok(_) => {},
                Err(e) => {
                    return Err(e);
                },
            }
            let (name, given) = split_head(after_add(rest).as_str());
            return match read_json(given.as_str()) {
                Ok(definition) => Ok(McpAction::Add { name, definition }),
                Err(e) => Err(e),
            };
        }
        if rest.is_empty() {
            self.picker = Some(Picker::mcps(servers));
            return Ok(McpAction::Done);
        }
        let (first, second) = split_head(rest);
        let (name, action) = if same(first.as_str(), "activate") || same(
            first.as_str(),
            "deactivate",
        ) {
            (second, first)
        } else {
            (first, second)
        };
        let mut listed = false;
        let mut i: usize = 0;
        while i < servers.len()
            invariant
                i <= servers@.len(),
                listed == exists|k: int| 0 <= k < i && (#[trigger] servers@[k]).name@ == name@,
            decreases servers@.len() - i,
        {
            if same(servers[i].name.as_str(), name.as_str()) {
                listed = true;
            }
            i = i + 1;
        }
        if !listed {
            return Err(text2("Unknown MCP server: ", name.as_str()));
        }
        let text = text2(text3("MCP ", name.as_str(), ": ").as_str(), action.as_str());
        if same(action.as_str(), "restart") {
            match self.require_idle() {
                Ok(_) => {},
                Err(e) => {
                    return Err(e);
                },
            }
            self.note(text.as_str());
            return Ok(McpAction::Restart(name));
        }
        match toggle(action.as_str()) {
            Ok(enabled) => {
                self.note(text.as_str());
                Ok(McpAction::Switch(Switch { name, enabled }))
            },
            Err(e) => Err(e),
        }
    }

    /// Lists the workflows, one on each line.
    pub fn workflows_listed(&mut self, names: &Vec<String>)
        requires
            old(self).wf(),
        ensures
            final(self).wf(),
            noted(*old(self), *final(self), text::joined(text::texts(names@), "\n"@)),
    {
        let text = join_text(names, "\n");
        self.note(text.as_str());
    }

    /// A skill was installed.
    pub fn skill_installed(&mut self, place: &str)
        requires
            old(self).wf(),
        ensures
            final(self).wf(),
            noted(*old(self), *final(self), "Installed "@ + place@),
    {
        let text = text2("Installed ", place);
        self.note(text.as_str());
    }

    /// The session was written out.
    pub fn exported(&mut self, place: &str)
        requires
            old(self).wf(),
        ensures
            final(self).wf(),
            noted(*old(self), *final(self), "Exported "@ + place@),
    {
        let text = text2("Exported ", place);
        self.note(text.as_str());
    }

    /// A server was added to the configuration.
    pub fn mcp_added(&mut self, name: &str, uuid: &str)
        requires
            old(self).wf(),
        ensures
            final(self).wf(),
            noted(
                *old(self),
                *final(self),
                "Added MCP "@ + name@ + " ("@ + uuid@
                    + "); connects when its tools are needed"@,
            ),
    {
        let text = text3(
            text3("Added MCP ", name, " (").as_str(),
            uuid,
            "); connects when its tools are needed",
        );
        self.note(text.as_str());
    }

    /// Lists the skills, or gives the names of those that are on once one was
    /// switched.
    pub fn skills_command(
        &mut self,
        rest: &str,
        discovered: &Vec<SkillInfo>,
        enabled: &Vec<String>,
    ) -> (r: Result<Option<Vec<String>>, String>)
        requires
            old(self).wf(),
        ensures
            final(self).wf(),
            skills_effect(*old(self), rest@, discovered@, text::texts(enabled@), *final(self), r),
    {
        if rest.is_empty() {
            let ghost want = skill_lines(discovered@, text::texts(enabled@));
            let mut lines: Vec<String> = Vec::new();
            let mut i: usize = 0;
            while i < discovered.len()
                invariant
                    i <= discovered@.len(),
                    want == skill_lines(discovered@, text::texts(enabled@)),
                    text::texts(lines@) == want.take(i as int),
                decreases discovered@.len() - i,
            {
                let on = holds(enabled, discovered[i].name.as_str());
                let line = text3(
                    text3(state(on), " ", discovered[i].name.as_str()).as_str(),
                    " - ",
                    discovered[i].description.as_str(),
                );
                proof {
                    text::lemma_texts_push(lines@, line);
                    assert(want.take(i + 1) =~= want.take(i as int).push(line@));
                }
                lines.push(line);
                i = i + 1;
            }
            assert(want.take(i as int) =~= want);
            let text = join_text(&lines, "\n");
            self.note(text.as_str());
            return Ok(None);
        }
        let (name, action) = split_head(rest);
        let on = match toggle(action.as_str()) {
            Ok(on) => on,
            Err(e) => {
                return Err(e);
            },
        };
        let mut listed = false;
        let mut i: usize = 0;
        while i < discovered.len()
            invariant
                i <= discovered@.len(),
                listed == exists|k: int| 0 <= k < i && (#[trigger] discovered@[k]).name@ == name@,
            decreases discovered@.len() - i,
        {
            if same(discovered[i].name.as_str(), name.as_str()) {
                listed = true;
            }
            i = i + 1;
        }
        if !listed {
            return Err("Skill not installed".to_owned());
        }
        let mut kept: Vec<String> = Vec::new();
        let ghost all = text::texts(enabled@);
        let mut j: usize = 0;
        assert(all.take(0) =~= Seq::<Seq<char>>::empty());
        assert(text::texts(kept@) =~= without(all.take(0), name@));
        while j < enabled.len()
            invariant
                j <= enabled@.len(),
                all == text::texts(enabled@),
                text::texts(kept@) == without(all.take(j as int), name@),
            decreases enabled@.len() - j,
        {
            assert(all.take(j + 1).drop_last() =~= all.take(j as int));
            assert(all[j as int] == enabled@[j as int]@);
            if !same(enabled[j].as_str(), name.as_str()) {
                proof {
                    text::lemma_texts_push(kept@, enabled@[j as int]);
                }
                kept.push(enabled[j].clone());
            }
            j = j + 1;
        }
        assert(all.take(j as int) =~= all);
        if on {
            proof {
                text::lemma_texts_push(kept@, name);
            }
            kept.push(name);
        }
        Ok(Some(kept))
    }
}

/// What `/tools` does.
pub open spec fn tools_effect(
    a: App,
    rest: Seq<char>,
    tools: Seq<ToolState>,
    b: App,
    r: Result<Option<Switch>, String>,
) -> bool {
    let name = head_of(rest);
    let action = rest_of(rest);
    if rest.len() == 0 {
        (r matches Ok(None)) && noted(
            a,
            b,
            text::joined(tool_lines(tools), "\n"@),
        )
    } else if !tool_listed(tools, name) && !text::begins(name, "mcp_"@) {
        b == a && r is Err && r->Err_0@ == "Unknown tool: "@ + name
    } else {
        match switch_of(action) {
            Some(on) => noted(a, b, "Tool "@ + name + ": "@ + action) && (r matches Ok(
                Some(w),
            ) && w.name@ == name && w.enabled == on),
            None => b == a && r is Err && r->Err_0@
                == "Expected on/off (or activate/deactivate)"@,
        }
    }
}

/// What `/skills` does.
pub open spec fn skills_effect(
    a: App,
    rest: Seq<char>,
    discovered: Seq<SkillInfo>,
    enabled: Seq<Seq<char>>,
    b: App,
    r: Result<Option<Vec<String>>, String>,
) -> bool {
    let name = head_of(rest);
    let on = enabled;
    if rest.len() == 0 {
        (r matches Ok(None)) && noted(
            a,
            b,
            text::joined(skill_lines(discovered, on), "\n"@),
        )
    } else {
        &&& b == a
        &&& match switch_of(rest_of(rest)) {
            None => r is Err && r->Err_0@
                == "Expected on/off (or activate/deactivate)"@,
            Some(_) if !skill_listed(discovered, name) => r is Err && r->Err_0@
                == "Skill not installed"@,
            Some(true) => (r matches Ok(Some(v)) && text::texts(v@) == without(
                on,
                name,
            ).push(name)),
            Some(false) => (r matches Ok(Some(v)) && text::texts(v@) == without(
                on,
                name,
            )),
        }
    }
}

} // verus!
