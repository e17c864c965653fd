use soda_tui::app::{App, Approval, TimelineItem};
use soda_tui::keys::KeyAction;
use soda_tui::model::{
    ActivityEvent, ActivityKind, ActivityPhase, ActivityStatus, Decision, DisplayEvent, KeyCode,
    KeyEvent, Message, Modifiers, MouseKind, Selection, Theme, ToolCall, UiEvent,
};
use soda_tui::picker::{ModelRef, Picker};
use soda_tui::runs::Settings;
use soda_tui::spine::Focus;
use soda_tui::text::is_unsafe_terminal_char;

/// A theme with a color of its own for every role.
fn theme() -> Theme {
    Theme {
        background: "#101418".to_owned(),
        foreground: "#e6e6e6".to_owned(),
        border: "#5c6370".to_owned(),
        muted: "#7f848e".to_owned(),
        accent: "#61afef".to_owned(),
        user: "#98c379".to_owned(),
        assistant: "#c678dd".to_owned(),
        tool: "#56b6c2".to_owned(),
        error: "#e06c75".to_owned(),
        warning: "#e5c07b".to_owned(),
        success: "#8cc265".to_owned(),
        cta_foreground: "#101418".to_owned(),
        cta_background: "#d19a66".to_owned(),
        syntax_theme: "base16-ocean.dark".to_owned(),
        ascii: false,
        syntax_highlighting: true,
    }
}

fn settings() -> Settings {
    Settings {
        workspace: "/work".to_owned(),
        theme: theme(),
        default_agent: None,
        provider: "openai".to_owned(),
        model: "gpt-5".to_owned(),
        no_spend: "$0.0000".to_owned(),
    }
}

fn fresh_app() -> App {
    App::new(&settings(), Selection::default())
}

fn control() -> Modifiers {
    Modifiers { control: true, ..Modifiers::none() }
}

fn alt() -> Modifiers {
    Modifiers { alt: true, ..Modifiers::none() }
}

fn key(code: KeyCode) -> KeyEvent {
    KeyEvent::new(code, Modifiers::none())
}

fn models() -> Picker {
    let model = ModelRef { provider: "openai".to_owned(), model: "gpt-5".to_owned() };
    Picker::models(&vec![], &model, &model, None)
}

fn start(
    id: &str,
    parent: Option<&str>,
    context: &str,
    kind: ActivityKind,
    external: Option<&str>,
) -> ActivityEvent {
    ActivityEvent {
        id: id.into(),
        parent_id: parent.map(str::to_owned),
        context: context.into(),
        kind,
        phase: ActivityPhase::Start,
        title: format!("{id} title"),
        external_id: external.map(str::to_owned),
        status: None,
    }
}

fn end(id: &str, context: &str, status: Option<ActivityStatus>) -> ActivityEvent {
    ActivityEvent {
        id: id.into(),
        parent_id: None,
        context: context.into(),
        kind: ActivityKind::Tool,
        phase: ActivityPhase::End,
        title: format!("{id} end"),
        external_id: None,
        status,
    }
}

fn activity_app(ids: &[&str]) -> App {
    let mut app = fresh_app();
    for id in ids {
        app.event(UiEvent::Activity(start(id, None, "main", ActivityKind::Tool, None)));
    }
    app
}

fn assistant_with_tool_call(content: &str, call_id: &str, name: &str) -> Message {
    let mut message = Message::new("assistant", content);
    message.tool_calls.push(ToolCall {
        id: call_id.into(),
        name: name.into(),
        arguments: "{}".into(),
        description: "{}".into(),
    });
    message
}

fn tool_result(call_id: &str, content: &str) -> Message {
    Message::tool(call_id, content)
}

/// Starts a tool activity and delivers a result for its call. Returns the id
/// of the activity.
fn replay_legacy_tool_result_without_synthesis(
    app: &mut App,
    call_id: &str,
    content: &str,
) -> String {
    let tool_id = format!("real-tool:{call_id}");
    app.event(UiEvent::Activity(start(
        &tool_id,
        None,
        "main",
        ActivityKind::Tool,
        Some(call_id),
    )));
    app.message("main".into(), tool_result(call_id, content));
    tool_id
}

#[test]
fn activity_ids_remove_terminal_unsafe_format_chars_but_keep_joiners() {
    let id = "left\u{202e}right\u{200b}\u{2028}family: 👨‍👩‍👧‍👦 می\u{200c}رود";

    let sanitized = App::sanitize_activity_id(id);

    assert_eq!(sanitized, "left-right-family:-👨‍👩‍👧‍👦-می\u{200c}رود");
    assert!(!sanitized.chars().any(is_unsafe_terminal_char));
}

#[test]
fn status_updates_global_header_only_for_main_context() {
    let mut app = fresh_app();

    app.event(UiEvent::Status {
        context: "main".into(),
        text: "main status".into(),
    });
    assert_eq!(app.status, "main status");

    app.event(UiEvent::Status {
        context: "subagent.plan".into(),
        text: "child status".into(),
    });
    assert_eq!(app.status, "main status");

    app.event(UiEvent::Status {
        context: "workflow.review".into(),
        text: "workflow status".into(),
    });
    assert_eq!(app.status, "main status");
}

#[test]
fn model_updates_global_header_only_for_main_context() {
    let mut app = fresh_app();

    app.event(UiEvent::Model {
        context: "main".into(),
        provider: "openai".into(),
        model: "gpt-5".into(),
        effort: Some("high".into()),
    });
    assert_eq!(app.model_label, "openai:gpt-5");
    assert_eq!(app.effort_label, "high");
    assert_eq!(app.status, "Generating | main");

    app.event(UiEvent::Model {
        context: "subagent.plan".into(),
        provider: "anthropic".into(),
        model: "swift-sonnet".into(),
        effort: Some("low".into()),
    });
    assert_eq!(app.model_label, "openai:gpt-5");
    assert_eq!(app.effort_label, "high");
    assert_eq!(app.status, "Generating | main");

    app.event(UiEvent::Model {
        context: "workflow.review".into(),
        provider: "openrouter".into(),
        model: "review-model".into(),
        effort: None,
    });
    assert_eq!(app.model_label, "openai:gpt-5");
    assert_eq!(app.effort_label, "high");
    assert_eq!(app.status, "Generating | main");
}

#[test]
fn activity_events_update_child_rows_without_changing_global_header() {
    let mut app = fresh_app();
    app.event(UiEvent::Status {
        context: "main".into(),
        text: "main status".into(),
    });
    app.event(UiEvent::Model {
        context: "main".into(),
        provider: "openai".into(),
        model: "gpt-5".into(),
        effort: Some("medium".into()),
    });
    let header = (
        app.status.clone(),
        app.model_label.clone(),
        app.effort_label.clone(),
    );

    app.event(UiEvent::Activity(start(
        "plan",
        None,
        "subagent.plan",
        ActivityKind::Subagent,
        None,
    )));
    assert_eq!(
        app.activity_by_context("subagent.plan").unwrap().start.id,
        "plan"
    );
    assert_eq!(app.activity("plan").unwrap().status, None);
    assert_eq!(
        (
            app.status.clone(),
            app.model_label.clone(),
            app.effort_label.clone()
        ),
        header
    );

    app.event(UiEvent::Activity(end(
        "plan",
        "subagent.plan",
        Some(ActivityStatus::Success),
    )));
    assert_eq!(
        app.activity("plan").and_then(|activity| activity.status),
        Some(ActivityStatus::Success)
    );
    assert_eq!((app.status, app.model_label, app.effort_label), header);
}

#[test]
fn left_click_focuses_and_toggles_activity_without_touching_composer_queue_or_scroll() {
    let mut app = activity_app(&["activity"]);
    app.input.insert("draft");
    app.queued_inputs.push_back("queued message".into());
    app.scroll = 17;
    let before = (
        app.input.text.clone(),
        app.queued_inputs.clone(),
        app.scroll,
    );

    app.handle_mouse_with_activity_target(
        MouseKind::LeftDown,
        Some("activity".into()),
    );
    assert_eq!(app.focus, Focus::Activity);
    assert_eq!(app.focused_activity_id(), Some("activity"));
    assert!(app.activity("activity").unwrap().expanded);
    assert_eq!(
        (
            app.input.text.clone(),
            app.queued_inputs.clone(),
            app.scroll
        ),
        before
    );

    app.handle_mouse_with_activity_target(
        MouseKind::LeftDown,
        Some("activity".into()),
    );
    assert!(!app.activity("activity").unwrap().expanded);
    assert_eq!((app.input.text, app.queued_inputs, app.scroll), before);
}

#[test]
fn invalid_or_non_left_mouse_activity_targets_are_ignored() {
    let mut app = activity_app(&["parent"]);
    app.event(UiEvent::Activity(start(
        "child",
        Some("parent"),
        "child",
        ActivityKind::Tool,
        None,
    )));
    app.scroll = 9;
    let before = (app.focus, app.focused_activity.clone(), app.scroll);
    for (kind, target) in [
        (MouseKind::LeftDown, Some("unknown")),
        (MouseKind::LeftDown, Some("child")),
        (MouseKind::LeftDown, None),
        (MouseKind::Other, Some("parent")),
        (MouseKind::Other, Some("parent")),
        (MouseKind::Other, Some("parent")),
    ] {
        app.handle_mouse_with_activity_target(kind, target.map(str::to_owned));
    }
    assert_eq!(
        (app.focus, app.focused_activity.clone(), app.scroll),
        before
    );
    assert!(!app.activity("parent").unwrap().expanded);
}

#[test]
fn modal_and_picker_states_suppress_activity_clicks() {
    let mut app = activity_app(&["activity"]);
    for state in 0..4 {
        match state {
            0 => app.help = true,
            1 => app.workflow_complete = true,
            2 => {
                app.approval = Some(Approval {
                    title: "Approval".into(),
                    detail: "Confirm".into(),
                    workflow: false,
                });
            }
            _ => {
                app.picker = Some(models());
            }
        }
        app.handle_mouse_with_activity_target(
            MouseKind::LeftDown,
            Some("activity".into()),
        );
        assert!(!app.activity("activity").unwrap().expanded);
        app.help = false;
        app.workflow_complete = false;
        app.approval = None;
        app.picker = None;
    }
}

#[test]
fn mouse_wheel_compatibility_wrapper_and_targeted_method_keep_routing_unchanged() {
    let mut wrapper = fresh_app();
    let mut targeted = fresh_app();
    let wheel_up = MouseKind::ScrollUp;
    let wheel_down = MouseKind::ScrollDown;
    wrapper.handle_mouse(wheel_up);
    targeted.handle_mouse_with_activity_target(wheel_up, Some("missing".into()));
    wrapper.handle_mouse(wheel_down);
    targeted.handle_mouse_with_activity_target(wheel_down, Some("missing".into()));
    assert_eq!(wrapper.scroll, targeted.scroll);
    assert_eq!(wrapper.overlay_scroll, targeted.overlay_scroll);
}

#[test]
fn disabled_mouse_ignores_wheel_and_activity_click_until_reenabled() {
    let mut app = activity_app(&["activity"]);
    let wheel = MouseKind::ScrollUp;
    app.scroll = 4;
    app.mouse_enabled = false;

    app.handle_mouse(wheel);
    app.handle_mouse_with_activity_target(
        MouseKind::LeftDown,
        Some("activity".into()),
    );
    assert_eq!(app.scroll, 4);
    assert_eq!(app.focus, Focus::Input);
    assert!(!app.activity("activity").unwrap().expanded);

    app.mouse_enabled = true;
    app.handle_mouse(wheel);
    assert_eq!(app.scroll, 7);
    app.handle_mouse_with_activity_target(
        MouseKind::LeftDown,
        Some("activity".into()),
    );
    assert_eq!(app.focus, Focus::Activity);
    assert!(app.activity("activity").unwrap().expanded);
}

#[test]
fn paste_is_routed_only_to_the_active_input_surface() {
    let mut app = fresh_app();
    app.input.insert("draft");

    app.paste(" input");
    assert_eq!(app.input.text, "draft input");

    app.focus = Focus::Activity;
    app.paste(" ignored");
    assert_eq!(app.input.text, "draft input");

    app.focus = Focus::Input;
    app.workflow_complete = true;
    app.paste(" ignored");
    assert_eq!(app.input.text, "draft input");

    app.workflow_complete = false;
    app.picker = Some(models());
    app.paste("model");
    assert_eq!(app.picker.as_ref().unwrap().query.text, "model");
    assert_eq!(app.input.text, "draft input");
}

#[test]
fn entering_workflow_complete_resets_scroll_only_on_a_new_transition() {
    let mut app = fresh_app();
    app.overlay_scroll = 23;
    app.enter_workflow_complete();
    assert_eq!(app.overlay_scroll, 0);

    app.overlay_scroll = 17;
    app.enter_workflow_complete();
    assert_eq!(app.overlay_scroll, 17);

    app.workflow_complete = false;
    app.overlay_scroll = 9;
    app.enter_workflow_complete();
    assert_eq!(app.overlay_scroll, 0);
}

#[test]
fn activity_focus_movement_is_clamped_and_normalizes_missing_ids() {
    let mut app = activity_app(&["first", "second", "third"]);
    app.focus = Focus::Activity;
    app.focused_activity = Some("second".into());

    app.activity_key(key(KeyCode::Up));
    app.activity_key(key(KeyCode::Up));
    assert_eq!(app.focused_activity_id(), Some("first"));
    app.activity_key(key(KeyCode::Down));
    app.activity_key(key(KeyCode::Down));
    app.activity_key(key(KeyCode::Down));
    assert_eq!(app.focused_activity_id(), Some("third"));

    app.focused_activity = Some("missing".into());
    app.activity_key(key(KeyCode::Up));
    assert_eq!(app.focused_activity_id(), Some("first"));
    app.focused_activity = Some("deleted".into());
    app.normalize_activity_focus();
    assert_eq!(app.focused_activity_id(), Some("third"));

    app.activities.clear();
    app.activity_index.clear();
    app.timeline.clear();
    app.normalize_activity_focus();
    assert_eq!(app.focus, Focus::Input);
}

#[test]
fn activity_focus_expansion_keys_and_parent_collapse_preserve_entry_view_state() {
    let mut app = fresh_app();
    app.event(UiEvent::Activity(start(
        "parent",
        None,
        "main",
        ActivityKind::Subagent,
        None,
    )));
    app.event(UiEvent::Activity(start(
        "child",
        Some("parent"),
        "child-context",
        ActivityKind::Tool,
        None,
    )));
    app.message("main".into(), Message::new("user", "draft context"));
    let entry_revision = app.entries[0].revision;
    let generation = app.history_generation;
    app.scroll = 23;
    app.focus = Focus::Activity;
    app.focused_activity = Some("parent".into());

    app.activity_key(key(KeyCode::Right));
    assert!(app.activity("parent").unwrap().expanded);
    app.activity_key(key(KeyCode::Enter));
    assert!(!app.activity("parent").unwrap().expanded);
    app.activity_key(key(KeyCode::Char(' ')));
    assert!(app.activity("parent").unwrap().expanded);
    app.activity_key(key(KeyCode::Left));
    assert!(!app.activity("parent").unwrap().expanded);
    assert_eq!(app.entries[0].revision, entry_revision);
    assert_eq!(app.history_generation, generation);
    assert_eq!(app.scroll, 23);

    app.set_activity_expanded("parent", Some(true));
    app.focused_activity = Some("child".into());
    app.set_activity_expanded("parent", Some(false));
    assert_eq!(app.focused_activity_id(), Some("parent"));
}

#[test]
fn activity_focus_page_and_control_home_end_scroll_transcript() {
    let mut app = activity_app(&["activity"]);
    app.focus = Focus::Activity;
    app.focused_activity = Some("activity".into());
    app.scroll = 20;

    app.activity_key(key(KeyCode::PageUp));
    assert_eq!(app.scroll, 30);
    app.activity_key(key(KeyCode::PageDown));
    assert_eq!(app.scroll, 20);
    app.activity_key(KeyEvent::new(KeyCode::Home, control()));
    assert_eq!(app.scroll, usize::MAX);
    app.activity_key(KeyEvent::new(KeyCode::End, control()));
    assert_eq!(app.scroll, 0);
}

#[test]
fn activity_start_then_end_records_status_and_revision() {
    let mut app = fresh_app();
    app.event(UiEvent::Activity(start(
        "tool-1",
        None,
        "main",
        ActivityKind::Tool,
        Some("req-9"),
    )));
    let node = app.activity("tool-1").expect("node inserted");
    assert_eq!(node.status, None);
    assert!(!node.expanded);
    assert_eq!(node.revision, 0);
    assert_eq!(app.timeline.len(), 1);
    assert!(matches!(&app.timeline[0], TimelineItem::Activity(id) if id == "tool-1"));

    app.event(UiEvent::Activity(end(
        "tool-1",
        "main",
        Some(ActivityStatus::Success),
    )));
    let node = app.activity("tool-1").unwrap();
    assert_eq!(node.status, Some(ActivityStatus::Success));
    assert_eq!(node.revision, 1);
    assert_eq!(app.timeline.len(), 1);
}

#[test]
fn new_activity_node_is_collapsed_by_default() {
    let mut app = fresh_app();
    app.event(UiEvent::Activity(start(
        "tool-1",
        None,
        "main",
        ActivityKind::Tool,
        None,
    )));
    assert!(!app.activity("tool-1").unwrap().expanded);
    assert_eq!(
        app.visible_activity_ids(),
        vec!["tool-1".to_string()],
        "collapsed roots remain visible",
    );
}

#[test]
fn end_before_start_queues_status_and_applies_on_start() {
    let mut app = fresh_app();
    app.event(UiEvent::Activity(end(
        "tool-2",
        "main",
        Some(ActivityStatus::Denied),
    )));
    assert!(app.activity("tool-2").is_none());
    assert!(app.timeline.is_empty());
    assert_eq!(
        app.pending_activity_ends.get("tool-2"),
        Some(&ActivityStatus::Denied),
    );

    app.event(UiEvent::Activity(start(
        "tool-2",
        None,
        "main",
        ActivityKind::Tool,
        None,
    )));
    let node = app.activity("tool-2").unwrap();
    assert_eq!(node.status, Some(ActivityStatus::Denied));
    assert_eq!(node.revision, 1);
    assert!(app.pending_activity_ends.is_empty());
    assert_eq!(app.timeline.len(), 1);
    assert!(matches!(&app.timeline[0], TimelineItem::Activity(id) if id == "tool-2"));
}

#[test]
fn duplicate_start_is_idempotent_and_does_not_duplicate_timeline() {
    let mut app = fresh_app();
    app.event(UiEvent::Activity(start(
        "tool-3",
        None,
        "main",
        ActivityKind::Tool,
        None,
    )));
    let revision_after_first = app.activity("tool-3").unwrap().revision;
    let timeline_len_after_first = app.timeline.len();

    app.event(UiEvent::Activity(start(
        "tool-3",
        None,
        "main",
        ActivityKind::Tool,
        None,
    )));
    assert_eq!(
        app.activity("tool-3").unwrap().revision,
        revision_after_first
    );
    assert_eq!(app.timeline.len(), timeline_len_after_first);
    assert_eq!(app.activities.len(), 1);

    app.event(UiEvent::Activity(end(
        "tool-3",
        "main",
        Some(ActivityStatus::Success),
    )));
    assert_eq!(
        app.activity("tool-3").unwrap().status,
        Some(ActivityStatus::Success),
    );
    assert!(app.pending_activity_ends.is_empty());
    assert_eq!(app.activities.len(), 1);
    let activity_rows = app
        .timeline
        .iter()
        .filter(|item| matches!(item, TimelineItem::Activity(_)))
        .count();
    assert_eq!(activity_rows, 1);

    app.event(UiEvent::Activity(end(
        "tool-4",
        "main",
        Some(ActivityStatus::Denied),
    )));
    assert_eq!(
        app.pending_activity_ends.get("tool-4"),
        Some(&ActivityStatus::Denied),
    );
    app.event(UiEvent::Activity(start(
        "tool-4",
        None,
        "main",
        ActivityKind::Tool,
        None,
    )));
    assert_eq!(
        app.activity("tool-4").unwrap().status,
        Some(ActivityStatus::Denied),
    );
    assert!(app.pending_activity_ends.is_empty());
    assert_eq!(app.activities.len(), 2);

    app.event(UiEvent::Activity(end(
        "tool-5",
        "main",
        Some(ActivityStatus::Cancelled),
    )));
    app.event(UiEvent::Activity(start(
        "tool-5",
        None,
        "main",
        ActivityKind::Tool,
        None,
    )));
    let timeline_before = app.timeline.len();
    app.event(UiEvent::Activity(start(
        "tool-5",
        None,
        "main",
        ActivityKind::Tool,
        None,
    )));
    assert_eq!(
        app.activity("tool-5").unwrap().status,
        Some(ActivityStatus::Cancelled),
    );
    assert_eq!(
        app.timeline.len(),
        timeline_before,
        "duplicate Start appended no row",
    );
}

#[test]
fn parent_visibility_toggle_and_depth_obey_expansion() {
    let mut app = fresh_app();
    app.event(UiEvent::Activity(start(
        "sub",
        None,
        "main",
        ActivityKind::Subagent,
        None,
    )));
    app.event(UiEvent::Activity(start(
        "tool-a",
        Some("sub"),
        "main",
        ActivityKind::Tool,
        None,
    )));
    app.event(UiEvent::Activity(start(
        "tool-b",
        Some("sub"),
        "main",
        ActivityKind::Tool,
        None,
    )));
    app.event(UiEvent::Activity(start(
        "grandchild",
        Some("tool-a"),
        "main",
        ActivityKind::Tool,
        None,
    )));

    assert_eq!(app.activity_depth("sub"), 0);
    assert_eq!(app.activity_depth("tool-a"), 1);
    assert_eq!(app.activity_depth("tool-b"), 1);
    assert_eq!(app.activity_depth("grandchild"), 2);
    app.event(UiEvent::Activity(start(
        "orphan",
        Some("never-existed"),
        "main",
        ActivityKind::Tool,
        None,
    )));
    assert_eq!(app.activity_depth("orphan"), 0);
    assert!(app.all_ancestors_expanded("orphan"));

    assert_eq!(
        app.visible_activity_ids(),
        vec!["sub".to_string(), "orphan".to_string()],
    );

    app.set_activity_expanded("sub", Some(true));
    assert!(app.activity("sub").unwrap().expanded);
    assert_eq!(
        app.visible_activity_ids(),
        vec![
            "sub".to_string(),
            "tool-a".to_string(),
            "tool-b".to_string(),
            "orphan".to_string(),
        ],
        "grandchild stays hidden behind collapsed tool-a",
    );

    app.set_activity_expanded("tool-a", Some(true));
    assert_eq!(
        app.visible_activity_ids(),
        vec![
            "sub".to_string(),
            "tool-a".to_string(),
            "tool-b".to_string(),
            "grandchild".to_string(),
            "orphan".to_string(),
        ],
    );

    app.toggle_activity_expanded("tool-a");
    assert!(!app.activity("tool-a").unwrap().expanded);
    assert_eq!(
        app.visible_activity_ids(),
        vec![
            "sub".to_string(),
            "tool-a".to_string(),
            "tool-b".to_string(),
            "orphan".to_string(),
        ],
    );

    let before = app.activity("sub").unwrap().revision;
    app.toggle_activity_expanded("sub");
    assert_eq!(app.activity("sub").unwrap().revision, before + 1);
    assert!(!app.activity("sub").unwrap().expanded);

    let after = app.activity("sub").unwrap().revision;
    app.set_activity_expanded("sub", Some(false));
    assert_eq!(app.activity("sub").unwrap().revision, after);
}

#[test]
fn cycle_and_orphan_parent_fail_safe_without_infinite_loop() {
    let mut app = fresh_app();
    app.event(UiEvent::Activity(start(
        "a",
        Some("b"),
        "main",
        ActivityKind::Tool,
        None,
    )));
    app.event(UiEvent::Activity(start(
        "b",
        Some("a"),
        "main",
        ActivityKind::Tool,
        None,
    )));

    assert_eq!(app.activity_depth("a"), 1);
    assert_eq!(app.activity_depth("b"), 1);

    assert!(!app.all_ancestors_expanded("a"));
    assert!(!app.all_ancestors_expanded("b"));
    let visible = app.visible_activity_ids();
    assert!(!visible.contains(&"a".into()));
    assert!(!visible.contains(&"b".into()));

    app.set_activity_expanded("a", Some(true));
    app.set_activity_expanded("b", Some(true));
    assert!(app.all_ancestors_expanded("a"));
    assert!(app.all_ancestors_expanded("b"));
    let visible = app.visible_activity_ids();
    assert!(visible.contains(&"a".into()));
    assert!(visible.contains(&"b".into()));

    let before = app.timeline.len();
    app.event(UiEvent::Activity(start(
        "orphan",
        Some("ghost"),
        "main",
        ActivityKind::Tool,
        None,
    )));
    assert_eq!(
        app.timeline.len(),
        before + 1,
        "timeline records the orphan just like any other activity",
    );
    assert_eq!(app.activity_depth("orphan"), 0);
    assert!(app.all_ancestors_expanded("orphan"));
    assert!(app.visible_activity_ids().iter().any(|id| id == "orphan"));
}

#[test]
fn layout_snapshot_terminates_on_two_node_cycle_and_orphan() {
    let mut app = fresh_app();
    app.event(UiEvent::Activity(start(
        "cyc-a",
        Some("cyc-b"),
        "main",
        ActivityKind::Tool,
        None,
    )));
    app.event(UiEvent::Activity(start(
        "cyc-b",
        Some("cyc-a"),
        "main",
        ActivityKind::Tool,
        None,
    )));
    app.event(UiEvent::Activity(start(
        "orphan",
        Some("ghost"),
        "main",
        ActivityKind::Tool,
        None,
    )));

    let snapshot = app.layout_snapshot();
    assert_eq!(app.depth_for(&snapshot, "cyc-a"), 1);
    assert_eq!(app.depth_for(&snapshot, "cyc-b"), 1);
    assert_eq!(app.depth_for(&snapshot, "orphan"), 0);

    assert!(!app.ancestor_visible_for(&snapshot, "cyc-a"));
    assert!(!app.ancestor_visible_for(&snapshot, "cyc-b"));
    assert!(app.ancestor_visible_for(&snapshot, "orphan"));

    assert_eq!(app.descendant_count_for(&snapshot, "cyc-a"), 1);
    assert_eq!(app.descendant_count_for(&snapshot, "cyc-b"), 1);
    assert_eq!(app.descendant_count_for(&snapshot, "orphan"), 0);

    app.set_activity_expanded("cyc-a", Some(true));
    app.set_activity_expanded("cyc-b", Some(true));
    let snapshot = app.layout_snapshot();
    assert!(app.ancestor_visible_for(&snapshot, "cyc-a"));
    assert!(app.ancestor_visible_for(&snapshot, "cyc-b"));
    assert!(app.visible_activity_ids().contains(&"cyc-a".to_string()));
    assert!(app.visible_activity_ids().contains(&"cyc-b".to_string()));
}

#[test]
fn context_and_external_indexes_round_trip() {
    let mut app = fresh_app();
    app.event(UiEvent::Activity(start(
        "sub-1",
        None,
        "main",
        ActivityKind::Subagent,
        None,
    )));
    app.event(UiEvent::Activity(start(
        "sub-1b",
        None,
        "child",
        ActivityKind::Subagent,
        None,
    )));
    app.event(UiEvent::Activity(start(
        "sub-1c",
        None,
        "main",
        ActivityKind::WorkflowStep,
        None,
    )));
    assert_eq!(app.activity_by_context("main").unwrap().start.id, "sub-1c");
    assert_eq!(app.activity_by_context("child").unwrap().start.id, "sub-1b");
    assert!(app.activity_by_context("missing").is_none());

    app.event(UiEvent::Activity(start(
        "tool-1",
        None,
        "main",
        ActivityKind::Tool,
        Some("req-7"),
    )));
    app.event(UiEvent::Activity(start(
        "tool-2",
        None,
        "main",
        ActivityKind::Tool,
        None,
    )));
    let looked = app
        .activity_by_external("main", "req-7")
        .expect("external lookup works");
    assert_eq!(looked.start.id, "tool-1");
    assert!(app.activity_by_context("main").unwrap().start.id == "sub-1c");
    assert!(app.activity_by_external("main", "missing").is_none());
    assert!(app.activity_by_external("missing", "req-7").is_none());
}

#[test]
fn entry_pushes_append_timeline_in_order_with_optional_owner() {
    let mut app = fresh_app();
    let _ = app.push("user", "main", "hi".into());
    let _ = app.push_owned("assistant", "main", "hello".into(), Some("tool-1".into()));
    assert_eq!(app.entries.len(), 2);
    assert_eq!(app.timeline.len(), 2);
    assert!(matches!(app.timeline[0], TimelineItem::Entry(0)));
    assert!(matches!(app.timeline[1], TimelineItem::Entry(1)));
    assert_eq!(app.entries[1].activity_id.as_deref(), Some("tool-1"));
    app.note("status text");
    assert_eq!(app.entries[2].activity_id, None);
    assert!(matches!(app.timeline[2], TimelineItem::Entry(2)));
}

#[test]
fn streaming_replacement_does_not_duplicate_timeline() {
    let mut app = fresh_app();
    app.event(UiEvent::Delta {
        context: "main".into(),
        text: "hel".into(),
    });
    app.event(UiEvent::Delta {
        context: "main".into(),
        text: "lo".into(),
    });
    app.event(UiEvent::Delta {
        context: "main".into(),
        text: " world".into(),
    });
    let entry_rows = app
        .timeline
        .iter()
        .filter(|item| matches!(item, TimelineItem::Entry(_)))
        .count();
    assert_eq!(entry_rows, 1, "stream replaces in place; no duplicate rows");
    assert_eq!(app.entries.len(), 1);
    assert_eq!(app.entries[0].text, "hello world");
    assert!(app.entries[0].streaming);
    assert_eq!(app.entries[0].revision, 3);
    app.event(UiEvent::Message {
        context: "main".into(),
        message: Message::new("assistant", "hello world"),
    });
    let entry_rows_after = app
        .timeline
        .iter()
        .filter(|item| matches!(item, TimelineItem::Entry(_)))
        .count();
    assert_eq!(entry_rows_after, 1);
    assert!(!app.entries[0].streaming);
    assert_eq!(app.entries[0].revision, 4);
}

#[test]
fn incomplete_message_replacement_clears_streaming_and_bumps_revision() {
    let mut app = fresh_app();
    app.event(UiEvent::Delta {
        context: "main".into(),
        text: "partial".into(),
    });
    let index = *app.streams.get("main").unwrap();
    assert!(app.entries[index].streaming);
    assert_eq!(app.entries[index].revision, 1);

    app.event(UiEvent::Message {
        context: "main".into(),
        message: Message::incomplete_assistant("partial", "cancelled"),
    });

    assert!(!app.entries[index].streaming);
    assert_eq!(app.entries[index].revision, 2);
    assert_eq!(
        app.entries[index].text,
        "partial\n\n[incomplete response: cancelled]"
    );
}

#[test]
fn finishing_a_stream_clears_flag_and_invalidates_renderer_revision() {
    let mut app = fresh_app();
    app.event(UiEvent::Delta {
        context: "main".into(),
        text: "partial".into(),
    });
    let index = *app.streams.get("main").unwrap();
    let revision = app.entries[index].revision;

    app.finish_streaming_entries();

    assert!(!app.entries[index].streaming);
    assert_eq!(app.entries[index].revision, revision + 1);
}

#[test]
fn end_without_status_defaults_to_error() {
    let mut app = fresh_app();
    app.event(UiEvent::Activity(start(
        "tool-x",
        None,
        "main",
        ActivityKind::Tool,
        None,
    )));
    app.event(UiEvent::Activity(end("tool-x", "main", None)));
    assert_eq!(
        app.activity("tool-x").unwrap().status,
        Some(ActivityStatus::Error),
    );
}

#[test]
fn unknown_events_never_panic() {
    let mut app = fresh_app();
    app.event(UiEvent::Activity(end(
        "ghost",
        "main",
        Some(ActivityStatus::Success),
    )));
    assert!(app.activity("ghost").is_none());
    assert_eq!(
        app.pending_activity_ends.get("ghost"),
        Some(&ActivityStatus::Success),
    );
    app.event(UiEvent::Activity(end(
        "ghost",
        "main",
        Some(ActivityStatus::Denied),
    )));
    assert_eq!(
        app.pending_activity_ends.get("ghost"),
        Some(&ActivityStatus::Denied),
    );
    let before_revision = app.activities.len();
    app.set_activity_expanded("ghost", Some(true));
    assert_eq!(app.activities.len(), before_revision);
    app.apply_recovered_unmatched(&vec![end("ghost", "main", None)]);
    assert!(app.activity("ghost").is_none());
}

#[test]
fn recovered_unmatched_marks_cancelled_without_emitting_end_row() {
    let mut app = fresh_app();
    app.event(UiEvent::Activity(start(
        "tool-a",
        None,
        "main",
        ActivityKind::Tool,
        None,
    )));
    app.event(UiEvent::Activity(start(
        "tool-b",
        None,
        "main",
        ActivityKind::Tool,
        None,
    )));
    app.event(UiEvent::Activity(start(
        "tool-c",
        None,
        "main",
        ActivityKind::Tool,
        None,
    )));
    app.event(UiEvent::Activity(end(
        "tool-a",
        "main",
        Some(ActivityStatus::Success),
    )));
    app.event(UiEvent::Activity(end(
        "tool-c",
        "main",
        Some(ActivityStatus::Success),
    )));
    let timeline_before = app.timeline.len();

    let events = vec![
        start("tool-a", None, "main", ActivityKind::Tool, None),
        end("tool-a", "main", Some(ActivityStatus::Success)),
        start("tool-b", None, "main", ActivityKind::Tool, None),
        start("tool-c", None, "main", ActivityKind::Tool, None),
        end("tool-c", "main", Some(ActivityStatus::Success)),
    ];
    app.apply_recovered_unmatched(&events);

    assert_eq!(
        app.activity("tool-a").unwrap().status,
        Some(ActivityStatus::Success),
    );
    assert_eq!(
        app.activity("tool-b").unwrap().status,
        Some(ActivityStatus::Cancelled),
    );
    assert_eq!(
        app.activity("tool-c").unwrap().status,
        Some(ActivityStatus::Success),
    );
    assert_eq!(app.timeline.len(), timeline_before);
    assert_eq!(
        app.timeline
            .iter()
            .filter(|item| matches!(item, TimelineItem::Activity(id) if id == "tool-b"))
            .count(),
        1,
        "still exactly one timeline row for tool-b",
    );

    let tool_b_rev = app.activity("tool-b").unwrap().revision;
    app.apply_recovered_unmatched(&events);
    assert_eq!(app.activity("tool-b").unwrap().revision, tool_b_rev);
}

#[test]
fn live_message_does_not_inline_tool_prose() {
    let mut app = fresh_app();
    app.message(
        "main".into(),
        assistant_with_tool_call("I will look that up.", "call-1", "shell"),
    );
    assert_eq!(app.entries.len(), 1);
    assert_eq!(app.entries[0].role, "assistant");
    assert_eq!(app.entries[0].activity_id, None);
    assert_eq!(app.entries[0].text, "I will look that up.");
    assert!(
        !app.entries[0].text.contains("Tool:"),
        "live mode must not append tool prose; got {:?}",
        app.entries[0].text
    );
    assert!(!app.entries[0].text.contains("shell"));
}

#[test]
fn live_message_preserves_content_reasoning_and_incomplete_marker() {
    let mut app = fresh_app();
    let mut message = Message::new("assistant", "first line\nsecond line");
    message.reasoning = Some("thinking trace".into());
    app.message("main".into(), message);
    assert_eq!(app.entries[0].text, "first line\nsecond line");

    let entries_before_stream = app.entries.len();
    let rows_before_stream = app
        .timeline
        .iter()
        .filter(|item| matches!(item, TimelineItem::Entry(_)))
        .count();
    app.event(UiEvent::Delta {
        context: "main".into(),
        text: "partial ".into(),
    });
    let stream_index = app.streams.get("main").copied().expect("stream open");
    let partial = Message::incomplete_assistant("partial answer", "idle timeout after 5s");
    app.message("main".into(), partial);
    assert_eq!(
        app.entries[stream_index].text,
        "partial answer\n\n[incomplete response: idle timeout after 5s]"
    );
    assert_eq!(
        app.timeline
            .iter()
            .filter(|item| matches!(item, TimelineItem::Entry(_)))
            .count(),
        rows_before_stream + 1,
        "stream replacement must not add a second row on top of the open"
    );
    assert_eq!(app.entries.len(), entries_before_stream + 1);

    let standalone =
        Message::incomplete_assistant("cold partial", "stream ended before completion");
    app.message("main".into(), standalone);
    let entries: Vec<&str> = app.entries.iter().map(|e| e.text.as_str()).collect();
    assert!(entries
        .contains(&"cold partial\n\n[incomplete response: stream ended before completion]"));
}

#[test]
fn tool_result_entry_is_owned_by_synthetic_tool_and_updates_status() {
    let mut app = fresh_app();
    app.replay_display_event(
        DisplayEvent::Message {
            context: "main".into(),
            message: assistant_with_tool_call("checking…", "call-1", "shell"),
        },
        true,
    );
    let tool_id = app
        .activity_by_external("main", "call-1")
        .expect("synthetic tool registered")
        .start
        .id
        .clone();
    app.replay_display_event(
        DisplayEvent::Message {
            context: "main".into(),
            message: tool_result("call-1", r#"{"ok": true}"#),
        },
        true,
    );
    assert_eq!(app.entries.len(), 2);
    assert_eq!(app.entries[0].text, "checking…");
    assert_eq!(app.entries[1].text, r#"{"ok": true}"#);
    assert_eq!(
        app.entries[1].activity_id.as_deref(),
        Some(tool_id.as_str()),
        "tool result entry must be owned by the synthetic Tool"
    );
    assert_eq!(
        app.activity(&tool_id).unwrap().status,
        Some(ActivityStatus::Success),
        "non-error JSON result sets Success"
    );
}

#[test]
fn non_main_context_messages_attach_to_synthesized_subagent() {
    let mut app = fresh_app();
    app.replay_display_event(
        DisplayEvent::Message {
            context: "subagent:planner".into(),
            message: Message::new("user", "hi planner"),
        },
        true,
    );
    let owner = app
        .activity_by_context("subagent:planner")
        .expect("synthesized")
        .start
        .id
        .clone();
    assert!(owner.starts_with("legacy:context:subagent:planner"));
    assert_eq!(app.entries[0].activity_id.as_deref(), Some(owner.as_str()));

    app.replay_display_event(
        DisplayEvent::Message {
            context: "subagent:planner".into(),
            message: Message::new("assistant", "plan"),
        },
        true,
    );
    assert_eq!(app.entries[1].activity_id.as_deref(), Some(owner.as_str()));
    assert_eq!(
        app.activity_by_context("subagent:planner")
            .unwrap()
            .start
            .id,
        owner
    );
    app.replay_display_event(
        DisplayEvent::Message {
            context: "workflow:review".into(),
            message: Message::new("user", "review please"),
        },
        true,
    );
    assert!(app
        .activity_by_context("workflow:review")
        .unwrap()
        .start
        .kind
        .eq(&ActivityKind::WorkflowStep));
}

#[test]
fn stream_delta_assigns_owner_on_open_and_preserves_on_replacement() {
    let mut app = fresh_app();
    app.event(UiEvent::Activity(start(
        "sub",
        None,
        "subagent:planner",
        ActivityKind::Subagent,
        None,
    )));
    app.event(UiEvent::Delta {
        context: "subagent:planner".into(),
        text: "first".into(),
    });
    let stream_index = app
        .streams
        .get("subagent:planner")
        .copied()
        .expect("stream open");
    assert_eq!(
        app.entries[stream_index].activity_id.as_deref(),
        Some("sub")
    );

    app.event(UiEvent::Delta {
        context: "subagent:planner".into(),
        text: " second".into(),
    });
    app.event(UiEvent::Delta {
        context: "subagent:planner".into(),
        text: " third".into(),
    });
    let entry_rows = app
        .timeline
        .iter()
        .filter(|item| matches!(item, TimelineItem::Entry(_)))
        .count();
    assert_eq!(entry_rows, 1, "deltas replace in place; no duplicate rows");
    assert_eq!(app.entries[stream_index].text, "first second third");
    assert_eq!(
        app.entries[stream_index].activity_id.as_deref(),
        Some("sub"),
        "owner survives every delta replacement"
    );

    app.event(UiEvent::Message {
        context: "subagent:planner".into(),
        message: Message::new("assistant", "final"),
    });
    let entry_rows_after = app
        .timeline
        .iter()
        .filter(|item| matches!(item, TimelineItem::Entry(_)))
        .count();
    assert_eq!(entry_rows_after, 1);
    assert_eq!(app.entries[stream_index].text, "final");
    assert_eq!(
        app.entries[stream_index].activity_id.as_deref(),
        Some("sub")
    );
}

#[test]
fn main_stream_stays_unowned() {
    let mut app = fresh_app();
    app.event(UiEvent::Delta {
        context: "main".into(),
        text: "hello".into(),
    });
    assert_eq!(app.entries[0].activity_id, None);
}

#[test]
fn legacy_replay_orders_context_user_assistant_then_synthetic_tools() {
    let mut app = fresh_app();
    let events = vec![
        DisplayEvent::Message {
            context: "subagent:planner".into(),
            message: Message::new("user", "do the thing"),
        },
        DisplayEvent::Message {
            context: "subagent:planner".into(),
            message: assistant_with_tool_call("on it", "call-1", "shell"),
        },
    ];
    let legacy = events.iter().all(|e| matches!(e, DisplayEvent::Message { .. }))
        && app.activities.is_empty();
    for event in events {
        app.replay_display_event(event, legacy);
    }

    assert_eq!(app.timeline.len(), 4);
    assert!(
        matches!(&app.timeline[0], TimelineItem::Activity(id) if id.starts_with("legacy:context:subagent:planner"))
    );
    assert!(matches!(&app.timeline[1], TimelineItem::Entry(0)));
    assert!(matches!(&app.timeline[2], TimelineItem::Entry(1)));
    assert!(
        matches!(&app.timeline[3], TimelineItem::Activity(id) if id.starts_with("legacy:tool:subagent:planner:call-1"))
    );

    let tool_id = app
        .activity_by_external("subagent:planner", "call-1")
        .expect("synthetic tool")
        .start
        .id
        .clone();
    assert_eq!(
        app.activity(&tool_id).unwrap().start.parent_id.as_deref(),
        Some(
            app.activity_by_context("subagent:planner")
                .unwrap()
                .start
                .id
                .as_str()
        )
    );
}

#[test]
fn legacy_tool_result_marks_tool_error_on_structured_error_json() {
    let mut app = fresh_app();
    app.replay_display_event(
        DisplayEvent::Message {
            context: "main".into(),
            message: assistant_with_tool_call("trying", "call-err", "shell"),
        },
        true,
    );
    let tool_id = app
        .activity_by_external("main", "call-err")
        .expect("synthesized")
        .start
        .id
        .clone();
    app.replay_display_event(
        DisplayEvent::Message {
            context: "main".into(),
            message: tool_result("call-err", r#""{\"error\":\"boom\"}""#),
        },
        true,
    );
    assert_eq!(
        app.activity(&tool_id).unwrap().status,
        Some(ActivityStatus::Error),
        "string-encoded JSON with error field flips the Tool node to Error"
    );
}

#[test]
fn legacy_tool_result_error_via_nested_content_field() {
    let mut app = fresh_app();
    app.replay_display_event(
        DisplayEvent::Message {
            context: "main".into(),
            message: assistant_with_tool_call("trying", "call-nested", "shell"),
        },
        true,
    );
    let tool_id = app
        .activity_by_external("main", "call-nested")
        .expect("synthesized")
        .start
        .id
        .clone();
    app.replay_display_event(
        DisplayEvent::Message {
            context: "main".into(),
            message: tool_result("call-nested", r#"{"content":{"error":"nope"}}"#),
        },
        true,
    );
    assert_eq!(
        app.activity(&tool_id).unwrap().status,
        Some(ActivityStatus::Error),
        "error nested under content/stdout still flips the Tool node"
    );
}

#[test]
fn legacy_tool_result_non_error_json_marks_success() {
    let mut app = fresh_app();
    app.replay_display_event(
        DisplayEvent::Message {
            context: "main".into(),
            message: assistant_with_tool_call("trying", "call-ok", "shell"),
        },
        true,
    );
    let tool_id = app
        .activity_by_external("main", "call-ok")
        .expect("synthesized")
        .start
        .id
        .clone();
    app.replay_display_event(
        DisplayEvent::Message {
            context: "main".into(),
            message: tool_result("call-ok", r#"{"stdout":"hello"}"#),
        },
        true,
    );
    assert_eq!(
        app.activity(&tool_id).unwrap().status,
        Some(ActivityStatus::Success)
    );
}

#[test]
fn finish_legacy_replay_marks_running_synthetic_nodes_success() {
    let mut app = fresh_app();
    app.replay_display_event(
        DisplayEvent::Message {
            context: "subagent:planner".into(),
            message: assistant_with_tool_call("...", "call-pending", "shell"),
        },
        true,
    );
    let context_id = app
        .activity_by_context("subagent:planner")
        .unwrap()
        .start
        .id
        .clone();
    let tool_id = app
        .activity_by_external("subagent:planner", "call-pending")
        .unwrap()
        .start
        .id
        .clone();
    assert_eq!(app.activity(&context_id).unwrap().status, None);
    assert_eq!(app.activity(&tool_id).unwrap().status, None);

    app.finish_legacy_replay();
    assert_eq!(
        app.activity(&context_id).unwrap().status,
        Some(ActivityStatus::Success)
    );
    assert_eq!(
        app.activity(&tool_id).unwrap().status,
        Some(ActivityStatus::Success)
    );

    app.event(UiEvent::Activity(end(
        &tool_id,
        "subagent:planner",
        Some(ActivityStatus::Error),
    )));
    app.finish_legacy_replay();
    assert_eq!(
        app.activity(&tool_id).unwrap().status,
        Some(ActivityStatus::Error)
    );
}

#[test]
fn legacy_classifier_does_not_overwrite_authoritative_live_end_success() {
    let mut app = fresh_app();
    let tool_id = replay_legacy_tool_result_without_synthesis(
        &mut app,
        "call-success",
        r#"{"stdout":"first answer"}"#,
    );
    app.event(UiEvent::Activity(end(
        &tool_id,
        "main",
        Some(ActivityStatus::Success),
    )));
    assert_eq!(
        app.activity(&tool_id).unwrap().status,
        Some(ActivityStatus::Success)
    );
    let rev = app.activity(&tool_id).unwrap().revision;

    app.message(
        "main".into(),
        tool_result("call-success", r#"{"status":"denied","error":"late"}"#),
    );
    assert_eq!(
        app.activity(&tool_id).unwrap().status,
        Some(ActivityStatus::Success),
        "authoritative live Success survives a later legacy Denial"
    );
    assert_eq!(
        app.activity(&tool_id).unwrap().revision,
        rev,
        "no-op rewrite must not bump revision"
    );
}

#[test]
fn legacy_classifier_does_not_overwrite_authoritative_live_end_denied() {
    let mut app = fresh_app();
    let tool_id = replay_legacy_tool_result_without_synthesis(
        &mut app,
        "call-denied",
        r#"{"stdout":"ok"}"#,
    );
    app.event(UiEvent::Activity(end(
        &tool_id,
        "main",
        Some(ActivityStatus::Denied),
    )));
    assert_eq!(
        app.activity(&tool_id).unwrap().status,
        Some(ActivityStatus::Denied)
    );

    app.message(
        "main".into(),
        tool_result(
            "call-denied",
            r#"{"error":"boom","content":"something broke"}"#,
        ),
    );
    assert_eq!(
        app.activity(&tool_id).unwrap().status,
        Some(ActivityStatus::Denied),
        "authoritative live Denial survives a later legacy Error"
    );
}

#[test]
fn legacy_classifier_does_not_overwrite_authoritative_live_end_cancelled() {
    let mut app = fresh_app();
    let tool_id = replay_legacy_tool_result_without_synthesis(
        &mut app,
        "call-cancel",
        r#"{"stdout":"ok"}"#,
    );
    app.event(UiEvent::Activity(end(
        &tool_id,
        "main",
        Some(ActivityStatus::Cancelled),
    )));
    assert_eq!(
        app.activity(&tool_id).unwrap().status,
        Some(ActivityStatus::Cancelled)
    );

    app.message(
        "main".into(),
        tool_result("call-cancel", r#"{"ok":true,"stdout":"nothing"}"#),
    );
    assert_eq!(
        app.activity(&tool_id).unwrap().status,
        Some(ActivityStatus::Cancelled),
        "authoritative live Cancellation survives a later legacy Success"
    );
}

#[test]
fn legacy_classifier_does_apply_when_live_end_is_missing() {
    let mut app = fresh_app();
    app.replay_display_event(
        DisplayEvent::Message {
            context: "main".into(),
            message: assistant_with_tool_call("trying", "call-late", "shell"),
        },
        true,
    );
    let tool_id = app
        .activity_by_external("main", "call-late")
        .expect("synthesized")
        .start
        .id
        .clone();
    app.replay_display_event(
        DisplayEvent::Message {
            context: "main".into(),
            message: tool_result("call-late", r#"{"status":"rejected"}"#),
        },
        true,
    );
    assert_eq!(
        app.activity(&tool_id).unwrap().status,
        Some(ActivityStatus::Denied),
        "missing authoritative End lets the legacy classifier set the status"
    );
}

#[test]
fn finish_legacy_replay_leaves_real_activity_nodes_alone() {
    let mut app = fresh_app();
    app.event(UiEvent::Activity(start(
        "real-tool",
        None,
        "main",
        ActivityKind::Tool,
        Some("req-1"),
    )));
    assert_eq!(app.activity("real-tool").unwrap().status, None);
    app.finish_legacy_replay();
    assert_eq!(
        app.activity("real-tool").unwrap().status,
        None,
        "real Activity nodes are not touched by the legacy sweep"
    );
}

#[test]
fn duplicate_legacy_call_ids_get_deterministic_suffix_and_no_overwrite() {
    let mut app = fresh_app();
    app.replay_display_event(
        DisplayEvent::Message {
            context: "main".into(),
            message: assistant_with_tool_call("a", "c1", "shell"),
        },
        true,
    );
    let first_id = app
        .activity_by_external("main", "c1")
        .unwrap()
        .start
        .id
        .clone();
    let second_id = app.legacy_unique_id(&format!("legacy:tool:main:{first_id}"));
    assert_ne!(first_id, second_id);
    let again = app.legacy_unique_id(&format!("legacy:tool:main:{first_id}"));
    assert_eq!(second_id, again);

    app.event(UiEvent::Activity(start(
        "legacy:tool:main:c1",
        None,
        "main",
        ActivityKind::Tool,
        Some("c1"),
    )));
    let bumped = app.legacy_unique_id("legacy:tool:main:c1");
    assert_eq!(bumped, "legacy:tool:main:c1#2");
    let node1_rev = app.activity("legacy:tool:main:c1").unwrap().revision;
    let _ = app.legacy_unique_id("legacy:tool:main:c1");
    assert_eq!(
        app.activity("legacy:tool:main:c1").unwrap().revision,
        node1_rev
    );
}

#[test]
fn real_activity_replay_does_not_synthesize_anything() {
    let mut app = fresh_app();
    app.replay_display_event(
        DisplayEvent::Activity(start(
            "real-sub",
            None,
            "subagent:planner",
            ActivityKind::Subagent,
            None,
        )),
        false,
    );
    app.replay_display_event(
        DisplayEvent::Message {
            context: "subagent:planner".into(),
            message: assistant_with_tool_call("hi", "call-x", "shell"),
        },
        false,
    );
    assert_eq!(app.activities.len(), 1);
    assert_eq!(
        app.activity_by_context("subagent:planner")
            .unwrap()
            .start
            .id,
        "real-sub"
    );
    assert!(app
        .activity_by_external("subagent:planner", "call-x")
        .is_none());
    assert_eq!(
        app.entries[0].activity_id.as_deref(),
        Some("real-sub"),
        "non-main context message attaches to the real Subagent"
    );
}

#[test]
fn replay_routes_activity_through_existing_handlers_without_synthesizing() {
    let mut app = fresh_app();
    app.replay_display_event(
        DisplayEvent::Activity(end("future-tool", "main", Some(ActivityStatus::Success))),
        false,
    );
    assert_eq!(
        app.pending_activity_ends.get("future-tool"),
        Some(&ActivityStatus::Success)
    );
}

#[test]
fn legacy_title_is_one_line_and_bounded() {
    let mut app = fresh_app();
    let long_arg = "x".repeat(500);
    let mut message = Message::new("assistant", "long");
    message.tool_calls.push(ToolCall {
        id: "long".into(),
        name: "shell".into(),
        arguments: format!(r#"{{"command":"echo","args":["{long_arg}"]}}"#),
        description: format!(r#"{{"command":"echo","args":["{long_arg}"]}}"#),
    });
    app.replay_display_event(
        DisplayEvent::Message {
            context: "main".into(),
            message,
        },
        true,
    );
    let node = app
        .activity_by_external("main", "long")
        .expect("synthetic tool");
    let title = &node.start.title;
    assert!(!title.contains('\n'), "title must be a single line");
    assert!(title.starts_with("tool shell:"));
    assert!(
        title.chars().count() <= 200,
        "title stays bounded, got {}",
        title.chars().count()
    );
}

#[test]
fn real_activity_session_resumes_in_interleaved_order() {
    let mut app = fresh_app();
    let events = vec![
        DisplayEvent::Message {
            context: "main".into(),
            message: Message::new("user", "hello"),
        },
        DisplayEvent::Activity(start(
            "real-tool",
            None,
            "main",
            ActivityKind::Tool,
            Some("req-1"),
        )),
        DisplayEvent::Message {
            context: "main".into(),
            message: Message::new("assistant", "thinking"),
        },
        DisplayEvent::Activity(end("real-tool", "main", Some(ActivityStatus::Success))),
    ];
    let legacy_fallback = false;
    for event in events {
        app.replay_display_event(event, legacy_fallback);
    }

    assert_eq!(app.activities.len(), 1);
    assert_eq!(
        app.activity("real-tool").unwrap().status,
        Some(ActivityStatus::Success)
    );
    let real = app.activity("real-tool").unwrap();
    assert!(!real.expanded);
    assert_eq!(
        app.visible_activity_ids(),
        vec!["real-tool".to_string()],
        "real Activity is visible as a root when collapsed"
    );

    assert_eq!(app.timeline.len(), 3);
    assert!(matches!(&app.timeline[0], TimelineItem::Entry(0)));
    assert!(matches!(&app.timeline[1], TimelineItem::Activity(id) if id == "real-tool"));
    assert!(matches!(&app.timeline[2], TimelineItem::Entry(1)));

    assert_eq!(app.entries[0].activity_id, None);
    assert_eq!(app.entries[1].activity_id, None);
}

#[test]
fn recovered_unmatched_ids_mark_cancelled_without_emitting_end_row() {
    let mut app = fresh_app();
    app.event(UiEvent::Activity(start(
        "tool-a",
        None,
        "main",
        ActivityKind::Tool,
        None,
    )));
    app.event(UiEvent::Activity(start(
        "tool-b",
        None,
        "main",
        ActivityKind::Tool,
        None,
    )));
    app.event(UiEvent::Activity(end(
        "tool-a",
        "main",
        Some(ActivityStatus::Success),
    )));
    let timeline_before = app.timeline.len();
    let unmatched = vec!["tool-b".to_string()];
    app.apply_unmatched_ids(&unmatched);

    assert_eq!(
        app.activity("tool-a").unwrap().status,
        Some(ActivityStatus::Success),
        "real End status survives a recovered-unmatched pass"
    );
    assert_eq!(
        app.activity("tool-b").unwrap().status,
        Some(ActivityStatus::Cancelled),
        "unmatched id flips to Cancelled"
    );
    assert_eq!(
        app.timeline.len(),
        timeline_before,
        "Cancelled status patch must not emit a new timeline row"
    );

    let timeline_before_unknown = app.timeline.len();
    app.apply_unmatched_ids(&vec!["ghost".to_string()]);
    assert_eq!(app.timeline.len(), timeline_before_unknown);

    let revision = app.activity("tool-b").unwrap().revision;
    app.apply_unmatched_ids(&unmatched);
    assert_eq!(app.activity("tool-b").unwrap().revision, revision);
}

#[test]
fn legacy_no_activity_session_synthesizes_fallback_nodes_in_place() {
    let mut app = fresh_app();
    let events = vec![
        DisplayEvent::Message {
            context: "subagent:planner".into(),
            message: Message::new("user", "plan it"),
        },
        DisplayEvent::Message {
            context: "subagent:planner".into(),
            message: assistant_with_tool_call("on it", "call-1", "shell"),
        },
        DisplayEvent::Message {
            context: "subagent:planner".into(),
            message: tool_result("call-1", r#"{"stdout":"hi"}"#),
        },
    ];
    let legacy = true;
    for event in events {
        app.replay_display_event(event, legacy);
    }
    app.finish_legacy_replay();

    assert_eq!(app.activities.len(), 2);
    let context_owner = app
        .activity_by_context("subagent:planner")
        .expect("synthesized subagent owner");
    assert!(context_owner
        .start
        .id
        .starts_with("legacy:context:subagent:planner"));
    assert_eq!(
        context_owner.status,
        Some(ActivityStatus::Success),
        "legacy sweep marks the synthesized Subagent Success"
    );
    let tool = app
        .activity_by_external("subagent:planner", "call-1")
        .expect("synthesized tool");
    assert!(tool
        .start
        .id
        .starts_with("legacy:tool:subagent:planner:call-1"));
    assert_eq!(tool.status, Some(ActivityStatus::Success));
    assert_eq!(
        tool.start.parent_id.as_deref(),
        Some(context_owner.start.id.as_str()),
        "synthesized Tool parent is the synthesized Subagent"
    );

    assert!(matches!(
        &app.timeline[0],
        TimelineItem::Activity(id) if id.starts_with("legacy:context:subagent:planner")
    ));
    assert!(matches!(&app.timeline[1], TimelineItem::Entry(0)));
    assert!(matches!(&app.timeline[2], TimelineItem::Entry(1)));
    assert!(matches!(
        &app.timeline[3],
        TimelineItem::Activity(id) if id.starts_with("legacy:tool:subagent:planner:call-1")
    ));

    assert_eq!(
        app.entries[0].activity_id.as_deref(),
        Some(context_owner.start.id.as_str())
    );
    assert_eq!(
        app.entries[1].activity_id.as_deref(),
        Some(context_owner.start.id.as_str())
    );
    assert_eq!(
        app.entries[2].activity_id.as_deref(),
        Some(tool.start.id.as_str())
    );
}

#[test]
fn reset_view_clears_entries_streams_timeline_and_activity_spine() {
    let mut app = fresh_app();
    app.message("main".into(), Message::new("user", "hi"));
    app.event(UiEvent::Delta {
        context: "main".into(),
        text: "partial".into(),
    });
    app.event(UiEvent::Activity(start(
        "tool-1",
        None,
        "main",
        ActivityKind::Tool,
        None,
    )));
    app.event(UiEvent::Activity(end(
        "tool-1",
        "main",
        Some(ActivityStatus::Success),
    )));
    app.scroll = 17;
    app.history_index = 1;
    app.input_history.push("prior".into());
    let prior_generation = app.history_generation;
    let prior_theme = app.theme.duplicate();
    let prior_selection = app.selection.duplicate();

    app.reset_view();

    assert!(app.entries.is_empty(), "entries cleared");
    assert!(app.streams.is_empty(), "streams cleared");
    assert!(app.timeline.is_empty(), "timeline cleared");
    assert!(app.activities.is_empty(), "activities cleared");
    assert!(app.activity_index.is_empty(), "activity_index cleared");
    assert!(
        app.pending_activity_ends.is_empty(),
        "pending_activity_ends cleared"
    );
    assert!(
        app.activity_by_context.is_empty(),
        "activity_by_context cleared"
    );
    assert!(
        app.activity_by_external.is_empty(),
        "activity_by_external cleared"
    );
    assert_eq!(app.scroll, 0, "scroll reset to 0");
    assert_eq!(app.history_index, 0, "history view reset to 0");
    assert_eq!(
        app.history_generation,
        prior_generation + 1,
        "history_generation bumped so cached entries invalidate"
    );
    assert!(app.theme.same(&prior_theme), "theme preserved");
    assert_eq!(
        app.selection.agent, prior_selection.agent,
        "selection.agent preserved"
    );
    assert_eq!(
        app.selection.model, prior_selection.model,
        "selection.model preserved"
    );
    assert_eq!(app.input_history, vec!["prior".to_string()]);
}

#[test]
fn approval_ctrl_c_aborts_and_modified_decision_letters_are_ignored() {
    let mut app = fresh_app();
    app.busy = true;
    app.approval = Some(Approval {
        title: "Approve".into(),
        detail: "Run command".into(),
        workflow: true,
    });

    let action = app
        .handle_key(KeyEvent::new(KeyCode::Char('y'), control()))
        .unwrap();
    assert!(matches!(action, KeyAction::Stay));
    assert!(app.approval.is_some());

    let action = app
        .handle_key(KeyEvent::new(KeyCode::Char('c'), control()))
        .unwrap();
    assert!(matches!(
        action,
        KeyAction::Reply { decision: Decision::Abort, cancel: true }
    ));
    assert!(app.approval.is_none());
    assert!(app.cancel_and_join());
    assert!(!app.busy);
}

#[test]
fn approval_unmodified_letters_decide_and_modified_letters_do_not() {
    for (letter, expected) in [
        ('y', Decision::Approve),
        ('n', Decision::Reject),
        ('q', Decision::Abort),
        ('r', Decision::Retry),
        ('s', Decision::Skip),
    ] {
        let mut app = fresh_app();
        app.approval = Some(Approval {
            title: "Approve".into(),
            detail: "Run command".into(),
            workflow: true,
        });
        match app.handle_key(key(KeyCode::Char(letter))).unwrap() {
            KeyAction::Reply { decision, cancel } => {
                assert_eq!(decision, expected);
                assert!(!cancel);
            }
            other => panic!("{other:?}"),
        }
    }

    for modifiers in [control(), alt()] {
        let mut app = fresh_app();
        app.approval = Some(Approval {
            title: "Approve".into(),
            detail: "Run command".into(),
            workflow: true,
        });
        let action = app
            .handle_key(KeyEvent::new(KeyCode::Char('n'), modifiers))
            .unwrap();
        assert!(matches!(action, KeyAction::Stay));
        assert!(app.approval.is_some());
    }
}

#[test]
fn workflow_complete_controls_require_unmodified_letters_and_esc_exits() {
    for modifiers in [control(), alt()] {
        for letter in ['n', 'r', 'q'] {
            let mut app = fresh_app();
            app.workflow_complete = true;
            app.workflow_mode = Some("missing-workflow".into());
            app.handle_key(KeyEvent::new(KeyCode::Char(letter), modifiers))
                .unwrap();
            assert!(app.workflow_complete);
        }
    }

    let mut app = fresh_app();
    app.workflow_complete = true;
    app.workflow_mode = Some("workflow".into());
    app.handle_key(key(KeyCode::Char('n')))
        .unwrap();
    assert!(!app.workflow_complete);

    app.workflow_complete = true;
    app.workflow_mode = Some("workflow".into());
    app.handle_key(key(KeyCode::Esc)).unwrap();
    assert!(!app.workflow_complete);
}

#[test]
fn f6_enters_newest_visible_activity_and_exits_preserving_id() {
    let mut app = activity_app(&["oldest", "newest"]);

    assert!(matches!(
        app.handle_key(key(KeyCode::F(6))).unwrap(),
        KeyAction::Stay
    ));
    assert_eq!(app.focus, Focus::Activity);
    assert_eq!(app.focused_activity_id(), Some("newest"));

    app.handle_key(key(KeyCode::Up)).unwrap();
    assert_eq!(app.focused_activity_id(), Some("oldest"));
    app.handle_key(key(KeyCode::F(6))).unwrap();
    assert_eq!(app.focus, Focus::Input);
    app.handle_key(key(KeyCode::F(6))).unwrap();
    assert_eq!(app.focused_activity_id(), Some("oldest"));
}

#[test]
fn f6_reports_no_visible_activity_without_changing_focus() {
    let mut app = fresh_app();

    app.handle_key(key(KeyCode::F(6))).unwrap();

    assert_eq!(app.focus, Focus::Input);
    assert_eq!(app.status, "No activity to focus");
}

#[test]
fn activity_focus_absorbs_composer_and_history_keys() {
    let mut app = activity_app(&["activity"]);
    app.focus = Focus::Activity;
    app.focused_activity = Some("activity".into());
    app.input.insert("draft");
    app.input_history = vec!["previous".into()];
    app.history_index = 1;
    let before = (app.input.text.clone(), app.input.cursor, app.history_index);

    for event in [
        key(KeyCode::Char('x')),
        key(KeyCode::Backspace),
        key(KeyCode::Left),
        key(KeyCode::Right),
        key(KeyCode::Up),
        key(KeyCode::Down),
        key(KeyCode::PageUp),
        key(KeyCode::PageDown),
        key(KeyCode::Home),
        key(KeyCode::End),
    ] {
        app.handle_key(event).unwrap();
    }
    assert_eq!(
        (app.input.text, app.input.cursor, app.history_index),
        before
    );
}

#[test]
fn modals_and_workflow_tab_guard_have_priority_over_activity_focus() {
    let mut app = activity_app(&["activity"]);
    app.focus = Focus::Activity;
    app.focused_activity = Some("activity".into());

    app.help = true;
    app.handle_key(key(KeyCode::F(6))).unwrap();
    assert_eq!(app.focus, Focus::Activity);
    app.help = false;
    app.workflow_complete = true;
    app.handle_key(key(KeyCode::F(6))).unwrap();
    assert_eq!(app.focus, Focus::Activity);
    app.workflow_complete = false;
    app.picker = Some(models());
    app.handle_key(key(KeyCode::F(6))).unwrap();
    assert_eq!(app.focus, Focus::Activity);
    assert!(app.picker.is_some());

    app.picker = None;
    app.workflow_mode = Some("workflow".into());
    app.handle_key(key(KeyCode::Tab)).unwrap();
    assert_eq!(app.focused_activity_id(), Some("activity"));
    assert!(app.status.contains("Agent cycling disabled"));
}

#[test]
fn esc_returns_from_activity_focus_without_cancelling_active_run() {
    let mut app = activity_app(&["activity"]);
    app.focus = Focus::Activity;
    app.focused_activity = Some("activity".into());
    app.busy = true;

    let action = app.handle_key(key(KeyCode::Esc)).unwrap();

    assert_eq!(app.focus, Focus::Input);
    assert!(matches!(action, KeyAction::Stay));
}

#[test]
fn ctrl_c_while_activity_focused_keeps_existing_run_cancel_policy() {
    let mut app = activity_app(&["activity"]);
    app.focus = Focus::Activity;
    app.focused_activity = Some("activity".into());
    app.busy = true;

    let action = app
        .handle_key(KeyEvent::new(KeyCode::Char('c'), control()))
        .unwrap();

    assert!(matches!(action, KeyAction::Cancel));
    assert_eq!(app.status, "Cancelling...");
}
