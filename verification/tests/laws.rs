use soda_tui::app::{App, TimelineItem};
use soda_tui::input::Input;
use soda_tui::markdown::markdown;
use soda_tui::model::{
    ActivityEvent, ActivityKind, ActivityPhase, ActivityStatus, Message, Selection, Theme, ToolCall,
    UiEvent,
};
use soda_tui::pace::{pace, Pace, Wake};
use soda_tui::picker::fuzzy_score;
use soda_tui::renderer::Renderer;
use soda_tui::runs::Settings;
use soda_tui::style::{Color, Line, Span, Style};
use soda_tui::text::{
    bounded_excerpt, last_bytes_text, logical_line_count, sanitize_id, sanitize_terminal_text,
    sanitize_title,
};
use soda_tui::wrap::{tail_text, truncate_line, wrap_lines, wrap_lines_at_words};

/// A theme with a color of its own for every role.
fn theme() -> Theme {
    Theme {
        background: "#101418".to_owned(),
        foreground: "#e6e6e6".to_owned(),
        border: "#5c6370".to_owned(),
        muted: "#7f848e".to_owned(),
        accent: "#61afef".to_owned(),
        user: "#98c379".to_owned(),
        assistant: "#c678dd".to_owned(),
        tool: "#56b6c2".to_owned(),
        error: "#e06c75".to_owned(),
        warning: "#e5c07b".to_owned(),
        success: "#8cc265".to_owned(),
        cta_foreground: "#101418".to_owned(),
        cta_background: "#d19a66".to_owned(),
        syntax_theme: "base16-ocean.dark".to_owned(),
        ascii: false,
        syntax_highlighting: true,
    }
}

fn fresh_app() -> App {
    let settings = Settings {
        workspace: "/work".to_owned(),
        theme: theme(),
        default_agent: None,
        provider: "openai".to_owned(),
        model: "gpt-5".to_owned(),
        no_spend: "$0.0000".to_owned(),
    };
    App::new(&settings, Selection::default())
}

fn activity(id: &str, parent: Option<&str>, phase: ActivityPhase) -> ActivityEvent {
    ActivityEvent {
        id: id.to_owned(),
        parent_id: parent.map(str::to_owned),
        context: "main".to_owned(),
        kind: ActivityKind::Tool,
        phase,
        title: format!("{id} title"),
        external_id: None,
        status: Some(ActivityStatus::Error),
    }
}

fn start(id: &str, parent: Option<&str>) -> UiEvent {
    UiEvent::Activity(ActivityEvent { status: None, ..activity(id, parent, ActivityPhase::Start) })
}

fn end(id: &str) -> UiEvent {
    UiEvent::Activity(activity(id, None, ActivityPhase::End))
}

fn delta(text: &str) -> UiEvent {
    UiEvent::Delta { context: "main".to_owned(), text: text.to_owned() }
}

fn texts(lines: &[Line]) -> Vec<String> {
    lines.iter().map(Line::text).collect()
}

fn rows_of(app: &App, id: &str) -> usize {
    app.timeline
        .iter()
        .filter(|item| matches!(item, TimelineItem::Activity(other) if other == id))
        .count()
}

#[test]
fn a_second_start_changes_nothing() {
    let mut app = fresh_app();
    app.event(start("a", None));
    app.set_activity_expanded("a", Some(true));
    let before = format!("{:?} {:?}", app.activities, app.timeline);
    app.event(start("a", None));
    assert_eq!(format!("{:?} {:?}", app.activities, app.timeline), before);
    assert_eq!(rows_of(&app, "a"), 1);
}

#[test]
fn an_end_may_come_before_its_start() {
    let mut late = fresh_app();
    late.event(start("a", None));
    late.event(end("a"));
    let mut early = fresh_app();
    early.event(end("a"));
    assert!(early.activities.is_empty());
    early.event(start("a", None));
    assert_eq!(early.activities[0].status, Some(ActivityStatus::Error));
    assert_eq!(late.activities[0].status, Some(ActivityStatus::Error));
    assert_eq!(rows_of(&early, "a"), 1);
    assert!(early.pending_activity_ends.is_empty());
}

#[test]
fn a_collapsed_activity_hides_what_is_below_it() {
    let mut app = fresh_app();
    app.event(start("root", None));
    app.event(start("child", Some("root")));
    app.event(start("grandchild", Some("child")));
    app.set_activity_expanded("root", Some(true));
    app.set_activity_expanded("child", Some(true));
    assert_eq!(app.visible_activity_ids(), ["root", "child", "grandchild"]);
    app.toggle_activity_expanded("root");
    assert_eq!(app.visible_activity_ids(), ["root"]);
    app.toggle_activity_expanded("root");
    assert_eq!(app.visible_activity_ids(), ["root", "child", "grandchild"]);
    assert_eq!(app.activity_depth("grandchild"), 2);
    assert_eq!(app.activity_descendant_count("root"), 2);
}

#[test]
fn a_parent_that_was_never_started_is_no_ancestor() {
    let mut app = fresh_app();
    app.event(start("orphan", Some("ghost")));
    app.event(start("leaf", Some("orphan")));
    assert!(!app.is_ancestor("ghost", "orphan"));
    assert!(!app.is_ancestor("ghost", "leaf"));
    assert!(app.is_ancestor("ghost", "ghost"));
    assert!(app.is_ancestor("orphan", "leaf"));
    assert!(!app.is_ancestor("leaf", "orphan"));
    assert_eq!(app.activity_descendant_count("ghost"), 0);
    assert_eq!(app.activity_descendant_count("orphan"), 1);
    let snapshot = app.layout_snapshot();
    assert_eq!(app.descendant_count_for(&snapshot, "ghost"), 0);
    assert_eq!(app.descendant_count_for(&snapshot, "orphan"), 1);
    // Once the parent is there it is an ancestor of both.
    app.event(start("ghost", None));
    assert!(app.is_ancestor("ghost", "leaf"));
    assert_eq!(app.activity_descendant_count("ghost"), 2);
}

#[test]
fn sweeping_twice_is_sweeping_once() {
    let mut app = fresh_app();
    app.event(start("a", None));
    app.event(start("b", None));
    app.event(end("b"));
    let ids = vec!["a".to_owned(), "b".to_owned(), "ghost".to_owned()];
    app.apply_unmatched_ids(&ids);
    let once = format!("{:?}", app.activities);
    assert!(app.activities[0].status.is_some());
    assert_eq!(app.activities[1].status, Some(ActivityStatus::Error));
    app.apply_unmatched_ids(&ids);
    assert_eq!(format!("{:?}", app.activities), once);
}

#[test]
fn messages_only_add_entries() {
    let mut app = fresh_app();
    app.message("main".into(), Message::new("user", "one"));
    let first = format!("{:?}", app.entries[0]);
    let mut call = Message::new("assistant", "calling");
    call.tool_calls.push(ToolCall {
        id: "c1".to_owned(),
        name: "shell".to_owned(),
        arguments: r#"{"command":"ls"}"#.to_owned(),
        description: "Run ls".to_owned(),
    });
    app.message("main".into(), call);
    app.message("main".into(), Message::tool("c1", "done"));
    assert_eq!(format!("{:?}", app.entries[0]), first);
    assert!(app.entries.len() >= 3);
}

#[test]
fn deltas_add_up_and_a_message_completes_them() {
    let mut split = fresh_app();
    split.event(delta("hel"));
    split.event(delta("lo"));
    let mut whole = fresh_app();
    whole.event(delta("hello"));
    assert_eq!(split.entries[0].text, "hello");
    assert_eq!(split.entries[0].text, whole.entries[0].text);
    assert!(split.entries[0].streaming);
    assert_eq!(split.entries[0].revision, 2);
    assert_eq!(whole.entries[0].revision, 1);

    split.event(UiEvent::Message {
        context: "main".to_owned(),
        message: Message::new("assistant", "hello there"),
    });
    assert_eq!(split.entries.len(), 1);
    assert_eq!(split.entries[0].text, "hello there");
    assert_eq!(split.entries[0].revision, 3);
    assert!(!split.entries[0].streaming);
    assert!(split.streams.is_empty());
}

#[test]
fn made_up_ids_are_free() {
    let mut app = fresh_app();
    assert_eq!(app.legacy_unique_id("call"), "call");
    app.event(start("call", None));
    let second = app.legacy_unique_id("call");
    assert_ne!(second, "call");
    app.event(start(&second, None));
    let third = app.legacy_unique_id("call");
    assert!(third != "call" && third != second);
    assert!(app.activity(&third).is_none());
}

#[test]
fn a_changed_entry_is_the_only_one_rendered_again() {
    let mut app = fresh_app();
    for text in ["one", "two", "three"] {
        app.message("main".into(), Message::new("assistant", text));
    }
    let mut renderer = Renderer::default();
    renderer.history(&app, 40, 20);
    assert_eq!(renderer.rebuilds, 3);
    renderer.history(&app, 40, 20);
    assert_eq!(renderer.rebuilds, 3);
    app.event(delta("four"));
    renderer.history(&app, 40, 20);
    assert_eq!(renderer.rebuilds, 4);
    app.event(delta(" and more"));
    renderer.history(&app, 40, 20);
    assert_eq!(renderer.rebuilds, 5);
    renderer.history(&app, 41, 20);
    assert_eq!(renderer.rebuilds, 9);
}

#[test]
fn the_view_stops_at_both_ends_of_the_transcript() {
    let mut app = fresh_app();
    for index in 0..10 {
        app.message("main".into(), Message::new("assistant", &format!("entry {index}")));
    }
    let mut renderer = Renderer::default();
    let last = texts(&renderer.history(&app, 40, 4));
    assert_eq!(last.len(), 4);
    assert!(last.iter().any(|row| row.contains("entry 9")));
    app.scroll = usize::MAX;
    let first = texts(&renderer.history(&app, 40, 4));
    assert_eq!(first.len(), 4);
    assert!(first[1].contains("entry 0"));
    app.scroll = 26;
    assert_eq!(texts(&renderer.history(&app, 40, 4)), first);
}

#[test]
fn cleaned_text_is_safe_and_stays_as_it_is() {
    let dirty = "a\u{1b}[31mb\tc\nd\u{202e}\u{200b}e\u{7f}";
    let line = sanitize_terminal_text(dirty, false);
    assert_eq!(line, "a[31mb c de");
    assert_eq!(sanitize_terminal_text(&line, false), line);
    let rows = sanitize_terminal_text(dirty, true);
    assert_eq!(rows, "a[31mb c\nde");
    assert_eq!(sanitize_terminal_text(&rows, true), rows);
}

#[test]
fn markdown_keeps_every_line() {
    let text = "# Title\r\nsome `code` here\n\n```rust\nfn main() {\n    let x = \"漢字\";\n\n}\n```\n\
        ~ end\n```\nunclosed\ttab";
    let foreground = Color::rgb(1, 2, 3);
    let rows = markdown(text, &theme(), foreground);
    let lines: Vec<&str> = text.lines().collect();
    assert_eq!(texts(&rows), lines);
    // The code is colored, so that its rows hold more than one span.
    assert!(rows[4].spans.len() > 1);
    let mut plain = theme();
    plain.syntax_highlighting = false;
    assert_eq!(texts(&markdown(text, &plain, foreground)), lines);
}

#[test]
fn the_screen_is_drawn_on_ticks_alone() {
    let step = |dirty: bool, wake: Wake| pace(dirty, wake);
    assert_eq!(step(false, Wake::Events), Pace { dirty: true, draw: false });
    assert_eq!(step(true, Wake::Input), Pace { dirty: true, draw: false });
    assert_eq!(step(true, Wake::Tick { changed: false }), Pace { dirty: false, draw: true });
    assert_eq!(step(false, Wake::Tick { changed: true }), Pace { dirty: false, draw: true });
    assert_eq!(step(false, Wake::Tick { changed: false }), Pace { dirty: false, draw: false });
    // A burst of events is drawn once.
    let mut dirty = false;
    let mut drawn = 0;
    for k in 0..100 {
        let wake = if k % 50 == 49 { Wake::Tick { changed: false } } else { Wake::Events };
        let next = pace(dirty, wake);
        dirty = next.dirty;
        drawn += usize::from(next.draw);
    }
    assert_eq!(drawn, 2);
}

#[test]
fn a_tick_drops_an_approval_that_nobody_waits_for() {
    let mut app = fresh_app();
    assert!(!app.tick(false, false, false));
    assert!(app.tick(true, false, false));
    assert!(app.tick(false, true, false));
    app.busy = true;
    assert!(app.tick(false, false, false));
    app.busy = false;
    app.event(UiEvent::Approval {
        title: "Run".to_owned(),
        detail: "ls".to_owned(),
        workflow: false,
        open: true,
    });
    assert!(!app.tick(false, false, true));
    assert!(app.approval.is_some());
    assert!(app.tick(false, false, false));
    assert!(app.approval.is_none());
}

#[test]
fn a_full_turn_of_the_agents_comes_back() {
    let names: Vec<String> = ["alpha", "beta", "gamma"].map(str::to_owned).to_vec();
    for reverse in [false, true] {
        let mut app = fresh_app();
        let mut seen = Vec::new();
        for _ in 0..4 {
            let next = app.cycle_agent(&names, None, reverse).unwrap();
            seen.push(next.agent.clone());
            app.agent_cycled(next);
        }
        assert!(seen.contains(&Some("alpha".to_owned())));
        assert!(seen.contains(&Some("beta".to_owned())));
        assert!(seen.contains(&Some("gamma".to_owned())));
        assert!(seen.contains(&None));
        assert_eq!(app.selection.agent, None);
    }
}

#[test]
fn cut_texts_fit() {
    assert_eq!(tail_text("/home/user/漢字", 6), "…/漢字");
    assert_eq!(tail_text("/home/user/漢字", 5), "…漢字");
    assert_eq!(tail_text("/home/user/漢字", 4), "…字");
    let spans = || vec![Span::raw("abc"), Span::raw("漢字漢字")];
    assert_eq!(truncate_line(spans(), 11).text(), "abc漢字漢字");
    assert_eq!(truncate_line(spans(), 10).text(), "abc漢字漢…");
    assert_eq!(truncate_line(spans(), 9).text(), "abc漢字…");
    assert_eq!(truncate_line(spans(), 8).text(), "abc漢字…");
    assert_eq!(truncate_line(spans(), 3).text(), "ab…");
    assert_eq!(truncate_line(spans(), 0).text(), "…");
    assert_eq!(bounded_excerpt("0123456789", 10), "0123456789");
    assert_eq!(bounded_excerpt("0123456789", 7), "012\n789");
    assert_eq!(bounded_excerpt("漢字漢字", 8), "漢\n字");
    assert_eq!(bounded_excerpt("ab", 1), "\n");
    assert_eq!(bounded_excerpt("a", 0), "");
    assert_eq!(bounded_excerpt("", 0), "");
    assert_eq!(last_bytes_text("漢字漢字", 7), "漢字");
}

#[test]
fn wrapping_loses_only_white_space() {
    let line = || vec![Line::raw("one  two\tthree 漢字漢字")];
    let words = texts(&wrap_lines_at_words(&line(), 6));
    let ink: String = words.concat().chars().filter(|c| !c.is_whitespace()).collect();
    assert_eq!(ink, "onetwothree漢字漢字");
    let hard = texts(&wrap_lines(&line(), 6));
    assert_eq!(hard.concat().replace(' ', ""), "onetwothree漢字漢字");
    assert!(hard.iter().all(|row| row.chars().count() <= 6));
}

#[test]
fn search_words_may_stand_in_any_order() {
    let text = "openrouter:anthropic/swift-sonnet | sonnet";
    assert_eq!(fuzzy_score(text, "sonnet swift"), fuzzy_score(text, "swift  sonnet "));
    assert!(fuzzy_score(text, "sonnet swift").is_some());
    assert_eq!(fuzzy_score(text, "sonnet ghost"), None);
    assert_eq!(fuzzy_score(text, ""), Some(0));
    // Ten for each letter, eight for the start of a word, twelve for each
    // letter right behind the one before.
    assert_eq!(fuzzy_score("abc", "abc"), Some(18 + 22 + 22));
    assert_eq!(fuzzy_score("xa b", "ab"), Some(10 - 1 + 18 - 1));
}

#[test]
fn the_cursor_moves_by_words_and_a_backspace_undoes_a_letter() {
    let mut input = Input::default();
    input.set("one  zwei drei".to_owned());
    input.word_left();
    assert_eq!(input.before(), "one  zwei ");
    input.word_left();
    assert_eq!(input.before(), "one  ");
    input.word_left();
    assert_eq!(input.before(), "");
    input.word_left();
    assert_eq!(input.before(), "");
    input.word_right();
    assert_eq!(input.before(), "one");
    input.word_right();
    assert_eq!(input.before(), "one  zwei");
    input.insert("漢");
    assert_eq!(input.before(), "one  zwei漢");
    input.backspace();
    assert_eq!(input.text, "one  zwei drei");
    assert_eq!(input.before(), "one  zwei");
}

#[test]
fn patched_styles_prefer_the_upper_one() {
    let red = Color { r: 255, g: 0, b: 0 };
    let blue = Color { r: 0, g: 0, b: 255 };
    let under = Style::new().fg(red).bg(red).bold();
    let over = Style::new().fg(blue).italic();
    let both = under.patch(over);
    assert_eq!(both.fg, Some(blue));
    assert_eq!(both.bg, Some(red));
    assert!(both.bold && both.italic);
}

#[test]
fn titles_and_ids_are_clean() {
    assert_eq!(sanitize_title("read\tfile\r\n\nof\u{1b}[0m  "), "read file of[0m");
    assert_eq!(sanitize_title("\n first"), " first");
    assert_eq!(sanitize_title("open \n next"), "open  next");
    assert_eq!(sanitize_title("a \nb"), "a b");
    assert_eq!(sanitize_title(" \n\t "), "");
    assert_eq!(sanitize_id("  tool\n  call  "), "tool-call");
    assert_eq!(sanitize_id(" - "), "activity");
    assert_eq!(sanitize_id("\u{3000}a\u{a0}\u{3000}b\u{3000}"), "a-b");
    assert_eq!(sanitize_id(&"x".repeat(120)), "x".repeat(120));
    assert_eq!(sanitize_id(&"x".repeat(121)), format!("{}...", "x".repeat(117)));
}

#[test]
fn a_line_is_counted_once_it_is_begun() {
    assert_eq!(logical_line_count(""), 0);
    assert_eq!(logical_line_count("a"), 1);
    assert_eq!(logical_line_count("a\n"), 1);
    assert_eq!(logical_line_count("a\nb"), 2);
    assert_eq!(logical_line_count("\n\n"), 2);
}

#[test]
fn a_cut_row_has_one_span_for_each_style() {
    let red = Style::new().fg(Color { r: 255, g: 0, b: 0 });
    let spans = vec![
        Span::styled("ab".to_owned(), red),
        Span::styled("cd".to_owned(), red),
        Span::raw("efgh"),
    ];
    let cut = truncate_line(spans, 6);
    assert_eq!(cut.spans.len(), 2);
    assert_eq!(cut.spans[0].content, "abcd");
    assert_eq!(cut.spans[0].style, red);
    assert_eq!(cut.spans[1].content, "e…");
}
