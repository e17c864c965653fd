use ratatui::backend::TestBackend;
use ratatui::layout::{Alignment, Constraint, Layout, Margin};
use ratatui::symbols::border;
use ratatui::widgets::{Block, Borders, Clear, Paragraph};
use ratatui::{Frame, Terminal};
use serde_json::Value;
use soda_tui::app::{App, Entry};
use soda_tui::artwork::kitty_rows;
use soda_tui::draw::{
    HEADER_HEIGHT, HEADER_LOGO_WIDTH, HEADER_SEPARATOR_WIDTH, INPUT_RESERVED_ROWS,
};
use soda_tui::entries::{
    render_entry, render_streaming_entry, COMPLETED_HEAD_LINES, COMPLETED_RENDER_BYTES,
    COMPLETED_RENDER_LINES, COMPLETED_TAIL_LINES,
};
use soda_tui::history::{activity_summary_line_snapshot, ActivitySummary};
use soda_tui::json::tool_result_text;
use soda_tui::kitty::{render_idle, KittyVariant, CANVAS_HEIGHT, ROTATION_SECONDS};
use soda_tui::model::{
    ActivityEvent, ActivityKind, ActivityPhase, ActivityStatus, KeyCode, KeyEvent, Message,
    Modifiers, Selection, Theme, UiEvent,
};
use soda_tui::picker::{McpServer, ModelAlias, ModelRef, Picker, Preset};
use soda_tui::renderer::{Rect, Renderer};
use soda_tui::runs::Settings;
use soda_tui::scene::Paint;
use soda_tui::style::{color, Color, Line, Span, Style};
use soda_tui::text::{is_unsafe_terminal_char, logical_line_count};
use soda_tui::width::cell_width;
use soda_tui::wrap::{tail_text, wrap_ascii_run, wrap_lines, wrap_lines_at_words};
use unicode_width::UnicodeWidthStr;

const MILLISECOND: u128 = 1_000_000;
const SECOND: u128 = 1_000_000_000;
/// The time at which screens are drawn.
const NOW: u128 = 60 * SECOND;

const SMALL_SCREEN: Rect = Rect { x: 0, y: 0, width: 60, height: 20 };

const RED: Color = Color { r: 255, g: 0, b: 0 };
const GREEN: Color = Color { r: 0, g: 255, b: 0 };
const BLUE: Color = Color { r: 0, g: 0, b: 255 };
const YELLOW: Color = Color { r: 255, g: 255, b: 0 };

const VARIANTS: [KittyVariant; 3] =
    [KittyVariant::Blob, KittyVariant::Cbear, KittyVariant::FlyGirl];

/// A theme with a color of its own for every role.
fn theme() -> Theme {
    Theme {
        background: "#101418".to_owned(),
        foreground: "#e6e6e6".to_owned(),
        border: "#5c6370".to_owned(),
        muted: "#7f848e".to_owned(),
        accent: "#61afef".to_owned(),
        user: "#98c379".to_owned(),
        assistant: "#c678dd".to_owned(),
        tool: "#56b6c2".to_owned(),
        error: "#e06c75".to_owned(),
        warning: "#e5c07b".to_owned(),
        success: "#8cc265".to_owned(),
        cta_foreground: "#101418".to_owned(),
        cta_background: "#d19a66".to_owned(),
        syntax_theme: "base16-ocean.dark".to_owned(),
        ascii: false,
        syntax_highlighting: true,
    }
}

fn fresh_app() -> App {
    let settings = Settings {
        workspace: "/work".to_owned(),
        theme: theme(),
        default_agent: None,
        provider: "openai".to_owned(),
        model: "gpt-5".to_owned(),
        no_spend: "$0.0000".to_owned(),
    };
    App::new(&settings, Selection::default())
}

/// Six themes that differ from one another and from the default one.
fn presets() -> Vec<Preset> {
    let mut all = Vec::new();
    for (name, tint) in [
        ("cola", "#884422"),
        ("lime", "#22aa44"),
        ("grape", "#6633aa"),
        ("orange", "#dd8811"),
        ("mama_j", "#aaaaaa"),
        ("berry", "#cc3366"),
    ] {
        let mut theme = theme();
        theme.assistant = tint.to_owned();
        if name == "mama_j" {
            theme.foreground = "#eeeeee".to_owned();
            theme.border = "#666666".to_owned();
            theme.muted = "#777777".to_owned();
            theme.accent = "#999999".to_owned();
            theme.syntax_highlighting = false;
        }
        all.push(Preset { name: name.to_owned(), description: format!("{name} colors"), theme });
    }
    all
}

fn rect(x: u16, y: u16, width: u16, height: u16) -> Rect {
    Rect { x, y, width, height }
}

fn right(rect: Rect) -> u16 {
    rect.x + rect.width
}

fn bottom(rect: Rect) -> u16 {
    rect.y + rect.height
}

fn place(area: Rect) -> ratatui::layout::Rect {
    ratatui::layout::Rect::new(area.x, area.y, area.width, area.height)
}

fn tinted(color: Color) -> ratatui::style::Color {
    ratatui::style::Color::Rgb(color.r, color.g, color.b)
}

fn styled(style: Style) -> ratatui::style::Style {
    let mut out = ratatui::style::Style::default();
    out.fg = style.fg.map(tinted);
    out.bg = style.bg.map(tinted);
    if style.bold {
        out = out.add_modifier(ratatui::style::Modifier::BOLD);
    }
    if style.italic {
        out = out.add_modifier(ratatui::style::Modifier::ITALIC);
    }
    out
}

fn row(line: Line) -> ratatui::text::Line<'static> {
    let spans: Vec<ratatui::text::Span<'static>> = line
        .spans
        .into_iter()
        .map(|span| ratatui::text::Span::styled(span.content, styled(span.style)))
        .collect();
    ratatui::text::Line::from(spans).style(styled(line.style))
}

fn corners(ascii: bool) -> border::Set {
    if !ascii {
        return border::ROUNDED;
    }
    border::Set {
        top_left: "+",
        top_right: "+",
        bottom_left: "+",
        bottom_right: "+",
        vertical_left: "|",
        vertical_right: "|",
        horizontal_top: "-",
        horizontal_bottom: "-",
    }
}

/// Puts a scene on a frame.
fn paint(frame: &mut Frame, scene: Vec<Paint>) {
    for item in scene {
        match item {
            Paint::Fill { area, style } => {
                frame.render_widget(Block::default().style(styled(style)), place(area));
            }
            Paint::Clear { area } => frame.render_widget(Clear, place(area)),
            Paint::Border { area, title, bottom, all, ascii, border, style } => {
                let sides = if all { Borders::ALL } else { Borders::LEFT | Borders::RIGHT };
                let mut block = Block::default()
                    .borders(sides)
                    .border_set(corners(ascii))
                    .border_style(styled(border))
                    .style(styled(style));
                if !title.is_empty() {
                    block = block.title(title);
                }
                if !bottom.is_empty() {
                    block = block.title_bottom(bottom);
                }
                frame.render_widget(block, place(area));
            }
            Paint::Text { area, lines, style, right } => {
                let rows: Vec<ratatui::text::Line<'static>> = lines.into_iter().map(row).collect();
                let side = if right { Alignment::Right } else { Alignment::Left };
                let text = Paragraph::new(rows).style(styled(style)).alignment(side);
                frame.render_widget(text, place(area));
            }
            Paint::Glyph(cell) => {
                frame.buffer_mut()[(cell.x, cell.y)]
                    .set_char(cell.symbol)
                    .set_style(styled(cell.style));
            }
            Paint::Cursor { x, y } => frame.set_cursor_position((x, y)),
        }
    }
}

/// Draws a frame on a terminal.
fn show(terminal: &mut Terminal<TestBackend>, renderer: &mut Renderer, app: &App) {
    terminal
        .draw(|frame| {
            let area = frame.area();
            let screen = rect(area.x, area.y, area.width, area.height);
            let scene = renderer.draw(app, screen, NOW);
            paint(frame, scene);
        })
        .unwrap();
}

fn screen(renderer: &mut Renderer, app: &App, width: u16, height: u16) -> String {
    let mut terminal = Terminal::new(TestBackend::new(width, height)).unwrap();
    show(&mut terminal, renderer, app);
    let buffer = terminal.backend().buffer();
    (0..height)
        .map(|y| (0..width).map(|x| buffer[(x, y)].symbol()).collect::<String>())
        .collect::<Vec<_>>()
        .join("\n")
}

/// The foreground colors of some rows, each once.
fn colors(lines: &[Line]) -> Vec<Color> {
    let mut all: Vec<Color> = Vec::new();
    for span in lines.iter().flat_map(|line| line.spans.iter()) {
        if let Some(color) = span.style.fg {
            if !all.contains(&color) {
                all.push(color);
            }
        }
    }
    all
}

fn wrap_text(lines: &[Line], width: usize) -> Vec<String> {
    let lines: Vec<Line> = lines.iter().map(Line::duplicate).collect();
    wrap_lines_at_words(&lines, width).iter().map(Line::text).collect()
}

fn rendered_text(lines: &[Line]) -> String {
    lines
        .iter()
        .flat_map(|line| line.spans.iter())
        .map(|span| span.content.as_str())
        .collect()
}

fn completed_entry(text: String) -> Entry {
    Entry {
        role: "assistant".into(),
        context: "main".into(),
        text,
        revision: 1,
        streaming: false,
        activity_id: None,
    }
}

/// A JSON object with one text.
fn note(text: &str) -> Value {
    let mut object = serde_json::Map::new();
    object.insert("a".to_owned(), Value::String(text.to_owned()));
    Value::Object(object)
}

fn summary_start(id: &str) -> ActivityEvent {
    start(id, None, "main", ActivityKind::Tool, None, &format!("{id} title"))
}

fn start(
    id: &str,
    parent: Option<&str>,
    context: &str,
    kind: ActivityKind,
    external: Option<&str>,
    title: &str,
) -> ActivityEvent {
    ActivityEvent {
        id: id.into(),
        parent_id: parent.map(str::to_owned),
        context: context.into(),
        kind,
        phase: ActivityPhase::Start,
        title: title.into(),
        external_id: external.map(str::to_owned),
        status: None,
    }
}

fn end(id: &str, context: &str, status: Option<ActivityStatus>) -> ActivityEvent {
    ActivityEvent {
        id: id.into(),
        parent_id: None,
        context: context.into(),
        kind: ActivityKind::Tool,
        phase: ActivityPhase::End,
        title: format!("{id} end"),
        external_id: None,
        status,
    }
}

fn summary(app: &App, id: &str, width: usize) -> Line {
    let snapshot = app.layout_snapshot();
    activity_summary_line_snapshot(app, &snapshot, id, width, &app.theme)
}

fn enter_activity_focus(app: &mut App) {
    app.handle_key(KeyEvent::new(KeyCode::F(6), Modifiers::none())).unwrap();
}

/// The activities whose summaries the rows of the last view are.
fn targets(renderer: &Renderer) -> Vec<Option<&str>> {
    renderer.hit_map.iter().map(|hit| hit.as_ref().map(|summary| summary.id.as_str())).collect()
}

fn assert_semantic_hit_targets(lines: &[Line], hit_map: &[Option<ActivitySummary>]) {
    for (line, hit) in lines.iter().zip(hit_map) {
        let text = line.text();
        if let Some(summary) = hit {
            let marker_and_title = match summary.id.as_str() {
                "collapsed" => "[+] collapsed",
                "expanded" => "[-] expanded",
                "nested" => "[+] nested",
                id => panic!("unexpected activity summary id: {id}"),
            };
            assert!(text.contains(marker_and_title), "{text:?}");
        }
        for body in ["hidden-collapsed", "hidden-descendant", "detail-one", "detail-two"] {
            if text.contains(body) {
                assert!(hit.is_none(), "{text:?}");
            }
        }
    }
}

#[test]
fn highlights_code_and_reuses_unchanged_history() {
    let mut app = fresh_app();
    app.message(
        "main".into(),
        Message::new(
            "assistant",
            "```rust\nfn main() { let text = \"hello\"; }\n```",
        ),
    );
    let mut renderer = Renderer::default();
    let output = screen(&mut renderer, &app, 90, 24);
    assert!(output.contains("fn main()"));
    assert!(output.contains("Enter Send"));
    assert!(output.contains("diet_"));
    assert!(output.contains("soda"));
    assert!(output.contains("┌ assistant ┐"));
    assert!(output.contains("│ "));
    let colors = colors(&renderer.cache[0].lines);
    assert!(colors.len() >= 3);
    let rebuilds = renderer.rebuilds;
    screen(&mut renderer, &app, 90, 24);
    assert_eq!(renderer.rebuilds, rebuilds);
    app.event(UiEvent::Delta {
        context: "main".into(),
        text: "next".into(),
    });
    screen(&mut renderer, &app, 90, 24);
    assert_eq!(renderer.rebuilds, rebuilds + 1);
}

#[test]
fn test_backend_cells_contain_no_terminal_controls_or_bidi_marks() {
    let mut app = fresh_app();
    app.status = "status\u{1b}]0;title\u{7}\u{202e}\u{200b}\tline\nnext".into();
    app.input
        .set("input\u{1b}[31m\u{2066}\u{200d}\nwrapped".into());
    let mut renderer = Renderer::default();

    let mut terminal = Terminal::new(TestBackend::new(80, 24)).unwrap();
    show(&mut terminal, &mut renderer, &app);
    let text = terminal
        .backend()
        .buffer()
        .content()
        .iter()
        .map(|cell| cell.symbol())
        .collect::<String>();

    assert!(!text.chars().any(is_unsafe_terminal_char));
    assert!(!text.contains('\t'));
    assert!(text.contains("status]0;title"));
    assert!(text.contains("input[31m"));
}

#[test]
fn input_height_uses_inner_width_at_wrap_boundary() {
    let width = 30;
    let exact = "a".repeat((width - 4) as usize * 3);
    let overflow = "a".repeat((width - 4) as usize * 3 + 1);

    let mut exact_app = fresh_app();
    exact_app.input.set(exact);
    let exact_screen = screen(&mut Renderer::default(), &exact_app, width, 24);
    let exact_row = exact_screen
        .lines()
        .position(|line| line.contains(" Input "))
        .unwrap();

    let mut overflow_app = fresh_app();
    overflow_app.input.set(overflow);
    let overflow_screen = screen(&mut Renderer::default(), &overflow_app, width, 24);
    let overflow_row = overflow_screen
        .lines()
        .position(|line| line.contains(" Input "))
        .unwrap();

    assert_eq!(exact_row, overflow_row + 1);
}

#[test]
fn chat_wraps_between_words() {
    let lines = wrap_lines_at_words(&vec![Line::raw("one two three")], 7);
    let text = lines.iter().map(Line::text).collect::<Vec<_>>();
    assert_eq!(text, ["one two", "three"]);
}

#[test]
fn wrap_collapses_runs_of_spaces_and_drops_leading_whitespace_per_row() {
    let lines = wrap_text(&[Line::raw("aaa    bbbb     cc d")], 7);
    assert_eq!(lines, ["aaa", "bbbb", "cc d"]);
    assert!(lines.iter().all(|row| row.width() <= 7));
}

#[test]
fn wrap_substitutes_tabs_with_single_spaces_before_breaking() {
    let lines = wrap_text(&[Line::raw("foo\tbar\tbaz qux")], 7);
    assert_eq!(lines, ["foo bar", "baz qux"]);
    assert!(lines.iter().all(|row| row.width() <= 7));
    assert!(lines.iter().all(|row| !row.contains('\t')));
}

#[test]
fn wrap_breaks_at_spaces_inside_long_word_free_text() {
    let text = "a".repeat(25);
    let lines = wrap_text(&[Line::raw(&text)], 7);
    assert_eq!(lines.len(), 4);
    assert_eq!(lines[0].chars().count(), 7);
    assert_eq!(lines[1].chars().count(), 7);
    assert_eq!(lines[2].chars().count(), 7);
    assert_eq!(lines[3].chars().count(), 4);
    assert!(lines.iter().all(|row| row.width() <= 7));
    assert_eq!(
        lines.iter().map(|row| row.chars().count()).sum::<usize>(),
        25
    );
}

#[test]
fn wrap_respects_unicode_display_width_for_wide_glyphs() {
    let lines = wrap_text(&[Line::raw("漢字漢字漢字漢字")], 6);
    assert_eq!(lines.len(), 3);
    assert_eq!(lines[0].chars().count(), 3);
    assert_eq!(lines[0].width(), 6);
    assert_eq!(lines[1].chars().count(), 3);
    assert_eq!(lines[1].width(), 6);
    assert_eq!(lines[2].chars().count(), 2);
    assert_eq!(lines[2].width(), 4);
    assert!(lines.iter().all(|row| row.width() <= 6));
    assert_eq!(
        lines.iter().map(|row| row.chars().count()).sum::<usize>(),
        8
    );
}

#[test]
fn wrap_keeps_wide_glyphs_intact_when_one_already_overflows_the_row() {
    let lines = wrap_text(&[Line::raw("漢a漢b漢")], 1);
    assert_eq!(lines.len(), 5);
    assert_eq!(lines[0], "漢");
    assert_eq!(lines[1], "a");
    assert_eq!(lines[2], "漢");
    assert_eq!(lines[3], "b");
    assert_eq!(lines[4], "漢");
    assert_eq!(lines[1].width(), 1);
    assert_eq!(lines[3].width(), 1);
    assert_eq!(lines[0].width(), 2);
    assert_eq!(lines[2].width(), 2);
    assert_eq!(lines[4].width(), 2);
}

#[test]
fn wrap_preserves_styles_within_a_row_and_across_rows() {
    let red = Style::new().fg(RED);
    let green = Style::new().fg(GREEN);
    let blue = Style::new().fg(BLUE);
    let line = Line::from_spans(vec![
        Span::styled("red one two ".to_owned(), red),
        Span::styled("green three ".to_owned(), green),
        Span::styled("blue four".to_owned(), blue),
    ]);
    let wrapped = wrap_lines_at_words(&vec![line], 10);
    assert_eq!(wrapped.len(), 4);
    assert_eq!(wrapped[0].text(), "red one");
    assert_eq!(wrapped[1].text(), "two green");
    assert_eq!(wrapped[2].text(), "three blue");
    assert_eq!(wrapped[3].text(), "four");
    assert!(wrapped.iter().all(|row| row.width() <= 10));
    let row0_fg: Vec<_> = wrapped[0].spans.iter().filter_map(|s| s.style.fg).collect();
    assert_eq!(row0_fg, vec![RED]);
    assert_eq!(wrapped[1].spans[0].style.fg, Some(RED));
    assert!(wrapped[1]
        .spans
        .iter()
        .any(|s| s.style.fg == Some(GREEN)));
    assert_eq!(wrapped[2].spans[0].style.fg, Some(GREEN));
    assert!(wrapped[2]
        .spans
        .iter()
        .any(|s| s.style.fg == Some(BLUE)));
    assert_eq!(wrapped[3].spans[0].style.fg, Some(BLUE));
}

#[test]
fn wrap_handles_width_boundaries_with_no_partial_words() {
    let lines = wrap_text(&[Line::raw("ab cd ef")], 5);
    assert_eq!(lines, ["ab cd", "ef"]);
    assert!(lines.iter().all(|row| row.width() <= 5));
}

#[test]
fn wrap_handles_a_line_that_exactly_fits_the_width() {
    let lines = wrap_text(&[Line::raw("abcdefghij")], 10);
    assert_eq!(lines, ["abcdefghij"]);
    let wrapped = wrap_lines_at_words(&vec![Line::raw("abcdefghij")], 10);
    assert_eq!(wrapped.len(), 1);
    assert_eq!(wrapped[0].width(), 10);
}

#[test]
fn ascii_fast_path_handles_exact_fit_width_plus_one_and_width_one() {
    let exact = wrap_ascii_run(&Line::raw("abcdefghij"), 10).unwrap();
    let over = wrap_ascii_run(&Line::raw("abcdefghijk"), 10).unwrap();
    let narrow = wrap_ascii_run(&Line::raw("abcd"), 1).unwrap();

    assert_eq!(
        exact.iter().map(Line::text).collect::<Vec<_>>(),
        ["abcdefghij"]
    );
    assert_eq!(
        over.iter().map(Line::text).collect::<Vec<_>>(),
        ["abcdefghij", "k"]
    );
    assert_eq!(
        narrow.iter().map(Line::text).collect::<Vec<_>>(),
        ["a", "b", "c", "d"]
    );
}

#[test]
fn ascii_fast_path_preserves_line_and_span_styles_after_patching() {
    let line_style = Style::new()
        .bg(BLUE)
        .bold();
    let span_style = Style::new()
        .fg(YELLOW)
        .italic();
    let line = Line { spans: vec![Span::styled("abcdef".to_owned(), span_style)], style: line_style };

    let wrapped = wrap_ascii_run(&line, 3).unwrap();

    assert_eq!(wrapped.len(), 2);
    assert_eq!(wrapped[0].text(), "abc");
    assert_eq!(wrapped[1].text(), "def");
    for row in wrapped {
        assert_eq!(row.style, Style::new());
        assert_eq!(row.spans.len(), 1);
        let patched = row.spans[0].style;
        assert_eq!(patched, line_style.patch(span_style));
        assert_eq!(patched.bg, Some(BLUE));
        assert_eq!(patched.fg, Some(YELLOW));
        assert!(patched.bold);
        assert!(patched.italic);
    }
}

#[test]
fn ascii_fast_path_matches_general_wrapper_for_printable_runs() {
    for (text, width) in [
        ("A1-=[]{}", 3),
        ("0123456789", 4),
        ("xyz", 20),
        ("QWERTY", 1),
    ] {
        let line = Line::raw(&text);
        let fast = wrap_lines_at_words(&vec![line.duplicate()], width);
        let general = wrap_lines(&vec![line], width);

        assert_eq!(fast, general, "text={text:?}, width={width}");
    }
}

#[test]
fn non_printable_ascii_and_non_single_span_lines_use_general_semantics() {
    let whitespace = Line::raw("ab cd");
    let tab = Line::raw("ab\tcd");
    let control = Line::raw("ab\u{0007}cd");
    let newline = Line::raw("ab\ncd");
    let unicode = Line::raw("漢字漢字");
    let multi_span = Line::from_spans(vec![Span::raw("ab"), Span::raw("cd")]);
    let empty = Line::raw("");

    assert!(wrap_ascii_run(&whitespace, 3).is_none());
    assert!(wrap_ascii_run(&tab, 3).is_none());
    assert!(wrap_ascii_run(&control, 3).is_none());
    assert!(wrap_ascii_run(&newline, 3).is_none());
    assert!(wrap_ascii_run(&unicode, 3).is_none());
    assert!(wrap_ascii_run(&multi_span, 3).is_none());
    assert!(wrap_ascii_run(&empty, 3).is_none());

    assert_eq!(wrap_text(&[whitespace], 3), ["ab", "cd"]);
    assert_eq!(wrap_text(&[tab], 3), ["ab", "cd"]);
    assert_eq!(wrap_text(&[control], 3), ["abc", "d"]);
    assert_eq!(wrap_text(&[newline], 3), ["abc", "d"]);
    assert_eq!(wrap_text(&[unicode], 3), ["漢", "字", "漢", "字"]);
    assert_eq!(wrap_text(&[multi_span], 3), ["abc", "d"]);
    assert_eq!(wrap_text(&[empty], 3), [""]);
}

#[test]
fn ascii_fast_path_wraps_a_large_input_without_loss() {
    let text = "p".repeat(1 << 20);
    let wrapped = wrap_ascii_run(&Line::raw(&text), 100).unwrap();

    assert_eq!(wrapped.len(), (1usize << 20).div_ceil(100));
    assert!(wrapped.iter().all(|line| line.width() <= 100));
    assert_eq!(
        wrapped
            .iter()
            .flat_map(|line| line.spans.iter())
            .map(|span| span.content.len())
            .sum::<usize>(),
        1 << 20
    );
}

#[test]
fn wrap_drops_trailing_whitespace_even_when_followed_by_more_text() {
    let lines = wrap_text(&[Line::raw("hello world   foo")], 7);
    assert_eq!(lines, ["hello", "world", "foo"]);
    assert!(lines.iter().all(|row| row.width() <= 7));
}

#[test]
fn wrap_keeps_empty_input_as_an_empty_line() {
    let lines = wrap_text(&[Line::raw("")], 10);
    assert_eq!(lines.len(), 1);
    assert_eq!(lines[0], "");
}

#[test]
fn wrap_keeps_one_mib_unbroken_output_exactly() {
    let text = "a".repeat(1 << 20);
    let wrapped = wrap_lines_at_words(&vec![Line::raw(&text)], 100);
    assert!(wrapped.len() >= (1 << 20) / 100);
    assert!(wrapped.iter().all(|line| line.width() <= 100));
    let total_chars: usize = wrapped
        .iter()
        .map(|line| {
            line.spans
                .iter()
                .map(|s| s.content.chars().count())
                .sum::<usize>()
        })
        .sum();
    assert_eq!(total_chars, 1 << 20);
}

#[test]
fn wrapped_chat_lines_keep_the_message_gutter() {
    let entry = Entry {
        role: "assistant".into(),
        context: "main".into(),
        text: "one two three".into(),
        revision: 0,
        streaming: false,
        activity_id: None,
    };
    let lines = render_entry(&entry, 10, &theme());
    assert!(lines[1].text().starts_with("│ "));
    assert!(lines[2].text().starts_with("│ "));
}

#[test]
fn active_stream_render_is_plain_bounded_and_utf8_safe() {
    let prefix = "old-prefix-that-must-not-be-rendered ";
    let mut text = prefix.to_owned();
    text.push_str(&"x漢".repeat((8 * 1024) / 4 + 100));
    text.push_str("\n```rust\nfn final_answer() {}\n```\nstream-tail");
    let entry = Entry {
        role: "assistant".into(),
        context: "main".into(),
        text: text.clone(),
        revision: 7,
        streaming: true,
        activity_id: None,
    };

    let lines = render_streaming_entry(&entry, 80, &theme());
    let rendered = lines
        .iter()
        .flat_map(|line| line.spans.iter())
        .map(|span| span.content.as_str())
        .collect::<String>();
    let marker = "[streaming output truncated:";

    assert_eq!(entry.text, text);
    assert_eq!(rendered.matches(marker).count(), 1);
    assert!(!rendered.contains(prefix));
    assert!(rendered.contains("stream-tail"));
    assert!(rendered.contains("```rust"));
    assert!(
        lines.len() < 140,
        "streaming line count was {}",
        lines.len()
    );
    let content_bytes: usize = lines
        .iter()
        .flat_map(|line| line.spans.iter())
        .map(|span| span.content.len())
        .sum();
    assert!(
        content_bytes <= 8 * 1024 + marker.len() + 600,
        "streaming output was {content_bytes} bytes"
    );

    let role_color = color(&theme().assistant);
    let mut body_spans = lines
        .iter()
        .skip(1)
        .flat_map(|line| line.spans.iter())
        .filter(|span| span.content.contains("```") || span.content.contains("fn final"));
    assert!(body_spans.clone().count() > 0);
    assert!(body_spans.all(|span| span.style.fg == Some(role_color)));
}

#[test]
fn active_stream_render_keeps_multiline_text_on_separate_rows() {
    let entry = Entry {
        role: "assistant".into(),
        context: "main".into(),
        text: "first logical line\nsecond logical line\nthird logical line".into(),
        revision: 1,
        streaming: true,
        activity_id: None,
    };

    let lines = render_streaming_entry(&entry, 80, &theme());
    let body = lines[1..lines.len() - 1]
        .iter()
        .map(Line::text)
        .collect::<Vec<_>>();

    assert_eq!(
        body,
        [
            "│ first logical line",
            "│ second logical line",
            "│ third logical line",
        ]
    );
}

#[test]
fn completed_entry_at_byte_limit_remains_rich() {
    let mut text = "```rust\nfn main() { let value = 42; }\n".to_owned();
    let padding = COMPLETED_RENDER_BYTES - text.len() - 4;
    text.push_str(&"plain ".repeat(padding / 6));
    text.push_str(&"x".repeat(padding % 6));
    text.truncate(COMPLETED_RENDER_BYTES - 4);
    text.push_str("```\n");
    assert_eq!(text.len(), COMPLETED_RENDER_BYTES);

    let lines = render_entry(&completed_entry(text), 100, &theme());
    let output = rendered_text(&lines);

    assert!(!output.contains("[display truncated:"));
    assert!(output.contains("```rust"));
    assert!(output.contains("fn main"));
}

#[test]
fn completed_entry_at_line_limit_remains_rich() {
    let mut text = String::from("# rich boundary\n");
    text.push_str(&"ordinary line\n".repeat(COMPLETED_RENDER_LINES - 2));
    text.push_str("last line");
    assert_eq!(logical_line_count(&text), COMPLETED_RENDER_LINES);
    assert!(text.len() < COMPLETED_RENDER_BYTES);

    let lines = render_entry(&completed_entry(text), 100, &theme());
    let output = rendered_text(&lines);

    assert!(!output.contains("[display truncated:"));
    assert!(lines.iter().any(|line| {
        line.spans.iter().any(|span| {
            span.content.contains("rich boundary")
                && span.style.bold
        })
    }));
}

#[test]
fn oversized_completed_entry_by_bytes_is_utf8_safe_plain_and_bounded() {
    let head = "HEAD漢".repeat(14_000);
    let text = format!("{head}BYTE_MIDDLE_SENTINEL{}TAILΩ", "x".repeat(70_000));
    assert!(text.len() > COMPLETED_RENDER_BYTES);
    let entry = completed_entry(text);
    let original = entry.text.clone();

    let lines = render_entry(&entry, 120, &theme());
    let output = rendered_text(&lines);
    let marker = "[display truncated:";

    assert_eq!(
        lines
            .iter()
            .filter(|line| line.text().contains(marker))
            .count(),
        1
    );
    assert!(output.contains("HEAD漢"));
    assert!(output.contains("TAILΩ"));
    assert!(!output.contains("BYTE_MIDDLE_SENTINEL"));
    assert!(output.is_char_boundary(output.len()));
    assert!(
        lines.len() < 1_200,
        "bounded output had {} lines",
        lines.len()
    );
    let body_bytes: usize = lines
        .iter()
        .skip(2)
        .take(lines.len().saturating_sub(3))
        .flat_map(|line| line.spans.iter())
        .filter(|span| span.content.as_str() != "│ ")
        .map(|span| span.content.len())
        .sum();
    assert!(body_bytes <= COMPLETED_RENDER_BYTES);
    let role_color = color(&theme().assistant);
    assert!(lines[2..lines.len() - 1]
        .iter()
        .flat_map(|line| line.spans.iter())
        .filter(|span| span.content.as_str() != "│ ")
        .all(|span| span.style == Style::new().fg(role_color)));
    assert_eq!(entry.text, original);
}

#[test]
fn oversized_completed_entry_by_lines_omits_middle_and_stays_bounded() {
    let sentinel = "LINE_MIDDLE_SENTINEL";
    let mut logical_lines = Vec::new();
    logical_lines
        .extend((0..COMPLETED_HEAD_LINES).map(|index| format!("HEAD_PADDING_{index:02}_漢")));
    logical_lines.extend(std::iter::repeat_n(
        sentinel.to_owned(),
        COMPLETED_RENDER_LINES + 100,
    ));
    logical_lines
        .extend((0..COMPLETED_TAIL_LINES).map(|index| format!("TAIL_PADDING_{index:02}_Ω")));
    let text = logical_lines.join("\n");
    assert!(logical_line_count(&text) > COMPLETED_RENDER_LINES);
    assert!(text.len() < COMPLETED_RENDER_BYTES);
    let entry = completed_entry(text);
    let original = entry.text.clone();

    let lines = render_entry(&entry, 120, &theme());
    let output = rendered_text(&lines);

    assert_eq!(output.matches("[display truncated:").count(), 1);
    assert!(output.contains("HEAD_PADDING_00_漢"));
    assert!(output.contains("HEAD_PADDING_63_漢"));
    assert!(output.contains("TAIL_PADDING_00_Ω"));
    assert!(output.contains("TAIL_PADDING_63_Ω"));
    assert!(!output.contains(sentinel));
    assert!(
        lines.len() < 1_200,
        "bounded output had {} lines",
        lines.len()
    );
    assert!(output.is_char_boundary(output.len()));
    assert_eq!(entry.text, original);
}

#[test]
fn oversized_expanded_tool_result_is_bounded_without_mutating_raw_json() {
    let mut payload = vec![note("TOOL_HEAD_SENTINEL")];
    payload.extend((0..9_000).map(|_| note("x")));
    payload.insert(
        payload.len() / 2,
        note("TOOL_MIDDLE_SENTINEL"),
    );
    payload.push(note("TOOL_TAIL_SENTINEL"));
    let mut object = serde_json::Map::new();
    object.insert("content".to_owned(), Value::Array(payload));
    let raw = Value::Object(object).to_string();
    assert!(raw.len() < 100_000);

    let expanded = tool_result_text(&raw);
    assert!(expanded.len() > COMPLETED_RENDER_BYTES);
    assert!(logical_line_count(&expanded) > COMPLETED_RENDER_LINES);

    let entry = Entry {
        role: "tool".into(),
        context: "main".into(),
        text: raw.clone(),
        revision: 1,
        streaming: false,
        activity_id: None,
    };
    let lines = render_entry(&entry, 120, &theme());
    let output = rendered_text(&lines);

    assert_eq!(output.matches("[display truncated:").count(), 1);
    assert!(output.contains("TOOL_HEAD_SENTINEL"));
    assert!(output.contains("TOOL_TAIL_SENTINEL"));
    assert!(!output.contains("TOOL_MIDDLE_SENTINEL"));
    assert_eq!(entry.text, raw);
}

#[test]
fn small_tool_result_keeps_rich_pretty_rendering() {
    let entry = Entry {
        role: "tool".into(),
        context: "main".into(),
        text: r#"{"content":{"language":"rust","code":"fn main() {}"}}"#.into(),
        revision: 1,
        streaming: false,
        activity_id: None,
    };

    let output = rendered_text(&render_entry(&entry, 120, &theme()));

    assert!(output.contains("```json"));
    assert!(output.contains("\"language\": \"rust\""));
    assert!(!output.contains("[display truncated:"));
}

#[test]
fn final_message_switches_active_entry_to_rich_render_once() {
    let mut app = fresh_app();
    app.event(UiEvent::Delta {
        context: "main".into(),
        text: "```rust\nfn main() { let n = 42; }\n```".into(),
    });
    let mut renderer = Renderer::default();
    screen(&mut renderer, &app, 100, 24);
    let streaming_rebuilds = renderer.rebuilds;
    assert!(app.entries[0].streaming);
    let streaming_colors = colors(&renderer.cache[0].lines);
    assert!(streaming_colors.len() <= 2);

    app.event(UiEvent::Message {
        context: "main".into(),
        message: Message::new("assistant", "```rust\nfn main() { let n = 42; }\n```"),
    });
    assert!(!app.entries[0].streaming);
    screen(&mut renderer, &app, 100, 24);
    assert_eq!(renderer.rebuilds, streaming_rebuilds + 1);
    let rich_colors = colors(&renderer.cache[0].lines);
    assert!(rich_colors.len() >= 3);
    let rich_rebuilds = renderer.rebuilds;
    screen(&mut renderer, &app, 100, 24);
    assert_eq!(renderer.rebuilds, rich_rebuilds);
}

#[test]
fn header_shows_current_context_and_workspace_anchors_bottom_right() {
    let mut app = fresh_app();
    app.context_tokens = 1234;
    app.context_limit = 8192;
    app.workspace = "/Users/example/project".into();
    let output = screen(&mut Renderer::default(), &app, 80, 24);
    assert!(output.contains("context 1234/8192"));
    let line = output
        .lines()
        .find(|line| line.contains("/Users/example/project"))
        .unwrap();
    assert!(line.trim_end().ends_with("/Users/example/project"));
}

#[test]
fn long_workspace_paths_keep_their_tail() {
    assert_eq!(tail_text("short", 10), "short");
    assert_eq!(tail_text("/very/long/path/to/project", 9), "…/project");
    assert_eq!(tail_text("/x", 0), "");
}

#[test]
fn tool_results_show_payloads_instead_of_json_blobs() {
    assert_eq!(
        tool_result_text(r#"{"content":"hello","truncated":false}"#),
        "hello"
    );
    let process = tool_result_text(r#"{"stdout":"out\n","stderr":"err\n","exit_code":2}"#);
    assert!(process.contains("out"));
    assert!(process.contains("[stderr]"));
    assert!(process.contains("[exit 2]"));
    assert!(tool_result_text(r#"{"custom":1}"#).contains("```json"));
}

#[test]
fn tool_errors_keep_the_call_and_escaped_json_is_parsed() {
    let error = tool_result_text(
        r#"{"error":"No such file or directory","tool":"shell","call":"Run `nope`"}"#,
    );
    assert!(error.starts_with("[error] No such file or directory"));
    assert!(error.contains("Run `nope`"));
    assert!(tool_result_text(r#""{\"a\":1}""#).contains("```json"));
    assert!(tool_result_text(r#"{"content":"{\"a\":1}"}"#).contains("```json"));
    assert!(
        tool_result_text(r#"{"stdout":"{\"a\":1}","stderr":"","exit_code":0}"#)
            .contains("```json")
    );
}

#[test]
fn idle_kitty_shows_blob_glyphs_at_the_top_right() {
    let app = fresh_app();
    let output = screen(&mut Renderer::default(), &app, 80, 24);
    assert!(output.contains("▄████████"));
    assert!(output.contains("▀▀▀▀▀▀▀"));
    let art_rows: Vec<&str> = output.lines().filter(|l| l.contains('█')).collect();
    assert!(!art_rows.is_empty());
    assert!(art_rows
        .iter()
        .all(|line| line.trim_end().rfind('█').unwrap() >= 60));
}

#[test]
fn busy_runs_show_the_cancel_button_and_keep_the_kitty_visible() {
    let mut app = fresh_app();
    app.busy = true;
    let output = screen(&mut Renderer::default(), &app, 80, 24);
    assert!(output.contains("Ctrl+C Cancel"));
    assert!(output.contains("▄████████"));
}

#[test]
fn kitty_idle_body_rows_match_the_unmodified_asset_for_every_variant() {
    let theme = theme();
    for variant in VARIANTS {
        let idle = kitty_rows(variant, false, 0, &theme);
        let canonical = render_idle(variant, &theme);
        for (index, (painted, expected)) in idle.iter().zip(canonical.iter()).enumerate() {
            assert_eq!(
                painted.text(),
                expected.text(),
                "variant {variant:?} idle row {index} must equal the asset; got {painted:?}, expected {expected:?}",
            );
        }
    }
}

#[test]
fn kitty_at_rest_ignores_the_frame() {
    let theme = theme();
    for variant in VARIANTS {
        let rest = kitty_rows(variant, false, 0, &theme);
        for frame in 1..6 {
            assert_eq!(kitty_rows(variant, false, frame, &theme), rest);
        }
    }
    let text = |frame: usize| -> Vec<String> {
        kitty_rows(KittyVariant::Blob, true, frame, &theme).iter().map(Line::text).collect()
    };
    assert_ne!(text(0), text(1));
    assert_eq!(text(1)[5], "");
}

#[test]
fn kitty_processing_keeps_the_face() {
    // The variant, its frames, and for each row the columns that never move.
    let pieces: [(KittyVariant, usize, &[(usize, usize)]); 3] = [
        (KittyVariant::Blob, 4, &[(1, 14)]),
        (KittyVariant::Cbear, 3, &[(1, 7), (2, 6), (3, 5), (4, 5)]),
        (KittyVariant::FlyGirl, 3, &[(2, 8), (3, 8), (4, 8), (5, 7)]),
    ];
    fn prefix(line: &Line, width: usize) -> String {
        format!("{:<width$}", line.text()).chars().take(width).collect()
    }
    for (variant, frame_count, rows) in pieces {
        let idle = kitty_rows(variant, false, 0, &theme());
        for frame in 0..frame_count {
            let processing = kitty_rows(variant, true, frame, &theme());
            for &(row, columns) in rows {
                assert_eq!(
                    prefix(&processing[row], columns),
                    prefix(&idle[row], columns),
                    "{variant:?} frame {frame} row {row}",
                );
            }
        }
    }
}

#[test]
fn kitty_animation_moves_only_its_segment() {
    fn glyphs(rows: &[Line]) -> std::collections::BTreeSet<(usize, usize)> {
        let mut painted = std::collections::BTreeSet::new();
        for (row, line) in rows.iter().enumerate() {
            let mut column = 0;
            for character in line.text().chars() {
                if !character.is_whitespace() {
                    painted.insert((row, column));
                }
                column += cell_width(character);
            }
        }
        painted
    }
    let theme = theme();
    let cases = [
        (KittyVariant::Blob, 3..5, 1..3),
        (KittyVariant::Cbear, 1..5, 0..1),
        (KittyVariant::FlyGirl, 0..2, 2..6),
    ];
    for (variant, animated_rows, stable_rows) in cases {
        let idle = glyphs(&kitty_rows(variant, false, 0, &theme));
        for frame in 0..3 {
            let processing = glyphs(&kitty_rows(variant, true, frame, &theme));
            for &(row, column) in &idle {
                if stable_rows.contains(&row) || !animated_rows.contains(&row) {
                    assert!(processing.contains(&(row, column)));
                }
            }
            for &(row, column) in &processing {
                if stable_rows.contains(&row) || !animated_rows.contains(&row) {
                    assert!(idle.contains(&(row, column)));
                }
            }
        }
    }
    let fly_idle = glyphs(&kitty_rows(KittyVariant::FlyGirl, false, 0, &theme));
    let fly_raised = glyphs(&kitty_rows(KittyVariant::FlyGirl, true, 1, &theme));
    assert!(fly_raised.contains(&(0, 8)));
    assert!(fly_idle
        .iter()
        .filter(|(row, _)| *row >= 2)
        .all(|cell| fly_raised.contains(cell)));
}

#[test]
fn kitty_anchor_is_exact_for_every_variant_and_terminal_size() {
    let app = fresh_app();
    for (offset, variant) in VARIANTS.into_iter().enumerate() {
        for (width, height) in [(80, 24), (100, 30), (60, 20)] {
            let mut renderer = Renderer::default();
            renderer.set_variant_offset(offset);
            let _ = screen(&mut renderer, &app, width, height);
            let painted = &renderer.last_kitty_paint;
            assert!(!painted.is_empty());
            assert_eq!(painted.iter().map(|&(y, _, _)| y).min(), Some(1));
            assert_eq!(
                painted.iter().map(|&(_, _, end)| end - 1).max(),
                Some(width - 2)
            );
            let kitty_width = kitty_rows(variant, false, 0, &theme())
                .iter()
                .map(Line::width)
                .max()
                .unwrap() as u16;
            assert!(painted.iter().all(|&(y, start, end)| {
                y >= 1 && start >= width - 1 - kitty_width && end < width
            }));
        }
    }
}

#[test]
fn kitty_processing_frames_keep_the_idle_anchor() {
    let mut app = fresh_app();
    app.busy = true;
    let mut renderer = Renderer::default();
    screen(&mut renderer, &app, 80, 24);
    assert_eq!(
        renderer.last_kitty_paint.iter().map(|&(y, _, _)| y).min(),
        Some(1)
    );
    assert_eq!(
        renderer
            .last_kitty_paint
            .iter()
            .map(|&(_, _, end)| end - 1)
            .max(),
        Some(78)
    );

    let mut fly_app = fresh_app();
    fly_app.busy = true;
    let mut idle = Renderer::default();
    idle.set_variant_offset(
        VARIANTS
            .iter()
            .position(|variant| *variant == KittyVariant::FlyGirl)
            .unwrap(),
    );
    let idle_app = fresh_app();
    screen(&mut idle, &idle_app, 80, 24);
    let idle_paint = idle.last_kitty_paint.clone();

    let mut animated = Renderer::default();
    animated.set_variant_offset(
        VARIANTS
            .iter()
            .position(|variant| *variant == KittyVariant::FlyGirl)
            .unwrap(),
    );
    animated.was_busy = true;
    animated.processing_frame = 1;
    animated.processing_tick = Some(NOW);
    screen(&mut animated, &fly_app, 80, 24);
    assert_eq!(
        animated.processing_frame, 1,
        "draw must preserve the seeded animated frame"
    );
    assert_ne!(
        animated.last_kitty_paint, idle_paint,
        "animated frame paint spans must differ from the Fly Girl rest pose"
    );

    let kitty_width = kitty_rows(KittyVariant::FlyGirl, true, 1, &theme())
        .iter()
        .map(Line::width)
        .max()
        .unwrap() as u16;
    let content_right = 79;
    let kitty_left = content_right - kitty_width;
    let top_row = animated
        .last_kitty_paint
        .iter()
        .find(|&&(y, _, _)| y == 0)
        .copied()
        .expect("Fly Girl's rising Z must paint on terminal row 0");
    assert!(top_row.1 >= kitty_left);
    assert!(top_row.2 <= content_right);
    assert!(top_row.1 < top_row.2);
}

#[test]
fn narrow_terminal_suppresses_kitty_but_keeps_composed_metadata() {
    let mut app = fresh_app();
    app.model_label = "provider:very-long-model".into();
    app.effective_agent_label = "writer".into();
    app.effort_label = "high".into();
    let mut renderer = Renderer::default();
    let output = screen(&mut renderer, &app, 40, 20);
    assert!(renderer.last_kitty_paint.is_empty());
    assert!(output.contains("effort high"), "{output:?}");
}

#[test]
fn composed_metadata_tail_truncates_left_and_preserves_suffix() {
    let mut app = fresh_app();
    app.model_label = "openrouter:anthropic/swift-sonnet-4".into();
    app.effective_agent_label = "writer".into();
    app.effort_label = "default".into();

    let mut wide_renderer = Renderer::default();
    let wide_output = screen(&mut wide_renderer, &app, 100, 24);
    let wide_line = wide_output.lines().nth(1).unwrap();
    let wide_end = wide_renderer
        .last_kitty_reservation
        .map_or(wide_line.len(), |reservation| reservation.x as usize);
    let wide_line = wide_line.chars().take(wide_end).collect::<String>();
    let wide_line = wide_line.trim_end();
    assert!(!wide_line.contains('…'));
    assert!(wide_line.contains("openrouter:anthropic/swift-sonnet-4"));
    assert!(wide_line.ends_with("agent writer | effort default"));

    let mut narrow_renderer = Renderer::default();
    let narrow_output = screen(&mut narrow_renderer, &app, 80, 24);
    let narrow_line = narrow_output.lines().nth(1).unwrap();
    let narrow_end = narrow_renderer
        .last_kitty_reservation
        .map_or(narrow_line.len(), |reservation| reservation.x as usize);
    let narrow_line = narrow_line.chars().take(narrow_end).collect::<String>();
    let narrow_line = narrow_line.trim_end();
    assert!(narrow_line.contains('…'));
    assert!(narrow_line.contains("swift-sonnet-4"));
    assert!(narrow_line.ends_with("effort default"));
}

#[test]
fn kitty_is_cleared_when_the_same_renderer_is_resized_narrow() {
    let app = fresh_app();
    let mut renderer = Renderer::default();
    screen(&mut renderer, &app, 100, 24);
    assert!(!renderer.last_kitty_paint.is_empty());
    assert!(renderer.last_kitty_reservation.is_some());
    screen(&mut renderer, &app, 40, 18);
    assert!(renderer.last_kitty_paint.is_empty());
    assert!(renderer.last_kitty_reservation.is_none());
    assert_eq!(renderer.activity_at(78, 3), None);
}

#[test]
fn history_divider_stops_before_unicode_kitty_reservation() {
    let app = fresh_app();
    let mut renderer = Renderer::default();
    let output = screen(&mut renderer, &app, 80, 24);
    let history = renderer.last_history_rect.unwrap();
    let reservation = renderer.last_kitty_reservation.unwrap();
    let row = output.lines().nth((history.y - 1) as usize).unwrap();
    assert_eq!(row.chars().nth((history.x - 1) as usize), Some('╭'));
    for column in history.x..reservation.x {
        assert_eq!(row.chars().nth(column as usize), Some('─'));
    }
    assert!(!row
        .chars()
        .skip(reservation.x as usize)
        .any(|c| "╭─╮".contains(c)));
}

#[test]
fn history_divider_uses_ascii_symbols() {
    let mut app = fresh_app();
    app.theme.ascii = true;
    for (offset, _) in VARIANTS.into_iter().enumerate() {
        let mut renderer = Renderer::default();
        renderer.set_variant_offset(offset);
        let output = screen(&mut renderer, &app, 80, 24);
        let history = renderer.last_history_rect.unwrap();
        let reservation = renderer.last_kitty_reservation.unwrap();
        let row = output.lines().nth((history.y - 1) as usize).unwrap();
        assert_eq!(row.chars().nth((history.x - 1) as usize), Some('+'));
        for column in history.x..reservation.x {
            assert_eq!(row.chars().nth(column as usize), Some('-'));
        }
    }

    let mut renderer = Renderer::default();
    let output = screen(&mut renderer, &app, 80, 24);
    let history = renderer.last_history_rect.unwrap();
    let reservation = renderer.last_kitty_reservation.unwrap();
    let row = output.lines().nth((history.y - 1) as usize).unwrap();
    assert!(!row
        .chars()
        .skip(reservation.x as usize)
        .any(|c| "+-".contains(c)));
}

#[test]
fn suppressed_kitty_divider_closes_at_the_history_band_right_edge() {
    let app = fresh_app();
    let mut renderer = Renderer::default();
    let output = screen(&mut renderer, &app, 40, 24);
    let history = renderer.last_history_rect.unwrap();
    let row = output.lines().nth((history.y - 1) as usize).unwrap();
    assert!(renderer.last_kitty_reservation.is_none());
    assert_eq!(row.chars().nth((history.x - 1) as usize), Some('╭'));
    assert_eq!(row.chars().nth(right(history) as usize), Some('╮'));
}

#[test]
fn divider_never_paints_inside_any_kitty_reservation() {
    let app = fresh_app();
    for (offset, _) in VARIANTS.into_iter().enumerate() {
        let mut renderer = Renderer::default();
        renderer.set_variant_offset(offset);
        let output = screen(&mut renderer, &app, 80, 24);
        let history = renderer.last_history_rect.unwrap();
        let reservation = renderer.last_kitty_reservation.unwrap();
        let row = output.lines().nth((history.y - 1) as usize).unwrap();
        assert!(!row
            .chars()
            .skip(reservation.x as usize)
            .any(|c| "╭─╮".contains(c)));
    }
}

#[test]
fn divider_and_borders_are_not_activity_targets() {
    let mut app = fresh_app();
    app.event(UiEvent::Activity(summary_start("activity")));
    let mut renderer = Renderer::default();
    screen(&mut renderer, &app, 80, 24);
    let history = renderer.last_history_rect.unwrap();
    assert_eq!(renderer.activity_at(history.x - 1, history.y - 1), None);
    assert_eq!(renderer.activity_at(history.x - 1, history.y), None);
    assert_eq!(renderer.activity_at(right(history), history.y), None);
    assert_eq!(
        renderer.activity_at(history.x, history.y),
        Some("activity".into())
    );
}

#[test]
fn short_terminals_skip_empty_history_without_overwriting_input() {
    let app = fresh_app();
    for height in 1..=8 {
        let mut renderer = Renderer::default();
        let _ = screen(&mut renderer, &app, 40, height);
        let area = ratatui::layout::Rect::new(0, 0, 40, height).inner(Margin { horizontal: 1, vertical: 1 });
        let input_height = 5.min(area.height.saturating_sub(INPUT_RESERVED_ROWS));
        let regions = Layout::vertical([
            Constraint::Length(HEADER_HEIGHT),
            Constraint::Min(1),
            Constraint::Length(input_height),
            Constraint::Length(2),
        ])
        .split(area);
        if height <= 2 {
            assert_eq!(renderer.last_history_rect, None);
            assert_eq!(regions[1].height, 0);
            let output = screen(&mut Renderer::default(), &app, 40, height);
            assert!(!output.contains('─'));
        } else {
            let history = renderer
                .last_history_rect
                .expect("non-empty history band should record its inner rect");
            assert_eq!(history.height, regions[1].height - 1);
            assert!(history.y - 1 < regions[2].y);

            if regions[2].height > 0 {
                let output = screen(&mut Renderer::default(), &app, 40, height);
                let input_top = output.lines().nth(regions[2].y as usize).unwrap();
                assert_eq!(input_top.chars().nth(regions[2].x as usize), Some('╭'));
            }
        }
    }
}

#[test]
fn idle_kitty_canvas_row_zero_is_blank_and_reservation_tracks_visibility() {
    let app = fresh_app();
    let mut renderer = Renderer::default();
    let output = screen(&mut renderer, &app, 80, 24);
    let reservation = renderer.last_kitty_reservation.unwrap();
    assert!(!renderer
        .last_kitty_paint
        .iter()
        .any(|&(row, _, _)| row == 0));
    assert!(output
        .lines()
        .next()
        .unwrap()
        .chars()
        .skip(reservation.x as usize)
        .all(char::is_whitespace));
    screen(&mut renderer, &app, 40, 24);
    assert!(renderer.last_kitty_reservation.is_none());
}

#[test]
fn old_header_format_is_not_rendered_and_new_header_uses_two_rows() {
    let mut app = fresh_app();
    app.model_label = "openai:gpt-5".into();
    app.effective_agent_label = "writer".into();
    app.effort_label = "high".into();
    app.spend.unpriced_requests = 1;
    app.context_tokens = 12;
    app.context_limit = 100;
    let mut renderer = Renderer::default();
    let output = screen(&mut renderer, &app, 120, 24);
    let rows: Vec<&str> = output.lines().collect();
    assert!(rows[1].contains("openai:gpt-5 | agent writer | effort high"));
    assert!(rows[2].contains("context 12/100"));
    assert!(!output.contains("agent: writer | model:"));
    let content_width = 120 - 2;
    let kitty_width = kitty_rows(KittyVariant::Blob, false, 0, &theme())
        .iter()
        .map(Line::width)
        .max()
        .unwrap() as u16;
    let metadata_width =
        content_width - HEADER_LOGO_WIDTH - HEADER_SEPARATOR_WIDTH - kitty_width;
    let crop_end = renderer
        .last_kitty_reservation
        .map_or(rows[1].len(), |r| r.x as usize);
    let expected_trimmed_width = (1 + HEADER_LOGO_WIDTH + metadata_width) as usize;
    assert_eq!(rows[1][..crop_end].trim_end().len(), expected_trimmed_width);
    assert!(rows[2].contains("$"));
}

#[test]
fn kitty_anchor_test_replaced_old_layout_contract() {
    let app = fresh_app();
    let output = screen(&mut Renderer::default(), &app, 80, 24);
    let first_visible = output.lines().position(|line| line.contains('█')).unwrap();
    assert_eq!(first_visible, 1);
}

#[test]
fn renderer_metadata_tracks_history_viewport_and_real_kitty_spans() {
    let mut app = fresh_app();
    for index in 0..5 {
        app.message(
            "main".into(),
            Message::new("assistant", &format!("history entry {index}")),
        );
    }
    let mut renderer = Renderer::default();
    let mut terminal = Terminal::new(TestBackend::new(80, 24)).unwrap();
    show(&mut terminal, &mut renderer, &app);

    let history = renderer.last_history_rect.expect("history rect recorded");
    assert_eq!(history, rect(2, 4, 76, 12));
    assert_eq!(renderer.hit_map.len(), history.height as usize);
    assert!(renderer.hit_map.iter().all(Option::is_none));

    let mut hit_app = fresh_app();
    hit_app.event(UiEvent::Activity(summary_start("activity")));
    show(&mut terminal, &mut renderer, &hit_app);
    assert!(renderer.hit_map.iter().any(Option::is_some));

    assert!(!renderer.last_kitty_paint.is_empty());
    for &(_y, start, end) in &renderer.last_kitty_paint {
        assert!(start < end, "kitty span must contain a painted cell");
    }
    let overlap = renderer
        .last_kitty_paint
        .iter()
        .find(|&&(y, start, end)| {
            y >= history.y
                && y < bottom(history)
                && renderer
                    .hit_map
                    .get((y - history.y) as usize)
                    .is_some_and(Option::is_some)
                && start < right(history)
                && end > history.x
        })
        .copied()
        .expect("kitty must overlap history");
    assert_eq!(
        renderer.activity_at(overlap.1.max(history.x), overlap.0),
        None
    );
    let adjacent = (history.x..right(history))
        .find(|&column| {
            !renderer
                .last_kitty_paint
                .iter()
                .any(|&(y, start, end)| y == overlap.0 && column >= start && column < end)
        })
        .expect("overlapped summary row needs a non-kitty cell");
    assert_eq!(
        renderer.activity_at(adjacent, overlap.0),
        Some("activity".into())
    );
}

#[test]
fn activity_at_resolves_summary_rows_but_not_entries_or_outside_history() {
    let mut app = fresh_app();
    app.event(UiEvent::Activity(summary_start("activity")));
    app.message("main".into(), Message::new("assistant", "entry body"));
    let mut renderer = Renderer::default();
    let mut terminal = Terminal::new(TestBackend::new(80, 24)).unwrap();
    show(&mut terminal, &mut renderer, &app);

    let history = renderer.last_history_rect.unwrap();
    let summary_row = (0..history.height)
        .find(|offset| renderer.hit_map[*offset as usize].is_some())
        .unwrap();
    let summary_column = history.x + 1;
    assert_eq!(
        renderer.activity_at(summary_column, history.y + summary_row),
        Some("activity".into())
    );

    let entry_row = (0..history.height)
        .find(|offset| renderer.hit_map[*offset as usize].is_none())
        .unwrap();
    assert_eq!(
        renderer.activity_at(summary_column, history.y + entry_row),
        None
    );
    assert_eq!(
        renderer.activity_at(history.x, history.y.saturating_sub(1)),
        None
    );
    assert_eq!(renderer.activity_at(right(history), history.y), None);
}

#[test]
fn activity_at_rejects_stale_metadata_and_painted_kitty_cells() {
    assert_eq!(Renderer::default().activity_at(0, 0), None);
    let mut app = fresh_app();
    app.event(UiEvent::Activity(summary_start("activity")));
    let mut renderer = Renderer::default();
    let mut terminal = Terminal::new(TestBackend::new(80, 24)).unwrap();
    show(&mut terminal, &mut renderer, &app);
    let history = renderer.last_history_rect.unwrap();
    let summary_row = history.y;

    let painted = renderer
        .last_kitty_paint
        .iter()
        .find(|&&(row, _, _)| row == summary_row)
        .copied()
        .or_else(|| renderer.last_kitty_paint.first().copied())
        .unwrap();
    assert_eq!(renderer.activity_at(painted.1, painted.0), None);

    renderer.hit_map.clear();
    assert_eq!(renderer.activity_at(history.x + 1, summary_row), None);
    renderer.last_history_rect = None;
    assert_eq!(renderer.activity_at(history.x + 1, summary_row), None);
}

#[test]
fn transparent_kitty_canvas_cell_resolves_underlying_summary() {
    let mut app = fresh_app();
    app.event(UiEvent::Activity(summary_start("activity")));
    let mut renderer = Renderer::default();
    let mut terminal = Terminal::new(TestBackend::new(80, 24)).unwrap();
    show(&mut terminal, &mut renderer, &app);
    let history = renderer.last_history_rect.unwrap();
    let canvas_start = renderer.last_kitty_reservation.unwrap().x;
    let transparent_column = canvas_start;
    let transparent_row = history.y;
    assert!(transparent_column >= history.x && transparent_column < right(history));
    assert!(!renderer.last_kitty_paint.iter().any(|&(row, start, end)| {
        row == transparent_row && transparent_column >= start && transparent_column < end
    }));
    assert_eq!(
        renderer.activity_at(transparent_column, transparent_row),
        Some("activity".into())
    );
}

#[test]
fn kitty_paint_metadata_excludes_canvas_padding_and_gutters() {
    let rect = rect(20, 7, 30, CANVAS_HEIGHT as u16);
    let theme = theme();
    let mut renderer = Renderer::default();
    let rows = kitty_rows(KittyVariant::FlyGirl, false, 0, &theme);
    renderer.draw_kitty(&rows, rect, SMALL_SCREEN);
    let painted = &renderer.last_kitty_paint;

    assert!(!painted.iter().any(|&(y, _, _)| y == rect.y));
    assert!(!painted.iter().any(|&(_, start, _)| start == rect.x));
    assert!(painted.iter().all(|&(y, start, end)| y >= rect.y
            && y < bottom(rect)
            && start >= rect.x
            && end <= right(rect)
            && start < end));

    let kitty_width = kitty_rows(KittyVariant::FlyGirl, false, 0, &theme)
        .iter()
        .map(Line::width)
        .max()
        .unwrap() as u16;
    let real_glyph = (right(rect) - kitty_width + 2, rect.y + 2);
    let transparent_cell = (rect.x, rect.y);
    assert!(painted.iter().any(|&(y, start, end)| {
        y == real_glyph.1 && real_glyph.0 >= start && real_glyph.0 < end
    }));
    assert!(!painted.iter().any(|&(y, start, end)| {
        y == transparent_cell.1 && transparent_cell.0 >= start && transparent_cell.0 < end
    }));
}

#[test]
fn zero_size_kitty_draw_clears_previous_paint_metadata() {
    let theme = theme();
    let rows = kitty_rows(KittyVariant::Blob, false, 0, &theme);
    let mut renderer = Renderer::default();
    assert!(!renderer.draw_kitty(&rows, rect(20, 7, 30, 6), SMALL_SCREEN).is_empty());
    assert!(!renderer.last_kitty_paint.is_empty());

    assert!(renderer.draw_kitty(&rows, rect(20, 7, 0, 6), SMALL_SCREEN).is_empty());
    assert!(renderer.last_kitty_paint.is_empty());
}

#[test]
fn processing_frames_advance_on_variant_delays_and_reset_after_the_run() {
    let mut renderer = Renderer::default();
    let now: u128 = NOW;
    renderer.advance(false, now);
    assert_eq!(renderer.processing_frame, 0);
    assert!(renderer.processing_tick.is_none());
    renderer.advance(true, now);
    assert_eq!(renderer.processing_frame, 0);
    renderer.advance(true, now + 699 * MILLISECOND);
    assert_eq!(renderer.processing_frame, 0);
    renderer.advance(true, now + 700 * MILLISECOND);
    assert_eq!(renderer.processing_frame, 1);
    renderer.advance(true, now + 1199 * MILLISECOND);
    assert_eq!(renderer.processing_frame, 1);
    renderer.advance(true, now + 1200 * MILLISECOND);
    assert_eq!(renderer.processing_frame, 2);
    renderer.advance(false, now + 1201 * MILLISECOND);
    assert_eq!(renderer.processing_frame, 0);
    assert!(renderer.processing_tick.is_none());
}

#[test]
fn idle_rotation_flags_a_redraw_only_at_900s_boundaries() {
    let mut renderer = Renderer::default();
    let launch = NOW;
    renderer.set_launch(launch);
    assert!(!renderer.variant_dirty(launch + 899 * SECOND));
    assert!(!renderer.variant_dirty(launch + 900 * SECOND));
    assert!(!renderer.variant_dirty(launch + 1799 * SECOND));
    assert!(!renderer.variant_dirty(launch + 1800 * SECOND));
    let launch2 = NOW + 60 * SECOND;
    let mut renderer = Renderer::default();
    renderer.set_launch(launch2);
    let mut flips = 0;
    for second in 0..(6 * ROTATION_SECONDS as u128) {
        if renderer.variant_dirty(launch2 + second * SECOND) {
            flips += 1;
        }
    }
    assert_eq!(flips, 0);
}

#[test]
fn idle_rotation_uses_the_launch_offset_and_latches_no_spurious_event() {
    let mut unset = Renderer::default();
    assert!(!unset.variant_dirty(NOW));
    assert!(!unset.variant_dirty(NOW));
    let mut offset_one = Renderer::default();
    offset_one.set_variant_offset(1);
    assert!(!offset_one.variant_dirty(NOW));
    let launch = NOW;
    offset_one.set_launch(launch);
    assert!(!offset_one.variant_dirty(launch + 899 * SECOND));
    assert!(!offset_one.variant_dirty(launch + 900 * SECOND));
    assert!(!offset_one.variant_dirty(launch + 1799 * SECOND));
    assert!(!offset_one.variant_dirty(launch + 1800 * SECOND));
    assert!(!offset_one.variant_dirty(launch + 2699 * SECOND));
    assert!(!offset_one.variant_dirty(launch + 2700 * SECOND));
    let mut offset_two = Renderer::default();
    offset_two.set_variant_offset(2);
    let launch = NOW;
    offset_two.set_launch(launch);
    assert!(!offset_two.variant_dirty(launch + 899 * SECOND));
    assert!(!offset_two.variant_dirty(launch + 900 * SECOND));
    assert!(!offset_two.variant_dirty(launch + 1799 * SECOND));
    assert!(!offset_two.variant_dirty(launch + 1800 * SECOND));
    assert!(!offset_two.variant_dirty(launch + 2699 * SECOND));
    assert!(!offset_two.variant_dirty(launch + 2700 * SECOND));
}

#[test]
fn streaming_output_snaps_only_when_the_stream_starts() {
    let mut app = fresh_app();
    app.scroll = 8;
    app.event(UiEvent::Delta {
        context: "main".into(),
        text: "first".into(),
    });
    assert_eq!(app.scroll, 0);

    app.scroll = 8;
    app.event(UiEvent::Delta {
        context: "main".into(),
        text: " second".into(),
    });
    assert_eq!(app.scroll, 8);
}

#[test]
fn small_terminals_and_plain_fonts_work() {
    let mut app = fresh_app();
    app.theme.ascii = true;
    app.input.insert("a漢é\nsecond line");
    for (width, height) in [(1, 1), (8, 3), (30, 8)] {
        screen(&mut Renderer::default(), &app, width, height);
    }
    assert!(screen(&mut Renderer::default(), &app, 90, 24).contains("+"));
}

#[test]
fn model_picker_scrolls_selection_and_keeps_search_cursor_inside_small_viewports() {
    let current = ModelRef { provider: "openai".to_owned(), model: "gpt-5".to_owned() };
    let mut aliases = Vec::new();
    for i in 0..40 {
        aliases.push(ModelAlias {
            alias: format!("alias-{i:02}"),
            model: ModelRef { provider: "openai".to_owned(), model: format!("model-{i:02}") },
        });
    }
    let mut app = fresh_app();
    app.picker = Some(Picker::models(&aliases, &current, &current, None));
    app.picker
        .as_mut()
        .unwrap()
        .key(KeyEvent::new(
            KeyCode::End,
            Modifiers { control: true, ..Modifiers::none() },
        ));
    let selected = app
        .picker
        .as_ref()
        .unwrap()
        .current()
        .unwrap()
        .label
        .clone();
    let output = screen(&mut Renderer::default(), &app, 90, 24);
    assert!(output.contains("Search"));
    assert!(output.contains(&selected));
    assert!(output.lines().next().unwrap().trim().is_empty());
    assert!(output.lines().last().unwrap().trim().is_empty());
    assert!(output
        .lines()
        .all(|line| line.starts_with(' ') && line.ends_with(' ')));
    app.paste(&"漢é".repeat(40));
    for (width, height) in [(1, 1), (8, 3), (30, 12), (90, 24)] {
        let mut terminal = Terminal::new(TestBackend::new(width, height)).unwrap();
        show(&mut terminal, &mut Renderer::default(), &app);
        let cursor = terminal.get_cursor_position().unwrap();
        assert!(cursor.x < width && cursor.y < height);
    }
}

#[test]
fn settings_pickers_render_states_and_theme_changes_invalidate_cached_syntax() {
    let servers = vec![
        McpServer { name: "browser".to_owned(), uuid: "browser-id".to_owned(), enabled: false },
        McpServer { name: "search".to_owned(), uuid: "search-id".to_owned(), enabled: true },
    ];
    let mut app = fresh_app();
    app.picker = Some(Picker::mcps(&servers));
    let output = screen(&mut Renderer::default(), &app, 100, 24);
    assert!(output.contains("[off] browser"));
    assert!(output.contains("[on ] search"));
    app.picker = Some(Picker::themes(&app.theme, &theme(), &presets()));
    for (width, height) in [(1, 1), (8, 3), (30, 8), (100, 24)] {
        screen(&mut Renderer::default(), &app, width, height);
    }
    app.message(
        "main".into(),
        Message::new(
            "assistant",
            "```rust\nfn main() { let n = 42; println!(\"hello\"); }\n```",
        ),
    );
    let mut renderer = Renderer::default();
    screen(&mut renderer, &app, 100, 24);
    let before = renderer.rebuilds;
    for preset in presets() {
        app.theme = preset.theme;
        screen(&mut renderer, &app, 100, 24);
        assert_eq!(format!("{:?}", renderer.theme.as_ref()), format!("{:?}", Some(&app.theme)));
        if preset.name == "mama_j" {
            for rgb in renderer.cache[0]
                .lines
                .iter()
                .flat_map(|l| &l.spans)
                .filter_map(|s| s.style.fg)
            {
                assert_eq!((rgb.r, rgb.g), (rgb.g, rgb.b));
            }
        }
    }
    assert_eq!(renderer.rebuilds, before + 6);
    let stable = renderer.rebuilds;
    screen(&mut renderer, &app, 100, 24);
    assert_eq!(renderer.rebuilds, stable);
}

#[test]
fn focused_summary_only_gets_cta_background_and_keeps_hit_target() {
    let mut app = fresh_app();
    app.theme.cta_background = "#123456".into();
    app.event(UiEvent::Activity(start(
        "first",
        None,
        "main",
        ActivityKind::Tool,
        None,
        "first summary",
    )));
    app.event(UiEvent::Activity(start(
        "second",
        None,
        "main",
        ActivityKind::Tool,
        None,
        "second summary",
    )));
    app.event(UiEvent::Activity(end(
        "second",
        "main",
        Some(ActivityStatus::Success),
    )));

    let first_before = summary(&app, "first", 80);
    let second_before = summary(&app, "second", 80);
    assert_eq!(first_before.style.bg, None);
    assert_eq!(second_before.style.bg, None);

    enter_activity_focus(&mut app);
    assert_eq!(app.focused_activity_id(), Some("second"));

    let first = summary(&app, "first", 80);
    let second = summary(&app, "second", 80);
    assert_eq!(
        first.style.bg, None,
        "other summaries keep normal background"
    );
    assert_eq!(
        second.style.bg,
        Some(color(&app.theme.cta_background)),
        "the focused matching summary uses the CTA background"
    );
    assert_eq!(first.text(), first_before.text());
    assert_eq!(second.text(), second_before.text());
    assert_eq!(second.text().lines().count(), 1);
    assert!(second.text().len() <= 80);
    assert!(second.text().contains("[ok]"));

    let mut renderer = Renderer::default();
    let lines = renderer.history(&app, 80, 4);
    assert_eq!(lines.len(), renderer.hit_map.len());
    assert_eq!(
        targets(&renderer),
        vec![
            Some("first"),
            Some("second"),
        ]
    );
    assert_eq!(lines[0].text(), first.text());
    assert_eq!(lines[1].text(), second.text());
}

#[test]
fn focused_ascii_summary_uses_cta_background_without_changing_output() {
    let mut app = fresh_app();
    app.theme.ascii = true;
    app.theme.cta_background = "#654321".into();
    app.event(UiEvent::Activity(start(
        "root",
        None,
        "main",
        ActivityKind::Subagent,
        None,
        "planner",
    )));
    app.event(UiEvent::Activity(start(
        "child",
        Some("root"),
        "main",
        ActivityKind::Tool,
        None,
        "read files",
    )));
    app.set_activity_expanded("root", Some(true));

    let root_before = summary(&app, "root", 80);
    let before = summary(&app, "child", 80);
    enter_activity_focus(&mut app);
    app.handle_key(KeyEvent::new(KeyCode::Up, Modifiers::none())).unwrap();
    let focused = summary(&app, "root", 80);
    assert_eq!(app.focused_activity_id(), Some("root"));
    assert_eq!(focused.style.bg, Some(color(&app.theme.cta_background)));
    assert_eq!(focused.text(), root_before.text());
    assert_eq!(before.text(), "|  [+] read files [running]");
    assert_eq!(before.text().lines().count(), 1);
}

#[test]
fn collapsed_root_renders_one_summary_line() {
    let mut app = fresh_app();
    app.event(UiEvent::Activity(start(
        "tool-1",
        None,
        "main",
        ActivityKind::Tool,
        Some("req-1"),
        "shell ls",
    )));
    let line = summary(&app, "tool-1", 80);
    let text = line.text();
    assert!(
        text.starts_with("[+] "),
        "collapsed root must show [+], got {text:?}"
    );
    assert!(text.contains("[+] shell ls [running]"));
    assert!(text.contains("[running]"));
}

#[test]
fn expanded_root_shows_marker_and_dropped_count() {
    let mut app = fresh_app();
    app.event(UiEvent::Activity(start(
        "tool-1",
        None,
        "main",
        ActivityKind::Tool,
        Some("req-1"),
        "shell ls",
    )));
    app.set_activity_expanded("tool-1", Some(true));
    let line = summary(&app, "tool-1", 80);
    let text = line.text();
    assert!(text.starts_with("[-] "));
    assert!(!text.contains("(+"));
}

#[test]
fn error_status_is_visible_when_collapsed() {
    let mut app = fresh_app();
    app.event(UiEvent::Activity(start(
        "tool-err",
        None,
        "main",
        ActivityKind::Tool,
        None,
        "shell bogus",
    )));
    app.event(UiEvent::Activity(end(
        "tool-err",
        "main",
        Some(ActivityStatus::Error),
    )));
    assert!(!app.activity("tool-err").unwrap().expanded);
    let line = summary(&app, "tool-err", 80);
    let text = line.text();
    assert!(text.starts_with("[+] "));
    assert!(text.contains("[error]"));
}

#[test]
fn nested_child_only_renders_when_parent_is_expanded() {
    let mut app = fresh_app();
    app.event(UiEvent::Activity(start(
        "sub",
        None,
        "main",
        ActivityKind::Subagent,
        None,
        "planner",
    )));
    app.event(UiEvent::Activity(start(
        "tool-a",
        Some("sub"),
        "main",
        ActivityKind::Tool,
        None,
        "read",
    )));
    assert!(!app.visible_activity_ids().contains(&"tool-a".to_string()));
    app.set_activity_expanded("sub", Some(true));
    assert!(app.visible_activity_ids().contains(&"tool-a".to_string()));
    let line = summary(&app, "tool-a", 80);
    let text = line.text();
    assert!(
        text.starts_with("│  ") || text.starts_with("|  "),
        "nested child must be indented, got {text:?}"
    );
    assert!(text.contains("[+] "));
}

#[test]
fn summary_text_truncates_to_one_line() {
    let mut app = fresh_app();
    let long = "a".repeat(200);
    app.event(UiEvent::Activity(start(
        "tool-1",
        None,
        "main",
        ActivityKind::Tool,
        None,
        &long,
    )));
    let line = summary(&app, "tool-1", 40);
    let text = line.text();
    assert!(
        text.chars().count() <= 40,
        "summary must not wrap, got {:?}",
        text
    );
    assert!(
        text.contains('…'),
        "truncated summary must end with ellipsis"
    );
}

#[test]
fn ascii_mode_uses_ascii_branch_indent() {
    let mut app = fresh_app();
    app.theme.ascii = true;
    app.event(UiEvent::Activity(start(
        "sub",
        None,
        "main",
        ActivityKind::Subagent,
        None,
        "planner",
    )));
    app.event(UiEvent::Activity(start(
        "tool-a",
        Some("sub"),
        "main",
        ActivityKind::Tool,
        None,
        "read",
    )));
    app.set_activity_expanded("sub", Some(true));
    let line = summary(&app, "tool-a", 80);
    let text = line.text();
    assert!(
        text.starts_with("|  "),
        "ascii indent must use pipes, got {text:?}"
    );
    assert!(!text.contains('│'), "ascii mode must avoid Unicode branch");
}

#[test]
fn unicode_mode_uses_branch_indent() {
    let mut app = fresh_app();
    app.theme.ascii = false;
    app.event(UiEvent::Activity(start(
        "sub",
        None,
        "main",
        ActivityKind::Subagent,
        None,
        "planner",
    )));
    app.event(UiEvent::Activity(start(
        "tool-a",
        Some("sub"),
        "main",
        ActivityKind::Tool,
        None,
        "read",
    )));
    app.set_activity_expanded("sub", Some(true));
    let line = summary(&app, "tool-a", 80);
    let text = line.text();
    assert!(
        text.starts_with("│  "),
        "unicode indent must use box-drawing, got {text:?}"
    );
}

#[test]
fn timeline_ordering_is_preserved_through_summary_insertions() {
    let mut app = fresh_app();
    app.message("main".into(), Message::new("user", "hi"));
    app.message("main".into(), Message::new("assistant", "hello"));
    app.event(UiEvent::Activity(start(
        "sub",
        None,
        "main",
        ActivityKind::Subagent,
        None,
        "planner",
    )));
    app.event(UiEvent::Activity(start(
        "tool-a",
        None,
        "main",
        ActivityKind::Tool,
        None,
        "shell a",
    )));
    app.event(UiEvent::Activity(start(
        "tool-b",
        Some("sub"),
        "main",
        ActivityKind::Tool,
        None,
        "shell b",
    )));
    app.message("main".into(), Message::new("assistant", "follow-up"));
    app.event(UiEvent::Activity(start(
        "tool-c",
        None,
        "main",
        ActivityKind::Tool,
        None,
        "shell c",
    )));
    app.set_activity_expanded("sub", Some(true));
    let output = screen(&mut Renderer::default(), &app, 120, 30);
    let sub = output.find("planner").expect("planner present");
    let tool_a = output.find("shell a").expect("shell a present");
    let tool_b = output.find("shell b").expect("shell b present");
    let follow_up = output.find("follow-up").expect("follow-up present");
    let tool_c = output.find("shell c").expect("shell c present");
    assert!(sub < tool_a, "sub summary precedes the later tool-a root");
    assert!(tool_a < tool_b, "tool-a precedes the sub-nested tool-b");
    assert!(tool_b < follow_up, "tool-b precedes later chat");
    assert!(follow_up < tool_c, "later chat precedes tool-c");
}

#[test]
fn cache_no_rebuild_when_only_expansion_changes() {
    let mut app = fresh_app();
    app.event(UiEvent::Activity(start(
        "tool-1",
        None,
        "main",
        ActivityKind::Tool,
        Some("tool-1"),
        "shell long",
    )));
    app.message("main".into(), Message::tool("tool-1", "short body"));
    let mut renderer = Renderer::default();
    screen(&mut renderer, &app, 100, 24);
    let rebuilds = renderer.rebuilds;
    app.toggle_activity_expanded("tool-1");
    let output = screen(&mut renderer, &app, 100, 24);
    assert!(
        output.contains("[-]"),
        "expanded marker must appear after toggle"
    );
    assert_eq!(renderer.rebuilds, rebuilds);
    app.toggle_activity_expanded("tool-1");
    screen(&mut renderer, &app, 100, 24);
    assert_eq!(renderer.rebuilds, rebuilds);
}

#[test]
fn history_viewport_windows_preserve_order_and_hit_targets() {
    let mut app = fresh_app();
    app.message("main".into(), Message::new("assistant", "before"));

    app.event(UiEvent::Activity(start(
        "collapsed",
        None,
        "main",
        ActivityKind::Tool,
        Some("collapsed-call"),
        "collapsed",
    )));
    app.message(
        "main".into(),
        Message::tool("collapsed-call", "hidden-collapsed"),
    );
    app.event(UiEvent::Activity(start(
        "collapsed-child",
        Some("collapsed"),
        "main",
        ActivityKind::Tool,
        Some("collapsed-child-call"),
        "collapsed child",
    )));
    app.message(
        "main".into(),
        Message::tool("collapsed-child-call", "hidden-descendant"),
    );

    app.event(UiEvent::Activity(start(
        "expanded",
        None,
        "main",
        ActivityKind::Tool,
        Some("expanded-call"),
        "expanded",
    )));
    app.message(
        "main".into(),
        Message::tool("expanded-call", "detail-one\ndetail-two"),
    );
    app.event(UiEvent::Activity(start(
        "nested",
        Some("expanded"),
        "main",
        ActivityKind::Tool,
        Some("nested-call"),
        "nested",
    )));
    app.message("main".into(), Message::new("assistant", "after"));

    app.set_activity_expanded("expanded", Some(true));
    let expected = vec![
        "┌ assistant ┐",
        "│ before",
        "└ ┘",
        "[+] collapsed [ok] (+2)",
        "[-] expanded [ok] (+2)",
        "┌ tool ┐",
        "│ detail-one",
        "│ detail-two",
        "└ ┘",
        "│  [+] nested [running]",
        "┌ assistant ┐",
        "│ after",
        "└ ┘",
    ];

    let mut renderer = Renderer::default();
    let rebuilds = {
        app.scroll = usize::MAX;
        let lines = renderer.history(&app, 80, 4);
        assert_eq!(
            lines.iter().map(Line::text).collect::<Vec<_>>(),
            expected[..4]
        );
        assert_eq!(renderer.hit_map.len(), lines.len());
        assert_eq!(
            targets(&renderer),
            vec![
                None,
                None,
                None,
                Some("collapsed")
            ]
        );
        assert_semantic_hit_targets(&lines, &renderer.hit_map);

        app.scroll = 3;
        let lines = renderer.history(&app, 80, 4);
        assert_eq!(
            lines.iter().map(Line::text).collect::<Vec<_>>(),
            expected[6..10]
        );
        assert_eq!(renderer.hit_map.len(), lines.len());
        assert_eq!(
            targets(&renderer),
            vec![
                None,
                None,
                None,
                Some("nested")
            ]
        );
        assert_semantic_hit_targets(&lines, &renderer.hit_map);

        app.scroll = 0;
        let lines = renderer.history(&app, 80, 4);
        assert_eq!(
            lines.iter().map(Line::text).collect::<Vec<_>>(),
            expected[9..13]
        );
        assert_eq!(renderer.hit_map.len(), lines.len());
        assert_eq!(
            targets(&renderer),
            vec![
                Some("nested"),
                None,
                None,
                None
            ]
        );
        assert_semantic_hit_targets(&lines, &renderer.hit_map);
        renderer.rebuilds
    };

    app.set_activity_expanded("expanded", Some(false));
    app.scroll = 0;
    let lines = renderer.history(&app, 80, 4);
    assert_eq!(renderer.rebuilds, rebuilds);
    assert_eq!(renderer.hit_map.len(), lines.len());
    assert!(
        lines
            .iter()
            .all(|line| !line.text().contains("detail-")),
        "collapsed details must not appear"
    );
    assert!(
        renderer.hit_map.iter().all(|hit| match hit {
            Some(summary) => summary.id == "expanded",
            None => true,
        }),
        "only visible activity summaries may have hit targets"
    );
    assert!(!lines.iter().any(|line| line.text().contains("nested")));
}

#[test]
fn owned_entry_detail_is_hidden_when_owner_is_collapsed() {
    let mut app = fresh_app();
    app.event(UiEvent::Activity(start(
        "tool-1",
        None,
        "main",
        ActivityKind::Tool,
        Some("tool-1"),
        "shell long",
    )));
    app.message("main".into(), Message::tool("tool-1", "hello"));
    assert!(!app.entry_is_visible(0));
    app.set_activity_expanded("tool-1", Some(true));
    assert!(app.entry_is_visible(0));
}

#[test]
fn bottom_anchoring_keeps_latest_lines_visible() {
    let mut app = fresh_app();
    for index in 0..30 {
        let body = format!("message number {index}");
        app.event(UiEvent::Delta {
            context: "main".into(),
            text: format!("{body}\n"),
        });
        app.event(UiEvent::Message {
            context: "main".into(),
            message: Message::new("assistant", &body),
        });
    }
    let mut renderer = Renderer::default();
    let output = screen(&mut renderer, &app, 80, 24);
    assert!(
        output.contains("message number 29"),
        "latest line must remain visible at the bottom"
    );
}

#[test]
fn header_composes_model_agent_effort_on_the_top_row() {
    let mut app = fresh_app();
    app.selection.agent = Some("writer".into());
    app.effective_agent_label = "writer".into();
    app.model_label = "openai:gpt-5".into();
    app.effort_label = "high".into();
    let mut renderer = Renderer::default();
    let output = screen(&mut renderer, &app, 120, 24);
    assert!(
        output.contains("openai:gpt-5 | agent writer | effort high"),
        "{output:?}"
    );
    assert!(!output.contains("agent: writer | model:"));
    let content_width = 120 - 2;
    let kitty_width = kitty_rows(KittyVariant::Blob, false, 0, &theme())
        .iter()
        .map(Line::width)
        .max()
        .unwrap() as u16;
    let metadata_width =
        content_width - HEADER_LOGO_WIDTH - HEADER_SEPARATOR_WIDTH - kitty_width;
    let crop_end = renderer
        .last_kitty_reservation
        .map_or(output.lines().nth(1).unwrap().len(), |r| r.x as usize);
    let expected_trimmed_width = (1 + HEADER_LOGO_WIDTH + metadata_width) as usize;
    assert_eq!(
        output.lines().nth(1).unwrap()[..crop_end].trim_end().len(),
        expected_trimmed_width
    );
}

#[test]
fn kitty_first_visible_row_is_anchored_to_terminal_top() {
    let app = fresh_app();
    let output = screen(&mut Renderer::default(), &app, 80, 24);
    let kitty_row = output
        .lines()
        .position(|line| line.contains('█'))
        .expect("kitty glyph visible");
    assert_eq!(kitty_row, 1);
}

#[test]
fn hidden_descendants_are_not_cloned_into_visible_lines() {
    let mut app = fresh_app();
    app.message("main".into(), Message::new("user", "u1"));
    app.message("main".into(), Message::new("assistant", "a1"));
    app.event(UiEvent::Activity(start(
        "sub",
        None,
        "main",
        ActivityKind::Subagent,
        None,
        "planner",
    )));
    app.event(UiEvent::Activity(start(
        "tool-a",
        Some("sub"),
        "main",
        ActivityKind::Tool,
        Some("tool-a"),
        "inner-tool",
    )));
    app.message("main".into(), Message::tool("tool-a", "payload"));
    app.message("main".into(), Message::new("user", "u2"));
    app.set_activity_expanded("sub", Some(true));
    let output = screen(&mut Renderer::default(), &app, 120, 30);
    assert!(output.contains("planner"), "root summary visible");
    assert!(
        output.contains("inner-tool"),
        "collapsed child summary visible (sub is expanded), got:\n{output}"
    );
    assert!(
        !output.contains("payload"),
        "owned entry detail behind collapsed child must not render, got:\n{output}"
    );
}
