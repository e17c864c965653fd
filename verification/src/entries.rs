//! The rows of a transcript entry: a header, its text behind a gutter, and a
//! footer. Finished entries are styled as Markdown; streamed and oversized ones
//! are shown in part, as plain text.
use crate::app::Entry;
use crate::json;
use crate::json::tool_result_text;
use crate::markdown;
use crate::markdown::markdown;
use crate::model::{Theme, ThemeView};
use crate::spine::EntryView;
use crate::style;
use crate::style::{color, Color, Line, LineView, Span, SpanView, Style};
use crate::text;
use crate::text::{
    bounded_excerpt, count_text, excerpt_parts, join_range, last_bytes_text, len_bytes,
    logical_line_count, same, split_text, text3,
};
use crate::wrap;
use crate::wrap::{truncate_line, wrap_lines_at_words};
use vstd::prelude::*;
use vstd::string::*;

verus! {

/// Bytes of a streamed entry that are shown: its end.
pub const STREAMING_RENDER_BYTES: usize = 8192;

/// Bytes up to which a finished entry is shown whole.
pub const COMPLETED_RENDER_BYTES: usize = 131072;

/// Lines up to which a finished entry is shown whole.
pub const COMPLETED_RENDER_LINES: usize = 4000;

/// Lines shown of the beginning of an entry with too many lines.
pub const COMPLETED_HEAD_LINES: usize = 64;

/// Lines shown of the end of an entry with too many lines.
pub const COMPLETED_TAIL_LINES: usize = 64;

/// Bytes up to which a tool result is read as a payload.
pub const EXPANDED_RESULT_BYTES: usize = 100000;

/// The color of a role.
pub open spec fn role_color(role: Seq<char>, theme: ThemeView) -> Color {
    style::color_of(
        if role == "user"@ {
            theme.user
        } else if role == "assistant"@ {
            theme.assistant
        } else if role == "tool"@ {
            theme.tool
        } else if role == "error"@ {
            theme.error
        } else {
            theme.muted
        },
    )
}

/// What the header says: the role, and the context if it is not the main one.
pub open spec fn label_of(role: Seq<char>, context: Seq<char>) -> Seq<char> {
    if context == "main"@ {
        role
    } else {
        role + " | "@ + context
    }
}

/// The row above an entry.
pub open spec fn header_row(e: EntryView, theme: ThemeView) -> LineView {
    let label = label_of(e.role, e.context);
    style::styled_line(
        if theme.ascii {
            "+ "@ + label + " +"@
        } else {
            "┌ "@ + label + " ┐"@
        },
        Style::strong(role_color(e.role, theme)),
    )
}

/// The row below an entry.
pub open spec fn footer_row(theme: ThemeView) -> LineView {
    style::styled_line(
        if theme.ascii {
            "+ +"@
        } else {
            "└ ┘"@
        },
        Style::colored(style::color_of(theme.border)),
    )
}

/// What stands in front of every row of an entry's text.
pub open spec fn gutter(theme: ThemeView) -> SpanView {
    SpanView {
        content: if theme.ascii {
            "| "@
        } else {
            "│ "@
        },
        style: Style::colored(style::color_of(theme.border)),
    }
}

/// Rows behind a gutter.
pub open spec fn behind(gutter: SpanView, rows: Seq<LineView>) -> Seq<LineView> {
    rows.map_values(|row: LineView| style::plain_line(seq![gutter] + row.spans))
}

/// Cells for the text of an entry: the gutter takes two.
pub open spec fn text_cells(width: int) -> int {
    wrap::at_least_one(width - 2)
}

/// The lines of a plain text in one style.
pub open spec fn plain_lines(s: Seq<char>, color: Color) -> Seq<LineView> {
    text::split_on(s, '\n').map_values(
        |l: Seq<char>| style::styled_line(l, Style::colored(color)),
    )
}

/// The rows of lines behind a gutter, broken at white space.
pub open spec fn body_rows(lines: Seq<LineView>, width: int, theme: ThemeView) -> Seq<LineView> {
    behind(gutter(theme), wrap::word_wrapped(lines, text_cells(width)))
}

/// One muted row behind the gutter.
pub open spec fn marker_row(s: Seq<char>, width: int, theme: ThemeView) -> LineView {
    wrap::one_row(
        seq![
            gutter(theme),
            SpanView { content: s, style: Style::colored(style::color_of(theme.muted)) },
        ],
        width,
    )
}

/// Kibibytes that some bytes take up.
pub open spec fn kib(bytes: nat) -> nat {
    (bytes + 1023) / 1024
}

/// What an entry shows: a tool result as its payload, any other text as it is.
pub open spec fn display_text(e: EntryView) -> Seq<char> {
    if e.role == "tool"@ && text::byte_len(e.text) <= EXPANDED_RESULT_BYTES {
        json::result_text(e.text)
    } else {
        e.text
    }
}

/// A text is too long to be shown whole.
pub open spec fn is_oversized(s: Seq<char>) -> bool {
    text::byte_len(s) > COMPLETED_RENDER_BYTES || text::line_total(s) > COMPLETED_RENDER_LINES
}

/// The smaller of two numbers.
pub open spec fn smaller(a: int, b: int) -> int {
    if a < b {
        a
    } else {
        b
    }
}

/// The two ends of a text with too many lines: its first and its last lines,
/// cut further where even these take too many bytes.
pub open spec fn line_windows(s: Seq<char>) -> (Seq<char>, Seq<char>) {
    let all = text::split_on(s, '\n');
    let n = all.len() as int;
    let head = text::joined(all.take(smaller(COMPLETED_HEAD_LINES as int, n)), "\n"@);
    let tail = text::joined(
        all.skip(n - smaller(COMPLETED_TAIL_LINES as int, n)),
        "\n"@,
    );
    if text::byte_len(head) + text::byte_len(tail) + 1 > COMPLETED_RENDER_BYTES {
        text::excerpt(head + "\n"@ + tail, COMPLETED_RENDER_BYTES as int)
    } else {
        (head, tail)
    }
}

/// The rows of the text of an oversized entry: its ends as plain text, and a
/// row that says how much there is.
pub open spec fn bounded_body(s: Seq<char>, color: Color, width: int, theme: ThemeView) -> Seq<
    LineView,
> {
    let marker = marker_row(
        "[display truncated: "@ + text::decimal(text::clip(text::line_total(s) as int) as nat)
            + " lines, "@ + text::decimal(kib(text::byte_len(s)))
            + " KiB total; use /export for full output]"@,
        width,
        theme,
    );
    if text::line_total(s) > COMPLETED_RENDER_LINES {
        let (head, tail) = line_windows(s);
        body_rows(plain_lines(head, color), width, theme).push(marker) + body_rows(
            plain_lines(tail, color),
            width,
            theme,
        )
    } else {
        seq![marker] + body_rows(
            plain_lines(text::shortened(s, COMPLETED_RENDER_BYTES as int), color),
            width,
            theme,
        )
    }
}

/// The rows of a finished entry.
pub open spec fn entry_rows(e: EntryView, width: int, theme: ThemeView) -> Seq<LineView> {
    let s = display_text(e);
    let c = role_color(e.role, theme);
    let body = if is_oversized(s) {
        bounded_body(s, c, width, theme)
    } else {
        body_rows(markdown::markdown_rows(s, theme, c), width, theme)
    };
    (seq![header_row(e, theme)] + body).push(footer_row(theme))
}

/// The rows of an entry that is still streamed into: the end of its text, and
/// above it a row that says how much there is where something is left out.
pub open spec fn streaming_rows(e: EntryView, width: int, theme: ThemeView) -> Seq<LineView> {
    let c = role_color(e.role, theme);
    let total = text::byte_len(e.text);
    let marker = if total > STREAMING_RENDER_BYTES {
        seq![
            marker_row(
                "[streaming output truncated: "@ + text::decimal(kib(total))
                    + " KiB total, showing latest 8 KiB]"@,
                width,
                theme,
            ),
        ]
    } else {
        Seq::empty()
    };
    let body = body_rows(
        plain_lines(text::last_bytes(e.text, STREAMING_RENDER_BYTES as int), c),
        width,
        theme,
    );
    (seq![header_row(e, theme)] + marker + body).push(footer_row(theme))
}

/// The rows of an entry.
pub open spec fn rows_of(e: EntryView, width: int, theme: ThemeView) -> Seq<LineView> {
    if e.streaming {
        streaming_rows(e, width, theme)
    } else {
        entry_rows(e, width, theme)
    }
}

/// The color of a role.
fn color_of_role(role: &str, theme: &Theme) -> (r: Color)
    ensures
        r == role_color(role@, theme@),
{
    if same(role, "user") {
        color(theme.user.as_str())
    } else if same(role, "assistant") {
        color(theme.assistant.as_str())
    } else if same(role, "tool") {
        color(theme.tool.as_str())
    } else if same(role, "error") {
        color(theme.error.as_str())
    } else {
        color(theme.muted.as_str())
    }
}

/// The row above an entry.
fn header_line(entry: &Entry, theme: &Theme) -> (r: Line)
    ensures
        r@ == header_row(entry@, theme@),
{
    let label = if same(entry.context.as_str(), "main") {
        entry.role.clone()
    } else {
        text3(entry.role.as_str(), " | ", entry.context.as_str())
    };
    let text = if theme.ascii {
        text3("+ ", label.as_str(), " +")
    } else {
        text3("┌ ", label.as_str(), " ┐")
    };
    let role = color_of_role(entry.role.as_str(), theme);
    Line::styled(text.as_str(), Style::new().fg(role).bold())
}

/// The row below an entry.
fn footer_line(theme: &Theme) -> (r: Line)
    ensures
        r@ == footer_row(theme@),
{
    Line::styled(
        if theme.ascii {
            "+ +"
        } else {
            "└ ┘"
        },
        Style::new().fg(color(theme.border.as_str())),
    )
}

/// What stands in front of every row of an entry's text.
fn gutter_span(theme: &Theme) -> (r: Span)
    ensures
        r@ == gutter(theme@),
{
    let content = if theme.ascii {
        "| ".to_owned()
    } else {
        "│ ".to_owned()
    };
    Span::styled(content, Style::new().fg(color(theme.border.as_str())))
}

/// One muted row behind the gutter.
fn marker_line(text: String, width: usize, theme: &Theme) -> (r: Line)
    ensures
        r@ == marker_row(text@, width as int, theme@),
{
    let mut spans: Vec<Span> = Vec::new();
    spans.push(gutter_span(theme));
    spans.push(Span::styled(text, Style::new().fg(color(theme.muted.as_str()))));
    assert(style::spans_view(spans@) =~= seq![
        gutter(theme@),
        SpanView { content: text@, style: Style::colored(style::color_of(theme@.muted)) },
    ]);
    truncate_line(spans, width)
}

/// Appends the rows of lines behind a gutter, broken at white space.
fn push_body(out: &mut Vec<Line>, lines: &Vec<Line>, width: usize, theme: &Theme)
    ensures
        style::lines_view(final(out)@) == style::lines_view(old(out)@) + body_rows(
            style::lines_view(lines@),
            width as int,
            theme@,
        ),
{
    let ghost before = style::lines_view(out@);
    let ghost want = body_rows(style::lines_view(lines@), width as int, theme@);
    let rows = wrap_lines_at_words(lines, width.saturating_sub(2));
    let mut i: usize = 0;
    assert(before + want.take(0) =~= before);
    while i < rows.len()
        invariant
            i <= rows@.len(),
            want == behind(gutter(theme@), style::lines_view(rows@)),
            style::lines_view(out@) == before + want.take(i as int),
        decreases rows@.len() - i,
    {
        let mut spans: Vec<Span> = Vec::new();
        spans.push(gutter_span(theme));
        let mut row = rows[i].duplicate();
        spans.append(&mut row.spans);
        let line = Line::from_spans(spans);
        proof {
            assert(style::lines_view(rows@)[i as int] == rows@[i as int]@);
            assert(line@.spans =~= seq![gutter(theme@)] + rows@[i as int]@.spans);
            style::lemma_lines_push(out@, line);
            assert(before + want.take(i + 1) =~= (before + want.take(i as int)).push(line@));
        }
        out.push(line);
        i = i + 1;
    }
    assert(want.take(i as int) =~= want);
}

/// The lines of a plain text in one style.
fn plain_text(text: &str, color: Color) -> (r: Vec<Line>)
    ensures
        style::lines_view(r@) == plain_lines(text@, color),
{
    let parts = split_text(text, '\n');
    let ghost want = plain_lines(text@, color);
    let mut out: Vec<Line> = Vec::new();
    let mut i: usize = 0;
    while i < parts.len()
        invariant
            i <= parts@.len(),
            text::texts(parts@) == text::split_on(text@, '\n'),
            want == plain_lines(text@, color),
            style::lines_view(out@) == want.take(i as int),
        decreases parts@.len() - i,
    {
        let line = Line::styled(parts[i].as_str(), Style::new().fg(color));
        proof {
            assert(text::texts(parts@)[i as int] == parts@[i as int]@);
            style::lemma_lines_push(out@, line);
            assert(want.take(i + 1) =~= want.take(i as int).push(line@));
        }
        out.push(line);
        i = i + 1;
    }
    assert(want.take(i as int) =~= want);
    out
}

/// Appends the rows of a plain text behind a gutter.
pub fn push_wrapped_content(
    out: &mut Vec<Line>,
    text: &str,
    color: Color,
    width: usize,
    theme: &Theme,
)
    ensures
        style::lines_view(final(out)@) == style::lines_view(old(out)@) + body_rows(
            plain_lines(text@, color),
            width as int,
            theme@,
        ),
{
    let lines = plain_text(text, color);
    push_body(out, &lines, width, theme);
}

/// What an entry shows.
pub fn entry_display_text(entry: &Entry) -> (r: String)
    ensures
        r@ == display_text(entry@),
{
    if same(entry.role.as_str(), "tool") && len_bytes(entry.text.as_str())
        <= EXPANDED_RESULT_BYTES {
        tool_result_text(entry.text.as_str())
    } else {
        entry.text.clone()
    }
}

/// Kibibytes that some bytes take up.
fn kib_text(bytes: usize) -> (r: String)
    ensures
        r@ == text::decimal(kib(bytes as nat)),
{
    let whole: usize = bytes / 1024;
    let more: usize = if bytes % 1024 > 0 {
        1
    } else {
        0
    };
    count_text(whole + more)
}

/// The two ends of a text with too many lines.
fn windows(text: &str) -> (r: (String, String))
    ensures
        (r.0@, r.1@) == line_windows(text@),
{
    let parts = split_text(text, '\n');
    let ghost all = text::split_on(text@, '\n');
    let n: usize = parts.len();
    let first: usize = if n < COMPLETED_HEAD_LINES {
        n
    } else {
        COMPLETED_HEAD_LINES
    };
    let from: usize = if n < COMPLETED_TAIL_LINES {
        0
    } else {
        n - COMPLETED_TAIL_LINES
    };
    assert(all.len() == n);
    assert(all.subrange(0, first as int) =~= all.take(first as int));
    assert(all.subrange(from as int, n as int) =~= all.skip(from as int));
    let head = join_range(&parts, 0, first, "\n");
    let tail = join_range(&parts, from, n, "\n");
    let a: usize = len_bytes(head.as_str());
    let b: usize = len_bytes(tail.as_str());
    if a >= COMPLETED_RENDER_BYTES || b >= COMPLETED_RENDER_BYTES || a + b + 1
        > COMPLETED_RENDER_BYTES {
        let both = text3(head.as_str(), "\n", tail.as_str());
        excerpt_parts(both.as_str(), COMPLETED_RENDER_BYTES)
    } else {
        (head, tail)
    }
}

/// Appends the rows of the text of an oversized entry.
fn push_bounded(out: &mut Vec<Line>, text: &str, color: Color, width: usize, theme: &Theme)
    ensures
        style::lines_view(final(out)@) == style::lines_view(old(out)@) + bounded_body(
            text@,
            color,
            width as int,
            theme@,
        ),
{
    let ghost before = style::lines_view(out@);
    let total_lines: usize = logical_line_count(text);
    let lines = count_text(total_lines);
    let size = kib_text(len_bytes(text));
    let said = text3(
        text3("[display truncated: ", lines.as_str(), " lines, ").as_str(),
        size.as_str(),
        " KiB total; use /export for full output]",
    );
    let marker = marker_line(said, width, theme);
    let ghost m = marker@;
    if total_lines > COMPLETED_RENDER_LINES {
        let (head, tail) = windows(text);
        let ghost a = body_rows(plain_lines(head@, color), width as int, theme@);
        let ghost b = body_rows(plain_lines(tail@, color), width as int, theme@);
        push_wrapped_content(out, head.as_str(), color, width, theme);
        proof {
            style::lemma_lines_push(out@, marker);
        }
        out.push(marker);
        push_wrapped_content(out, tail.as_str(), color, width, theme);
        assert(style::lines_view(out@) =~= before + (a.push(m) + b));
    } else {
        proof {
            style::lemma_lines_push(out@, marker);
        }
        out.push(marker);
        let part = bounded_excerpt(text, COMPLETED_RENDER_BYTES);
        let ghost a = body_rows(plain_lines(part@, color), width as int, theme@);
        push_wrapped_content(out, part.as_str(), color, width, theme);
        assert(style::lines_view(out@) =~= before + (seq![m] + a));
    }
}

/// The rows of a finished entry. What is too long is shown in part; the entry
/// itself is left as it is.
pub fn render_entry(entry: &Entry, width: usize, theme: &Theme) -> (r: Vec<Line>)
    ensures
        style::lines_view(r@) == entry_rows(entry@, width as int, theme@),
{
    let display = entry_display_text(entry);
    if len_bytes(display.as_str()) > COMPLETED_RENDER_BYTES || logical_line_count(display.as_str())
        > COMPLETED_RENDER_LINES {
        return render_bounded_entry(entry, display.as_str(), width, theme);
    }
    let role = color_of_role(entry.role.as_str(), theme);
    let mut lines: Vec<Line> = Vec::new();
    lines.push(header_line(entry, theme));
    assert(style::lines_view(lines@) =~= seq![header_row(entry@, theme@)]);
    let content = markdown(display.as_str(), theme, role);
    push_body(&mut lines, &content, width, theme);
    let footer = footer_line(theme);
    proof {
        style::lemma_lines_push(lines@, footer);
    }
    lines.push(footer);
    lines
}

/// The rows of an entry whose text is shown in part: plain text, with a row
/// that says how much there is.
pub fn render_bounded_entry(entry: &Entry, text: &str, width: usize, theme: &Theme) -> (r: Vec<
    Line,
>)
    ensures
        style::lines_view(r@) == (seq![header_row(entry@, theme@)] + bounded_body(
            text@,
            role_color(entry@.role, theme@),
            width as int,
            theme@,
        )).push(footer_row(theme@)),
{
    let role = color_of_role(entry.role.as_str(), theme);
    let mut lines: Vec<Line> = Vec::new();
    lines.push(header_line(entry, theme));
    assert(style::lines_view(lines@) =~= seq![header_row(entry@, theme@)]);
    push_bounded(&mut lines, text, role, width, theme);
    let footer = footer_line(theme);
    proof {
        style::lemma_lines_push(lines@, footer);
    }
    lines.push(footer);
    lines
}

/// The rows of an entry that is still streamed into.
pub fn render_streaming_entry(entry: &Entry, width: usize, theme: &Theme) -> (r: Vec<Line>)
    ensures
        style::lines_view(r@) == streaming_rows(entry@, width as int, theme@),
{
    let role = color_of_role(entry.role.as_str(), theme);
    let total: usize = len_bytes(entry.text.as_str());
    let mut lines: Vec<Line> = Vec::new();
    lines.push(header_line(entry, theme));
    assert(style::lines_view(lines@) =~= seq![header_row(entry@, theme@)]);
    if total > STREAMING_RENDER_BYTES {
        let size = kib_text(total);
        let said = text3(
            "[streaming output truncated: ",
            size.as_str(),
            " KiB total, showing latest 8 KiB]",
        );
        let marker = marker_line(said, width, theme);
        proof {
            style::lemma_lines_push(lines@, marker);
            assert(style::lines_view(lines@).push(marker@) =~= seq![header_row(entry@, theme@)]
                + seq![marker@]);
        }
        lines.push(marker);
    } else {
        assert(style::lines_view(lines@) =~= seq![header_row(entry@, theme@)] + Seq::<
            LineView,
        >::empty());
    }
    let visible = last_bytes_text(entry.text.as_str(), STREAMING_RENDER_BYTES);
    push_wrapped_content(&mut lines, visible.as_str(), role, width, theme);
    let footer = footer_line(theme);
    proof {
        style::lemma_lines_push(lines@, footer);
    }
    lines.push(footer);
    lines
}

/// The rows of an entry.
pub fn render_rows(entry: &Entry, width: usize, theme: &Theme) -> (r: Vec<Line>)
    ensures
        style::lines_view(r@) == rows_of(entry@, width as int, theme@),
{
    if entry.streaming {
        render_streaming_entry(entry, width, theme)
    } else {
        render_entry(entry, width, theme)
    }
}

} // verus!
