//! Styled lines of a Markdown text: headings, inline code and fenced code with
//! the colors of its language.
use crate::model::{Theme, ThemeView};
use crate::style;
use crate::style::{color, Color, Line, LineView, Span, SpanView, Style};
use crate::text;
use crate::text::{
    chars_of, len_bytes, lines_text, skip_white, split_inclusive_text, starts_with_text, string_of,
    text2, trim_text,
};
use syntect::easy::HighlightLines;
use syntect::highlighting::{FontStyle, ThemeSet};
use syntect::parsing::SyntaxSet;
use vstd::prelude::*;
use vstd::string::*;

verus! {

/// Longest line of code, in bytes, that is colored.
pub const COLORED_BYTES: usize = 4096;

/// The colored spans of some lines of code; `None` for a line that could not
/// be colored.
pub type Painting = Vec<Option<Vec<Span>>>;

/// Mathematical value of a painting.
pub open spec fn painting_view(p: Seq<Option<Vec<Span>>>) -> Seq<Option<Seq<SpanView>>> {
    p.map_values(
        |l: Option<Vec<Span>>|
            match l {
                Some(spans) => Some(style::spans_view(spans@)),
                None => None,
            },
    )
}

/// Mathematical value of an optional painting.
pub open spec fn opt_painting(p: Option<Painting>) -> Option<Seq<Option<Seq<SpanView>>>> {
    match p {
        Some(p) => Some(painting_view(p@)),
        None => None,
    }
}

/// The spans that a highlighter makes of successive lines of code: by the
/// bundled grammar that a token names, in the colors of the bundled palette of
/// that name. `None` where there is no such grammar or no such palette.
pub uninterp spec fn highlighted(token: Seq<char>, palette: Seq<char>, lines: Seq<Seq<char>>) -> Option<Seq<Option<Seq<SpanView>>>>;

/// A painting of the lines: the spans of each line that could be colored join
/// to that line.
pub open spec fn keeps_text(p: Seq<Option<Seq<SpanView>>>, lines: Seq<Seq<char>>) -> bool {
    &&& p.len() == lines.len()
    &&& forall|k: int|
        0 <= k < lines.len() && (#[trigger] p[k]) is Some ==> style::span_text(p[k]->0) == lines[k]
}

/// Feeds lines to `syntect::easy::HighlightLines::highlight_line`, one after
/// the other, for the grammar that `SyntaxSet::find_syntax_by_token` finds and
/// the palette that `ThemeSet::load_defaults` has. Each of its tokens is a
/// span in the token's foreground, weight and slant. The result depends on the
/// arguments and the bundled data alone, and has one element for each line.
/// The tokens of a line, one after the other, make up that line.
#[verifier::external_body]
fn highlight(token: &str, palette: &str, lines: &Vec<String>) -> (r: Option<Painting>)
    ensures
        opt_painting(r) == highlighted(token@, palette@, text::texts(lines@)),
        r is Some ==> keeps_text(painting_view(r->0@), text::texts(lines@)),
{
    let syntaxes = SyntaxSet::load_defaults_newlines();
    let themes = ThemeSet::load_defaults();
    let syntax = syntaxes.find_syntax_by_token(token)?;
    let mut state = HighlightLines::new(syntax, themes.themes.get(palette)?);
    let paint = |(s, text): (syntect::highlighting::Style, &str)| {
        let bold = s.font_style.contains(FontStyle::BOLD);
        let italic = s.font_style.contains(FontStyle::ITALIC);
        let c = s.foreground;
        Span::styled(text.to_owned(), token_style(c.r, c.g, c.b, bold, italic))
    };
    let rows = lines.iter().map(|line| {
        Some(state.highlight_line(line, &syntaxes).ok()?.into_iter().map(paint).collect())
    });
    Some(rows.collect())
}

/// The style of a token of code.
fn token_style(r: u8, g: u8, b: u8, bold: bool, italic: bool) -> (s: Style)
    ensures
        s == (Style { fg: Some(Color { r, g, b }), bg: None, bold, italic }),
{
    Style { fg: Some(Color { r, g, b }), bg: None, bold, italic }
}

/// The line opens or closes a block of code.
pub open spec fn is_fence(line: Seq<char>) -> bool {
    text::begins(text::trim_start(line), "```"@)
}

/// The language that a fence names.
pub open spec fn language_of(line: Seq<char>) -> Seq<char> {
    text::trim(text::trim_start(line).skip(3))
}

/// The first fence from the `k`-th line on, or the end.
pub open spec fn block_end(lines: Seq<Seq<char>>, k: int) -> int
    decreases lines.len() - k,
{
    if 0 <= k < lines.len() && !is_fence(lines[k]) {
        block_end(lines, k + 1)
    } else {
        k
    }
}

/// The line is short enough to be colored.
pub open spec fn is_colored(line: Seq<char>) -> bool {
    text::byte_len(line) <= COLORED_BYTES
}

/// What the highlighter is fed of the lines from `k` to `end`: those that are
/// short enough, each with its newline.
pub open spec fn fed(lines: Seq<Seq<char>>, k: int, end: int) -> Seq<Seq<char>>
    decreases end - k,
{
    if k >= end {
        Seq::empty()
    } else if is_colored(lines[end - 1]) {
        fed(lines, k, end - 1).push(lines[end - 1] + "\n"@)
    } else {
        fed(lines, k, end - 1)
    }
}

/// How a block of code is colored: by the grammar of its language, or as plain
/// text where there is none. `None` leaves it without colors.
pub open spec fn block_painting(theme: ThemeView, language: Seq<char>, code: Seq<Seq<char>>) -> Option<
    Seq<Option<Seq<SpanView>>>,
> {
    if !theme.syntax_highlighting {
        None
    } else if highlighted(language, theme.syntax_theme, code) is Some {
        highlighted(language, theme.syntax_theme, code)
    } else {
        highlighted("txt"@, theme.syntax_theme, code)
    }
}

/// `s` without the newlines at its end.
pub open spec fn without_newlines(s: Seq<char>) -> Seq<char>
    decreases s.len(),
{
    if s.len() > 0 && s.last() == '\n' {
        without_newlines(s.drop_last())
    } else {
        s
    }
}

/// A row of colored spans, without the newline that they end in.
pub open spec fn colored_row(spans: Seq<SpanView>) -> LineView {
    style::plain_line(
        spans.map_values(
            |s: SpanView| SpanView { content: without_newlines(s.content), style: s.style },
        ),
    )
}

/// The row of the line at `k`, of a block that starts at `from`: colored where
/// the painting has colors for it, else in the foreground.
pub open spec fn code_row(
    lines: Seq<Seq<char>>,
    from: int,
    k: int,
    painting: Option<Seq<Option<Seq<SpanView>>>>,
    foreground: Color,
) -> LineView {
    let n = fed(lines, from, k).len() as int;
    if is_colored(lines[k]) && painting is Some && n < painting->0.len() && painting->0[n] is Some {
        colored_row(painting->0[n]->0)
    } else {
        style::styled_line(lines[k], Style::colored(foreground))
    }
}

/// The rows of the lines from `from` to `end`, all of one block of code.
pub open spec fn code_rows(
    lines: Seq<Seq<char>>,
    from: int,
    end: int,
    painting: Option<Seq<Option<Seq<SpanView>>>>,
    foreground: Color,
) -> Seq<LineView> {
    Seq::new(
        (if end > from {
            end - from
        } else {
            0
        }) as nat,
        |i: int| code_row(lines, from, from + i, painting, foreground),
    )
}

/// The pieces of a line with inline code, every second one accented.
pub open spec fn inline_spans(parts: Seq<Seq<char>>, foreground: Color, accent: Color) -> Seq<SpanView> {
    Seq::new(
        parts.len(),
        |i: int|
            SpanView {
                content: parts[i],
                style: Style::colored(
                    if i % 2 == 1 {
                        accent
                    } else {
                        foreground
                    },
                ),
            },
    )
}

/// The row of a line outside of code: a heading, a line with inline code, or
/// plain text.
pub open spec fn prose_row(line: Seq<char>, theme: ThemeView, foreground: Color) -> LineView {
    let accent = style::color_of(theme.accent);
    if text::begins(line, "#"@) {
        style::styled_line(line, Style::strong(accent))
    } else if line.contains('`') {
        style::plain_line(inline_spans(text::split_after(line, '`'), foreground, accent))
    } else {
        style::styled_line(line, Style::colored(foreground))
    }
}

/// The rows of the lines from the `k`-th on.
pub open spec fn rows_from(
    lines: Seq<Seq<char>>,
    k: int,
    theme: ThemeView,
    foreground: Color,
) -> Seq<LineView>
    decreases lines.len() - k,
    via rows_from_decreases
{
    let muted = Style::colored(style::color_of(theme.muted));
    if k < 0 || k >= lines.len() {
        Seq::empty()
    } else if is_fence(lines[k]) {
        let end = block_end(lines, k + 1);
        let painting = block_painting(theme, language_of(lines[k]), fed(lines, k + 1, end));
        let block = seq![style::styled_line(lines[k], muted)] + code_rows(
            lines,
            k + 1,
            end,
            painting,
            foreground,
        );
        if end < lines.len() {
            block + seq![style::styled_line(lines[end], muted)] + rows_from(
                lines,
                end + 1,
                theme,
                foreground,
            )
        } else {
            block
        }
    } else {
        seq![prose_row(lines[k], theme, foreground)] + rows_from(lines, k + 1, theme, foreground)
    }
}

#[via_fn]
proof fn rows_from_decreases(lines: Seq<Seq<char>>, k: int, theme: ThemeView, foreground: Color) {
    if 0 <= k < lines.len() && is_fence(lines[k]) {
        lemma_block_end(lines, k + 1);
    }
}

/// The styled lines of a Markdown text.
pub open spec fn markdown_rows(s: Seq<char>, theme: ThemeView, foreground: Color) -> Seq<LineView> {
    rows_from(text::lines_of(s), 0, theme, foreground)
}

/// The texts of some rows.
pub open spec fn row_texts(rows: Seq<LineView>) -> Seq<Seq<char>> {
    rows.map_values(|row: LineView| row.text())
}

/// A line under one style keeps its text.
pub proof fn lemma_styled_text(line: Seq<char>, style: Style)
    requires
        forall|j: int| 0 <= j < line.len() ==> #[trigger] line[j] != '\n',
    ensures
        style::styled_line(line, style).text() == line,
{
    text::lemma_split_whole(line, '\n');
    let spans = style::raw_spans(line);
    reveal_with_fuel(style::span_text, 2);
    if line.len() == 0 {
        assert(spans =~= Seq::<SpanView>::empty());
        assert(style::span_text(spans) =~= line);
    } else {
        assert(spans.len() == 1 && spans[0].content == line);
        assert(spans.drop_last() =~= Seq::<SpanView>::empty());
        assert(style::span_text(spans) =~= line);
    }
}

/// The pieces of a line with inline code join to that line.
proof fn lemma_inline_text(line: Seq<char>, foreground: Color, accent: Color)
    ensures
        line.len() > 0 ==> text::split_after(line, '`').len() > 0,
        style::span_text(inline_spans(text::split_after(line, '`'), foreground, accent)) == line,
    decreases line.len(),
{
    let parts = text::split_after(line, '`');
    let spans = inline_spans(parts, foreground, accent);
    if line.len() > 0 {
        let front = line.drop_last();
        let p = text::split_after(front, '`');
        lemma_inline_text(front, foreground, accent);
        if line.len() == 1 || line[line.len() - 2] == '`' {
            assert(spans.drop_last() =~= inline_spans(p, foreground, accent));
        } else {
            assert(spans.drop_last() =~= inline_spans(p, foreground, accent).drop_last());
        }
        assert(style::span_text(spans) =~= front.push(line.last()));
        assert(front.push(line.last()) =~= line);
    } else {
        assert(style::span_text(spans) =~= line);
    }
}

/// Spans without newlines lose nothing in a colored row.
proof fn lemma_row_whole(spans: Seq<SpanView>)
    requires
        forall|j: int|
            0 <= j < style::span_text(spans).len() ==> #[trigger] style::span_text(spans)[j]
                != '\n',
    ensures
        colored_row(spans).text() == style::span_text(spans),
    decreases spans.len(),
{
    if spans.len() > 0 {
        let front = spans.drop_last();
        let c = spans.last().content;
        let n = style::span_text(front).len() as int;
        assert forall|j: int| 0 <= j < n implies #[trigger] style::span_text(front)[j] != '\n' by {
            assert(style::span_text(spans)[j] == style::span_text(front)[j]);
        }
        if c.len() > 0 {
            assert(style::span_text(spans)[n + c.len() - 1] == c.last());
        }
        lemma_row_whole(front);
        assert(colored_row(spans).spans.drop_last() =~= colored_row(front).spans);
    }
}

/// A colored row keeps its line, and loses the newline behind it.
proof fn lemma_row_text(spans: Seq<SpanView>, line: Seq<char>)
    requires
        style::span_text(spans) == line.push('\n'),
        forall|j: int| 0 <= j < line.len() ==> #[trigger] line[j] != '\n',
    ensures
        colored_row(spans).text() == line,
    decreases spans.len(),
{
    assert(style::span_text(spans).len() > 0);
    let front = spans.drop_last();
    let c = spans.last().content;
    let before = style::span_text(front);
    let n = before.len() as int;
    assert(line.push('\n') == before + c);
    assert(colored_row(spans).spans.drop_last() =~= colored_row(front).spans);
    if c.len() == 0 {
        assert(before =~= line.push('\n'));
        lemma_row_text(front, line);
        assert(colored_row(spans).text() =~= line);
    } else {
        assert(line =~= line.push('\n').drop_last());
        assert(c.last() == line.push('\n')[line.len() as int]);
        assert forall|j: int| 0 <= j < n implies #[trigger] before[j] != '\n' by {
            assert((before + c)[j] == line[j]);
        }
        lemma_row_whole(front);
        let short = c.drop_last();
        assert(before + short =~= (before + c).drop_last());
        if short.len() > 0 {
            assert((before + short)[n + short.len() - 1] == short.last());
        }
        reveal_with_fuel(without_newlines, 2);
        assert(without_newlines(c) == short);
        assert(colored_row(spans).text() =~= line);
    }
}

/// What is fed of a block begins with what is fed of its first lines, and goes
/// on with the next of them if that is short enough.
proof fn lemma_fed(lines: Seq<Seq<char>>, from: int, k: int, end: int)
    requires
        0 <= from <= k < end <= lines.len(),
    ensures
        ({
            let n = fed(lines, from, k).len() as int;
            &&& n <= fed(lines, from, end).len()
            &&& is_colored(lines[k]) ==> n < fed(lines, from, end).len() && fed(lines, from, end)[n]
                == lines[k] + "\n"@
        }),
    decreases end - k,
{
    if k < end - 1 {
        lemma_fed(lines, from, k, end - 1);
    }
}

/// The rows of a block of code keep its text.
pub proof fn lemma_code_text(
    lines: Seq<Seq<char>>,
    from: int,
    end: int,
    painting: Option<Seq<Option<Seq<SpanView>>>>,
    foreground: Color,
)
    requires
        0 <= from <= end <= lines.len(),
        forall|i: int, j: int|
            0 <= i < lines.len() && 0 <= j < lines[i].len() ==> #[trigger] lines[i][j] != '\n',
        painting is Some ==> keeps_text(painting->0, fed(lines, from, end)),
    ensures
        row_texts(code_rows(lines, from, end, painting, foreground)) == lines.subrange(from, end),
{
    let rows = code_rows(lines, from, end, painting, foreground);
    assert forall|i: int| 0 <= i < end - from implies #[trigger] row_texts(rows)[i]
        == lines.subrange(from, end)[i] by {
        let line = lines[from + i];
        let n = fed(lines, from, from + i).len() as int;
        lemma_fed(lines, from, from + i, end);
        assert forall|j: int| 0 <= j < line.len() implies #[trigger] line[j] != '\n' by {
            assert(lines[from + i][j] != '\n');
        }
        if is_colored(line) && painting is Some && n < painting->0.len() && painting->0[n] is Some {
            reveal_strlit("\n");
            assert(line + "\n"@ =~= line.push('\n'));
            lemma_row_text(painting->0[n]->0, line);
        } else {
            lemma_styled_text(line, Style::colored(foreground));
        }
    }
    assert(row_texts(rows) =~= lines.subrange(from, end));
}

/// The row of a line outside of code keeps its text.
pub proof fn lemma_prose_text(line: Seq<char>, theme: ThemeView, foreground: Color)
    requires
        forall|j: int| 0 <= j < line.len() ==> #[trigger] line[j] != '\n',
    ensures
        prose_row(line, theme, foreground).text() == line,
{
    let accent = style::color_of(theme.accent);
    lemma_inline_text(line, foreground, accent);
    lemma_styled_text(line, Style::strong(accent));
    lemma_styled_text(line, Style::colored(foreground));
}

/// A block ends within the text, at a fence or at the end.
pub proof fn lemma_block_end(lines: Seq<Seq<char>>, k: int)
    requires
        0 <= k <= lines.len(),
    ensures
        k <= block_end(lines, k) <= lines.len(),
        block_end(lines, k) < lines.len() ==> is_fence(lines[block_end(lines, k)]),
    decreases lines.len() - k,
{
    if k < lines.len() && !is_fence(lines[k]) {
        lemma_block_end(lines, k + 1);
    }
}

/// The language that a fence names; `None` for a line that is no fence.
pub fn fence_language(line: &str) -> (r: Option<String>)
    ensures
        match r {
            Some(language) => is_fence(line@) && language@ == language_of(line@),
            None => !is_fence(line@),
        },
{
    let v = chars_of(line);
    let from: usize = skip_white(&v, 0);
    assert(v@.skip(0) =~= v@);
    let rest = string_of(&v, from, v.len());
    proof {
        assert(rest@ =~= text::trim_start(line@));
        reveal_strlit("```");
    }
    if starts_with_text(rest.as_str(), "```") {
        let tail = string_of(&v, from + 3, v.len());
        assert(tail@ =~= text::trim_start(line@).skip(3));
        Some(trim_text(tail.as_str()))
    } else {
        None
    }
}

/// How a block of code is colored.
fn paint_block(theme: &Theme, language: &str, code: &Vec<String>) -> (r: Option<Painting>)
    ensures
        opt_painting(r) == block_painting(theme@, language@, text::texts(code@)),
        r is Some ==> keeps_text(painting_view(r->0@), text::texts(code@)),
{
    if !theme.syntax_highlighting {
        return None;
    }
    let painting = highlight(language, theme.syntax_theme.as_str(), code);
    if painting.is_some() {
        painting
    } else {
        highlight("txt", theme.syntax_theme.as_str(), code)
    }
}

/// A text without the newlines at its end.
fn cut_newlines(s: &str) -> (r: String)
    ensures
        r@ == without_newlines(s@),
{
    let v = chars_of(s);
    let mut to: usize = v.len();
    assert(v@.take(to as int) =~= v@);
    while to > 0 && v[to - 1] == '\n'
        invariant
            to <= v@.len(),
            without_newlines(v@) == without_newlines(v@.take(to as int)),
        decreases to,
    {
        assert(v@.take(to as int).drop_last() =~= v@.take(to - 1));
        to = to - 1;
    }
    assert(v@.subrange(0, to as int) =~= v@.take(to as int));
    string_of(&v, 0, to)
}

/// A row of colored spans.
fn colored_line(spans: &Vec<Span>) -> (r: Line)
    ensures
        r@ == colored_row(style::spans_view(spans@)),
{
    let ghost want = colored_row(style::spans_view(spans@)).spans;
    let mut out: Vec<Span> = Vec::new();
    let mut i: usize = 0;
    while i < spans.len()
        invariant
            i <= spans@.len(),
            want == colored_row(style::spans_view(spans@)).spans,
            style::spans_view(out@) == want.take(i as int),
        decreases spans@.len() - i,
    {
        let span = Span::styled(cut_newlines(spans[i].content.as_str()), spans[i].style);
        proof {
            style::lemma_spans_push(out@, span);
            assert(want.take(i + 1) =~= want.take(i as int).push(span@));
        }
        out.push(span);
        i = i + 1;
    }
    assert(want.take(i as int) =~= want);
    Line::from_spans(out)
}

/// The rows of a block of code under the colors that it was given.
pub fn paint_rows(
    lines: &Vec<String>,
    from: usize,
    end: usize,
    painting: &Option<Painting>,
    foreground: Color,
) -> (r: Vec<Line>)
    requires
        from <= end <= lines@.len(),
    ensures
        style::lines_view(r@) == code_rows(
            text::texts(lines@),
            from as int,
            end as int,
            opt_painting(*painting),
            foreground,
        ),
{
    let ghost all = text::texts(lines@);
    let ghost p = opt_painting(*painting);
    let ghost want = code_rows(all, from as int, end as int, p, foreground);
    let mut out: Vec<Line> = Vec::new();
    let mut k: usize = from;
    let mut n: usize = 0;
    assert(style::lines_view(out@) =~= want.take(0));
    while k < end
        invariant
            from <= k <= end <= lines@.len(),
            all == text::texts(lines@),
            p == opt_painting(*painting),
            want == code_rows(all, from as int, end as int, p, foreground),
            n == fed(all, from as int, k as int).len(),
            n <= k - from,
            style::lines_view(out@) == want.take(k - from),
        decreases end - k,
    {
        assert(all[k as int] == lines@[k as int]@);
        let short = len_bytes(lines[k].as_str()) <= COLORED_BYTES;
        let mut row = Line::styled(lines[k].as_str(), Style::new().fg(foreground));
        if short {
            if let Some(painting) = painting {
                if n < painting.len() {
                    assert(p->0[n as int] == painting_view(painting@)[n as int]);
                    if let Some(spans) = &painting[n] {
                        row = colored_line(spans);
                    }
                }
            }
        }
        proof {
            style::lemma_lines_push(out@, row);
            assert(want.take(k + 1 - from) =~= want.take(k - from).push(row@));
        }
        out.push(row);
        if short {
            n = n + 1;
        }
        k = k + 1;
    }
    assert(want.take(k - from) =~= want);
    out
}

/// The row of a line outside of code.
fn prose_line(line: &str, theme: &Theme, foreground: Color) -> (r: Line)
    ensures
        r@ == prose_row(line@, theme@, foreground),
{
    let accent = color(theme.accent.as_str());
    let plain = Style::new().fg(foreground);
    if starts_with_text(line, "#") {
        return Line::styled(line, Style::new().fg(accent).bold());
    }
    let v = chars_of(line);
    let mut ticks = false;
    let mut i: usize = 0;
    while i < v.len()
        invariant
            i <= v@.len(),
            ticks == exists|j: int| 0 <= j < i && #[trigger] v@[j] == '`',
        decreases v@.len() - i,
    {
        if v[i] == '`' {
            ticks = true;
        }
        i = i + 1;
    }
    if !ticks {
        return Line::styled(line, plain);
    }
    let parts = split_inclusive_text(line, '`');
    let ghost pieces = text::texts(parts@);
    let ghost want = inline_spans(pieces, foreground, accent);
    let mut spans: Vec<Span> = Vec::new();
    let mut j: usize = 0;
    while j < parts.len()
        invariant
            j <= parts@.len(),
            pieces == text::texts(parts@),
            want == inline_spans(pieces, foreground, accent),
            plain == Style::colored(foreground),
            style::spans_view(spans@) == want.take(j as int),
        decreases parts@.len() - j,
    {
        let style = if j % 2 == 1 {
            plain.fg(accent)
        } else {
            plain
        };
        let span = Span::styled(parts[j].clone(), style);
        proof {
            style::lemma_spans_push(spans@, span);
            assert(pieces[j as int] == parts@[j as int]@);
            assert(want.take(j + 1) =~= want.take(j as int).push(span@));
        }
        spans.push(span);
        j = j + 1;
    }
    assert(want.take(j as int) =~= want);
    Line::from_spans(spans)
}

/// The rows of the block of code that opens at `k`, its fences included, and
/// the line behind it.
fn code_block(
    lines: &Vec<String>,
    k: usize,
    language: &str,
    theme: &Theme,
    foreground: Color,
) -> (r: (Vec<Line>, usize))
    requires
        k < lines@.len(),
        is_fence(lines@[k as int]@),
        language@ == language_of(lines@[k as int]@),
        forall|i: int, j: int|
            0 <= i < lines@.len() && 0 <= j < text::texts(lines@)[i].len() ==> #[trigger] text::texts(
                lines@,
            )[i][j] != '\n',
    ensures
        k < r.1 <= lines@.len(),
        rows_from(text::texts(lines@), k as int, theme@, foreground) == style::lines_view(r.0@)
            + rows_from(text::texts(lines@), r.1 as int, theme@, foreground),
        row_texts(style::lines_view(r.0@)) == text::texts(lines@).subrange(k as int, r.1 as int),
{
    let ghost all = text::texts(lines@);
    let muted = Style::new().fg(color(theme.muted.as_str()));
    proof {
        lemma_block_end(all, k + 1);
        reveal_strlit("\n");
        assert(all[k as int] == lines@[k as int]@);
    }
    let count: usize = lines.len();
    let from: usize = k + 1;
    let mut end: usize = from;
    let mut code: Vec<String> = Vec::new();
    assert(text::texts(code@) =~= fed(all, from as int, end as int));
    while end < count && fence_language(lines[end].as_str()).is_none()
        invariant
            from <= end <= count,
            count == lines@.len(),
            all == text::texts(lines@),
            block_end(all, from as int) == block_end(all, end as int),
            text::texts(code@) == fed(all, from as int, end as int),
        decreases lines@.len() - end,
    {
        assert(all[end as int] == lines@[end as int]@);
        if len_bytes(lines[end].as_str()) <= COLORED_BYTES {
            let line = text2(lines[end].as_str(), "\n");
            proof {
                text::lemma_texts_push(code@, line);
            }
            code.push(line);
        }
        end = end + 1;
    }
    if end < count {
        assert(all[end as int] == lines@[end as int]@);
    }
    let painting = paint_block(theme, language, &code);
    let mut rows = paint_rows(lines, from, end, &painting, foreground);
    let ghost body = style::lines_view(rows@);
    let first = Line::styled(lines[k].as_str(), muted);
    let ghost head = first@;
    let mut out: Vec<Line> = Vec::new();
    out.push(first);
    out.append(&mut rows);
    proof {
        assert(style::lines_view(out@) =~= seq![head] + body);
        lemma_styled_text(all[k as int], muted);
        lemma_code_text(all, from as int, end as int, opt_painting(painting), foreground);
        assert(row_texts(seq![head] + body) =~= seq![head.text()] + row_texts(body));
        assert(all.subrange(k as int, end as int) =~= seq![all[k as int]] + all.subrange(
            from as int,
            end as int,
        ));
    }
    if end < count {
        let last = Line::styled(lines[end].as_str(), muted);
        proof {
            style::lemma_lines_push(out@, last);
            lemma_styled_text(all[end as int], muted);
            assert(row_texts((seq![head] + body).push(last@)) =~= row_texts(
                seq![head] + body,
            ).push(last@.text()));
            assert(all.subrange(k as int, end + 1) =~= all.subrange(k as int, end as int).push(
                all[end as int],
            ));
            assert((seq![head] + body).push(last@) =~= seq![head] + body + seq![last@]);
        }
        out.push(last);
        (out, end + 1)
    } else {
        proof {
            let rest = rows_from(all, end as int, theme@, foreground);
            assert(rest =~= Seq::<LineView>::empty());
            assert(seq![head] + body + rest =~= seq![head] + body);
        }
        (out, end)
    }
}

/// The styled lines of a Markdown text. Fenced code has the colors of its
/// language, if there is a grammar for it and its lines are not too long. Each
/// line of the text is one row, and no character of it is lost.
pub fn markdown(text: &str, theme: &Theme, foreground: Color) -> (r: Vec<Line>)
    ensures
        style::lines_view(r@) == markdown_rows(text@, theme@, foreground),
        row_texts(style::lines_view(r@)) == text::lines_of(text@),
{
    let lines = lines_text(text);
    let ghost all = text::texts(lines@);
    proof {
        text::lemma_lines_free(text@);
    }
    let ghost want = rows_from(all, 0, theme@, foreground);
    let mut out: Vec<Line> = Vec::new();
    let mut k: usize = 0;
    assert(style::lines_view(out@) + want =~= want);
    assert(row_texts(style::lines_view(out@)) =~= all.take(0));
    while k < lines.len()
        invariant
            k <= lines@.len(),
            all == text::texts(lines@),
            forall|i: int, j: int|
                0 <= i < lines@.len() && 0 <= j < all[i].len() ==> #[trigger] all[i][j] != '\n',
            style::lines_view(out@) + rows_from(all, k as int, theme@, foreground) == want,
            row_texts(style::lines_view(out@)) == all.take(k as int),
        decreases lines@.len() - k,
    {
        assert(all[k as int] == lines@[k as int]@);
        let ghost before = style::lines_view(out@);
        match fence_language(lines[k].as_str()) {
            None => {
                let row = prose_line(lines[k].as_str(), theme, foreground);
                proof {
                    style::lemma_lines_push(out@, row);
                    assert(before.push(row@) + rows_from(all, k + 1, theme@, foreground)
                        =~= before + rows_from(all, k as int, theme@, foreground));
                    lemma_prose_text(all[k as int], theme@, foreground);
                    assert(row_texts(before.push(row@)) =~= row_texts(before).push(row@.text()));
                    assert(all.take(k + 1) =~= all.take(k as int).push(all[k as int]));
                }
                out.push(row);
                k = k + 1;
            },
            Some(language) => {
                let (mut rows, next) = code_block(
                    &lines,
                    k,
                    language.as_str(),
                    theme,
                    foreground,
                );
                let ghost block = style::lines_view(rows@);
                out.append(&mut rows);
                proof {
                    assert(style::lines_view(out@) =~= before + block);
                    assert(before + block + rows_from(all, next as int, theme@, foreground)
                        =~= before + rows_from(all, k as int, theme@, foreground));
                    assert(row_texts(before + block) =~= row_texts(before) + row_texts(block));
                    assert(all.take(next as int) =~= all.take(k as int) + all.subrange(
                        k as int,
                        next as int,
                    ));
                }
                k = next;
            },
        }
    }
    assert(style::lines_view(out@) + rows_from(all, k as int, theme@, foreground)
        =~= style::lines_view(out@));
    assert(all.take(k as int) =~= all);
    out
}

} // verus!
