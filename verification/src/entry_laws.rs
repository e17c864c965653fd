//! What holds of the entries of the transcript as they are shown: every entry
//! says whose it is, nothing of its text is lost, and what is left out is said.
use crate::entries;
use crate::markdown;
use crate::model::ThemeView;
use crate::result_laws;
use crate::spine::EntryView;
use crate::style;
use crate::style::{Color, LineView, SpanView, Style};
use crate::text;
use crate::wrap;
use crate::wrap::Glyph;
use vstd::prelude::*;

verus! {

// ---------------------------------------------------------------------------
// Wrapping
// ---------------------------------------------------------------------------

proof fn lemma_last_gap(g: Seq<Glyph>, a: int, e: int)
    requires
        0 <= a <= e <= g.len(),
    ensures
        ({
            let b = wrap::last_gap(g, a, e);
            &&& a <= b <= e
            &&& b > a ==> text::white(g[b - 1].0)
            &&& forall|j: int| b <= j < e ==> !text::white((#[trigger] g[j]).0)
        }),
    decreases e - a,
{
    if e > a && !text::white(g[e - 1].0) {
        lemma_last_gap(g, a, e - 1);
    }
}

/// A row is broken at white space. A word is cut only where it is longer than
/// a row.
pub proof fn law_words_are_kept_whole(g: Seq<Glyph>, a: int, limit: int)
    requires
        0 <= a < g.len(),
        limit >= 1,
    ensures
        ({
            let b = wrap::break_at(g, a, limit);
            &&& a < b <= g.len()
            &&& b == g.len() || text::white(g[b].0) || text::white(g[b - 1].0) || forall|j: int|
                a <= j < b ==> !text::white((#[trigger] g[j]).0)
        }),
{
    let e = wrap::fit_from(g, a, a + 1, limit);
    wrap::lemma_break_bounds(g, a, limit);
    wrap::lemma_fit_bounds(g, a, a + 1, limit);
    lemma_last_gap(g, a, e);
}

/// A row is as full as it can be: the character behind what fits does not.
pub proof fn law_rows_are_full(g: Seq<Glyph>, a: int, e: int, limit: int)
    requires
        0 <= a < e <= g.len(),
    ensures
        ({
            let f = wrap::fit_from(g, a, e, limit);
            &&& e <= f <= g.len()
            &&& f < g.len() ==> wrap::extent(g, a, f + 1) > limit
        }),
    decreases g.len() - e,
{
    if e < g.len() && wrap::extent(g, a, e + 1) <= limit {
        law_rows_are_full(g, a, e + 1, limit);
    }
}

/// What has room stays as it is: a row that fits, and a text that fits.
pub proof fn law_what_fits_stays(spans: Seq<SpanView>, s: Seq<char>, width: int)
    requires
        width >= 1,
    ensures
        style::spans_width(spans) <= width ==> wrap::one_row(spans, width).spans == spans,
        crate::width::text_width(s) <= width ==> wrap::tail_of(s, width) == s,
{
}

proof fn lemma_rows_text_add(a: Seq<LineView>, b: Seq<LineView>)
    ensures
        wrap::rows_text(a + b) == wrap::rows_text(a) + wrap::rows_text(b),
    decreases b.len(),
{
    if b.len() == 0 {
        assert(a + b =~= a);
        assert(wrap::rows_text(a) + wrap::rows_text(b) =~= wrap::rows_text(a));
    } else {
        let c = b.drop_last();
        lemma_rows_text_add(a, c);
        assert(a + b =~= (a + c).push(b.last()));
        assert(b =~= c.push(b.last()));
        wrap::lemma_rows_text_push(a + c, b.last());
        wrap::lemma_rows_text_push(c, b.last());
        assert(wrap::rows_text(a + b) =~= wrap::rows_text(a) + wrap::rows_text(b));
    }
}

/// The characters of several logical lines, one after the other.
spec fn groups_text(groups: Seq<Seq<Glyph>>) -> Seq<char>
    decreases groups.len(),
{
    if groups.len() == 0 {
        Seq::empty()
    } else {
        groups_text(groups.drop_last()) + wrap::glyph_text(groups.last())
    }
}

proof fn lemma_group_rows_ink(groups: Seq<Seq<Glyph>>, limit: int)
    requires
        limit >= 1,
    ensures
        wrap::ink(wrap::rows_text(wrap::group_rows(groups, limit))) == wrap::ink(
            groups_text(groups),
        ),
    decreases groups.len(),
{
    if groups.len() > 0 {
        let front = groups.drop_last();
        lemma_group_rows_ink(front, limit);
        let a = wrap::group_rows(front, limit);
        let b = wrap::word_rows(groups.last(), limit);
        lemma_rows_text_add(a, b);
        wrap::lemma_ink_add(wrap::rows_text(a), wrap::rows_text(b));
        wrap::law_word_rows_keep_ink(groups.last(), limit);
        wrap::lemma_ink_add(groups_text(front), wrap::glyph_text(groups.last()));
    }
}

proof fn lemma_groups_ink(g: Seq<Glyph>)
    ensures
        wrap::glyph_groups(g).len() > 0,
        wrap::ink(groups_text(wrap::glyph_groups(g))) == wrap::ink(wrap::glyph_text(g)),
    decreases g.len(),
{
    let groups = wrap::glyph_groups(g);
    reveal_with_fuel(groups_text, 2);
    if g.len() == 0 {
        assert(groups.drop_last() =~= Seq::<Seq<Glyph>>::empty());
        assert(groups_text(groups) =~= wrap::glyph_text(g));
    } else {
        let front = g.drop_last();
        let x = g.last().0;
        lemma_groups_ink(front);
        let p = wrap::glyph_groups(front);
        assert(wrap::glyph_text(g) =~= wrap::glyph_text(front) + seq![x]);
        wrap::lemma_ink_add(wrap::glyph_text(front), seq![x]);
        if x == '\n' {
            assert(groups.drop_last() =~= p);
            assert(groups_text(groups) =~= groups_text(p));
            wrap::lemma_ink_white(seq![x]);
            assert(wrap::ink(wrap::glyph_text(front)) + Seq::<char>::empty() =~= wrap::ink(
                wrap::glyph_text(front),
            ));
        } else {
            assert(groups.drop_last() =~= p.drop_last());
            assert(wrap::glyph_text(p.last().push(g.last())) =~= wrap::glyph_text(p.last()).push(x));
            assert(groups_text(groups) =~= groups_text(p) + seq![x]);
            wrap::lemma_ink_add(groups_text(p), seq![x]);
        }
    }
}

proof fn lemma_shown_ink(s: Seq<char>, st: Style)
    ensures
        wrap::ink(wrap::glyph_text(wrap::shown_glyphs(s, st))) == wrap::ink(wrap::shown_text(s)),
    decreases s.len(),
{
    let g = wrap::shown_glyphs(s, st);
    if s.len() == 0 {
        assert(wrap::glyph_text(g) =~= Seq::<char>::empty());
    } else {
        let front = s.drop_last();
        let c = s.last();
        lemma_shown_ink(front, st);
        let h = wrap::shown_glyphs(front, st);
        assert(text::hostile('\n') && text::hostile('\t'));
        let shown = if c == '\t' {
            ' '
        } else {
            c
        };
        assert(wrap::glyph_text(h.push((shown, st))) =~= wrap::glyph_text(h) + seq![shown]);
        wrap::lemma_ink_add(wrap::glyph_text(h), seq![shown]);
        wrap::lemma_ink_add(wrap::shown_text(front), seq![shown]);
        assert(wrap::shown_text(front).push(shown) =~= wrap::shown_text(front) + seq![shown]);
        if c == '\n' {
            wrap::lemma_ink_white(seq![c]);
            assert(wrap::ink(wrap::glyph_text(h)) + Seq::<char>::empty() =~= wrap::ink(
                wrap::glyph_text(h),
            ));
        }
    }
}

proof fn lemma_line_ink(spans: Seq<SpanView>, base: Style)
    ensures
        wrap::ink(wrap::glyph_text(wrap::line_glyphs(spans, base))) == wrap::ink(
            wrap::shown_spans(spans),
        ),
    decreases spans.len(),
{
    if spans.len() == 0 {
        assert(wrap::glyph_text(wrap::line_glyphs(spans, base)) =~= Seq::<char>::empty());
    } else {
        let front = spans.drop_last();
        let last = spans.last();
        let st = base.patched(last.style);
        lemma_line_ink(front, base);
        lemma_shown_ink(last.content, st);
        let a = wrap::line_glyphs(front, base);
        let b = wrap::shown_glyphs(last.content, st);
        assert(wrap::glyph_text(a + b) =~= wrap::glyph_text(a) + wrap::glyph_text(b));
        wrap::lemma_ink_add(wrap::glyph_text(a), wrap::glyph_text(b));
        wrap::lemma_ink_add(wrap::shown_spans(front), wrap::shown_text(last.content));
    }
}

/// What several lines show, one after the other.
pub open spec fn lines_shown(lines: Seq<LineView>) -> Seq<char>
    decreases lines.len(),
{
    if lines.len() == 0 {
        Seq::empty()
    } else {
        lines_shown(lines.drop_last()) + wrap::shown_spans(lines.last().spans)
    }
}

/// Lines that are wrapped at words keep all of their text but white space, in
/// order.
pub proof fn law_wrapping_keeps_the_text(lines: Seq<LineView>, limit: int)
    requires
        limit >= 1,
    ensures
        wrap::ink(wrap::rows_text(wrap::word_wrapped(lines, limit))) == wrap::ink(
            lines_shown(lines),
        ),
    decreases lines.len(),
{
    if lines.len() > 0 {
        let front = lines.drop_last();
        let last = lines.last();
        law_wrapping_keeps_the_text(front, limit);
        let g = wrap::line_glyphs(last.spans, last.style);
        let groups = wrap::glyph_groups(g);
        lemma_group_rows_ink(groups, limit);
        lemma_groups_ink(g);
        lemma_line_ink(last.spans, last.style);
        let a = wrap::word_wrapped(front, limit);
        let b = wrap::word_wrapped_line(last, limit);
        lemma_rows_text_add(a, b);
        wrap::lemma_ink_add(wrap::rows_text(a), wrap::rows_text(b));
        wrap::lemma_ink_add(lines_shown(front), wrap::shown_spans(last.spans));
    }
}

// ---------------------------------------------------------------------------
// Entries
// ---------------------------------------------------------------------------

/// Rows without the first span of each, which is the gutter.
pub open spec fn without_gutter(rows: Seq<LineView>) -> Seq<LineView> {
    rows.map_values(|row: LineView| style::plain_line(row.spans.skip(1)))
}

/// The rows between the first and the last one.
pub open spec fn between(rows: Seq<LineView>) -> Seq<LineView> {
    rows.subrange(1, rows.len() - 1)
}

proof fn lemma_ungutter(gutter: SpanView, rows: Seq<LineView>)
    ensures
        wrap::rows_text(without_gutter(entries::behind(gutter, rows))) == wrap::rows_text(rows),
    decreases rows.len(),
{
    let all = without_gutter(entries::behind(gutter, rows));
    if rows.len() == 0 {
        assert(all =~= rows);
    } else {
        let front = rows.drop_last();
        lemma_ungutter(gutter, front);
        let kept = without_gutter(entries::behind(gutter, front));
        assert(all.drop_last() =~= kept);
        assert((seq![gutter] + rows.last().spans).skip(1) =~= rows.last().spans);
        assert(all.last().text() == rows.last().text());
        assert(all =~= kept.push(all.last()));
        assert(rows =~= front.push(rows.last()));
        wrap::lemma_rows_text_push(kept, all.last());
        wrap::lemma_rows_text_push(front, rows.last());
    }
}

/// The text of lines behind a gutter is all there.
proof fn lemma_body_ink(lines: Seq<LineView>, width: int, theme: ThemeView)
    ensures
        wrap::ink(
            wrap::rows_text(without_gutter(entries::body_rows(lines, width, theme))),
        ) == wrap::ink(lines_shown(lines)),
{
    let limit = entries::text_cells(width);
    lemma_ungutter(entries::gutter(theme), wrap::word_wrapped(lines, limit));
    law_wrapping_keeps_the_text(lines, limit);
}

proof fn lemma_shown_add(a: Seq<char>, b: Seq<char>)
    ensures
        wrap::shown_text(a + b) == wrap::shown_text(a) + wrap::shown_text(b),
    decreases b.len(),
{
    if b.len() == 0 {
        assert(a + b =~= a);
        assert(wrap::shown_text(a) + wrap::shown_text(b) =~= wrap::shown_text(a));
    } else {
        assert((a + b).drop_last() =~= a + b.drop_last());
        lemma_shown_add(a, b.drop_last());
        assert(wrap::shown_text(a + b) =~= wrap::shown_text(a) + wrap::shown_text(b));
    }
}

proof fn lemma_shown_of_text(spans: Seq<SpanView>)
    ensures
        wrap::shown_spans(spans) == wrap::shown_text(style::span_text(spans)),
    decreases spans.len(),
{
    if spans.len() > 0 {
        lemma_shown_of_text(spans.drop_last());
        lemma_shown_add(style::span_text(spans.drop_last()), spans.last().content);
    }
}

/// What the lines of a text show together is what the text shows.
proof fn lemma_lines_of_text(rows: Seq<LineView>, lines: Seq<Seq<char>>)
    requires
        rows.len() == lines.len(),
        forall|i: int| 0 <= i < rows.len() ==> (#[trigger] rows[i]).text() == lines[i],
    ensures
        lines_shown(rows) == wrap::shown_text(text::joined(lines, seq!['\n'])),
    decreases rows.len(),
{
    let sep = seq!['\n'];
    assert(text::hostile('\n'));
    if rows.len() > 0 {
        let front = rows.drop_last();
        let before = lines.drop_last();
        assert forall|i: int| 0 <= i < front.len() implies (#[trigger] front[i]).text() == before[i] by {
            assert(front[i] == rows[i]);
        }
        lemma_lines_of_text(front, before);
        lemma_shown_of_text(rows.last().spans);
        assert(rows[rows.len() - 1].text() == lines.last());
        if lines.len() == 1 {
            assert(lines =~= seq![lines.last()]);
            assert(front.len() == 0 && lines_shown(front) =~= Seq::<char>::empty());
            assert(lines_shown(rows) =~= wrap::shown_text(lines.last()));
        } else {
            let j = text::joined(before, sep);
            lemma_shown_add(j + sep, lines.last());
            lemma_shown_add(j, sep);
            assert(sep.drop_last() =~= Seq::<char>::empty());
            reveal_with_fuel(wrap::shown_text, 2);
            assert(wrap::shown_text(sep) =~= Seq::<char>::empty());
            assert(wrap::shown_text(j) + Seq::<char>::empty() =~= wrap::shown_text(j));
        }
    }
}

proof fn lemma_plain_lines(s: Seq<char>, c: Color)
    ensures
        lines_shown(entries::plain_lines(s, c)) == wrap::shown_text(s),
{
    let lines = text::split_on(s, '\n');
    let rows = entries::plain_lines(s, c);
    text::lemma_split_free(s, '\n');
    crate::base_laws::law_pieces_join_to_the_text(s, '\n');
    assert forall|i: int| 0 <= i < rows.len() implies (#[trigger] rows[i]).text() == lines[i] by {
        assert forall|j: int| 0 <= j < lines[i].len() implies #[trigger] lines[i][j] != '\n' by {}
        markdown::lemma_styled_text(lines[i], Style::colored(c));
    }
    lemma_lines_of_text(rows, lines);
}

/// Every entry stands between a row that says whose it is and a row that closes
/// it, and every row between them stands behind the gutter.
pub proof fn law_entries_are_framed(e: EntryView, width: int, theme: ThemeView)
    requires
        !e.streaming ==> !entries::is_oversized(entries::display_text(e)),
        e.streaming ==> text::byte_len(e.text) <= entries::STREAMING_RENDER_BYTES,
    ensures
        ({
            let rows = entries::rows_of(e, width, theme);
            &&& rows.len() >= 2
            &&& rows[0] == entries::header_row(e, theme)
            &&& rows.last() == entries::footer_row(theme)
            &&& forall|i: int|
                1 <= i < rows.len() - 1 ==> (#[trigger] rows[i]).spans.len() > 0 && rows[i].spans[0]
                    == entries::gutter(theme)
        }),
{
    let rows = entries::rows_of(e, width, theme);
    assert forall|i: int| 1 <= i < rows.len() - 1 implies (#[trigger] rows[i]).spans.len() > 0
        && rows[i].spans[0] == entries::gutter(theme) by {
        if e.streaming {
            let lines = entries::plain_lines(
                text::last_bytes(e.text, entries::STREAMING_RENDER_BYTES as int),
                entries::role_color(e.role, theme),
            );
            let body = entries::body_rows(lines, width, theme);
            assert(rows[i] == body[i - 1]);
        } else {
            let s = entries::display_text(e);
            let c = entries::role_color(e.role, theme);
            let body = entries::body_rows(markdown::markdown_rows(s, theme, c), width, theme);
            assert(rows[i] == body[i - 1]);
        }
    }
}

/// The row above an entry names its role, and its context where that is not the
/// main one, in the color of the role.
pub proof fn law_entries_say_whose_they_are(e: EntryView, theme: ThemeView)
    requires
        forall|i: int| 0 <= i < e.role.len() ==> #[trigger] e.role[i] != '\n',
        forall|i: int| 0 <= i < e.context.len() ==> #[trigger] e.context[i] != '\n',
    ensures
        result_laws::shown_in(e.role, entries::header_row(e, theme).text()),
        e.context != "main"@ ==> result_laws::shown_in(
            e.role + " | "@ + e.context,
            entries::header_row(e, theme).text(),
        ),
        e.context == "main"@ && theme.ascii ==> entries::header_row(e, theme).text() == "+ "@ + e.role
            + " +"@,
        e.context == "main"@ && !theme.ascii ==> entries::header_row(e, theme).text() == "┌ "@ + e.role
            + " ┐"@,
        entries::header_row(e, theme).style.bold,
        entries::header_row(e, theme).style.fg == Some(
            style::color_of(
                if e.role == "user"@ {
                    theme.user
                } else if e.role == "assistant"@ {
                    theme.assistant
                } else if e.role == "tool"@ {
                    theme.tool
                } else if e.role == "error"@ {
                    theme.error
                } else {
                    theme.muted
                },
            ),
        ),
{
    reveal_strlit("┌ ");
    reveal_strlit(" ┐");
    reveal_strlit("+ ");
    reveal_strlit(" +");
    reveal_strlit(" | ");
    let label = entries::label_of(e.role, e.context);
    let front = if theme.ascii {
        "+ "@
    } else {
        "┌ "@
    };
    let behind = if theme.ascii {
        " +"@
    } else {
        " ┐"@
    };
    let whole = front + label + behind;
    assert forall|i: int| 0 <= i < whole.len() implies #[trigger] whole[i] != '\n' by {
        let k = i - front.len();
        if 0 <= k < label.len() {
            assert(whole[i] == label[k]);
            if k < e.role.len() {
                assert(label[k] == e.role[k]);
            } else if k >= e.role.len() + 3 {
                assert(label[k] == e.context[k - e.role.len() - 3]);
            } else {
                assert(label[k] == " | "@[k - e.role.len()]);
            }
        } else if k < 0 {
            assert(whole[i] == front[i]);
        } else {
            assert(whole[i] == behind[k - label.len()]);
        }
    }
    markdown::lemma_styled_text(whole, Style::strong(entries::role_color(e.role, theme)));
    let n = front.len() as int;
    assert(whole.subrange(n, n + e.role.len()) =~= e.role);
    if e.context != "main"@ {
        assert(whole.subrange(n, n + label.len()) =~= label);
    }
}

/// What is streamed is shown, all of it as long as it is short: nothing but
/// white space and what is unsafe in a terminal is left out.
pub proof fn law_streamed_text_is_shown(e: EntryView, width: int, theme: ThemeView)
    requires
        e.streaming,
        text::byte_len(e.text) <= entries::STREAMING_RENDER_BYTES,
    ensures
        wrap::ink(
            wrap::rows_text(without_gutter(between(entries::rows_of(e, width, theme)))),
        ) == wrap::ink(wrap::shown_text(e.text)),
{
    let c = entries::role_color(e.role, theme);
    let s = text::last_bytes(e.text, entries::STREAMING_RENDER_BYTES as int);
    assert(text::offset(e.text, 0) >= 0);
    assert(s =~= e.text) by {
        assert(text::char_from(
            e.text,
            text::byte_len(e.text) - entries::STREAMING_RENDER_BYTES,
            0,
        ) == 0);
        assert(e.text.skip(0) =~= e.text);
    }
    let lines = entries::plain_lines(s, c);
    let body = entries::body_rows(lines, width, theme);
    assert(between(entries::rows_of(e, width, theme)) =~= body);
    lemma_body_ink(lines, width, theme);
    lemma_plain_lines(s, c);
}

/// What is streamed beyond that is shown from its end back, under a row that
/// says how much there is.
pub proof fn law_long_streams_show_their_end(e: EntryView, width: int, theme: ThemeView)
    requires
        e.streaming,
        text::byte_len(e.text) > entries::STREAMING_RENDER_BYTES,
    ensures
        ({
            let rows = entries::rows_of(e, width, theme);
            let s = text::last_bytes(e.text, entries::STREAMING_RENDER_BYTES as int);
            let n = (text::byte_len(e.text) + 1023) / 1024;
            &&& rows.len() >= 3
            &&& rows[1] == entries::marker_row(
                "[streaming output truncated: "@ + text::decimal(n as nat)
                    + " KiB total, showing latest 8 KiB]"@,
                width,
                theme,
            )
            &&& wrap::ink(
                wrap::rows_text(without_gutter(rows.subrange(2, rows.len() - 1))),
            ) == wrap::ink(wrap::shown_text(s))
            &&& s.len() <= e.text.len() && s == e.text.skip(e.text.len() - s.len())
        }),
{
    let c = entries::role_color(e.role, theme);
    let s = text::last_bytes(e.text, entries::STREAMING_RENDER_BYTES as int);
    let lines = entries::plain_lines(s, c);
    let body = entries::body_rows(lines, width, theme);
    let rows = entries::rows_of(e, width, theme);
    assert(rows.subrange(2, rows.len() - 1) =~= body);
    lemma_body_ink(lines, width, theme);
    lemma_plain_lines(s, c);
    crate::text_laws::law_last_bytes_fit(e.text, entries::STREAMING_RENDER_BYTES as int);
    lemma_char_from(e.text, text::byte_len(e.text) - entries::STREAMING_RENDER_BYTES, 0);
}

proof fn lemma_char_from(s: Seq<char>, b: int, k: int)
    requires
        0 <= k <= s.len(),
    ensures
        k <= text::char_from(s, b, k) <= s.len(),
    decreases s.len() - k,
{
    if k < s.len() && text::offset(s, k) < b {
        lemma_char_from(s, b, k + 1);
    }
}

proof fn lemma_rows_from_text(lines: Seq<Seq<char>>, k: int, theme: ThemeView, c: Color)
    requires
        !theme.syntax_highlighting,
        0 <= k <= lines.len(),
        forall|i: int, j: int|
            0 <= i < lines.len() && 0 <= j < lines[i].len() ==> #[trigger] lines[i][j] != '\n',
    ensures
        markdown::row_texts(markdown::rows_from(lines, k, theme, c)) == lines.skip(k),
    decreases lines.len() - k,
{
    let rows = markdown::rows_from(lines, k, theme, c);
    let muted = Style::colored(style::color_of(theme.muted));
    if k >= lines.len() {
        assert(markdown::row_texts(rows) =~= lines.skip(k));
    } else if markdown::is_fence(lines[k]) {
        markdown::lemma_block_end(lines, k + 1);
        let end = markdown::block_end(lines, k + 1);
        let code = markdown::code_rows(lines, k + 1, end, None, c);
        markdown::lemma_code_text(lines, k + 1, end, None, c);
        assert forall|j: int| 0 <= j < lines[k].len() implies #[trigger] lines[k][j] != '\n' by {}
        markdown::lemma_styled_text(lines[k], muted);
        let first = style::styled_line(lines[k], muted);
        let block = seq![first] + code;
        assert(markdown::row_texts(block) =~= seq![lines[k]] + markdown::row_texts(code));
        if end < lines.len() {
            assert forall|j: int| 0 <= j < lines[end].len() implies #[trigger] lines[end][j] != '\n' by {}
            markdown::lemma_styled_text(lines[end], muted);
            lemma_rows_from_text(lines, end + 1, theme, c);
            let last = style::styled_line(lines[end], muted);
            let rest = markdown::rows_from(lines, end + 1, theme, c);
            assert(rows == block + seq![last] + rest);
            assert(markdown::row_texts(rows) =~= markdown::row_texts(block) + seq![lines[end]]
                + markdown::row_texts(rest));
            assert(lines.skip(k) =~= seq![lines[k]] + lines.subrange(k + 1, end) + seq![lines[end]]
                + lines.skip(end + 1));
        } else {
            assert(rows == block);
            assert(lines.skip(k) =~= seq![lines[k]] + lines.subrange(k + 1, end));
        }
    } else {
        assert forall|j: int| 0 <= j < lines[k].len() implies #[trigger] lines[k][j] != '\n' by {}
        markdown::lemma_prose_text(lines[k], theme, c);
        lemma_rows_from_text(lines, k + 1, theme, c);
        let first = markdown::prose_row(lines[k], theme, c);
        let rest = markdown::rows_from(lines, k + 1, theme, c);
        assert(markdown::row_texts(rows) =~= seq![lines[k]] + markdown::row_texts(rest));
        assert(lines.skip(k) =~= seq![lines[k]] + lines.skip(k + 1));
    }
}

/// A finished entry shows its text line by line, all of it where it is not too
/// long: nothing but white space and what is unsafe in a terminal is left out.
/// Colors of code aside, which keep its text as well.
pub proof fn law_entry_text_is_shown(e: EntryView, width: int, theme: ThemeView)
    requires
        !e.streaming,
        !theme.syntax_highlighting,
        !entries::is_oversized(entries::display_text(e)),
    ensures
        wrap::ink(
            wrap::rows_text(without_gutter(between(entries::rows_of(e, width, theme)))),
        ) == wrap::ink(
            wrap::shown_text(text::joined(text::lines_of(entries::display_text(e)), seq!['\n'])),
        ),
{
    let s = entries::display_text(e);
    let c = entries::role_color(e.role, theme);
    let lines = text::lines_of(s);
    let rows = markdown::markdown_rows(s, theme, c);
    text::lemma_lines_free(s);
    lemma_rows_from_text(lines, 0, theme, c);
    assert(lines.skip(0) =~= lines);
    let body = entries::body_rows(rows, width, theme);
    assert(between(entries::rows_of(e, width, theme)) =~= body);
    lemma_body_ink(rows, width, theme);
    assert forall|i: int| 0 <= i < rows.len() implies (#[trigger] rows[i]).text() == lines[i] by {
        assert(markdown::row_texts(rows)[i] == rows[i].text());
    }
    lemma_lines_of_text(rows, lines);
}

/// A text is shown as it is, unless it is a tool's: of that its payload is
/// shown, if it is not too long to be read.
pub proof fn law_only_results_are_read(e: EntryView)
    ensures
        e.role != "tool"@ ==> entries::display_text(e) == e.text,
        e.role == "tool"@ && text::byte_len(e.text) <= entries::EXPANDED_RESULT_BYTES
            ==> entries::display_text(e) == crate::json::result_text(e.text),
{
}

/// A text that is too long says how long it is, in lines and in KiB. One with
/// too many lines shows its beginning and its end around that.
pub proof fn law_long_entries_say_so(e: EntryView, width: int, theme: ThemeView)
    requires
        !e.streaming,
        text::byte_len(entries::display_text(e)) > entries::COMPLETED_RENDER_BYTES
            || text::line_total(entries::display_text(e)) > entries::COMPLETED_RENDER_LINES,
        text::line_total(entries::display_text(e)) <= usize::MAX,
    ensures
        ({
            let s = entries::display_text(e);
            let marker = entries::marker_row(
                "[display truncated: "@ + text::decimal(text::line_total(s)) + " lines, "@
                    + text::decimal(((text::byte_len(s) + 1023) / 1024) as nat)
                    + " KiB total; use /export for full output]"@,
                width,
                theme,
            );
            let rows = entries::rows_of(e, width, theme);
            exists|k: int| 0 < k < rows.len() - 1 && #[trigger] rows[k] == marker
        }),
{
    let s = entries::display_text(e);
    let c = entries::role_color(e.role, theme);
    let rows = entries::rows_of(e, width, theme);
    let marker = entries::marker_row(
        "[display truncated: "@ + text::decimal(text::line_total(s)) + " lines, "@ + text::decimal(
            ((text::byte_len(s) + 1023) / 1024) as nat,
        ) + " KiB total; use /export for full output]"@,
        width,
        theme,
    );
    if text::line_total(s) > entries::COMPLETED_RENDER_LINES {
        let (head, tail) = entries::line_windows(s);
        let k = 1 + entries::body_rows(entries::plain_lines(head, c), width, theme).len();
        assert(rows[k as int] == marker);
    } else {
        assert(rows[1] == marker);
    }
}

/// Of a text with too many lines the first and the last of them are kept, if
/// they are not too long themselves.
pub proof fn law_windows_are_the_ends(s: Seq<char>)
    requires
        text::split_on(s, '\n').len() >= entries::COMPLETED_HEAD_LINES,
        text::split_on(s, '\n').len() >= entries::COMPLETED_TAIL_LINES,
        ({
            let all = text::split_on(s, '\n');
            let n = all.len() as int;
            text::byte_len(text::joined(all.take(entries::COMPLETED_HEAD_LINES as int), "\n"@))
                + text::byte_len(
                text::joined(all.skip(n - entries::COMPLETED_TAIL_LINES), "\n"@),
            ) + 1 <= entries::COMPLETED_RENDER_BYTES
        }),
    ensures
        ({
            let all = text::split_on(s, '\n');
            let n = all.len() as int;
            &&& entries::line_windows(s).0 == text::joined(
                all.take(entries::COMPLETED_HEAD_LINES as int),
                "\n"@,
            )
            &&& entries::line_windows(s).1 == text::joined(
                all.skip(n - entries::COMPLETED_TAIL_LINES),
                "\n"@,
            )
        }),
{
}

// ---------------------------------------------------------------------------
// Markdown
// ---------------------------------------------------------------------------

/// A heading is bold in the accent of the theme, and other text is neither.
pub proof fn law_headings_stand_out(line: Seq<char>, theme: ThemeView, c: Color)
    requires
        line.len() > 0,
    ensures
        line[0] == '#' ==> markdown::prose_row(line, theme, c).style == Style::strong(
            style::color_of(theme.accent),
        ),
        line[0] != '#' ==> !markdown::prose_row(line, theme, c).style.bold,
        line[0] != '#' && !line.contains('`') ==> markdown::prose_row(line, theme, c).style
            == Style::colored(c),
{
    reveal_strlit("#");
    if line[0] == '#' {
        assert(line.take(1) =~= "#"@);
    }
    if text::begins(line, "#"@) {
        assert(line.take(1)[0] == "#"@[0]);
    }
}

/// The pieces of a line with code in it end at the marks: each but the last
/// holds one mark, at its end.
proof fn lemma_pieces(line: Seq<char>, sep: char)
    ensures
        ({
            let p = text::split_after(line, sep);
            &&& line.len() > 0 ==> p.len() > 0
            &&& forall|i: int|
                0 <= i < p.len() ==> (#[trigger] p[i]).len() > 0 && forall|j: int|
                    0 <= j < p[i].len() - 1 ==> #[trigger] p[i][j] != sep
            &&& forall|i: int| 0 <= i < p.len() - 1 ==> (#[trigger] p[i]).last() == sep
            &&& line.len() > 0 ==> p.last().last() == line.last()
        }),
    decreases line.len(),
{
    if line.len() > 0 {
        let front = line.drop_last();
        lemma_pieces(front, sep);
        let q = text::split_after(front, sep);
        let p = text::split_after(line, sep);
        if line.len() == 1 || line[line.len() - 2] == sep {
            if line.len() > 1 {
                assert(front.last() == sep);
            }
        } else {
            assert(front.last() != sep);
            assert(p.drop_last() =~= q.drop_last());
            assert forall|j: int| 0 <= j < p.last().len() - 1 implies #[trigger] p.last()[j] != sep by {
                if j < q.last().len() - 1 {
                    assert(q.last()[j] != sep);
                } else {
                    assert(q.last()[j] == q.last().last());
                }
            }
        }
    }
}

/// Between marks a line is code and has the accent, and outside of them it has
/// the color of its text: the pieces that the marks cut it into take turns.
pub proof fn law_inline_code_is_accented(line: Seq<char>, theme: ThemeView, c: Color, i: int)
    requires
        line.contains('`'),
        line[0] != '#',
        0 <= i < markdown::prose_row(line, theme, c).spans.len(),
    ensures
        ({
            let spans = markdown::prose_row(line, theme, c).spans;
            &&& spans[i].style == Style::colored(
                if i % 2 == 1 {
                    style::color_of(theme.accent)
                } else {
                    c
                },
            )
            &&& i < spans.len() - 1 ==> spans[i].content.last() == '`'
            &&& forall|j: int|
                0 <= j < spans[i].content.len() - 1 ==> #[trigger] spans[i].content[j] != '`'
        }),
{
    reveal_strlit("#");
    if text::begins(line, "#"@) {
        assert(line.take(1)[0] == "#"@[0]);
    }
    lemma_pieces(line, '`');
}

/// A block of code goes from one fence to the next, or to the end: no line in
/// between is a fence.
pub proof fn law_blocks_end_at_a_fence(lines: Seq<Seq<char>>, k: int)
    requires
        0 <= k <= lines.len(),
    ensures
        ({
            let end = markdown::block_end(lines, k);
            &&& k <= end <= lines.len()
            &&& end < lines.len() ==> markdown::is_fence(lines[end])
            &&& forall|j: int| k <= j < end ==> !markdown::is_fence(#[trigger] lines[j])
        }),
    decreases lines.len() - k,
{
    if k < lines.len() && !markdown::is_fence(lines[k]) {
        law_blocks_end_at_a_fence(lines, k + 1);
    }
}

/// A fence is three marks behind any white space, and what stands behind them
/// names the language.
pub proof fn law_fences_name_their_language(indent: Seq<char>, language: Seq<char>)
    requires
        forall|i: int| 0 <= i < indent.len() ==> text::white(#[trigger] indent[i]),
        text::trim(language) == language,
    ensures
        markdown::is_fence(indent + "```"@ + language),
        markdown::language_of(indent + "```"@ + language) == language,
{
    reveal_strlit("```");
    let marks = "```"@ + language;
    lemma_indent(indent, marks);
    assert(indent + "```"@ + language =~= indent + marks);
    assert(marks.take(3) =~= "```"@);
    assert(marks.skip(3) =~= language);
}

proof fn lemma_indent(indent: Seq<char>, s: Seq<char>)
    requires
        forall|i: int| 0 <= i < indent.len() ==> text::white(#[trigger] indent[i]),
        s.len() > 0,
        !text::white(s[0]),
    ensures
        text::trim_start(indent + s) == s,
    decreases indent.len(),
{
    let whole = indent + s;
    if indent.len() > 0 {
        assert(whole[0] == indent[0]);
        assert(whole.drop_first() =~= indent.drop_first() + s);
        assert forall|i: int| 0 <= i < indent.drop_first().len() implies text::white(
            #[trigger] indent.drop_first()[i],
        ) by {
            assert(indent[i + 1] == indent.drop_first()[i]);
        }
        lemma_indent(indent.drop_first(), s);
    } else {
        assert(whole =~= s);
    }
}

// ---------------------------------------------------------------------------
// Rows of the composer and of overlays
// ---------------------------------------------------------------------------

/// A row takes no more cells than there are, unless its last character alone
/// does.
pub open spec fn row_fits(row: Seq<char>, limit: int) -> bool {
    wrap::cell_sum(row) <= limit || wrap::cell_sum(row.drop_last()) == 0
}

/// Every row that is finished fits, and the one being filled does so far.
spec fn flow_fits(f: wrap::Flow, limit: int) -> bool {
    &&& forall|i: int| 0 <= i < f.rows.len() ==> row_fits((#[trigger] f.rows[i]).text(), limit)
    &&& f.used == wrap::cell_sum(style::span_text(f.spans) + f.text)
    &&& row_fits(style::span_text(f.spans) + f.text, limit)
}

proof fn lemma_cell_sum_push(s: Seq<char>, c: char)
    ensures
        wrap::cell_sum(s.push(c)) == wrap::cell_sum(s) + crate::width::cells(c),
{
    assert(s.push(c).drop_last() =~= s);
}

proof fn lemma_broken_fits(f: wrap::Flow, st: Style, limit: int)
    requires
        flow_fits(f, limit),
        limit >= 1,
    ensures
        flow_fits(f.broken(st), limit),
        f.broken(st).used == 0,
{
    let spans = f.spans.push(SpanView { content: f.text, style: st });
    let row = style::plain_line(spans);
    assert(spans.drop_last() =~= f.spans);
    assert(row.text() =~= style::span_text(f.spans) + f.text);
    let b = f.broken(st);
    assert(style::span_text(b.spans) =~= Seq::<char>::empty());
    assert(style::span_text(b.spans) + b.text =~= Seq::<char>::empty());
    assert forall|i: int| 0 <= i < b.rows.len() implies row_fits(
        (#[trigger] b.rows[i]).text(),
        limit,
    ) by {
        if i < f.rows.len() {
            assert(b.rows[i] == f.rows[i]);
        } else {
            assert(b.rows[i] == row);
        }
    }
}

proof fn lemma_character_fits(f: wrap::Flow, c: char, st: Style, limit: int)
    requires
        flow_fits(f, limit),
        limit >= 1,
    ensures
        flow_fits(f.character(c, st, limit), limit),
{
    lemma_broken_fits(f, st, limit);
    if c != '\n' && !(text::hostile(c) && c != '\t') {
        let shown = if c == '\t' {
            ' '
        } else {
            c
        };
        let n = crate::width::cells(shown);
        let at = if f.used + n > limit && f.used > 0 {
            f.broken(st)
        } else {
            f
        };
        let before = style::span_text(at.spans) + at.text;
        let r = f.character(c, st, limit);
        assert(style::span_text(r.spans) + r.text =~= before.push(shown));
        lemma_cell_sum_push(before, shown);
        assert(before.push(shown).drop_last() =~= before);
    }
}

proof fn lemma_characters_fit(f: wrap::Flow, s: Seq<char>, st: Style, limit: int)
    requires
        flow_fits(f, limit),
        limit >= 1,
    ensures
        flow_fits(f.characters(s, st, limit), limit),
    decreases s.len(),
{
    if s.len() > 0 {
        lemma_characters_fit(f, s.drop_last(), st, limit);
        lemma_character_fits(f.characters(s.drop_last(), st, limit), s.last(), st, limit);
    }
}

proof fn lemma_flow_fits(spans: Seq<SpanView>, base: Style, limit: int)
    requires
        limit >= 1,
    ensures
        flow_fits(wrap::flow_spans(spans, base, limit), limit),
        wrap::flow_spans(spans, base, limit).text.len() == 0,
    decreases spans.len(),
{
    let f = wrap::flow_spans(spans, base, limit);
    if spans.len() == 0 {
        assert(style::span_text(f.spans) + f.text =~= Seq::<char>::empty());
    } else {
        let st = base.patched(spans.last().style);
        let g = wrap::flow_spans(spans.drop_last(), base, limit);
        lemma_flow_fits(spans.drop_last(), base, limit);
        lemma_characters_fit(g, spans.last().content, st, limit);
        let h = g.characters(spans.last().content, st, limit);
        if h.text.len() > 0 {
            assert(f.spans.drop_last() =~= h.spans);
            assert(style::span_text(f.spans) + f.text =~= style::span_text(h.spans) + h.text);
        }
    }
}

/// A text that is cut at the cell limit is cut into rows that fit.
pub proof fn law_hard_rows_fit(line: LineView, limit: int, i: int)
    requires
        limit >= 1,
        0 <= i < wrap::hard_wrapped_line(line, limit).len(),
    ensures
        row_fits(wrap::hard_wrapped_line(line, limit)[i].text(), limit),
{
    let f = wrap::flow_spans(line.spans, line.style, limit);
    lemma_flow_fits(line.spans, line.style, limit);
    assert(style::span_text(f.spans) + f.text =~= style::span_text(f.spans));
    let rows = wrap::hard_wrapped_line(line, limit);
    if i < f.rows.len() {
        assert(rows[i] == f.rows[i]);
    } else {
        assert(rows[i].text() == style::span_text(f.spans));
    }
}

/// A text that has room is not cut at all: a line of plain text that takes no
/// more cells than there are is one row.
pub proof fn law_short_lines_are_one_row(s: Seq<char>, st: Style, limit: int)
    requires
        limit >= 1,
        s.len() > 0,
        crate::screen_laws::plain_text(s),
        wrap::cell_sum(s) <= limit,
    ensures
        wrap::hard_wrapped_line(
            style::plain_line(seq![SpanView { content: s, style: st }]),
            limit,
        ).len() == 1,
{
    let spans = seq![SpanView { content: s, style: st }];
    let line = style::plain_line(spans);
    let over = Style::plain().patched(st);
    crate::screen_laws::lemma_one_row(s, over, limit);
    assert(spans.drop_last() =~= Seq::<SpanView>::empty());
    let none = crate::screen_laws::no_flow();
    assert(wrap::flow_spans(spans.drop_last(), line.style, limit) == none);
    assert(spans.last().content == s);
    let f = wrap::flow_spans(spans, line.style, limit);
    assert(f == none.characters(s, over, limit).closed_span(over));
    assert(f.rows.len() == 0);
}

/// Code is colored by the grammar of its language, or as plain text where there
/// is no such grammar; switched off, it has no colors.
pub proof fn law_code_has_the_colors_of_its_language(
    theme: ThemeView,
    language: Seq<char>,
    code: Seq<Seq<char>>,
)
    ensures
        !theme.syntax_highlighting ==> markdown::block_painting(theme, language, code) is None,
        theme.syntax_highlighting && markdown::highlighted(language, theme.syntax_theme, code) is Some
            ==> markdown::block_painting(theme, language, code) == markdown::highlighted(
            language,
            theme.syntax_theme,
            code,
        ),
        theme.syntax_highlighting && markdown::highlighted(language, theme.syntax_theme, code) is None
            ==> markdown::block_painting(theme, language, code) == markdown::highlighted(
            "txt"@,
            theme.syntax_theme,
            code,
        ),
{
}

/// The lines of a block are painted by what the highlighter made of them: a
/// line that is short enough gets the colors that were made for it, and one
/// that is too long is shown without.
pub proof fn law_lines_get_their_own_colors(
    lines: Seq<Seq<char>>,
    from: int,
    k: int,
    p: Seq<Option<Seq<SpanView>>>,
    c: Color,
)
    requires
        0 <= from <= k < lines.len(),
        p.len() > markdown::fed(lines, from, k).len(),
    ensures
        ({
            let n = markdown::fed(lines, from, k).len() as int;
            let row = markdown::code_row(lines, from, k, Some(p), c);
            &&& text::byte_len(lines[k]) <= 4096 && p[n] is Some ==> row.spans.len() == p[n]->0.len()
                && forall|i: int|
                0 <= i < row.spans.len() ==> (#[trigger] row.spans[i]).style == p[n]->0[i].style
            &&& text::byte_len(lines[k]) > 4096 || p[n] is None ==> row == style::styled_line(
                lines[k],
                Style::colored(c),
            )
        }),
{
}

/// The highlighter gets the lines of a block in their order, each with the
/// newline that ends it.
pub proof fn law_blocks_are_handed_on(lines: Seq<Seq<char>>, from: int, end: int, i: int)
    requires
        0 <= from <= from + i < end <= lines.len(),
        forall|k: int| from <= k < end ==> markdown::is_colored(#[trigger] lines[k]),
    ensures
        markdown::fed(lines, from, end).len() == end - from,
        markdown::fed(lines, from, end)[i] == lines[from + i] + "\n"@,
    decreases end,
{
    if from + 1 < end {
        if from + i < end - 1 {
            law_blocks_are_handed_on(lines, from, end - 1, i);
        } else {
            law_blocks_are_handed_on(lines, from, end - 1, i - 1);
        }
    } else {
        reveal_with_fuel(markdown::fed, 2);
    }
}

} // verus!
