//! Wrapping styled text to terminal cells. Chat rows break at white space
//! where they can; the composer and overlays break at the cell limit.
use crate::style;
use crate::style::{Line, LineView, Span, SpanView, Style};
use crate::text;
use crate::text::{chars_of, is_graphic_ascii, is_unsafe_terminal_char, is_white_space, string_of};
use crate::width;
use crate::width::{cell_width, fits};
use vstd::prelude::*;
use vstd::string::*;

verus! {

/// A character with its style.
pub type Glyph = (char, Style);

/// Cells that `g[a..b]` takes.
pub open spec fn extent(g: Seq<Glyph>, a: int, b: int) -> nat
    decreases b - a,
{
    if b <= a {
        0
    } else {
        extent(g, a, b - 1) + width::cells(g[b - 1].0)
    }
}

/// End of the row that starts at `a`, looking from `e` on: as many characters
/// as fit, and at least one.
pub open spec fn fit_from(g: Seq<Glyph>, a: int, e: int, limit: int) -> int
    decreases g.len() - e,
{
    if a < e < g.len() && extent(g, a, e + 1) <= limit {
        fit_from(g, a, e + 1, limit)
    } else {
        e
    }
}

/// End of the last white space in `g[a..e]`, or `a` where there is none.
pub open spec fn last_gap(g: Seq<Glyph>, a: int, e: int) -> int
    decreases e - a,
{
    if e <= a {
        a
    } else if text::white(g[e - 1].0) {
        e
    } else {
        last_gap(g, a, e - 1)
    }
}

/// Where the row that starts at `a` is broken: behind all that fits, unless
/// that would cut a word which some white space in the row lets us keep whole.
pub open spec fn break_at(g: Seq<Glyph>, a: int, limit: int) -> int {
    let e = fit_from(g, a, a + 1, limit);
    if e == g.len() || text::white(g[e].0) {
        e
    } else if last_gap(g, a, e) > a {
        last_gap(g, a, e)
    } else {
        e
    }
}

/// First character at or after `a` that is no white space.
pub open spec fn skip_gap(g: Seq<Glyph>, a: int) -> int
    decreases g.len() - a,
{
    if 0 <= a < g.len() && text::white(g[a].0) {
        skip_gap(g, a + 1)
    } else {
        a
    }
}

/// End of `g[a..e]` without its trailing white space.
pub open spec fn trim_gap(g: Seq<Glyph>, a: int, e: int) -> int
    decreases e - a,
{
    if e > a && text::white(g[e - 1].0) {
        trim_gap(g, a, e - 1)
    } else {
        e
    }
}

/// All of `g[a..e]` has one style.
pub open spec fn uniform(g: Seq<Glyph>, a: int, e: int) -> bool {
    forall|j: int| a <= j < e ==> (#[trigger] g[j]).1 == g[a].1
}

/// The characters without their styles.
pub open spec fn glyph_text(g: Seq<Glyph>) -> Seq<char> {
    g.map_values(|x: Glyph| x.0)
}

/// Spans of the longest runs of one style.
pub open spec fn runs(g: Seq<Glyph>) -> Seq<SpanView>
    decreases g.len(),
{
    if g.len() == 0 {
        Seq::empty()
    } else {
        let p = runs(g.drop_last());
        let (c, s) = g.last();
        if p.len() > 0 && p.last().style == s {
            p.drop_last().push(SpanView { content: p.last().content.push(c), style: s })
        } else {
            p.push(SpanView { content: seq![c], style: s })
        }
    }
}

/// The row of `g` that starts at `a`: trailing white space is left out. A row
/// whose characters all have one style is one span, even if nothing is left
/// of it.
pub open spec fn row_at(g: Seq<Glyph>, a: int, limit: int) -> LineView {
    let e = fit_from(g, a, a + 1, limit);
    let row = g.subrange(a, trim_gap(g, a, break_at(g, a, limit)));
    style::plain_line(
        if uniform(g, a, e) {
            seq![SpanView { content: glyph_text(row), style: g[a].1 }]
        } else {
            runs(row)
        },
    )
}

/// The rows of `g` from `a` on. White space at a break is left out.
pub open spec fn rows_from(g: Seq<Glyph>, a: int, limit: int) -> Seq<LineView>
    decreases g.len() - a,
{
    let s = if a > 0 {
        skip_gap(g, a)
    } else {
        a
    };
    if s < 0 || s >= g.len() {
        Seq::empty()
    } else {
        proof {
            lemma_break_bounds(g, s, limit);
            lemma_skip_bounds(g, a);
        }
        seq![row_at(g, s, limit)] + rows_from(g, break_at(g, s, limit), limit)
    }
}

/// The rows of one logical line; an empty line is one empty row.
pub open spec fn word_rows(g: Seq<Glyph>, limit: int) -> Seq<LineView> {
    if g.len() == 0 {
        seq![style::plain_line(Seq::empty())]
    } else {
        rows_from(g, 0, limit)
    }
}

/// Skipping moves forward over white space only.
pub proof fn lemma_skip_bounds(g: Seq<Glyph>, a: int)
    ensures
        skip_gap(g, a) >= a,
        a <= g.len() ==> skip_gap(g, a) <= g.len(),
        forall|j: int| a <= j < skip_gap(g, a) ==> text::white((#[trigger] g[j]).0),
    decreases g.len() - a,
{
    if 0 <= a < g.len() && text::white(g[a].0) {
        lemma_skip_bounds(g, a + 1);
    }
}

/// A row takes at least one character, stays within the limit beyond that, and could not take one more.
pub proof fn lemma_fit_bounds(g: Seq<Glyph>, a: int, e: int, limit: int)
    requires
        0 <= a < e <= g.len(),
    ensures
        e <= fit_from(g, a, e, limit) <= g.len(),
        fit_from(g, a, e, limit) == e || extent(g, a, fit_from(g, a, e, limit)) <= limit,
        fit_from(g, a, e, limit) < g.len() ==> extent(g, a, fit_from(g, a, e, limit) + 1) > limit,
    decreases g.len() - e,
{
    if e < g.len() && extent(g, a, e + 1) <= limit {
        lemma_fit_bounds(g, a, e + 1, limit);
    }
}

/// The last gap ends inside of the row.
pub proof fn lemma_gap_bounds(g: Seq<Glyph>, a: int, e: int)
    requires
        a <= e,
    ensures
        a <= last_gap(g, a, e) <= e,
        last_gap(g, a, e) > a ==> text::white(g[last_gap(g, a, e) - 1].0),
    decreases e - a,
{
    if e > a && !text::white(g[e - 1].0) {
        lemma_gap_bounds(g, a, e - 1);
    }
}

/// Trimming drops white space only, and all of it.
pub proof fn lemma_trim_bounds(g: Seq<Glyph>, a: int, e: int)
    requires
        a <= e,
    ensures
        a <= trim_gap(g, a, e) <= e,
        forall|j: int| trim_gap(g, a, e) <= j < e ==> text::white((#[trigger] g[j]).0),
        trim_gap(g, a, e) > a ==> !text::white(g[trim_gap(g, a, e) - 1].0),
    decreases e - a,
{
    if e > a && text::white(g[e - 1].0) {
        lemma_trim_bounds(g, a, e - 1);
    }
}

/// Every row makes progress.
pub proof fn lemma_break_bounds(g: Seq<Glyph>, a: int, limit: int)
    requires
        0 <= a < g.len(),
    ensures
        a < break_at(g, a, limit) <= fit_from(g, a, a + 1, limit) <= g.len(),
{
    lemma_fit_bounds(g, a, a + 1, limit);
    lemma_gap_bounds(g, a, fit_from(g, a, a + 1, limit));
}

/// More characters are never narrower.
pub proof fn lemma_extent_monotonic(g: Seq<Glyph>, a: int, b: int, c: int)
    requires
        a <= b <= c,
    ensures
        extent(g, a, b) <= extent(g, a, c),
    decreases c - b,
{
    if b < c {
        lemma_extent_monotonic(g, a, b, c - 1);
    }
}

/// The text of `g[from..to]`.
fn glyph_string(g: &Vec<Glyph>, from: usize, to: usize) -> (r: String)
    requires
        from <= to <= g@.len(),
    ensures
        r@ == glyph_text(g@.subrange(from as int, to as int)),
{
    let mut out = String::new();
    let mut i: usize = from;
    while i < to
        invariant
            from <= i <= to <= g@.len(),
            out@ == glyph_text(g@.subrange(from as int, i as int)),
        decreases to - i,
    {
        out.push(g[i].0);
        i += 1;
        assert(out@ =~= glyph_text(g@.subrange(from as int, i as int)));
    }
    out
}

/// A line of `g[from..to]` with one span for each run of a style.
pub(crate) fn glyph_line(g: &Vec<Glyph>, from: usize, to: usize) -> (r: Line)
    requires
        from <= to <= g@.len(),
    ensures
        r@ == style::plain_line(runs(g@.subrange(from as int, to as int))),
{
    let mut spans: Vec<Span> = Vec::new();
    let mut current = String::new();
    let mut last: Style = Style::new();
    let mut i: usize = from;
    while i < to
        invariant
            from <= i <= to <= g@.len(),
            i == from ==> current@.len() == 0 && spans@.len() == 0,
            i > from ==> current@.len() > 0 && style::spans_view(spans@).push(
                SpanView { content: current@, style: last },
            ) == runs(g@.subrange(from as int, i as int)),
        decreases to - i,
    {
        let (c, s) = g[i];
        let ghost t = g@.subrange(from as int, i + 1);
        let ghost before = runs(g@.subrange(from as int, i as int));
        proof {
            assert(t.drop_last() =~= g@.subrange(from as int, i as int));
            assert(t.last() == g@[i as int]);
            if i > from {
                assert(before.drop_last() =~= style::spans_view(spans@));
                assert(before.last() == (SpanView { content: current@, style: last }));
            } else {
                assert(g@.subrange(from as int, i as int) =~= Seq::<Glyph>::empty());
            }
        }
        if s != last && !current.as_str().is_empty() {
            let span = Span::styled(current, last);
            proof {
                style::lemma_spans_push(spans@, span);
                assert(style::spans_view(spans@).push(span@) =~= before);
            }
            spans.push(span);
            current = String::new();
        }
        last = s;
        current.push(c);
        proof {
            let now = SpanView { content: current@, style: last };
            assert(style::spans_view(spans@).push(now) =~= runs(t)) by {
                if i > from && before.last().style == s {
                    assert(runs(t) == before.drop_last().push(
                        SpanView { content: before.last().content.push(c), style: s },
                    ));
                } else {
                    assert(current@ =~= seq![c]);
                    if i == from {
                        assert(style::spans_view(spans@) =~= Seq::<SpanView>::empty());
                        assert(before =~= Seq::<SpanView>::empty());
                    }
                }
            }
        }
        i += 1;
    }
    if !current.as_str().is_empty() {
        let span = Span::styled(current, last);
        proof {
            style::lemma_spans_push(spans@, span);
        }
        spans.push(span);
    }
    proof {
        if from == to {
            assert(g@.subrange(from as int, to as int) =~= Seq::<Glyph>::empty());
            assert(style::spans_view(spans@) =~= Seq::<SpanView>::empty());
        }
    }
    Line::from_spans(spans)
}

/// Append the rows of one logical line, broken at white space where it can be.
pub fn push_wrapped_line(output: &mut Vec<Line>, glyphs: &Vec<Glyph>, limit: usize)
    ensures
        style::lines_view(final(output)@) == style::lines_view(old(output)@) + word_rows(
            glyphs@,
            limit as int,
        ),
{
    let ghost g = glyphs@;
    let ghost lim = limit as int;
    let ghost before = style::lines_view(output@);
    if glyphs.len() == 0 {
        let line = Line::from_spans(Vec::new());
        proof {
            style::lemma_lines_push(output@, line);
            assert(line@.spans =~= Seq::<SpanView>::empty());
            assert(before.push(line@) =~= before + seq![style::plain_line(Seq::empty())]);
        }
        output.push(line);
        return;
    }
    let mut start: usize = 0;
    assert(before + rows_from(g, 0, lim) == style::lines_view(output@) + rows_from(g, 0, lim));
    while start < glyphs.len()
        invariant
            g == glyphs@,
            lim == limit as int,
            start <= glyphs@.len(),
            style::lines_view(output@) + rows_from(g, start as int, lim) == before + rows_from(
                g,
                0,
                lim,
            ),
        decreases glyphs@.len() - start,
    {
        let mut s: usize = start;
        if start > 0 {
            while s < glyphs.len() && is_white_space(glyphs[s].0)
                invariant
                    g == glyphs@,
                    start <= s <= glyphs@.len(),
                    skip_gap(g, start as int) == skip_gap(g, s as int),
                decreases glyphs@.len() - s,
            {
                s += 1;
            }
        }
        assert(s == if start > 0 {
            skip_gap(g, start as int)
        } else {
            start as int
        });
        if s >= glyphs.len() {
            start = s;
            assert(rows_from(g, g.len() as int, lim) =~= Seq::<LineView>::empty());
        } else {
            let mut used: usize = 0;
            let mut end: usize = s;
            let mut gap: usize = s;
            let first: Style = glyphs[s].1;
            let mut same: bool = true;
            while end < glyphs.len() && (end == s || fits(used, cell_width(glyphs[end].0), limit))
                invariant
                    g == glyphs@,
                    lim == limit as int,
                    s <= end <= glyphs@.len(),
                    s < glyphs@.len(),
                    first == g[s as int].1,
                    used == extent(g, s as int, end as int),
                    end > s + 1 ==> used <= limit,
                    end == s + 1 ==> used <= 3,
                    end == s ==> used == 0,
                    end > s ==> fit_from(g, s as int, s + 1, lim) == fit_from(
                        g,
                        s as int,
                        end as int,
                        lim,
                    ),
                    gap == last_gap(g, s as int, end as int),
                    same == uniform(g, s as int, end as int),
                decreases glyphs@.len() - end,
            {
                if glyphs[end].1 != first {
                    same = false;
                }
                used = used + cell_width(glyphs[end].0);
                end += 1;
                if is_white_space(glyphs[end - 1].0) {
                    gap = end;
                }
                proof {
                    assert(same == uniform(g, s as int, end as int)) by {
                        if same {
                            assert forall|j: int| s <= j < end implies (#[trigger] g[j]).1
                                == g[s as int].1 by {
                                if j < end - 1 {
                                    assert(uniform(g, s as int, end - 1));
                                }
                            }
                        } else if uniform(g, s as int, end as int) {
                            assert(g[end - 1].1 == g[s as int].1);
                            assert(uniform(g, s as int, end - 1));
                        }
                    }
                }
            }
            assert(end == fit_from(g, s as int, s + 1, lim));
            let broken: usize = if end == glyphs.len() || is_white_space(glyphs[end].0) {
                end
            } else if gap > s {
                gap
            } else {
                end
            };
            proof {
                lemma_break_bounds(g, s as int, lim);
                lemma_gap_bounds(g, s as int, end as int);
                assert(broken == break_at(g, s as int, lim));
            }
            let mut trimmed: usize = broken;
            while trimmed > s && is_white_space(glyphs[trimmed - 1].0)
                invariant
                    g == glyphs@,
                    s <= trimmed <= broken <= glyphs@.len(),
                    trim_gap(g, s as int, broken as int) == trim_gap(g, s as int, trimmed as int),
                decreases trimmed,
            {
                trimmed -= 1;
            }
            let line = if same {
                let mut spans: Vec<Span> = Vec::new();
                let span = Span::styled(glyph_string(glyphs, s, trimmed), first);
                let ghost v = span@;
                spans.push(span);
                assert(style::spans_view(spans@) =~= seq![v]);
                Line::from_spans(spans)
            } else {
                glyph_line(glyphs, s, trimmed)
            };
            proof {
                assert(line@ == row_at(g, s as int, lim));
                style::lemma_lines_push(output@, line);
                let rest = rows_from(g, broken as int, lim);
                assert(rows_from(g, start as int, lim) == seq![line@] + rest);
                assert(style::lines_view(output@).push(line@) + rest =~= style::lines_view(output@)
                    + (seq![line@] + rest));
            }
            output.push(line);
            start = broken;
        }
    }
    proof {
        assert(rows_from(g, start as int, lim) =~= Seq::<LineView>::empty()) by {
            lemma_skip_bounds(g, start as int);
        }
        assert(style::lines_view(output@) + Seq::<LineView>::empty() =~= style::lines_view(output@));
    }
}

// ---------------------------------------------------------------------------
// Chat rows
// ---------------------------------------------------------------------------

/// The characters of a span that reach the screen: tabs as spaces, newlines
/// kept as marks, unsafe characters left out.
pub open spec fn shown_glyphs(content: Seq<char>, style: Style) -> Seq<Glyph>
    decreases content.len(),
{
    if content.len() == 0 {
        Seq::empty()
    } else {
        let p = shown_glyphs(content.drop_last(), style);
        let c = content.last();
        if c == '\t' {
            p.push((' ', style))
        } else if c != '\n' && text::hostile(c) {
            p
        } else {
            p.push((c, style))
        }
    }
}

/// The characters of a row of spans over a base style.
pub open spec fn line_glyphs(spans: Seq<SpanView>, base: Style) -> Seq<Glyph>
    decreases spans.len(),
{
    if spans.len() == 0 {
        Seq::empty()
    } else {
        line_glyphs(spans.drop_last(), base) + shown_glyphs(
            spans.last().content,
            base.patched(spans.last().style),
        )
    }
}

/// The logical lines between newline marks.
pub open spec fn glyph_groups(g: Seq<Glyph>) -> Seq<Seq<Glyph>>
    decreases g.len(),
{
    if g.len() == 0 {
        seq![Seq::empty()]
    } else {
        let p = glyph_groups(g.drop_last());
        if g.last().0 == '\n' {
            p.push(Seq::empty())
        } else {
            p.drop_last().push(p.last().push(g.last()))
        }
    }
}

/// The rows of several logical lines.
pub open spec fn group_rows(groups: Seq<Seq<Glyph>>, limit: int) -> Seq<LineView>
    decreases groups.len(),
{
    if groups.len() == 0 {
        Seq::empty()
    } else {
        group_rows(groups.drop_last(), limit) + word_rows(groups.last(), limit)
    }
}

/// The rows that a line takes when it breaks at white space.
pub open spec fn word_wrapped_line(line: LineView, limit: int) -> Seq<LineView> {
    group_rows(glyph_groups(line_glyphs(line.spans, line.style)), limit)
}

/// The rows that several lines take when they break at white space.
pub open spec fn word_wrapped(lines: Seq<LineView>, limit: int) -> Seq<LineView>
    decreases lines.len(),
{
    if lines.len() == 0 {
        Seq::empty()
    } else {
        word_wrapped(lines.drop_last(), limit) + word_wrapped_line(lines.last(), limit)
    }
}

/// At least one cell per row.
pub open spec fn at_least_one(width: int) -> int {
    if width < 1 {
        1
    } else {
        width
    }
}

/// There is always a last group.
proof fn lemma_groups_nonempty(g: Seq<Glyph>)
    ensures
        glyph_groups(g).len() >= 1,
    decreases g.len(),
{
    if g.len() > 0 {
        lemma_groups_nonempty(g.drop_last());
    }
}

/// A text cut into rows of `limit` characters.
pub open spec fn chunk_rows(content: Seq<char>, style: Style, limit: int) -> Seq<LineView>
    decreases content.len(),
{
    if limit < 1 || content.len() == 0 {
        Seq::empty()
    } else if content.len() <= limit {
        seq![style::plain_line(seq![SpanView { content, style }])]
    } else {
        seq![style::plain_line(seq![SpanView { content: content.take(limit), style }])]
            + chunk_rows(content.skip(limit), style, limit)
    }
}

/// One character of a run: it takes one cell, is no white space and is safe.
pub open spec fn solid(c: char) -> bool {
    &&& width::cells(c) == 1
    &&& !text::white(c)
    &&& !text::hostile(c)
}

/// Every character of `s` is solid.
pub open spec fn solid_run(s: Seq<char>) -> bool {
    forall|i: int| 0 <= i < s.len() ==> solid(#[trigger] s[i])
}

proof fn lemma_shown_solid(content: Seq<char>, st: Style)
    requires
        solid_run(content),
    ensures
        shown_glyphs(content, st) == content.map_values(|c: char| (c, st)),
    decreases content.len(),
{
    let g = content.map_values(|c: char| (c, st));
    if content.len() == 0 {
        assert(g =~= Seq::<Glyph>::empty());
    } else {
        let p = content.drop_last();
        assert(solid_run(p)) by {
            assert forall|i: int| 0 <= i < p.len() implies solid(#[trigger] p[i]) by {
                assert(p[i] == content[i]);
            }
        }
        lemma_shown_solid(p, st);
        assert(solid(content.last()));
        assert(g =~= shown_glyphs(p, st).push((content.last(), st)));
    }
}

proof fn lemma_groups_solid(g: Seq<Glyph>)
    requires
        forall|i: int| 0 <= i < g.len() ==> (#[trigger] g[i]).0 != '\n',
    ensures
        glyph_groups(g) == seq![g],
    decreases g.len(),
{
    if g.len() == 0 {
        assert(g =~= Seq::<Glyph>::empty());
    } else {
        lemma_groups_solid(g.drop_last());
        assert(g.drop_last().push(g.last()) =~= g);
        assert(glyph_groups(g) =~= seq![g]);
    }
}

proof fn lemma_solid_extent(g: Seq<Glyph>, a: int, b: int)
    requires
        0 <= a <= b <= g.len(),
        forall|i: int| 0 <= i < g.len() ==> solid((#[trigger] g[i]).0),
    ensures
        extent(g, a, b) == b - a,
    decreases b - a,
{
    if a < b {
        lemma_solid_extent(g, a, b - 1);
        assert(solid(g[b - 1].0));
    }
}

proof fn lemma_solid_fit(g: Seq<Glyph>, a: int, e: int, limit: int)
    requires
        0 <= a < e <= g.len(),
        e <= a + limit,
        forall|i: int| 0 <= i < g.len() ==> solid((#[trigger] g[i]).0),
    ensures
        fit_from(g, a, e, limit) == if a + limit < g.len() {
            a + limit
        } else {
            g.len() as int
        },
    decreases g.len() - e,
{
    if e < g.len() {
        lemma_solid_extent(g, a, e + 1);
        if e + 1 <= a + limit {
            lemma_solid_fit(g, a, e + 1, limit);
        }
    }
}

proof fn lemma_solid_gap(g: Seq<Glyph>, a: int, e: int)
    requires
        0 <= a <= e <= g.len(),
        forall|i: int| 0 <= i < g.len() ==> solid((#[trigger] g[i]).0),
    ensures
        last_gap(g, a, e) == a,
    decreases e - a,
{
    if a < e {
        assert(solid(g[e - 1].0));
        lemma_solid_gap(g, a, e - 1);
    }
}

proof fn lemma_solid_rows(content: Seq<char>, st: Style, g: Seq<Glyph>, a: int, limit: int)
    requires
        limit >= 1,
        0 <= a <= g.len(),
        g == content.map_values(|c: char| (c, st)),
        solid_run(content),
    ensures
        rows_from(g, a, limit) == chunk_rows(content.skip(a), st, limit),
    decreases g.len() - a,
{
    let rest = content.skip(a);
    if a == g.len() {
        assert(rest.len() == 0);
        assert(rows_from(g, a, limit) =~= chunk_rows(rest, st, limit));
    } else {
        assert forall|i: int| 0 <= i < g.len() implies solid((#[trigger] g[i]).0) by {
            assert(g[i].0 == content[i]);
        }
        assert(solid(g[a].0));
        lemma_solid_fit(g, a, a + 1, limit);
        let e = fit_from(g, a, a + 1, limit);
        lemma_solid_gap(g, a, e);
        assert(break_at(g, a, limit) == e);
        assert(solid(g[e - 1].0));
        assert(trim_gap(g, a, e) == e);
        assert(uniform(g, a, e));
        let row = g.subrange(a, e);
        assert(glyph_text(row) =~= rest.take(e - a));
        lemma_solid_rows(content, st, g, e, limit);
        assert(skip_gap(g, a) == a);
        if e == g.len() {
            assert(rest.take(e - a) =~= rest);
            assert(content.skip(e).len() == 0);
            assert(rows_from(g, a, limit) =~= chunk_rows(rest, st, limit));
        } else {
            assert(content.skip(e) =~= rest.skip(limit));
            assert(rows_from(g, a, limit) =~= chunk_rows(rest, st, limit));
        }
    }
}

/// Wrapping at words cuts a run of solid characters, in one span, into pieces
/// of the row's width: there is no white space to break at and none to drop.
pub proof fn law_solid_run_is_chunked(content: Seq<char>, span: Style, base: Style, limit: int)
    requires
        limit >= 1,
        content.len() > 0,
        solid_run(content),
    ensures
        word_wrapped_line(
            LineView { spans: seq![SpanView { content, style: span }], style: base },
            limit,
        ) == chunk_rows(content, base.patched(span), limit),
{
    let st = base.patched(span);
    let spans = seq![SpanView { content, style: span }];
    let g = content.map_values(|c: char| (c, st));
    lemma_shown_solid(content, st);
    assert(spans.drop_last() =~= Seq::<SpanView>::empty());
    assert(line_glyphs(spans.drop_last(), base) =~= Seq::<Glyph>::empty());
    assert(spans.last() == (SpanView { content, style: span }));
    assert(line_glyphs(spans, base) =~= g);
    assert forall|i: int| 0 <= i < g.len() implies (#[trigger] g[i]).0 != '\n' by {
        assert(solid(content[i]));
    }
    lemma_groups_solid(g);
    assert(seq![g].drop_last() =~= Seq::<Seq<Glyph>>::empty());
    assert(group_rows(seq![g].drop_last(), limit) =~= Seq::<LineView>::empty());
    assert(seq![g].last() == g);
    assert(group_rows(seq![g], limit) =~= word_rows(g, limit));
    lemma_solid_rows(content, st, g, 0, limit);
    assert(content.skip(0) =~= content);
}

/// A line of one span of printable ASCII without spaces.
pub open spec fn is_ascii_run(line: LineView) -> bool {
    &&& line.spans.len() == 1
    &&& line.spans[0].content.len() > 0
    &&& forall|i: int|
        0 <= i < line.spans[0].content.len() ==> text::ascii_graphic(
            #[trigger] line.spans[0].content[i],
        )
}

/// Fast path of [`wrap_lines_at_words`]: a single span of printable ASCII is
/// cut into rows of `limit` characters. Every other line gives `None`.
pub fn wrap_ascii_run(line: &Line, limit: usize) -> (r: Option<Vec<Line>>)
    requires
        limit >= 1,
    ensures
        r is Some <==> is_ascii_run(line@),
        r is Some ==> style::lines_view(r->0@) == chunk_rows(
            line@.spans[0].content,
            line.style.patched(line@.spans[0].style),
            limit as int,
        ),
        r is Some ==> solid_run(line@.spans[0].content),
{
    if line.spans.len() != 1 {
        return None;
    }
    let span = &line.spans[0];
    assert(line@.spans[0] == span@);
    let v = chars_of(span.content.as_str());
    if v.len() == 0 {
        return None;
    }
    let mut i: usize = 0;
    while i < v.len()
        invariant
            v@ == line@.spans[0].content,
            line@.spans.len() == 1,
            i <= v@.len(),
            forall|j: int| 0 <= j < i ==> text::ascii_graphic(#[trigger] v@[j]) && solid(v@[j]),
        decreases v@.len() - i,
    {
        // Looking the width up is what makes a cut by characters right.
        if !is_graphic_ascii(v[i]) || cell_width(v[i]) != 1 {
            return None;
        }
        i += 1;
    }
    let st: Style = line.style.patch(span.style);
    let ghost all = v@;
    let ghost lim = limit as int;
    let ghost whole = chunk_rows(all, st, lim);
    let mut rows: Vec<Line> = Vec::new();
    let mut from: usize = 0;
    assert(all.skip(0) =~= all);
    assert(style::lines_view(rows@) + whole =~= whole);
    while from < v.len()
        invariant
            lim == limit as int,
            limit >= 1,
            all == v@,
            from <= v@.len(),
            whole == chunk_rows(all, st, lim),
            style::lines_view(rows@) + chunk_rows(all.skip(from as int), st, lim) == whole,
        decreases v@.len() - from,
    {
        let to: usize = if v.len() - from > limit {
            from + limit
        } else {
            v.len()
        };
        let ghost rest = all.skip(from as int);
        let mut spans: Vec<Span> = Vec::new();
        let span = Span::styled(string_of(&v, from, to), st);
        let ghost sv = span@;
        spans.push(span);
        let row = Line::from_spans(spans);
        proof {
            assert(style::spans_view(spans@) =~= seq![sv]);
            style::lemma_lines_push(rows@, row);
            let tail = chunk_rows(all.skip(to as int), st, lim);
            if rest.len() > lim {
                assert(rest.skip(lim) =~= all.skip(to as int));
                assert(rest.take(lim) =~= all.subrange(from as int, to as int));
            } else {
                assert(rest =~= all.subrange(from as int, to as int));
                assert(all.skip(to as int).len() == 0);
            }
            assert(chunk_rows(rest, st, lim) =~= seq![row@] + tail);
            assert(style::lines_view(rows@).push(row@) + tail =~= style::lines_view(rows@) + (
            seq![row@] + tail));
        }
        rows.push(row);
        from = to;
    }
    proof {
        assert(all.skip(from as int).len() == 0);
        assert(style::lines_view(rows@) + Seq::<LineView>::empty() =~= style::lines_view(rows@));
    }
    Some(rows)
}

/// Append the rows of one line, broken at white space.
fn push_word_rows(output: &mut Vec<Line>, line: &Line, limit: usize)
    requires
        limit >= 1,
    ensures
        style::lines_view(final(output)@) == style::lines_view(old(output)@) + word_wrapped_line(
            line@,
            limit as int,
        ),
{
    let ghost start = style::lines_view(output@);
    let ghost lim = limit as int;
    let ghost all = line@.spans;
    let mut current: Vec<Glyph> = Vec::new();
    let mut i: usize = 0;
    proof {
        assert(all.take(0) =~= Seq::<SpanView>::empty());
        let none = glyph_groups(line_glyphs(all.take(0), line.style));
        assert(none =~= seq![Seq::<Glyph>::empty()]);
        assert(none.drop_last() =~= Seq::<Seq<Glyph>>::empty());
        assert(start + group_rows(none.drop_last(), lim) =~= start);
        assert(current@ =~= none.last());
    }
    while i < line.spans.len()
        invariant
            limit >= 1,
            lim == limit as int,
            all == line@.spans,
            i <= line.spans@.len(),
            current@ == glyph_groups(line_glyphs(all.take(i as int), line.style)).last(),
            style::lines_view(output@) == start + group_rows(
                glyph_groups(line_glyphs(all.take(i as int), line.style)).drop_last(),
                lim,
            ),
        decreases line.spans@.len() - i,
    {
        let st: Style = line.style.patch(line.spans[i].style);
        let v = chars_of(line.spans[i].content.as_str());
        let ghost base = line_glyphs(all.take(i as int), line.style);
        let mut j: usize = 0;
        proof {
            assert(v@.take(0) =~= Seq::<char>::empty());
            assert(base + shown_glyphs(v@.take(0), st) =~= base);
        }
        while j < v.len()
            invariant
                limit >= 1,
                lim == limit as int,
                j <= v@.len(),
                current@ == glyph_groups(base + shown_glyphs(v@.take(j as int), st)).last(),
                style::lines_view(output@) == start + group_rows(
                    glyph_groups(base + shown_glyphs(v@.take(j as int), st)).drop_last(),
                    lim,
                ),
            decreases v@.len() - j,
        {
            let c: char = v[j];
            let ghost p = shown_glyphs(v@.take(j as int), st);
            let ghost g = base + p;
            let ghost groups = glyph_groups(g);
            proof {
                assert(v@.take(j + 1).drop_last() =~= v@.take(j as int));
                lemma_groups_nonempty(g);
                assert(groups.drop_last().push(groups.last()) =~= groups);
            }
            if c == '\n' {
                push_wrapped_line(output, &current, limit);
                current = Vec::new();
                proof {
                    let next = g.push((c, st));
                    assert(next.drop_last() =~= g);
                    assert(base + p.push((c, st)) =~= next);
                    assert(glyph_groups(next).drop_last() =~= groups);
                    assert(group_rows(groups, lim) == group_rows(groups.drop_last(), lim)
                        + word_rows(groups.last(), lim));
                    assert(style::lines_view(output@) =~= start + group_rows(groups, lim));
                    assert(current@ =~= glyph_groups(next).last());
                }
            } else if c == '\t' || !is_unsafe_terminal_char(c) {
                let shown: char = if c == '\t' {
                    ' '
                } else {
                    c
                };
                current.push((shown, st));
                proof {
                    let next = g.push((shown, st));
                    assert(next.drop_last() =~= g);
                    assert(base + p.push((shown, st)) =~= next);
                    assert(glyph_groups(next).drop_last() =~= groups.drop_last());
                    assert(current@ =~= glyph_groups(next).last());
                }
            }
            j += 1;
        }
        proof {
            assert(v@.take(j as int) =~= v@);
            assert(all.take(i + 1).drop_last() =~= all.take(i as int));
            assert(all.take(i + 1).last() == line.spans@[i as int]@);
        }
        i += 1;
    }
    push_wrapped_line(output, &current, limit);
    proof {
        assert(all.take(i as int) =~= all);
        let groups = glyph_groups(line_glyphs(all, line.style));
        lemma_groups_nonempty(line_glyphs(all, line.style));
        assert(style::lines_view(output@) =~= start + group_rows(groups, lim));
    }
}

/// Wrap lines at white space where possible; a value without white space is
/// kept whole until it exceeds the row.
pub fn wrap_lines_at_words(lines: &Vec<Line>, width: usize) -> (r: Vec<Line>)
    ensures
        style::lines_view(r@) == word_wrapped(
            style::lines_view(lines@),
            at_least_one(width as int),
        ),
{
    let limit: usize = if width < 1 {
        1
    } else {
        width
    };
    let ghost lim = limit as int;
    let ghost all = style::lines_view(lines@);
    let mut output: Vec<Line> = Vec::new();
    let mut i: usize = 0;
    assert(all.take(0) =~= Seq::<LineView>::empty());
    assert(style::lines_view(output@) =~= Seq::<LineView>::empty());
    while i < lines.len()
        invariant
            limit >= 1,
            lim == limit as int,
            all == style::lines_view(lines@),
            i <= lines@.len(),
            style::lines_view(output@) == word_wrapped(all.take(i as int), lim),
        decreases lines@.len() - i,
    {
        proof {
            assert(all.take(i + 1).drop_last() =~= all.take(i as int));
            assert(all.take(i + 1).last() == lines@[i as int]@);
        }
        match wrap_ascii_run(&lines[i], limit) {
            Some(rows) => {
                let mut rows = rows;
                let ghost had = output@;
                proof {
                    let l = lines@[i as int]@;
                    law_solid_run_is_chunked(l.spans[0].content, l.spans[0].style, l.style, lim);
                    assert(l.spans =~= seq![SpanView {
                        content: l.spans[0].content,
                        style: l.spans[0].style,
                    }]);
                    assert(style::lines_view(had + rows@) =~= style::lines_view(had)
                        + style::lines_view(rows@));
                }
                output.append(&mut rows);
            },
            None => {
                push_word_rows(&mut output, &lines[i], limit);
            },
        }
        i += 1;
    }
    assert(all.take(i as int) =~= all);
    output
}

// ---------------------------------------------------------------------------
// Rows broken at the cell limit
// ---------------------------------------------------------------------------

/// State while rows are filled: finished rows, finished spans of the current
/// row, its cells so far, and the text of its current span.
#[verifier::ext_equal]
pub struct Flow {
    pub rows: Seq<LineView>,
    pub spans: Seq<SpanView>,
    pub used: nat,
    pub text: Seq<char>,
}

impl Flow {
    /// The current row is finished, its text closing in `style`.
    pub open spec fn broken(self, style: Style) -> Flow {
        Flow {
            rows: self.rows.push(
                style::plain_line(self.spans.push(SpanView { content: self.text, style })),
            ),
            spans: Seq::empty(),
            used: 0,
            text: Seq::empty(),
        }
    }

    /// One character is added; a character that does not fit opens a new row.
    pub open spec fn character(self, c: char, style: Style, limit: int) -> Flow {
        if c == '\n' {
            self.broken(style)
        } else if text::hostile(c) && c != '\t' {
            self
        } else {
            let shown = if c == '\t' {
                ' '
            } else {
                c
            };
            let at = if self.used + width::cells(shown) > limit && self.used > 0 {
                self.broken(style)
            } else {
                self
            };
            Flow { used: at.used + width::cells(shown), text: at.text.push(shown), ..at }
        }
    }

    /// The characters of one span are added.
    pub open spec fn characters(self, content: Seq<char>, style: Style, limit: int) -> Flow
        decreases content.len(),
    {
        if content.len() == 0 {
            self
        } else {
            self.characters(content.drop_last(), style, limit).character(
                content.last(),
                style,
                limit,
            )
        }
    }

    /// The current span is closed where it holds anything.
    pub open spec fn closed_span(self, style: Style) -> Flow {
        if self.text.len() > 0 {
            Flow {
                spans: self.spans.push(SpanView { content: self.text, style }),
                text: Seq::empty(),
                ..self
            }
        } else {
            self
        }
    }
}

/// Rows filled by the spans of one line.
pub open spec fn flow_spans(spans: Seq<SpanView>, base: Style, limit: int) -> Flow
    decreases spans.len(),
{
    if spans.len() == 0 {
        Flow { rows: Seq::empty(), spans: Seq::empty(), used: 0, text: Seq::empty() }
    } else {
        let style = base.patched(spans.last().style);
        flow_spans(spans.drop_last(), base, limit).characters(
            spans.last().content,
            style,
            limit,
        ).closed_span(style)
    }
}

/// The rows of one line broken at the cell limit.
pub open spec fn hard_wrapped_line(line: LineView, limit: int) -> Seq<LineView> {
    let f = flow_spans(line.spans, line.style, limit);
    f.rows.push(style::plain_line(f.spans))
}

/// The rows of several lines broken at the cell limit.
pub open spec fn hard_wrapped(lines: Seq<LineView>, limit: int) -> Seq<LineView>
    decreases lines.len(),
{
    if lines.len() == 0 {
        Seq::empty()
    } else {
        hard_wrapped(lines.drop_last(), limit) + hard_wrapped_line(lines.last(), limit)
    }
}

/// Append the rows of one line, broken at the cell limit.
fn push_hard_rows(output: &mut Vec<Line>, line: &Line, limit: usize)
    ensures
        style::lines_view(final(output)@) == style::lines_view(old(output)@) + hard_wrapped_line(
            line@,
            limit as int,
        ),
{
    let ghost start = style::lines_view(output@);
    let ghost lim = limit as int;
    let ghost all = line@.spans;
    let mut spans: Vec<Span> = Vec::new();
    let mut used: usize = 0;
    let mut i: usize = 0;
    let ghost mut f = flow_spans(all.take(0), line.style, lim);
    proof {
        assert(all.take(0) =~= Seq::<SpanView>::empty());
        assert(start + f.rows =~= start);
        assert(style::spans_view(spans@) =~= f.spans);
    }
    while i < line.spans.len()
        invariant
            lim == limit as int,
            all == line@.spans,
            i <= line.spans@.len(),
            used <= limit || used <= 3,
            f == flow_spans(all.take(i as int), line.style, lim),
            f.text.len() == 0,
            style::lines_view(output@) == start + f.rows,
            style::spans_view(spans@) == f.spans,
            used == f.used,
        decreases line.spans@.len() - i,
    {
        let st: Style = line.style.patch(line.spans[i].style);
        let v = chars_of(line.spans[i].content.as_str());
        let mut current = String::new();
        let mut j: usize = 0;
        let ghost base = f;
        proof {
            assert(v@.take(0) =~= Seq::<char>::empty());
            assert(current@ =~= f.text);
        }
        while j < v.len()
            invariant
                lim == limit as int,
                j <= v@.len(),
                used <= limit || used <= 3,
                f == base.characters(v@.take(j as int), st, lim),
                style::lines_view(output@) == start + f.rows,
                style::spans_view(spans@) == f.spans,
                used == f.used,
                current@ == f.text,
            decreases v@.len() - j,
        {
            let c: char = v[j];
            let ghost before = f;
            proof {
                assert(v@.take(j + 1).drop_last() =~= v@.take(j as int));
                f = before.character(c, st, lim);
            }
            if c == '\n' || c == '\t' || !is_unsafe_terminal_char(c) {
                let shown: char = if c == '\t' {
                    ' '
                } else {
                    c
                };
                let cells: usize = if c == '\n' {
                    0
                } else {
                    cell_width(shown)
                };
                if c == '\n' || (!fits(used, cells, limit) && used > 0) {
                    let span = Span::styled(current, st);
                    proof {
                        style::lemma_spans_push(spans@, span);
                    }
                    spans.push(span);
                    let row = Line::from_spans(spans);
                    proof {
                        style::lemma_lines_push(output@, row);
                        assert(start + before.rows.push(row@) =~= (start + before.rows).push(row@));
                    }
                    output.push(row);
                    spans = Vec::new();
                    current = String::new();
                    used = 0;
                    proof {
                        assert(style::spans_view(spans@) =~= Seq::<SpanView>::empty());
                        assert(style::lines_view(output@) =~= start + before.broken(st).rows);
                        assert(current@ =~= Seq::<char>::empty());
                    }
                }
                if c != '\n' {
                    current.push(shown);
                    used = used + cells;
                }
            }
            j += 1;
        }
        let ghost mid = f;
        proof {
            assert(v@.take(j as int) =~= v@);
            assert(all.take(i + 1).drop_last() =~= all.take(i as int));
            assert(all.take(i + 1).last() == line.spans@[i as int]@);
            f = mid.closed_span(st);
        }
        if !current.as_str().is_empty() {
            let span = Span::styled(current, st);
            proof {
                style::lemma_spans_push(spans@, span);
            }
            spans.push(span);
        }
        i += 1;
    }
    let row = Line::from_spans(spans);
    proof {
        assert(all.take(i as int) =~= all);
        style::lemma_lines_push(output@, row);
        assert(start + f.rows.push(row@) =~= (start + f.rows).push(row@));
    }
    output.push(row);
}

/// Wrap by terminal cells, each character keeping its style.
pub fn wrap_lines(lines: &Vec<Line>, width: usize) -> (r: Vec<Line>)
    ensures
        style::lines_view(r@) == hard_wrapped(
            style::lines_view(lines@),
            at_least_one(width as int),
        ),
{
    let limit: usize = if width < 1 {
        1
    } else {
        width
    };
    let ghost all = style::lines_view(lines@);
    let mut output: Vec<Line> = Vec::new();
    let mut i: usize = 0;
    assert(all.take(0) =~= Seq::<LineView>::empty());
    assert(style::lines_view(output@) =~= Seq::<LineView>::empty());
    while i < lines.len()
        invariant
            all == style::lines_view(lines@),
            i <= lines@.len(),
            style::lines_view(output@) == hard_wrapped(all.take(i as int), limit as int),
        decreases lines@.len() - i,
    {
        proof {
            assert(all.take(i + 1).drop_last() =~= all.take(i as int));
            assert(all.take(i + 1).last() == lines@[i as int]@);
        }
        push_hard_rows(&mut output, &lines[i], limit);
        i += 1;
    }
    assert(all.take(i as int) =~= all);
    output
}

// ---------------------------------------------------------------------------
// Cutting to one row
// ---------------------------------------------------------------------------

/// Longest prefix of `s` whose characters take at most `budget` cells.
pub open spec fn fit_prefix(s: Seq<char>, budget: int) -> Seq<char>
    decreases s.len(),
{
    if s.len() > 0 && width::cells(s[0]) <= budget {
        seq![s[0]] + fit_prefix(s.drop_first(), budget - width::cells(s[0]))
    } else {
        Seq::empty()
    }
}

/// Longest suffix of `s` whose characters take at most `budget` cells.
pub open spec fn fit_suffix(s: Seq<char>, budget: int) -> Seq<char>
    decreases s.len(),
{
    if s.len() > 0 && width::cells(s.last()) <= budget {
        fit_suffix(s.drop_last(), budget - width::cells(s.last())).push(s.last())
    } else {
        Seq::empty()
    }
}

/// The spans that fit into `budget` cells, the first one that does not cut
/// short and ended by an ellipsis.
pub open spec fn cut_spans(spans: Seq<SpanView>, budget: int) -> Seq<SpanView>
    decreases spans.len(),
{
    if spans.len() == 0 {
        Seq::empty()
    } else {
        let first = spans[0];
        let taken = width::text_width(first.content);
        if taken <= budget {
            seq![first] + cut_spans(spans.drop_first(), budget - taken)
        } else {
            seq![SpanView {
                content: fit_prefix(first.content, budget).push('\u{2026}'),
                style: first.style,
            }]
        }
    }
}

/// The characters of spans, each in its style.
pub open spec fn span_glyphs(spans: Seq<SpanView>) -> Seq<Glyph>
    decreases spans.len(),
{
    if spans.len() == 0 {
        Seq::empty()
    } else {
        let last = spans.last();
        span_glyphs(spans.drop_last()) + last.content.map_values(|c: char| (c, last.style))
    }
}

/// The spans as one row: as they are where they fit, else cut, with one span
/// for each run of a style.
pub open spec fn one_row(spans: Seq<SpanView>, width: int) -> LineView {
    let limit = at_least_one(width);
    style::plain_line(
        if style::spans_width(spans) <= limit {
            spans
        } else {
            runs(span_glyphs(cut_spans(spans, limit - 1)))
        },
    )
}

/// Appends the characters of a span.
fn push_glyphs(out: &mut Vec<Glyph>, span: &Span)
    ensures
        final(out)@ == old(out)@ + span@.content.map_values(|c: char| (c, span.style)),
{
    let ghost before = out@;
    let ghost more = span@.content.map_values(|c: char| (c, span.style));
    let v = chars_of(span.content.as_str());
    let mut i: usize = 0;
    assert(before + more.take(0) =~= before);
    while i < v.len()
        invariant
            v@ == span@.content,
            i <= v@.len(),
            more == span@.content.map_values(|c: char| (c, span.style)),
            out@ == before + more.take(i as int),
        decreases v@.len() - i,
    {
        assert((before + more.take(i as int)).push((v@[i as int], span.style)) =~= before
            + more.take(i + 1));
        out.push((v[i], span.style));
        i += 1;
    }
    assert(more.take(i as int) =~= more);
}

/// Spans as a row with one span for each run of a style.
fn merged_line(spans: &Vec<Span>) -> (r: Line)
    ensures
        r@ == style::plain_line(runs(span_glyphs(style::spans_view(spans@)))),
{
    let ghost all = style::spans_view(spans@);
    let mut out: Vec<Glyph> = Vec::new();
    let mut i: usize = 0;
    assert(all.take(0) =~= Seq::<SpanView>::empty());
    while i < spans.len()
        invariant
            all == style::spans_view(spans@),
            i <= spans@.len(),
            out@ == span_glyphs(all.take(i as int)),
        decreases spans@.len() - i,
    {
        assert(all.take(i + 1).drop_last() =~= all.take(i as int));
        assert(all[i as int] == spans@[i as int]@);
        push_glyphs(&mut out, &spans[i]);
        i += 1;
    }
    assert(all.take(i as int) =~= all);
    assert(out@.subrange(0, out@.len() as int) =~= out@);
    let n: usize = out.len();
    glyph_line(&out, 0, n)
}

/// The prefix of a text that takes at most `budget` cells, with an ellipsis.
fn cut_text(s: &str, budget: usize) -> (r: String)
    ensures
        r@ == fit_prefix(s@, budget as int).push('\u{2026}'),
{
    let v = chars_of(s);
    let mut out = String::new();
    let mut left: usize = budget;
    let mut i: usize = 0;
    let mut room: bool = true;
    assert(s@.skip(0) =~= s@);
    assert(out@ + fit_prefix(s@, budget as int) =~= fit_prefix(s@, budget as int));
    while i < v.len() && room
        invariant
            v@ == s@,
            i <= v@.len(),
            room ==> out@ + fit_prefix(s@.skip(i as int), left as int) == fit_prefix(
                s@,
                budget as int,
            ),
            !room ==> out@ == fit_prefix(s@, budget as int),
        decreases v@.len() - i + if room {
            1int
        } else {
            0
        },
    {
        let w: usize = cell_width(v[i]);
        let ghost rest = s@.skip(i as int);
        if w > left {
            room = false;
            assert(out@ + Seq::<char>::empty() =~= out@);
        } else {
            proof {
                assert(rest.drop_first() =~= s@.skip(i + 1));
                assert(out@.push(v@[i as int]) + fit_prefix(s@.skip(i + 1), left - w) =~= out@ + (
                seq![rest[0]] + fit_prefix(rest.drop_first(), left - w)));
            }
            out.push(v[i]);
            left -= w;
            i += 1;
        }
    }
    proof {
        if room {
            assert(s@.skip(i as int).len() == 0);
            assert(out@ + Seq::<char>::empty() =~= out@);
        }
    }
    out.push('\u{2026}');
    out
}

/// Clamp spans to exactly one row. Spans that fit pass through unchanged.
pub fn truncate_line(spans: Vec<Span>, width: usize) -> (r: Line)
    ensures
        r@ == one_row(style::spans_view(spans@), width as int),
{
    let limit: usize = if width < 1 {
        1
    } else {
        width
    };
    let ghost all = style::spans_view(spans@);
    if within(&spans, limit) {
        return Line::from_spans(spans);
    }
    let mut budget: usize = limit - 1;
    let mut out: Vec<Span> = Vec::new();
    let mut i: usize = 0;
    let mut open: bool = true;
    assert(all.skip(0) =~= all);
    assert(style::spans_view(out@) + cut_spans(all, budget as int) =~= cut_spans(
        all,
        budget as int,
    ));
    while i < spans.len() && open
        invariant
            limit >= 1,
            all == style::spans_view(spans@),
            i <= spans@.len(),
            open ==> style::spans_view(out@) + cut_spans(all.skip(i as int), budget as int)
                == cut_spans(all, limit - 1),
            !open ==> style::spans_view(out@) == cut_spans(all, limit - 1),
        decreases spans@.len() - i + if open {
            1int
        } else {
            0
        },
    {
        let w: usize = crate::width::str_width(spans[i].content.as_str());
        let ghost rest = all.skip(i as int);
        assert(rest[0] == spans@[i as int]@);
        if w <= budget {
            let span = spans[i].duplicate();
            proof {
                style::lemma_spans_push(out@, span);
                assert(rest.drop_first() =~= all.skip(i + 1));
                assert(style::spans_view(out@).push(span@) + cut_spans(all.skip(i + 1), budget - w)
                    =~= style::spans_view(out@) + (seq![rest[0]] + cut_spans(
                    rest.drop_first(),
                    budget - w,
                )));
            }
            out.push(span);
            budget -= w;
            i += 1;
        } else {
            let span = Span::styled(
                cut_text(spans[i].content.as_str(), budget),
                spans[i].style,
            );
            proof {
                style::lemma_spans_push(out@, span);
                assert(style::spans_view(out@).push(span@) =~= style::spans_view(out@) + seq![
                    span@,
                ]);
            }
            out.push(span);
            open = false;
        }
    }
    proof {
        if open {
            assert(all.skip(i as int).len() == 0);
            assert(style::spans_view(out@) + Seq::<SpanView>::empty() =~= style::spans_view(out@));
        }
    }
    merged_line(&out)
}

/// Whether the spans take at most `limit` cells.
fn within(spans: &Vec<Span>, limit: usize) -> (r: bool)
    ensures
        r == (style::spans_width(style::spans_view(spans@)) <= limit),
{
    let ghost all = style::spans_view(spans@);
    let mut left: usize = limit;
    let mut i: usize = 0;
    assert(all.take(0) =~= Seq::<SpanView>::empty());
    while i < spans.len()
        invariant
            all == style::spans_view(spans@),
            i <= spans@.len(),
            left <= limit,
            style::spans_width(all.take(i as int)) == limit - left,
        decreases spans@.len() - i,
    {
        assert(all.take(i + 1).drop_last() =~= all.take(i as int));
        let w: usize = crate::width::str_width(spans[i].content.as_str());
        if w > left {
            proof {
                style::lemma_spans_width_monotonic(all, i + 1);
            }
            return false;
        }
        left -= w;
        i += 1;
    }
    assert(all.take(i as int) =~= all);
    true
}

/// What is shown of a text in `width` cells when its end matters most.
pub open spec fn tail_of(s: Seq<char>, width: int) -> Seq<char> {
    if width == 0 {
        Seq::empty()
    } else if width::text_width(s) <= width {
        s
    } else {
        seq!['\u{2026}'] + fit_suffix(s, width - 1)
    }
}

/// Keep the tail of a long text; a leading ellipsis marks what was cut.
pub fn tail_text(s: &str, width: usize) -> (r: String)
    ensures
        r@ == tail_of(s@, width as int),
{
    if width == 0 {
        return String::new();
    }
    if crate::width::str_width(s) <= width {
        return s.to_owned();
    }
    let v = chars_of(s);
    let budget: usize = width - 1;
    let mut left: usize = budget;
    let mut from: usize = v.len();
    let mut room: bool = true;
    assert(s@.take(from as int) =~= s@);
    assert(fit_suffix(s@, budget as int) + s@.skip(from as int) =~= fit_suffix(s@, budget as int));
    while from > 0 && room
        invariant
            v@ == s@,
            from <= v@.len(),
            room ==> fit_suffix(s@.take(from as int), left as int) + s@.skip(from as int)
                == fit_suffix(s@, budget as int),
            !room ==> s@.skip(from as int) == fit_suffix(s@, budget as int),
        decreases from + if room {
            1int
        } else {
            0
        },
    {
        let w: usize = cell_width(v[from - 1]);
        let ghost front = s@.take(from as int);
        if w > left {
            room = false;
            assert(Seq::<char>::empty() + s@.skip(from as int) =~= s@.skip(from as int));
        } else {
            proof {
                assert(front.drop_last() =~= s@.take(from - 1));
                assert(fit_suffix(s@.take(from - 1), left - w) + s@.skip(from - 1) =~= fit_suffix(
                    front.drop_last(),
                    left - w,
                ).push(front.last()) + s@.skip(from as int));
            }
            left -= w;
            from -= 1;
        }
    }
    proof {
        if room {
            assert(s@.take(0).len() == 0);
            assert(Seq::<char>::empty() + s@.skip(from as int) =~= s@.skip(from as int));
        }
    }
    let mut out = String::new();
    out.push('\u{2026}');
    let kept = string_of(&v, from, v.len());
    assert(kept@ =~= s@.skip(from as int));
    out.append(kept.as_str());
    assert(out@ =~= seq!['\u{2026}'] + fit_suffix(s@, budget as int));
    out
}

// ---------------------------------------------------------------------------
// What wrapping keeps
// ---------------------------------------------------------------------------

/// Cells that the characters of `s` take one by one.
pub open spec fn cell_sum(s: Seq<char>) -> nat
    decreases s.len(),
{
    if s.len() == 0 {
        0
    } else {
        cell_sum(s.drop_last()) + width::cells(s.last())
    }
}

/// The text of several rows, one after the other.
pub open spec fn rows_text(rows: Seq<LineView>) -> Seq<char>
    decreases rows.len(),
{
    if rows.len() == 0 {
        Seq::empty()
    } else {
        rows[0].text() + rows_text(rows.drop_first())
    }
}

/// The characters of `s` that are no white space.
pub open spec fn ink(s: Seq<char>) -> Seq<char> {
    s.filter(|c: char| !text::white(c))
}

proof fn lemma_extent_is_sum(g: Seq<Glyph>, a: int, b: int)
    requires
        0 <= a <= b <= g.len(),
    ensures
        extent(g, a, b) == cell_sum(glyph_text(g.subrange(a, b))),
    decreases b - a,
{
    let t = glyph_text(g.subrange(a, b));
    if a < b {
        lemma_extent_is_sum(g, a, b - 1);
        assert(t.drop_last() =~= glyph_text(g.subrange(a, b - 1)));
    }
}

pub proof fn lemma_runs_text(g: Seq<Glyph>)
    ensures
        style::span_text(runs(g)) == glyph_text(g),
    decreases g.len(),
{
    if g.len() == 0 {
        assert(glyph_text(g) =~= Seq::<char>::empty());
    } else {
        let h = g.drop_last();
        let p = runs(h);
        let c = g.last().0;
        lemma_runs_text(h);
        assert(glyph_text(g) =~= glyph_text(h).push(c));
        let r = runs(g);
        if p.len() > 0 && p.last().style == g.last().1 {
            assert(r.drop_last() =~= p.drop_last());
            assert(style::span_text(r) =~= style::span_text(p.drop_last()) + p.last().content.push(c));
            assert(style::span_text(r) =~= style::span_text(p).push(c));
        } else {
            assert(r.drop_last() =~= p);
            assert(style::span_text(r) =~= style::span_text(p).push(c));
        }
    }
}

proof fn lemma_row_text(g: Seq<Glyph>, a: int, limit: int)
    requires
        0 <= a < g.len(),
    ensures
        row_at(g, a, limit).text() == glyph_text(
            g.subrange(a, trim_gap(g, a, break_at(g, a, limit))),
        ),
{
    lemma_break_bounds(g, a, limit);
    lemma_trim_bounds(g, a, break_at(g, a, limit));
    let row = g.subrange(a, trim_gap(g, a, break_at(g, a, limit)));
    lemma_runs_text(row);
    if uniform(g, a, fit_from(g, a, a + 1, limit)) {
        let spans = seq![SpanView { content: glyph_text(row), style: g[a].1 }];
        assert(spans.drop_last() =~= Seq::<SpanView>::empty());
        assert(style::span_text(spans.drop_last()) =~= Seq::<char>::empty());
        assert(style::span_text(spans) =~= glyph_text(row));
    }
}

proof fn lemma_rows_width(g: Seq<Glyph>, a: int, limit: int, i: int)
    requires
        0 <= a <= g.len(),
        0 <= i < rows_from(g, a, limit).len(),
    ensures
        cell_sum(rows_from(g, a, limit)[i].text()) <= limit || rows_from(g, a, limit)[i].text().len()
            <= 1,
    decreases g.len() - a,
{
    lemma_skip_bounds(g, a);
    let s = if a > 0 {
        skip_gap(g, a)
    } else {
        a
    };
    lemma_break_bounds(g, s, limit);
    if i == 0 {
        let b = break_at(g, s, limit);
        let e = fit_from(g, s, s + 1, limit);
        let t = trim_gap(g, s, b);
        lemma_trim_bounds(g, s, b);
        lemma_row_text(g, s, limit);
        lemma_fit_bounds(g, s, s + 1, limit);
        lemma_extent_is_sum(g, s, t);
        lemma_extent_monotonic(g, s, t, e);
    } else {
        lemma_rows_width(g, break_at(g, s, limit), limit, i - 1);
    }
}

/// No row that breaks at words is wider than the limit, unless it is one
/// single character that is.
pub proof fn law_word_rows_fit(g: Seq<Glyph>, limit: int, i: int)
    requires
        limit >= 1,
        0 <= i < word_rows(g, limit).len(),
    ensures
        cell_sum(word_rows(g, limit)[i].text()) <= limit || word_rows(g, limit)[i].text().len()
            <= 1,
{
    if g.len() > 0 {
        lemma_rows_width(g, 0, limit, i);
    } else {
        assert(style::span_text(Seq::<SpanView>::empty()) =~= Seq::<char>::empty());
    }
}

pub proof fn lemma_ink_add(a: Seq<char>, b: Seq<char>)
    ensures
        ink(a + b) == ink(a) + ink(b),
    decreases b.len(),
{
    let f = |c: char| !text::white(c);
    reveal(Seq::filter);
    if b.len() == 0 {
        assert(a + b =~= a);
        assert(ink(a) + ink(b) =~= ink(a));
    } else {
        let ab = a + b;
        assert(ab.drop_last() =~= a + b.drop_last());
        lemma_ink_add(a, b.drop_last());
        if f(b.last()) {
            assert(ink(ab) =~= ink(a) + ink(b));
        }
    }
}

pub proof fn lemma_ink_white(s: Seq<char>)
    requires
        forall|i: int| 0 <= i < s.len() ==> text::white(#[trigger] s[i]),
    ensures
        ink(s) == Seq::<char>::empty(),
    decreases s.len(),
{
    reveal(Seq::filter);
    if s.len() > 0 {
        lemma_ink_white(s.drop_last());
    }
}

proof fn lemma_rows_ink(g: Seq<Glyph>, a: int, limit: int)
    requires
        0 <= a <= g.len(),
    ensures
        ink(rows_text(rows_from(g, a, limit))) == ink(glyph_text(g.skip(a))),
    decreases g.len() - a,
{
    lemma_skip_bounds(g, a);
    let s = if a > 0 {
        skip_gap(g, a)
    } else {
        a
    };
    let rows = rows_from(g, a, limit);
    let skipped = glyph_text(g.subrange(a, s));
    lemma_ink_white_range(g, a, s);
    if s >= g.len() {
        assert(rows =~= Seq::<LineView>::empty());
        assert(glyph_text(g.skip(a)) =~= skipped);
        lemma_ink_white(Seq::<char>::empty());
    } else {
        lemma_break_bounds(g, s, limit);
        let b = break_at(g, s, limit);
        let t = trim_gap(g, s, b);
        lemma_trim_bounds(g, s, b);
        lemma_row_text(g, s, limit);
        lemma_rows_ink(g, b, limit);
        assert(rows.drop_first() =~= rows_from(g, b, limit));
        assert(rows[0] == row_at(g, s, limit));
        let row = glyph_text(g.subrange(s, t));
        let dropped = glyph_text(g.subrange(t, b));
        let rest = glyph_text(g.skip(b));
        lemma_ink_white_range(g, t, b);
        lemma_ink_add(row, rows_text(rows.drop_first()));
        assert(glyph_text(g.skip(a)) =~= skipped + (row + (dropped + rest)));
        lemma_ink_add(skipped, row + (dropped + rest));
        lemma_ink_add(row, dropped + rest);
        lemma_ink_add(dropped, rest);
        assert(Seq::<char>::empty() + ink(rest) =~= ink(rest));
        assert(Seq::<char>::empty() + (ink(row) + ink(rest)) =~= ink(row) + ink(rest));
    }
}

proof fn lemma_ink_white_range(g: Seq<Glyph>, a: int, b: int)
    requires
        0 <= a <= b <= g.len(),
        forall|j: int| a <= j < b ==> text::white((#[trigger] g[j]).0),
    ensures
        ink(glyph_text(g.subrange(a, b))) == Seq::<char>::empty(),
{
    let s = glyph_text(g.subrange(a, b));
    assert forall|i: int| 0 <= i < s.len() implies text::white(#[trigger] s[i]) by {
        assert(s[i] == g[a + i].0);
    }
    lemma_ink_white(s);
}

/// Wrapping at words loses and repeats nothing but white space.
pub proof fn law_word_rows_keep_ink(g: Seq<Glyph>, limit: int)
    requires
        limit >= 1,
    ensures
        ink(rows_text(word_rows(g, limit))) == ink(glyph_text(g)),
{
    if g.len() > 0 {
        lemma_rows_ink(g, 0, limit);
        assert(g.skip(0) =~= g);
    } else {
        let rows = word_rows(g, limit);
        assert(style::span_text(Seq::<SpanView>::empty()) =~= Seq::<char>::empty());
        assert(rows.drop_first() =~= Seq::<LineView>::empty());
        assert(rows_text(rows.drop_first()) =~= Seq::<char>::empty());
        assert(rows_text(rows) =~= glyph_text(g));
    }
}

/// Everything in the flow so far, in reading order.
spec fn flow_text(f: Flow) -> Seq<char> {
    rows_text(f.rows) + style::span_text(f.spans) + f.text
}

/// The characters of a text that a hard wrap shows: tabs as spaces, newlines
/// and unsafe characters left out.
pub open spec fn shown_text(s: Seq<char>) -> Seq<char>
    decreases s.len(),
{
    if s.len() == 0 {
        Seq::empty()
    } else {
        let c = s.last();
        if c == '\t' {
            shown_text(s.drop_last()).push(' ')
        } else if text::hostile(c) {
            shown_text(s.drop_last())
        } else {
            shown_text(s.drop_last()).push(c)
        }
    }
}

/// The shown characters of several spans.
pub open spec fn shown_spans(spans: Seq<SpanView>) -> Seq<char>
    decreases spans.len(),
{
    if spans.len() == 0 {
        Seq::empty()
    } else {
        shown_spans(spans.drop_last()) + shown_text(spans.last().content)
    }
}

pub proof fn lemma_rows_text_push(rows: Seq<LineView>, row: LineView)
    ensures
        rows_text(rows.push(row)) == rows_text(rows) + row.text(),
    decreases rows.len(),
{
    let all = rows.push(row);
    if rows.len() == 0 {
        assert(all.drop_first() =~= Seq::<LineView>::empty());
        assert(rows_text(all.drop_first()) =~= Seq::<char>::empty());
        assert(rows_text(all) =~= rows_text(rows) + row.text());
    } else {
        lemma_rows_text_push(rows.drop_first(), row);
        assert(all.drop_first() =~= rows.drop_first().push(row));
        assert(rows_text(all) =~= rows_text(rows) + row.text());
    }
}

proof fn lemma_broken_text(f: Flow, st: Style)
    ensures
        flow_text(f.broken(st)) == flow_text(f),
{
    let spans = f.spans.push(SpanView { content: f.text, style: st });
    let row = style::plain_line(spans);
    lemma_rows_text_push(f.rows, row);
    assert(spans.drop_last() =~= f.spans);
    assert(style::span_text(Seq::<SpanView>::empty()) =~= Seq::<char>::empty());
    assert(flow_text(f.broken(st)) =~= flow_text(f));
}

proof fn lemma_characters_text(f: Flow, s: Seq<char>, st: Style, limit: int)
    ensures
        flow_text(f.characters(s, st, limit)) == flow_text(f) + shown_text(s),
    decreases s.len(),
{
    if s.len() == 0 {
        assert(flow_text(f) + shown_text(s) =~= flow_text(f));
    } else {
        let h = f.characters(s.drop_last(), st, limit);
        let c = s.last();
        lemma_characters_text(f, s.drop_last(), st, limit);
        lemma_broken_text(h, st);
        let next = h.character(c, st, limit);
        if c == '\n' {
            assert(text::hostile(c));
        } else if text::hostile(c) && c != '\t' {
        } else {
            let shown = if c == '\t' {
                ' '
            } else {
                c
            };
            assert(flow_text(next) =~= flow_text(h).push(shown));
            assert(flow_text(next) =~= flow_text(f) + shown_text(s));
        }
    }
}

proof fn lemma_flow_spans_text(spans: Seq<SpanView>, base: Style, limit: int)
    ensures
        flow_text(flow_spans(spans, base, limit)) == shown_spans(spans),
        flow_spans(spans, base, limit).text.len() == 0,
    decreases spans.len(),
{
    assert(style::span_text(Seq::<SpanView>::empty()) =~= Seq::<char>::empty());
    if spans.len() == 0 {
        assert(flow_text(flow_spans(spans, base, limit)) =~= shown_spans(spans));
    } else {
        let st = base.patched(spans.last().style);
        let f = flow_spans(spans.drop_last(), base, limit);
        lemma_flow_spans_text(spans.drop_last(), base, limit);
        lemma_characters_text(f, spans.last().content, st, limit);
        let h = f.characters(spans.last().content, st, limit);
        if h.text.len() > 0 {
            let more = h.spans.push(SpanView { content: h.text, style: st });
            assert(more.drop_last() =~= h.spans);
            assert(flow_text(h.closed_span(st)) =~= flow_text(h));
        }
    }
}

/// Wrapping at the cell limit loses and repeats nothing: the rows hold the
/// shown characters of the line, in order.
pub proof fn law_hard_rows_keep_text(line: LineView, limit: int)
    requires
        limit >= 1,
    ensures
        rows_text(hard_wrapped_line(line, limit)) == shown_spans(line.spans),
{
    let f = flow_spans(line.spans, line.style, limit);
    lemma_flow_spans_text(line.spans, line.style, limit);
    lemma_rows_text_push(f.rows, style::plain_line(f.spans));
    assert(rows_text(hard_wrapped_line(line, limit)) =~= flow_text(f));
}

proof fn lemma_flow_solid(content: Seq<char>, st: Style, limit: int, n: int)
    requires
        limit >= 1,
        0 < n <= content.len(),
        solid_run(content),
    ensures
        ({
            let none = Flow {
                rows: Seq::empty(),
                spans: Seq::empty(),
                used: 0,
                text: Seq::empty(),
            };
            let f = none.characters(content.take(n), st, limit);
            &&& f.spans.len() == 0
            &&& f.text.len() > 0
            &&& f.used == f.text.len() <= limit
            &&& f.rows + seq![style::plain_line(seq![SpanView { content: f.text, style: st }])]
                == chunk_rows(content.take(n), st, limit)
            &&& n == f.rows.len() * limit + f.text.len()
        }),
    decreases n,
{
    let none = Flow { rows: Seq::empty(), spans: Seq::empty(), used: 0, text: Seq::empty() };
    let part = content.take(n);
    let c = content[n - 1];
    assert(solid(c));
    assert(c != '\t' && c != '\n');
    assert(part.drop_last() =~= content.take(n - 1));
    assert(part.last() == c);
    let f = none.characters(part, st, limit);
    if n == 1 {
        assert(content.take(0) =~= Seq::<char>::empty());
        assert(none.characters(content.take(0), st, limit) == none);
        assert(f.text =~= seq![c]);
        assert(part =~= seq![c]);
        assert(f.rows + seq![style::plain_line(seq![SpanView { content: f.text, style: st }])]
            =~= chunk_rows(part, st, limit));
        assert(f.rows.len() * limit == 0) by (nonlinear_arith)
            requires
                f.rows.len() == 0,
        ;
    } else {
        lemma_flow_solid(content, st, limit, n - 1);
        let h = none.characters(content.take(n - 1), st, limit);
        lemma_chunk_push(content.take(n - 1), h.rows, h.text, c, st, limit);
        assert(content.take(n - 1).push(c) =~= part);
        if h.used + 1 > limit {
            let row = style::plain_line(seq![SpanView { content: h.text, style: st }]);
            assert(h.spans.push(SpanView { content: h.text, style: st }) =~= seq![
                SpanView { content: h.text, style: st },
            ]);
            assert(f.rows =~= h.rows.push(row));
            assert(f.text =~= seq![c]);
            assert(h.rows + seq![row] =~= f.rows);
            assert((h.rows.len() + 1) * limit == h.rows.len() * limit + limit) by (nonlinear_arith);
        } else {
            assert(f.rows =~= h.rows);
        }
    }
}

/// Adding one character to a chunked text fills the last chunk or opens one.
proof fn lemma_chunk_push(
    s: Seq<char>,
    full: Seq<LineView>,
    last: Seq<char>,
    c: char,
    st: Style,
    limit: int,
)
    requires
        limit >= 1,
        s.len() > 0,
        0 < last.len() <= limit,
        full + seq![style::plain_line(seq![SpanView { content: last, style: st }])] == chunk_rows(
            s,
            st,
            limit,
        ),
    ensures
        last.len() < limit ==> full + seq![style::plain_line(
            seq![SpanView { content: last.push(c), style: st }],
        )] == chunk_rows(s.push(c), st, limit),
        last.len() == limit ==> full + seq![
            style::plain_line(seq![SpanView { content: last, style: st }]),
        ] + seq![style::plain_line(seq![SpanView { content: seq![c], style: st }])] == chunk_rows(
            s.push(c),
            st,
            limit,
        ),
    decreases s.len(),
{
    let row = style::plain_line(seq![SpanView { content: last, style: st }]);
    let all = full + seq![row];
    let t = s.push(c);
    if s.len() <= limit {
        let only = style::plain_line(seq![SpanView { content: s, style: st }]);
        assert(all =~= seq![only]);
        assert(all.len() == 1);
        assert(full.len() == 0);
        assert(all[0] == row);
        assert(row.spans[0] == only.spans[0]);
        assert(last == s);
        if last.len() < limit {
            assert(full + seq![style::plain_line(seq![SpanView { content: last.push(c), style: st }])]
                =~= chunk_rows(t, st, limit));
        } else {
            assert(t.take(limit) =~= s);
            assert(t.skip(limit) =~= seq![c]);
            assert(chunk_rows(seq![c], st, limit) =~= seq![
                style::plain_line(seq![SpanView { content: seq![c], style: st }]),
            ]);
            assert(all + seq![style::plain_line(seq![SpanView { content: seq![c], style: st }])]
                =~= chunk_rows(t, st, limit));
        }
    } else {
        let rest = s.skip(limit);
        let first = style::plain_line(seq![SpanView { content: s.take(limit), style: st }]);
        let tail = chunk_rows(rest, st, limit);
        assert(all == seq![first] + tail);
        lemma_chunk_count(rest, st, limit);
        assert(full.len() > 0);
        assert(full[0] == all[0]);
        assert(full[0] == first);
        let inner = full.drop_first();
        assert(inner + seq![row] =~= tail) by {
            assert forall|i: int| 0 <= i < tail.len() implies (inner + seq![row])[i] == tail[i] by {
                assert(all[i + 1] == tail[i]);
            }
        }
        lemma_chunk_push(rest, inner, last, c, st, limit);
        assert(t.take(limit) =~= s.take(limit));
        assert(t.skip(limit) =~= rest.push(c));
        assert(full =~= seq![first] + inner);
        if last.len() < limit {
            let more = style::plain_line(seq![SpanView { content: last.push(c), style: st }]);
            assert(full + seq![more] =~= seq![first] + (inner + seq![more]));
        } else {
            let more = style::plain_line(seq![SpanView { content: seq![c], style: st }]);
            assert(all + seq![more] =~= seq![first] + (inner + seq![row] + seq![more]));
        }
    }
}

proof fn lemma_chunk_count(s: Seq<char>, st: Style, limit: int)
    requires
        limit >= 1,
        s.len() > 0,
    ensures
        chunk_rows(s, st, limit).len() > 0,
{
}

/// Both wrappers give the same rows for a run of solid characters in one span.
pub proof fn law_wrappers_agree_on_solid_runs(
    content: Seq<char>,
    span: Style,
    base: Style,
    limit: int,
)
    requires
        limit >= 1,
        content.len() > 0,
        solid_run(content),
    ensures
        ({
            let line = LineView { spans: seq![SpanView { content, style: span }], style: base };
            hard_wrapped_line(line, limit) == word_wrapped_line(line, limit)
        }),
{
    let st = base.patched(span);
    let spans = seq![SpanView { content, style: span }];
    law_solid_run_is_chunked(content, span, base, limit);
    lemma_flow_solid(content, st, limit, content.len() as int);
    assert(content.take(content.len() as int) =~= content);
    assert(spans.drop_last() =~= Seq::<SpanView>::empty());
    let none = Flow { rows: Seq::empty(), spans: Seq::empty(), used: 0, text: Seq::empty() };
    assert(flow_spans(spans.drop_last(), base, limit) == none);
    assert(spans.last() == (SpanView { content, style: span }));
    let f = none.characters(content, st, limit);
    let closed = f.closed_span(st);
    assert(flow_spans(spans, base, limit) == closed);
    assert(closed.spans =~= seq![SpanView { content: f.text, style: st }]);
    assert(closed.rows.push(style::plain_line(closed.spans)) =~= closed.rows + seq![
        style::plain_line(closed.spans),
    ]);
}

} // verus!
