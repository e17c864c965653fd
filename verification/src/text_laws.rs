//! What holds of texts on their way to the screen: cleaned ones are safe, cut
//! ones fit, and the order of search words does not matter.
use crate::entries;
use crate::picker;
use crate::style;
use crate::style::SpanView;
use crate::text;
use crate::width;
use crate::wrap;
use vstd::prelude::*;

verus! {

/// What a text shows as holds no character that is unsafe in a terminal, but
/// for the line breaks that were asked for.
pub proof fn law_clean_text_is_safe(s: Seq<char>, multiline: bool, i: int)
    requires
        0 <= i < text::clean_text(s, multiline).len(),
    ensures
        ({
            let c = text::clean_text(s, multiline)[i];
            !text::hostile(c) || (multiline && c == '\n')
        }),
    decreases s.len(),
{
    if s.len() > 0 {
        let before = text::clean_text(s.drop_last(), multiline);
        if i < before.len() {
            law_clean_text_is_safe(s.drop_last(), multiline, i);
        }
    }
}

proof fn lemma_clean_push(s: Seq<char>, c: char, multiline: bool)
    ensures
        text::clean_text(s.push(c), multiline) == if c == '\n' {
            text::clean_text(s, multiline).push(
                if multiline {
                    '\n'
                } else {
                    ' '
                },
            )
        } else if c == '\t' {
            text::clean_text(s, multiline).push(' ')
        } else if text::hostile(c) {
            text::clean_text(s, multiline)
        } else {
            text::clean_text(s, multiline).push(c)
        },
{
    assert(s.push(c).drop_last() =~= s);
}

/// Cleaning a text again changes nothing.
pub proof fn law_cleaning_settles(s: Seq<char>, multiline: bool)
    ensures
        text::clean_text(text::clean_text(s, multiline), multiline) == text::clean_text(
            s,
            multiline,
        ),
    decreases s.len(),
{
    if s.len() > 0 {
        let before = text::clean_text(s.drop_last(), multiline);
        law_cleaning_settles(s.drop_last(), multiline);
        let c = s.last();
        if c == '\n' && multiline {
            lemma_clean_push(before, '\n', multiline);
        } else if c == '\n' || c == '\t' {
            lemma_clean_push(before, ' ', multiline);
        } else if !text::hostile(c) {
            lemma_clean_push(before, c, multiline);
        }
    }
}

proof fn lemma_suffix(s: Seq<char>, budget: int)
    requires
        budget >= 0,
    ensures
        wrap::cell_sum(wrap::fit_suffix(s, budget)) <= budget,
        wrap::fit_suffix(s, budget).len() <= s.len(),
        wrap::fit_suffix(s, budget) == s.skip(s.len() - wrap::fit_suffix(s, budget).len()),
    decreases s.len(),
{
    let kept = wrap::fit_suffix(s, budget);
    if s.len() > 0 && width::cells(s.last()) <= budget {
        let left = budget - width::cells(s.last());
        let front = wrap::fit_suffix(s.drop_last(), left);
        lemma_suffix(s.drop_last(), left);
        assert(kept.drop_last() =~= front);
        assert(s.skip(s.len() - kept.len()) =~= s.drop_last().skip(
            s.len() - 1 - front.len(),
        ).push(s.last()));
    } else {
        assert(s.skip(s.len() as int) =~= Seq::<char>::empty());
    }
}

/// A text that is cut at its front keeps its end: an ellipsis, and behind it
/// characters that take one cell less than there are.
pub proof fn law_tail_fits(s: Seq<char>, cells: int)
    requires
        cells > 0,
        width::text_width(s) > cells,
    ensures
        ({
            let shown = wrap::tail_of(s, cells);
            let kept = shown.skip(1);
            &&& shown.len() > 0 && shown[0] == '\u{2026}'
            &&& kept.len() <= s.len()
            &&& kept == s.skip(s.len() - kept.len())
            &&& wrap::cell_sum(kept) <= cells - 1
        }),
{
    let kept = wrap::fit_suffix(s, cells - 1);
    lemma_suffix(s, cells - 1);
    assert(wrap::tail_of(s, cells).skip(1) =~= kept);
}

pub proof fn lemma_cell_sum_front(c: char, s: Seq<char>)
    ensures
        wrap::cell_sum(seq![c] + s) == width::cells(c) + wrap::cell_sum(s),
    decreases s.len(),
{
    let all = seq![c] + s;
    if s.len() > 0 {
        assert(all.drop_last() =~= seq![c] + s.drop_last());
        lemma_cell_sum_front(c, s.drop_last());
    } else {
        assert(all.drop_last() =~= Seq::<char>::empty());
        assert(wrap::cell_sum(all.drop_last()) == 0);
    }
}

proof fn lemma_prefix(s: Seq<char>, budget: int)
    requires
        budget >= 0,
    ensures
        wrap::cell_sum(wrap::fit_prefix(s, budget)) <= budget,
        wrap::fit_prefix(s, budget).len() <= s.len(),
        wrap::fit_prefix(s, budget) == s.take(wrap::fit_prefix(s, budget).len() as int),
    decreases s.len(),
{
    if s.len() > 0 && width::cells(s[0]) <= budget {
        let rest = wrap::fit_prefix(s.drop_first(), budget - width::cells(s[0]));
        lemma_prefix(s.drop_first(), budget - width::cells(s[0]));
        lemma_cell_sum_front(s[0], rest);
        assert(seq![s[0]] + rest =~= s.take(rest.len() as int + 1));
    } else {
        assert(s.take(0) =~= Seq::<char>::empty());
    }
}

proof fn lemma_spans_width_front(first: SpanView, rest: Seq<SpanView>)
    ensures
        style::spans_width(seq![first] + rest) == width::text_width(first.content)
            + style::spans_width(rest),
    decreases rest.len(),
{
    let all = seq![first] + rest;
    if rest.len() > 0 {
        assert(all.drop_last() =~= seq![first] + rest.drop_last());
        lemma_spans_width_front(first, rest.drop_last());
    } else {
        assert(all.drop_last() =~= Seq::<SpanView>::empty());
        assert(style::spans_width(all.drop_last()) == 0);
    }
}

proof fn lemma_cut(spans: Seq<SpanView>, budget: int)
    requires
        budget >= 0,
        style::spans_width(spans) > budget,
    ensures
        ({
            let cut = wrap::cut_spans(spans, budget);
            let n = cut.len() - 1;
            &&& 0 <= n < spans.len()
            &&& cut.take(n) == spans.take(n)
            &&& cut[n].style == spans[n].style
            &&& cut[n].content.len() > 0 && cut[n].content.last() == '\u{2026}'
            &&& cut[n].content.drop_last() == spans[n].content.take(cut[n].content.len() - 1)
            &&& style::spans_width(cut.take(n)) + wrap::cell_sum(cut[n].content.drop_last())
                <= budget
        }),
    decreases spans.len(),
{
    let cut = wrap::cut_spans(spans, budget);
    let first = spans[0];
    let rest = spans.drop_first();
    let taken = width::text_width(first.content) as int;
    assert(spans =~= seq![first] + rest);
    lemma_spans_width_front(first, rest);
    if taken <= budget {
        lemma_cut(rest, budget - taken);
        let inner = wrap::cut_spans(rest, budget - taken);
        let m = inner.len() - 1;
        let n = cut.len() - 1;
        assert(cut == seq![first] + inner);
        assert(cut.take(n) =~= seq![first] + inner.take(m));
        assert(spans.take(n) =~= seq![first] + rest.take(m));
        lemma_spans_width_front(first, inner.take(m));
    } else {
        let kept = wrap::fit_prefix(first.content, budget);
        lemma_prefix(first.content, budget);
        assert(cut[0].content.drop_last() =~= kept);
        assert(cut.take(0) =~= Seq::<SpanView>::empty());
        assert(spans.take(0) =~= Seq::<SpanView>::empty());
        assert(style::spans_width(cut.take(0)) == 0);
    }
}

proof fn lemma_glyphs_text(spans: Seq<SpanView>)
    ensures
        wrap::glyph_text(wrap::span_glyphs(spans)) == style::span_text(spans),
    decreases spans.len(),
{
    let g = wrap::span_glyphs(spans);
    if spans.len() > 0 {
        lemma_glyphs_text(spans.drop_last());
        let front = wrap::span_glyphs(spans.drop_last());
        assert(wrap::glyph_text(g) =~= wrap::glyph_text(front) + spans.last().content);
    } else {
        assert(wrap::glyph_text(g) =~= Seq::<char>::empty());
    }
}

/// A row that is too wide keeps whole spans as far as they fit, and of the next
/// one as much as leaves a cell for an ellipsis. Its characters keep their
/// styles.
pub proof fn law_cut_row_fits(spans: Seq<SpanView>, cells: int)
    requires
        cells > 0,
        style::spans_width(spans) > cells,
    ensures
        ({
            let cut = wrap::cut_spans(spans, cells - 1);
            let row = wrap::one_row(spans, cells);
            let n = cut.len() - 1;
            &&& row.spans == wrap::runs(wrap::span_glyphs(cut))
            &&& style::span_text(row.spans) == style::span_text(cut)
            &&& 0 <= n < spans.len()
            &&& cut.take(n) == spans.take(n)
            &&& cut[n].style == spans[n].style
            &&& cut[n].content.len() > 0 && cut[n].content.last() == '\u{2026}'
            &&& cut[n].content.drop_last() == spans[n].content.take(cut[n].content.len() - 1)
            &&& style::spans_width(cut.take(n)) + wrap::cell_sum(cut[n].content.drop_last())
                <= cells - 1
        }),
{
    let cut = wrap::cut_spans(spans, cells - 1);
    lemma_cut(spans, cells - 1);
    lemma_glyphs_text(cut);
    wrap::lemma_runs_text(wrap::span_glyphs(cut));
}

/// The score of several words is that of one of them and of the others.
proof fn lemma_score_without(s: Seq<char>, words: Seq<Seq<char>>, k: int)
    requires
        0 <= k < words.len(),
    ensures
        picker::words_score(s, words) == match (
            picker::words_score(s, words.remove(k)),
            picker::word_score(s, words[k]),
        ) {
            (Some(a), Some(b)) => Some(a + b),
            _ => None,
        },
    decreases words.len(),
{
    if k == words.len() - 1 {
        assert(words.remove(k) =~= words.drop_last());
    } else {
        lemma_score_without(s, words.drop_last(), k);
        let less = words.remove(k);
        assert(less.drop_last() =~= words.drop_last().remove(k));
        assert(less.last() == words.last());
    }
}

proof fn lemma_score_of_words(s: Seq<char>, a: Seq<Seq<char>>, b: Seq<Seq<char>>)
    requires
        a.to_multiset() == b.to_multiset(),
    ensures
        picker::words_score(s, a) == picker::words_score(s, b),
    decreases a.len(),
{
    broadcast use vstd::seq_lib::group_to_multiset_ensures;

    assert(a.len() == a.to_multiset().len());
    assert(b.len() == b.to_multiset().len());
    if a.len() > 0 {
        let word = a.last();
        let i = a.len() - 1;
        assert(a.contains(word));
        assert(a.to_multiset().count(word) > 0);
        assert(b.contains(word));
        let k = choose|k: int| 0 <= k < b.len() && b[k] == word;
        lemma_score_without(s, a, i);
        lemma_score_without(s, b, k);
        assert(a.remove(i).to_multiset() == a.to_multiset().remove(word));
        assert(b.remove(k).to_multiset() == b.to_multiset().remove(word));
        lemma_score_of_words(s, a.remove(i), b.remove(k));
    }
}

/// Search words may stand in any order: two queries of the same words score
/// the same.
pub proof fn law_search_words_commute(s: Seq<char>, a: Seq<char>, b: Seq<char>)
    requires
        text::words(a).to_multiset() == text::words(b).to_multiset(),
    ensures
        picker::fuzzy(s, a) == picker::fuzzy(s, b),
{
    lemma_score_of_words(s, text::words(a), text::words(b));
}

/// The last character that starts within a number of bytes.
proof fn lemma_floor(s: Seq<char>, limit: int, n: int) -> (h: int)
    requires
        0 <= n <= s.len(),
        0 <= limit,
    ensures
        0 <= h <= n,
        text::offset(s, h) <= limit,
        forall|k: int| 0 <= k <= n && #[trigger] text::offset(s, k) <= limit ==> k <= h,
    decreases n,
{
    text::lemma_offset_ends(s);
    if text::offset(s, n) <= limit {
        n
    } else {
        lemma_floor(s, limit, n - 1)
    }
}

/// The first character that starts behind a number of bytes.
proof fn lemma_ceil(s: Seq<char>, b: int, k: int)
    requires
        0 <= k <= s.len(),
        b <= text::byte_len(s),
    ensures
        k <= text::char_from(s, b, k) <= s.len(),
        b <= text::offset(s, text::char_from(s, b, k)),
        forall|j: int| k <= j < text::char_from(s, b, k) ==> #[trigger] text::offset(s, j) < b,
    decreases s.len() - k,
{
    text::lemma_offset_ends(s);
    if k < s.len() && text::offset(s, k) < b {
        lemma_ceil(s, b, k + 1);
    }
}

/// The end of a text that is shown while it is streamed is one that takes at
/// most the bytes it may take.
pub proof fn law_last_bytes_fit(s: Seq<char>, cap: int)
    requires
        cap >= 0,
    ensures
        ({
            let kept = text::last_bytes(s, cap);
            &&& kept.len() <= s.len()
            &&& kept == s.skip(s.len() - kept.len())
            &&& text::byte_len(kept) <= cap
        }),
{
    let b = text::byte_len(s) - cap;
    let t = text::char_from(s, b, 0);
    lemma_ceil(s, b, 0);
    text::lemma_offset_split(s, t);
    assert(s.skip(s.len() - s.skip(t).len()) =~= s.skip(t));
}

proof fn lemma_excerpt_exists(s: Seq<char>, cap: int)
    requires
        cap >= 1,
        text::byte_len(s) >= cap,
    ensures
        text::is_excerpt(s, cap, text::excerpt(s, cap).0, text::excerpt(s, cap).1),
{
    let n = s.len() as int;
    let budget = cap - 1;
    let h = lemma_floor(s, budget / 2, n);
    let head = s.take(h);
    let left = budget - text::byte_len(head);
    let b = text::byte_len(s) - left;
    let t = text::char_from(s, b, 0);
    let tail = s.skip(t);
    lemma_ceil(s, b, 0);
    text::lemma_offset_split(s, t);
    assert forall|k: int|
        0 <= k <= s.len() && #[trigger] text::offset(s, k) <= budget
            / 2 implies text::offset(s, k) <= text::byte_len(head) by {
        text::lemma_offset_monotonic(s, k, h);
    }
    assert forall|k: int|
        0 <= k <= s.len() && text::byte_len(s) - #[trigger] text::offset(s, k)
            <= left implies text::byte_len(s) - text::offset(s, k) <= text::byte_len(tail) by {
        text::lemma_offset_monotonic(s, t, k);
    }
    assert(head == s.take(h));
    assert(tail == s.skip(t));
    let pair = (head, tail);
    assert(text::is_excerpt(s, cap, pair.0, pair.1));
}

/// What is shown of a text that is too long are its two ends, which together
/// with what separates them take at most the bytes they may take.
pub proof fn law_excerpt_fits(s: Seq<char>, cap: int)
    requires
        cap >= 1,
        text::byte_len(s) >= cap,
    ensures
        ({
            let (head, tail) = text::excerpt(s, cap);
            &&& head.len() <= s.len() && head == s.take(head.len() as int)
            &&& tail.len() <= s.len() && tail == s.skip(s.len() - tail.len())
            &&& text::byte_len(head) + 1 + text::byte_len(tail) <= cap
        }),
{
    lemma_excerpt_exists(s, cap);
    let (head, tail) = text::excerpt(s, cap);
    let h = choose|h: int| 0 <= h <= s.len() && head == #[trigger] s.take(h);
    let t = choose|t: int| 0 <= t <= s.len() && tail == #[trigger] s.skip(t);
    assert(head == s.take(h) && head.len() == h);
    assert(tail == s.skip(t) && tail.len() == s.len() - t);
}

/// The two ends that are shown of a text with too many lines take at most the
/// bytes they may take.
pub proof fn law_windows_fit(s: Seq<char>)
    ensures
        ({
            let (head, tail) = entries::line_windows(s);
            text::byte_len(head) + 1 + text::byte_len(tail) <= entries::COMPLETED_RENDER_BYTES
        }),
{
    let cap = entries::COMPLETED_RENDER_BYTES as int;
    let all = text::split_on(s, '\n');
    let n = all.len() as int;
    let head = text::joined(
        all.take(entries::smaller(entries::COMPLETED_HEAD_LINES as int, n)),
        "\n"@,
    );
    let tail = text::joined(
        all.skip(n - entries::smaller(entries::COMPLETED_TAIL_LINES as int, n)),
        "\n"@,
    );
    if text::byte_len(head) + text::byte_len(tail) + 1 > cap {
        let both = head + "\n"@ + tail;
        reveal_strlit("\n");
        assert("\n"@ =~= seq!['\n']);
        text::lemma_encode_concat(head, "\n"@);
        text::lemma_encode_concat(head + "\n"@, tail);
        text::lemma_char_bytes('\n');
        law_excerpt_fits(both, cap);
    }
}

/// The end of a text that is shown while it is streamed is as long as the
/// bytes allow.
pub proof fn law_last_bytes_are_full(s: Seq<char>, cap: int)
    requires
        cap >= 0,
        text::last_bytes(s, cap).len() < s.len(),
    ensures
        text::byte_len(s.skip(s.len() - text::last_bytes(s, cap).len() - 1)) > cap,
{
    let b = text::byte_len(s) - cap;
    let t = text::char_from(s, b, 0);
    lemma_ceil(s, b, 0);
    assert(text::offset(s, t - 1) < b);
    text::lemma_offset_split(s, t - 1);
}

/// A text that is cut at its beginning keeps as much of its end as there is
/// room for.
pub proof fn law_tails_are_full(s: Seq<char>, budget: int)
    requires
        budget >= 0,
        wrap::fit_suffix(s, budget).len() < s.len(),
    ensures
        ({
            let kept = wrap::fit_suffix(s, budget);
            wrap::cell_sum(kept) + width::cells(s[s.len() - kept.len() - 1]) > budget
        }),
    decreases s.len(),
{
    if width::cells(s.last()) <= budget {
        let left = budget - width::cells(s.last());
        let front = wrap::fit_suffix(s.drop_last(), left);
        law_tails_are_full(s.drop_last(), left);
        assert(front.push(s.last()).drop_last() =~= front);
    }
}

/// A text that is cut at its end keeps as much of its beginning as there is
/// room for.
pub proof fn law_heads_are_full(s: Seq<char>, budget: int)
    requires
        budget >= 0,
    ensures
        ({
            let kept = wrap::fit_prefix(s, budget);
            &&& kept.len() <= s.len()
            &&& kept == s.take(kept.len() as int)
            &&& wrap::cell_sum(kept) <= budget
            &&& kept.len() < s.len() ==> wrap::cell_sum(kept) + width::cells(s[kept.len() as int])
                > budget
        }),
    decreases s.len(),
{
    let kept = wrap::fit_prefix(s, budget);
    if s.len() > 0 && width::cells(s[0]) <= budget {
        let left = budget - width::cells(s[0]);
        let rest = wrap::fit_prefix(s.drop_first(), left);
        law_heads_are_full(s.drop_first(), left);
        lemma_cell_sum_front(s[0], rest);
        assert(kept =~= s.take(kept.len() as int));
    } else {
        assert(kept =~= s.take(0));
    }
}

/// A text is cleaned character by character: a line break stays or becomes a
/// space, a tab becomes a space, an unsafe character goes, any other stays.
pub proof fn law_texts_are_cleaned_apart(a: Seq<char>, c: char, multiline: bool)
    ensures
        ({
            let r = text::clean_text(a.push(c), multiline);
            let before = text::clean_text(a, multiline);
            &&& c == '\n' && multiline ==> r == before.push('\n')
            &&& c == '\n' && !multiline ==> r == before.push(' ')
            &&& c == '\t' ==> r == before.push(' ')
            &&& c != '\n' && c != '\t' && text::hostile(c) ==> r == before
            &&& !text::hostile(c) ==> r == before.push(c)
        }),
{
    assert(a.push(c).drop_last() =~= a);
}

/// A line break inside of a title shows as one space.
pub proof fn law_titles_are_one_line(a: Seq<char>, b: Seq<char>)
    requires
        a.len() > 0,
        b.len() > 0,
        text::safe(a),
        text::safe(b),
        a.last() != ' ',
        !text::white(b.last()),
    ensures
        text::clean_title(a.push('\n') + b) == a.push(' ') + b,
        text::clean_title(a.push('\r').push('\n') + b) == a.push(' ') + b,
{
    lemma_fold_safe(a);
    assert(a.push('\n').drop_last() =~= a);
    assert(a.push('\r').drop_last() =~= a);
    assert(a.push('\r').push('\n').drop_last() =~= a.push('\r'));
    assert(text::title_fold(a.push('\r')) == (a, true));
    assert(text::title_fold(a.push('\r').push('\n')) == (a, true));
    lemma_fold_behind(a, a.push('\n'), b);
    lemma_fold_behind(a, a.push('\r').push('\n'), b);
}

proof fn lemma_fold_safe(a: Seq<char>)
    requires
        text::safe(a),
    ensures
        text::title_fold(a) == (a, false),
    decreases a.len(),
{
    if a.len() > 0 {
        assert(text::safe(a.drop_last()));
        lemma_fold_safe(a.drop_last());
        assert(!text::hostile(a.last()));
        assert(a.drop_last().push(a.last()) =~= a);
    } else {
        assert(a =~= Seq::empty());
    }
}

proof fn lemma_fold_behind(a: Seq<char>, front: Seq<char>, b: Seq<char>)
    requires
        a.len() > 0,
        a.last() != ' ',
        text::title_fold(front) == (a, true),
        b.len() > 0,
        text::safe(b),
    ensures
        text::title_fold(front + b) == (a.push(' ') + b, false),
    decreases b.len(),
{
    let whole = front + b;
    assert(whole.drop_last() =~= front + b.drop_last());
    assert(!text::hostile(b.last()));
    if b.len() > 1 {
        assert(text::safe(b.drop_last()));
        lemma_fold_behind(a, front, b.drop_last());
        assert((a.push(' ') + b.drop_last()).push(b.last()) =~= a.push(' ') + b);
    } else {
        assert(front + b.drop_last() =~= front);
        assert(a.push(' ').push(b.last()) =~= a.push(' ') + b);
    }
}

} // verus!
