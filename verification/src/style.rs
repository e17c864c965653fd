//! Styled text: colors, spans and lines as plain values.
use crate::text;
use crate::text::{chars_of, lines_text};
use crate::width;
use crate::width::str_width;
use vstd::prelude::*;
use vstd::string::*;

verus! {

/// A 24-bit color.
#[derive(Clone, Copy, Debug, PartialEq, Eq, Structural)]
pub struct Color {
    pub r: u8,
    pub g: u8,
    pub b: u8,
}

/// Colors and weight of a piece of text; `None` leaves a color as it is.
#[derive(Clone, Copy, Debug, PartialEq, Eq, Structural)]
pub struct Style {
    pub fg: Option<Color>,
    pub bg: Option<Color>,
    pub bold: bool,
    pub italic: bool,
}

/// A run of text in one style.
#[derive(Debug, PartialEq, Eq)]
pub struct Span {
    pub content: String,
    pub style: Style,
}

/// One row of spans with a style beneath them.
#[derive(Debug, PartialEq, Eq)]
pub struct Line {
    pub spans: Vec<Span>,
    pub style: Style,
}

/// Mathematical value of a span.
#[verifier::ext_equal]
pub struct SpanView {
    pub content: Seq<char>,
    pub style: Style,
}

/// Mathematical value of a line.
#[verifier::ext_equal]
pub struct LineView {
    pub spans: Seq<SpanView>,
    pub style: Style,
}

impl View for Span {
    type V = SpanView;

    open spec fn view(&self) -> SpanView {
        SpanView { content: self.content@, style: self.style }
    }
}

impl View for Line {
    type V = LineView;

    open spec fn view(&self) -> LineView {
        LineView { spans: spans_view(self.spans@), style: self.style }
    }
}

/// The values of a sequence of spans.
pub open spec fn spans_view(s: Seq<Span>) -> Seq<SpanView> {
    s.map_values(|x: Span| x@)
}

/// The values of a sequence of lines.
pub open spec fn lines_view(s: Seq<Line>) -> Seq<LineView> {
    s.map_values(|x: Line| x@)
}

/// Appending a span appends its value.
pub proof fn lemma_spans_push(s: Seq<Span>, x: Span)
    ensures
        spans_view(s.push(x)) == spans_view(s).push(x@),
{
    assert(spans_view(s.push(x)) =~= spans_view(s).push(x@));
}

/// Appending a line appends its value.
pub proof fn lemma_lines_push(s: Seq<Line>, x: Line)
    ensures
        lines_view(s.push(x)) == lines_view(s).push(x@),
{
    assert(lines_view(s.push(x)) =~= lines_view(s).push(x@));
}

impl Color {
    /// A color from its three channels.
    pub fn rgb(r: u8, g: u8, b: u8) -> (c: Color)
        ensures
            c == (Color { r, g, b }),
    {
        Color { r, g, b }
    }
}

impl Style {
    /// The style that changes nothing.
    pub open spec fn plain() -> Style {
        Style { fg: None, bg: None, bold: false, italic: false }
    }

    /// A foreground color and nothing else.
    pub open spec fn colored(c: Color) -> Style {
        Style { fg: Some(c), ..Style::plain() }
    }

    /// A bold foreground color.
    pub open spec fn strong(c: Color) -> Style {
        Style { fg: Some(c), bold: true, ..Style::plain() }
    }

    /// `other` laid over `self`: its colors win, weights add up.
    pub open spec fn patched(self, other: Style) -> Style {
        Style {
            fg: if other.fg is Some {
                other.fg
            } else {
                self.fg
            },
            bg: if other.bg is Some {
                other.bg
            } else {
                self.bg
            },
            bold: self.bold || other.bold,
            italic: self.italic || other.italic,
        }
    }

    /// The style that changes nothing.
    pub fn new() -> (r: Style)
        ensures
            r == Style::plain(),
    {
        Style { fg: None, bg: None, bold: false, italic: false }
    }

    /// This style with another foreground.
    pub fn fg(self, c: Color) -> (r: Style)
        ensures
            r == (Style { fg: Some(c), ..self }),
    {
        Style { fg: Some(c), bg: self.bg, bold: self.bold, italic: self.italic }
    }

    /// This style with another background.
    pub fn bg(self, c: Color) -> (r: Style)
        ensures
            r == (Style { bg: Some(c), ..self }),
    {
        Style { fg: self.fg, bg: Some(c), bold: self.bold, italic: self.italic }
    }

    /// This style in bold.
    pub fn bold(self) -> (r: Style)
        ensures
            r == (Style { bold: true, ..self }),
    {
        Style { fg: self.fg, bg: self.bg, bold: true, italic: self.italic }
    }

    /// This style in italics.
    pub fn italic(self) -> (r: Style)
        ensures
            r == (Style { italic: true, ..self }),
    {
        Style { fg: self.fg, bg: self.bg, bold: self.bold, italic: true }
    }

    /// `other` laid over this style.
    pub fn patch(self, other: Style) -> (r: Style)
        ensures
            r == self.patched(other),
    {
        Style {
            fg: match other.fg {
                Some(c) => Some(c),
                None => self.fg,
            },
            bg: match other.bg {
                Some(c) => Some(c),
                None => self.bg,
            },
            bold: self.bold || other.bold,
            italic: self.italic || other.italic,
        }
    }
}

impl Span {
    /// A span of the given text and style.
    pub fn styled(content: String, style: Style) -> (r: Span)
        ensures
            r@ == (SpanView { content: content@, style }),
    {
        Span { content, style }
    }

    /// A span without a style of its own.
    pub fn raw(content: &str) -> (r: Span)
        ensures
            r@ == (SpanView { content: content@, style: Style::plain() }),
    {
        Span { content: content.to_owned(), style: Style::new() }
    }

    /// The same span again.
    pub fn duplicate(&self) -> (r: Span)
        ensures
            r@ == self@,
    {
        Span { content: self.content.clone(), style: self.style }
    }
}

impl LineView {
    /// The line's text.
    pub open spec fn text(self) -> Seq<char> {
        span_text(self.spans)
    }
}

/// The text of a sequence of spans, one after the other.
pub open spec fn span_text(spans: Seq<SpanView>) -> Seq<char>
    decreases spans.len(),
{
    if spans.len() == 0 {
        Seq::empty()
    } else {
        span_text(spans.drop_last()) + spans.last().content
    }
}

/// Spans of plain text: one for each line that `s` breaks into, so that no
/// newline is left in a row.
pub open spec fn raw_spans(s: Seq<char>) -> Seq<SpanView> {
    text::lines_of(s).map_values(
        |l: Seq<char>| SpanView { content: l, style: Style::plain() },
    )
}

/// A line of the given spans.
pub open spec fn plain_line(spans: Seq<SpanView>) -> LineView {
    LineView { spans, style: Style::plain() }
}

/// A line of plain text under a style.
pub open spec fn styled_line(s: Seq<char>, style: Style) -> LineView {
    LineView { spans: raw_spans(s), style }
}

impl Line {
    /// A line of the given spans.
    pub fn from_spans(spans: Vec<Span>) -> (r: Line)
        ensures
            r@ == plain_line(spans_view(spans@)),
    {
        Line { spans, style: Style::new() }
    }

    /// A line of plain text under a style. Newlines are taken out.
    pub fn styled(content: &str, style: Style) -> (r: Line)
        ensures
            r@ == styled_line(content@, style),
    {
        let rows = lines_text(content);
        let mut spans: Vec<Span> = Vec::new();
        let mut i: usize = 0;
        while i < rows.len()
            invariant
                texts_of(rows@) == text::lines_of(content@),
                i <= rows@.len(),
                spans_view(spans@) == raw_spans(content@).take(i as int),
            decreases rows@.len() - i,
        {
            let span = Span::raw(rows[i].as_str());
            proof {
                lemma_spans_push(spans@, span);
                assert(texts_of(rows@)[i as int] == rows@[i as int]@);
                assert(raw_spans(content@).take(i + 1) =~= raw_spans(content@).take(i as int).push(
                    span@,
                ));
            }
            spans.push(span);
            i += 1;
        }
        assert(raw_spans(content@).take(i as int) =~= raw_spans(content@));
        Line { spans, style }
    }

    /// A line of plain text. Newlines are taken out.
    pub fn raw(content: &str) -> (r: Line)
        ensures
            r@ == styled_line(content@, Style::plain()),
    {
        Line::styled(content, Style::new())
    }

    /// The same line again.
    pub fn duplicate(&self) -> (r: Line)
        ensures
            r@ == self@,
    {
        let mut spans: Vec<Span> = Vec::new();
        let mut i: usize = 0;
        while i < self.spans.len()
            invariant
                i <= self.spans@.len(),
                spans_view(spans@) == spans_view(self.spans@).take(i as int),
            decreases self.spans@.len() - i,
        {
            let span = self.spans[i].duplicate();
            proof {
                lemma_spans_push(spans@, span);
                assert(spans_view(self.spans@).take(i + 1) =~= spans_view(self.spans@).take(
                    i as int,
                ).push(span@));
            }
            spans.push(span);
            i += 1;
        }
        assert(spans_view(self.spans@).take(i as int) =~= spans_view(self.spans@));
        Line { spans, style: self.style }
    }

    /// The text of the line without its styles.
    pub fn text(&self) -> (r: String)
        ensures
            r@ == self@.text(),
    {
        let mut out = String::new();
        let mut i: usize = 0;
        assert(spans_view(self.spans@).take(0) =~= Seq::<SpanView>::empty());
        while i < self.spans.len()
            invariant
                i <= self.spans@.len(),
                out@ == span_text(spans_view(self.spans@).take(i as int)),
            decreases self.spans@.len() - i,
        {
            let ghost t = spans_view(self.spans@).take(i + 1);
            assert(t.drop_last() =~= spans_view(self.spans@).take(i as int));
            out.append(self.spans[i].content.as_str());
            i += 1;
        }
        assert(spans_view(self.spans@).take(i as int) =~= spans_view(self.spans@));
        out
    }

    /// Cells that the line takes: the sum over its spans, each measured as one
    /// string. The sum stops at the largest `usize`.
    pub fn width(&self) -> (r: usize)
        ensures
            r == text::clip(spans_width(self@.spans) as int),
    {
        measure(&self.spans)
    }
}

/// The character sequences of a vector of strings.
spec fn texts_of(v: Seq<String>) -> Seq<Seq<char>> {
    text::texts(v)
}

/// Cells that the spans take, each measured as one string.
pub open spec fn spans_width(spans: Seq<SpanView>) -> nat
    decreases spans.len(),
{
    if spans.len() == 0 {
        0
    } else {
        spans_width(spans.drop_last()) + width::text_width(spans.last().content) as nat
    }
}

/// More spans are never narrower.
pub proof fn lemma_spans_width_monotonic(spans: Seq<SpanView>, k: int)
    requires
        0 <= k <= spans.len(),
    ensures
        spans_width(spans.take(k)) <= spans_width(spans),
    decreases spans.len(),
{
    if k == spans.len() {
        assert(spans.take(k) =~= spans);
    } else {
        lemma_spans_width_monotonic(spans.drop_last(), k);
        assert(spans.drop_last().take(k) =~= spans.take(k));
    }
}

/// Cells that the spans take. The sum stops at the largest `usize`.
pub fn measure(spans: &Vec<Span>) -> (r: usize)
    ensures
        r == text::clip(spans_width(spans_view(spans@)) as int),
{
    let ghost all = spans_view(spans@);
    let mut total: usize = 0;
    let mut i: usize = 0;
    assert(all.take(0) =~= Seq::<SpanView>::empty());
    while i < spans.len()
        invariant
            all == spans_view(spans@),
            i <= spans@.len(),
            total == text::clip(spans_width(all.take(i as int)) as int),
        decreases spans@.len() - i,
    {
        assert(all.take(i + 1).drop_last() =~= all.take(i as int));
        let w: usize = str_width(spans[i].content.as_str());
        total = total.saturating_add(w);
        i += 1;
    }
    assert(all.take(i as int) =~= all);
    total
}

// ---------------------------------------------------------------------------
// Hex colors
// ---------------------------------------------------------------------------

/// Value of a hexadecimal digit.
pub open spec fn hex_digit(c: char) -> Option<nat> {
    let n = c as u32;
    if 0x30 <= n <= 0x39 {
        Some((n - 0x30) as nat)
    } else if 0x41 <= n <= 0x46 {
        Some((n - 0x37) as nat)
    } else if 0x61 <= n <= 0x66 {
        Some((n - 0x57) as nat)
    } else {
        None
    }
}

/// Value of a string of hexadecimal digits.
pub open spec fn hex_value(s: Seq<char>) -> Option<nat>
    decreases s.len(),
{
    if s.len() == 0 {
        Some(0)
    } else {
        match (hex_value(s.drop_last()), hex_digit(s.last())) {
            (Some(n), Some(d)) => Some(16 * n + d),
            _ => None,
        }
    }
}

/// `s` without its leading number signs.
pub open spec fn without_hashes(s: Seq<char>) -> Seq<char>
    decreases s.len(),
{
    if s.len() > 0 && s[0] == '#' {
        without_hashes(s.drop_first())
    } else {
        s
    }
}

/// The number that a hex color names: digits after any number signs and at
/// most one plus; white where there are none, where another character stands
/// among them, or where the number takes more than 32 bits.
pub open spec fn hex_number(s: Seq<char>) -> nat {
    let t = without_hashes(s);
    let d = if t.len() > 0 && t[0] == '+' {
        t.drop_first()
    } else {
        t
    };
    match hex_value(d) {
        Some(n) if d.len() > 0 && n <= u32::MAX => n,
        _ => 0xffffff,
    }
}

/// The color of a hex string: the low 24 bits of its number.
pub open spec fn color_of(s: Seq<char>) -> Color {
    let n = hex_number(s);
    Color { r: (n / 65536 % 256) as u8, g: (n / 256 % 256) as u8, b: (n % 256) as u8 }
}

fn hex_digit_value(c: char) -> (r: Option<u32>)
    ensures
        match r {
            Some(d) => hex_digit(c) == Some(d as nat) && d < 16,
            None => hex_digit(c) is None,
        },
{
    let n: u32 = c as u32;
    if 0x30 <= n && n <= 0x39 {
        Some(n - 0x30)
    } else if 0x41 <= n && n <= 0x46 {
        Some(n - 0x37)
    } else if 0x61 <= n && n <= 0x66 {
        Some(n - 0x57)
    } else {
        None
    }
}

proof fn lemma_hex_prefix(s: Seq<char>, k: int)
    requires
        0 <= k <= s.len(),
        hex_value(s) is Some,
    ensures
        hex_value(s.take(k)) is Some,
        hex_value(s.take(k))->0 <= hex_value(s)->0,
    decreases s.len(),
{
    if k == s.len() {
        assert(s.take(k) =~= s);
    } else {
        lemma_hex_prefix(s.drop_last(), k);
        assert(s.drop_last().take(k) =~= s.take(k));
    }
}

/// Read `v[from..]` as hexadecimal digits of a 32-bit number.
fn hex_number_of(v: &Vec<char>, from: usize) -> (r: Option<u32>)
    requires
        from <= v@.len(),
    ensures
        match r {
            Some(n) => hex_value(v@.skip(from as int)) == Some(n as nat),
            None => hex_value(v@.skip(from as int)) is None || hex_value(v@.skip(from as int))->0
                > u32::MAX,
        },
{
    let ghost d = v@.skip(from as int);
    let mut value: u32 = 0;
    let mut i: usize = from;
    assert(d.take(0) =~= Seq::<char>::empty());
    while i < v.len()
        invariant
            from <= i <= v@.len(),
            d == v@.skip(from as int),
            hex_value(d.take(i - from)) == Some(value as nat),
        decreases v@.len() - i,
    {
        let ghost t = d.take(i + 1 - from);
        proof {
            assert(t.drop_last() =~= d.take(i - from));
            assert(t.last() == v@[i as int]);
            if hex_value(d) is Some {
                lemma_hex_prefix(d, i + 1 - from);
            }
        }
        match hex_digit_value(v[i]) {
            Some(x) => {
                if value > (u32::MAX - x) / 16 {
                    return None;
                }
                value = 16 * value + x;
            },
            None => {
                return None;
            },
        }
        i += 1;
    }
    assert(d.take(i - from) =~= d);
    Some(value)
}

/// Hex color string to a color. Anything that is no hex number is white.
pub fn color(hex: &str) -> (r: Color)
    ensures
        r == color_of(hex@),
{
    let v = chars_of(hex);
    let mut i: usize = 0;
    assert(v@.skip(0) =~= v@);
    while i < v.len() && v[i] == '#'
        invariant
            v@ == hex@,
            i <= v@.len(),
            without_hashes(hex@) == without_hashes(v@.skip(i as int)),
        decreases v@.len() - i,
    {
        assert(v@.skip(i as int).drop_first() =~= v@.skip(i + 1));
        i += 1;
    }
    let ghost t = v@.skip(i as int);
    assert(without_hashes(hex@) == t);
    if i < v.len() && v[i] == '+' {
        assert(t.drop_first() =~= v@.skip(i + 1));
        i += 1;
    }
    let n: u32 = if i < v.len() {
        match hex_number_of(&v, i) {
            Some(n) => n,
            None => 0xffffff,
        }
    } else {
        0xffffff
    };
    assert(n == hex_number(hex@));
    Color { r: (n / 65536 % 256) as u8, g: (n / 256 % 256) as u8, b: (n % 256) as u8 }
}

} // verus!
