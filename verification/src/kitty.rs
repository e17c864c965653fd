//! Cat artwork. Three variants (Blob, Cbear, Fly Girl) rotate every 900 s from
//! the launch variant, which is picked once at startup. While a query is
//! processing, the variant's animated segment cycles through a small set of
//! frames; idle shows a single rest frame.
//!
//! Every variant shares one six-row canvas: row 0 is padding above the artwork
//! and each artwork starts at row 1, so that its animated segment has room to
//! move up by one row without shifting the layout.
use crate::model::Theme;
use crate::style;
use crate::style::{color, Color, Line, LineView, Style};
use crate::text;
use crate::text::{chars_of, drop_white, is_white_space, lines_text, string_of, trim_end_text};
use crate::wrap;
use crate::wrap::{glyph_line, Glyph};
use vstd::prelude::*;
use vstd::string::*;

verus! {

/// One rotation step in seconds.
pub const ROTATION_SECONDS: u64 = 900;

/// Number of variants.
pub const VARIANT_COUNT: usize = 3;

/// Shared canvas height, so that rotation and animation never shift the layout.
pub const CANVAS_HEIGHT: usize = 6;

pub const BLOB_SOURCE: &'static str = "      /█   /█\n    ▄████████\n██▀▀███▄▄██▄▄█\n      ▀▀▀▀▀▀▀  \n";

pub const CBEAR_SOURCE: &'static str = " ∩ ∩   Ω\n│¬ ¬│ //\n│ - │//\nv───v\n";

pub const FLYGRL_SOURCE: &'static str = "        Z\n  /\\_/\\Z\n()(_ _)\n()( ° )\n(_____)\n";

/// The variants, in the order of their rotation.
#[derive(Debug, Clone, Copy, PartialEq, Eq, Structural)]
pub enum KittyVariant {
    Blob,
    Cbear,
    FlyGirl,
}

/// What is known of a variant: the rest pose on the shared canvas, and the
/// frames that it cycles through while processing.
#[derive(Debug)]
pub struct VariantSpec {
    pub variant: KittyVariant,
    /// Number of frames of the processing cycle.
    pub frame_count: usize,
    /// Delay of each frame in milliseconds.
    pub delays_ms: Vec<u64>,
    /// Rest pose without trailing white space; row 0 is empty.
    pub base_lines: Vec<String>,
}

// ---------------------------------------------------------------------------
// Rotation
// ---------------------------------------------------------------------------

/// The whole seconds of a duration, as `Duration::as_secs` gives them.
pub uninterp spec fn whole_seconds(d: std::time::Duration) -> u64;

/// `Duration::as_secs`: the whole seconds of a duration.
pub assume_specification[ std::time::Duration::as_secs ](d: &std::time::Duration) -> (r: u64)
    ensures
        r == whole_seconds(*d),
;

/// Index of the variant that shows after some seconds when the one at `offset`
/// was shown at launch.
pub open spec fn rotated(seconds: int, offset: int) -> int {
    (seconds / ROTATION_SECONDS as int + offset) % VARIANT_COUNT as int
}

/// The variant at an index of the rotation.
pub open spec fn variant_number(i: int) -> KittyVariant {
    if i == 0 {
        KittyVariant::Blob
    } else if i == 1 {
        KittyVariant::Cbear
    } else {
        KittyVariant::FlyGirl
    }
}

/// Index of the variant after some seconds.
pub fn variant_index_after(seconds: u64, offset: usize) -> (r: usize)
    ensures
        r == rotated(seconds as int, offset as int),
        r < VARIANT_COUNT,
{
    let step: u64 = seconds / ROTATION_SECONDS;
    let turn: usize = (step % 3) as usize;
    let r: usize = (turn + offset % VARIANT_COUNT) % VARIANT_COUNT;
    proof {
        let s = step as int;
        let o = offset as int;
        assert((s % 3 + o % 3) % 3 == (s + o) % 3) by (nonlinear_arith);
    }
    r
}

/// Index of the variant after some time. Time is never read from a clock here,
/// so that rotation is the same in every run.
pub fn variant_index(elapsed: std::time::Duration, offset: usize) -> (r: usize)
    ensures
        r == rotated(whole_seconds(elapsed) as int, offset as int),
        r < VARIANT_COUNT,
{
    variant_index_after(elapsed.as_secs(), offset)
}

/// The variant that shows after some time.
pub fn variant_at(elapsed: std::time::Duration, offset: usize) -> (r: KittyVariant)
    ensures
        r == variant_number(rotated(whole_seconds(elapsed) as int, offset as int)),
{
    variant_of(variant_index(elapsed, offset))
}

/// The variant at an index of the rotation.
pub fn variant_of(index: usize) -> (r: KittyVariant)
    requires
        index < VARIANT_COUNT,
    ensures
        r == variant_number(index as int),
{
    if index == 0 {
        KittyVariant::Blob
    } else if index == 1 {
        KittyVariant::Cbear
    } else {
        KittyVariant::FlyGirl
    }
}

/// Every third step of the rotation shows the same variant again, whatever the
/// offset, and an offset counts modulo the number of variants.
pub proof fn law_rotation_is_periodic(seconds: int, offset: int)
    requires
        seconds >= 0,
        offset >= 0,
    ensures
        rotated(seconds + 3 * ROTATION_SECONDS, offset) == rotated(seconds, offset),
        rotated(seconds, offset + 3) == rotated(seconds, offset),
        rotated(0, offset) == offset % 3,
{
}

/// Within one step the variant stays, and the next step shows the next one.
pub proof fn law_rotation_steps(step: int, within: int, offset: int)
    requires
        step >= 0,
        0 <= within < ROTATION_SECONDS,
        offset >= 0,
    ensures
        rotated(step * ROTATION_SECONDS + within, offset) == (step + offset) % 3,
{
    assert((step * 900 + within) / 900 == step) by (nonlinear_arith)
        requires
            0 <= within < 900,
    ;
}

/// `Uuid::new_v4`: sixteen bytes, most of them random. Nothing holds of every
/// outcome that is used here.
#[verifier::external_body]
fn random_bytes() -> [u8; 16] {
    uuid::Uuid::new_v4().into_bytes()
}

/// The launch offset that random bytes stand for: their first four as a
/// little-endian number, modulo the number of variants.
pub open spec fn offset_from(b: Seq<u8>) -> int {
    (b[0] + 256 * b[1] + 65536 * b[2] + 16777216 * b[3]) % VARIANT_COUNT as int
}

/// The launch offset that random bytes stand for.
pub fn offset_of_bytes(bytes: &[u8; 16]) -> (r: usize)
    ensures
        r == offset_from(bytes@),
        r < VARIANT_COUNT,
{
    let n: u32 = bytes[0] as u32 + 256 * (bytes[1] as u32) + 65536 * (bytes[2] as u32) + 16777216
        * (bytes[3] as u32);
    (n % 3) as usize
}

/// Pick a launch offset at random.
pub fn random_offset() -> (r: usize)
    ensures
        r < VARIANT_COUNT,
{
    let bytes = random_bytes();
    offset_of_bytes(&bytes)
}

// ---------------------------------------------------------------------------
// Poses
// ---------------------------------------------------------------------------

/// The rows of a canvas: the lines of a source from row 1 on, without trailing
/// white space; rows that no line fills are empty.
pub open spec fn canvas(source: Seq<char>) -> Seq<Seq<char>> {
    let lines = text::lines_of(source);
    Seq::new(
        CANVAS_HEIGHT as nat,
        |row: int|
            if 1 <= row && row - 1 < lines.len() {
                text::trim_end(lines[row - 1])
            } else {
                Seq::empty()
            },
    )
}

/// Split a source into the rows of the shared canvas.
pub fn load_lines(source: &str) -> (r: Vec<String>)
    ensures
        text::texts(r@) == canvas(source@),
        r@.len() == CANVAS_HEIGHT,
{
    let lines = lines_text(source);
    let mut rows: Vec<String> = Vec::new();
    let mut row: usize = 0;
    while row < CANVAS_HEIGHT
        invariant
            row <= CANVAS_HEIGHT,
            text::texts(lines@) == text::lines_of(source@),
            text::texts(rows@) == canvas(source@).take(row as int),
        decreases CANVAS_HEIGHT - row,
    {
        let line = if row >= 1 && row - 1 < lines.len() {
            assert(text::texts(lines@)[row - 1] == lines@[row - 1]@);
            trim_end_text(lines[row - 1].as_str())
        } else {
            String::new()
        };
        proof {
            text::lemma_texts_push(rows@, line);
            assert(line@ =~= canvas(source@)[row as int]);
            assert(canvas(source@).take(row + 1) =~= canvas(source@).take(row as int).push(line@));
        }
        rows.push(line);
        row += 1;
    }
    assert(canvas(source@).take(row as int) =~= canvas(source@));
    assert(text::texts(rows@).len() == rows@.len());
    rows
}

/// The artwork of a variant.
pub open spec fn source_of(v: KittyVariant) -> Seq<char> {
    match v {
        KittyVariant::Blob => BLOB_SOURCE@,
        KittyVariant::Cbear => CBEAR_SOURCE@,
        KittyVariant::FlyGirl => FLYGRL_SOURCE@,
    }
}

/// The frame delays of a variant in milliseconds.
pub open spec fn delays_of(v: KittyVariant) -> Seq<u64> {
    match v {
        KittyVariant::Blob => seq![700u64, 500, 500, 700],
        KittyVariant::Cbear => seq![800u64, 600, 600],
        KittyVariant::FlyGirl => seq![600u64, 500, 600],
    }
}

impl VariantSpec {
    /// The rest pose.
    pub open spec fn rest(self) -> Seq<Seq<char>> {
        text::texts(self.base_lines@)
    }

    /// The pose fills the canvas and every frame has a delay.
    pub open spec fn wf(self) -> bool {
        &&& self.base_lines@.len() == CANVAS_HEIGHT
        &&& self.frame_count > 0
        &&& self.delays_ms@.len() == self.frame_count
    }
}

/// What is known of a variant.
pub fn variant_spec(variant: KittyVariant) -> (r: VariantSpec)
    ensures
        r.wf(),
        r.variant == variant,
        r.rest() == canvas(source_of(variant)),
        r.delays_ms@ == delays_of(variant),
{
    let mut delays: Vec<u64> = Vec::new();
    let base_lines = match variant {
        KittyVariant::Blob => {
            delays.push(700);
            delays.push(500);
            delays.push(500);
            delays.push(700);
            load_lines(BLOB_SOURCE)
        },
        KittyVariant::Cbear => {
            delays.push(800);
            delays.push(600);
            delays.push(600);
            load_lines(CBEAR_SOURCE)
        },
        KittyVariant::FlyGirl => {
            delays.push(600);
            delays.push(500);
            delays.push(600);
            load_lines(FLYGRL_SOURCE)
        },
    };
    assert(delays@ =~= delays_of(variant));
    let frame_count: usize = delays.len();
    VariantSpec { variant, frame_count, delays_ms: delays, base_lines }
}

/// Delay of a processing frame in milliseconds. Frames wrap around.
pub fn frame_delay_ms(variant: KittyVariant, frame: usize) -> (r: u64)
    ensures
        r == delays_of(variant)[frame as int % delays_of(variant).len() as int],
{
    let spec = variant_spec(variant);
    spec.delays_ms[frame % spec.frame_count]
}

/// `line` with `replacement` laid over it from character `start` on, padded
/// with spaces where it is too short, trailing white space left out.
pub open spec fn overlaid(line: Seq<char>, start: int, replacement: Seq<char>) -> Seq<char> {
    let end = start + replacement.len();
    let full = if line.len() < end {
        line + Seq::new((end - line.len()) as nat, |i: int| ' ')
    } else {
        line
    };
    text::trim_end(
        Seq::new(
            full.len(),
            |i: int|
                if start <= i < end {
                    replacement[i - start]
                } else {
                    full[i]
                },
        ),
    )
}

/// Lay `replacement` over a row from character `start` on.
pub fn overwrite(line: &str, start: usize, replacement: &str) -> (r: String)
    requires
        start + replacement@.len() <= usize::MAX,
    ensures
        r@ == overlaid(line@, start as int, replacement@),
{
    let mut v = chars_of(line);
    let w = chars_of(replacement);
    let end: usize = start + w.len();
    let ghost e = end as int;
    let ghost full = if line@.len() < e {
        line@ + Seq::new((e - line@.len()) as nat, |i: int| ' ')
    } else {
        line@
    };
    while v.len() < end
        invariant
            v@.len() <= full.len(),
            e == end,
            full.len() >= e,
            full.len() == e || full.len() == line@.len(),
            line@.len() <= v@.len(),
            v@ == full.take(v@.len() as int),
            forall|i: int| line@.len() <= i < full.len() ==> full[i] == ' ',
        decreases end - v@.len(),
    {
        proof {
            assert(full[v@.len() as int] == ' ');
            assert(full.take(v@.len() as int + 1) =~= v@.push(' '));
        }
        v.push(' ');
    }
    assert(v@ =~= full);
    let ghost goal = Seq::new(
        full.len(),
        |i: int|
            if start <= i < e {
                replacement@[i - start]
            } else {
                full[i]
            },
    );
    let mut k: usize = 0;
    while k < w.len()
        invariant
            w@ == replacement@,
            e == start + w@.len(),
            e == end,
            k <= w@.len(),
            v@.len() == full.len(),
            full.len() >= e,
            forall|i: int|
                0 <= i < full.len() ==> #[trigger] v@[i] == if start <= i < start + k {
                    replacement@[i - start]
                } else {
                    full[i]
                },
        decreases w@.len() - k,
    {
        v.set(start + k, w[k]);
        k += 1;
    }
    assert(v@ =~= goal);
    let n: usize = v.len();
    let to: usize = drop_white(&v, 0, n);
    assert(v@.subrange(0, n as int) =~= v@);
    string_of(&v, 0, to)
}

/// The rows of a variant in a frame of its processing cycle: only the animated
/// segment moves, and only in the second frame.
pub open spec fn animated(v: KittyVariant, rest: Seq<Seq<char>>, phase: int) -> Seq<Seq<char>> {
    if phase != 1 {
        rest
    } else {
        match v {
            KittyVariant::Blob => rest.update(3, overlaid(rest[3], 6, "▀▀▀▀▀▀▀"@)).update(
                4,
                Seq::empty(),
            ),
            KittyVariant::Cbear => rest.update(1, overlaid(rest[1], 7, " "@)).update(
                2,
                overlaid(overlaid(rest[2], 6, "  "@), 7, "Ω"@),
            ).update(3, overlaid(rest[3], 5, " //"@)).update(4, overlaid(rest[4], 5, "//"@)),
            KittyVariant::FlyGirl => rest.update(0, rest[1]).update(1, Seq::empty()),
        }
    }
}

/// The same rows again.
fn copy_rows(rows: &Vec<String>) -> (r: Vec<String>)
    ensures
        text::texts(r@) == text::texts(rows@),
        r@.len() == rows@.len(),
{
    let mut out: Vec<String> = Vec::new();
    let mut i: usize = 0;
    while i < rows.len()
        invariant
            i <= rows@.len(),
            text::texts(out@) == text::texts(rows@).take(i as int),
        decreases rows@.len() - i,
    {
        proof {
            text::lemma_texts_push(out@, rows@[i as int]);
            assert(text::texts(rows@).take(i + 1) =~= text::texts(rows@).take(i as int).push(
                rows@[i as int]@,
            ));
        }
        out.push(rows[i].clone());
        i += 1;
    }
    assert(text::texts(rows@).take(i as int) =~= text::texts(rows@));
    assert(text::texts(out@).len() == out@.len());
    out
}

/// Put a row into a pose.
fn set_row(rows: &mut Vec<String>, k: usize, row: String)
    requires
        k < old(rows)@.len(),
    ensures
        text::texts(final(rows)@) == text::texts(old(rows)@).update(k as int, row@),
        final(rows)@.len() == old(rows)@.len(),
{
    let ghost before = rows@;
    rows.set(k, row);
    assert(text::texts(rows@) =~= text::texts(before).update(k as int, row@));
}

/// Blob: the tail rises one row over the lower body cells.
fn blob_animation(frame: usize, spec: &VariantSpec) -> (r: Vec<String>)
    requires
        spec.wf(),
    ensures
        text::texts(r@) == animated(
            KittyVariant::Blob,
            spec.rest(),
            frame as int % spec.frame_count as int,
        ),
        r@.len() == CANVAS_HEIGHT,
{
    let mut rows = copy_rows(&spec.base_lines);
    if frame % spec.frame_count == 1 {
        proof {
            reveal_strlit("▀▀▀▀▀▀▀");
        }
        set_row(&mut rows, 3, overwrite(spec.base_lines[3].as_str(), 6, "▀▀▀▀▀▀▀"));
        let blank = String::new();
        assert(blank@ =~= Seq::<char>::empty());
        set_row(&mut rows, 4, blank);
    }
    rows
}

/// Cbear: the tail on the right drops one row and keeps its columns.
fn cbear_animation(frame: usize, spec: &VariantSpec) -> (r: Vec<String>)
    requires
        spec.wf(),
    ensures
        text::texts(r@) == animated(
            KittyVariant::Cbear,
            spec.rest(),
            frame as int % spec.frame_count as int,
        ),
        r@.len() == CANVAS_HEIGHT,
{
    let mut rows = copy_rows(&spec.base_lines);
    if frame % spec.frame_count == 1 {
        proof {
            reveal_strlit(" ");
            reveal_strlit("  ");
            reveal_strlit("Ω");
            reveal_strlit(" //");
            reveal_strlit("//");
        }
        set_row(&mut rows, 1, overwrite(spec.base_lines[1].as_str(), 7, " "));
        let cleared = overwrite(spec.base_lines[2].as_str(), 6, "  ");
        set_row(&mut rows, 2, overwrite(cleared.as_str(), 7, "Ω"));
        set_row(&mut rows, 3, overwrite(spec.base_lines[3].as_str(), 5, " //"));
        set_row(&mut rows, 4, overwrite(spec.base_lines[4].as_str(), 5, "//"));
    }
    rows
}

/// Fly Girl: the free-floating Z rises into the padding row.
fn flygrl_animation(frame: usize, spec: &VariantSpec) -> (r: Vec<String>)
    requires
        spec.wf(),
    ensures
        text::texts(r@) == animated(
            KittyVariant::FlyGirl,
            spec.rest(),
            frame as int % spec.frame_count as int,
        ),
        r@.len() == CANVAS_HEIGHT,
{
    let mut rows = copy_rows(&spec.base_lines);
    if frame % spec.frame_count == 1 {
        set_row(&mut rows, 0, spec.base_lines[1].clone());
        let blank = String::new();
        assert(blank@ =~= Seq::<char>::empty());
        set_row(&mut rows, 1, blank);
    }
    rows
}

/// The rows of a variant in a frame of its processing cycle.
pub fn apply_animation(spec: &VariantSpec, frame: usize) -> (r: Vec<String>)
    requires
        spec.wf(),
    ensures
        text::texts(r@) == animated(
            spec.variant,
            spec.rest(),
            frame as int % spec.frame_count as int,
        ),
        r@.len() == CANVAS_HEIGHT,
{
    match spec.variant {
        KittyVariant::Blob => blob_animation(frame, spec),
        KittyVariant::Cbear => cbear_animation(frame, spec),
        KittyVariant::FlyGirl => flygrl_animation(frame, spec),
    }
}

/// A frame keeps the height of the canvas, moves nothing outside of the rows
/// of its variant's animated segment, and is the rest pose in every frame but
/// the second.
pub proof fn law_frames_move_one_segment(v: KittyVariant, rest: Seq<Seq<char>>, phase: int)
    requires
        rest.len() == CANVAS_HEIGHT,
    ensures
        animated(v, rest, phase).len() == CANVAS_HEIGHT,
        phase != 1 ==> animated(v, rest, phase) == rest,
        v == KittyVariant::Blob ==> forall|row: int|
            0 <= row < CANVAS_HEIGHT && row != 3 && row != 4 ==> #[trigger] animated(
                v,
                rest,
                phase,
            )[row] == rest[row],
        v == KittyVariant::Cbear ==> animated(v, rest, phase)[0] == rest[0] && animated(
            v,
            rest,
            phase,
        )[5] == rest[5],
        v == KittyVariant::FlyGirl ==> forall|row: int|
            2 <= row < CANVAS_HEIGHT ==> #[trigger] animated(v, rest, phase)[row] == rest[row],
{
}

/// Laying text over a row leaves the characters before it alone, but for
/// trailing white space.
pub proof fn law_overlay_keeps_the_front(
    line: Seq<char>,
    start: int,
    replacement: Seq<char>,
    i: int,
)
    requires
        0 <= start,
        0 <= i < start,
        i < line.len(),
        i < overlaid(line, start, replacement).len(),
    ensures
        overlaid(line, start, replacement)[i] == line[i],
{
    let end = start + replacement.len();
    let full = if line.len() < end {
        line + Seq::new((end - line.len()) as nat, |j: int| ' ')
    } else {
        line
    };
    let all = Seq::new(
        full.len(),
        |j: int|
            if start <= j < end {
                replacement[j - start]
            } else {
                full[j]
            },
    );
    lemma_trim_end_prefix(all);
    assert(all[i] == full[i]);
}

proof fn lemma_trim_end_prefix(s: Seq<char>)
    ensures
        text::trim_end(s).len() <= s.len(),
        text::trim_end(s) == s.take(text::trim_end(s).len() as int),
    decreases s.len(),
{
    if s.len() > 0 && text::white(s.last()) {
        lemma_trim_end_prefix(s.drop_last());
        assert(s.drop_last().take(text::trim_end(s).len() as int) =~= s.take(
            text::trim_end(s).len() as int,
        ));
    } else {
        assert(s.take(s.len() as int) =~= s);
    }
}

// ---------------------------------------------------------------------------
// Painting
// ---------------------------------------------------------------------------

/// The pink of the attached Z and of the logo.
pub open spec fn pink() -> Color {
    Color { r: 255, g: 79, b: 163 }
}

/// The light pink of the floating Z and of the nose.
pub open spec fn light_pink() -> Color {
    Color { r: 255, g: 183, b: 216 }
}

/// Color of a character: the floating Z in rows 0 and 1 and the nose are light
/// pink, the attached Z is pink, everything else has the body color.
pub open spec fn glyph_color(row: int, c: char, body: Color) -> Color {
    if c == 'Z' && row <= 1 {
        light_pink()
    } else if c == 'Z' {
        pink()
    } else if c == '°' {
        light_pink()
    } else {
        body
    }
}

/// The colored characters of a row.
pub open spec fn painted_glyphs(row: int, s: Seq<char>, body: Color) -> Seq<Glyph> {
    s.map_values(|c: char| (c, Style::colored(glyph_color(row, c, body))))
}

/// A row of the canvas as a line: one span for each run of a color, in bold.
pub open spec fn painted_row(row: int, s: Seq<char>, body: Color) -> LineView {
    LineView {
        spans: wrap::runs(painted_glyphs(row, s, body)),
        style: Style { bold: true, ..Style::plain() },
    }
}

/// The rows of a canvas as lines.
pub open spec fn painted(rows: Seq<Seq<char>>, body: Color) -> Seq<LineView> {
    Seq::new(rows.len(), |row: int| painted_row(row, rows[row], body))
}

/// Color of a character of the artwork.
fn classify(row: usize, character: char, body: Color) -> (r: Color)
    ensures
        r == glyph_color(row as int, character, body),
{
    if is_white_space(character) {
        return body;
    }
    if character == 'Z' {
        if row <= 1 {
            Color::rgb(255, 183, 216)
        } else {
            Color::rgb(255, 79, 163)
        }
    } else if character == '°' {
        Color::rgb(255, 183, 216)
    } else {
        body
    }
}

/// Turn canvas rows into styled lines.
fn paint_lines(rows: &Vec<String>, theme: &Theme) -> (r: Vec<Line>)
    ensures
        style::lines_view(r@) == painted(
            text::texts(rows@),
            style::color_of(theme.border@),
        ),
{
    let body: Color = color(theme.border.as_str());
    let ghost all = painted(text::texts(rows@), body);
    let mut out: Vec<Line> = Vec::new();
    let mut row: usize = 0;
    while row < rows.len()
        invariant
            all == painted(text::texts(rows@), body),
            row <= rows@.len(),
            style::lines_view(out@) == all.take(row as int),
        decreases rows@.len() - row,
    {
        let v = chars_of(rows[row].as_str());
        let mut glyphs: Vec<Glyph> = Vec::new();
        let mut i: usize = 0;
        while i < v.len()
            invariant
                i <= v@.len(),
                glyphs@ == painted_glyphs(row as int, v@, body).take(i as int),
            decreases v@.len() - i,
        {
            let c: char = v[i];
            let st: Style = Style::new().fg(classify(row, c, body));
            proof {
                assert(st == Style::colored(glyph_color(row as int, c, body)));
                assert(painted_glyphs(row as int, v@, body).take(i + 1) =~= painted_glyphs(
                    row as int,
                    v@,
                    body,
                ).take(i as int).push((c, st)));
            }
            glyphs.push((c, st));
            i += 1;
        }
        let n: usize = glyphs.len();
        let mut line = glyph_line(&glyphs, 0, n);
        line.style = Style::new().bold();
        proof {
            assert(glyphs@ =~= painted_glyphs(row as int, v@, body));
            assert(glyphs@.subrange(0, n as int) =~= glyphs@);
            assert(text::texts(rows@)[row as int] == v@);
            style::lemma_lines_push(out@, line);
            assert(line@ == all[row as int]);
            assert(all.take(row + 1) =~= all.take(row as int).push(line@));
        }
        out.push(line);
        row += 1;
    }
    assert(all.take(row as int) =~= all);
    out
}

/// The rest pose of a variant in a theme's colors.
pub fn render_idle(variant: KittyVariant, theme: &Theme) -> (r: Vec<Line>)
    ensures
        style::lines_view(r@) == painted(
            canvas(source_of(variant)),
            style::color_of(theme.border@),
        ),
        r@.len() == CANVAS_HEIGHT,
{
    let spec = variant_spec(variant);
    let out = paint_lines(&spec.base_lines, theme);
    assert(style::lines_view(out@).len() == out@.len());
    out
}

/// A processing frame of a variant in a theme's colors. Frames wrap around.
pub fn render_processing(variant: KittyVariant, frame: usize, theme: &Theme) -> (r: Vec<Line>)
    ensures
        style::lines_view(r@) == painted(
            animated(
                variant,
                canvas(source_of(variant)),
                frame as int % delays_of(variant).len() as int,
            ),
            style::color_of(theme.border@),
        ),
        r@.len() == CANVAS_HEIGHT,
{
    let spec = variant_spec(variant);
    let rows = apply_animation(&spec, frame);
    let out = paint_lines(&rows, theme);
    assert(style::lines_view(out@).len() == out@.len());
    out
}

} // verus!
