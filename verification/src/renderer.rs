//! The renderer: a cache of entry rows that is rebuilt only where an entry
//! changed, and the two-pass assembly of the rows in view.
use crate::app;
use crate::app::{App, TimelineItem};
use crate::entries;
use crate::entries::render_rows;
use crate::history;
use crate::history::{
    activity_summary_line_snapshot, entry_visible, ActivitySummary, CachedEntry, RowView,
};
use crate::model::{Theme, ThemeView};
use crate::snapshot::LayoutSnapshot;
use crate::spine;
use crate::spine::{EntryView, Spine};
use crate::style;
use crate::style::Line;
use crate::text;
use vstd::prelude::*;
use vstd::string::*;

verus! {

/// A rectangle of terminal cells.
#[derive(Debug, Clone, Copy, PartialEq, Eq, Structural)]
pub struct Rect {
    pub x: u16,
    pub y: u16,
    pub width: u16,
    pub height: u16,
}

/// The renderer's state from one draw to the next.
#[derive(Debug)]
pub struct Renderer {
    pub cache: Vec<CachedEntry>,
    pub width: usize,
    pub theme: Option<Theme>,
    pub generation: u64,
    /// Entries rendered so far.
    pub rebuilds: usize,
    /// The artwork of the session.
    pub variant_offset: usize,
    pub was_busy: bool,
    /// The frame of the animation while a run is in flight.
    pub processing_frame: usize,
    /// When the frame was shown, in nanoseconds.
    pub processing_tick: Option<u128>,
    /// For each row of the last view, the activity whose summary it is.
    pub hit_map: Vec<Option<ActivitySummary>>,
    /// Where the last view was drawn.
    pub last_history_rect: Option<Rect>,
    /// The columns that the artwork has to itself.
    pub last_kitty_reservation: Option<Rect>,
    /// The cells that the artwork painted: a row, its first column and the
    /// column behind its last one.
    pub last_kitty_paint: Vec<(u16, u16, u16)>,
}

impl Default for Renderer {
    fn default() -> (r: Renderer)
        ensures
            r.cache@.len() == 0,
            r.width == 0,
            r.theme is None,
            r.generation == 0,
            r.rebuilds == 0,
            r.variant_offset == 0,
            !r.was_busy,
            r.processing_frame == 0,
            r.processing_tick is None,
            r.hit_map@.len() == 0,
            r.last_history_rect is None,
            r.last_kitty_reservation is None,
            r.last_kitty_paint@.len() == 0,
    {
        Renderer {
            cache: Vec::new(),
            width: 0,
            theme: None,
            generation: 0,
            rebuilds: 0,
            variant_offset: 0,
            was_busy: false,
            processing_frame: 0,
            processing_tick: None,
            hit_map: Vec::new(),
            last_history_rect: None,
            last_kitty_reservation: None,
            last_kitty_paint: Vec::new(),
        }
    }
}

/// Cached rows are those of the entries, one for one.
pub open spec fn caches(cache: Seq<CachedEntry>, e: Seq<EntryView>, width: int, theme: ThemeView) -> bool {
    &&& cache.len() == e.len()
    &&& forall|i: int|
        0 <= i < cache.len() ==> {
            &&& (#[trigger] cache[i]).revision == e[i].revision
            &&& style::lines_view(cache[i].lines@) == entries::rows_of(e[i], width, theme)
        }
}

impl Renderer {
    /// The cache was made for this width, this theme and this conversation.
    pub open spec fn kept(self, app: App, width: usize) -> bool {
        &&& self.width == width
        &&& self.theme is Some
        &&& self.theme->0@ == app.theme@
        &&& self.generation == app.history_generation
    }

    /// The cache has the rows of an entry at its revision.
    pub open spec fn has_rows(self, app: App, width: usize, i: int) -> bool {
        &&& self.kept(app, width)
        &&& i < self.cache@.len()
        &&& self.cache@[i].revision == app.entries@[i].revision
    }

    /// What the cache has at the revision of an entry are that entry's rows.
    pub open spec fn truthful(self, app: App, width: usize) -> bool {
        forall|i: int|
            0 <= i < app.entries@.len() && self.has_rows(app, width, i) ==> style::lines_view(
                (#[trigger] self.cache@[i]).lines@,
            ) == entries::rows_of(app.entries@[i]@, width as int, app.theme@)
    }

    /// How many of the first `n` entries have to be rendered.
    pub open spec fn stale(self, app: App, width: usize, n: int) -> nat
        decreases n,
    {
        if n <= 0 {
            0
        } else {
            self.stale(app, width, n - 1) + if self.has_rows(app, width, n - 1) {
                0nat
            } else {
                1nat
            }
        }
    }

    /// Brings the cache up to date. Only entries that the cache does not have
    /// at their revision are rendered.
    pub fn refresh_cache(&mut self, app: &App, width: usize)
        requires
            old(self).truthful(*app, width),
        ensures
            caches(
                final(self).cache@,
                app::entries_view(app.entries@),
                width as int,
                app.theme@,
            ),
            final(self).kept(*app, width),
            final(self).rebuilds == text::clip(
                old(self).rebuilds + old(self).stale(*app, width, app.entries@.len() as int),
            ),
            *final(self) == (Renderer {
                cache: final(self).cache,
                width: final(self).width,
                theme: final(self).theme,
                generation: final(self).generation,
                rebuilds: final(self).rebuilds,
                ..*old(self)
            }),
    {
        let ghost was = *self;
        let same_theme = match &self.theme {
            Some(theme) => theme.same(&app.theme),
            None => false,
        };
        if self.width != width || !same_theme || self.generation != app.history_generation {
            self.cache.clear();
            self.width = width;
            self.theme = Some(app.theme.duplicate());
            self.generation = app.history_generation;
        }
        if self.cache.len() > app.entries.len() {
            self.cache.truncate(app.entries.len());
        }
        let ghost first = self.cache@;
        assert(forall|i: int|
            0 <= i < app.entries@.len() ==> (#[trigger] was.has_rows(*app, width, i) <==> i
                < first.len() && first[i].revision == app.entries@[i].revision));
        assert(forall|i: int|
            0 <= i < first.len() && was.has_rows(*app, width, i) ==> (#[trigger] first[i])
                == was.cache@[i]);
        let mut i: usize = 0;
        while i < app.entries.len()
            invariant
                i <= app.entries@.len(),
                first.len() <= app.entries@.len(),
                was.truthful(*app, width),
                self.kept(*app, width),
                self.cache@.len() == if i < first.len() {
                    first.len()
                } else {
                    i as nat
                },
                forall|j: int| i <= j < first.len() ==> (#[trigger] self.cache@[j]) == first[j],
                forall|j: int|
                    0 <= j < i ==> {
                        &&& (#[trigger] self.cache@[j]).revision == app.entries@[j].revision
                        &&& style::lines_view(self.cache@[j].lines@) == entries::rows_of(
                            app.entries@[j]@,
                            width as int,
                            app.theme@,
                        )
                    },
                forall|j: int|
                    0 <= j < app.entries@.len() ==> (#[trigger] was.has_rows(*app, width, j) <==> j
                        < first.len() && first[j].revision == app.entries@[j].revision),
                forall|j: int|
                    0 <= j < first.len() && was.has_rows(*app, width, j) ==> (#[trigger] first[j])
                        == was.cache@[j],
                self.rebuilds == text::clip(was.rebuilds + was.stale(*app, width, i as int)),
                *self == (Renderer {
                    cache: self.cache,
                    width: self.width,
                    theme: self.theme,
                    generation: self.generation,
                    rebuilds: self.rebuilds,
                    ..was
                }),
            decreases app.entries@.len() - i,
        {
            let known = i < self.cache.len() && self.cache[i].revision == app.entries[i].revision;
            proof {
                if i < first.len() {
                    assert(self.cache@[i as int] == first[i as int]);
                }
                assert(known == was.has_rows(*app, width, i as int));
                if known {
                    assert(was.cache@[i as int] == first[i as int]);
                }
            }
            if !known {
                let lines = render_rows(&app.entries[i], width, &app.theme);
                let cached = CachedEntry { revision: app.entries[i].revision, lines };
                if i == self.cache.len() {
                    self.cache.push(cached);
                } else {
                    self.cache.set(i, cached);
                }
                self.rebuilds = self.rebuilds.saturating_add(1);
            }
            i = i + 1;
        }
        proof {
            let e = app::entries_view(app.entries@);
            assert forall|j: int| 0 <= j < self.cache@.len() implies {
                &&& (#[trigger] self.cache@[j]).revision == e[j].revision
                &&& style::lines_view(self.cache@[j].lines@) == entries::rows_of(
                    e[j],
                    width as int,
                    app.theme@,
                )
            } by {
                assert(e[j] == app.entries@[j]@);
            }
        }
    }

    /// How many rows the transcript has.
    fn count_rows(&self, app: &App, snapshot: &LayoutSnapshot, width: usize) -> (r: u128)
        requires
            app.indexed(),
            snapshot.describes(app.spine()),
            caches(self.cache@, app.spine().entries, width as int, app.theme@),
        ensures
            r == history::all_rows(app.spine(), width as int, app.theme@).len(),
    {
        let ghost s = app.spine();
        let mut total: u128 = 0;
        let mut k: usize = 0;
        while k < app.timeline.len()
            invariant
                app.indexed(),
                s == app.spine(),
                snapshot.describes(s),
                caches(self.cache@, s.entries, width as int, app.theme@),
                k <= app.timeline@.len(),
                total == history::rows_before(s, width as int, app.theme@, k as int).len(),
                total <= k * usize::MAX,
            decreases app.timeline@.len() - k,
        {
            let more: usize = self.slot_count(app, snapshot, width, k);
            proof {
                let n = app.timeline@.len() as int;
                let m = usize::MAX as int;
                assert(total + more <= (k + 1) * m) by (nonlinear_arith)
                    requires
                        total <= k * m,
                        more <= m,
                ;
                assert((k + 1) * m <= m * m) by (nonlinear_arith)
                    requires
                        k + 1 <= m,
                        m >= 0,
                ;
                assert(m * m <= u128::MAX) by (nonlinear_arith)
                    requires
                        0 <= m <= 0xffff_ffff_ffff_ffff,
                ;
            }
            total = total + more as u128;
            k = k + 1;
        }
        total
    }

    /// How many rows a timeline slot has.
    fn slot_count(&self, app: &App, snapshot: &LayoutSnapshot, width: usize, k: usize) -> (r: usize)
        requires
            app.indexed(),
            snapshot.describes(app.spine()),
            caches(self.cache@, app.spine().entries, width as int, app.theme@),
            k < app.timeline@.len(),
        ensures
            r == history::slot_rows(
                app.spine(),
                app.spine().timeline[k as int],
                width as int,
                app.theme@,
            ).len(),
    {
        let ghost s = app.spine();
        assert(s.timeline[k as int] == app.timeline@[k as int]@);
        match &app.timeline[k] {
            TimelineItem::Activity(id) => {
                proof {
                    if spine::known(s.nodes, id@) {
                        let i = spine::pos(s.nodes, id@);
                        assert(s.nodes[i].start.id == id@);
                    }
                }
                if app.ancestor_visible_for(snapshot, id.as_str()) {
                    1
                } else {
                    0
                }
            },
            TimelineItem::Entry(i) => {
                let i: usize = *i;
                if i < self.cache.len() && entry_visible(app, snapshot, i) {
                    proof {
                        assert(style::lines_view(self.cache@[i as int].lines@).len()
                            == self.cache@[i as int].lines@.len());
                    }
                    self.cache[i].lines.len()
                } else {
                    0
                }
            },
        }
    }

    /// The rows of the transcript in view, at a distance from its end. Only
    /// these are copied or formatted. The hit map follows them row by row.
    pub fn history(&mut self, app: &App, width: usize, height: usize) -> (r: Vec<Line>)
        requires
            app.indexed(),
            old(self).truthful(*app, width),
        ensures
            ({
                let rows = history::window(
                    history::all_rows(app.spine(), width as int, app.theme@),
                    height as int,
                    app.scroll as int,
                );
                &&& style::lines_view(r@) == history::row_lines(rows)
                &&& history::hits_view(final(self).hit_map@) == history::row_targets(rows)
            }),
            caches(final(self).cache@, app.spine().entries, width as int, app.theme@),
            final(self).kept(*app, width),
            final(self).rebuilds == text::clip(
                old(self).rebuilds + old(self).stale(*app, width, app.entries@.len() as int),
            ),
            *final(self) == (Renderer {
                cache: final(self).cache,
                width: final(self).width,
                theme: final(self).theme,
                generation: final(self).generation,
                rebuilds: final(self).rebuilds,
                hit_map: final(self).hit_map,
                ..*old(self)
            }),
    {
        self.refresh_cache(app, width);
        let snapshot = app.layout_snapshot();
        let ghost s = app.spine();
        let ghost all = history::all_rows(s, width as int, app.theme@);
        let total: u128 = self.count_rows(app, &snapshot, width);
        let most: u128 = total.saturating_sub(height as u128);
        let scroll: u128 = if (app.scroll as u128) < most {
            app.scroll as u128
        } else {
            most
        };
        let start: u128 = most - scroll;
        let end: u128 = if total - start < height as u128 {
            total
        } else {
            start + height as u128
        };
        let ghost rows = history::window(all, height as int, app.scroll as int);
        assert(start == history::view_start(total as int, height as int, app.scroll as int));
        assert(end == history::view_end(total as int, height as int, app.scroll as int));
        let mut visible: Vec<Line> = Vec::new();
        let mut hits: Vec<Option<ActivitySummary>> = Vec::new();
        let mut cursor: u128 = 0;
        let mut k: usize = 0;
        proof {
            assert(style::lines_view(visible@) =~= history::row_lines(part(all, 0, start as int, end as int)));
            assert(history::hits_view(hits@) =~= history::row_targets(part(all, 0, start as int, end as int)));
        }
        while k < app.timeline.len() && cursor < end
            invariant
                app.indexed(),
                s == app.spine(),
                snapshot.describes(s),
                caches(self.cache@, s.entries, width as int, app.theme@),
                all == history::all_rows(s, width as int, app.theme@),
                k <= app.timeline@.len(),
                start <= end <= all.len(),
                cursor == history::rows_before(s, width as int, app.theme@, k as int).len(),
                all.len() <= u128::MAX,
                style::lines_view(visible@) == history::row_lines(
                    part(all, cursor as int, start as int, end as int),
                ),
                history::hits_view(hits@) == history::row_targets(
                    part(all, cursor as int, start as int, end as int),
                ),
            decreases app.timeline@.len() - k,
        {
            proof {
                lemma_rows_prefix(s, width as int, app.theme@, k + 1, s.timeline.len() as int);
            }
            let ghost slot = history::slot_rows(s, s.timeline[k as int], width as int, app.theme@);
            let count: usize = self.slot_count(app, &snapshot, width, k);
            let next: u128 = cursor + count as u128;
            assert(all.subrange(cursor as int, next as int) =~= slot);
            if next > start {
                self.push_slot(app, &snapshot, width, k, cursor, start, end, &mut visible, &mut hits);
            }
            proof {
                lemma_part(all, cursor as int, next as int, start as int, end as int);
            }
            cursor = next;
            k = k + 1;
        }
        proof {
            if cursor < end {
                assert(k == app.timeline@.len());
            }
            assert(part(all, cursor as int, start as int, end as int) =~= rows);
        }
        self.hit_map = hits;
        visible
    }

    /// Appends what of a timeline slot is in view; the slot's rows start at
    /// `cursor`.
    fn push_slot(
        &self,
        app: &App,
        snapshot: &LayoutSnapshot,
        width: usize,
        k: usize,
        cursor: u128,
        start: u128,
        end: u128,
        visible: &mut Vec<Line>,
        hits: &mut Vec<Option<ActivitySummary>>,
    )
        requires
            app.indexed(),
            snapshot.describes(app.spine()),
            caches(self.cache@, app.spine().entries, width as int, app.theme@),
            k < app.timeline@.len(),
            cursor < end,
            start <= end,
            cursor + history::slot_rows(
                app.spine(),
                app.spine().timeline[k as int],
                width as int,
                app.theme@,
            ).len() <= u128::MAX,
            cursor + history::slot_rows(
                app.spine(),
                app.spine().timeline[k as int],
                width as int,
                app.theme@,
            ).len() > start,
        ensures
            ({
                let slot = history::slot_rows(
                    app.spine(),
                    app.spine().timeline[k as int],
                    width as int,
                    app.theme@,
                );
                let seen = seen_of(slot, cursor as int, start as int, end as int);
                &&& style::lines_view(final(visible)@) == style::lines_view(old(visible)@)
                    + history::row_lines(seen)
                &&& history::hits_view(final(hits)@) == history::hits_view(old(hits)@)
                    + history::row_targets(seen)
            }),
    {
        let ghost s = app.spine();
        let ghost slot = history::slot_rows(s, s.timeline[k as int], width as int, app.theme@);
        let ghost seen = seen_of(slot, cursor as int, start as int, end as int);
        let ghost lines0 = style::lines_view(visible@);
        let ghost hits0 = history::hits_view(hits@);
        assert(s.timeline[k as int] == app.timeline@[k as int]@);
        match &app.timeline[k] {
            TimelineItem::Activity(id) => {
                proof {
                    if spine::known(s.nodes, id@) {
                        let i = spine::pos(s.nodes, id@);
                        assert(s.nodes[i].start.id == id@);
                    }
                }
                if app.ancestor_visible_for(snapshot, id.as_str()) {
                    let line = activity_summary_line_snapshot(
                        app,
                        snapshot,
                        id.as_str(),
                        width,
                        &app.theme,
                    );
                    let hit = Some(ActivitySummary { id: id.clone() });
                    proof {
                        style::lemma_lines_push(visible@, line);
                        assert(history::hits_view(hits@.push(hit)) =~= hits0.push(Some(id@)));
                        assert(seen =~= slot);
                        assert(lines0.push(line@) =~= lines0 + history::row_lines(seen));
                        assert(hits0.push(Some(id@)) =~= hits0 + history::row_targets(seen));
                    }
                    visible.push(line);
                    hits.push(hit);
                } else {
                    assert(lines0 =~= lines0 + history::row_lines(seen));
                    assert(hits0 =~= hits0 + history::row_targets(seen));
                }
            },
            TimelineItem::Entry(i) => {
                let i: usize = *i;
                if i < self.cache.len() && entry_visible(app, snapshot, i) {
                    let lines = &self.cache[i].lines;
                    let ghost rows = style::lines_view(lines@);
                    assert(rows.len() == lines@.len());
                    let n: usize = lines.len();
                    let from: usize = if start > cursor {
                        (start - cursor) as usize
                    } else {
                        0
                    };
                    let to: usize = if end - cursor < n as u128 {
                        (end - cursor) as usize
                    } else {
                        n
                    };
                    let mut j: usize = from;
                    proof {
                        assert(lines0 + history::row_lines(seen).take(0) =~= lines0);
                        assert(hits0 + history::row_targets(seen).take(0) =~= hits0);
                    }
                    while j < to
                        invariant
                            from <= j,
                            from <= to ==> j <= to,
                            to <= n,
                            n == lines@.len(),
                            seen.len() == if from <= to {
                                to - from
                            } else {
                                0
                            },
                            forall|x: int|
                                0 <= x < seen.len() ==> (#[trigger] seen[x]) == (RowView {
                                    line: lines@[from + x]@,
                                    target: None,
                                }),
                            style::lines_view(visible@) == lines0 + history::row_lines(seen).take(
                                j - from,
                            ),
                            history::hits_view(hits@) == hits0 + history::row_targets(seen).take(
                                j - from,
                            ),
                        decreases to - j,
                    {
                        let line = lines[j].duplicate();
                        proof {
                            let x = j - from;
                            assert(seen[x].line == line@);
                            style::lemma_lines_push(visible@, line);
                            let hit: Option<ActivitySummary> = None;
                            assert(history::hits_view(hits@.push(hit)) =~= history::hits_view(
                                hits@,
                            ).push(None));
                            assert((lines0 + history::row_lines(seen).take(x)).push(line@)
                                =~= lines0 + history::row_lines(seen).take(x + 1));
                            assert((hits0 + history::row_targets(seen).take(x)).push(None)
                                =~= hits0 + history::row_targets(seen).take(x + 1));
                        }
                        visible.push(line);
                        hits.push(None);
                        j = j + 1;
                    }
                    proof {
                        assert(history::row_lines(seen).take(j - from) =~= history::row_lines(
                            seen,
                        ));
                        assert(history::row_targets(seen).take(j - from) =~= history::row_targets(
                            seen,
                        ));
                    }
                } else {
                    assert(lines0 =~= lines0 + history::row_lines(seen));
                    assert(hits0 =~= hits0 + history::row_targets(seen));
                }
            },
        }
    }
}

/// What of the first `cursor` rows is in view.
spec fn part(all: Seq<RowView>, cursor: int, start: int, end: int) -> Seq<RowView> {
    let to = if cursor < end {
        cursor
    } else {
        end
    };
    if to > start {
        all.subrange(start, to)
    } else {
        Seq::empty()
    }
}

/// What of a slot is in view, where its rows start at `cursor`.
spec fn seen_of(slot: Seq<RowView>, cursor: int, start: int, end: int) -> Seq<RowView> {
    let from = if start > cursor {
        start - cursor
    } else {
        0
    };
    let to = if end - cursor < slot.len() {
        end - cursor
    } else {
        slot.len() as int
    };
    if from < to {
        slot.subrange(from, to)
    } else {
        Seq::empty()
    }
}

/// One slot more extends what is in view by what is in view of the slot.
proof fn lemma_part(all: Seq<RowView>, cursor: int, next: int, start: int, end: int)
    requires
        0 <= cursor <= next <= all.len(),
        0 <= start <= end <= all.len(),
        cursor < end,
    ensures
        ({
            let slot = all.subrange(cursor, next);
            let seen = seen_of(slot, cursor, start, end);
            &&& part(all, next, start, end) == part(all, cursor, start, end) + seen
            &&& history::row_lines(part(all, next, start, end)) == history::row_lines(
                part(all, cursor, start, end),
            ) + history::row_lines(seen)
            &&& history::row_targets(part(all, next, start, end)) == history::row_targets(
                part(all, cursor, start, end),
            ) + history::row_targets(seen)
            &&& next <= start ==> seen.len() == 0
        }),
{
    let slot = all.subrange(cursor, next);
    let seen = seen_of(slot, cursor, start, end);
    let a = part(all, cursor, start, end);
    let b = part(all, next, start, end);
    assert(b =~= a + seen);
    assert(history::row_lines(b) =~= history::row_lines(a) + history::row_lines(seen));
    assert(history::row_targets(b) =~= history::row_targets(a) + history::row_targets(seen));
}

/// The rows of the first slots start all rows.
proof fn lemma_rows_prefix(s: Spine, width: int, theme: ThemeView, k: int, n: int)
    requires
        0 < k <= n,
    ensures
        ({
            let head = history::rows_before(s, width, theme, k);
            let all = history::rows_before(s, width, theme, n);
            let before = history::rows_before(s, width, theme, k - 1);
            let slot = history::slot_rows(s, s.timeline[k - 1], width, theme);
            &&& head.len() <= all.len()
            &&& all.take(head.len() as int) == head
            &&& head == before + slot
            &&& all.subrange(before.len() as int, head.len() as int) == slot
        }),
    decreases n - k,
{
    let head = history::rows_before(s, width, theme, k);
    let all = history::rows_before(s, width, theme, n);
    let before = history::rows_before(s, width, theme, k - 1);
    let slot = history::slot_rows(s, s.timeline[k - 1], width, theme);
    if k < n {
        lemma_rows_prefix(s, width, theme, k + 1, n);
        let more = history::rows_before(s, width, theme, k + 1);
        assert(all.take(more.len() as int).take(head.len() as int) =~= all.take(head.len() as int));
        assert(more.take(head.len() as int) =~= head);
    } else {
        assert(all.take(head.len() as int) =~= head);
    }
    assert(all.subrange(before.len() as int, head.len() as int) =~= all.take(
        head.len() as int,
    ).skip(before.len() as int));
    assert(head.skip(before.len() as int) =~= slot);
}

} // verus!
