//! When the screen is drawn: on a tick, and only if something changed since it
//! was last drawn. A burst of events between two ticks is drawn once.
use crate::app::App;
use vstd::prelude::*;

verus! {

/// What the user interface woke up for.
#[derive(Debug, Clone, Copy, PartialEq, Eq, Structural)]
pub enum Wake {
    /// The engine sent events.
    Events,
    /// The terminal sent a key, a paste or the mouse.
    Input,
    /// The clock ticked, and what it found changed the screen or did not.
    Tick { changed: bool },
}

/// What is done about the screen.
#[derive(Debug, Clone, Copy, PartialEq, Eq, Structural)]
pub struct Pace {
    /// The screen is out of date.
    pub dirty: bool,
    /// The screen is drawn now.
    pub draw: bool,
}

/// The screen is drawn, which only a tick does.
pub open spec fn draws(dirty: bool, wake: Wake) -> bool {
    match wake {
        Wake::Tick { changed } => dirty || changed,
        _ => false,
    }
}

/// Decides whether to draw.
pub fn pace(dirty: bool, wake: Wake) -> (r: Pace)
    ensures
        r.draw == draws(dirty, wake),
        r.draw ==> wake is Tick && !r.dirty,
        r.dirty == !(wake is Tick),
{
    match wake {
        Wake::Tick { changed } => Pace { dirty: false, draw: dirty || changed },
        _ => Pace { dirty: true, draw: false },
    }
}

impl App {
    /// Takes in what a tick found: that a run ended, that the rows of the
    /// dialog changed, and whether someone still waits for the answer to the
    /// approval. An approval that nobody waits for is dropped. True if the
    /// screen changed, as it always does while a run is in flight.
    pub fn tick(&mut self, ended: bool, listed: bool, awaited: bool) -> (r: bool)
        requires
            old(self).wf(),
        ensures
            final(self).wf(),
            ticked(*old(self), ended, listed, awaited, *final(self), r),
    {
        let left = self.approval.is_some() && !awaited;
        if left {
            self.approval = None;
        }
        ended || listed || self.busy || left
    }
}

/// The screen is out of date after what the user interface woke up for.
pub open spec fn dirty_after(dirty: bool, wakes: Seq<Wake>) -> bool {
    if wakes.len() == 0 {
        dirty
    } else {
        !(wakes.last() is Tick)
    }
}

/// How often the screen was drawn.
pub open spec fn drawings(dirty: bool, wakes: Seq<Wake>) -> nat
    decreases wakes.len(),
{
    if wakes.len() == 0 {
        0
    } else {
        let before = wakes.drop_last();
        drawings(dirty, before) + if draws(dirty_after(dirty, before), wakes.last()) {
            1nat
        } else {
            0nat
        }
    }
}

/// How often the clock ticked.
pub open spec fn ticks(wakes: Seq<Wake>) -> nat
    decreases wakes.len(),
{
    if wakes.len() == 0 {
        0
    } else {
        ticks(wakes.drop_last()) + if wakes.last() is Tick {
            1nat
        } else {
            0nat
        }
    }
}

/// However much happens, the screen is drawn at most once for each tick.
pub proof fn law_drawn_at_most_once_a_tick(dirty: bool, wakes: Seq<Wake>)
    ensures
        drawings(dirty, wakes) <= ticks(wakes),
    decreases wakes.len(),
{
    if wakes.len() > 0 {
        law_drawn_at_most_once_a_tick(dirty, wakes.drop_last());
    }
}

/// What happens between two ticks, however much it is, is drawn once, by the
/// second of them.
pub proof fn law_bursts_are_drawn_once(dirty: bool, burst: Seq<Wake>, changed: bool)
    requires
        burst.len() > 0,
        forall|k: int| 0 <= k < burst.len() ==> !((#[trigger] burst[k]) is Tick),
    ensures
        drawings(dirty, burst) == 0,
        drawings(dirty, burst.push(Wake::Tick { changed })) == 1,
        !dirty_after(dirty, burst.push(Wake::Tick { changed })),
    decreases burst.len(),
{
    let whole = burst.push(Wake::Tick { changed });
    if burst.len() > 1 {
        law_bursts_are_drawn_once(dirty, burst.drop_last(), changed);
    } else {
        assert(drawings(dirty, burst.drop_last()) == 0);
    }
    assert(!(burst.last() is Tick));
    assert(drawings(dirty, burst) == 0);
    assert(whole.drop_last() =~= burst);
    assert(whole.last() == Wake::Tick { changed });
}

/// What a tick leaves, and whether the screen changed.
pub open spec fn ticked(
    a: App,
    ended: bool,
    listed: bool,
    awaited: bool,
    b: App,
    r: bool,
) -> bool {
    &&& b == if awaited {
        a
    } else {
        App { approval: None, ..a }
    }
    &&& r == (ended || listed || a.busy || (a.approval is Some && !awaited))
}

/// While a run is in flight every tick draws. An approval that nobody waits for
/// goes away, which is drawn too, and one that is waited for stays.
pub proof fn law_approvals_are_dropped(
    a: App,
    ended: bool,
    listed: bool,
    awaited: bool,
    b: App,
    r: bool,
)
    requires
        ticked(a, ended, listed, awaited, b, r),
    ensures
        awaited ==> b == a,
        !awaited ==> b.approval is None,
        b.approval != a.approval ==> r,
        a.busy || ended || listed ==> r,
        !a.busy && !ended && !listed && b.approval == a.approval ==> !r,
        b.busy == a.busy && b.entries == a.entries && b.queued_inputs == a.queued_inputs,
{
}

} // verus!
