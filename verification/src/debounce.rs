//! The debouncer: a timer per path that turns bursts of raw notifications
//! into one settled event per file.
//!
//! The debouncer owns no clock and no thread. Its caller tells it the time,
//! in milliseconds on any monotonic scale, with every notification and with
//! every poll, and receives the paths that have settled by then.

use vstd::prelude::*;

verus! {

/// The debounce window, in milliseconds, unless told otherwise.
pub const DEFAULT_DEBOUNCE_WINDOW_MS: u64 = 2000;

/// What a raw notification reports of a path.
#[derive(Debug, Clone, Copy, PartialEq, Eq, Structural)]
pub enum EventKind {
    /// The file was created.
    Created,
    /// Anything else: modified, renamed, removed.
    Other,
}

/// A raw notification from the watched directory tree.
#[derive(Debug, Clone, PartialEq, Eq)]
pub struct WatchEvent {
    pub kind: EventKind,
    pub path: String,
}

/// A running timer: `path` was last heard of at `started`.
pub struct Timer {
    pub path: Seq<char>,
    pub started: nat,
}

/// The state of a debouncer: its window and its timers, the one refreshed
/// longest ago first.
pub struct DebouncerView {
    pub window: nat,
    pub timers: Seq<Timer>,
}

impl Timer {
    /// Whether the timer has run out at time `now`: a full window has
    /// passed since it was started.
    pub open spec fn expired(self, window: nat, now: nat) -> bool {
        self.started + window <= now
    }
}

/// The paths of the timers that have run out at `now`, in the timers' order.
pub open spec fn settled(timers: Seq<Timer>, window: nat, now: nat) -> Seq<Seq<char>>
    decreases timers.len(),
{
    if timers.len() == 0 {
        Seq::empty()
    } else if timers.last().expired(window, now) {
        settled(timers.drop_last(), window, now).push(timers.last().path)
    } else {
        settled(timers.drop_last(), window, now)
    }
}

/// The timers that are still running at `now`, in their order.
pub open spec fn running(timers: Seq<Timer>, window: nat, now: nat) -> Seq<Timer>
    decreases timers.len(),
{
    if timers.len() == 0 {
        Seq::empty()
    } else if timers.last().expired(window, now) {
        running(timers.drop_last(), window, now)
    } else {
        running(timers.drop_last(), window, now).push(timers.last())
    }
}

/// The timers for paths other than `path`, in their order.
pub open spec fn without(timers: Seq<Timer>, path: Seq<char>) -> Seq<Timer>
    decreases timers.len(),
{
    if timers.len() == 0 {
        Seq::empty()
    } else if timers.last().path == path {
        without(timers.drop_last(), path)
    } else {
        without(timers.drop_last(), path).push(timers.last())
    }
}

/// The earliest time at which one of the timers runs out, if there is a
/// timer at all.
pub open spec fn earliest_expiry(timers: Seq<Timer>, window: nat) -> Option<nat>
    decreases timers.len(),
{
    if timers.len() == 0 {
        None
    } else {
        let last = timers.last().started + window;
        match earliest_expiry(timers.drop_last(), window) {
            Some(earlier) => Some(
                if earlier <= last {
                    earlier
                } else {
                    last
                },
            ),
            None => Some(last),
        }
    }
}

/// Whether one of the timers is for `path`.
pub open spec fn has_timer(timers: Seq<Timer>, path: Seq<char>) -> bool {
    exists|i: int| 0 <= i < timers.len() && (#[trigger] timers[i]).path == path
}

impl DebouncerView {
    /// The state after a poll at `now`, and the paths that the poll hands
    /// out: the timers that have run out leave, each giving one settled
    /// event.
    pub open spec fn poll(self, now: nat) -> (DebouncerView, Seq<Seq<char>>) {
        (
            DebouncerView { window: self.window, timers: running(self.timers, self.window, now) },
            settled(self.timers, self.window, now),
        )
    }

    /// The state after a raw notification of `kind` for `path` at `now`, and
    /// the paths handed out. Timers that have run out by `now` settle first,
    /// as in a poll. Then a creation starts the timer for `path`, or starts
    /// it afresh; any other notification starts it afresh if it is running
    /// and is passed over if it is not.
    pub open spec fn observe(self, kind: EventKind, path: Seq<char>, now: nat) -> (
        DebouncerView,
        Seq<Seq<char>>,
    ) {
        let (polled, out) = self.poll(now);
        if kind is Created || has_timer(polled.timers, path) {
            (
                DebouncerView {
                    window: self.window,
                    timers: without(polled.timers, path).push(Timer { path, started: now }),
                },
                out,
            )
        } else {
            (polled, out)
        }
    }
}

/// A path with a running timer.
struct PendingPath {
    path: String,
    started: u64,
}

/// Coalesces the raw notifications for each path into settled events.
pub struct Debouncer {
    window: u64,
    pending: Vec<PendingPath>,
}

impl View for PendingPath {
    type V = Timer;

    closed spec fn view(&self) -> Timer {
        Timer { path: self.path@, started: self.started as nat }
    }
}

impl View for Debouncer {
    type V = DebouncerView;

    closed spec fn view(&self) -> DebouncerView {
        DebouncerView { window: self.window as nat, timers: timers_of(self.pending@) }
    }
}

/// The timers that a list of pending paths stands for.
spec fn timers_of(pending: Seq<PendingPath>) -> Seq<Timer> {
    Seq::new(pending.len(), |i: int| pending[i]@)
}

impl Debouncer {
    /// A debouncer without timers, in which a path settles once `window_ms`
    /// milliseconds have passed without a notification for it.
    pub fn new(window_ms: u64) -> (debouncer: Debouncer)
        ensures
            debouncer@ == DebouncerView::idle(window_ms as nat),
            paths_distinct(debouncer@.timers),
    {
        let debouncer = Debouncer { window: window_ms, pending: Vec::new() };
        assert(timers_of(debouncer.pending@) == Seq::<Timer>::empty());
        debouncer
    }

    /// The debounce window in milliseconds.
    pub fn window(&self) -> (window_ms: u64)
        ensures
            window_ms == self@.window,
    {
        self.window
    }

    /// The number of paths with a running timer.
    pub fn pending(&self) -> (count: usize)
        ensures
            count == self@.timers.len(),
    {
        self.pending.len()
    }

    /// The earliest time at which a poll will hand out a path: `None` while
    /// no timer is running, and the largest time there is if the true one
    /// lies beyond it.
    pub fn next_expiry(&self) -> (at: Option<u64>)
        ensures
            match at {
                Some(t) => earliest_expiry(self@.timers, self@.window) matches Some(e) && (t == e
                    || (t == u64::MAX && e > u64::MAX)),
                None => earliest_expiry(self@.timers, self@.window) is None,
            },
    {
        let ghost timers = self@.timers;
        let ghost window = self.window as nat;
        let mut at: Option<u64> = None;
        let mut i: usize = 0;
        while i < self.pending.len()
            invariant
                i <= self.pending.len(),
                timers == timers_of(self.pending@),
                window == self.window,
                match at {
                    Some(t) => earliest_expiry(timers.take(i as int), window) matches Some(e) && (t
                        == e || (t == u64::MAX && e > u64::MAX)),
                    None => earliest_expiry(timers.take(i as int), window) is None,
                },
            decreases self.pending.len() - i,
        {
            let entry = &self.pending[i];
            proof {
                assert(timers.take(i + 1).drop_last() == timers.take(i as int));
                assert(timers.take(i + 1).last() == entry@);
            }
            let expiry = match entry.started.checked_add(self.window) {
                Some(sum) => sum,
                None => u64::MAX,
            };
            at = match at {
                Some(t) => Some(if t <= expiry { t } else { expiry }),
                None => Some(expiry),
            };
            i = i + 1;
        }
        assert(timers.take(i as int) == timers);
        at
    }

    /// How long after `now`, in milliseconds, the next timer runs out: `None`
    /// while no timer is running, and 0 if one has run out already.
    pub fn time_to_next_expiry(&self, now: u64) -> (wait_ms: Option<u64>)
        ensures
            match wait_ms {
                Some(wait) => earliest_expiry(self@.timers, self@.window) matches Some(e) && (
                if e <= now {
                    wait == 0
                } else if e <= u64::MAX {
                    wait == e - now
                } else {
                    wait == u64::MAX - now
                }),
                None => earliest_expiry(self@.timers, self@.window) is None,
            },
    {
        match self.next_expiry() {
            Some(at) => Some(if at <= now { 0 } else { at - now }),
            None => None,
        }
    }

    /// Hands out the paths whose timers have run out at `now`, in the order
    /// in which those timers were last started, and forgets them. A poll
    /// before the earliest expiry costs one pass over the timers and copies
    /// nothing.
    pub fn poll(&mut self, now: u64) -> (out: Vec<String>)
        ensures
            (final(self)@, out.deep_view()) == old(self)@.poll(now as nat),
            paths_distinct(old(self)@.timers) ==> paths_distinct(final(self)@.timers),
    {
        let ghost timers = self@.timers;
        proof {
            if paths_distinct(timers) {
                lemma_one_timer_per_path(self@, EventKind::Other, Seq::empty(), now as nat);
            }
        }
        let ghost window = self.window as nat;
        let mut out: Vec<String> = Vec::new();
        let due = match self.next_expiry() {
            Some(at) => at <= now,
            None => false,
        };
        if !due {
            proof {
                lemma_nothing_settles_before_earliest_expiry(timers, window, now as nat);
                assert(out.deep_view() == settled(timers, window, now as nat));
            }
            return out;
        }
        let mut kept: Vec<PendingPath> = Vec::new();
        let mut i: usize = 0;
        while i < self.pending.len()
            invariant
                i <= self.pending.len(),
                timers == timers_of(self.pending@),
                window == self.window,
                timers_of(kept@) == running(timers.take(i as int), window, now as nat),
                out.deep_view() == settled(timers.take(i as int), window, now as nat),
            decreases self.pending.len() - i,
        {
            let entry = &self.pending[i];
            proof {
                assert(timers.take(i + 1).drop_last() == timers.take(i as int));
                assert(timers.take(i + 1).last() == entry@);
            }
            let ghost kept_before = timers_of(kept@);
            let ghost out_before = out.deep_view();
            if now >= entry.started && now - entry.started >= self.window {
                out.push(entry.path.clone());
                assert(out.deep_view() == out_before.push(entry.path@));
            } else {
                kept.push(PendingPath { path: entry.path.clone(), started: entry.started });
                assert(timers_of(kept@) == kept_before.push(entry@));
            }
            i = i + 1;
        }
        assert(timers.take(i as int) == timers);
        self.pending = kept;
        out
    }

    /// Takes in one raw notification that arrived at `now` and hands out
    /// the paths that have settled by then.
    pub fn observe(&mut self, event: &WatchEvent, now: u64) -> (out: Vec<String>)
        ensures
            (final(self)@, out.deep_view()) == old(self)@.observe(
                event.kind,
                event.path@,
                now as nat,
            ),
            paths_distinct(old(self)@.timers) ==> paths_distinct(final(self)@.timers),
    {
        proof {
            if paths_distinct(self@.timers) {
                lemma_one_timer_per_path(self@, event.kind, event.path@, now as nat);
            }
        }
        let out = self.poll(now);
        let ghost timers = self@.timers;
        let mut kept: Vec<PendingPath> = Vec::new();
        let mut found = false;
        let mut i: usize = 0;
        while i < self.pending.len()
            invariant
                i <= self.pending.len(),
                timers == timers_of(self.pending@),
                timers_of(kept@) == without(timers.take(i as int), event.path@),
                found == has_timer(timers.take(i as int), event.path@),
            decreases self.pending.len() - i,
        {
            let entry = &self.pending[i];
            proof {
                let seen = timers.take(i as int);
                let next = timers.take(i + 1);
                assert(next.drop_last() == seen);
                assert(next.last() == entry@);
                assert(next[i as int] == entry@);
                if has_timer(seen, event.path@) {
                    let j = choose|j: int| 0 <= j < seen.len() && seen[j].path == event.path@;
                    assert(next[j] == seen[j]);
                }
                if has_timer(next, event.path@) && entry.path@ != event.path@ {
                    let j = choose|j: int| 0 <= j < next.len() && next[j].path == event.path@;
                    assert(seen[j] == next[j]);
                }
            }
            let ghost kept_before = timers_of(kept@);
            if entry.path == event.path {
                found = true;
            } else {
                kept.push(PendingPath { path: entry.path.clone(), started: entry.started });
                assert(timers_of(kept@) == kept_before.push(entry@));
            }
            i = i + 1;
        }
        assert(timers.take(i as int) == timers);
        let created = match event.kind {
            EventKind::Created => true,
            EventKind::Other => false,
        };
        if created || found {
            let ghost kept_before = timers_of(kept@);
            kept.push(PendingPath { path: event.path.clone(), started: now });
            assert(timers_of(kept@) == kept_before.push(
                Timer { path: event.path@, started: now as nat },
            ));
            self.pending = kept;
        }
        out
    }
}

/// One raw notification together with the time at which it arrived.
pub struct Arrival {
    pub kind: EventKind,
    pub path: Seq<char>,
    pub at: nat,
}

/// Whether no two of the timers are for the same path.
pub open spec fn paths_distinct(timers: Seq<Timer>) -> bool {
    forall|i: int, j: int|
        0 <= i < j < timers.len() ==> (#[trigger] timers[i]).path != (#[trigger] timers[j]).path
}

impl DebouncerView {
    /// A debouncer without timers.
    pub open spec fn idle(window: nat) -> DebouncerView {
        DebouncerView { window, timers: Seq::empty() }
    }

    /// Everything that is handed out when the notifications in `arrivals`
    /// are taken in one after the other and a last poll is made at `end`.
    pub open spec fn replay(self, arrivals: Seq<Arrival>, end: nat) -> Seq<Seq<char>>
        decreases arrivals.len(),
    {
        if arrivals.len() == 0 {
            self.poll(end).1
        } else {
            let (next, out) = self.observe(arrivals[0].kind, arrivals[0].path, arrivals[0].at);
            out + next.replay(arrivals.drop_first(), end)
        }
    }
}

/// Every timer that is still running was among the timers.
proof fn lemma_running_subset(timers: Seq<Timer>, window: nat, now: nat)
    ensures
        forall|k: int|
            0 <= k < running(timers, window, now).len() ==> has_timer(
                timers,
                (#[trigger] running(timers, window, now)[k]).path,
            ),
    decreases timers.len(),
{
    if timers.len() > 0 {
        let front = timers.drop_last();
        lemma_running_subset(front, window, now);
        let kept = running(timers, window, now);
        assert forall|k: int| 0 <= k < kept.len() implies has_timer(
            timers,
            (#[trigger] kept[k]).path,
        ) by {
            if k < running(front, window, now).len() {
                let path = running(front, window, now)[k].path;
                let i = choose|i: int| 0 <= i < front.len() && front[i].path == path;
                assert(timers[i] == front[i]);
            } else {
                assert(kept[k] == timers[timers.len() - 1]);
            }
        }
    }
}

/// Every timer left by `without` was among the timers, and none of them is
/// for the path taken out.
proof fn lemma_without_subset(timers: Seq<Timer>, path: Seq<char>)
    ensures
        forall|k: int|
            0 <= k < without(timers, path).len() ==> has_timer(
                timers,
                (#[trigger] without(timers, path)[k]).path,
            ) && without(timers, path)[k].path != path,
    decreases timers.len(),
{
    if timers.len() > 0 {
        let front = timers.drop_last();
        lemma_without_subset(front, path);
        let kept = without(timers, path);
        assert forall|k: int| 0 <= k < kept.len() implies has_timer(
            timers,
            (#[trigger] kept[k]).path,
        ) && kept[k].path != path by {
            if k < without(front, path).len() {
                let other = without(front, path)[k].path;
                let i = choose|i: int| 0 <= i < front.len() && front[i].path == other;
                assert(timers[i] == front[i]);
            } else {
                assert(kept[k] == timers[timers.len() - 1]);
            }
        }
    }
}

/// Timers for distinct paths stay so when those that have run out leave.
proof fn lemma_running_distinct(timers: Seq<Timer>, window: nat, now: nat)
    requires
        paths_distinct(timers),
    ensures
        paths_distinct(running(timers, window, now)),
    decreases timers.len(),
{
    if timers.len() > 0 {
        let front = timers.drop_last();
        assert forall|i: int, j: int| 0 <= i < j < front.len() implies (#[trigger] front[i]).path
            != (#[trigger] front[j]).path by {
            assert(front[i] == timers[i] && front[j] == timers[j]);
        }
        lemma_running_distinct(front, window, now);
        lemma_running_subset(front, window, now);
        let kept = running(timers, window, now);
        let inner = running(front, window, now);
        assert forall|i: int, j: int| 0 <= i < j < kept.len() implies (#[trigger] kept[i]).path
            != (#[trigger] kept[j]).path by {
            if j < inner.len() {
                assert(kept[i] == inner[i] && kept[j] == inner[j]);
            } else {
                assert(kept[i] == inner[i]);
                let k = choose|k: int| 0 <= k < front.len() && front[k].path == inner[i].path;
                assert(timers[k] == front[k]);
                assert(kept[j] == timers[timers.len() - 1]);
            }
        }
    }
}

/// Timers for distinct paths stay so when the timer for one path leaves.
proof fn lemma_without_distinct(timers: Seq<Timer>, path: Seq<char>)
    requires
        paths_distinct(timers),
    ensures
        paths_distinct(without(timers, path)),
    decreases timers.len(),
{
    if timers.len() > 0 {
        let front = timers.drop_last();
        assert forall|i: int, j: int| 0 <= i < j < front.len() implies (#[trigger] front[i]).path
            != (#[trigger] front[j]).path by {
            assert(front[i] == timers[i] && front[j] == timers[j]);
        }
        lemma_without_distinct(front, path);
        lemma_without_subset(front, path);
        let kept = without(timers, path);
        let inner = without(front, path);
        assert forall|i: int, j: int| 0 <= i < j < kept.len() implies (#[trigger] kept[i]).path
            != (#[trigger] kept[j]).path by {
            if j < inner.len() {
                assert(kept[i] == inner[i] && kept[j] == inner[j]);
            } else {
                assert(kept[i] == inner[i]);
                let k = choose|k: int| 0 <= k < front.len() && front[k].path == inner[i].path;
                assert(timers[k] == front[k]);
                assert(kept[j] == timers[timers.len() - 1]);
            }
        }
    }
}

/// The debouncer keeps at most one timer per path: if no two timers share
/// a path before a poll or a notification, none do after it. What it holds
/// is therefore bounded by the number of distinct paths in flight, however
/// many notifications arrive.
pub proof fn lemma_one_timer_per_path(
    state: DebouncerView,
    kind: EventKind,
    path: Seq<char>,
    now: nat,
)
    requires
        paths_distinct(state.timers),
    ensures
        paths_distinct(DebouncerView::idle(state.window).timers),
        paths_distinct(state.poll(now).0.timers),
        paths_distinct(state.observe(kind, path, now).0.timers),
{
    lemma_running_distinct(state.timers, state.window, now);
    let polled = state.poll(now).0.timers;
    lemma_without_distinct(polled, path);
    lemma_without_subset(polled, path);
    let kept = without(polled, path);
    let renewed = kept.push(Timer { path, started: now });
    assert forall|i: int, j: int| 0 <= i < j < renewed.len() implies (#[trigger] renewed[i]).path
        != (#[trigger] renewed[j]).path by {
        if j < kept.len() {
            assert(renewed[i] == kept[i] && renewed[j] == kept[j]);
        } else {
            assert(renewed[i] == kept[i]);
        }
    }
}

/// Whether every notification is for `path`.
pub open spec fn all_for(arrivals: Seq<Arrival>, path: Seq<char>) -> bool {
    forall|i: int| 0 <= i < arrivals.len() ==> (#[trigger] arrivals[i]).path == path
}

/// Whether every notification reports a creation.
pub open spec fn all_creations(arrivals: Seq<Arrival>) -> bool {
    forall|i: int| 0 <= i < arrivals.len() ==> (#[trigger] arrivals[i]).kind is Created
}

/// Whether each notification but the first arrives no earlier than the one
/// before it and less than a window after it.
pub open spec fn within_window(arrivals: Seq<Arrival>, window: nat) -> bool {
    forall|i: int, j: int|
        0 <= i && j == i + 1 && j < arrivals.len() ==> (#[trigger] arrivals[i]).at <= (
        #[trigger] arrivals[j]).at < arrivals[i].at + window
}

/// Whether each notification but the first arrives a full window or more
/// after the one before it.
pub open spec fn a_window_apart(arrivals: Seq<Arrival>, window: nat) -> bool {
    forall|i: int, j: int|
        0 <= i && j == i + 1 && j < arrivals.len() ==> (#[trigger] arrivals[i]).at + window <= (
        #[trigger] arrivals[j]).at
}

/// What becomes of a debouncer's only timer.
proof fn lemma_lone_timer(timer: Timer, window: nat, now: nat)
    ensures
        settled(seq![timer], window, now) == if timer.expired(window, now) {
            seq![timer.path]
        } else {
            Seq::empty()
        },
        running(seq![timer], window, now) == if timer.expired(window, now) {
            Seq::empty()
        } else {
            seq![timer]
        },
        without(seq![timer], timer.path) == Seq::<Timer>::empty(),
        has_timer(seq![timer], timer.path),
{
    reveal_with_fuel(settled, 2);
    reveal_with_fuel(running, 2);
    reveal_with_fuel(without, 2);
    let timers = seq![timer];
    assert(timers.drop_last() == Seq::<Timer>::empty());
    assert(timers.last() == timer);
    assert(timers[0].path == timer.path);
}

/// A creation taken in by a debouncer without timers starts the only timer
/// and hands out nothing.
proof fn lemma_observe_idle(window: nat, path: Seq<char>, now: nat)
    ensures
        DebouncerView::idle(window).observe(EventKind::Created, path, now) == (
            DebouncerView { window, timers: seq![Timer { path, started: now }] },
            Seq::<Seq<char>>::empty(),
        ),
{
    assert(Seq::<Timer>::empty().push(Timer { path, started: now }) == seq![
        Timer { path, started: now },
    ]);
}

/// A notification for the path of the only timer starts that timer afresh.
/// It hands out the path if the timer had run out, in which case only a
/// creation starts it again.
proof fn lemma_observe_lone(window: nat, path: Seq<char>, started: nat, kind: EventKind, now: nat)
    requires
        kind is Created || now < started + window,
    ensures
        (DebouncerView { window, timers: seq![Timer { path, started }] }).observe(kind, path, now)
            == (
            DebouncerView { window, timers: seq![Timer { path, started: now }] },
            if started + window <= now {
                seq![path]
            } else {
                Seq::<Seq<char>>::empty()
            },
        ),
{
    lemma_lone_timer(Timer { path, started }, window, now);
    assert(Seq::<Timer>::empty().push(Timer { path, started: now }) == seq![
        Timer { path, started: now },
    ]);
}

/// The notifications after the first keep the properties that held of all.
proof fn lemma_drop_first(arrivals: Seq<Arrival>, path: Seq<char>, window: nat)
    requires
        arrivals.len() > 0,
    ensures
        all_for(arrivals, path) ==> all_for(arrivals.drop_first(), path),
        all_creations(arrivals) ==> all_creations(arrivals.drop_first()),
        within_window(arrivals, window) ==> within_window(arrivals.drop_first(), window),
        a_window_apart(arrivals, window) ==> a_window_apart(arrivals.drop_first(), window),
        arrivals.len() > 1 ==> arrivals.drop_first()[0] == arrivals[1] && arrivals.drop_first().last()
            == arrivals.last(),
{
    let tail = arrivals.drop_first();
    assert forall|i: int| 0 <= i < tail.len() implies #[trigger] tail[i] == arrivals[i + 1] by {}
    if all_for(arrivals, path) {
        assert forall|i: int| 0 <= i < tail.len() implies (#[trigger] tail[i]).path == path by {
            assert(tail[i] == arrivals[i + 1]);
        }
    }
    if all_creations(arrivals) {
        assert forall|i: int| 0 <= i < tail.len() implies (#[trigger] tail[i]).kind is Created by {
            assert(tail[i] == arrivals[i + 1]);
        }
    }
    if within_window(arrivals, window) {
        assert forall|i: int, j: int| 0 <= i && j == i + 1 && j < tail.len() implies (
        #[trigger] tail[i]).at <= (#[trigger] tail[j]).at < tail[i].at + window by {
            assert(tail[i] == arrivals[i + 1]);
            assert(tail[j] == arrivals[j + 1]);
        }
    }
    if a_window_apart(arrivals, window) {
        assert forall|i: int, j: int| 0 <= i && j == i + 1 && j < tail.len() implies (
        #[trigger] tail[i]).at + window <= (#[trigger] tail[j]).at by {
            assert(tail[i] == arrivals[i + 1]);
            assert(tail[j] == arrivals[j + 1]);
        }
    }
}

/// After a notification for `path` at `started` has left its timer as the
/// only one, notifications for `path` that each arrive before the timer of
/// the one before runs out give no settled event; the last poll gives one.
proof fn lemma_burst_tail(
    window: nat,
    path: Seq<char>,
    started: nat,
    rest: Seq<Arrival>,
    end: nat,
)
    requires
        all_for(rest, path),
        within_window(rest, window),
        rest.len() > 0 ==> started <= rest[0].at < started + window,
        rest.len() == 0 ==> started + window <= end,
        rest.len() > 0 ==> rest.last().at + window <= end,
    ensures
        (DebouncerView { window, timers: seq![Timer { path, started }] }).replay(rest, end)
            == seq![path],
    decreases rest.len(),
{
    if rest.len() == 0 {
        lemma_lone_timer(Timer { path, started }, window, end);
    } else {
        let now = rest[0].at;
        lemma_observe_lone(window, path, started, rest[0].kind, now);
        lemma_drop_first(rest, path, window);
        let tail = rest.drop_first();
        if tail.len() > 0 {
            assert(rest[0].at <= rest[1].at < rest[0].at + window);
        }
        lemma_burst_tail(window, path, now, tail, end);
        assert(Seq::<Seq<char>>::empty() + seq![path] == seq![path]);
    }
}

/// Coalescing: a creation of `path` followed by any notifications for
/// `path`, each arriving before the timer started by the one before has run
/// out, gives exactly one settled event, whatever their number. The event
/// comes with the first poll made a full window after the last of them.
pub proof fn lemma_burst_settles_once(
    window: nat,
    path: Seq<char>,
    arrivals: Seq<Arrival>,
    end: nat,
)
    requires
        arrivals.len() > 0,
        arrivals[0].kind is Created,
        all_for(arrivals, path),
        within_window(arrivals, window),
        arrivals.last().at + window <= end,
    ensures
        DebouncerView::idle(window).replay(arrivals, end) == seq![path],
{
    let now = arrivals[0].at;
    lemma_observe_idle(window, path, now);
    lemma_drop_first(arrivals, path, window);
    let tail = arrivals.drop_first();
    if tail.len() > 0 {
        assert(arrivals[0].at <= arrivals[1].at < arrivals[0].at + window);
    }
    lemma_burst_tail(window, path, now, tail, end);
    assert(Seq::<Seq<char>>::empty() + seq![path] == seq![path]);
}

/// After a creation of `path` at `started` has left its timer as the only
/// one, creations of `path` that each arrive when the timer of the one
/// before has run out give one settled event each, and the last poll gives
/// one more.
proof fn lemma_spaced_tail(
    window: nat,
    path: Seq<char>,
    started: nat,
    rest: Seq<Arrival>,
    end: nat,
)
    requires
        all_for(rest, path),
        all_creations(rest),
        a_window_apart(rest, window),
        rest.len() > 0 ==> started + window <= rest[0].at,
        rest.len() == 0 ==> started + window <= end,
        rest.len() > 0 ==> rest.last().at + window <= end,
    ensures
        (DebouncerView { window, timers: seq![Timer { path, started }] }).replay(rest, end)
            == Seq::new(rest.len() + 1, |i: int| path),
    decreases rest.len(),
{
    if rest.len() == 0 {
        lemma_lone_timer(Timer { path, started }, window, end);
        assert(seq![path] == Seq::new(1, |i: int| path));
    } else {
        let now = rest[0].at;
        lemma_observe_lone(window, path, started, rest[0].kind, now);
        lemma_drop_first(rest, path, window);
        let tail = rest.drop_first();
        if tail.len() > 0 {
            assert(rest[0].at + window <= rest[1].at);
        }
        lemma_spaced_tail(window, path, now, tail, end);
        assert(seq![path] + Seq::new(tail.len() + 1, |i: int| path) == Seq::new(
            rest.len() + 1,
            |i: int| path,
        ));
    }
}

/// No coalescing across windows: creations of `path` that lie a full window
/// or more apart give one settled event each, as many as there were
/// creations, once a poll is made a full window after the last.
pub proof fn lemma_spaced_notifications_settle_each(
    window: nat,
    path: Seq<char>,
    arrivals: Seq<Arrival>,
    end: nat,
)
    requires
        arrivals.len() > 0,
        all_for(arrivals, path),
        all_creations(arrivals),
        a_window_apart(arrivals, window),
        arrivals.last().at + window <= end,
    ensures
        DebouncerView::idle(window).replay(arrivals, end) == Seq::new(
            arrivals.len(),
            |i: int| path,
        ),
{
    let now = arrivals[0].at;
    lemma_observe_idle(window, path, now);
    lemma_drop_first(arrivals, path, window);
    let tail = arrivals.drop_first();
    if tail.len() > 0 {
        assert(arrivals[0].at + window <= arrivals[1].at);
    }
    lemma_spaced_tail(window, path, now, tail, end);
    assert(Seq::<Seq<char>>::empty() + Seq::new(tail.len() + 1, |i: int| path) == Seq::new(
        arrivals.len(),
        |i: int| path,
    ));
}

/// A poll hands out a path exactly when the earliest expiry has been
/// reached. Until then it hands out nothing and leaves every timer running.
pub proof fn lemma_nothing_settles_before_earliest_expiry(timers: Seq<Timer>, window: nat, now: nat)
    ensures
        settled(timers, window, now).len() > 0 <==> (earliest_expiry(timers, window) matches Some(e)
            && e <= now),
        settled(timers, window, now).len() == 0 ==> running(timers, window, now) == timers,
    decreases timers.len(),
{
    if timers.len() > 0 {
        lemma_nothing_settles_before_earliest_expiry(timers.drop_last(), window, now);
        if settled(timers, window, now).len() == 0 {
            assert(timers.drop_last().push(timers.last()) == timers);
        }
    }
}

/// Every path that a poll hands out had a timer.
proof fn lemma_settled_subset(timers: Seq<Timer>, window: nat, now: nat)
    ensures
        forall|k: int|
            0 <= k < settled(timers, window, now).len() ==> has_timer(
                timers,
                #[trigger] settled(timers, window, now)[k],
            ),
    decreases timers.len(),
{
    if timers.len() > 0 {
        let front = timers.drop_last();
        lemma_settled_subset(front, window, now);
        let out = settled(timers, window, now);
        assert forall|k: int| 0 <= k < out.len() implies has_timer(timers, #[trigger] out[k]) by {
            if k < settled(front, window, now).len() {
                let path = settled(front, window, now)[k];
                let i = choose|i: int| 0 <= i < front.len() && front[i].path == path;
                assert(timers[i] == front[i]);
            } else {
                assert(timers[timers.len() - 1].path == out[k]);
            }
        }
    }
}

/// Whether every timer is for one of `paths`.
spec fn timers_among(timers: Seq<Timer>, paths: Set<Seq<char>>) -> bool {
    forall|i: int| 0 <= i < timers.len() ==> paths.contains((#[trigger] timers[i]).path)
}

/// If the timers at the start and the creations that arrive are all for
/// paths among `paths`, so is everything that is handed out.
proof fn lemma_replay_among(
    state: DebouncerView,
    arrivals: Seq<Arrival>,
    end: nat,
    paths: Set<Seq<char>>,
)
    requires
        timers_among(state.timers, paths),
        forall|i: int|
            0 <= i < arrivals.len() && (#[trigger] arrivals[i]).kind is Created ==> paths.contains(
                arrivals[i].path,
            ),
    ensures
        forall|k: int|
            0 <= k < state.replay(arrivals, end).len() ==> paths.contains(
                #[trigger] state.replay(arrivals, end)[k],
            ),
    decreases arrivals.len(),
{
    if arrivals.len() == 0 {
        lemma_settled_subset(state.timers, state.window, end);
        let out = state.replay(arrivals, end);
        assert forall|k: int| 0 <= k < out.len() implies paths.contains(#[trigger] out[k]) by {
            let i = choose|i: int| 0 <= i < state.timers.len() && state.timers[i].path == out[k];
            assert(paths.contains(state.timers[i].path));
        }
    } else {
        let first = arrivals[0];
        let tail = arrivals.drop_first();
        let (polled, out) = state.poll(first.at);
        let (next, _) = state.observe(first.kind, first.path, first.at);
        lemma_settled_subset(state.timers, state.window, first.at);
        lemma_running_subset(state.timers, state.window, first.at);
        lemma_without_subset(polled.timers, first.path);
        assert(timers_among(polled.timers, paths)) by {
            assert forall|i: int| 0 <= i < polled.timers.len() implies paths.contains(
                (#[trigger] polled.timers[i]).path,
            ) by {
                let path = polled.timers[i].path;
                let j = choose|j: int| 0 <= j < state.timers.len() && state.timers[j].path == path;
                assert(paths.contains(state.timers[j].path));
            }
        }
        assert(timers_among(next.timers, paths)) by {
            if first.kind is Created || has_timer(polled.timers, first.path) {
                if !(first.kind is Created) {
                    let j = choose|j: int|
                        0 <= j < polled.timers.len() && polled.timers[j].path == first.path;
                    assert(paths.contains(polled.timers[j].path));
                }
                let kept = without(polled.timers, first.path);
                assert forall|i: int| 0 <= i < next.timers.len() implies paths.contains(
                    (#[trigger] next.timers[i]).path,
                ) by {
                    if i < kept.len() {
                        let path = kept[i].path;
                        let j = choose|j: int|
                            0 <= j < polled.timers.len() && polled.timers[j].path == path;
                        assert(paths.contains(polled.timers[j].path));
                    }
                }
            }
        }
        assert forall|i: int| 0 <= i < tail.len() && (#[trigger] tail[i]).kind
            is Created implies paths.contains(tail[i].path) by {
            assert(tail[i] == arrivals[i + 1]);
        }
        lemma_replay_among(next, tail, end, paths);
        let rest = next.replay(tail, end);
        let all = state.replay(arrivals, end);
        assert(all == out + rest);
        assert forall|k: int| 0 <= k < all.len() implies paths.contains(#[trigger] all[k]) by {
            if k < out.len() {
                let i = choose|i: int|
                    0 <= i < state.timers.len() && state.timers[i].path == out[k];
                assert(paths.contains(state.timers[i].path));
            } else {
                assert(all[k] == rest[k - out.len()]);
            }
        }
    }
}

/// Only creations lead to settled events: whatever notifications a
/// debouncer without timers takes in, every path that it hands out is the
/// path of a creation among them.
pub proof fn lemma_settled_paths_were_created(window: nat, arrivals: Seq<Arrival>, end: nat)
    ensures
        forall|k: int|
            0 <= k < DebouncerView::idle(window).replay(arrivals, end).len() ==> exists|i: int|
                0 <= i < arrivals.len() && (#[trigger] arrivals[i]).kind is Created
                    && arrivals[i].path == #[trigger] DebouncerView::idle(window).replay(
                    arrivals,
                    end,
                )[k],
{
    let created = Set::new(
        |path: Seq<char>|
            exists|i: int|
                0 <= i < arrivals.len() && (#[trigger] arrivals[i]).kind is Created
                    && arrivals[i].path == path,
    );
    lemma_replay_among(DebouncerView::idle(window), arrivals, end, created);
    let out = DebouncerView::idle(window).replay(arrivals, end);
    assert forall|k: int| 0 <= k < out.len() implies exists|i: int|
        0 <= i < arrivals.len() && (#[trigger] arrivals[i]).kind is Created && arrivals[i].path
            == #[trigger] out[k] by {
        assert(created.contains(out[k]));
    }
}

} // verus!
