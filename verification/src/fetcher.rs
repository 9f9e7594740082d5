//! The decisions of a bounded pool of fetches: when the next tile may be
//! dispatched, when to wait for one to finish, and when the run is over.
//! The caller performs each action and reports back what happened.

use vstd::prelude::*;
use crate::address::{TileAddress, Enumerator, TILE_LIMIT};

verus! {

/// Why a tile could not be saved.
#[derive(Clone, Copy, Debug, PartialEq, Eq, Structural)]
pub enum FetchError {
    /// The connection could not be made or broke.
    Transport,
    /// The server answered with a status other than success.
    HttpStatus,
    /// The file could not be created or written.
    FileSystem,
    /// The server answered, but nothing was written.
    EmptyBody,
}

/// How a fetch ended.
#[derive(Clone, Copy, Debug, PartialEq, Eq, Structural)]
pub enum Outcome {
    Succeeded,
    Failed,
}

/// What the caller reports to the pool.
#[derive(Clone, Copy, Debug, PartialEq, Eq, Structural)]
pub enum Event {
    /// Nothing has happened since the last action was carried out.
    Idle,
    /// One of the dispatched fetches has ended.
    Finished(Outcome),
}

/// What the caller is to do next.
#[derive(Clone, Copy, Debug, PartialEq, Eq, Structural)]
pub enum Action {
    /// Start fetching `tile`. `new_column` says that the tile's directory
    /// differs from that of the tile dispatched before it.
    Dispatch { tile: TileAddress, new_column: bool },
    /// Wait until a fetch ends, and report it.
    Wait,
    /// Every tile was dispatched and every fetch has ended.
    Stop,
}

/// The pool as the contracts see it.
pub struct PoolState {
    /// Most fetches that may run at once.
    pub limit: nat,
    /// Fetches that were dispatched and have not ended yet.
    pub in_flight: nat,
    /// Fetches dispatched so far.
    pub dispatched: nat,
    /// Fetches that ended well.
    pub completed: nat,
    /// Fetches that ended badly.
    pub failed: nat,
    /// Tiles still to dispatch, in order.
    pub pending: Seq<TileAddress>,
    /// Zoom and column of the tile dispatched last.
    pub column: Option<(u32, u32)>,
}

/// Every fetch that ended or still runs was dispatched, and no more run
/// than the limit allows.
pub open spec fn balanced(s: PoolState) -> bool {
    s.in_flight <= s.limit && s.completed + s.failed + s.in_flight == s.dispatched
}

/// The state after `event` was taken note of. A fetch that ends frees its
/// slot and is counted, whichever way it ended; a report of an end while
/// nothing runs is ignored.
pub open spec fn settle(s: PoolState, event: Event) -> PoolState {
    match event {
        Event::Finished(outcome) if s.in_flight > 0 => PoolState {
            in_flight: (s.in_flight - 1) as nat,
            completed: if outcome == Outcome::Succeeded {
                s.completed + 1
            } else {
                s.completed
            },
            failed: if outcome == Outcome::Failed {
                s.failed + 1
            } else {
                s.failed
            },
            ..s
        },
        _ => s,
    }
}

/// The next action and the state after it: the next tile where a slot is
/// free and a tile is left; the end where no tile is left and nothing
/// runs; else a wait.
pub open spec fn decide(s: PoolState) -> (PoolState, Action) {
    if s.in_flight < s.limit && s.pending.len() > 0 {
        let tile = s.pending[0];
        (
            PoolState {
                in_flight: s.in_flight + 1,
                dispatched: s.dispatched + 1,
                pending: s.pending.drop_first(),
                column: Some((tile.zoom, tile.x)),
                ..s
            },
            Action::Dispatch { tile, new_column: s.column != Some((tile.zoom, tile.x)) },
        )
    } else if s.pending.len() == 0 && s.in_flight == 0 {
        (s, Action::Stop)
    } else {
        (s, Action::Wait)
    }
}

/// Says whether a response's status lets its body be saved: the statuses
/// from 200 to 299 do.
pub fn check_status(status: u16) -> (r: Result<(), FetchError>)
    ensures
        r == if 200 <= status <= 299 {
            Ok::<(), FetchError>(())
        } else {
            Err::<(), FetchError>(FetchError::HttpStatus)
        },
{
    if 200 <= status && status <= 299 {
        Ok(())
    } else {
        Err(FetchError::HttpStatus)
    }
}

/// Says whether what was written counts as a saved tile: an empty body is a
/// failure.
pub fn check_written(bytes: u64) -> (r: Result<u64, FetchError>)
    ensures
        r == if bytes == 0 {
            Err::<u64, FetchError>(FetchError::EmptyBody)
        } else {
            Ok::<u64, FetchError>(bytes)
        },
{
    if bytes == 0 {
        Err(FetchError::EmptyBody)
    } else {
        Ok(bytes)
    }
}

/// The outcome that is reported to the pool for the result of a fetch.
pub fn outcome_of(result: Result<u64, FetchError>) -> (o: Outcome)
    ensures
        o == if result.is_ok() {
            Outcome::Succeeded
        } else {
            Outcome::Failed
        },
{
    match result {
        Ok(_) => Outcome::Succeeded,
        Err(_) => Outcome::Failed,
    }
}

/// A pool of at most `limit` fetches over the tiles of an enumeration.
pub struct Fetcher {
    tiles: Enumerator,
    limit: usize,
    in_flight: usize,
    dispatched: u128,
    completed: u128,
    failed: u128,
    column: Option<(u32, u32)>,
}

impl View for Fetcher {
    type V = PoolState;

    closed spec fn view(&self) -> PoolState {
        PoolState {
            limit: self.limit as nat,
            in_flight: self.in_flight as nat,
            dispatched: self.dispatched as nat,
            completed: self.completed as nat,
            failed: self.failed as nat,
            pending: self.tiles.remaining(),
            column: self.column,
        }
    }
}

impl Fetcher {
    /// The state is one that `new` and `step` can reach.
    pub closed spec fn wf(&self) -> bool {
        &&& self.tiles.wf()
        &&& balanced(self@)
        &&& self.dispatched + self.tiles.remaining().len() <= TILE_LIMIT
    }

    /// A pool with nothing dispatched yet.
    pub fn new(tiles: Enumerator, limit: usize) -> (f: Fetcher)
        requires
            tiles.wf(),
        ensures
            f.wf(),
            f@ == (PoolState {
                limit: limit as nat,
                in_flight: 0,
                dispatched: 0,
                completed: 0,
                failed: 0,
                pending: tiles.remaining(),
                column: None,
            }),
    {
        proof {
            tiles.remaining_bounded();
        }
        Fetcher {
            tiles,
            limit,
            in_flight: 0,
            dispatched: 0,
            completed: 0,
            failed: 0,
            column: None,
        }
    }

    /// Takes note of `event` and says what to do next.
    pub fn step(&mut self, event: Event) -> (action: Action)
        requires
            old(self).wf(),
        ensures
            final(self).wf(),
            balanced(final(self)@),
            (final(self)@, action) == decide(settle(old(self)@, event)),
    {
        match event {
            Event::Finished(outcome) => {
                if self.in_flight > 0 {
                    self.in_flight = self.in_flight - 1;
                    match outcome {
                        Outcome::Succeeded => {
                            self.completed = self.completed + 1;
                        },
                        Outcome::Failed => {
                            self.failed = self.failed + 1;
                        },
                    }
                }
            },
            Event::Idle => {},
        }
        assert(self@ == settle(old(self)@, event));
        if self.in_flight < self.limit {
            match self.tiles.next() {
                Some(tile) => {
                    let new_column = match self.column {
                        Some((zoom, x)) => zoom != tile.zoom || x != tile.x,
                        None => true,
                    };
                    self.in_flight = self.in_flight + 1;
                    self.dispatched = self.dispatched + 1;
                    self.column = Some((tile.zoom, tile.x));
                    Action::Dispatch { tile, new_column }
                },
                None => {
                    assert(self@.pending =~= settle(old(self)@, event).pending);
                    if self.in_flight == 0 {
                        Action::Stop
                    } else {
                        Action::Wait
                    }
                },
            }
        } else if self.in_flight == 0 && self.tiles.is_exhausted() {
            Action::Stop
        } else {
            Action::Wait
        }
    }

    /// Most fetches that may run at once.
    pub fn limit(&self) -> (n: usize)
        ensures
            n == self@.limit,
    {
        self.limit
    }

    /// Fetches that run now.
    pub fn in_flight(&self) -> (n: usize)
        ensures
            n == self@.in_flight,
    {
        self.in_flight
    }

    /// Fetches dispatched so far.
    pub fn dispatched(&self) -> (n: u128)
        ensures
            n == self@.dispatched,
    {
        self.dispatched
    }

    /// Fetches that ended well.
    pub fn completed(&self) -> (n: u128)
        ensures
            n == self@.completed,
    {
        self.completed
    }

    /// Fetches that ended badly.
    pub fn failed(&self) -> (n: u128)
        ensures
            n == self@.failed,
    {
        self.failed
    }
}

/// No step lets more fetches run than the limit allows, and every step
/// keeps the count of what was dispatched equal to what ended or runs.
pub proof fn limit_kept(s: PoolState, event: Event)
    requires
        balanced(s),
    ensures
        balanced(decide(settle(s, event)).0),
        decide(settle(s, event)).0.limit == s.limit,
{
}

/// A fetch that failed frees its slot as one that succeeded does: the next
/// action, the tiles left and the fetches running are the same, and only
/// the count that it goes to differs.
pub proof fn failure_is_local(s: PoolState)
    ensures
        ({
            let (bad, bad_action) = decide(settle(s, Event::Finished(Outcome::Failed)));
            let (good, good_action) = decide(settle(s, Event::Finished(Outcome::Succeeded)));
            &&& bad_action == good_action
            &&& bad.pending == good.pending
            &&& bad.in_flight == good.in_flight
            &&& bad.dispatched == good.dispatched
            &&& bad.completed + bad.failed == good.completed + good.failed
        }),
{
}

/// The run ends only when no tile is left to dispatch and no fetch runs:
/// every fetch that was dispatched has then been counted as completed or
/// failed.
pub proof fn stop_is_complete(s: PoolState, event: Event)
    requires
        balanced(s),
        decide(settle(s, event)).1 == Action::Stop,
    ensures
        decide(settle(s, event)).0.pending.len() == 0,
        decide(settle(s, event)).0.in_flight == 0,
        decide(settle(s, event)).0.completed + decide(settle(s, event)).0.failed == decide(
            settle(s, event),
        ).0.dispatched,
{
}

/// The state after the events were reported one after the other, each
/// followed by the action that `decide` gives.
pub open spec fn after(s: PoolState, events: Seq<Event>) -> PoolState
    decreases events.len(),
{
    if events.len() == 0 {
        s
    } else {
        decide(settle(after(s, events.drop_last()), events.last())).0
    }
}

/// Two reports differ at most in how a fetch ended.
pub open spec fn same_kind(a: Event, b: Event) -> bool {
    (a is Idle) == (b is Idle)
}

/// Whatever is reported and in whatever order, never more fetches run than
/// the limit allows, every fetch dispatched either runs or was counted, and
/// the tiles are dispatched in the order in which they were pending.
pub proof fn run_keeps_limit_and_order(s: PoolState, events: Seq<Event>)
    requires
        balanced(s),
    ensures
        ({
            let t = after(s, events);
            let sent = t.dispatched - s.dispatched;
            &&& balanced(t)
            &&& t.limit == s.limit
            &&& 0 <= sent <= s.pending.len()
            &&& t.pending == s.pending.skip(sent)
        }),
    decreases events.len(),
{
    if events.len() == 0 {
        assert(s.pending.skip(0) =~= s.pending);
    } else {
        run_keeps_limit_and_order(s, events.drop_last());
        let before = after(s, events.drop_last());
        let t = after(s, events);
        let sent = before.dispatched - s.dispatched;
        if t.dispatched != before.dispatched {
            assert(s.pending.skip(sent).drop_first() =~= s.pending.skip(sent + 1));
        }
    }
}

/// How the fetches end does not steer the run: two runs that differ only
/// in which fetches failed leave the same tiles pending and the same
/// number of fetches running, and have counted as many fetches as ended.
pub proof fn outcomes_do_not_steer(s: PoolState, a: Seq<Event>, b: Seq<Event>)
    requires
        a.len() == b.len(),
        forall|i: int| 0 <= i < a.len() ==> same_kind(#[trigger] a[i], b[i]),
    ensures
        ({
            let (ta, tb) = (after(s, a), after(s, b));
            &&& ta.pending == tb.pending
            &&& ta.in_flight == tb.in_flight
            &&& ta.dispatched == tb.dispatched
            &&& ta.column == tb.column
            &&& ta.limit == tb.limit
            &&& ta.completed + ta.failed == tb.completed + tb.failed
        }),
    decreases a.len(),
{
    if a.len() > 0 {
        outcomes_do_not_steer(s, a.drop_last(), b.drop_last());
        assert(same_kind(a[a.len() - 1], b[a.len() - 1]));
    }
}

/// While a slot is free and a tile is left, the next step dispatches the
/// first of the tiles left.
pub proof fn dispatch_in_order(s: PoolState)
    requires
        s.in_flight < s.limit,
        s.pending.len() > 0,
    ensures
        decide(settle(s, Event::Idle)).1 matches Action::Dispatch { tile, .. } && tile
            == s.pending[0],
        decide(settle(s, Event::Idle)).0.pending == s.pending.drop_first(),
{
}

} // verus!
