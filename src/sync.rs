//! The reconciliation of a reader's view with the presence store: when to
//! push the local visible range, when to pull the peers, and what a pull
//! leaves behind.
use vstd::prelude::*;

use crate::layout::{visible_range, visible_range_of, LaidOutElement};
use crate::presence::ConnectedUser;

verus! {

/// Shortest interval between two pushes of an unchanged range, in milliseconds.
pub const PUSH_INTERVAL_MS: u64 = 250;

/// Interval between two pulls of the peers, in milliseconds.
pub const PULL_INTERVAL_MS: u64 = 250;

/// At least `interval` milliseconds have passed since `last`, or nothing happened yet.
pub open spec fn interval_passed(last: Option<u64>, now: u64, interval: u64) -> bool {
    match last {
        None => true,
        Some(t) => now >= t && now - t >= interval,
    }
}

/// A push is due when the range differs from the one sent last, or when the
/// push interval has passed since the last push.
pub open spec fn push_due(
    last_sent: Option<(usize, usize)>,
    last_push: Option<u64>,
    range: (usize, usize),
    now: u64,
) -> bool {
    last_sent != Some(range) || interval_passed(last_push, now, PUSH_INTERVAL_MS)
}

/// Whether `interval` milliseconds have passed since `last`.
pub fn has_interval_passed(last: Option<u64>, now: u64, interval: u64) -> (r: bool)
    ensures
        r == interval_passed(last, now, interval),
{
    match last {
        None => true,
        Some(t) => now >= t && now - t >= interval,
    }
}

/// What one tick of the sync loop does over the network.
#[derive(Debug, Clone, Copy)]
pub struct TickPlan {
    /// The range to publish, when a push is due.
    pub push: Option<(usize, usize)>,
    /// Whether to fetch the peers.
    pub pull: bool,
}

/// The sync state of one reader's session.
pub struct SyncState {
    pub last_sent: Option<(usize, usize)>,
    pub last_push_ms: Option<u64>,
    pub last_pull_ms: Option<u64>,
    pub peers: Vec<ConnectedUser>,
}

impl SyncState {
    /// A session that has not pushed or pulled yet.
    pub fn new() -> (r: SyncState)
        ensures
            r.last_sent is None,
            r.last_push_ms is None,
            r.last_pull_ms is None,
            r.peers.len() == 0,
    {
        SyncState { last_sent: None, last_push_ms: None, last_pull_ms: None, peers: Vec::new() }
    }

    /// Whether `range` is to be pushed at `now`.
    pub fn should_push(&self, range: (usize, usize), now: u64) -> (r: bool)
        ensures
            r == push_due(self.last_sent, self.last_push_ms, range, now),
    {
        let changed = match self.last_sent {
            Some(last) => last.0 != range.0 || last.1 != range.1,
            None => true,
        };
        changed || has_interval_passed(self.last_push_ms, now, PUSH_INTERVAL_MS)
    }

    /// Whether the peers are to be pulled at `now`.
    pub fn should_pull(&self, now: u64) -> (r: bool)
        ensures
            r == interval_passed(self.last_pull_ms, now, PULL_INTERVAL_MS),
    {
        has_interval_passed(self.last_pull_ms, now, PULL_INTERVAL_MS)
    }

    /// Plans one tick with the range visible at `now`. A planned push counts
    /// as sent whatever its outcome, so a failing network does not flood.
    pub fn plan_tick(&mut self, range: (usize, usize), now: u64) -> (r: TickPlan)
        ensures
            r.pull == interval_passed(old(self).last_pull_ms, now, PULL_INTERVAL_MS),
            push_due(old(self).last_sent, old(self).last_push_ms, range, now) ==> r.push == Some(
                range,
            ) && final(self).last_sent == Some(range) && final(self).last_push_ms == Some(now),
            !push_due(old(self).last_sent, old(self).last_push_ms, range, now) ==> r.push is None
                && final(self).last_sent == old(self).last_sent && final(self).last_push_ms == old(
                self,
            ).last_push_ms,
            final(self).last_pull_ms == old(self).last_pull_ms,
            final(self).peers@ == old(self).peers@,
    {
        let pull = self.should_pull(now);
        if self.should_push(range, now) {
            self.last_sent = Some(range);
            self.last_push_ms = Some(now);
            TickPlan { push: Some(range), pull }
        } else {
            TickPlan { push: None, pull }
        }
    }

    /// Plans one tick for the viewport at `scroll`: the visible range is
    /// computed from the layout as it stands now, then pushed if due.
    pub fn plan_for_view(
        &mut self,
        l: &Vec<LaidOutElement>,
        scroll: u64,
        viewport_height: u64,
        now: u64,
    ) -> (r: TickPlan)
        ensures
            ({
                let v = visible_range_of(l@, scroll, viewport_height);
                let range = (v.0 as usize, v.1 as usize);
                &&& r.pull == interval_passed(old(self).last_pull_ms, now, PULL_INTERVAL_MS)
                &&& push_due(old(self).last_sent, old(self).last_push_ms, range, now) ==> r.push
                    == Some(range) && final(self).last_sent == Some(range)
                    && final(self).last_push_ms == Some(now)
                &&& !push_due(old(self).last_sent, old(self).last_push_ms, range, now)
                    ==> r.push is None && final(self).last_sent == old(self).last_sent
                    && final(self).last_push_ms == old(self).last_push_ms
            }),
            final(self).last_pull_ms == old(self).last_pull_ms,
            final(self).peers@ == old(self).peers@,
    {
        let range = visible_range(l, scroll, viewport_height);
        self.plan_tick(range, now)
    }

    /// Takes in the outcome of a pull made at `now`: a success replaces the
    /// cached peers and restarts the pull interval; a failure leaves both as
    /// they were, to be retried on a later tick.
    pub fn finish_pull(&mut self, outcome: Option<Vec<ConnectedUser>>, now: u64)
        ensures
            final(self).last_sent == old(self).last_sent,
            final(self).last_push_ms == old(self).last_push_ms,
            match outcome {
                Some(users) => final(self).peers@ == users@ && final(self).last_pull_ms == Some(now),
                None => final(self).peers@ == old(self).peers@ && final(self).last_pull_ms == old(
                    self,
                ).last_pull_ms,
            },
    {
        match outcome {
            Some(users) => {
                self.peers = users;
                self.last_pull_ms = Some(now);
            },
            None => {},
        }
    }
}

/// With the visible range unchanged, no second push is due before the push
/// interval has passed since the last one; with a changed range, a push is
/// due at once, whatever time has passed.
pub proof fn lemma_debounced_push(
    sent: (usize, usize),
    pushed_at: u64,
    range: (usize, usize),
    now: u64,
)
    ensures
        range == sent && now < pushed_at + PUSH_INTERVAL_MS ==> !push_due(
            Some(sent),
            Some(pushed_at),
            range,
            now,
        ),
        range != sent ==> push_due(Some(sent), Some(pushed_at), range, now),
{
}

} // verus!
