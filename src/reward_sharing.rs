//! Lazy proportional reward sharing: a reward-per-unit accumulator with a
//! checkpoint per period and, per contributor, the period its claim window starts at.
use vstd::prelude::*;
use std::collections::BTreeMap;
use crate::{AccountId, Balance, Period};

verus! {

/// Why a reward could not be recorded.
#[derive(Clone, Copy, Debug, PartialEq, Eq, Structural)]
pub enum RewardError {
    /// No stake is recorded for the target.
    TargetNotFound,
    /// The target's total stake is zero, so the reward cannot be shared.
    ZeroPoolReward,
    /// The accumulated reward would not fit in a `Balance`.
    Overflow,
}

/// `Some(x)` for a nonzero `x`, else `None`.
pub open spec fn nonzero(x: int) -> Option<Balance> {
    if x != 0 {
        Some(x as Balance)
    } else {
        None
    }
}

/// A pool whose rewards are shared among its contributors.
pub trait RewardSharing {
    /// Whether the pool is well formed.
    spec fn sharing_wf(&self) -> bool;

    /// Records `reward` for the contributors.
    fn append_reward(&mut self, reward: Balance) -> (r: Result<(), RewardError>)
        requires
            old(self).sharing_wf(),
        ensures
            final(self).sharing_wf(),
    ;

    /// Claims what `user` is owed; `None` when nothing is.
    fn pop_reward(&mut self, user: &AccountId) -> (r: Option<Balance>)
        requires
            old(self).sharing_wf(),
        ensures
            final(self).sharing_wf(),
    ;
}

impl RewardSharing for Rewarder {
    open spec fn sharing_wf(&self) -> bool {
        self.wf()
    }

    fn append_reward(&mut self, reward: Balance) -> (r: Result<(), RewardError>) {
        Rewarder::append_reward(self, reward)
    }

    fn pop_reward(&mut self, user: &AccountId) -> (r: Option<Balance>) {
        Rewarder::pop_reward(self, user)
    }
}

/// `post` is `pre` with the accumulator's present value recorded at the next period.
pub open spec fn checkpointed(pre: Rewarder, post: Rewarder) -> bool {
    &&& post.acc() == pre.acc()
    &&& post.origins() == pre.origins()
    &&& post.checkpoints() == pre.checkpoints().insert(pre.periods() as Period, pre.acc() as Balance)
}

/// Two checkpoints in a row, with no reward injected between them, leave what
/// every contributor can claim as it was (while the periods fit in a `Period`).
pub proof fn lemma_checkpoint_twice(r0: Rewarder, r1: Rewarder, r2: Rewarder, c: AccountId)
    requires
        r0.wf(),
        r0.periods() < u64::MAX,
        checkpointed(r0, r1),
        checkpointed(r1, r2),
    ensures
        r1.claimable(c) == r0.claimable(c),
        r2.claimable(c) == r0.claimable(c),
{
    let p0 = r0.periods() as Period;
    assert(!r0.checkpoints().contains_key(p0));
    assert(r1.checkpoints().dom() == r0.checkpoints().dom().insert(p0));
    assert(r1.periods() == r0.periods() + 1);
    let p1 = r1.periods() as Period;
    assert(p1 != p0);
    if r0.origins().contains_key(c) {
        let o = r0.origins()[c];
        assert(o as nat <= r0.periods());
        assert(r1.checkpoints().contains_key(o));
        assert(r2.checkpoints().contains_key(o));
        if o != p0 {
            assert(o != p1);
        }
    }
}

/// The reward accumulator of one pool.
///
/// No operation walks the contributors: a claim reads one checkpoint and a
/// checkpoint writes one. The window record of a contributor that has left is
/// kept; it owes nothing to anyone and is reset when the contributor returns.
#[derive(Clone, Debug)]
pub struct Rewarder {
    current_reward: Balance,
    rewards: BTreeMap<Period, Balance>,
    origin: BTreeMap<AccountId, Period>,
}

impl Rewarder {
    /// Reward per unit of stake injected so far.
    pub closed spec fn acc(&self) -> int {
        self.current_reward as int
    }

    /// The accumulator's value at each period boundary.
    pub closed spec fn checkpoints(&self) -> Map<Period, Balance> {
        self.rewards@
    }

    /// The period each contributor's unclaimed window starts at.
    pub closed spec fn origins(&self) -> Map<AccountId, Period> {
        self.origin@
    }

    /// Number of periods recorded; they are exactly `0 .. periods()`.
    pub open spec fn periods(&self) -> nat {
        self.checkpoints().dom().len()
    }

    /// The largest recorded period, or zero when none is.
    pub open spec fn current_period(&self) -> Period {
        if self.periods() == 0 {
            0
        } else {
            (self.periods() - 1) as Period
        }
    }

    pub open spec fn wf(&self) -> bool {
        &&& self.checkpoints().dom().finite()
        &&& forall|p: Period| #[trigger]
            self.checkpoints().contains_key(p) <==> (p as nat) < self.periods()
        &&& forall|p: Period| #[trigger]
            self.checkpoints().contains_key(p) ==> self.checkpoints()[p] <= self.acc()
        &&& forall|c: AccountId| #[trigger]
            self.origins().contains_key(c) ==> self.origins()[c] as nat <= self.periods()
    }

    /// Whether the window of `c` starts at a recorded checkpoint.
    pub open spec fn window_open(&self, c: AccountId) -> bool {
        self.origins().contains_key(c) && self.checkpoints().contains_key(self.origins()[c])
    }

    /// Reward per unit of stake that `c` can claim now.
    pub open spec fn claimable(&self, c: AccountId) -> int {
        if self.window_open(c) {
            self.acc() - self.checkpoints()[self.origins()[c]]
        } else {
            0
        }
    }

    pub fn new() -> (r: Rewarder)
        ensures
            r.wf(),
            r.acc() == 0,
            r.periods() == 0,
            r.origins() == Map::<AccountId, Period>::empty(),
    {
        Rewarder { current_reward: 0, rewards: BTreeMap::new(), origin: BTreeMap::new() }
    }

    pub fn get_current_period(&self) -> (p: Period)
        requires
            self.wf(),
        ensures
            p == self.current_period(),
    {
        let n = self.rewards.len();
        if n == 0 {
            0
        } else {
            (n - 1) as Period
        }
    }

    /// The period the next checkpoint is recorded at.
    fn get_next_period(&self) -> (p: Period)
        requires
            self.wf(),
        ensures
            p as nat == self.periods(),
    {
        self.rewards.len() as Period
    }

    /// Records the accumulator's present value at the next period.
    /// Every contributor's claimable amount stays as it was.
    pub fn increment_period(&mut self)
        requires
            old(self).wf(),
        ensures
            final(self).wf(),
            checkpointed(*old(self), *final(self)),
            final(self).periods() == old(self).periods() + 1,
            forall|c: AccountId| #[trigger]
                final(self).claimable(c) == old(self).claimable(c),
            forall|c: AccountId| #[trigger]
                final(self).window_open(c) == final(self).origins().contains_key(c),
    {
        let next = self.get_next_period();
        let ghost before = self.rewards@;
        self.rewards.insert(next, self.current_reward);
        assert(!before.contains_key(next));
        assert(self.rewards@.dom() == before.dom().insert(next));
        assert forall|c: AccountId| #[trigger] self.origins().contains_key(c) implies
            self.origins()[c] as nat <= self.periods() by {
            assert(old(self).origins().contains_key(c));
        }
        assert forall|c: AccountId| #[trigger] self.claimable(c) == old(self).claimable(c) by {
            if old(self).origins().contains_key(c) && old(self).origins()[c] == next {
                assert(self.acc() - self.checkpoints()[next] == 0);
            }
        }
    }

    /// Starts the claim window of `voter` at the present accumulator value.
    pub fn new_voter(&mut self, voter: AccountId)
        requires
            old(self).wf(),
        ensures
            final(self).wf(),
            final(self).acc() == old(self).acc(),
            final(self).periods() == old(self).periods() + 1,
            final(self).checkpoints() == old(self).checkpoints().insert(
                old(self).periods() as Period,
                old(self).acc() as Balance,
            ),
            final(self).origins() == old(self).origins().insert(
                voter,
                old(self).periods() as Period,
            ),
            final(self).window_open(voter),
            final(self).claimable(voter) == 0,
            forall|c: AccountId| c != voter ==> #[trigger]
                final(self).claimable(c) == old(self).claimable(c),
    {
        self.increment_period();
        let p = self.get_current_period();
        self.origin.insert(voter, p);
    }

    /// Reward per unit that `user` would claim now, without claiming it.
    pub fn peek_reward(&self, user: &AccountId) -> (r: Balance)
        requires
            self.wf(),
        ensures
            r == self.claimable(*user),
    {
        match self.origin.get(user) {
            Some(start) => match self.rewards.get(start) {
                Some(cp) => self.current_reward - *cp,
                None => 0,
            },
            None => 0,
        }
    }

    /// Adds `reward` to the reward per unit of stake.
    pub fn append_reward(&mut self, reward: Balance) -> (r: Result<(), RewardError>)
        requires
            old(self).wf(),
        ensures
            final(self).wf(),
            final(self).checkpoints() == old(self).checkpoints(),
            final(self).origins() == old(self).origins(),
            old(self).acc() + reward <= u64::MAX ==> r is Ok && final(self).acc() == old(self).acc() + reward,
            old(self).acc() + reward > u64::MAX ==> r == Err::<(), RewardError>(RewardError::Overflow)
                && *final(self) == *old(self),
            forall|c: AccountId| #[trigger] final(self).claimable(c) == old(self).claimable(c)
                + if old(self).window_open(c) { final(self).acc() - old(self).acc() } else { 0 },
    {
        match self.current_reward.checked_add(reward) {
            Some(v) => {
                self.current_reward = v;
                assert forall|p: Period| #[trigger] self.checkpoints().contains_key(p) implies
                    self.checkpoints()[p] <= self.acc() by {
                    assert(old(self).checkpoints().contains_key(p));
                }
                assert(self.checkpoints() == old(self).checkpoints());
                assert(self.origins() == old(self).origins());
                Ok(())
            },
            None => Err(RewardError::Overflow),
        }
    }

    /// Claims the reward per unit owed to `user` since its window started, and
    /// moves the window's start to the next period. `None` when nothing is owed.
    pub fn pop_reward(&mut self, user: &AccountId) -> (r: Option<Balance>)
        requires
            old(self).wf(),
        ensures
            final(self).wf(),
            final(self).acc() == old(self).acc(),
            final(self).checkpoints() == old(self).checkpoints(),
            r == nonzero(old(self).claimable(*user)),
            final(self).origins() == if old(self).window_open(*user) {
                old(self).origins().insert(*user, old(self).periods() as Period)
            } else {
                old(self).origins()
            },
            forall|c: AccountId| c != *user ==> #[trigger]
                final(self).claimable(c) == old(self).claimable(c),
    {
        let next_period = self.get_next_period();
        match self.origin.get(user) {
            Some(start) => match self.rewards.get(start) {
                Some(cp) => {
                    let res = self.current_reward - *cp;
                    self.origin.insert(*user, next_period);
                    if res != 0 {
                        Some(res)
                    } else {
                        None
                    }
                },
                None => None,
            },
            None => None,
        }
    }
}

impl Default for Rewarder {
    fn default() -> (r: Rewarder)
        ensures
            r.wf(),
            r.acc() == 0,
            r.periods() == 0,
            r.origins() == Map::<AccountId, Period>::empty(),
    {
        Rewarder::new()
    }
}

} // verus!
