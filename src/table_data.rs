//! The ledger of one target: each contributor's stake, their total, and the
//! reward accumulator that shares the target's rewards among them.
use vstd::prelude::*;
use std::collections::BTreeMap;
use crate::{AccountId, Balance};
use crate::reward_sharing::{nonzero, RewardError, RewardSharing, Rewarder};

verus! {

/// Outcome of a vote, an unvote or a cancel.
#[derive(Clone, Copy, Debug, PartialEq, Eq, Structural)]
pub enum VoteResult {
    /// The stake was added; carries the reward claimed on the way, if any.
    Success(Option<Balance>),
    /// The given amount was withdrawn; carries the reward claimed on the way, if any.
    Unvoted(Balance, Option<Balance>),
    /// The contributor has no stake on the target.
    VoteNotFound,
    /// A balance or a reward would not fit in a `Balance`; nothing was changed.
    Overflow,
}

/// Sum over the entries of `m` of `w(key) * value`.
pub open spec fn weighted_sum(m: Map<AccountId, Balance>, w: spec_fn(AccountId) -> int) -> int
    decreases m.dom().len(),
{
    if m.dom().finite() && m.dom().len() > 0 {
        let k = m.dom().choose();
        w(k) * m[k] + weighted_sum(m.remove(k), w)
    } else {
        0
    }
}

/// Sum of the stakes in `m`.
pub open spec fn stake_sum(m: Map<AccountId, Balance>) -> int {
    weighted_sum(m, |c: AccountId| 1int)
}

/// The reward a claim hands out for `per` per unit on a stake of `b`:
/// nothing when `per` is zero.
pub open spec fn reward_for(per: int, b: int) -> Option<Balance> {
    if per != 0 {
        Some((per * b) as Balance)
    } else {
        None
    }
}

pub proof fn lemma_weighted_sum_remove(
    m: Map<AccountId, Balance>,
    w: spec_fn(AccountId) -> int,
    k: AccountId,
)
    requires
        m.dom().finite(),
        m.contains_key(k),
    ensures
        weighted_sum(m, w) == w(k) * m[k] + weighted_sum(m.remove(k), w),
    decreases m.dom().len(),
{
    let j = m.dom().choose();
    if j != k {
        lemma_weighted_sum_remove(m.remove(j), w, k);
        lemma_weighted_sum_remove(m.remove(k), w, j);
        assert(m.remove(j).remove(k) =~= m.remove(k).remove(j));
    }
}

pub proof fn lemma_weighted_sum_insert(
    m: Map<AccountId, Balance>,
    w: spec_fn(AccountId) -> int,
    k: AccountId,
    v: Balance,
)
    requires
        m.dom().finite(),
    ensures
        weighted_sum(m.insert(k, v), w) == w(k) * v + weighted_sum(m.remove(k), w),
{
    lemma_weighted_sum_remove(m.insert(k, v), w, k);
    assert(m.insert(k, v).remove(k) =~= m.remove(k));
}

pub proof fn lemma_weighted_sum_nonneg(m: Map<AccountId, Balance>, w: spec_fn(AccountId) -> int)
    requires
        forall|c: AccountId| m.contains_key(c) ==> #[trigger] w(c) >= 0,
    ensures
        weighted_sum(m, w) >= 0,
    decreases m.dom().len(),
{
    if m.dom().finite() && m.dom().len() > 0 {
        let k = m.dom().choose();
        lemma_weighted_sum_nonneg(m.remove(k), w);
        assert(w(k) * m[k] >= 0) by (nonlinear_arith)
            requires w(k) >= 0, m[k] >= 0;
    }
}

/// A sum whose weights are all `c` is `c` times the stake sum.
pub proof fn lemma_weighted_sum_const(m: Map<AccountId, Balance>, w: spec_fn(AccountId) -> int, c: int)
    requires
        forall|d: AccountId| m.contains_key(d) ==> #[trigger] w(d) == c,
    ensures
        weighted_sum(m, w) == c * stake_sum(m),
    decreases m.dom().len(),
{
    if m.dom().finite() && m.dom().len() > 0 {
        let k = m.dom().choose();
        lemma_weighted_sum_const(m.remove(k), w, c);
        let rest = stake_sum(m.remove(k));
        assert(c * m[k] + c * rest == c * (m[k] + rest)) by (nonlinear_arith);
    }
}

/// Shifting every weight by `c` shifts the sum by `c` times the stake sum.
pub proof fn lemma_weighted_sum_shift(
    m: Map<AccountId, Balance>,
    w1: spec_fn(AccountId) -> int,
    w2: spec_fn(AccountId) -> int,
    c: int,
)
    requires
        forall|d: AccountId| m.contains_key(d) ==> #[trigger] w2(d) == w1(d) + c,
    ensures
        weighted_sum(m, w2) == weighted_sum(m, w1) + c * stake_sum(m),
    decreases m.dom().len(),
{
    if m.dom().finite() && m.dom().len() > 0 {
        let k = m.dom().choose();
        lemma_weighted_sum_shift(m.remove(k), w1, w2, c);
        let rest = stake_sum(m.remove(k));
        let v = m[k] as int;
        assert(w2(k) * v == w1(k) * v + c * v) by (nonlinear_arith)
            requires w2(k) == w1(k) + c;
        assert(c * v + c * rest == c * (v + rest)) by (nonlinear_arith);
    }
}

/// Each stake is at most the stake sum.
pub proof fn lemma_stake_le_sum(m: Map<AccountId, Balance>, k: AccountId)
    requires
        m.dom().finite(),
        m.contains_key(k),
    ensures
        m[k] <= stake_sum(m),
{
    lemma_weighted_sum_remove(m, |c: AccountId| 1int, k);
    lemma_weighted_sum_nonneg(m.remove(k), |c: AccountId| 1int);
}

/// With no reward ever injected, the contributors are owed nothing in all.
pub proof fn lemma_nothing_owed_without_reward(td: TargetData)
    requires
        td.wf(),
        td.rewarder.acc() == 0,
    ensures
        td.owed_total() == 0,
{
    lemma_weighted_sum_const(td.votes@, |c: AccountId| td.rewarder.claimable(c), 0);
}

/// How a vote of `votes` by `account` takes `pre` to `post` with outcome `r`.
pub open spec fn voted(
    pre: TargetData,
    post: TargetData,
    account: AccountId,
    votes: Balance,
    r: VoteResult,
) -> bool {
    let known = pre.votes@.contains_key(account);
    &&& post.wf()
    &&& post.rewarder.acc() == pre.rewarder.acc()
    &&& pre.vote_overflows(account, votes) ==> r == VoteResult::Overflow && post == pre
    &&& !pre.vote_overflows(account, votes) ==> {
        &&& post.total == pre.total + votes
        &&& post.votes@ == pre.votes@.insert(
            account,
            if known { (pre.votes@[account] + votes) as Balance } else { votes },
        )
        &&& r == VoteResult::Success(
            if known { reward_for(pre.per_unit(account), pre.votes@[account] as int) } else { None },
        )
        &&& post.per_unit(account) == 0
        &&& forall|d: AccountId| d != account ==> #[trigger] post.per_unit(d) == pre.per_unit(d)
    }
}

/// How an unvote of `balance` by `account` takes `pre` to `post` with outcome `r`.
/// Asking for the whole stake or more withdraws it all.
pub open spec fn unvoted(
    pre: TargetData,
    post: TargetData,
    account: AccountId,
    balance: Balance,
    r: VoteResult,
) -> bool {
    let known = pre.votes@.contains_key(account);
    let b = pre.votes@[account];
    let taken = if balance >= b { b } else { balance };
    &&& post.wf()
    &&& post.rewarder.acc() == pre.rewarder.acc()
    &&& !known ==> r == VoteResult::VoteNotFound && post == pre
    &&& known && pre.claim_overflows(account) ==> r == VoteResult::Overflow && post == pre
    &&& known && !pre.claim_overflows(account) ==> {
        &&& post.total == pre.total - taken
        &&& post.votes@ == if balance >= b {
            pre.votes@.remove(account)
        } else {
            pre.votes@.insert(account, (b - balance) as Balance)
        }
        &&& r == VoteResult::Unvoted(taken, reward_for(pre.per_unit(account), b as int))
        &&& balance < b ==> post.per_unit(account) == 0
        &&& forall|d: AccountId| d != account ==> #[trigger] post.per_unit(d) == pre.per_unit(d)
    }
}

/// How a cancel by `account` takes `pre` to `post` with outcome `r`.
pub open spec fn cancelled(pre: TargetData, post: TargetData, account: AccountId, r: VoteResult) -> bool {
    let known = pre.votes@.contains_key(account);
    let b = pre.votes@[account];
    &&& post.wf()
    &&& post.rewarder.acc() == pre.rewarder.acc()
    &&& !known ==> r == VoteResult::VoteNotFound && post == pre
    &&& known && pre.claim_overflows(account) ==> r == VoteResult::Overflow && post == pre
    &&& known && !pre.claim_overflows(account) ==> {
        &&& post.total == pre.total - b
        &&& post.votes@ == pre.votes@.remove(account)
        &&& r == VoteResult::Unvoted(b, reward_for(pre.per_unit(account), b as int))
        &&& forall|d: AccountId| d != account ==> #[trigger] post.per_unit(d) == pre.per_unit(d)
    }
}

/// How injecting `reward` takes `pre` to `post` with outcome `r`: each unit of
/// stake is owed `reward / total` more. The remainder of the division is not
/// shared: the contributors together are owed less than `reward` by under one
/// unit per unit of total stake.
pub open spec fn rewarded(pre: TargetData, post: TargetData, reward: Balance, r: Result<(), RewardError>) -> bool {
    let per = if pre.total > 0 { reward / pre.total } else { 0 };
    &&& post.wf()
    &&& pre.total == 0 ==> r == Err::<(), RewardError>(RewardError::ZeroPoolReward) && post == pre
    &&& pre.total > 0 && pre.rewarder.acc() + per > u64::MAX ==> r == Err::<(), RewardError>(
        RewardError::Overflow,
    ) && post == pre
    &&& pre.total > 0 && pre.rewarder.acc() + per <= u64::MAX ==> {
        &&& r is Ok
        &&& post.total == pre.total
        &&& post.votes@ == pre.votes@
        &&& post.rewarder.acc() == pre.rewarder.acc() + per
        &&& post.rewarder.checkpoints() == pre.rewarder.checkpoints()
        &&& post.rewarder.origins() == pre.rewarder.origins()
        &&& forall|c: AccountId| #[trigger] post.votes@.contains_key(c) ==> post.per_unit(c)
            == pre.per_unit(c) + per
        &&& post.owed_total() == pre.owed_total() + per * pre.total
        &&& per * pre.total <= reward
        &&& reward - per * pre.total < pre.total
    }
}

/// Outcome of a claim by `user` on `pre`: nothing for a user with no stake,
/// `Overflow` when the amount owed does not fit in a `Balance`, else the amount
/// owed, or nothing when it is zero.
pub open spec fn claim_result(pre: TargetData, user: AccountId) -> Result<Option<Balance>, RewardError> {
    if !pre.votes@.contains_key(user) {
        Ok(None)
    } else if pre.claim_overflows(user) {
        Err(RewardError::Overflow)
    } else {
        Ok(nonzero(pre.per_unit(user) * pre.votes@[user]))
    }
}

/// What a claim hands out: the amount of a successful claim, nothing otherwise.
pub open spec fn paid(c: Result<Option<Balance>, RewardError>) -> Option<Balance> {
    match c {
        Ok(x) => x,
        Err(_) => None,
    }
}

/// How a claim by `user` takes `pre` to `post`. A claim that would overflow
/// changes nothing; one that succeeds leaves `user` owed nothing.
pub open spec fn claimed(pre: TargetData, post: TargetData, user: AccountId) -> bool {
    &&& post.wf()
    &&& post.rewarder.acc() == pre.rewarder.acc()
    &&& post.total == pre.total
    &&& post.votes@ == pre.votes@
    &&& forall|d: AccountId| d != user ==> #[trigger] post.per_unit(d) == pre.per_unit(d)
    &&& claim_result(pre, user) is Err ==> post == pre
    &&& pre.votes@.contains_key(user) && claim_result(pre, user) is Ok ==> post.per_unit(user) == 0
}

/// `d` is a new ledger that holds only the stake `balance` of `voter`, with no
/// reward injected yet and nothing owed.
pub open spec fn first_vote(d: TargetData, voter: AccountId, balance: Balance) -> bool {
    &&& d.wf()
    &&& d.total == balance
    &&& d.votes@ == Map::<AccountId, Balance>::empty().insert(voter, balance)
    &&& d.rewarder.acc() == 0
    &&& d.per_unit(voter) == 0
    &&& d.owed_total() == 0
}

/// Asking to unvote the whole stake or more does what a cancel does.
pub proof fn lemma_unvote_all_is_cancel(
    pre: TargetData,
    post: TargetData,
    account: AccountId,
    balance: Balance,
    r: VoteResult,
)
    requires
        pre.wf(),
        pre.votes@.contains_key(account),
        balance >= pre.votes@[account],
        unvoted(pre, post, account, balance, r),
    ensures
        cancelled(pre, post, account, r),
{
}

/// The total of a ledger is the sum of its contributors' stakes.
pub proof fn lemma_total_is_stake_sum(td: TargetData)
    requires
        td.wf(),
    ensures
        td.total == stake_sum(td.votes@),
        forall|c: AccountId| #[trigger] td.votes@.contains_key(c) ==> td.votes@[c] <= td.total,
{
    assert forall|c: AccountId| #[trigger] td.votes@.contains_key(c) implies td.votes@[c] <= td.total by {
        lemma_stake_le_sum(td.votes@, c);
    }
}

/// The stake ledger of one target.
#[derive(Clone, Debug)]
pub struct TargetData {
    pub total: Balance,
    pub votes: BTreeMap<AccountId, Balance>,
    pub rewarder: Rewarder,
}

impl TargetData {
    pub open spec fn wf(&self) -> bool {
        &&& self.rewarder.wf()
        &&& self.votes@.dom().finite()
        &&& self.total == stake_sum(self.votes@)
        &&& forall|c: AccountId| #[trigger]
            self.votes@.contains_key(c) ==> self.rewarder.window_open(c)
    }

    /// Reward per unit owed to `c`.
    pub open spec fn per_unit(&self, c: AccountId) -> int {
        self.rewarder.claimable(c)
    }

    /// Sum over the contributors of the reward each is owed: per unit times stake.
    pub open spec fn owed_total(&self) -> int {
        weighted_sum(self.votes@, |c: AccountId| self.rewarder.claimable(c))
    }

    pub fn create_with_first_vote(first_voter: AccountId, balance: Balance) -> (r: TargetData)
        ensures
            first_vote(r, first_voter, balance),
    {
        let mut res = TargetData { total: balance, votes: BTreeMap::new(), rewarder: Rewarder::new() };
        res.votes.insert(first_voter, balance);
        res.rewarder.new_voter(first_voter);
        proof {
            let m = res.votes@;
            lemma_weighted_sum_insert(Map::empty(), |c: AccountId| 1int, first_voter, balance);
            assert(Map::<AccountId, Balance>::empty().remove(first_voter) =~= Map::empty());
            let w = |c: AccountId| res.rewarder.claimable(c);
            lemma_weighted_sum_insert(Map::empty(), w, first_voter, balance);
            assert(weighted_sum(Map::<AccountId, Balance>::empty(), w) == 0);
            assert(w(first_voter) == 0);
            assert(res.owed_total() == weighted_sum(m, w));
            assert(w(first_voter) * balance == 0) by (nonlinear_arith)
                requires w(first_voter) == 0;
            assert(res.owed_total() == 0);
        }
        res
    }

    /// Whether a vote of `amount` by `c` would overflow: the total, or the
    /// reward that the vote claims for `c`'s present stake.
    pub open spec fn vote_overflows(&self, c: AccountId, amount: Balance) -> bool {
        ||| self.total + amount > u64::MAX
        ||| (self.votes@.contains_key(c) && self.per_unit(c) * self.votes@[c] > u64::MAX)
    }

    /// Whether claiming the reward owed on `c`'s whole stake would overflow.
    pub open spec fn claim_overflows(&self, c: AccountId) -> bool {
        self.per_unit(c) * self.votes@[c] > u64::MAX
    }

    /// Adds `votes` to the stake of `account`. An existing contributor first
    /// claims the reward owed on its present stake.
    pub fn vote(&mut self, account: AccountId, votes: Balance) -> (r: VoteResult)
        requires
            old(self).wf(),
        ensures
            voted(*old(self), *final(self), account, votes, r),
    {
        let new_total = match self.total.checked_add(votes) {
            Some(t) => t,
            None => return VoteResult::Overflow,
        };
        match self.votes.get(&account) {
            Some(b) => {
                let b = *b;
                let per = self.rewarder.peek_reward(&account);
                let reward = match per.checked_mul(b) {
                    Some(x) => x,
                    None => return VoteResult::Overflow,
                };
                proof {
                    lemma_stake_le_sum(self.votes@, account);
                    lemma_weighted_sum_remove(self.votes@, |c: AccountId| 1int, account);
                    lemma_weighted_sum_insert(self.votes@, |c: AccountId| 1int, account, (b + votes) as Balance);
                }
                self.total = new_total;
                let _ = self.rewarder.pop_reward(&account);
                self.votes.insert(account, b + votes);
                self.rewarder.increment_period();
                if per != 0 {
                    VoteResult::Success(Some(reward))
                } else {
                    VoteResult::Success(None)
                }
            },
            None => {
                proof {
                    lemma_weighted_sum_insert(self.votes@, |c: AccountId| 1int, account, votes);
                    assert(self.votes@.remove(account) =~= self.votes@);
                }
                self.total = new_total;
                self.votes.insert(account, votes);
                self.rewarder.new_voter(account);
                VoteResult::Success(None)
            },
        }
    }

    /// Withdraws `balance` from the stake of `account`, with the reward owed on
    /// the stake it had. Asking for the whole stake or more withdraws it all,
    /// as `cancel` does.
    pub fn unvote(&mut self, account: &AccountId, balance: Balance) -> (r: VoteResult)
        requires
            old(self).wf(),
        ensures
            unvoted(*old(self), *final(self), *account, balance, r),
    {
        match self.votes.get(account) {
            Some(b) => {
                let b = *b;
                if balance >= b {
                    return self.cancel(account);
                }
                let per = self.rewarder.peek_reward(account);
                let reward = match per.checked_mul(b) {
                    Some(x) => x,
                    None => return VoteResult::Overflow,
                };
                proof {
                    lemma_stake_le_sum(self.votes@, *account);
                    lemma_weighted_sum_remove(self.votes@, |c: AccountId| 1int, *account);
                    lemma_weighted_sum_insert(self.votes@, |c: AccountId| 1int, *account, (b - balance) as Balance);
                }
                self.total = self.total - balance;
                let _ = self.rewarder.pop_reward(account);
                self.votes.insert(*account, b - balance);
                self.rewarder.increment_period();
                if per != 0 {
                    VoteResult::Unvoted(balance, Some(reward))
                } else {
                    VoteResult::Unvoted(balance, None)
                }
            },
            None => VoteResult::VoteNotFound,
        }
    }

    /// Shares `reward` among the contributors in proportion to their stakes.
    pub fn append_reward(&mut self, reward: Balance) -> (r: Result<(), RewardError>)
        requires
            old(self).wf(),
        ensures
            rewarded(*old(self), *final(self), reward, r),
    {
        if self.total == 0 {
            return Err(RewardError::ZeroPoolReward);
        }
        let per = reward / self.total;
        let ghost before = *self;
        let r = self.rewarder.append_reward(per);
        proof {
            if r is Ok {
                lemma_weighted_sum_shift(
                    self.votes@,
                    |c: AccountId| before.rewarder.claimable(c),
                    |c: AccountId| self.rewarder.claimable(c),
                    per as int,
                );
                lemma_weighted_sum_const(self.votes@, |c: AccountId| 1int, 1);
                vstd::arithmetic::div_mod::lemma_fundamental_div_mod(reward as int, self.total as int);
                assert(per * self.total <= reward && reward - per * self.total < self.total) by (nonlinear_arith)
                    requires
                        per == reward / self.total,
                        self.total > 0,
                        reward == self.total * (reward / self.total) + reward % self.total,
                        0 <= reward % self.total < self.total;
            } else {
                assert(*self == before);
            }
        }
        r
    }

    /// Claims the reward owed to `user` on its present stake; `Overflow`, with
    /// nothing changed, when the amount does not fit in a `Balance`.
    ///
    /// A checkpoint follows the claim. The rewarder's claim alone moves the
    /// user's window to a period that is not recorded yet, and the value
    /// recorded there later would already count any reward injected in
    /// between: the user would miss that reward. Recording it at once leaves
    /// truncation as the only loss.
    pub fn try_pop_reward(&mut self, user: &AccountId) -> (r: Result<Option<Balance>, RewardError>)
        requires
            old(self).wf(),
        ensures
            claimed(*old(self), *final(self), *user),
            r == claim_result(*old(self), *user),
    {
        let per = self.rewarder.peek_reward(user);
        match self.votes.get(user) {
            Some(b) => {
                let owed = match per.checked_mul(*b) {
                    Some(x) => x,
                    None => return Err(RewardError::Overflow),
                };
                let _ = self.rewarder.pop_reward(user);
                self.rewarder.increment_period();
                if owed != 0 {
                    Ok(Some(owed))
                } else {
                    Ok(None)
                }
            },
            None => {
                let _ = self.rewarder.pop_reward(user);
                Ok(None)
            },
        }
    }

    /// Claims the reward owed to `user` on its present stake, as
    /// `try_pop_reward` does; a claim that would overflow hands out nothing.
    pub fn pop_reward(&mut self, user: &AccountId) -> (r: Option<Balance>)
        requires
            old(self).wf(),
        ensures
            claimed(*old(self), *final(self), *user),
            r == paid(claim_result(*old(self), *user)),
    {
        match self.try_pop_reward(user) {
            Ok(x) => x,
            Err(_) => None,
        }
    }

    /// Withdraws the whole stake of `account`, with the reward owed on it.
    pub fn cancel(&mut self, account: &AccountId) -> (r: VoteResult)
        requires
            old(self).wf(),
        ensures
            cancelled(*old(self), *final(self), *account, r),
    {
        match self.votes.get(account) {
            Some(b) => {
                let b = *b;
                let per = self.rewarder.peek_reward(account);
                let reward = match per.checked_mul(b) {
                    Some(x) => x,
                    None => return VoteResult::Overflow,
                };
                proof {
                    lemma_stake_le_sum(self.votes@, *account);
                    lemma_weighted_sum_remove(self.votes@, |c: AccountId| 1int, *account);
                }
                self.votes.remove(account);
                self.rewarder.increment_period();
                self.total = self.total - b;
                let _ = self.rewarder.pop_reward(account);
                if per != 0 {
                    VoteResult::Unvoted(b, Some(reward))
                } else {
                    VoteResult::Unvoted(b, None)
                }
            },
            None => VoteResult::VoteNotFound,
        }
    }
}

impl RewardSharing for TargetData {
    open spec fn sharing_wf(&self) -> bool {
        self.wf()
    }

    fn append_reward(&mut self, reward: Balance) -> (r: Result<(), RewardError>) {
        TargetData::append_reward(self, reward)
    }

    fn pop_reward(&mut self, user: &AccountId) -> (r: Option<Balance>) {
        TargetData::pop_reward(self, user)
    }
}

impl Default for TargetData {
    fn default() -> (r: TargetData)
        ensures
            r.wf(),
            r.total == 0,
            r.votes@ == Map::<AccountId, Balance>::empty(),
            r.rewarder.acc() == 0,
    {
        TargetData { total: 0, votes: BTreeMap::new(), rewarder: Rewarder::new() }
    }
}

} // verus!
