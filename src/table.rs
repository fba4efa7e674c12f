//! The scoreboard: targets ranked by total stake, each with its own ledger.
use vstd::prelude::*;
use std::collections::{BTreeMap, BTreeSet};
use vstd::std_specs::btree::spec_btree_keys_iter;
use vstd::std_specs::iter::IteratorSpec;
use vstd::std_specs::cmp::OrdSpec;
use crate::{AccountId, AssetId, Balance, TargetId};
use crate::record::{key_lt, key_of, lemma_key_order, ranks_before, Record, RecordKey};
use crate::reward_sharing::RewardError;
use crate::table_data::{
    cancelled, claim_result, claimed, first_vote, paid, rewarded, unvoted, voted, TargetData,
    VoteResult,
};

verus! {

/// A name given to a table, as bytes.
pub type RawString = Vec<u8>;

/// A ranked table of targets.
#[derive(Clone, Debug)]
pub struct Table {
    /// Optional name for the table.
    pub name: Option<RawString>,
    /// How many targets `get_head` returns at most.
    pub head_count: u8,
    /// Asset for votes and rewards.
    pub vote_asset: AssetId,
    /// Sorted index of the targets by total stake, one key per target.
    pub scores: BTreeSet<RecordKey>,
    /// Ledger of each target with a nonzero total stake.
    pub targets: BTreeMap<TargetId, TargetData>,
    /// Account that holds rewards before they are sent.
    pub wallet: AccountId,
}

/// `post` holds `d` for `target` when its total is nonzero, and nothing for
/// it otherwise; the other targets are as in `pre`.
pub open spec fn placed(pre: Table, post: Table, target: TargetId, d: TargetData) -> bool {
    if d.total > 0 {
        post.targets@ == pre.targets@.insert(target, d)
    } else {
        post.targets@ == pre.targets@.remove(target)
    }
}

/// For every target with stake, the index holds exactly one key for it, the
/// key of its present total; a target with no key in the index has no stake.
pub proof fn lemma_index_matches_totals(table: Table, t: TargetId)
    requires
        table.wf(),
    ensures
        table.targets@.contains_key(t) ==> table.targets@[t].total > 0 && table.scores@.contains(
            key_of(t, table.targets@[t].total),
        ),
        forall|k: RecordKey| #[trigger] table.scores@.contains(k) && k.1 == t ==> k == key_of(
            t,
            table.targets@[t].total,
        ),
        (forall|k: RecordKey| #[trigger] table.scores@.contains(k) ==> k.1 != t)
            ==> !table.targets@.contains_key(t),
{
    if table.targets@.contains_key(t) {
        assert(table.indexed(key_of(t, table.targets@[t].total)));
    }
}

/// The index holds one key per target.
pub proof fn lemma_index_size(table: Table)
    requires
        table.wf(),
    ensures
        table.scores@.len() == table.targets@.dom().len(),
{
    let f = |t: TargetId| key_of(t, table.targets@[t].total);
    let dom = table.targets@.dom();
    assert(vstd::relations::injective_on(f, dom));
    assert forall|k: RecordKey| #[trigger] table.scores@.contains(k) <==> dom.map(f).contains(k) by {
        if table.scores@.contains(k) {
            assert(table.indexed(k));
            assert(f(k.1) == k);
        }
        if dom.map(f).contains(k) {
            let t = choose|t: TargetId| dom.contains(t) && f(t) == k;
            assert(table.indexed(k));
        }
    }
    assert(dom.map(f) =~= table.scores@);
    vstd::set_lib::lemma_map_size(dom, table.scores@, f);
}

impl Table {
    /// Whether `k` is the index key of a target and its present total.
    pub open spec fn indexed(&self, k: RecordKey) -> bool {
        self.targets@.contains_key(k.1) && k == key_of(k.1, self.targets@[k.1].total)
    }

    pub open spec fn wf(&self) -> bool {
        &&& self.targets@.dom().finite()
        &&& forall|t: TargetId| #[trigger] self.targets@.contains_key(t)
            ==> self.targets@[t].wf() && self.targets@[t].total > 0
        &&& forall|k: RecordKey| #[trigger] self.scores@.contains(k) <==> self.indexed(k)
    }

    /// Name, head size, asset and wallet are those of `other`.
    pub open spec fn same_settings(&self, other: Table) -> bool {
        &&& self.name == other.name
        &&& self.head_count == other.head_count
        &&& self.vote_asset == other.vote_asset
        &&& self.wallet == other.wallet
    }

    pub fn new(name: Option<RawString>, head_count: u8, vote_asset: AssetId, wallet: AccountId) -> (r: Table)
        ensures
            r.wf(),
            r.name == name,
            r.head_count == head_count,
            r.vote_asset == vote_asset,
            r.wallet == wallet,
            r.targets@ == Map::<TargetId, TargetData>::empty(),
    {
        Table {
            name,
            head_count,
            vote_asset,
            wallet,
            scores: BTreeSet::new(),
            targets: BTreeMap::new(),
        }
    }

    /// Moves the index key of `target` from `old_balance` to `new_balance`,
    /// dropping it when `new_balance` is zero.
    fn update_record(&mut self, target: TargetId, old_balance: Balance, new_balance: Balance)
        ensures
            final(self).targets == old(self).targets,
            final(self).same_settings(*old(self)),
            final(self).scores@ == if new_balance != 0 {
                old(self).scores@.remove(key_of(target, old_balance)).insert(key_of(target, new_balance))
            } else {
                old(self).scores@.remove(key_of(target, old_balance))
            },
    {
        let rec = Record::new(target, old_balance);
        self.scores.remove(&rec.key());
        if new_balance != 0 {
            let rec = Record::new(target, new_balance);
            self.scores.insert(rec.key());
        }
    }

    /// Stores `d` as the ledger of `target`, or drops the target when `d`'s
    /// total is zero, and reindexes it. `orig` is the table as it was before
    /// the ledger of `target` was taken out of it.
    fn settle(&mut self, Ghost(orig): Ghost<Table>, target: TargetId, old_total: Balance, d: TargetData)
        requires
            orig.wf(),
            old(self).targets@ == orig.targets@.remove(target),
            old(self).scores@ == orig.scores@,
            old(self).same_settings(orig),
            old_total == if orig.targets@.contains_key(target) { orig.targets@[target].total } else { 0 },
            d.wf(),
        ensures
            final(self).wf(),
            final(self).same_settings(orig),
            placed(orig, *final(self), target, d),
    {
        let new_total = d.total;
        self.update_record(target, old_total, new_total);
        if new_total != 0 {
            self.targets.insert(target, d);
        }
        proof {
            assert(self.targets@ =~= if new_total != 0 {
                orig.targets@.insert(target, d)
            } else {
                orig.targets@.remove(target)
            });
            assert forall|k: RecordKey| #[trigger] self.scores@.contains(k) <==> self.indexed(k) by {
                assert(orig.scores@.contains(k) <==> orig.indexed(k));
                if k.1 != target {
                    assert(k != key_of(target, old_total));
                    assert(k != key_of(target, new_total));
                }
            }
        }
    }

    /// Adds `balance` to the stake of `voter` on `target`. An unknown target
    /// is created by its first nonzero vote.
    pub fn vote(&mut self, target: TargetId, voter: &AccountId, balance: Balance) -> (r: VoteResult)
        requires
            old(self).wf(),
        ensures
            final(self).wf(),
            final(self).same_settings(*old(self)),
            !old(self).targets@.contains_key(target) && balance == 0 ==> r == VoteResult::VoteNotFound
                && final(self).targets@ == old(self).targets@,
            !old(self).targets@.contains_key(target) && balance != 0 ==> {
                &&& r == VoteResult::Success(None)
                &&& first_vote(final(self).targets@[target], *voter, balance)
                &&& final(self).targets@ == old(self).targets@.insert(target, final(self).targets@[target])
            },
            old(self).targets@.contains_key(target) ==> exists|d: TargetData|
                voted(old(self).targets@[target], d, *voter, balance, r)
                    && placed(*old(self), *final(self), target, d),
    {
        let ghost orig = *self;
        match self.targets.remove(&target) {
            Some(data) => {
                let mut data = data;
                let old_total = data.total;
                let r = data.vote(*voter, balance);
                let ghost d = data;
                self.settle(Ghost(orig), target, old_total, data);
                assert(voted(orig.targets@[target], d, *voter, balance, r));
                r
            },
            None => {
                if balance != 0 {
                    let data = TargetData::create_with_first_vote(*voter, balance);
                    self.settle(Ghost(orig), target, 0, data);
                    VoteResult::Success(None)
                } else {
                    assert(self.targets@ =~= orig.targets@);
                    VoteResult::VoteNotFound
                }
            },
        }
    }

    /// Withdraws `balance` from the stake of `voter` on `target`; asking for the
    /// whole stake or more withdraws it all. A target left with no stake is dropped.
    pub fn unvote(&mut self, target: TargetId, voter: &AccountId, balance: Balance) -> (r: VoteResult)
        requires
            old(self).wf(),
        ensures
            final(self).wf(),
            final(self).same_settings(*old(self)),
            !old(self).targets@.contains_key(target) ==> r == VoteResult::VoteNotFound
                && final(self).targets@ == old(self).targets@,
            old(self).targets@.contains_key(target) ==> exists|d: TargetData|
                unvoted(old(self).targets@[target], d, *voter, balance, r) && placed(*old(self), *final(self), target, d),
    {
        let ghost orig = *self;
        match self.targets.remove(&target) {
            Some(data) => {
                let mut data = data;
                let old_total = data.total;
                let r = data.unvote(voter, balance);
                let ghost d = data;
                self.settle(Ghost(orig), target, old_total, data);
                assert(unvoted(orig.targets@[target], d, *voter, balance, r));
                r
            },
            None => {
                assert(self.targets@ =~= orig.targets@);
                VoteResult::VoteNotFound
            },
        }
    }

    /// Withdraws the whole stake of `voter` on `target`. A target left with no
    /// stake is dropped.
    pub fn cancel(&mut self, target: TargetId, voter: &AccountId) -> (r: VoteResult)
        requires
            old(self).wf(),
        ensures
            final(self).wf(),
            final(self).same_settings(*old(self)),
            !old(self).targets@.contains_key(target) ==> r == VoteResult::VoteNotFound
                && final(self).targets@ == old(self).targets@,
            old(self).targets@.contains_key(target) ==> exists|d: TargetData|
                cancelled(old(self).targets@[target], d, *voter, r) && placed(*old(self), *final(self), target, d),
    {
        let ghost orig = *self;
        match self.targets.remove(&target) {
            Some(data) => {
                let mut data = data;
                let old_total = data.total;
                let r = data.cancel(voter);
                let ghost d = data;
                self.settle(Ghost(orig), target, old_total, data);
                assert(cancelled(orig.targets@[target], d, *voter, r));
                r
            },
            None => {
                assert(self.targets@ =~= orig.targets@);
                VoteResult::VoteNotFound
            },
        }
    }

    /// Shares `reward` among the contributors of `target`.
    pub fn append_reward(&mut self, target: TargetId, reward: Balance) -> (r: Result<(), RewardError>)
        requires
            old(self).wf(),
        ensures
            final(self).wf(),
            final(self).same_settings(*old(self)),
            !old(self).targets@.contains_key(target) ==> r == Err::<(), RewardError>(RewardError::TargetNotFound)
                && final(self).targets@ == old(self).targets@,
            old(self).targets@.contains_key(target) ==> exists|d: TargetData|
                rewarded(old(self).targets@[target], d, reward, r) && placed(*old(self), *final(self), target, d),
    {
        let ghost orig = *self;
        match self.targets.remove(&target) {
            Some(data) => {
                let mut data = data;
                let old_total = data.total;
                let r = data.append_reward(reward);
                let ghost d = data;
                self.settle(Ghost(orig), target, old_total, data);
                assert(rewarded(orig.targets@[target], d, reward, r));
                r
            },
            None => {
                assert(self.targets@ =~= orig.targets@);
                Err(RewardError::TargetNotFound)
            },
        }
    }

    /// Claims the reward owed to `user` on its stake in `target`;
    /// `TargetNotFound` when the target has no stake, `Overflow` (with nothing
    /// changed) when the amount does not fit in a `Balance`.
    pub fn try_pop_reward(&mut self, user: &AccountId, target: TargetId) -> (r: Result<Option<Balance>, RewardError>)
        requires
            old(self).wf(),
        ensures
            final(self).wf(),
            final(self).same_settings(*old(self)),
            !old(self).targets@.contains_key(target) ==> r == Err::<Option<Balance>, RewardError>(
                RewardError::TargetNotFound,
            ) && final(self).targets@ == old(self).targets@,
            old(self).targets@.contains_key(target) ==> exists|d: TargetData|
                claimed(old(self).targets@[target], d, *user) && r == claim_result(
                    old(self).targets@[target],
                    *user,
                ) && placed(*old(self), *final(self), target, d),
    {
        let ghost orig = *self;
        match self.targets.remove(&target) {
            Some(data) => {
                let mut data = data;
                let old_total = data.total;
                let r = data.try_pop_reward(user);
                let ghost d = data;
                self.settle(Ghost(orig), target, old_total, data);
                assert(claimed(orig.targets@[target], d, *user));
                r
            },
            None => {
                assert(self.targets@ =~= orig.targets@);
                Err(RewardError::TargetNotFound)
            },
        }
    }

    /// Claims the reward owed to `user` on its stake in `target`, as
    /// `try_pop_reward` does; nothing is handed out when that fails.
    pub fn pop_reward(&mut self, user: &AccountId, target: TargetId) -> (r: Option<Balance>)
        requires
            old(self).wf(),
        ensures
            final(self).wf(),
            final(self).same_settings(*old(self)),
            !old(self).targets@.contains_key(target) ==> r is None && final(self).targets@
                == old(self).targets@,
            old(self).targets@.contains_key(target) ==> exists|d: TargetData|
                claimed(old(self).targets@[target], d, *user) && r == paid(
                    claim_result(old(self).targets@[target], *user),
                ) && placed(*old(self), *final(self), target, d),
    {
        match self.try_pop_reward(user, target) {
            Ok(x) => x,
            Err(_) => None,
        }
    }

    /// Total stake of target `t`.
    pub open spec fn total_of(&self, t: TargetId) -> Balance {
        self.targets@[t].total
    }

    /// The first `head_count` targets by descending total stake, ties broken
    /// by ascending target.
    pub fn get_head(&self) -> (r: Vec<TargetId>)
        requires
            self.wf(),
        ensures
            r.len() == if (self.head_count as nat) < self.targets@.dom().len() {
                self.head_count as nat
            } else {
                self.targets@.dom().len()
            },
            forall|i: int| 0 <= i < r.len() ==> self.targets@.contains_key(#[trigger] r@[i]),
            forall|i: int, j: int|
                0 <= i < j < r.len() ==> ranks_before(
                    #[trigger] r@[i],
                    self.total_of(r@[i]),
                    #[trigger] r@[j],
                    self.total_of(r@[j]),
                ),
            forall|t: TargetId, i: int|
                #![trigger self.targets@.contains_key(t), r@[i]]
                self.targets@.contains_key(t) && !r@.contains(t) && 0 <= i < r.len()
                    ==> ranks_before(r@[i], self.total_of(r@[i]), t, self.total_of(t)),
    {
        let n = self.head_count as usize;
        let mut res: Vec<TargetId> = Vec::new();
        let ghost s = spec_btree_keys_iter(&self.scores).remaining();
        for k in it: self.scores.iter()
            invariant
                self.wf(),
                it.seq() == s,
                n == self.head_count,
                res.len() == if it.index() < n { it.index() } else { n as int },
                forall|i: int| 0 <= i < res.len() ==> #[trigger] res@[i] == s[i].1,
        {
            if res.len() < n {
                res.push(k.1);
            }
        }
        proof {
            lemma_index_size(*self);
            vstd::std_specs::btree::axiom_spec_btree_keys_iter(&self.scores);
            broadcast use vstd::laws_cmp::group_laws_cmp;
            assert(vstd::std_specs::btree::increasing_seq(s));
            vstd::std_specs::btree::axiom_increasing_seq_meaning(s);
            assert(s.unref().to_set() == self.scores@);
            assert(s.len() == self.scores@.len());
            assert forall|i: int| 0 <= i < s.len() implies #[trigger] self.scores@.contains(*s[i]) by {
                assert(s.unref()[i] == *s[i]);
                assert(s.unref().contains(*s[i]));
            }
            assert forall|i: int, j: int| 0 <= i < j < s.len() implies key_lt(*#[trigger] s[i], *#[trigger] s[j]) by {
                assert(OrdSpec::cmp_spec(&s[i], &s[j]) is Less);
            }
            assert forall|i: int| 0 <= i < res.len() implies #[trigger] self.scores@.contains(key_of(res@[i], self.total_of(res@[i]))) by {
                assert(self.scores@.contains(*s[i]));
            }
            assert forall|i: int| 0 <= i < res.len() implies self.targets@.contains_key(#[trigger] res@[i]) by {
                assert(self.scores@.contains(*s[i]));
                assert(self.indexed(*s[i]));
            }
            assert forall|i: int, j: int| 0 <= i < j < res.len() implies ranks_before(
                #[trigger] res@[i], self.total_of(res@[i]), #[trigger] res@[j], self.total_of(res@[j])) by {
                assert(self.scores@.contains(*s[i]));
                assert(self.scores@.contains(*s[j]));
                lemma_key_order(res@[i], self.total_of(res@[i]), res@[j], self.total_of(res@[j]));
            }
            assert forall|t: TargetId, i: int|
                #![trigger self.targets@.contains_key(t), res@[i]]
                self.targets@.contains_key(t) && !res@.contains(t) && 0 <= i < res.len()
                implies ranks_before(res@[i], self.total_of(res@[i]), t, self.total_of(t)) by {
                let kt = key_of(t, self.total_of(t));
                assert(self.indexed(kt));
                assert(self.scores@.contains(kt));
                assert(s.unref().contains(kt));
                let j = choose|j: int| 0 <= j < s.unref().len() && s.unref()[j] == kt;
                assert(*s[j] == kt);
                if j < res.len() {
                    assert(res@[j] == t);
                    assert(res@.contains(t));
                }
                assert(self.scores@.contains(*s[i]));
                lemma_key_order(res@[i], self.total_of(res@[i]), t, self.total_of(t));
            }
        }
        res
    }
}

} // verus!
