//! The ordering key of the scoreboard: a target with its total balance.
use vstd::prelude::*;
use crate::{Balance, TargetId};

verus! {

/// Key of a record in the sorted index: the balance reversed (`u64::MAX - balance`),
/// then the target. Ascending order on keys is descending balance, ascending target.
pub type RecordKey = (u64, u64);

/// A target paired with its total balance.
#[derive(Clone, Copy, Debug, PartialEq, Eq, Structural)]
pub struct Record {
    pub target: TargetId,
    pub balance: Balance,
}

/// The index key of `(target, balance)`.
pub open spec fn key_of(target: TargetId, balance: Balance) -> RecordKey {
    ((u64::MAX - balance) as u64, target)
}

/// Strict order of keys: lexicographic on (reversed balance, target).
pub open spec fn key_lt(a: RecordKey, b: RecordKey) -> bool {
    a.0 < b.0 || (a.0 == b.0 && a.1 < b.1)
}

/// Whether a record with `(ta, ba)` ranks strictly before one with `(tb, bb)`:
/// the larger balance first, and the smaller target on equal balances.
pub open spec fn ranks_before(ta: TargetId, ba: Balance, tb: TargetId, bb: Balance) -> bool {
    ba > bb || (ba == bb && ta < tb)
}

/// Order of two records: `Less` when `a` ranks before `b`.
pub open spec fn rank_cmp(a: Record, b: Record) -> std::cmp::Ordering {
    if a.balance > b.balance {
        std::cmp::Ordering::Less
    } else if a.balance < b.balance {
        std::cmp::Ordering::Greater
    } else if a.target < b.target {
        std::cmp::Ordering::Less
    } else if a.target > b.target {
        std::cmp::Ordering::Greater
    } else {
        std::cmp::Ordering::Equal
    }
}

/// The order of keys is the order of the records they stand for.
pub proof fn lemma_key_order(ta: TargetId, ba: Balance, tb: TargetId, bb: Balance)
    ensures
        key_lt(key_of(ta, ba), key_of(tb, bb)) <==> ranks_before(ta, ba, tb, bb),
        key_of(ta, ba) == key_of(tb, bb) <==> (ta == tb && ba == bb),
{
}

impl Record {
    pub fn new(target: TargetId, balance: Balance) -> (r: Record)
        ensures
            r.target == target,
            r.balance == balance,
    {
        Record { target, balance }
    }

    pub fn get_target(&self) -> (r: &TargetId)
        ensures
            *r == self.target,
    {
        &self.target
    }

    /// The key under which this record stands in the sorted index.
    pub fn key(&self) -> (k: RecordKey)
        ensures
            k == key_of(self.target, self.balance),
    {
        (u64::MAX - self.balance, self.target)
    }

    /// The record that an index key stands for.
    pub fn from_key(k: RecordKey) -> (r: Record)
        ensures
            key_of(r.target, r.balance) == k,
    {
        Record { target: k.1, balance: u64::MAX - k.0 }
    }
}

impl PartialOrd for Record {
    fn partial_cmp(&self, other: &Record) -> (r: Option<std::cmp::Ordering>)
        ensures
            r == Some(rank_cmp(*self, *other)),
    {
        if self.balance > other.balance {
            Some(std::cmp::Ordering::Less)
        } else if self.balance < other.balance {
            Some(std::cmp::Ordering::Greater)
        } else if self.target < other.target {
            Some(std::cmp::Ordering::Less)
        } else if self.target > other.target {
            Some(std::cmp::Ordering::Greater)
        } else {
            Some(std::cmp::Ordering::Equal)
        }
    }
}

impl vstd::std_specs::cmp::PartialOrdSpecImpl for Record {
    open spec fn obeys_partial_cmp_spec() -> bool {
        true
    }

    open spec fn partial_cmp_spec(&self, other: &Record) -> Option<std::cmp::Ordering> {
        Some(rank_cmp(*self, *other))
    }
}

} // verus!
