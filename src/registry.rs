//! The tables of a deployment, each under an id drawn from a sequence.
use vstd::prelude::*;
use std::collections::BTreeMap;
use crate::{AccountId, AssetId, TableId};
use crate::table::{RawString, Table};
use crate::table_data::TargetData;

verus! {

/// Why a table could not be created.
#[derive(Clone, Copy, Debug, PartialEq, Eq, Structural)]
pub enum Error {
    /// The id sequence is exhausted.
    TableIdOverflow,
}

/// All tables, by id, and the id the next table gets.
#[derive(Clone, Debug)]
pub struct Module {
    pub tables: BTreeMap<TableId, Table>,
    pub next_table_id: TableId,
}

impl Module {
    pub open spec fn wf(&self) -> bool {
        forall|id: TableId| #[trigger] self.tables@.contains_key(id) ==> self.tables@[id].wf()
    }

    pub fn new() -> (r: Module)
        ensures
            r.wf(),
            r.tables@ == Map::<TableId, Table>::empty(),
            r.next_table_id == 0,
    {
        Module { tables: BTreeMap::new(), next_table_id: 0 }
    }

    /// Takes the next id of the sequence; the last value of `TableId` is never handed out.
    fn get_next_table_id(&mut self) -> (r: Result<TableId, Error>)
        ensures
            final(self).tables == old(self).tables,
            old(self).next_table_id == u64::MAX ==> r == Err::<TableId, Error>(Error::TableIdOverflow)
                && final(self).next_table_id == old(self).next_table_id,
            old(self).next_table_id < u64::MAX ==> r == Ok::<TableId, Error>(old(self).next_table_id)
                && final(self).next_table_id == old(self).next_table_id + 1,
    {
        match self.next_table_id.checked_add(1) {
            Some(next) => {
                let id = self.next_table_id;
                self.next_table_id = next;
                Ok(id)
            },
            None => Err(Error::TableIdOverflow),
        }
    }

    /// Creates an empty table under the next id, with `who` as its wallet.
    pub fn create(&mut self, who: AccountId, vote_asset: AssetId, head_len: u8, name: Option<RawString>) -> (r: Result<TableId, Error>)
        requires
            old(self).wf(),
        ensures
            final(self).wf(),
            old(self).next_table_id == u64::MAX ==> r == Err::<TableId, Error>(Error::TableIdOverflow)
                && final(self).tables@ == old(self).tables@ && final(self).next_table_id
                == old(self).next_table_id,
            old(self).next_table_id < u64::MAX ==> {
                let id = old(self).next_table_id;
                let t = final(self).tables@[id];
                &&& r == Ok::<TableId, Error>(id)
                &&& final(self).next_table_id == id + 1
                &&& final(self).tables@ == old(self).tables@.insert(id, t)
                &&& t.name == name
                &&& t.head_count == head_len
                &&& t.vote_asset == vote_asset
                &&& t.wallet == who
                &&& t.targets@ == Map::<crate::TargetId, TargetData>::empty()
            },
    {
        let id = self.get_next_table_id()?;
        self.tables.insert(id, Table::new(name, head_len, vote_asset, who));
        Ok(id)
    }
}

} // verus!
