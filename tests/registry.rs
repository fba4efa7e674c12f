use tablescore::registry::{Error, Module};
use tablescore::table_data::VoteResult;

const HEAD_COUNT: u8 = 10;

const ALICE: u64 = 0;
const BOB: u64 = 1;
const ASSET_ID: u64 = 0;

const TARGET1: u64 = 1;
const TARGET2: u64 = 2;
const TARGET3: u64 = 3;

#[test]
fn tests_create() {
    let mut module = Module::new();
    let table = module.next_table_id;
    assert_eq!(module.create(ALICE, ASSET_ID, HEAD_COUNT, None), Ok(table));

    let table = module.tables.get(&table).unwrap().clone();

    assert_eq!(table.name, None);
    assert_eq!(table.vote_asset, ASSET_ID);
    assert_eq!(table.wallet, ALICE);

    assert_eq!(table.scores.len(), 0);
    assert_eq!(table.targets.len(), 0);
}

#[test]
fn tests_vote() {
    let mut module = Module::new();
    let table = module.next_table_id;
    assert_eq!(module.create(ALICE, ASSET_ID, HEAD_COUNT, None), Ok(table));

    let mut table = module.tables.get(&table).unwrap().clone();
    assert_eq!(table.vote(TARGET1, &ALICE, 102), VoteResult::Success(None));
    assert_eq!(table.vote(TARGET2, &BOB, 101), VoteResult::Success(None));
    assert_eq!(table.vote(TARGET3, &ALICE, 100), VoteResult::Success(None));

    assert_eq!(table.get_head(), vec![TARGET1, TARGET2, TARGET3]);

    assert_eq!(table.vote(TARGET3, &BOB, 100), VoteResult::Success(None));
    assert_eq!(table.vote(TARGET2, &BOB, 50), VoteResult::Success(None));

    assert_eq!(table.get_head(), vec![TARGET3, TARGET2, TARGET1]);

    assert_eq!(table.unvote(TARGET3, &BOB, 100), VoteResult::Unvoted(100, None));
    assert_eq!(table.unvote(TARGET2, &BOB, 50), VoteResult::Unvoted(50, None));

    assert_eq!(table.get_head(), vec![TARGET1, TARGET2, TARGET3]);

    assert_eq!(table.unvote(TARGET2, &BOB, 101), VoteResult::Unvoted(101, None));
    assert_eq!(table.get_head(), vec![TARGET1, TARGET3]);

    assert_eq!(table.unvote(TARGET2, &BOB, 1), VoteResult::VoteNotFound);
}

#[test]
fn ids_come_in_sequence() {
    let mut module = Module::new();
    assert_eq!(module.create(ALICE, ASSET_ID, 1, None), Ok(0));
    assert_eq!(module.create(BOB, ASSET_ID, 2, Some(b"second".to_vec())), Ok(1));
    assert_eq!(module.next_table_id, 2);
    assert_eq!(module.tables.get(&1).unwrap().name, Some(b"second".to_vec()));
    assert_eq!(module.tables.get(&1).unwrap().head_count, 2);
}

#[test]
fn exhausted_sequence_is_refused() {
    let mut module = Module::new();
    module.next_table_id = u64::MAX;
    assert_eq!(module.create(ALICE, ASSET_ID, 1, None), Err(Error::TableIdOverflow));
    assert_eq!(module.tables.len(), 0);
    assert_eq!(module.next_table_id, u64::MAX);
}
