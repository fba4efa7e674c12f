use tablescore::table::Table;
use tablescore::table_data::VoteResult;

type VR = VoteResult;

const ALICE: u64 = 10;
const BOB: u64 = 11;
const CARL: u64 = 12;
const CAROL: u64 = 13;

const WALLET: u64 = 0;

fn compare_head(table: &Table, expected: Vec<u64>) {
    assert_eq!(expected, table.get_head());
}

#[test]
fn table_create() {
    let table = Table::new(None, 2, 0, WALLET);
    assert_eq!(table.get_head().len(), 0);
}

#[test]
fn simple_vote() {
    let mut table = Table::new(None, 2, 0, WALLET);
    assert_eq!(table.vote(0, &ALICE, 10), VR::Success(None));
    assert_eq!(table.vote(1, &BOB, 11), VR::Success(None));
    assert_eq!(table.vote(2, &CARL, 12), VR::Success(None));

    compare_head(&table, vec![2, 1]);
}

#[test]
fn supplement_vote() {
    let mut table = Table::new(None, 2, 0, WALLET);

    assert_eq!(table.vote(0, &ALICE, 10), VR::Success(None));
    assert_eq!(table.vote(1, &BOB, 11), VR::Success(None));
    assert_eq!(table.vote(2, &CARL, 12), VR::Success(None));
    assert_eq!(table.vote(3, &CAROL, 13), VR::Success(None));

    assert_eq!(table.vote(0, &ALICE, 10), VR::Success(None));
    assert_eq!(table.vote(1, &BOB, 4), VR::Success(None));
    assert_eq!(table.vote(2, &CARL, 4), VR::Success(None));
    assert_eq!(table.vote(3, &CAROL, 6), VR::Success(None));

    compare_head(&table, vec![0, 3])
}

#[test]
fn table_unvote() {
    let mut table = Table::new(None, 3, 0, WALLET);

    assert_eq!(table.vote(1, &ALICE, 5), VR::Success(None));
    assert_eq!(table.vote(2, &BOB, 10), VR::Success(None));
    assert_eq!(table.vote(3, &CAROL, 20), VR::Success(None));

    compare_head(&table, vec![3, 2, 1]);

    assert_eq!(table.unvote(3, &CAROL, 11), VR::Unvoted(11, None));
    compare_head(&table, vec![2, 3, 1]);

    assert_eq!(table.unvote(2, &BOB, 6), VR::Unvoted(6, None));
    compare_head(&table, vec![3, 1, 2]);
}

#[test]
fn multivote() {
    let mut table = Table::new(None, 2, 0, WALLET);

    assert_eq!(table.vote(0, &ALICE, 10), VR::Success(None));
    assert_eq!(table.vote(1, &BOB, 11), VR::Success(None));
    assert_eq!(table.vote(2, &CARL, 12), VR::Success(None));
    assert_eq!(table.vote(3, &CAROL, 13), VR::Success(None));

    compare_head(&table, vec![3, 2]);

    assert_eq!(table.vote(1, &ALICE, 10), VR::Success(None));
    compare_head(&table, vec![1, 3]);

    assert_eq!(table.vote(2, &ALICE, 8), VR::Success(None));
    compare_head(&table, vec![1, 2]);
}

#[test]
fn cancel_vote() {
    let mut table = Table::new(None, 2, 0, WALLET);

    assert_eq!(table.vote(0, &ALICE, 10), VR::Success(None));
    assert_eq!(table.vote(1, &BOB, 11), VR::Success(None));
    assert_eq!(table.vote(2, &CARL, 12), VR::Success(None));
    assert_eq!(table.vote(3, &CAROL, 13), VR::Success(None));

    compare_head(&table, vec![3, 2]);

    assert_eq!(table.cancel(3, &CAROL), VR::Unvoted(13, None));
    assert_eq!(table.cancel(3, &CAROL), VR::VoteNotFound);

    compare_head(&table, vec![2, 1]);
}
