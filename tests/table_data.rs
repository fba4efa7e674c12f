use std::collections::BTreeMap;
use tablescore::table_data::{TargetData, VoteResult};

type Data = TargetData;
type VR = VoteResult;

const ALICE: u64 = 10;
const BOB: u64 = 11;
const CARL: u64 = 12;

/// Votes each `(user, balance)` as a new contributor and checks the ledger.
fn vote_new(data: &mut Data, votes: &[(u64, u64)]) {
    let mut expected = BTreeMap::new();
    for &(user, balance) in votes {
        expected.insert(user, balance);
        assert_eq!(data.vote(user, balance), VR::Success(None));
    }
    assert_eq!(expected, data.votes);
}

/// Votes each `(user, balance, reward)` and checks the reward and the ledger.
fn vote_with_reward(data: &mut Data, votes: &[(u64, u64, Option<u64>)]) {
    let mut expected = BTreeMap::new();
    for &(user, balance, reward) in votes {
        expected.insert(user, balance + *data.votes.get(&user).unwrap_or(&0));
        assert_eq!(
            data.vote(user, balance),
            match reward {
                Some(reward) => VR::Success(Some(reward)),
                None => VR::Success(None),
            }
        );
    }
    assert_eq!(expected, data.votes);
}

#[test]
fn simple() {
    let data = Data::create_with_first_vote(ALICE, 100);
    assert_eq!(data.total, 100);
    assert_eq!(data.votes.len(), 1);
}

#[test]
fn table_data_vote() {
    let mut data = Data::default();
    vote_new(&mut data, &[(ALICE, 200), (BOB, 300), (CARL, 400)]);
}

#[test]
fn reward() {
    let mut data = Data::default();
    vote_new(&mut data, &[(ALICE, 200), (BOB, 400), (CARL, 400)]);
    assert_eq!(data.append_reward(1000), Ok(()));

    assert_eq!(data.pop_reward(&ALICE), Some(200));

    vote_with_reward(
        &mut data,
        &[(ALICE, 200, None), (BOB, 400, Some(400)), (CARL, 400, Some(400))],
    );
}

#[test]
fn table_data_unvote() {
    let mut data = Data::default();
    vote_new(&mut data, &[(ALICE, 400), (BOB, 400), (CARL, 400)]);
    assert_eq!(data.append_reward(1200), Ok(()));

    assert_eq!(data.unvote(&ALICE, 200), VR::Unvoted(200, Some(400)));
    assert_eq!(data.unvote(&BOB, 200), VR::Unvoted(200, Some(400)));

    assert_eq!(data.append_reward(800), Ok(()));

    assert_eq!(data.pop_reward(&ALICE), Some(200));
    assert_eq!(data.pop_reward(&BOB), Some(200));
    assert_eq!(data.pop_reward(&CARL), Some(400 + 400));
}

#[test]
fn cancel() {
    let mut data = Data::default();
    assert_eq!(data.vote(CARL, 1000), VR::Success(None));

    assert_eq!(data.vote(ALICE, 100), VR::Success(None));
    assert_eq!(data.vote(BOB, 100), VR::Success(None));
    assert_eq!(data.append_reward(42123), Ok(()));

    assert_eq!(data.vote(ALICE, 100), VR::Success(Some(3500)));
    assert_eq!(data.append_reward(12423), Ok(()));

    assert_eq!(data.vote(BOB, 100), VR::Success(Some(4400)));
    assert_eq!(data.append_reward(20423), Ok(()));

    assert_eq!(data.cancel(&ALICE), VR::Unvoted(200, Some(4600)));
    assert_eq!(data.append_reward(20423), Ok(()));

    assert_eq!(data.cancel(&BOB), VR::Unvoted(200, Some(6200)));
    assert_eq!(data.append_reward(20423), Ok(()));

    assert_eq!(data.pop_reward(&CARL), Some(95000));
    assert_eq!(data.cancel(&CARL), VR::Unvoted(1000, None));

    assert_eq!(data.pop_reward(&ALICE), None);
    assert_eq!(data.pop_reward(&BOB), None);
    assert_eq!(data.pop_reward(&CARL), None);
}
