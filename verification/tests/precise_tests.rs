use std::collections::HashMap;

use decentrust::precise::PreciseHonestPeer;
use decentrust::update::Update;

fn sorted(mut v: Vec<(u64, usize)>) -> Vec<(u64, usize)> {
    v.sort();
    v
}

#[test]
fn new_peer_has_no_scores() {
    let hp = PreciseHonestPeer::new();
    assert_eq!(0, hp.local_raw_len());
    assert_eq!(0, hp.global_raw_len());
    assert_eq!(0, hp.local_normalized_len());
    assert_eq!(0, hp.global_normalized_len());
    assert_eq!(hp.get_raw_local(&1), None);
    assert_eq!(hp.get_normalized_global(&1), None);
}

#[test]
fn init_local_adds_one_raw_and_one_normalized_score() {
    let mut hp = PreciseHonestPeer::new();
    hp.init_local(&1, 1);
    assert_eq!(hp.local_raw_len(), 1);
    assert_eq!(hp.local_normalized_len(), 1);
    assert_eq!(hp.get_raw_local(&1), Some(1));
    assert_eq!(hp.get_normalized_local(&1), Some(1));
}

#[test]
fn init_local_again_overwrites_the_score() {
    let mut hp = PreciseHonestPeer::new();
    hp.init_local(&1, 4);
    hp.init_local(&1, 9);
    assert_eq!(hp.local_raw_len(), 1);
    assert_eq!(hp.get_raw_local(&1), Some(9));
}

#[test]
fn update_local_increment_and_normalization() {
    let mut hp = PreciseHonestPeer::new();
    hp.init_local(&1, 1);
    hp.init_local(&2, 1);
    hp.update_local(&1, 5, Update::Increment);
    assert_eq!(hp.get_raw_local(&1), Some(6));
    assert_eq!(hp.get_raw_local(&2), Some(1));
    // 6 / 7 and 1 / 7 in integer division
    assert_eq!(hp.get_normalized_local(&1), Some(0));
    assert_eq!(hp.get_normalized_local(&2), Some(0));
}

#[test]
fn normalized_score_is_integer_share_of_total() {
    let mut hp = PreciseHonestPeer::new();
    hp.init_local(&1, 30);
    hp.init_local(&2, 0);
    assert_eq!(hp.get_normalized_local(&1), Some(1));
    assert_eq!(hp.get_normalized_local(&2), Some(0));
    hp.init_local(&3, 10);
    // total is now 40
    assert_eq!(hp.get_normalized_local(&1), Some(0));
    assert_eq!(hp.get_normalized_local(&3), Some(0));
    assert_eq!(hp.local_normalized_len(), 3);
}

#[test]
fn update_local_decrement_stops_at_zero() {
    let mut hp = PreciseHonestPeer::new();
    hp.init_local(&1, 3);
    hp.init_local(&2, 4);
    hp.update_local(&1, 5, Update::Decrement);
    assert_eq!(hp.get_raw_local(&1), Some(0));
    assert_eq!(hp.get_normalized_local(&1), Some(0));
    assert_eq!(hp.get_normalized_local(&2), Some(1));
}

#[test]
fn update_local_decrement_subtracts() {
    let mut hp = PreciseHonestPeer::new();
    hp.init_local(&1, 10);
    hp.update_local(&1, 4, Update::Decrement);
    assert_eq!(hp.get_raw_local(&1), Some(6));
}

#[test]
fn update_local_of_unknown_peer_inserts_delta_either_way() {
    let mut hp = PreciseHonestPeer::new();
    hp.update_local(&1, 7, Update::Decrement);
    hp.update_local(&2, 3, Update::Increment);
    assert_eq!(hp.get_raw_local(&1), Some(7));
    assert_eq!(hp.get_raw_local(&2), Some(3));
    assert_eq!(hp.local_raw_len(), 2);
}

#[test]
fn local_decrement_undoes_increment() {
    let mut hp = PreciseHonestPeer::new();
    hp.init_local(&1, 8);
    hp.init_local(&2, 2);
    hp.update_local(&1, 5, Update::Increment);
    assert_eq!(hp.get_raw_local(&1), Some(13));
    hp.update_local(&1, 5, Update::Decrement);
    assert_eq!(hp.get_raw_local(&1), Some(8));
    assert_eq!(hp.get_raw_local(&2), Some(2));
}

#[test]
fn init_global_weights_by_sender_trust() {
    let mut hp = PreciseHonestPeer::new();
    hp.init_local(&1, 10);
    hp.init_global(&1, &7, 3);
    assert_eq!(hp.global_raw_len(), 1);
    assert_eq!(hp.global_normalized_len(), 1);
    assert_eq!(hp.get_raw_global(&7), Some(3));
    assert_eq!(hp.get_normalized_global(&7), Some(1));
}

#[test]
fn init_global_from_unknown_sender_is_ignored() {
    let mut hp = PreciseHonestPeer::new();
    hp.init_local(&1, 10);
    hp.init_global(&2, &7, 3);
    assert_eq!(hp.global_raw_len(), 0);
    assert_eq!(hp.get_raw_global(&7), None);
}

#[test]
fn update_global_increment_decrement() {
    let mut hp = PreciseHonestPeer::new();
    hp.init_local(&1, 10);
    hp.init_global(&1, &7, 3);
    hp.update_global(&1, &7, 2, Update::Increment);
    assert_eq!(hp.get_raw_global(&7), Some(5));
    hp.update_global(&1, &8, 4, Update::Increment);
    assert_eq!(hp.get_raw_global(&8), Some(4));
    hp.update_global(&1, &7, 1, Update::Decrement);
    assert_eq!(hp.get_raw_global(&7), Some(4));
    hp.update_global(&1, &7, 9, Update::Decrement);
    assert_eq!(hp.get_raw_global(&7), Some(0));
    assert_eq!(hp.get_normalized_global(&7), Some(0));
    assert_eq!(hp.get_normalized_global(&8), Some(1));
}

#[test]
fn update_global_decrement_of_unknown_peer_changes_nothing() {
    let mut hp = PreciseHonestPeer::new();
    hp.init_local(&1, 10);
    hp.init_global(&1, &7, 3);
    hp.update_global(&1, &9, 2, Update::Decrement);
    assert_eq!(hp.global_raw_len(), 1);
    assert_eq!(hp.get_raw_global(&9), None);
}

#[test]
fn update_global_from_unknown_sender_changes_nothing() {
    let mut hp = PreciseHonestPeer::new();
    hp.init_local(&1, 10);
    hp.init_global(&1, &7, 3);
    hp.update_global(&5, &7, 2, Update::Increment);
    assert_eq!(hp.get_raw_global(&7), Some(3));
    assert_eq!(hp.global_raw_len(), 1);
}

#[test]
fn global_decrement_undoes_increment() {
    let mut hp = PreciseHonestPeer::new();
    hp.init_local(&1, 10);
    hp.init_global(&1, &7, 3);
    hp.init_global(&1, &8, 6);
    hp.update_global(&1, &7, 4, Update::Increment);
    hp.update_global(&1, &7, 4, Update::Decrement);
    assert_eq!(hp.get_raw_global(&7), Some(3));
    assert_eq!(hp.get_raw_global(&8), Some(6));
}

#[test]
fn maps_are_returned_whole() {
    let mut hp = PreciseHonestPeer::new();
    hp.init_local(&1, 10);
    hp.init_local(&2, 30);
    let mut raw_local = HashMap::new();
    raw_local.insert(1u64, 10u64);
    raw_local.insert(2u64, 30u64);
    assert_eq!(hp.get_raw_local_map(), raw_local);
    let mut norm_local = HashMap::new();
    norm_local.insert(1u64, 0u64);
    norm_local.insert(2u64, 0u64);
    assert_eq!(hp.get_normalized_local_map(), norm_local);
    assert_eq!(hp.get_raw_global_map(), HashMap::new());
    // a peer with all the local trust weighs its reports fully
    hp.init_local(&1, 0);
    hp.init_global(&2, &5, 2);
    hp.init_global(&2, &6, 0);
    let mut raw_global = HashMap::new();
    raw_global.insert(5u64, 2u64);
    raw_global.insert(6u64, 0u64);
    assert_eq!(hp.get_raw_global_map(), raw_global);
    let mut norm_global = HashMap::new();
    norm_global.insert(5u64, 1u64);
    norm_global.insert(6u64, 0u64);
    assert_eq!(hp.get_normalized_global_map(), norm_global);
}

#[test]
fn normalize_twice_changes_nothing() {
    let mut hp = PreciseHonestPeer::new();
    hp.init_local(&1, 10);
    hp.init_local(&2, 10);
    let before = hp.get_normalized_local_map();
    hp.normalize_local();
    hp.normalize_global();
    assert_eq!(hp.get_normalized_local_map(), before);
    assert_eq!(hp.global_normalized_len(), 0);
}

#[test]
fn bucketize_pairs_every_peer_with_its_bucket() {
    let mut hp = PreciseHonestPeer::new();
    hp.init_local(&1, 15);
    hp.init_local(&2, 35);
    let local = sorted(hp.bucketize_local(|v: u64| (v / 10) as usize));
    assert_eq!(local, vec![(1, 1), (2, 3)]);
    let norm_local = sorted(hp.bucketize_normalized_local(|v: u64| v as usize + 100));
    assert_eq!(norm_local, vec![(1, 100), (2, 100)]);
    let global = sorted(hp.bucketize_global(|v: u64| v as usize));
    assert_eq!(global, vec![]);
    hp.init_local(&1, 0);
    hp.init_global(&2, &9, 7);
    let global = sorted(hp.bucketize_global(|v: u64| v as usize));
    assert_eq!(global, vec![(9, 7)]);
    let norm_global = sorted(hp.bucketize_normalized_global(|v: u64| v as usize));
    assert_eq!(norm_global, vec![(9, 1)]);
}

#[test]
fn normalized_scores_sum_to_at_most_one() {
    let mut hp = PreciseHonestPeer::new();
    hp.init_local(&1, 1);
    hp.init_local(&2, 1);
    let total: u64 = hp.get_normalized_local_map().values().sum();
    assert_eq!(total, 0);
    hp.init_local(&2, 0);
    let total: u64 = hp.get_normalized_local_map().values().sum();
    assert_eq!(total, 1);
}
