use desk::counter_shard::{
    counter_shard_for_desk_id, is_user_owned_by, is_user_owned_by_desk, owner_shard_for_user_id,
    stable_symbol_bit, symbol_route_desk_id, COUNTER_SHARD_COUNT,
};

#[test]
fn routes_users_across_4_counter_shards() {
    assert_eq!(COUNTER_SHARD_COUNT, 4);
    assert_eq!(owner_shard_for_user_id(1), 1);
    assert_eq!(owner_shard_for_user_id(3), 3);
    assert_eq!(owner_shard_for_user_id(4), 0);
    assert_eq!(owner_shard_for_user_id(5), 1);
}

#[test]
fn invalid_user_ids_route_to_zero() {
    assert_eq!(owner_shard_for_user_id(0), 0);
    assert_eq!(owner_shard_for_user_id(-1), 0);
}

#[test]
fn desk_id_wraps_to_counter_shard() {
    assert_eq!(counter_shard_for_desk_id(0), 0);
    assert_eq!(counter_shard_for_desk_id(3), 3);
    assert_eq!(counter_shard_for_desk_id(4), 0);
    assert!(is_user_owned_by_desk(5, 1));
    assert!(is_user_owned_by_desk(5, 5));
}

#[test]
fn routes_core_symbols_to_dedicated_desks() {
    assert_eq!(symbol_route_desk_id("BTC_USDT"), 0);
    assert_eq!(symbol_route_desk_id("ETH_USDT"), 1);
    let sol = symbol_route_desk_id("SOL_USDT");
    assert!(sol == 2 || sol == 3);
    let xrp = symbol_route_desk_id("XRP_USDT");
    assert!(xrp == 2 || xrp == 3);
}

#[test]
fn every_user_has_one_owner() {
    for user in 1..50i64 {
        let owners = (0..COUNTER_SHARD_COUNT).filter(|s| is_user_owned_by(user, *s)).count();
        assert_eq!(owners, 1);
    }
    assert!(!is_user_owned_by_desk(5, 2));
}

#[test]
fn symbol_bit_is_the_parity_of_odd_bytes() {
    // 'S' = 83, 'O' = 79, 'L' = 76: two odd bytes.
    assert_eq!(stable_symbol_bit("SOL"), 0);
    // 'X' = 88, 'R' = 82, 'P' = 80: none.
    assert_eq!(stable_symbol_bit("XRP"), 0);
    assert_eq!(stable_symbol_bit("A"), 1);
    assert_eq!(symbol_route_desk_id("A_USDT"), 3);
    assert_eq!(symbol_route_desk_id("SOL_USDT"), 2);
}
