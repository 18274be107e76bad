use desk::models::DbOrder;
use desk::persist_event::{
    pack_str, AccountSetPayload, OrderDeletePayload, OrderFillUpdatePayload, OrderUpsertPayload,
    PersistBody, PersistFrame,
};
use desk::rate_limit::BucketState;
use desk::redis_store::{
    account_of_key, apply_account_set, apply_frame, apply_order_delete, apply_order_fill_update,
    apply_order_upsert, decode_hash, find_amount, find_field, find_number, get_order,
    holder_of_key, hydrate_from_pg, key_account, key_order, key_user_assets, key_user_coid,
    key_user_orders, list_user_accounts, list_user_open_orders, load_persist_floors,
    load_rate_buckets, purge_all, remove_lost_accounts, remove_orphans, remove_strays, store_persist_floors,
    store_rate_buckets, FramePlan, RedisCommand, KEY_ACTIVE_ORDERS,
};
use std::collections::{HashMap, HashSet};

/// A cache in memory.
#[derive(Default)]
struct Store {
    hashes: HashMap<String, HashMap<String, String>>,
    sets: HashMap<String, HashSet<String>>,
}

impl Store {
    fn run(&mut self, commands: &[RedisCommand]) {
        for command in commands {
            match command {
                RedisCommand::SetFields { key, fields } => {
                    let hash = self.hashes.entry(key.clone()).or_default();
                    for (name, value) in fields {
                        hash.insert(name.clone(), value.clone());
                    }
                }
                RedisCommand::RemoveField { key, field } => {
                    if let Some(hash) = self.hashes.get_mut(key) {
                        hash.remove(field);
                    }
                }
                RedisCommand::AddMember { key, member } => {
                    self.sets.entry(key.clone()).or_default().insert(member.clone());
                }
                RedisCommand::RemoveMember { key, member } => {
                    if let Some(set) = self.sets.get_mut(key) {
                        set.remove(member);
                    }
                }
                RedisCommand::Delete { key } => {
                    self.hashes.remove(key);
                    self.sets.remove(key);
                }
            }
        }
    }

    fn fields(&self, key: &str) -> Vec<(String, String)> {
        match self.hashes.get(key) {
            Some(hash) => hash.iter().map(|(k, v)| (k.clone(), v.clone())).collect(),
            None => Vec::new(),
        }
    }

    fn has(&self, key: &str, member: &str) -> bool {
        self.sets.get(key).map(|s| s.contains(member)).unwrap_or(false)
    }
}

fn pairs(fields: &[(&str, &str)]) -> Vec<(String, String)> {
    fields.iter().map(|(k, v)| (k.to_string(), v.to_string())).collect()
}

fn upsert(id: i64) -> OrderUpsertPayload {
    OrderUpsertPayload {
        id,
        user_id: 7,
        symbol: pack_str("BTC_USDT"),
        side: 0,
        status: 0,
        order_type: pack_str("limit"),
        price_atoms: Some(7_300_050_000_000),
        qty_atoms: Some(5_000_000),
        filled_atoms: Some(0),
        freeze_price_atoms: Some(7_300_050_000_000),
        client_order_id: pack_str("abc"),
        created_at_ms: 1_700_000_000_000,
    }
}

#[test]
fn key_helpers() {
    assert_eq!(key_order(42), "order:42");
    assert_eq!(key_user_orders(7), "user_orders:7");
    assert_eq!(key_account(7, "USDT"), "acct:7:USDT");
    assert_eq!(key_user_assets(7), "user_assets:7");
    assert_eq!(key_user_coid(7), "user_coid:7");
}

#[test]
fn decode_hash_roundtrip() {
    let h = pairs(&[
        ("user_id", "42"),
        ("symbol", "BTC_USDT"),
        ("side", "buy"),
        ("order_type", "limit"),
        ("status", "PENDING"),
        ("price", "73000.5"),
        ("qty", "0.05"),
        ("filled", "0"),
        ("freeze_price", "73000.5"),
        ("client_order_id", "abc"),
        ("created_at_ms", "1700000000000"),
        ("updated_at_ms", "1700000001000"),
    ]);
    let o = decode_hash(7, &h).expect("decode");
    assert_eq!(o.id, 7);
    assert_eq!(o.user_id, 42);
    assert_eq!(o.symbol, "BTC_USDT");
    assert_eq!(o.price_atoms, Some(7_300_050_000_000));
    assert_eq!(o.client_order_id.as_deref(), Some("abc"));
    assert_eq!(o.created_at_ms, 1700000000000);
    assert_eq!(o.updated_at_ms, 1700000001000);
}

#[test]
fn decode_hash_missing_field_returns_none() {
    let h = pairs(&[("user_id", "42")]);
    assert!(decode_hash(7, &h).is_none());
}

#[test]
fn decode_hash_empty_client_order_id_is_none() {
    let h = pairs(&[
        ("user_id", "42"),
        ("symbol", "BTC_USDT"),
        ("side", "buy"),
        ("order_type", "market"),
        ("status", "PENDING"),
        ("price", "0"),
        ("qty", "1"),
        ("filled", "0"),
        ("freeze_price", "0"),
        ("client_order_id", ""),
        ("created_at_ms", "1700000000000"),
    ]);
    let o = decode_hash(7, &h).expect("decode");
    assert!(o.client_order_id.is_none());
    assert!(o.price_atoms.is_none(), "a zero price reads as none");
    assert_eq!(o.updated_at_ms, o.created_at_ms);
}

#[test]
fn an_upserted_order_reads_back_and_is_indexed() {
    let mut store = Store::default();
    store.run(&apply_order_upsert(&upsert(42)));
    let o = decode_hash(42, &store.fields("order:42")).unwrap();
    assert_eq!(o.status, "PENDING");
    assert_eq!(o.quantity_atoms, 5_000_000);
    assert_eq!(o.price_atoms, Some(7_300_050_000_000));
    assert!(store.has(KEY_ACTIVE_ORDERS, "42"));
    assert!(store.has("user_orders:7", "42"));
    assert_eq!(find_field(&store.fields("user_coid:7"), "abc"), Some("42"));
    assert!(get_order(&store.fields("order:42"), 42, 7).is_some());
    assert!(get_order(&store.fields("order:42"), 42, 8).is_none(), "another user's order");

    let once = store.fields("order:42").len();
    store.run(&apply_order_upsert(&upsert(42)));
    assert_eq!(store.fields("order:42").len(), once, "applied twice changes nothing");

    store.run(&apply_order_delete(42, Some("7"), Some("abc")));
    assert!(store.fields("order:42").is_empty());
    assert!(!store.has(KEY_ACTIVE_ORDERS, "42"));
    assert!(!store.has("user_orders:7", "42"));
    assert_eq!(find_field(&store.fields("user_coid:7"), "abc"), None);
}

#[test]
fn a_fill_updates_a_stored_order_alone() {
    let fill = OrderFillUpdatePayload { id: 42, filled_atoms: Some(2_000_000), status: 1 };
    assert!(apply_order_fill_update(&fill, false, 5).is_empty());
    let mut store = Store::default();
    store.run(&apply_order_upsert(&upsert(42)));
    store.run(&apply_order_fill_update(&fill, true, 1_700_000_009_000));
    let o = decode_hash(42, &store.fields("order:42")).unwrap();
    assert_eq!(o.filled_atoms, 2_000_000);
    assert_eq!(o.status, "TRADING");
    assert_eq!(o.updated_at_ms, 1_700_000_009_000);
}

#[test]
fn an_account_is_set_and_listed() {
    let set = AccountSetPayload {
        user_id: 7,
        asset: pack_str("USDT"),
        balance_atoms: 1_050_000_000,
        frozen_atoms: 50_000_000,
        legacy_balance_atoms: Some(1_050_000_000),
        legacy_frozen_atoms: Some(50_000_000),
    };
    let mut store = Store::default();
    match apply_account_set(&set) {
        Ok(commands) => store.run(&commands),
        Err(_) => panic!("readable amounts are applied"),
    }
    assert!(store.has("user_assets:7", "USDT"));
    let fields = store.fields("acct:7:USDT");
    assert_eq!(
        list_user_accounts(&vec!["USDT".to_string()], &vec![fields]),
        vec![("USDT".to_string(), 1_050_000_000, 50_000_000)]
    );
}

#[test]
fn frames_are_planned_by_their_kind() {
    let frame = |body| PersistFrame::of(body);
    assert!(matches!(
        apply_frame(&frame(PersistBody::OrderUpsert(upsert(1)))),
        FramePlan::Run(_)
    ));
    assert!(matches!(
        apply_frame(&frame(PersistBody::OrderDelete(OrderDeletePayload { id: 9 }))),
        FramePlan::RemoveOrder(9)
    ));
    let fill = OrderFillUpdatePayload { id: 3, filled_atoms: Some(1), status: 2 };
    assert!(matches!(
        apply_frame(&frame(PersistBody::OrderFillUpdate(fill))),
        FramePlan::UpdateFill(_)
    ));
    assert!(matches!(apply_frame(&frame(PersistBody::Unknown(99))), FramePlan::Nothing));
}

fn row(id: i64, client_order_id: Option<&str>) -> DbOrder {
    DbOrder {
        id,
        user_id: 7,
        symbol: "ETH_USDT".to_string(),
        side: "sell".to_string(),
        order_type: "limit".to_string(),
        price_atoms: Some(300_000_000_000),
        quantity_atoms: 100_000_000,
        filled_atoms: 40_000_000,
        status: "TRADING".to_string(),
        freeze_price_atoms: 0,
        client_order_id: client_order_id.map(|c| c.to_string()),
        created_at_ms: 1_700_000_000_000,
        updated_at_ms: 1_700_000_000_500,
    }
}

#[test]
fn hydration_restores_orders_and_accounts() {
    let accounts = vec![(7, "ETH".to_string(), 500_000_000, 60_000_000)];
    let (commands, stats) = hydrate_from_pg(&vec![row(5, Some("x")), row(6, None)], &accounts);
    assert_eq!((stats.orders, stats.accounts, stats.user_coids), (2, 1, 1));
    let mut store = Store::default();
    store.run(&commands);
    let back = decode_hash(5, &store.fields("order:5")).unwrap();
    assert_eq!(back.filled_atoms, 40_000_000);
    assert_eq!(back.status, "TRADING");
    assert_eq!(back.updated_at_ms, 1_700_000_000_500);
    assert_eq!(back.client_order_id.as_deref(), Some("x"));
    assert_eq!(find_amount(&store.fields("acct:7:ETH"), "balance"), Some(500_000_000));

    let listed = list_user_open_orders(
        &vec![5, 6],
        &vec![store.fields("order:5"), store.fields("order:6")],
        None,
        10,
    );
    assert_eq!(listed.len(), 2);
    let other = list_user_open_orders(
        &vec![5],
        &vec![store.fields("order:5")],
        Some("BTC_USDT"),
        10,
    );
    assert!(other.is_empty());
}

#[test]
fn open_orders_come_newest_first_up_to_the_limit() {
    let mut store = Store::default();
    for (id, at) in [(1, 100), (2, 300), (3, 200)] {
        let mut p = upsert(id);
        p.created_at_ms = at;
        store.run(&apply_order_upsert(&p));
    }
    let hashes = vec![store.fields("order:1"), store.fields("order:2"), store.fields("order:3")];
    let ids: Vec<i64> = list_user_open_orders(&vec![1, 2, 3], &hashes, Some("BTC_USDT"), 2)
        .iter()
        .map(|o| o.id)
        .collect();
    assert_eq!(ids, vec![2, 3]);
}

#[test]
fn closed_orders_are_not_listed_as_open() {
    let mut store = Store::default();
    for (id, status) in [(1, 0), (2, 1), (3, 2), (4, 3), (5, 4)] {
        let mut p = upsert(id);
        p.status = status;
        store.run(&apply_order_upsert(&p));
    }
    let hashes: Vec<_> = (1..=5).map(|id| store.fields(&format!("order:{id}"))).collect();
    let mut ids: Vec<i64> = list_user_open_orders(&vec![1, 2, 3, 4, 5], &hashes, None, 10)
        .iter()
        .map(|o| o.id)
        .collect();
    ids.sort();
    assert_eq!(ids, vec![1, 2]);
}

#[test]
fn amounts_with_exponents_and_long_fractions_are_read() {
    let h = pairs(&[
        ("user_id", "42"),
        ("symbol", "BTC_USDT"),
        ("side", "buy"),
        ("order_type", "limit"),
        ("status", "PENDING"),
        ("price", "7.30005e4"),
        ("qty", "0.30000000000000004"),
        ("filled", "1e-9"),
        ("freeze_price", "73000.5"),
        ("created_at_ms", "1700000000000"),
    ]);
    let o = decode_hash(7, &h).expect("decode");
    assert_eq!(o.price_atoms, Some(7_300_050_000_000));
    assert_eq!(o.quantity_atoms, 30_000_000);
    assert_eq!(o.filled_atoms, 0);
    assert_eq!(load_rate_buckets(&pairs(&[("7:0", "3.75:99")])), vec![(7, 0, 3, 99)]);
}

#[test]
fn orphans_strays_and_purges_leave_nothing() {
    let mut store = Store::default();
    store.run(&apply_order_upsert(&upsert(42)));
    store.run(&remove_orphans(&vec![42], &vec![Some("7".to_string())]));
    assert!(store.fields("order:42").is_empty());
    assert!(!store.has(KEY_ACTIVE_ORDERS, "42"));
    assert!(!store.has("user_orders:7", "42"));

    store.run(&apply_order_upsert(&upsert(43)));
    store.run(&remove_strays("user_orders:7", &vec![43]));
    assert!(!store.has("user_orders:7", "43"));

    store.run(&purge_all(&vec![43], &vec![Some(7)], &vec![(7, vec!["USDT".to_string()])]));
    assert!(store.fields("order:43").is_empty());
    assert!(!store.sets.contains_key(KEY_ACTIVE_ORDERS));
    assert_eq!(holder_of_key("user_assets:7"), Some(7));
    assert_eq!(holder_of_key("user_assets:x"), None);
}

#[test]
fn numbers_are_found_by_name() {
    let fields = pairs(&[("n", "-12"), ("bad", "twelve"), ("amount", "1.5")]);
    assert_eq!(find_number(&fields, "n"), Some(-12));
    assert_eq!(find_number(&fields, "bad"), None);
    assert_eq!(find_amount(&fields, "amount"), Some(150_000_000));
    assert_eq!(find_amount(&fields, "bad"), None);
}

#[test]
fn floors_and_buckets_read_back() {
    let stored = store_persist_floors(&vec![(1, 10), (65_535, 20)]);
    let floors = load_persist_floors(&stored);
    assert_eq!(floors.get(&1), Some(&10));
    assert_eq!(floors.get(&65_535), Some(&20));
    assert_eq!(floors.len(), 2);
    assert!(load_persist_floors(&vec![("70000".to_string(), 1)]).is_empty());

    let buckets: Vec<BucketState> = vec![(7, 0, 5_000, 99), (8, 2, -1, 100)];
    let fields = store_rate_buckets(&buckets);
    assert_eq!(fields[0], ("7:0".to_string(), "5000:99".to_string()));
    assert_eq!(load_rate_buckets(&fields), buckets);
    assert!(load_rate_buckets(&pairs(&[("junk", "1:2"), ("7:0", "broken")])).is_empty());
}

#[test]
fn accounts_that_the_database_lost_are_dropped() {
    assert_eq!(account_of_key(&key_account(7, "USDT")), Some((7, "USDT".to_string())));
    assert_eq!(account_of_key(&key_account(-3, "A:B")), Some((-3, "A:B".to_string())));
    assert_eq!(account_of_key("acct:x:USDT"), None);
    assert_eq!(account_of_key("acct:7"), None);
    assert_eq!(account_of_key("order:7:USDT"), None);

    let mut store = Store::default();
    for asset in ["USDT", "BTC"] {
        let p = AccountSetPayload {
            user_id: 7,
            asset: pack_str(asset),
            balance_atoms: 5,
            frozen_atoms: 1,
            legacy_balance_atoms: Some(0),
            legacy_frozen_atoms: Some(0),
        };
        store.run(&apply_account_set(&p).unwrap());
    }
    let cached = vec![(7, "USDT".to_string()), (7, "BTC".to_string())];
    let (commands, removed) = remove_lost_accounts(&cached, &vec![true, false]);
    assert_eq!(removed, 1);
    store.run(&commands);
    assert!(store.fields("acct:7:BTC").is_empty());
    assert!(!store.has("user_assets:7", "BTC"));
    assert!(!store.fields("acct:7:USDT").is_empty());
    assert!(store.has("user_assets:7", "USDT"));
}
