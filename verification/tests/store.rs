use pool_quoter::store::{BalanceRecord, Component, Store};
use pool_quoter::table::Table;
use pool_quoter::wide::Wide;

fn text(s: &str) -> String {
    s.to_string()
}

fn component(id: &str, system: &str) -> Component {
    Component { id: text(id), protocol_system: text(system), static_attributes: Table::new() }
}

fn record(balance: u128, tx: &str) -> BalanceRecord {
    BalanceRecord { balance: Wide { hi: 0, lo: balance }, balance_float_bits: 0, modify_tx: text(tx) }
}

#[test]
fn table_insert_get_remove() {
    let mut t: Table<u64> = Table::new();
    assert_eq!(t.get(&text("a")), None);
    t.insert(text("a"), 1);
    t.insert(text("b"), 2);
    t.insert(text("a"), 3);
    assert_eq!(t.get(&text("a")), Some(&3));
    assert_eq!(t.get(&text("b")), Some(&2));
    assert!(t.contains(&text("b")));
    assert_eq!(t.len(), 2);
    assert_eq!(t.remove(&text("a")), Some(3));
    assert_eq!(t.remove(&text("a")), None);
    assert!(!t.contains(&text("a")));
    assert_eq!(t.len(), 1);
    assert_eq!(t.get(&text("b")), Some(&2));
}

#[test]
fn lookups_in_an_empty_store_find_nothing() {
    let store = Store::new();
    assert!(store.component(&text("pool")).is_none());
    assert!(store.balance(&text("pool"), &text("0xaa")).is_none());
    assert_eq!(store.tvl(&text("pool")), None);
}

#[test]
fn put_component_replaces_the_whole_component() {
    let mut store = Store::new();
    let mut first = component("pool", "uniswap_v2");
    first.static_attributes.insert(text("fee"), vec![30]);
    first.static_attributes.insert(text("order"), vec![1, 2]);
    store.put_component(first);
    let mut second = component("pool", "uniswap_v3");
    second.static_attributes.insert(text("tick"), vec![60]);
    store.put_component(second.clone());
    let held = store.component(&text("pool")).unwrap();
    assert_eq!(held.id, "pool");
    assert_eq!(held.protocol_system, "uniswap_v3");
    assert_eq!(held.static_attributes.len(), 1);
    assert_eq!(held.static_attributes.get(&text("tick")), Some(&vec![60u8]));
    assert_eq!(held.static_attributes.get(&text("fee")), None);
    assert_eq!(store.component_count(), 1);
}

#[test]
fn clone_of_a_component_is_equal() {
    let mut c = component("pool", "uniswap_v2");
    c.static_attributes.insert(text("fee"), vec![0, 30]);
    c.static_attributes.insert(text("order"), vec![]);
    c.static_attributes.insert(text("fee"), vec![1]);
    let d = c.clone();
    assert_eq!(d.id, c.id);
    assert_eq!(d.protocol_system, c.protocol_system);
    assert_eq!(d.static_attributes.len(), 2);
    assert_eq!(d.static_attributes.get(&text("fee")), Some(&vec![1u8]));
    assert_eq!(d.static_attributes.get(&text("order")), Some(&Vec::<u8>::new()));
    let mut names = d.static_attributes.keys();
    names.sort();
    assert_eq!(names, vec![text("fee"), text("order")]);
}

#[test]
fn removing_a_component_keeps_its_balances_and_value() {
    let mut store = Store::new();
    store.put_component(component("pool", "uniswap_v2"));
    store.set_balance(text("pool"), text("0xaa"), record(5, "0x01"));
    store.set_tvl(text("pool"), 99);
    assert!(store.remove_component(&text("pool")));
    assert!(!store.remove_component(&text("pool")));
    assert!(store.component(&text("pool")).is_none());
    assert_eq!(store.balance(&text("pool"), &text("0xaa")), Some(&record(5, "0x01")));
    assert_eq!(store.tvl(&text("pool")), Some(99));
}

#[test]
fn set_balance_replaces_one_token_only() {
    let mut store = Store::new();
    store.set_balance(text("pool"), text("0xaa"), record(5, "0x01"));
    store.set_balance(text("pool"), text("0xbb"), record(6, "0x02"));
    store.set_balance(text("other"), text("0xaa"), record(7, "0x03"));
    store.set_balance(text("pool"), text("0xaa"), record(8, "0x04"));
    assert_eq!(store.balance(&text("pool"), &text("0xaa")), Some(&record(8, "0x04")));
    assert_eq!(store.balance(&text("pool"), &text("0xbb")), Some(&record(6, "0x02")));
    assert_eq!(store.balance(&text("other"), &text("0xaa")), Some(&record(7, "0x03")));
    assert_eq!(store.balance(&text("pool"), &text("0xcc")), None);
    let mut tokens = store.tokens(&text("pool"));
    tokens.sort();
    assert_eq!(tokens, vec![text("0xaa"), text("0xbb")]);
    assert_eq!(store.tokens(&text("other")), vec![text("0xaa")]);
    assert!(store.tokens(&text("absent")).is_empty());
}

#[test]
fn clear_empties_the_store() {
    let mut store = Store::new();
    store.put_component(component("pool", "uniswap_v2"));
    store.set_balance(text("pool"), text("0xaa"), record(5, "0x01"));
    store.set_tvl(text("pool"), 42f64.to_bits());
    assert_eq!(store.tvl(&text("pool")).map(f64::from_bits), Some(42.0));
    store.clear();
    assert!(store.component(&text("pool")).is_none());
    assert!(store.balance(&text("pool"), &text("0xaa")).is_none());
    assert_eq!(store.tvl(&text("pool")), None);
}
