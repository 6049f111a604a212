use pool_quoter::pool::quote_swap;
use pool_quoter::quote::{uniswap_v2_amount_out, QuoteError};
use pool_quoter::reconcile::{
    BalanceUpdate, Delta, FeedMessage, ReconcileError, ReconcileSummary, StateReconciler, TvlUpdate,
};
use pool_quoter::store::{BalanceRecord, Component, Store};
use pool_quoter::table::Table;
use pool_quoter::wide::Wide;

const POOL: &str = "0xb4e16d0168e52d35cacd2c6185b44281ec28c9dc";
const USDC: &str = "0xa0b86991c6218b36c1d19d4a2e9eb0ce3606eb48";
const WETH: &str = "0xc02aaa39b223fe8d0a0e5c4f27ead9083c756cc2";

fn text(s: &str) -> String {
    s.to_string()
}

fn pool(id: &str, attributes: &[(&str, &[u8])]) -> Component {
    let mut static_attributes = Table::new();
    for (name, value) in attributes {
        static_attributes.insert(text(name), value.to_vec());
    }
    Component { id: text(id), protocol_system: text("uniswap_v2"), static_attributes }
}

fn empty_delta() -> Delta {
    Delta {
        new_components: Vec::new(),
        deleted_components: Vec::new(),
        balances: Vec::new(),
        tvl: Vec::new(),
    }
}

fn snapshot(block: u64, components: Vec<Component>) -> FeedMessage {
    FeedMessage { block, revert: false, snapshot: components, delta: None, removed: Vec::new() }
}

fn forward(block: u64, delta: Delta) -> FeedMessage {
    FeedMessage { block, revert: false, snapshot: Vec::new(), delta: Some(delta), removed: Vec::new() }
}

fn update(component: &str, token: &str, balance: &str, tx: &str) -> BalanceUpdate {
    BalanceUpdate {
        component: text(component),
        token: text(token),
        balance: text(balance),
        balance_float_bits: 0,
        modify_tx: text(tx),
    }
}

fn summary_of(outcome: Result<ReconcileSummary, ReconcileError>) -> ReconcileSummary {
    match outcome {
        Ok(summary) => summary,
        Err(ReconcileError::UnknownComponent(summary)) => summary,
    }
}

fn same_component(a: Option<&Component>, b: Option<&Component>) -> bool {
    match (a, b) {
        (None, None) => true,
        (Some(a), Some(b)) => {
            a.id == b.id
                && a.protocol_system == b.protocol_system
                && a.static_attributes.len() == b.static_attributes.len()
                && a.static_attributes
                    .keys()
                    .iter()
                    .all(|k| a.static_attributes.get(k) == b.static_attributes.get(k))
        }
        _ => false,
    }
}

fn holds(store: &Store, expected: &Component) -> bool {
    same_component(store.component(&expected.id), Some(expected))
}

fn amount(balance: u128, tx: &str) -> BalanceRecord {
    BalanceRecord { balance: Wide { hi: 0, lo: balance }, balance_float_bits: 0, modify_tx: text(tx) }
}

fn same_contents(a: &Store, b: &Store, ids: &[&str], tokens: &[&str]) -> bool {
    ids.iter().all(|id| {
        same_component(a.component(&text(id)), b.component(&text(id)))
            && a.tvl(&text(id)) == b.tvl(&text(id))
            && tokens.iter().all(|t| a.balance(&text(id), &text(t)) == b.balance(&text(id), &text(t)))
    })
}

#[test]
fn applying_a_snapshot_twice_changes_nothing() {
    let message = snapshot(
        1,
        vec![pool("a", &[("fee", &[30])]), pool("b", &[]), pool("a", &[("fee", &[5])])],
    );
    let mut once = StateReconciler::new();
    assert!(once.apply(&message).is_ok());
    let mut twice = StateReconciler::new();
    assert!(twice.apply(&message).is_ok());
    let summary = twice.apply(&message).unwrap();
    assert_eq!(summary.snapshot_components, 3);
    assert_eq!(twice.store().component_count(), 2);
    assert!(same_contents(once.store(), twice.store(), &["a", "b", "c"], &[USDC]));
    assert!(holds(twice.store(), &pool("a", &[("fee", &[5])])));
    assert!(holds(twice.store(), &pool("b", &[])));
}

#[test]
fn applying_a_delta_twice_changes_nothing() {
    let mut delta = empty_delta();
    delta.new_components.push(pool("n", &[]));
    delta.deleted_components.push(text("a"));
    delta.balances.push(update("a", "Bytes(0xAA)", "Bytes(0x01)", "0x01"));
    delta.balances.push(update("a", "Bytes(0xAA)", "Bytes(0x02)", "0x02"));
    delta.tvl.push(TvlUpdate { component: text("a"), value_bits: 5 });
    let mut message = forward(2, delta);
    message.snapshot.push(pool("a", &[]));
    let mut once = StateReconciler::new();
    let first = summary_of(once.apply(&message));
    let mut twice = StateReconciler::new();
    let _ = twice.apply(&message);
    let second = summary_of(twice.apply(&message));
    assert_eq!(first, second);
    assert_eq!(first.unknown_balance_updates, 2);
    assert_eq!(first.unknown_tvl_updates, 1);
    assert!(same_contents(once.store(), twice.store(), &["a", "n"], &["0xaa"]));
    assert!(twice.store().component(&text("a")).is_none());
    assert!(twice.store().component(&text("n")).is_some());
}

#[test]
fn deleted_component_leaves_balances_and_value_behind() {
    let mut reconciler = StateReconciler::new();
    assert!(reconciler.apply(&snapshot(1, vec![pool(POOL, &[])])).is_ok());
    let mut delta = empty_delta();
    delta.balances.push(update(POOL, "Bytes(0xAA)", "Bytes(0x10)", "0x01"));
    delta.tvl.push(TvlUpdate { component: text(POOL), value_bits: 1234 });
    assert!(reconciler.apply(&forward(2, delta)).is_ok());
    let mut delta = empty_delta();
    delta.deleted_components.push(text(POOL));
    delta.deleted_components.push(text("never-seen"));
    let outcome = reconciler.apply(&forward(3, delta));
    assert!(matches!(outcome, Err(ReconcileError::UnknownComponent(_))));
    let summary = summary_of(outcome);
    assert_eq!(summary.deleted_components, 2);
    assert_eq!(summary.unknown_deletions, 1);
    let store = reconciler.store();
    assert!(store.component(&text(POOL)).is_none());
    assert_eq!(
        store.balance(&text(POOL), &text("0xaa")),
        Some(&amount(16, "0x01"))
    );
    assert_eq!(store.tvl(&text(POOL)), Some(1234));
}

#[test]
fn balance_delta_replaces_the_prior_record() {
    let mut reconciler = StateReconciler::new();
    let mut delta = empty_delta();
    let mut first = update(POOL, "Bytes(0xAA)", "Bytes(0x10)", "0x01");
    first.balance_float_bits = 16f64.to_bits();
    delta.balances.push(first);
    delta.balances.push(update(POOL, "Bytes(0xBB)", "Bytes(0x20)", "0x01"));
    let mut message = forward(1, delta);
    message.snapshot.push(pool(POOL, &[]));
    assert!(reconciler.apply(&message).is_ok());
    let mut delta = empty_delta();
    delta.balances.push(update(POOL, "0xaa", "Bytes(0x03)", "0x02"));
    let summary = reconciler.apply(&forward(2, delta)).unwrap();
    assert_eq!(summary.balance_updates, 1);
    assert_eq!(summary.decode_failures, 0);
    let store = reconciler.store();
    assert_eq!(
        store.balance(&text(POOL), &text("0xaa")),
        Some(&amount(3, "0x02"))
    );
    assert_eq!(
        store.balance(&text(POOL), &text("0xbb")),
        Some(&amount(32, "0x01"))
    );
}

#[test]
fn second_snapshot_overwrites_static_attributes() {
    let mut reconciler = StateReconciler::new();
    let first = reconciler.apply(&snapshot(1, vec![pool(POOL, &[("fee", &[30]), ("order", &[0, 1])])]));
    let second = reconciler.apply(&snapshot(2, vec![pool(POOL, &[("tick", &[60])])]));
    assert!(first.is_ok() && second.is_ok());
    assert_eq!(reconciler.store().component_count(), 1);
    assert!(holds(reconciler.store(), &pool(POOL, &[("tick", &[60])])));
}

#[test]
fn revert_after_three_messages_asks_for_a_new_snapshot() {
    let mut reconciler = StateReconciler::new();
    let first = reconciler.apply(&snapshot(10, vec![pool(POOL, &[]), pool("other", &[])])).unwrap();
    let mut delta = empty_delta();
    delta.balances.push(update(POOL, "Bytes(0xAA)", "Bytes(0x10)", "0x01"));
    let second = reconciler.apply(&forward(11, delta)).unwrap();
    let mut delta = empty_delta();
    delta.tvl.push(TvlUpdate { component: text(POOL), value_bits: 77 });
    let third = reconciler.apply(&forward(12, delta)).unwrap();
    assert!(!first.resnapshot_requested && !second.resnapshot_requested);
    assert!(!third.resnapshot_requested);

    let mut delta = empty_delta();
    delta.balances.push(update(POOL, "Bytes(0xAA)", "Bytes(0x0f)", "0x09"));
    let mut rewind = forward(11, delta);
    rewind.revert = true;
    rewind.snapshot.push(pool(POOL, &[]));
    let summary = reconciler.apply(&rewind).unwrap();
    assert!(summary.revert);
    assert!(summary.resnapshot_requested);
    assert_eq!(summary.block, 11);
    let store = reconciler.store();
    assert!(store.component(&text(POOL)).is_some());
    assert!(store.component(&text("other")).is_none());
    assert_eq!(store.tvl(&text(POOL)), None);
    assert_eq!(
        store.balance(&text(POOL), &text("0xaa")),
        Some(&amount(15, "0x09"))
    );
}

#[test]
fn malformed_balance_is_skipped_and_counted() {
    let mut reconciler = StateReconciler::new();
    let mut delta = empty_delta();
    delta.balances.push(update(POOL, "Bytes(0xAA)", "Bytes(0x10)", "0x01"));
    let mut message = forward(1, delta);
    message.snapshot.push(pool(POOL, &[]));
    assert!(reconciler.apply(&message).is_ok());
    let mut delta = empty_delta();
    delta.balances.push(update(POOL, "Bytes(0xAA)", "not a number", "0x02"));
    delta.balances.push(update(POOL, "garbage", "Bytes(0x01)", "0x02"));
    delta.balances.push(update(POOL, "Bytes(0xBB)", "Bytes(0x22)", "0x02"));
    delta.tvl.push(TvlUpdate { component: text(POOL), value_bits: 3 });
    let summary = reconciler.apply(&forward(2, delta)).unwrap();
    assert_eq!(summary.decode_failures, 2);
    assert_eq!(summary.unknown_balance_updates, 0);
    assert_eq!(summary.balance_updates, 1);
    assert_eq!(summary.tvl_updates, 1);
    let store = reconciler.store();
    assert_eq!(
        store.balance(&text(POOL), &text("0xaa")),
        Some(&amount(16, "0x01"))
    );
    assert_eq!(
        store.balance(&text(POOL), &text("0xbb")),
        Some(&amount(34, "0x02"))
    );
    assert_eq!(store.tvl(&text(POOL)), Some(3));
}

#[test]
fn steps_of_one_message_run_in_order() {
    let mut reconciler = StateReconciler::new();
    let mut delta = empty_delta();
    delta.new_components.push(pool("a", &[("v", &[2])]));
    delta.new_components.push(pool("b", &[]));
    delta.deleted_components.push(text("b"));
    let mut message = forward(5, delta);
    message.snapshot.push(pool("a", &[("v", &[1])]));
    message.removed.push(text("gone"));
    let summary = reconciler.apply(&message).unwrap();
    assert_eq!(summary.block, 5);
    assert_eq!(summary.snapshot_components, 1);
    assert_eq!(summary.new_components, 2);
    assert_eq!(summary.deleted_components, 1);
    assert_eq!(summary.unknown_deletions, 0);
    assert_eq!(summary.removed_components, 1);
    assert!(holds(reconciler.store(), &pool("a", &[("v", &[2])])));
    assert!(reconciler.store().component(&text("b")).is_none());
}

#[test]
fn quote_from_reconciled_balances() {
    let mut reconciler = StateReconciler::new();
    let mut delta = empty_delta();
    delta.balances.push(update(POOL, "Bytes(0xA0b86991c6218b36c1d19D4a2e9Eb0cE3606eB48)", "Bytes(0x746a528800)", "0x01"));
    delta.balances.push(update(POOL, "Bytes(0xC02aaA39b223FE8D0A0e5C4F27eAD9083C756Cc2)", "Bytes(0x1043561a8829300000)", "0x01"));
    let outcome = reconciler.apply(&forward(1, delta));
    assert_eq!(summary_of(outcome).unknown_balance_updates, 2);
    assert!(outcome.is_err());
    let store = reconciler.store();
    let usdc = store.balance(&text(POOL), &text(USDC)).unwrap().balance.lo;
    let weth = store.balance(&text(POOL), &text(WETH)).unwrap().balance.lo;
    assert_eq!(usdc, 500_000_000_000);
    assert_eq!(weth, 300_000_000_000_000_000_000);
    assert_eq!(uniswap_v2_amount_out(1_000_000, usdc, weth, 30), Ok(598_198_807_191_578));
    assert!(store.balance(&text(POOL), &text("0xdead")).is_none());
    assert_eq!(
        quote_swap(store, &text(POOL), &text(USDC), &text(WETH), 1_000_000, 30),
        Some(Ok(598_198_807_191_578))
    );
    assert_eq!(
        quote_swap(store, &text(POOL), &text(USDC), &text(WETH), 1_000_000, 10_000),
        Some(Err(QuoteError::InvalidFee))
    );
    assert_eq!(quote_swap(store, &text(POOL), &text(USDC), &text("0xdead"), 1, 30), None);
    assert_eq!(quote_swap(store, &text(POOL), &text("0xdead"), &text(WETH), 1, 30), None);
    assert_eq!(quote_swap(store, &text("other"), &text(USDC), &text(WETH), 1, 30), None);
}

#[test]
fn updates_for_unknown_components_are_stored_and_reported() {
    let mut reconciler = StateReconciler::new();
    let mut delta = empty_delta();
    delta.balances.push(update("ghost", "Bytes(0xAA)", "Bytes(0x01)", "0x01"));
    delta.tvl.push(TvlUpdate { component: text("ghost"), value_bits: 9 });
    let outcome = reconciler.apply(&forward(4, delta));
    let expected = ReconcileSummary {
        block: 4,
        revert: false,
        resnapshot_requested: false,
        snapshot_components: 0,
        new_components: 0,
        deleted_components: 0,
        unknown_deletions: 0,
        balance_updates: 1,
        decode_failures: 0,
        unknown_balance_updates: 1,
        tvl_updates: 1,
        unknown_tvl_updates: 1,
        removed_components: 0,
    };
    assert_eq!(outcome, Err(ReconcileError::UnknownComponent(expected)));
    assert_eq!(reconciler.store().tvl(&text("ghost")), Some(9));
    assert!(reconciler.store().balance(&text("ghost"), &text("0xaa")).is_some());
    assert_eq!(reconciler.store().component_count(), 0);
}

#[test]
fn balance_beyond_128_bits_is_stored_and_quoted_as_overflow() {
    let mut reconciler = StateReconciler::new();
    let mut delta = empty_delta();
    delta.balances.push(update(POOL, "Bytes(0xAA)", "Bytes(0x0100000000000000000000000000000005)", "0x01"));
    delta.balances.push(update(POOL, "Bytes(0xBB)", "Bytes(0x64)", "0x01"));
    delta.balances.push(update(POOL, "Bytes(0xCC)", "Bytes(0x00)", "0x01"));
    delta.balances.push(update(POOL, "Bytes(0xDD)", "0x64", "0x01"));
    let mut message = forward(1, delta);
    message.snapshot.push(pool(POOL, &[]));
    let summary = reconciler.apply(&message).unwrap();
    assert_eq!(summary.balance_updates, 3);
    assert_eq!(summary.decode_failures, 1);
    let store = reconciler.store();
    assert_eq!(
        store.balance(&text(POOL), &text("0xaa")).map(|r| r.balance),
        Some(Wide { hi: 1, lo: 5 })
    );
    assert!(store.balance(&text(POOL), &text("0xdd")).is_none());
    let quote = |a: &str, b: &str, fee: u128| quote_swap(store, &text(POOL), &text(a), &text(b), 10, fee);
    assert_eq!(quote("0xaa", "0xbb", 30), Some(Err(QuoteError::Overflow)));
    assert_eq!(quote("0xbb", "0xaa", 30), Some(Err(QuoteError::Overflow)));
    assert_eq!(quote("0xaa", "0xbb", 10_000), Some(Err(QuoteError::InvalidFee)));
    assert_eq!(quote("0xcc", "0xaa", 30), Some(Err(QuoteError::DivisionByZero)));
    assert_eq!(quote("0xbb", "0xcc", 30), Some(Ok(0)));
    assert_eq!(quote("0xbb", "0xbb", 0), Some(Ok(9)));
}

#[test]
fn renderings_of_one_token_share_one_record() {
    let mut reconciler = StateReconciler::new();
    let mut delta = empty_delta();
    let mut first = update(POOL, "Bytes(0xAbCd)", "Bytes(0x10)", "0x01");
    first.balance_float_bits = 16f64.to_bits();
    delta.balances.push(first);
    let mut message = forward(1, delta);
    message.snapshot.push(pool(POOL, &[]));
    assert!(reconciler.apply(&message).is_ok());
    let mut delta = empty_delta();
    let mut second = update(POOL, "\u{a0} 0xaBcD\n", "\u{2003}Bytes(0x03)", "0x02");
    second.balance_float_bits = 3f64.to_bits();
    delta.balances.push(second);
    assert!(reconciler.apply(&forward(2, delta)).is_ok());
    let store = reconciler.store();
    assert_eq!(store.tokens(&text(POOL)), vec![text("0xabcd")]);
    assert_eq!(
        store.balance(&text(POOL), &text("0xabcd")),
        Some(&BalanceRecord {
            balance: Wide { hi: 0, lo: 3 },
            balance_float_bits: 3f64.to_bits(),
            modify_tx: text("0x02")
        })
    );
}
