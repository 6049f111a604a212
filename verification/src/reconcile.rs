//! Folding feed messages into the store.
//!
//! A message is applied as one step, in this order: the components of its
//! snapshot, the new components of its delta, the deleted components, the
//! balance changes, the aggregate values. A message flagged as a revert
//! rewinds the chain: the store is emptied before the message is applied, so
//! that nothing of the abandoned blocks survives, and the summary asks for a
//! fresh full snapshot. No deltas are buffered and none is rolled back.

use crate::decode::{bytes_debug_to_wide, bytes_debut_to_addr, decoded_address, decoded_wide};
use crate::store::{BalanceRecord, BalanceView, Component, ComponentView, Store, StoreModel};
use vstd::prelude::*;

verus! {

/// A change of one token's balance in one component, as the feed sends it.
#[derive(Clone, Debug)]
pub struct BalanceUpdate {
    pub component: String,
    /// The wire text of the token's address.
    pub token: String,
    /// The wire text of the raw balance.
    pub balance: String,
    pub balance_float_bits: u64,
    pub modify_tx: String,
}

/// A change of one component's aggregate value.
#[derive(Clone, Debug)]
pub struct TvlUpdate {
    pub component: String,
    pub value_bits: u64,
}

/// The incremental part of a message.
#[derive(Clone, Debug)]
pub struct Delta {
    pub new_components: Vec<Component>,
    pub deleted_components: Vec<String>,
    pub balances: Vec<BalanceUpdate>,
    pub tvl: Vec<TvlUpdate>,
}

/// One message of the feed for one exchange.
#[derive(Clone, Debug)]
pub struct FeedMessage {
    pub block: u64,
    pub revert: bool,
    pub snapshot: Vec<Component>,
    pub delta: Option<Delta>,
    /// Components that the exchange no longer tracks.
    pub removed: Vec<String>,
}

/// What applying one message did.
#[derive(Clone, Copy, Debug, PartialEq, Eq, Structural)]
pub struct ReconcileSummary {
    pub block: u64,
    pub revert: bool,
    /// A fresh full snapshot of all tracked components is needed.
    pub resnapshot_requested: bool,
    pub snapshot_components: usize,
    pub new_components: usize,
    pub deleted_components: usize,
    /// Deletions of components that the store did not hold.
    pub unknown_deletions: usize,
    /// Balance changes that were stored.
    pub balance_updates: usize,
    /// Balance changes that were skipped because a wire value was malformed.
    pub decode_failures: usize,
    /// Balance changes that name a component that the store does not hold.
    pub unknown_balance_updates: usize,
    pub tvl_updates: usize,
    /// Aggregate values that name a component that the store does not hold.
    pub unknown_tvl_updates: usize,
    pub removed_components: usize,
}

/// A structural fault of a message. It is not fatal: the message was applied
/// in full, and the summary inside says what it did.
#[derive(Clone, Copy, Debug, PartialEq, Eq, Structural)]
pub enum ReconcileError {
    /// The delta deletes or changes a component that the store does not hold.
    UnknownComponent(ReconcileSummary),
}

impl ReconcileSummary {
    /// Whether the message named only components that the store holds.
    pub open spec fn is_clean(self) -> bool {
        self.unknown_deletions == 0 && self.unknown_balance_updates == 0
            && self.unknown_tvl_updates == 0
    }
}

/// The components after each of `cs` was stored under its id, in order.
pub open spec fn put_components(m: Map<Seq<char>, ComponentView>, cs: Seq<Component>) -> Map<
    Seq<char>,
    ComponentView,
>
    decreases cs.len(),
{
    if cs.len() == 0 {
        m
    } else {
        put_components(m, cs.drop_last()).insert(cs.last().id@, cs.last()@)
    }
}

/// The components after each id of `ids` was removed.
pub open spec fn drop_components(m: Map<Seq<char>, ComponentView>, ids: Seq<String>) -> Map<
    Seq<char>,
    ComponentView,
>
    decreases ids.len(),
{
    if ids.len() == 0 {
        m
    } else {
        drop_components(m, ids.drop_last()).remove(ids.last()@)
    }
}

/// How many of `ids` name a component that is absent when its turn comes.
pub open spec fn count_unknown_deletions(m: Map<Seq<char>, ComponentView>, ids: Seq<String>) -> nat
    decreases ids.len(),
{
    if ids.len() == 0 {
        0
    } else {
        count_unknown_deletions(m, ids.drop_last()) + if drop_components(
            m,
            ids.drop_last(),
        ).contains_key(ids.last()@) {
            0nat
        } else {
            1nat
        }
    }
}

/// The key and the record that a balance change stores, if both of its wire
/// values decode.
pub open spec fn balance_entry(u: BalanceUpdate) -> Option<((Seq<char>, Seq<char>), BalanceView)> {
    match (decoded_address(u.token@), decoded_wide(u.balance@)) {
        (Ok(token), Ok(amount)) => Some(
            (
                (u.component@, token),
                BalanceView {
                    balance: amount.value(),
                    balance_float_bits: u.balance_float_bits,
                    modify_tx: u.modify_tx@,
                },
            ),
        ),
        _ => None,
    }
}

/// The balances after each change of `us` that decodes was stored, in order.
/// A change that does not decode leaves the balances as they were.
pub open spec fn put_balances(
    m: Map<(Seq<char>, Seq<char>), BalanceView>,
    us: Seq<BalanceUpdate>,
) -> Map<(Seq<char>, Seq<char>), BalanceView>
    decreases us.len(),
{
    if us.len() == 0 {
        m
    } else {
        let before = put_balances(m, us.drop_last());
        match balance_entry(us.last()) {
            Some((key, record)) => before.insert(key, record),
            None => before,
        }
    }
}

/// How many changes of `us` do not decode.
pub open spec fn count_failed(us: Seq<BalanceUpdate>) -> nat
    decreases us.len(),
{
    if us.len() == 0 {
        0
    } else {
        count_failed(us.drop_last()) + if balance_entry(us.last()) is None {
            1nat
        } else {
            0nat
        }
    }
}

/// How many changes of `us` name a component that `m` does not hold.
pub open spec fn count_unknown_balances(m: Map<Seq<char>, ComponentView>, us: Seq<BalanceUpdate>) -> nat
    decreases us.len(),
{
    if us.len() == 0 {
        0
    } else {
        count_unknown_balances(m, us.drop_last()) + if m.contains_key(us.last().component@) {
            0nat
        } else {
            1nat
        }
    }
}

/// How many changes of `ts` name a component that `m` does not hold.
pub open spec fn count_unknown_tvl(m: Map<Seq<char>, ComponentView>, ts: Seq<TvlUpdate>) -> nat
    decreases ts.len(),
{
    if ts.len() == 0 {
        0
    } else {
        count_unknown_tvl(m, ts.drop_last()) + if m.contains_key(ts.last().component@) {
            0nat
        } else {
            1nat
        }
    }
}

/// The aggregate values after each change of `ts` was stored, in order.
pub open spec fn put_tvl(m: Map<Seq<char>, u64>, ts: Seq<TvlUpdate>) -> Map<Seq<char>, u64>
    decreases ts.len(),
{
    if ts.len() == 0 {
        m
    } else {
        put_tvl(m, ts.drop_last()).insert(ts.last().component@, ts.last().value_bits)
    }
}

/// The store that a message starts from: an empty one if it is a revert.
pub open spec fn starting_point(s: StoreModel, m: FeedMessage) -> StoreModel {
    if m.revert {
        StoreModel::empty()
    } else {
        s
    }
}

/// The store after a message was applied to `s`.
pub open spec fn applied(s: StoreModel, m: FeedMessage) -> StoreModel {
    let base = starting_point(s, m);
    let snapshotted = put_components(base.components, m.snapshot@);
    match m.delta {
        None => StoreModel { components: snapshotted, ..base },
        Some(d) => StoreModel {
            components: drop_components(
                put_components(snapshotted, d.new_components@),
                d.deleted_components@,
            ),
            balances: put_balances(base.balances, d.balances@),
            tvl: put_tvl(base.tvl, d.tvl@),
        },
    }
}

/// The summary of applying a message to `s`.
pub open spec fn summary_of(s: StoreModel, m: FeedMessage) -> ReconcileSummary {
    let base = starting_point(s, m);
    let snapshotted = put_components(base.components, m.snapshot@);
    match m.delta {
        None => ReconcileSummary {
            block: m.block,
            revert: m.revert,
            resnapshot_requested: m.revert,
            snapshot_components: m.snapshot@.len() as usize,
            new_components: 0,
            deleted_components: 0,
            unknown_deletions: 0,
            balance_updates: 0,
            decode_failures: 0,
            unknown_balance_updates: 0,
            tvl_updates: 0,
            unknown_tvl_updates: 0,
            removed_components: m.removed@.len() as usize,
        },
        Some(d) => ReconcileSummary {
            block: m.block,
            revert: m.revert,
            resnapshot_requested: m.revert,
            snapshot_components: m.snapshot@.len() as usize,
            new_components: d.new_components@.len() as usize,
            deleted_components: d.deleted_components@.len() as usize,
            unknown_deletions: count_unknown_deletions(
                put_components(snapshotted, d.new_components@),
                d.deleted_components@,
            ) as usize,
            balance_updates: (d.balances@.len() - count_failed(d.balances@)) as usize,
            decode_failures: count_failed(d.balances@) as usize,
            unknown_balance_updates: count_unknown_balances(
                applied(s, m).components,
                d.balances@,
            ) as usize,
            tvl_updates: d.tvl@.len() as usize,
            unknown_tvl_updates: count_unknown_tvl(applied(s, m).components, d.tvl@) as usize,
            removed_components: m.removed@.len() as usize,
        },
    }
}

/// What applying a message to `s` returns: the summary, as an error if the
/// message named a component that the store does not hold.
pub open spec fn outcome_of(s: StoreModel, m: FeedMessage) -> Result<ReconcileSummary, ReconcileError> {
    if summary_of(s, m).is_clean() {
        Ok(summary_of(s, m))
    } else {
        Err(ReconcileError::UnknownComponent(summary_of(s, m)))
    }
}

fn store_components(store: &mut Store, cs: &Vec<Component>)
    ensures
        final(store)@ == (StoreModel {
            components: put_components(old(store)@.components, cs@),
            ..old(store)@
        }),
{
    let mut i: usize = 0;
    while i < cs.len()
        invariant
            i <= cs@.len(),
            store@ == (StoreModel {
                components: put_components(old(store)@.components, cs@.subrange(0, i as int)),
                ..old(store)@
            }),
        decreases cs@.len() - i,
    {
        assert(cs@.subrange(0, i + 1).drop_last() =~= cs@.subrange(0, i as int));
        store.put_component(cs[i].clone());
        i += 1;
    }
    assert(cs@.subrange(0, cs@.len() as int) =~= cs@);
}

fn delete_components(store: &mut Store, ids: &Vec<String>) -> (unknown: usize)
    ensures
        final(store)@ == (StoreModel {
            components: drop_components(old(store)@.components, ids@),
            ..old(store)@
        }),
        unknown == count_unknown_deletions(old(store)@.components, ids@),
{
    let mut unknown: usize = 0;
    let mut i: usize = 0;
    while i < ids.len()
        invariant
            i <= ids@.len(),
            unknown <= i,
            unknown == count_unknown_deletions(old(store)@.components, ids@.subrange(0, i as int)),
            store@ == (StoreModel {
                components: drop_components(old(store)@.components, ids@.subrange(0, i as int)),
                ..old(store)@
            }),
        decreases ids@.len() - i,
    {
        assert(ids@.subrange(0, i + 1).drop_last() =~= ids@.subrange(0, i as int));
        let removed = store.remove_component(&ids[i]);
        if !removed {
            unknown += 1;
        }
        i += 1;
    }
    assert(ids@.subrange(0, ids@.len() as int) =~= ids@);
    unknown
}

fn store_balances(store: &mut Store, us: &Vec<BalanceUpdate>) -> (counts: (usize, usize))
    ensures
        final(store)@ == (StoreModel {
            balances: put_balances(old(store)@.balances, us@),
            ..old(store)@
        }),
        counts.0 == count_failed(us@),
        counts.0 <= us@.len(),
        counts.1 == count_unknown_balances(old(store)@.components, us@),
{
    let mut failed: usize = 0;
    let mut unknown: usize = 0;
    let mut i: usize = 0;
    while i < us.len()
        invariant
            i <= us@.len(),
            failed <= i,
            failed == count_failed(us@.subrange(0, i as int)),
            unknown <= i,
            unknown == count_unknown_balances(old(store)@.components, us@.subrange(0, i as int)),
            store@ == (StoreModel {
                balances: put_balances(old(store)@.balances, us@.subrange(0, i as int)),
                ..old(store)@
            }),
        decreases us@.len() - i,
    {
        assert(us@.subrange(0, i + 1).drop_last() =~= us@.subrange(0, i as int));
        let u = &us[i];
        if store.component(&u.component).is_none() {
            unknown += 1;
        }
        let token = bytes_debut_to_addr(u.token.as_str());
        let amount = bytes_debug_to_wide(u.balance.as_str());
        match (token, amount) {
            (Ok(address), Ok(balance)) => {
                let record = BalanceRecord {
                    balance,
                    balance_float_bits: u.balance_float_bits,
                    modify_tx: u.modify_tx.clone(),
                };
                store.set_balance(u.component.clone(), address, record);
            },
            _ => {
                failed += 1;
            },
        }
        i += 1;
    }
    assert(us@.subrange(0, us@.len() as int) =~= us@);
    (failed, unknown)
}

fn store_tvl(store: &mut Store, ts: &Vec<TvlUpdate>) -> (unknown: usize)
    ensures
        final(store)@ == (StoreModel { tvl: put_tvl(old(store)@.tvl, ts@), ..old(store)@ }),
        unknown == count_unknown_tvl(old(store)@.components, ts@),
{
    let mut unknown: usize = 0;
    let mut i: usize = 0;
    while i < ts.len()
        invariant
            i <= ts@.len(),
            unknown <= i,
            unknown == count_unknown_tvl(old(store)@.components, ts@.subrange(0, i as int)),
            store@ == (StoreModel {
                tvl: put_tvl(old(store)@.tvl, ts@.subrange(0, i as int)),
                ..old(store)@
            }),
        decreases ts@.len() - i,
    {
        assert(ts@.subrange(0, i + 1).drop_last() =~= ts@.subrange(0, i as int));
        if store.component(&ts[i].component).is_none() {
            unknown += 1;
        }
        store.set_tvl(ts[i].component.clone(), ts[i].value_bits);
        i += 1;
    }
    assert(ts@.subrange(0, ts@.len() as int) =~= ts@);
    unknown
}

/// The single writer of a store: it applies the feed's messages one by one,
/// in feed order.
pub struct StateReconciler {
    store: Store,
}

impl View for StateReconciler {
    type V = StoreModel;

    closed spec fn view(&self) -> StoreModel {
        self.store@
    }
}

impl StateReconciler {
    /// A reconciler over an empty store.
    pub fn new() -> (r: Self)
        ensures
            r@ == StoreModel::empty(),
    {
        StateReconciler { store: Store::new() }
    }

    /// The store as the messages applied so far have left it.
    pub fn store(&self) -> (r: &Store)
        ensures
            r@ == self@,
    {
        &self.store
    }

    /// Applies one message as a whole and reports what it did. A balance
    /// change whose wire values do not decode is skipped and counted; the
    /// rest of the message is applied all the same. A message that names a
    /// component that the store does not hold is applied in full as well, and
    /// its summary comes back inside the error.
    pub fn apply(&mut self, message: &FeedMessage) -> (r: Result<ReconcileSummary, ReconcileError>)
        ensures
            final(self)@ == applied(old(self)@, *message),
            r == outcome_of(old(self)@, *message),
    {
        if message.revert {
            self.store.clear();
        }
        store_components(&mut self.store, &message.snapshot);
        let mut summary = ReconcileSummary {
            block: message.block,
            revert: message.revert,
            resnapshot_requested: message.revert,
            snapshot_components: message.snapshot.len(),
            new_components: 0,
            deleted_components: 0,
            unknown_deletions: 0,
            balance_updates: 0,
            decode_failures: 0,
            unknown_balance_updates: 0,
            tvl_updates: 0,
            unknown_tvl_updates: 0,
            removed_components: message.removed.len(),
        };
        match &message.delta {
            Some(delta) => {
                store_components(&mut self.store, &delta.new_components);
                let unknown = delete_components(&mut self.store, &delta.deleted_components);
                let (failed, unknown_balances) = store_balances(&mut self.store, &delta.balances);
                let unknown_tvl = store_tvl(&mut self.store, &delta.tvl);
                summary.new_components = delta.new_components.len();
                summary.deleted_components = delta.deleted_components.len();
                summary.unknown_deletions = unknown;
                summary.balance_updates = delta.balances.len() - failed;
                summary.decode_failures = failed;
                summary.unknown_balance_updates = unknown_balances;
                summary.tvl_updates = delta.tvl.len();
                summary.unknown_tvl_updates = unknown_tvl;
            },
            None => {},
        }
        if summary.unknown_deletions == 0 && summary.unknown_balance_updates == 0
            && summary.unknown_tvl_updates == 0 {
            Ok(summary)
        } else {
            Err(ReconcileError::UnknownComponent(summary))
        }
    }
}

/// The last component of `cs` that is stored under the key `k`, if any.
pub open spec fn last_component(cs: Seq<Component>, k: Seq<char>) -> Option<ComponentView>
    decreases cs.len(),
{
    if cs.len() == 0 {
        None
    } else if cs.last().id@ == k {
        Some(cs.last()@)
    } else {
        last_component(cs.drop_last(), k)
    }
}

/// Whether `k` is the text of one of `ids`.
pub open spec fn is_listed(ids: Seq<String>, k: Seq<char>) -> bool
    decreases ids.len(),
{
    ids.len() > 0 && (ids.last()@ == k || is_listed(ids.drop_last(), k))
}

/// The record of the last change of `us` that decodes to the key `key`, if
/// any.
pub open spec fn last_balance(us: Seq<BalanceUpdate>, key: (Seq<char>, Seq<char>)) -> Option<
    BalanceView,
>
    decreases us.len(),
{
    if us.len() == 0 {
        None
    } else if balance_entry(us.last()) is Some && balance_entry(us.last()).unwrap().0 == key {
        Some(balance_entry(us.last()).unwrap().1)
    } else {
        last_balance(us.drop_last(), key)
    }
}

/// The value of the last change of `ts` for the component `k`, if any.
pub open spec fn last_tvl(ts: Seq<TvlUpdate>, k: Seq<char>) -> Option<u64>
    decreases ts.len(),
{
    if ts.len() == 0 {
        None
    } else if ts.last().component@ == k {
        Some(ts.last().value_bits)
    } else {
        last_tvl(ts.drop_last(), k)
    }
}

proof fn lemma_put_components_at(m: Map<Seq<char>, ComponentView>, cs: Seq<Component>, k: Seq<char>)
    ensures
        put_components(m, cs).contains_key(k) == (m.contains_key(k) || last_component(cs, k) is Some),
        put_components(m, cs)[k] == (match last_component(cs, k) {
            Some(c) => c,
            None => m[k],
        }),
    decreases cs.len(),
{
    if cs.len() > 0 {
        lemma_put_components_at(m, cs.drop_last(), k);
    }
}

proof fn lemma_drop_components_at(m: Map<Seq<char>, ComponentView>, ids: Seq<String>, k: Seq<char>)
    ensures
        drop_components(m, ids).contains_key(k) == (m.contains_key(k) && !is_listed(ids, k)),
        !is_listed(ids, k) ==> drop_components(m, ids)[k] == m[k],
    decreases ids.len(),
{
    if ids.len() > 0 {
        lemma_drop_components_at(m, ids.drop_last(), k);
    }
}

proof fn lemma_put_balances_at(
    m: Map<(Seq<char>, Seq<char>), BalanceView>,
    us: Seq<BalanceUpdate>,
    key: (Seq<char>, Seq<char>),
)
    ensures
        put_balances(m, us).contains_key(key) == (m.contains_key(key) || last_balance(us, key)
            is Some),
        put_balances(m, us)[key] == (match last_balance(us, key) {
            Some(r) => r,
            None => m[key],
        }),
    decreases us.len(),
{
    if us.len() > 0 {
        lemma_put_balances_at(m, us.drop_last(), key);
    }
}

proof fn lemma_put_tvl_at(m: Map<Seq<char>, u64>, ts: Seq<TvlUpdate>, k: Seq<char>)
    ensures
        put_tvl(m, ts).contains_key(k) == (m.contains_key(k) || last_tvl(ts, k) is Some),
        put_tvl(m, ts)[k] == (match last_tvl(ts, k) {
            Some(v) => v,
            None => m[k],
        }),
    decreases ts.len(),
{
    if ts.len() > 0 {
        lemma_put_tvl_at(m, ts.drop_last(), k);
    }
}

proof fn lemma_listed_at(ids: Seq<String>, i: int)
    requires
        0 <= i < ids.len(),
    ensures
        is_listed(ids, ids[i]@),
    decreases ids.len(),
{
    if i < ids.len() - 1 {
        lemma_listed_at(ids.drop_last(), i);
    }
}

/// Applying a message is idempotent: a second application of the same
/// message, a snapshot in particular, leaves the store as the first left it.
pub proof fn lemma_apply_idempotent(s: StoreModel, m: FeedMessage)
    ensures
        applied(applied(s, m), m) == applied(s, m),
{
    let once = applied(s, m);
    let twice = applied(once, m);
    if !m.revert {
        let first = put_components(s.components, m.snapshot@);
        let second = put_components(once.components, m.snapshot@);
        match m.delta {
            None => {
                assert forall|k: Seq<char>|
                    #![trigger twice.components.contains_key(k)]
                    #![trigger once.components.contains_key(k)]
                    twice.components.contains_key(k) == once.components.contains_key(k) && (
                    twice.components.contains_key(k) ==> twice.components[k]
                        == once.components[k]) by {
                    lemma_put_components_at(s.components, m.snapshot@, k);
                    lemma_put_components_at(once.components, m.snapshot@, k);
                }
                assert(twice.components =~= once.components);
            },
            Some(d) => {
                assert forall|k: Seq<char>|
                    #![trigger twice.components.contains_key(k)]
                    #![trigger once.components.contains_key(k)]
                    twice.components.contains_key(k) == once.components.contains_key(k) && (
                    twice.components.contains_key(k) ==> twice.components[k]
                        == once.components[k]) by {
                    lemma_put_components_at(s.components, m.snapshot@, k);
                    lemma_put_components_at(first, d.new_components@, k);
                    lemma_drop_components_at(
                        put_components(first, d.new_components@),
                        d.deleted_components@,
                        k,
                    );
                    lemma_put_components_at(once.components, m.snapshot@, k);
                    lemma_put_components_at(second, d.new_components@, k);
                    lemma_drop_components_at(
                        put_components(second, d.new_components@),
                        d.deleted_components@,
                        k,
                    );
                }
                assert(twice.components =~= once.components);
                assert forall|key: (Seq<char>, Seq<char>)|
                    #![trigger twice.balances.contains_key(key)]
                    #![trigger once.balances.contains_key(key)]
                    twice.balances.contains_key(key) == once.balances.contains_key(key) && (
                    twice.balances.contains_key(key) ==> twice.balances[key]
                        == once.balances[key]) by {
                    lemma_put_balances_at(s.balances, d.balances@, key);
                    lemma_put_balances_at(once.balances, d.balances@, key);
                }
                assert(twice.balances =~= once.balances);
                assert forall|k: Seq<char>|
                    #![trigger twice.tvl.contains_key(k)]
                    #![trigger once.tvl.contains_key(k)]
                    twice.tvl.contains_key(k) == once.tvl.contains_key(k) && (
                    twice.tvl.contains_key(k) ==> twice.tvl[k] == once.tvl[k]) by {
                    lemma_put_tvl_at(s.tvl, d.tvl@, k);
                    lemma_put_tvl_at(once.tvl, d.tvl@, k);
                }
                assert(twice.tvl =~= once.tvl);
            },
        }
    }
}

/// A deleted component is gone from the components, while every balance and
/// aggregate value that the store held for it can still be looked up, and is
/// unchanged unless the same message changes it.
pub proof fn lemma_delete_does_not_cascade(s: StoreModel, m: FeedMessage, i: int, token: Seq<char>)
    requires
        !m.revert,
        m.delta is Some,
        0 <= i < m.delta.unwrap().deleted_components@.len(),
    ensures
        ({
            let d = m.delta.unwrap();
            let id = d.deleted_components@[i]@;
            let after = applied(s, m);
            &&& !after.components.contains_key(id)
            &&& s.balances.contains_key((id, token)) ==> after.balances.contains_key((id, token))
            &&& s.balances.contains_key((id, token)) && last_balance(d.balances@, (id, token))
                is None ==> after.balances[(id, token)] == s.balances[(id, token)]
            &&& s.tvl.contains_key(id) ==> after.tvl.contains_key(id)
            &&& s.tvl.contains_key(id) && last_tvl(d.tvl@, id) is None ==> after.tvl[id]
                == s.tvl[id]
        }),
{
    let d = m.delta.unwrap();
    let id = d.deleted_components@[i]@;
    lemma_listed_at(d.deleted_components@, i);
    lemma_drop_components_at(
        put_components(put_components(s.components, m.snapshot@), d.new_components@),
        d.deleted_components@,
        id,
    );
    lemma_put_balances_at(s.balances, d.balances@, (id, token));
    lemma_put_tvl_at(s.tvl, d.tvl@, id);
}

/// The last write wins, whole: after a message, the balance under a key that
/// one of its changes decodes to is the record of the last such change,
/// whatever the store held there before.
pub proof fn lemma_last_balance_wins(s: StoreModel, m: FeedMessage, key: (Seq<char>, Seq<char>))
    requires
        m.delta is Some,
        last_balance(m.delta.unwrap().balances@, key) is Some,
    ensures
        applied(s, m).balances.contains_key(key),
        applied(s, m).balances[key] == last_balance(m.delta.unwrap().balances@, key).unwrap(),
{
    lemma_put_balances_at(starting_point(s, m).balances, m.delta.unwrap().balances@, key);
}

/// One balance change that decodes does one thing: the record under its key
/// becomes the new record, in every field, and no other key appears or
/// changes. Two wire texts that decode to the same address name the same key.
pub proof fn lemma_single_balance_replaces(s: StoreModel, m: FeedMessage)
    requires
        !m.revert,
        m.delta is Some,
        m.delta.unwrap().balances@.len() == 1,
        balance_entry(m.delta.unwrap().balances@[0]) is Some,
    ensures
        ({
            let entry = balance_entry(m.delta.unwrap().balances@[0]).unwrap();
            applied(s, m).balances == s.balances.insert(entry.0, entry.1)
        }),
{
    let us = m.delta.unwrap().balances@;
    assert(us.drop_last().len() == 0);
    assert(put_balances(s.balances, us.drop_last()) == s.balances);
    assert(us.last() == us[0]);
}

/// A balance that no change of the message decodes to is left as it was.
pub proof fn lemma_untouched_balance_stays(
    s: StoreModel,
    m: FeedMessage,
    key: (Seq<char>, Seq<char>),
)
    requires
        !m.revert,
        m.delta is Some ==> last_balance(m.delta.unwrap().balances@, key) is None,
    ensures
        applied(s, m).balances.contains_key(key) == s.balances.contains_key(key),
        applied(s, m).balances[key] == s.balances[key],
{
    if m.delta is Some {
        lemma_put_balances_at(s.balances, m.delta.unwrap().balances@, key);
    }
}

/// A component that a snapshot holds replaces the stored one as a whole:
/// after a message without a delta, the component under a key of the snapshot
/// is the last one that the snapshot holds for it.
pub proof fn lemma_snapshot_overwrites(s: StoreModel, m: FeedMessage, k: Seq<char>)
    requires
        m.delta is None,
        last_component(m.snapshot@, k) is Some,
    ensures
        applied(s, m).components.contains_key(k),
        applied(s, m).components[k] == last_component(m.snapshot@, k).unwrap(),
{
    lemma_put_components_at(starting_point(s, m).components, m.snapshot@, k);
}

/// A revert discards what the store held: the result depends on the message
/// alone, and the summary asks for a fresh snapshot.
pub proof fn lemma_revert_discards(s: StoreModel, t: StoreModel, m: FeedMessage)
    requires
        m.revert,
    ensures
        applied(s, m) == applied(t, m),
        applied(s, m) == applied(StoreModel::empty(), m),
        summary_of(s, m).resnapshot_requested,
{
}

} // verus!
