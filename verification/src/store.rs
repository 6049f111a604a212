//! The materialized view: pool components, token balances and aggregate
//! values, each found by the text of its key.
//!
//! Removing a component leaves its balances and its aggregate value where
//! they are: readers must expect such orphans.

use crate::table::Table;
use crate::wide::Wide;
use vstd::hash_map::StringHashMap;
use vstd::prelude::*;

verus! {

/// A pool component as the feed describes it.
#[derive(Debug)]
pub struct Component {
    pub id: String,
    pub protocol_system: String,
    /// The static attributes: each name once, with its raw value.
    pub static_attributes: Table<Vec<u8>>,
}

/// What a component holds, as plain mathematical values.
pub struct ComponentView {
    pub id: Seq<char>,
    pub protocol_system: Seq<char>,
    pub static_attributes: Map<Seq<char>, Seq<u8>>,
}

impl View for Component {
    type V = ComponentView;

    open spec fn view(&self) -> ComponentView {
        ComponentView {
            id: self.id@,
            protocol_system: self.protocol_system@,
            static_attributes: self.static_attributes@,
        }
    }
}

impl Clone for Component {
    /// A copy with the same contents.
    fn clone(&self) -> (r: Self)
        ensures
            r@ == self@,
    {
        Component {
            id: self.id.clone(),
            protocol_system: self.protocol_system.clone(),
            static_attributes: self.static_attributes.duplicate(),
        }
    }
}

/// The balance of one token in one component. It is replaced as a whole.
#[derive(Clone, Debug, PartialEq, Eq)]
pub struct BalanceRecord {
    /// The raw balance, of up to 256 bits.
    pub balance: Wide,
    /// The bit pattern of the approximate balance that is shown to readers.
    pub balance_float_bits: u64,
    /// The transaction that last changed the balance.
    pub modify_tx: String,
}

/// What a balance record holds, as plain mathematical values.
pub struct BalanceView {
    pub balance: nat,
    pub balance_float_bits: u64,
    pub modify_tx: Seq<char>,
}

impl View for BalanceRecord {
    type V = BalanceView;

    open spec fn view(&self) -> BalanceView {
        BalanceView {
            balance: self.balance.value(),
            balance_float_bits: self.balance_float_bits,
            modify_tx: self.modify_tx@,
        }
    }
}

/// The three maps of the store.
pub struct StoreModel {
    /// Component id to component.
    pub components: Map<Seq<char>, ComponentView>,
    /// Component id and token address to balance record.
    pub balances: Map<(Seq<char>, Seq<char>), BalanceView>,
    /// Component id to the bit pattern of its aggregate value.
    pub tvl: Map<Seq<char>, u64>,
}

impl StoreModel {
    /// The store that holds nothing.
    pub open spec fn empty() -> StoreModel {
        StoreModel { components: Map::empty(), balances: Map::empty(), tvl: Map::empty() }
    }
}

/// The view of pool state that the feed's messages are folded into.
///
/// The components and the aggregate values lie in hash maps of std. The
/// balances lie in tables, one inside the other, since a component's tokens
/// are listed and its table is taken out to be changed.
pub struct Store {
    components: StringHashMap<Component>,
    balances: Table<Table<BalanceRecord>>,
    tvl: StringHashMap<u64>,
}

/// The balances of all components as one map over pairs of keys.
spec fn flattened(nested: Map<Seq<char>, Map<Seq<char>, BalanceView>>) -> Map<
    (Seq<char>, Seq<char>),
    BalanceView,
> {
    Map::new(
        |p: (Seq<char>, Seq<char>)| nested.contains_key(p.0) && nested[p.0].contains_key(p.1),
        |p: (Seq<char>, Seq<char>)| nested[p.0][p.1],
    )
}

impl View for Store {
    type V = StoreModel;

    closed spec fn view(&self) -> StoreModel {
        StoreModel {
            components: self.components@.map_values(|c: Component| c@),
            balances: flattened(self.balances@),
            tvl: self.tvl@,
        }
    }
}

impl Store {
    /// A store that holds nothing.
    pub fn new() -> (r: Self)
        ensures
            r@ == StoreModel::empty(),
    {
        let r = Store {
            components: StringHashMap::new(),
            balances: Table::new(),
            tvl: StringHashMap::new(),
        };
        assert(r@.balances =~= Map::<(Seq<char>, Seq<char>), BalanceView>::empty());
        assert(r@.components =~= Map::<Seq<char>, ComponentView>::empty());
        r
    }

    /// Empties the store.
    pub fn clear(&mut self)
        ensures
            final(self)@ == StoreModel::empty(),
    {
        *self = Store::new();
    }

    /// The number of components.
    pub fn component_count(&self) -> (r: usize)
        ensures
            r == self@.components.len(),
    {
        assert(self@.components.dom() =~= self.components@.dom());
        self.components.len()
    }

    /// The component stored under an id, if there is one.
    pub fn component(&self, id: &String) -> (r: Option<&Component>)
        ensures
            match r {
                Some(c) => self@.components.contains_key(id@) && c@ == self@.components[id@],
                None => !self@.components.contains_key(id@),
            },
    {
        self.components.get(id.as_str())
    }

    /// The balance stored for a token of a component, if there is one. It is
    /// there or not whether or not the component itself is.
    pub fn balance(&self, id: &String, token: &String) -> (r: Option<&BalanceRecord>)
        ensures
            match r {
                Some(b) => self@.balances.contains_key((id@, token@)) && b@ == self@.balances[(
                    id@,
                    token@,
                )],
                None => !self@.balances.contains_key((id@, token@)),
            },
    {
        match self.balances.get(id) {
            Some(tokens) => tokens.get(token),
            None => None,
        }
    }

    /// The tokens for which the store holds a balance of the component, each
    /// once.
    pub fn tokens(&self, id: &String) -> (r: Vec<String>)
        ensures
            forall|i: int| 0 <= i < r@.len() ==> self@.balances.contains_key((id@, (#[trigger] r@[i])@)),
            forall|t: Seq<char>|
                #[trigger] self@.balances.contains_key((id@, t)) ==> exists|i: int|
                    0 <= i < r@.len() && (#[trigger] r@[i])@ == t,
            forall|i: int, j: int|
                0 <= i < j < r@.len() ==> (#[trigger] r@[i])@ != (#[trigger] r@[j])@,
    {
        match self.balances.get(id) {
            Some(tokens) => tokens.keys(),
            None => Vec::new(),
        }
    }

    /// The bit pattern of the aggregate value stored for a component, if
    /// there is one.
    pub fn tvl(&self, id: &String) -> (r: Option<u64>)
        ensures
            match r {
                Some(v) => self@.tvl.contains_key(id@) && v == self@.tvl[id@],
                None => !self@.tvl.contains_key(id@),
            },
    {
        match self.tvl.get(id.as_str()) {
            Some(v) => Some(*v),
            None => None,
        }
    }

    /// Stores a component under its own id, in place of any component that
    /// was there: nothing of the earlier one is kept.
    pub fn put_component(&mut self, component: Component)
        ensures
            final(self)@ == (StoreModel {
                components: old(self)@.components.insert(component.id@, component@),
                ..old(self)@
            }),
    {
        let ghost before = self.components@;
        let id = component.id.clone();
        self.components.insert(id, component);
        assert(self.components@.map_values(|c: Component| c@) =~= before.map_values(
            |c: Component| c@,
        ).insert(component.id@, component@));
    }

    /// Removes a component. Its balances and its aggregate value stay.
    pub fn remove_component(&mut self, id: &String) -> (removed: bool)
        ensures
            removed == old(self)@.components.contains_key(id@),
            final(self)@ == (StoreModel {
                components: old(self)@.components.remove(id@),
                ..old(self)@
            }),
    {
        let ghost before = self.components@;
        let removed = self.components.contains_key(id.as_str());
        self.components.remove(id.as_str());
        assert(self.components@.map_values(|c: Component| c@) =~= before.map_values(
            |c: Component| c@,
        ).remove(id@));
        removed
    }

    /// Stores the balance of a token of a component, in place of any record
    /// that was there. Other tokens and other components are left alone.
    pub fn set_balance(&mut self, id: String, token: String, record: BalanceRecord)
        ensures
            final(self)@ == (StoreModel {
                balances: old(self)@.balances.insert((id@, token@), record@),
                ..old(self)@
            }),
    {
        let ghost before = self.balances@;
        let mut tokens: Table<BalanceRecord> = match self.balances.remove(&id) {
            Some(t) => t,
            None => Table::new(),
        };
        tokens.insert(token, record);
        self.balances.insert(id, tokens);
        assert(flattened(self.balances@) =~= flattened(before).insert((id@, token@), record@));
    }

    /// Stores the aggregate value of a component, in place of any that was
    /// there.
    pub fn set_tvl(&mut self, id: String, value_bits: u64)
        ensures
            final(self)@ == (StoreModel {
                tvl: old(self)@.tvl.insert(id@, value_bits),
                ..old(self)@
            }),
    {
        self.tvl.insert(id, value_bits);
    }
}

} // verus!
