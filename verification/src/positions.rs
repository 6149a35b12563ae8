//! The positions of a portfolio: a quantity for each asset held.

use vstd::prelude::*;

verus! {

/// One holding: an asset and the quantity held of it, in millionths.
struct Position {
    asset: String,
    quantity: i64,
}

/// The positions of one request, each asset at most once, in the order in
/// which the assets were first inserted.
pub struct PositionSet {
    entries: Vec<Position>,
}

impl PositionSet {
    /// The asset ids, in insertion order.
    pub closed spec fn ids(&self) -> Seq<Seq<char>> {
        self.entries@.map_values(|p: Position| p.asset@)
    }

    /// The quantities, in the order of [`PositionSet::ids`].
    pub closed spec fn quantities(&self) -> Seq<i64> {
        self.entries@.map_values(|p: Position| p.quantity)
    }

    /// No asset occurs twice, and there is one quantity for each asset.
    pub open spec fn wf(&self) -> bool {
        &&& self.ids().len() == self.quantities().len()
        &&& forall|i: int, j: int|
            0 <= i < j < self.ids().len() ==> #[trigger] self.ids()[i] != #[trigger] self.ids()[j]
    }

    /// The positions as a map from asset id to quantity.
    pub open spec fn as_map(&self) -> Map<Seq<char>, i64> {
        Map::new(
            |a: Seq<char>| self.ids().contains(a),
            |a: Seq<char>| self.quantities()[self.ids().index_of(a)],
        )
    }

    /// No positions.
    pub fn new() -> (set: PositionSet)
        ensures
            set.wf(),
            set.ids() == Seq::<Seq<char>>::empty(),
            set.quantities() == Seq::<i64>::empty(),
    {
        let set = PositionSet { entries: Vec::new() };
        set
    }

    /// The number of positions.
    pub fn len(&self) -> (n: usize)
        ensures
            n == self.ids().len(),
            n == self.quantities().len(),
    {
        self.entries.len()
    }

    /// Sets the quantity held of `asset`: a new asset is added behind the
    /// others, a known one keeps its place and gets the new quantity.
    pub fn insert(&mut self, asset: &str, quantity: i64)
        requires
            old(self).wf(),
        ensures
            final(self).wf(),
            old(self).ids().contains(asset@) ==> final(self).ids() == old(self).ids()
                && final(self).quantities() == old(self).quantities().update(
                old(self).ids().index_of(asset@),
                quantity,
            ),
            !old(self).ids().contains(asset@) ==> final(self).ids() == old(self).ids().push(asset@)
                && final(self).quantities() == old(self).quantities().push(quantity),
            final(self).as_map() == old(self).as_map().insert(asset@, quantity),
    {
        let key: String = asset.to_owned();
        let mut i: usize = 0;
        while i < self.entries.len()
            invariant
                i <= self.entries.len(),
                key@ == asset@,
                *self == *old(self),
                self.wf(),
                forall|k: int| 0 <= k < i ==> (#[trigger] self.ids()[k]) != asset@,
            decreases self.entries.len() - i,
        {
            if self.entries[i].asset == key {
                self.entries[i].quantity = quantity;
                proof {
                    assert(self.ids() =~= old(self).ids());
                    assert(self.quantities() =~= old(self).quantities().update(i as int, quantity));
                    old(self).lemma_replaced(i as int, quantity, *self);
                }
                return ;
            }
            i += 1;
        }
        self.entries.push(Position { asset: key, quantity });
        proof {
            assert(self.ids() =~= old(self).ids().push(asset@));
            assert(self.quantities() =~= old(self).quantities().push(quantity));
            old(self).lemma_added(asset@, quantity, *self);
        }
    }

    /// In a well-formed set, an asset id is found at its own place.
    proof fn lemma_place(&self, i: int)
        requires
            self.wf(),
            0 <= i < self.ids().len(),
        ensures
            self.ids().contains(self.ids()[i]),
            self.ids().index_of(self.ids()[i]) == i,
            self.as_map().dom().contains(self.ids()[i]),
            self.as_map()[self.ids()[i]] == self.quantities()[i],
    {
    }

    /// Replacing the quantity at place `i` is an insertion into the map.
    proof fn lemma_replaced(&self, i: int, quantity: i64, after: PositionSet)
        requires
            self.wf(),
            after.wf(),
            0 <= i < self.ids().len(),
            after.ids() == self.ids(),
            after.quantities() == self.quantities().update(i, quantity),
        ensures
            after.as_map() == self.as_map().insert(self.ids()[i], quantity),
    {
        let target = self.as_map().insert(self.ids()[i], quantity);
        self.lemma_place(i);
        assert forall|a: Seq<char>| after.as_map().dom().contains(a) implies (
        #[trigger] after.as_map()[a]) == target[a] by {
            let k = after.ids().index_of(a);
            after.lemma_place(k);
            self.lemma_place(k);
        }
    }

    /// Adding a new asset behind the others is an insertion into the map.
    proof fn lemma_added(&self, asset: Seq<char>, quantity: i64, after: PositionSet)
        requires
            self.wf(),
            after.wf(),
            !self.ids().contains(asset),
            after.ids() == self.ids().push(asset),
            after.quantities() == self.quantities().push(quantity),
        ensures
            after.as_map() == self.as_map().insert(asset, quantity),
    {
        let target = self.as_map().insert(asset, quantity);
        let n = self.ids().len() as int;
        after.lemma_place(n);
        assert forall|a: Seq<char>|
            after.as_map().dom().contains(a) == target.dom().contains(a) by {
            if self.ids().contains(a) {
                let k = self.ids().index_of(a);
                assert(after.ids()[k] == a);
            }
        }
        assert forall|a: Seq<char>| after.as_map().dom().contains(a) implies (
        #[trigger] after.as_map()[a]) == target[a] by {
            let k = after.ids().index_of(a);
            after.lemma_place(k);
            if k < n {
                self.lemma_place(k);
            }
        }
    }

    /// The names of the assets, in insertion order.
    pub fn asset_names(&self) -> (names: Vec<String>)
        ensures
            crate::return_store::asset_ids(names@) == self.ids(),
    {
        let mut names: Vec<String> = Vec::new();
        let mut i: usize = 0;
        while i < self.entries.len()
            invariant
                i <= self.entries.len(),
                names@.len() == i,
                forall|k: int| 0 <= k < i ==> (#[trigger] names@[k])@ == self.entries@[k].asset@,
            decreases self.entries.len() - i,
        {
            names.push(self.entries[i].asset.clone());
            i += 1;
        }
        names
    }

    /// The quantity of the position at place `index`.
    pub fn quantity_at(&self, index: usize) -> (quantity: i64)
        requires
            index < self.quantities().len(),
        ensures
            quantity == self.quantities()[index as int],
    {
        self.entries[index].quantity
    }
}

} // verus!
