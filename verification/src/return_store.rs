//! Rolling history of daily returns, one bounded series per asset.

use vstd::prelude::*;

verus! {

/// Largest number of returns kept for one asset.
pub const WINDOW_CAP: usize = 252;

/// What is kept of a sequence of appended returns: all of it while it fits,
/// else its most recent [`WINDOW_CAP`] entries, oldest first.
pub open spec fn window(appended: Seq<i32>) -> Seq<i32> {
    if appended.len() <= WINDOW_CAP {
        appended
    } else {
        appended.subrange(appended.len() - WINDOW_CAP, appended.len() as int)
    }
}

/// Appending to what was kept, and keeping again, is the same as appending
/// to everything and keeping once.
pub proof fn lemma_window_push(appended: Seq<i32>, value: i32)
    ensures
        window(window(appended).push(value)) == window(appended.push(value)),
{
}

/// Eviction law: however many returns are appended to a series one at a
/// time, what remains is the most recent [`WINDOW_CAP`] of all that was ever
/// appended, oldest first.
pub proof fn lemma_window_of_appends(kept: Seq<i32>, appended: Seq<i32>)
    requires
        kept.len() <= WINDOW_CAP,
    ensures
        append_each(kept, appended) == window(kept + appended),
        append_each(kept, appended).len() <= WINDOW_CAP,
    decreases appended.len(),
{
    if appended.len() == 0 {
    } else {
        let front = appended.drop_last();
        lemma_window_of_appends(kept, front);
        lemma_window_push(kept + front, appended.last());
    }
}

/// A series after the returns of `appended` were appended to it one at a
/// time, each append evicting the oldest entry where the cap is exceeded.
pub open spec fn append_each(kept: Seq<i32>, appended: Seq<i32>) -> Seq<i32>
    decreases appended.len(),
{
    if appended.len() == 0 {
        kept
    } else {
        window(append_each(kept, appended.drop_last()).push(appended.last()))
    }
}

/// The asset ids that a list of names spells.
pub open spec fn asset_ids(names: Seq<String>) -> Seq<Seq<char>> {
    names.map_values(|name: String| name@)
}

/// The returns recorded for one asset, oldest first.
struct Series {
    asset: String,
    history: Vec<i32>,
}

/// Per-asset rolling windows of daily returns, in millionths.
pub struct ReturnStore {
    entries: Vec<Series>,
}

impl View for ReturnStore {
    type V = Map<Seq<char>, Seq<i32>>;

    /// The store as a map from each asset seen so far to its window.
    closed spec fn view(&self) -> Map<Seq<char>, Seq<i32>> {
        Map::new(
            |a: Seq<char>| self.holds(a),
            |a: Seq<char>| self.entries[self.slot(a)].history@,
        )
    }
}

impl ReturnStore {
    /// There is a series for `asset`.
    spec fn holds(&self, asset: Seq<char>) -> bool {
        exists|i: int| 0 <= i < self.entries.len() && (#[trigger] self.entries[i]).asset@ == asset
    }

    /// The place of the series of `asset`.
    spec fn slot(&self, asset: Seq<char>) -> int {
        choose|i: int| 0 <= i < self.entries.len() && (#[trigger] self.entries[i]).asset@ == asset
    }

    /// No asset has two series, and no series is empty or longer than the cap.
    pub closed spec fn wf(&self) -> bool {
        &&& forall|i: int, j: int|
            0 <= i < j < self.entries.len() ==> (#[trigger] self.entries[i]).asset@ != (
            #[trigger] self.entries[j]).asset@
        &&& forall|i: int|
            0 <= i < self.entries.len() ==> 1 <= (#[trigger] self.entries[i]).history.len()
                <= WINDOW_CAP
    }

    /// The window of `asset`, empty for an asset that was never appended to.
    pub open spec fn series(&self, asset: Seq<char>) -> Seq<i32> {
        if self@.dom().contains(asset) {
            self@[asset]
        } else {
            Seq::empty()
        }
    }

    /// The view holds each entry of a well-formed store under its asset.
    proof fn lemma_entry(&self, i: int)
        requires
            self.wf(),
            0 <= i < self.entries.len(),
        ensures
            self@.dom().contains(self.entries[i].asset@),
            self@[self.entries[i].asset@] == self.entries[i].history@,
            self.series(self.entries[i].asset@) == self.entries[i].history@,
    {
    }

    /// Every window in a well-formed store respects the cap.
    pub proof fn lemma_series_bounded(&self, asset: Seq<char>)
        requires
            self.wf(),
        ensures
            self.series(asset).len() <= WINDOW_CAP,
            self@.dom().contains(asset) ==> self.series(asset).len() >= 1,
    {
        if self@.dom().contains(asset) {
            let k = self.slot(asset);
            self.lemma_entry(k);
        }
    }

    /// A store that has seen no asset.
    pub fn new() -> (store: ReturnStore)
        ensures
            store.wf(),
            store@ == Map::<Seq<char>, Seq<i32>>::empty(),
    {
        ReturnStore { entries: Vec::new() }
    }

    /// Looks for the series of `asset`.
    fn find(&self, asset: &str) -> (found: Option<usize>)
        requires
            self.wf(),
        ensures
            match found {
                Some(i) => i < self.entries.len() && self.entries[i as int].asset@ == asset@,
                None => !self@.dom().contains(asset@),
            },
    {
        let key: String = asset.to_owned();
        let mut i: usize = 0;
        while i < self.entries.len()
            invariant
                i <= self.entries.len(),
                key@ == asset@,
                forall|k: int| 0 <= k < i ==> (#[trigger] self.entries[k]).asset@ != asset@,
            decreases self.entries.len() - i,
        {
            if self.entries[i].asset == key {
                return Some(i);
            }
            i += 1;
        }
        None
    }

    /// Appends `value` to the series of `asset`; once the series is longer
    /// than [`WINDOW_CAP`], its oldest entry is dropped.
    pub fn append_return(&mut self, asset: &str, value: i32)
        requires
            old(self).wf(),
        ensures
            final(self).wf(),
            final(self)@ == old(self)@.insert(asset@, window(old(self).series(asset@).push(value))),
    {
        match self.find(asset) {
            Some(i) => {
                proof {
                    self.lemma_entry(i as int);
                }
                self.entries[i].history.push(value);
                if self.entries[i].history.len() > WINDOW_CAP {
                    self.entries[i].history.remove(0);
                }
                proof {
                    let kept = window(old(self).series(asset@).push(value));
                    assert forall|a: Seq<char>| self.holds(a) == old(self).holds(a) by {
                        if old(self).holds(a) {
                            let k = old(self).slot(a);
                            assert(self.entries[k].asset@ == a);
                        }
                    }
                    assert forall|a: Seq<char>| self.holds(a) implies #[trigger] self@[a] == old(
                        self,
                    )@.insert(asset@, kept)[a] by {
                        let k = self.slot(a);
                        self.lemma_entry(k);
                        if k != i {
                            old(self).lemma_entry(k);
                        }
                    }
                }
            },
            None => {
                let mut history: Vec<i32> = Vec::new();
                history.push(value);
                self.entries.push(Series { asset: asset.to_owned(), history });
                proof {
                    let kept = window(old(self).series(asset@).push(value));
                    let n = old(self).entries.len() as int;
                    assert(self.entries[n].history@ =~= kept);
                    assert forall|k: int| 0 <= k < n implies (#[trigger] self.entries[k]).asset@
                        != asset@ by {
                        old(self).lemma_entry(k);
                    }
                    assert forall|a: Seq<char>| self.holds(a) == (old(self).holds(a) || a
                        == asset@) by {
                        if old(self).holds(a) {
                            let k = old(self).slot(a);
                            assert(self.entries[k].asset@ == a);
                        }
                    }
                    assert forall|a: Seq<char>| self.holds(a) implies #[trigger] self@[a] == old(
                        self,
                    )@.insert(asset@, kept)[a] by {
                        let k = self.slot(a);
                        self.lemma_entry(k);
                        if k != n {
                            old(self).lemma_entry(k);
                        }
                    }
                }
            },
        }
    }

    /// The window of `asset`, oldest return first; empty for an unseen asset.
    pub fn get_returns(&self, asset: &str) -> (history: Vec<i32>)
        requires
            self.wf(),
        ensures
            history@ == self.series(asset@),
    {
        let mut history: Vec<i32> = Vec::new();
        match self.find(asset) {
            Some(i) => {
                proof {
                    self.lemma_entry(i as int);
                }
                let stored = &self.entries[i].history;
                let mut k: usize = 0;
                while k < stored.len()
                    invariant
                        k <= stored.len(),
                        history@ == stored@.take(k as int),
                    decreases stored.len() - k,
                {
                    history.push(stored[k]);
                    k += 1;
                }
            },
            None => {},
        }
        history
    }

    /// The number of returns held for `asset`; zero for an unseen asset.
    pub fn series_len(&self, asset: &str) -> (len: usize)
        requires
            self.wf(),
        ensures
            len == self.series(asset@).len(),
            len <= WINDOW_CAP,
    {
        match self.find(asset) {
            Some(i) => {
                proof {
                    self.lemma_entry(i as int);
                }
                self.entries[i].history.len()
            },
            None => 0,
        }
    }

    /// The shortest window length among `assets`, an unseen asset counting
    /// as length zero; zero for no assets at all.
    pub open spec fn common_len(&self, assets: Seq<Seq<char>>) -> nat
        decreases assets.len(),
    {
        if assets.len() == 0 {
            0
        } else if assets.len() == 1 {
            self.series(assets[0]).len()
        } else {
            let rest = self.common_len(assets.drop_last());
            let last = self.series(assets.last()).len();
            if last < rest {
                last
            } else {
                rest
            }
        }
    }

    /// The common length is the minimum of the window lengths: no asset of
    /// the list has a shorter window, and one has exactly that length.
    pub proof fn lemma_common_len_is_minimum(&self, assets: Seq<Seq<char>>)
        requires
            assets.len() > 0,
        ensures
            forall|j: int|
                0 <= j < assets.len() ==> self.common_len(assets) <= self.series(
                    #[trigger] assets[j],
                ).len(),
            exists|j: int|
                0 <= j < assets.len() && self.common_len(assets) == self.series(
                    #[trigger] assets[j],
                ).len(),
        decreases assets.len(),
    {
        if assets.len() > 1 {
            let front = assets.drop_last();
            self.lemma_common_len_is_minimum(front);
            assert forall|j: int| 0 <= j < assets.len() implies self.common_len(assets)
                <= self.series(#[trigger] assets[j]).len() by {
                if j < front.len() {
                    assert(front[j] == assets[j]);
                }
            }
        } else {
            assert(self.common_len(assets) == self.series(assets[0]).len());
        }
    }

    /// Where no asset has any history, no list of assets has a common day.
    pub proof fn lemma_no_history(&self, assets: Seq<Seq<char>>)
        requires
            self@ == Map::<Seq<char>, Seq<i32>>::empty(),
        ensures
            self.common_len(assets) == 0,
        decreases assets.len(),
    {
        if assets.len() > 1 {
            self.lemma_no_history(assets.drop_last());
        }
    }

    /// The number of days for which every asset of `assets` has a return.
    pub fn common_length(&self, assets: &Vec<String>) -> (len: usize)
        requires
            self.wf(),
        ensures
            len == self.common_len(asset_ids(assets@)),
            len <= WINDOW_CAP,
    {
        if assets.len() == 0 {
            return 0;
        }
        let ghost ids = asset_ids(assets@);
        let mut len: usize = self.series_len(assets[0].as_str());
        let mut j: usize = 1;
        while j < assets.len()
            invariant
                self.wf(),
                ids == asset_ids(assets@),
                1 <= j <= assets.len(),
                len == self.common_len(ids.take(j as int)),
                len <= WINDOW_CAP,
            decreases assets.len() - j,
        {
            let here: usize = self.series_len(assets[j].as_str());
            proof {
                let upto = ids.take(j + 1);
                assert(upto.drop_last() =~= ids.take(j as int));
            }
            if here < len {
                len = here;
            }
            j += 1;
        }
        assert(ids.take(j as int) =~= ids);
        len
    }

    /// Appends the returns of `samples` in order, as so many calls of
    /// [`ReturnStore::append_return`].
    pub fn append_all(&mut self, asset: &str, samples: &[i32])
        requires
            old(self).wf(),
        ensures
            final(self).wf(),
            samples@.len() == 0 ==> final(self)@ == old(self)@,
            samples@.len() > 0 ==> final(self)@ == old(self)@.insert(
                asset@,
                window(old(self).series(asset@) + samples@),
            ),
    {
        let mut k: usize = 0;
        while k < samples.len()
            invariant
                self.wf(),
                k <= samples.len(),
                k == 0 ==> self@ == old(self)@,
                k > 0 ==> self@ == old(self)@.insert(
                    asset@,
                    append_each(old(self).series(asset@), samples@.take(k as int)),
                ),
            decreases samples.len() - k,
        {
            let ghost before = self.series(asset@);
            let ghost head = samples@.take(k as int);
            self.append_return(asset, samples[k]);
            proof {
                let upto = samples@.take(k + 1);
                assert(upto.drop_last() =~= head);
                assert(before == append_each(old(self).series(asset@), head));
            }
            k += 1;
        }
        proof {
            assert(samples@.take(k as int) =~= samples@);
            old(self).lemma_series_bounded(asset@);
            lemma_window_of_appends(old(self).series(asset@), samples@);
        }
    }
}

} // verus!
