use vstd::prelude::*;
use crate::error::ApiError;
use crate::ids::{is_version7, IdGenerator};
use crate::bins::{
    Bin, Slot, Step, is_free, holds, spec_status_before, spec_occupied, spec_advanced,
    allocation, progression, location, FREE,
};

verus! {

/// The two tables of the warehouse as mathematical values: the identifiers of
/// the goods that were registered and are not yet allocated, and the bins in
/// the order of their identifiers.
///
/// This is a model. The server keeps the tables in its database and asks it
/// with queries (a free bin: no good, status free, lowest identifier first);
/// the spec functions here state what those queries select, but nothing
/// ties the server's SQL to them, and the server does not run `Warehouse`.
pub struct WarehouseView {
    pub received: Set<u128>,
    pub bins: Seq<Bin>,
}

/// Bin identifiers strictly increase along the table, as the store lists them
/// ordered by identifier; so no identifier occurs twice.
pub open spec fn ids_increasing(bins: Seq<Bin>) -> bool {
    forall|i: int, j: int| 0 <= i < j < bins.len() ==> bins[i].id < bins[j].id
}

/// `i` is the first position of `bins` whose bin satisfies `p`.
pub open spec fn is_first(bins: Seq<Bin>, p: spec_fn(Bin) -> bool, i: int) -> bool {
    &&& 0 <= i < bins.len()
    &&& p(bins[i])
    &&& forall|j: int| 0 <= j < i ==> !p(#[trigger] bins[j])
}

/// The first position of `bins` whose bin satisfies `p`, if any: the bin of
/// lowest identifier among those that match, which is the row the store
/// hands back for a filtered query.
pub open spec fn first_index(bins: Seq<Bin>, p: spec_fn(Bin) -> bool) -> Option<int> {
    if exists|i: int| 0 <= i < bins.len() && p(#[trigger] bins[i]) {
        Some(choose|i: int| is_first(bins, p, i))
    } else {
        None
    }
}

/// The filter of a free bin.
pub open spec fn free_filter() -> spec_fn(Bin) -> bool {
    |b: Bin| is_free(b)
}

/// The filter of a bin that holds `good` with status `status`.
pub open spec fn holding_filter(good: u128, status: i32) -> spec_fn(Bin) -> bool {
    |b: Bin| holds(b, good, status)
}

/// Registration of a good: the identifier is new, else the store refuses it.
pub open spec fn spec_register(w: WarehouseView, good: u128) -> (WarehouseView, Result<u128, ApiError>) {
    if w.received.contains(good) {
        (w, Err(ApiError::Database))
    } else {
        (WarehouseView { received: w.received.insert(good), ..w }, Ok(good))
    }
}

/// Allocation of a registered good to the free bin of lowest identifier; the
/// good leaves the received table.
pub open spec fn spec_allocate(w: WarehouseView, good: u128) -> (WarehouseView, Result<Slot, ApiError>) {
    if !w.received.contains(good) {
        (w, Err(ApiError::GoodNotFound(good)))
    } else {
        match first_index(w.bins, free_filter()) {
            None => (w, Err(ApiError::FreeBinNotFound)),
            Some(i) => (
                WarehouseView {
                    received: w.received.remove(good),
                    bins: w.bins.update(i, spec_occupied(w.bins[i], good)),
                },
                Ok(Slot { id: w.bins[i].id, rack: w.bins[i].rack }),
            ),
        }
    }
}

/// A step of a good: the bin that holds it with the status the step expects
/// is advanced; without such a bin the good is not found.
pub open spec fn spec_step(w: WarehouseView, good: u128, step: Step) -> (WarehouseView, Result<u128, ApiError>) {
    match first_index(w.bins, holding_filter(good, spec_status_before(step))) {
        None => (w, Err(ApiError::GoodNotFound(good))),
        Some(i) => (
            WarehouseView { bins: w.bins.update(i, spec_advanced(w.bins[i], step)), ..w },
            Ok(good),
        ),
    }
}

/// Where a stored good lies.
pub open spec fn spec_find_in_bin(w: WarehouseView, good: u128) -> Result<Slot, ApiError> {
    match first_index(w.bins, holding_filter(good, crate::bins::STORED)) {
        None => Err(ApiError::GoodNotFound(good)),
        Some(i) => Ok(Slot { id: w.bins[i].id, rack: w.bins[i].rack }),
    }
}

/// The bins of a rack, in the order of their identifiers.
pub open spec fn spec_rack(w: WarehouseView, rack: i32) -> Seq<Bin> {
    w.bins.filter(|b: Bin| b.rack == rack)
}

/// The identifier the next bin gets: one past the last, counting from one.
pub open spec fn next_bin_id(bins: Seq<Bin>) -> int {
    if bins.len() == 0 {
        1
    } else {
        bins.last().id + 1
    }
}

/// A new free bin on `rack`, with the next identifier; when identifiers are
/// exhausted the store refuses it.
pub open spec fn spec_add_bin(w: WarehouseView, rack: i32) -> (WarehouseView, Result<i32, ApiError>) {
    if next_bin_id(w.bins) > i32::MAX {
        (w, Err(ApiError::Database))
    } else {
        let b = Bin { id: next_bin_id(w.bins) as i32, rack, good: None, status: FREE };
        (WarehouseView { bins: w.bins.push(b), ..w }, Ok(b.id))
    }
}

/// A bin's good and status agree: a bin holds a good exactly when its
/// status is not free, and its status is one of the four of the lifecycle.
pub open spec fn bin_consistent(b: Bin) -> bool {
    &&& 0 <= b.status <= crate::bins::PICKED
    &&& (b.good is None <==> b.status == FREE)
}

/// The integrity of the two tables: every bin is consistent, no good lies in
/// two bins, and a good that waits for allocation lies in no bin.
pub open spec fn consistent(w: WarehouseView) -> bool {
    &&& forall|i: int| 0 <= i < w.bins.len() ==> bin_consistent(#[trigger] w.bins[i])
    &&& forall|i: int, j: int|
        0 <= i < w.bins.len() && 0 <= j < w.bins.len() && i != j && (#[trigger] w.bins[i]).good is Some
            ==> w.bins[i].good != (#[trigger] w.bins[j]).good
    &&& forall|i: int, g: u128|
        0 <= i < w.bins.len() && #[trigger] w.received.contains(g) ==> (#[trigger] w.bins[i]).good != Some(g)
}

/// The first match, when there is one, is unique, and `first_index` finds it.
pub proof fn lemma_first_index(bins: Seq<Bin>, p: spec_fn(Bin) -> bool)
    ensures
        match first_index(bins, p) {
            Some(i) => is_first(bins, p, i),
            None => forall|i: int| 0 <= i < bins.len() ==> !p(#[trigger] bins[i]),
        },
{
    if exists|i: int| 0 <= i < bins.len() && p(#[trigger] bins[i]) {
        let k = choose|i: int| 0 <= i < bins.len() && p(#[trigger] bins[i]);
        lemma_first_exists(bins, p, k);
    }
}

proof fn lemma_first_exists(bins: Seq<Bin>, p: spec_fn(Bin) -> bool, k: int)
    requires
        0 <= k < bins.len(),
        p(bins[k]),
    ensures
        exists|i: int| is_first(bins, p, i),
    decreases k,
{
    if exists|j: int| 0 <= j < k && p(#[trigger] bins[j]) {
        let j = choose|j: int| 0 <= j < k && p(#[trigger] bins[j]);
        lemma_first_exists(bins, p, j);
    } else {
        assert(is_first(bins, p, k));
    }
}

/// Two first positions of the same filter are the same.
pub proof fn lemma_first_unique(bins: Seq<Bin>, p: spec_fn(Bin) -> bool, i: int, j: int)
    requires
        is_first(bins, p, i),
        is_first(bins, p, j),
    ensures
        i == j,
{
    if i < j {
        assert(!p(bins[i]));
    } else if j < i {
        assert(!p(bins[j]));
    }
}

proof fn lemma_first_index_of(bins: Seq<Bin>, p: spec_fn(Bin) -> bool, found: Option<usize>)
    requires
        found matches Some(i) ==> is_first(bins, p, i as int),
        found is None ==> forall|i: int| 0 <= i < bins.len() ==> !p(#[trigger] bins[i]),
    ensures
        match found {
            Some(i) => first_index(bins, p) == Some(i as int),
            None => first_index(bins, p) is None,
        },
{
    lemma_first_index(bins, p);
    if let Some(i) = found {
        let k = first_index(bins, p).unwrap();
        lemma_first_unique(bins, p, i as int, k);
    }
}

proof fn lemma_remove_to_set(s: Seq<u128>, i: int)
    requires
        s.no_duplicates(),
        0 <= i < s.len(),
    ensures
        s.remove(i).no_duplicates(),
        s.remove(i).to_set() == s.to_set().remove(s[i]),
{
    let t = s.remove(i);
    s.remove_ensures(i);
    assert forall|a: int, b: int| 0 <= a < t.len() && 0 <= b < t.len() && a != b implies t[a] != t[b] by {
        let sa = if a < i { a } else { a + 1 };
        let sb = if b < i { b } else { b + 1 };
        assert(t[a] == s[sa]);
        assert(t[b] == s[sb]);
    }
    assert forall|x: u128| t.to_set().contains(x) <==> s.to_set().remove(s[i]).contains(x) by {
        if t.to_set().contains(x) {
            let a = choose|a: int| 0 <= a < t.len() && t[a] == x;
            let sa = if a < i { a } else { a + 1 };
            assert(s[sa] == x);
            assert(sa != i);
        }
        if s.to_set().remove(s[i]).contains(x) {
            let b = choose|b: int| 0 <= b < s.len() && s[b] == x;
            assert(b != i);
            let tb = if b < i { b } else { b - 1 };
            assert(t[tb] == x);
        }
    }
    assert(t.to_set() =~= s.to_set().remove(s[i]));
}

proof fn lemma_push_to_set(s: Seq<u128>, x: u128)
    requires
        s.no_duplicates(),
        !s.contains(x),
    ensures
        s.push(x).no_duplicates(),
        s.push(x).to_set() == s.to_set().insert(x),
{
    let t = s.push(x);
    assert forall|a: int, b: int| 0 <= a < t.len() && 0 <= b < t.len() && a != b implies t[a] != t[b] by {
        if a < s.len() && b < s.len() {
            assert(t[a] == s[a] && t[b] == s[b]);
        } else if a < s.len() {
            assert(t[a] == s[a]);
        } else {
            assert(t[b] == s[b]);
        }
    }
    assert forall|y: u128| t.to_set().contains(y) <==> s.to_set().insert(x).contains(y) by {
        if t.to_set().contains(y) {
            let a = choose|a: int| 0 <= a < t.len() && t[a] == y;
            if a < s.len() {
                assert(s[a] == y);
            }
        }
        if s.to_set().contains(y) {
            let b = choose|b: int| 0 <= b < s.len() && s[b] == y;
            assert(t[b] == y);
        }
        if y == x {
            assert(t[s.len() as int] == y);
        }
    }
    assert(t.to_set() =~= s.to_set().insert(x));
}

/// The warehouse's tables held in memory: the received goods and the bins,
/// with the generator of new good identifiers. It models the database the
/// server uses; the server itself does not run it, and shares with it only
/// the decisions of the `bins` module and the identifier generator.
pub struct Warehouse {
    received: Vec<u128>,
    bins: Vec<Bin>,
    ids: IdGenerator,
}

impl View for Warehouse {
    type V = WarehouseView;

    closed spec fn view(&self) -> WarehouseView {
        WarehouseView { received: self.received@.to_set(), bins: self.bins@ }
    }
}

impl Warehouse {
    /// The tables are well formed: no good is received twice and the bins go
    /// by increasing identifier.
    pub closed spec fn wf(&self) -> bool {
        &&& self.received@.no_duplicates()
        &&& ids_increasing(self.bins@)
    }

    /// The last good identifier that `register_new` drew, if any.
    pub closed spec fn last_issued(&self) -> Option<u128> {
        self.ids.last_issued()
    }

    /// Empty tables.
    pub fn new() -> (res: Warehouse)
        ensures
            res.wf(),
            res.last_issued() is None,
            res@.received == Set::<u128>::empty(),
            res@.bins == Seq::<Bin>::empty(),
    {
        let res = Warehouse { received: Vec::new(), bins: Vec::new(), ids: IdGenerator::new() };
        assert(res@.received =~= Set::<u128>::empty());
        res
    }

    /// A well-formed warehouse lists its bins by increasing identifier.
    pub proof fn lemma_ids_increasing(&self)
        requires
            self.wf(),
        ensures
            ids_increasing(self@.bins),
    {
    }

    /// The bins, in the order of their identifiers.
    pub fn bins(&self) -> (res: &Vec<Bin>)
        ensures
            res@ == self@.bins,
    {
        &self.bins
    }

    /// Whether `good` waits for allocation.
    pub fn is_received(&self, good: u128) -> (res: bool)
        ensures
            res == self@.received.contains(good),
    {
        match self.find_received(good) {
            Some(_) => true,
            None => false,
        }
    }

    fn find_received(&self, good: u128) -> (res: Option<usize>)
        ensures
            match res {
                Some(i) => i < self.received@.len() && self.received@[i as int] == good,
                None => !self.received@.contains(good),
            },
            res is Some <==> self@.received.contains(good),
    {
        let n = self.received.len();
        let mut i: usize = 0;
        while i < n
            invariant
                n == self.received@.len(),
                i <= n,
                forall|j: int| 0 <= j < i ==> self.received@[j] != good,
            decreases n - i,
        {
            if self.received[i] == good {
                return Some(i);
            }
            i = i + 1;
        }
        None
    }

    fn first_free(&self) -> (res: Option<usize>)
        ensures
            match res {
                Some(i) => first_index(self.bins@, free_filter()) == Some(i as int)
                    && is_first(self.bins@, free_filter(), i as int),
                None => first_index(self.bins@, free_filter()) is None,
            },
    {
        let n = self.bins.len();
        let mut i: usize = 0;
        while i < n
            invariant
                n == self.bins@.len(),
                i <= n,
                forall|j: int| 0 <= j < i ==> !(free_filter())(#[trigger] self.bins@[j]),
            decreases n - i,
        {
            if self.bins[i].is_free() {
                proof {
                    lemma_first_index_of(self.bins@, free_filter(), Some(i));
                }
                return Some(i);
            }
            i = i + 1;
        }
        proof {
            lemma_first_index_of(self.bins@, free_filter(), None);
        }
        None
    }

    fn first_holding(&self, good: u128, status: i32) -> (res: Option<usize>)
        ensures
            match res {
                Some(i) => first_index(self.bins@, holding_filter(good, status)) == Some(i as int)
                    && is_first(self.bins@, holding_filter(good, status), i as int),
                None => first_index(self.bins@, holding_filter(good, status)) is None,
            },
    {
        let n = self.bins.len();
        let mut i: usize = 0;
        while i < n
            invariant
                n == self.bins@.len(),
                i <= n,
                forall|j: int| 0 <= j < i ==> !(holding_filter(good, status))(#[trigger] self.bins@[j]),
            decreases n - i,
        {
            if self.bins[i].holds(good, status) {
                proof {
                    lemma_first_index_of(self.bins@, holding_filter(good, status), Some(i));
                }
                return Some(i);
            }
            i = i + 1;
        }
        proof {
            lemma_first_index_of(self.bins@, holding_filter(good, status), None);
        }
        None
    }
    /// Registers a received good under `good`, as the good table's insert
    /// does: the identifier is refused when it is already there.
    pub fn register(&mut self, good: u128) -> (res: Result<u128, ApiError>)
        requires
            old(self).wf(),
        ensures
            final(self).wf(),
            final(self).last_issued() == old(self).last_issued(),
            (final(self)@, res) == spec_register(old(self)@, good),
    {
        match self.find_received(good) {
            Some(_) => Err(ApiError::Database),
            None => {
                proof {
                    lemma_push_to_set(self.received@, good);
                }
                self.received.push(good);
                Ok(good)
            },
        }
    }

    /// Registers a newly received good under a fresh version-7 identifier,
    /// greater than every identifier drawn before, and returns it. The store
    /// refuses it only if the identifier is already registered, which cannot
    /// happen while every registered good got its identifier from here.
    pub fn register_new(&mut self) -> (res: Result<u128, ApiError>)
        requires
            old(self).wf(),
        ensures
            final(self).wf(),
            final(self).last_issued() is Some,
            is_version7(final(self).last_issued().unwrap()),
            (final(self)@, res) == spec_register(old(self)@, final(self).last_issued().unwrap()),
            old(self).last_issued() matches Some(p) ==> p < final(self).last_issued().unwrap(),
            (forall|g: u128| #[trigger] old(self)@.received.contains(g)
                ==> (old(self).last_issued() matches Some(p) && g <= p)) ==> res is Ok,
    {
        let ghost before = self@;
        let ghost last = self.last_issued();
        let id = self.ids.next();
        assert(self@ == before);
        proof {
            if forall|g: u128| #[trigger] before.received.contains(g) ==> (last matches Some(p) && g <= p) {
                if before.received.contains(id) {
                    assert(last matches Some(p) && id <= p);
                }
            }
        }
        self.register(id)
    }

    /// Adds a free bin on `rack` under the next identifier, as the bin
    /// table's auto-incremented key gives it.
    pub fn add_bin(&mut self, rack: i32) -> (res: Result<i32, ApiError>)
        requires
            old(self).wf(),
        ensures
            final(self).wf(),
            final(self).last_issued() == old(self).last_issued(),
            (final(self)@, res) == spec_add_bin(old(self)@, rack),
    {
        let n = self.bins.len();
        let id: i32 = if n == 0 {
            1
        } else {
            let last = self.bins[n - 1].id;
            if last == i32::MAX {
                return Err(ApiError::Database);
            }
            last + 1
        };
        let b = Bin { id, rack, good: None, status: FREE };
        self.bins.push(b);
        Ok(id)
    }

    /// Allocates the registered good `good` to the free bin of lowest
    /// identifier: the bin then holds the good with status allocated, the
    /// good leaves the received table, and the bin's identifier and rack are
    /// returned. A good that is not registered is not found; without a free
    /// bin the request fails; a failed request changes nothing.
    pub fn allocate(&mut self, good: u128) -> (res: Result<Slot, ApiError>)
        requires
            old(self).wf(),
        ensures
            final(self).wf(),
            final(self).last_issued() == old(self).last_issued(),
            (final(self)@, res) == spec_allocate(old(self)@, good),
    {
        let found = self.find_received(good);
        let fi = match found {
            Some(_) => self.first_free(),
            None => None,
        };
        let free_bin = match fi {
            Some(i) => Some(self.bins[i]),
            None => None,
        };
        match allocation(good, found.is_some(), free_bin) {
            Err(e) => Err(e),
            Ok(nb) => {
                let ri = found.unwrap();
                let i = fi.unwrap();
                proof {
                    lemma_remove_to_set(self.received@, ri as int);
                }
                self.bins.set(i, nb);
                self.received.remove(ri);
                assert(ids_increasing(self.bins@));
                Ok(nb.slot())
            },
        }
    }

    /// Applies `step` to the bin that holds `good` with the status the step
    /// expects (the first such bin by identifier) and returns the good;
    /// without such a bin the good is not found and nothing changes.
    pub fn step(&mut self, good: u128, step: Step) -> (res: Result<u128, ApiError>)
        requires
            old(self).wf(),
        ensures
            final(self).wf(),
            final(self).last_issued() == old(self).last_issued(),
            (final(self)@, res) == spec_step(old(self)@, good, step),
    {
        let fi = self.first_holding(good, step.status_before());
        let found = match fi {
            Some(i) => Some(self.bins[i]),
            None => None,
        };
        match progression(good, step, found) {
            Err(e) => Err(e),
            Ok(nb) => {
                let i = fi.unwrap();
                self.bins.set(i, nb);
                assert(ids_increasing(self.bins@));
                Ok(good)
            },
        }
    }

    /// The good reached its allocated bin: the bin's status goes from
    /// allocated to stored.
    pub fn arrived(&mut self, good: u128) -> (res: Result<u128, ApiError>)
        requires
            old(self).wf(),
        ensures
            final(self).wf(),
            final(self).last_issued() == old(self).last_issued(),
            (final(self)@, res) == spec_step(old(self)@, good, Step::Arrive),
    {
        self.step(good, Step::Arrive)
    }

    /// The good was picked from its bin: the bin's status goes from stored to
    /// picked.
    pub fn pick(&mut self, good: u128) -> (res: Result<u128, ApiError>)
        requires
            old(self).wf(),
        ensures
            final(self).wf(),
            final(self).last_issued() == old(self).last_issued(),
            (final(self)@, res) == spec_step(old(self)@, good, Step::Pick),
    {
        self.step(good, Step::Pick)
    }

    /// The good left the warehouse: its picked bin is emptied and free again.
    pub fn departed(&mut self, good: u128) -> (res: Result<u128, ApiError>)
        requires
            old(self).wf(),
        ensures
            final(self).wf(),
            final(self).last_issued() == old(self).last_issued(),
            (final(self)@, res) == spec_step(old(self)@, good, Step::Depart),
    {
        self.step(good, Step::Depart)
    }

    /// Where the stored good `good` lies: the identifier and rack of the bin
    /// that holds it with status stored.
    pub fn find_in_bin(&self, good: u128) -> (res: Result<Slot, ApiError>)
        ensures
            res == spec_find_in_bin(self@, good),
            forall|i: int| consistent(self@) && 0 <= i < self@.bins.len()
                && holds(#[trigger] self@.bins[i], good, crate::bins::STORED)
                ==> res == Ok::<Slot, ApiError>(Slot { id: self@.bins[i].id, rack: self@.bins[i].rack }),
            res is Err ==> res == Err::<Slot, ApiError>(ApiError::GoodNotFound(good))
                && forall|i: int| 0 <= i < self@.bins.len() ==> !holds(#[trigger] self@.bins[i], good, crate::bins::STORED),
    {
        proof {
            crate::laws::law_find_in_bin_outcome(self@, good);
            assert forall|i: int| consistent(self@) && 0 <= i < self@.bins.len()
                && holds(#[trigger] self@.bins[i], good, crate::bins::STORED)
                implies spec_find_in_bin(self@, good) == Ok::<Slot, ApiError>(Slot { id: self@.bins[i].id, rack: self@.bins[i].rack }) by {
                crate::laws::law_find_in_bin_locates_stored_good(self@, good, i);
            }
        }
        let fi = self.first_holding(good, crate::bins::STORED);
        let found = match fi {
            Some(i) => Some(self.bins[i]),
            None => None,
        };
        location(good, found)
    }

    /// The bins of rack `rack`, in the order of their identifiers.
    pub fn rack_bins(&self, rack: i32) -> (res: Vec<Bin>)
        ensures
            res@ == spec_rack(self@, rack),
            forall|i: int| 0 <= i < self@.bins.len() && (#[trigger] self@.bins[i]).rack == rack
                ==> res@.contains(self@.bins[i]),
            forall|j: int| 0 <= j < res@.len()
                ==> (#[trigger] res@[j]).rack == rack && self@.bins.contains(res@[j]),
            self.wf() ==> ids_increasing(res@),
    {
        proof {
            crate::laws::law_rack_lists_all_its_bins(self@, rack);
        }
        let n = self.bins.len();
        let mut res: Vec<Bin> = Vec::new();
        let mut i: usize = 0;
        while i < n
            invariant
                n == self.bins@.len(),
                i <= n,
                res@ == self.bins@.take(i as int).filter(|b: Bin| b.rack == rack),
            decreases n - i,
        {
            proof {
                reveal_with_fuel(Seq::<_>::filter, 1);
                assert(self.bins@.take(i + 1).drop_last() =~= self.bins@.take(i as int));
                assert(self.bins@.take(i + 1).last() == self.bins@[i as int]);
            }
            if self.bins[i].rack == rack {
                res.push(self.bins[i]);
            }
            i = i + 1;
        }
        assert(self.bins@.take(n as int) =~= self.bins@);
        res
    }
}

} // verus!
