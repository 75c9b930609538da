use vstd::prelude::*;
use crate::error::ApiError;
use crate::bins::{Bin, Slot, Step, is_free, holds, spec_status_before, ALLOCATED, STORED, PICKED};
use crate::warehouse::{
    WarehouseView, consistent, bin_consistent, ids_increasing, first_index, is_first,
    free_filter, holding_filter, spec_register, spec_allocate, spec_step, spec_find_in_bin,
    spec_add_bin, spec_rack, lemma_first_index, lemma_first_unique,
};
use crate::ids::hyphenated;
use crate::panel::{PanelRow, row_of};

verus! {

// The laws below are stated over the model of the tables in `warehouse`.
// They hold of `Warehouse`, whose operations are specified by the same spec
// functions; the server keeps its tables in a database that it queries with
// its own SQL, which nothing here ties to the model.

/// When no bin other than `i` holds `good` and bin `i` holds it with
/// `status`, the store finds bin `i` for `good` and `status`.
proof fn lemma_only_holder(bins: Seq<Bin>, good: u128, status: i32, i: int)
    requires
        0 <= i < bins.len(),
        holds(bins[i], good, status),
        forall|j: int| 0 <= j < bins.len() && j != i ==> (#[trigger] bins[j]).good != Some(good),
    ensures
        first_index(bins, holding_filter(good, status)) == Some(i),
{
    let p = holding_filter(good, status);
    assert(is_first(bins, p, i)) by {
        assert forall|j: int| 0 <= j < i implies !p(#[trigger] bins[j]) by {
            assert(bins[j].good != Some(good));
        }
    }
    lemma_first_index(bins, p);
    lemma_first_unique(bins, p, i, first_index(bins, p).unwrap());
}

/// Registering a good whose identifier lies in no bin keeps the integrity of
/// the tables.
pub proof fn law_register_keeps_integrity(w: WarehouseView, good: u128)
    requires
        consistent(w),
        forall|i: int| 0 <= i < w.bins.len() ==> (#[trigger] w.bins[i]).good != Some(good),
    ensures
        consistent(spec_register(w, good).0),
{
}

/// Two registrations in a row under increasing identifiers (as
/// `register_new` draws them) both succeed when the first does, and leave
/// both goods waiting for allocation, under distinct identifiers.
pub proof fn law_successive_registrations(w: WarehouseView, g1: u128, g2: u128)
    requires
        g1 < g2,
        forall|g: u128| #[trigger] w.received.contains(g) ==> g < g2,
        spec_register(w, g1).1 is Ok,
    ensures
        spec_register(spec_register(w, g1).0, g2).1 is Ok,
        spec_register(spec_register(w, g1).0, g2).0.received.contains(g1),
        spec_register(spec_register(w, g1).0, g2).0.received.contains(g2),
        g1 != g2,
{
}

/// Allocation keeps the integrity of the tables.
pub proof fn law_allocate_keeps_integrity(w: WarehouseView, good: u128)
    requires
        consistent(w),
    ensures
        consistent(spec_allocate(w, good).0),
{
    lemma_first_index(w.bins, free_filter());
    if w.received.contains(good) {
        if let Some(i) = first_index(w.bins, free_filter()) {
            let w2 = spec_allocate(w, good).0;
            assert(is_free(w.bins[i]));
            assert forall|a: int, b: int|
                0 <= a < w2.bins.len() && 0 <= b < w2.bins.len() && a != b && (#[trigger] w2.bins[a]).good is Some
                implies w2.bins[a].good != (#[trigger] w2.bins[b]).good by {
                if a == i {
                    assert(w.bins[b].good != Some(good));
                } else if b == i {
                    assert(w.bins[a].good != Some(good));
                } else {
                    assert(w.bins[a].good != w.bins[b].good);
                }
            }
            assert forall|a: int, g: u128|
                0 <= a < w2.bins.len() && #[trigger] w2.received.contains(g)
                implies (#[trigger] w2.bins[a]).good != Some(g) by {
                if a != i {
                    assert(w.received.contains(g));
                }
            }
            assert forall|a: int| 0 <= a < w2.bins.len() implies bin_consistent(#[trigger] w2.bins[a]) by {
                if a != i {
                    assert(bin_consistent(w.bins[a]));
                }
            }
        }
    }
}

/// Every step of a good keeps the integrity of the tables.
pub proof fn law_step_keeps_integrity(w: WarehouseView, good: u128, step: Step)
    requires
        consistent(w),
    ensures
        consistent(spec_step(w, good, step).0),
{
    let p = holding_filter(good, spec_status_before(step));
    lemma_first_index(w.bins, p);
    if let Some(i) = first_index(w.bins, p) {
        let w2 = spec_step(w, good, step).0;
        assert(holds(w.bins[i], good, spec_status_before(step)));
        assert forall|a: int, b: int|
            0 <= a < w2.bins.len() && 0 <= b < w2.bins.len() && a != b && (#[trigger] w2.bins[a]).good is Some
            implies w2.bins[a].good != (#[trigger] w2.bins[b]).good by {
            assert(w.bins[a].good != w.bins[b].good);
        }
        assert forall|a: int, g: u128|
            0 <= a < w2.bins.len() && #[trigger] w2.received.contains(g)
            implies (#[trigger] w2.bins[a]).good != Some(g) by {
            assert(w.bins[a].good != Some(g));
        }
        assert forall|a: int| 0 <= a < w2.bins.len() implies bin_consistent(#[trigger] w2.bins[a]) by {
            assert(bin_consistent(w.bins[a]));
        }
    }
}

/// Adding a bin keeps the integrity of the tables and the order of the bins
/// by identifier.
pub proof fn law_add_bin_keeps_integrity(w: WarehouseView, rack: i32)
    requires
        consistent(w),
        ids_increasing(w.bins),
    ensures
        consistent(spec_add_bin(w, rack).0),
        ids_increasing(spec_add_bin(w, rack).0.bins),
{
    let w2 = spec_add_bin(w, rack).0;
    if w2.bins.len() > w.bins.len() {
        let n = w.bins.len() as int;
        assert forall|a: int, b: int|
            0 <= a < w2.bins.len() && 0 <= b < w2.bins.len() && a != b && (#[trigger] w2.bins[a]).good is Some
            implies w2.bins[a].good != (#[trigger] w2.bins[b]).good by {
            if a < n && b < n {
                assert(w.bins[a].good != w.bins[b].good);
            }
        }
        assert forall|a: int, g: u128|
            0 <= a < w2.bins.len() && #[trigger] w2.received.contains(g)
            implies (#[trigger] w2.bins[a]).good != Some(g) by {
            if a < n {
                assert(w.bins[a].good != Some(g));
            }
        }
        assert forall|a: int| 0 <= a < w2.bins.len() implies bin_consistent(#[trigger] w2.bins[a]) by {
            if a < n {
                assert(bin_consistent(w.bins[a]));
            }
        }
        assert forall|a: int, b: int| 0 <= a < b < w2.bins.len() implies w2.bins[a].id < w2.bins[b].id by {
            if b == n && n > 0 {
                assert(w.bins[a].id <= w.bins.last().id);
            }
        }
    }
}

/// A refused request leaves both tables as they were.
pub proof fn law_refusal_changes_nothing(w: WarehouseView, good: u128, step: Step, rack: i32)
    ensures
        spec_register(w, good).1 is Err ==> spec_register(w, good).0 == w,
        spec_allocate(w, good).1 is Err ==> spec_allocate(w, good).0 == w,
        spec_step(w, good, step).1 is Err ==> spec_step(w, good, step).0 == w,
        spec_add_bin(w, rack).1 is Err ==> spec_add_bin(w, rack).0 == w,
{
}

/// Allocation takes the free bin of lowest identifier.
pub proof fn law_allocate_takes_lowest_free_bin(w: WarehouseView, good: u128)
    requires
        ids_increasing(w.bins),
    ensures
        spec_allocate(w, good).1 matches Ok(slot) ==> forall|i: int|
            0 <= i < w.bins.len() && is_free(#[trigger] w.bins[i]) ==> slot.id <= w.bins[i].id,
        spec_allocate(w, good).1 matches Ok(slot) ==> exists|i: int|
            0 <= i < w.bins.len() && is_free(#[trigger] w.bins[i]) && slot == (Slot { id: w.bins[i].id, rack: w.bins[i].rack }),
{
    lemma_first_index(w.bins, free_filter());
    if let Ok(slot) = spec_allocate(w, good).1 {
        let k = first_index(w.bins, free_filter()).unwrap();
        assert(is_free(w.bins[k]));
        assert forall|i: int| 0 <= i < w.bins.len() && is_free(#[trigger] w.bins[i]) implies slot.id <= w.bins[i].id by {
            if i < k {
                assert(!(free_filter())(w.bins[i]));
            }
        }
    }
}

/// Allocation succeeds exactly when the good is registered and some bin is
/// free; it is refused as not found first, then for want of a bin.
pub proof fn law_allocate_outcome(w: WarehouseView, good: u128)
    ensures
        spec_allocate(w, good).1 is Ok <==> w.received.contains(good) && exists|i: int|
            0 <= i < w.bins.len() && is_free(#[trigger] w.bins[i]),
        !w.received.contains(good) ==> spec_allocate(w, good).1 == Err::<Slot, ApiError>(ApiError::GoodNotFound(good)),
        w.received.contains(good) && (forall|i: int| 0 <= i < w.bins.len() ==> !is_free(#[trigger] w.bins[i]))
            ==> spec_allocate(w, good).1 == Err::<Slot, ApiError>(ApiError::FreeBinNotFound),
{
    lemma_first_index(w.bins, free_filter());
    if w.received.contains(good) && exists|i: int| 0 <= i < w.bins.len() && is_free(#[trigger] w.bins[i]) {
        let i = choose|i: int| 0 <= i < w.bins.len() && is_free(#[trigger] w.bins[i]);
        assert((free_filter())(w.bins[i]));
    }
    if first_index(w.bins, free_filter()) is Some {
        let k = first_index(w.bins, free_filter()).unwrap();
        assert(is_free(w.bins[k]));
    }
}

/// A step applies exactly when some bin holds the good with the status the
/// step expects; otherwise the good is not found. So a good moves only along
/// its lifecycle: allocated, then stored, then picked, then gone.
pub proof fn law_step_outcome(w: WarehouseView, good: u128, step: Step)
    ensures
        spec_step(w, good, step).1 is Ok <==> exists|i: int|
            0 <= i < w.bins.len() && holds(#[trigger] w.bins[i], good, spec_status_before(step)),
        spec_step(w, good, step).1 is Ok ==> spec_step(w, good, step).1 == Ok::<u128, ApiError>(good),
        spec_step(w, good, step).1 is Err ==> spec_step(w, good, step).1 == Err::<u128, ApiError>(ApiError::GoodNotFound(good)),
{
    let p = holding_filter(good, spec_status_before(step));
    lemma_first_index(w.bins, p);
    if exists|i: int| 0 <= i < w.bins.len() && holds(#[trigger] w.bins[i], good, spec_status_before(step)) {
        let i = choose|i: int| 0 <= i < w.bins.len() && holds(#[trigger] w.bins[i], good, spec_status_before(step));
        assert(p(w.bins[i]));
    }
    if first_index(w.bins, p) is Some {
        let k = first_index(w.bins, p).unwrap();
        assert(holds(w.bins[k], good, spec_status_before(step)));
    }
}

/// The whole pass of a good through the warehouse: a new good is registered,
/// allocated to the free bin of lowest identifier, arrives there (and is then
/// found in that bin), is picked and departs. Every request succeeds, and
/// afterwards both tables are as they were before the good came.
pub proof fn law_full_pass_restores_tables(w: WarehouseView, good: u128)
    requires
        consistent(w),
        !w.received.contains(good),
        forall|i: int| 0 <= i < w.bins.len() ==> (#[trigger] w.bins[i]).good != Some(good),
        exists|i: int| 0 <= i < w.bins.len() && is_free(#[trigger] w.bins[i]),
    ensures
        ({
            let (w1, r1) = spec_register(w, good);
            let (w2, r2) = spec_allocate(w1, good);
            let (w3, r3) = spec_step(w2, good, Step::Arrive);
            let found = spec_find_in_bin(w3, good);
            let (w4, r4) = spec_step(w3, good, Step::Pick);
            let (w5, r5) = spec_step(w4, good, Step::Depart);
            &&& r1 == Ok::<u128, ApiError>(good)
            &&& r2 is Ok
            &&& found == r2
            &&& r3 == Ok::<u128, ApiError>(good)
            &&& r4 == Ok::<u128, ApiError>(good)
            &&& r5 == Ok::<u128, ApiError>(good)
            &&& w5 == w
        }),
{
    let (w1, r1) = spec_register(w, good);
    assert(w1.bins == w.bins);
    assert(w1.received.contains(good));
    lemma_first_index(w1.bins, free_filter());
    let fi = choose|i: int| 0 <= i < w.bins.len() && is_free(#[trigger] w.bins[i]);
    assert((free_filter())(w1.bins[fi]));
    let i = first_index(w1.bins, free_filter()).unwrap();
    assert(is_free(w.bins[i]));
    let (w2, r2) = spec_allocate(w1, good);
    assert(w2.bins[i] == Bin { good: Some(good), status: ALLOCATED, ..w.bins[i] });
    assert forall|j: int| 0 <= j < w2.bins.len() && j != i implies (#[trigger] w2.bins[j]).good != Some(good) by {
        assert(w2.bins[j] == w.bins[j]);
    }
    lemma_only_holder(w2.bins, good, ALLOCATED, i);
    let (w3, r3) = spec_step(w2, good, Step::Arrive);
    assert(w3.bins[i] == Bin { good: Some(good), status: STORED, ..w.bins[i] });
    assert forall|j: int| 0 <= j < w3.bins.len() && j != i implies (#[trigger] w3.bins[j]).good != Some(good) by {
        assert(w3.bins[j] == w.bins[j]);
    }
    lemma_only_holder(w3.bins, good, STORED, i);
    let (w4, r4) = spec_step(w3, good, Step::Pick);
    assert(w4.bins[i] == Bin { good: Some(good), status: PICKED, ..w.bins[i] });
    assert forall|j: int| 0 <= j < w4.bins.len() && j != i implies (#[trigger] w4.bins[j]).good != Some(good) by {
        assert(w4.bins[j] == w.bins[j]);
    }
    lemma_only_holder(w4.bins, good, PICKED, i);
    let (w5, r5) = spec_step(w4, good, Step::Depart);
    assert(w5.bins =~= w.bins);
    assert(w5.received =~= w.received);
}

/// A stored good is found where it lies: when a bin holds the good with
/// status stored, finding the good gives that bin's identifier and rack,
/// whatever the other bins hold or whether they are free.
pub proof fn law_find_in_bin_locates_stored_good(w: WarehouseView, good: u128, i: int)
    requires
        consistent(w),
        0 <= i < w.bins.len(),
        holds(w.bins[i], good, STORED),
    ensures
        spec_find_in_bin(w, good) == Ok::<Slot, ApiError>(Slot { id: w.bins[i].id, rack: w.bins[i].rack }),
{
    assert forall|j: int| 0 <= j < w.bins.len() && j != i implies (#[trigger] w.bins[j]).good != Some(good) by {
        assert(w.bins[i].good != w.bins[j].good);
    }
    lemma_only_holder(w.bins, good, STORED, i);
}

/// Finding a good succeeds exactly when some bin holds it with status
/// stored, and then answers with such a bin's identifier and rack; else the
/// good is not found.
pub proof fn law_find_in_bin_outcome(w: WarehouseView, good: u128)
    ensures
        spec_find_in_bin(w, good) is Ok <==> exists|i: int|
            0 <= i < w.bins.len() && holds(#[trigger] w.bins[i], good, STORED),
        spec_find_in_bin(w, good) matches Ok(slot) ==> exists|i: int|
            0 <= i < w.bins.len() && holds(#[trigger] w.bins[i], good, STORED)
                && slot == (Slot { id: w.bins[i].id, rack: w.bins[i].rack }),
        spec_find_in_bin(w, good) is Err ==> spec_find_in_bin(w, good) == Err::<Slot, ApiError>(ApiError::GoodNotFound(good)),
{
    let p = holding_filter(good, STORED);
    lemma_first_index(w.bins, p);
    if exists|i: int| 0 <= i < w.bins.len() && holds(#[trigger] w.bins[i], good, STORED) {
        let i = choose|i: int| 0 <= i < w.bins.len() && holds(#[trigger] w.bins[i], good, STORED);
        assert(p(w.bins[i]));
    }
    if first_index(w.bins, p) is Some {
        let k = first_index(w.bins, p).unwrap();
        assert(holds(w.bins[k], good, STORED));
    }
}

/// A rack's listing holds every bin of that rack, whatever its good and
/// status, and nothing but bins of the table on that rack; it keeps the
/// table's order by identifier.
pub proof fn law_rack_lists_all_its_bins(w: WarehouseView, rack: i32)
    ensures
        forall|i: int| 0 <= i < w.bins.len() && (#[trigger] w.bins[i]).rack == rack
            ==> spec_rack(w, rack).contains(w.bins[i]),
        forall|j: int| 0 <= j < spec_rack(w, rack).len()
            ==> (#[trigger] spec_rack(w, rack)[j]).rack == rack && w.bins.contains(spec_rack(w, rack)[j]),
        ids_increasing(w.bins) ==> ids_increasing(spec_rack(w, rack)),
{
    let pred = |b: Bin| b.rack == rack;
    assert forall|i: int| 0 <= i < w.bins.len() && (#[trigger] w.bins[i]).rack == rack
        implies spec_rack(w, rack).contains(w.bins[i]) by {
        w.bins.lemma_filter_contains(pred, i);
    }
    assert forall|j: int| 0 <= j < spec_rack(w, rack).len()
        implies (#[trigger] spec_rack(w, rack)[j]).rack == rack && w.bins.contains(spec_rack(w, rack)[j]) by {
        w.bins.lemma_filter_pred(pred, j);
        assert(w.bins.filter(pred).contains(w.bins.filter(pred)[j]));
        w.bins.lemma_filter_contains_rev(pred, w.bins.filter(pred)[j]);
    }
    if ids_increasing(w.bins) {
        lemma_filter_keeps_order(w.bins, pred);
    }
}

proof fn lemma_filter_keeps_order(bins: Seq<Bin>, pred: spec_fn(Bin) -> bool)
    requires
        ids_increasing(bins),
    ensures
        ids_increasing(bins.filter(pred)),
    decreases bins.len(),
{
    reveal(Seq::filter);
    if bins.len() > 0 {
        let rest = bins.drop_last();
        assert(ids_increasing(rest));
        lemma_filter_keeps_order(rest, pred);
        let f = rest.filter(pred);
        if pred(bins.last()) {
            let g = f.push(bins.last());
            assert forall|a: int, b: int| 0 <= a < b < g.len() implies g[a].id < g[b].id by {
                if b == g.len() - 1 {
                    assert(f.contains(f[a]));
                    rest.lemma_filter_contains_rev(pred, f[a]);
                    let k = choose|k: int| 0 <= k < rest.len() && rest[k] == f[a];
                    assert(bins[k] == f[a]);
                } else {
                    assert(g[a] == f[a] && g[b] == f[b]);
                }
            }
        }
    }
}

/// A panel row shows its bin: the bin's identifier and status, and the
/// hyphenated identifier of the good it holds, whatever its status, or
/// nothing when it holds none.
pub proof fn law_panel_row_shows_bin(row: PanelRow, b: Bin)
    requires
        row_of(row, b),
    ensures
        row.id == b.id,
        row.status == b.status,
        b.good matches Some(g) ==> row.good@ == hyphenated(g),
        b.good is None ==> row.good@.len() == 0,
{
}

} // verus!
