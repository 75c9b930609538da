use vstd::prelude::*;
use crate::bins::{Step, STORED, PICKED, spec_status_before, holds, is_free};
use crate::warehouse::{
    WarehouseView, consistent, first_index, free_filter, holding_filter,
    spec_allocate, spec_step, lemma_first_index,
};
use crate::laws::{law_allocate_keeps_integrity, law_step_keeps_integrity, law_refusal_changes_nothing};

verus! {

// Sequences of requests over the model of the tables in `warehouse`; as in
// `laws`, the server's database is not tied to this model.

/// A request that moves a good through the warehouse.
#[derive(Clone, Copy, Debug, PartialEq, Eq, Structural)]
pub enum Request {
    Allocate(u128),
    Arrive(u128),
    Pick(u128),
    Depart(u128),
}

/// The good a request names.
pub open spec fn request_good(r: Request) -> u128 {
    match r {
        Request::Allocate(g) => g,
        Request::Arrive(g) => g,
        Request::Pick(g) => g,
        Request::Depart(g) => g,
    }
}

/// The tables after a request, and whether it succeeded.
pub open spec fn spec_request(w: WarehouseView, r: Request) -> (WarehouseView, bool) {
    match r {
        Request::Allocate(g) => (spec_allocate(w, g).0, spec_allocate(w, g).1 is Ok),
        Request::Arrive(g) => (spec_step(w, g, Step::Arrive).0, spec_step(w, g, Step::Arrive).1 is Ok),
        Request::Pick(g) => (spec_step(w, g, Step::Pick).0, spec_step(w, g, Step::Pick).1 is Ok),
        Request::Depart(g) => (spec_step(w, g, Step::Depart).0, spec_step(w, g, Step::Depart).1 is Ok),
    }
}

/// The tables after the requests `rs`, served one after the other from `w`.
pub open spec fn run(w: WarehouseView, rs: Seq<Request>) -> WarehouseView
    decreases rs.len(),
{
    if rs.len() == 0 {
        w
    } else {
        spec_request(run(w, rs.drop_last()), rs.last()).0
    }
}

/// Whether the request at position `k` of `rs` succeeded, served after the
/// ones before it.
pub open spec fn succeeded(w: WarehouseView, rs: Seq<Request>, k: int) -> bool {
    spec_request(run(w, rs.take(k)), rs[k]).1
}

/// Position `k` of `rs` is the request `r`, and it succeeded.
pub open spec fn succeeded_as(w: WarehouseView, rs: Seq<Request>, k: int, r: Request) -> bool {
    &&& 0 <= k < rs.len()
    &&& rs[k] == r
    &&& succeeded(w, rs, k)
}

/// Where a good stands in its lifecycle: 0 while it waits for allocation,
/// the status of the bin that holds it while it lies in one (allocated,
/// stored, picked), and 4 once it has left.
pub open spec fn phase(w: WarehouseView, u: u128) -> int {
    if w.received.contains(u) {
        0
    } else if exists|i: int| 0 <= i < w.bins.len() && (#[trigger] w.bins[i]).good == Some(u) {
        w.bins[choose|i: int| 0 <= i < w.bins.len() && (#[trigger] w.bins[i]).good == Some(u)].status as int
    } else {
        4
    }
}

/// The phase a good must be in for a request on it to succeed.
pub open spec fn phase_before(r: Request) -> int {
    match r {
        Request::Allocate(_) => 0,
        Request::Arrive(_) => 1,
        Request::Pick(_) => 2,
        Request::Depart(_) => 3,
    }
}

/// The phase a good is in after a request on it succeeded.
pub open spec fn phase_after(r: Request) -> int {
    match r {
        Request::Allocate(_) => 1,
        Request::Arrive(_) => 2,
        Request::Pick(_) => 3,
        Request::Depart(_) => 4,
    }
}

proof fn lemma_phase_at(w: WarehouseView, u: u128, i: int)
    requires
        consistent(w),
        0 <= i < w.bins.len(),
        w.bins[i].good == Some(u),
    ensures
        phase(w, u) == w.bins[i].status,
{
    assert(!w.received.contains(u));
    let c = choose|c: int| 0 <= c < w.bins.len() && (#[trigger] w.bins[c]).good == Some(u);
    if c != i {
        assert(w.bins[i].good != w.bins[c].good);
    }
}

proof fn lemma_phase_none(w: WarehouseView, u: u128)
    requires
        !w.received.contains(u),
        forall|i: int| 0 <= i < w.bins.len() ==> (#[trigger] w.bins[i]).good != Some(u),
    ensures
        phase(w, u) == 4,
{
}

/// Two tables that agree on whether `u` waits, and whose bins hold `u` at
/// the same positions with the same statuses, give `u` the same phase.
proof fn lemma_phase_same(w: WarehouseView, w2: WarehouseView, u: u128)
    requires
        consistent(w),
        consistent(w2),
        w.received.contains(u) == w2.received.contains(u),
        w.bins.len() == w2.bins.len(),
        forall|j: int| 0 <= j < w.bins.len() ==>
            ((#[trigger] w.bins[j]).good == Some(u)) == (w2.bins[j].good == Some(u)),
        forall|j: int| 0 <= j < w.bins.len() && (#[trigger] w.bins[j]).good == Some(u) ==>
            w.bins[j].status == w2.bins[j].status,
    ensures
        phase(w2, u) == phase(w, u),
{
    if !w.received.contains(u) {
        if exists|j: int| 0 <= j < w.bins.len() && (#[trigger] w.bins[j]).good == Some(u) {
            let j = choose|j: int| 0 <= j < w.bins.len() && (#[trigger] w.bins[j]).good == Some(u);
            lemma_phase_at(w, u, j);
            lemma_phase_at(w2, u, j);
        } else {
            assert forall|j: int| 0 <= j < w2.bins.len() implies (#[trigger] w2.bins[j]).good != Some(u) by {
                assert(w.bins[j].good != Some(u));
            }
            lemma_phase_none(w2, u);
        }
    }
}

/// One request keeps the integrity of the tables, and moves the good `u`
/// only when it names `u` and succeeds: then from the phase the request
/// expects to the one it leads to.
pub proof fn law_request_moves_one_phase(w: WarehouseView, r: Request, u: u128)
    requires
        consistent(w),
    ensures
        consistent(spec_request(w, r).0),
        (spec_request(w, r).1 && request_good(r) == u) ==> phase(w, u) == phase_before(r)
            && phase(spec_request(w, r).0, u) == phase_after(r),
        !(spec_request(w, r).1 && request_good(r) == u) ==> phase(spec_request(w, r).0, u) == phase(w, u),
{
    let g = request_good(r);
    let (w2, ok) = spec_request(w, r);
    match r {
        Request::Allocate(_) => {
            law_allocate_keeps_integrity(w, g);
            law_refusal_changes_nothing(w, g, Step::Arrive, 0);
            if ok {
                lemma_first_index(w.bins, free_filter());
                let i = first_index(w.bins, free_filter()).unwrap();
                assert(is_free(w.bins[i]));
                assert(w2.bins[i].good == Some(g));
                if g == u {
                    lemma_phase_at(w2, u, i);
                } else {
                    assert(w2.received.contains(u) == w.received.contains(u));
                    lemma_phase_same(w, w2, u);
                }
            }
        },
        Request::Arrive(_) => {
            lemma_step_phase(w, g, Step::Arrive, u);
        },
        Request::Pick(_) => {
            lemma_step_phase(w, g, Step::Pick, u);
        },
        Request::Depart(_) => {
            lemma_step_phase(w, g, Step::Depart, u);
        },
    }
}

proof fn lemma_step_phase(w: WarehouseView, g: u128, step: Step, u: u128)
    requires
        consistent(w),
    ensures
        consistent(spec_step(w, g, step).0),
        (spec_step(w, g, step).1 is Ok && g == u) ==> phase(w, u) == spec_status_before(step)
            && phase(spec_step(w, g, step).0, u) == (match step {
                Step::Arrive => STORED as int,
                Step::Pick => PICKED as int,
                Step::Depart => 4int,
            }),
        !(spec_step(w, g, step).1 is Ok && g == u) ==> phase(spec_step(w, g, step).0, u) == phase(w, u),
{
    law_step_keeps_integrity(w, g, step);
    law_refusal_changes_nothing(w, g, step, 0);
    let (w2, res) = spec_step(w, g, step);
    if res is Ok {
        let p = holding_filter(g, spec_status_before(step));
        lemma_first_index(w.bins, p);
        let i = first_index(w.bins, p).unwrap();
        assert(holds(w.bins[i], g, spec_status_before(step)));
        if g == u {
            lemma_phase_at(w, u, i);
            match step {
                Step::Depart => {
                    assert forall|j: int| 0 <= j < w2.bins.len() implies (#[trigger] w2.bins[j]).good != Some(u) by {
                        if j != i {
                            assert(w.bins[j].good != w.bins[i].good);
                        }
                    }
                    assert(!w.received.contains(u));
                    lemma_phase_none(w2, u);
                },
                _ => {
                    lemma_phase_at(w2, u, i);
                },
            }
        } else {
            lemma_phase_same(w, w2, u);
        }
    }
}

proof fn lemma_run_prefix(w: WarehouseView, rs: Seq<Request>, k: int)
    requires
        0 <= k < rs.len(),
    ensures
        run(w, rs.take(k + 1)) == spec_request(run(w, rs.take(k)), rs[k]).0,
{
    assert(rs.take(k + 1).drop_last() =~= rs.take(k));
    assert(rs.take(k + 1).last() == rs[k]);
}

/// What the first `k` requests have done to a good `u` that waited for
/// allocation at the start.
proof fn lemma_history(w0: WarehouseView, rs: Seq<Request>, u: u128, k: int)
    requires
        consistent(w0),
        w0.received.contains(u),
        0 <= k <= rs.len(),
    ensures
        consistent(run(w0, rs.take(k))),
        phase(run(w0, rs.take(k)), u) == 1 ==> exists|a: int|
            a < k && #[trigger] succeeded_as(w0, rs, a, Request::Allocate(u)),
        phase(run(w0, rs.take(k)), u) == 2 ==> exists|a: int, b: int|
            a < b < k && #[trigger] succeeded_as(w0, rs, a, Request::Allocate(u))
                && #[trigger] succeeded_as(w0, rs, b, Request::Arrive(u))
                && forall|c: int| b < c < k ==> !#[trigger] succeeded_as(w0, rs, c, Request::Pick(u)),
    decreases k,
{
    if k == 0 {
        assert(rs.take(0) =~= Seq::<Request>::empty());
    } else {
        let j = k - 1;
        lemma_history(w0, rs, u, j);
        let s = run(w0, rs.take(j));
        let r = rs[j];
        lemma_run_prefix(w0, rs, j);
        law_request_moves_one_phase(s, r, u);
        let s2 = run(w0, rs.take(k));
        let ok = spec_request(s, r).1;
        assert(ok == succeeded(w0, rs, j));
        if ok && request_good(r) == u {
            match r {
                Request::Allocate(_) => {
                    assert(succeeded_as(w0, rs, j, Request::Allocate(u)));
                },
                Request::Arrive(_) => {
                    let a = choose|a: int| a < j && #[trigger] succeeded_as(w0, rs, a, Request::Allocate(u));
                    assert(succeeded_as(w0, rs, j, Request::Arrive(u)));
                    assert(a < j < k && succeeded_as(w0, rs, a, Request::Allocate(u))
                        && succeeded_as(w0, rs, j, Request::Arrive(u))
                        && forall|c: int| j < c < k ==> !#[trigger] succeeded_as(w0, rs, c, Request::Pick(u)));
                },
                _ => {},
            }
        } else {
            assert(!succeeded_as(w0, rs, j, Request::Pick(u)));
            if phase(s2, u) == 1 {
                let a = choose|a: int| a < j && #[trigger] succeeded_as(w0, rs, a, Request::Allocate(u));
                assert(a < k);
            }
            if phase(s2, u) == 2 {
                let (a, b) = choose|a: int, b: int|
                    a < b < j && #[trigger] succeeded_as(w0, rs, a, Request::Allocate(u))
                        && #[trigger] succeeded_as(w0, rs, b, Request::Arrive(u))
                        && forall|c: int| b < c < j ==> !#[trigger] succeeded_as(w0, rs, c, Request::Pick(u));
                assert forall|c: int| b < c < k implies !#[trigger] succeeded_as(w0, rs, c, Request::Pick(u)) by {
                    if c < j {
                    }
                }
            }
        }
    }
}

/// A good is picked only in its turn: starting from intact tables in which
/// the good `u` waits for allocation, in any sequence of allocate, arrive,
/// pick and depart requests, a final pick of `u` succeeds only if an earlier
/// allocation of `u` succeeded, then an arrival of `u` succeeded, and no
/// pick of `u` has succeeded since that arrival.
pub proof fn law_pick_only_after_allocate_and_arrive(w0: WarehouseView, rs: Seq<Request>, u: u128)
    requires
        consistent(w0),
        w0.received.contains(u),
        rs.len() > 0,
        rs.last() == Request::Pick(u),
        succeeded(w0, rs, rs.len() - 1),
    ensures
        exists|a: int, b: int|
            a < b < rs.len() - 1 && #[trigger] succeeded_as(w0, rs, a, Request::Allocate(u))
                && #[trigger] succeeded_as(w0, rs, b, Request::Arrive(u))
                && forall|c: int| b < c < rs.len() - 1 ==> !#[trigger] succeeded_as(w0, rs, c, Request::Pick(u)),
{
    let n = rs.len() - 1;
    lemma_history(w0, rs, u, n);
    let s = run(w0, rs.take(n));
    law_request_moves_one_phase(s, rs[n], u);
}

} // verus!
