use vstd::prelude::*;
use crate::bins::Bin;
use crate::ids::{hyphenated, uuid_text};
use crate::warehouse::{Warehouse, spec_rack};

verus! {

/// One line of a rack's panel: the bin, the text of the good it holds (empty
/// when it holds none), and its status.
#[derive(Debug)]
pub struct PanelRow {
    pub id: i32,
    pub good: String,
    pub status: i32,
}

/// The text a bin's good is shown as: its hyphenated identifier, or nothing.
pub open spec fn good_label(good: Option<u128>) -> Seq<char> {
    match good {
        Some(g) => hyphenated(g),
        None => Seq::empty(),
    }
}

/// The row of `b` on its rack's panel.
pub open spec fn row_of(row: PanelRow, b: Bin) -> bool {
    &&& row.id == b.id
    &&& row.good@ == good_label(b.good)
    &&& row.status == b.status
}

/// The panel rows of `bins`, one per bin and in the same order.
pub fn panel_rows(bins: &Vec<Bin>) -> (res: Vec<PanelRow>)
    ensures
        res@.len() == bins@.len(),
        forall|i: int| 0 <= i < bins@.len() ==> row_of(#[trigger] res@[i], bins@[i]),
        forall|i: int| 0 <= i < bins@.len() ==> (#[trigger] res@[i]).id == bins@[i].id
            && res@[i].status == bins@[i].status,
        forall|i: int| 0 <= i < bins@.len() && bins@[i].good is Some
            ==> (#[trigger] res@[i]).good@ == hyphenated(bins@[i].good.unwrap()),
        forall|i: int| 0 <= i < bins@.len() && bins@[i].good is None ==> (#[trigger] res@[i]).good@.len() == 0,
{
    let n = bins.len();
    let mut res: Vec<PanelRow> = Vec::new();
    let mut i: usize = 0;
    while i < n
        invariant
            n == bins@.len(),
            i <= n,
            res@.len() == i,
            forall|j: int| 0 <= j < i ==> row_of(#[trigger] res@[j], bins@[j]),
        decreases n - i,
    {
        let b = bins[i];
        let good = match b.good {
            Some(g) => uuid_text(g),
            None => String::new(),
        };
        res.push(PanelRow { id: b.id, good, status: b.status });
        i = i + 1;
    }
    res
}

impl Warehouse {
    /// The panel of rack `rack`: a row for each of its bins, in the order of
    /// their identifiers.
    pub fn rack_panel(&self, rack: i32) -> (res: Vec<PanelRow>)
        ensures
            res@.len() == spec_rack(self@, rack).len(),
            forall|i: int| 0 <= i < res@.len() ==> row_of(#[trigger] res@[i], spec_rack(self@, rack)[i]),
            forall|i: int| 0 <= i < self@.bins.len() && (#[trigger] self@.bins[i]).rack == rack
                ==> exists|j: int| 0 <= j < res@.len() && (#[trigger] res@[j]).id == self@.bins[i].id
                    && res@[j].status == self@.bins[i].status
                    && res@[j].good@ == good_label(self@.bins[i].good),
    {
        let bins = self.rack_bins(rack);
        let res = panel_rows(&bins);
        proof {
            assert forall|i: int| 0 <= i < self@.bins.len() && (#[trigger] self@.bins[i]).rack == rack
                implies exists|j: int| 0 <= j < res@.len() && (#[trigger] res@[j]).id == self@.bins[i].id
                    && res@[j].status == self@.bins[i].status
                    && res@[j].good@ == good_label(self@.bins[i].good) by {
                assert(bins@.contains(self@.bins[i]));
                let j = choose|j: int| 0 <= j < bins@.len() && bins@[j] == self@.bins[i];
                assert(row_of(res@[j], bins@[j]));
            }
        }
        res
    }
}

} // verus!
