use vstd::prelude::*;
use crate::error::ApiError;

verus! {

/// Status of a bin that holds nothing and can be allocated.
pub const FREE: i32 = 0;
/// Status of a bin that a good has been allocated to and is on its way to.
pub const ALLOCATED: i32 = 1;
/// Status of a bin whose good has arrived and lies in it.
pub const STORED: i32 = 2;
/// Status of a bin whose good has been picked for departure.
pub const PICKED: i32 = 3;

/// One row of the bin table.
#[derive(Clone, Copy, Debug, PartialEq, Eq, Structural)]
pub struct Bin {
    pub id: i32,
    pub rack: i32,
    pub good: Option<u128>,
    pub status: i32,
}

/// Where a good lies: the bin's identifier and its rack.
#[derive(Clone, Copy, Debug, PartialEq, Eq, Structural)]
pub struct Slot {
    pub id: i32,
    pub rack: i32,
}

/// The moves of a good that is already in a bin.
#[derive(Clone, Copy, Debug, PartialEq, Eq, Structural)]
pub enum Step {
    /// The good reached its allocated bin.
    Arrive,
    /// The good was taken out of its bin for departure.
    Pick,
    /// The good left the warehouse; its bin becomes free.
    Depart,
}

/// A bin that can take a good: it holds none and its status is free.
pub open spec fn is_free(b: Bin) -> bool {
    b.good is None && b.status == FREE
}

/// A bin that holds `good` with status `status`.
pub open spec fn holds(b: Bin, good: u128, status: i32) -> bool {
    b.good == Some(good) && b.status == status
}

/// The status a bin must have for `step` to apply to it.
pub open spec fn spec_status_before(step: Step) -> i32 {
    match step {
        Step::Arrive => ALLOCATED,
        Step::Pick => STORED,
        Step::Depart => PICKED,
    }
}

/// The bin after `good` has been allocated to it.
pub open spec fn spec_occupied(b: Bin, good: u128) -> Bin {
    Bin { good: Some(good), status: ALLOCATED, ..b }
}

/// The bin after `step`.
pub open spec fn spec_advanced(b: Bin, step: Step) -> Bin {
    match step {
        Step::Arrive => Bin { status: STORED, ..b },
        Step::Pick => Bin { status: PICKED, ..b },
        Step::Depart => Bin { good: None, status: FREE, ..b },
    }
}

impl Bin {
    /// Whether the bin can take a good.
    pub fn is_free(&self) -> (res: bool)
        ensures
            res == is_free(*self),
    {
        self.good.is_none() && self.status == FREE
    }

    /// Whether the bin holds `good` with status `status`.
    pub fn holds(&self, good: u128, status: i32) -> (res: bool)
        ensures
            res == holds(*self, good, status),
    {
        match self.good {
            Some(g) => g == good && self.status == status,
            None => false,
        }
    }

    /// Where the bin stands.
    pub fn slot(&self) -> (res: Slot)
        ensures
            res == (Slot { id: self.id, rack: self.rack }),
    {
        Slot { id: self.id, rack: self.rack }
    }
}

impl Step {
    /// The status a bin must have for this step to apply to it.
    pub fn status_before(&self) -> (res: i32)
        ensures
            res == spec_status_before(*self),
    {
        match self {
            Step::Arrive => ALLOCATED,
            Step::Pick => STORED,
            Step::Depart => PICKED,
        }
    }
}

/// The bin after `good` has been allocated to it: it holds the good and is
/// marked as allocated; its identifier and rack stay.
pub fn occupy(b: Bin, good: u128) -> (res: Bin)
    ensures
        res == spec_occupied(b, good),
{
    Bin { good: Some(good), status: ALLOCATED, ..b }
}

/// The bin after `step`: arriving marks it as stored, picking as picked, and
/// departing empties it and marks it as free.
pub fn advance(b: Bin, step: Step) -> (res: Bin)
    ensures
        res == spec_advanced(b, step),
{
    match step {
        Step::Arrive => Bin { status: STORED, ..b },
        Step::Pick => Bin { status: PICKED, ..b },
        Step::Depart => Bin { good: None, status: FREE, ..b },
    }
}

/// Allocation of `good`, given whether the store found it registered and
/// the free bin it found for it, if any: a good that is not registered is
/// not found (whatever the bin), else without a bin the request fails with
/// `FreeBinNotFound`, else the bin is to be written back holding the good.
pub fn allocation(good: u128, registered: bool, free_bin: Option<Bin>) -> (res: Result<Bin, ApiError>)
    ensures
        res == (if !registered {
            Err::<Bin, ApiError>(ApiError::GoodNotFound(good))
        } else {
            match free_bin {
                None => Err::<Bin, ApiError>(ApiError::FreeBinNotFound),
                Some(b) => Ok(spec_occupied(b, good)),
            }
        }),
{
    if !registered {
        return Err(ApiError::GoodNotFound(good));
    }
    match free_bin {
        None => Err(ApiError::FreeBinNotFound),
        Some(b) => Ok(occupy(b, good)),
    }
}

/// A step of `good`, given the bin that the store found holding it with the
/// status that the step expects, if any: without one the request fails with
/// `GoodNotFound`, else the bin is to be written back advanced.
pub fn progression(good: u128, step: Step, found: Option<Bin>) -> (res: Result<Bin, ApiError>)
    ensures
        res == (match found {
            None => Err::<Bin, ApiError>(ApiError::GoodNotFound(good)),
            Some(b) => Ok(spec_advanced(b, step)),
        }),
{
    match found {
        None => Err(ApiError::GoodNotFound(good)),
        Some(b) => Ok(advance(b, step)),
    }
}

/// Where `good` lies, given the bin that the store found holding it as
/// stored, if any.
pub fn location(good: u128, found: Option<Bin>) -> (res: Result<Slot, ApiError>)
    ensures
        res == (match found {
            None => Err::<Slot, ApiError>(ApiError::GoodNotFound(good)),
            Some(b) => Ok(Slot { id: b.id, rack: b.rack }),
        }),
{
    match found {
        None => Err(ApiError::GoodNotFound(good)),
        Some(b) => Ok(b.slot()),
    }
}

} // verus!
