//! Tables of targets, laid out one after the other on a device.
use vstd::prelude::*;

use crate::device_mapper::{DmTarget, DmTargetView};
use crate::types::Sector;

verus! {

/// A kind of target that can stand in a table: it covers a number of sectors
/// and, placed at an offset, becomes a line of a device-mapper table.
pub trait Target {
    /// The target is well formed.
    spec fn well_formed(&self) -> bool;

    /// The number of sectors the target covers.
    spec fn spec_sectors(&self) -> u64;

    /// The target can be placed at `offset` without its sector numbers
    /// overflowing.
    spec fn fits_at(&self, offset: u64) -> bool;

    /// The table line of the target placed at `offset`.
    spec fn placed_at(&self, offset: u64) -> DmTargetView;

    fn sectors(&self) -> (r: Sector)
        requires
            self.well_formed(),
        ensures
            r == self.spec_sectors(),
    ;

    fn to_dm_target(&self, offset: Sector) -> (r: DmTarget)
        requires
            self.fits_at(offset),
        ensures
            r@ == self.placed_at(offset),
    ;
}

/// A sequence of targets, each placed right after the one before it.
pub struct Table<T: Target> {
    targets: Vec<T>,
}

impl<T: Target> View for Table<T> {
    type V = Seq<T>;

    closed spec fn view(&self) -> Seq<T> {
        self.targets@
    }
}

/// The sector at which target `i` of `ts` starts: the sum of the sizes of the
/// targets before it.
pub open spec fn start_of<T: Target>(ts: Seq<T>, i: int) -> int
    decreases i,
{
    if i <= 0 {
        0
    } else {
        start_of(ts, i - 1) + ts[i - 1].spec_sectors()
    }
}

/// Every target of `ts` is well formed, the targets' sizes add up to a sector
/// count, and each target fits at its start.
pub open spec fn can_lay_out<T: Target>(ts: Seq<T>) -> bool {
    &&& forall|i: int| 0 <= i < ts.len() ==> (#[trigger] ts[i]).well_formed()
    &&& start_of(ts, ts.len() as int) <= u64::MAX
    &&& forall|i: int| 0 <= i < ts.len() ==> (#[trigger] ts[i]).fits_at(start_of(ts, i) as u64)
}

/// The first target starts at sector 0, and each next target starts where the
/// one before it starts plus that target's size: its place depends on the sizes
/// of the targets before it and on nothing else.
pub proof fn lemma_start_of_steps<T: Target>(ts: Seq<T>, i: int)
    requires
        0 <= i < ts.len(),
    ensures
        start_of(ts, 0) == 0,
        start_of(ts, i + 1) == start_of(ts, i) + ts[i].spec_sectors(),
{
}

/// Starts never decrease along a table.
pub proof fn lemma_start_monotone<T: Target>(ts: Seq<T>, i: int, j: int)
    requires
        0 <= i <= j,
    ensures
        start_of(ts, i) <= start_of(ts, j),
    decreases j - i,
{
    if i < j {
        lemma_start_monotone(ts, i, j - 1);
    }
}

impl<T: Target> Table<T> {
    /// An empty table.
    pub fn new() -> (r: Table<T>)
        ensures
            r@ == Seq::<T>::empty(),
    {
        Table { targets: Vec::new() }
    }

    /// Appends `t` to the table, and hands the table back for further pushes.
    pub fn push(&mut self, t: T) -> (r: &mut Table<T>)
        ensures
            r@ == old(self)@.push(t),
            *final(self) == *final(r),
    {
        self.targets.push(t);
        self
    }

    /// The table lines of the targets, each placed at the sector where the
    /// targets before it end.
    pub fn to_dm_targets(&self) -> (r: Vec<DmTarget>)
        requires
            can_lay_out(self@),
        ensures
            r@.len() == self@.len(),
            forall|i: int|
                0 <= i < self@.len() ==> (#[trigger] r@[i])@ == self@[i].placed_at(
                    start_of(self@, i) as u64,
                ),
    {
        let mut r: Vec<DmTarget> = Vec::new();
        let mut offset: u64 = 0;
        let mut i: usize = 0;
        while i < self.targets.len()
            invariant
                0 <= i <= self@.len(),
                self@ == self.targets@,
                can_lay_out(self@),
                offset == start_of(self@, i as int),
                r@.len() == i,
                forall|k: int|
                    0 <= k < i ==> (#[trigger] r@[k])@ == self@[k].placed_at(
                        start_of(self@, k) as u64,
                    ),
            decreases self@.len() - i,
        {
            let t = &self.targets[i];
            assert(self@[i as int].well_formed());
            r.push(t.to_dm_target(offset));
            proof {
                lemma_start_monotone(self@, i + 1, self@.len() as int);
            }
            offset = offset + t.sectors();
            i = i + 1;
        }
        r
    }
}

} // verus!
