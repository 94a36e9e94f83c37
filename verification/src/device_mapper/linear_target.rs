//! The `linear` target: a range of sectors of another device.
use vstd::prelude::*;

use crate::device_mapper::high_level::{can_lay_out, lemma_start_of_steps, start_of, Target};
use crate::device_mapper::{DmTarget, DmTargetView};
use crate::text::{decimal, lemma_parse_decimal, parse_unsigned, push_char, push_decimal};
use crate::types::Sector;

verus! {

/// Maps sectors `begin..end` of the device `dev` (its path, as displayed).
#[derive(Debug)]
pub struct LinearTarget {
    pub dev: String,
    pub begin: Sector,
    pub end: Sector,
}

impl Target for LinearTarget {
    open spec fn well_formed(&self) -> bool {
        self.begin <= self.end
    }

    open spec fn spec_sectors(&self) -> u64 {
        (self.end - self.begin) as u64
    }

    open spec fn fits_at(&self, offset: u64) -> bool {
        offset + self.end <= u64::MAX
    }

    /// A `linear` line from `offset` to `offset + end`, whose arguments are the
    /// device and the first sector, separated by a space.
    open spec fn placed_at(&self, offset: u64) -> DmTargetView {
        DmTargetView {
            target_type: "linear"@,
            sector_begin: offset,
            sector_end: (offset + self.end) as u64,
            ctr_args: self.dev@.push(' ') + decimal(self.begin as nat),
        }
    }

    fn sectors(&self) -> (r: Sector) {
        self.end - self.begin
    }

    fn to_dm_target(&self, offset: Sector) -> (r: DmTarget) {
        let mut ctr_args = self.dev.clone();
        push_char(&mut ctr_args, ' ');
        push_decimal(&mut ctr_args, self.begin);
        DmTarget {
            target_type: String::from_str("linear"),
            sector_begin: offset,
            sector_end: offset + self.end,
            ctr_args,
        }
    }
}

/// In a table of linear targets, each line after the first begins where the line
/// before it begins plus the size `end - begin` of the target before it.
pub proof fn lemma_linear_lines_adjacent(ts: Seq<LinearTarget>, i: int)
    requires
        can_lay_out(ts),
        0 <= i,
        i + 1 < ts.len(),
    ensures
        ts[i + 1].placed_at(start_of(ts, i + 1) as u64).sector_begin == ts[i].placed_at(
            start_of(ts, i) as u64,
        ).sector_begin + (ts[i].end - ts[i].begin),
        ts[0].placed_at(start_of(ts, 0) as u64).sector_begin == 0,
{
    lemma_start_of_steps(ts, i);
    crate::device_mapper::high_level::lemma_start_monotone(ts, i + 1, ts.len() as int);
    crate::device_mapper::high_level::lemma_start_monotone(ts, 0, i);
    assert(ts[i].well_formed());
    assert(0 <= start_of(ts, i) <= start_of(ts, i + 1) <= u64::MAX);
}

/// The line of a linear target placed at `offset` is a `linear` line from
/// `offset` to `offset + end`, whose arguments are the device, one space, and
/// text that reads back as the first sector, whatever its size.
pub proof fn lemma_linear_line(t: LinearTarget, offset: u64)
    requires
        t.fits_at(offset),
    ensures
        t.placed_at(offset).target_type == "linear"@,
        t.placed_at(offset).sector_begin == offset,
        t.placed_at(offset).sector_end == offset + t.end,
        t.placed_at(offset).ctr_args.len() > t.dev@.len() + 1,
        t.placed_at(offset).ctr_args.take(t.dev@.len() as int) == t.dev@,
        t.placed_at(offset).ctr_args[t.dev@.len() as int] == ' ',
        parse_unsigned(t.placed_at(offset).ctr_args.skip(t.dev@.len() + 1 as int), u64::MAX as nat)
            == Some(t.begin as nat),
{
    let a = t.placed_at(offset).ctr_args;
    let n = t.dev@.len() as int;
    crate::text::lemma_decimal_digits(t.begin as nat);
    lemma_parse_decimal(t.begin as nat, u64::MAX as nat);
    assert(a.take(n) =~= t.dev@);
    assert(a.skip(n + 1) =~= decimal(t.begin as nat));
}

} // verus!
