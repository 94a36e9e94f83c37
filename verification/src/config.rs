//! The lexing helpers of the configuration file reader.
use vstd::prelude::*;

verus! {

/// Whether the byte `c` is a space character.
pub fn is_space(c: &u8) -> (r: bool)
    ensures
        r == (*c == 0x20u8),
{
    *c == 0x20u8
}

/// The number of space bytes at the start of `s`.
pub open spec fn leading_spaces(s: Seq<u8>) -> nat
    decreases s.len(),
{
    if s.len() > 0 && s[0] == 0x20u8 {
        1 + leading_spaces(s.drop_first())
    } else {
        0
    }
}

/// The input with its leading spaces skipped.
pub fn eat_space(input: &[u8]) -> (r: &[u8])
    ensures
        r@ == input@.skip(leading_spaces(input@) as int),
        r@.len() > 0 ==> r@[0] != 0x20u8,
{
    let mut i: usize = 0;
    assert(input@.skip(0) =~= input@);
    while i < input.len() && is_space(&input[i])
        invariant
            0 <= i <= input@.len(),
            leading_spaces(input@) == i + leading_spaces(input@.skip(i as int)),
        decreases input@.len() - i,
    {
        assert(input@.skip(i as int).drop_first() =~= input@.skip(i + 1));
        i = i + 1;
    }
    let r = vstd::slice::slice_subrange(input, i, input.len());
    assert(r@ =~= input@.skip(i as int));
    r
}

} // verus!
