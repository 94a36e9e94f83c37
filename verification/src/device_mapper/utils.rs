//! Reading the major device numbers that device-mapper uses from a listing in
//! the format of `/proc/devices`.
use vstd::prelude::*;

use crate::text::{
    chars_eq,
    chars_of,
    fields,
    fields_of,
    lines,
    lines_of,
    parse_unsigned,
    parse_unsigned_in,
    views,
};

verus! {

/// The lines after the first line that reads `Block devices:`; none when no
/// line does.
pub open spec fn block_device_lines(ls: Seq<Seq<char>>) -> Seq<Seq<char>>
    decreases ls.len(),
{
    if ls.len() == 0 {
        Seq::empty()
    } else if ls[0] == "Block devices:"@ {
        ls.drop_first()
    } else {
        block_device_lines(ls.drop_first())
    }
}

/// What a line of the block device list says of device-mapper: `None` when it
/// is not a device-mapper line (two fields, the second `device-mapper`);
/// `Some(None)` when it is one whose number is not a `u32`; `Some(Some(n))`
/// when it gives the major number `n`.
pub open spec fn dm_line_major(line: Seq<char>) -> Option<Option<u32>> {
    let f = fields(line);
    if f.len() == 2 && f[1] == "device-mapper"@ {
        match parse_unsigned(f[0], u32::MAX as nat) {
            Some(n) => Some(Some(n as u32)),
            None => Some(None),
        }
    } else {
        None
    }
}

/// The major numbers of the device-mapper lines among `ls`, in order; `None`
/// when one of them has a number that is not a `u32`.
pub open spec fn dm_majors_of(ls: Seq<Seq<char>>) -> Option<Seq<u32>>
    decreases ls.len(),
{
    if ls.len() == 0 {
        Some(Seq::empty())
    } else {
        match dm_majors_of(ls.drop_last()) {
            None => None,
            Some(m) => match dm_line_major(ls.last()) {
                None => Some(m),
                Some(None) => None,
                Some(Some(n)) => Some(m.push(n)),
            },
        }
    }
}

/// The result of parsing a listing whose lines are `ls`.
pub open spec fn spec_parse_majors(ls: Seq<Seq<char>>) -> Option<Seq<u32>> {
    dm_majors_of(block_device_lines(ls))
}

/// What `line` says of device-mapper (see `dm_line_major`).
fn line_major(line: &Vec<char>, dm_name: &Vec<char>) -> (r: Option<Option<u32>>)
    requires
        dm_name@ == "device-mapper"@,
    ensures
        r == dm_line_major(line@),
{
    let f = fields_of(line);
    if f.len() == 2 && chars_eq(&f[1], dm_name) {
        assert(f@[1]@ == fields(line@)[1]);
        let first = &f[0];
        assert(first@ == fields(line@)[0]);
        assert(first@.subrange(0, first@.len() as int) =~= first@);
        match parse_unsigned_in(first, 0, first.len(), 0xffff_ffff) {
            Some(n) => Some(Some(n as u32)),
            None => Some(None),
        }
    } else {
        None
    }
}

/// The major numbers of the device-mapper lines among the block devices of a
/// listing given line by line; `None` when such a line has a number that is not
/// a `u32`.
pub fn parse_majors_lines(lines: &Vec<String>) -> (r: Option<Vec<u32>>)
    ensures
        match spec_parse_majors(lines@.map_values(|l: String| l@)) {
            Some(m) => r matches Some(v) && v@ == m,
            None => r is None,
        },
{
    let ghost ls = lines@.map_values(|l: String| l@);
    let header = chars_of("Block devices:");
    let dm_name = chars_of("device-mapper");
    let mut i: usize = 0;
    assert(ls.skip(0) =~= ls);
    while i < lines.len()
        invariant
            0 <= i <= lines@.len(),
            ls == lines@.map_values(|l: String| l@),
            header@ == "Block devices:"@,
            block_device_lines(ls) == block_device_lines(ls.skip(i as int)),
        ensures
            0 <= i <= lines@.len(),
            block_device_lines(ls) == block_device_lines(ls.skip(i as int)),
            i < lines@.len() ==> ls[i as int] == "Block devices:"@,
        decreases lines@.len() - i,
    {
        let line = chars_of(lines[i].as_str());
        assert(ls.skip(i as int)[0] == line@);
        assert(ls.skip(i as int).drop_first() =~= ls.skip(i + 1));
        if chars_eq(&line, &header) {
            break;
        }
        i = i + 1;
    }
    let ghost rest = block_device_lines(ls);
    if i == lines.len() {
        assert(ls.skip(i as int) =~= Seq::<Seq<char>>::empty());
        assert(rest =~= Seq::<Seq<char>>::empty());
        return Some(Vec::new());
    }
    assert(ls.skip(i as int)[0] == ls[i as int]);
    assert(ls.skip(i as int).drop_first() =~= ls.skip(i + 1));
    i = i + 1;
    assert(rest =~= ls.skip(i as int));
    let start = i;
    let mut majors: Vec<u32> = Vec::new();
    assert(rest.take(0) =~= Seq::<Seq<char>>::empty());
    while i < lines.len()
        invariant
            start <= i <= lines@.len(),
            ls == lines@.map_values(|l: String| l@),
            rest == ls.skip(start as int),
            rest == block_device_lines(ls),
            dm_name@ == "device-mapper"@,
            dm_majors_of(rest.take(i - start)) == Some(majors@),
        decreases lines@.len() - i,
    {
        let line = chars_of(lines[i].as_str());
        let ghost prefix = rest.take(i - start + 1);
        assert(prefix.drop_last() =~= rest.take(i - start));
        assert(prefix.last() == line@);
        match line_major(&line, &dm_name) {
            None => {},
            Some(None) => {
                assert(dm_majors_of(prefix) is None);
                proof {
                    lemma_majors_stay_none(rest, i - start + 1, rest.len() as int);
                    assert(rest.take(rest.len() as int) =~= rest);
                }
                return None;
            },
            Some(Some(n)) => {
                majors.push(n);
            },
        }
        i = i + 1;
    }
    assert(rest.take(i - start) =~= rest);
    Some(majors)
}

/// Once a prefix of the lines has no answer, no longer prefix has one.
proof fn lemma_majors_stay_none(ls: Seq<Seq<char>>, i: int, j: int)
    requires
        0 <= i <= j <= ls.len(),
        dm_majors_of(ls.take(i)) is None,
    ensures
        dm_majors_of(ls.take(j)) is None,
    decreases j - i,
{
    if i < j {
        lemma_majors_stay_none(ls, i, j - 1);
        assert(ls.take(j).drop_last() =~= ls.take(j - 1));
    }
}

/// The major numbers of the device-mapper lines among the block devices of a
/// listing in the format of `/proc/devices` (see `parse_majors_lines`), the
/// listing split into lines as `BufRead::lines` splits it.
pub fn parse_majors(text: &str) -> (r: Option<Vec<u32>>)
    ensures
        match spec_parse_majors(lines(text@)) {
            Some(m) => r matches Some(v) && v@ == m,
            None => r is None,
        },
{
    let chars = chars_of(text);
    let ls = lines_of(&chars);
    let mut strings: Vec<String> = Vec::new();
    let mut i: usize = 0;
    while i < ls.len()
        invariant
            0 <= i <= ls@.len(),
            strings@.len() == i,
            forall|j: int| 0 <= j < i ==> (#[trigger] strings@[j])@ == ls@[j]@,
        decreases ls@.len() - i,
    {
        let line = &ls[i];
        strings.push(crate::text::string_from_chars(line, 0, line.len()));
        assert(line@.subrange(0, line@.len() as int) =~= line@);
        i = i + 1;
    }
    assert(strings@.map_values(|l: String| l@) =~= views(ls@));
    parse_majors_lines(&strings)
}

} // verus!
