//! Reading a device-mapper table written on one line, its target lines
//! separated by the two characters `\` and `n`, each line of the form
//! `<begin> <end> <type> <arguments>`.
use vstd::prelude::*;

use crate::device_mapper::{DmTarget, DmTargetView};
use crate::text::{
    all_digits,
    chars_of,
    decimal,
    is_white_space,
    lemma_decimal_digits,
    lemma_parse_decimal,
    parse_unsigned,
    parse_unsigned_in,
    string_from_chars,
    white_space,
};

verus! {

/// A character that `contains_text` does not count as text.
pub open spec fn is_blank(c: char) -> bool {
    c == ' ' || c == '\t' || c == '\r' || c == '\n'
}

/// `s` holds a character other than a space, tab, carriage return or newline.
pub open spec fn has_text(s: Seq<char>) -> bool {
    exists|i: int| 0 <= i < s.len() && !is_blank(#[trigger] s[i])
}

/// Whether `s` holds a character other than a space, tab, carriage return or
/// newline.
pub fn contains_text(s: &str) -> (r: bool)
    ensures
        r == has_text(s@),
{
    let v = chars_of(s);
    assert(v@.subrange(0, v@.len() as int) =~= v@);
    has_text_in(&v, 0, v.len())
}

/// Whether `v[start..end]` holds a character that is not blank.
fn has_text_in(v: &Vec<char>, start: usize, end: usize) -> (r: bool)
    requires
        start <= end <= v@.len(),
    ensures
        r == has_text(v@.subrange(start as int, end as int)),
{
    let ghost s = v@.subrange(start as int, end as int);
    let mut i = start;
    while i < end
        invariant
            start <= i <= end <= v@.len(),
            s == v@.subrange(start as int, end as int),
            forall|j: int| start <= j < i ==> is_blank(#[trigger] v@[j]),
        decreases end - i,
    {
        let c = v[i];
        if !(c == ' ' || c == '\t' || c == '\r' || c == '\n') {
            assert(s[i - start] == c);
            return true;
        }
        i = i + 1;
    }
    assert forall|j: int| 0 <= j < s.len() implies is_blank(#[trigger] s[j]) by {
        assert(s[j] == v@[start + j]);
    }
    false
}

/// The pieces of `t` between occurrences of the two characters `\` and `n`, as
/// `str::split("\\n")` gives them.  (Occurrences cannot overlap, since the two
/// characters differ.)
pub open spec fn split_escaped_newlines(t: Seq<char>) -> Seq<Seq<char>>
    decreases t.len(),
{
    if t.len() == 0 {
        seq![Seq::<char>::empty()]
    } else if t.len() >= 2 && t[t.len() - 2] == '\\' && t.last() == 'n' {
        split_escaped_newlines(t.take(t.len() - 2)).push(Seq::<char>::empty())
    } else {
        let p = split_escaped_newlines(t.drop_last());
        p.update(p.len() - 1, p.last().push(t.last()))
    }
}

/// There is always at least one piece.
pub proof fn lemma_split_escaped_len(t: Seq<char>)
    ensures
        split_escaped_newlines(t).len() >= 1,
    decreases t.len(),
{
    if t.len() >= 2 && t[t.len() - 2] == '\\' && t.last() == 'n' {
        lemma_split_escaped_len(t.take(t.len() - 2));
    } else if t.len() > 0 {
        lemma_split_escaped_len(t.drop_last());
    }
}

/// The classes of characters that a target line is made of.
pub enum CharClass {
    /// An ASCII digit, `[0-9]`.
    Digit,
    /// Unicode white space, `\s`.
    Space,
    /// An ASCII letter, `[a-zA-Z]`.
    Letter,
}

/// `c` belongs to `class`.
pub open spec fn in_class(c: char, class: CharClass) -> bool {
    match class {
        CharClass::Digit => '0' <= c <= '9',
        CharClass::Space => is_white_space(c),
        CharClass::Letter => ('a' <= c <= 'z') || ('A' <= c <= 'Z'),
    }
}

/// The number of characters of `class` in `s` from position `i` on, up to the
/// first that is not of it.
pub open spec fn run(s: Seq<char>, i: int, class: CharClass) -> nat
    decreases s.len() - i,
{
    if 0 <= i < s.len() && in_class(s[i], class) {
        1 + run(s, i + 1, class)
    } else {
        0
    }
}

/// A run ends inside the string.
pub proof fn lemma_run_bound(s: Seq<char>, i: int, class: CharClass)
    requires
        0 <= i <= s.len(),
    ensures
        i + run(s, i, class) <= s.len(),
    decreases s.len() - i,
{
    if i < s.len() && in_class(s[i], class) {
        lemma_run_bound(s, i + 1, class);
    }
}

/// The four groups of a target line, the line read as the regular expression
/// `^([0-9]+)\s+([0-9]+)\s+([a-zA-Z]+)\s+(.*)$` reads it: the begin sector,
/// the end sector, the target type, and the rest of the line after the white
/// space that follows the type.  `None` when the line does not have that form,
/// including when the rest holds a newline.
pub open spec fn target_line_groups(l: Seq<char>) -> Option<
    (Seq<char>, Seq<char>, Seq<char>, Seq<char>),
> {
    let p1 = run(l, 0, CharClass::Digit) as int;
    let p2 = p1 + run(l, p1, CharClass::Space);
    let p3 = p2 + run(l, p2, CharClass::Digit);
    let p4 = p3 + run(l, p3, CharClass::Space);
    let p5 = p4 + run(l, p4, CharClass::Letter);
    let p6 = p5 + run(l, p5, CharClass::Space);
    if 0 < p1 < p2 < p3 < p4 < p5 < p6 && !l.skip(p6).contains('\n') {
        Some((l.take(p1), l.subrange(p2, p3), l.subrange(p4, p5), l.skip(p6)))
    } else {
        None
    }
}

/// Why a table could not be read.
#[derive(Debug, PartialEq, Eq, Structural)]
pub enum TableParseError {
    /// A line does not have the form of a target line.
    BadTargetLine,
    /// The begin sector of a line does not fit a `u64`.
    BadSectorBegin,
    /// The end sector of a line does not fit a `u64`.
    BadSectorEnd,
}

impl TableParseError {
    /// The message of the error.
    pub fn message(&self) -> (r: &'static str)
        ensures
            r@ == match self {
                TableParseError::BadTargetLine => "couldn't parse target line"@,
                TableParseError::BadSectorBegin => "couldn't parse sector begin"@,
                TableParseError::BadSectorEnd => "couldn't parse sector end"@,
            },
    {
        match self {
            TableParseError::BadTargetLine => "couldn't parse target line",
            TableParseError::BadSectorBegin => "couldn't parse sector begin",
            TableParseError::BadSectorEnd => "couldn't parse sector end",
        }
    }
}

/// The table line that a target line describes.
pub open spec fn parse_target_line(l: Seq<char>) -> Result<DmTargetView, TableParseError> {
    match target_line_groups(l) {
        None => Err(TableParseError::BadTargetLine),
        Some((b, e, t, a)) => match parse_unsigned(b, u64::MAX as nat) {
            None => Err(TableParseError::BadSectorBegin),
            Some(begin) => match parse_unsigned(e, u64::MAX as nat) {
                None => Err(TableParseError::BadSectorEnd),
                Some(end) => Ok(
                    DmTargetView {
                        target_type: t,
                        sector_begin: begin as u64,
                        sector_end: end as u64,
                        ctr_args: a,
                    },
                ),
            },
        },
    }
}

/// The table lines that `ls` describe, lines without text skipped; the error
/// of the first line that cannot be read, if any.
pub open spec fn parse_target_lines(ls: Seq<Seq<char>>) -> Result<Seq<DmTargetView>, TableParseError>
    decreases ls.len(),
{
    if ls.len() == 0 {
        Ok(Seq::empty())
    } else {
        match parse_target_lines(ls.drop_last()) {
            Err(e) => Err(e),
            Ok(v) => if !has_text(ls.last()) {
                Ok(v)
            } else {
                match parse_target_line(ls.last()) {
                    Err(e) => Err(e),
                    Ok(t) => Ok(v.push(t)),
                }
            },
        }
    }
}

/// The table that the text `s` describes.
pub open spec fn spec_parse_table(s: Seq<char>) -> Result<Seq<DmTargetView>, TableParseError> {
    parse_target_lines(split_escaped_newlines(s))
}

/// The pieces of `t` between occurrences of `\` followed by `n`.
fn split_escaped_of(t: &Vec<char>) -> (r: Vec<Vec<char>>)
    ensures
        crate::text::views(r@) == split_escaped_newlines(t@),
{
    let mut done: Vec<Vec<char>> = Vec::new();
    let mut cur: Vec<char> = Vec::new();
    let n = t.len();
    let mut i: usize = 0;
    assert(t@.take(0) =~= Seq::<char>::empty());
    while i < n
        invariant
            0 <= i <= n,
            n == t@.len(),
            split_escaped_newlines(t@.take(i as int)).len() >= 1,
            crate::text::views(done@).push(cur@) == split_escaped_newlines(t@.take(i as int)),
            i > 0 && t@[i - 1] == '\\' && i < n ==> t@[i as int] != 'n',
        decreases n - i,
    {
        let ghost before = crate::text::views(done@);
        if i + 1 < n && t[i] == '\\' && t[i + 1] == 'n' {
            let ghost next = t@.take(i + 2);
            assert(next.take(next.len() - 2) =~= t@.take(i as int));
            done.push(cur);
            cur = Vec::new();
            assert(crate::text::views(done@) =~= before.push(split_escaped_newlines(t@.take(i as int)).last()));
            assert(crate::text::views(done@).push(cur@) =~= split_escaped_newlines(next));
            proof {
                lemma_split_escaped_len(next);
            }
            i = i + 2;
        } else {
            let c = t[i];
            let ghost next = t@.take(i + 1);
            assert(next.drop_last() =~= t@.take(i as int));
            assert(next.last() == c);
            if i >= 1 {
                assert(next[next.len() - 2] == t@[i - 1]);
            }
            cur.push(c);
            assert(crate::text::views(done@).push(cur@) =~= split_escaped_newlines(next));
            proof {
                lemma_split_escaped_len(next);
            }
            i = i + 1;
        }
    }
    assert(t@.take(n as int) =~= t@);
    done.push(cur);
    done
}

/// The number of characters of `class` in `v` from position `i` on.
fn class_run(v: &Vec<char>, i: usize, class: CharClass) -> (r: usize)
    requires
        i <= v@.len(),
    ensures
        r == run(v@, i as int, class),
        i + r <= v.len(),
{
    let mut j = i;
    while j < v.len()
        invariant
            i <= j <= v@.len(),
            run(v@, i as int, class) == (j - i) + run(v@, j as int, class),
        decreases v@.len() - j,
    {
        let c = v[j];
        let inside = match class {
            CharClass::Digit => '0' <= c && c <= '9',
            CharClass::Space => white_space(c),
            CharClass::Letter => ('a' <= c && c <= 'z') || ('A' <= c && c <= 'Z'),
        };
        if !inside {
            return j - i;
        }
        j = j + 1;
    }
    j - i
}

/// Whether `v[start..]` holds a newline.
fn has_newline_from(v: &Vec<char>, start: usize) -> (r: bool)
    requires
        start <= v@.len(),
    ensures
        r == v@.skip(start as int).contains('\n'),
{
    let mut i = start;
    while i < v.len()
        invariant
            start <= i <= v@.len(),
            forall|j: int| start <= j < i ==> v@[j] != '\n',
        decreases v@.len() - i,
    {
        if v[i] == '\n' {
            assert(v@.skip(start as int)[i - start] == '\n');
            return true;
        }
        i = i + 1;
    }
    assert forall|j: int| 0 <= j < v@.skip(start as int).len() implies v@.skip(start as int)[j] != '\n' by {
        assert(v@.skip(start as int)[j] == v@[start + j]);
    }
    false
}

/// The table line that the target line `l` describes.
fn parse_line(l: &Vec<char>) -> (r: Result<DmTarget, TableParseError>)
    ensures
        match parse_target_line(l@) {
            Ok(t) => r matches Ok(x) && x@ == t,
            Err(e) => r == Err::<DmTarget, TableParseError>(e),
        },
{
    let p1 = class_run(l, 0, CharClass::Digit);
    let p2 = p1 + class_run(l, p1, CharClass::Space);
    let p3 = p2 + class_run(l, p2, CharClass::Digit);
    let p4 = p3 + class_run(l, p3, CharClass::Space);
    let p5 = p4 + class_run(l, p4, CharClass::Letter);
    let p6 = p5 + class_run(l, p5, CharClass::Space);
    if !(0 < p1 && p1 < p2 && p2 < p3 && p3 < p4 && p4 < p5 && p5 < p6) || has_newline_from(
        l,
        p6,
    ) {
        return Err(TableParseError::BadTargetLine);
    }
    let ghost g = target_line_groups(l@)->0;
    assert(g.0 =~= l@.subrange(0, p1 as int));
    let begin = match parse_unsigned_in(l, 0, p1, u64::MAX) {
        Some(b) => b,
        None => {
            return Err(TableParseError::BadSectorBegin);
        },
    };
    let end = match parse_unsigned_in(l, p2, p3, u64::MAX) {
        Some(e) => e,
        None => {
            return Err(TableParseError::BadSectorEnd);
        },
    };
    let target_type = string_from_chars(l, p4, p5);
    let ctr_args = string_from_chars(l, p6, l.len());
    assert(l@.subrange(p6 as int, l@.len() as int) =~= l@.skip(p6 as int));
    Ok(DmTarget { target_type, sector_begin: begin, sector_end: end, ctr_args })
}

/// The views of a sequence of table lines.
pub open spec fn target_views(v: Seq<DmTarget>) -> Seq<DmTargetView> {
    v.map_values(|t: DmTarget| t@)
}

/// What one piece of a table text contributes: nothing when it has no text,
/// else the table line it describes.
fn parse_piece(piece: &Vec<char>) -> (r: Result<Option<DmTarget>, TableParseError>)
    ensures
        !has_text(piece@) ==> r matches Ok(None),
        has_text(piece@) ==> match parse_target_line(piece@) {
            Ok(t) => r matches Ok(Some(x)) && x@ == t,
            Err(e) => r == Err::<Option<DmTarget>, TableParseError>(e),
        },
{
    assert(piece@.subrange(0, piece@.len() as int) =~= piece@);
    if has_text_in(piece, 0, piece.len()) {
        match parse_line(piece) {
            Ok(t) => Ok(Some(t)),
            Err(e) => Err(e),
        }
    } else {
        Ok(None)
    }
}

/// Reads a table written on one line: the text is split at each `\` followed
/// by `n`, pieces without text are skipped, and each other piece is read as a
/// target line (see `target_line_groups`).  The first piece that cannot be read
/// gives the error.
pub fn parse_table(s: &String) -> (r: Result<Vec<DmTarget>, TableParseError>)
    ensures
        match spec_parse_table(s@) {
            Ok(ts) => r matches Ok(v) && target_views(v@) == ts,
            Err(e) => r == Err::<Vec<DmTarget>, TableParseError>(e),
        },
{
    let chars = chars_of(s.as_str());
    let pieces = split_escaped_of(&chars);
    let ghost ls = crate::text::views(pieces@);
    let mut r: Vec<DmTarget> = Vec::new();
    let mut i: usize = 0;
    assert(ls.take(0) =~= Seq::<Seq<char>>::empty());
    assert(target_views(r@) =~= Seq::<DmTargetView>::empty());
    while i < pieces.len()
        invariant
            0 <= i <= pieces@.len(),
            ls == crate::text::views(pieces@),
            ls == split_escaped_newlines(s@),
            parse_target_lines(ls.take(i as int)) == Ok::<Seq<DmTargetView>, TableParseError>(
                target_views(r@),
            ),
        decreases pieces@.len() - i,
    {
        let ghost prefix = ls.take(i + 1);
        assert(prefix.drop_last() =~= ls.take(i as int));
        assert(prefix.last() == pieces@[i as int]@);
        match parse_piece(&pieces[i]) {
            Ok(Some(t)) => {
                let ghost before = target_views(r@);
                r.push(t);
                assert(target_views(r@) =~= before.push(t@));
            },
            Ok(None) => {},
            Err(e) => {
                proof {
                    lemma_lines_stay_err(ls, i + 1, ls.len() as int);
                    assert(ls.take(ls.len() as int) =~= ls);
                }
                return Err(e);
            },
        }
        i = i + 1;
    }
    assert(ls.take(i as int) =~= ls);
    Ok(r)
}

/// Once a prefix of the lines gives an error, every longer prefix gives the same
/// error.
proof fn lemma_lines_stay_err(ls: Seq<Seq<char>>, i: int, j: int)
    requires
        0 <= i <= j <= ls.len(),
        parse_target_lines(ls.take(i)) is Err,
    ensures
        parse_target_lines(ls.take(j)) == parse_target_lines(ls.take(i)),
    decreases j - i,
{
    if i < j {
        lemma_lines_stay_err(ls, i, j - 1);
        assert(ls.take(j).drop_last() =~= ls.take(j - 1));
    }
}

/// A run that covers `k` characters of its class and then stops has length `k`.
pub proof fn lemma_run_exact(s: Seq<char>, i: int, k: int, class: CharClass)
    requires
        0 <= i,
        0 <= k,
        i + k <= s.len(),
        forall|j: int| i <= j < i + k ==> in_class(#[trigger] s[j], class),
        i + k == s.len() || !in_class(s[i + k], class),
    ensures
        run(s, i, class) == k,
    decreases k,
{
    if k > 0 {
        lemma_run_exact(s, i + 1, k - 1, class);
    }
}

/// A text holding no backslash is a single piece.
pub proof fn lemma_split_without_backslash(t: Seq<char>)
    requires
        !t.contains('\\'),
    ensures
        split_escaped_newlines(t) == seq![t],
    decreases t.len(),
{
    if t.len() == 0 {
        assert(t =~= Seq::<char>::empty());
    } else {
        let u = t.drop_last();
        assert(!u.contains('\\')) by {
            if u.contains('\\') {
                let j = choose|j: int| 0 <= j < u.len() && u[j] == '\\';
                assert(t[j] == '\\');
            }
        }
        if t.len() >= 2 {
            assert(t[t.len() - 2] != '\\');
        }
        lemma_split_without_backslash(u);
        assert(u.push(t.last()) =~= t);
        assert(seq![u].update(0, u.push(t.last())) =~= seq![t]);
    }
}

/// Every ASCII letter string.
pub open spec fn all_letters(s: Seq<char>) -> bool {
    forall|i: int| 0 <= i < s.len() ==> in_class(#[trigger] s[i], CharClass::Letter)
}

/// A table text of one target line, written with single spaces, begin and end
/// sectors any `u64` values in decimal, a target type of ASCII letters, and
/// arguments holding no newline and no backslash and not starting with white
/// space, reads back as that one table line: the sectors are read in full, up
/// to `u64::MAX`.
pub proof fn lemma_parse_written_line(
    begin: u64,
    end: u64,
    target_type: Seq<char>,
    args: Seq<char>,
)
    requires
        target_type.len() > 0,
        all_letters(target_type),
        !args.contains('\n'),
        !args.contains('\\'),
        args.len() > 0 ==> !is_white_space(args[0]),
    ensures
        spec_parse_table(
            decimal(begin as nat) + seq![' '] + decimal(end as nat) + seq![' '] + target_type
                + seq![' '] + args,
        ) == Ok::<Seq<DmTargetView>, TableParseError>(
            seq![
                DmTargetView {
                    target_type: target_type,
                    sector_begin: begin,
                    sector_end: end,
                    ctr_args: args,
                },
            ],
        ),
{
    let db = decimal(begin as nat);
    let de = decimal(end as nat);
    lemma_decimal_digits(begin as nat);
    lemma_decimal_digits(end as nat);
    lemma_parse_decimal(begin as nat, u64::MAX as nat);
    lemma_parse_decimal(end as nat, u64::MAX as nat);
    let l = db + seq![' '] + de + seq![' '] + target_type + seq![' '] + args;
    let p1 = db.len() as int;
    let p2 = p1 + 1;
    let p3 = p2 + de.len();
    let p4 = p3 + 1;
    let p5 = p4 + target_type.len();
    let p6 = p5 + 1;
    assert(l.len() == p6 + args.len());
    assert forall|j: int| 0 <= j < p1 implies l[j] == db[j] by {}
    assert forall|j: int| p2 <= j < p3 implies l[j] == de[j - p2] by {}
    assert forall|j: int| p4 <= j < p5 implies l[j] == target_type[j - p4] by {}
    assert(l[p1] == ' ' && l[p3] == ' ' && l[p5] == ' ');
    assert(l.skip(p6) =~= args);
    assert(l.take(p1) =~= db);
    assert(l.subrange(p2, p3) =~= de);
    assert(l.subrange(p4, p5) =~= target_type);
    assert forall|j: int| 0 <= j < p1 implies in_class(#[trigger] l[j], CharClass::Digit) by {
        assert(l[j] == db[j]);
        assert(crate::text::is_digit(db[j]));
    }
    lemma_run_exact(l, 0, p1, CharClass::Digit);
    assert(crate::text::is_digit(de[0]));
    assert(l[p2] == de[0]);
    lemma_run_exact(l, p1, 1, CharClass::Space);
    assert forall|j: int| p2 <= j < p3 implies in_class(#[trigger] l[j], CharClass::Digit) by {
        assert(l[j] == de[j - p2]);
        assert(crate::text::is_digit(de[j - p2]));
    }
    lemma_run_exact(l, p2, de.len() as int, CharClass::Digit);
    assert(l[p4] == target_type[0]);
    assert(in_class(target_type[0], CharClass::Letter));
    lemma_run_exact(l, p3, 1, CharClass::Space);
    assert forall|j: int| p4 <= j < p5 implies in_class(#[trigger] l[j], CharClass::Letter) by {
        assert(l[j] == target_type[j - p4]);
    }
    lemma_run_exact(l, p4, target_type.len() as int, CharClass::Letter);
    if args.len() > 0 {
        assert(l[p6] == args[0]);
    }
    lemma_run_exact(l, p5, 1, CharClass::Space);
    assert(target_line_groups(l) == Some((db, de, target_type, args)));
    assert(!l.contains('\\')) by {
        if l.contains('\\') {
            let j = choose|j: int| 0 <= j < l.len() && l[j] == '\\';
            if j < p1 {
                assert(crate::text::is_digit(db[j]));
            } else if p2 <= j < p3 {
                assert(crate::text::is_digit(de[j - p2]));
            } else if p4 <= j < p5 {
                assert(in_class(target_type[j - p4], CharClass::Letter));
            } else if j >= p6 {
                assert(args[j - p6] == l[j]);
            }
        }
    }
    lemma_split_without_backslash(l);
    assert(!is_blank(l[0]));
    assert(has_text(l));
    let ls = seq![l];
    let view = DmTargetView {
        target_type: target_type,
        sector_begin: begin,
        sector_end: end,
        ctr_args: args,
    };
    assert(parse_unsigned(db, u64::MAX as nat) == Some(begin as nat));
    assert(parse_target_line(l) == Ok::<DmTargetView, TableParseError>(view));
    assert(ls.drop_last() =~= Seq::<Seq<char>>::empty());
    assert(ls.last() == l);
    assert(parse_target_lines(ls.drop_last()) == Ok::<Seq<DmTargetView>, TableParseError>(
        Seq::empty(),
    ));
    assert(parse_target_lines(ls) == Ok::<Seq<DmTargetView>, TableParseError>(
        Seq::<DmTargetView>::empty().push(view),
    ));
    assert(Seq::<DmTargetView>::empty().push(
        DmTargetView { target_type: target_type, sector_begin: begin, sector_end: end, ctr_args: args },
    ) =~= seq![DmTargetView { target_type: target_type, sector_begin: begin, sector_end: end, ctr_args: args }]);
}

} // verus!
