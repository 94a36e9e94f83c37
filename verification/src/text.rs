//! Character-level helpers shared by the parsers and formatters of the
//! crate: Unicode white space, decimal numbers, and building strings.
use vstd::prelude::*;

verus! {

/// The Unicode `White_Space` property: the characters that `char::is_whitespace`
/// accepts and that the `\s` class of a Unicode regular expression matches.
pub open spec fn is_white_space(c: char) -> bool {
    let v = c as u32;
    ||| 0x09 <= v <= 0x0d
    ||| v == 0x20
    ||| v == 0x85
    ||| v == 0xa0
    ||| v == 0x1680
    ||| 0x2000 <= v <= 0x200a
    ||| v == 0x2028
    ||| v == 0x2029
    ||| v == 0x202f
    ||| v == 0x205f
    ||| v == 0x3000
}

/// Executable test for `is_white_space`.
pub fn white_space(c: char) -> (r: bool)
    ensures
        r == is_white_space(c),
{
    let v = c as u32;
    (0x09 <= v && v <= 0x0d) || v == 0x20 || v == 0x85 || v == 0xa0 || v == 0x1680 || (0x2000
        <= v && v <= 0x200a) || v == 0x2028 || v == 0x2029 || v == 0x202f || v == 0x205f || v
        == 0x3000
}

/// An ASCII decimal digit, `0` to `9`.
pub open spec fn is_digit(c: char) -> bool {
    '0' <= c <= '9'
}

/// The value of an ASCII digit.
pub open spec fn digit_value(c: char) -> nat {
    ((c as u32) - ('0' as u32)) as nat
}

/// Every character of `s` is an ASCII digit.
pub open spec fn all_digits(s: Seq<char>) -> bool {
    forall|i: int| 0 <= i < s.len() ==> is_digit(#[trigger] s[i])
}

/// The value of a string of decimal digits, most significant first.
pub open spec fn dec_value(s: Seq<char>) -> nat
    decreases s.len(),
{
    if s.len() == 0 {
        0
    } else {
        dec_value(s.drop_last()) * 10 + digit_value(s.last())
    }
}

/// What `str::parse` gives for an unsigned integer type whose largest value is
/// `max`: an optional leading `+`, then at least one ASCII digit and nothing
/// else, and a value that fits.
pub open spec fn parse_unsigned(s: Seq<char>, max: nat) -> Option<nat> {
    let d = if s.len() > 0 && s[0] == '+' {
        s.drop_first()
    } else {
        s
    };
    if d.len() > 0 && all_digits(d) && dec_value(d) <= max {
        Some(dec_value(d))
    } else {
        None
    }
}

/// The decimal digit character for `d < 10`.
pub open spec fn digit_char(d: nat) -> char {
    (('0' as u32) + d) as char
}

/// The decimal representation of `n`, as `format!("{}", n)` writes it.
pub open spec fn decimal(n: nat) -> Seq<char>
    decreases n,
{
    if n < 10 {
        seq![digit_char(n)]
    } else {
        decimal(n / 10).push(digit_char(n % 10))
    }
}

/// A prefix of a string of digits has no larger value than the string.
pub proof fn lemma_dec_value_prefix(s: Seq<char>, i: int, j: int)
    requires
        0 <= i <= j <= s.len(),
    ensures
        dec_value(s.take(i)) <= dec_value(s.take(j)),
    decreases j - i,
{
    if i < j {
        lemma_dec_value_prefix(s, i, j - 1);
        assert(s.take(j).drop_last() =~= s.take(j - 1));
    }
}

/// The characters of `s`, in order.
pub fn chars_of(s: &str) -> (r: Vec<char>)
    ensures
        r@ == s@,
{
    broadcast use vstd::string::group_string_axioms;

    let mut r: Vec<char> = Vec::new();
    for c in it: s.chars()
        invariant
            r@ == it.seq().take(it.index() as int),
            it.seq() == s@,
    {
        r.push(c);
    }
    r
}

/// Appends one character to a string (`String::push`).
#[verifier::external_body]
pub fn push_char(s: &mut String, c: char)
    ensures
        final(s)@ == old(s)@.push(c),
{
    s.push(c);
}

/// The string made of the characters `v[start..end]`.
pub fn string_from_chars(v: &Vec<char>, start: usize, end: usize) -> (r: String)
    requires
        start <= end <= v@.len(),
    ensures
        r@ == v@.subrange(start as int, end as int),
{
    let mut r = String::new();
    let mut i = start;
    while i < end
        invariant
            start <= i <= end <= v@.len(),
            r@ == v@.subrange(start as int, i as int),
        decreases end - i,
    {
        push_char(&mut r, v[i]);
        assert(v@.subrange(start as int, i + 1) =~= v@.subrange(start as int, i as int).push(
            v@[i as int],
        ));
        i = i + 1;
    }
    r
}

/// Parses `v[start..end]` as `str::parse` parses an unsigned integer whose largest
/// value is `max`.
pub fn parse_unsigned_in(v: &Vec<char>, start: usize, end: usize, max: u64) -> (r: Option<u64>)
    requires
        start <= end <= v@.len(),
    ensures
        match parse_unsigned(v@.subrange(start as int, end as int), max as nat) {
            Some(n) => r == Some(n as u64),
            None => r is None,
        },
{
    let ghost s = v@.subrange(start as int, end as int);
    let mut first = start;
    if start < end && v[start] == '+' {
        first = start + 1;
    }
    let ghost d = v@.subrange(first as int, end as int);
    assert(d =~= (if s.len() > 0 && s[0] == '+' {
        s.drop_first()
    } else {
        s
    }));
    if first == end {
        return None;
    }
    let mut acc: u128 = 0;
    let mut i = first;
    while i < end
        invariant
            start <= first <= i <= end <= v@.len(),
            d == v@.subrange(first as int, end as int),
            s == v@.subrange(start as int, end as int),
            d == (if s.len() > 0 && s[0] == '+' {
                s.drop_first()
            } else {
                s
            }),
            d.len() > 0,
            all_digits(d.take(i - first)),
            acc == dec_value(d.take(i - first)),
            acc <= max,
        decreases end - i,
    {
        let c = v[i];
        if !('0' <= c && c <= '9') {
            assert(d[i - first] == c);
            assert(!is_digit(d[i - first]));
            assert(!all_digits(d));
            return None;
        }
        assert(d.take(i - first + 1).drop_last() =~= d.take(i - first));
        assert(d.take(i - first + 1).last() == c);
        let dig = (c as u32 - '0' as u32) as u128;
        acc = acc * 10 + dig;
        i = i + 1;
        if acc > max as u128 {
            proof {
                lemma_dec_value_prefix(d, i - first, d.len() as int);
                assert(d.take(d.len() as int) =~= d);
                assert(dec_value(d) > max);
            }
            return None;
        }
    }
    assert(d.take(i - first) =~= d);
    Some(acc as u64)
}

/// Appends the decimal representation of `n` to `s`.
pub fn push_decimal(s: &mut String, n: u64)
    ensures
        final(s)@ == old(s)@ + decimal(n as nat),
    decreases n,
{
    if n >= 10 {
        push_decimal(s, n / 10);
    }
    let c = ((n % 10) as u8 + 48u8) as char;
    push_char(s, c);
}

/// The views of a sequence of character vectors.
pub open spec fn views(v: Seq<Vec<char>>) -> Seq<Seq<char>> {
    v.map_values(|x: Vec<char>| x@)
}

/// The pieces of `t` between occurrences of `sep`, as `str::split` gives them
/// for a one-character separator.
pub open spec fn split_on(t: Seq<char>, sep: char) -> Seq<Seq<char>>
    decreases t.len(),
{
    if t.len() == 0 {
        seq![Seq::<char>::empty()]
    } else {
        let p = split_on(t.drop_last(), sep);
        if t.last() == sep {
            p.push(Seq::<char>::empty())
        } else {
            p.update(p.len() - 1, p.last().push(t.last()))
        }
    }
}

/// There is always at least one piece.
pub proof fn lemma_split_on_len(t: Seq<char>, sep: char)
    ensures
        split_on(t, sep).len() >= 1,
    decreases t.len(),
{
    if t.len() > 0 {
        lemma_split_on_len(t.drop_last(), sep);
    }
}

/// `l` without one trailing carriage return.
pub open spec fn strip_cr(l: Seq<char>) -> Seq<char> {
    if l.len() > 0 && l.last() == '\r' {
        l.drop_last()
    } else {
        l
    }
}

/// The lines of `t` as `BufRead::lines` reads them: split at each newline,
/// without a trailing empty line, and with the carriage return of each
/// carriage-return-newline ending removed.
pub open spec fn lines(t: Seq<char>) -> Seq<Seq<char>> {
    if t.len() == 0 {
        Seq::empty()
    } else {
        let p = split_on(t, '\n');
        let terminated = p.drop_last().map_values(|l: Seq<char>| strip_cr(l));
        if t.last() == '\n' {
            terminated
        } else {
            terminated.push(p.last())
        }
    }
}

/// The lines of the text `t` (see `lines`).
pub fn lines_of(t: &Vec<char>) -> (r: Vec<Vec<char>>)
    ensures
        views(r@) == lines(t@),
{
    let mut done: Vec<Vec<char>> = Vec::new();
    let mut cur: Vec<char> = Vec::new();
    let mut i: usize = 0;
    assert(t@.take(0) =~= Seq::<char>::empty());
    while i < t.len()
        invariant
            0 <= i <= t@.len(),
            split_on(t@.take(i as int), '\n').len() >= 1,
            views(done@) == split_on(t@.take(i as int), '\n').drop_last().map_values(
                |l: Seq<char>| strip_cr(l),
            ),
            cur@ == split_on(t@.take(i as int), '\n').last(),
        decreases t@.len() - i,
    {
        let c = t[i];
        let ghost p = split_on(t@.take(i as int), '\n');
        assert(t@.take(i + 1).drop_last() =~= t@.take(i as int));
        assert(t@.take(i + 1).last() == c);
        let ghost q = split_on(t@.take(i + 1), '\n');
        if c == '\n' {
            let mut line = cur;
            let n = line.len();
            if n > 0 && line[n - 1] == '\r' {
                line.pop();
                assert(line@ =~= strip_cr(p.last()));
            }
            assert(line@ == strip_cr(p.last()));
            let ghost before = views(done@);
            done.push(line);
            assert(views(done@) =~= before.push(strip_cr(p.last())));
            assert(p.map_values(|l: Seq<char>| strip_cr(l)) =~= p.drop_last().map_values(
                |l: Seq<char>| strip_cr(l),
            ).push(strip_cr(p.last())));
            cur = Vec::new();
            assert(q.drop_last() =~= p);
            assert(views(done@) =~= q.drop_last().map_values(|l: Seq<char>| strip_cr(l)));
        } else {
            cur.push(c);
            assert(q.drop_last() =~= p.drop_last());
        }
        i = i + 1;
    }
    assert(t@.take(t@.len() as int) =~= t@);
    if t.len() == 0 {
        assert(views(done@) =~= lines(t@));
        return done;
    }
    if t[t.len() - 1] != '\n' {
        done.push(cur);
        assert(views(done@) =~= lines(t@));
    } else {
        assert(views(done@) =~= lines(t@));
    }
    done
}

/// The fields of `t` as `str::split_whitespace` gives them: the maximal runs of
/// characters that are not white space.
pub open spec fn fields(t: Seq<char>) -> Seq<Seq<char>>
    decreases t.len(),
{
    if t.len() == 0 {
        Seq::empty()
    } else {
        let f = fields(t.drop_last());
        let c = t.last();
        if is_white_space(c) {
            f
        } else if t.len() >= 2 && !is_white_space(t[t.len() - 2]) {
            f.update(f.len() - 1, f.last().push(c))
        } else {
            f.push(seq![c])
        }
    }
}

/// A text whose last character is not white space has a field.
pub proof fn lemma_fields_nonempty(t: Seq<char>)
    requires
        t.len() > 0,
        !is_white_space(t.last()),
    ensures
        fields(t).len() >= 1,
    decreases t.len(),
{
    if t.len() >= 2 && !is_white_space(t[t.len() - 2]) {
        assert(t.drop_last().last() == t[t.len() - 2]);
        lemma_fields_nonempty(t.drop_last());
    }
}

/// The fields of `t` (see `fields`).
pub fn fields_of(t: &Vec<char>) -> (r: Vec<Vec<char>>)
    ensures
        views(r@) == fields(t@),
{
    let mut f: Vec<Vec<char>> = Vec::new();
    let mut i: usize = 0;
    assert(t@.take(0) =~= Seq::<char>::empty());
    while i < t.len()
        invariant
            0 <= i <= t@.len(),
            views(f@) == fields(t@.take(i as int)),
        decreases t@.len() - i,
    {
        let c = t[i];
        let ghost prev = t@.take(i as int);
        let ghost next = t@.take(i + 1);
        assert(next.drop_last() =~= prev);
        assert(next.last() == c);
        if white_space(c) {
        } else if i >= 1 && !white_space(t[i - 1]) {
            assert(next[next.len() - 2] == t@[i - 1]);
            assert(prev.last() == t@[i - 1]);
            proof {
                lemma_fields_nonempty(prev);
            }
            let ghost whole = views(f@);
            let mut last = f.pop().unwrap();
            assert(last@ == whole.last());
            assert(views(f@) =~= whole.drop_last());
            last.push(c);
            f.push(last);
            assert(views(f@) =~= whole.drop_last().push(whole.last().push(c)));
            assert(views(f@) =~= fields(next));
        } else {
            if i >= 1 {
                assert(next[next.len() - 2] == t@[i - 1]);
            }
            let ghost before = views(f@);
            let mut single: Vec<char> = Vec::new();
            single.push(c);
            assert(single@ =~= seq![c]);
            f.push(single);
            assert(views(f@) =~= before.push(seq![c]));
            assert(views(f@) =~= fields(next));
        }
        i = i + 1;
    }
    assert(t@.take(t@.len() as int) =~= t@);
    f
}

/// Whether two character vectors hold the same characters.
pub fn chars_eq(a: &Vec<char>, b: &Vec<char>) -> (r: bool)
    ensures
        r == (a@ == b@),
{
    if a.len() != b.len() {
        return false;
    }
    let mut i: usize = 0;
    while i < a.len()
        invariant
            0 <= i <= a@.len(),
            a@.len() == b@.len(),
            forall|j: int| 0 <= j < i ==> a@[j] == b@[j],
        decreases a@.len() - i,
    {
        if a[i] != b[i] {
            return false;
        }
        i = i + 1;
    }
    assert(a@ =~= b@);
    true
}

/// The decimal representation of a number is a non-empty string of digits
/// whose value is the number.
pub proof fn lemma_decimal_digits(n: nat)
    ensures
        decimal(n).len() >= 1,
        all_digits(decimal(n)),
        dec_value(decimal(n)) == n,
    decreases n,
{
    let d = n % 10;
    assert((digit_char(d) as u32) == 48 + d);
    assert(digit_value(digit_char(d)) == d);
    if n < 10 {
        assert(decimal(n).drop_last() =~= Seq::<char>::empty());
        assert(n % 10 == n);
        assert(decimal(n).last() == digit_char(d));
        assert(dec_value(decimal(n)) == dec_value(decimal(n).drop_last()) * 10 + digit_value(
            decimal(n).last(),
        ));
        assert(dec_value(decimal(n)) == n);
    } else {
        lemma_decimal_digits(n / 10);
        let s = decimal(n / 10);
        let t = decimal(n);
        assert(t.drop_last() =~= s);
        assert(t.last() == digit_char(n % 10));
        assert forall|i: int| 0 <= i < t.len() implies is_digit(#[trigger] t[i]) by {
            if i < s.len() {
                assert(t[i] == s[i]);
            }
        }
        assert(n == (n / 10) * 10 + n % 10);
        assert(dec_value(t) == dec_value(s) * 10 + digit_value(t.last()));
        assert(dec_value(t) == n);
    }
}

/// Reading back the decimal representation of a number that fits gives the
/// number: what `push_decimal` writes, `parse_unsigned_in` reads.
pub proof fn lemma_parse_decimal(n: nat, max: nat)
    requires
        n <= max,
    ensures
        parse_unsigned(decimal(n), max) == Some(n),
{
    lemma_decimal_digits(n);
    assert(is_digit(decimal(n)[0]));
}

} // verus!
