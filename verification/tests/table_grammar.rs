use dmtools::table_text::{contains_text, parse_table, TableParseError};
use regex::Regex;

/// What the regular expression of the target line grammar makes of `l`.
fn by_regex(l: &str) -> Result<(u64, u64, String, String), TableParseError> {
    let re = Regex::new(r"^([0-9]+)\s+([0-9]+)\s+([a-zA-Z]+)\s+(.*)$").unwrap();
    let caps = re.captures(l).ok_or(TableParseError::BadTargetLine)?;
    let begin = caps[1].parse::<u64>().map_err(|_| TableParseError::BadSectorBegin)?;
    let end = caps[2].parse::<u64>().map_err(|_| TableParseError::BadSectorEnd)?;
    Ok((begin, end, caps[3].to_string(), caps[4].to_string()))
}

#[test]
fn target_lines_read_as_the_regular_expression_reads_them() {
    let lines = [
        "0 10 linear /dev/sdb 0",
        "0 10 linear",
        "0 10 linear ",
        "0 10 linear  \t x  y ",
        "10 20 error \u{3000}\u{a0}args",
        "1\u{2028}2\u{85}abc\u{b}rest",
        "1 2 abc \nrest",
        "1 2 abc rest\n",
        "1 2 abc \n",
        "1 2 ab1 x",
        "+1 2 abc x",
        "1  2  ABCdef\u{c}  trailing  ",
        "99999999999999999999 1 a b",
        "1 99999999999999999999 a b",
        " 1 2 a b",
        "1 2 \u{e9} b",
        "12",
        "x",
    ];
    for l in lines.iter() {
        let ours = parse_table(&l.to_string());
        if !contains_text(l) {
            assert!(ours.unwrap().is_empty());
            continue;
        }
        match (by_regex(l), ours) {
            (Ok((b, e, t, a)), Ok(v)) => {
                assert_eq!(v.len(), 1, "{:?}", l);
                assert_eq!(v[0].sector_begin, b, "{:?}", l);
                assert_eq!(v[0].sector_end, e, "{:?}", l);
                assert_eq!(v[0].target_type, t, "{:?}", l);
                assert_eq!(v[0].ctr_args, a, "{:?}", l);
            }
            (Err(x), Err(y)) => assert_eq!(x, y, "{:?}", l),
            (x, y) => panic!("{:?}: {:?} against {:?}", l, x.is_ok(), y.is_ok()),
        }
    }
}
