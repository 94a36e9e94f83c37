use dmtools::device_mapper::high_level::{Table, Target};
use dmtools::device_mapper::linear_target::LinearTarget;
use dmtools::table_text::{contains_text, parse_table, TableParseError};

#[test]
fn linear_target_line() {
    let t = LinearTarget { dev: "/dev/sdb".to_string(), begin: 2048, end: 4096 };
    assert_eq!(t.sectors(), 2048);
    let d = t.to_dm_target(100);
    assert_eq!(d.target_type, "linear");
    assert_eq!(d.sector_begin, 100);
    assert_eq!(d.sector_end, 4196);
    assert_eq!(d.ctr_args, "/dev/sdb 2048");
}

#[test]
fn linear_target_line_for_any_range() {
    // The line is written whatever the order of begin and end.
    let t = LinearTarget { dev: "/dev/sdc".to_string(), begin: 500, end: 100 };
    let d = t.to_dm_target(7);
    assert_eq!(d.sector_begin, 7);
    assert_eq!(d.sector_end, 107);
    assert_eq!(d.ctr_args, "/dev/sdc 500");
}

#[test]
fn table_places_targets_one_after_another() {
    let mut table = Table::new();
    table
        .push(LinearTarget { dev: "/dev/sdb".to_string(), begin: 0, end: 2097152 })
        .push(LinearTarget { dev: "/dev/sdb".to_string(), begin: 2097152, end: 2097152 * 2 });
    let ts = table.to_dm_targets();
    assert_eq!(ts.len(), 2);
    assert_eq!(ts[0].sector_begin, 0);
    assert_eq!(ts[0].sector_end, 2097152);
    assert_eq!(ts[0].ctr_args, "/dev/sdb 0");
    assert_eq!(ts[1].sector_begin, 2097152);
    assert_eq!(ts[1].sector_end, 2097152 * 3);
    assert_eq!(ts[1].ctr_args, "/dev/sdb 2097152");
    let empty: Table<LinearTarget> = Table::new();
    assert!(empty.to_dm_targets().is_empty());
}

#[test]
fn contains_text_cases() {
    assert!(!contains_text(""));
    assert!(!contains_text(" \t\r\n"));
    assert!(contains_text("  x "));
    assert!(contains_text("\u{a0}"));
}

#[test]
fn parse_table_reads_lines() {
    let t = parse_table(&"0 1024 linear /dev/sdb 0\\n1024 2048 striped 2 64 /dev/sdc 0".to_string())
        .unwrap();
    assert_eq!(t.len(), 2);
    assert_eq!(t[0].sector_begin, 0);
    assert_eq!(t[0].sector_end, 1024);
    assert_eq!(t[0].target_type, "linear");
    assert_eq!(t[0].ctr_args, "/dev/sdb 0");
    assert_eq!(t[1].target_type, "striped");
    assert_eq!(t[1].ctr_args, "2 64 /dev/sdc 0");
}

#[test]
fn parse_table_skips_blank_pieces_and_takes_all_spacing() {
    let t = parse_table(&"\\n  \\n0\t\t10  error   \\n".to_string()).unwrap();
    assert_eq!(t.len(), 1);
    assert_eq!(t[0].target_type, "error");
    assert_eq!(t[0].ctr_args, "");
    assert!(parse_table(&"".to_string()).unwrap().is_empty());
}

#[test]
fn parse_table_errors() {
    assert_eq!(
        parse_table(&"0 10 linear".to_string()).err(),
        Some(TableParseError::BadTargetLine)
    );
    assert_eq!(
        parse_table(&"0 10 lin3ar x".to_string()).err(),
        Some(TableParseError::BadTargetLine)
    );
    assert_eq!(
        parse_table(&"0 10 linear a\nb".to_string()).err(),
        Some(TableParseError::BadTargetLine)
    );
    assert_eq!(
        parse_table(&"18446744073709551616 10 linear x".to_string()).err(),
        Some(TableParseError::BadSectorBegin)
    );
    assert_eq!(
        parse_table(&"0 18446744073709551616 linear x".to_string()).err(),
        Some(TableParseError::BadSectorEnd)
    );
    // The first bad line decides.
    assert_eq!(
        parse_table(&"x\\n0 99999999999999999999 linear y".to_string()).err(),
        Some(TableParseError::BadTargetLine)
    );
    assert_eq!(TableParseError::BadSectorEnd.message(), "couldn't parse sector end");
}
