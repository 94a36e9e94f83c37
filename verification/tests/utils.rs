use dmtools::device_mapper::utils::{parse_majors, parse_majors_lines};

fn __parse_test(t: (&Option<Vec<u32>>, &[u8])) {
    let text = std::str::from_utf8(t.1).unwrap();
    assert_eq!(parse_majors(text), *t.0);
}

#[test]
fn test_parse_majors() {
    let empty = Some(vec![]);

    __parse_test((&empty, b""));
    __parse_test((&empty, b"flippity"));

    __parse_test((&empty,
                  br#"Character devices:
  1 mem
  4 /dev/vc/0
  4 tty"#));

    __parse_test((&empty,
                  br#"Character devices:
  1 mem
  4 /dev/vc/0
  4 tty
128 device-mapper"#));

    __parse_test((&Some(vec![128u32]),
                  br#"Character devices:
  1 mem
  4 /dev/vc/0
  4 tty

Block devices:
128 device-mapper"#));

    __parse_test((&Some(vec![28u32]),
                  br#"Character devices:
  1 mem
  4 /dev/vc/0
  4 tty

Block devices:
 28 device-mapper"#));

    __parse_test((&Some(vec![28u32]),
                  br#"Character devices:
  1 mem
  4 /dev/vc/0
  4 tty

Block devices:
 28 device-mapper"#));

    __parse_test((&Some(vec![28u32, 128]),
                  br#"Character devices:
  1 mem
  4 /dev/vc/0
  4 tty

Block devices:
  1 foo
 28 device-mapper
111 bar
128 device-mapper
199 hux"#));

    __parse_test((&None,
                  br#"Character devices:
  1 mem
  4 /dev/vc/0
  4 tty

Block devices:
  1 foo
 28 device-mapper
111 bar
1o8 device-mapper
199 hux"#));
}

#[test]
fn parse_majors_edge_cases() {
    // A carriage return before the newline belongs to the line ending.
    assert_eq!(parse_majors("Block devices:\r\n253 device-mapper\r\n"), Some(vec![253]));
    // Only the first header line starts the block device list.
    assert_eq!(
        parse_majors("Block devices:\n9 device-mapper\nBlock devices:\n10 device-mapper\n"),
        Some(vec![9, 10])
    );
    // Lines with more or fewer than two fields are not device-mapper lines.
    assert_eq!(parse_majors("Block devices:\n9 device-mapper extra\ndevice-mapper\n"), Some(vec![]));
    // A number may carry a plus sign; it must fit in 32 bits.
    assert_eq!(parse_majors("Block devices:\n+7 device-mapper\n"), Some(vec![7]));
    assert_eq!(parse_majors("Block devices:\n4294967295 device-mapper\n"), Some(vec![4294967295]));
    assert_eq!(parse_majors("Block devices:\n4294967296 device-mapper\n"), None);
    assert_eq!(parse_majors("Block devices:\n-1 device-mapper\n"), None);
    // Fields are separated by any white space.
    assert_eq!(parse_majors("Block devices:\n\t12\u{3000}device-mapper  \n"), Some(vec![12]));
    // A header with trailing characters is not the header.
    assert_eq!(parse_majors("Block devices: \n12 device-mapper\n"), Some(vec![]));
}

#[test]
fn parse_majors_lines_reads_given_lines() {
    let lines: Vec<String> = vec![
        "Character devices:".to_string(),
        "  1 mem".to_string(),
        "Block devices:".to_string(),
        "253 device-mapper".to_string(),
        "254 mdp".to_string(),
    ];
    assert_eq!(parse_majors_lines(&lines), Some(vec![253]));
}
