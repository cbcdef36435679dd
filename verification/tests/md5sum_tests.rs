use catsum::checksum::{get_md5_record, to_hex};
use catsum::codec::{
    format_output_line, manifest_ok, parse_line, parse_manifest, Md5Record, ParseError,
};

#[test]
fn format_output_line_non_bsd() {
    let file_name = "filename";
    let hash = "4e7bb796c99cf98ae40b32b644119c74";
    let mut md5_record = Md5Record {
        file_name: file_name.to_owned(),
        binary: false,
        hash: hash.to_owned(),
    };
    let test1 = format_output_line(&md5_record, false);
    assert_eq!(test1, format!("{}  {}", hash, file_name));

    md5_record.binary = true;
    let test2 = format_output_line(&md5_record, false);
    assert_eq!(test2, format!("{} *{}", hash, file_name));
}

#[test]
fn format_output_line_bsd() {
    let file_name = "filename";
    let hash = "4e7bb796c99cf98ae40b32b644119c74";
    let mut md5_record = Md5Record {
        file_name: file_name.to_owned(),
        binary: false,
        hash: hash.to_owned(),
    };
    let test1 = format_output_line(&md5_record, true);
    assert_eq!(test1, format!("MD5 ({}) = {}", file_name, hash));

    md5_record.binary = true;
    let test2 = format_output_line(&md5_record, true);
    assert_eq!(test2, format!("MD5 ({}) = {}", file_name, hash));
}

#[test]
fn parse_line_correct_line() {
    let line_1 = "4e7bb796c99cf98ae40b32b644119c74  src/main.rs";
    let line_2 = "4e7bb796c99cf98ae40b32b644119c74 *src/main.rs";

    let output_1 = parse_line(line_1).unwrap();
    let output_2 = parse_line(line_2).unwrap();

    assert_eq!("4e7bb796c99cf98ae40b32b644119c74", output_1.hash);
    assert_eq!("4e7bb796c99cf98ae40b32b644119c74", output_2.hash);

    assert!(!output_1.binary);
    assert!(output_2.binary);

    assert_eq!("src/main.rs", output_1.file_name);
    assert_eq!("src/main.rs", output_2.file_name);
}

#[test]
fn parse_line_return_error() {
    let line_1 = "4e9cf98ae40b32b644119c74  src/main.rs"; // hash is too short
    let line_2 = "4e7bb796c99cf98ae40b32b644119c74 &src/main.rs"; // wrong binary symbol
    let line_3 = "4e7bb796c99cf98ae40b32b644119c74   src/main.rs"; // too many spaces
    let line_4 = "4e7bb796c99cf98ae40b32b644119c74  *src/main.rs"; // two spaces and *
    let line_5 = "4e7bb796c99cf98ae40b32b644119c74   "; // missing file name

    assert!(parse_line(line_1).is_err());
    assert!(parse_line(line_2).is_err());
    assert!(parse_line(line_3).is_err());
    assert!(parse_line(line_4).is_err());
    assert!(parse_line(line_5).is_err());
}

#[test]
fn parse_line_distinct_failures() {
    // A 31-character hash: the 32nd character is the space.
    let short = "4e7bb796c99cf98ae40b32b644119c7  src/main.rs";
    assert_eq!(Err(ParseError::BadHash), parse_line(short));

    // A 33-character hash: the 33rd character is a hex digit, not a space.
    let long = "4e7bb796c99cf98ae40b32b644119c744  src/main.rs";
    assert_eq!(Err(ParseError::BadHash), parse_line(long));

    // A separator other than space or asterisk.
    let bad_sep = "4e7bb796c99cf98ae40b32b644119c74 &src/main.rs";
    assert_eq!(Err(ParseError::BadSeparator), parse_line(bad_sep));

    // Two spaces before the name: the name may not open with whitespace.
    let extra_space = "4e7bb796c99cf98ae40b32b644119c74   src/main.rs";
    assert_eq!(Err(ParseError::BadNameStart), parse_line(extra_space));

    // An asterisk opening the name.
    let star_name = "4e7bb796c99cf98ae40b32b644119c74  *src/main.rs";
    assert_eq!(Err(ParseError::BadNameStart), parse_line(star_name));

    // Nothing at all after the separator.
    let no_name = "4e7bb796c99cf98ae40b32b644119c74  ";
    assert_eq!(Err(ParseError::MissingName), parse_line(no_name));
}

#[test]
fn gnu_round_trip() {
    for binary in [false, true] {
        let record = Md5Record {
            file_name: "some/file name.txt".to_owned(),
            binary,
            hash: "0123456789abcdefABCDEF0123456789".to_owned(),
        };
        let line = format_output_line(&record, false);
        let parsed = parse_line(&line).unwrap();
        assert_eq!(record, parsed);
    }
}

#[test]
fn digest_of_known_text() {
    let record = get_md5_record("first_file.txt", b"123456", false);
    assert_eq!("e10adc3949ba59abbe56e057f20f883e", record.hash);
    assert_eq!("first_file.txt", record.file_name);
    assert!(!record.binary);
    let line = format_output_line(&record, false);
    assert_eq!("e10adc3949ba59abbe56e057f20f883e  first_file.txt", line);
}

#[test]
fn digest_binary_mode_same_bytes_same_hash() {
    // The digest runs over the unit's bytes alone; the mode only marks
    // the record.
    let text = get_md5_record("f", b"234567", false);
    let binary = get_md5_record("f", b"234567", true);
    assert_eq!("508df4cb2f4d8f80519256258cfb975f", text.hash);
    assert_eq!(text.hash, binary.hash);
    assert!(binary.binary);
    let line = format_output_line(&binary, false);
    assert_eq!("508df4cb2f4d8f80519256258cfb975f *f", line);
}

#[test]
fn to_hex_renders_each_byte() {
    assert_eq!("", to_hex(&vec![]));
    assert_eq!("00ff10a5", to_hex(&vec![0x00, 0xff, 0x10, 0xa5]));
}

#[test]
fn parse_manifest_recovers_per_line() {
    let text = "4e7bb796c99cf98ae40b32b644119c74  a.txt\n\
                not a manifest line\n\
                e10adc3949ba59abbe56e057f20f883e *b.bin\n";
    let (records, errors) = parse_manifest(text);
    assert_eq!(2, records.len());
    assert_eq!("a.txt", records[0].file_name);
    assert!(!records[0].binary);
    assert_eq!("b.bin", records[1].file_name);
    assert!(records[1].binary);
    assert_eq!(1, errors.len());
    assert_eq!(2, errors[0].line_number);
    assert_eq!(ParseError::BadHash, errors[0].error);
    assert!(!manifest_ok(&records, &errors));
}

#[test]
fn parse_manifest_all_good_is_ok() {
    let text = "4e7bb796c99cf98ae40b32b644119c74  a.txt\n\
                e10adc3949ba59abbe56e057f20f883e *b.bin";
    let (records, errors) = parse_manifest(text);
    assert_eq!(2, records.len());
    assert!(errors.is_empty());
    assert!(manifest_ok(&records, &errors));
}

#[test]
fn parse_manifest_empty_is_a_failure() {
    let (records, errors) = parse_manifest("");
    assert!(records.is_empty());
    assert!(errors.is_empty());
    // Zero valid records is a failure even with no failing line.
    assert!(!manifest_ok(&records, &errors));
}

#[test]
fn parse_manifest_strips_carriage_returns() {
    let text = "4e7bb796c99cf98ae40b32b644119c74  a.txt\r\n";
    let (records, errors) = parse_manifest(text);
    assert_eq!(1, records.len());
    assert_eq!("a.txt", records[0].file_name);
    assert!(errors.is_empty());
    assert!(manifest_ok(&records, &errors));
}
