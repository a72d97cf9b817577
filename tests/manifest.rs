use alpm_mtree::manifest::{parse, Manifest};
use alpm_mtree::model::{Diagnostic, ErrorKind};
use alpm_mtree::value::PathType;

fn kinds(m: &Manifest) -> Vec<ErrorKind> {
    m.diagnostics.iter().map(|d| d.kind).collect()
}

const DIGEST: &str = "0123456789abcdef0123456789abcdef0123456789ABCDEF0123456789abcdef";

#[test]
fn set_defaults_reach_next_path() {
    let m = parse(b"#mtree\n/set type=file mode=0644\n./foo size=10\n");
    assert!(m.diagnostics.is_empty());
    assert_eq!(m.entries.len(), 1);
    let e = &m.entries[0];
    assert_eq!(e.path, b"./foo".to_vec());
    assert_eq!(e.fields.ty, Some(PathType::File));
    assert_eq!(e.fields.mode, Some(b"0644".to_vec()));
    assert_eq!(e.fields.size, Some(10));
    assert_eq!(e.fields.link, None);
    assert_eq!(e.fields.digest, None);
    assert_eq!(e.fields.time, None);
}

#[test]
fn explicit_mode_overrides_default() {
    let m = parse(b"/set mode=0644\n./bar mode=0755\n");
    assert!(m.diagnostics.is_empty());
    assert_eq!(m.entries[0].fields.mode, Some(b"0755".to_vec()));
}

#[test]
fn unset_mode_removes_only_mode() {
    let m = parse(b"/set uid=0 type=dir mode=0644\n/unset mode\n./baz\n");
    assert!(m.diagnostics.is_empty());
    let e = &m.entries[0];
    assert_eq!(e.fields.mode, None);
    assert_eq!(e.fields.ty, Some(PathType::Dir));
}

#[test]
fn unset_mode_leaves_no_default_attributes() {
    let m = parse(b"/set uid=0 mode=0644\n/unset mode\n./baz\n");
    assert!(m.diagnostics.is_empty());
    let e = &m.entries[0];
    assert_eq!(e.fields.mode, None);
    assert_eq!(e.fields.ty, None);
}

#[test]
fn bare_unset_clears_everything() {
    let m = parse(b"/set uid=0 gid=0 mode=0644 type=file\n/unset\n./qux\n");
    assert!(m.diagnostics.is_empty());
    let e = &m.entries[0];
    assert_eq!(e.path, b"./qux".to_vec());
    assert_eq!(e.fields.mode, None);
    assert_eq!(e.fields.ty, None);
}

#[test]
fn digest_of_64_digits_is_read() {
    let text = format!("./f sha256digest={}\n", DIGEST);
    let m = parse(text.as_bytes());
    assert!(m.diagnostics.is_empty());
    assert_eq!(m.entries[0].fields.digest, Some(DIGEST.as_bytes().to_vec()));
}

#[test]
fn digest_of_63_digits_is_rejected() {
    let text = format!("./f size=3 sha256digest={}\n", &DIGEST[..63]);
    let m = parse(text.as_bytes());
    assert_eq!(kinds(&m), vec![ErrorKind::InvalidDigestLength]);
    assert_eq!(m.entries.len(), 1);
    assert_eq!(m.entries[0].fields.digest, None);
    assert_eq!(m.entries[0].fields.size, Some(3));
}

#[test]
fn digest_of_65_digits_is_rejected() {
    let text = format!("./f sha256digest={}0\n", DIGEST);
    let m = parse(text.as_bytes());
    assert_eq!(kinds(&m), vec![ErrorKind::InvalidDigestLength]);
    assert_eq!(m.entries.len(), 1);
    assert_eq!(m.entries[0].fields.digest, None);
}

#[test]
fn digest_with_non_hex_digit_is_invalid_number() {
    let mut d = DIGEST.to_string();
    d.replace_range(0..1, "g");
    let text = format!("./f sha256digest={}\n", d);
    let m = parse(text.as_bytes());
    assert_eq!(kinds(&m), vec![ErrorKind::InvalidNumber]);
}

#[test]
fn unknown_key_keeps_other_fields() {
    let m = parse(b"./x foo=bar size=5 type=link link=/target\n");
    assert_eq!(
        m.diagnostics,
        vec![Diagnostic { kind: ErrorKind::UnknownKey, offset: 4, length: 7 }]
    );
    let e = &m.entries[0];
    assert_eq!(e.fields.size, Some(5));
    assert_eq!(e.fields.ty, Some(PathType::Link));
    assert_eq!(e.fields.link, Some(b"/target".to_vec()));
}

#[test]
fn entries_keep_source_order() {
    let m = parse(b"#mtree\n./a\nbogus line\n./b size=x\n/set mode=0700\n./c\n");
    let paths: Vec<Vec<u8>> = m.entries.iter().map(|e| e.path.clone()).collect();
    assert_eq!(paths, vec![b"./a".to_vec(), b"./b".to_vec(), b"./c".to_vec()]);
    assert_eq!(kinds(&m), vec![ErrorKind::UnrecognizedLine, ErrorKind::InvalidNumber]);
    assert_eq!(m.entries[2].fields.mode, Some(b"0700".to_vec()));
}

#[test]
fn empty_input_gives_nothing() {
    let m = parse(b"");
    assert!(m.entries.is_empty());
    assert!(m.diagnostics.is_empty());
}

#[test]
fn blank_line_is_unrecognized() {
    let m = parse(b"./a\n   \n");
    assert_eq!(
        m.diagnostics,
        vec![Diagnostic { kind: ErrorKind::UnrecognizedLine, offset: 4, length: 3 }]
    );
    assert_eq!(m.entries.len(), 1);
}

#[test]
fn second_header_is_misplaced() {
    let m = parse(b"#mtree\n./a\n#mtree\n");
    assert_eq!(
        m.diagnostics,
        vec![Diagnostic { kind: ErrorKind::MisplacedHeader, offset: 11, length: 6 }]
    );
}

#[test]
fn header_after_directive_is_misplaced() {
    let m = parse(b"/set mode=0644\n#mtree\n");
    assert_eq!(kinds(&m), vec![ErrorKind::MisplacedHeader]);
}

#[test]
fn bad_octal_mode() {
    let m = parse(b"./a mode=0648\n./b mode=12345\n");
    assert_eq!(kinds(&m), vec![ErrorKind::InvalidOctalMode, ErrorKind::InvalidOctalMode]);
    assert_eq!(m.entries[0].fields.mode, None);
}

#[test]
fn bad_type() {
    let m = parse(b"/set type=socket\n./a type=fifo\n");
    assert_eq!(kinds(&m), vec![ErrorKind::InvalidType, ErrorKind::InvalidType]);
    assert_eq!(m.entries[0].fields.ty, None);
}

#[test]
fn bad_uid_and_unknown_set_key() {
    let m = parse(b"/set uid=abc owner=me gid=7\n/unset color\n./a\n");
    assert_eq!(
        kinds(&m),
        vec![ErrorKind::InvalidNumber, ErrorKind::UnknownKey, ErrorKind::UnknownKey]
    );
    assert_eq!(m.entries.len(), 1);
}

#[test]
fn unterminated_last_line_stops_the_parse() {
    let m = parse(b"./a\n./b size=1");
    assert_eq!(m.entries.len(), 1);
    assert_eq!(
        m.diagnostics,
        vec![Diagnostic { kind: ErrorKind::UnterminatedDirective, offset: 4, length: 10 }]
    );
    assert!(m.diagnostics[0].kind.is_fatal());
    assert!(!ErrorKind::UnknownKey.is_fatal());
}

#[test]
fn time_fraction_is_dropped() {
    let m = parse(b"./a time=1700000000.123456789\n./b time=42\n./c time=5.\n");
    assert_eq!(m.entries[0].fields.time, Some(1700000000));
    assert_eq!(m.entries[1].fields.time, Some(42));
    assert_eq!(m.entries[2].fields.time, None);
    assert_eq!(kinds(&m), vec![ErrorKind::InvalidNumber]);
}

#[test]
fn largest_size_and_overflow() {
    let m = parse(b"./a size=18446744073709551615\n./b size=18446744073709551616\n");
    assert_eq!(m.entries[0].fields.size, Some(u64::MAX));
    assert_eq!(m.entries[1].fields.size, None);
    assert_eq!(kinds(&m), vec![ErrorKind::InvalidNumber]);
}

#[test]
fn repeated_key_last_wins() {
    let m = parse(b"/set mode=0600 mode=0640\n./a size=1 size=2\n");
    assert_eq!(m.entries[0].fields.mode, Some(b"0640".to_vec()));
    assert_eq!(m.entries[0].fields.size, Some(2));
}

#[test]
fn crlf_and_tabs_are_whitespace() {
    let m = parse(b"/set\tmode=0755\r\n./a\t type=dir\r\n");
    assert!(m.diagnostics.is_empty());
    assert_eq!(m.entries[0].path, b"./a".to_vec());
    assert_eq!(m.entries[0].fields.mode, Some(b"0755".to_vec()));
    assert_eq!(m.entries[0].fields.ty, Some(PathType::Dir));
}

#[test]
fn error_messages_are_text() {
    assert_eq!(ErrorKind::UnknownKey.message(), "unknown key");
    assert!(!ErrorKind::UnterminatedDirective.message().is_empty());
}

#[test]
fn bare_unset_holds_across_other_lines() {
    let m = parse(b"/set uid=0 mode=0644 type=file\n/unset\n./a\ngarbage\n/unset uid\n./b mode=0700\n");
    assert_eq!(m.entries.len(), 2);
    assert_eq!(m.entries[0].fields.mode, None);
    assert_eq!(m.entries[0].fields.ty, None);
    assert_eq!(m.entries[1].fields.mode, Some(b"0700".to_vec()));
    assert_eq!(m.entries[1].fields.ty, None);
    assert_eq!(kinds(&m), vec![ErrorKind::UnrecognizedLine]);
}

#[test]
fn inserted_garbage_lines_change_only_diagnostics() {
    let plain = parse(b"#mtree\n/set mode=0644\n./a\n./b type=dir\n");
    let noisy = parse(b"#mtree\n\ngarbage here\n/set mode=0644\n./a\n# comment\n./b type=dir\n");
    assert_eq!(noisy.entries, plain.entries);
    assert!(plain.diagnostics.is_empty());
    assert_eq!(
        kinds(&noisy),
        vec![ErrorKind::UnrecognizedLine, ErrorKind::UnrecognizedLine, ErrorKind::UnrecognizedLine]
    );
}

#[test]
fn each_bad_field_gives_one_diagnostic() {
    let m = parse(b"./x size=a mode=9 type=pipe sha256digest=ab foo=1 time=x link=ok\n");
    assert_eq!(
        kinds(&m),
        vec![
            ErrorKind::InvalidNumber,
            ErrorKind::InvalidOctalMode,
            ErrorKind::InvalidType,
            ErrorKind::InvalidDigestLength,
            ErrorKind::UnknownKey,
            ErrorKind::InvalidNumber,
        ]
    );
    assert_eq!(m.entries[0].fields.link, Some(b"ok".to_vec()));
}

#[test]
fn all_messages_are_given() {
    assert_eq!(ErrorKind::UnrecognizedLine.message(), "unrecognized line");
    assert_eq!(ErrorKind::MisplacedHeader.message(), "the #mtree header must come first");
    assert_eq!(ErrorKind::InvalidNumber.message(), "invalid number");
    assert_eq!(ErrorKind::InvalidOctalMode.message(), "invalid octal mode");
    assert_eq!(
        ErrorKind::InvalidDigestLength.message(),
        "a sha256 digest has 64 hexadecimal digits"
    );
    assert_eq!(ErrorKind::InvalidType.message(), "type must be dir, file or link");
    assert_eq!(
        ErrorKind::UnterminatedDirective.message(),
        "directive is not terminated by a newline"
    );
}
