use alpm_mtree::manifest::parse;
use alpm_mtree::render::{render, write_decimal, write_entry};

const DIGEST: &str = "0123456789abcdef0123456789abcdef0123456789ABCDEF0123456789abcdef";

#[test]
fn decimal_digits_are_written() {
    let mut out = b"n=".to_vec();
    write_decimal(&mut out, 0);
    write_decimal(&mut out, 1907);
    write_decimal(&mut out, u64::MAX);
    assert_eq!(out, b"n=0190718446744073709551615".to_vec());
}

#[test]
fn entries_are_written_one_line_each() {
    let m = parse(b"/set type=file mode=0644\n./a size=10 time=5.5 link=x=y\n/unset\n./b\n");
    assert!(m.diagnostics.is_empty());
    let text = render(&m.entries);
    assert_eq!(
        String::from_utf8(text).unwrap(),
        "./a mode=0644 type=file size=10 link=x=y time=5\n./b\n"
    );
}

#[test]
fn write_entry_appends() {
    let m = parse(b"./dir type=dir mode=755\n");
    let mut out = b"#mtree\n".to_vec();
    write_entry(&mut out, &m.entries[0]);
    assert_eq!(out, b"#mtree\n./dir mode=755 type=dir\n".to_vec());
}

#[test]
fn written_entries_parse_back() {
    let text = format!(
        "/set uid=0 gid=0 type=file mode=0644\n./usr type=dir mode=0755\n./usr/bin/tool size=4096 time=1700000000.25 sha256digest={}\n./usr/lib/link type=link link=../bin/tool\n",
        DIGEST
    );
    let m = parse(text.as_bytes());
    assert!(m.diagnostics.is_empty());
    let written = render(&m.entries);
    let again = parse(&written);
    assert!(again.diagnostics.is_empty());
    assert_eq!(again.entries, m.entries);
}

#[test]
fn nothing_to_write() {
    assert!(render(&Vec::new()).is_empty());
}

#[test]
fn malformed_input_still_round_trips() {
    let m = parse(b"/set mode=0640 uid=x\n./a type=bad link=t\ngarbage\n./b size=12 mode=999\n");
    assert!(!m.diagnostics.is_empty());
    let again = parse(&render(&m.entries));
    assert!(again.diagnostics.is_empty());
    assert_eq!(again.entries, m.entries);
}
