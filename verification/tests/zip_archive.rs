use atbswp::zip::{append_stored, crc32, parse, read, remove_last};
use atbswp::Error;

#[test]
fn crc_known_value() {
    assert_eq!(crc32(b"123456789"), 0xCBF4_3926);
}

#[test]
fn append_to_plain_file_then_replace() {
    let exe = b"MZqFpD='\nnot really a program".to_vec();
    let a = append_stored(&exe, "helper", b"HELPER").unwrap();
    assert!(a.starts_with(&exe));
    assert_eq!(read(&a, "helper").unwrap(), Some(&b"HELPER"[..]));
    let b = append_stored(&a, "macro.bin", b"v1").unwrap();
    assert_eq!(read(&b, "helper").unwrap(), Some(&b"HELPER"[..]));
    assert_eq!(read(&b, "macro.bin").unwrap(), Some(&b"v1"[..]));
    // replacing the last entry leaves no dead bytes behind
    let c = append_stored(&b, "macro.bin", b"version two").unwrap();
    assert_eq!(read(&c, "macro.bin").unwrap(), Some(&b"version two"[..]));
    assert_eq!(parse(&c).unwrap().entries.len(), 2);
    assert_eq!(c.len(), b.len() + "version two".len() - "v1".len());
    // replacing a non-last entry is refused
    assert!(append_stored(&c, "helper", b"x").is_err());
    assert_eq!(read(&exe, "macro.bin").unwrap(), None);
    // removing the last entry restores the previous archive exactly
    assert_eq!(remove_last(&c, "macro.bin").unwrap(), a);
    assert_eq!(remove_last(&a, "helper").unwrap(), exe);
    assert!(remove_last(&c, "helper").is_err());
}

#[test]
fn zip_error_messages() {
    let exe = b"plain".to_vec();
    match remove_last(&exe, "x") {
        Err(Error::Invalid(m)) => assert_eq!(m, "no zip section"),
        other => panic!("unexpected {other:?}"),
    }
    let a = append_stored(&exe, "one", b"1").unwrap();
    let b = append_stored(&a, "two", b"2").unwrap();
    match append_stored(&b, "one", b"x") {
        Err(Error::Invalid(m)) => assert_eq!(m, "zip entry one exists and is not last"),
        other => panic!("unexpected {other:?}"),
    }
    match remove_last(&b, "one") {
        Err(Error::Invalid(m)) => assert_eq!(m, "zip entry one is not the last entry"),
        other => panic!("unexpected {other:?}"),
    }
    // an archive with no entries
    let mut empty = exe.clone();
    atbswp::zip::write_eocd(&mut empty, 0, 0, exe.len() as u32);
    match remove_last(&empty, "x") {
        Err(Error::Invalid(m)) => assert_eq!(m, "empty zip"),
        other => panic!("unexpected {other:?}"),
    }
}

#[test]
fn read_refuses_truncated_and_compressed_entries() {
    let a = append_stored(b"head", "f", b"0123456789").unwrap();
    // claim a larger size in the central record: the data would run past the end
    let arch = parse(&a).unwrap();
    let cd = arch.cd_off;
    let mut t = a.clone();
    t[cd + 24] = 0xff;
    t[cd + 25] = 0xff;
    match read(&t, "f") {
        Err(Error::Invalid(m)) => assert_eq!(m, "zip entry f is truncated"),
        other => panic!("unexpected {other:?}"),
    }
    let mut c = a.clone();
    c[cd + 10] = 8; // deflate
    match read(&c, "f") {
        Err(Error::Invalid(m)) => assert_eq!(m, "zip entry f is compressed"),
        other => panic!("unexpected {other:?}"),
    }
}

#[test]
fn append_then_read_and_remove_laws_on_values() {
    let base = b"some bytes that are not a zip".to_vec();
    let data = b"payload \x00\x01\x02".to_vec();
    let out = append_stored(&base, "entry", &data).unwrap();
    assert_eq!(read(&out, "entry").unwrap(), Some(&data[..]));
    assert_eq!(remove_last(&out, "entry").unwrap(), base);
    let entries = parse(&out).unwrap().entries;
    assert_eq!(entries.len(), 1);
    assert_eq!(entries[0].name, "entry");
    assert_eq!(entries[0].method, 0);
    assert_eq!(entries[0].crc, crc32(&data));
    assert_eq!(entries[0].size as usize, data.len());
    assert_eq!(entries[0].header_off as usize, base.len());
}

#[test]
fn entry_names_that_are_not_utf8_are_read_lossily() {
    let mut a = append_stored(b"plain", "ab", b"D").unwrap();
    let n = a.len();
    let cd = u32::from_le_bytes([a[n - 6], a[n - 5], a[n - 4], a[n - 3]]) as usize;
    a[cd + 46 + 1] = 0xff;
    let z = parse(&a).unwrap();
    assert_eq!(z.entries.len(), 1);
    assert_eq!(z.entries[0].name, "a\u{FFFD}");
    assert_eq!(read(&a, "ab").unwrap(), None);
}
