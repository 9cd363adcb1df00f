use atbswp::keys::{button_code, button_name, key_code, key_name, KEYS};

#[test]
fn names() {
    assert_eq!(key_code("KEY_A"), Some(30));
    assert_eq!(key_code("a"), Some(30));
    assert_eq!(key_code("enter"), Some(28));
    assert_eq!(key_code("30"), Some(30));
    assert_eq!(key_name(30), Some("KEY_A"));
    assert_eq!(key_name(1), Some("KEY_ESC"));
    assert_eq!(button_code("left"), Some(0x110));
    assert_eq!(button_code("BTN_RIGHT"), Some(0x111));
    assert_eq!(button_name(0x112), "middle");
    assert_eq!(button_name(0x200), "512");
}

#[test]
fn numbers_and_unknown_names() {
    assert_eq!(key_code("+7"), Some(7));
    assert_eq!(key_code("65535"), Some(65535));
    assert_eq!(key_code("65536"), None);
    assert_eq!(key_code("KEY_NOPE"), None);
    assert_eq!(key_code(""), None);
    assert_eq!(key_name(0), None);
    assert_eq!(button_code("Btn_Side"), Some(0x113));
    assert_eq!(button_code("wheel"), None);
    assert_eq!(button_code("274"), Some(274));
}

#[test]
fn every_key_name_reads_back_as_its_code() {
    for c in 0..=u16::MAX {
        if let Some(n) = key_name(c) {
            assert_eq!(key_code(n), Some(c), "{n}");
            assert_eq!(key_code(&n.to_ascii_lowercase()), Some(c), "{n}");
        }
        assert_eq!(key_code(&c.to_string()), Some(c));
        assert_eq!(button_code(&button_name(c)), Some(c));
    }
    assert!(KEYS.len() > 200);
}

