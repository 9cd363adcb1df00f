use atbswp::record::pod::{Pod, SPA_CHOICE_RANGE, SPA_FORMAT_VIDEO_SIZE, SPA_TYPE_OBJECT, SPA_TYPE_OBJECT_PARAM_META};

fn check_layout() {
    let id = Pod::id(2);
    assert_eq!(id, [4, 0, 0, 0, 3, 0, 0, 0, 2, 0, 0, 0, 0, 0, 0, 0]);
    let f = Pod::enum_format();
    assert_eq!(
        u32::from_le_bytes(f[4..8].try_into().unwrap()),
        SPA_TYPE_OBJECT
    );
    assert_eq!(f.len() % 8, 0);
    assert_eq!(
        u32::from_le_bytes(f[0..4].try_into().unwrap()) as usize,
        f.len() - 8
    );
    // parse our own EnumFormat back: size is a Range choice with default 320x240
    assert_eq!(Pod::format_size(&f), Some((320, 240)));
    let m = Pod::meta_cursor();
    assert_eq!(
        u32::from_le_bytes(m[8..12].try_into().unwrap()),
        SPA_TYPE_OBJECT_PARAM_META
    );
}

#[test]
fn pw_pod_layout() {
    check_layout();
}

#[test]
fn pod_pod_layout() {
    check_layout();
}

#[test]
fn pod_primitives() {
    assert_eq!(Pod::integer(-1), [4, 0, 0, 0, 4, 0, 0, 0, 255, 255, 255, 255, 0, 0, 0, 0]);
    assert_eq!(
        Pod::rect(1, 2),
        [8, 0, 0, 0, 10, 0, 0, 0, 1, 0, 0, 0, 2, 0, 0, 0]
    );
    assert_eq!(Pod::frac(3, 4)[4], 11);
    let c = Pod::choice(SPA_CHOICE_RANGE, &[Pod::id(1), Pod::id(2)]);
    assert_eq!(
        c,
        [24, 0, 0, 0, 19, 0, 0, 0, 1, 0, 0, 0, 0, 0, 0, 0, 4, 0, 0, 0, 3, 0, 0, 0, 1, 0, 0, 0, 2, 0, 0, 0]
    );
    let o = Pod::object(7, 9, &[(5, Pod::id(1))]);
    assert_eq!(&o[0..4], &[32, 0, 0, 0]);
    assert_eq!(Pod::format_size(&o), None);
    assert_eq!(Pod::format_size(&[1, 2, 3]), None);
    // a plain rectangle value, not a choice
    let o = Pod::object(7, 9, &[(SPA_FORMAT_VIDEO_SIZE, Pod::rect(640, 480))]);
    assert_eq!(Pod::format_size(&o), Some((640, 480)));
    let m = Pod::meta_cursor();
    assert_eq!(m.len() % 8, 0);
}
