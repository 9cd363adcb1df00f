use atbswp::exe::{build, extract, has_payload, player_of};
use atbswp::format::{Event, Header, Macro};
use atbswp::{zip, Error};

#[test]
fn embed_and_extract() {
    let player = b"MZqFpD='\nfake player bytes";
    let m = Macro {
        header: Header {
            screen_w: 800,
            screen_h: 600,
            ..Default::default()
        },
        events: vec![Event::key(1, true, 0), Event::key(1, false, 10)],
    };
    let exe = build(player, &m).unwrap();
    assert!(exe.starts_with(player));
    assert!(has_payload(&exe));
    assert_eq!(extract(&exe).unwrap(), m);
    assert_eq!(player_of(&exe).unwrap(), player.to_vec());
    // Re-exporting from an exported macro replaces the payload in place.
    let m2 = Macro {
        events: vec![],
        ..m.clone()
    };
    let exe2 = build(&exe, &m2).unwrap();
    assert_eq!(extract(&exe2).unwrap(), m2);
    assert_eq!(Macro::load(&exe).unwrap(), m);
}

#[test]
fn keeps_other_entries() {
    let player = zip::append_stored(b"MZ player", "player-macos-x86_64", b"MACHO").unwrap();
    let m = Macro::default();
    let exe = build(&player, &m).unwrap();
    assert_eq!(
        zip::read(&exe, "player-macos-x86_64").unwrap(),
        Some(&b"MACHO"[..])
    );
    assert_eq!(extract(&exe).unwrap(), m);
    assert_eq!(player_of(&exe).unwrap(), player);
    assert!(!has_payload(&player));
}

#[test]
fn empty_player_rejected() {
    assert!(build(&[], &Macro::default()).is_err());
}

#[test]
fn extract_error_messages() {
    match extract(b"no zip here") {
        Err(Error::Invalid(m)) => assert_eq!(m, "no macro.bin entry found"),
        other => panic!("unexpected {other:?}"),
    }
    match build(&[], &Macro::default()) {
        Err(Error::Invalid(m)) => assert_eq!(m, "player binary is empty"),
        other => panic!("unexpected {other:?}"),
    }
    // a plain player is its own player
    assert_eq!(player_of(b"bare").unwrap(), b"bare".to_vec());
}
