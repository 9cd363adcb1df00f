//! Standalone executables: the player with the macro stored as the zip
//! entry `macro.bin`.

use crate::format::{decoded, law_encode_then_decode, loaded, payload, Event, Header, Macro};
use crate::zip::{
    append_fits, append_stored, append_wraps, appended, archive_of, entry_data, found,
    law_append_then_read, law_append_then_remove, read, readable, remove_last, remove_wraps,
    removed_as, restored, stored_as, unreadable_msg,
};
use crate::Error;
use vstd::prelude::*;

verus! {

pub const MACRO_ENTRY: &'static str = "macro.bin";

/// True when `bytes` carry a macro.
pub fn has_payload(bytes: &[u8]) -> (r: bool)
    ensures
        r == readable(bytes@, MACRO_ENTRY@),
{
    match read(bytes, MACRO_ENTRY) {
        Ok(Some(_)) => true,
        _ => false,
    }
}

/// `r` is what `extract(b)` returns: the refusal when no readable entry
/// `macro.bin` exists, else what decoding that entry's data gives.
pub open spec fn extracted(b: Seq<u8>, r: Result<Macro, Error>) -> bool {
    if !found(b, MACRO_ENTRY@) {
        match r {
            Err(Error::Invalid(msg)) => msg@ == "no macro.bin entry found"@,
            _ => false,
        }
    } else if !readable(b, MACRO_ENTRY@) {
        match r {
            Err(Error::Invalid(msg)) => msg@ == unreadable_msg(b, MACRO_ENTRY@),
            _ => false,
        }
    } else {
        decoded(entry_data(b, MACRO_ENTRY@), r)
    }
}

/// Extract the macro embedded in an executable.
pub fn extract(bytes: &[u8]) -> (r: Result<Macro, Error>)
    ensures
        extracted(bytes@, r),
{
    match read(bytes, MACRO_ENTRY) {
        Ok(Some(p)) => Macro::decode(p),
        Ok(None) => Err(Error::Invalid(String::from_str("no macro.bin entry found"))),
        Err(e) => Err(e),
    }
}

/// Bytes of the executable with any macro removed, so an exported macro can
/// serve as the player for another export.
pub fn player_of(bytes: &[u8]) -> (r: Result<Vec<u8>, Error>)
    requires
        archive_of(bytes@) matches Some((es, _)) ==> !remove_wraps(es),
    ensures
        readable(bytes@, MACRO_ENTRY@) ==> removed_as(bytes@, MACRO_ENTRY@, r),
        !readable(bytes@, MACRO_ENTRY@) ==> (r matches Ok(v) && v@ == bytes@),
{
    if has_payload(bytes) {
        remove_last(bytes, MACRO_ENTRY)
    } else {
        Ok(vstd::slice::slice_to_vec(bytes))
    }
}

/// Build the whole executable in memory.
pub fn build(player: &[u8], m: &Macro) -> (r: Result<Vec<u8>, Error>)
    requires
        payload(m.header, m.events@).len() + 1024 <= u32::MAX,
        !append_wraps(player@, MACRO_ENTRY@, payload(m.header, m.events@)),
    ensures
        player@.len() == 0 ==> (r matches Err(Error::Invalid(msg)) && msg@ == "player binary is empty"@),
        player@.len() > 0 ==> stored_as(player@, MACRO_ENTRY@, payload(m.header, m.events@), r),
{
    if player.len() == 0 {
        return Err(Error::Invalid(String::from_str("player binary is empty")));
    }
    let data = m.encode();
    append_stored(player, MACRO_ENTRY, data.as_slice())
}

/// Exporting a macro and extracting it from the executable gives the macro
/// back: `extract` succeeds on the built bytes with the same header and
/// events.
pub proof fn law_build_then_extract(player: Seq<u8>, h: Header, es: Seq<Event>)
    requires
        es.len() <= u32::MAX,
        append_fits(player, MACRO_ENTRY@, payload(h, es)),
    ensures
        readable(appended(player, MACRO_ENTRY@, payload(h, es)), MACRO_ENTRY@),
        forall|r: Result<Macro, Error>|
            #[trigger] extracted(appended(player, MACRO_ENTRY@, payload(h, es)), r) ==> (r matches Ok(
                m,
            ) && m.header == h && m.events@ == es),
{
    let d = payload(h, es);
    law_append_then_read(player, MACRO_ENTRY@, d);
    law_encode_then_decode(h, es);
    assert forall|r: Result<Macro, Error>|
        #[trigger] extracted(appended(player, MACRO_ENTRY@, d), r) implies (r matches Ok(m)
        && m.header == h && m.events@ == es) by {
        assert(decoded(d, r));
        if let Err(Error::Invalid(_)) = r {
            if exists|i: int| #[trigger] crate::format::first_bad_event(d, i) {
                let i = choose|i: int| #[trigger] crate::format::first_bad_event(d, i);
                assert(crate::format::event_ok(d, i));
            }
        }
    }
}

/// Bytes without a readable `macro.bin` entry hold no macro: `extract`
/// refuses them.
pub proof fn law_extract_needs_payload(b: Seq<u8>)
    requires
        !readable(b, MACRO_ENTRY@),
    ensures
        forall|r: Result<Macro, Error>| #[trigger] extracted(b, r) ==> r is Err,
{
}

/// `Macro::load` reads back the forms the library writes: the executable
/// that `build` makes gives the macro it was built from, and so does an
/// encoded payload, unless its bytes also read as an archive holding
/// `macro.bin` (then `load` takes that entry, as an executable's).
pub proof fn law_load_reads_back(player: Seq<u8>, h: Header, es: Seq<Event>)
    requires
        es.len() <= u32::MAX,
    ensures
        append_fits(player, MACRO_ENTRY@, payload(h, es)) ==> forall|r: Result<Macro, Error>|
            #[trigger] loaded(appended(player, MACRO_ENTRY@, payload(h, es)), r) ==> (r matches Ok(m)
                && m.header == h && m.events@ == es),
        !readable(payload(h, es), MACRO_ENTRY@) ==> forall|r: Result<Macro, Error>|
            #[trigger] loaded(payload(h, es), r) ==> (r matches Ok(m) && m.header == h && m.events@
                == es),
{
    law_encode_then_decode(h, es);
    if append_fits(player, MACRO_ENTRY@, payload(h, es)) {
        law_build_then_extract(player, h, es);
        assert forall|r: Result<Macro, Error>|
            #[trigger] loaded(appended(player, MACRO_ENTRY@, payload(h, es)), r) implies (r matches Ok(
            m,
        ) && m.header == h && m.events@ == es) by {
            assert(extracted(appended(player, MACRO_ENTRY@, payload(h, es)), r));
        }
    }
}

/// Taking the player back out of a built executable undoes the export:
/// `player_of` finds the macro and returns `restored(player, "macro.bin")`,
/// which is the player itself when it had no zip section.
pub proof fn law_build_then_player(player: Seq<u8>, d: Seq<u8>)
    requires
        append_fits(player, MACRO_ENTRY@, d),
    ensures
        forall|r: Result<Vec<u8>, Error>|
            #[trigger] removed_as(appended(player, MACRO_ENTRY@, d), MACRO_ENTRY@, r) ==> (r matches Ok(
                v,
            ) && v@ == restored(player, MACRO_ENTRY@)),
{
    law_append_then_remove(player, MACRO_ENTRY@, d);
}

} // verus!
