//! Just enough zip to append and read *stored* entries at the end of an
//! executable.  An APE is a valid zip archive, so the player finds these
//! entries through cosmopolitan's `/zip/` filesystem; ordinary `unzip`
//! lists them too.  No compression, no zip64 (macros are small).

use crate::bytes::{get16, get32, le16, le32, push_all, push_le16, push_le32};
use crate::Error;
use vstd::prelude::*;
use vstd::slice::{slice_subrange, slice_to_vec};
use vstd::string::*;
use vstd::utf8::{decode_utf8, encode_utf8, valid_utf8};

verus! {

pub const LOCAL_SIG: u32 = 0x0403_4b50;
pub const CENTRAL_SIG: u32 = 0x0201_4b50;
pub const EOCD_SIG: u32 = 0x0605_4b50;

pub fn rd16(b: &[u8], i: usize) -> (r: u16)
    requires
        i + 2 <= b@.len(),
    ensures
        r == get16(b@, i as int),
{
    b[i] as u16 + b[i + 1] as u16 * 256
}

pub fn rd32(b: &[u8], i: usize) -> (r: u32)
    requires
        i + 4 <= b@.len(),
    ensures
        r == get32(b@, i as int),
{
    b[i] as u32 + b[i + 1] as u32 * 256 + b[i + 2] as u32 * 65536 + b[i + 3] as u32 * 16777216
}

// ---- the model ---------------------------------------------------------

/// What `String::from_utf8_lossy` makes of bytes that are not valid UTF-8.
pub uninterp spec fn utf8_lossy(b: Seq<u8>) -> Seq<char>;

/// The name of an entry whose stored name bytes are `b`.
pub open spec fn entry_name(b: Seq<u8>) -> Seq<char> {
    if valid_utf8(b) {
        decode_utf8(b)
    } else {
        utf8_lossy(b)
    }
}

/// One central-directory entry as the archive bytes describe it.
pub ghost struct EntryModel {
    pub name_bytes: Seq<u8>,
    pub method: u16,
    pub crc: u32,
    pub size: u32,
    pub header_off: u32,
    pub data_off: int,
    pub raw: Seq<u8>,
}

/// Where the end-of-central-directory search stops (a comment is at most
/// 65535 bytes long).
pub open spec fn eocd_stop(len: int) -> int {
    if len >= 22 + 65535 {
        len - (22 + 65535)
    } else {
        0
    }
}

/// The last end-of-central-directory signature at or below `i`, not below `stop`.
pub open spec fn eocd_search(b: Seq<u8>, i: int, stop: int) -> Option<int>
    decreases i + 1 - stop,
{
    if i < stop {
        None
    } else if get32(b, i) == EOCD_SIG {
        Some(i)
    } else {
        eocd_search(b, i - 1, stop)
    }
}

/// Offset of the end-of-central-directory record that ends `b`, if any.
pub open spec fn eocd_of(b: Seq<u8>) -> Option<int> {
    if b.len() < 22 {
        None
    } else {
        eocd_search(b, b.len() - 22, eocd_stop(b.len() as int))
    }
}

/// The central-directory record at `p` (before `eocd`) and where it ends.
#[verifier::opaque]
pub open spec fn entry_at(b: Seq<u8>, p: int, eocd: int) -> Option<(EntryModel, int)> {
    if p + 46 > eocd || get32(b, p) != CENTRAL_SIG {
        None
    } else {
        let n = get16(b, p + 28) as int;
        let end = p + 46 + n + get16(b, p + 30) + get16(b, p + 32);
        let h = get32(b, p + 42) as int;
        if end > eocd {
            None
        } else if h + 30 > b.len() || get32(b, h) != LOCAL_SIG {
            None
        } else {
            let data_off = h + 30 + get16(b, h + 26) + get16(b, h + 28);
            if data_off > usize::MAX {
                None
            } else {
                Some(
                    (
                        EntryModel {
                            name_bytes: b.subrange(p + 46, p + 46 + n),
                            method: get16(b, p + 10),
                            crc: get32(b, p + 16),
                            size: get32(b, p + 24),
                            header_off: get32(b, p + 42),
                            data_off,
                            raw: b.subrange(p, end),
                        },
                        end,
                    ),
                )
            }
        }
    }
}

/// `k` consecutive central-directory records starting at `p`.
pub open spec fn entries_from(b: Seq<u8>, p: int, eocd: int, k: nat) -> Option<Seq<EntryModel>>
    decreases k,
{
    if k == 0 {
        Some(Seq::empty())
    } else {
        match entry_at(b, p, eocd) {
            None => None,
            Some((e, end)) => match entries_from(b, end, eocd, (k - 1) as nat) {
                None => None,
                Some(rest) => Some(seq![e] + rest),
            },
        }
    }
}

/// `pre` followed by the entries in `r`, if any.
pub open spec fn prepend_opt(pre: Seq<EntryModel>, r: Option<Seq<EntryModel>>) -> Option<Seq<EntryModel>> {
    match r {
        None => None,
        Some(rest) => Some(pre + rest),
    }
}

pub proof fn lemma_entries_step(
    b: Seq<u8>,
    p: int,
    eocd: int,
    k: nat,
    pre: Seq<EntryModel>,
    m: EntryModel,
    end: int,
)
    requires
        entry_at(b, p, eocd) == Some((m, end)),
    ensures
        prepend_opt(pre, entries_from(b, p, eocd, k + 1)) == prepend_opt(
            pre.push(m),
            entries_from(b, end, eocd, k),
        ),
{
    let rest = entries_from(b, end, eocd, k);
    if rest is Some {
        assert(pre + (seq![m] + rest.unwrap()) =~= pre.push(m) + rest.unwrap());
    }
}

/// The zip that ends `b`: its entries and where its central directory starts.
pub open spec fn archive_of(b: Seq<u8>) -> Option<(Seq<EntryModel>, int)> {
    match eocd_of(b) {
        None => None,
        Some(e) => {
            let count = get16(b, e + 10);
            let cd_size = get32(b, e + 12);
            let cd_off = get32(b, e + 16);
            if cd_off + cd_size > e {
                None
            } else {
                match entries_from(b, cd_off as int, e, count as nat) {
                    None => None,
                    Some(es) => Some((es, cd_off as int)),
                }
            }
        }
    }
}

/// The entry is called `n`.
pub open spec fn named(e: EntryModel, n: Seq<char>) -> bool {
    entry_name(e.name_bytes) == n
}

/// Entry `i` is the first one called `n`.
pub open spec fn first_named(es: Seq<EntryModel>, n: Seq<char>, i: int) -> bool {
    &&& 0 <= i < es.len()
    &&& named(es[i], n)
    &&& forall|j: int| 0 <= j < i ==> !#[trigger] named(es[j], n)
}

/// No entry is called `n`.
pub open spec fn none_named(es: Seq<EntryModel>, n: Seq<char>) -> bool {
    forall|j: int| 0 <= j < es.len() ==> !#[trigger] named(es[j], n)
}

/// The verbatim central-directory records of `es`, in order.
pub open spec fn raws(es: Seq<EntryModel>) -> Seq<u8>
    decreases es.len(),
{
    if es.len() == 0 {
        Seq::empty()
    } else {
        raws(es.drop_last()) + es.last().raw
    }
}

// ---- the exec side -----------------------------------------------------

/// A central-directory entry we know how to handle.
#[derive(Clone, Debug, PartialEq, Eq)]
pub struct Entry {
    pub name: String,
    pub method: u16,
    pub crc: u32,
    pub size: u32,
    /// Offset of the local file header.
    pub header_off: u32,
    /// Offset of the data (stored entries only).
    pub data_off: usize,
    /// Verbatim central directory record, re-emitted when appending.
    pub raw: Vec<u8>,
}

/// `e` is the entry that the model `m` describes.
pub open spec fn entry_models(e: Entry, m: EntryModel) -> bool {
    &&& e.name@ == entry_name(m.name_bytes)
    &&& e.method == m.method
    &&& e.crc == m.crc
    &&& e.size == m.size
    &&& e.header_off == m.header_off
    &&& e.data_off == m.data_off
    &&& e.raw@ == m.raw
}

/// Parsed archive layout: entries plus where the central directory starts
/// (everything from there on is rewritten when appending).
pub struct Archive {
    pub entries: Vec<Entry>,
    pub cd_off: usize,
}

/// `a` is the archive of entries `es` whose directory starts at `cd_off`.
pub open spec fn archive_models(a: Archive, es: Seq<EntryModel>, cd_off: int) -> bool {
    &&& a.entries@.len() == es.len()
    &&& forall|i: int| 0 <= i < es.len() ==> entry_models(#[trigger] a.entries@[i], es[i])
    &&& a.cd_off == cd_off
}

/// `String::from_utf8_lossy`: valid UTF-8 decodes as itself; for other
/// bytes (invalid sequences replaced by U+FFFD) the text is only named.
#[verifier::external_body]
fn lossy_string(b: &[u8]) -> (s: String)
    ensures
        valid_utf8(b@) ==> s@ == decode_utf8(b@),
        !valid_utf8(b@) ==> s@ == utf8_lossy(b@),
{
    String::from_utf8_lossy(b).into_owned()
}

/// Text equality of two strings, decided on their UTF-8 bytes.
pub fn str_eq(a: &str, b: &str) -> (r: bool)
    ensures
        r == (a@ == b@),
{
    let x = a.as_bytes();
    let y = b.as_bytes();
    assert(x@ == encode_utf8(a@));
    assert(y@ == encode_utf8(b@));
    proof {
        vstd::utf8::encode_utf8_decode_utf8(a@);
        vstd::utf8::encode_utf8_decode_utf8(b@);
    }
    if x.len() != y.len() {
        return false;
    }
    let mut i: usize = 0;
    while i < x.len()
        invariant
            x@ == encode_utf8(a@),
            y@ == encode_utf8(b@),
            decode_utf8(encode_utf8(a@)) == a@,
            decode_utf8(encode_utf8(b@)) == b@,
            x@.len() == y@.len(),
            i <= x@.len(),
            forall|j: int| 0 <= j < i ==> x@[j] == y@[j],
        decreases x.len() - i,
    {
        if x[i] != y[i] {
            return false;
        }
        i = i + 1;
    }
    assert(x@ =~= y@);
    true
}

/// The central-directory record at `p`, read as `entry_at` describes it.
fn read_entry(buf: &[u8], p: usize, eocd: usize) -> (r: Option<(Entry, usize)>)
    requires
        p <= eocd,
        eocd + 22 <= buf@.len(),
    ensures
        match r {
            None => entry_at(buf@, p as int, eocd as int) is None,
            Some((e, end)) => entry_at(buf@, p as int, eocd as int) matches Some((m, end2))
                && end2 == end && entry_models(e, m) && p < end <= eocd,
        },
{
    proof {
        reveal(entry_at);
    }
    if eocd - p < 46 || rd32(buf, p) != CENTRAL_SIG {
        return None;
    }
    let n = rd16(buf, p + 28) as usize;
    let total = 46 + n as u64 + rd16(buf, p + 30) as u64 + rd16(buf, p + 32) as u64;
    if total > (eocd - p) as u64 {
        return None;
    }
    let end = p + total as usize;
    let header_off = rd32(buf, p + 42);
    let h = header_off as u64;
    if h + 30 > buf.len() as u64 || rd32(buf, header_off as usize) != LOCAL_SIG {
        return None;
    }
    let hu = header_off as usize;
    let data_off64 = h + 30 + rd16(buf, hu + 26) as u64 + rd16(buf, hu + 28) as u64;
    if data_off64 > usize::MAX as u64 {
        return None;
    }
    let name = lossy_string(slice_subrange(buf, p + 46, p + 46 + n));
    let raw = slice_to_vec(slice_subrange(buf, p, end));
    let e = Entry {
        name,
        method: rd16(buf, p + 10),
        crc: rd32(buf, p + 16),
        size: rd32(buf, p + 24),
        header_off,
        data_off: data_off64 as usize,
        raw,
    };
    proof {
        reveal(entry_at);
    }
    let ghost m = entry_at(buf@, p as int, eocd as int).unwrap().0;
    assert(e.raw@ =~= m.raw);
    Some((e, end))
}

/// Parse the zip that ends `buf`, if any.
pub fn parse(buf: &[u8]) -> (r: Option<Archive>)
    ensures
        match r {
            None => archive_of(buf@) is None,
            Some(a) => archive_of(buf@) matches Some((es, off)) && archive_models(a, es, off),
        },
{
    if buf.len() < 22 {
        return None;
    }
    let stop: usize = if buf.len() >= 22 + 65535 {
        buf.len() - (22 + 65535)
    } else {
        0
    };
    let mut i: usize = buf.len() - 22;
    let mut found = false;
    while !found
        invariant
            buf@.len() >= 22,
            stop == eocd_stop(buf@.len() as int),
            stop <= i <= buf@.len() - 22,
            eocd_of(buf@) == eocd_search(buf@, i as int, stop as int),
            found ==> get32(buf@, i as int) == EOCD_SIG,
        decreases i + (if found { 0int } else { 1int }),
    {
        if rd32(buf, i) == EOCD_SIG {
            found = true;
        } else {
            if i == stop {
                assert(eocd_search(buf@, i as int - 1, stop as int) is None);
                return None;
            }
            i = i - 1;
        }
    }
    let eocd = i;
    assert(eocd_of(buf@) == Some(eocd as int));
    let count = rd16(buf, eocd + 10);
    let cd_size = rd32(buf, eocd + 12);
    let cd_off = rd32(buf, eocd + 16);
    if cd_off as u64 + cd_size as u64 > eocd as u64 {
        return None;
    }
    let mut entries: Vec<Entry> = Vec::new();
    let mut p: usize = cd_off as usize;
    let mut k: u16 = 0;
    let ghost mut models: Seq<EntryModel> = Seq::empty();
    while k < count
        invariant
            eocd_of(buf@) == Some(eocd as int),
            count == get16(buf@, eocd + 10),
            cd_size == get32(buf@, eocd + 12),
            cd_off == get32(buf@, eocd + 16),
            cd_off + cd_size <= eocd,
            k <= count,
            p <= eocd,
            eocd + 22 <= buf@.len(),
            entries@.len() == k,
            models.len() == k,
            forall|j: int| 0 <= j < k ==> entry_models(#[trigger] entries@[j], models[j]),
            entries_from(buf@, cd_off as int, eocd as int, count as nat) == prepend_opt(
                models,
                entries_from(buf@, p as int, eocd as int, (count - k) as nat),
            ),
        decreases count - k,
    {
        let (e, end) = match read_entry(buf, p, eocd) {
            None => {
                assert(entries_from(buf@, p as int, eocd as int, (count - k) as nat) is None);
                assert(prepend_opt(models, None) is None);
                assert(entries_from(buf@, cd_off as int, eocd as int, count as nat) is None);
                assert(archive_of(buf@) is None);
                return None;
            },
            Some(x) => x,
        };
        let ghost m = entry_at(buf@, p as int, eocd as int).unwrap().0;
        entries.push(e);
        proof {
            lemma_entries_step(buf@, p as int, eocd as int, (count - k - 1) as nat, models, m, end as int);
            models = models.push(m);
        }
        p = end;
        k = k + 1;
    }
    proof {
        assert(models + Seq::<EntryModel>::empty() =~= models);
        assert(entries_from(buf@, p as int, eocd as int, 0) == Some(Seq::<EntryModel>::empty()));
    }
    Some(Archive { entries, cd_off: cd_off as usize })
}

/// `buf` holds a zip whose central directory has the entries `es`.
pub proof fn lemma_entries_bounds(b: Seq<u8>, p: int, eocd: int, k: nat)
    requires
        entries_from(b, p, eocd, k) is Some,
        0 <= p,
    ensures
        forall|i: int|
            0 <= i < entries_from(b, p, eocd, k).unwrap().len() ==> {
                let e = #[trigger] entries_from(b, p, eocd, k).unwrap()[i];
                &&& e.header_off + 30 <= b.len()
                &&& e.header_off + 30 <= e.data_off <= e.header_off + 30 + 2 * 65535
            },
        entries_from(b, p, eocd, k).unwrap().len() == k,
    decreases k,
{
    reveal(entry_at);
    if k > 0 {
        let (e, end) = entry_at(b, p, eocd).unwrap();
        lemma_entries_bounds(b, end, eocd, (k - 1) as nat);
        let rest = entries_from(b, end, eocd, (k - 1) as nat).unwrap();
        assert forall|i: int| 0 <= i < rest.len() + 1 implies {
            let x = #[trigger] (seq![e] + rest)[i];
            &&& x.header_off + 30 <= b.len()
            &&& x.header_off + 30 <= x.data_off <= x.header_off + 30 + 2 * 65535
        } by {
            if i > 0 {
                assert((seq![e] + rest)[i] == rest[i - 1]);
            }
        }
    }
}

/// The archive's facts that appending relies on.
pub proof fn lemma_archive_bounds(b: Seq<u8>)
    requires
        archive_of(b) is Some,
    ensures
        archive_of(b).unwrap().1 + 22 <= b.len(),
        archive_of(b).unwrap().1 >= 0,
        archive_of(b).unwrap().0.len() <= 65535,
        forall|i: int|
            0 <= i < archive_of(b).unwrap().0.len() ==> {
                let e = #[trigger] archive_of(b).unwrap().0[i];
                &&& e.header_off + 30 <= b.len()
                &&& e.header_off + 30 <= e.data_off <= e.header_off + 30 + 2 * 65535
            },
{
    let e = eocd_of(b).unwrap();
    lemma_eocd_bounds(b, b.len() - 22, eocd_stop(b.len() as int));
    let cd_off = get32(b, e + 16) as int;
    lemma_entries_bounds(b, cd_off, e, get16(b, e + 10) as nat);
}

pub proof fn lemma_eocd_bounds(b: Seq<u8>, i: int, stop: int)
    requires
        eocd_search(b, i, stop) is Some,
        i <= b.len() - 22,
    ensures
        stop <= eocd_search(b, i, stop).unwrap() <= i,
        get32(b, eocd_search(b, i, stop).unwrap()) == EOCD_SIG,
    decreases i + 1 - stop,
{
    if i >= stop && get32(b, i) != EOCD_SIG {
        lemma_eocd_bounds(b, i - 1, stop);
    }
}

/// Some entry of the zip that ends `b` is called `n`.
pub open spec fn found(b: Seq<u8>, n: Seq<char>) -> bool {
    archive_of(b) matches Some((es, _)) && exists|i: int| first_named(es, n, i)
}

/// The first entry called `n` (meaningful when `found(b, n)`).
pub open spec fn found_entry(b: Seq<u8>, n: Seq<char>) -> EntryModel {
    let es = archive_of(b).unwrap().0;
    es[choose|i: int| first_named(es, n, i)]
}

/// The first entry called `n` is stored and its data lie inside `b`.
pub open spec fn readable(b: Seq<u8>, n: Seq<char>) -> bool {
    &&& found(b, n)
    &&& found_entry(b, n).method == 0
    &&& found_entry(b, n).data_off + found_entry(b, n).size <= b.len()
}

/// The data of the first entry called `n`.
pub open spec fn entry_data(b: Seq<u8>, n: Seq<char>) -> Seq<u8> {
    let e = found_entry(b, n);
    b.subrange(e.data_off, e.data_off + e.size)
}

/// Why the first entry called `n` cannot be read.
pub open spec fn unreadable_msg(b: Seq<u8>, n: Seq<char>) -> Seq<char> {
    if found_entry(b, n).method != 0 {
        "zip entry "@ + n + " is compressed"@
    } else {
        "zip entry "@ + n + " is truncated"@
    }
}

/// There is only one first entry with a given name.
pub proof fn lemma_first_unique(es: Seq<EntryModel>, n: Seq<char>, i: int, j: int)
    requires
        first_named(es, n, i),
        first_named(es, n, j),
    ensures
        i == j,
{
    if i < j {
        assert(!named(es[i], n));
    } else if j < i {
        assert(!named(es[j], n));
    }
}

/// `found_entry` is entry `i` when that is the first one called `n`.
pub proof fn lemma_found_entry(b: Seq<u8>, n: Seq<char>, i: int)
    requires
        archive_of(b) matches Some((es, _)) && first_named(es, n, i),
    ensures
        found(b, n),
        found_entry(b, n) == archive_of(b).unwrap().0[i],
{
    let es = archive_of(b).unwrap().0;
    let k = choose|k: int| first_named(es, n, k);
    lemma_first_unique(es, n, i, k);
}

/// Bytes of a stored entry.
pub fn read<'a>(buf: &'a [u8], name: &str) -> (r: Result<Option<&'a [u8]>, Error>)
    ensures
        match r {
            Ok(None) => !found(buf@, name@),
            Ok(Some(s)) => readable(buf@, name@) && s@ == entry_data(buf@, name@),
            Err(Error::Invalid(msg)) => found(buf@, name@) && !readable(buf@, name@) && msg@
                == unreadable_msg(buf@, name@),
            Err(_) => false,
        },
{
    let a = match parse(buf) {
        None => return Ok(None),
        Some(a) => a,
    };
    let ghost es = archive_of(buf@).unwrap().0;
    proof {
        lemma_archive_bounds(buf@);
    }
    let mut i: usize = 0;
    while i < a.entries.len()
        invariant
            archive_of(buf@) matches Some((es2, off)) && es2 == es && archive_models(a, es, off),
            i <= es.len(),
            forall|j: int| 0 <= j < i ==> !#[trigger] named(es[j], name@),
            forall|j: int| 0 <= j < es.len() ==> #[trigger] es[j].data_off <= es[j].header_off + 30 + 2 * 65535,
        decreases a.entries.len() - i,
    {
        let e = &a.entries[i];
        if str_eq(e.name.as_str(), name) {
            assert(first_named(es, name@, i as int));
            proof {
                lemma_found_entry(buf@, name@, i as int);
            }
            if e.method != 0 {
                let mut msg = String::from_str("zip entry ");
                msg.append(name);
                msg.append(" is compressed");
                return Err(Error::Invalid(msg));
            }
            let end = e.data_off as u64 + e.size as u64;
            if end > buf.len() as u64 {
                let mut msg = String::from_str("zip entry ");
                msg.append(name);
                msg.append(" is truncated");
                return Err(Error::Invalid(msg));
            }
            return Ok(Some(slice_subrange(buf, e.data_off, end as usize)));
        }
        i = i + 1;
    }
    proof {
        if found(buf@, name@) {
            let k = choose|k: int| first_named(es, name@, k);
            assert(!named(es[k], name@));
        }
    }
    Ok(None)
}

// ---- crc -------------------------------------------------------------

/// One bit step of the reflected CRC-32 (polynomial 0xEDB88320).
pub open spec fn crc_shift(c: u32) -> u32 {
    if c & 1 != 0 {
        (c >> 1) ^ 0xEDB8_8320u32
    } else {
        c >> 1
    }
}

/// `k` bit steps.
pub open spec fn crc_rounds(c: u32, k: nat) -> u32
    decreases k,
{
    if k == 0 {
        c
    } else {
        crc_rounds(crc_shift(c), (k - 1) as nat)
    }
}

/// The CRC register after `d`, starting from all ones.
pub open spec fn crc_state(d: Seq<u8>) -> u32
    decreases d.len(),
{
    if d.len() == 0 {
        0xFFFF_FFFFu32
    } else {
        crc_rounds(crc_state(d.drop_last()) ^ (d.last() as u32), 8)
    }
}

/// The zip CRC-32 of `d`.
pub open spec fn crc32_of(d: Seq<u8>) -> u32 {
    !crc_state(d)
}

pub fn crc32(data: &[u8]) -> (r: u32)
    ensures
        r == crc32_of(data@),
{
    let mut c: u32 = 0xFFFF_FFFF;
    let mut i: usize = 0;
    assert(data@.take(0) =~= Seq::<u8>::empty());
    while i < data.len()
        invariant
            i <= data@.len(),
            c == crc_state(data@.take(i as int)),
        decreases data.len() - i,
    {
        let c0 = c ^ (data[i] as u32);
        c = c0;
        let mut k: usize = 0;
        while k < 8
            invariant
                k <= 8,
                crc_rounds(c, (8 - k) as nat) == crc_rounds(c0, 8),
            decreases 8 - k,
        {
            c = if c & 1 != 0 {
                (c >> 1) ^ 0xEDB8_8320
            } else {
                c >> 1
            };
            k = k + 1;
        }
        proof {
            assert(data@.take(i as int + 1).drop_last() =~= data@.take(i as int));
        }
        i = i + 1;
    }
    assert(data@.take(i as int) =~= data@);
    !c
}

// ---- writing -----------------------------------------------------------

/// The size fields of a stored entry of `d`.
pub open spec fn size_field(d: Seq<u8>) -> u32 {
    (d.len() % 0x1_0000_0000) as u32
}

/// The name length field for name bytes `nb`.
pub open spec fn name_len_field(nb: Seq<u8>) -> u16 {
    (nb.len() % 65536) as u16
}

/// Local file header plus data of a stored entry.
#[verifier::opaque]
pub open spec fn local_record(nb: Seq<u8>, d: Seq<u8>) -> Seq<u8> {
    le32(LOCAL_SIG) + le16(20) + le16(0) + le16(0) + le16(0) + le16(0x21) + le32(crc32_of(d))
        + le32(size_field(d)) + le32(size_field(d)) + le16(name_len_field(nb)) + le16(0) + nb + d
}

/// Central directory record of a stored entry whose local header is at `off`.
#[verifier::opaque]
pub open spec fn central_record(nb: Seq<u8>, d: Seq<u8>, off: u32) -> Seq<u8> {
    le32(CENTRAL_SIG) + le16(0x0314) + le16(20) + le16(0) + le16(0) + le16(0) + le16(0x21) + le32(
        crc32_of(d),
    ) + le32(size_field(d)) + le32(size_field(d)) + le16(name_len_field(nb)) + le16(0) + le16(0)
        + le16(0) + le16(0) + le32(0x81A4_0000u32) + le32(off) + nb
}

/// End-of-central-directory record.
#[verifier::opaque]
pub open spec fn eocd_record(count: u16, cd_size: u32, cd_off: u32) -> Seq<u8> {
    le32(EOCD_SIG) + le16(0) + le16(0) + le16(count) + le16(count) + le32(cd_size) + le32(cd_off)
        + le16(0)
}

fn push_local_record(out: &mut Vec<u8>, nb: &[u8], d: &[u8], crc: u32)
    requires
        crc == crc32_of(d@),
    ensures
        final(out)@ == old(out)@ + local_record(nb@, d@),
        local_record(nb@, d@).len() == 30 + nb@.len() + d@.len(),
{
    let size = (d.len() as u64 % 0x1_0000_0000u64) as u32;
    let nlen = (nb.len() % 65536) as u16;
    push_le32(out, LOCAL_SIG);
    push_le16(out, 20);
    push_le16(out, 0);
    push_le16(out, 0);
    push_le16(out, 0);
    push_le16(out, 0x21);
    push_le32(out, crc);
    push_le32(out, size);
    push_le32(out, size);
    push_le16(out, nlen);
    push_le16(out, 0);
    push_all(out, nb);
    push_all(out, d);
    reveal(local_record);
    assert(final(out)@ =~= old(out)@ + local_record(nb@, d@));
}

fn push_central_record(out: &mut Vec<u8>, nb: &[u8], d: &[u8], crc: u32, off: u32)
    requires
        crc == crc32_of(d@),
    ensures
        final(out)@ == old(out)@ + central_record(nb@, d@, off),
        central_record(nb@, d@, off).len() == 46 + nb@.len(),
{
    let size = (d.len() as u64 % 0x1_0000_0000u64) as u32;
    let nlen = (nb.len() % 65536) as u16;
    push_le32(out, CENTRAL_SIG);
    push_le16(out, 0x0314);
    push_le16(out, 20);
    push_le16(out, 0);
    push_le16(out, 0);
    push_le16(out, 0);
    push_le16(out, 0x21);
    push_le32(out, crc);
    push_le32(out, size);
    push_le32(out, size);
    push_le16(out, nlen);
    push_le16(out, 0);
    push_le16(out, 0);
    push_le16(out, 0);
    push_le16(out, 0);
    push_le32(out, 0x81A4_0000u32);
    push_le32(out, off);
    push_all(out, nb);
    reveal(central_record);
    assert(final(out)@ =~= old(out)@ + central_record(nb@, d@, off));
}

/// Append the end-of-central-directory record.
pub fn write_eocd(out: &mut Vec<u8>, count: u16, cd_size: u32, cd_off: u32)
    ensures
        final(out)@ == old(out)@ + eocd_record(count, cd_size, cd_off),
{
    push_le32(out, EOCD_SIG);
    push_le16(out, 0);
    push_le16(out, 0);
    push_le16(out, count);
    push_le16(out, count);
    push_le32(out, cd_size);
    push_le32(out, cd_off);
    push_le16(out, 0);
    reveal(eocd_record);
    assert(final(out)@ =~= old(out)@ + eocd_record(count, cd_size, cd_off));
}

/// The archive's last entry is the first (so the only) one called `n`.
pub open spec fn replaces_last(es: Seq<EntryModel>, n: Seq<char>) -> bool {
    es.len() > 0 && first_named(es, n, es.len() - 1)
}

/// An entry called `n` exists and is not last.
pub open spec fn blocked(b: Seq<u8>, n: Seq<char>) -> bool {
    archive_of(b) matches Some((es, _)) && exists|i: int|
        #[trigger] first_named(es, n, i) && i != es.len() - 1
}

/// What appending keeps of `b` verbatim.
pub open spec fn base_prefix(b: Seq<u8>, n: Seq<char>) -> Seq<u8> {
    match archive_of(b) {
        None => b,
        Some((es, cd_off)) => if replaces_last(es, n) {
            b.subrange(0, es.last().header_off as int)
        } else {
            b.subrange(0, cd_off)
        },
    }
}

/// The entries whose records appending re-emits.
pub open spec fn kept_entries(b: Seq<u8>, n: Seq<char>) -> Seq<EntryModel> {
    match archive_of(b) {
        None => Seq::empty(),
        Some((es, _)) => if replaces_last(es, n) {
            es.drop_last()
        } else {
            es
        },
    }
}

/// Offset of the new central directory, as its 32-bit field stores it.
pub open spec fn new_cd_off(prefix: Seq<u8>, nb: Seq<u8>, d: Seq<u8>) -> u32 {
    ((prefix.len() + 30 + nb.len() + d.len()) % 0x1_0000_0000) as u32
}

/// End of the new central directory, as a 32-bit value.
pub open spec fn new_cd_end(prefix: Seq<u8>, kept: Seq<EntryModel>, nb: Seq<u8>, d: Seq<u8>) -> u32 {
    ((prefix.len() + 30 + nb.len() + d.len() + raws(kept).len() + 46 + nb.len())
        % 0x1_0000_0000) as u32
}

/// The 32-bit directory end falls below its start (where `u32` subtraction
/// would overflow).
pub open spec fn cd_wraps(b: Seq<u8>, n: Seq<char>, nb: Seq<u8>, d: Seq<u8>) -> bool {
    new_cd_end(base_prefix(b, n), kept_entries(b, n), nb, d) < new_cd_off(base_prefix(b, n), nb, d)
}

/// The archive `append_stored` writes.
pub open spec fn stored_output(prefix: Seq<u8>, kept: Seq<EntryModel>, nb: Seq<u8>, d: Seq<u8>) -> Seq<u8> {
    let cd_off = new_cd_off(prefix, nb, d);
    let cd_end = new_cd_end(prefix, kept, nb, d);
    prefix + local_record(nb, d) + raws(kept) + central_record(nb, d, prefix.len() as u32)
        + eocd_record(((kept.len() + 1) % 65536) as u16, (cd_end - cd_off) as u32, cd_off)
}

/// What appending `name` to `buf` keeps: the verbatim prefix, the kept
/// central-directory records and their number.
fn append_base(buf: &[u8], name: &str) -> (r: Result<(Vec<u8>, Vec<u8>, u64), Error>)
    ensures
        match r {
            Ok((out, recs, count)) => !blocked(buf@, name@) && out@ == base_prefix(buf@, name@)
                && recs@ == raws(kept_entries(buf@, name@)) && count == kept_entries(
                buf@,
                name@,
            ).len() && count <= 65535,
            Err(Error::Invalid(msg)) => blocked(buf@, name@) && msg@ == "zip entry "@ + name@
                + " exists and is not last"@,
            Err(_) => false,
        },
{
    let out: Vec<u8>;
    let mut recs: Vec<u8> = Vec::new();
    let mut count: u64 = 0;
    match parse(buf) {
        Some(a) => {
            let ghost es = archive_of(buf@).unwrap().0;
            proof {
                lemma_archive_bounds(buf@);
            }
            let mut pos: usize = 0;
            let mut found = false;
            while pos < a.entries.len() && !found
                invariant
                    archive_of(buf@) matches Some((es2, off)) && es2 == es && archive_models(
                        a,
                        es,
                        off,
                    ),
                    pos <= es.len(),
                    found ==> pos < es.len() && first_named(es, name@, pos as int),
                    !found ==> forall|j: int| 0 <= j < pos ==> !#[trigger] named(es[j], name@),
                decreases es.len() - pos + (if found { 0int } else { 1int }),
            {
                if str_eq(a.entries[pos].name.as_str(), name) {
                    found = true;
                } else {
                    pos = pos + 1;
                }
            }
            let n = a.entries.len();
            if found && pos != n - 1 {
                let mut msg = String::from_str("zip entry ");
                msg.append(name);
                msg.append(" exists and is not last");
                return Err(Error::Invalid(msg));
            }
            proof {
                if !found {
                    assert forall|i: int| #[trigger] first_named(es, name@, i) implies false by {
                        assert(!named(es[i], name@));
                    }
                    assert(!replaces_last(es, name@));
                } else {
                    assert(replaces_last(es, name@));
                    assert forall|i: int| #[trigger] first_named(es, name@, i) implies i == n - 1 by {
                        if i < pos {
                            assert(!named(es[i], name@));
                        } else if i > pos {
                            assert(!named(es[pos as int], name@));
                        }
                    }
                }
                assert(!blocked(buf@, name@));
            }
            let keep = if found { n - 1 } else { n };
            let prefix_end: usize = if found { a.entries[n - 1].header_off as usize } else { a.cd_off };
            out = slice_to_vec(slice_subrange(buf, 0, prefix_end));
            let ghost kept = kept_entries(buf@, name@);
            assert(kept.len() == keep);
            let mut j: usize = 0;
            while j < keep
                invariant
                    archive_of(buf@) matches Some((es2, off)) && es2 == es && archive_models(a, es, off),
                    keep <= es.len(),
                    kept == es.take(keep as int),
                    j <= keep,
                    recs@ == raws(kept.take(j as int)),
                decreases keep - j,
            {
                push_all(&mut recs, a.entries[j].raw.as_slice());
                proof {
                    assert(kept.take(j as int + 1).drop_last() =~= kept.take(j as int));
                }
                j = j + 1;
            }
            assert(kept.take(keep as int) =~= kept);
            count = keep as u64;
            assert(out@ =~= base_prefix(buf@, name@));
        },
        None => {
            out = slice_to_vec(buf);
            assert(recs@ =~= raws(kept_entries(buf@, name@)));
        },
    }
    Ok((out, recs, count))
}

/// The 32-bit directory end of an accepted append would fall below its start.
pub open spec fn append_wraps(b: Seq<u8>, n: Seq<char>, d: Seq<u8>) -> bool {
    &&& !blocked(b, n)
    &&& base_prefix(b, n).len() <= u32::MAX - d.len() - 1024
    &&& cd_wraps(b, n, encode_utf8(n), d)
}

/// `r` is what `append_stored(b, n, d)` returns: the appended archive, or
/// the refusal of a duplicate that is not last, or of a too large file.
pub open spec fn stored_as(b: Seq<u8>, n: Seq<char>, d: Seq<u8>, r: Result<Vec<u8>, Error>) -> bool {
    match r {
        Ok(out) => !blocked(b, n) && base_prefix(b, n).len() <= u32::MAX - d.len() - 1024 && out@
            == appended(b, n, d),
        Err(Error::Invalid(msg)) => (blocked(b, n) && msg@ == "zip entry "@ + n
            + " exists and is not last"@) || (!blocked(b, n) && base_prefix(b, n).len() > u32::MAX
            - d.len() - 1024 && msg@ == "file too large for zip32"@),
        Err(_) => false,
    }
}

/// Whether `append_stored(buf, name, data)` can run: the 32-bit directory
/// end of an accepted append does not fall below its start.
pub fn append_fits_u32(buf: &[u8], name: &str, data: &[u8]) -> (r: bool)
    requires
        data@.len() + 1024 <= u32::MAX,
    ensures
        r == !append_wraps(buf@, name@, data@),
{
    let (out, recs, count) = match append_base(buf, name) {
        Ok(x) => x,
        Err(_) => return true,
    };
    if out.len() as u64 > u32::MAX as u64 - data.len() as u64 - 1024 {
        return true;
    }
    let name_b = name.as_bytes();
    assert(name_b@ == encode_utf8(name@));
    let nb = name_b.len() as u128;
    let start = out.len() as u128 + 30 + nb + data.len() as u128;
    let cd_off = (start % 0x1_0000_0000u128) as u32;
    let cd_end = ((start + recs.len() as u128 + 46 + nb) % 0x1_0000_0000u128) as u32;
    cd_end >= cd_off
}

/// Return `buf` with `name` stored as the **last** entry.  A previous entry
/// of that name is dropped, which only works cleanly if it was last too;
/// any other duplicate is rejected.
pub fn append_stored(buf: &[u8], name: &str, data: &[u8]) -> (r: Result<Vec<u8>, Error>)
    requires
        data@.len() + 1024 <= u32::MAX,
        !append_wraps(buf@, name@, data@),
    ensures
        stored_as(buf@, name@, data@, r),
{
    let (mut out, mut recs, count) = match append_base(buf, name) {
        Ok(x) => x,
        Err(e) => return Err(e),
    };
    if out.len() as u64 > u32::MAX as u64 - data.len() as u64 - 1024 {
        return Err(Error::Invalid(String::from_str("file too large for zip32")));
    }
    let crc = crc32(data);
    let header_off = out.len() as u32;
    let name_b = name.as_bytes();
    assert(name_b@ == encode_utf8(name@));
    let ghost prefix = out@;
    push_local_record(&mut out, name_b, data, crc);
    push_central_record(&mut recs, name_b, data, crc, header_off);
    let cd_off = (out.len() as u64 % 0x1_0000_0000u64) as u32;
    push_all(&mut out, recs.as_slice());
    let cd_end = (out.len() as u64 % 0x1_0000_0000u64) as u32;
    let total = ((count + 1) % 65536) as u16;
    write_eocd(&mut out, total, cd_end - cd_off, cd_off);
    assert(out@ == appended(buf@, name@, data@));
    Ok(out)
}

/// What `remove_last` leaves of `b`, whose entries are `es`: the bytes up
/// to the last entry's local header, then the other entries' records and a
/// new end record (or nothing more when no entry is left).
pub open spec fn removed_output(b: Seq<u8>, es: Seq<EntryModel>) -> Seq<u8> {
    let h = es.last().header_off;
    let kept = es.drop_last();
    let pre = b.subrange(0, h as int);
    if kept.len() == 0 {
        pre
    } else {
        let end = ((h + raws(kept).len()) % 0x1_0000_0000) as u32;
        pre + raws(kept) + eocd_record((kept.len() % 65536) as u16, (end - h) as u32, h)
    }
}

/// The 32-bit directory end would fall below its start when removing.
pub open spec fn remove_wraps(es: Seq<EntryModel>) -> bool {
    let h = es.last().header_off;
    es.len() > 1 && (((h + raws(es.drop_last()).len()) % 0x1_0000_0000) as u32) < h
}

/// `r` is what `remove_last(b, n)` returns.
pub open spec fn removed_as(b: Seq<u8>, n: Seq<char>, r: Result<Vec<u8>, Error>) -> bool {
    match r {
        Ok(out) => archive_of(b) matches Some((es, _)) && es.len() > 0 && named(es.last(), n) && out@
            == removed_output(b, es),
        Err(Error::Invalid(msg)) => match archive_of(b) {
            None => msg@ == "no zip section"@,
            Some((es, _)) => (es.len() == 0 && msg@ == "empty zip"@) || (es.len() > 0 && !named(
                es.last(),
                n,
            ) && msg@ == "zip entry "@ + n + " is not the last entry"@),
        },
        Err(_) => false,
    }
}

/// Whether `remove_last` can run on `buf`: the 32-bit end of the directory
/// it would write does not fall below its start.
pub fn remove_fits_u32(buf: &[u8]) -> (r: bool)
    ensures
        r == (archive_of(buf@) matches Some((es, _)) ==> !remove_wraps(es)),
{
    let a = match parse(buf) {
        None => return true,
        Some(a) => a,
    };
    let ghost es = archive_of(buf@).unwrap().0;
    proof {
        lemma_archive_bounds(buf@);
        lemma_archive_ok(buf@);
    }
    let n = a.entries.len();
    if n <= 1 {
        return true;
    }
    let h = a.entries[n - 1].header_off as u64;
    let mut total: u64 = 0;
    let mut j: usize = 0;
    while j < n - 1
        invariant
            archive_of(buf@) matches Some((es2, off)) && es2 == es && archive_models(a, es, off),
            forall|i: int| 0 <= i < es.len() ==> record_ok(#[trigger] es[i]),
            n == es.len(),
            1 < n <= 65535,
            j <= n - 1,
            total == raws(es.drop_last().take(j as int)).len(),
            total <= j * 196651,
        decreases n - 1 - j,
    {
        proof {
            assert(es.drop_last().take(j as int + 1).drop_last() =~= es.drop_last().take(j as int));
            assert(es.drop_last()[j as int] == es[j as int]);
            assert(record_ok(es[j as int]));
        }
        let l = a.entries[j].raw.len() as u64;
        assert(l <= 196651);
        total = total + l;
        j = j + 1;
    }
    assert(es.drop_last().take(j as int) =~= es.drop_last());
    let end = ((h + total) % 0x1_0000_0000u64) as u32;
    end >= h as u32
}

/// Return `buf` without its last entry, which must be `name`.  When it was
/// the only entry the whole zip section disappears.
pub fn remove_last(buf: &[u8], name: &str) -> (r: Result<Vec<u8>, Error>)
    requires
        archive_of(buf@) matches Some((es, _)) ==> !remove_wraps(es),
    ensures
        removed_as(buf@, name@, r),
{
    let a = match parse(buf) {
        None => return Err(Error::Invalid(String::from_str("no zip section"))),
        Some(a) => a,
    };
    let ghost es = archive_of(buf@).unwrap().0;
    proof {
        lemma_archive_bounds(buf@);
    }
    let n = a.entries.len();
    if n == 0 {
        return Err(Error::Invalid(String::from_str("empty zip")));
    }
    if !str_eq(a.entries[n - 1].name.as_str(), name) {
        let mut msg = String::from_str("zip entry ");
        msg.append(name);
        msg.append(" is not the last entry");
        return Err(Error::Invalid(msg));
    }
    let h = a.entries[n - 1].header_off;
    let mut out = slice_to_vec(slice_subrange(buf, 0, h as usize));
    if n == 1 {
        assert(es.drop_last().len() == 0);
        return Ok(out);
    }
    let ghost kept = es.drop_last();
    let mut j: usize = 0;
    while j < n - 1
        invariant
            archive_of(buf@) matches Some((es2, off)) && es2 == es && archive_models(a, es, off),
            n == es.len(),
            n > 1,
            kept == es.drop_last(),
            j <= n - 1,
            out@ == buf@.subrange(0, h as int) + raws(kept.take(j as int)),
        decreases n - 1 - j,
    {
        push_all(&mut out, a.entries[j].raw.as_slice());
        proof {
            assert(kept.take(j as int + 1).drop_last() =~= kept.take(j as int));
            assert(kept[j as int] == es[j as int]);
        }
        j = j + 1;
    }
    assert(kept.take(j as int) =~= kept);
    let end = (out.len() as u64 % 0x1_0000_0000u64) as u32;
    write_eocd(&mut out, ((n - 1) % 65536) as u16, end - h, h);
    Ok(out)
}

// ---- laws ----------------------------------------------------------------

/// The record `e.raw` describes `e` by itself.
pub open spec fn record_ok(e: EntryModel) -> bool {
    let r = e.raw;
    &&& r.len() >= 46
    &&& get32(r, 0) == CENTRAL_SIG
    &&& r.len() == 46 + get16(r, 28) + get16(r, 30) + get16(r, 32)
    &&& e.name_bytes == r.subrange(46, 46 + get16(r, 28))
    &&& e.method == get16(r, 10)
    &&& e.crc == get32(r, 16)
    &&& e.size == get32(r, 24)
    &&& e.header_off == get32(r, 42)
}

/// The local header of `e` lies in `b` and gives its data offset.
pub open spec fn local_ok(e: EntryModel, b: Seq<u8>) -> bool {
    let h = e.header_off as int;
    &&& h + 30 <= b.len()
    &&& get32(b, h) == LOCAL_SIG
    &&& e.data_off == h + 30 + get16(b, h + 26) + get16(b, h + 28)
    &&& e.data_off <= usize::MAX
}

/// Reading a field inside a copied range reads the copy.
proof fn lemma_get_in(b: Seq<u8>, q: int, r: Seq<u8>, k: int)
    requires
        0 <= q,
        q + r.len() <= b.len(),
        b.subrange(q, q + r.len()) == r,
        0 <= k,
        k + 4 <= r.len(),
    ensures
        get32(b, q + k) == get32(r, k),
        get16(b, q + k) == get16(r, k),
{
    assert(b[q + k] == r[k]);
    assert(b[q + k + 1] == r[k + 1]);
    assert(b[q + k + 2] == r[k + 2]);
    assert(b[q + k + 3] == r[k + 3]);
}

proof fn lemma_get16_in(b: Seq<u8>, q: int, r: Seq<u8>, k: int)
    requires
        0 <= q,
        q + r.len() <= b.len(),
        b.subrange(q, q + r.len()) == r,
        0 <= k,
        k + 2 <= r.len(),
    ensures
        get16(b, q + k) == get16(r, k),
{
    assert(b[q + k] == r[k]);
    assert(b[q + k + 1] == r[k + 1]);
}

/// A self-describing record copied to `q` parses back as the same entry.
proof fn lemma_entry_frame(b: Seq<u8>, q: int, eocd: int, e: EntryModel)
    requires
        record_ok(e),
        local_ok(e, b),
        0 <= q,
        q + e.raw.len() <= eocd,
        eocd <= b.len(),
        b.subrange(q, q + e.raw.len()) == e.raw,
    ensures
        entry_at(b, q, eocd) == Some((e, q + e.raw.len())),
{
    reveal(entry_at);
    let r = e.raw;
    lemma_get_in(b, q, r, 0);
    lemma_get_in(b, q, r, 16);
    lemma_get_in(b, q, r, 24);
    lemma_get_in(b, q, r, 42);
    lemma_get16_in(b, q, r, 10);
    lemma_get16_in(b, q, r, 28);
    lemma_get16_in(b, q, r, 30);
    lemma_get16_in(b, q, r, 32);
    let n = get16(r, 28) as int;
    assert(b.subrange(q + 46, q + 46 + n) =~= r.subrange(46, 46 + n)) by {
        assert forall|i: int| 0 <= i < n implies #[trigger] b.subrange(q + 46, q + 46 + n)[i] == r.subrange(
            46,
            46 + n,
        )[i] by {
            assert(b[q + 46 + i] == r[46 + i]);
        }
    }
    assert(b.subrange(q, q + r.len()) =~= r);
}

/// An entry the parser reads describes itself and has its local header.
proof fn lemma_entry_at_ok(b: Seq<u8>, p: int, eocd: int)
    requires
        entry_at(b, p, eocd) is Some,
        0 <= p,
        eocd <= b.len(),
    ensures
        record_ok(entry_at(b, p, eocd).unwrap().0),
        local_ok(entry_at(b, p, eocd).unwrap().0, b),
        entry_at(b, p, eocd).unwrap().1 == p + entry_at(b, p, eocd).unwrap().0.raw.len(),
        entry_at(b, p, eocd).unwrap().1 <= eocd,
{
    reveal(entry_at);
    let (e, end) = entry_at(b, p, eocd).unwrap();
    let r = e.raw;
    assert(b.subrange(p, p + r.len()) =~= r);
    lemma_get_in(b, p, r, 0);
    lemma_get_in(b, p, r, 16);
    lemma_get_in(b, p, r, 24);
    lemma_get_in(b, p, r, 42);
    lemma_get16_in(b, p, r, 10);
    lemma_get16_in(b, p, r, 28);
    lemma_get16_in(b, p, r, 30);
    lemma_get16_in(b, p, r, 32);
    assert(e.name_bytes =~= r.subrange(46, 46 + get16(r, 28)));
}

/// Every entry the parser reads describes itself and has its local header.
proof fn lemma_entries_ok(b: Seq<u8>, p: int, eocd: int, k: nat)
    requires
        entries_from(b, p, eocd, k) is Some,
        0 <= p,
        eocd <= b.len(),
    ensures
        forall|i: int|
            0 <= i < entries_from(b, p, eocd, k).unwrap().len() ==> record_ok(
                #[trigger] entries_from(b, p, eocd, k).unwrap()[i],
            ) && local_ok(entries_from(b, p, eocd, k).unwrap()[i], b),
    decreases k,
{
    if k > 0 {
        let (e, end) = entry_at(b, p, eocd).unwrap();
        lemma_entry_at_ok(b, p, eocd);
        lemma_entries_ok(b, end, eocd, (k - 1) as nat);
        let rest = entries_from(b, end, eocd, (k - 1) as nat).unwrap();
        assert forall|i: int| 0 <= i < rest.len() + 1 implies record_ok(
            #[trigger] (seq![e] + rest)[i],
        ) && local_ok((seq![e] + rest)[i], b) by {
            if i > 0 {
                assert((seq![e] + rest)[i] == rest[i - 1]);
            }
        }
    }
}

/// The local headers stay valid in a buffer that keeps their bytes.
proof fn lemma_local_keep(e: EntryModel, b: Seq<u8>, c: Seq<u8>, n: int)
    requires
        local_ok(e, b),
        e.header_off + 30 <= n,
        n <= b.len(),
        n <= c.len(),
        c.subrange(0, n) == b.subrange(0, n),
    ensures
        local_ok(e, c),
{
    let h = e.header_off as int;
    assert(c[h] == b.subrange(0, n)[h]);
    assert(c[h + 1] == b.subrange(0, n)[h + 1]);
    assert(c[h + 2] == b.subrange(0, n)[h + 2]);
    assert(c[h + 3] == b.subrange(0, n)[h + 3]);
    assert(c[h + 26] == b.subrange(0, n)[h + 26]);
    assert(c[h + 27] == b.subrange(0, n)[h + 27]);
    assert(c[h + 28] == b.subrange(0, n)[h + 28]);
    assert(c[h + 29] == b.subrange(0, n)[h + 29]);
}

pub proof fn lemma_raws_concat(a: Seq<EntryModel>, b: Seq<EntryModel>)
    ensures
        raws(a + b) == raws(a) + raws(b),
    decreases b.len(),
{
    if b.len() == 0 {
        assert(a + b =~= a);
        assert(raws(a) + raws(b) =~= raws(a));
    } else {
        lemma_raws_concat(a, b.drop_last());
        assert((a + b).drop_last() =~= a + b.drop_last());
        assert(raws(a + b) =~= raws(a) + raws(b));
    }
}

/// Consecutive self-describing records parse back as their entries.
proof fn lemma_entries_from_raws(b: Seq<u8>, q: int, eocd: int, es: Seq<EntryModel>, tail: nat)
    requires
        0 <= q,
        q + raws(es).len() <= eocd,
        eocd <= b.len(),
        b.subrange(q, q + raws(es).len()) == raws(es),
        forall|i: int| 0 <= i < es.len() ==> record_ok(#[trigger] es[i]) && local_ok(es[i], b),
    ensures
        entries_from(b, q, eocd, es.len() + tail) == prepend_opt(
            es,
            entries_from(b, q + raws(es).len(), eocd, tail),
        ),
    decreases es.len(),
{
    if es.len() == 0 {
        let r = entries_from(b, q, eocd, tail);
        if r is Some {
            assert(es + r.unwrap() =~= r.unwrap());
        }
    } else {
        let e = es[0];
        let rest = es.drop_first();
        assert(es =~= seq![e] + rest);
        lemma_raws_concat(seq![e], rest);
        assert(raws(seq![e]) =~= e.raw) by {
            assert(seq![e].drop_last() =~= Seq::<EntryModel>::empty());
            assert(raws(seq![e]) == raws(Seq::<EntryModel>::empty()) + e.raw);
        }
        assert(b.subrange(q, q + e.raw.len()) =~= raws(es).subrange(0, e.raw.len() as int));
        assert(b.subrange(q + e.raw.len(), q + raws(es).len()) =~= raws(es).subrange(
            e.raw.len() as int,
            raws(es).len() as int,
        ));
        assert(raws(es).subrange(0, e.raw.len() as int) =~= e.raw);
        assert(raws(es).subrange(e.raw.len() as int, raws(es).len() as int) =~= raws(rest));
        lemma_entry_frame(b, q, eocd, e);
        assert forall|i: int| 0 <= i < rest.len() implies record_ok(#[trigger] rest[i]) && local_ok(
            rest[i],
            b,
        ) by {
            assert(rest[i] == es[i + 1]);
        }
        lemma_entries_from_raws(b, q + e.raw.len(), eocd, rest, tail);
        assert(es.len() + tail == (rest.len() + tail) + 1);
        let r = entries_from(b, q + raws(es).len(), eocd, tail);
        if r is Some {
            assert(seq![e] + (rest + r.unwrap()) =~= es + r.unwrap());
        }
    }
}

proof fn lemma_get32_sub(r: Seq<u8>, k: int, v: u32)
    requires
        0 <= k,
        k + 4 <= r.len(),
        r.subrange(k, k + 4) == le32(v),
    ensures
        get32(r, k) == v,
{
    assert(r =~= r.subrange(0, k) + le32(v) + r.subrange(k + 4, r.len() as int));
    crate::bytes::lemma_get32(r.subrange(0, k), v, r.subrange(k + 4, r.len() as int));
}

proof fn lemma_get16_sub(r: Seq<u8>, k: int, v: u16)
    requires
        0 <= k,
        k + 2 <= r.len(),
        r.subrange(k, k + 2) == le16(v),
    ensures
        get16(r, k) == v,
{
    assert(r =~= r.subrange(0, k) + le16(v) + r.subrange(k + 2, r.len() as int));
    crate::bytes::lemma_get16(r.subrange(0, k), v, r.subrange(k + 2, r.len() as int));
}

/// The entry `append_stored` adds, with its local header at `at`.
pub open spec fn new_entry(at: nat, nb: Seq<u8>, d: Seq<u8>) -> EntryModel {
    EntryModel {
        name_bytes: nb,
        method: 0,
        crc: crc32_of(d),
        size: size_field(d),
        header_off: at as u32,
        data_off: (at + 30 + nb.len()) as int,
        raw: central_record(nb, d, at as u32),
    }
}

proof fn lemma_new_record_ok(at: nat, nb: Seq<u8>, d: Seq<u8>)
    requires
        at <= u32::MAX,
        nb.len() < 65536,
    ensures
        record_ok(new_entry(at, nb, d)),
        central_record(nb, d, at as u32).len() == 46 + nb.len(),
{
    reveal(central_record);
    let r = central_record(nb, d, at as u32);
    let n16 = name_len_field(nb);
    assert(n16 == nb.len());
    assert(r.len() == 46 + nb.len());
    assert(r.subrange(0, 4) =~= le32(CENTRAL_SIG));
    lemma_get32_sub(r, 0, CENTRAL_SIG);
    assert(r.subrange(10, 12) =~= le16(0));
    lemma_get16_sub(r, 10, 0);
    assert(r.subrange(16, 20) =~= le32(crc32_of(d)));
    lemma_get32_sub(r, 16, crc32_of(d));
    assert(r.subrange(24, 28) =~= le32(size_field(d)));
    lemma_get32_sub(r, 24, size_field(d));
    assert(r.subrange(28, 30) =~= le16(n16));
    lemma_get16_sub(r, 28, n16);
    assert(r.subrange(30, 32) =~= le16(0));
    lemma_get16_sub(r, 30, 0);
    assert(r.subrange(32, 34) =~= le16(0));
    lemma_get16_sub(r, 32, 0);
    assert(r.subrange(42, 46) =~= le32(at as u32));
    lemma_get32_sub(r, 42, at as u32);
    assert(nb =~= r.subrange(46, 46 + nb.len() as int));
}

#[verifier::spinoff_prover]
#[verifier::rlimit(60)]
proof fn lemma_local_record(nb: Seq<u8>, d: Seq<u8>)
    requires
        nb.len() < 65536,
    ensures
        local_record(nb, d).len() == 30 + nb.len() + d.len(),
        get32(local_record(nb, d), 0) == LOCAL_SIG,
        get16(local_record(nb, d), 26) == nb.len(),
        get16(local_record(nb, d), 28) == 0,
        local_record(nb, d).subrange(30 + nb.len() as int, 30 + nb.len() + d.len() as int) == d,
{
    reveal(local_record);
    let l = local_record(nb, d);
    assert(l.subrange(0, 4) =~= le32(LOCAL_SIG));
    lemma_get32_sub(l, 0, LOCAL_SIG);
    assert(l.subrange(26, 28) =~= le16(name_len_field(nb)));
    lemma_get16_sub(l, 26, name_len_field(nb));
    assert(l.subrange(28, 30) =~= le16(0));
    lemma_get16_sub(l, 28, 0);
    assert(l.subrange(30 + nb.len() as int, 30 + nb.len() + d.len() as int) =~= d);
}

proof fn lemma_new_local_ok(prefix: Seq<u8>, nb: Seq<u8>, d: Seq<u8>, rest: Seq<u8>)
    requires
        prefix.len() + 30 + nb.len() + d.len() <= u32::MAX,
        nb.len() < 65536,
    ensures
        local_ok(new_entry(prefix.len(), nb, d), prefix + local_record(nb, d) + rest),
        local_record(nb, d).len() == 30 + nb.len() + d.len(),
        (prefix + local_record(nb, d) + rest).subrange(
            (prefix.len() + 30 + nb.len()) as int,
            (prefix.len() + 30 + nb.len() + d.len()) as int,
        ) == d,
{
    let l = local_record(nb, d);
    lemma_local_record(nb, d);
    let b = prefix + l + rest;
    let h = prefix.len() as int;
    assert(b.subrange(h, h + l.len()) =~= l);
    lemma_get_in(b, h, l, 0);
    lemma_get16_in(b, h, l, 26);
    lemma_get16_in(b, h, l, 28);
    assert(b.subrange(h + 30 + nb.len(), h + 30 + nb.len() + d.len()) =~= l.subrange(
        30 + nb.len() as int,
        30 + nb.len() + d.len() as int,
    ));
}

proof fn lemma_eocd_record(count: u16, cd_size: u32, cd_off: u32)
    ensures
        eocd_record(count, cd_size, cd_off).len() == 22,
        get32(eocd_record(count, cd_size, cd_off), 0) == EOCD_SIG,
        get16(eocd_record(count, cd_size, cd_off), 10) == count,
        get32(eocd_record(count, cd_size, cd_off), 12) == cd_size,
        get32(eocd_record(count, cd_size, cd_off), 16) == cd_off,
{
    reveal(eocd_record);
    let r = eocd_record(count, cd_size, cd_off);
    assert(r.subrange(0, 4) =~= le32(EOCD_SIG));
    lemma_get32_sub(r, 0, EOCD_SIG);
    assert(r.subrange(10, 12) =~= le16(count));
    lemma_get16_sub(r, 10, count);
    assert(r.subrange(12, 16) =~= le32(cd_size));
    lemma_get32_sub(r, 12, cd_size);
    assert(r.subrange(16, 20) =~= le32(cd_off));
    lemma_get32_sub(r, 16, cd_off);
}

proof fn lemma_eocd_fields(body: Seq<u8>, count: u16, cd_size: u32, cd_off: u32)
    ensures
        eocd_of(body + eocd_record(count, cd_size, cd_off)) == Some(body.len() as int),
        get16(body + eocd_record(count, cd_size, cd_off), body.len() as int + 10) == count,
        get32(body + eocd_record(count, cd_size, cd_off), body.len() as int + 12) == cd_size,
        get32(body + eocd_record(count, cd_size, cd_off), body.len() as int + 16) == cd_off,
        (body + eocd_record(count, cd_size, cd_off)).len() == body.len() + 22,
{
    let r = eocd_record(count, cd_size, cd_off);
    lemma_eocd_record(count, cd_size, cd_off);
    let out = body + r;
    let e = body.len() as int;
    assert(out.subrange(e, e + r.len()) =~= r);
    lemma_get_in(out, e, r, 0);
    lemma_get_in(out, e, r, 12);
    lemma_get_in(out, e, r, 16);
    lemma_get16_in(out, e, r, 10);
    assert(eocd_search(out, e, eocd_stop(out.len() as int)) == Some(e));
}

/// The records of `append_stored`'s output parse as the kept entries and
/// the new one.
#[verifier::rlimit(40)]
proof fn lemma_stored_entries(
    prefix: Seq<u8>,
    kept: Seq<EntryModel>,
    nb: Seq<u8>,
    d: Seq<u8>,
    eo: Seq<u8>,
)
    requires
        prefix.len() + 30 + nb.len() + d.len() + raws(kept).len() + 46 + nb.len() + 22 <= u32::MAX,
        nb.len() < 65536,
        eo.len() == 22,
        forall|i: int| 0 <= i < kept.len() ==> record_ok(#[trigger] kept[i]) && local_ok(kept[i], prefix),
    ensures
        ({
            let out = prefix + local_record(nb, d) + raws(kept) + central_record(nb, d, prefix.len() as u32) + eo;
            let l1 = (prefix.len() + 30 + nb.len() + d.len()) as int;
            entries_from(out, l1, out.len() - 22, kept.len() + 1) == Some(
                kept.push(new_entry(prefix.len(), nb, d)),
            )
        }),
{
    let lr = local_record(nb, d);
    let cr = central_record(nb, d, prefix.len() as u32);
    let rw = raws(kept);
    let out = prefix + lr + rw + cr + eo;
    let l1 = (prefix.len() + 30 + nb.len() + d.len()) as int;
    lemma_new_record_ok(prefix.len(), nb, d);
    lemma_new_local_ok(prefix, nb, d, rw + cr + eo);
    let e = out.len() - 22;
    assert(e == l1 + rw.len() + cr.len());
    assert forall|i: int| 0 <= i < kept.len() implies record_ok(#[trigger] kept[i]) && local_ok(
        kept[i],
        out,
    ) by {
        assert(out.subrange(0, prefix.len() as int) =~= prefix.subrange(0, prefix.len() as int));
        lemma_local_keep(kept[i], prefix, out, prefix.len() as int);
    }
    assert(out.subrange(l1, l1 + rw.len()) =~= rw);
    lemma_entries_from_raws(out, l1, e, kept, 1);
    let ne = new_entry(prefix.len(), nb, d);
    assert(local_ok(ne, out)) by {
        assert(out =~= prefix + lr + (rw + cr + eo));
    }
    assert(out.subrange(l1 + rw.len(), l1 + rw.len() + cr.len()) =~= cr);
    lemma_entry_frame(out, l1 + rw.len(), e, ne);
    assert(entries_from(out, e, e, 0) == Some(Seq::<EntryModel>::empty()));
    assert(entries_from(out, l1 + rw.len(), e, 1) == Some(seq![ne])) by {
        assert(seq![ne] + Seq::<EntryModel>::empty() =~= seq![ne]);
    }
    assert(kept + seq![ne] =~= kept.push(ne));
}

/// Parsing the output of `append_stored` gives back the kept entries and the
/// new one, with the directory right after the new entry's data.
pub proof fn lemma_stored_archive(prefix: Seq<u8>, kept: Seq<EntryModel>, nb: Seq<u8>, d: Seq<u8>)
    requires
        prefix.len() + 30 + nb.len() + d.len() + raws(kept).len() + 46 + nb.len() + 22 <= u32::MAX,
        nb.len() < 65536,
        kept.len() + 1 < 65536,
        forall|i: int| 0 <= i < kept.len() ==> record_ok(#[trigger] kept[i]) && local_ok(kept[i], prefix),
    ensures
        archive_of(stored_output(prefix, kept, nb, d)) == Some(
            (
                kept.push(new_entry(prefix.len(), nb, d)),
                (prefix.len() + 30 + nb.len() + d.len()) as int,
            ),
        ),
{
    let lr = local_record(nb, d);
    let cr = central_record(nb, d, prefix.len() as u32);
    let rw = raws(kept);
    let l1 = (prefix.len() + 30 + nb.len() + d.len()) as int;
    let cd_size = (rw.len() + 46 + nb.len()) as int;
    lemma_new_record_ok(prefix.len(), nb, d);
    lemma_new_local_ok(prefix, nb, d, Seq::empty());
    let eo = eocd_record((kept.len() + 1) as u16, cd_size as u32, l1 as u32);
    let body = prefix + lr + rw + cr;
    assert(body.len() == l1 + cd_size);
    lemma_stored_shape(prefix, kept, nb, d);
    lemma_eocd_fields(body, (kept.len() + 1) as u16, cd_size as u32, l1 as u32);
    lemma_stored_entries(prefix, kept, nb, d, eo);
    let out = stored_output(prefix, kept, nb, d);
    let e = l1 + cd_size;
    assert(eocd_of(out) == Some(e));
    assert(get16(out, e + 10) == kept.len() + 1);
    assert(get32(out, e + 16) == l1);
    assert(get32(out, e + 12) == cd_size);
    assert(out.len() - 22 == e);
}

/// Without wrap-around the output is the body followed by exact fields.
proof fn lemma_stored_shape(prefix: Seq<u8>, kept: Seq<EntryModel>, nb: Seq<u8>, d: Seq<u8>)
    requires
        prefix.len() + 30 + nb.len() + d.len() + raws(kept).len() + 46 + nb.len() + 22 <= u32::MAX,
        kept.len() + 1 < 65536,
    ensures
        stored_output(prefix, kept, nb, d) == prefix + local_record(nb, d) + raws(kept) + central_record(
            nb,
            d,
            prefix.len() as u32,
        ) + eocd_record(
            (kept.len() + 1) as u16,
            (raws(kept).len() + 46 + nb.len()) as u32,
            (prefix.len() + 30 + nb.len() + d.len()) as u32,
        ),
{
    let l1 = prefix.len() + 30 + nb.len() + d.len();
    assert(new_cd_off(prefix, nb, d) == l1);
    assert(new_cd_end(prefix, kept, nb, d) == l1 + raws(kept).len() + 46 + nb.len());
}

/// Every entry of a parsed archive describes itself and has its local header.
proof fn lemma_archive_ok(b: Seq<u8>)
    requires
        archive_of(b) is Some,
    ensures
        forall|i: int|
            0 <= i < archive_of(b).unwrap().0.len() ==> record_ok(
                #[trigger] archive_of(b).unwrap().0[i],
            ) && local_ok(archive_of(b).unwrap().0[i], b),
{
    let e = eocd_of(b).unwrap();
    lemma_eocd_bounds(b, b.len() - 22, eocd_stop(b.len() as int));
    lemma_entries_ok(b, get32(b, e + 16) as int, e, get16(b, e + 10) as nat);
}

/// If some entry is called `n`, a first one is.
proof fn lemma_first_named_exists(es: Seq<EntryModel>, n: Seq<char>, j: int)
    requires
        0 <= j < es.len(),
        named(es[j], n),
    ensures
        exists|i: int| first_named(es, n, i),
    decreases j,
{
    if exists|k: int| 0 <= k < j && named(es[k], n) {
        let k = choose|k: int| 0 <= k < j && named(es[k], n);
        lemma_first_named_exists(es, n, k);
    } else {
        assert(first_named(es, n, j));
    }
}

/// When appending is not refused, no kept entry is called `n`.
proof fn lemma_kept_unnamed(b: Seq<u8>, n: Seq<char>)
    requires
        !blocked(b, n),
    ensures
        none_named(kept_entries(b, n), n),
{
    if let Some((es, _)) = archive_of(b) {
        let kept = kept_entries(b, n);
        assert forall|j: int| 0 <= j < kept.len() implies !#[trigger] named(kept[j], n) by {
            if named(kept[j], n) {
                assert(kept[j] == es[j]);
                lemma_first_named_exists(es, n, j);
                let i = choose|i: int| first_named(es, n, i);
                if replaces_last(es, n) {
                    assert(j < es.len() - 1);
                } else {
                    assert(i != es.len() - 1);
                }
            }
        }
    }
}

/// Appending succeeds and writes an archive small enough that no field wraps,
/// and the kept entries' local headers lie in the part kept verbatim.
pub open spec fn append_fits(b: Seq<u8>, n: Seq<char>, d: Seq<u8>) -> bool {
    let prefix = base_prefix(b, n);
    let kept = kept_entries(b, n);
    let nb = encode_utf8(n);
    &&& !blocked(b, n)
    &&& prefix.len() <= u32::MAX - d.len() - 1024
    &&& prefix.len() + 30 + nb.len() + d.len() + raws(kept).len() + 46 + nb.len() + 22 <= u32::MAX
    &&& nb.len() < 65536
    &&& kept.len() + 1 < 65536
    &&& forall|i: int| 0 <= i < kept.len() ==> #[trigger] kept[i].header_off + 30 <= prefix.len()
}

/// The bytes `append_stored(b, n, d)` returns.
pub open spec fn appended(b: Seq<u8>, n: Seq<char>, d: Seq<u8>) -> Seq<u8> {
    stored_output(base_prefix(b, n), kept_entries(b, n), encode_utf8(n), d)
}

proof fn lemma_appended_archive(b: Seq<u8>, n: Seq<char>, d: Seq<u8>)
    requires
        append_fits(b, n, d),
    ensures
        archive_of(appended(b, n, d)) == Some(
            (
                kept_entries(b, n).push(new_entry(base_prefix(b, n).len(), encode_utf8(n), d)),
                (base_prefix(b, n).len() + 30 + encode_utf8(n).len() + d.len()) as int,
            ),
        ),
        none_named(kept_entries(b, n), n),
        named(new_entry(base_prefix(b, n).len(), encode_utf8(n), d), n),
{
    let prefix = base_prefix(b, n);
    let kept = kept_entries(b, n);
    if let Some((es, cd)) = archive_of(b) {
        lemma_archive_ok(b);
        lemma_archive_bounds(b);
        assert forall|i: int| 0 <= i < kept.len() implies record_ok(#[trigger] kept[i]) && local_ok(
            kept[i],
            prefix,
        ) by {
            assert(kept[i] == es[i]);
            assert(prefix.subrange(0, prefix.len() as int) =~= b.subrange(0, prefix.len() as int));
            lemma_local_keep(kept[i], b, prefix, prefix.len() as int);
        }
    }
    lemma_stored_archive(prefix, kept, encode_utf8(n), d);
    lemma_kept_unnamed(b, n);
    vstd::utf8::encode_utf8_valid_utf8(n);
    vstd::utf8::encode_utf8_decode_utf8(n);
}

/// The appended bytes start with the kept prefix and hold `d` right after
/// the new local header.
proof fn lemma_appended_data(b: Seq<u8>, n: Seq<char>, d: Seq<u8>)
    requires
        append_fits(b, n, d),
    ensures
        ({
            let p = base_prefix(b, n).len() as int;
            let k = encode_utf8(n).len() as int;
            &&& appended(b, n, d).len() >= p + 30 + k + d.len()
            &&& appended(b, n, d).subrange(p + 30 + k, p + 30 + k + d.len()) == d
            &&& appended(b, n, d).subrange(0, p) == base_prefix(b, n)
        }),
{
    let prefix = base_prefix(b, n);
    let kept = kept_entries(b, n);
    let nb = encode_utf8(n);
    let lr = local_record(nb, d);
    let cr = central_record(nb, d, prefix.len() as u32);
    let eo = eocd_record(
        (kept.len() + 1) as u16,
        (raws(kept).len() + 46 + nb.len()) as u32,
        (prefix.len() + 30 + nb.len() + d.len()) as u32,
    );
    lemma_stored_shape(prefix, kept, nb, d);
    let rest = raws(kept) + cr + eo;
    assert(prefix + lr + raws(kept) + cr + eo =~= prefix + lr + rest);
    lemma_new_local_ok(prefix, nb, d, rest);
    assert((prefix + lr + rest).subrange(0, prefix.len() as int) =~= prefix);
}

/// Reading an entry back after storing it gives the stored bytes: in the
/// archive `append_stored` writes, `read` finds the entry, stored and whole,
/// and its data are exactly `d`.
pub proof fn law_append_then_read(b: Seq<u8>, n: Seq<char>, d: Seq<u8>)
    requires
        append_fits(b, n, d),
    ensures
        readable(appended(b, n, d), n),
        entry_data(appended(b, n, d), n) == d,
{
    lemma_appended_archive(b, n, d);
    lemma_appended_data(b, n, d);
    let prefix = base_prefix(b, n);
    let kept = kept_entries(b, n);
    let nb = encode_utf8(n);
    let ne = new_entry(prefix.len(), nb, d);
    let es = kept.push(ne);
    assert(es.last() == ne);
    assert(ne.size == d.len());
    assert forall|j: int| 0 <= j < es.len() - 1 implies !#[trigger] named(es[j], n) by {
        assert(es[j] == kept[j]);
    }
    assert(first_named(es, n, es.len() - 1));
    lemma_found_entry(appended(b, n, d), n, es.len() - 1);
}

/// What removing the stored entry again leaves: the bytes appending kept,
/// followed by the kept entries' directory when there are any.
pub open spec fn restored(b: Seq<u8>, n: Seq<char>) -> Seq<u8> {
    let prefix = base_prefix(b, n);
    let kept = kept_entries(b, n);
    if kept.len() == 0 {
        prefix
    } else {
        prefix + raws(kept) + eocd_record(kept.len() as u16, raws(kept).len() as u32, prefix.len() as u32)
    }
}

/// `b` ends with its central directory and end record exactly as
/// `append_stored` writes them.
pub open spec fn canonical(b: Seq<u8>) -> bool {
    archive_of(b) matches Some((es, cd)) && b == b.subrange(0, cd) + raws(es) + eocd_record(
        es.len() as u16,
        raws(es).len() as u32,
        cd as u32,
    )
}

/// Removing an entry whose header starts right after `prefix` leaves
/// `prefix` and the other entries' directory.
proof fn lemma_removed_shape(out: Seq<u8>, prefix: Seq<u8>, kept: Seq<EntryModel>, ne: EntryModel)
    requires
        prefix.len() <= out.len(),
        out.subrange(0, prefix.len() as int) == prefix,
        ne.header_off == prefix.len(),
        prefix.len() + raws(kept).len() <= u32::MAX,
        kept.len() < 65535,
    ensures
        !remove_wraps(kept.push(ne)),
        removed_output(out, kept.push(ne)) == (if kept.len() == 0 {
            prefix
        } else {
            prefix + raws(kept) + eocd_record(
                kept.len() as u16,
                raws(kept).len() as u32,
                prefix.len() as u32,
            )
        }),
{
    let es = kept.push(ne);
    assert(es.last() == ne);
    assert(es.drop_last() =~= kept);
}

/// `remove_last` on the appended bytes gives `restored(b, n)`.
proof fn lemma_remove_appended(b: Seq<u8>, n: Seq<char>, d: Seq<u8>)
    requires
        append_fits(b, n, d),
    ensures
        archive_of(appended(b, n, d)) matches Some((es, _)) && es.len() > 0 && named(es.last(), n)
            && !remove_wraps(es) && removed_output(appended(b, n, d), es) == restored(b, n),
{
    lemma_appended_archive(b, n, d);
    lemma_appended_data(b, n, d);
    let prefix = base_prefix(b, n);
    let kept = kept_entries(b, n);
    let ne = new_entry(prefix.len(), encode_utf8(n), d);
    lemma_removed_shape(appended(b, n, d), prefix, kept, ne);
    assert(kept.push(ne).last() == ne);
}

/// Removing the entry just stored undoes `append_stored`: `remove_last`
/// finds it last, and what it leaves is `restored(b, n)`.
pub proof fn law_append_then_remove(b: Seq<u8>, n: Seq<char>, d: Seq<u8>)
    requires
        append_fits(b, n, d),
    ensures
        archive_of(appended(b, n, d)) matches Some((es, _)) && es.len() > 0 && named(es.last(), n)
            && !remove_wraps(es) && removed_output(appended(b, n, d), es) == restored(b, n),
{
    lemma_remove_appended(b, n, d);
}

/// Storing an entry and removing it again gives back `b` itself when `b`
/// had no zip section.
pub proof fn law_append_remove_plain(b: Seq<u8>, n: Seq<char>)
    requires
        archive_of(b) is None,
    ensures
        restored(b, n) == b,
{
}

/// Storing an entry and removing it again gives back `b` itself when `b`
/// ends in a canonical zip with entries, none of them called `n`.
pub proof fn law_append_remove_canonical(b: Seq<u8>, n: Seq<char>)
    requires
        canonical(b),
        archive_of(b).unwrap().0.len() > 0,
        none_named(archive_of(b).unwrap().0, n),
    ensures
        restored(b, n) == b,
{
    let (es0, cd) = archive_of(b).unwrap();
    assert(!named(es0[es0.len() - 1], n));
    assert(!replaces_last(es0, n));
    lemma_archive_bounds(b);
}

/// Storing an entry keeps every other entry: one called `m` (not the name
/// stored) that could be read before reads back the same bytes, given that
/// its data lie in the part of the file appending keeps (before the
/// directory, and before the entry being replaced).
pub proof fn law_append_keeps_others(b: Seq<u8>, n: Seq<char>, d: Seq<u8>, m: Seq<char>)
    requires
        append_fits(b, n, d),
        m != n,
        readable(b, m),
        found_entry(b, m).data_off + found_entry(b, m).size <= base_prefix(b, n).len(),
    ensures
        readable(appended(b, n, d), m),
        entry_data(appended(b, n, d), m) == entry_data(b, m),
{
    lemma_appended_archive(b, n, d);
    lemma_appended_data(b, n, d);
    let (es, cd) = archive_of(b).unwrap();
    let prefix = base_prefix(b, n);
    let kept = kept_entries(b, n);
    let ne = new_entry(prefix.len(), encode_utf8(n), d);
    let all = kept.push(ne);
    let out = appended(b, n, d);
    let i = choose|i: int| first_named(es, m, i);
    assert(first_named(es, m, i));
    lemma_archive_bounds(b);
    if replaces_last(es, n) {
        assert(es[es.len() - 1].header_off + 30 <= b.len());
        assert(i != es.len() - 1) by {
            if i == es.len() - 1 {
                assert(named(es[i], m));
                assert(named(es[es.len() - 1], n));
            }
        }
        assert(kept == es.drop_last());
    }
    assert(i < kept.len());
    assert(kept[i] == es[i]);
    assert(all[i] == es[i]);
    assert forall|j: int| 0 <= j < i implies !#[trigger] named(all[j], m) by {
        assert(all[j] == es[j]);
        assert(!named(es[j], m));
    }
    assert(first_named(all, m, i));
    assert(archive_of(out).unwrap().0 == all);
    assert(first_named(archive_of(out).unwrap().0, m, i));
    assert(found(out, m));
    let k = choose|k: int| first_named(all, m, k);
    lemma_first_unique(all, m, i, k);
    assert(found_entry(out, m) == es[i]);
    assert(found_entry(b, m) == es[i]);
    let e = es[i];
    assert(out.subrange(0, prefix.len() as int) == prefix);
    assert(b.subrange(0, prefix.len() as int) == prefix);
    let lo = e.data_off;
    let hi = e.data_off + e.size;
    let po = out.subrange(0, prefix.len() as int);
    let pb = b.subrange(0, prefix.len() as int);
    assert forall|q: int| 0 <= q < hi - lo implies #[trigger] out.subrange(lo, hi)[q] == b.subrange(
        lo,
        hi,
    )[q] by {
        assert(out.subrange(lo, hi)[q] == po[lo + q]);
        assert(b.subrange(lo, hi)[q] == pb[lo + q]);
    }
    assert(out.subrange(lo, hi) =~= b.subrange(lo, hi));
}

} // verus!
