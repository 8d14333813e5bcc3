//! Byte-level formats of the store.
//!
//! All multi-byte integers are big-endian.  A log record is a 12-byte header
//! (8-byte offset, 4-byte payload length) followed by the payload; an index
//! entry is 16 bytes (8-byte offset, 8-byte file position).

use vstd::prelude::*;

verus! {

/// Size in bytes of an offset on disk.
pub const OFFSET_SIZE: usize = 8;

/// Size in bytes of a payload-length field on disk.
pub const MSG_LEN_SIZE: usize = 4;

/// Size in bytes of a record header: offset followed by payload length.
pub const MSG_HEADER_SIZE: usize = 12;

/// Size in bytes of a file position on disk.
pub const POS_SIZE: usize = 8;

/// Size in bytes of an index entry: offset followed by file position.
pub const INDEX_ENTRY_SIZE: usize = 16;

/// The eight big-endian bytes of a 64-bit integer, most significant first.
pub open spec fn spec_u64_to_be_bytes(x: u64) -> Seq<u8> {
    seq![
        (x >> 56) as u8,
        (x >> 48) as u8,
        (x >> 40) as u8,
        (x >> 32) as u8,
        (x >> 24) as u8,
        (x >> 16) as u8,
        (x >> 8) as u8,
        x as u8,
    ]
}

/// The 64-bit integer read from eight big-endian bytes.
pub open spec fn spec_u64_from_be_bytes(s: Seq<u8>) -> u64
    recommends
        s.len() == 8,
{
    ((s[0] as u64) << 56) | ((s[1] as u64) << 48) | ((s[2] as u64) << 40) | ((s[3] as u64) << 32)
        | ((s[4] as u64) << 24) | ((s[5] as u64) << 16) | ((s[6] as u64) << 8) | (s[7] as u64)
}

/// The four big-endian bytes of a 32-bit integer, most significant first.
pub open spec fn spec_u32_to_be_bytes(x: u32) -> Seq<u8> {
    seq![(x >> 24) as u8, (x >> 16) as u8, (x >> 8) as u8, x as u8]
}

/// The 32-bit integer read from four big-endian bytes.
pub open spec fn spec_u32_from_be_bytes(s: Seq<u8>) -> u32
    recommends
        s.len() == 4,
{
    ((s[0] as u32) << 24) | ((s[1] as u32) << 16) | ((s[2] as u32) << 8) | (s[3] as u32)
}

/// Reading back the eight big-endian bytes of an integer gives the integer.
pub proof fn lemma_u64_be_bytes_roundtrip(x: u64)
    ensures
        spec_u64_from_be_bytes(spec_u64_to_be_bytes(x)) == x,
{
    assert(((((x >> 56) as u8) as u64) << 56) | ((((x >> 48) as u8) as u64) << 48) | ((((x
        >> 40) as u8) as u64) << 40) | ((((x >> 32) as u8) as u64) << 32) | ((((x
        >> 24) as u8) as u64) << 24) | ((((x >> 16) as u8) as u64) << 16) | ((((x
        >> 8) as u8) as u64) << 8) | ((x as u8) as u64) == x) by (bit_vector);
}

/// Writing back the integer read from eight bytes reproduces the bytes.
pub proof fn lemma_u64_be_bytes_inverse(s: Seq<u8>)
    requires
        s.len() == 8,
    ensures
        spec_u64_to_be_bytes(spec_u64_from_be_bytes(s)) == s,
{
    let b0 = s[0];
    let b1 = s[1];
    let b2 = s[2];
    let b3 = s[3];
    let b4 = s[4];
    let b5 = s[5];
    let b6 = s[6];
    let b7 = s[7];
    let x = spec_u64_from_be_bytes(s);
    assert(x == ((b0 as u64) << 56) | ((b1 as u64) << 48) | ((b2 as u64) << 40) | ((b3 as u64)
        << 32) | ((b4 as u64) << 24) | ((b5 as u64) << 16) | ((b6 as u64) << 8) | (b7 as u64));
    assert({
        let y = ((b0 as u64) << 56) | ((b1 as u64) << 48) | ((b2 as u64) << 40) | ((b3 as u64)
            << 32) | ((b4 as u64) << 24) | ((b5 as u64) << 16) | ((b6 as u64) << 8) | (b7 as u64);
        (y >> 56) as u8 == b0 && (y >> 48) as u8 == b1 && (y >> 40) as u8 == b2 && (y
            >> 32) as u8 == b3 && (y >> 24) as u8 == b4 && (y >> 16) as u8 == b5 && (y
            >> 8) as u8 == b6 && y as u8 == b7
    }) by (bit_vector);
    assert(spec_u64_to_be_bytes(x) =~= s);
}

/// Reading back the four big-endian bytes of an integer gives the integer.
pub proof fn lemma_u32_be_bytes_roundtrip(x: u32)
    ensures
        spec_u32_from_be_bytes(spec_u32_to_be_bytes(x)) == x,
{
    assert(((((x >> 24) as u8) as u32) << 24) | ((((x >> 16) as u8) as u32) << 16) | ((((x
        >> 8) as u8) as u32) << 8) | ((x as u8) as u32) == x) by (bit_vector);
}

/// Writing back the integer read from four bytes reproduces the bytes.
pub proof fn lemma_u32_be_bytes_inverse(s: Seq<u8>)
    requires
        s.len() == 4,
    ensures
        spec_u32_to_be_bytes(spec_u32_from_be_bytes(s)) == s,
{
    let b0 = s[0];
    let b1 = s[1];
    let b2 = s[2];
    let b3 = s[3];
    let x = spec_u32_from_be_bytes(s);
    assert(x == ((b0 as u32) << 24) | ((b1 as u32) << 16) | ((b2 as u32) << 8) | (b3 as u32));
    assert({
        let y = ((b0 as u32) << 24) | ((b1 as u32) << 16) | ((b2 as u32) << 8) | (b3 as u32);
        (y >> 24) as u8 == b0 && (y >> 16) as u8 == b1 && (y >> 8) as u8 == b2 && y as u8 == b3
    }) by (bit_vector);
    assert(spec_u32_to_be_bytes(x) =~= s);
}

/// Encode a 64-bit integer as eight big-endian bytes.
pub fn u64_to_be_bytes(x: u64) -> (r: Vec<u8>)
    ensures
        r@ == spec_u64_to_be_bytes(x),
        r@.len() == 8,
{
    let mut v: Vec<u8> = Vec::new();
    v.push((x >> 56) as u8);
    v.push((x >> 48) as u8);
    v.push((x >> 40) as u8);
    v.push((x >> 32) as u8);
    v.push((x >> 24) as u8);
    v.push((x >> 16) as u8);
    v.push((x >> 8) as u8);
    v.push(x as u8);
    proof {
        assert(v@ =~= spec_u64_to_be_bytes(x));
    }
    v
}

/// Decode a 64-bit integer from eight big-endian bytes.
pub fn u64_from_be_bytes(s: &[u8]) -> (x: u64)
    requires
        s@.len() == 8,
    ensures
        x == spec_u64_from_be_bytes(s@),
{
    ((s[0] as u64) << 56) | ((s[1] as u64) << 48) | ((s[2] as u64) << 40) | ((s[3] as u64) << 32)
        | ((s[4] as u64) << 24) | ((s[5] as u64) << 16) | ((s[6] as u64) << 8) | (s[7] as u64)
}

/// Encode a 32-bit integer as four big-endian bytes.
pub fn u32_to_be_bytes(x: u32) -> (r: Vec<u8>)
    ensures
        r@ == spec_u32_to_be_bytes(x),
        r@.len() == 4,
{
    let mut v: Vec<u8> = Vec::new();
    v.push((x >> 24) as u8);
    v.push((x >> 16) as u8);
    v.push((x >> 8) as u8);
    v.push(x as u8);
    proof {
        assert(v@ =~= spec_u32_to_be_bytes(x));
    }
    v
}

/// Decode a 32-bit integer from four big-endian bytes.
pub fn u32_from_be_bytes(s: &[u8]) -> (x: u32)
    requires
        s@.len() == 4,
    ensures
        x == spec_u32_from_be_bytes(s@),
{
    ((s[0] as u32) << 24) | ((s[1] as u32) << 16) | ((s[2] as u32) << 8) | (s[3] as u32)
}

/// Decode a 64-bit integer from eight big-endian bytes at `pos`.
pub fn read_u64_at(b: &[u8], pos: usize) -> (x: u64)
    requires
        pos + 8 <= b@.len(),
    ensures
        x == spec_u64_from_be_bytes(b@.subrange(pos as int, pos + 8)),
{
    let x = ((b[pos] as u64) << 56) | ((b[pos + 1] as u64) << 48) | ((b[pos + 2] as u64) << 40) | (
    (b[pos + 3] as u64) << 32) | ((b[pos + 4] as u64) << 24) | ((b[pos + 5] as u64) << 16) | ((b[pos
        + 6] as u64) << 8) | (b[pos + 7] as u64);
    proof {
        let s = b@.subrange(pos as int, pos + 8);
        assert(s[0] == b@[pos as int] && s[1] == b@[pos + 1] && s[2] == b@[pos + 2] && s[3] == b@[
            pos + 3] && s[4] == b@[pos + 4] && s[5] == b@[pos + 5] && s[6] == b@[pos + 6] && s[7]
            == b@[pos + 7]);
    }
    x
}

/// Decode a 32-bit integer from four big-endian bytes at `pos`.
pub fn read_u32_at(b: &[u8], pos: usize) -> (x: u32)
    requires
        pos + 4 <= b@.len(),
    ensures
        x == spec_u32_from_be_bytes(b@.subrange(pos as int, pos + 4)),
{
    let x = ((b[pos] as u32) << 24) | ((b[pos + 1] as u32) << 16) | ((b[pos + 2] as u32) << 8) | (
    b[pos + 3] as u32);
    proof {
        let s = b@.subrange(pos as int, pos + 4);
        assert(s[0] == b@[pos as int] && s[1] == b@[pos + 1] && s[2] == b@[pos + 2] && s[3] == b@[
            pos + 3]);
    }
    x
}

/// The on-disk bytes of one log record: offset, payload length, payload.
pub open spec fn spec_record_bytes(offset: u64, payload: Seq<u8>) -> Seq<u8>
    recommends
        payload.len() <= u32::MAX,
{
    spec_u64_to_be_bytes(offset) + spec_u32_to_be_bytes(payload.len() as u32) + payload
}

/// The on-disk bytes of one index entry: offset, then file position.
pub open spec fn spec_index_entry_bytes(offset: u64, position: u64) -> Seq<u8> {
    spec_u64_to_be_bytes(offset) + spec_u64_to_be_bytes(position)
}

/// The records read from a log image, first to last.  A trailing partial
/// record (truncated header or payload) is ignored.
pub open spec fn spec_parse_log(bytes: Seq<u8>) -> Seq<(u64, Seq<u8>)>
    decreases bytes.len(),
{
    if bytes.len() < 12 {
        Seq::empty()
    } else {
        let len = spec_u32_from_be_bytes(bytes.subrange(8, 12)) as int;
        if bytes.len() < 12 + len {
            Seq::empty()
        } else {
            let offset = spec_u64_from_be_bytes(bytes.subrange(0, 8));
            seq![(offset, bytes.subrange(12, 12 + len))] + spec_parse_log(bytes.skip(12 + len))
        }
    }
}

/// The entries read from an index image, first to last; a trailing partial
/// entry is ignored.
pub open spec fn spec_parse_index(bytes: Seq<u8>) -> Seq<(u64, u64)>
    decreases bytes.len(),
{
    if bytes.len() < 16 {
        Seq::empty()
    } else {
        let offset = spec_u64_from_be_bytes(bytes.subrange(0, 8));
        let position = spec_u64_from_be_bytes(bytes.subrange(8, 16));
        seq![(offset, position)] + spec_parse_index(bytes.skip(16))
    }
}

/// The log image of a sequence of records.
pub open spec fn spec_log_bytes(records: Seq<(u64, Seq<u8>)>) -> Seq<u8>
    decreases records.len(),
{
    if records.len() == 0 {
        Seq::empty()
    } else {
        spec_record_bytes(records[0].0, records[0].1) + spec_log_bytes(records.skip(1))
    }
}

/// The index image of a sequence of entries.
pub open spec fn spec_index_bytes(entries: Seq<(u64, u64)>) -> Seq<u8>
    decreases entries.len(),
{
    if entries.len() == 0 {
        Seq::empty()
    } else {
        spec_index_entry_bytes(entries[0].0, entries[0].1) + spec_index_bytes(entries.skip(1))
    }
}

/// Every payload a log image can yield fits in a 32-bit length field.
pub open spec fn spec_payloads_fit(records: Seq<(u64, Seq<u8>)>) -> bool {
    forall|i: int| 0 <= i < records.len() ==> #[trigger] records[i].1.len() <= u32::MAX
}

/// Parsing a log image that starts with one whole record yields that record
/// and then whatever the rest yields.
pub proof fn lemma_parse_log_step(offset: u64, payload: Seq<u8>, rest: Seq<u8>)
    requires
        payload.len() <= u32::MAX,
    ensures
        spec_parse_log(spec_record_bytes(offset, payload) + rest) == seq![(offset, payload)]
            + spec_parse_log(rest),
{
    let all = spec_record_bytes(offset, payload) + rest;
    lemma_u64_be_bytes_roundtrip(offset);
    lemma_u32_be_bytes_roundtrip(payload.len() as u32);
    assert(all.subrange(0, 8) =~= spec_u64_to_be_bytes(offset));
    assert(all.subrange(8, 12) =~= spec_u32_to_be_bytes(payload.len() as u32));
    let len = spec_u32_from_be_bytes(all.subrange(8, 12)) as int;
    assert(len == payload.len());
    assert(all.len() == 12 + payload.len() + rest.len());
    assert(all.subrange(12, 12 + len) =~= payload);
    assert(all.skip(12 + len) =~= rest);
    assert(spec_parse_log(all) == seq![(offset, payload)] + spec_parse_log(rest));
}

/// Parsing an index image that starts with one whole entry yields that entry
/// and then whatever the rest yields.
pub proof fn lemma_parse_index_step(offset: u64, position: u64, rest: Seq<u8>)
    ensures
        spec_parse_index(spec_index_entry_bytes(offset, position) + rest) == seq![
            (offset, position),
        ] + spec_parse_index(rest),
{
    let all = spec_index_entry_bytes(offset, position) + rest;
    lemma_u64_be_bytes_roundtrip(offset);
    lemma_u64_be_bytes_roundtrip(position);
    assert(all.subrange(0, 8) =~= spec_u64_to_be_bytes(offset));
    assert(all.subrange(8, 16) =~= spec_u64_to_be_bytes(position));
    assert(all.len() == 16 + rest.len());
    assert(all.skip(16) =~= rest);
    assert(spec_parse_index(all) == seq![(offset, position)] + spec_parse_index(rest));
}

/// Parsing the image of some records followed by more bytes yields those
/// records and then whatever the rest yields.
pub proof fn lemma_parse_log_bytes(records: Seq<(u64, Seq<u8>)>, rest: Seq<u8>)
    requires
        spec_payloads_fit(records),
    ensures
        spec_parse_log(spec_log_bytes(records) + rest) == records + spec_parse_log(rest),
    decreases records.len(),
{
    if records.len() == 0 {
        assert(spec_log_bytes(records) + rest =~= rest);
        assert(records + spec_parse_log(rest) =~= spec_parse_log(rest));
    } else {
        let head = records[0];
        let tail = records.skip(1);
        assert(spec_payloads_fit(tail));
        assert(spec_log_bytes(records) + rest =~= spec_record_bytes(head.0, head.1) + (
        spec_log_bytes(tail) + rest));
        lemma_parse_log_step(head.0, head.1, spec_log_bytes(tail) + rest);
        lemma_parse_log_bytes(tail, rest);
        assert(seq![(head.0, head.1)] + (tail + spec_parse_log(rest)) =~= records + spec_parse_log(
            rest,
        ));
    }
}

/// Parsing the image of some entries followed by more bytes yields those
/// entries and then whatever the rest yields.
pub proof fn lemma_parse_index_bytes(entries: Seq<(u64, u64)>, rest: Seq<u8>)
    ensures
        spec_parse_index(spec_index_bytes(entries) + rest) == entries + spec_parse_index(rest),
    decreases entries.len(),
{
    if entries.len() == 0 {
        assert(spec_index_bytes(entries) + rest =~= rest);
        assert(entries + spec_parse_index(rest) =~= spec_parse_index(rest));
    } else {
        let head = entries[0];
        let tail = entries.skip(1);
        assert(spec_index_bytes(entries) + rest =~= spec_index_entry_bytes(head.0, head.1) + (
        spec_index_bytes(tail) + rest));
        lemma_parse_index_step(head.0, head.1, spec_index_bytes(tail) + rest);
        lemma_parse_index_bytes(tail, rest);
        assert(seq![(head.0, head.1)] + (tail + spec_parse_index(rest)) =~= entries
            + spec_parse_index(rest));
    }
}

/// Decoding the image of any record sequence gives back exactly that
/// sequence.
pub proof fn lemma_parse_log_roundtrip(records: Seq<(u64, Seq<u8>)>)
    requires
        spec_payloads_fit(records),
    ensures
        spec_parse_log(spec_log_bytes(records)) == records,
{
    lemma_parse_log_bytes(records, Seq::empty());
    assert(spec_log_bytes(records) + Seq::<u8>::empty() =~= spec_log_bytes(records));
    assert(records + spec_parse_log(Seq::empty()) =~= records);
}

/// Decoding the image of any entry sequence gives back exactly that
/// sequence.
pub proof fn lemma_parse_index_roundtrip(entries: Seq<(u64, u64)>)
    ensures
        spec_parse_index(spec_index_bytes(entries)) == entries,
{
    lemma_parse_index_bytes(entries, Seq::empty());
    assert(spec_index_bytes(entries) + Seq::<u8>::empty() =~= spec_index_bytes(entries));
    assert(entries + spec_parse_index(Seq::empty()) =~= entries);
}

/// The image of a record sequence with one more record at the end is the old
/// image with that record's bytes at the end.
pub proof fn lemma_log_bytes_push(records: Seq<(u64, Seq<u8>)>, offset: u64, payload: Seq<u8>)
    ensures
        spec_log_bytes(records.push((offset, payload))) == spec_log_bytes(records)
            + spec_record_bytes(offset, payload),
    decreases records.len(),
{
    let pushed = records.push((offset, payload));
    let rb = spec_record_bytes(offset, payload);
    if records.len() == 0 {
        assert(pushed[0] == (offset, payload));
        assert(pushed.skip(1) =~= Seq::empty());
        assert(spec_log_bytes(pushed) == rb + spec_log_bytes(Seq::empty()));
        assert(rb + Seq::<u8>::empty() =~= rb);
        assert(spec_log_bytes(records) + rb =~= rb);
    } else {
        let head = records[0];
        let hb = spec_record_bytes(head.0, head.1);
        let tb = spec_log_bytes(records.skip(1));
        assert(pushed[0] == head);
        assert(pushed.skip(1) =~= records.skip(1).push((offset, payload)));
        lemma_log_bytes_push(records.skip(1), offset, payload);
        assert(spec_log_bytes(pushed) == hb + spec_log_bytes(pushed.skip(1)));
        assert(spec_log_bytes(pushed.skip(1)) == tb + rb);
        assert(spec_log_bytes(records) == hb + tb);
        assert(hb + (tb + rb) =~= (hb + tb) + rb);
    }
}

/// The image of an entry sequence with one more entry at the end is the old
/// image with that entry's bytes at the end.
pub proof fn lemma_index_bytes_push(entries: Seq<(u64, u64)>, offset: u64, position: u64)
    ensures
        spec_index_bytes(entries.push((offset, position))) == spec_index_bytes(entries)
            + spec_index_entry_bytes(offset, position),
    decreases entries.len(),
{
    let pushed = entries.push((offset, position));
    let eb = spec_index_entry_bytes(offset, position);
    if entries.len() == 0 {
        assert(pushed[0] == (offset, position));
        assert(pushed.skip(1) =~= Seq::empty());
        assert(spec_index_bytes(pushed) == eb + spec_index_bytes(Seq::empty()));
        assert(eb + Seq::<u8>::empty() =~= eb);
        assert(spec_index_bytes(entries) + eb =~= eb);
    } else {
        let head = entries[0];
        let hb = spec_index_entry_bytes(head.0, head.1);
        let tb = spec_index_bytes(entries.skip(1));
        assert(pushed[0] == head);
        assert(pushed.skip(1) =~= entries.skip(1).push((offset, position)));
        lemma_index_bytes_push(entries.skip(1), offset, position);
        assert(spec_index_bytes(pushed) == hb + spec_index_bytes(pushed.skip(1)));
        assert(spec_index_bytes(pushed.skip(1)) == tb + eb);
        assert(spec_index_bytes(entries) == hb + tb);
        assert(hb + (tb + eb) =~= (hb + tb) + eb);
    }
}

/// The image of two record sequences laid end to end is the two images laid
/// end to end.
pub proof fn lemma_log_bytes_concat(a: Seq<(u64, Seq<u8>)>, b: Seq<(u64, Seq<u8>)>)
    ensures
        spec_log_bytes(a + b) == spec_log_bytes(a) + spec_log_bytes(b),
    decreases a.len(),
{
    if a.len() == 0 {
        assert(a + b =~= b);
        assert(spec_log_bytes(a) + spec_log_bytes(b) =~= spec_log_bytes(b));
    } else {
        let both = a + b;
        let hb = spec_record_bytes(a[0].0, a[0].1);
        assert(both[0] == a[0]);
        assert(both.skip(1) =~= a.skip(1) + b);
        lemma_log_bytes_concat(a.skip(1), b);
        assert(spec_log_bytes(both) == hb + spec_log_bytes(both.skip(1)));
        assert(spec_log_bytes(a) == hb + spec_log_bytes(a.skip(1)));
        assert(hb + (spec_log_bytes(a.skip(1)) + spec_log_bytes(b)) =~= (hb + spec_log_bytes(
            a.skip(1),
        )) + spec_log_bytes(b));
    }
}

/// How many of the image's bytes the records read from it cover.
pub open spec fn spec_parsed_len(bytes: Seq<u8>) -> int {
    spec_log_bytes(spec_parse_log(bytes)).len() as int
}

/// The records read from an image re-encode to a prefix of the image, the
/// rest of the image holds no whole record, and every payload read fits its
/// length field.
pub proof fn lemma_parse_log_prefix(bytes: Seq<u8>)
    ensures
        0 <= spec_parsed_len(bytes) <= bytes.len(),
        spec_log_bytes(spec_parse_log(bytes)) == bytes.take(spec_parsed_len(bytes)),
        spec_parse_log(bytes.skip(spec_parsed_len(bytes))).len() == 0,
        spec_payloads_fit(spec_parse_log(bytes)),
    decreases bytes.len(),
{
    let parsed = spec_parse_log(bytes);
    if bytes.len() < 12 {
        assert(spec_log_bytes(parsed) =~= bytes.take(0));
        assert(bytes.skip(0) =~= bytes);
    } else {
        let len = spec_u32_from_be_bytes(bytes.subrange(8, 12)) as int;
        if bytes.len() < 12 + len {
            assert(spec_log_bytes(parsed) =~= bytes.take(0));
            assert(bytes.skip(0) =~= bytes);
        } else {
            let offset = spec_u64_from_be_bytes(bytes.subrange(0, 8));
            let payload = bytes.subrange(12, 12 + len);
            let rest = bytes.skip(12 + len);
            lemma_parse_log_prefix(rest);
            lemma_u64_be_bytes_inverse(bytes.subrange(0, 8));
            lemma_u32_be_bytes_inverse(bytes.subrange(8, 12));
            assert(payload.len() as u32 == spec_u32_from_be_bytes(bytes.subrange(8, 12)));
            assert(spec_record_bytes(offset, payload) =~= bytes.take(12 + len));
            assert(parsed[0] == (offset, payload));
            assert(parsed.skip(1) =~= spec_parse_log(rest));
            assert(spec_log_bytes(parsed) == spec_record_bytes(offset, payload) + spec_log_bytes(
                spec_parse_log(rest),
            ));
            assert(spec_log_bytes(parsed) =~= bytes.take(12 + len) + rest.take(spec_parsed_len(
                rest,
            )));
            assert(bytes.take(12 + len) + rest.take(spec_parsed_len(rest)) =~= bytes.take(
                12 + len + spec_parsed_len(rest),
            ));
            assert(bytes.skip(spec_parsed_len(bytes)) =~= rest.skip(spec_parsed_len(rest)));
        }
    }
}

/// An index image yields one entry per whole 16 bytes.
pub proof fn lemma_parse_index_count(bytes: Seq<u8>)
    ensures
        spec_parse_index(bytes).len() == bytes.len() / 16,
    decreases bytes.len(),
{
    if bytes.len() >= 16 {
        lemma_parse_index_count(bytes.skip(16));
    }
}

/// Where entry `i` of an index image sits.
pub proof fn lemma_parse_index_entry_at(bytes: Seq<u8>, i: int)
    requires
        0 <= i < bytes.len() / 16,
    ensures
        spec_parse_index(bytes).len() == bytes.len() / 16,
        spec_parse_index(bytes)[i] == (
            spec_u64_from_be_bytes(bytes.subrange(16 * i, 16 * i + 8)),
            spec_u64_from_be_bytes(bytes.subrange(16 * i + 8, 16 * i + 16)),
        ),
    decreases i,
{
    lemma_parse_index_count(bytes);
    if i == 0 {
    } else {
        let rest = bytes.skip(16);
        lemma_parse_index_entry_at(rest, i - 1);
        assert(spec_parse_index(bytes)[i] == spec_parse_index(rest)[i - 1]);
        assert(bytes.subrange(16 * i, 16 * i + 8) =~= rest.subrange(16 * (i - 1), 16 * (i - 1)
            + 8));
        assert(bytes.subrange(16 * i + 8, 16 * i + 16) =~= rest.subrange(16 * (i - 1) + 8, 16 * (i
            - 1) + 16));
    }
}

/// Where the image of record `i` sits inside the image of its sequence.
pub open spec fn spec_record_position(records: Seq<(u64, Seq<u8>)>, i: int) -> int {
    spec_log_bytes(records.take(i)).len() as int
}

/// The byte layout of record `i` inside a record-sequence image.
pub proof fn lemma_log_bytes_at(records: Seq<(u64, Seq<u8>)>, i: int)
    requires
        0 <= i < records.len(),
        spec_payloads_fit(records),
    ensures
        ({
            let b = spec_log_bytes(records);
            let p = spec_record_position(records, i);
            let len = records[i].1.len() as int;
            &&& 0 <= p
            &&& p + 12 + len == spec_record_position(records, i + 1)
            &&& spec_record_position(records, i + 1) <= b.len()
            &&& b.subrange(p, p + 8) == spec_u64_to_be_bytes(records[i].0)
            &&& b.subrange(p + 8, p + 12) == spec_u32_to_be_bytes(records[i].1.len() as u32)
            &&& b.subrange(p + 12, p + 12 + len) == records[i].1
        }),
{
    let b = spec_log_bytes(records);
    let p = spec_record_position(records, i);
    let len = records[i].1.len() as int;
    let front = records.take(i);
    let back = records.skip(i + 1);
    let rb = spec_record_bytes(records[i].0, records[i].1);
    assert(records.take(i + 1) =~= front.push(records[i]));
    lemma_log_bytes_push(front, records[i].0, records[i].1);
    assert(spec_record_position(records, i + 1) == p + 12 + len);
    assert(records =~= records.take(i + 1) + back);
    lemma_log_bytes_concat(records.take(i + 1), back);
    assert(b == spec_log_bytes(records.take(i + 1)) + spec_log_bytes(back));
    assert(b == (spec_log_bytes(front) + rb) + spec_log_bytes(back));
    assert(b.subrange(p, p + 8) =~= spec_u64_to_be_bytes(records[i].0));
    assert(b.subrange(p + 8, p + 12) =~= spec_u32_to_be_bytes(records[i].1.len() as u32));
    assert(b.subrange(p + 12, p + 12 + len) =~= records[i].1);
}

/// Record positions never pass the end of the image, and the last one ends
/// it.
pub proof fn lemma_record_position_bounds(records: Seq<(u64, Seq<u8>)>, i: int)
    requires
        0 <= i <= records.len(),
    ensures
        0 <= spec_record_position(records, i) <= spec_log_bytes(records).len(),
        i == records.len() ==> spec_record_position(records, i) == spec_log_bytes(records).len(),
    decreases records.len() - i,
{
    if i == records.len() {
        assert(records.take(i) =~= records);
    } else {
        lemma_log_bytes_at_len(records, i);
        lemma_record_position_bounds(records, i + 1);
    }
}

/// One record adds 12 bytes and its payload to the image.
proof fn lemma_log_bytes_at_len(records: Seq<(u64, Seq<u8>)>, i: int)
    requires
        0 <= i < records.len(),
    ensures
        spec_record_position(records, i + 1) == spec_record_position(records, i) + 12 + records[
            i
        ].1.len(),
{
    assert(records.take(i + 1) =~= records.take(i).push(records[i]));
    lemma_log_bytes_push(records.take(i), records[i].0, records[i].1);
}

/// Encode one log record: 12-byte header, then the payload.
pub fn encode_record(offset: u64, payload: &[u8]) -> (r: Vec<u8>)
    requires
        payload@.len() <= u32::MAX,
    ensures
        r@ == spec_record_bytes(offset, payload@),
        r@.len() == 12 + payload@.len(),
{
    let mut buf = u64_to_be_bytes(offset);
    let mut len_bytes = u32_to_be_bytes(payload.len() as u32);
    buf.append(&mut len_bytes);
    let mut i: usize = 0;
    while i < payload.len()
        invariant
            i <= payload@.len(),
            payload@.len() <= u32::MAX,
            buf@ == spec_u64_to_be_bytes(offset) + spec_u32_to_be_bytes(payload@.len() as u32)
                + payload@.subrange(0, i as int),
        decreases payload@.len() - i,
    {
        buf.push(payload[i]);
        proof {
            assert(payload@.subrange(0, i + 1) =~= payload@.subrange(0, i as int).push(
                payload@[i as int],
            ));
        }
        i = i + 1;
    }
    proof {
        assert(payload@.subrange(0, payload@.len() as int) =~= payload@);
    }
    buf
}

/// Decode the first whole log record of a byte image, if there is one.
pub fn decode_record(bytes: &[u8]) -> (r: Option<(u64, Vec<u8>)>)
    ensures
        match r {
            Some(rec) => spec_parse_log(bytes@).len() > 0 && spec_parse_log(bytes@)[0] == (
            rec.0,
            rec.1@,
            ),
            None => spec_parse_log(bytes@).len() == 0,
        },
{
    if bytes.len() < 12 {
        return None;
    }
    let offset = read_u64_at(bytes, 0);
    let len = read_u32_at(bytes, 8) as usize;
    if bytes.len() - 12 < len {
        return None;
    }
    let mut payload: Vec<u8> = Vec::new();
    let mut i: usize = 0;
    while i < len
        invariant
            i <= len,
            12 + len <= bytes@.len(),
            bytes@.len() <= usize::MAX,
            payload@ == bytes@.subrange(12, 12 + i),
        decreases len - i,
    {
        payload.push(bytes[12 + i]);
        proof {
            assert(bytes@.subrange(12, 12 + i + 1) =~= bytes@.subrange(12, 12 + i).push(
                bytes@[12 + i],
            ));
        }
        i = i + 1;
    }
    proof {
        assert(bytes@.subrange(0, 8) =~= bytes@.subrange(0, 12).subrange(0, 8));
        assert(bytes@.subrange(8, 12) =~= bytes@.subrange(0, 12).subrange(8, 12));
    }
    Some((offset, payload))
}

/// Encode one index entry: offset, then file position.
pub fn encode_index_entry(offset: u64, position: u64) -> (r: Vec<u8>)
    ensures
        r@ == spec_index_entry_bytes(offset, position),
        r@.len() == 16,
{
    let mut buf = u64_to_be_bytes(offset);
    let mut pos_bytes = u64_to_be_bytes(position);
    buf.append(&mut pos_bytes);
    buf
}

/// Decode the first whole index entry of a byte image, if there is one.
pub fn decode_index_entry(bytes: &[u8]) -> (r: Option<(u64, u64)>)
    ensures
        match r {
            Some(entry) => spec_parse_index(bytes@).len() > 0 && spec_parse_index(bytes@)[0]
                == entry,
            None => spec_parse_index(bytes@).len() == 0,
        },
{
    if bytes.len() < 16 {
        return None;
    }
    let offset = read_u64_at(bytes, 0);
    let position = read_u64_at(bytes, 8);
    Some((offset, position))
}

/// A record decodes to the offset and payload it was encoded from.
pub proof fn lemma_record_roundtrip(offset: u64, payload: Seq<u8>)
    requires
        payload.len() <= u32::MAX,
    ensures
        spec_parse_log(spec_record_bytes(offset, payload)) == seq![(offset, payload)],
{
    lemma_parse_log_step(offset, payload, Seq::empty());
    assert(spec_record_bytes(offset, payload) + Seq::<u8>::empty() =~= spec_record_bytes(
        offset,
        payload,
    ));
    assert(seq![(offset, payload)] + spec_parse_log(Seq::empty()) =~= seq![(offset, payload)]);
}

/// An index entry decodes to the offset and position it was encoded from.
pub proof fn lemma_index_entry_roundtrip(offset: u64, position: u64)
    ensures
        spec_parse_index(spec_index_entry_bytes(offset, position)) == seq![(offset, position)],
{
    lemma_parse_index_step(offset, position, Seq::empty());
    assert(spec_index_entry_bytes(offset, position) + Seq::<u8>::empty() =~= spec_index_entry_bytes(
        offset,
        position,
    ));
    assert(seq![(offset, position)] + spec_parse_index(Seq::empty()) =~= seq![(offset, position)]);
}

} // verus!
