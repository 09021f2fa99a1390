use vstd::prelude::*;
use vstd::slice::*;
use vstd::utf8::*;

use crate::structures::{
    bytes_view, lemma_lookup_concat, lemma_lookup_insert_other, lookup, A3956Info, RecordView,
    TlvRecords,
};
use crate::text::{
    decode_text_field, lemma_trim_trailing_nul, lossy_agrees_when_valid, text_field, utf8_lossy,
};

verus! {

/// The two command bytes that identify a Soundcore packet.
#[derive(Debug, Clone, Copy, PartialEq, Eq)]
pub struct Command(pub [u8; 2]);

/// The command of state update packets (0x0101).
pub fn state_command() -> (c: Command)
    ensures
        c.0@ == seq![0x01u8, 0x01u8],
{
    let c = Command([0x01, 0x01]);
    assert(c.0@ =~= seq![0x01u8, 0x01u8]);
    c
}

/// Why a packet body could not be read.
#[derive(Debug, Clone, Copy, PartialEq, Eq)]
pub enum ParseError {
    /// The body ended before the packet was complete.
    UnexpectedEndOfInput,
}

/// Unsolicited event sent by the earbuds when an Easy Chat session starts (body `00 01`)
/// or ends (body `00 00`).
///
/// The body is two bytes. The first is always `00` (likely a sub-command or reserved
/// index); the second is the active flag.
#[derive(Debug, Clone, Copy, PartialEq, Eq, Structural)]
pub struct EasyChatEvent {
    pub is_active: bool,
}

impl EasyChatEvent {
    /// The command of Easy Chat events (0x3103).
    pub fn command() -> (c: Command)
        ensures
            c.0@ == seq![0x31u8, 0x03u8],
    {
        let c = Command([0x31, 0x03]);
        assert(c.0@ =~= seq![0x31u8, 0x03u8]);
        c
    }

    /// Reads an event from the front of `input`: a reserved byte, then the flag, which
    /// is set when it is not zero. Gives back the bytes after the event.
    pub fn take(input: &[u8]) -> (res: Result<(&[u8], EasyChatEvent), ParseError>)
        ensures
            match res {
                Ok((rest, event)) => {
                    &&& input@.len() >= 2
                    &&& rest@ == input@.skip(2)
                    &&& event.is_active == (input@[1] != 0)
                },
                Err(e) => input@.len() < 2 && e == ParseError::UnexpectedEndOfInput,
            },
    {
        if input.len() < 2 {
            return Err(ParseError::UnexpectedEndOfInput);
        }
        let flag = input[1];
        let (_, rest) = input.split_at(2);
        Ok((rest, EasyChatEvent { is_active: flag != 0 }))
    }
}

/// Whether a complete record (tag, length, then that many bytes) starts `s`.
pub open spec fn record_fits(s: Seq<u8>) -> bool {
    s.len() >= 2 && s.len() >= 2 + s[1]
}

/// Reads records from the front of `s` for as long as complete ones follow; gives the
/// records and the bytes that are left (empty, or an incomplete record).
pub open spec fn parse_records(s: Seq<u8>) -> (Seq<RecordView>, Seq<u8>)
    decreases s.len(),
{
    if record_fits(s) {
        let rest = parse_records(s.skip(2 + s[1]));
        (seq![(s[0], s.subrange(2, 2 + s[1]))] + rest.0, rest.1)
    } else {
        (Seq::empty(), s)
    }
}

/// The bytes of one record: its tag, the length of its value as a byte, then the value.
pub open spec fn encode_record(r: RecordView) -> Seq<u8> {
    seq![r.0, r.1.len() as u8] + r.1
}

/// The records one after the other, each as `encode_record` writes it.
pub open spec fn serialize_records(records: Seq<RecordView>) -> Seq<u8>
    decreases records.len(),
{
    if records.len() == 0 {
        Seq::empty()
    } else {
        serialize_records(records.drop_last()) + encode_record(records.last())
    }
}

/// Whether every value is short enough for its length to fit in the length byte.
pub open spec fn lengths_fit(records: Seq<RecordView>) -> bool {
    forall|i: int| 0 <= i < records.len() ==> #[trigger] records[i].1.len() <= 255
}

/// `serialize_records` read from the front: the first record's bytes, then the rest.
proof fn lemma_serialize_front(records: Seq<RecordView>)
    requires
        records.len() > 0,
    ensures
        serialize_records(records) == encode_record(records[0]) + serialize_records(
            records.drop_first(),
        ),
    decreases records.len(),
{
    if records.len() == 1 {
        assert(records.drop_last() =~= Seq::<RecordView>::empty());
        assert(records.drop_first() =~= Seq::<RecordView>::empty());
        assert(serialize_records(records.drop_last()) == Seq::<u8>::empty());
        assert(serialize_records(records.drop_first()) == Seq::<u8>::empty());
        assert(records.last() == records[0]);
        assert(serialize_records(records) =~= encode_record(records[0]) + Seq::<u8>::empty());
    } else {
        let init = records.drop_last();
        lemma_serialize_front(init);
        let tail = records.drop_first();
        assert(tail.drop_last() =~= init.drop_first());
        assert(tail.last() == records.last());
        assert(init[0] == records[0]);
        assert(serialize_records(records) =~= encode_record(records[0]) + serialize_records(tail));
    }
}

/// Reading back what `serialize_records` wrote gives the same records, then whatever
/// `tail` gives on its own, as long as every value's length fits in its length byte.
pub proof fn lemma_parse_serialized(records: Seq<RecordView>, tail: Seq<u8>)
    requires
        lengths_fit(records),
    ensures
        parse_records(serialize_records(records) + tail) == (
            records + parse_records(tail).0,
            parse_records(tail).1,
        ),
    decreases records.len(),
{
    if records.len() == 0 {
        assert(serialize_records(records) + tail =~= tail);
        assert(records + parse_records(tail).0 =~= parse_records(tail).0);
    } else {
        lemma_serialize_front(records);
        let r0 = records[0];
        let rest = records.drop_first();
        assert(r0.1.len() <= 255);
        assert(lengths_fit(rest)) by {
            assert forall|i: int| 0 <= i < rest.len() implies #[trigger] rest[i].1.len() <= 255 by {
                assert(rest[i] == records[i + 1]);
            }
        }
        lemma_parse_serialized(rest, tail);
        let after = serialize_records(rest) + tail;
        let t = serialize_records(records) + tail;
        let l = r0.1.len();
        assert(t =~= seq![r0.0, l as u8] + r0.1 + after);
        assert(t[1] == l as u8);
        assert(t[1] == l);
        assert(record_fits(t));
        assert(t.subrange(2, 2 + t[1]) =~= r0.1);
        assert(t.skip(2 + t[1]) =~= after);
        assert(seq![(t[0], t.subrange(2, 2 + t[1]))] + (rest + parse_records(tail).0) =~= records
            + parse_records(tail).0);
    }
}

/// A packet body read back gives the same records with nothing left over, as long as
/// every value's length fits in its length byte.
pub proof fn lemma_body_round_trip(records: Seq<RecordView>)
    requires
        lengths_fit(records),
    ensures
        parse_records(serialize_records(records)) == (records, Seq::<u8>::empty()),
{
    lemma_parse_serialized(records, Seq::empty());
    assert(serialize_records(records) + Seq::<u8>::empty() =~= serialize_records(records));
    assert(!record_fits(Seq::<u8>::empty()));
    assert(records + Seq::<RecordView>::empty() =~= records);
}

/// Writing back what was read gives back the bytes that were read: the records' bytes
/// followed by what was left make up the input. Every value read fits its length byte,
/// and what is left starts no complete record.
pub proof fn lemma_serialize_parsed(bytes: Seq<u8>)
    ensures
        serialize_records(parse_records(bytes).0) + parse_records(bytes).1 == bytes,
        lengths_fit(parse_records(bytes).0),
        !record_fits(parse_records(bytes).1),
    decreases bytes.len(),
{
    if record_fits(bytes) {
        let l = bytes[1] as int;
        let after = bytes.skip(2 + l);
        lemma_serialize_parsed(after);
        let r0 = (bytes[0], bytes.subrange(2, 2 + l));
        let records = parse_records(bytes).0;
        assert(records =~= seq![r0] + parse_records(after).0);
        assert(records[0] == r0);
        assert(records.drop_first() =~= parse_records(after).0);
        lemma_serialize_front(records);
        assert(r0.1.len() == l);
        assert((l as u8) == bytes[1]);
        assert(encode_record(r0) =~= bytes.subrange(0, 2 + l));
        assert(serialize_records(records) + parse_records(bytes).1 =~= bytes.subrange(0, 2 + l)
            + (serialize_records(parse_records(after).0) + parse_records(after).1));
        assert(bytes.subrange(0, 2 + l) + after =~= bytes);
        assert forall|i: int| 0 <= i < records.len() implies #[trigger] records[i].1.len() <= 255 by {
            if i > 0 {
                assert(records[i] == parse_records(after).0[i - 1]);
            }
        }
    } else {
        assert(serialize_records(Seq::<RecordView>::empty()) + bytes =~= bytes);
    }
}

/// Tag of the left earbud's battery record.
pub const TAG_BATTERY_LEFT: u8 = 0x03;

/// Tag of the right earbud's battery record.
pub const TAG_BATTERY_RIGHT: u8 = 0x04;

/// Tag of the left earbud's firmware version record.
pub const TAG_FIRMWARE_LEFT: u8 = 0x05;

/// Tag of the right earbud's firmware version record.
pub const TAG_FIRMWARE_RIGHT: u8 = 0x06;

/// Tag of the serial number record.
pub const TAG_SERIAL_NUMBER: u8 = 0x07;

/// A battery record is two bytes whose last is the percentage; an absent or empty
/// record reads as zero.
pub open spec fn battery_field(bytes: Option<Seq<u8>>) -> u8 {
    match bytes {
        Some(b) => if b.len() > 0 {
            b.last()
        } else {
            0
        },
        None => 0,
    }
}

/// The device information that a list of records carries.
pub open spec fn info_matches(info: A3956Info, records: Seq<RecordView>) -> bool {
    &&& info.serial_number@ == text_field(lookup(records, TAG_SERIAL_NUMBER))
    &&& info.firmware_left@ == text_field(lookup(records, TAG_FIRMWARE_LEFT))
    &&& info.firmware_right@ == text_field(lookup(records, TAG_FIRMWARE_RIGHT))
    &&& info.battery_left == battery_field(lookup(records, TAG_BATTERY_LEFT))
    &&& info.battery_right == battery_field(lookup(records, TAG_BATTERY_RIGHT))
    &&& lossy_agrees_when_valid(lookup(records, TAG_SERIAL_NUMBER))
    &&& lossy_agrees_when_valid(lookup(records, TAG_FIRMWARE_LEFT))
    &&& lossy_agrees_when_valid(lookup(records, TAG_FIRMWARE_RIGHT))
}

/// Whether `tag` is one of the tags that `info` reads (0x03 to 0x07).
pub open spec fn known_tag(tag: u8) -> bool {
    TAG_BATTERY_LEFT <= tag <= TAG_SERIAL_NUMBER
}

/// Whether two record lists give the same value for every tag that `info` reads.
pub open spec fn same_known_lookups(a: Seq<RecordView>, b: Seq<RecordView>) -> bool {
    forall|tag: u8| known_tag(tag) ==> #[trigger] lookup(a, tag) == lookup(b, tag)
}

/// The device information depends only on the first record of each known tag: two record
/// lists that agree on those give the same information.
pub proof fn lemma_info_depends_on_known_tags(
    info: A3956Info,
    a: Seq<RecordView>,
    b: Seq<RecordView>,
)
    requires
        same_known_lookups(a, b),
    ensures
        info_matches(info, a) == info_matches(info, b),
{
    assert(known_tag(TAG_SERIAL_NUMBER) && known_tag(TAG_FIRMWARE_LEFT) && known_tag(
        TAG_FIRMWARE_RIGHT,
    ) && known_tag(TAG_BATTERY_LEFT) && known_tag(TAG_BATTERY_RIGHT));
    assert(lookup(a, TAG_SERIAL_NUMBER) == lookup(b, TAG_SERIAL_NUMBER));
    assert(lookup(a, TAG_FIRMWARE_LEFT) == lookup(b, TAG_FIRMWARE_LEFT));
    assert(lookup(a, TAG_FIRMWARE_RIGHT) == lookup(b, TAG_FIRMWARE_RIGHT));
    assert(lookup(a, TAG_BATTERY_LEFT) == lookup(b, TAG_BATTERY_LEFT));
    assert(lookup(a, TAG_BATTERY_RIGHT) == lookup(b, TAG_BATTERY_RIGHT));
}

/// The information a list of records carries is one: any two values that match it have
/// the same texts and battery levels.
pub proof fn lemma_info_unique(first: A3956Info, second: A3956Info, records: Seq<RecordView>)
    requires
        info_matches(first, records),
        info_matches(second, records),
    ensures
        first.serial_number@ == second.serial_number@,
        first.firmware_left@ == second.firmware_left@,
        first.firmware_right@ == second.firmware_right@,
        first.battery_left == second.battery_left,
        first.battery_right == second.battery_right,
{
}

/// A record whose tag `info` does not read, inserted anywhere, leaves the information as
/// it was.
pub proof fn lemma_info_ignores_unknown_record(
    info: A3956Info,
    before: Seq<RecordView>,
    record: RecordView,
    after: Seq<RecordView>,
)
    requires
        !known_tag(record.0),
    ensures
        info_matches(info, before + seq![record] + after) == info_matches(info, before + after),
{
    assert forall|tag: u8| known_tag(tag) implies #[trigger] lookup(
        before + seq![record] + after,
        tag,
    ) == lookup(before + after, tag) by {
        lemma_lookup_insert_other(before, record, after, tag);
    }
    lemma_info_depends_on_known_tags(info, before + seq![record] + after, before + after);
}

/// Records appended at the end leave the information as it was, as long as they bring no
/// known tag that the records before them lack.
pub proof fn lemma_info_ignores_appended_records(
    info: A3956Info,
    records: Seq<RecordView>,
    extra: Seq<RecordView>,
)
    requires
        forall|tag: u8|
            known_tag(tag) && lookup(records, tag) is None ==> #[trigger] lookup(extra, tag) is None,
    ensures
        info_matches(info, records + extra) == info_matches(info, records),
{
    assert forall|tag: u8| known_tag(tag) implies #[trigger] lookup(records + extra, tag) == lookup(
        records,
        tag,
    ) by {
        lemma_lookup_concat(records, extra, tag);
    }
    lemma_info_depends_on_known_tags(info, records + extra, records);
}

/// Whether `text` is `full` with nothing but NULs cut off its end, and does not itself
/// end in NUL.
pub open spec fn is_nul_trimmed(text: Seq<char>, full: Seq<char>) -> bool {
    &&& text.len() <= full.len()
    &&& text == full.take(text.len() as int)
    &&& forall|i: int| text.len() <= i < full.len() ==> #[trigger] full[i] == '\0'
    &&& text.len() == 0 || text.last() != '\0'
}

/// What the device information says of the records it came from: each battery level is
/// the last byte of the first record with tag 0x03 (left) or 0x04 (right), and zero when
/// there is no such record or it is empty; each text is the first record with tag 0x05
/// (left firmware), 0x06 (right firmware) or 0x07 (serial number) decoded, with only
/// trailing NULs removed (for valid UTF-8, decoded strictly), and empty when there is no
/// such record.
pub proof fn lemma_info_fields(info: A3956Info, records: Seq<RecordView>)
    requires
        info_matches(info, records),
    ensures
        lookup(records, 0x03) matches Some(b) ==> info.battery_left == if b.len() > 0 {
            b[b.len() - 1]
        } else {
            0u8
        },
        lookup(records, 0x03) is None ==> info.battery_left == 0,
        lookup(records, 0x04) matches Some(b) ==> info.battery_right == if b.len() > 0 {
            b[b.len() - 1]
        } else {
            0u8
        },
        lookup(records, 0x04) is None ==> info.battery_right == 0,
        lookup(records, 0x05) matches Some(b) ==> is_nul_trimmed(
            info.firmware_left@,
            utf8_lossy(b),
        ) && (valid_utf8(b) ==> is_nul_trimmed(info.firmware_left@, decode_utf8(b))),
        lookup(records, 0x05) is None ==> info.firmware_left@.len() == 0,
        lookup(records, 0x06) matches Some(b) ==> is_nul_trimmed(
            info.firmware_right@,
            utf8_lossy(b),
        ) && (valid_utf8(b) ==> is_nul_trimmed(info.firmware_right@, decode_utf8(b))),
        lookup(records, 0x06) is None ==> info.firmware_right@.len() == 0,
        lookup(records, 0x07) matches Some(b) ==> is_nul_trimmed(
            info.serial_number@,
            utf8_lossy(b),
        ) && (valid_utf8(b) ==> is_nul_trimmed(info.serial_number@, decode_utf8(b))),
        lookup(records, 0x07) is None ==> info.serial_number@.len() == 0,
{
    if let Some(b) = lookup(records, 0x05) {
        lemma_trim_trailing_nul(utf8_lossy(b));
    }
    if let Some(b) = lookup(records, 0x06) {
        lemma_trim_trailing_nul(utf8_lossy(b));
    }
    if let Some(b) = lookup(records, 0x07) {
        lemma_trim_trailing_nul(utf8_lossy(b));
    }
}

fn decode_battery(bytes: Option<&[u8]>) -> (percent: u8)
    ensures
        percent == battery_field(bytes_view(bytes)),
{
    match bytes {
        Some(b) => match b.last() {
            Some(p) => *p,
            None => 0,
        },
        None => 0,
    }
}

fn record_fits_at(input: &[u8], pos: usize) -> (fits: bool)
    requires
        pos <= input@.len(),
    ensures
        fits == record_fits(input@.skip(pos as int)),
{
    let left = input.len() - pos;
    left >= 2 && left - 2 >= input[pos + 1] as usize
}

/// Reads the record that starts at `pos`; gives it and the position after it.
fn take_tlv(input: &[u8], pos: usize) -> (res: ((u8, Vec<u8>), usize))
    requires
        pos <= input@.len(),
        record_fits(input@.skip(pos as int)),
    ensures
        ({
            let s = input@.skip(pos as int);
            &&& res.0.0 == s[0]
            &&& res.0.1@ == s.subrange(2, 2 + s[1])
            &&& res.1 == pos + 2 + s[1]
            &&& res.1 <= input@.len()
        }),
{
    let tag = input[pos];
    let len = input[pos + 1] as usize;
    let value = slice_to_vec(slice_subrange(input, pos + 2, pos + 2 + len));
    let ghost s = input@.skip(pos as int);
    assert(value@ =~= s.subrange(2, 2 + s[1]));
    ((tag, value), pos + 2 + len)
}

/// State update packet (command 0x0101) in the A3956 tag/length/value layout.
#[derive(Debug, Clone, PartialEq, Eq)]
pub struct A3956StateUpdatePacket {
    pub records: TlvRecords,
}

impl Default for A3956StateUpdatePacket {
    fn default() -> (p: Self)
        ensures
            p.records@ == Seq::<RecordView>::empty(),
    {
        A3956StateUpdatePacket { records: TlvRecords::default() }
    }
}

impl A3956StateUpdatePacket {
    /// The device information that the known tags carry. Text fields are decoded
    /// leniently as UTF-8 with trailing NULs removed; batteries are the last byte of
    /// their record. A missing record gives an empty text or zero.
    pub fn info(&self) -> (info: A3956Info)
        ensures
            info_matches(info, self.records@),
    {
        A3956Info {
            serial_number: decode_text_field(self.records.get(TAG_SERIAL_NUMBER)),
            firmware_left: decode_text_field(self.records.get(TAG_FIRMWARE_LEFT)),
            firmware_right: decode_text_field(self.records.get(TAG_FIRMWARE_RIGHT)),
            battery_left: decode_battery(self.records.get(TAG_BATTERY_LEFT)),
            battery_right: decode_battery(self.records.get(TAG_BATTERY_RIGHT)),
        }
    }

    /// Reads records from the front of `input` for as long as complete ones follow.
    /// Never fails: what is left is empty or an incomplete record.
    pub fn take(input: &[u8]) -> (res: Result<(&[u8], A3956StateUpdatePacket), ParseError>)
        ensures
            match res {
                Ok((rest, packet)) => {
                    &&& packet.records@ == parse_records(input@).0
                    &&& rest@ == parse_records(input@).1
                },
                Err(_) => false,
            },
    {
        let mut records: Vec<(u8, Vec<u8>)> = Vec::new();
        let mut pos: usize = 0;
        assert(input@.skip(0) =~= input@);
        assert(TlvRecords(records)@ =~= Seq::<RecordView>::empty());
        while record_fits_at(input, pos)
            invariant
                pos <= input@.len(),
                parse_records(input@) == (
                    TlvRecords(records)@ + parse_records(input@.skip(pos as int)).0,
                    parse_records(input@.skip(pos as int)).1,
                ),
            decreases input@.len() - pos,
        {
            let ghost s = input@.skip(pos as int);
            let ghost before = TlvRecords(records)@;
            let (record, next) = take_tlv(input, pos);
            records.push(record);
            proof {
                assert(s.skip(2 + s[1]) =~= input@.skip(next as int));
                assert(TlvRecords(records)@ =~= before.push((s[0], s.subrange(2, 2 + s[1]))));
                assert(TlvRecords(records)@ + parse_records(input@.skip(next as int)).0 =~= before
                    + parse_records(s).0);
            }
            pos = next;
        }
        let (_, rest) = input.split_at(pos);
        assert(rest@ =~= input@.skip(pos as int));
        let packet = A3956StateUpdatePacket { records: TlvRecords(records) };
        assert(packet.records@ =~= parse_records(input@).0);
        Ok((rest, packet))
    }

    /// The command of this packet: the state command.
    pub fn command(&self) -> (c: Command)
        ensures
            c.0@ == seq![0x01u8, 0x01u8],
    {
        state_command()
    }

    /// The records written one after the other as tag, length byte, value.
    pub fn body(&self) -> (out: Vec<u8>)
        ensures
            out@ == serialize_records(self.records@),
    {
        let mut out: Vec<u8> = Vec::new();
        let n = self.records.0.len();
        let mut i: usize = 0;
        assert(self.records@.take(0) =~= Seq::<RecordView>::empty());
        while i < n
            invariant
                n == self.records@.len(),
                i <= n,
                out@ == serialize_records(self.records@.take(i as int)),
            decreases n - i,
        {
            let record = &self.records.0[i];
            let ghost before = out@;
            out.push(record.0);
            out.push(record.1.len() as u8);
            let mut j: usize = 0;
            while j < record.1.len()
                invariant
                    j <= record.1@.len(),
                    out@ == before + seq![record.0, record.1@.len() as u8] + record.1@.take(j as int),
                decreases record.1@.len() - j,
            {
                out.push(record.1[j]);
                assert(record.1@.take(j + 1) =~= record.1@.take(j as int).push(record.1@[j as int]));
                j = j + 1;
            }
            proof {
                assert(record.1@.take(j as int) =~= record.1@);
                assert(self.records@.take(i + 1).drop_last() =~= self.records@.take(i as int));
                assert(self.records@.take(i + 1).last() == self.records@[i as int]);
                assert(out@ =~= serialize_records(self.records@.take(i + 1)));
            }
            i = i + 1;
        }
        assert(self.records@.take(n as int) =~= self.records@);
        out
    }
}

} // verus!
