use vstd::prelude::*;

verus! {

/// One tag/length/value record as the specifications see it: the tag and the value bytes.
pub type RecordView = (u8, Seq<u8>);

/// Whether the earbuds are currently in an Easy Chat session (voice detected,
/// audio ducked, transparency on). Reported by the device through the 0x3103 event.
#[derive(Debug, Clone, Copy, PartialEq, Eq, Structural)]
pub struct EasyChatStatus {
    pub is_active: bool,
}

impl Default for EasyChatStatus {
    fn default() -> (s: Self)
        ensures
            !s.is_active,
    {
        EasyChatStatus { is_active: false }
    }
}

/// Read-only information taken from the A3956 tag/length/value state packet.
#[derive(Debug, Clone, PartialEq, Eq)]
pub struct A3956Info {
    pub serial_number: String,
    pub firmware_left: String,
    pub firmware_right: String,
    pub battery_left: u8,
    pub battery_right: u8,
}

impl Default for A3956Info {
    fn default() -> (info: Self)
        ensures
            info.serial_number@ == Seq::<char>::empty(),
            info.firmware_left@ == Seq::<char>::empty(),
            info.firmware_right@ == Seq::<char>::empty(),
            info.battery_left == 0,
            info.battery_right == 0,
    {
        A3956Info {
            serial_number: String::new(),
            firmware_left: String::new(),
            firmware_right: String::new(),
            battery_left: 0,
            battery_right: 0,
        }
    }
}

/// The A3956 state packet is a sequence of tag/length/value records rather than the
/// fixed layout used by older Soundcore devices. Unknown tags are kept so that they can
/// be inspected.
#[derive(Debug, Clone, PartialEq, Eq)]
pub struct TlvRecords(pub Vec<(u8, Vec<u8>)>);

/// The bytes that an optional borrowed value holds, as the specifications see them.
pub open spec fn bytes_view(value: Option<&[u8]>) -> Option<Seq<u8>> {
    match value {
        Some(v) => Some(v@),
        None => None,
    }
}

/// The value stored under `tag` in the first record that carries it, if any.
pub open spec fn lookup(records: Seq<RecordView>, tag: u8) -> Option<Seq<u8>>
    decreases records.len(),
{
    if records.len() == 0 {
        None
    } else if records[0].0 == tag {
        Some(records[0].1)
    } else {
        lookup(records.drop_first(), tag)
    }
}

impl View for TlvRecords {
    type V = Seq<RecordView>;

    open spec fn view(&self) -> Seq<RecordView> {
        self.0@.map_values(|r: (u8, Vec<u8>)| (r.0, r.1@))
    }
}

impl Default for TlvRecords {
    fn default() -> (r: Self)
        ensures
            r@ == Seq::<RecordView>::empty(),
    {
        let r = TlvRecords(Vec::new());
        assert(r@ =~= Seq::<RecordView>::empty());
        r
    }
}

/// Looking past the first `i` records changes nothing when none of them carries `tag`.
proof fn lemma_lookup_skip(records: Seq<RecordView>, tag: u8, i: int)
    requires
        0 <= i < records.len(),
        records[i].0 != tag,
    ensures
        lookup(records.skip(i), tag) == lookup(records.skip(i + 1), tag),
{
    assert(records.skip(i).drop_first() =~= records.skip(i + 1));
}

/// Looking a tag up in two record lists joined: the first list's answer when it has
/// the tag, else the second list's.
pub proof fn lemma_lookup_concat(first: Seq<RecordView>, second: Seq<RecordView>, tag: u8)
    ensures
        lookup(first + second, tag) == if lookup(first, tag) is Some {
            lookup(first, tag)
        } else {
            lookup(second, tag)
        },
    decreases first.len(),
{
    if first.len() == 0 {
        assert(first + second =~= second);
    } else {
        assert((first + second)[0] == first[0]);
        assert((first + second).drop_first() =~= first.drop_first() + second);
        lemma_lookup_concat(first.drop_first(), second, tag);
    }
}

/// A record with another tag, wherever it is inserted, changes nothing that a lookup of
/// `tag` finds.
pub proof fn lemma_lookup_insert_other(
    before: Seq<RecordView>,
    record: RecordView,
    after: Seq<RecordView>,
    tag: u8,
)
    requires
        record.0 != tag,
    ensures
        lookup(before + seq![record] + after, tag) == lookup(before + after, tag),
{
    lemma_lookup_concat(before, seq![record], tag);
    lemma_lookup_concat(seq![record], Seq::empty(), tag);
    assert(seq![record] + Seq::<RecordView>::empty() =~= seq![record]);
    assert(seq![record].drop_first() =~= Seq::<RecordView>::empty());
    lemma_lookup_concat(before + seq![record], after, tag);
    lemma_lookup_concat(before, after, tag);
}

/// A lookup finds the value of the first record that carries the tag, bytes unchanged.
pub proof fn lemma_lookup_finds_first(records: Seq<RecordView>, tag: u8, i: int)
    requires
        0 <= i < records.len(),
        records[i].0 == tag,
        forall|j: int| 0 <= j < i ==> #[trigger] records[j].0 != tag,
    ensures
        lookup(records, tag) == Some(records[i].1),
    decreases i,
{
    if i > 0 {
        let rest = records.drop_first();
        assert forall|j: int| 0 <= j < i - 1 implies #[trigger] rest[j].0 != tag by {
            assert(rest[j] == records[j + 1]);
        }
        assert(records[0].0 != tag);
        lemma_lookup_finds_first(rest, tag, i - 1);
    }
}

/// A lookup finds nothing exactly when no record carries the tag.
pub proof fn lemma_lookup_none(records: Seq<RecordView>, tag: u8)
    ensures
        lookup(records, tag) is None <==> forall|j: int|
            0 <= j < records.len() ==> #[trigger] records[j].0 != tag,
    decreases records.len(),
{
    if records.len() > 0 {
        let rest = records.drop_first();
        lemma_lookup_none(rest, tag);
        if lookup(records, tag) is None {
            assert forall|j: int| 0 <= j < records.len() implies #[trigger] records[j].0 != tag by {
                if j > 0 {
                    assert(records[j] == rest[j - 1]);
                }
            }
        }
        if forall|j: int| 0 <= j < records.len() ==> #[trigger] records[j].0 != tag {
            assert(records[0].0 != tag);
            assert forall|j: int| 0 <= j < rest.len() implies #[trigger] rest[j].0 != tag by {
                assert(rest[j] == records[j + 1]);
            }
        }
    }
}

impl TlvRecords {
    /// The value of the first record whose tag is `tag`.
    pub fn get(&self, tag: u8) -> (value: Option<&[u8]>)
        ensures
            bytes_view(value) == lookup(self@, tag),
            match value {
                Some(v) => exists|i: int|
                    0 <= i < self@.len() && self@[i].0 == tag && v@ == self@[i].1 && forall|j: int|
                        0 <= j < i ==> #[trigger] self@[j].0 != tag,
                None => forall|j: int| 0 <= j < self@.len() ==> #[trigger] self@[j].0 != tag,
            },
    {
        let n = self.0.len();
        let mut i: usize = 0;
        assert(self@.skip(0) =~= self@);
        while i < n
            invariant
                n == self.0.len(),
                i <= n,
                lookup(self@, tag) == lookup(self@.skip(i as int), tag),
                forall|j: int| 0 <= j < i ==> #[trigger] self@[j].0 != tag,
            decreases n - i,
        {
            if self.0[i].0 == tag {
                assert(self@.skip(i as int)[0] == self@[i as int]);
                assert(self@[i as int].0 == tag);
                return Some(self.0[i].1.as_slice());
            }
            proof {
                lemma_lookup_skip(self@, tag, i as int);
            }
            i = i + 1;
        }
        assert(self@.skip(n as int).len() == 0);
        None
    }
}

} // verus!
