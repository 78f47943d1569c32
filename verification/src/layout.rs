//! The layout of a resource in bytes, and the proof that decoding a resource
//! laid out in this way reads back what was laid out.
//!
//! A [`Resource`] describes what is written: strings as text or as raw
//! bytes, namespaces and entries in their order. [`layout`] gives its bytes
//! and [`contents`] what it is read as. Nothing here runs: the records, the
//! layout and the proofs are ghost code.

use vstd::prelude::*;
use vstd::utf8::{encode_utf8, encode_utf8_decode_utf8, encode_utf8_valid_utf8};

use crate::bytes::{
    spec_i32_le, spec_read_i32_le, spec_read_string, spec_read_u32_le, spec_read_u64_le,
    spec_u32_le, spec_u64_le,
};
use crate::error::Error;
use crate::localization::{spec_from_reader, spec_read_version, LocalizationView, MAGIC};
use crate::namespace::{
    member_reader, namespace_reader, spec_index_as_usize, spec_read_all, spec_read_member,
    spec_read_one, spec_read_optional_i32, spec_read_optional_u32, Member, NamespaceView,
};
use crate::repeat::{spec_collect, spec_repeat};
use crate::strings::{
    spec_read_localization_strings, spec_read_table, spec_read_table_slot, table_slot_reader,
    LocalizedText,
};
use crate::text::{trim_end, utf8_lossy};
use crate::version::Version;

verus! {

/// `bytes` stand in `data` at `pos`.
#[verifier::opaque]
pub open spec fn stands_at(data: Seq<u8>, pos: int, bytes: Seq<u8>) -> bool {
    &&& 0 <= pos
    &&& pos + bytes.len() <= data.len()
    &&& data.subrange(pos, pos + bytes.len()) == bytes
}

/// An unsigned 32-bit integer in four bytes, least significant byte first.
#[verifier::opaque]
pub open spec fn layout_u32(v: u32) -> Seq<u8> {
    seq![
        (v % 0x100) as u8,
        (v / 0x100 % 0x100) as u8,
        (v / 0x1_0000 % 0x100) as u8,
        (v / 0x100_0000) as u8,
    ]
}

/// A signed 32-bit integer in four bytes of two's complement, least
/// significant byte first.
pub open spec fn layout_i32(v: i32) -> Seq<u8> {
    layout_u32(
        if v >= 0 {
            v as u32
        } else {
            (v + 0x1_0000_0000) as u32
        },
    )
}

/// An unsigned 64-bit integer in eight bytes, least significant byte first.
pub open spec fn layout_u64(v: u64) -> Seq<u8> {
    layout_u32((v % 0x1_0000_0000) as u32) + layout_u32((v / 0x1_0000_0000) as u32)
}

/// Where two runs of bytes stand one after the other, each of them stands
/// at its place.
pub proof fn lemma_stands_apart(data: Seq<u8>, pos: int, first: Seq<u8>, second: Seq<u8>)
    requires
        stands_at(data, pos, first + second),
    ensures
        stands_at(data, pos, first),
        stands_at(data, pos + first.len(), second),
{
    reveal(stands_at);
    let both = first + second;
    assert(data.subrange(pos, pos + first.len()) =~= both.subrange(0, first.len() as int));
    assert(both.subrange(0, first.len() as int) =~= first);
    assert(data.subrange(pos + first.len(), pos + first.len() + second.len()) =~= both.subrange(
        first.len() as int,
        both.len() as int,
    ));
    assert(both.subrange(first.len() as int, both.len() as int) =~= second);
}

/// The four bytes of an unsigned integer spell that integer.
pub proof fn lemma_u32_back(v: u32)
    ensures
        layout_u32(v).len() == 4,
        spec_u32_le(layout_u32(v)) == v,
{
    reveal(layout_u32);
}

/// The four bytes of a signed integer spell that integer.
pub proof fn lemma_i32_back(v: i32)
    ensures
        layout_i32(v).len() == 4,
        spec_i32_le(layout_i32(v)) == v,
{
    lemma_u32_back(
        if v >= 0 {
            v as u32
        } else {
            (v + 0x1_0000_0000) as u32
        },
    );
}

/// The eight bytes of an unsigned integer spell that integer.
pub proof fn lemma_u64_back(v: u64)
    ensures
        layout_u64(v).len() == 8,
        spec_u64_le(layout_u64(v)) == v,
{
    let low = (v % 0x1_0000_0000) as u32;
    let high = (v / 0x1_0000_0000) as u32;
    lemma_u32_back(low);
    lemma_u32_back(high);
    assert(layout_u64(v).subrange(0, 4) =~= layout_u32(low));
    assert(layout_u64(v).subrange(4, 8) =~= layout_u32(high));
}

/// An unsigned 32-bit integer that stands at `pos` is read there.
pub proof fn lemma_read_u32_back(data: Seq<u8>, pos: int, v: u32)
    requires
        stands_at(data, pos, layout_u32(v)),
    ensures
        layout_u32(v).len() == 4,
        spec_read_u32_le(data, pos) == Ok::<(u32, int), Error>((v, pos + 4)),
{
    reveal(stands_at);
    lemma_u32_back(v);
}

/// A signed 32-bit integer that stands at `pos` is read there.
pub proof fn lemma_read_i32_back(data: Seq<u8>, pos: int, v: i32)
    requires
        stands_at(data, pos, layout_i32(v)),
    ensures
        layout_i32(v).len() == 4,
        spec_read_i32_le(data, pos) == Ok::<(i32, int), Error>((v, pos + 4)),
{
    reveal(stands_at);
    lemma_i32_back(v);
}

/// An unsigned 64-bit integer that stands at `pos` is read there.
pub proof fn lemma_read_u64_back(data: Seq<u8>, pos: int, v: u64)
    requires
        stands_at(data, pos, layout_u64(v)),
    ensures
        layout_u64(v).len() == 8,
        spec_read_u64_le(data, pos) == Ok::<(u64, int), Error>((v, pos + 8)),
{
    reveal(stands_at);
    lemma_u64_back(v);
}

/// A string as it is written: as text for a positive count of bytes of
/// strict UTF-8, or as raw bytes for a negative count that stands for twice
/// as many bytes, read leniently.
pub enum StringRecord {
    Strict(Seq<char>),
    Wide(Seq<u8>),
}

/// A slot of the string table as it is written. The reference count is
/// written from [`Version::Optimized`] on.
pub struct SlotRecord {
    pub text: StringRecord,
    pub ref_count: i32,
}

/// An entry as it is written. The hash of the key is written from
/// [`Version::Optimized`] on; the index into the string table is written
/// from [`Version::Compact`] on, and the value itself before.
pub struct EntryRecord {
    pub key: StringRecord,
    pub key_hash: u32,
    pub source_hash: u32,
    pub value: StringRecord,
    pub index: i32,
}

/// A namespace as it is written, with its entries in their order. The hash
/// of the name is written from [`Version::Optimized`] on.
pub struct NamespaceRecord {
    pub name: StringRecord,
    pub key_hash: i32,
    pub entries: Seq<EntryRecord>,
}

/// A resource as it is written. The string table is written from
/// [`Version::Compact`] on, the declared number of entries from
/// [`Version::Optimized`] on.
pub struct Resource {
    pub version: Version,
    pub strings: Seq<SlotRecord>,
    pub entries_count: u32,
    pub namespaces: Seq<NamespaceRecord>,
}

/// A string: the count, then the bytes. A strict string is counted in
/// bytes of its UTF-8 encoding; a wide string is counted in pairs of bytes,
/// below zero.
pub open spec fn layout_string(string: StringRecord) -> Seq<u8> {
    match string {
        StringRecord::Strict(text) => layout_i32(encode_utf8(text).len() as i32) + encode_utf8(
            text,
        ),
        StringRecord::Wide(bytes) => layout_i32((-(bytes.len() / 2)) as i32) + bytes,
    }
}

/// A string can be written: a signed count can hold the length of a strict
/// string; a wide string is made of pairs of bytes, at least one and no more
/// than the count can hold.
#[verifier::opaque]
pub open spec fn string_fits(string: StringRecord) -> bool {
    match string {
        StringRecord::Strict(text) => encode_utf8(text).len() <= i32::MAX,
        StringRecord::Wide(bytes) => bytes.len() % 2 == 0 && 2 <= bytes.len() <= 0x1_0000_0000,
    }
}

/// The text that a written string is read as: the text of a strict string
/// and the lenient reading of a wide one, in both cases without the NULs at
/// its end.
pub open spec fn string_text(string: StringRecord) -> Seq<char> {
    match string {
        StringRecord::Strict(text) => trim_end(text, '\0'),
        StringRecord::Wide(bytes) => trim_end(utf8_lossy(bytes), '\0'),
    }
}

/// The layouts of `records`, one after the other.
pub open spec fn layout_each<R>(records: Seq<R>, one: spec_fn(R) -> Seq<u8>) -> Seq<u8>
    decreases records.len(),
{
    if records.len() == 0 {
        Seq::empty()
    } else {
        layout_each(records.drop_last(), one) + one(records.last())
    }
}

/// A string that can be written is read where it stands as its text.
pub proof fn lemma_read_string_back(data: Seq<u8>, pos: int, string: StringRecord)
    requires
        string_fits(string),
        stands_at(data, pos, layout_string(string)),
    ensures
        spec_read_string(data, pos) == Ok::<(Seq<char>, int), Error>(
            (string_text(string), pos + layout_string(string).len()),
        ),
{
    reveal(string_fits);
    reveal(spec_read_string);
    match string {
        StringRecord::Strict(text) => {
            let bytes = encode_utf8(text);
            lemma_i32_back(bytes.len() as i32);
            lemma_stands_apart(data, pos, layout_i32(bytes.len() as i32), bytes);
            lemma_read_i32_back(data, pos, bytes.len() as i32);
            reveal(stands_at);
            encode_utf8_valid_utf8(text);
            encode_utf8_decode_utf8(text);
            if text.len() == 0 {
                assert(text =~= Seq::<char>::empty());
            }
        },
        StringRecord::Wide(bytes) => {
            let count = (-(bytes.len() / 2)) as i32;
            lemma_i32_back(count);
            lemma_stands_apart(data, pos, layout_i32(count), bytes);
            lemma_read_i32_back(data, pos, count);
            reveal(stands_at);
        },
    }
}

/// Records that stand one after the other at `pos` are read there as a run,
/// where each of them is read wherever it stands.
pub proof fn lemma_repeat_back<R, T>(
    item: spec_fn(int) -> Result<(T, int), Error>,
    one: spec_fn(R) -> Seq<u8>,
    value: spec_fn(R) -> T,
    records: Seq<R>,
    data: Seq<u8>,
    pos: int,
)
    requires
        stands_at(data, pos, layout_each(records, one)),
        forall|i: int, at: int|
            0 <= i < records.len() && #[trigger] stands_at(data, at, one(records[i])) ==> item(at)
                == Ok::<(T, int), Error>((value(records[i]), at + one(records[i]).len())),
    ensures
        spec_repeat(item, pos, records.len()) == Ok::<(Seq<T>, int), Error>(
            (records.map_values(value), pos + layout_each(records, one).len()),
        ),
    decreases records.len(),
{
    if records.len() == 0 {
        assert(records.map_values(value) =~= Seq::<T>::empty());
    } else {
        let head = records.drop_last();
        let last = records.last();
        lemma_stands_apart(data, pos, layout_each(head, one), one(last));
        assert forall|i: int, at: int|
            0 <= i < head.len() && #[trigger] stands_at(data, at, one(head[i])) implies item(at)
            == Ok::<(T, int), Error>((value(head[i]), at + one(head[i]).len())) by {
            assert(head[i] == records[i]);
        }
        lemma_repeat_back(item, one, value, head, data, pos);
        let at = pos + layout_each(head, one).len();
        assert(records[records.len() - 1] == last);
        assert(stands_at(data, at, one(records[records.len() - 1])));
        assert(records.map_values(value) =~= head.map_values(value).push(value(last)));
    }
}

/// Records that stand one after the other at `pos` fail as a run with the
/// error of the first of them that fails, where each one before it is read
/// wherever it stands.
pub proof fn lemma_repeat_fails<R, T>(
    item: spec_fn(int) -> Result<(T, int), Error>,
    one: spec_fn(R) -> Seq<u8>,
    value: spec_fn(R) -> T,
    records: Seq<R>,
    data: Seq<u8>,
    pos: int,
    first: int,
    error: Error,
)
    requires
        stands_at(data, pos, layout_each(records, one)),
        0 <= first < records.len(),
        forall|i: int, at: int|
            0 <= i < first && #[trigger] stands_at(data, at, one(records[i])) ==> item(at) == Ok::<
                (T, int),
                Error,
            >((value(records[i]), at + one(records[i]).len())),
        forall|at: int| #[trigger]
            stands_at(data, at, one(records[first])) ==> item(at) == Err::<(T, int), Error>(error),
    ensures
        spec_repeat(item, pos, records.len()) == Err::<(Seq<T>, int), Error>(error),
    decreases records.len(),
{
    let head = records.drop_last();
    lemma_stands_apart(data, pos, layout_each(head, one), one(records.last()));
    if first == records.len() - 1 {
        assert forall|i: int, at: int|
            0 <= i < head.len() && #[trigger] stands_at(data, at, one(head[i])) implies item(at)
            == Ok::<(T, int), Error>((value(head[i]), at + one(head[i]).len())) by {
            assert(head[i] == records[i]);
        }
        lemma_repeat_back(item, one, value, head, data, pos);
    } else {
        assert(head[first] == records[first]);
        assert forall|i: int, at: int|
            0 <= i < first && #[trigger] stands_at(data, at, one(head[i])) implies item(at) == Ok::<
            (T, int),
            Error,
        >((value(head[i]), at + one(head[i]).len())) by {
            assert(head[i] == records[i]);
        }
        lemma_repeat_fails(item, one, value, head, data, pos, first, error);
    }
}

/// What a written slot is read as.
pub open spec fn slot_contents(slot: SlotRecord, version: Version) -> LocalizedText {
    LocalizedText {
        text: string_text(slot.text),
        ref_count: if version.ordinal() >= 2 {
            Some(slot.ref_count)
        } else {
            None
        },
    }
}

/// [`slot_contents`] for a fixed version, as a value.
pub open spec fn slot_value(version: Version) -> spec_fn(SlotRecord) -> LocalizedText {
    |slot: SlotRecord| slot_contents(slot, version)
}

/// What the string table of a written resource is read as: nothing before
/// [`Version::Compact`], and its slots in their order from then on.
pub open spec fn table_contents(resource: Resource) -> Seq<LocalizedText> {
    if resource.version.ordinal() >= 1 {
        resource.strings.map_values(slot_value(resource.version))
    } else {
        Seq::empty()
    }
}

/// What a written entry is read as beside the string table `table`, with
/// its key.
pub open spec fn entry_contents(
    entry: EntryRecord,
    version: Version,
    table: Seq<LocalizedText>,
) -> (Seq<char>, Member) {
    (
        string_text(entry.key),
        Member {
            value: if version.ordinal() >= 1 {
                table[entry.index as int]
            } else {
                LocalizedText { text: string_text(entry.value), ref_count: None }
            },
            key_hash: if version.ordinal() >= 2 {
                Some(entry.key_hash)
            } else {
                None
            },
            source_hash: entry.source_hash,
        },
    )
}

/// [`entry_contents`] for a fixed version and table, as a value.
pub open spec fn entry_value(version: Version, table: Seq<LocalizedText>) -> spec_fn(
    EntryRecord,
) -> (Seq<char>, Member) {
    |entry: EntryRecord| entry_contents(entry, version, table)
}

/// What a written namespace is read as beside the string table `table`,
/// with its name: of two entries that are read with one key, the later
/// stays.
pub open spec fn namespace_contents(
    namespace: NamespaceRecord,
    version: Version,
    table: Seq<LocalizedText>,
) -> (Seq<char>, NamespaceView) {
    (
        string_text(namespace.name),
        NamespaceView {
            key_hash: if version.ordinal() >= 2 {
                Some(namespace.key_hash)
            } else {
                None
            },
            members: spec_collect(namespace.entries.map_values(entry_value(version, table))),
        },
    )
}

/// [`namespace_contents`] for a fixed version and table, as a value.
pub open spec fn namespace_value(version: Version, table: Seq<LocalizedText>) -> spec_fn(
    NamespaceRecord,
) -> (Seq<char>, NamespaceView) {
    |namespace: NamespaceRecord| namespace_contents(namespace, version, table)
}

/// What a written resource is read as: of two namespaces that are read with
/// one name, the later stays.
pub open spec fn contents(resource: Resource) -> LocalizationView {
    LocalizationView {
        version: resource.version,
        strings: table_contents(resource),
        namespaces: spec_collect(
            resource.namespaces.map_values(
                namespace_value(resource.version, table_contents(resource)),
            ),
        ),
        entries_count: if resource.version.ordinal() >= 2 {
            Some(resource.entries_count)
        } else {
            None
        },
    }
}

/// An unsigned number that is written only where `present` holds.
pub open spec fn layout_optional_u32(number: u32, present: bool) -> Seq<u8> {
    if present {
        layout_u32(number)
    } else {
        Seq::empty()
    }
}

/// A signed number that is written only where `present` holds.
pub open spec fn layout_optional_i32(number: i32, present: bool) -> Seq<u8> {
    if present {
        layout_i32(number)
    } else {
        Seq::empty()
    }
}

/// A slot of the string table: its text, then from [`Version::Optimized`]
/// on its reference count.
pub open spec fn layout_slot(slot: SlotRecord, version: Version) -> Seq<u8> {
    layout_string(slot.text) + layout_optional_i32(slot.ref_count, version.ordinal() >= 2)
}

/// [`layout_slot`] for a fixed version, as a value.
pub open spec fn slot_layout(version: Version) -> spec_fn(SlotRecord) -> Seq<u8> {
    |slot: SlotRecord| layout_slot(slot, version)
}

/// A string table: the number of its slots, then the slots.
pub open spec fn layout_table(strings: Seq<SlotRecord>, version: Version) -> Seq<u8> {
    layout_i32(strings.len() as i32) + layout_each(strings, slot_layout(version))
}

/// An entry: from [`Version::Optimized`] on the hash of its key, then the
/// key, the hash of its source text, and its value, which is an index into
/// the string table from [`Version::Compact`] on and a string before.
pub open spec fn layout_entry(entry: EntryRecord, version: Version) -> Seq<u8> {
    layout_optional_u32(entry.key_hash, version.ordinal() >= 2) + (layout_string(entry.key) + (
    layout_u32(entry.source_hash) + (if version.ordinal() >= 1 {
        layout_i32(entry.index)
    } else {
        layout_string(entry.value)
    })))
}

/// [`layout_entry`] for a fixed version, as a value.
pub open spec fn entry_layout(version: Version) -> spec_fn(EntryRecord) -> Seq<u8> {
    |entry: EntryRecord| layout_entry(entry, version)
}

/// A namespace: from [`Version::Optimized`] on the hash of its name, then
/// the name, the number of its entries, and the entries.
pub open spec fn layout_namespace(namespace: NamespaceRecord, version: Version) -> Seq<u8> {
    layout_optional_i32(namespace.key_hash, version.ordinal() >= 2) + (layout_string(
        namespace.name,
    ) + (layout_u32(namespace.entries.len() as u32) + layout_each(
        namespace.entries,
        entry_layout(version),
    )))
}

/// [`layout_namespace`] for a fixed version, as a value.
pub open spec fn namespace_layout(version: Version) -> spec_fn(NamespaceRecord) -> Seq<u8> {
    |namespace: NamespaceRecord| layout_namespace(namespace, version)
}

/// The namespace section: the number of namespaces, then the namespaces.
pub open spec fn layout_namespaces(namespaces: Seq<NamespaceRecord>, version: Version) -> Seq<u8> {
    layout_u32(namespaces.len() as u32) + layout_each(namespaces, namespace_layout(version))
}

/// The part of a resource between its header and its string table: from
/// [`Version::Compact`] on the offset of the string table, from
/// [`Version::Optimized`] on the declared number of entries, and the
/// namespace section. `table_at` is the offset to write.
pub open spec fn layout_front(resource: Resource, table_at: u64) -> Seq<u8> {
    (if resource.version.ordinal() >= 1 {
        layout_u64(table_at)
    } else {
        Seq::empty()
    }) + (layout_optional_u32(resource.entries_count, resource.version.ordinal() >= 2)
        + layout_namespaces(resource.namespaces, resource.version))
}

/// The position at which the front part of a resource with a header ends,
/// which is where its string table stands where it has one.
pub open spec fn front_end(resource: Resource) -> int {
    17 + layout_front(resource, 0).len() as int
}

/// A resource with its header: the magic signature, the byte of the
/// version, the front part, and from [`Version::Compact`] on the string
/// table, whose offset the front part holds.
#[verifier::opaque]
pub open spec fn layout(resource: Resource) -> Seq<u8> {
    MAGIC@ + (seq![resource.version.ordinal()] + (layout_front(
        resource,
        front_end(resource) as u64,
    ) + (if resource.version.ordinal() >= 1 {
        layout_table(resource.strings, resource.version)
    } else {
        Seq::empty()
    })))
}

/// An entry can be written for `version` beside a string table of
/// `slots` slots: its key can be written, and from [`Version::Compact`] on
/// the table has a slot at its index, while before that its value can be
/// written.
pub open spec fn entry_fits(entry: EntryRecord, version: Version, slots: nat) -> bool {
    &&& string_fits(entry.key)
    &&& if version.ordinal() >= 1 {
        0 <= entry.index < slots
    } else {
        string_fits(entry.value)
    }
}

/// A namespace can be written for `version` beside a string table of
/// `slots` slots: its name and its entries can be written, and the number of
/// its entries fits its field.
pub open spec fn namespace_fits(namespace: NamespaceRecord, version: Version, slots: nat) -> bool {
    &&& string_fits(namespace.name)
    &&& namespace.entries.len() <= u32::MAX
    &&& forall|i: int|
        0 <= i < namespace.entries.len() ==> entry_fits(
            #[trigger] namespace.entries[i],
            version,
            slots,
        )
}

/// The string table of a resource and what stands before the namespace
/// section can be written: where the version has a string table, its slots
/// can be written, and their number and the offset of the table fit their
/// fields.
pub open spec fn table_fits(resource: Resource) -> bool {
    resource.version.ordinal() >= 1 ==> {
        &&& resource.strings.len() <= i32::MAX
        &&& forall|i: int|
            0 <= i < resource.strings.len() ==> string_fits((#[trigger] resource.strings[i]).text)
        &&& front_end(resource) <= u64::MAX
    }
}

/// A resource can be written: its string table and what stands before the
/// namespace section can, the number of its namespaces fits its field, and
/// its namespaces can be written.
pub open spec fn resource_fits(resource: Resource) -> bool {
    &&& table_fits(resource)
    &&& resource.namespaces.len() <= u32::MAX
    &&& forall|i: int|
        0 <= i < resource.namespaces.len() ==> namespace_fits(
            #[trigger] resource.namespaces[i],
            resource.version,
            table_contents(resource).len(),
        )
}

/// An entry dangles: it is written for a version with a string table, of
/// `slots` slots, its key can be written, and the table has no slot at its
/// index.
pub open spec fn entry_dangles(entry: EntryRecord, version: Version, slots: nat) -> bool {
    &&& version.ordinal() >= 1
    &&& string_fits(entry.key)
    &&& entry.index < 0 || entry.index >= slots
}

/// The entry at `at` is the first of a namespace that dangles: the name of
/// the namespace and the entries before that one can be written.
pub open spec fn namespace_dangles(
    namespace: NamespaceRecord,
    version: Version,
    slots: nat,
    at: int,
) -> bool {
    &&& string_fits(namespace.name)
    &&& namespace.entries.len() <= u32::MAX
    &&& 0 <= at < namespace.entries.len()
    &&& forall|i: int| 0 <= i < at ==> entry_fits(#[trigger] namespace.entries[i], version, slots)
    &&& entry_dangles(namespace.entries[at], version, slots)
}

/// An unsigned number that stands at `pos` where it is written is read
/// there.
pub proof fn lemma_read_optional_u32_back(data: Seq<u8>, pos: int, number: u32, present: bool)
    requires
        stands_at(data, pos, layout_optional_u32(number, present)),
    ensures
        spec_read_optional_u32(data, pos, present) == Ok::<(Option<u32>, int), Error>(
            (
                if present {
                    Some(number)
                } else {
                    None
                },
                pos + layout_optional_u32(number, present).len(),
            ),
        ),
{
    if present {
        lemma_read_u32_back(data, pos, number);
    }
}

/// A signed number that stands at `pos` where it is written is read there.
pub proof fn lemma_read_optional_i32_back(data: Seq<u8>, pos: int, number: i32, present: bool)
    requires
        stands_at(data, pos, layout_optional_i32(number, present)),
    ensures
        spec_read_optional_i32(data, pos, present) == Ok::<(Option<i32>, int), Error>(
            (
                if present {
                    Some(number)
                } else {
                    None
                },
                pos + layout_optional_i32(number, present).len(),
            ),
        ),
{
    if present {
        lemma_read_i32_back(data, pos, number);
    }
}

/// A slot that stands at `pos` is read there.
pub proof fn lemma_read_slot_back(data: Seq<u8>, pos: int, slot: SlotRecord, version: Version)
    requires
        string_fits(slot.text),
        stands_at(data, pos, layout_slot(slot, version)),
    ensures
        spec_read_table_slot(data, pos, version) == Ok::<(LocalizedText, int), Error>(
            (slot_contents(slot, version), pos + layout_slot(slot, version).len()),
        ),
{
    reveal(spec_read_table_slot);
    let text = layout_string(slot.text);
    let ref_count = layout_optional_i32(slot.ref_count, version.ordinal() >= 2);
    lemma_stands_apart(data, pos, text, ref_count);
    lemma_read_string_back(data, pos, slot.text);
    lemma_read_optional_i32_back(data, pos + text.len(), slot.ref_count, version.ordinal() >= 2);
}

/// A string table that stands at `pos` is read there.
pub proof fn lemma_read_table_back(
    data: Seq<u8>,
    pos: int,
    strings: Seq<SlotRecord>,
    version: Version,
)
    requires
        strings.len() <= i32::MAX,
        forall|i: int| 0 <= i < strings.len() ==> string_fits((#[trigger] strings[i]).text),
        stands_at(data, pos, layout_table(strings, version)),
    ensures
        spec_read_table(data, pos, version) == Ok::<(Seq<LocalizedText>, int), Error>(
            (strings.map_values(slot_value(version)), pos + layout_table(strings, version).len()),
        ),
{
    let one = slot_layout(version);
    let value = slot_value(version);
    lemma_stands_apart(data, pos, layout_i32(strings.len() as i32), layout_each(strings, one));
    lemma_read_i32_back(data, pos, strings.len() as i32);
    let item = table_slot_reader(data, version);
    assert forall|i: int, at: int|
        0 <= i < strings.len() && #[trigger] stands_at(data, at, one(strings[i])) implies item(at)
        == Ok::<(LocalizedText, int), Error>((value(strings[i]), at + one(strings[i]).len())) by {
        lemma_read_slot_back(data, at, strings[i], version);
    }
    lemma_repeat_back(item, one, value, strings, data, pos + 4);
}

/// An entry that stands at `pos` is read there.
pub proof fn lemma_read_entry_back(
    data: Seq<u8>,
    pos: int,
    entry: EntryRecord,
    version: Version,
    table: Seq<LocalizedText>,
)
    requires
        entry_fits(entry, version, table.len()),
        stands_at(data, pos, layout_entry(entry, version)),
    ensures
        spec_read_member(data, pos, version, table) == Ok::<((Seq<char>, Member), int), Error>(
            (entry_contents(entry, version, table), pos + layout_entry(entry, version).len()),
        ),
{
    reveal(spec_read_member);
    let key_hash = layout_optional_u32(entry.key_hash, version.ordinal() >= 2);
    let key = layout_string(entry.key);
    let source_hash = layout_u32(entry.source_hash);
    let value = if version.ordinal() >= 1 {
        layout_i32(entry.index)
    } else {
        layout_string(entry.value)
    };
    lemma_stands_apart(data, pos, key_hash, key + (source_hash + value));
    lemma_read_optional_u32_back(data, pos, entry.key_hash, version.ordinal() >= 2);
    let at_key = pos + key_hash.len();
    lemma_stands_apart(data, at_key, key, source_hash + value);
    lemma_read_string_back(data, at_key, entry.key);
    let at_hash = at_key + key.len();
    lemma_stands_apart(data, at_hash, source_hash, value);
    lemma_read_u32_back(data, at_hash, entry.source_hash);
    let at_value = at_hash + 4;
    if version.ordinal() >= 1 {
        lemma_read_i32_back(data, at_value, entry.index);
    } else {
        lemma_read_string_back(data, at_value, entry.value);
    }
}

/// An entry that dangles where it stands fails with
/// [`Error::InvalidLocalizedStringIndex`] and its index.
pub proof fn lemma_read_entry_fails(
    data: Seq<u8>,
    pos: int,
    entry: EntryRecord,
    version: Version,
    table: Seq<LocalizedText>,
)
    requires
        entry_dangles(entry, version, table.len()),
        stands_at(data, pos, layout_entry(entry, version)),
    ensures
        spec_read_member(data, pos, version, table) == Err::<((Seq<char>, Member), int), Error>(
            Error::InvalidLocalizedStringIndex(spec_index_as_usize(entry.index)),
        ),
{
    reveal(spec_read_member);
    let key_hash = layout_optional_u32(entry.key_hash, version.ordinal() >= 2);
    let key = layout_string(entry.key);
    let source_hash = layout_u32(entry.source_hash);
    let value = layout_i32(entry.index);
    lemma_stands_apart(data, pos, key_hash, key + (source_hash + value));
    lemma_read_optional_u32_back(data, pos, entry.key_hash, version.ordinal() >= 2);
    let at_key = pos + key_hash.len();
    lemma_stands_apart(data, at_key, key, source_hash + value);
    lemma_read_string_back(data, at_key, entry.key);
    let at_hash = at_key + key.len();
    lemma_stands_apart(data, at_hash, source_hash, value);
    lemma_read_u32_back(data, at_hash, entry.source_hash);
    lemma_read_i32_back(data, at_hash + 4, entry.index);
}

/// Entries that stand one after the other at `pos` are read there as a
/// run.
pub proof fn lemma_read_entries_back(
    data: Seq<u8>,
    pos: int,
    entries: Seq<EntryRecord>,
    version: Version,
    table: Seq<LocalizedText>,
)
    requires
        forall|i: int|
            0 <= i < entries.len() ==> entry_fits(#[trigger] entries[i], version, table.len()),
        stands_at(data, pos, layout_each(entries, entry_layout(version))),
    ensures
        spec_repeat(member_reader(data, version, table), pos, entries.len()) == Ok::<
            (Seq<(Seq<char>, Member)>, int),
            Error,
        >(
            (
                entries.map_values(entry_value(version, table)),
                pos + layout_each(entries, entry_layout(version)).len(),
            ),
        ),
{
    let item = member_reader(data, version, table);
    let one = entry_layout(version);
    let value = entry_value(version, table);
    assert forall|i: int, at: int|
        0 <= i < entries.len() && #[trigger] stands_at(data, at, one(entries[i])) implies item(at)
        == Ok::<((Seq<char>, Member), int), Error>(
        (value(entries[i]), at + one(entries[i]).len()),
    ) by {
        lemma_read_entry_back(data, at, entries[i], version, table);
    }
    lemma_repeat_back(item, one, value, entries, data, pos);
}

/// Entries that stand one after the other at `pos` fail there as a run with
/// the index of the first of them that dangles, where those before it can
/// be written.
pub proof fn lemma_read_entries_fail(
    data: Seq<u8>,
    pos: int,
    entries: Seq<EntryRecord>,
    version: Version,
    table: Seq<LocalizedText>,
    first: int,
)
    requires
        0 <= first < entries.len(),
        forall|i: int| 0 <= i < first ==> entry_fits(#[trigger] entries[i], version, table.len()),
        entry_dangles(entries[first], version, table.len()),
        stands_at(data, pos, layout_each(entries, entry_layout(version))),
    ensures
        spec_repeat(member_reader(data, version, table), pos, entries.len()) == Err::<
            (Seq<(Seq<char>, Member)>, int),
            Error,
        >(Error::InvalidLocalizedStringIndex(spec_index_as_usize(entries[first].index))),
{
    let item = member_reader(data, version, table);
    let one = entry_layout(version);
    let value = entry_value(version, table);
    let error = Error::InvalidLocalizedStringIndex(spec_index_as_usize(entries[first].index));
    assert forall|i: int, at: int|
        0 <= i < first && #[trigger] stands_at(data, at, one(entries[i])) implies item(at) == Ok::<
        ((Seq<char>, Member), int),
        Error,
    >((value(entries[i]), at + one(entries[i]).len())) by {
        lemma_read_entry_back(data, at, entries[i], version, table);
    }
    assert forall|at: int| #[trigger] stands_at(data, at, one(entries[first])) implies item(at)
        == Err::<((Seq<char>, Member), int), Error>(error) by {
        lemma_read_entry_fails(data, at, entries[first], version, table);
    }
    lemma_repeat_fails(item, one, value, entries, data, pos, first, error);
}

/// A namespace that stands at `pos` is read there.
pub proof fn lemma_read_namespace_back(
    data: Seq<u8>,
    pos: int,
    namespace: NamespaceRecord,
    version: Version,
    table: Seq<LocalizedText>,
)
    requires
        namespace_fits(namespace, version, table.len()),
        stands_at(data, pos, layout_namespace(namespace, version)),
    ensures
        spec_read_one(data, pos, version, table) == Ok::<((Seq<char>, NamespaceView), int), Error>(
            (
                namespace_contents(namespace, version, table),
                pos + layout_namespace(namespace, version).len(),
            ),
        ),
{
    reveal(spec_read_one);
    let key_hash = layout_optional_i32(namespace.key_hash, version.ordinal() >= 2);
    let name = layout_string(namespace.name);
    let count = layout_u32(namespace.entries.len() as u32);
    let entries = layout_each(namespace.entries, entry_layout(version));
    lemma_stands_apart(data, pos, key_hash, name + (count + entries));
    lemma_read_optional_i32_back(data, pos, namespace.key_hash, version.ordinal() >= 2);
    let at_name = pos + key_hash.len();
    lemma_stands_apart(data, at_name, name, count + entries);
    lemma_read_string_back(data, at_name, namespace.name);
    let at_count = at_name + name.len();
    lemma_stands_apart(data, at_count, count, entries);
    lemma_read_u32_back(data, at_count, namespace.entries.len() as u32);
    lemma_read_entries_back(data, at_count + 4, namespace.entries, version, table);
}

/// A namespace with an entry that dangles fails where it stands with
/// [`Error::InvalidLocalizedStringIndex`] and the index of the first such
/// entry.
pub proof fn lemma_read_namespace_fails(
    data: Seq<u8>,
    pos: int,
    namespace: NamespaceRecord,
    version: Version,
    table: Seq<LocalizedText>,
    at: int,
)
    requires
        namespace_dangles(namespace, version, table.len(), at),
        stands_at(data, pos, layout_namespace(namespace, version)),
    ensures
        spec_read_one(data, pos, version, table) == Err::<
            ((Seq<char>, NamespaceView), int),
            Error,
        >(Error::InvalidLocalizedStringIndex(spec_index_as_usize(namespace.entries[at].index))),
{
    reveal(spec_read_one);
    let key_hash = layout_optional_i32(namespace.key_hash, version.ordinal() >= 2);
    let name = layout_string(namespace.name);
    let count = layout_u32(namespace.entries.len() as u32);
    let entries = layout_each(namespace.entries, entry_layout(version));
    lemma_stands_apart(data, pos, key_hash, name + (count + entries));
    lemma_read_optional_i32_back(data, pos, namespace.key_hash, version.ordinal() >= 2);
    let at_name = pos + key_hash.len();
    lemma_stands_apart(data, at_name, name, count + entries);
    lemma_read_string_back(data, at_name, namespace.name);
    let at_count = at_name + name.len();
    lemma_stands_apart(data, at_count, count, entries);
    lemma_read_u32_back(data, at_count, namespace.entries.len() as u32);
    lemma_read_entries_fail(data, at_count + 4, namespace.entries, version, table, at);
}

/// Namespaces that stand one after the other at `pos` are read there as a
/// run.
pub proof fn lemma_read_each_namespace_back(
    data: Seq<u8>,
    pos: int,
    namespaces: Seq<NamespaceRecord>,
    version: Version,
    table: Seq<LocalizedText>,
)
    requires
        forall|i: int|
            0 <= i < namespaces.len() ==> namespace_fits(
                #[trigger] namespaces[i],
                version,
                table.len(),
            ),
        stands_at(data, pos, layout_each(namespaces, namespace_layout(version))),
    ensures
        spec_repeat(namespace_reader(data, version, table), pos, namespaces.len()) == Ok::<
            (Seq<(Seq<char>, NamespaceView)>, int),
            Error,
        >(
            (
                namespaces.map_values(namespace_value(version, table)),
                pos + layout_each(namespaces, namespace_layout(version)).len(),
            ),
        ),
{
    let item = namespace_reader(data, version, table);
    let one = namespace_layout(version);
    let value = namespace_value(version, table);
    assert forall|i: int, at: int|
        0 <= i < namespaces.len() && #[trigger] stands_at(
            data,
            at,
            one(namespaces[i]),
        ) implies item(at) == Ok::<((Seq<char>, NamespaceView), int), Error>(
        (value(namespaces[i]), at + one(namespaces[i]).len()),
    ) by {
        lemma_read_namespace_back(data, at, namespaces[i], version, table);
    }
    lemma_repeat_back(item, one, value, namespaces, data, pos);
}

/// Namespaces that stand one after the other at `pos` fail there as a run
/// with the index of the first entry that dangles, where all before it can
/// be written: the entry `entry` of the namespace `namespace`.
pub proof fn lemma_read_each_namespace_fails(
    data: Seq<u8>,
    pos: int,
    namespaces: Seq<NamespaceRecord>,
    version: Version,
    table: Seq<LocalizedText>,
    namespace: int,
    entry: int,
)
    requires
        0 <= namespace < namespaces.len(),
        forall|i: int|
            0 <= i < namespace ==> namespace_fits(#[trigger] namespaces[i], version, table.len()),
        namespace_dangles(namespaces[namespace], version, table.len(), entry),
        stands_at(data, pos, layout_each(namespaces, namespace_layout(version))),
    ensures
        spec_repeat(namespace_reader(data, version, table), pos, namespaces.len()) == Err::<
            (Seq<(Seq<char>, NamespaceView)>, int),
            Error,
        >(
            Error::InvalidLocalizedStringIndex(
                spec_index_as_usize(namespaces[namespace].entries[entry].index),
            ),
        ),
{
    let item = namespace_reader(data, version, table);
    let one = namespace_layout(version);
    let value = namespace_value(version, table);
    let error = Error::InvalidLocalizedStringIndex(
        spec_index_as_usize(namespaces[namespace].entries[entry].index),
    );
    assert forall|i: int, at: int|
        0 <= i < namespace && #[trigger] stands_at(data, at, one(namespaces[i])) implies item(at)
        == Ok::<((Seq<char>, NamespaceView), int), Error>(
        (value(namespaces[i]), at + one(namespaces[i]).len()),
    ) by {
        lemma_read_namespace_back(data, at, namespaces[i], version, table);
    }
    assert forall|at: int| #[trigger]
        stands_at(data, at, one(namespaces[namespace])) implies item(at) == Err::<
        ((Seq<char>, NamespaceView), int),
        Error,
    >(error) by {
        lemma_read_namespace_fails(data, at, namespaces[namespace], version, table, entry);
    }
    lemma_repeat_fails(item, one, value, namespaces, data, pos, namespace, error);
}

/// A namespace section that stands at `pos` is read there.
pub proof fn lemma_read_namespaces_back(
    data: Seq<u8>,
    pos: int,
    namespaces: Seq<NamespaceRecord>,
    version: Version,
    table: Seq<LocalizedText>,
)
    requires
        namespaces.len() <= u32::MAX,
        forall|i: int|
            0 <= i < namespaces.len() ==> namespace_fits(
                #[trigger] namespaces[i],
                version,
                table.len(),
            ),
        stands_at(data, pos, layout_namespaces(namespaces, version)),
    ensures
        spec_read_all(data, pos, version, table) == Ok::<
            (Map<Seq<char>, NamespaceView>, int),
            Error,
        >(
            (
                spec_collect(namespaces.map_values(namespace_value(version, table))),
                pos + layout_namespaces(namespaces, version).len(),
            ),
        ),
{
    let count = layout_u32(namespaces.len() as u32);
    lemma_stands_apart(data, pos, count, layout_each(namespaces, namespace_layout(version)));
    lemma_read_u32_back(data, pos, namespaces.len() as u32);
    lemma_read_each_namespace_back(data, pos + 4, namespaces, version, table);
}

/// A namespace section with an entry that dangles fails where it stands
/// with [`Error::InvalidLocalizedStringIndex`] and the index of the first
/// such entry: the entry `entry` of the namespace `namespace`.
pub proof fn lemma_read_namespaces_fail(
    data: Seq<u8>,
    pos: int,
    namespaces: Seq<NamespaceRecord>,
    version: Version,
    table: Seq<LocalizedText>,
    namespace: int,
    entry: int,
)
    requires
        namespaces.len() <= u32::MAX,
        0 <= namespace < namespaces.len(),
        forall|i: int|
            0 <= i < namespace ==> namespace_fits(#[trigger] namespaces[i], version, table.len()),
        namespace_dangles(namespaces[namespace], version, table.len(), entry),
        stands_at(data, pos, layout_namespaces(namespaces, version)),
    ensures
        spec_read_all(data, pos, version, table) == Err::<
            (Map<Seq<char>, NamespaceView>, int),
            Error,
        >(
            Error::InvalidLocalizedStringIndex(
                spec_index_as_usize(namespaces[namespace].entries[entry].index),
            ),
        ),
{
    let count = layout_u32(namespaces.len() as u32);
    lemma_stands_apart(data, pos, count, layout_each(namespaces, namespace_layout(version)));
    lemma_read_u32_back(data, pos, namespaces.len() as u32);
    lemma_read_each_namespace_fails(data, pos + 4, namespaces, version, table, namespace, entry);
}

/// In the layout of a resource whose string table can be written, the
/// version, the string table and the declared number of entries are read
/// back, and the namespace section stands where the cursor is then.
pub proof fn lemma_read_front_back(resource: Resource)
    requires
        table_fits(resource),
    ensures
        ({
            let data = layout(resource);
            let version = resource.version;
            let at_namespaces = front_end(resource) - layout_namespaces(
                resource.namespaces,
                version,
            ).len();
            &&& spec_read_version(data, 0) == Ok::<(Version, int), Error>((version, 17))
            &&& spec_read_localization_strings(data, 17, version) matches Ok((table, at_declared))
                && table == table_contents(resource) && spec_read_optional_u32(
                data,
                at_declared,
                version.ordinal() >= 2,
            ) == Ok::<(Option<u32>, int), Error>((contents(resource).entries_count, at_namespaces))
            &&& stands_at(data, at_namespaces, layout_namespaces(resource.namespaces, version))
        }),
{
    reveal(layout);
    let data = layout(resource);
    let version = resource.version;
    let table_at = front_end(resource) as u64;
    let tag = seq![version.ordinal()];
    let offset = if version.ordinal() >= 1 {
        layout_u64(table_at)
    } else {
        Seq::empty()
    };
    let declared = layout_optional_u32(resource.entries_count, version.ordinal() >= 2);
    let namespaces = layout_namespaces(resource.namespaces, version);
    let front = layout_front(resource, table_at);
    let table = if version.ordinal() >= 1 {
        layout_table(resource.strings, version)
    } else {
        Seq::empty()
    };
    lemma_u64_back(table_at);
    lemma_u64_back(0);
    assert(front.len() == layout_front(resource, 0).len());

    assert(stands_at(data, 0, data)) by {
        reveal(stands_at);
        assert(data.subrange(0, data.len() as int) =~= data);
    }
    lemma_stands_apart(data, 0, MAGIC@, tag + (front + table));
    lemma_stands_apart(data, 16, tag, front + table);
    assert(spec_read_version(data, 0) == Ok::<(Version, int), Error>((version, 17))) by {
        reveal(stands_at);
        assert(data.subrange(16, 17)[0] == version.ordinal());
    }

    lemma_stands_apart(data, 17, front, table);
    lemma_stands_apart(data, 17, offset, declared + namespaces);
    let at_declared: int = 17 + offset.len() as int;
    if version.ordinal() >= 1 {
        lemma_read_u64_back(data, 17, table_at);
        lemma_read_table_back(data, table_at as int, resource.strings, version);
    }
    assert(spec_read_localization_strings(data, 17, version) == Ok::<
        (Seq<LocalizedText>, int),
        Error,
    >((table_contents(resource), at_declared)));

    lemma_stands_apart(data, at_declared, declared, namespaces);
    lemma_read_optional_u32_back(
        data,
        at_declared,
        resource.entries_count,
        version.ordinal() >= 2,
    );
}

/// Decoding the layout of a resource that can be written gives what the
/// resource is read as, whatever its version: the version, the string
/// table, the declared number of entries, and under each name and key the
/// value that was written there, which from [`Version::Compact`] on is the
/// slot of the string table at the entry's index. The cursor ends after the
/// namespace section.
pub proof fn lemma_decoding_reads_back(resource: Resource)
    requires
        resource_fits(resource),
    ensures
        spec_from_reader(layout(resource), 0) == Ok::<(LocalizationView, int), Error>(
            (contents(resource), front_end(resource)),
        ),
{
    lemma_read_front_back(resource);
    lemma_read_namespaces_back(
        layout(resource),
        front_end(resource) - layout_namespaces(resource.namespaces, resource.version).len(),
        resource.namespaces,
        resource.version,
        table_contents(resource),
    );
}

/// Decoding the layout of a resource fails with
/// [`Error::InvalidLocalizedStringIndex`] where an entry holds an index that
/// the string table does not have, the index one past its end among them,
/// and all that stands before the entry can be written. The error holds the
/// index of the first such entry: the entry `entry` of the namespace
/// `namespace`.
pub proof fn lemma_dangling_index_fails_the_decode(
    resource: Resource,
    namespace: int,
    entry: int,
)
    requires
        table_fits(resource),
        resource.namespaces.len() <= u32::MAX,
        0 <= namespace < resource.namespaces.len(),
        forall|i: int|
            0 <= i < namespace ==> namespace_fits(
                #[trigger] resource.namespaces[i],
                resource.version,
                table_contents(resource).len(),
            ),
        namespace_dangles(
            resource.namespaces[namespace],
            resource.version,
            table_contents(resource).len(),
            entry,
        ),
    ensures
        spec_from_reader(layout(resource), 0) == Err::<(LocalizationView, int), Error>(
            Error::InvalidLocalizedStringIndex(
                spec_index_as_usize(resource.namespaces[namespace].entries[entry].index),
            ),
        ),
{
    lemma_read_front_back(resource);
    lemma_read_namespaces_fail(
        layout(resource),
        front_end(resource) - layout_namespaces(resource.namespaces, resource.version).len(),
        resource.namespaces,
        resource.version,
        table_contents(resource),
        namespace,
        entry,
    );
}

/// Decoding the namespace section of a legacy resource that can be written,
/// laid out without a header, gives what the resource is read as, where the
/// section is long enough for the version to be detected and does not start
/// with the magic signature.
pub proof fn lemma_decoding_reads_back_without_header(resource: Resource)
    requires
        resource_fits(resource),
        resource.version == Version::Legacy,
        layout_namespaces(resource.namespaces, Version::Legacy).len() >= 16,
        layout_namespaces(resource.namespaces, Version::Legacy).subrange(0, 16) != MAGIC@,
    ensures
        spec_from_reader(layout_namespaces(resource.namespaces, Version::Legacy), 0) == Ok::<
            (LocalizationView, int),
            Error,
        >(
            (
                contents(resource),
                layout_namespaces(resource.namespaces, Version::Legacy).len() as int,
            ),
        ),
{
    let data = layout_namespaces(resource.namespaces, Version::Legacy);
    assert(stands_at(data, 0, data)) by {
        reveal(stands_at);
        assert(data.subrange(0, data.len() as int) =~= data);
    }
    lemma_read_namespaces_back(
        data,
        0,
        resource.namespaces,
        Version::Legacy,
        table_contents(resource),
    );
}

} // verus!
