//! The decoded resource and the entry point of the decoder.

use vstd::prelude::*;

use crate::bytes::{read_bytes, read_u32_le, spec_read_u32_le};
use crate::error::Error;
use crate::namespace::{
    lemma_namespace_values_are_table_slots, namespace_reader, read_all, spec_read_all,
    spec_read_optional_u32, Namespace, NamespaceView,
};
use crate::repeat::{
    comes_from, lemma_collect_from_pairs, lemma_repeat_items, spec_collect, spec_repeat, yields,
};
use crate::reader::{reads, spec_take, Reader};
use crate::string_map::StringMap;
use crate::strings::{
    read_localization_strings, spec_read_localization_strings, LocalizedString, LocalizedText,
};
use crate::version::{spec_version_from_byte, Version};

verus! {

/// The signature that opens every resource but a legacy one.
pub const MAGIC: [u8; 16] = [
    0x0E,
    0x14,
    0x74,
    0x75,
    0x67,
    0x4A,
    0x03,
    0xFC,
    0x4A,
    0x15,
    0x90,
    0x9D,
    0xC3,
    0x37,
    0x7F,
    0x1B,
];

/// A decoded resource.
pub struct Localization {
    pub version: Version,
    /// The string table; empty before [`Version::Compact`].
    pub strings: Vec<LocalizedString>,
    pub namespaces: StringMap<Namespace>,
    /// The number of entries that the resource declares, from
    /// [`Version::Optimized`] on. It is not held against the entries read.
    pub entries_count: Option<u32>,
}

/// What a [`Localization`] holds, as plain values.
pub struct LocalizationView {
    pub version: Version,
    pub strings: Seq<LocalizedText>,
    pub namespaces: Map<Seq<char>, NamespaceView>,
    pub entries_count: Option<u32>,
}

impl View for Localization {
    type V = LocalizationView;

    open spec fn view(&self) -> LocalizationView {
        LocalizationView {
            version: self.version,
            strings: self.strings.deep_view(),
            namespaces: self.namespaces.deep_view(),
            entries_count: self.entries_count,
        }
    }
}

/// What detecting the version at `pos` gives. Sixteen bytes are read. Where
/// they are the magic signature, the next byte names the version and the
/// cursor ends after it. Where they are not, the resource is a legacy one
/// and the cursor goes back to the start of the bytes.
pub open spec fn spec_read_version(data: Seq<u8>, pos: int) -> Result<(Version, int), Error> {
    match spec_take(data, pos, 16) {
        Err(e) => Err(e),
        Ok((head, at_tag)) => if head == MAGIC@ {
            match spec_take(data, at_tag, 1) {
                Err(e) => Err(e),
                Ok((tag, end)) => match spec_version_from_byte(tag[0]) {
                    Err(e) => Err(e),
                    Ok(version) => Ok((version, end)),
                },
            }
        } else {
            Ok((Version::Legacy, 0))
        },
    }
}

/// What reading a resource of a known version gives, with the cursor at
/// `pos`, after the header: the string table, from [`Version::Optimized`] on
/// the declared number of entries, and the namespaces.
pub open spec fn spec_read_body(data: Seq<u8>, pos: int, version: Version) -> Result<
    (LocalizationView, int),
    Error,
> {
    match spec_read_localization_strings(data, pos, version) {
        Err(e) => Err(e),
        Ok((strings, at_count)) => match spec_read_optional_u32(
            data,
            at_count,
            version.ordinal() >= 2,
        ) {
            Err(e) => Err(e),
            Ok((entries_count, at_namespaces)) => match spec_read_all(
                data,
                at_namespaces,
                version,
                strings,
            ) {
                Err(e) => Err(e),
                Ok((namespaces, end)) => Ok(
                    (LocalizationView { version, strings, namespaces, entries_count }, end),
                ),
            },
        },
    }
}

/// What decoding a resource gives, with the cursor at `pos`: the resource
/// and the position after its namespace section, or the first error met.
pub open spec fn spec_from_reader(data: Seq<u8>, pos: int) -> Result<
    (LocalizationView, int),
    Error,
> {
    match spec_read_version(data, pos) {
        Err(e) => Err(e),
        Ok((version, start)) => spec_read_body(data, start, version),
    }
}

/// Sixteen bytes that are not the magic signature, however little they differ
/// from it, open a legacy resource: none of them is consumed, and the
/// resource is read from the start of the bytes.
pub proof fn lemma_without_magic_is_legacy(data: Seq<u8>, pos: int)
    requires
        0 <= pos,
        pos + 16 <= data.len(),
        data.subrange(pos, pos + 16) != MAGIC@,
    ensures
        spec_read_version(data, pos) == Ok::<(Version, int), Error>((Version::Legacy, 0)),
        spec_from_reader(data, pos) == spec_read_body(data, 0, Version::Legacy),
{
}

/// After the magic signature the next byte decides the version: a byte up
/// to 3 is the version of every resource that is decoded from there, and any
/// other byte fails the decode with [`Error::InvalidVersion`].
pub proof fn lemma_version_is_the_tagged_one(data: Seq<u8>, pos: int)
    requires
        0 <= pos,
        pos + 17 <= data.len(),
        data.subrange(pos, pos + 16) == MAGIC@,
    ensures
        data[pos + 16] <= 3 ==> (spec_read_version(data, pos) matches Ok((version, start))
            && version.ordinal() == data[pos + 16] && start == pos + 17),
        data[pos + 16] <= 3 ==> (spec_from_reader(data, pos) matches Ok((localization, _))
            ==> localization.version.ordinal() == data[pos + 16]),
        data[pos + 16] > 3 ==> spec_from_reader(data, pos) == Err::<(LocalizationView, int), Error>(
            Error::InvalidVersion(data[pos + 16]),
        ),
{
    assert(data.subrange(pos + 16, pos + 17)[0] == data[pos + 16]);
}

/// In a decoded resource with a string table, the value of every entry is a
/// slot of the table.
pub proof fn lemma_values_are_table_slots(
    data: Seq<u8>,
    pos: int,
    namespace: Seq<char>,
    key: Seq<char>,
)
    requires
        spec_from_reader(data, pos) matches Ok((localization, _)) && localization.version.ordinal()
            >= 1 && localization.namespaces.contains_key(namespace)
            && localization.namespaces[namespace].members.contains_key(key),
    ensures
        spec_from_reader(data, pos) matches Ok((localization, _)) && localization.strings.contains(
            localization.namespaces[namespace].members[key].value,
        ),
{
    let (version, start) = spec_read_version(data, pos)->Ok_0;
    let (strings, at_count) = spec_read_localization_strings(data, start, version)->Ok_0;
    let at_namespaces = spec_read_optional_u32(data, at_count, version.ordinal() >= 2)->Ok_0.1;
    let (count, first) = spec_read_u32_le(data, at_namespaces)->Ok_0;
    let item = namespace_reader(data, version, strings);
    let (pairs, end) = spec_repeat(item, first, count as nat)->Ok_0;
    lemma_collect_from_pairs(pairs, namespace);
    let i = choose|i: int|
        0 <= i < pairs.len() && #[trigger] pairs[i] == (namespace, spec_collect(pairs)[namespace]);
    lemma_repeat_items(item, first, count as nat, pairs, end);
    assert(comes_from(item, pairs[i]));
    let at = choose|at: int| #[trigger] yields(item, at, pairs[i]);
    lemma_namespace_values_are_table_slots(data, at, version, strings, key);
}

/// Whether `head` is the magic signature.
fn is_magic(head: &[u8; 16]) -> (same: bool)
    ensures
        same == (head@ == MAGIC@),
{
    let mut i: usize = 0;
    while i < 16
        invariant
            i <= 16,
            forall|j: int| 0 <= j < i ==> head@[j] == MAGIC@[j],
        decreases 16 - i,
    {
        if head[i] != MAGIC[i] {
            return false;
        }
        i = i + 1;
    }
    assert(head@ =~= MAGIC@);
    true
}

/// Detects the version of a resource. Where no magic signature stands at
/// the cursor, the resource is a legacy one and the cursor is rewound.
pub fn read_version(reader: &mut Reader) -> (res: Result<Version, Error>)
    ensures
        final(reader).data@ == old(reader).data@,
        reads(res, final(reader).pos, spec_read_version(old(reader).data@, old(reader).pos as int)),
{
    let head = read_bytes::<16>(reader)?;
    if is_magic(&head) {
        let tag = read_bytes::<1>(reader)?;
        let version = Version::try_from(tag[0])?;
        Ok(version)
    } else {
        reader.rewind();
        Ok(Version::Legacy)
    }
}

impl Localization {
    /// Decodes a resource from `reader`. On success the cursor stands after
    /// the namespace section. Nothing is returned of a resource that fails
    /// to decode.
    pub fn from_reader(reader: &mut Reader) -> (res: Result<Self, Error>)
        ensures
            final(reader).data@ == old(reader).data@,
            reads(
                res,
                final(reader).pos,
                spec_from_reader(old(reader).data@, old(reader).pos as int),
            ),
    {
        let version = read_version(reader)?;
        let strings = read_localization_strings(reader, version)?;
        let entries_count = if version >= Version::Optimized {
            Some(read_u32_le(reader)?)
        } else {
            None
        };
        let table = strings.as_slice();
        assert(table.deep_view() =~= strings.deep_view());
        let namespaces = read_all(reader, table, version)?;
        Ok(Localization { version, strings, namespaces, entries_count })
    }

    /// The string under `key` in the namespace named `namespace`, if the
    /// resource has both.
    pub fn get_namespaced_string(&self, namespace: &str, key: &str) -> (value: Option<
        &LocalizedString,
    >)
        ensures
            match value {
                Some(v) => self@.namespaces.contains_key(namespace@)
                    && self@.namespaces[namespace@].members.contains_key(key@) && v@
                    == self@.namespaces[namespace@].members[key@].value,
                None => !(self@.namespaces.contains_key(namespace@)
                    && self@.namespaces[namespace@].members.contains_key(key@)),
            },
    {
        match self.namespaces.get(namespace) {
            Some(found) => found.get(key),
            None => None,
        }
    }
}

} // verus!
