//! Namespaces: named groups of keyed entries.

use vstd::prelude::*;

use crate::bytes::{
    read_i32_le, read_string, read_u32_le, spec_read_i32_le, spec_read_string, spec_read_u32_le,
};
use crate::error::Error;
use crate::reader::{reads, reads_all, Reader};
use crate::repeat::{
    comes_from, lemma_collect_from_pairs, lemma_collect_push, lemma_repeat_error_stays,
    lemma_repeat_items, spec_collect, spec_repeat, yields,
};
use crate::string_map::StringMap;
use crate::strings::{LocalizedString, LocalizedText};
use crate::version::Version;

verus! {

/// A named group of entries. Each entry stands under its key and holds its
/// value, the hash of its key where the format records one, and the hash of
/// its source text, in that order.
pub struct Namespace {
    pub key_hash: Option<i32>,
    pub members: StringMap<(LocalizedString, Option<u32>, u32)>,
}

/// What an entry of a namespace holds, as plain values.
pub struct Member {
    pub value: LocalizedText,
    pub key_hash: Option<u32>,
    pub source_hash: u32,
}

/// What a [`Namespace`] holds, as plain values.
pub struct NamespaceView {
    pub key_hash: Option<i32>,
    pub members: Map<Seq<char>, Member>,
}

/// The plain values of a stored entry.
pub open spec fn member_view(member: (LocalizedString, Option<u32>, u32)) -> Member {
    Member { value: member.0@, key_hash: member.1, source_hash: member.2 }
}

impl View for Namespace {
    type V = NamespaceView;

    open spec fn view(&self) -> NamespaceView {
        NamespaceView {
            key_hash: self.key_hash,
            members: self.members@.map_values(
                |member: (LocalizedString, Option<u32>, u32)| member_view(member),
            ),
        }
    }
}

impl DeepView for Namespace {
    type V = NamespaceView;

    open spec fn deep_view(&self) -> NamespaceView {
        self@
    }
}

impl Namespace {
    /// A namespace without a key hash and without entries.
    pub fn new() -> (namespace: Self)
        ensures
            namespace@ == (NamespaceView { key_hash: None, members: Map::empty() }),
    {
        let namespace = Namespace { key_hash: None, members: StringMap::new() };
        assert(namespace@.members =~= Map::<Seq<char>, Member>::empty());
        namespace
    }

    /// Puts an entry under `key`, in place of the entry that stood there.
    pub fn add(
        &mut self,
        key: String,
        key_hash: Option<u32>,
        source_hash: u32,
        localized: LocalizedString,
    )
        ensures
            final(self)@ == (NamespaceView {
                key_hash: old(self)@.key_hash,
                members: old(self)@.members.insert(
                    key@,
                    Member { value: localized@, key_hash, source_hash },
                ),
            }),
    {
        self.members.insert(key, (localized, key_hash, source_hash));
        assert(self@.members =~= old(self)@.members.insert(
            key@,
            Member { value: localized@, key_hash, source_hash },
        ));
    }

    /// The value of the entry under `key`, if there is one.
    pub fn get(&self, key: &str) -> (value: Option<&LocalizedString>)
        ensures
            match value {
                Some(v) => self@.members.contains_key(key@) && v@ == self@.members[key@].value,
                None => !self@.members.contains_key(key@),
            },
    {
        match self.members.get(key) {
            Some(member) => Some(&member.0),
            None => None,
        }
    }

    /// Every key of the namespace with the value of its entry, each key
    /// once, in the order in which the keys first came in.
    pub fn for_each(&self) -> (pairs: Vec<(&String, &LocalizedString)>)
        ensures
            pairs.len() == self.members.keys().len(),
            forall|i: int|
                0 <= i < pairs.len() ==> (#[trigger] pairs[i]).0@ == self.members.keys()[i],
            forall|i: int|
                0 <= i < pairs.len() ==> self@.members.contains_key(#[trigger] pairs[i].0@)
                    && self@.members[pairs[i].0@].value == pairs[i].1@,
            forall|k: Seq<char>| #[trigger]
                self@.members.contains_key(k) ==> exists|i: int|
                    0 <= i < pairs.len() && #[trigger] pairs[i].0@ == k,
            forall|i: int, j: int|
                0 <= i < j < pairs.len() ==> #[trigger] pairs[i].0@ != #[trigger] pairs[j].0@,
    {
        let stored = self.members.pairs();
        let mut pairs: Vec<(&String, &LocalizedString)> = Vec::new();
        let mut i: usize = 0;
        while i < stored.len()
            invariant
                i <= stored.len(),
                pairs.len() == i,
                forall|j: int|
                    0 <= j < i ==> (#[trigger] pairs[j]).0@ == stored[j].0@ && pairs[j].1@
                        == stored[j].1.0@,
            decreases stored.len() - i,
        {
            pairs.push((&stored[i].0, &stored[i].1.0));
            i = i + 1;
        }
        assert forall|k: Seq<char>| #[trigger] self@.members.contains_key(k) implies exists|i: int|
            0 <= i < pairs.len() && #[trigger] pairs[i].0@ == k by {
            let at = choose|at: int| 0 <= at < stored.len() && #[trigger] stored[at].0@ == k;
            assert(pairs[at].0@ == k);
        }
        pairs
    }
}

/// The index that an entry names, as the unsigned number it is looked up by:
/// a negative index wraps round.
pub open spec fn spec_index_as_usize(index: i32) -> usize {
    if index >= 0 {
        index as usize
    } else {
        (usize::MAX + 1 + index) as usize
    }
}

/// The slot of `table` at `index`, or
/// [`Error::InvalidLocalizedStringIndex`] where the table has no such slot.
pub open spec fn spec_resolve(table: Seq<LocalizedText>, index: i32) -> Result<
    LocalizedText,
    Error,
> {
    if 0 <= index < table.len() {
        Ok(table[index as int])
    } else {
        Err(Error::InvalidLocalizedStringIndex(spec_index_as_usize(index)))
    }
}

/// What reading the value of an entry at `pos` gives. From
/// [`Version::Compact`] on it is a signed index into `table`; before, it is
/// a string stored in place, without a reference count.
pub open spec fn spec_read_value(
    data: Seq<u8>,
    pos: int,
    version: Version,
    table: Seq<LocalizedText>,
) -> Result<(LocalizedText, int), Error> {
    if version.ordinal() >= 1 {
        match spec_read_i32_le(data, pos) {
            Err(e) => Err(e),
            Ok((index, next)) => match spec_resolve(table, index) {
                Err(e) => Err(e),
                Ok(value) => Ok((value, next)),
            },
        }
    } else {
        match spec_read_string(data, pos) {
            Err(e) => Err(e),
            Ok((text, next)) => Ok((LocalizedText { text, ref_count: None }, next)),
        }
    }
}

/// What reading a hash at `pos` gives that stands there only where
/// `present` holds.
pub open spec fn spec_read_optional_u32(data: Seq<u8>, pos: int, present: bool) -> Result<
    (Option<u32>, int),
    Error,
> {
    if present {
        match spec_read_u32_le(data, pos) {
            Err(e) => Err(e),
            Ok((hash, next)) => Ok((Some(hash), next)),
        }
    } else {
        Ok((None, pos))
    }
}

/// What reading a signed hash at `pos` gives that stands there only where
/// `present` holds.
pub open spec fn spec_read_optional_i32(data: Seq<u8>, pos: int, present: bool) -> Result<
    (Option<i32>, int),
    Error,
> {
    if present {
        match spec_read_i32_le(data, pos) {
            Err(e) => Err(e),
            Ok((hash, next)) => Ok((Some(hash), next)),
        }
    } else {
        Ok((None, pos))
    }
}

/// What reading one entry at `pos` gives, with its key: from
/// [`Version::Optimized`] on the hash of the key, then the key, the hash of
/// the source text, and the value.
#[verifier::opaque]
pub open spec fn spec_read_member(
    data: Seq<u8>,
    pos: int,
    version: Version,
    table: Seq<LocalizedText>,
) -> Result<((Seq<char>, Member), int), Error> {
    match spec_read_optional_u32(data, pos, version.ordinal() >= 2) {
        Err(e) => Err(e),
        Ok((key_hash, at_key)) => match spec_read_string(data, at_key) {
            Err(e) => Err(e),
            Ok((key, at_hash)) => match spec_read_u32_le(data, at_hash) {
                Err(e) => Err(e),
                Ok((source_hash, at_value)) => match spec_read_value(
                    data,
                    at_value,
                    version,
                    table,
                ) {
                    Err(e) => Err(e),
                    Ok((value, end)) => Ok(((key, Member { value, key_hash, source_hash }), end)),
                },
            },
        },
    }
}

/// [`spec_read_member`] on fixed bytes, version and table, by position.
pub open spec fn member_reader(
    data: Seq<u8>,
    version: Version,
    table: Seq<LocalizedText>,
) -> spec_fn(int) -> Result<((Seq<char>, Member), int), Error> {
    |pos: int| spec_read_member(data, pos, version, table)
}

/// What reading one namespace at `pos` gives, with its name: from
/// [`Version::Optimized`] on the hash of the name, then the name, an
/// unsigned count, and that many entries. Of two entries with one key the
/// later one stays.
#[verifier::opaque]
pub open spec fn spec_read_one(
    data: Seq<u8>,
    pos: int,
    version: Version,
    table: Seq<LocalizedText>,
) -> Result<((Seq<char>, NamespaceView), int), Error> {
    match spec_read_optional_i32(data, pos, version.ordinal() >= 2) {
        Err(e) => Err(e),
        Ok((key_hash, at_name)) => match spec_read_string(data, at_name) {
            Err(e) => Err(e),
            Ok((name, at_count)) => match spec_read_u32_le(data, at_count) {
                Err(e) => Err(e),
                Ok((count, first)) => match spec_repeat(
                    member_reader(data, version, table),
                    first,
                    count as nat,
                ) {
                    Err(e) => Err(e),
                    Ok((pairs, end)) => Ok(
                        ((name, NamespaceView { key_hash, members: spec_collect(pairs) }), end),
                    ),
                },
            },
        },
    }
}

/// [`spec_read_one`] on fixed bytes, version and table, by position.
pub open spec fn namespace_reader(
    data: Seq<u8>,
    version: Version,
    table: Seq<LocalizedText>,
) -> spec_fn(int) -> Result<((Seq<char>, NamespaceView), int), Error> {
    |pos: int| spec_read_one(data, pos, version, table)
}

/// What reading the namespace section at `pos` gives: an unsigned count,
/// then that many namespaces. Of two namespaces with one name the later one
/// stays.
pub open spec fn spec_read_all(
    data: Seq<u8>,
    pos: int,
    version: Version,
    table: Seq<LocalizedText>,
) -> Result<(Map<Seq<char>, NamespaceView>, int), Error> {
    match spec_read_u32_le(data, pos) {
        Err(e) => Err(e),
        Ok((count, first)) => match spec_repeat(
            namespace_reader(data, version, table),
            first,
            count as nat,
        ) {
            Err(e) => Err(e),
            Ok((pairs, end)) => Ok((spec_collect(pairs), end)),
        },
    }
}

/// In a resource with a string table, the value of an entry is the slot of
/// the table at the index that the entry holds.
pub proof fn lemma_value_is_indexed_slot(
    data: Seq<u8>,
    pos: int,
    version: Version,
    table: Seq<LocalizedText>,
)
    requires
        version.ordinal() >= 1,
        spec_read_value(data, pos, version, table) is Ok,
    ensures
        spec_read_i32_le(data, pos) matches Ok((index, next)) && 0 <= index < table.len()
            && spec_read_value(data, pos, version, table) == Ok::<(LocalizedText, int), Error>(
            (table[index as int], next),
        ),
{
}

/// In a resource with a string table, an entry whose index the table does
/// not have, the index one past its end among them, fails with
/// [`Error::InvalidLocalizedStringIndex`].
pub proof fn lemma_dangling_index_is_rejected(
    data: Seq<u8>,
    pos: int,
    version: Version,
    table: Seq<LocalizedText>,
    index: i32,
    next: int,
)
    requires
        version.ordinal() >= 1,
        spec_read_i32_le(data, pos) == Ok::<(i32, int), Error>((index, next)),
        index < 0 || index >= table.len(),
    ensures
        spec_read_value(data, pos, version, table) == Err::<(LocalizedText, int), Error>(
            Error::InvalidLocalizedStringIndex(spec_index_as_usize(index)),
        ),
{
}

/// In a resource with a string table, every value of a namespace is a slot
/// of the table.
pub proof fn lemma_namespace_values_are_table_slots(
    data: Seq<u8>,
    pos: int,
    version: Version,
    table: Seq<LocalizedText>,
    key: Seq<char>,
)
    requires
        version.ordinal() >= 1,
        spec_read_one(data, pos, version, table) matches Ok(((_, namespace), _))
            && namespace.members.contains_key(key),
    ensures
        spec_read_one(data, pos, version, table) matches Ok(((_, namespace), _)) && table.contains(
            namespace.members[key].value,
        ),
{
    reveal(spec_read_one);
    reveal(spec_read_member);
    let at_name = spec_read_optional_i32(data, pos, version.ordinal() >= 2)->Ok_0.1;
    let at_count = spec_read_string(data, at_name)->Ok_0.1;
    let (count, first) = spec_read_u32_le(data, at_count)->Ok_0;
    let item = member_reader(data, version, table);
    let (pairs, end) = spec_repeat(item, first, count as nat)->Ok_0;
    lemma_collect_from_pairs(pairs, key);
    let i = choose|i: int|
        0 <= i < pairs.len() && #[trigger] pairs[i] == (key, spec_collect(pairs)[key]);
    lemma_repeat_items(item, first, count as nat, pairs, end);
    assert(comes_from(item, pairs[i]));
    let at = choose|at: int| #[trigger] yields(item, at, pairs[i]);
    let at_value = spec_read_u32_le(
        data,
        spec_read_string(
            data,
            spec_read_optional_u32(data, at, version.ordinal() >= 2)->Ok_0.1,
        )->Ok_0.1,
    )->Ok_0.1;
    lemma_value_is_indexed_slot(data, at_value, version, table);
}

/// Copies the slot of the string table that an entry names.
fn resolve(localized: &[LocalizedString], index: i32) -> (res: Result<LocalizedString, Error>)
    ensures
        match res {
            Ok(value) => spec_resolve(localized.deep_view(), index) == Ok::<LocalizedText, Error>(
                value@,
            ),
            Err(e) => spec_resolve(localized.deep_view(), index) == Err::<LocalizedText, Error>(e),
        },
{
    if index < 0 {
        Err(Error::InvalidLocalizedStringIndex(usize::MAX - ((-(index + 1)) as usize)))
    } else if (index as usize) < localized.len() {
        Ok(localized[index as usize].clone())
    } else {
        Err(Error::InvalidLocalizedStringIndex(index as usize))
    }
}

/// Reads the value of an entry.
fn read_value(reader: &mut Reader, localized: &[LocalizedString], version: Version) -> (res:
    Result<LocalizedString, Error>)
    ensures
        final(reader).data@ == old(reader).data@,
        reads(
            res,
            final(reader).pos,
            spec_read_value(
                old(reader).data@,
                old(reader).pos as int,
                version,
                localized.deep_view(),
            ),
        ),
{
    if version >= Version::Compact {
        let index = read_i32_le(reader)?;
        resolve(localized, index)
    } else {
        let text = read_string(reader)?;
        Ok(LocalizedString::from(text))
    }
}

/// Reads one entry: its key, the hash of the key, the hash of the source
/// text and the value.
fn read_member(reader: &mut Reader, localized: &[LocalizedString], version: Version) -> (res:
    Result<(String, Option<u32>, u32, LocalizedString), Error>)
    ensures
        final(reader).data@ == old(reader).data@,
        match res {
            Ok((key, key_hash, source_hash, value)) => spec_read_member(
                old(reader).data@,
                old(reader).pos as int,
                version,
                localized.deep_view(),
            ) == Ok::<((Seq<char>, Member), int), Error>(
                ((key@, Member { value: value@, key_hash, source_hash }), final(reader).pos as int),
            ),
            Err(e) => spec_read_member(
                old(reader).data@,
                old(reader).pos as int,
                version,
                localized.deep_view(),
            ) == Err::<((Seq<char>, Member), int), Error>(e),
        },
{
    proof {
        reveal(spec_read_member);
    }
    let key_hash = if version >= Version::Optimized {
        Some(read_u32_le(reader)?)
    } else {
        None
    };
    let key = read_string(reader)?;
    let source_hash = read_u32_le(reader)?;
    let value = read_value(reader, localized, version)?;
    Ok((key, key_hash, source_hash, value))
}

/// Reads one namespace and its name. Entries from [`Version::Compact`] on
/// take their values from `localized`, the string table.
pub fn read_one(reader: &mut Reader, localized: &[LocalizedString], version: Version) -> (res:
    Result<(String, Namespace), Error>)
    ensures
        final(reader).data@ == old(reader).data@,
        reads(
            res,
            final(reader).pos,
            spec_read_one(
                old(reader).data@,
                old(reader).pos as int,
                version,
                localized.deep_view(),
            ),
        ),
{
    proof {
        reveal(spec_read_one);
    }
    let mut namespace = Namespace::new();
    if version >= Version::Optimized {
        namespace.key_hash = Some(read_i32_le(reader)?);
    }
    let ghost at_name = reader.pos as int;
    let namespace_key = read_string(reader)?;
    let ghost at_count = reader.pos as int;
    let entries = read_u32_le(reader)?;

    let ghost data = reader.data@;
    let ghost first = reader.pos as int;
    let ghost table = localized.deep_view();
    let ghost item = member_reader(data, version, table);
    let ghost mut pairs: Seq<(Seq<char>, Member)> = Seq::empty();
    let mut i: u32 = 0;
    while i < entries
        invariant
            i <= entries,
            reader.data@ == data,
            old(reader).data@ == data,
            table == localized.deep_view(),
            item == member_reader(data, version, table),
            spec_read_optional_i32(data, old(reader).pos as int, version.ordinal() >= 2) == Ok::<
                (Option<i32>, int),
                Error,
            >((namespace.key_hash, at_name)),
            spec_read_string(data, at_name) == Ok::<(Seq<char>, int), Error>(
                (namespace_key@, at_count),
            ),
            spec_read_u32_le(data, at_count) == Ok::<(u32, int), Error>((entries, first)),
            spec_repeat(item, first, i as nat) == Ok::<(Seq<(Seq<char>, Member)>, int), Error>(
                (pairs, reader.pos as int),
            ),
            namespace@.members == spec_collect(pairs),
        decreases entries - i,
    {
        match read_member(reader, localized, version) {
            Ok((key, key_hash, source_hash, value)) => {
                proof {
                    let member = Member { value: value@, key_hash, source_hash };
                    lemma_collect_push(pairs, key@, member);
                    pairs = pairs.push((key@, member));
                }
                namespace.add(key, key_hash, source_hash, value);
            },
            Err(e) => {
                proof {
                    reveal(spec_read_one);
                    lemma_repeat_error_stays(item, first, (i + 1) as nat, entries as nat);
                }
                return Err(e);
            },
        }
        i = i + 1;
    }
    Ok((namespace_key, namespace))
}

/// Reads the namespace section. Entries from [`Version::Compact`] on take
/// their values from `localized`, the string table.
pub fn read_all(reader: &mut Reader, localized: &[LocalizedString], version: Version) -> (res:
    Result<StringMap<Namespace>, Error>)
    ensures
        final(reader).data@ == old(reader).data@,
        reads_all(
            res,
            final(reader).pos,
            spec_read_all(
                old(reader).data@,
                old(reader).pos as int,
                version,
                localized.deep_view(),
            ),
        ),
{
    let namespace_count = read_u32_le(reader)?;
    let mut namespaces: StringMap<Namespace> = StringMap::new();

    let ghost data = reader.data@;
    let ghost first = reader.pos as int;
    let ghost table = localized.deep_view();
    let ghost item = namespace_reader(data, version, table);
    let ghost mut pairs: Seq<(Seq<char>, NamespaceView)> = Seq::empty();
    let mut i: u32 = 0;
    assert(namespaces.deep_view() =~= spec_collect(pairs));
    while i < namespace_count
        invariant
            i <= namespace_count,
            reader.data@ == data,
            old(reader).data@ == data,
            table == localized.deep_view(),
            item == namespace_reader(data, version, table),
            spec_read_u32_le(data, old(reader).pos as int) == Ok::<(u32, int), Error>(
                (namespace_count, first),
            ),
            spec_repeat(item, first, i as nat) == Ok::<
                (Seq<(Seq<char>, NamespaceView)>, int),
                Error,
            >((pairs, reader.pos as int)),
            namespaces.deep_view() == spec_collect(pairs),
        decreases namespace_count - i,
    {
        match read_one(reader, localized, version) {
            Ok((name, namespace)) => {
                let ghost before = namespaces.deep_view();
                proof {
                    lemma_collect_push(pairs, name@, namespace@);
                    pairs = pairs.push((name@, namespace@));
                }
                namespaces.insert(name, namespace);
                assert(namespaces.deep_view() =~= before.insert(name@, namespace@));
            },
            Err(e) => {
                proof {
                    lemma_repeat_error_stays(item, first, (i + 1) as nat, namespace_count as nat);
                }
                return Err(e);
            },
        }
        i = i + 1;
    }
    Ok(namespaces)
}

} // verus!
