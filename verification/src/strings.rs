//! Localized strings and the table that holds them out of line.

use vstd::prelude::*;
use vstd::std_specs::convert::FromSpecImpl;

use crate::bytes::{
    read_i32_le, read_string, read_u64_le, spec_read_i32_le, spec_read_string, spec_read_u64_le,
};
use crate::error::Error;
use crate::reader::{reads, reads_all, Reader};
use crate::repeat::{lemma_repeat_error_stays, spec_repeat};
use crate::version::Version;

verus! {

/// A localized text, with the number of entries that refer to it where the
/// format records that number.
#[derive(Debug)]
pub struct LocalizedString {
    pub value: String,
    pub ref_count: Option<i32>,
}

/// What a [`LocalizedString`] holds, as plain values.
pub struct LocalizedText {
    pub text: Seq<char>,
    pub ref_count: Option<i32>,
}

impl View for LocalizedString {
    type V = LocalizedText;

    open spec fn view(&self) -> LocalizedText {
        LocalizedText { text: self.value@, ref_count: self.ref_count }
    }
}

impl DeepView for LocalizedString {
    type V = LocalizedText;

    open spec fn deep_view(&self) -> LocalizedText {
        self@
    }
}

impl Clone for LocalizedString {
    fn clone(&self) -> (res: Self)
        ensures
            res == *self,
    {
        LocalizedString { value: self.value.clone(), ref_count: self.ref_count }
    }
}

impl From<String> for LocalizedString {
    fn from(value: String) -> (res: Self) {
        LocalizedString { value, ref_count: None }
    }
}

impl FromSpecImpl<String> for LocalizedString {
    open spec fn obeys_from_spec() -> bool {
        true
    }

    open spec fn from_spec(value: String) -> Self {
        LocalizedString { value, ref_count: None }
    }
}

impl core::ops::Deref for LocalizedString {
    type Target = str;

    fn deref(&self) -> (text: &str)
        ensures
            text@ == self@.text,
    {
        self.value.as_str()
    }
}

impl LocalizedString {
    /// The text.
    pub fn as_str(&self) -> (text: &str)
        ensures
            text@ == self@.text,
    {
        self.value.as_str()
    }

    /// A copy of the text.
    pub fn to_string(&self) -> (text: String)
        ensures
            text@ == self@.text,
    {
        self.value.clone()
    }
}

/// What reading one slot of the string table at `pos` gives: a string, and
/// from [`Version::Optimized`] on its reference count.
#[verifier::opaque]
pub open spec fn spec_read_table_slot(data: Seq<u8>, pos: int, version: Version) -> Result<
    (LocalizedText, int),
    Error,
> {
    match spec_read_string(data, pos) {
        Err(e) => Err(e),
        Ok((text, next)) => if version.ordinal() >= 2 {
            match spec_read_i32_le(data, next) {
                Err(e) => Err(e),
                Ok((count, end)) => Ok((LocalizedText { text, ref_count: Some(count) }, end)),
            }
        } else {
            Ok((LocalizedText { text, ref_count: None }, next))
        },
    }
}

/// [`spec_read_table_slot`] on fixed bytes and version, by position.
pub open spec fn table_slot_reader(data: Seq<u8>, version: Version) -> spec_fn(int) -> Result<
    (LocalizedText, int),
    Error,
> {
    |pos: int| spec_read_table_slot(data, pos, version)
}

/// What reading a string table at `pos` gives: a signed count, then that
/// many slots. A count below zero stands for no slots.
pub open spec fn spec_read_table(data: Seq<u8>, pos: int, version: Version) -> Result<
    (Seq<LocalizedText>, int),
    Error,
> {
    match spec_read_i32_le(data, pos) {
        Err(e) => Err(e),
        Ok((count, first)) => spec_repeat(
            table_slot_reader(data, version),
            first,
            if count > 0 {
                count as nat
            } else {
                0
            },
        ),
    }
}

/// What reading the string table of a resource gives, with the cursor at
/// `pos`. Before [`Version::Compact`] there is none: the table is empty and
/// the cursor stays. From then on an absolute offset stands at `pos`, the
/// table is read at that offset, and the cursor ends after the offset field.
pub open spec fn spec_read_localization_strings(
    data: Seq<u8>,
    pos: int,
    version: Version,
) -> Result<(Seq<LocalizedText>, int), Error> {
    if version.ordinal() >= 1 {
        match spec_read_u64_le(data, pos) {
            Err(e) => Err(e),
            Ok((offset, resume)) => match spec_read_table(data, offset as int, version) {
                Err(e) => Err(e),
                Ok((table, _)) => Ok((table, resume)),
            },
        }
    } else {
        Ok((Seq::empty(), pos))
    }
}

/// Reads one slot of the string table.
fn read_table_slot(reader: &mut Reader, version: Version) -> (res: Result<LocalizedString, Error>)
    ensures
        final(reader).data@ == old(reader).data@,
        reads(
            res,
            final(reader).pos,
            spec_read_table_slot(old(reader).data@, old(reader).pos as int, version),
        ),
{
    proof {
        reveal(spec_read_table_slot);
    }
    let value = read_string(reader)?;
    let ref_count = if version >= Version::Optimized {
        Some(read_i32_le(reader)?)
    } else {
        None
    };
    Ok(LocalizedString { value, ref_count })
}

/// Reads a string table at the cursor.
fn read_table(reader: &mut Reader, version: Version) -> (res: Result<Vec<LocalizedString>, Error>)
    ensures
        final(reader).data@ == old(reader).data@,
        reads_all(
            res,
            final(reader).pos,
            spec_read_table(old(reader).data@, old(reader).pos as int, version),
        ),
{
    let count = read_i32_le(reader)?;
    let ghost data = reader.data@;
    let ghost first = reader.pos as int;
    let ghost item = table_slot_reader(data, version);
    let ghost total: nat = if count > 0 {
        count as nat
    } else {
        0
    };
    let mut localized: Vec<LocalizedString> = Vec::new();
    let mut i: i32 = 0;
    assert(localized.deep_view() =~= Seq::<LocalizedText>::empty());
    while i < count
        invariant
            0 <= i,
            i <= total,
            total == (if count > 0 {
                count as nat
            } else {
                0
            }),
            reader.data@ == data,
            old(reader).data@ == data,
            spec_read_i32_le(data, old(reader).pos as int) == Ok::<(i32, int), Error>(
                (count, first),
            ),
            item == table_slot_reader(data, version),
            spec_repeat(item, first, i as nat) == Ok::<(Seq<LocalizedText>, int), Error>(
                (localized.deep_view(), reader.pos as int),
            ),
        decreases count - i,
    {
        match read_table_slot(reader, version) {
            Ok(slot) => {
                let ghost before = localized.deep_view();
                localized.push(slot);
                assert(localized.deep_view() =~= before.push(slot@));
            },
            Err(e) => {
                proof {
                    lemma_repeat_error_stays(item, first, (i + 1) as nat, total);
                }
                return Err(e);
            },
        }
        i = i + 1;
    }
    Ok(localized)
}

/// Reads the string table of a resource. Before [`Version::Compact`] there
/// is none. From then on the cursor stands at the table's absolute offset;
/// the table is read there and the cursor is put back after the offset
/// field, whether or not the table could be read.
pub fn read_localization_strings(reader: &mut Reader, version: Version) -> (res: Result<
    Vec<LocalizedString>,
    Error,
>)
    ensures
        final(reader).data@ == old(reader).data@,
        reads_all(
            res,
            final(reader).pos,
            spec_read_localization_strings(old(reader).data@, old(reader).pos as int, version),
        ),
        version.ordinal() >= 1 ==> (spec_read_u64_le(old(reader).data@, old(reader).pos as int)
            matches Ok((_, resume)) ==> final(reader).pos == resume),
{
    if version >= Version::Compact {
        let offset = read_u64_le(reader)?;
        let resume = reader.position();
        reader.seek(offset);
        let table = read_table(reader, version);
        reader.seek(resume);
        table
    } else {
        let table: Vec<LocalizedString> = Vec::new();
        assert(table.deep_view() =~= Seq::<LocalizedText>::empty());
        Ok(table)
    }
}

} // verus!
