//! Upgrading the store manifest to version two.
use vstd::prelude::*;
use vstd::string::*;
use crate::error::{refusal, Error};

verus! {

/// The lines that raise a manifest to version two, as text.
pub open spec fn upgrade_lines() -> Seq<char> {
    "# upgraded atomically by froe cleanup\nstore.version=2\n"@
}

/// The same lines as bytes.
pub open spec fn upgrade_suffix() -> Seq<u8> {
    vstd::utf8::encode_utf8(upgrade_lines())
}

/// What separates the old lines from the new ones: an empty natural line, so
/// that a trailing continuation cannot swallow what follows.
pub open spec fn separator(source: Seq<u8>) -> Seq<u8> {
    if source.len() == 0 {
        Seq::empty()
    } else if source.last() == 10 {
        seq![10u8]
    } else {
        seq![10u8, 10u8]
    }
}

/// A manifest raised to version two.
pub open spec fn upgraded(source: Seq<u8>) -> Seq<u8> {
    source + separator(source) + upgrade_suffix()
}

/// The bytes of a manifest raised to version two: every byte that was there, an
/// empty line, and the new version.
///
/// A physical line that ends in an odd number of backslashes is joined with the
/// next natural line. The empty line keeps such a trailing continuation from
/// consuming the comment and altering the preceding property.
pub fn manifest_upgrade_bytes(source: &[u8]) -> (output: Vec<u8>)
    ensures
        output@ == upgraded(source@),
{
    let mut output: Vec<u8> = Vec::new();
    let mut index: usize = 0;
    while index < source.len()
        invariant
            index <= source@.len(),
            output@ == source@.take(index as int),
        decreases source@.len() - index,
    {
        output.push(source[index]);
        assert(output@ =~= source@.take(index as int + 1));
        index = index + 1;
    }
    assert(output@ =~= source@);
    if source.len() > 0 {
        output.push(10);
        if source[source.len() - 1] != 10 {
            output.push(10);
        }
    }
    assert(output@ =~= source@ + separator(source@));
    let lines = "# upgraded atomically by froe cleanup\nstore.version=2\n";
    let suffix = lines.as_bytes();
    let ghost head = output@;
    let mut position: usize = 0;
    while position < suffix.len()
        invariant
            position <= suffix@.len(),
            output@ == head + suffix@.take(position as int),
        decreases suffix@.len() - position,
    {
        output.push(suffix[position]);
        assert(output@ =~= head + suffix@.take(position as int + 1));
        position = position + 1;
    }
    assert(suffix@.take(position as int) =~= suffix@);
    assert(output@ =~= upgraded(source@));
    output
}

/// Whether an upgrade is staged at all: a manifest that is not a regular file is
/// refused, and one of version two or later is left alone.
pub fn manifest_needs_upgrade(path: &str, is_regular_file: bool, store_version: u32) -> (needed:
    Result<bool, Error>)
    ensures
        match needed {
            Ok(upgrade) => is_regular_file && upgrade == (store_version < 2),
            Err(error) => !is_regular_file && error.refuses(path@ + " is not a regular file"@),
        },
{
    if !is_regular_file {
        let mut details = path.to_owned();
        details.append(" is not a regular file");
        return Err(Error::InvalidFormat { details });
    }
    Ok(store_version < 2)
}

/// Refuses an upgrade after which the store does not read as version two.
pub fn confirm_store_version(store_version: u32) -> (confirmed: Result<(), Error>)
    ensures
        match confirmed {
            Ok(_) => store_version == 2,
            Err(error) => store_version != 2 && error.refuses(
                "atomic manifest upgrade did not install store.version=2"@,
            ),
        },
{
    if store_version == 2 {
        Ok(())
    } else {
        Err(refusal("atomic manifest upgrade did not install store.version=2"))
    }
}

/// An upgrade keeps every byte of the manifest, in place and in order, ends with
/// the new version, and puts an empty line between the two unless the manifest
/// was empty.
pub proof fn law_an_upgrade_keeps_every_byte(source: Seq<u8>)
    ensures
        upgraded(source).take(source.len() as int) == source,
        upgraded(source).skip(upgraded(source).len() - upgrade_suffix().len()) == upgrade_suffix(),
        source.len() > 0 ==> {
            let end = upgraded(source).len() - upgrade_suffix().len();
            upgraded(source)[end - 1] == 10 && upgraded(source)[end - 2] == 10
        },
{
    assert(upgraded(source).take(source.len() as int) =~= source);
    assert(upgraded(source).skip(upgraded(source).len() - upgrade_suffix().len())
        =~= upgrade_suffix());
    if source.len() > 0 {
        let end = upgraded(source).len() - upgrade_suffix().len();
        assert(end == source.len() + separator(source).len());
    }
}

} // verus!
