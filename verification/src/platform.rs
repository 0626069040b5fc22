//! The host families whose file systems FastFs tells apart.

use vstd::prelude::*;

verus! {

/// The family of the host that FastFs runs on.
///
/// File names are compared without regard to ASCII case on Windows, and byte for byte elsewhere.
#[derive(Clone, Copy, Debug, PartialEq, Eq, Structural)]
pub enum Platform {
    Windows,
    Other,
}

/// The lower-case form of an ASCII letter; any other byte is its own form.
pub open spec fn ascii_lower(value: u8) -> u8 {
    if 0x41 <= value <= 0x5a {
        (value + 0x20) as u8
    } else {
        value
    }
}

/// The byte under which a name's byte is compared on `platform`.
pub open spec fn folded(platform: Platform, value: u8) -> u8 {
    match platform {
        Platform::Windows => ascii_lower(value),
        Platform::Other => value,
    }
}

/// The bytes under which a name is compared on `platform`.
pub open spec fn folded_all(platform: Platform, value: Seq<u8>) -> Seq<u8> {
    Seq::new(value.len(), |i: int| folded(platform, value[i]))
}

/// Folds one byte of a file name for comparison.
pub fn fold_ascii(value: u8, platform: Platform) -> (result: u8)
    ensures
        result == folded(platform, value),
{
    match platform {
        Platform::Windows => if 0x41 <= value && value <= 0x5a {
            value + 0x20
        } else {
            value
        },
        Platform::Other => value,
    }
}

/// Compares two names as `platform` compares file names.
pub fn folded_bytes_equal(expected: &[u8], actual: &[u8], platform: Platform) -> (result: bool)
    ensures
        result == (folded_all(platform, expected@) == folded_all(platform, actual@)),
{
    if expected.len() != actual.len() {
        assert(folded_all(platform, expected@).len() != folded_all(platform, actual@).len());
        return false;
    }
    let mut index: usize = 0;
    while index < expected.len()
        invariant
            expected.len() == actual.len(),
            index <= expected.len(),
            forall|i: int|
                0 <= i < index ==> folded(platform, expected[i]) == folded(platform, actual[i]),
        decreases expected.len() - index,
    {
        if fold_ascii(expected[index], platform) != fold_ascii(actual[index], platform) {
            assert(folded_all(platform, expected@)[index as int] != folded_all(
                platform,
                actual@,
            )[index as int]);
            return false;
        }
        index += 1;
    }
    assert(folded_all(platform, expected@) =~= folded_all(platform, actual@));
    true
}

} // verus!
