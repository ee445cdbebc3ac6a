//! Setting up a share: where its content store lives, and from where a
//! share may be started.

use rand::Rng;
use vstd::prelude::*;

verus! {

/// The character of a hexadecimal digit, in lower case.
pub open spec fn hex_digit(nibble: int) -> char {
    if nibble < 10 {
        crate::text::digit_char(nibble as nat)
    } else if nibble == 10 {
        'a'
    } else if nibble == 11 {
        'b'
    } else if nibble == 12 {
        'c'
    } else if nibble == 13 {
        'd'
    } else if nibble == 14 {
        'e'
    } else {
        'f'
    }
}

/// Bytes in hexadecimal digits: two for each byte, the upper half first.
pub open spec fn hex_lower(bytes: Seq<u8>) -> Seq<char> {
    Seq::new(
        2 * bytes.len(),
        |i: int|
            if i % 2 == 0 {
                hex_digit(bytes[i / 2] as int / 16)
            } else {
                hex_digit(bytes[i / 2] as int % 16)
            },
    )
}

/// What the name of every store directory begins with.
pub open spec fn store_dir_prefix() -> Seq<char> {
    ".sendme-send-"@
}

/// Calls `data_encoding::HEXLOWER.encode`: the lower-case hexadecimal
/// encoding of the bytes, two digits for each byte, the upper half first.
#[verifier::external_body]
fn hex_lower_encode(bytes: &[u8; 16]) -> (text: String)
    ensures
        text@ == hex_lower(bytes@),
{
    data_encoding::HEXLOWER.encode(bytes)
}

/// Draws sixteen bytes from `rand::rng()`, the generator of the thread.
/// Nothing is promised of them.
#[verifier::external_body]
fn random_suffix() -> [u8; 16] {
    rand::rng().random::<[u8; 16]>()
}

/// The name of the store directory with a given suffix.
pub fn store_dir_name(suffix: &[u8; 16]) -> (name: String)
    ensures
        name@ == store_dir_prefix() + hex_lower(suffix@),
{
    let mut name = String::from_str(".sendme-send-");
    name.append(hex_lower_encode(suffix).as_str());
    name
}

/// A name for the store directory of a new share, with a suffix drawn at
/// random.
pub fn fresh_store_dir_name() -> (name: String)
    ensures
        exists|suffix: Seq<u8>|
            suffix.len() == 16 && name@ == store_dir_prefix() + #[trigger] hex_lower(suffix),
{
    let suffix = random_suffix();
    store_dir_name(&suffix)
}

/// Why a share cannot be started from where it was asked for.
#[derive(Clone, Copy, Debug, PartialEq, Eq)]
pub enum ShareError {
    /// The store directory is there already: a share from this directory is
    /// running.
    SharedTwice,
    /// The path to share is the current directory, which holds the store.
    CurrentDirectory,
}

/// Decides whether a share may be started: not where its store directory
/// exists already, and not of the current directory.
pub fn check_share_location(store_dir_exists: bool, path_is_current_dir: bool) -> (result: Result<
    (),
    ShareError,
>)
    ensures
        result == if store_dir_exists {
            Err::<(), ShareError>(ShareError::SharedTwice)
        } else if path_is_current_dir {
            Err::<(), ShareError>(ShareError::CurrentDirectory)
        } else {
            Ok::<(), ShareError>(())
        },
{
    if store_dir_exists {
        Err(ShareError::SharedTwice)
    } else if path_is_current_dir {
        Err(ShareError::CurrentDirectory)
    } else {
        Ok(())
    }
}

/// What kind of entry a share offers.
pub fn entry_type(is_file: bool) -> (kind: &'static str)
    ensures
        kind@ == if is_file {
            "file"@
        } else {
            "directory"@
        },
{
    if is_file {
        "file"
    } else {
        "directory"
    }
}

} // verus!
