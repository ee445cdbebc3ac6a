//! What the commands of the desktop application decide once the file system
//! has been asked.

use vstd::prelude::*;

verus! {

/// What the file system says of a path of which the size is wanted.
#[derive(Debug, PartialEq, Eq)]
pub enum PathProbe {
    /// Nothing is there.
    Missing,
    /// A regular file: its length, or why its metadata could not be read.
    File { metadata: Result<u64, String> },
    /// A directory: the lengths of the regular files below it whose metadata
    /// could be read.
    Directory { file_sizes: Vec<u64> },
    /// Something that is neither.
    Other,
}

/// The sum of some lengths, held at the largest value that fits.
pub open spec fn saturating_total(sizes: Seq<u64>) -> u64
    decreases sizes.len(),
{
    if sizes.len() == 0 {
        0
    } else {
        let sum = saturating_total(sizes.drop_last()) + sizes.last();
        if sum > u64::MAX {
            u64::MAX
        } else {
            sum as u64
        }
    }
}

/// Adds up the lengths of the files of a directory.
pub fn directory_size(file_sizes: &Vec<u64>) -> (total: u64)
    ensures
        total == saturating_total(file_sizes@),
{
    let mut total: u64 = 0;
    let mut i: usize = 0;
    proof {
        assert(file_sizes@.take(0) =~= Seq::<u64>::empty());
    }
    while i < file_sizes.len()
        invariant
            i <= file_sizes.len(),
            total == saturating_total(file_sizes@.take(i as int)),
        decreases file_sizes.len() - i,
    {
        proof {
            assert(file_sizes@.take(i + 1).drop_last() =~= file_sizes@.take(i as int));
        }
        total = if file_sizes[i] > u64::MAX - total {
            u64::MAX
        } else {
            total + file_sizes[i]
        };
        i += 1;
    }
    proof {
        assert(file_sizes@.take(i as int) =~= file_sizes@);
    }
    total
}

/// The size of what a path names: the length of a file, or the lengths of
/// the files below a directory taken together; or why there is none.
pub open spec fn file_size_of(probe: PathProbe) -> Result<u64, Seq<char>> {
    match probe {
        PathProbe::Missing => Err("Path does not exist"@),
        PathProbe::File { metadata: Ok(size) } => Ok(size),
        PathProbe::File { metadata: Err(cause) } => Err(
            "Failed to get file metadata: "@ + cause@,
        ),
        PathProbe::Directory { file_sizes } => Ok(saturating_total(file_sizes@)),
        PathProbe::Other => Err("Path is neither a file nor a directory"@),
    }
}

/// Whether a path names a directory or a file; or why neither.
pub open spec fn path_type_of(exists: bool, is_dir: bool, is_file: bool) -> Result<
    Seq<char>,
    Seq<char>,
> {
    if !exists {
        Err("Path does not exist"@)
    } else if is_dir {
        Ok("directory"@)
    } else if is_file {
        Ok("file"@)
    } else {
        Err("Path is neither a file nor a directory"@)
    }
}

/// Whether a share of a path may be started from the desktop: only one
/// share runs at a time, and the path has to exist.
pub open spec fn may_start_sharing(
    already_sharing: bool,
    path_exists: bool,
    path: Seq<char>,
) -> Result<(), Seq<char>> {
    if already_sharing {
        Err("Already sharing a file. Please stop current share first."@)
    } else if !path_exists {
        Err("Path does not exist: "@ + path)
    } else {
        Ok(())
    }
}

/// Computes the size of what a path names.
pub fn get_file_size(probe: PathProbe) -> (result: Result<u64, String>)
    ensures
        match result {
            Ok(size) => file_size_of(probe) == Ok::<u64, Seq<char>>(size),
            Err(message) => file_size_of(probe) == Err::<u64, Seq<char>>(message@),
        },
{
    match probe {
        PathProbe::Missing => Err(String::from_str("Path does not exist")),
        PathProbe::File { metadata: Ok(size) } => Ok(size),
        PathProbe::File { metadata: Err(cause) } => {
            let mut message = String::from_str("Failed to get file metadata: ");
            message.append(cause.as_str());
            Err(message)
        },
        PathProbe::Directory { file_sizes } => Ok(directory_size(&file_sizes)),
        PathProbe::Other => Err(String::from_str("Path is neither a file nor a directory")),
    }
}

/// Says whether a path names a directory or a file.
pub fn check_path_type(exists: bool, is_dir: bool, is_file: bool) -> (result: Result<
    String,
    String,
>)
    ensures
        match result {
            Ok(kind) => path_type_of(exists, is_dir, is_file) == Ok::<Seq<char>, Seq<char>>(
                kind@,
            ),
            Err(message) => path_type_of(exists, is_dir, is_file) == Err::<Seq<char>, Seq<char>>(
                message@,
            ),
        },
{
    if !exists {
        Err(String::from_str("Path does not exist"))
    } else if is_dir {
        Ok(String::from_str("directory"))
    } else if is_file {
        Ok(String::from_str("file"))
    } else {
        Err(String::from_str("Path is neither a file nor a directory"))
    }
}

/// Decides whether a share of a path may be started from the desktop.
pub fn start_sharing(already_sharing: bool, path_exists: bool, path: &str) -> (result: Result<
    (),
    String,
>)
    ensures
        match result {
            Ok(_) => may_start_sharing(already_sharing, path_exists, path@) == Ok::<
                (),
                Seq<char>,
            >(()),
            Err(message) => may_start_sharing(already_sharing, path_exists, path@) == Err::<
                (),
                Seq<char>,
            >(message@),
        },
{
    if already_sharing {
        Err(String::from_str("Already sharing a file. Please stop current share first."))
    } else if !path_exists {
        let mut message = String::from_str("Path does not exist: ");
        message.append(path);
        Err(message)
    } else {
        Ok(())
    }
}

} // verus!
