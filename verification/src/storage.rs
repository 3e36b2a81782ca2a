//! How much storage the downloads use, and how much the file system that
//! holds them has and has left.

use crate::paths::{first_of, path_has_prefix, path_starts_with, platform_home_dir};
use vstd::prelude::*;
use vstd::utf8::encode_utf8;

verus! {

/// One mounted file system.
#[derive(Debug, Clone, PartialEq, Eq)]
pub struct Mount {
    /// Where it is mounted.
    pub mount_point: String,
    /// Its size, in bytes.
    pub total_space: u64,
    /// What is available of it, in bytes.
    pub available_space: u64,
}

/// One entry met while walking a directory tree.
#[derive(Debug, Clone, Copy, PartialEq, Eq)]
pub enum WalkEntry {
    /// The entry, or what describes it, could not be read.
    Unreadable,
    /// An entry that could be read.
    Found {
        /// Whether it is a regular file.
        is_file: bool,
        /// Its length, in bytes.
        len: u64,
    },
}

/// A snapshot of the storage in use.
#[derive(Debug, Clone, PartialEq, Eq)]
pub struct StorageInfo {
    manga_bytes: u64,
    total_bytes: u64,
    free_bytes: u64,
    path: String,
}

/// What a snapshot holds.
pub struct StorageView {
    /// Bytes used by the regular files under the directory.
    pub manga_bytes: u64,
    /// Size of the file system, in bytes.
    pub total_bytes: u64,
    /// What is available of the file system, in bytes.
    pub free_bytes: u64,
    /// The directory that was measured.
    pub path: Seq<char>,
}

impl View for StorageInfo {
    type V = StorageView;

    closed spec fn view(&self) -> StorageView {
        StorageView {
            manga_bytes: self.manga_bytes,
            total_bytes: self.total_bytes,
            free_bytes: self.free_bytes,
            path: self.path@,
        }
    }
}

impl StorageInfo {
    /// A snapshot of these four values.
    pub fn new(manga_bytes: u64, total_bytes: u64, free_bytes: u64, path: String) -> (r: Self)
        ensures
            r@ == (StorageView { manga_bytes, total_bytes, free_bytes, path: path@ }),
    {
        StorageInfo { manga_bytes, total_bytes, free_bytes, path }
    }

    /// Bytes used by the regular files under the directory.
    pub fn manga_bytes(&self) -> (r: u64)
        ensures
            r == self@.manga_bytes,
    {
        self.manga_bytes
    }

    /// Size of the file system that holds the directory, in bytes.
    pub fn total_bytes(&self) -> (r: u64)
        ensures
            r == self@.total_bytes,
    {
        self.total_bytes
    }

    /// What is available of that file system, in bytes.
    pub fn free_bytes(&self) -> (r: u64)
        ensures
            r == self@.free_bytes,
    {
        self.free_bytes
    }

    /// The directory that was measured.
    pub fn path(&self) -> (r: &str)
        ensures
            r@ == self@.path,
    {
        self.path.as_str()
    }
}

/// What an entry adds to the bytes in use: its length if it is a regular
/// file that could be read, nothing otherwise.
pub open spec fn counted(e: WalkEntry) -> nat {
    match e {
        WalkEntry::Found { is_file, len } => if is_file {
            len as nat
        } else {
            0
        },
        WalkEntry::Unreadable => 0,
    }
}

/// The lengths of the regular files among `entries`, added up.
pub open spec fn total_size(entries: Seq<WalkEntry>) -> nat
    decreases entries.len(),
{
    if entries.len() == 0 {
        0
    } else {
        total_size(entries.drop_last()) + counted(entries.last())
    }
}

/// The number of bytes that `s` takes as UTF-8, as `str::len` gives it.
pub open spec fn byte_len(s: Seq<char>) -> usize {
    encode_utf8(s).len() as usize
}

/// The `j`-th mount is marked as holding the path.
pub open spec fn is_match(mounts: Seq<Mount>, flags: Seq<bool>, j: int) -> bool {
    0 <= j < mounts.len() && j < flags.len() && flags[j]
}

/// The `i`-th mount is the one to take: it is marked, no marked mount has a
/// longer mount point, and none after it has one as long.
pub open spec fn is_longest_match(mounts: Seq<Mount>, flags: Seq<bool>, i: int) -> bool {
    &&& is_match(mounts, flags, i)
    &&& forall|j: int| #[trigger]
        is_match(mounts, flags, j) ==> byte_len(mounts[j].mount_point@) <= byte_len(
            mounts[i].mount_point@,
        )
    &&& forall|j: int| #[trigger]
        is_match(mounts, flags, j) && j > i ==> byte_len(mounts[j].mount_point@) < byte_len(
            mounts[i].mount_point@,
        )
}

/// At most one mount is the one to take.
pub proof fn lemma_longest_match_is_unique(mounts: Seq<Mount>, flags: Seq<bool>, i: int, j: int)
    requires
        is_longest_match(mounts, flags, i),
        is_longest_match(mounts, flags, j),
    ensures
        i == j,
{
    assert(is_match(mounts, flags, i) && is_match(mounts, flags, j));
}

/// Of the marked mounts, one whose mount point is longer than that of every
/// other marked mount is the one to take: a mount inside another wins over
/// the one around it.
pub proof fn lemma_longest_mount_wins(mounts: Seq<Mount>, flags: Seq<bool>, i: int)
    requires
        is_match(mounts, flags, i),
        forall|j: int| #[trigger]
            is_match(mounts, flags, j) && j != i ==> byte_len(mounts[j].mount_point@) < byte_len(
                mounts[i].mount_point@,
            ),
    ensures
        is_longest_match(mounts, flags, i),
{
}

/// For each mount, whether its mount point is a prefix of `path`.
pub open spec fn prefix_flags(mounts: Seq<Mount>, path: Seq<char>) -> Seq<bool> {
    Seq::new(mounts.len(), |j: int| path_has_prefix(path, mounts[j].mount_point@))
}

/// The path whose file system is asked about: the directory itself where it
/// exists, else the home directory, else `/`.
pub open spec fn stat_path_for(
    path: Seq<char>,
    exists: bool,
    home_dir: Option<Seq<char>>,
) -> Seq<char> {
    if exists {
        path
    } else {
        first_of(home_dir, None, "/"@)
    }
}

/// What is said when no mounted file system holds the path.
pub open spec fn no_disk() -> Seq<char> {
    "Could not find disk for path"@
}

/// The snapshot for a directory on the `i`-th of `mounts`.
pub open spec fn snapshot(
    path: Seq<char>,
    exists: bool,
    entries: Seq<WalkEntry>,
    mounts: Seq<Mount>,
    i: int,
) -> StorageView {
    StorageView {
        manga_bytes: if exists {
            (total_size(entries) % 0x1_0000_0000_0000_0000) as u64
        } else {
            0
        },
        total_bytes: mounts[i].total_space,
        free_bytes: mounts[i].available_space,
        path: path,
    }
}

/// `r` is the report for the directory `path`: the snapshot on the mount
/// that holds the path asked about, or an error where no mount does.
pub open spec fn is_report(
    r: Result<StorageInfo, String>,
    path: Seq<char>,
    exists: bool,
    entries: Seq<WalkEntry>,
    home_dir: Option<Seq<char>>,
    mounts: Seq<Mount>,
) -> bool {
    let flags = prefix_flags(mounts, stat_path_for(path, exists, home_dir));
    match r {
        Ok(info) => exists|i: int|
            #![trigger mounts[i]]
            is_longest_match(mounts, flags, i) && info@ == snapshot(
                path,
                exists,
                entries,
                mounts,
                i,
            ),
        Err(e) => e@ == no_disk() && forall|j: int| !is_match(mounts, flags, j),
    }
}

/// Adds up the lengths of the regular files among `entries`; what could not
/// be read counts for nothing. The sum wraps around at `2^64`.
pub fn used_bytes(entries: &Vec<WalkEntry>) -> (r: u64)
    ensures
        r == total_size(entries@) % 0x1_0000_0000_0000_0000,
        total_size(entries@) <= u64::MAX ==> r == total_size(entries@),
{
    let mut sum: u64 = 0;
    let mut i: usize = 0;
    while i < entries.len()
        invariant
            i <= entries@.len(),
            sum == total_size(entries@.take(i as int)) % 0x1_0000_0000_0000_0000,
        decreases entries@.len() - i,
    {
        proof {
            assert(entries@.take(i + 1).drop_last() =~= entries@.take(i as int));
        }
        match entries[i] {
            WalkEntry::Found { is_file, len } => {
                if is_file {
                    sum = sum.wrapping_add(len);
                }
            },
            WalkEntry::Unreadable => {},
        }
        i += 1;
    }
    assert(entries@.take(i as int) =~= entries@);
    sum
}

/// Picks among the marked mounts the one with the longest mount point, the
/// last of them where several are as long. `flags[j]` marks the `j`-th
/// mount; a mount without a mark is not marked.
pub fn longest_match(mounts: &Vec<Mount>, flags: &Vec<bool>) -> (r: Option<usize>)
    ensures
        match r {
            Some(i) => is_longest_match(mounts@, flags@, i as int),
            None => forall|j: int| !is_match(mounts@, flags@, j),
        },
{
    let mut best: Option<usize> = None;
    let mut best_len: usize = 0;
    let mut i: usize = 0;
    while i < mounts.len() && i < flags.len()
        invariant
            i <= mounts@.len(),
            i <= flags@.len(),
            match best {
                Some(b) => {
                    &&& b < i
                    &&& is_match(mounts@, flags@, b as int)
                    &&& best_len == byte_len(mounts@[b as int].mount_point@)
                    &&& forall|j: int| #[trigger]
                        is_match(mounts@, flags@, j) && j < i ==> byte_len(
                            mounts@[j].mount_point@,
                        ) <= best_len
                    &&& forall|j: int| #[trigger]
                        is_match(mounts@, flags@, j) && b < j < i ==> byte_len(
                            mounts@[j].mount_point@,
                        ) < best_len
                },
                None => forall|j: int| #[trigger] is_match(mounts@, flags@, j) ==> j >= i,
            },
        decreases mounts@.len() - i,
    {
        if flags[i] {
            let len = mounts[i].mount_point.as_str().len();
            if best.is_none() || len >= best_len {
                best = Some(i);
                best_len = len;
            }
        }
        i += 1;
    }
    best
}

/// Finds the mount that holds `path`: among those whose mount point is a
/// prefix of `path`, the one with the longest mount point.
pub fn find_mount(mounts: &Vec<Mount>, path: &str) -> (r: Option<usize>)
    ensures
        match r {
            Some(i) => is_longest_match(mounts@, prefix_flags(mounts@, path@), i as int),
            None => forall|j: int| !is_match(mounts@, prefix_flags(mounts@, path@), j),
        },
{
    let mut flags: Vec<bool> = Vec::new();
    let mut i: usize = 0;
    while i < mounts.len()
        invariant
            i <= mounts@.len(),
            flags@ == prefix_flags(mounts@, path@).take(i as int),
        decreases mounts@.len() - i,
    {
        flags.push(path_starts_with(path, mounts[i].mount_point.as_str()));
        assert(flags@ =~= prefix_flags(mounts@, path@).take(i + 1));
        i += 1;
    }
    assert(flags@ =~= prefix_flags(mounts@, path@));
    longest_match(mounts, &flags)
}

/// The storage snapshot for the directory `path`. `exists` tells whether
/// the directory is there, `entries` is what a walk through it met,
/// `home_dir` the user's home directory, `mounts` the mounted file systems.
///
/// A directory that is not there uses no bytes, and the file system asked
/// about is then that of the home directory, or of `/`. The result is an
/// error exactly when no mount point is a prefix of the path asked about.
pub fn storage_info_from(
    path: String,
    exists: bool,
    entries: &Vec<WalkEntry>,
    home_dir: Option<String>,
    mounts: &Vec<Mount>,
) -> (r: Result<StorageInfo, String>)
    ensures
        is_report(r, path@, exists, entries@, home_dir.deep_view(), mounts@),
        r matches Ok(info) ==> info@.path == path@,
        r matches Ok(info) ==> !exists ==> info@.manga_bytes == 0,
{
    let manga_bytes = if exists {
        used_bytes(entries)
    } else {
        0
    };
    let found = if exists {
        find_mount(mounts, path.as_str())
    } else {
        match home_dir {
            Some(home) => find_mount(mounts, home.as_str()),
            None => find_mount(mounts, "/"),
        }
    };
    match found {
        Some(i) => {
            let info = StorageInfo::new(
                manga_bytes,
                mounts[i].total_space,
                mounts[i].available_space,
                path,
            );
            assert(info@ == snapshot(path@, exists, entries@, mounts@, i as int));
            Ok(info)
        },
        None => Err("Could not find disk for path".to_owned()),
    }
}

/// The storage snapshot for the directory `path`, as `storage_info_from`
/// gives it. Where the directory is there, nothing else is asked; where it
/// is not, the platform is asked for the home directory, so that the report
/// is the one for some home directory, or for none.
pub fn get_storage_info(
    path: String,
    exists: bool,
    entries: &Vec<WalkEntry>,
    mounts: &Vec<Mount>,
) -> (r: Result<StorageInfo, String>)
    ensures
        exists ==> is_report(r, path@, exists, entries@, None, mounts@),
        exists|home_dir: Option<Seq<char>>|
            #[trigger] is_report(r, path@, exists, entries@, home_dir, mounts@),
        r matches Ok(info) ==> info@.path == path@,
        r matches Ok(info) ==> !exists ==> info@.manga_bytes == 0,
        r matches Err(e) ==> e@ == no_disk(),
{
    let home_dir = if exists {
        None
    } else {
        platform_home_dir()
    };
    let ghost home = home_dir.deep_view();
    let r = storage_info_from(path, exists, entries, home_dir, mounts);
    assert(is_report(r, path@, exists, entries@, home, mounts@));
    r
}

} // verus!
