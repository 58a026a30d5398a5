//! Directory listings over SFTP: what the server names is turned into
//! entries with full paths and put in the order of a listing.

use vstd::prelude::*;
use crate::listing::key_of;
use crate::listing::keys_view;
use crate::listing::make_key;
use crate::listing::sort_order;
use crate::listing::sorted_order;
use crate::listing::SortKey;
use crate::text::chars_of;
use crate::text::string_of;
use crate::text::strip_trailing;
use crate::text::strip_trailing_end;

verus! {

/// A file or directory on the remote host.
#[derive(Clone, Debug)]
pub struct RemoteFileEntry {
    pub name: String,
    /// The directory listed, a slash and the name.
    pub path: String,
    pub is_dir: bool,
    /// Size in bytes, 0 where the server gives none.
    pub size: u64,
    /// Time of the last change in seconds since the epoch.
    pub modified: Option<u64>,
    pub permissions: Option<u32>,
}

/// What the server says of one name in a directory.
#[derive(Clone, Debug)]
pub struct RemoteDirEntry {
    pub name: String,
    pub is_dir: bool,
    pub size: Option<u64>,
    pub mtime: Option<u32>,
    pub permissions: Option<u32>,
}

/// The subsystem that is asked for on the channel.
pub fn subsystem_name() -> (name: &'static str)
    ensures
        name@ == "sftp"@,
{
    "sftp"
}

/// Whether a name stands for the directory itself or for its parent.
pub open spec fn is_dot_name(name: Seq<char>) -> bool {
    name == seq!['.'] || name == seq!['.', '.']
}

/// The path of a name within a directory: the directory without the
/// slashes at its end, a slash, and the name.
pub open spec fn joined_path(dir: Seq<char>, name: Seq<char>) -> Seq<char> {
    strip_trailing(dir, '/') + seq!['/'] + name
}

/// Whether `entry` is what the server's word `raw` gives in directory
/// `dir`.
pub open spec fn entry_from(entry: RemoteFileEntry, dir: Seq<char>, raw: RemoteDirEntry) -> bool {
    &&& entry.name@ == raw.name@
    &&& entry.path@ == joined_path(dir, raw.name@)
    &&& entry.is_dir == raw.is_dir
    &&& entry.size == match raw.size {
        Some(size) => size,
        None => 0,
    }
    &&& entry.modified == match raw.mtime {
        Some(time) => Some(time as u64),
        None => None,
    }
    &&& entry.permissions == raw.permissions
}

/// The names among the first `upto` that are listed: all but `.` and
/// `..`, given as their positions.
pub open spec fn listed(raw: Seq<RemoteDirEntry>, upto: int) -> Seq<int>
    decreases upto,
{
    if upto <= 0 {
        Seq::empty()
    } else {
        let before = listed(raw, upto - 1);
        if is_dot_name(raw[upto - 1].name@) {
            before
        } else {
            before.push(upto - 1)
        }
    }
}

/// The keys by which the listed names are ordered.
pub open spec fn listed_keys(raw: Seq<RemoteDirEntry>) -> Seq<SortKey> {
    let kept = listed(raw, raw.len() as int);
    Seq::new(kept.len(), |i: int| key_of(raw[kept[i]].is_dir, raw[kept[i]].name@))
}

/// The position in `raw` of the name that stands at place `k` of the
/// listing: the listed names in the order of a listing, directories first
/// and then by name without regard to case.
pub open spec fn listing_source(raw: Seq<RemoteDirEntry>, k: int) -> int {
    let kept = listed(raw, raw.len() as int);
    kept[sorted_order(listed_keys(raw), kept.len() as int)[k] as int]
}

/// Every listed position lies among the first `upto`.
pub proof fn lemma_listed(raw: Seq<RemoteDirEntry>, upto: int)
    requires
        0 <= upto <= raw.len(),
    ensures
        listed(raw, upto).len() <= upto,
        forall|i: int|
            0 <= i < listed(raw, upto).len() ==> 0 <= #[trigger] listed(raw, upto)[i] < upto
                && !is_dot_name(raw[listed(raw, upto)[i]].name@),
    decreases upto,
{
    if upto > 0 {
        lemma_listed(raw, upto - 1);
    }
}

fn is_dot(name: &Vec<char>) -> (dot: bool)
    ensures
        dot == is_dot_name(name@),
{
    if name.len() == 1 {
        let dot = name[0] == '.';
        assert(dot == (name@ =~= seq!['.']));
        dot
    } else if name.len() == 2 {
        let dot = name[0] == '.' && name[1] == '.';
        assert(dot == (name@ =~= seq!['.', '.']));
        dot
    } else {
        false
    }
}

fn join_path(dir: &Vec<char>, name: &str) -> (path: String)
    ensures
        path@ == joined_path(dir@, name@),
{
    let end: usize = strip_trailing_end(dir, 0, dir.len(), '/');
    assert(dir@.subrange(0, dir@.len() as int) =~= dir@);
    let mut path = string_of(dir, 0, end);
    path.push('/');
    path.append(name);
    path
}

fn copy_entry(entry: &RemoteFileEntry) -> (copy: RemoteFileEntry)
    ensures
        copy == *entry,
{
    RemoteFileEntry {
        name: entry.name.clone(),
        path: entry.path.clone(),
        is_dir: entry.is_dir,
        size: entry.size,
        modified: entry.modified,
        permissions: entry.permissions,
    }
}

/// Makes the listing of a directory from what the server names in it.
///
/// `.` and `..` are left out. Every other name becomes an entry with its
/// path within `path`; a missing size counts as 0. The entries stand in
/// the order of a listing: directories first, then by name without regard
/// to case.
pub fn list_dir(path: &str, raw: &Vec<RemoteDirEntry>) -> (entries: Vec<RemoteFileEntry>)
    ensures
        entries@.len() == listed(raw@, raw@.len() as int).len(),
        forall|k: int|
            0 <= k < entries@.len() ==> entry_from(
                #[trigger] entries@[k],
                path@,
                raw@[listing_source(raw@, k)],
            ),
{
    let dir = chars_of(path);
    let mut unsorted: Vec<RemoteFileEntry> = Vec::new();
    let mut keys: Vec<(bool, Vec<char>)> = Vec::new();
    let mut i: usize = 0;
    while i < raw.len()
        invariant
            i <= raw@.len(),
            dir@ == path@,
            unsorted@.len() == listed(raw@, i as int).len(),
            keys@.len() == unsorted@.len(),
            forall|j: int|
                0 <= j < unsorted@.len() ==> entry_from(
                    #[trigger] unsorted@[j],
                    path@,
                    raw@[listed(raw@, i as int)[j]],
                ),
            forall|j: int|
                0 <= j < keys@.len() ==> ((#[trigger] keys@[j]).0, keys@[j].1@) == key_of(
                    raw@[listed(raw@, i as int)[j]].is_dir,
                    raw@[listed(raw@, i as int)[j]].name@,
                ),
        decreases raw@.len() - i,
    {
        let item = &raw[i];
        let name_chars = chars_of(item.name.as_str());
        proof {
            lemma_listed(raw@, i as int);
        }
        if !is_dot(&name_chars) {
            let entry = RemoteFileEntry {
                name: item.name.clone(),
                path: join_path(&dir, item.name.as_str()),
                is_dir: item.is_dir,
                size: match item.size {
                    Some(size) => size,
                    None => 0,
                },
                modified: match item.mtime {
                    Some(time) => Some(time as u64),
                    None => None,
                },
                permissions: item.permissions,
            };
            unsorted.push(entry);
            keys.push(make_key(item.is_dir, item.name.as_str()));
        }
        i += 1;
    }
    let ghost kept = listed(raw@, raw@.len() as int);
    assert(keys_view(keys@) =~= listed_keys(raw@));
    let order = sort_order(&keys);
    let mut entries: Vec<RemoteFileEntry> = Vec::new();
    let mut k: usize = 0;
    while k < order.len()
        invariant
            k <= order@.len(),
            kept == listed(raw@, raw@.len() as int),
            order@.len() == unsorted@.len(),
            unsorted@.len() == kept.len(),
            order@ == sorted_order(listed_keys(raw@), kept.len() as int),
            forall|j: int| 0 <= j < order@.len() ==> (#[trigger] order@[j]) < unsorted@.len(),
            forall|j: int|
                0 <= j < unsorted@.len() ==> entry_from(
                    #[trigger] unsorted@[j],
                    path@,
                    raw@[kept[j]],
                ),
            entries@.len() == k,
            forall|j: int|
                0 <= j < k ==> entry_from(
                    #[trigger] entries@[j],
                    path@,
                    raw@[listing_source(raw@, j)],
                ),
        decreases order@.len() - k,
    {
        let at: usize = order[k];
        assert(entry_from(unsorted@[at as int], path@, raw@[kept[at as int]]));
        entries.push(copy_entry(&unsorted[at]));
        k += 1;
    }
    entries
}

} // verus!
