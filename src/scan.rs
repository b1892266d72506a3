//! Classification of the entries of a tree and the report built from them.

use vstd::prelude::*;

use crate::message::{
    broken, broken_message, hard_link, hard_link_message, outside, outside_message, unknown,
    unknown_message,
};
use crate::paths::{is_within, relative, relative_to, within};

verus! {

/// What the walk observed of one entry under the root.
///
/// Paths are absolute, as the walk found them; `resolved` is the canonical
/// destination of a symbolic link, or `None` when that destination cannot be
/// resolved (it does not exist, or resolving it loops).
#[derive(Debug)]
pub enum Entry {
    /// A directory: the walk goes on inside it, and nothing is checked.
    Directory,
    /// An entry that could not be read; it is skipped by policy.
    Unreadable,
    /// A symbolic link with its raw target text.
    Symlink { path: String, target: String, resolved: Option<String> },
    /// A regular file with its hard-link count.
    File { path: String, links: u64 },
    /// Any other kind of entry (device, FIFO, socket).
    Other { path: String },
}

/// The anomaly that `e` gives in the tree rooted at `root`, if any. Entries
/// are named relative to the root.
pub open spec fn anomaly_of(root: Seq<char>, e: Entry) -> Option<Seq<char>> {
    match e {
        Entry::Directory => None,
        Entry::Unreadable => None,
        Entry::Symlink { path, target, resolved } => match resolved {
            None => Some(broken_message(relative_to(root, path@), target@)),
            Some(dest) => if within(root, dest@) {
                None
            } else {
                Some(outside_message(relative_to(root, path@), target@))
            },
        },
        Entry::File { path, links } => if links == 1 {
            None
        } else {
            Some(hard_link_message(relative_to(root, path@), links as nat))
        },
        Entry::Other { path } => Some(unknown_message(relative_to(root, path@))),
    }
}

/// The anomalies of `entries`, in the order in which they were visited.
pub open spec fn report(root: Seq<char>, entries: Seq<Entry>) -> Seq<Seq<char>>
    decreases entries.len(),
{
    if entries.len() == 0 {
        Seq::empty()
    } else {
        let earlier = report(root, entries.drop_last());
        match anomaly_of(root, entries.last()) {
            Some(m) => earlier.push(m),
            None => earlier,
        }
    }
}

/// The outcome of a scan: absent when there is no anomaly, else all of them.
pub open spec fn scan_result(root: Seq<char>, entries: Seq<Entry>) -> Option<Seq<Seq<char>>> {
    if report(root, entries).len() == 0 {
        None
    } else {
        Some(report(root, entries))
    }
}

/// The text of the messages that `r` holds.
pub open spec fn messages(r: Option<Vec<String>>) -> Option<Seq<Seq<char>>> {
    match r {
        None => None,
        Some(v) => Some(v@.map_values(|s: String| s@)),
    }
}

/// The anomaly that `e` gives in the tree rooted at `root`, if any.
pub fn classify(root: &str, e: &Entry) -> (r: Option<String>)
    ensures
        match r {
            Some(m) => anomaly_of(root@, *e) == Some(m@),
            None => anomaly_of(root@, *e) is None,
        },
{
    match e {
        Entry::Directory => None,
        Entry::Unreadable => None,
        Entry::Symlink { path, target, resolved } => {
            let name = relative(root, path.as_str());
            match resolved {
                None => Some(broken(name.as_str(), target.as_str())),
                Some(dest) => if is_within(root, dest.as_str()) {
                    None
                } else {
                    Some(outside(name.as_str(), target.as_str()))
                },
            }
        },
        Entry::File { path, links } => if *links == 1 {
            None
        } else {
            let name = relative(root, path.as_str());
            Some(hard_link(name.as_str(), *links))
        },
        Entry::Other { path } => {
            let name = relative(root, path.as_str());
            Some(unknown(name.as_str()))
        },
    }
}

/// Reports the anomalies among the entries of the tree rooted at `root`, in
/// the order given; `None` when there is none.
pub fn inspect(root: &str, entries: &Vec<Entry>) -> (r: Option<Vec<String>>)
    ensures
        messages(r) == scan_result(root@, entries@),
{
    let mut found: Vec<String> = Vec::new();
    let mut i: usize = 0;
    while i < entries.len()
        invariant
            i <= entries@.len(),
            found@.map_values(|s: String| s@) == report(root@, entries@.subrange(0, i as int)),
        decreases entries@.len() - i,
    {
        let ghost before = found@;
        assert(entries@.subrange(0, i + 1).drop_last() =~= entries@.subrange(0, i as int));
        match classify(root, &entries[i]) {
            Some(m) => {
                found.push(m);
                assert(found@.map_values(|s: String| s@) =~= before.map_values(
                    |s: String| s@,
                ).push(m@));
            },
            None => {},
        }
        i = i + 1;
    }
    assert(entries@.subrange(0, entries@.len() as int) =~= entries@);
    if found.len() == 0 {
        None
    } else {
        Some(found)
    }
}

} // verus!
