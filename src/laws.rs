//! Properties of the anomaly report that hold for every tree.

use vstd::prelude::*;

use crate::message::{broken_message, hard_link_message, outside_message};
use crate::paths::{relative_to, within};
use crate::scan::{anomaly_of, messages, report, scan_result, Entry};

verus! {

/// The report of two runs of entries visited one after the other is the
/// report of the first followed by that of the second: each entry gives its
/// own anomaly, whatever stands around it.
pub proof fn lemma_report_concat(root: Seq<char>, a: Seq<Entry>, b: Seq<Entry>)
    ensures
        report(root, a + b) == report(root, a) + report(root, b),
    decreases b.len(),
{
    if b.len() == 0 {
        assert(a + b =~= a);
        assert(report(root, a) + report(root, b) =~= report(root, a));
    } else {
        assert((a + b).drop_last() =~= a + b.drop_last());
        assert((a + b).last() == b.last());
        lemma_report_concat(root, a, b.drop_last());
        match anomaly_of(root, b.last()) {
            Some(m) => {
                assert(report(root, a) + report(root, b) =~= (report(root, a) + report(
                    root,
                    b.drop_last(),
                )).push(m));
            },
            None => {},
        }
    }
}

/// A directory, an entry that could not be read, or a regular file with a
/// single hard link.
pub open spec fn is_plain_entry(e: Entry) -> bool {
    match e {
        Entry::Directory => true,
        Entry::Unreadable => true,
        Entry::File { links, .. } => links == 1,
        _ => false,
    }
}

/// A tree of directories, unreadable entries and files with a single hard
/// link, and nothing else, gives no anomaly: the scan reports absence.
pub proof fn lemma_clean_tree(root: Seq<char>, entries: Seq<Entry>)
    requires
        forall|i: int| 0 <= i < entries.len() ==> is_plain_entry(#[trigger] entries[i]),
    ensures
        report(root, entries).len() == 0,
        scan_result(root, entries) is None,
    decreases entries.len(),
{
    if entries.len() > 0 {
        let rest = entries.drop_last();
        assert forall|i: int| 0 <= i < rest.len() implies is_plain_entry(#[trigger] rest[i]) by {
            assert(rest[i] == entries[i]);
        }
        lemma_clean_tree(root, rest);
        assert(entries.last() == entries[entries.len() - 1]);
    }
}

/// A symbolic link that resolves outside the root gives exactly one anomaly,
/// of the "pointing outside" form, naming the link.
pub proof fn lemma_escaping_link(root: Seq<char>, path: String, target: String, dest: String)
    requires
        !within(root, dest@),
    ensures
        report(root, seq![(Entry::Symlink { path, target, resolved: Some(dest) })]) == seq![
            outside_message(relative_to(root, path@), target@),
        ],
{
    let s = seq![(Entry::Symlink { path, target, resolved: Some(dest) })];
    assert(s.drop_last() =~= Seq::<Entry>::empty());
    assert(report(root, s.drop_last()) == Seq::<Seq<char>>::empty());
    assert(s.last() == s[0]);
    assert(report(root, s) =~= seq![outside_message(relative_to(root, path@), target@)]);
}

/// A symbolic link whose destination cannot be resolved, because it does not
/// exist or because resolving it loops, gives exactly one anomaly, of the
/// "broken" form, naming the link.
pub proof fn lemma_unresolvable_link(root: Seq<char>, path: String, target: String)
    ensures
        report(root, seq![(Entry::Symlink { path, target, resolved: None })]) == seq![
            broken_message(relative_to(root, path@), target@),
        ],
{
    let s = seq![(Entry::Symlink { path, target, resolved: None })];
    assert(s.drop_last() =~= Seq::<Entry>::empty());
    assert(report(root, s.drop_last()) == Seq::<Seq<char>>::empty());
    assert(s.last() == s[0]);
    assert(report(root, s) =~= seq![broken_message(relative_to(root, path@), target@)]);
}

/// A regular file whose hard-link count is not one gives exactly one anomaly,
/// which reports that count.
pub proof fn lemma_multi_linked_file(root: Seq<char>, path: String, links: u64)
    requires
        links != 1,
    ensures
        report(root, seq![(Entry::File { path, links })]) == seq![
            hard_link_message(relative_to(root, path@), links as nat),
        ],
{
    let s = seq![(Entry::File { path, links })];
    assert(s.drop_last() =~= Seq::<Entry>::empty());
    assert(report(root, s.drop_last()) == Seq::<Seq<char>>::empty());
    assert(s.last() == s[0]);
    assert(report(root, s) =~= seq![hard_link_message(relative_to(root, path@), links as nat)]);
}

/// Two names of one file with `links` hard links are each reported, both with
/// that count.
pub proof fn lemma_hard_linked_names(root: Seq<char>, first: String, second: String, links: u64)
    requires
        links != 1,
    ensures
        report(
            root,
            seq![(Entry::File { path: first, links }), (Entry::File { path: second, links })],
        ) == seq![
            hard_link_message(relative_to(root, first@), links as nat),
            hard_link_message(relative_to(root, second@), links as nat),
        ],
{
    let a = seq![(Entry::File { path: first, links })];
    let b = seq![(Entry::File { path: second, links })];
    lemma_multi_linked_file(root, first, links);
    lemma_multi_linked_file(root, second, links);
    lemma_report_concat(root, a, b);
    assert(a + b =~= seq![
        (Entry::File { path: first, links }),
        (Entry::File { path: second, links }),
    ]);
    assert(report(root, a) + report(root, b) =~= seq![
        hard_link_message(relative_to(root, first@), links as nat),
        hard_link_message(relative_to(root, second@), links as nat),
    ]);
}

/// A tree with one escaping link, one unresolvable link and one multi-linked
/// file among plain entries gives exactly three anomalies, one for each issue
/// and in the order in which the walk met them.
pub proof fn lemma_independent_issues(
    root: Seq<char>,
    before: Seq<Entry>,
    escaping: Entry,
    between: Seq<Entry>,
    broken: Entry,
    later: Seq<Entry>,
    shared: Entry,
    after: Seq<Entry>,
)
    requires
        forall|i: int| 0 <= i < before.len() ==> is_plain_entry(#[trigger] before[i]),
        forall|i: int| 0 <= i < between.len() ==> is_plain_entry(#[trigger] between[i]),
        forall|i: int| 0 <= i < later.len() ==> is_plain_entry(#[trigger] later[i]),
        forall|i: int| 0 <= i < after.len() ==> is_plain_entry(#[trigger] after[i]),
        escaping matches Entry::Symlink { resolved: Some(dest), .. } && !within(root, dest@),
        broken matches Entry::Symlink { resolved: None, .. },
        shared matches Entry::File { links, .. } && links != 1,
    ensures
        report(
            root,
            before + seq![escaping] + between + seq![broken] + later + seq![shared] + after,
        ) == seq![
            anomaly_of(root, escaping).unwrap(),
            anomaly_of(root, broken).unwrap(),
            anomaly_of(root, shared).unwrap(),
        ],
        anomaly_of(root, escaping) == Some(
            outside_message(relative_to(root, escaping->Symlink_path@), escaping->Symlink_target@),
        ),
        anomaly_of(root, broken) == Some(
            broken_message(relative_to(root, broken->Symlink_path@), broken->Symlink_target@),
        ),
        anomaly_of(root, shared) == Some(
            hard_link_message(relative_to(root, shared->File_path@), shared->links as nat),
        ),
{
    lemma_clean_tree(root, before);
    lemma_clean_tree(root, between);
    lemma_clean_tree(root, later);
    lemma_clean_tree(root, after);
    let one = |e: Entry| seq![e];
    assert forall|e: Entry| anomaly_of(root, e) is Some implies #[trigger] report(root, one(e))
        == seq![anomaly_of(root, e).unwrap()] by {
        assert(one(e).drop_last() =~= Seq::<Entry>::empty());
        assert(report(root, one(e).drop_last()) == Seq::<Seq<char>>::empty());
        assert(one(e).last() == e);
        assert(report(root, one(e)) =~= seq![anomaly_of(root, e).unwrap()]);
    }
    let s1 = before + one(escaping);
    let s2 = s1 + between;
    let s3 = s2 + one(broken);
    let s4 = s3 + later;
    let s5 = s4 + one(shared);
    lemma_report_concat(root, before, one(escaping));
    lemma_report_concat(root, s1, between);
    lemma_report_concat(root, s2, one(broken));
    lemma_report_concat(root, s3, later);
    lemma_report_concat(root, s4, one(shared));
    lemma_report_concat(root, s5, after);
    assert(report(root, s5 + after) =~= seq![
        anomaly_of(root, escaping).unwrap(),
        anomaly_of(root, broken).unwrap(),
        anomaly_of(root, shared).unwrap(),
    ]);
}

/// Two scans of the same entries give the same messages in the same order.
pub proof fn lemma_scan_deterministic(
    root: Seq<char>,
    entries: Seq<Entry>,
    first: Option<Vec<String>>,
    second: Option<Vec<String>>,
)
    requires
        messages(first) == scan_result(root, entries),
        messages(second) == scan_result(root, entries),
    ensures
        messages(first) == messages(second),
{
}

/// A scan result is either absent, exactly when there is no anomaly, or a
/// list that holds at least one message: never an empty list.
pub proof fn lemma_absent_or_nonempty(
    root: Seq<char>,
    entries: Seq<Entry>,
    r: Option<Vec<String>>,
)
    requires
        messages(r) == scan_result(root, entries),
    ensures
        r is None <==> report(root, entries).len() == 0,
        r matches Some(v) ==> v@.len() > 0,
{
    if let Some(v) = r {
        assert(v@.map_values(|s: String| s@).len() == v@.len());
    }
}

} // verus!
