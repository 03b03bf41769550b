//! The hosts that were selected before, most recent first.

use crate::teleport::{host_views, Host, HostView, Hosts};
use crate::seqs::{
    keeps_order, lemma_filter_all, lemma_filter_keeps_order, lemma_filter_none, lemma_filter_push,
    picks,
};
use crate::text::same_text;
use std::path::PathBuf;
use vstd::prelude::*;

verus! {

/// `std::path::PathBuf`, which the history carries and never looks into.
#[verifier::external_type_specification]
#[verifier::external_body]
pub struct ExPathBuf(PathBuf);

/// The hosts that were selected before, most recent first, and the file that holds them.
#[derive(Debug)]
pub struct History {
    pub entries: Vec<Host>,
    pub path: PathBuf,
}

/// Whether one of the hosts has the given key.
pub open spec fn has_key(hosts: Seq<HostView>, key: Seq<char>) -> bool {
    exists|i: int| 0 <= i < hosts.len() && (#[trigger] hosts[i]).key() == key
}

/// No key occurs twice among the hosts.
pub open spec fn distinct_keys(hosts: Seq<HostView>) -> bool {
    forall|i: int, j: int|
        0 <= i < j < hosts.len() ==> (#[trigger] hosts[i]).key() != (#[trigger] hosts[j]).key()
}

/// The predicate of having another key than `key`.
pub open spec fn other_than(key: Seq<char>) -> spec_fn(HostView) -> bool {
    |h: HostView| h.key() != key
}

/// The predicate of having the key of one of `hosts`.
pub open spec fn known_to(hosts: Seq<HostView>) -> spec_fn(HostView) -> bool {
    |h: HostView| has_key(hosts, h.key())
}

/// The entries after `host` was selected: `host` first, then the entries with another key, in
/// their order.
pub open spec fn updated(entries: Seq<HostView>, host: HostView) -> Seq<HostView> {
    seq![host] + entries.filter(other_than(host.key()))
}

/// The entries whose key one of `hosts` has, in their order.
pub open spec fn intersected(entries: Seq<HostView>, hosts: Seq<HostView>) -> Seq<HostView> {
    entries.filter(known_to(hosts))
}

/// Selecting two hosts with one key in a row leaves what selecting the second alone leaves:
/// the second host first, and no other entry with its key.
pub proof fn lemma_update_twice(entries: Seq<HostView>, first: HostView, second: HostView)
    requires
        first.key() == second.key(),
    ensures
        updated(updated(entries, first), second) == updated(entries, second),
        updated(entries, second)[0] == second,
        forall|i: int|
            0 < i < updated(entries, second).len() ==> (#[trigger] updated(entries, second)[i]).key()
                != second.key(),
{
    let keep = other_than(second.key());
    let rest = entries.filter(keep);
    assert forall|i: int| 0 < i < updated(entries, second).len() implies (#[trigger] updated(
        entries,
        second,
    )[i]).key() != second.key() by {
        assert(updated(entries, second)[i] == rest[i - 1]);
        entries.lemma_filter_pred(keep, i - 1);
    }
    Seq::filter_distributes_over_add(seq![first], rest, keep);
    lemma_filter_none(seq![first], keep);
    lemma_filter_all(rest, keep);
    assert(seq![first].filter(keep) + rest.filter(keep) =~= rest);
}

/// Taking entries out of a history without a key twice leaves no key twice.
proof fn lemma_filter_keeps_distinct(entries: Seq<HostView>, keep: spec_fn(HostView) -> bool)
    requires
        distinct_keys(entries),
    ensures
        distinct_keys(entries.filter(keep)),
{
    let kept = entries.filter(keep);
    lemma_filter_keeps_order(entries, keep);
    let at = choose|at: Seq<int>| picks(at, kept, entries);
    assert forall|i: int, j: int| 0 <= i < j < kept.len() implies (#[trigger] kept[i]).key() != (
    #[trigger] kept[j]).key() by {
        assert(entries[at[i]] == kept[i]);
        assert(entries[at[j]] == kept[j]);
    }
}

/// A history without a key twice has none twice after a host was selected.
pub proof fn lemma_updated_keeps_distinct(entries: Seq<HostView>, host: HostView)
    requires
        distinct_keys(entries),
    ensures
        distinct_keys(updated(entries, host)),
{
    let keep = other_than(host.key());
    let rest = entries.filter(keep);
    lemma_filter_keeps_distinct(entries, keep);
    let all = updated(entries, host);
    assert forall|i: int, j: int| 0 <= i < j < all.len() implies (#[trigger] all[i]).key() != (
    #[trigger] all[j]).key() by {
        assert(all[j] == rest[j - 1]);
        entries.lemma_filter_pred(keep, j - 1);
        if i > 0 {
            assert(all[i] == rest[i - 1]);
        }
    }
}

/// A history without a key twice has none twice after it was cut down to an inventory.
pub proof fn lemma_intersected_keeps_distinct(entries: Seq<HostView>, hosts: Seq<HostView>)
    requires
        distinct_keys(entries),
    ensures
        distinct_keys(intersected(entries, hosts)),
{
    lemma_filter_keeps_distinct(entries, known_to(hosts));
}

/// What `intersected` keeps and what it drops: each entry that is kept has the key of one of
/// `hosts`, each entry with such a key is kept, and what is kept stays in its order.
pub proof fn lemma_intersected_keeps_known(entries: Seq<HostView>, hosts: Seq<HostView>)
    ensures
        keeps_order(intersected(entries, hosts), entries),
        forall|i: int|
            0 <= i < intersected(entries, hosts).len() ==> has_key(
                hosts,
                (#[trigger] intersected(entries, hosts)[i]).key(),
            ),
        forall|i: int|
            0 <= i < entries.len() && has_key(hosts, (#[trigger] entries[i]).key())
                ==> intersected(entries, hosts).contains(entries[i]),
{
    let keep = known_to(hosts);
    lemma_filter_keeps_order(entries, keep);
    assert forall|i: int| 0 <= i < intersected(entries, hosts).len() implies has_key(
        hosts,
        (#[trigger] intersected(entries, hosts)[i]).key(),
    ) by {
        entries.lemma_filter_pred(keep, i);
    }
    assert forall|i: int|
        0 <= i < entries.len() && has_key(hosts, (#[trigger] entries[i]).key()) implies intersected(
        entries,
        hosts,
    ).contains(entries[i]) by {
        entries.lemma_filter_contains(keep, i);
    }
}

/// Whether one of `hosts` has the key `key`.
pub fn contains_key(hosts: &Vec<Host>, key: &str) -> (found: bool)
    ensures
        found == has_key(host_views(hosts@), key@),
{
    let mut i: usize = 0;
    while i < hosts.len()
        invariant
            i <= hosts.len(),
            forall|k: int| 0 <= k < i ==> (#[trigger] host_views(hosts@)[k]).key() != key@,
        decreases hosts.len() - i,
    {
        if same_text(hosts[i].key(), key) {
            assert(host_views(hosts@)[i as int].key() == key@);
            return true;
        }
        i += 1;
    }
    false
}

impl History {
    /// The entries as the contracts speak of them.
    pub open spec fn view(&self) -> Seq<HostView> {
        host_views(self.entries@)
    }

    /// No key stands twice in the history. A history that `new` made and that only
    /// `update` and `intersect` have changed is well formed.
    pub open spec fn well_formed(&self) -> bool {
        distinct_keys(self@)
    }

    /// A history without entries, kept at `path`.
    pub fn new(path: PathBuf) -> (history: Self)
        ensures
            history@ == Seq::<HostView>::empty(),
            history.path == path,
            history.well_formed(),
    {
        let history = History { entries: Vec::new(), path };
        assert(history@ =~= Seq::<HostView>::empty());
        history
    }

    /// Records that `host` was selected: it becomes the first entry, and any earlier entry
    /// with its key leaves.
    pub fn update(self, host: &Host) -> (history: Self)
        ensures
            history@ == updated(self@, host@),
            history.path == self.path,
            self.well_formed() ==> history.well_formed(),
    {
        proof {
            if self.well_formed() {
                lemma_updated_keeps_distinct(self@, host@);
            }
        }
        let ghost keep = other_than(host@.key());
        let mut entries: Vec<Host> = Vec::new();
        entries.push(host.clone());
        let path = self.path;
        assert(self@.take(0).filter(keep) =~= Seq::<HostView>::empty()) by {
            reveal(Seq::filter);
        }
        for entry in it: self.entries
            invariant
                it.seq() == self.entries@,
                keep == other_than(host@.key()),
                host_views(entries@) == seq![host@] + self@.take(it.index() as int).filter(keep),
        {
            proof {
                let done = self@.take(it.index() as int);
                assert(self@.take(it.index() + 1) == done.push(entry@));
                lemma_filter_push(done, entry@, keep);
            }
            if !same_text(entry.key(), host.key()) {
                let ghost kept = self@.take(it.index() as int).filter(keep);
                entries.push(entry);
                assert(seq![host@] + kept.push(entry@) == (seq![host@] + kept).push(entry@));
            }
        }
        assert(self@.take(self@.len() as int) == self@);
        History { entries, path }
    }

    /// Forgets the entries whose key none of `hosts` has; the others keep their order.
    pub fn intersect(self, hosts: &Hosts) -> (history: Self)
        ensures
            history@ == intersected(self@, host_views(hosts@)),
            history.path == self.path,
            self.well_formed() ==> history.well_formed(),
    {
        proof {
            if self.well_formed() {
                lemma_intersected_keeps_distinct(self@, host_views(hosts@));
            }
        }
        let ghost keep = known_to(host_views(hosts@));
        let mut entries: Vec<Host> = Vec::new();
        let path = self.path;
        assert(self@.take(0).filter(keep) =~= Seq::<HostView>::empty()) by {
            reveal(Seq::filter);
        }
        for entry in it: self.entries
            invariant
                it.seq() == self.entries@,
                keep == known_to(host_views(hosts@)),
                host_views(entries@) == self@.take(it.index() as int).filter(keep),
        {
            proof {
                let done = self@.take(it.index() as int);
                assert(self@.take(it.index() + 1) == done.push(entry@));
                lemma_filter_push(done, entry@, keep);
            }
            if contains_key(hosts, entry.key()) {
                entries.push(entry);
            }
        }
        assert(self@.take(self@.len() as int) == self@);
        History { entries, path }
    }
}

} // verus!
