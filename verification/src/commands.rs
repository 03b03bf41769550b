//! What the commands of the launcher compute between their calls to the outside world.

use crate::history::{
    contains_key, distinct_keys, has_key, intersected, known_to, updated, History,
};
use crate::seqs::{
    lemma_filter_all, lemma_filter_first, lemma_filter_keeps_order, lemma_filter_none,
    lemma_filter_push, lemma_filter_single_len, lemma_filter_split_len, picks,
};
use crate::prelude::Error;
use crate::select::{
    host_lines, select, select_teleport_host, selected_host, selects, SelectArgs, Step,
};
use crate::teleport::{cluster_of, host_views, Host, HostView};
use crate::text::{
    contains, contains_text, ends_with_char, followed_by, lemma_text_le_antisymmetric,
    lemma_text_le_reflexive, lines, lines_of, same_text, text_le, texts,
};
use itertools::Itertools;
use std::path::Path;
use vstd::prelude::*;
use vstd::seq_lib::to_multiset_len;
use vstd::string::*;

verus! {

/// The predicate of having a key that none of `hosts` has.
pub open spec fn unknown_to(hosts: Seq<HostView>) -> spec_fn(HostView) -> bool {
    |h: HostView| !has_key(hosts, h.key())
}

/// The hosts offered for selection: the entries of the history that the inventory still
/// knows, most recent first, then the hosts of the inventory whose key is not among those,
/// in the inventory's order.
pub open spec fn candidates(inventory: Seq<HostView>, history: Seq<HostView>) -> Seq<HostView> {
    let recents = intersected(history, inventory);
    recents + inventory.filter(unknown_to(recents))
}

/// With nothing selected before, the hosts are offered as the inventory lists them.
pub proof fn lemma_candidates_without_history(inventory: Seq<HostView>)
    ensures
        candidates(inventory, Seq::empty()) == inventory,
{
    let none = Seq::<HostView>::empty();
    lemma_filter_none(none, known_to(inventory));
    lemma_filter_all(inventory, unknown_to(none));
    assert(none + inventory =~= inventory);
}

/// As many hosts are offered as the history has entries that the inventory still knows, and
/// the inventory has hosts whose key is not among those.
pub proof fn lemma_candidates_len(inventory: Seq<HostView>, history: Seq<HostView>)
    ensures
        candidates(inventory, history).len() == intersected(history, inventory).len()
            + inventory.len() - inventory.filter(known_to(intersected(history, inventory))).len(),
{
    let recents = intersected(history, inventory);
    let all = |h: HostView| true;
    lemma_filter_all(inventory, all);
    lemma_filter_split_len(inventory, all, known_to(recents), unknown_to(recents));
}

/// As many hosts of `inventory` have a key of `history` as `history` has entries, where the
/// keys of `history` are distinct and each stands at exactly one place of `inventory`.
proof fn lemma_known_len(inventory: Seq<HostView>, history: Seq<HostView>)
    requires
        distinct_keys(history),
        forall|i: int| 0 <= i < history.len() ==> has_key(inventory, (#[trigger] history[i]).key()),
        forall|i: int, j: int|
            0 <= i < j < inventory.len() && (#[trigger] inventory[i]).key() == (
            #[trigger] inventory[j]).key() ==> !has_key(history, inventory[i].key()),
    ensures
        inventory.filter(known_to(history)).len() == history.len(),
    decreases history.len(),
{
    if history.len() == 0 {
        lemma_filter_none(inventory, known_to(history));
    } else {
        let earlier = history.drop_last();
        let last = history.last();
        let same = |h: HostView| h.key() == last.key();
        assert forall|i: int| 0 <= i < earlier.len() implies has_key(
            inventory,
            (#[trigger] earlier[i]).key(),
        ) by {
            assert(earlier[i] == history[i]);
        }
        assert forall|k: Seq<char>| has_key(earlier, k) implies has_key(history, k) by {
            let i = choose|i: int| 0 <= i < earlier.len() && (#[trigger] earlier[i]).key() == k;
            assert(history[i].key() == k);
        }
        assert forall|k: Seq<char>| has_key(history, k) implies has_key(earlier, k) || k
            == last.key() by {
            let i = choose|i: int| 0 <= i < history.len() && (#[trigger] history[i]).key() == k;
            if i < earlier.len() {
                assert(earlier[i].key() == k);
            }
        }
        assert(!has_key(earlier, last.key())) by {
            if has_key(earlier, last.key()) {
                let i = choose|i: int|
                    0 <= i < earlier.len() && (#[trigger] earlier[i]).key() == last.key();
                assert(history[i].key() == history[history.len() - 1].key());
            }
        }
        lemma_known_len(inventory, earlier);
        assert(has_key(history, last.key())) by {
            assert(history[history.len() - 1].key() == last.key());
        }
        lemma_filter_split_len(inventory, known_to(history), known_to(earlier), same);
        let at = choose|i: int| 0 <= i < inventory.len() && (#[trigger] inventory[i]).key() == last.key();
        assert(has_key(inventory, history[history.len() - 1].key()));
        lemma_filter_single_len(inventory, same, at);
    }
}

/// Where the keys of the history are distinct and each is the key of exactly one host of
/// the inventory, as many hosts are offered as the inventory lists, and the history stands
/// at the front in its own order.
pub proof fn lemma_candidates_of_known_history(inventory: Seq<HostView>, history: Seq<HostView>)
    requires
        distinct_keys(history),
        forall|i: int| 0 <= i < history.len() ==> has_key(inventory, (#[trigger] history[i]).key()),
        forall|i: int, j: int|
            0 <= i < j < inventory.len() && (#[trigger] inventory[i]).key() == (
            #[trigger] inventory[j]).key() ==> !has_key(history, inventory[i].key()),
    ensures
        candidates(inventory, history).len() == inventory.len(),
        candidates(inventory, history).take(history.len() as int) == history,
{
    lemma_filter_all(history, known_to(inventory));
    lemma_known_len(inventory, history);
    let all = |h: HostView| true;
    lemma_filter_all(inventory, all);
    lemma_filter_split_len(inventory, all, known_to(history), unknown_to(history));
    assert(candidates(inventory, history).take(history.len() as int) =~= history);
}

/// The hosts to offer for selection, and the history without the hosts that the inventory no
/// longer knows.
pub fn add_recents(hosts: Vec<Host>, history: History) -> (offer: (Vec<Host>, History))
    ensures
        host_views(offer.0@) == candidates(host_views(hosts@), history@),
        offer.1@ == intersected(history@, host_views(hosts@)),
        offer.1.path == history.path,
        history.well_formed() ==> offer.1.well_formed(),
{
    let recents = history.intersect(&hosts);
    let ghost skip = unknown_to(recents@);
    let mut offered: Vec<Host> = Vec::new();
    let mut i: usize = 0;
    while i < recents.entries.len()
        invariant
            i <= recents.entries.len(),
            host_views(offered@) == recents@.take(i as int),
        decreases recents.entries.len() - i,
    {
        offered.push(recents.entries[i].clone());
        assert(recents@.take(i + 1) == recents@.take(i as int).push(recents.entries@[i as int]@));
        i += 1;
    }
    assert(recents@.take(i as int) == recents@);
    assert(host_views(hosts@).take(0).filter(skip) =~= Seq::<HostView>::empty()) by {
        reveal(Seq::filter);
    }
    assert(recents@ + Seq::<HostView>::empty() == recents@);
    for host in it: hosts
        invariant
            it.seq() == hosts@,
            skip == unknown_to(recents@),
            host_views(offered@) == recents@ + host_views(hosts@).take(it.index() as int).filter(
                skip,
            ),
    {
        proof {
            let done = host_views(hosts@).take(it.index() as int);
            assert(host_views(hosts@).take(it.index() + 1) == done.push(host@));
            lemma_filter_push(done, host@, skip);
        }
        if !contains_key(&recents.entries, host.key()) {
            let ghost kept = host_views(hosts@).take(it.index() as int).filter(skip);
            offered.push(host);
            assert(recents@ + kept.push(host@) == (recents@ + kept).push(host@));
        }
    }
    assert(host_views(hosts@).take(hosts@.len() as int) == host_views(hosts@));
    (offered, recents)
}

/// How far the selection of a host has come without the operator.
#[derive(Debug)]
pub struct Offer {
    /// The hosts offered for selection, those of the history first.
    pub hosts: Vec<Host>,
    /// The history without the hosts that the inventory no longer knows. It is to be stored
    /// whatever comes of the selection.
    pub recents: History,
    /// What the selector decided among the hosts offered.
    pub step: Result<Step, Error>,
}

/// The selection of a host from the inventory `hosts`, as far as the history and the hint
/// `start_value` decide it: the hosts are offered as `candidates` orders them and shown as
/// `host_lines` shows them, and the selector decides among those lines by the hint.
pub fn select_host(hosts: Vec<Host>, history: History, start_value: &str) -> (offer: Offer)
    ensures
        host_views(offer.hosts@) == candidates(host_views(hosts@), history@),
        offer.recents@ == intersected(history@, host_views(hosts@)),
        offer.recents.path == history.path,
        history.well_formed() ==> offer.recents.well_formed(),
        selects(offer.step, ""@, host_lines(host_views(offer.hosts@)), start_value@),
        offer.step is Ok && offer.step->Ok_0 is Done ==> offer.step->Ok_0->Done_0
            < offer.hosts@.len(),
{
    let (offered, recents) = add_recents(hosts, history);
    let args = SelectArgs { hosts: offered, start_value: start_value.to_owned() };
    let step = select_teleport_host(&args);
    Offer { hosts: args.hosts, recents, step }
}

/// The end of the selection of a host: the host at the place `index` of the hosts offered,
/// and the history with that host recorded as the most recent. Nothing where no host stands
/// at that place.
pub fn record_host(hosts: &Vec<Host>, recents: History, index: usize) -> (chosen: Option<
    (Host, History),
>)
    ensures
        match chosen {
            None => index >= hosts@.len(),
            Some((host, history)) => {
                &&& index < hosts@.len()
                &&& host@ == hosts@[index as int]@
                &&& history@ == updated(recents@, host@)
                &&& history.path == recents.path
                &&& recents.well_formed() ==> history.well_formed()
            },
        },
{
    match selected_host(hosts, index) {
        None => None,
        Some(host) => {
            let history = recents.update(&host);
            Some((host, history))
        },
    }
}

/// One node of a file system, as a listing of its directory shows it.
#[derive(Debug)]
pub struct Entry {
    /// Where the node is: the directory that was listed, joined with the name.
    pub path: String,
    /// The name as the listing has it; that of a directory of a remote listing ends in `/`.
    pub file_name: String,
    pub is_dir: bool,
    /// Set while the entry is marked in a list; nothing here reads it.
    pub is_selected: bool,
}

#[verifier::ext_equal]
pub struct EntryView {
    pub path: Seq<char>,
    pub file_name: Seq<char>,
    pub is_dir: bool,
    pub is_selected: bool,
}

impl View for Entry {
    type V = EntryView;

    open spec fn view(&self) -> EntryView {
        EntryView {
            path: self.path@,
            file_name: self.file_name@,
            is_dir: self.is_dir,
            is_selected: self.is_selected,
        }
    }
}

impl Clone for Entry {
    fn clone(&self) -> (copy: Self)
        ensures
            copy@ == self@,
    {
        Entry {
            path: self.path.clone(),
            file_name: self.file_name.clone(),
            is_dir: self.is_dir,
            is_selected: self.is_selected,
        }
    }
}

/// The views of a sequence of entries, in the same order.
pub open spec fn entry_views(entries: Seq<Entry>) -> Seq<EntryView> {
    entries.map_values(|e: Entry| e@)
}

/// The key by which entries are ordered: `a` for a directory and `b` for a file, then the
/// name.
pub open spec fn sort_key(entry: EntryView) -> Seq<char> {
    if entry.is_dir {
        seq!['a'] + entry.file_name
    } else {
        seq!['b'] + entry.file_name
    }
}

/// The keys put a directory before a file, and two entries of one kind in the order of
/// their names.
pub proof fn lemma_sort_key_order(x: EntryView, y: EntryView)
    ensures
        text_le(sort_key(x), sort_key(y)) == if x.is_dir == y.is_dir {
            text_le(x.file_name, y.file_name)
        } else {
            x.is_dir
        },
{
    assert(sort_key(x).skip(1) == x.file_name);
    assert(sort_key(y).skip(1) == y.file_name);
}

/// The sort key of `entry`: see `sort_key`.
pub fn key_of(entry: &Entry) -> (key: String)
    ensures
        key@ == sort_key(entry@),
{
    proof {
        reveal_strlit("a");
        reveal_strlit("b");
    }
    assert("a"@ == seq!['a']);
    assert("b"@ == seq!['b']);
    if entry.is_dir {
        followed_by("a", entry.file_name.as_str())
    } else {
        followed_by("b", entry.file_name.as_str())
    }
}

/// Each entry stands before the later ones in the order of the sort keys.
pub open spec fn in_key_order(entries: Seq<EntryView>) -> bool {
    forall|i: int, j: int|
        0 <= i < j < entries.len() ==> text_le(
            sort_key(#[trigger] entries[i]),
            sort_key(#[trigger] entries[j]),
        )
}

/// The predicate of having the sort key `key`.
pub open spec fn keyed(key: Seq<char>) -> spec_fn(EntryView) -> bool {
    |e: EntryView| sort_key(e) == key
}

/// Whether `sorted` is `entries` sorted by a stable sort: it holds the same entries, each as
/// often, in the order of their sort keys, those with one key in the order in which `entries`
/// has them.
pub open spec fn sorts(sorted: Seq<EntryView>, entries: Seq<EntryView>) -> bool {
    &&& sorted.to_multiset() == entries.to_multiset()
    &&& in_key_order(sorted)
    &&& forall|key: Seq<char>| #[trigger]
        sorted.filter(keyed(key)) == entries.filter(keyed(key))
}

/// The first of entries in key order has the key of the first of any other entries in key
/// order that hold, key by key, the same entries.
proof fn lemma_first_key(a: Seq<EntryView>, b: Seq<EntryView>)
    requires
        a.len() > 0,
        b.len() > 0,
        in_key_order(a),
        forall|key: Seq<char>| #[trigger] a.filter(keyed(key)) == b.filter(keyed(key)),
    ensures
        text_le(sort_key(a[0]), sort_key(b[0])),
{
    let key = sort_key(b[0]);
    lemma_filter_first(b, keyed(key));
    lemma_filter_keeps_order(a, keyed(key));
    let kept = a.filter(keyed(key));
    assert(kept == b.filter(keyed(key)));
    assert(kept[0] == b[0]);
    let at = choose|at: Seq<int>| picks(at, kept, a);
    assert(a[at[0]] == b[0]);
    if at[0] > 0 {
        assert(text_le(sort_key(a[0]), sort_key(a[at[0]])));
    } else {
        lemma_text_le_reflexive(sort_key(a[0]));
    }
}

/// Entries in key order that hold, key by key, the same entries in the same order are the
/// same entries in the same order.
proof fn lemma_key_order_is_unique(a: Seq<EntryView>, b: Seq<EntryView>)
    requires
        a.len() == b.len(),
        in_key_order(a),
        in_key_order(b),
        forall|key: Seq<char>| #[trigger] a.filter(keyed(key)) == b.filter(keyed(key)),
    ensures
        a == b,
    decreases a.len(),
{
    if a.len() == 0 {
        assert(a =~= b);
    } else {
        lemma_first_key(a, b);
        assert forall|key: Seq<char>| #[trigger] b.filter(keyed(key)) == a.filter(keyed(key)) by {
            assert(a.filter(keyed(key)) == b.filter(keyed(key)));
        }
        lemma_first_key(b, a);
        lemma_text_le_antisymmetric(sort_key(a[0]), sort_key(b[0]));
        let first = sort_key(a[0]);
        lemma_filter_first(a, keyed(first));
        lemma_filter_first(b, keyed(first));
        assert(a.filter(keyed(first)) == b.filter(keyed(first)));
        assert(a.filter(keyed(first))[0] == a[0]);
        assert(b.filter(keyed(first))[0] == b[0]);
        let rest_a = a.skip(1);
        let rest_b = b.skip(1);
        assert forall|i: int, j: int| 0 <= i < j < rest_a.len() implies text_le(
            sort_key(#[trigger] rest_a[i]),
            sort_key(#[trigger] rest_a[j]),
        ) by {
            assert(rest_a[i] == a[i + 1]);
            assert(rest_a[j] == a[j + 1]);
        }
        assert forall|i: int, j: int| 0 <= i < j < rest_b.len() implies text_le(
            sort_key(#[trigger] rest_b[i]),
            sort_key(#[trigger] rest_b[j]),
        ) by {
            assert(rest_b[i] == b[i + 1]);
            assert(rest_b[j] == b[j + 1]);
        }
        assert forall|key: Seq<char>| #[trigger]
            rest_a.filter(keyed(key)) == rest_b.filter(keyed(key)) by {
            lemma_filter_first(a, keyed(key));
            lemma_filter_first(b, keyed(key));
            assert(a.filter(keyed(key)) == b.filter(keyed(key)));
            if key == first {
                assert((seq![a[0]] + rest_a.filter(keyed(key))).skip(1) =~= rest_a.filter(
                    keyed(key),
                ));
                assert((seq![b[0]] + rest_b.filter(keyed(key))).skip(1) =~= rest_b.filter(
                    keyed(key),
                ));
            }
        }
        lemma_key_order_is_unique(rest_a, rest_b);
        assert(a =~= seq![a[0]] + rest_a);
        assert(b =~= seq![b[0]] + rest_b);
    }
}

/// What `sorts` asks for is one sequence: two that sort the same entries are equal.
pub proof fn lemma_sorts_is_unique(a: Seq<EntryView>, b: Seq<EntryView>, entries: Seq<EntryView>)
    requires
        sorts(a, entries),
        sorts(b, entries),
    ensures
        a == b,
{
    to_multiset_len(a);
    to_multiset_len(b);
    assert forall|key: Seq<char>| #[trigger] a.filter(keyed(key)) == b.filter(keyed(key)) by {
        assert(a.filter(keyed(key)) == entries.filter(keyed(key)));
        assert(b.filter(keyed(key)) == entries.filter(keyed(key)));
    }
    lemma_key_order_is_unique(a, b);
}

/// Directories stand before files, and the entries of each kind in the order of their names.
pub open spec fn directories_first(entries: Seq<EntryView>) -> bool {
    forall|i: int, j: int|
        0 <= i < j < entries.len() ==> {
            &&& (#[trigger] entries[j]).is_dir ==> (#[trigger] entries[i]).is_dir
            &&& entries[i].is_dir == entries[j].is_dir ==> text_le(
                entries[i].file_name,
                entries[j].file_name,
            )
        }
}

/// `itertools::Itertools::sorted_by_key` on the entries, with `key_of` as the key. It sorts by
/// `slice::sort_by_key`: the entries that came are put into rising order of the keys, which
/// as strings are ordered by their bytes and so by the code points of their characters. The
/// sort is stable: entries with one key stay in the order in which they came.
#[verifier::external_body]
fn sorted_by_key(entries: Vec<Entry>) -> (sorted: Vec<Entry>)
    ensures
        sorts(entry_views(sorted@), entry_views(entries@)),
{
    entries.into_iter().sorted_by_key(|e| key_of(e)).collect()
}

/// The entries with directories first, then by name: see `sorts` and `directories_first`.
pub fn sort_entries(entries: Vec<Entry>) -> (sorted: Vec<Entry>)
    ensures
        sorts(entry_views(sorted@), entry_views(entries@)),
        directories_first(entry_views(sorted@)),
        sorted@.len() == entries@.len(),
{
    let sorted = sorted_by_key(entries);
    proof {
        to_multiset_len(entry_views(sorted@));
        to_multiset_len(entry_views(entries@));
        let views = entry_views(sorted@);
        assert forall|i: int, j: int| 0 <= i < j < views.len() implies {
            &&& (#[trigger] views[j]).is_dir ==> (#[trigger] views[i]).is_dir
            &&& views[i].is_dir == views[j].is_dir ==> text_le(
                views[i].file_name,
                views[j].file_name,
            )
        } by {
            lemma_sort_key_order(views[i], views[j]);
        }
    }
    sorted
}

/// `std::path::Path::join` of the path written in `base` with `name`, as text. How the two
/// are joined is the platform's matter; nothing is claimed of the result.
#[verifier::external_body]
fn join_path(base: &str, name: &str) -> (path: String) {
    Path::new(base).join(name).to_string_lossy().into_owned()
}

/// `std::path::Path::parent` of the path written in `dir`, as text: the path without its
/// final component, where it has one. What is returned is a beginning of `dir` and shorter.
#[verifier::external_body]
fn parent_of(dir: &str) -> (parent: Option<String>)
    ensures
        parent matches Some(p) ==> p@.len() < dir@.len() && p@.is_prefix_of(dir@),
{
    Path::new(dir).parent().map(|p| p.to_string_lossy().into_owned())
}

/// Whether `entry` is what the line `line` of a listing says: the line is the name, a line
/// that ends in `/` is a directory, and nothing is selected.
pub open spec fn lists(entry: EntryView, line: Seq<char>) -> bool {
    &&& entry.file_name == line
    &&& entry.is_dir == (line.len() > 0 && line.last() == '/')
    &&& !entry.is_selected
}

/// Whether `entries` are what the lines of a listing say, one by one.
pub open spec fn lists_all(entries: Seq<EntryView>, lines: Seq<Seq<char>>) -> bool {
    &&& entries.len() == lines.len()
    &&& forall|i: int| 0 <= i < entries.len() ==> lists(#[trigger] entries[i], lines[i])
}

/// The entry at `path` that the line `line` of a listing says.
pub fn entry_of(line: &str, path: String) -> (entry: Entry)
    ensures
        lists(entry@, line@),
        entry@.path == path@,
{
    Entry {
        file_name: line.to_owned(),
        path,
        is_dir: ends_with_char(line, '/'),
        is_selected: false,
    }
}

/// The entries that the output of `ls -p` says, one for each of its lines, sorted with
/// directories first and then by name. Never fails.
pub fn parse_ls_output(ls_output: &str, base_path: &str) -> (parsed: Result<Vec<Entry>, Error>)
    ensures
        parsed is Ok,
        exists|listed: Seq<EntryView>| #[trigger]
            lists_all(listed, lines_of(ls_output@)) && sorts(
                entry_views(parsed->Ok_0@),
                listed,
            ),
        directories_first(entry_views(parsed->Ok_0@)),
        parsed->Ok_0@.len() == lines_of(ls_output@).len(),
{
    let names = lines(ls_output);
    let mut listed: Vec<Entry> = Vec::new();
    let mut i: usize = 0;
    while i < names.len()
        invariant
            i <= names.len(),
            texts(names@) == lines_of(ls_output@),
            lists_all(entry_views(listed@), texts(names@).take(i as int)),
        decreases names.len() - i,
    {
        let name = names[i].as_str();
        let entry = entry_of(name, join_path(base_path, name));
        let ghost before = entry_views(listed@);
        listed.push(entry);
        assert(entry_views(listed@) == before.push(entry@));
        assert forall|k: int| 0 <= k < i + 1 implies lists(
            #[trigger] entry_views(listed@)[k],
            texts(names@).take(i + 1)[k],
        ) by {
            if k < i {
                assert(entry_views(listed@)[k] == before[k]);
                assert(texts(names@).take(i + 1)[k] == texts(names@).take(i as int)[k]);
            }
        }
        i += 1;
    }
    assert(texts(names@).take(i as int) == texts(names@));
    let ghost witness = entry_views(listed@);
    let sorted = sort_entries(listed);
    assert(lists_all(witness, lines_of(ls_output@)) && sorts(entry_views(sorted@), witness));
    Ok(sorted)
}

/// The name under which a listing shows the directory itself.
pub open spec fn current_name() -> Seq<char> {
    "./"@
}

/// The name under which a listing shows the directory above.
pub open spec fn parent_name() -> Seq<char> {
    "../"@
}

/// The predicate of being another name than that of the directory itself.
pub open spec fn offered() -> spec_fn(EntryView) -> bool {
    |e: EntryView| e.file_name != current_name()
}

/// The names offered to the operator: those of the entries, in their order, but for the
/// directory itself.
pub open spec fn choice_names(entries: Seq<EntryView>) -> Seq<Seq<char>> {
    entries.filter(offered()).map_values(|e: EntryView| e.file_name)
}

/// The names to pick from: see `choice_names`.
pub fn choices(entries: &Vec<Entry>) -> (names: Vec<String>)
    ensures
        texts(names@) == choice_names(entry_views(entries@)),
{
    let ghost views = entry_views(entries@);
    let mut names: Vec<String> = Vec::new();
    let mut i: usize = 0;
    assert(views.take(0).filter(offered()) =~= Seq::<EntryView>::empty()) by {
        reveal(Seq::filter);
    }
    while i < entries.len()
        invariant
            i <= entries.len(),
            views == entry_views(entries@),
            texts(names@) == choice_names(views.take(i as int)),
        decreases entries.len() - i,
    {
        let entry = &entries[i];
        proof {
            let done = views.take(i as int);
            assert(views.take(i + 1) == done.push(entry@));
            lemma_filter_push(done, entry@, offered());
        }
        if !same_text(entry.file_name.as_str(), "./") {
            let ghost before = names@;
            let ghost kept = views.take(i as int).filter(offered());
            names.push(entry.file_name.clone());
            assert(texts(names@) == texts(before).push(entry@.file_name));
            assert(kept.push(entry@).map_values(|e: EntryView| e.file_name) == kept.map_values(
                |e: EntryView| e.file_name,
            ).push(entry@.file_name));
        }
        i += 1;
    }
    assert(views.take(i as int) == views);
    names
}

/// Decides on the choice among the entries of a listing: the operator is asked to pick one
/// of the names that `choices` gives, with no message and no hint; a listing without such
/// a name fails with `EmptyList`.
pub fn select_entry(entries: &Vec<Entry>) -> (step: Result<Step, Error>)
    ensures
        selects(step, ""@, choice_names(entry_views(entries@)), ""@),
        choice_names(entry_views(entries@)).len() == 0 ==> step == Err::<Step, Error>(
            Error::EmptyList,
        ),
        choice_names(entry_views(entries@)).len() > 0 ==> step is Ok && step->Ok_0 is Ask,
{
    proof {
        reveal_strlit("");
    }
    let names = choices(entries);
    select("", &names, "")
}

/// The first entry with the name `name`.
pub open spec fn first_named(entries: Seq<EntryView>, name: Seq<char>) -> Option<EntryView>
    decreases entries.len(),
{
    if entries.len() == 0 {
        None
    } else if entries[0].file_name == name {
        Some(entries[0])
    } else {
        first_named(entries.skip(1), name)
    }
}

/// The first entry with the name `name`: see `first_named`.
pub fn find_entry<'a>(entries: &'a Vec<Entry>, name: &str) -> (found: Option<&'a Entry>)
    ensures
        match found {
            Some(entry) => first_named(entry_views(entries@), name@) == Some(entry@),
            None => first_named(entry_views(entries@), name@) is None,
        },
{
    let ghost views = entry_views(entries@);
    let mut i: usize = 0;
    assert(views.skip(0) == views);
    while i < entries.len()
        invariant
            i <= entries.len(),
            views == entry_views(entries@),
            first_named(views, name@) == first_named(views.skip(i as int), name@),
        decreases entries.len() - i,
    {
        assert(views.skip(i as int)[0] == entries@[i as int]@);
        assert(views.skip(i as int).skip(1) == views.skip(i + 1));
        if same_text(entries[i].file_name.as_str(), name) {
            return Some(&entries[i]);
        }
        i += 1;
    }
    None
}

/// Where the browser goes after a choice.
#[derive(Debug)]
pub enum Browse {
    /// On to the listing of this directory.
    Descend(String),
    /// The browsing ends: this is the path of the file that was chosen.
    Found(String),
}

pub enum BrowseView {
    Descend(Seq<char>),
    Found(Seq<char>),
}

impl View for Browse {
    type V = BrowseView;

    open spec fn view(&self) -> BrowseView {
        match self {
            Browse::Descend(dir) => BrowseView::Descend(dir@),
            Browse::Found(path) => BrowseView::Found(path@),
        }
    }
}

/// The text of a string that may be there.
pub open spec fn text_of(s: Option<String>) -> Option<Seq<char>> {
    match s {
        Some(s) => Some(s@),
        None => None,
    }
}

/// Where the browser goes from `base_dir` when `entry` was chosen, `below` being the path
/// of the entry and `above` the directory above `base_dir`, if there is one: a file ends
/// the browsing with its path; the entry `../` leads to the directory above, or nowhere
/// where there is none; any other directory leads into it.
pub open spec fn advanced(
    entry: EntryView,
    base_dir: Seq<char>,
    below: Seq<char>,
    above: Option<Seq<char>>,
) -> BrowseView {
    if !entry.is_dir {
        BrowseView::Found(below)
    } else if entry.file_name == parent_name() {
        match above {
            Some(parent) => BrowseView::Descend(parent),
            None => BrowseView::Descend(base_dir),
        }
    } else {
        BrowseView::Descend(below)
    }
}

/// The step of the browser from `base_dir` on the choice of `entry`: see `advanced`.
pub fn advance(entry: &Entry, base_dir: &str, below: String, above: Option<String>) -> (next:
    Browse)
    ensures
        next@ == advanced(entry@, base_dir@, below@, text_of(above)),
{
    if !entry.is_dir {
        Browse::Found(below)
    } else if same_text(entry.file_name.as_str(), "../") {
        match above {
            Some(parent) => Browse::Descend(parent),
            None => Browse::Descend(base_dir.to_owned()),
        }
    } else {
        Browse::Descend(below)
    }
}

/// Whether `dir` is `base_dir` or a shorter beginning of it.
pub open spec fn at_or_above(dir: Seq<char>, base_dir: Seq<char>) -> bool {
    dir == base_dir || (dir.len() < base_dir.len() && dir.is_prefix_of(base_dir))
}

/// Where the remote browser of the host addressed as `host_name` goes from `base_dir` on the
/// choice of an entry other than `../`: a file ends the browsing with
/// `host_name:base_dir/name`, a directory leads to `base_dir/name`.
pub open spec fn remote_step(host_name: Seq<char>, base_dir: Seq<char>, entry: EntryView) -> BrowseView {
    if entry.is_dir {
        BrowseView::Descend(base_dir + "/"@ + entry.file_name)
    } else {
        BrowseView::Found(host_name + ":"@ + base_dir + "/"@ + entry.file_name)
    }
}

/// The step of the remote browser: the operator chose the name `file` in the listing
/// `entries` of `base_dir` on the host addressed as `host_name`. Nothing follows where no
/// entry has that name. The directory `../` leads to the directory above `base_dir` as the
/// platform's paths have it, or nowhere where there is none; for any other entry see
/// `remote_step`.
pub fn browse_remote(host_name: &str, base_dir: &str, entries: &Vec<Entry>, file: &str) -> (next:
    Option<Browse>)
    ensures
        match first_named(entry_views(entries@), file@) {
            None => next is None,
            Some(entry) => next is Some && if entry.is_dir && entry.file_name == parent_name() {
                next->0@ matches BrowseView::Descend(dir) && at_or_above(dir, base_dir@)
            } else {
                next->0@ == remote_step(host_name@, base_dir@, entry)
            },
        },
{
    match find_entry(entries, file) {
        None => None,
        Some(entry) => {
            let mut below = String::new();
            assert(below@ + base_dir@ == base_dir@);
            if !entry.is_dir {
                below.append(host_name);
                below.append(":");
            }
            below.append(base_dir);
            below.append("/");
            below.append(entry.file_name.as_str());
            Some(advance(entry, base_dir, below, parent_of(base_dir)))
        },
    }
}

/// The step of the local browser: the operator chose the name `file` in the listing
/// `entries` of `base_dir`. Nothing follows where no entry has that name. A file ends the
/// browsing, another directory than `../` is entered, each with the path that the platform
/// makes of `base_dir` and the name; the directory `../` leads to the directory above
/// `base_dir`, or nowhere where there is none.
pub fn browse_local(base_dir: &str, entries: &Vec<Entry>, file: &str) -> (next: Option<Browse>)
    ensures
        match first_named(entry_views(entries@), file@) {
            None => next is None,
            Some(entry) => next is Some && if !entry.is_dir {
                next->0@ is Found
            } else if entry.file_name == parent_name() {
                next->0@ matches BrowseView::Descend(dir) && at_or_above(dir, base_dir@)
            } else {
                next->0@ is Descend
            },
        },
{
    match find_entry(entries, file) {
        None => None,
        Some(entry) => {
            let below = join_path(base_dir, entry.file_name.as_str());
            Some(advance(entry, base_dir, below, parent_of(base_dir)))
        },
    }
}

/// The command that asks the remote shell for the directory in which the browsing starts.
pub const PWD_COMMAND: &'static str = "pwd";

/// The command that lists `base_dir` for the remote browser.
pub fn list_command(base_dir: &str) -> (command: String)
    ensures
        command@ == "ls --group-directories-first -pa1 "@ + base_dir@,
{
    followed_by("ls --group-directories-first -pa1 ", base_dir)
}

/// How the remote shell and the copy tool address a host: `ubuntu@`, its hostname, `.aws`.
pub fn remote_target(host: &Host) -> (target: String)
    ensures
        target@ == "ubuntu@"@ + host@.spec.hostname + ".aws"@,
{
    let mut target = followed_by("ubuntu@", host.name());
    target.append(".aws");
    target
}

/// A call of an outside program: which one, and with which arguments.
#[derive(Debug)]
pub struct Invocation {
    pub program: String,
    pub args: Vec<String>,
}

pub struct InvocationView {
    pub program: Seq<char>,
    pub args: Seq<Seq<char>>,
}

impl View for Invocation {
    type V = InvocationView;

    open spec fn view(&self) -> InvocationView {
        InvocationView { program: self.program@, args: texts(self.args@) }
    }
}

/// The arguments that every call of the access client begins with.
pub open spec fn common_tsh_args() -> Seq<Seq<char>> {
    seq!["--proxy"@, "gate.mago.cloud"@, "--auth"@, "github"@]
}

/// The call of the access client with `tail` after the common arguments.
pub open spec fn tsh_call(tail: Seq<Seq<char>>) -> InvocationView {
    InvocationView { program: "tsh"@, args: common_tsh_args() + tail }
}

/// The call of the copy tool that copies `from` to `to`, directories with what they hold.
pub open spec fn scp_call(from: Seq<char>, to: Seq<char>) -> InvocationView {
    InvocationView { program: "scp"@, args: seq!["-r"@, from, to] }
}

/// The user and the hostname under which the access client logs in.
pub open spec fn login(host: HostView) -> Seq<char> {
    "ubuntu@"@ + host.spec.hostname
}

/// The call of the access client with the common arguments and then those of `tail`.
fn tsh(tail: Vec<String>) -> (call: Invocation)
    ensures
        call@ == tsh_call(texts(tail@)),
{
    let mut args: Vec<String> = Vec::new();
    args.push("--proxy".to_owned());
    args.push("gate.mago.cloud".to_owned());
    args.push("--auth".to_owned());
    args.push("github".to_owned());
    assert(texts(args@) == common_tsh_args());
    let mut tail = tail;
    let ghost added = texts(tail@);
    args.append(&mut tail);
    assert(texts(args@) == common_tsh_args() + added);
    Invocation { program: "tsh".to_owned(), args }
}

/// The call that opens a shell on `host`.
pub fn ssh(host: &Host) -> (call: Invocation)
    ensures
        call@ == tsh_call(seq!["ssh"@, login(host@)]),
{
    let mut tail: Vec<String> = Vec::new();
    tail.push("ssh".to_owned());
    tail.push(followed_by("ubuntu@", host.name()));
    assert(texts(tail@) == seq!["ssh"@, login(host@)]);
    tsh(tail)
}

/// The call that runs `command` on `host`.
pub fn exec(host: &Host, command: &str) -> (call: Invocation)
    ensures
        call@ == tsh_call(seq!["ssh"@, login(host@), command@]),
{
    let mut tail: Vec<String> = Vec::new();
    tail.push("ssh".to_owned());
    tail.push(followed_by("ubuntu@", host.name()));
    tail.push(command.to_owned());
    assert(texts(tail@) == seq!["ssh"@, login(host@), command@]);
    tsh(tail)
}

/// The folder that the editor opens on `host`: the root of the host reached through its
/// cluster.
pub open spec fn editor_uri(host: HostView) -> Seq<char> {
    "vscode-remote://ssh-remote+ubuntu@"@ + host.spec.hostname + "."@ + cluster_of(
        host.metadata.labels,
    ) + "/"@
}

/// The call of the editor `code_cmd` that attaches it to `host`.
pub fn code(code_cmd: &str, host: &Host) -> (call: Invocation)
    ensures
        call@ == (InvocationView {
            program: code_cmd@,
            args: seq!["--folder-uri"@, editor_uri(host@)],
        }),
{
    let mut uri = followed_by("vscode-remote://ssh-remote+ubuntu@", host.ssh_name().as_str());
    uri.append("/");
    assert(uri@ == editor_uri(host@));
    let mut args: Vec<String> = Vec::new();
    args.push("--folder-uri".to_owned());
    args.push(uri);
    assert(texts(args@) == seq!["--folder-uri"@, editor_uri(host@)]);
    Invocation { program: code_cmd.to_owned(), args }
}

/// The call of the copy tool that copies `from` to `to`.
pub fn scp_execute(from: &str, to: &str) -> (call: Invocation)
    ensures
        call@ == scp_call(from@, to@),
{
    let mut args: Vec<String> = Vec::new();
    args.push("-r".to_owned());
    args.push(from.to_owned());
    args.push(to.to_owned());
    assert(texts(args@) == seq!["-r"@, from@, to@]);
    Invocation { program: "scp".to_owned(), args }
}

/// The call that fetches the remote file at `path`, a path as the remote browser resolves
/// it, into the current directory.
pub fn get_file(path: &str) -> (call: Invocation)
    ensures
        call@ == scp_call(path@, "."@),
{
    scp_execute(path, ".")
}

/// The call that sends the local file at `path` to the home directory on `host`.
pub fn put_file(path: &str, host: &Host) -> (call: Invocation)
    ensures
        call@ == scp_call(path@, "ubuntu@"@ + host@.spec.hostname + ".aws"@ + ":"@),
{
    let mut to = remote_target(host);
    to.append(":");
    scp_execute(path, to.as_str())
}

/// The line that marks the part of a shell client's configuration that the access client
/// wrote.
pub open spec fn teleport_marker() -> Seq<char> {
    "# Begin generated Teleport configuration"@
}

/// What is to be done so that the shell client's configuration, whose text is `ssh_config`,
/// knows the access client: nothing where it holds the marker; else the call whose output is
/// to be written after it.
pub fn append_tsh_to_ssh_config(ssh_config: &str) -> (call: Option<Invocation>)
    ensures
        contains_text(ssh_config@, teleport_marker()) ==> call is None,
        !contains_text(ssh_config@, teleport_marker()) ==> call is Some && call->0@ == tsh_call(
            seq!["config"@],
        ),
{
    if contains(ssh_config, "# Begin generated Teleport configuration") {
        return None;
    }
    let mut tail: Vec<String> = Vec::new();
    tail.push("config".to_owned());
    assert(texts(tail@) == seq!["config"@]);
    Some(tsh(tail))
}

/// Where the inventory comes from.
#[derive(Debug)]
pub enum Source {
    /// From the cache: these are its bytes.
    Cache(Vec<u8>),
    /// From the inventory source: the output of this call, which is also to be written to
    /// the cache as it comes.
    Fetch(Invocation),
}

/// Where the inventory comes from, `cache` being what the cache file holds, if there is
/// one: a cache is used however old it is; without one the inventory source is asked for the
/// host list as JSON.
pub fn get_hosts(cache: Option<Vec<u8>>) -> (source: Source)
    ensures
        match cache {
            Some(bytes) => source matches Source::Cache(held) && held@ == bytes@,
            None => source matches Source::Fetch(call) && call@ == tsh_call(
                seq!["ls"@, "-f"@, "json"@],
            ),
        },
{
    match cache {
        Some(bytes) => Source::Cache(bytes),
        None => {
            let mut tail: Vec<String> = Vec::new();
            tail.push("ls".to_owned());
            tail.push("-f".to_owned());
            tail.push("json".to_owned());
            assert(texts(tail@) == seq!["ls"@, "-f"@, "json"@]);
            Source::Fetch(tsh(tail))
        },
    }
}

} // verus!
