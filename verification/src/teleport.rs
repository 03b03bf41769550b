//! The hosts of the fleet as the inventory reports them.

use crate::seqs::lemma_filter_push;
use crate::text::{followed_by, join, joined, same_text, starts_with, texts};
use vstd::prelude::*;
use vstd::std_specs::cmp::PartialEqSpecImpl;
use vstd::string::*;

verus! {

/// One label of a host.
#[derive(Debug)]
pub struct Label {
    pub key: String,
    pub value: String,
}

/// What identifies a host and annotates it.
#[derive(Debug)]
pub struct Metadata {
    /// The stable unique key of the host.
    pub name: String,
    /// The labels of the host, each key at most once; their order carries no meaning.
    pub labels: Vec<Label>,
    pub expires: String,
    /// The inventory's numeric id, held as the bit pattern of the number it was reported as.
    pub id: u64,
}

/// How a host is reached.
#[derive(Debug)]
pub struct Spec {
    pub addr: String,
    pub hostname: String,
    pub use_tunnel: Option<bool>,
    pub version: String,
    pub public_addr: Option<String>,
}

/// One member of the fleet.
#[derive(Debug)]
pub struct Host {
    pub kind: String,
    pub version: String,
    pub metadata: Metadata,
    pub spec: Spec,
}

/// The inventory: hosts in the order in which the source reported them.
pub type Hosts = Vec<Host>;

#[verifier::ext_equal]
pub struct LabelView {
    pub key: Seq<char>,
    pub value: Seq<char>,
}

#[verifier::ext_equal]
pub struct MetadataView {
    pub name: Seq<char>,
    pub labels: Seq<LabelView>,
    pub expires: Seq<char>,
    pub id: u64,
}

#[verifier::ext_equal]
pub struct SpecView {
    pub addr: Seq<char>,
    pub hostname: Seq<char>,
    pub use_tunnel: Option<bool>,
    pub version: Seq<char>,
    pub public_addr: Option<Seq<char>>,
}

#[verifier::ext_equal]
pub struct HostView {
    pub kind: Seq<char>,
    pub version: Seq<char>,
    pub metadata: MetadataView,
    pub spec: SpecView,
}

impl View for Label {
    type V = LabelView;

    open spec fn view(&self) -> LabelView {
        LabelView { key: self.key@, value: self.value@ }
    }
}

impl View for Metadata {
    type V = MetadataView;

    open spec fn view(&self) -> MetadataView {
        MetadataView {
            name: self.name@,
            labels: self.labels@.map_values(|l: Label| l@),
            expires: self.expires@,
            id: self.id,
        }
    }
}

impl View for Spec {
    type V = SpecView;

    open spec fn view(&self) -> SpecView {
        SpecView {
            addr: self.addr@,
            hostname: self.hostname@,
            use_tunnel: self.use_tunnel,
            version: self.version@,
            public_addr: match self.public_addr {
                Some(a) => Some(a@),
                None => None,
            },
        }
    }
}

impl View for Host {
    type V = HostView;

    open spec fn view(&self) -> HostView {
        HostView {
            kind: self.kind@,
            version: self.version@,
            metadata: self.metadata@,
            spec: self.spec@,
        }
    }
}

impl HostView {
    /// The unique key of the host.
    pub open spec fn key(self) -> Seq<char> {
        self.metadata.name
    }
}

/// The views of a sequence of hosts, in the same order.
pub open spec fn host_views(hosts: Seq<Host>) -> Seq<HostView> {
    hosts.map_values(|h: Host| h@)
}

/// No label key occurs twice.
pub open spec fn distinct_label_keys(labels: Seq<LabelView>) -> bool {
    forall|i: int, j: int|
        0 <= i < j < labels.len() ==> (#[trigger] labels[i]).key != (#[trigger] labels[j]).key
}

/// The value of the first label whose key is `key`.
pub open spec fn label_value(labels: Seq<LabelView>, key: Seq<char>) -> Option<Seq<char>>
    decreases labels.len(),
{
    if labels.len() == 0 {
        None
    } else if labels[0].key == key {
        Some(labels[0].value)
    } else {
        label_value(labels.skip(1), key)
    }
}

/// Where no key stands twice, each label is the one that its key finds.
pub proof fn lemma_label_found(labels: Seq<LabelView>, at: int)
    requires
        distinct_label_keys(labels),
        0 <= at < labels.len(),
    ensures
        label_value(labels, labels[at].key) == Some(labels[at].value),
    decreases labels.len(),
{
    if at > 0 {
        let rest = labels.skip(1);
        assert forall|i: int, j: int| 0 <= i < j < rest.len() implies (#[trigger] rest[i]).key != (
        #[trigger] rest[j]).key by {
            assert(rest[i] == labels[i + 1]);
            assert(rest[j] == labels[j + 1]);
        }
        lemma_label_found(rest, at - 1);
        assert(labels[0].key != labels[at].key);
    }
}

/// The label key under which a host names its cluster.
pub open spec fn cluster_key() -> Seq<char> {
    "cluster"@
}

/// The cluster that the labels name, or the empty text where they name none.
pub open spec fn cluster_of(labels: Seq<LabelView>) -> Seq<char> {
    match label_value(labels, cluster_key()) {
        Some(cluster) => cluster,
        None => Seq::empty(),
    }
}

/// The prefix of the label keys that are kept out of what is shown of a host.
pub open spec fn internal_prefix() -> Seq<char> {
    "teleport.internal"@
}

/// Whether a label is shown: its key does not begin with the internal prefix.
pub open spec fn is_shown(label: LabelView) -> bool {
    !internal_prefix().is_prefix_of(label.key)
}

/// `is_shown` as a predicate to filter by.
pub open spec fn shown() -> spec_fn(LabelView) -> bool {
    |label: LabelView| is_shown(label)
}

/// How one label is shown: key, colon, space, value.
pub open spec fn label_text(label: LabelView) -> Seq<char> {
    label.key + ": "@ + label.value
}

/// `label_text` as a function to map by.
pub open spec fn shown_as() -> spec_fn(LabelView) -> Seq<char> {
    |label: LabelView| label_text(label)
}

/// How the labels of a host are shown: the shown labels in their order, each as
/// `key: value`, with a comma and a space between each two.
pub open spec fn label_summary(labels: Seq<LabelView>) -> Seq<char> {
    joined(labels.filter(shown()).map_values(shown_as()), ", "@)
}

impl Clone for Label {
    fn clone(&self) -> (copy: Self)
        ensures
            copy@ == self@,
    {
        Label { key: self.key.clone(), value: self.value.clone() }
    }
}

impl Clone for Metadata {
    fn clone(&self) -> (copy: Self)
        ensures
            copy@ == self@,
    {
        let mut labels: Vec<Label> = Vec::new();
        let mut i: usize = 0;
        while i < self.labels.len()
            invariant
                i <= self.labels.len(),
                labels@.len() == i,
                forall|k: int| 0 <= k < i ==> (#[trigger] labels@[k])@ == self.labels@[k]@,
            decreases self.labels.len() - i,
        {
            labels.push(self.labels[i].clone());
            i += 1;
        }
        let copy = Metadata {
            name: self.name.clone(),
            labels,
            expires: self.expires.clone(),
            id: self.id,
        };
        assert(copy@.labels =~= self@.labels);
        copy
    }
}

impl Clone for Spec {
    fn clone(&self) -> (copy: Self)
        ensures
            copy@ == self@,
    {
        let public_addr = match &self.public_addr {
            Some(a) => Some(a.clone()),
            None => None,
        };
        Spec {
            addr: self.addr.clone(),
            hostname: self.hostname.clone(),
            use_tunnel: self.use_tunnel,
            version: self.version.clone(),
            public_addr,
        }
    }
}

impl Clone for Host {
    fn clone(&self) -> (copy: Self)
        ensures
            copy@ == self@,
    {
        Host {
            kind: self.kind.clone(),
            version: self.version.clone(),
            metadata: self.metadata.clone(),
            spec: self.spec.clone(),
        }
    }
}

/// Two hosts are the same host when their keys are equal, whatever else they hold.
impl PartialEq for Host {
    fn eq(&self, other: &Self) -> (same: bool) {
        same_text(self.key(), other.key())
    }
}

impl PartialEqSpecImpl for Host {
    open spec fn obeys_eq_spec() -> bool {
        true
    }

    open spec fn eq_spec(&self, other: &Self) -> bool {
        self@.key() == other@.key()
    }
}

impl Host {
    /// No label key stands twice: the labels are a mapping from keys to values.
    pub open spec fn well_formed(&self) -> bool {
        distinct_label_keys(self@.metadata.labels)
    }

    /// The hostname under which the host is shown and addressed.
    pub fn name(&self) -> (name: &str)
        ensures
            name@ == self@.spec.hostname,
    {
        self.spec.hostname.as_str()
    }

    /// The unique key of the host.
    pub fn key(&self) -> (key: &str)
        ensures
            key@ == self@.key(),
    {
        self.metadata.name.as_str()
    }

    /// The value of the first label with the given key.
    pub fn label(&self, key: &str) -> (value: Option<&str>)
        ensures
            match value {
                Some(v) => label_value(self@.metadata.labels, key@) == Some(v@),
                None => label_value(self@.metadata.labels, key@) is None,
            },
    {
        let labels = &self.metadata.labels;
        let mut i: usize = 0;
        assert(self@.metadata.labels.skip(0) == self@.metadata.labels);
        while i < labels.len()
            invariant
                i <= labels.len(),
                labels == &self.metadata.labels,
                label_value(self@.metadata.labels, key@) == label_value(
                    self@.metadata.labels.skip(i as int),
                    key@,
                ),
            decreases labels.len() - i,
        {
            let ghost rest = self@.metadata.labels.skip(i as int);
            assert(rest[0] == labels@[i as int]@);
            assert(rest.skip(1) == self@.metadata.labels.skip(i + 1));
            if same_text(labels[i].key.as_str(), key) {
                return Some(labels[i].value.as_str());
            }
            i += 1;
        }
        None
    }

    /// The name under which the host is reached through its cluster: the hostname, a dot,
    /// and the cluster that the labels name (nothing after the dot where they name none).
    pub fn ssh_name(&self) -> (name: String)
        ensures
            name@ == self@.spec.hostname + "."@ + cluster_of(self@.metadata.labels),
    {
        let mut name = followed_by(self.spec.hostname.as_str(), ".");
        match self.label("cluster") {
            Some(cluster) => {
                name.append(cluster);
            },
            None => {
                assert(name@ + Seq::<char>::empty() == name@);
            },
        }
        name
    }

    /// What is shown of the host's labels: see `label_summary`.
    pub fn to_string(&self) -> (text: String)
        ensures
            text@ == label_summary(self@.metadata.labels),
    {
        let labels = &self.metadata.labels;
        let mut parts: Vec<String> = Vec::new();
        let mut i: usize = 0;
        while i < labels.len()
            invariant
                i <= labels.len(),
                labels == &self.metadata.labels,
                texts(parts@) == self@.metadata.labels.take(i as int).filter(shown()).map_values(
                    shown_as(),
                ),
            decreases labels.len() - i,
        {
            let label = &labels[i];
            proof {
                let done = self@.metadata.labels.take(i as int);
                assert(self@.metadata.labels.take(i + 1) == done.push(label@));
                lemma_filter_push(done, label@, shown());
            }
            if !starts_with(label.key.as_str(), "teleport.internal") {
                let mut part = followed_by(label.key.as_str(), ": ");
                part.append(label.value.as_str());
                let ghost before = parts@;
                parts.push(part);
                assert(texts(parts@) == texts(before).push(label_text(label@)));
                assert(self@.metadata.labels.take(i as int).filter(shown()).push(
                    label@,
                ).map_values(shown_as()) == self@.metadata.labels.take(i as int).filter(
                    shown(),
                ).map_values(shown_as()).push(label_text(label@)));
            }
            i += 1;
        }
        assert(self@.metadata.labels.take(i as int) == self@.metadata.labels);
        join(&parts, ", ")
    }
}

} // verus!
