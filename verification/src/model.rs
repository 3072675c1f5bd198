//! The diagram model: what a diagram holds once its source has been read.
//!
//! Layout settings keep the decimal text that was written for them; the
//! geometry that is computed from them is not part of this library.

use vstd::prelude::*;
use crate::text::{chars_to_string, str_chars};

verus! {

/// A node of a diagram.
#[derive(Debug, Clone)]
pub struct NodeDef {
    pub id: String,
    pub label: String,
    pub provider: Option<String>,
    pub icon: Option<String>,
    /// Inline SVG of the node's icon, filled in by a resolver before rendering.
    pub icon_svg: Option<String>,
}

/// A cluster: a labelled group of nodes.
#[derive(Debug, Clone)]
pub struct ClusterDef {
    pub id: String,
    pub label: String,
    /// The ids of the nodes inside the cluster.
    pub children: Vec<String>,
    /// The provider (such as `aws`) whose style preset applies.
    pub provider: Option<String>,
    /// The kind of cluster (such as `vpc`) within the provider.
    pub cluster_type: Option<String>,
    pub icon_svg: Option<String>,
}

/// An edge from one node to another.
#[derive(Debug, Clone)]
pub struct EdgeDef {
    pub from: String,
    pub to: String,
    pub label: Option<String>,
}

/// Layout settings, each the decimal text of a number of pixels.
#[derive(Debug, Clone)]
pub struct LayoutConfig {
    pub icon_size: Option<String>,
    pub node_width: Option<String>,
    pub node_height: Option<String>,
    pub h_spacing: Option<String>,
    pub v_spacing: Option<String>,
}

/// Where the icons of one provider come from (`use aws from github:org/repo`).
#[derive(Debug, Clone)]
pub struct ProviderSource {
    pub provider: String,
    pub source: Option<String>,
}

/// The providers a diagram uses, each named once.
#[derive(Debug, Clone)]
pub struct ProviderSources {
    pub entries: Vec<ProviderSource>,
}

/// The settings of a diagram.
#[derive(Debug, Clone)]
pub struct Metadata {
    pub title: Option<String>,
    /// `TB` (top to bottom) or `LR` (left to right).
    pub direction: String,
    pub theme: String,
    pub provider_sources: ProviderSources,
    pub layout: Option<LayoutConfig>,
}

/// A diagram.
#[derive(Debug, Clone)]
pub struct DiagramIR {
    pub version: String,
    pub metadata: Metadata,
    pub nodes: Vec<NodeDef>,
    pub clusters: Vec<ClusterDef>,
    pub edges: Vec<EdgeDef>,
}

/// A fill and stroke colour pair given by a custom theme.
#[derive(Debug, Clone)]
pub struct NodeColorDef {
    pub fill: String,
    pub stroke: String,
}

// ───────────────────────── views ─────────────────────────

pub struct NodeView {
    pub id: Seq<char>,
    pub label: Seq<char>,
    pub provider: Option<Seq<char>>,
    pub icon: Option<Seq<char>>,
    pub icon_svg: Option<Seq<char>>,
}

pub struct ClusterView {
    pub id: Seq<char>,
    pub label: Seq<char>,
    pub children: Seq<Seq<char>>,
    pub provider: Option<Seq<char>>,
    pub cluster_type: Option<Seq<char>>,
    pub icon_svg: Option<Seq<char>>,
}

pub struct EdgeView {
    pub from: Seq<char>,
    pub to: Seq<char>,
    pub label: Option<Seq<char>>,
}

pub struct LayoutView {
    pub icon_size: Option<Seq<char>>,
    pub node_width: Option<Seq<char>>,
    pub node_height: Option<Seq<char>>,
    pub h_spacing: Option<Seq<char>>,
    pub v_spacing: Option<Seq<char>>,
}

pub struct MetadataView {
    pub title: Option<Seq<char>>,
    pub direction: Seq<char>,
    pub theme: Seq<char>,
    pub provider_sources: Seq<(Seq<char>, Option<Seq<char>>)>,
    pub layout: Option<LayoutView>,
}

pub struct DiagramView {
    pub version: Seq<char>,
    pub metadata: MetadataView,
    pub nodes: Seq<NodeView>,
    pub clusters: Seq<ClusterView>,
    pub edges: Seq<EdgeView>,
}

impl View for NodeDef {
    type V = NodeView;

    open spec fn view(&self) -> NodeView {
        NodeView {
            id: self.id@,
            label: self.label@,
            provider: self.provider.deep_view(),
            icon: self.icon.deep_view(),
            icon_svg: self.icon_svg.deep_view(),
        }
    }
}

impl View for ClusterDef {
    type V = ClusterView;

    open spec fn view(&self) -> ClusterView {
        ClusterView {
            id: self.id@,
            label: self.label@,
            children: self.children.deep_view(),
            provider: self.provider.deep_view(),
            cluster_type: self.cluster_type.deep_view(),
            icon_svg: self.icon_svg.deep_view(),
        }
    }
}

impl View for EdgeDef {
    type V = EdgeView;

    open spec fn view(&self) -> EdgeView {
        EdgeView { from: self.from@, to: self.to@, label: self.label.deep_view() }
    }
}

impl View for LayoutConfig {
    type V = LayoutView;

    open spec fn view(&self) -> LayoutView {
        LayoutView {
            icon_size: self.icon_size.deep_view(),
            node_width: self.node_width.deep_view(),
            node_height: self.node_height.deep_view(),
            h_spacing: self.h_spacing.deep_view(),
            v_spacing: self.v_spacing.deep_view(),
        }
    }
}

impl View for ProviderSource {
    type V = (Seq<char>, Option<Seq<char>>);

    open spec fn view(&self) -> (Seq<char>, Option<Seq<char>>) {
        (self.provider@, self.source.deep_view())
    }
}

/// The views of a list of values.
pub open spec fn views<T: View>(s: Seq<T>) -> Seq<T::V> {
    s.map_values(|x: T| x@)
}

impl View for ProviderSources {
    type V = Seq<(Seq<char>, Option<Seq<char>>)>;

    open spec fn view(&self) -> Seq<(Seq<char>, Option<Seq<char>>)> {
        views(self.entries@)
    }
}

impl View for Metadata {
    type V = MetadataView;

    open spec fn view(&self) -> MetadataView {
        MetadataView {
            title: self.title.deep_view(),
            direction: self.direction@,
            theme: self.theme@,
            provider_sources: self.provider_sources@,
            layout: match self.layout {
                Some(l) => Some(l@),
                None => None,
            },
        }
    }
}

impl View for DiagramIR {
    type V = DiagramView;

    open spec fn view(&self) -> DiagramView {
        DiagramView {
            version: self.version@,
            metadata: self.metadata@,
            nodes: views(self.nodes@),
            clusters: views(self.clusters@),
            edges: views(self.edges@),
        }
    }
}

/// The first index at which `key` is a provider name of `entries`.
pub open spec fn source_index_from(
    entries: Seq<(Seq<char>, Option<Seq<char>>)>,
    key: Seq<char>,
    k: int,
) -> Option<int>
    decreases entries.len() - k,
{
    if k < 0 || k >= entries.len() {
        None
    } else if entries[k].0 == key {
        Some(k)
    } else {
        source_index_from(entries, key, k + 1)
    }
}

/// The source recorded for a provider, if the provider is named.
pub open spec fn source_lookup(entries: Seq<(Seq<char>, Option<Seq<char>>)>, key: Seq<char>) -> Option<
    Option<Seq<char>>,
> {
    match source_index_from(entries, key, 0) {
        Some(i) => Some(entries[i].1),
        None => None,
    }
}

impl ProviderSources {
    /// The number of providers.
    pub fn len(&self) -> (n: usize)
        ensures
            n == self@.len(),
    {
        self.entries.len()
    }

    /// The source of `provider`: `None` if the provider is not named,
    /// `Some(None)` if it is named without a source.
    pub fn get(&self, provider: &str) -> (r: Option<Option<String>>)
        ensures
            r.deep_view() == source_lookup(self@, provider@),
    {
        let key = chars_to_string(&str_chars(provider));
        let mut i: usize = 0;
        while i < self.entries.len()
            invariant
                0 <= i <= self.entries.len(),
                key@ == provider@,
                source_index_from(self@, provider@, 0) == source_index_from(self@, provider@, i as int),
            decreases self.entries.len() - i,
        {
            assert(self@[i as int] == self.entries@[i as int]@);
            if self.entries[i].provider == key {
                return Some(self.entries[i].source.clone());
            }
            i = i + 1;
        }
        None
    }

    /// Whether `provider` is named.
    pub fn contains_key(&self, provider: &str) -> (b: bool)
        ensures
            b == (source_lookup(self@, provider@) is Some),
    {
        self.get(provider).is_some()
    }
}

/// The direction of a diagram that does not give one: `TB`.
pub fn default_direction() -> (s: String)
    ensures
        s@ == "TB"@,
{
    chars_to_string(&str_chars("TB"))
}

/// The theme of a diagram that does not name one: `default`.
pub fn default_theme() -> (s: String)
    ensures
        s@ == "default"@,
{
    chars_to_string(&str_chars("default"))
}

} // verus!
