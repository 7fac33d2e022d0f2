use crate::action::ChainAction;
use indexmap::IndexMap;
use vstd::prelude::*;

verus! {

/// One rule of a subscription: a transition matches it when it calls
/// `function` of `program`.
///
/// `inputs` and `outputs` (argument index to the value's textual form) are
/// carried for value-level filtering; matching does not read them yet.
#[derive(Clone, Debug)]
pub struct EventManifest {
    pub name: String,
    pub description: String,
    pub function: String,
    pub program: String,
    pub inputs: Option<IndexMap<usize, String>>,
    pub outputs: Option<IndexMap<usize, String>>,
    pub actions: Vec<ChainAction>,
}

pub struct ManifestView {
    pub name: Seq<char>,
    pub description: Seq<char>,
    pub function: Seq<char>,
    pub program: Seq<char>,
    pub inputs: Option<IndexMap<usize, String>>,
    pub outputs: Option<IndexMap<usize, String>>,
    pub actions: Seq<ChainAction>,
}

impl View for EventManifest {
    type V = ManifestView;

    open spec fn view(&self) -> ManifestView {
        ManifestView {
            name: self.name@,
            description: self.description@,
            function: self.function@,
            program: self.program@,
            inputs: self.inputs,
            outputs: self.outputs,
            actions: self.actions@,
        }
    }
}

/// The ordered rules of one subscription.
#[derive(Clone, Debug)]
pub struct EventManifests {
    manifests: Vec<EventManifest>,
}

/// The views of a sequence of rules, in order.
pub open spec fn manifest_views(s: Seq<EventManifest>) -> Seq<ManifestView> {
    s.map_values(|m: EventManifest| m@)
}

impl View for EventManifests {
    type V = Seq<ManifestView>;

    closed spec fn view(&self) -> Seq<ManifestView> {
        manifest_views(self.manifests@)
    }
}

impl EventManifests {
    pub fn new(manifests: Vec<EventManifest>) -> (r: EventManifests)
        ensures
            r@ == manifest_views(manifests@),
    {
        EventManifests { manifests }
    }

    pub fn manifests(&self) -> (r: &Vec<EventManifest>)
        ensures
            manifest_views(r@) == self@,
    {
        &self.manifests
    }
}

} // verus!
