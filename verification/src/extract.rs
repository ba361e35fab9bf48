//! Picking the icon groups of a master document and building a standalone
//! document for each.
//!
//! Two things the library cannot do itself: reading a document as a drawing
//! to learn what its paths cover, and writing a rectangle as the text of a
//! viewport. [`Extraction`] therefore works in steps. Each step hands its
//! caller a [`Request`], and the caller answers with a [`Reply`].

use crate::bbox::{drawable_bounds, measure, union_of, Bounds, ShapeNode};
use crate::rewrite::{recolor_text, recolored};
use crate::theme::{ColorPair, RegistryModel, ThemeError, ThemeRegistry};
use crate::xml::{
    attribute_value, first_element_named, first_text, lemma_with_child_well_formed,
    lemma_without_text_well_formed, text_of, with_child, without_text, ElementModel, NodeModel,
    XmlElement, XmlNode,
};
use crate::xml_io::{serialize, serialized};
use vstd::prelude::*;

verus! {

/// Why an extraction stopped.
#[derive(Debug)]
pub enum ExtractError {
    /// The master document has no `defs` element among its children.
    MissingDefinitions,
    /// The named icon has a flavor that the registry does not hold.
    UnknownFlavor(String),
    /// The flavor of the named icon lacks a color, or one of its colors is
    /// malformed.
    MalformedColor(String),
    /// The group of the named icon could not be read as a drawing.
    UnparseableArtwork(String),
    /// The group of the named icon draws nothing.
    EmptyArtwork(String),
    /// A document for the named icon could not be written.
    Unwritable(String),
    /// The reply does not answer the request that is open.
    UnexpectedReply,
}

/// What an [`ExtractError`] holds.
pub enum ExtractErrorModel {
    MissingDefinitions,
    UnknownFlavor(Seq<char>),
    MalformedColor(Seq<char>),
    UnparseableArtwork(Seq<char>),
    EmptyArtwork(Seq<char>),
    Unwritable(Seq<char>),
    UnexpectedReply,
}

impl View for ExtractError {
    type V = ExtractErrorModel;

    open spec fn view(&self) -> ExtractErrorModel {
        match self {
            ExtractError::MissingDefinitions => ExtractErrorModel::MissingDefinitions,
            ExtractError::UnknownFlavor(icon) => ExtractErrorModel::UnknownFlavor(icon@),
            ExtractError::MalformedColor(icon) => ExtractErrorModel::MalformedColor(icon@),
            ExtractError::UnparseableArtwork(icon) => ExtractErrorModel::UnparseableArtwork(icon@),
            ExtractError::EmptyArtwork(icon) => ExtractErrorModel::EmptyArtwork(icon@),
            ExtractError::Unwritable(icon) => ExtractErrorModel::Unwritable(icon@),
            ExtractError::UnexpectedReply => ExtractErrorModel::UnexpectedReply,
        }
    }
}

/// An icon that will be extracted.
#[derive(Debug)]
pub struct IconJob {
    /// The icon's resolved name.
    pub name: String,
    /// The icon's group, without text nodes.
    pub group: XmlElement,
    /// The ends of the icon's color scale.
    pub colors: ColorPair,
}

/// What an [`IconJob`] holds.
pub struct JobModel {
    pub name: Seq<char>,
    pub group: ElementModel,
    pub colors: ColorPair,
}

impl View for IconJob {
    type V = JobModel;

    open spec fn view(&self) -> JobModel {
        JobModel { name: self.name@, group: self.group@, colors: self.colors }
    }
}

/// What the caller is asked to do next.
#[derive(Debug)]
pub enum Request {
    /// Read these bytes as a drawing and reply with its shapes.
    Measure(Vec<u8>),
    /// Reply with the viewport text of these bounds, widened by the margin.
    Frame(Bounds),
    /// Nothing is left to do.
    Finish,
}

/// What a [`Request`] holds.
pub enum RequestModel {
    Measure(Seq<u8>),
    Frame(Bounds),
    Finish,
}

impl View for Request {
    type V = RequestModel;

    open spec fn view(&self) -> RequestModel {
        match self {
            Request::Measure(bytes) => RequestModel::Measure(bytes@),
            Request::Frame(bounds) => RequestModel::Frame(*bounds),
            Request::Finish => RequestModel::Finish,
        }
    }
}

/// The caller's answer to a [`Request`].
#[derive(Debug)]
pub enum Reply {
    /// The shapes of the drawing; none where the bytes are no drawing.
    Shape(Option<ShapeNode>),
    /// The text of the viewport.
    Viewport(String),
}

/// An extraction under way.
#[derive(Debug)]
pub struct Extraction {
    /// The shared definitions of the master document.
    pub definitions: XmlElement,
    /// The icons to extract, in the order of the master document.
    pub jobs: Vec<IconJob>,
    /// Whether the open request is a [`Request::Frame`].
    pub framing: bool,
    /// Name and document of each icon that is done: so far the first of
    /// `jobs`, in their order.
    pub documents: Vec<(String, Vec<u8>)>,
}

/// What an [`Extraction`] holds.
pub struct StateModel {
    pub definitions: ElementModel,
    pub jobs: Seq<JobModel>,
    pub framing: bool,
    pub documents: Seq<(Seq<char>, Seq<u8>)>,
}

/// What a list of jobs holds.
pub open spec fn jobs_of(jobs: Seq<IconJob>) -> Seq<JobModel> {
    Seq::new(jobs.len(), |i: int| jobs[i]@)
}

/// What a list of named documents holds.
pub open spec fn documents_of(documents: Seq<(String, Vec<u8>)>) -> Seq<(Seq<char>, Seq<u8>)> {
    Seq::new(documents.len(), |i: int| (documents[i].0@, documents[i].1@))
}

impl View for Extraction {
    type V = StateModel;

    open spec fn view(&self) -> StateModel {
        StateModel {
            definitions: self.definitions@,
            jobs: jobs_of(self.jobs@),
            framing: self.framing,
            documents: documents_of(self.documents@),
        }
    }
}

/// The namespace of the documents that the library builds.
pub open spec fn svg_namespace() -> Seq<char> {
    "http://www.w3.org/2000/svg"@
}

/// The name under which a group is extracted: its `id` without the first
/// character, but for two fixed renames. An empty `id` gives no name.
pub open spec fn resolved_name(id: Seq<char>) -> Option<Seq<char>> {
    if id.len() == 0 {
        None
    } else if id.drop_first() == "townspot-s-rev"@ {
        Some("townspot"@)
    } else if id.drop_first() == "capital-s"@ {
        Some("capital"@)
    } else {
        Some(id.drop_first())
    }
}

/// Whether a group of this name is never extracted.
pub open spec fn ignored(name: Seq<char>) -> bool {
    name == "priority"@ || name == "guides"@ || name == "categories"@ || name == "in_tiles_now"@
        || name == "add_to_tiles"@
}

/// The name under which `node` would be extracted: it is a `g` element with
/// an `id` that resolves to a name, and the name is not ignored.
pub open spec fn icon_name(node: NodeModel) -> Option<Seq<char>> {
    match node {
        NodeModel::Element(e) => if e.name == "g"@ {
            match attribute_value(e.attributes, "id"@) {
                Some(id) => match resolved_name(id) {
                    Some(name) => if ignored(name) {
                        None
                    } else {
                        Some(name)
                    },
                    None => None,
                },
                None => None,
            }
        } else {
            None
        },
        _ => None,
    }
}

/// What becomes of one child of the master document: nothing where it is no
/// icon group or the registry does not know its name; else a job, or the
/// error in the registry's entry for it.
pub open spec fn job_for(node: NodeModel, registry: RegistryModel) -> Option<
    Result<JobModel, ExtractErrorModel>,
> {
    match icon_name(node) {
        None => None,
        Some(name) => match registry.color_pair(name) {
            None => None,
            Some(Ok(colors)) => Some(
                Ok(JobModel { name, group: without_text(node->Element_0), colors }),
            ),
            Some(Err(ThemeError::UnknownFlavor)) => Some(
                Err(ExtractErrorModel::UnknownFlavor(name)),
            ),
            Some(Err(ThemeError::MalformedColor)) => Some(
                Err(ExtractErrorModel::MalformedColor(name)),
            ),
        },
    }
}

/// The jobs for `nodes`, in the order of the nodes, or the error of the
/// first node that has one.
pub open spec fn jobs_for(nodes: Seq<NodeModel>, registry: RegistryModel) -> Result<
    Seq<JobModel>,
    ExtractErrorModel,
>
    decreases nodes.len(),
{
    if nodes.len() == 0 {
        Ok(Seq::empty())
    } else {
        match jobs_for(nodes.drop_last(), registry) {
            Err(e) => Err(e),
            Ok(front) => match job_for(nodes.last(), registry) {
                None => Ok(front),
                Some(Ok(job)) => Ok(front.push(job)),
                Some(Err(e)) => Err(e),
            },
        }
    }
}

/// The indices of the nodes that give a job or an error, in rising order.
pub open spec fn picked(nodes: Seq<NodeModel>, registry: RegistryModel) -> Seq<int>
    decreases nodes.len(),
{
    if nodes.len() == 0 {
        Seq::empty()
    } else if job_for(nodes.last(), registry) is Some {
        picked(nodes.drop_last(), registry).push(nodes.len() - 1)
    } else {
        picked(nodes.drop_last(), registry)
    }
}

/// A root element `svg` with the given attributes and children.
pub open spec fn svg_root(
    attributes: Seq<(Seq<char>, Seq<char>)>,
    children: Seq<NodeModel>,
) -> ElementModel {
    ElementModel {
        prefix: None,
        namespace: None,
        namespaces: None,
        name: "svg"@,
        attributes,
        children,
    }
}

/// The document in which a group is measured: a root that declares the
/// namespace, with the group as its only child.
pub open spec fn probe_model(group: ElementModel) -> ElementModel {
    svg_root(seq![("xmlns"@, svg_namespace())], seq![NodeModel::Element(group)])
}

/// The definitions with the colors of their style text moved onto the scale
/// of `colors`: the style text is the first text node of the first `style`
/// element among the children. Definitions without one stay as they are.
pub open spec fn themed(definitions: ElementModel, colors: ColorPair) -> ElementModel {
    let i = first_element_named(definitions.children, "style"@);
    if 0 <= i < definitions.children.len() {
        match definitions.children[i] {
            NodeModel::Element(style) => {
                let j = first_text(style.children);
                if 0 <= j < style.children.len() {
                    match style.children[j] {
                        NodeModel::Text(text) => with_child(
                            definitions,
                            i,
                            NodeModel::Element(
                                with_child(
                                    style,
                                    j,
                                    NodeModel::Text(recolored(text, colors.shade, colors.tint)),
                                ),
                            ),
                        ),
                        _ => definitions,
                    }
                } else {
                    definitions
                }
            },
            _ => definitions,
        }
    } else {
        definitions
    }
}

/// The document of an icon: a root with the viewport and the namespace, the
/// themed definitions, and the icon's group.
pub open spec fn icon_model(
    definitions: ElementModel,
    job: JobModel,
    view_box: Seq<char>,
) -> ElementModel {
    svg_root(
        seq![("viewBox"@, view_box), ("xmlns"@, svg_namespace())],
        seq![
            NodeModel::Element(themed(definitions, job.colors)),
            NodeModel::Element(job.group),
        ],
    )
}

impl StateModel {
    /// Whether the state is one that an extraction can reach.
    pub open spec fn well_formed(self) -> bool {
        &&& self.definitions.well_formed()
        &&& forall|k: int| 0 <= k < self.jobs.len() ==> (#[trigger] self.jobs[k]).group.well_formed()
        &&& self.documents.len() <= self.jobs.len()
        &&& self.framing ==> self.documents.len() < self.jobs.len()
        &&& forall|k: int|
            0 <= k < self.documents.len() ==> (#[trigger] self.documents[k]).0 == self.jobs[k].name
    }

    /// The request for the icon that is next, with the state unchanged; an
    /// error where the icon's probe document cannot be written.
    pub open spec fn opened(self) -> Result<(StateModel, RequestModel), ExtractErrorModel> {
        if self.documents.len() >= self.jobs.len() {
            Ok((self, RequestModel::Finish))
        } else {
            let job = self.jobs[self.documents.len() as int];
            match serialized(probe_model(job.group)) {
                Some(bytes) => Ok((self, RequestModel::Measure(bytes))),
                None => Err(ExtractErrorModel::Unwritable(job.name)),
            }
        }
    }

    /// The state and the request that follow a reply.
    pub open spec fn replied(self, reply: Reply) -> Result<
        (StateModel, RequestModel),
        ExtractErrorModel,
    > {
        if self.documents.len() >= self.jobs.len() {
            Err(ExtractErrorModel::UnexpectedReply)
        } else {
            let job = self.jobs[self.documents.len() as int];
            match reply {
                Reply::Shape(shape) => if self.framing {
                    Err(ExtractErrorModel::UnexpectedReply)
                } else {
                    match shape {
                        None => Err(ExtractErrorModel::UnparseableArtwork(job.name)),
                        Some(tree) => match union_of(drawable_bounds(tree)) {
                            None => Err(ExtractErrorModel::EmptyArtwork(job.name)),
                            Some(bounds) => Ok(
                                (
                                    StateModel {
                                        definitions: self.definitions,
                                        jobs: self.jobs,
                                        framing: true,
                                        documents: self.documents,
                                    },
                                    RequestModel::Frame(bounds),
                                ),
                            ),
                        },
                    }
                },
                Reply::Viewport(text) => if !self.framing {
                    Err(ExtractErrorModel::UnexpectedReply)
                } else {
                    match serialized(icon_model(self.definitions, job, text@)) {
                        None => Err(ExtractErrorModel::Unwritable(job.name)),
                        Some(bytes) => (StateModel {
                            definitions: self.definitions,
                            jobs: self.jobs,
                            framing: false,
                            documents: self.documents.push((job.name, bytes)),
                        }).opened(),
                    }
                },
            }
        }
    }
}

/// The state and the request with which the extraction from `master`
/// starts: an error where the master document has no definitions, or where
/// the registry's entry for an icon of the document is at fault.
pub open spec fn started(master: ElementModel, registry: RegistryModel) -> Result<
    (StateModel, RequestModel),
    ExtractErrorModel,
> {
    let d = first_element_named(master.children, "defs"@);
    if 0 <= d < master.children.len() && master.children[d] is Element {
        match jobs_for(master.children, registry) {
            Err(e) => Err(e),
            Ok(jobs) => (StateModel {
                definitions: master.children[d]->Element_0,
                jobs,
                framing: false,
                documents: Seq::empty(),
            }).opened(),
        }
    } else {
        Err(ExtractErrorModel::MissingDefinitions)
    }
}

/// The name under which a group with this `id` is extracted.
pub fn resolve_icon_name(id: &str) -> (r: Option<String>)
    ensures
        text_of(r) == resolved_name(id@),
{
    let n = id.unicode_len();
    if n == 0 {
        return None;
    }
    let bare = String::from_str(id.substring_char(1, n));
    assert(bare@ =~= id@.drop_first());
    if bare == String::from_str("townspot-s-rev") {
        Some(String::from_str("townspot"))
    } else if bare == String::from_str("capital-s") {
        Some(String::from_str("capital"))
    } else {
        Some(bare)
    }
}

/// Whether a group of this name is never extracted.
pub fn is_ignored(name: &String) -> (r: bool)
    ensures
        r == ignored(name@),
{
    *name == String::from_str("priority") || *name == String::from_str("guides") || *name
        == String::from_str("categories") || *name == String::from_str("in_tiles_now") || *name
        == String::from_str("add_to_tiles")
}

/// The job for one child of the master document.
pub fn job_of(node: &XmlNode, registry: &ThemeRegistry) -> (r: Option<
    Result<IconJob, ExtractError>,
>)
    ensures
        match r {
            None => job_for(node@, registry@) is None,
            Some(Ok(job)) => job_for(node@, registry@) == Some(
                Ok::<JobModel, ExtractErrorModel>(job@),
            ),
            Some(Err(e)) => job_for(node@, registry@) == Some(
                Err::<JobModel, ExtractErrorModel>(e@),
            ),
        },
        node@.well_formed() ==> (r matches Some(Ok(job)) ==> job@.group.well_formed()),
{
    match node {
        XmlNode::Element(e) => {
            if !(e.name == String::from_str("g")) {
                return None;
            }
            let id = match e.attribute("id") {
                Some(id) => id,
                None => {
                    return None;
                },
            };
            let name = match resolve_icon_name(id.as_str()) {
                Some(name) => name,
                None => {
                    return None;
                },
            };
            if is_ignored(&name) {
                return None;
            }
            assert(icon_name(node@) == Some(name@));
            match registry.color_pair(&name) {
                None => None,
                Some(Err(ThemeError::UnknownFlavor)) => Some(
                    Err(ExtractError::UnknownFlavor(name)),
                ),
                Some(Err(ThemeError::MalformedColor)) => Some(
                    Err(ExtractError::MalformedColor(name)),
                ),
                Some(Ok(colors)) => {
                    proof {
                        if e@.well_formed() {
                            lemma_without_text_well_formed(e@);
                        }
                    }
                    Some(Ok(IconJob { name, group: e.without_text(), colors }))
                },
            }
        },
        _ => None,
    }
}

/// The jobs for the children of `master`, in document order.
pub fn select_icons(master: &XmlElement, registry: &ThemeRegistry) -> (r: Result<
    Vec<IconJob>,
    ExtractError,
>)
    ensures
        match r {
            Ok(jobs) => jobs_for(master@.children, registry@) == Ok::<
                Seq<JobModel>,
                ExtractErrorModel,
            >(jobs_of(jobs@)),
            Err(e) => jobs_for(master@.children, registry@) == Err::<
                Seq<JobModel>,
                ExtractErrorModel,
            >(e@),
        },
        master@.well_formed() ==> (r matches Ok(jobs) ==> forall|k: int|
            0 <= k < jobs.len() ==> (#[trigger] jobs[k])@.group.well_formed()),
{
    let ghost nodes = master@.children;
    let mut jobs: Vec<IconJob> = Vec::new();
    let mut i: usize = 0;
    assert(jobs_of(jobs@) =~= Seq::empty());
    while i < master.children.len()
        invariant
            i <= master.children.len(),
            nodes == master@.children,
            nodes.len() == master.children.len(),
            jobs_for(nodes.take(i as int), registry@) == Ok::<Seq<JobModel>, ExtractErrorModel>(
                jobs_of(jobs@),
            ),
            master@.well_formed() ==> forall|k: int|
                0 <= k < jobs.len() ==> (#[trigger] jobs[k])@.group.well_formed(),
        decreases master.children.len() - i,
    {
        let ghost before = jobs_of(jobs@);
        assert(nodes.take(i + 1).drop_last() =~= nodes.take(i as int));
        assert(nodes.take(i + 1).last() == master.children[i as int]@);
        assert(master@.well_formed() ==> nodes[i as int].well_formed());
        match job_of(&master.children[i], registry) {
            None => {},
            Some(Ok(job)) => {
                jobs.push(job);
                assert(jobs_of(jobs@) =~= before.push(job@));
            },
            Some(Err(e)) => {
                proof {
                    lemma_error_stays(nodes, i + 1, registry@);
                }
                return Err(e);
            },
        }
        i += 1;
    }
    assert(nodes.take(i as int) =~= nodes);
    Ok(jobs)
}

/// Once the jobs of the first `n` nodes end in an error, so do the jobs of
/// all the nodes, in the same error.
pub proof fn lemma_error_stays(nodes: Seq<NodeModel>, n: int, registry: RegistryModel)
    requires
        0 <= n <= nodes.len(),
        jobs_for(nodes.take(n), registry) is Err,
    ensures
        jobs_for(nodes, registry) == jobs_for(nodes.take(n), registry),
    decreases nodes.len() - n,
{
    if n == nodes.len() {
        assert(nodes.take(n) =~= nodes);
    } else {
        assert(nodes.take(n + 1).drop_last() =~= nodes.take(n));
        lemma_error_stays(nodes, n + 1, registry);
    }
}

/// The picked indices rise, each is the index of a node that gives a job or
/// an error, and no such node is left out.
pub proof fn lemma_picked(nodes: Seq<NodeModel>, registry: RegistryModel)
    ensures
        forall|k: int|
            0 <= k < picked(nodes, registry).len() ==> {
                let i = #[trigger] picked(nodes, registry)[k];
                0 <= i < nodes.len() && job_for(nodes[i], registry) is Some
            },
        forall|k: int, l: int|
            0 <= k < l < picked(nodes, registry).len() ==> picked(nodes, registry)[k] < picked(
                nodes,
                registry,
            )[l],
        forall|i: int|
            0 <= i < nodes.len() && job_for(#[trigger] nodes[i], registry) is Some ==> picked(
                nodes,
                registry,
            ).contains(i),
    decreases nodes.len(),
{
    if nodes.len() > 0 {
        let front = nodes.drop_last();
        let all = picked(nodes, registry);
        let before = picked(front, registry);
        lemma_picked(front, registry);
        assert forall|k: int| 0 <= k < before.len() implies 0 <= (#[trigger] before[k])
            < front.len() && nodes[before[k]] == front[before[k]] by {}
        assert forall|k: int| 0 <= k < all.len() implies {
            let i = #[trigger] all[k];
            0 <= i < nodes.len() && job_for(nodes[i], registry) is Some
        } by {
            if k < before.len() {
                assert(all[k] == before[k]);
            }
        }
        assert forall|k: int, l: int| 0 <= k < l < all.len() implies all[k] < all[l] by {
            assert(all[k] == before[k]);
            if l < before.len() {
                assert(all[l] == before[l]);
            }
        }
        assert forall|i: int|
            0 <= i < nodes.len() && job_for(#[trigger] nodes[i], registry) is Some implies all.contains(
            i,
        ) by {
            if i < front.len() {
                assert(front[i] == nodes[i]);
                let k = choose|k: int| 0 <= k < before.len() && before[k] == i;
                assert(all[k] == i);
            } else {
                assert(all[all.len() - 1] == i);
            }
        }
    }
}

/// The icons come out in the order of the master document: where no node
/// ends in an error, the jobs are those of the picked nodes, one for one.
pub proof fn lemma_jobs_in_document_order(nodes: Seq<NodeModel>, registry: RegistryModel)
    requires
        jobs_for(nodes, registry) is Ok,
    ensures
        jobs_for(nodes, registry)->Ok_0.len() == picked(nodes, registry).len(),
        forall|k: int|
            0 <= k < picked(nodes, registry).len() ==> job_for(
                nodes[#[trigger] picked(nodes, registry)[k]],
                registry,
            ) == Some(Ok::<JobModel, ExtractErrorModel>(jobs_for(nodes, registry)->Ok_0[k])),
    decreases nodes.len(),
{
    if nodes.len() > 0 {
        let front = nodes.drop_last();
        lemma_jobs_in_document_order(front, registry);
        lemma_picked(front, registry);
        let all = picked(nodes, registry);
        let before = picked(front, registry);
        let jobs = jobs_for(nodes, registry)->Ok_0;
        let jobs_before = jobs_for(front, registry)->Ok_0;
        assert forall|k: int| 0 <= k < all.len() implies job_for(nodes[#[trigger] all[k]], registry)
            == Some(Ok::<JobModel, ExtractErrorModel>(jobs[k])) by {
            if k < before.len() {
                assert(all[k] == before[k]);
                assert(nodes[before[k]] == front[before[k]]);
                assert(jobs[k] == jobs_before[k]);
            }
        }
    }
}

/// The outcome of a step depends on the reply only through what it holds:
/// the text of the viewport, or the rectangles of the drawing's paths.
pub proof fn lemma_replies_that_hold_the_same(state: StateModel, a: Reply, b: Reply)
    requires
        match (a, b) {
            (Reply::Viewport(x), Reply::Viewport(y)) => x@ == y@,
            (Reply::Shape(None), Reply::Shape(None)) => true,
            (Reply::Shape(Some(x)), Reply::Shape(Some(y))) => drawable_bounds(x)
                == drawable_bounds(y),
            _ => false,
        },
    ensures
        state.replied(a) == state.replied(b),
{
}

/// In a state that can be reached, the documents that are done carry the
/// names of the first jobs, in their order.
pub proof fn lemma_documents_follow_jobs(state: StateModel)
    requires
        state.well_formed(),
    ensures
        state.documents.len() <= state.jobs.len(),
        forall|k: int|
            0 <= k < state.documents.len() ==> (#[trigger] state.documents[k]).0
                == state.jobs[k].name,
        state.opened() matches Ok((_, RequestModel::Finish)) ==> state.documents.len()
            == state.jobs.len(),
{
}

/// The document in which `group` is measured.
pub fn probe_document(group: &XmlElement) -> (r: XmlElement)
    ensures
        r@ == probe_model(group@),
        group@.well_formed() ==> r@.well_formed(),
{
    let mut attributes: Vec<(String, String)> = Vec::new();
    attributes.push((String::from_str("xmlns"), String::from_str("http://www.w3.org/2000/svg")));
    let mut children: Vec<XmlNode> = Vec::new();
    children.push(XmlNode::Element(group.deep_copy()));
    let r = XmlElement {
        prefix: None,
        namespace: None,
        namespaces: None,
        name: String::from_str("svg"),
        attributes,
        children,
    };
    assert(r@.attributes =~= seq![("xmlns"@, svg_namespace())]);
    assert(r@.children =~= seq![NodeModel::Element(group@)]);
    r
}

/// A copy of the definitions, with the colors of the style text moved onto
/// the scale of `colors`.
pub fn themed_definitions(definitions: &XmlElement, colors: ColorPair) -> (r: XmlElement)
    ensures
        r@ == themed(definitions@, colors),
        definitions@.well_formed() ==> r@.well_formed(),
{
    let i = match definitions.child_element("style") {
        Some(i) => i,
        None => {
            return definitions.deep_copy();
        },
    };
    if let XmlNode::Element(style) = &definitions.children[i] {
        let j = match style.text_child() {
            Some(j) => j,
            None => {
                return definitions.deep_copy();
            },
        };
        if let XmlNode::Text(text) = &style.children[j] {
            let recolored_text = recolor_text(text.as_str(), colors.shade, colors.tint);
            let restyled = style.with_child(j, XmlNode::Text(recolored_text));
            proof {
                if definitions@.well_formed() {
                    assert(definitions@.children[i as int].well_formed());
                    lemma_with_child_well_formed(
                        style@,
                        j as int,
                        NodeModel::Text(recolored(text@, colors.shade, colors.tint)),
                    );
                    lemma_with_child_well_formed(
                        definitions@,
                        i as int,
                        NodeModel::Element(restyled@),
                    );
                }
            }
            return definitions.with_child(i, XmlNode::Element(restyled));
        }
    }
    definitions.deep_copy()
}

/// The document of the icon of `job`, with `view_box` as its viewport.
pub fn icon_document(definitions: &XmlElement, job: &IconJob, view_box: &str) -> (r: XmlElement)
    ensures
        r@ == icon_model(definitions@, job@, view_box@),
        definitions@.well_formed() && job@.group.well_formed() ==> r@.well_formed(),
{
    let mut attributes: Vec<(String, String)> = Vec::new();
    attributes.push((String::from_str("viewBox"), String::from_str(view_box)));
    attributes.push((String::from_str("xmlns"), String::from_str("http://www.w3.org/2000/svg")));
    let mut children: Vec<XmlNode> = Vec::new();
    children.push(XmlNode::Element(themed_definitions(definitions, job.colors)));
    children.push(XmlNode::Element(job.group.deep_copy()));
    let r = XmlElement {
        prefix: None,
        namespace: None,
        namespaces: None,
        name: String::from_str("svg"),
        attributes,
        children,
    };
    proof {
        reveal_strlit("viewBox");
        reveal_strlit("xmlns");
        assert("viewBox"@.len() != "xmlns"@.len());
    }
    assert(r@.attributes =~= seq![("viewBox"@, view_box@), ("xmlns"@, svg_namespace())]);
    assert(r@.children =~= seq![
        NodeModel::Element(themed(definitions@, job.colors)),
        NodeModel::Element(job.group@),
    ]);
    r
}

impl Extraction {
    /// The request for the icon that is next.
    fn open(self) -> (r: Result<(Extraction, Request), ExtractError>)
        requires
            self@.well_formed(),
        ensures
            match r {
                Ok((state, request)) => self@.opened() == Ok::<
                    (StateModel, RequestModel),
                    ExtractErrorModel,
                >((state@, request@)) && state@.well_formed(),
                Err(e) => self@.opened() == Err::<(StateModel, RequestModel), ExtractErrorModel>(
                    e@,
                ),
            },
    {
        let i = self.documents.len();
        if i >= self.jobs.len() {
            return Ok((self, Request::Finish));
        }
        let probe = probe_document(&self.jobs[i].group);
        match serialize(&probe) {
            Ok(bytes) => Ok((self, Request::Measure(bytes))),
            Err(_) => Err(ExtractError::Unwritable(self.jobs[i].name.clone())),
        }
    }

    /// Starts the extraction of the icons of `master` that `registry`
    /// knows.
    pub fn start(master: &XmlElement, registry: &ThemeRegistry) -> (r: Result<
        (Extraction, Request),
        ExtractError,
    >)
        requires
            master@.well_formed(),
        ensures
            match r {
                Ok((state, request)) => started(master@, registry@) == Ok::<
                    (StateModel, RequestModel),
                    ExtractErrorModel,
                >((state@, request@)) && state@.well_formed(),
                Err(e) => started(master@, registry@) == Err::<
                    (StateModel, RequestModel),
                    ExtractErrorModel,
                >(e@),
            },
    {
        let d = match master.child_element("defs") {
            Some(d) => d,
            None => {
                return Err(ExtractError::MissingDefinitions);
            },
        };
        let definitions = match &master.children[d] {
            XmlNode::Element(e) => e.deep_copy(),
            _ => {
                return Err(ExtractError::MissingDefinitions);
            },
        };
        assert(master@.children[d as int].well_formed());
        let jobs = match select_icons(master, registry) {
            Ok(jobs) => jobs,
            Err(e) => {
                return Err(e);
            },
        };
        let state = Extraction { definitions, jobs, framing: false, documents: Vec::new() };
        assert(state@.documents =~= Seq::empty());
        state.open()
    }

    /// Takes the reply to the open request, and gives the next request.
    pub fn step(self, reply: Reply) -> (r: Result<(Extraction, Request), ExtractError>)
        requires
            self@.well_formed(),
        ensures
            match r {
                Ok((state, request)) => self@.replied(reply) == Ok::<
                    (StateModel, RequestModel),
                    ExtractErrorModel,
                >((state@, request@)) && state@.well_formed(),
                Err(e) => self@.replied(reply) == Err::<
                    (StateModel, RequestModel),
                    ExtractErrorModel,
                >(e@),
            },
    {
        let mut state = self;
        let i = state.documents.len();
        if i >= state.jobs.len() {
            return Err(ExtractError::UnexpectedReply);
        }
        match reply {
            Reply::Shape(shape) => {
                if state.framing {
                    return Err(ExtractError::UnexpectedReply);
                }
                match shape {
                    None => Err(ExtractError::UnparseableArtwork(state.jobs[i].name.clone())),
                    Some(tree) => match measure(&tree) {
                        None => Err(ExtractError::EmptyArtwork(state.jobs[i].name.clone())),
                        Some(bounds) => {
                            state.framing = true;
                            Ok((state, Request::Frame(bounds)))
                        },
                    },
                }
            },
            Reply::Viewport(text) => {
                if !state.framing {
                    return Err(ExtractError::UnexpectedReply);
                }
                let document = icon_document(&state.definitions, &state.jobs[i], text.as_str());
                match serialize(&document) {
                    Err(_) => Err(ExtractError::Unwritable(state.jobs[i].name.clone())),
                    Ok(bytes) => {
                        let name = state.jobs[i].name.clone();
                        let ghost before = state@.documents;
                        state.documents.push((name, bytes));
                        state.framing = false;
                        assert(state@.documents =~= before.push((name@, bytes@)));
                        state.open()
                    },
                }
            },
        }
    }

    /// Whether every icon is done.
    pub fn is_finished(&self) -> (r: bool)
        ensures
            r == (self@.documents.len() >= self@.jobs.len()),
    {
        self.documents.len() >= self.jobs.len()
    }

    /// Name and document of each icon that is done, in the order of the
    /// master document.
    pub fn into_documents(self) -> (r: Vec<(String, Vec<u8>)>)
        ensures
            documents_of(r@) == self@.documents,
    {
        self.documents
    }
}

} // verus!
