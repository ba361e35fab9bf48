//! An XML element tree held as plain values, with its mathematical model.

use vstd::prelude::*;

verus! {

/// What an element holds.
pub struct ElementModel {
    pub prefix: Option<Seq<char>>,
    pub namespace: Option<Seq<char>>,
    pub namespaces: Option<xmltree::Namespace>,
    pub name: Seq<char>,
    pub attributes: Seq<(Seq<char>, Seq<char>)>,
    pub children: Seq<NodeModel>,
}

/// What a node holds.
pub enum NodeModel {
    Element(ElementModel),
    Comment(Seq<char>),
    CData(Seq<char>),
    Text(Seq<char>),
    ProcessingInstruction(Seq<char>, Option<Seq<char>>),
}

/// An XML element: its qualified name, its attributes in document order, and
/// its child nodes in document order.
#[derive(Debug)]
pub struct XmlElement {
    pub prefix: Option<String>,
    pub namespace: Option<String>,
    /// The prefix-to-URI bindings in scope at the element. The library
    /// carries them from the parser to the writer and never looks inside.
    pub namespaces: Option<xmltree::Namespace>,
    /// The local name, without a prefix.
    pub name: String,
    /// Name and value of each attribute. In a well-formed element no name
    /// occurs twice.
    pub attributes: Vec<(String, String)>,
    pub children: Vec<XmlNode>,
}

/// A node of an XML tree.
#[derive(Debug)]
pub enum XmlNode {
    Element(XmlElement),
    Comment(String),
    CData(String),
    Text(String),
    ProcessingInstruction(String, Option<String>),
}

/// The text of an optional string.
pub open spec fn text_of(o: Option<String>) -> Option<Seq<char>> {
    match o {
        Some(s) => Some(s@),
        None => None,
    }
}

/// The texts of a list of string pairs.
pub open spec fn pairs_of(pairs: Seq<(String, String)>) -> Seq<(Seq<char>, Seq<char>)> {
    Seq::new(pairs.len(), |i: int| (pairs[i].0@, pairs[i].1@))
}

/// Whether no two attributes share a name.
pub open spec fn distinct_names(attributes: Seq<(Seq<char>, Seq<char>)>) -> bool {
    forall|i: int, j: int|
        0 <= i < j < attributes.len() ==> (#[trigger] attributes[i]).0 != (
        #[trigger] attributes[j]).0
}

/// The value of the first attribute called `name`.
pub open spec fn attribute_value(
    attributes: Seq<(Seq<char>, Seq<char>)>,
    name: Seq<char>,
) -> Option<Seq<char>>
    decreases attributes.len(),
{
    if attributes.len() == 0 {
        None
    } else if attributes[0].0 == name {
        Some(attributes[0].1)
    } else {
        attribute_value(attributes.drop_first(), name)
    }
}

/// Index of the first of `nodes` that is an element called `name`, or the
/// length of `nodes` where there is none.
pub open spec fn first_element_named(nodes: Seq<NodeModel>, name: Seq<char>) -> int
    decreases nodes.len(),
{
    if nodes.len() == 0 {
        0
    } else if nodes[0] matches NodeModel::Element(e) && e.name == name {
        0
    } else {
        1 + first_element_named(nodes.drop_first(), name)
    }
}

/// Index of the first of `nodes` that is a text node, or the length of
/// `nodes` where there is none.
pub open spec fn first_text(nodes: Seq<NodeModel>) -> int
    decreases nodes.len(),
{
    if nodes.len() == 0 {
        0
    } else if nodes[0] is Text {
        0
    } else {
        1 + first_text(nodes.drop_first())
    }
}

/// `nodes` without its text nodes, and with the text nodes taken out of
/// every element below.
pub open spec fn without_text_nodes(nodes: Seq<NodeModel>) -> Seq<NodeModel>
    decreases nodes,
{
    if nodes.len() == 0 {
        Seq::empty()
    } else {
        let front = without_text_nodes(nodes.drop_last());
        match nodes.last() {
            NodeModel::Text(_) => front,
            NodeModel::Element(e) => front.push(NodeModel::Element(without_text(e))),
            other => front.push(other),
        }
    }
}

/// `m` with the text nodes taken out at every depth.
pub open spec fn without_text(m: ElementModel) -> ElementModel
    decreases m,
{
    ElementModel {
        prefix: m.prefix,
        namespace: m.namespace,
        namespaces: m.namespaces,
        name: m.name,
        attributes: m.attributes,
        children: without_text_nodes(m.children),
    }
}

/// `m` with `node` in place of its child at `index`.
pub open spec fn with_child(m: ElementModel, index: int, node: NodeModel) -> ElementModel {
    ElementModel {
        prefix: m.prefix,
        namespace: m.namespace,
        namespaces: m.namespaces,
        name: m.name,
        attributes: m.attributes,
        children: m.children.update(index, node),
    }
}

impl ElementModel {
    /// Whether no element of the tree has two attributes of one name.
    pub open spec fn well_formed(self) -> bool
        decreases self,
    {
        &&& distinct_names(self.attributes)
        &&& forall|i: int|
            0 <= i < self.children.len() ==> (#[trigger] self.children[i]).well_formed()
    }
}

impl NodeModel {
    /// Whether the node, where it is an element, is well formed.
    pub open spec fn well_formed(self) -> bool
        decreases self,
    {
        match self {
            NodeModel::Element(e) => e.well_formed(),
            _ => true,
        }
    }
}

impl XmlElement {
    /// What the element holds.
    pub open spec fn model(&self) -> ElementModel
        decreases self,
    {
        ElementModel {
            prefix: text_of(self.prefix),
            namespace: text_of(self.namespace),
            namespaces: self.namespaces,
            name: self.name@,
            attributes: pairs_of(self.attributes@),
            children: Seq::new(
                self.children@.len(),
                |i: int|
                    if 0 <= i < self.children@.len() {
                        self.children@[i].model()
                    } else {
                        NodeModel::Text(Seq::empty())
                    },
            ),
        }
    }
}

impl XmlNode {
    /// What the node holds.
    pub open spec fn model(&self) -> NodeModel
        decreases self,
    {
        match self {
            XmlNode::Element(e) => NodeModel::Element(e.model()),
            XmlNode::Comment(s) => NodeModel::Comment(s@),
            XmlNode::CData(s) => NodeModel::CData(s@),
            XmlNode::Text(s) => NodeModel::Text(s@),
            XmlNode::ProcessingInstruction(name, data) => NodeModel::ProcessingInstruction(
                name@,
                text_of(*data),
            ),
        }
    }
}

impl View for XmlElement {
    type V = ElementModel;

    open spec fn view(&self) -> ElementModel {
        self.model()
    }
}

impl View for XmlNode {
    type V = NodeModel;

    open spec fn view(&self) -> NodeModel {
        self.model()
    }
}

/// The models of a list of nodes.
pub open spec fn nodes_of(nodes: Seq<XmlNode>) -> Seq<NodeModel> {
    Seq::new(nodes.len(), |i: int| nodes[i]@)
}

/// Taking the text nodes out keeps a tree well formed.
pub proof fn lemma_without_text_well_formed(m: ElementModel)
    requires
        m.well_formed(),
    ensures
        without_text(m).well_formed(),
    decreases m,
{
    lemma_without_text_nodes_well_formed(m.children);
    let r = without_text(m);
    assert(r.attributes == m.attributes);
    assert(r.children == without_text_nodes(m.children));
    assert forall|i: int| 0 <= i < r.children.len() implies (#[trigger] r.children[i]).well_formed() by {
        assert(without_text_nodes(m.children)[i].well_formed());
    }
}

/// Taking the text nodes out of well-formed nodes leaves well-formed nodes,
/// none of them a text node.
pub proof fn lemma_without_text_nodes_well_formed(nodes: Seq<NodeModel>)
    requires
        forall|i: int| 0 <= i < nodes.len() ==> (#[trigger] nodes[i]).well_formed(),
    ensures
        forall|i: int|
            0 <= i < without_text_nodes(nodes).len() ==> (#[trigger] without_text_nodes(
                nodes,
            )[i]).well_formed(),
    decreases nodes,
{
    if nodes.len() > 0 {
        let front = nodes.drop_last();
        assert forall|i: int| 0 <= i < front.len() implies (#[trigger] front[i]).well_formed() by {
            assert(front[i] == nodes[i]);
        }
        lemma_without_text_nodes_well_formed(front);
        let kept = without_text_nodes(front);
        let all = without_text_nodes(nodes);
        assert(nodes.last() == nodes[nodes.len() - 1]);
        assert(nodes.last().well_formed());
        match nodes.last() {
            NodeModel::Text(_) => {
                assert(all == kept);
            },
            NodeModel::Element(e) => {
                lemma_without_text_well_formed(e);
                assert(all == kept.push(NodeModel::Element(without_text(e))));
                assert(NodeModel::Element(without_text(e)).well_formed());
            },
            other => {
                assert(all == kept.push(other));
            },
        }
        assert forall|i: int| 0 <= i < all.len() implies (#[trigger] all[i]).well_formed() by {
            if i < kept.len() {
                assert(all[i] == kept[i]);
            }
        }
    }
}

/// A copy of an optional string.
pub fn copy_text(o: &Option<String>) -> (r: Option<String>)
    ensures
        text_of(r) == text_of(*o),
{
    match o {
        Some(s) => Some(s.clone()),
        None => None,
    }
}

/// A copy of a list of string pairs.
pub fn copy_pairs(pairs: &Vec<(String, String)>) -> (r: Vec<(String, String)>)
    ensures
        pairs_of(r@) == pairs_of(pairs@),
{
    let mut r: Vec<(String, String)> = Vec::new();
    let mut i: usize = 0;
    while i < pairs.len()
        invariant
            i <= pairs.len(),
            r.len() == i,
            forall|k: int|
                0 <= k < i ==> (#[trigger] r[k]).0@ == pairs[k].0@ && r[k].1@ == pairs[k].1@,
        decreases pairs.len() - i,
    {
        r.push((pairs[i].0.clone(), pairs[i].1.clone()));
        i += 1;
    }
    assert(pairs_of(r@) =~= pairs_of(pairs@));
    r
}

/// Whether no two of `pairs` have the same first string.
pub fn names_distinct(pairs: &Vec<(String, String)>) -> (r: bool)
    ensures
        r == distinct_names(pairs_of(pairs@)),
{
    let ghost names = pairs_of(pairs@);
    let mut i: usize = 0;
    while i < pairs.len()
        invariant
            i <= pairs.len(),
            names == pairs_of(pairs@),
            forall|a: int, b: int|
                0 <= a < b < names.len() && a < i ==> (#[trigger] names[a]).0 != (
                #[trigger] names[b]).0,
        decreases pairs.len() - i,
    {
        let mut j: usize = i + 1;
        while j < pairs.len()
            invariant
                i < j <= pairs.len(),
                names == pairs_of(pairs@),
                forall|b: int| i < b < j ==> names[i as int].0 != (#[trigger] names[b]).0,
            decreases pairs.len() - j,
        {
            if pairs[i].0 == pairs[j].0 {
                assert(names[i as int].0 == names[j as int].0);
                return false;
            }
            j += 1;
        }
        i += 1;
    }
    true
}

impl XmlNode {
    /// A copy of the node and of everything below it.
    pub fn deep_copy(&self) -> (r: XmlNode)
        ensures
            r@ == self@,
        decreases self,
    {
        match self {
            XmlNode::Element(e) => XmlNode::Element(e.deep_copy()),
            XmlNode::Comment(s) => XmlNode::Comment(s.clone()),
            XmlNode::CData(s) => XmlNode::CData(s.clone()),
            XmlNode::Text(s) => XmlNode::Text(s.clone()),
            XmlNode::ProcessingInstruction(name, data) => XmlNode::ProcessingInstruction(
                name.clone(),
                copy_text(data),
            ),
        }
    }
}

impl XmlElement {
    /// An element called `name`, without attributes or children.
    pub fn new(name: &str) -> (r: XmlElement)
        ensures
            r@ == (ElementModel {
                prefix: None,
                namespace: None,
                namespaces: None,
                name: name@,
                attributes: Seq::empty(),
                children: Seq::empty(),
            }),
    {
        let r = XmlElement {
            prefix: None,
            namespace: None,
            namespaces: None,
            name: String::from_str(name),
            attributes: Vec::new(),
            children: Vec::new(),
        };
        assert(r@.attributes =~= Seq::empty());
        assert(r@.children =~= Seq::empty());
        r
    }

    /// Whether no element of the tree has two attributes of one name.
    pub fn is_well_formed(&self) -> (r: bool)
        ensures
            r == self@.well_formed(),
        decreases self,
    {
        if !names_distinct(&self.attributes) {
            return false;
        }
        let mut i: usize = 0;
        while i < self.children.len()
            invariant
                i <= self.children.len(),
                distinct_names(self@.attributes),
                forall|k: int| 0 <= k < i ==> (#[trigger] self@.children[k]).well_formed(),
            decreases self.children.len() - i,
        {
            if let XmlNode::Element(e) = &self.children[i] {
                if !e.is_well_formed() {
                    assert(!self@.children[i as int].well_formed());
                    return false;
                }
            }
            assert(self@.children[i as int].well_formed());
            i += 1;
        }
        true
    }

    /// A copy of the element and of everything below it.
    pub fn deep_copy(&self) -> (r: XmlElement)
        ensures
            r@ == self@,
        decreases self,
    {
        let mut children: Vec<XmlNode> = Vec::new();
        let mut i: usize = 0;
        while i < self.children.len()
            invariant
                i <= self.children.len(),
                children.len() == i,
                forall|k: int| 0 <= k < i ==> (#[trigger] children[k])@ == self.children[k]@,
            decreases self.children.len() - i,
        {
            children.push(self.children[i].deep_copy());
            i += 1;
        }
        let r = XmlElement {
            prefix: copy_text(&self.prefix),
            namespace: copy_text(&self.namespace),
            namespaces: crate::xml_io::copy_namespaces(&self.namespaces),
            name: self.name.clone(),
            attributes: copy_pairs(&self.attributes),
            children,
        };
        assert(r@.children =~= self@.children);
        r
    }

    /// A copy of the element without text nodes, at any depth.
    pub fn without_text(&self) -> (r: XmlElement)
        ensures
            r@ == without_text(self@),
        decreases self,
    {
        let ghost nodes = self@.children;
        let mut children: Vec<XmlNode> = Vec::new();
        let mut i: usize = 0;
        while i < self.children.len()
            invariant
                i <= self.children.len(),
                nodes == self@.children,
                nodes.len() == self.children.len(),
                nodes_of(children@) == without_text_nodes(nodes.take(i as int)),
            decreases self.children.len() - i,
        {
            let ghost before = nodes_of(children@);
            assert(nodes.take(i + 1).drop_last() =~= nodes.take(i as int));
            assert(nodes.take(i + 1).last() == self.children[i as int]@);
            match &self.children[i] {
                XmlNode::Text(_) => {},
                XmlNode::Element(e) => {
                    children.push(XmlNode::Element(e.without_text()));
                    assert(nodes_of(children@) =~= before.push(
                        NodeModel::Element(without_text(e@)),
                    ));
                },
                other => {
                    children.push(other.deep_copy());
                    assert(nodes_of(children@) =~= before.push(other@));
                },
            }
            i += 1;
        }
        assert(nodes.take(i as int) =~= nodes);
        let r = XmlElement {
            prefix: copy_text(&self.prefix),
            namespace: copy_text(&self.namespace),
            namespaces: crate::xml_io::copy_namespaces(&self.namespaces),
            name: self.name.clone(),
            attributes: copy_pairs(&self.attributes),
            children,
        };
        assert(r@.children =~= nodes_of(children@));
        r
    }

    /// A copy of the element with `node` in place of its child at `index`.
    pub fn with_child(&self, index: usize, node: XmlNode) -> (r: XmlElement)
        requires
            index < self.children.len(),
        ensures
            r@ == with_child(self@, index as int, node@),
    {
        let ghost replacement = node@;
        let mut children: Vec<XmlNode> = Vec::new();
        let mut i: usize = 0;
        while i < index
            invariant
                i <= index < self.children.len(),
                children.len() == i,
                forall|k: int| 0 <= k < i ==> (#[trigger] children[k])@ == self.children[k]@,
            decreases index - i,
        {
            children.push(self.children[i].deep_copy());
            i += 1;
        }
        children.push(node);
        i += 1;
        while i < self.children.len()
            invariant
                index < i <= self.children.len(),
                children.len() == i,
                children[index as int]@ == replacement,
                forall|k: int|
                    0 <= k < i && k != index ==> (#[trigger] children[k])@ == self.children[k]@,
            decreases self.children.len() - i,
        {
            children.push(self.children[i].deep_copy());
            i += 1;
        }
        let r = XmlElement {
            prefix: copy_text(&self.prefix),
            namespace: copy_text(&self.namespace),
            namespaces: crate::xml_io::copy_namespaces(&self.namespaces),
            name: self.name.clone(),
            attributes: copy_pairs(&self.attributes),
            children,
        };
        assert(r@.children =~= self@.children.update(index as int, replacement));
        r
    }

    /// The value of the attribute called `name`.
    pub fn attribute(&self, name: &str) -> (r: Option<&String>)
        ensures
            text_of_ref(r) == attribute_value(self@.attributes, name@),
    {
        let ghost attributes = self@.attributes;
        let key = String::from_str(name);
        let mut i: usize = 0;
        assert(attributes.skip(0) =~= attributes);
        while i < self.attributes.len()
            invariant
                i <= self.attributes.len(),
                key@ == name@,
                attributes == self@.attributes,
                attribute_value(attributes, name@) == attribute_value(
                    attributes.skip(i as int),
                    name@,
                ),
            decreases self.attributes.len() - i,
        {
            assert(attributes.skip(i as int)[0] == attributes[i as int]);
            assert(attributes.skip(i as int).drop_first() =~= attributes.skip(i + 1));
            if self.attributes[i].0 == key {
                return Some(&self.attributes[i].1);
            }
            i += 1;
        }
        None
    }

    /// Index of the first child that is an element called `name`.
    pub fn child_element(&self, name: &str) -> (r: Option<usize>)
        ensures
            match r {
                Some(i) => {
                    &&& i < self.children.len()
                    &&& i == first_element_named(self@.children, name@)
                    &&& self@.children[i as int] matches NodeModel::Element(e) && e.name == name@
                },
                None => first_element_named(self@.children, name@) == self@.children.len(),
            },
    {
        let ghost nodes = self@.children;
        let key = String::from_str(name);
        let mut i: usize = 0;
        assert(nodes.skip(0) =~= nodes);
        while i < self.children.len()
            invariant
                i <= self.children.len(),
                key@ == name@,
                nodes == self@.children,
                nodes.len() == self.children.len(),
                first_element_named(nodes, name@) == i + first_element_named(
                    nodes.skip(i as int),
                    name@,
                ),
            decreases self.children.len() - i,
        {
            assert(nodes.skip(i as int)[0] == self.children[i as int]@);
            assert(nodes.skip(i as int).drop_first() =~= nodes.skip(i + 1));
            if let XmlNode::Element(e) = &self.children[i] {
                if e.name == key {
                    return Some(i);
                }
            }
            i += 1;
        }
        None
    }

    /// Index of the first child that is a text node.
    pub fn text_child(&self) -> (r: Option<usize>)
        ensures
            match r {
                Some(i) => {
                    &&& i < self.children.len()
                    &&& i == first_text(self@.children)
                    &&& self@.children[i as int] is Text
                },
                None => first_text(self@.children) == self@.children.len(),
            },
    {
        let ghost nodes = self@.children;
        let mut i: usize = 0;
        assert(nodes.skip(0) =~= nodes);
        while i < self.children.len()
            invariant
                i <= self.children.len(),
                nodes == self@.children,
                nodes.len() == self.children.len(),
                first_text(nodes) == i + first_text(nodes.skip(i as int)),
            decreases self.children.len() - i,
        {
            assert(nodes.skip(i as int)[0] == self.children[i as int]@);
            assert(nodes.skip(i as int).drop_first() =~= nodes.skip(i + 1));
            if let XmlNode::Text(_) = &self.children[i] {
                return Some(i);
            }
            i += 1;
        }
        None
    }
}

/// Putting a well-formed node in the place of a child keeps a tree well
/// formed.
pub proof fn lemma_with_child_well_formed(m: ElementModel, index: int, node: NodeModel)
    requires
        m.well_formed(),
        node.well_formed(),
        0 <= index < m.children.len(),
    ensures
        with_child(m, index, node).well_formed(),
{
    let r = with_child(m, index, node);
    assert forall|i: int| 0 <= i < r.children.len() implies (#[trigger] r.children[i]).well_formed() by {
        if i != index {
            assert(r.children[i] == m.children[i]);
        }
    }
}

/// The text behind an optional reference to a string.
pub open spec fn text_of_ref(o: Option<&String>) -> Option<Seq<char>> {
    match o {
        Some(s) => Some(s@),
        None => None,
    }
}

/// Takes the text nodes out of `elem`, at any depth.
pub fn remove_text_elements(elem: &mut XmlElement)
    ensures
        final(elem)@ == without_text(old(elem)@),
{
    let stripped = elem.without_text();
    *elem = stripped;
}

} // verus!
