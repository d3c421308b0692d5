//! The node model: text nodes and elements.

use vstd::hash_map::StringHashMap;
use vstd::prelude::*;

verus! {

/// The mathematical value of a node.
pub enum Tree {
    /// A run of character data.
    Text(Seq<char>),
    /// A tagged container.
    Element { tag: Seq<char>, attributes: Map<Seq<char>, Seq<char>>, children: Seq<Tree> },
}

impl Tree {
    /// The children of an element; a text node has none.
    pub open spec fn children(self) -> Seq<Tree> {
        match self {
            Tree::Text(_) => Seq::empty(),
            Tree::Element { children, .. } => children,
        }
    }
}

/// The attributes of one element: a mapping from names to values in which
/// every name occurs once.
pub struct AttrMap {
    entries: StringHashMap<String>,
}

impl View for AttrMap {
    type V = Map<Seq<char>, Seq<char>>;

    closed spec fn view(&self) -> Map<Seq<char>, Seq<char>> {
        self.entries@.map_values(|v: String| v@)
    }
}

impl AttrMap {
    /// An empty mapping.
    pub fn new() -> (m: AttrMap)
        ensures
            m@ == Map::<Seq<char>, Seq<char>>::empty(),
    {
        let m = AttrMap { entries: StringHashMap::new() };
        assert(m@ =~= Map::<Seq<char>, Seq<char>>::empty());
        m
    }

    /// Binds `name` to `value`; an earlier value of `name` is replaced.
    pub fn insert(&mut self, name: String, value: String)
        ensures
            final(self)@ == old(self)@.insert(name@, value@),
    {
        self.entries.insert(name, value);
        assert(self@ =~= old(self)@.insert(name@, value@));
    }

    /// The value bound to `name`, if there is one.
    pub fn get(&self, name: &str) -> (r: Option<&String>)
        ensures
            match r {
                Some(v) => self@.contains_key(name@) && v@ == self@[name@],
                None => !self@.contains_key(name@),
            },
    {
        self.entries.get(name)
    }

    /// The number of names bound.
    pub fn len(&self) -> (n: usize)
        ensures
            n == self@.len(),
    {
        broadcast use vstd::hash_map::group_hash_map_axioms;
        proof {
            lemma_map_values_len(self.entries@);
        }
        self.entries.len()
    }
}

/// Mapping the values of a map changes neither its domain nor its size.
proof fn lemma_map_values_len(m: Map<Seq<char>, String>)
    ensures
        m.map_values(|v: String| v@).dom() == m.dom(),
        m.map_values(|v: String| v@).len() == m.len(),
{
    assert(m.map_values(|v: String| v@).dom() =~= m.dom());
}

/// The tag name and the attributes of an element.
pub struct ElementData {
    tag_name: String,
    attributes: AttrMap,
}

impl ElementData {
    /// The tag name, as a sequence of characters.
    pub closed spec fn tag(&self) -> Seq<char> {
        self.tag_name@
    }

    /// The attributes, as a mapping.
    pub closed spec fn attrs(&self) -> Map<Seq<char>, Seq<char>> {
        self.attributes@
    }

    /// The tag name.
    pub fn tag_name(&self) -> (name: &String)
        ensures
            name@ == self.tag(),
    {
        &self.tag_name
    }

    /// The attributes.
    pub fn attributes(&self) -> (attrs: &AttrMap)
        ensures
            attrs@ == self.attrs(),
    {
        &self.attributes
    }
}

/// What a node is: character data or an element.
pub enum NodeType {
    Text(String),
    Element(ElementData),
}

impl NodeType {
    /// Whether `tree` is a node of this type: a text node with the same
    /// data, or an element with the same tag name and attributes.
    pub open spec fn describes(&self, tree: Tree) -> bool {
        match *self {
            NodeType::Text(data) => tree == Tree::Text(data@),
            NodeType::Element(e) => match tree {
                Tree::Text(_) => false,
                Tree::Element { tag, attributes, .. } => tag == e.tag() && attributes == e.attrs(),
            },
        }
    }
}

/// A node of the tree. It owns its children.
pub struct Node {
    children: Vec<Node>,
    node_type: NodeType,
}

/// The values of a sequence of nodes, in order.
pub open spec fn trees(nodes: Seq<Node>) -> Seq<Tree> {
    Seq::new(nodes.len(), |i: int| nodes[i]@)
}

impl View for Node {
    type V = Tree;

    closed spec fn view(&self) -> Tree
        decreases self,
    {
        match self.node_type {
            NodeType::Text(data) => Tree::Text(data@),
            NodeType::Element(e) => Tree::Element {
                tag: e.tag_name@,
                attributes: e.attributes@,
                children: Seq::new(
                    self.children@.len(),
                    |i: int|
                        if 0 <= i < self.children@.len() {
                            self.children@[i]@
                        } else {
                            Tree::Text(Seq::empty())
                        },
                ),
            },
        }
    }
}

impl Node {
    /// A text node has no children.
    #[verifier::type_invariant]
    spec fn inv(&self) -> bool {
        self.node_type is Text ==> self.children@.len() == 0
    }

    /// What the node is, with its data.
    pub fn node_type(&self) -> (kind: &NodeType)
        ensures
            kind.describes(self@),
    {
        &self.node_type
    }

    /// The children, in order. A text node has none.
    pub fn children(&self) -> (children: &Vec<Node>)
        ensures
            children@.len() == self@.children().len(),
            trees(children@) == self@.children(),
    {
        proof {
            use_type_invariant(self);
            assert(trees(self.children@) =~= self@.children());
        }
        &self.children
    }
}

/// Wraps `data` as a text node.
pub fn text(data: String) -> (node: Node)
    ensures
        node@ == Tree::Text(data@),
{
    Node { children: Vec::new(), node_type: NodeType::Text(data) }
}

/// Wraps a tag name, attributes and children as an element. Nothing is
/// checked: any name and any attributes make an element.
pub fn element(name: String, attrs: AttrMap, children: Vec<Node>) -> (node: Node)
    ensures
        node@ == (Tree::Element {
            tag: name@,
            attributes: attrs@,
            children: trees(children@),
        }),
{
    let node = Node {
        children,
        node_type: NodeType::Element(ElementData { tag_name: name, attributes: attrs }),
    };
    assert(node@->Element_children =~= trees(node.children@));
    node
}

} // verus!
