//! Where a source line stands: the file, and inside it the type, the
//! function and the variable that enclose the line.
//!
//! A location is modelled as the sequence of its nodes from the outermost
//! (the file) to the innermost; its depth is the length of that sequence.
use vstd::prelude::*;

verus! {

/// What a node of a location is.
#[derive(Clone, Copy, Debug, PartialEq, Eq, Structural)]
pub enum LocationKind {
    File,
    /// Stands for a file that the snippet creates.
    New,
    /// Stands for the top of a file that has code further down.
    Top,
    Class,
    Enum,
    Interface,
    Constructor,
    Function,
    Method,
    Variable,
}

impl View for LocationKind {
    type V = LocationKind;

    open spec fn view(&self) -> LocationKind {
        *self
    }
}

impl DeepView for LocationKind {
    type V = LocationKind;

    open spec fn deep_view(&self) -> LocationKind {
        *self
    }
}

/// One level of nesting.
#[derive(Debug)]
pub struct LocationNode {
    pub kind: LocationKind,
    /// Empty where the kind has no name.
    pub name: String,
    /// A function that is declared on this line and defined elsewhere.
    pub is_function_declaration: bool,
}

/// A node as the contracts see it.
pub struct LocationNodeView {
    pub kind: LocationKind,
    pub name: Seq<char>,
    pub is_function_declaration: bool,
}

impl View for LocationNode {
    type V = LocationNodeView;

    open spec fn view(&self) -> LocationNodeView {
        LocationNodeView {
            kind: self.kind,
            name: self.name@,
            is_function_declaration: self.is_function_declaration,
        }
    }
}

impl DeepView for LocationNode {
    type V = LocationNodeView;

    open spec fn deep_view(&self) -> LocationNodeView {
        self@
    }
}

impl Clone for LocationNode {
    fn clone(&self) -> (copy: Self)
        ensures
            copy == *self,
    {
        LocationNode {
            kind: self.kind,
            name: self.name.clone(),
            is_function_declaration: self.is_function_declaration,
        }
    }
}

impl LocationNode {
    /// Whether the two nodes have the same kind, name and flag.
    pub fn same_as(&self, other: &LocationNode) -> (same: bool)
        ensures
            same == (self@ == other@),
    {
        self.kind == other.kind && self.is_function_declaration == other.is_function_declaration
            && self.name == other.name
    }
}

/// A nested position: its nodes, outermost first. The location of a source
/// line starts with the node of its file.
#[derive(Debug)]
pub struct Location {
    pub nodes: Vec<LocationNode>,
}

impl View for Location {
    type V = Seq<LocationNodeView>;

    open spec fn view(&self) -> Seq<LocationNodeView> {
        self.nodes.deep_view()
    }
}

impl DeepView for Location {
    type V = Seq<LocationNodeView>;

    open spec fn deep_view(&self) -> Seq<LocationNodeView> {
        self@
    }
}

/// Whether a node of this kind is a function of some sort.
pub open spec fn kind_is_function(kind: LocationKind) -> bool {
    kind == LocationKind::Constructor || kind == LocationKind::Function || kind
        == LocationKind::Method
}

/// Whether a node of this kind is a type.
pub open spec fn kind_is_type(kind: LocationKind) -> bool {
    kind == LocationKind::Class || kind == LocationKind::Enum || kind == LocationKind::Interface
}

/// Whether the innermost node of the chain is a file.
pub open spec fn chain_is_file(chain: Seq<LocationNodeView>) -> bool {
    chain.len() > 0 && chain.last().kind == LocationKind::File
}

/// Whether the innermost node of the chain is a function of some sort.
pub open spec fn chain_is_function(chain: Seq<LocationNodeView>) -> bool {
    chain.len() > 0 && kind_is_function(chain.last().kind)
}

/// A chain as the scanner keeps it: a file, and inside it anything but
/// files.
pub open spec fn rooted(chain: Seq<LocationNodeView>) -> bool {
    &&& chain.len() > 0
    &&& chain[0].kind == LocationKind::File
    &&& forall|i: int| 1 <= i < chain.len() ==> (#[trigger] chain[i]).kind != LocationKind::File
}

/// The chain cut back to `depth + 1` nodes; a chain that is no deeper stays
/// as it is.
pub open spec fn popped(chain: Seq<LocationNodeView>, depth: nat) -> Seq<LocationNodeView> {
    if chain.len() < depth + 1 {
        chain
    } else {
        chain.take(depth as int + 1)
    }
}

/// The chain without its innermost node; a chain of one node, or of none,
/// stays as it is.
pub open spec fn parent_of(chain: Seq<LocationNodeView>) -> Seq<LocationNodeView> {
    if chain.len() >= 2 {
        chain.drop_last()
    } else {
        chain
    }
}

/// Copies `nodes[..count]`.
pub fn copy_nodes(nodes: &Vec<LocationNode>, count: usize) -> (copy: Vec<LocationNode>)
    requires
        count <= nodes.len(),
    ensures
        copy@ == nodes@.take(count as int),
        copy.deep_view() == nodes.deep_view().take(count as int),
{
    let mut copy: Vec<LocationNode> = Vec::new();
    let mut i: usize = 0;
    while i < count
        invariant
            i <= count <= nodes.len(),
            copy@ == nodes@.take(i as int),
        decreases count - i,
    {
        copy.push(nodes[i].clone());
        assert(nodes@.take(i + 1) =~= nodes@.take(i as int).push(nodes@[i as int]));
        i += 1;
    }
    assert(copy.deep_view() =~= nodes.deep_view().take(count as int));
    copy
}

impl Clone for Location {
    fn clone(&self) -> (copy: Self)
        ensures
            copy.nodes@ == self.nodes@,
            copy@ == self@,
    {
        let nodes = copy_nodes(&self.nodes, self.nodes.len());
        assert(self.nodes@.take(self.nodes.len() as int) =~= self.nodes@);
        Location { nodes }
    }
}

impl Location {
    /// The location of a whole file.
    pub fn file(name: String) -> (location: Location)
        ensures
            location@ == seq![
                (LocationNodeView {
                    kind: LocationKind::File,
                    name: name@,
                    is_function_declaration: false,
                }),
            ],
            rooted(location@),
    {
        let mut nodes: Vec<LocationNode> = Vec::new();
        nodes.push(LocationNode { kind: LocationKind::File, name, is_function_declaration: false });
        let location = Location { nodes };
        assert(location@ =~= seq![location.nodes[0]@]);
        location
    }

    /// The location one level further in.
    pub fn child(&self, node: LocationNode) -> (inner: Location)
        ensures
            inner@ == self@.push(node@),
    {
        let mut nodes = copy_nodes(&self.nodes, self.nodes.len());
        assert(self.nodes@.take(self.nodes.len() as int) =~= self.nodes@);
        nodes.push(node);
        let inner = Location { nodes };
        assert(inner@ =~= self@.push(node@));
        inner
    }

    /// The enclosing location, or the location itself where nothing
    /// encloses it.
    pub fn parent(&self) -> (outer: Location)
        ensures
            outer@ == parent_of(self@),
    {
        let n = self.nodes.len();
        if n < 2 {
            self.clone()
        } else {
            let outer = Location { nodes: copy_nodes(&self.nodes, n - 1) };
            assert(outer@ =~= self@.drop_last());
            outer
        }
    }

    /// Whether this is the location of a whole file.
    pub fn is_file(&self) -> (b: bool)
        ensures
            b == chain_is_file(self@),
    {
        let n = self.nodes.len();
        n > 0 && self.nodes[n - 1].kind == LocationKind::File
    }

    /// Whether this is the location of a function, a method or a
    /// constructor.
    pub fn is_function(&self) -> (b: bool)
        ensures
            b == chain_is_function(self@),
    {
        let n = self.nodes.len();
        n > 0 && (self.nodes[n - 1].kind == LocationKind::Constructor || self.nodes[n - 1].kind
            == LocationKind::Function || self.nodes[n - 1].kind == LocationKind::Method)
    }

    /// The number of nodes from this one to the outermost, both counted.
    pub fn depth(&self) -> (d: usize)
        ensures
            d == self@.len(),
    {
        self.nodes.len()
    }

    /// The ancestor that lies `depth` levels below the outermost node, or
    /// the location itself where it is no deeper than that.
    pub fn pop_to_depth(&self, depth: usize) -> (outer: Location)
        ensures
            outer@ == popped(self@, depth as nat),
    {
        if self.nodes.len() <= depth {
            self.clone()
        } else {
            let outer = Location { nodes: copy_nodes(&self.nodes, depth + 1) };
            outer
        }
    }

    /// Whether the outermost `count` nodes of this location are exactly the
    /// nodes of `other`.
    pub fn prefix_is(&self, count: usize, other: &Location) -> (same: bool)
        requires
            count <= self@.len(),
        ensures
            same == (self@.take(count as int) == other@),
    {
        if other.nodes.len() != count {
            assert(self@.take(count as int).len() == count);
            return false;
        }
        let mut i: usize = 0;
        while i < count
            invariant
                i <= count <= self@.len(),
                count == other@.len(),
                forall|k: int| 0 <= k < i ==> self@[k] == other@[k],
            decreases count - i,
        {
            if !self.nodes[i].same_as(&other.nodes[i]) {
                assert(self@.take(count as int)[i as int] != other@[i as int]);
                return false;
            }
            i += 1;
        }
        assert(self@.take(count as int) =~= other@);
        true
    }

    /// Whether the two locations have the same nodes.
    pub fn same_as(&self, other: &Location) -> (same: bool)
        ensures
            same == (self@ == other@),
    {
        assert(self@.take(self@.len() as int) =~= self@);
        self.prefix_is(self.nodes.len(), other)
    }
}

/// Cutting back twice to the same depth is cutting back once, and a chain of
/// at most `depth + 1` nodes is not cut at all.
pub proof fn lemma_pop_to_depth_idempotent(chain: Seq<LocationNodeView>, depth: nat)
    ensures
        popped(popped(chain, depth), depth) == popped(chain, depth),
        chain.len() <= depth + 1 ==> popped(chain, depth) == chain,
{
    if chain.len() == depth + 1 {
        assert(chain.take(depth as int + 1) =~= chain);
    }
}

} // verus!
