//! The breadcrumb of a snippet: a phrase for each node of its location that
//! tells the reader where the snippet goes, given the location of the code
//! just before it.
use crate::location::{
    chain_is_file, chain_is_function, kind_is_function, kind_is_type, Location, LocationKind,
    LocationNodeView,
};
use vstd::prelude::*;
use vstd::string::*;

verus! {

/// The word for a kind of node.
pub open spec fn kind_text(kind: LocationKind) -> Seq<char> {
    match kind {
        LocationKind::File => "file"@,
        LocationKind::New => "new"@,
        LocationKind::Top => "top"@,
        LocationKind::Class => "class"@,
        LocationKind::Enum => "enum"@,
        LocationKind::Interface => "interface"@,
        LocationKind::Constructor => "constructor"@,
        LocationKind::Function => "function"@,
        LocationKind::Method => "method"@,
        LocationKind::Variable => "variable"@,
    }
}

/// `name` set off as the name of something.
pub open spec fn emphasized(name: Seq<char>) -> Seq<char> {
    "<em>"@ + name + "</em>"@
}

/// The phrase for a node that is told apart by what precedes the snippet.
/// `outer` is the chain down to the node's parent, `here` the chain down to
/// the node itself.
pub open spec fn phrase_after(
    node: LocationNodeView,
    outer: Seq<LocationNodeView>,
    here: Seq<LocationNodeView>,
    preceding: Seq<LocationNodeView>,
) -> Option<Seq<char>> {
    if preceding.len() == 0 {
        None
    } else if outer.len() > 0 && preceding == outer && !chain_is_file(preceding) {
        Some("in "@ + kind_text(preceding.last().kind) + " "@ + emphasized(preceding.last().name))
    } else if preceding == here {
        Some("in "@ + kind_text(node.kind) + " <em>$name</em>"@)
    } else if chain_is_function(preceding) {
        Some("add after "@ + emphasized(preceding.last().name) + "()"@)
    } else if !chain_is_file(preceding) {
        Some(
            "add after "@ + kind_text(preceding.last().kind) + " "@ + emphasized(
                preceding.last().name,
            ),
        )
    } else {
        None
    }
}

/// The phrase for the node at `level` of `chain`, if it gets one. The first
/// of these that applies decides: a file gives its name; the two synthetic
/// nodes give their fixed phrases; a type is gone into; a function that is
/// itself what precedes is gone into; a function from which lines are removed
/// is named with its kind; then what precedes decides.
pub open spec fn phrase(
    chain: Seq<LocationNodeView>,
    level: int,
    preceding: Option<Seq<LocationNodeView>>,
    has_removed: bool,
) -> Option<Seq<char>> {
    let node = chain[level];
    let here = chain.take(level + 1);
    if node.kind == LocationKind::File {
        Some(emphasized(node.name))
    } else if node.kind == LocationKind::New {
        Some("create new file"@)
    } else if node.kind == LocationKind::Top {
        Some("add to top of file"@)
    } else if kind_is_type(node.kind) {
        Some("in "@ + kind_text(node.kind) + " "@ + emphasized(node.name))
    } else if kind_is_function(node.kind) && preceding == Some(here) {
        Some("in "@ + emphasized(node.name) + "()"@)
    } else if kind_is_function(node.kind) && has_removed {
        Some(kind_text(node.kind) + " "@ + emphasized(node.name) + "()"@)
    } else {
        match preceding {
            Some(p) => phrase_after(node, chain.take(level), here, p),
            None => None,
        }
    }
}

/// The phrases for the outermost `count` nodes of `chain`, outermost first.
pub open spec fn phrases_upto(
    chain: Seq<LocationNodeView>,
    count: nat,
    preceding: Option<Seq<LocationNodeView>>,
    has_removed: bool,
) -> Seq<Seq<char>>
    decreases count,
{
    if count == 0 {
        Seq::empty()
    } else {
        let outer = phrases_upto(chain, (count - 1) as nat, preceding, has_removed);
        match phrase(chain, count - 1, preceding, has_removed) {
            Some(p) => outer.push(p),
            None => outer,
        }
    }
}

/// The phrases for all of `chain`, outermost first.
pub open spec fn breadcrumbs(
    chain: Seq<LocationNodeView>,
    preceding: Option<Seq<LocationNodeView>>,
    has_removed: bool,
) -> Seq<Seq<char>> {
    phrases_upto(chain, chain.len(), preceding, has_removed)
}

/// The word for a kind of node.
pub fn kind_name(kind: LocationKind) -> (word: &'static str)
    ensures
        word@ == kind_text(kind),
{
    match kind {
        LocationKind::File => "file",
        LocationKind::New => "new",
        LocationKind::Top => "top",
        LocationKind::Class => "class",
        LocationKind::Enum => "enum",
        LocationKind::Interface => "interface",
        LocationKind::Constructor => "constructor",
        LocationKind::Function => "function",
        LocationKind::Method => "method",
        LocationKind::Variable => "variable",
    }
}

/// The four texts one after the other.
pub fn join4(a: &str, b: &str, c: &str, d: &str) -> (s: String)
    ensures
        s@ == a@ + b@ + c@ + d@,
{
    let mut s = String::from_str(a);
    s.append(b);
    s.append(c);
    s.append(d);
    s
}

/// `name` set off as the name of something.
pub fn emphasize(name: &str) -> (s: String)
    ensures
        s@ == emphasized(name@),
{
    let s = join4("<em>", name, "</em>", "");
    proof {
        reveal_strlit("");
        assert(s@ =~= emphasized(name@));
    }
    s
}

impl Location {
    /// The phrase for the node at `level`, if it gets one.
    pub fn phrase_at(&self, level: usize, preceding: Option<&Location>, has_removed: bool) -> (found:
        Option<String>)
        requires
            level < self@.len(),
        ensures
            found.deep_view() == phrase(self@, level as int, preceding.deep_view(), has_removed),
    {
        assert(self@.len() == self.nodes.len());
        let node = &self.nodes[level];
        let name = emphasize(node.name.as_str());
        let is_function = node.kind == LocationKind::Constructor || node.kind
            == LocationKind::Function || node.kind == LocationKind::Method;
        let is_type = node.kind == LocationKind::Class || node.kind == LocationKind::Enum
            || node.kind == LocationKind::Interface;
        let goes_before = match preceding {
            Some(p) => self.prefix_is(level + 1, p),
            None => false,
        };
        if node.kind == LocationKind::File {
            return Some(name);
        }
        if node.kind == LocationKind::New {
            return Some(String::from_str("create new file"));
        }
        if node.kind == LocationKind::Top {
            return Some(String::from_str("add to top of file"));
        }
        if is_type {
            return Some(join4("in ", kind_name(node.kind), " ", name.as_str()));
        }
        if is_function && goes_before {
            let s = join4("in ", name.as_str(), "()", "");
            proof {
                reveal_strlit("");
                assert(s@ =~= "in "@ + emphasized(node.name@) + "()"@);
            }
            return Some(s);
        }
        if is_function && has_removed {
            let s = join4(kind_name(node.kind), " ", name.as_str(), "()");
            return Some(s);
        }
        let p = match preceding {
            Some(p) => p,
            None => {
                return None;
            },
        };
        let n = p.nodes.len();
        if n == 0 {
            return None;
        }
        let last = &p.nodes[n - 1];
        assert(p@.last() == last@);
        let last_name = emphasize(last.name.as_str());
        if level > 0 && self.prefix_is(level, p) && !p.is_file() {
            return Some(join4("in ", kind_name(last.kind), " ", last_name.as_str()));
        }
        if level == 0 {
            assert(self@.take(0).len() == 0);
        }
        if goes_before {
            let s = join4("in ", kind_name(node.kind), " <em>$name</em>", "");
            proof {
                reveal_strlit("");
                assert(s@ =~= "in "@ + kind_text(node.kind) + " <em>$name</em>"@);
            }
            return Some(s);
        }
        if p.is_function() {
            let s = join4("add after ", last_name.as_str(), "()", "");
            proof {
                reveal_strlit("");
                assert(s@ =~= "add after "@ + emphasized(last.name@) + "()"@);
            }
            return Some(s);
        }
        if !p.is_file() {
            return Some(join4("add after ", kind_name(last.kind), " ", last_name.as_str()));
        }
        None
    }

    /// Adds to `result` the phrases for this location, outermost first.
    pub fn recurse(&self, result: &mut Vec<String>, preceding: Option<&Location>, has_removed: bool)
        ensures
            final(result).deep_view() == old(result).deep_view() + breadcrumbs(
                self@,
                preceding.deep_view(),
                has_removed,
            ),
    {
        let ghost had = result.deep_view();
        let ghost before = preceding.deep_view();
        let mut level: usize = 0;
        proof {
            assert(result.deep_view() =~= had + phrases_upto(self@, 0, before, has_removed));
        }
        while level < self.nodes.len()
            invariant
                level <= self.nodes.len(),
                before == preceding.deep_view(),
                result.deep_view() == had + phrases_upto(self@, level as nat, before, has_removed),
            decreases self.nodes.len() - level,
        {
            let ghost outer = phrases_upto(self@, level as nat, before, has_removed);
            match self.phrase_at(level, preceding, has_removed) {
                Some(p) => {
                    let ghost was = result.deep_view();
                    result.push(p);
                    proof {
                        assert(result.deep_view() =~= was.push(p@));
                        assert(was.push(p@) =~= had + outer.push(p@));
                    }
                },
                None => {},
            }
            level += 1;
        }
    }

    /// The phrases that tell where a snippet at this location goes.
    /// `preceding` is the location of the code just before the snippet, and
    /// `has_removed` says whether the snippet removes lines.
    pub fn to_html(&self, preceding: Option<&Location>, has_removed: bool) -> (phrases: Vec<String>)
        ensures
            phrases.deep_view() == breadcrumbs(self@, preceding.deep_view(), has_removed),
    {
        let mut result: Vec<String> = Vec::new();
        assert(result.deep_view() =~= Seq::<Seq<char>>::empty());
        self.recurse(&mut result, preceding, has_removed);
        assert(result.deep_view() =~= breadcrumbs(self@, preceding.deep_view(), has_removed));
        result
    }
}

} // verus!
