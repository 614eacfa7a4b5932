//! Snippets: what a region adds to a file and removes from it, the lines of
//! context around it, and where it stands.
use crate::catalog::{tag_before, CodeTag, CodeTagView};
use crate::location::{Location, LocationKind, LocationNode, LocationNodeView};
use vstd::prelude::*;

verus! {

/// A line of a source file that is no marker, with the region that was
/// open on it.
#[derive(Debug)]
pub struct SourceLine {
    pub content: String,
    pub location: Location,
    /// The innermost region that is open on this line.
    pub start: CodeTag,
    /// The region that takes this line away again, if there is one.
    pub end: Option<CodeTag>,
}

/// A stamped line as the contracts see it.
pub struct SourceLineView {
    pub content: Seq<char>,
    pub location: Seq<LocationNodeView>,
    pub start: CodeTagView,
    pub end: Option<CodeTagView>,
}

impl View for SourceLine {
    type V = SourceLineView;

    open spec fn view(&self) -> SourceLineView {
        SourceLineView {
            content: self.content@,
            location: self.location@,
            start: self.start@,
            end: self.end.deep_view(),
        }
    }
}

impl DeepView for SourceLine {
    type V = SourceLineView;

    open spec fn deep_view(&self) -> SourceLineView {
        self@
    }
}

/// Whether a line counts as code around the region `tag`: not where the
/// line's own region comes before `tag`, and not where the region that takes
/// the line away comes at or after `tag`.
pub open spec fn present_at(line: SourceLineView, tag: CodeTagView) -> bool {
    &&& !tag_before(line.start, tag)
    &&& line.end matches Some(end) ==> tag_before(end, tag)
}

/// `present_at` for a fixed region, as a predicate on lines.
pub open spec fn is_present(tag: CodeTagView) -> spec_fn(SourceLineView) -> bool {
    |line: SourceLineView| present_at(line, tag)
}

/// Those of `lines` that are present at `tag`, in order.
pub open spec fn present_lines(lines: Seq<SourceLineView>, tag: CodeTagView) -> Seq<
    SourceLineView,
> {
    lines.filter(is_present(tag))
}

/// The texts of the given lines.
pub open spec fn contents(lines: Seq<SourceLineView>) -> Seq<Seq<char>> {
    lines.map_values(|line: SourceLineView| line.content)
}

/// `bound` where it lies inside the file, else the file's length.
pub open spec fn clip(bound: int, len: nat) -> int {
    if bound < len {
        bound
    } else {
        len as int
    }
}

/// The last `count` of the lines before `first_line` that are present at
/// `tag`, or all of them where they are fewer.
pub open spec fn nearest_before(
    lines: Seq<SourceLineView>,
    first_line: int,
    tag: CodeTagView,
    count: nat,
) -> Seq<SourceLineView> {
    let before = present_lines(lines.take(clip(first_line, lines.len())), tag);
    if before.len() <= count {
        before
    } else {
        before.skip(before.len() - count)
    }
}

/// The first `count` of the lines from `from` on that are present at `tag`,
/// or all of them where they are fewer.
pub open spec fn nearest_after(
    lines: Seq<SourceLineView>,
    from: int,
    tag: CodeTagView,
    count: nat,
) -> Seq<SourceLineView> {
    let after = present_lines(lines.skip(clip(from, lines.len())), tag);
    if after.len() <= count {
        after
    } else {
        after.take(count as int)
    }
}

/// The deepest of the given locations; of several that are equally deep,
/// the last.
pub open spec fn deepest(locations: Seq<Seq<LocationNodeView>>) -> Option<Seq<LocationNodeView>>
    decreases locations.len(),
{
    if locations.len() == 0 {
        None
    } else {
        match deepest(locations.drop_last()) {
            Some(best) => if best.len() > locations.last().len() {
                Some(best)
            } else {
                Some(locations.last())
            },
            None => Some(locations.last()),
        }
    }
}

/// The locations of the given lines.
pub open spec fn locations(lines: Seq<SourceLineView>) -> Seq<Seq<LocationNodeView>> {
    lines.map_values(|line: SourceLineView| line.location)
}

/// How many present lines before a region are looked at for its preceding
/// location.
pub const PRECEDING_WINDOW: usize = 5;

/// The location that goes before the region: the deepest among the nearest
/// present lines before `first_line`, and of equally deep ones the nearest.
pub open spec fn preceding_of(lines: Seq<SourceLineView>, first_line: int, tag: CodeTagView) -> Option<
    Seq<LocationNodeView>,
> {
    deepest(locations(nearest_before(lines, first_line, tag, PRECEDING_WINDOW as nat)))
}

/// The node that is put on a region's location where no present line comes
/// before the region.
pub open spec fn synthetic_node(has_code_after: bool) -> LocationNodeView {
    LocationNodeView {
        kind: if has_code_after {
            LocationKind::Top
        } else {
            LocationKind::New
        },
        name: Seq::empty(),
        is_function_declaration: false,
    }
}

/// The location of a region once it is known whether present lines come
/// before and after it.
pub open spec fn corrected_location(
    location: Option<Seq<LocationNodeView>>,
    has_code_before: bool,
    has_code_after: bool,
) -> Option<Seq<LocationNodeView>> {
    if has_code_before {
        location
    } else {
        let base = match location {
            Some(chain) => chain,
            None => Seq::empty(),
        };
        Some(base.push(synthetic_node(has_code_after)))
    }
}

impl Clone for SourceLine {
    fn clone(&self) -> (copy: Self)
        ensures
            copy@ == self@,
    {
        SourceLine {
            content: self.content.clone(),
            location: self.location.clone(),
            start: self.start.clone(),
            end: match &self.end {
                Some(end) => Some(end.clone()),
                None => None,
            },
        }
    }
}

impl SourceLine {
    /// Whether this line counts as code around the region `tag`.
    pub fn is_present_at(&self, tag: &CodeTag) -> (present: bool)
        ensures
            present == present_at(self@, tag@),
    {
        if self.start.is_before(tag) {
            return false;
        }
        match &self.end {
            Some(end) => end.is_before(tag),
            None => true,
        }
    }
}

/// The lines of one source file that are no markers.
#[derive(Debug)]
pub struct SourceFile {
    pub lines: Vec<SourceLine>,
}

impl View for SourceFile {
    type V = Seq<SourceLineView>;

    open spec fn view(&self) -> Seq<SourceLineView> {
        self.lines.deep_view()
    }
}

impl DeepView for SourceFile {
    type V = Seq<SourceLineView>;

    open spec fn deep_view(&self) -> Seq<SourceLineView> {
        self@
    }
}

/// The present lines of a file that grows by one line at its end.
pub proof fn lemma_present_push(lines: Seq<SourceLineView>, line: SourceLineView, tag: CodeTagView)
    ensures
        present_lines(lines.push(line), tag) == if present_at(line, tag) {
            present_lines(lines, tag).push(line)
        } else {
            present_lines(lines, tag)
        },
{
    lines.lemma_filter_push(line, is_present(tag));
}

/// The present lines of a file that grows by one line at its start.
pub proof fn lemma_present_prepend(
    lines: Seq<SourceLineView>,
    line: SourceLineView,
    tag: CodeTagView,
)
    ensures
        present_lines(seq![line] + lines, tag) == if present_at(line, tag) {
            seq![line] + present_lines(lines, tag)
        } else {
            present_lines(lines, tag)
        },
{
    lines.lemma_filter_prepend(line, is_present(tag));
    if !present_at(line, tag) {
        assert(Seq::<SourceLineView>::empty() + present_lines(lines, tag) =~= present_lines(
            lines,
            tag,
        ));
    }
}

/// The present lines of a file are those of its first part and then those
/// of the rest.
pub proof fn lemma_present_split(lines: Seq<SourceLineView>, at: int, tag: CodeTagView)
    requires
        0 <= at <= lines.len(),
    ensures
        present_lines(lines, tag) == present_lines(lines.take(at), tag) + present_lines(
            lines.skip(at),
            tag,
        ),
{
    Seq::filter_distributes_over_add(lines.take(at), lines.skip(at), is_present(tag));
    assert(lines.take(at) + lines.skip(at) =~= lines);
}

/// No lines, no present lines.
pub proof fn lemma_present_empty(tag: CodeTagView)
    ensures
        present_lines(Seq::empty(), tag) == Seq::<SourceLineView>::empty(),
{
    reveal(Seq::filter);
}

/// The start of a stretch of lines that ends before `first` and whose
/// present lines are the last `limit` present lines before `first`, or all of
/// them where they are fewer.
pub fn window_start(lines: &Vec<SourceLine>, first: usize, tag: &CodeTag, limit: usize) -> (start:
    usize)
    requires
        first <= lines.len(),
    ensures
        start <= first,
        present_lines(lines.deep_view().subrange(start as int, first as int), tag@)
            == nearest_before(lines.deep_view(), first as int, tag@, limit as nat),
{
    let ghost all = lines.deep_view();
    let mut i: usize = first;
    let mut found: usize = 0;
    proof {
        assert(all.subrange(first as int, first as int) =~= Seq::<SourceLineView>::empty());
        lemma_present_empty(tag@);
    }
    while i > 0 && found < limit
        invariant
            i <= first <= lines.len(),
            all == lines.deep_view(),
            found <= limit,
            found == present_lines(all.subrange(i as int, first as int), tag@).len(),
        decreases i,
    {
        proof {
            assert(all.subrange(i - 1, first as int) =~= seq![all[i - 1]] + all.subrange(
                i as int,
                first as int,
            ));
            lemma_present_prepend(all.subrange(i as int, first as int), all[i - 1], tag@);
        }
        if lines[i - 1].is_present_at(tag) {
            found += 1;
        }
        i -= 1;
    }
    proof {
        let head = all.take(first as int);
        assert(head.take(i as int) =~= all.subrange(0, i as int));
        assert(head.skip(i as int) =~= all.subrange(i as int, first as int));
        lemma_present_split(head, i as int, tag@);
        let before = present_lines(head, tag@);
        let kept = present_lines(all.subrange(i as int, first as int), tag@);
        let dropped = present_lines(all.subrange(0, i as int), tag@);
        assert(before == dropped + kept);
        if i == 0 {
            assert(all.subrange(0, 0) =~= Seq::<SourceLineView>::empty());
            lemma_present_empty(tag@);
            assert(before =~= kept);
        } else if found == limit {
            assert(before.skip(before.len() - limit) =~= kept);
        }
    }
    i
}

/// What one region does to a source file, and where.
#[derive(Debug)]
pub struct Snippet {
    pub code_tag: CodeTag,
    /// Where the region stands: the location of its first added line, or a
    /// node that says that it opens the file.
    pub location: Option<Location>,
    /// The location of the code that comes just before the region.
    pub preceding_location: Option<Location>,
    /// The index of the first added line.
    pub first_line: usize,
    /// The index of the last line added or removed.
    pub last_line: usize,
    pub context_before: Vec<String>,
    pub context_after: Vec<String>,
    pub added: Vec<String>,
    pub removed: Vec<String>,
}

/// A snippet as the contracts see it.
pub struct SnippetView {
    pub code_tag: CodeTagView,
    pub location: Option<Seq<LocationNodeView>>,
    pub preceding_location: Option<Seq<LocationNodeView>>,
    pub first_line: nat,
    pub last_line: nat,
    pub context_before: Seq<Seq<char>>,
    pub context_after: Seq<Seq<char>>,
    pub added: Seq<Seq<char>>,
    pub removed: Seq<Seq<char>>,
}

impl View for Snippet {
    type V = SnippetView;

    open spec fn view(&self) -> SnippetView {
        SnippetView {
            code_tag: self.code_tag@,
            location: self.location.deep_view(),
            preceding_location: self.preceding_location.deep_view(),
            first_line: self.first_line as nat,
            last_line: self.last_line as nat,
            context_before: self.context_before.deep_view(),
            context_after: self.context_after.deep_view(),
            added: self.added.deep_view(),
            removed: self.removed.deep_view(),
        }
    }
}

impl DeepView for Snippet {
    type V = SnippetView;

    open spec fn deep_view(&self) -> SnippetView {
        self@
    }
}

/// The snippet of a region of which no line has been seen yet.
pub open spec fn empty_snippet(tag: CodeTagView) -> SnippetView {
    SnippetView {
        code_tag: tag,
        location: None,
        preceding_location: None,
        first_line: 0,
        last_line: 0,
        context_before: Seq::empty(),
        context_after: Seq::empty(),
        added: Seq::empty(),
        removed: Seq::empty(),
    }
}

/// The snippet after the line `line`, which stands at `index`, was added to
/// it: the first added line gives the snippet its location and its first
/// index.
pub open spec fn with_added(snippet: SnippetView, index: nat, line: SourceLineView) -> SnippetView {
    SnippetView {
        location: if snippet.added.len() == 0 {
            Some(line.location)
        } else {
            snippet.location
        },
        first_line: if snippet.added.len() == 0 {
            index
        } else {
            snippet.first_line
        },
        last_line: index,
        added: snippet.added.push(line.content),
        ..snippet
    }
}

/// The snippet after the line `line`, which stands at `index`, was removed
/// by it.
pub open spec fn with_removed(snippet: SnippetView, index: nat, line: SourceLineView) -> SnippetView {
    SnippetView { last_line: index, removed: snippet.removed.push(line.content), ..snippet }
}

/// Whether a line that is present at `tag` stands before `first_line`.
pub open spec fn has_code_before(lines: Seq<SourceLineView>, first_line: int, tag: CodeTagView) -> bool {
    present_lines(lines.take(clip(first_line, lines.len())), tag).len() > 0
}

/// Whether a line that is present at `tag` stands after `last_line`.
pub open spec fn has_code_after(lines: Seq<SourceLineView>, last_line: int, tag: CodeTagView) -> bool {
    present_lines(lines.skip(clip(last_line + 1, lines.len())), tag).len() > 0
}

/// The snippet with its context, its preceding location and its corrected
/// location, all taken from the file `lines`.
pub open spec fn with_context(snippet: SnippetView, lines: Seq<SourceLineView>) -> SnippetView {
    let tag = snippet.code_tag;
    let first = snippet.first_line as int;
    let last = snippet.last_line as int;
    SnippetView {
        context_before: contents(nearest_before(lines, first, tag, tag.before_count)),
        context_after: contents(nearest_after(lines, last + 1, tag, tag.after_count)),
        preceding_location: preceding_of(lines, first, tag),
        location: corrected_location(
            snippet.location,
            has_code_before(lines, first, tag),
            has_code_after(lines, last, tag),
        ),
        ..snippet
    }
}

/// Copies the texts `lines[from..to]` that are present at `tag`, at most
/// `limit` of them.
fn collect_present(lines: &Vec<SourceLine>, from: usize, to: usize, tag: &CodeTag, limit: usize) -> (
    texts: Vec<String>)
    requires
        from <= to <= lines.len(),
    ensures
        texts.deep_view() == contents(
            {
                let here = present_lines(lines.deep_view().subrange(from as int, to as int), tag@);
                if here.len() <= limit {
                    here
                } else {
                    here.take(limit as int)
                }
            },
        ),
{
    let ghost all = lines.deep_view();
    let mut texts: Vec<String> = Vec::new();
    let mut i: usize = from;
    proof {
        assert(all.subrange(from as int, from as int) =~= Seq::<SourceLineView>::empty());
        lemma_present_empty(tag@);
        assert(texts.deep_view() =~= contents(Seq::<SourceLineView>::empty()));
    }
    while i < to && texts.len() < limit
        invariant
            from <= i <= to <= lines.len(),
            all == lines.deep_view(),
            texts.len() <= limit,
            texts.deep_view() == contents(
                present_lines(all.subrange(from as int, i as int), tag@),
            ),
        decreases to - i,
    {
        let ghost seen = all.subrange(from as int, i as int);
        proof {
            assert(all.subrange(from as int, i + 1) =~= seen.push(all[i as int]));
            lemma_present_push(seen, all[i as int], tag@);
        }
        if lines[i].is_present_at(tag) {
            let ghost before = texts.deep_view();
            texts.push(lines[i].content.clone());
            proof {
                assert(texts.deep_view() =~= before.push(lines[i as int].content@));
                assert(contents(present_lines(seen, tag@).push(all[i as int])) =~= contents(
                    present_lines(seen, tag@),
                ).push(all[i as int].content));
            }
        }
        i += 1;
    }
    proof {
        let part = all.subrange(from as int, to as int);
        assert(part.take(i - from) =~= all.subrange(from as int, i as int));
        lemma_present_split(part, i - from, tag@);
        let here = present_lines(part, tag@);
        let seen = present_lines(all.subrange(from as int, i as int), tag@);
        assert(contents(seen).len() == seen.len());
        if i == to {
            assert(part.skip(i - from) =~= Seq::<SourceLineView>::empty());
            lemma_present_empty(tag@);
            assert(here =~= seen);
        } else {
            assert(here.take(limit as int) =~= seen);
        }
    }
    texts
}

/// The deepest location among the lines `lines[from..to]` that are present
/// at `tag`; of equally deep ones the last.
fn deepest_present(lines: &Vec<SourceLine>, from: usize, to: usize, tag: &CodeTag) -> (best: Option<
    Location,
>)
    requires
        from <= to <= lines.len(),
    ensures
        best.deep_view() == deepest(
            locations(present_lines(lines.deep_view().subrange(from as int, to as int), tag@)),
        ),
{
    let ghost all = lines.deep_view();
    let mut best: Option<Location> = None;
    let mut i: usize = from;
    proof {
        assert(all.subrange(from as int, from as int) =~= Seq::<SourceLineView>::empty());
        lemma_present_empty(tag@);
        assert(locations(Seq::<SourceLineView>::empty()) =~= Seq::empty());
    }
    while i < to
        invariant
            from <= i <= to <= lines.len(),
            all == lines.deep_view(),
            best.deep_view() == deepest(
                locations(present_lines(all.subrange(from as int, i as int), tag@)),
            ),
        decreases to - i,
    {
        let ghost seen = all.subrange(from as int, i as int);
        proof {
            assert(all.subrange(from as int, i + 1) =~= seen.push(all[i as int]));
            lemma_present_push(seen, all[i as int], tag@);
        }
        if lines[i].is_present_at(tag) {
            proof {
                let longer = locations(present_lines(seen, tag@).push(all[i as int]));
                assert(longer.drop_last() =~= locations(present_lines(seen, tag@)));
                assert(longer.last() == all[i as int].location);
            }
            let deeper = match &best {
                Some(b) => b.depth() > lines[i].location.depth(),
                None => false,
            };
            if !deeper {
                best = Some(lines[i].location.clone());
            }
        }
        i += 1;
    }
    best
}

impl Snippet {
    /// The snippet of a region of which no line has been seen yet.
    pub fn new(code_tag: &CodeTag) -> (snippet: Snippet)
        ensures
            snippet@ == empty_snippet(code_tag@),
    {
        let snippet = Snippet {
            code_tag: code_tag.clone(),
            location: None,
            preceding_location: None,
            first_line: 0,
            last_line: 0,
            context_before: Vec::new(),
            context_after: Vec::new(),
            added: Vec::new(),
            removed: Vec::new(),
        };
        assert(snippet@.context_before =~= Seq::empty());
        assert(snippet@.context_after =~= Seq::empty());
        assert(snippet@.added =~= Seq::empty());
        assert(snippet@.removed =~= Seq::empty());
        snippet
    }

    /// Takes in a line that the region adds.
    pub fn add_line(&mut self, line_index: usize, line: &SourceLine)
        ensures
            final(self)@ == with_added(old(self)@, line_index as nat, line@),
    {
        if self.added.len() == 0 {
            self.location = Some(line.location.clone());
            self.first_line = line_index;
        }
        self.added.push(line.content.clone());
        self.last_line = line_index;
        assert(self@.added =~= old(self)@.added.push(line@.content));
    }

    /// Takes in a line that the region removes.
    pub fn remove_line(&mut self, line_index: usize, line: &SourceLine)
        ensures
            final(self)@ == with_removed(old(self)@, line_index as nat, line@),
    {
        self.removed.push(line.content.clone());
        self.last_line = line_index;
        assert(self@.removed =~= old(self)@.removed.push(line@.content));
    }

    /// Works out, from the lines of the file, the context around the region,
    /// the location that precedes it, and whether the region opens the file.
    /// Lines count only where they are present at the region; an index
    /// beyond the file stands for the file's end.
    pub fn compute_context(&mut self, file: &SourceFile)
        ensures
            final(self)@ == with_context(old(self)@, file@),
            final(self).context_before.len() <= old(self).code_tag.before_count,
            final(self).context_after.len() <= old(self).code_tag.after_count,
    {
        let n = file.lines.len();
        let ghost all = file@;
        let ghost tag = self.code_tag@;
        let ghost want = with_context(old(self)@, file@);
        let first = if self.first_line < n {
            self.first_line
        } else {
            n
        };
        let from = if self.last_line < n {
            self.last_line + 1
        } else {
            n
        };
        proof {
            assert(first == clip(self.first_line as int, all.len()));
            assert(from == clip(self.last_line + 1, all.len()));
            assert(all.take(first as int) =~= all.subrange(0, first as int));
            assert(all.skip(from as int) =~= all.subrange(from as int, n as int));
        }
        let before_count = self.code_tag.before_count as usize;
        let after_count = self.code_tag.after_count as usize;
        let start = window_start(&file.lines, first, &self.code_tag, before_count);
        self.context_before = collect_present(
            &file.lines,
            start,
            first,
            &self.code_tag,
            before_count,
        );
        proof {
            let near = nearest_before(all, first as int, tag, before_count as nat);
            assert(near.len() <= before_count);
            assert(near == nearest_before(all, old(self).first_line as int, tag, tag.before_count));
            assert(self.context_before.deep_view() == want.context_before);
            assert(contents(near).len() == near.len());
        }
        self.context_after = collect_present(&file.lines, from, n, &self.code_tag, after_count);
        proof {
            let near = nearest_after(all, old(self).last_line + 1, tag, tag.after_count);
            assert(self.context_after.deep_view() == want.context_after);
            assert(contents(near).len() == near.len());
        }
        let near = window_start(&file.lines, first, &self.code_tag, PRECEDING_WINDOW);
        self.preceding_location = deepest_present(&file.lines, near, first, &self.code_tag);
        let code_before = self.preceding_location.is_some();
        proof {
            let window = nearest_before(all, first as int, tag, PRECEDING_WINDOW as nat);
            assert(window == nearest_before(
                all,
                old(self).first_line as int,
                tag,
                PRECEDING_WINDOW as nat,
            ));
            lemma_deepest_is_some(locations(window));
            assert(locations(window).len() == window.len());
            assert(code_before == has_code_before(all, old(self).first_line as int, tag));
            assert(self.preceding_location.deep_view() == want.preceding_location);
        }
        if !code_before {
            let one = collect_present(&file.lines, from, n, &self.code_tag, 1);
            let code_after = one.len() > 0;
            proof {
                let after = present_lines(all.skip(from as int), tag);
                assert(contents(after).len() == after.len());
                assert(contents(after.take(1)).len() == after.take(1).len());
                assert(code_after == has_code_after(all, old(self).last_line as int, tag));
            }
            let node = LocationNode {
                kind: if code_after {
                    LocationKind::Top
                } else {
                    LocationKind::New
                },
                name: String::new(),
                is_function_declaration: false,
            };
            assert(node@ == synthetic_node(code_after));
            let wrapped = match &self.location {
                Some(location) => location.child(node),
                None => {
                    let mut nodes: Vec<LocationNode> = Vec::new();
                    nodes.push(node);
                    let alone = Location { nodes };
                    assert(alone@ =~= Seq::<LocationNodeView>::empty().push(node@));
                    alone
                },
            };
            self.location = Some(wrapped);
        }
        assert(self.location.deep_view() == want.location);
    }
}

/// `deepest` finds a location wherever there is one.
pub proof fn lemma_deepest_is_some(locations: Seq<Seq<LocationNodeView>>)
    ensures
        deepest(locations) is Some <==> locations.len() > 0,
    decreases locations.len(),
{
    if locations.len() > 0 {
        lemma_deepest_is_some(locations.drop_last());
    }
}

} // verus!
