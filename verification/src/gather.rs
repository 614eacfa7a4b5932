//! Gathering the snippets: from the stamped lines of each file one snippet
//! for every region name, and over the files one snippet for every name, the
//! one from the last file that has it.
use crate::catalog::{lemma_first_index, CodeBook, CodeTag, CodeTagView, ChapterView, TagError};
use crate::parser::{scan_file, SourceFileParser};
use crate::snippet::{
    empty_snippet, with_added, with_context, with_removed, Snippet, SnippetView, SourceFile,
    SourceLine, SourceLineView,
};
use crate::text::{chars_of, same_chars};
use vstd::prelude::*;

verus! {

/// The names of the regions of the given snippets, in order.
pub open spec fn snippet_names(snippets: Seq<SnippetView>) -> Seq<Seq<char>> {
    snippets.map_values(|s: SnippetView| s.code_tag.name)
}

/// The first of `snippets` whose region has the name `name`.
pub open spec fn first_snippet_named(snippets: Seq<SnippetView>, name: Seq<char>) -> Option<
    SnippetView,
> {
    match snippet_names(snippets).index_of_first(name) {
        Some(i) => Some(snippets[i]),
        None => None,
    }
}

/// Where the snippet for the name `name` stands once there is one: where
/// the first snippet of that name stands, or behind the last.
pub open spec fn kept_at(snippets: Seq<SnippetView>, name: Seq<char>) -> int {
    match snippet_names(snippets).index_of_first(name) {
        Some(i) => i,
        None => snippets.len() as int,
    }
}

/// The snippets with one for the region `tag` among them: where no snippet
/// has the name of `tag` yet, an empty one for `tag` comes last.
pub open spec fn opened(snippets: Seq<SnippetView>, tag: CodeTagView) -> Seq<SnippetView> {
    match snippet_names(snippets).index_of_first(tag.name) {
        Some(_) => snippets,
        None => snippets.push(empty_snippet(tag)),
    }
}

/// The snippets after the region that is open on `line` has added the line.
pub open spec fn with_line_added(snippets: Seq<SnippetView>, index: nat, line: SourceLineView) -> Seq<
    SnippetView,
> {
    let all = opened(snippets, line.start);
    let at = kept_at(snippets, line.start.name);
    all.update(at, with_added(all[at], index, line))
}

/// The snippets after the region `end` has removed `line`.
pub open spec fn with_line_removed(
    snippets: Seq<SnippetView>,
    index: nat,
    line: SourceLineView,
    end: CodeTagView,
) -> Seq<SnippetView> {
    let all = opened(snippets, end);
    let at = kept_at(snippets, end.name);
    all.update(at, with_removed(all[at], index, line))
}

/// The snippets after the line `line`, which stands at `index`, was taken
/// in: the region that is open on it adds it, and the region that takes it
/// away, if there is one, removes it.
pub open spec fn with_line(snippets: Seq<SnippetView>, index: nat, line: SourceLineView) -> Seq<
    SnippetView,
> {
    let added = with_line_added(snippets, index, line);
    match line.end {
        Some(end) => with_line_removed(added, index, line, end),
        None => added,
    }
}

/// The snippets of the first `count` lines of a file, without their
/// context.
pub open spec fn gathered(lines: Seq<SourceLineView>, count: nat) -> Seq<SnippetView>
    decreases count,
{
    if count == 0 {
        Seq::empty()
    } else {
        with_line(gathered(lines, (count - 1) as nat), (count - 1) as nat, lines[count - 1])
    }
}

/// The snippets of a file: one for each name of a region that adds or
/// removes a line, in the order in which the names first occur, each with its
/// context.
pub open spec fn snippets_of(lines: Seq<SourceLineView>) -> Seq<SnippetView> {
    gathered(lines, lines.len()).map_values(|s: SnippetView| with_context(s, lines))
}

/// Where the first snippet for the name `name` stands.
pub fn snippet_position(snippets: &Vec<Snippet>, name: &str) -> (at: Option<usize>)
    ensures
        match at {
            Some(i) => snippet_names(snippets.deep_view()).index_of_first(name@) == Some(i as int)
                && i < snippets.len(),
            None => snippet_names(snippets.deep_view()).index_of_first(name@) is None,
        },
{
    let wanted = chars_of(name);
    let ghost names = snippet_names(snippets.deep_view());
    let mut i: usize = 0;
    while i < snippets.len()
        invariant
            i <= snippets.len(),
            wanted@ == name@,
            names == snippet_names(snippets.deep_view()),
            forall|j: int| 0 <= j < i ==> names[j] != name@,
        decreases snippets.len() - i,
    {
        let have = chars_of(snippets[i].code_tag.name.as_str());
        proof {
            assert(have@.subrange(0, have.len() as int) =~= have@);
            assert(names[i as int] == snippets[i as int].code_tag.name@);
        }
        if same_chars(&have, 0, have.len(), &wanted) {
            proof {
                lemma_first_index(names, name@, i as int);
            }
            return Some(i);
        }
        i += 1;
    }
    proof {
        lemma_first_index(names, name@, i as int);
    }
    None
}

/// The first snippet for the name `name`.
pub fn find_snippet<'a>(snippets: &'a Vec<Snippet>, name: &str) -> (found: Option<&'a Snippet>)
    ensures
        found.deep_view() == first_snippet_named(snippets.deep_view(), name@),
{
    match snippet_position(snippets, name) {
        Some(i) => {
            assert(snippets.deep_view()[i as int] == snippets[i as int]@);
            Some(&snippets[i])
        },
        None => None,
    }
}

/// Makes sure that there is a snippet for the name of `tag`, and says where
/// it stands.
pub fn open_snippet(snippets: &mut Vec<Snippet>, tag: &CodeTag) -> (at: usize)
    ensures
        final(snippets).deep_view() == opened(old(snippets).deep_view(), tag@),
        at == kept_at(old(snippets).deep_view(), tag@.name),
        at < final(snippets).len(),
{
    match snippet_position(snippets, tag.name.as_str()) {
        Some(i) => i,
        None => {
            let ghost had = snippets.deep_view();
            let fresh = Snippet::new(tag);
            snippets.push(fresh);
            assert(snippets.deep_view() =~= had.push(fresh@));
            snippets.len() - 1
        },
    }
}

/// Takes in one stamped line, which stands at `index` in its file.
pub fn take_line(snippets: &mut Vec<Snippet>, index: usize, line: &SourceLine)
    ensures
        final(snippets).deep_view() == with_line(old(snippets).deep_view(), index as nat, line@),
{
    let at = open_snippet(snippets, &line.start);
    let ghost all = snippets.deep_view();
    assert(all[at as int] == snippets[at as int]@);
    snippets[at].add_line(index, line);
    assert(snippets.deep_view() =~= all.update(
        at as int,
        with_added(all[at as int], index as nat, line@),
    ));
    if let Some(end) = &line.end {
        let at = open_snippet(snippets, end);
        let ghost all = snippets.deep_view();
        assert(all[at as int] == snippets[at as int]@);
        snippets[at].remove_line(index, line);
        assert(snippets.deep_view() =~= all.update(
            at as int,
            with_removed(all[at as int], index as nat, line@),
        ));
    }
}

/// The snippets of one file.
pub fn file_snippets(file: &SourceFile) -> (snippets: Vec<Snippet>)
    ensures
        snippets.deep_view() == snippets_of(file@),
{
    let ghost lines = file@;
    let mut snippets: Vec<Snippet> = Vec::new();
    let mut i: usize = 0;
    proof {
        assert(snippets.deep_view() =~= gathered(lines, 0));
    }
    while i < file.lines.len()
        invariant
            i <= file.lines.len(),
            lines == file@,
            snippets.deep_view() == gathered(lines, i as nat),
        decreases file.lines.len() - i,
    {
        assert(lines[i as int] == file.lines[i as int]@);
        take_line(&mut snippets, i, &file.lines[i]);
        i += 1;
    }
    let ghost bare = snippets.deep_view();
    let mut k: usize = 0;
    while k < snippets.len()
        invariant
            k <= snippets.len(),
            lines == file@,
            snippets.len() == bare.len(),
            forall|j: int| 0 <= j < k ==> (#[trigger] snippets[j])@ == with_context(bare[j], lines),
            forall|j: int| k <= j < snippets.len() ==> (#[trigger] snippets[j])@ == bare[j],
        decreases snippets.len() - k,
    {
        snippets[k].compute_context(file);
        k += 1;
    }
    assert(snippets.deep_view() =~= snippets_of(lines));
    snippets
}

/// The snippets with `snippet` in the place of the first one of its name,
/// or behind the last where no snippet has its name.
pub open spec fn replaced(all: Seq<SnippetView>, snippet: SnippetView) -> Seq<SnippetView> {
    match snippet_names(all).index_of_first(snippet.code_tag.name) {
        Some(i) => all.update(i, snippet),
        None => all.push(snippet),
    }
}

/// The snippets after the first `count` snippets of a later file came in.
pub open spec fn merged_upto(all: Seq<SnippetView>, later: Seq<SnippetView>, count: nat) -> Seq<
    SnippetView,
>
    decreases count,
{
    if count == 0 {
        all
    } else {
        replaced(merged_upto(all, later, (count - 1) as nat), later[count - 1])
    }
}

/// The snippets after those of a later file came in: for a name that both
/// have, the later snippet stands.
pub open spec fn merged(all: Seq<SnippetView>, later: Seq<SnippetView>) -> Seq<SnippetView> {
    merged_upto(all, later, later.len())
}

/// Copies the given texts.
pub fn copy_texts(texts: &Vec<String>) -> (copy: Vec<String>)
    ensures
        copy.deep_view() == texts.deep_view(),
{
    let mut copy: Vec<String> = Vec::new();
    let mut i: usize = 0;
    while i < texts.len()
        invariant
            i <= texts.len(),
            copy.len() == i,
            forall|k: int| 0 <= k < i ==> (#[trigger] copy[k])@ == texts[k]@,
        decreases texts.len() - i,
    {
        copy.push(texts[i].clone());
        i += 1;
    }
    assert(copy.deep_view() =~= texts.deep_view());
    copy
}

impl Clone for Snippet {
    fn clone(&self) -> (copy: Self)
        ensures
            copy@ == self@,
    {
        Snippet {
            code_tag: self.code_tag.clone(),
            location: match &self.location {
                Some(location) => Some(location.clone()),
                None => None,
            },
            preceding_location: match &self.preceding_location {
                Some(location) => Some(location.clone()),
                None => None,
            },
            first_line: self.first_line,
            last_line: self.last_line,
            context_before: copy_texts(&self.context_before),
            context_after: copy_texts(&self.context_after),
            added: copy_texts(&self.added),
            removed: copy_texts(&self.removed),
        }
    }
}

/// Takes the snippets of a later file in.
pub fn merge(all: &mut Vec<Snippet>, later: &Vec<Snippet>)
    ensures
        final(all).deep_view() == merged(old(all).deep_view(), later.deep_view()),
{
    let ghost had = all.deep_view();
    let ghost new = later.deep_view();
    let mut i: usize = 0;
    while i < later.len()
        invariant
            i <= later.len(),
            new == later.deep_view(),
            all.deep_view() == merged_upto(had, new, i as nat),
        decreases later.len() - i,
    {
        let snippet = later[i].clone();
        assert(new[i as int] == snippet@);
        let ghost now = all.deep_view();
        match snippet_position(all, snippet.code_tag.name.as_str()) {
            Some(at) => {
                all.set(at, snippet);
                assert(all.deep_view() =~= now.update(at as int, snippet@));
            },
            None => {
                all.push(snippet);
                assert(all.deep_view() =~= now.push(snippet@));
            },
        }
        i += 1;
    }
}

/// A source file as it comes in: its path below the root of the sources,
/// and its lines.
#[derive(Debug)]
pub struct SourceText {
    pub path: String,
    pub lines: Vec<String>,
}

/// A source file that comes in, as the contracts see it.
pub struct SourceTextView {
    pub path: Seq<char>,
    pub lines: Seq<Seq<char>>,
}

impl View for SourceText {
    type V = SourceTextView;

    open spec fn view(&self) -> SourceTextView {
        SourceTextView { path: self.path@, lines: self.lines.deep_view() }
    }
}

impl DeepView for SourceText {
    type V = SourceTextView;

    open spec fn deep_view(&self) -> SourceTextView {
        self@
    }
}

/// The snippets of the first `count` source files. A file whose markers
/// cannot be followed fails them all.
pub open spec fn snippets_upto(book: Seq<ChapterView>, sources: Seq<SourceTextView>, count: nat) -> Result<
    Seq<SnippetView>,
    TagError,
>
    decreases count,
{
    if count == 0 {
        Ok(Seq::empty())
    } else {
        match snippets_upto(book, sources, (count - 1) as nat) {
            Ok(all) => {
                let scan = scan_file(book, sources[count - 1].path, sources[count - 1].lines);
                match scan.failure {
                    Some(e) => Err(e),
                    None => Ok(merged(all, snippets_of(scan.lines))),
                }
            },
            Err(e) => Err(e),
        }
    }
}

/// The snippets of all the source files.
pub open spec fn all_snippets(book: Seq<ChapterView>, sources: Seq<SourceTextView>) -> Result<
    Seq<SnippetView>,
    TagError,
> {
    snippets_upto(book, sources, sources.len())
}

/// Once a file has failed, the files after it change nothing.
pub proof fn lemma_sources_failure_stays(
    book: Seq<ChapterView>,
    sources: Seq<SourceTextView>,
    failed: nat,
    count: nat,
)
    requires
        failed <= count,
        snippets_upto(book, sources, failed) is Err,
    ensures
        snippets_upto(book, sources, count) == snippets_upto(book, sources, failed),
    decreases count,
{
    if failed < count {
        lemma_sources_failure_stays(book, sources, failed, (count - 1) as nat);
    }
}

/// Scans the source files one after the other and gathers their snippets.
pub fn build_snippets(book: &CodeBook, sources: &Vec<SourceText>) -> (snippets: Result<
    Vec<Snippet>,
    TagError,
>)
    ensures
        all_snippets(book@, sources.deep_view()) == match snippets {
            Ok(all) => Ok::<Seq<SnippetView>, TagError>(all.deep_view()),
            Err(e) => Err::<Seq<SnippetView>, TagError>(e),
        },
{
    let ghost texts = sources.deep_view();
    let mut all: Vec<Snippet> = Vec::new();
    let mut i: usize = 0;
    proof {
        assert(all.deep_view() =~= Seq::<SnippetView>::empty());
    }
    while i < sources.len()
        invariant
            i <= sources.len(),
            texts == sources.deep_view(),
            snippets_upto(book@, texts, i as nat) == Ok::<Seq<SnippetView>, TagError>(
                all.deep_view(),
            ),
        decreases sources.len() - i,
    {
        let source = &sources[i];
        assert(texts[i as int] == source@);
        let mut parser = SourceFileParser::new(book);
        match parser.parse_source_file(source.path.as_str(), &source.lines) {
            Ok(file) => {
                let later = file_snippets(&file);
                merge(&mut all, &later);
            },
            Err(e) => {
                proof {
                    lemma_sources_failure_stays(book@, texts, (i + 1) as nat, texts.len());
                }
                return Err(e);
            },
        }
        i += 1;
    }
    Ok(all)
}

} // verus!
