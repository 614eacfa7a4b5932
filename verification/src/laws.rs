//! What holds of the library as a whole, proved from the definitions of its
//! parts.
use crate::catalog::{
    lemma_first_index, resolve_tag, ChapterView, CodeTagView, TagError, STATIC_CHAPTER,
};
use crate::gather::{
    first_snippet_named, gathered, kept_at, lemma_sources_failure_stays, merged_upto, opened,
    replaced, snippet_names, snippets_of, snippets_upto, with_line_added, with_line_removed,
    SourceTextView,
};
use crate::parser::{
    chapter_name_at, ended, file_chain, lemma_failure_stays, line_after, marked, marker_of,
    pushed, scan_file, scan_line, scan_prefix, MarkerView, ParseStateView, ScanView,
};
use crate::pattern::{regex_captures, REFERENCE_PATTERN};
use crate::location::{rooted, LocationNodeView};
use crate::references::{catalog_of, options_upto, ChapterTextView};
use crate::scanner::{lemma_scan_keeps_root, scanned_before};
use crate::render::{not_found_notice, referenced_name, rendered_book, rendered_line};
use crate::snippet::{
    contents, deepest, empty_snippet, nearest_after, nearest_before, with_context, SnippetView,
    SourceLineView,
};
use crate::text::{has_suffix, trimmed};
use vstd::prelude::*;

verus! {

/// A line that refers to a region for which no snippet was gathered
/// becomes the notice that the region was not found.
pub proof fn lemma_missing_snippet_gives_notice(
    line: Seq<char>,
    name: Seq<char>,
    snippets: Seq<SnippetView>,
)
    requires
        referenced_name(regex_captures(REFERENCE_PATTERN@, line)) == Some(name),
        first_snippet_named(snippets, name) is None,
    ensures
        rendered_line(line, snippets) == not_found_notice(name),
{
}

/// The context of a snippet is never longer than its region allows: at
/// most `before_count` lines before it and at most `after_count` lines after
/// it, so none at all where a count is zero.
pub proof fn lemma_context_within_budget(snippet: SnippetView, lines: Seq<SourceLineView>)
    ensures
        with_context(snippet, lines).context_before.len() <= snippet.code_tag.before_count,
        with_context(snippet, lines).context_after.len() <= snippet.code_tag.after_count,
        snippet.code_tag.before_count == 0 ==> with_context(snippet, lines).context_before.len()
            == 0,
        snippet.code_tag.after_count == 0 ==> with_context(snippet, lines).context_after.len() == 0,
{
    let tag = snippet.code_tag;
    let before = nearest_before(lines, snippet.first_line as int, tag, tag.before_count);
    let after = nearest_after(lines, snippet.last_line as int + 1, tag, tag.after_count);
    assert(contents(before).len() == before.len());
    assert(contents(after).len() == after.len());
}

/// An option list in which no option ends in ` before` leaves the count of
/// lines before at zero, and one in which none ends in ` after` leaves the
/// count of lines after at zero.
pub proof fn lemma_unset_counts_are_zero(pieces: Seq<Seq<char>>, count: nat)
    requires
        count <= pieces.len(),
        options_upto(pieces, count) is Ok,
    ensures
        (forall|k: int| 0 <= k < count ==> !has_suffix(trimmed(#[trigger] pieces[k]), " before"@))
            ==> options_upto(pieces, count)->Ok_0.before_count == 0,
        (forall|k: int| 0 <= k < count ==> !has_suffix(trimmed(#[trigger] pieces[k]), " after"@))
            ==> options_upto(pieces, count)->Ok_0.after_count == 0,
    decreases count,
{
    if count > 0 {
        lemma_unset_counts_are_zero(pieces, (count - 1) as nat);
    }
}

/// An end marker that does not name the innermost open region fails the
/// scan of its file: the marker is not passed over, and no later line brings
/// the scan back.
pub proof fn lemma_unmatched_end_fails(
    book: Seq<ChapterView>,
    path: Seq<char>,
    lines: Seq<Seq<char>>,
    at: nat,
    chapter: Option<Seq<char>>,
    name: Seq<char>,
)
    requires
        at < lines.len(),
        scan_prefix(book, path, lines, at).failure is None,
        marker_of(lines[at as int]) == Some(MarkerView::End { chapter, name }),
        scan_prefix(book, path, lines, at).states.len() > 0,
        scan_prefix(book, path, lines, at).states.last().start.name != name,
    ensures
        scan_file(book, path, lines).failure == Some(TagError::MismatchedEnd) || scan_file(
            book,
            path,
            lines,
        ).failure == Some(TagError::ChapterMismatch),
        scan_file(book, path, lines).states == scan_prefix(book, path, lines, at).states,
        scan_file(book, path, lines).lines == scan_prefix(book, path, lines, at).lines,
{
    let before = scan_prefix(book, path, lines, at);
    let after = scan_prefix(book, path, lines, at + 1);
    assert(marked(book, before.states, MarkerView::End { chapter, name }) == ended(
        book,
        before.states,
        chapter,
        name,
    ));
    assert(after.failure is Some);
    lemma_failure_stays(book, path, lines, at + 1, lines.len());
}

/// The file that holds the marker line `first`, the lines `body` and the
/// marker line `last`.
pub open spec fn enclosed(first: Seq<char>, body: Seq<Seq<char>>, last: Seq<char>) -> Seq<Seq<char>> {
    seq![first] + body + seq![last]
}

/// The stack on which `region` alone is open.
pub open spec fn only_open(region: CodeTagView) -> Seq<ParseStateView> {
    seq![(ParseStateView { start: region, end: None })]
}

/// Whether the scan has stamped the first `count` lines of `body`, and
/// nothing else, with `region`.
pub open spec fn body_stamped(
    scan: ScanView,
    region: CodeTagView,
    body: Seq<Seq<char>>,
    count: int,
) -> bool {
    &&& scan.failure is None
    &&& scan.lines.len() == count
    &&& forall|i: int|
        0 <= i < count ==> {
            &&& (#[trigger] scan.lines[i]).content == body[i]
            &&& scan.lines[i].start == region
            &&& scan.lines[i].end is None
        }
}

/// After the start marker and `count` lines of the body, the region is the
/// only one open and those lines are stamped with it.
pub proof fn lemma_body_is_stamped(
    book: Seq<ChapterView>,
    path: Seq<char>,
    region: CodeTagView,
    chapter: Seq<char>,
    first: Seq<char>,
    body: Seq<Seq<char>>,
    last: Seq<char>,
    count: nat,
)
    requires
        marker_of(first) == Some(
            MarkerView::Start { chapter: Some(chapter), name: region.name },
        ),
        resolve_tag(book, trimmed(chapter), region.name) == Some(region),
        forall|i: int| 0 <= i < body.len() ==> marker_of(#[trigger] body[i]) is None,
        count <= body.len(),
    ensures
        body_stamped(
            scan_prefix(book, path, enclosed(first, body, last), count + 1),
            region,
            body,
            count as int,
        ),
        scan_prefix(book, path, enclosed(first, body, last), count + 1).states == only_open(region),
    decreases count,
{
    let lines = enclosed(first, body, last);
    if count == 0 {
        let start = scan_prefix(book, path, lines, 0);
        assert(lines[0] == first);
        assert(start.states =~= Seq::empty());
        assert(pushed(book, start.states, Some(chapter), region.name, None) == Ok::<
            Seq<ParseStateView>,
            TagError,
        >(only_open(region)));
    } else {
        lemma_body_is_stamped(book, path, region, chapter, first, body, last, (count - 1) as nat);
        let before = scan_prefix(book, path, lines, count);
        let after = scan_prefix(book, path, lines, count + 1);
        assert(lines[count as int] == body[count - 1]);
        assert(before.states.last() == (ParseStateView { start: region, end: None }));
        assert(after == scan_line(
            book,
            before,
            lines[count as int],
            line_after(lines, count as int + 1),
        ));
        assert forall|i: int| 0 <= i < count implies {
            &&& (#[trigger] after.lines[i]).content == body[i]
            &&& after.lines[i].start == region
            &&& after.lines[i].end is None
        } by {
            if i < count - 1 {
                assert(after.lines[i] == before.lines[i]);
            }
        }
    }
}

/// Lines that one region stamps, and none removes, are gathered into one
/// snippet, which adds their texts in their order.
pub proof fn lemma_one_region_one_snippet(lines: Seq<SourceLineView>, region: CodeTagView, count: nat)
    requires
        1 <= count <= lines.len(),
        forall|i: int|
            0 <= i < lines.len() ==> (#[trigger] lines[i]).start == region && lines[i].end is None,
    ensures
        gathered(lines, count).len() == 1,
        gathered(lines, count)[0].code_tag == region,
        gathered(lines, count)[0].added == contents(lines.take(count as int)),
        gathered(lines, count)[0].removed.len() == 0,
    decreases count,
{
    let before = gathered(lines, (count - 1) as nat);
    let line = lines[count - 1];
    let names = snippet_names(before);
    if count == 1 {
        assert(before =~= Seq::empty());
        lemma_first_index(names, region.name, 0);
        assert(gathered(lines, 1)[0].added =~= contents(lines.take(1)));
    } else {
        lemma_one_region_one_snippet(lines, region, (count - 1) as nat);
        assert(names[0] == region.name);
        lemma_first_index(names, region.name, 0);
        assert(contents(lines.take(count as int)) =~= contents(lines.take(count - 1)).push(
            line.content,
        ));
    }
}

/// A region whose markers enclose the lines of a file, none of them a
/// marker, adds exactly those lines, in their order: the scan follows the
/// file to its end, stamps each line of the body with the region, and the
/// file's one snippet is the region's and adds the body.
pub proof fn lemma_region_adds_its_lines(
    book: Seq<ChapterView>,
    path: Seq<char>,
    region: CodeTagView,
    chapter: Seq<char>,
    first: Seq<char>,
    body: Seq<Seq<char>>,
    last: Seq<char>,
    end_chapter: Option<Seq<char>>,
)
    requires
        marker_of(first) == Some(
            MarkerView::Start { chapter: Some(chapter), name: region.name },
        ),
        resolve_tag(book, trimmed(chapter), region.name) == Some(region),
        forall|i: int| 0 <= i < body.len() ==> marker_of(#[trigger] body[i]) is None,
        marker_of(last) == Some(MarkerView::End { chapter: end_chapter, name: region.name }),
        end_chapter is Some ==> chapter_name_at(book, region.chapter) == end_chapter
            || chapter_name_at(book, region.chapter) == Some(STATIC_CHAPTER@),
        body.len() > 0,
    ensures
        scan_file(book, path, enclosed(first, body, last)).failure is None,
        scan_file(book, path, enclosed(first, body, last)).states.len() == 0,
        contents(scan_file(book, path, enclosed(first, body, last)).lines) == body,
        snippets_of(scan_file(book, path, enclosed(first, body, last)).lines).len() == 1,
        snippets_of(scan_file(book, path, enclosed(first, body, last)).lines)[0].code_tag
            == region,
        snippets_of(scan_file(book, path, enclosed(first, body, last)).lines)[0].added == body,
        snippets_of(scan_file(book, path, enclosed(first, body, last)).lines)[0].removed.len()
            == 0,
{
    let lines = enclosed(first, body, last);
    let n = body.len();
    lemma_body_is_stamped(book, path, region, chapter, first, body, last, n);
    let before = scan_prefix(book, path, lines, n + 1);
    let scan = scan_file(book, path, lines);
    assert(lines.len() == n + 2);
    assert(lines[n as int + 1] == last);
    assert(scan == scan_line(book, before, last, line_after(lines, n as int + 2)));
    assert(before.states.last() == (ParseStateView { start: region, end: None }));
    assert(ended(book, before.states, end_chapter, region.name) == Ok::<
        Seq<ParseStateView>,
        TagError,
    >(before.states.drop_last()));
    assert(scan.lines == before.lines);
    assert(contents(scan.lines) =~= body);
    lemma_one_region_one_snippet(scan.lines, region, n);
    assert(scan.lines.take(n as int) =~= scan.lines);
}

/// Whether the region that is open on a line has the name `name`.
pub open spec fn adds(name: Seq<char>) -> spec_fn(SourceLineView) -> bool {
    |line: SourceLineView| line.start.name == name
}

/// Whether the region that takes a line away has the name `name`.
pub open spec fn removes(name: Seq<char>) -> spec_fn(SourceLineView) -> bool {
    |line: SourceLineView| line.end matches Some(end) && end.name == name
}

/// Whether a region of the name `name` is open on one of the lines `added`
/// or takes one of the lines `removed` away.
pub open spec fn named_on(
    added: Seq<SourceLineView>,
    removed: Seq<SourceLineView>,
    name: Seq<char>,
) -> bool {
    ||| exists|k: int| 0 <= k < added.len() && adds(name)(#[trigger] added[k])
    ||| exists|k: int| 0 <= k < removed.len() && removes(name)(#[trigger] removed[k])
}

/// Whether the snippets are those of the lines `added` as far as adding
/// goes and of the lines `removed` as far as removing goes: no two snippets
/// have one name, a snippet adds the lines on which a region of its name is
/// open and removes the lines that a region of its name takes away, both in
/// the order of the file, every name on a line has its snippet, and every
/// snippet has its name from a line.
pub open spec fn gathered_from(
    snippets: Seq<SnippetView>,
    added: Seq<SourceLineView>,
    removed: Seq<SourceLineView>,
) -> bool {
    &&& forall|i: int|
        0 <= i < snippets.len() ==> named_on(added, removed, (#[trigger] snippets[i]).code_tag.name)
    &&& forall|i: int, j: int|
        0 <= i < j < snippets.len() ==> (#[trigger] snippets[i]).code_tag.name != (
        #[trigger] snippets[j]).code_tag.name
    &&& forall|i: int|
        0 <= i < snippets.len() ==> {
            &&& (#[trigger] snippets[i]).added == contents(
                added.filter(adds(snippets[i].code_tag.name)),
            )
            &&& snippets[i].removed == contents(removed.filter(removes(snippets[i].code_tag.name)))
        }
    &&& forall|k: int|
        0 <= k < added.len() ==> snippet_names(snippets).contains((#[trigger] added[k]).start.name)
    &&& forall|k: int|
        0 <= k < removed.len() ==> ((#[trigger] removed[k]).end matches Some(end)
            ==> snippet_names(snippets).contains(end.name))
}

/// A name that stands on a line still does when more lines come.
pub proof fn lemma_named_on_more(
    added: Seq<SourceLineView>,
    removed: Seq<SourceLineView>,
    line: SourceLineView,
    name: Seq<char>,
)
    requires
        named_on(added, removed, name),
    ensures
        named_on(added.push(line), removed, name),
        named_on(added, removed.push(line), name),
{
    if exists|k: int| 0 <= k < added.len() && adds(name)(#[trigger] added[k]) {
        let k = choose|k: int| 0 <= k < added.len() && adds(name)(#[trigger] added[k]);
        assert(added.push(line)[k] == added[k]);
    } else {
        let k = choose|k: int| 0 <= k < removed.len() && removes(name)(#[trigger] removed[k]);
        assert(removed.push(line)[k] == removed[k]);
    }
}

/// Lines of which none meets the test are all filtered out.
pub proof fn lemma_filter_none(lines: Seq<SourceLineView>, test: spec_fn(SourceLineView) -> bool)
    requires
        forall|k: int| 0 <= k < lines.len() ==> !test(#[trigger] lines[k]),
    ensures
        lines.filter(test) == Seq::<SourceLineView>::empty(),
    decreases lines.len(),
{
    reveal(Seq::filter);
    if lines.len() > 0 {
        assert forall|k: int| 0 <= k < lines.drop_last().len() implies !test(
            #[trigger] lines.drop_last()[k],
        ) by {
            assert(lines.drop_last()[k] == lines[k]);
        }
        lemma_filter_none(lines.drop_last(), test);
    }
}

/// What `opened` does: the snippet for the name of `tag` stands at
/// `kept_at`, and the other snippets stand where they stood.
pub proof fn lemma_opened(snippets: Seq<SnippetView>, tag: CodeTagView)
    ensures
        0 <= kept_at(snippets, tag.name) < opened(snippets, tag).len(),
        opened(snippets, tag)[kept_at(snippets, tag.name)].code_tag.name == tag.name,
        snippet_names(snippets).contains(tag.name) ==> opened(snippets, tag) == snippets,
        !snippet_names(snippets).contains(tag.name) ==> opened(snippets, tag) == snippets.push(
            empty_snippet(tag),
        ) && kept_at(snippets, tag.name) == snippets.len(),
        forall|i: int|
            0 <= i < snippets.len() && i != kept_at(snippets, tag.name) ==> (
            #[trigger] snippets[i]).code_tag.name != tag.name || exists|j: int|
                0 <= j < i && snippets[j].code_tag.name == tag.name,
{
    let names = snippet_names(snippets);
    names.index_of_first_ensures(tag.name);
    match names.index_of_first(tag.name) {
        Some(at) => {
            assert(names[at] == snippets[at].code_tag.name);
            assert forall|i: int|
                0 <= i < snippets.len() && i != at implies (#[trigger] snippets[i]).code_tag.name
                != tag.name || exists|j: int| 0 <= j < i && snippets[j].code_tag.name == tag.name by {
                if snippets[i].code_tag.name == tag.name {
                    assert(names[i] == tag.name);
                    assert(at < i);
                }
            }
        },
        None => {
            assert forall|i: int| 0 <= i < snippets.len() implies (
            #[trigger] snippets[i]).code_tag.name != tag.name by {
                assert(names[i] == snippets[i].code_tag.name);
                assert(names.contains(names[i]));
            }
        },
    }
}

/// A line that a region adds keeps the snippets right.
pub proof fn lemma_added_line_keeps_right(
    snippets: Seq<SnippetView>,
    added: Seq<SourceLineView>,
    removed: Seq<SourceLineView>,
    index: nat,
    line: SourceLineView,
)
    requires
        gathered_from(snippets, added, removed),
    ensures
        gathered_from(with_line_added(snippets, index, line), added.push(line), removed),
{
    let tag = line.start;
    let all = opened(snippets, tag);
    let at = kept_at(snippets, tag.name);
    let after = with_line_added(snippets, index, line);
    let names = snippet_names(snippets);
    lemma_opened(snippets, tag);
    assert(after.len() == all.len());
    assert forall|i: int| 0 <= i < after.len() implies (#[trigger] after[i]).code_tag.name
        == all[i].code_tag.name by {}
    // Every snippet has its name from a line.
    assert forall|i: int| 0 <= i < after.len() implies named_on(
        added.push(line),
        removed,
        (#[trigger] after[i]).code_tag.name,
    ) by {
        if i == at {
            assert(adds(tag.name)(added.push(line)[added.len() as int]));
        } else {
            assert(after[i] == snippets[i]);
            lemma_named_on_more(added, removed, line, snippets[i].code_tag.name);
        }
    }
    // No two snippets have one name.
    assert forall|i: int, j: int| 0 <= i < j < after.len() implies (
    #[trigger] after[i]).code_tag.name != (#[trigger] after[j]).code_tag.name by {
        if j < snippets.len() {
            assert(snippets[i].code_tag.name != snippets[j].code_tag.name);
        } else {
            assert(names[i] == snippets[i].code_tag.name);
            assert(names.contains(names[i]));
        }
    }
    // Every snippet adds and removes what it should.
    assert forall|i: int| 0 <= i < after.len() implies {
        &&& (#[trigger] after[i]).added == contents(
            added.push(line).filter(adds(after[i].code_tag.name)),
        )
        &&& after[i].removed == contents(removed.filter(removes(after[i].code_tag.name)))
    } by {
        let name = after[i].code_tag.name;
        added.lemma_filter_push(line, adds(name));
        if i == at {
            assert(name == tag.name);
            if names.contains(tag.name) {
                assert(contents(added.filter(adds(name)).push(line)) =~= contents(
                    added.filter(adds(name)),
                ).push(line.content));
            } else {
                assert forall|k: int| 0 <= k < added.len() implies !adds(name)(
                    #[trigger] added[k],
                ) by {
                    assert(names.contains(added[k].start.name));
                }
                lemma_filter_none(added, adds(name));
                assert forall|k: int| 0 <= k < removed.len() implies !removes(name)(
                    #[trigger] removed[k],
                ) by {
                    if removed[k].end is Some {
                        assert(names.contains(removed[k].end->Some_0.name));
                    }
                }
                lemma_filter_none(removed, removes(name));
                assert(contents(Seq::<SourceLineView>::empty().push(line)) =~= Seq::<
                    Seq<char>,
                >::empty().push(line.content));
                assert(contents(Seq::<SourceLineView>::empty()) =~= Seq::<Seq<char>>::empty());
            }
        } else {
            assert(after[i] == snippets[i]);
            assert(after[at].code_tag.name == tag.name);
            if i < at {
                assert(after[i].code_tag.name != after[at].code_tag.name);
            } else {
                assert(after[at].code_tag.name != after[i].code_tag.name);
            }
        }
    }
    // Every name on a line has its snippet.
    let names_after = snippet_names(after);
    assert forall|k: int| 0 <= k < added.push(line).len() implies names_after.contains(
        (#[trigger] added.push(line)[k]).start.name,
    ) by {
        if k < added.len() {
            lemma_names_stay(snippets, after, added[k].start.name);
        } else {
            assert(names_after[at] == tag.name);
        }
    }
    assert forall|k: int| 0 <= k < removed.len() implies ((#[trigger] removed[k]).end matches Some(
        end,
    ) ==> names_after.contains(end.name)) by {
        if removed[k].end is Some {
            lemma_names_stay(snippets, after, removed[k].end->Some_0.name);
        }
    }
}

/// A name that has a snippet still has one among snippets that keep the
/// names of the first and may have more.
pub proof fn lemma_names_stay(before: Seq<SnippetView>, after: Seq<SnippetView>, name: Seq<char>)
    requires
        before.len() <= after.len(),
        forall|i: int|
            0 <= i < before.len() ==> (#[trigger] after[i]).code_tag.name
                == before[i].code_tag.name,
        snippet_names(before).contains(name),
    ensures
        snippet_names(after).contains(name),
{
    let i = choose|i: int| 0 <= i < before.len() && snippet_names(before)[i] == name;
    assert(snippet_names(after)[i] == name);
}

/// A line that a region removes keeps the snippets right.
pub proof fn lemma_removed_line_keeps_right(
    snippets: Seq<SnippetView>,
    added: Seq<SourceLineView>,
    removed: Seq<SourceLineView>,
    index: nat,
    line: SourceLineView,
)
    requires
        gathered_from(snippets, added, removed),
    ensures
        line.end matches Some(end) ==> gathered_from(
            with_line_removed(snippets, index, line, end),
            added,
            removed.push(line),
        ),
        line.end is None ==> gathered_from(snippets, added, removed.push(line)),
{
    let names = snippet_names(snippets);
    match line.end {
        None => {
            assert forall|i: int| 0 <= i < snippets.len() implies (#[trigger] snippets[i]).removed
                == contents(removed.push(line).filter(removes(snippets[i].code_tag.name))) by {
                removed.lemma_filter_push(line, removes(snippets[i].code_tag.name));
            }
            assert forall|i: int| 0 <= i < snippets.len() implies named_on(
                added,
                removed.push(line),
                (#[trigger] snippets[i]).code_tag.name,
            ) by {
                lemma_named_on_more(added, removed, line, snippets[i].code_tag.name);
            }
        },
        Some(tag) => {
            let all = opened(snippets, tag);
            let at = kept_at(snippets, tag.name);
            let after = with_line_removed(snippets, index, line, tag);
            lemma_opened(snippets, tag);
            assert(after.len() == all.len());
            assert forall|i: int| 0 <= i < after.len() implies (#[trigger] after[i]).code_tag.name
                == all[i].code_tag.name by {}
            assert forall|i: int| 0 <= i < after.len() implies named_on(
                added,
                removed.push(line),
                (#[trigger] after[i]).code_tag.name,
            ) by {
                if i == at {
                    assert(removes(tag.name)(removed.push(line)[removed.len() as int]));
                } else {
                    assert(after[i] == snippets[i]);
                    lemma_named_on_more(added, removed, line, snippets[i].code_tag.name);
                }
            }
            assert forall|i: int, j: int| 0 <= i < j < after.len() implies (
            #[trigger] after[i]).code_tag.name != (#[trigger] after[j]).code_tag.name by {
                if j < snippets.len() {
                    assert(snippets[i].code_tag.name != snippets[j].code_tag.name);
                } else {
                    assert(names[i] == snippets[i].code_tag.name);
                    assert(names.contains(names[i]));
                }
            }
            assert forall|i: int| 0 <= i < after.len() implies {
                &&& (#[trigger] after[i]).added == contents(
                    added.filter(adds(after[i].code_tag.name)),
                )
                &&& after[i].removed == contents(
                    removed.push(line).filter(removes(after[i].code_tag.name)),
                )
            } by {
                let name = after[i].code_tag.name;
                removed.lemma_filter_push(line, removes(name));
                if i == at {
                    assert(name == tag.name);
                    if names.contains(tag.name) {
                        assert(contents(removed.filter(removes(name)).push(line)) =~= contents(
                            removed.filter(removes(name)),
                        ).push(line.content));
                    } else {
                        assert forall|k: int| 0 <= k < added.len() implies !adds(name)(
                            #[trigger] added[k],
                        ) by {
                            assert(names.contains(added[k].start.name));
                        }
                        lemma_filter_none(added, adds(name));
                        assert forall|k: int| 0 <= k < removed.len() implies !removes(name)(
                            #[trigger] removed[k],
                        ) by {
                            if removed[k].end is Some {
                                assert(names.contains(removed[k].end->Some_0.name));
                            }
                        }
                        lemma_filter_none(removed, removes(name));
                        assert(contents(Seq::<SourceLineView>::empty().push(line)) =~= Seq::<
                            Seq<char>,
                        >::empty().push(line.content));
                        assert(contents(Seq::<SourceLineView>::empty()) =~= Seq::<
                            Seq<char>,
                        >::empty());
                    }
                } else {
                    assert(after[i] == snippets[i]);
                    assert(after[at].code_tag.name == tag.name);
                    if i < at {
                        assert(after[i].code_tag.name != after[at].code_tag.name);
                    } else {
                        assert(after[at].code_tag.name != after[i].code_tag.name);
                    }
                }
            }
            let names_after = snippet_names(after);
            assert forall|k: int| 0 <= k < added.len() implies names_after.contains(
                (#[trigger] added[k]).start.name,
            ) by {
                lemma_names_stay(snippets, after, added[k].start.name);
            }
            assert forall|k: int| 0 <= k < removed.push(line).len() implies ((
            #[trigger] removed.push(line)[k]).end matches Some(end) ==> names_after.contains(
                end.name,
            )) by {
                if k < removed.len() {
                    if removed[k].end is Some {
                        lemma_names_stay(snippets, after, removed[k].end->Some_0.name);
                    }
                } else {
                    assert(names_after[at] == tag.name);
                }
            }
        },
    }
}

/// The snippets gathered from the first `count` lines of a file are those
/// of these lines: one for every name of a region that adds or removes one
/// of the lines, which adds the lines that regions of its name add and
/// removes the lines that regions of its name remove, in the order of the
/// file.
pub proof fn lemma_gathered_is_right(lines: Seq<SourceLineView>, count: nat)
    requires
        count <= lines.len(),
    ensures
        gathered_from(gathered(lines, count), lines.take(count as int), lines.take(count as int)),
    decreases count,
{
    if count == 0 {
        assert(gathered(lines, 0) =~= Seq::empty());
        assert(lines.take(0) =~= Seq::empty());
    } else {
        lemma_gathered_is_right(lines, (count - 1) as nat);
        let before = gathered(lines, (count - 1) as nat);
        let seen = lines.take(count - 1);
        let line = lines[count - 1];
        assert(lines.take(count as int) =~= seen.push(line));
        lemma_added_line_keeps_right(before, seen, seen, (count - 1) as nat, line);
        lemma_removed_line_keeps_right(
            with_line_added(before, (count - 1) as nat, line),
            seen.push(line),
            seen,
            (count - 1) as nat,
            line,
        );
    }
}

/// The snippets of a file add and remove what their regions add and
/// remove: context changes neither the added nor the removed lines, nor the
/// regions.
pub proof fn lemma_snippets_are_right(lines: Seq<SourceLineView>)
    ensures
        snippets_of(lines).len() == gathered(lines, lines.len()).len(),
        forall|i: int|
            0 <= i < snippets_of(lines).len() ==> {
                &&& (#[trigger] snippets_of(lines)[i]).code_tag == gathered(
                    lines,
                    lines.len(),
                )[i].code_tag
                &&& snippets_of(lines)[i].added == contents(
                    lines.filter(adds(snippets_of(lines)[i].code_tag.name)),
                )
                &&& snippets_of(lines)[i].removed == contents(
                    lines.filter(removes(snippets_of(lines)[i].code_tag.name)),
                )
            },
        forall|i: int, j: int|
            0 <= i < j < snippets_of(lines).len() ==> (#[trigger] snippets_of(
                lines,
            )[i]).code_tag.name != (#[trigger] snippets_of(lines)[j]).code_tag.name,
{
    lemma_gathered_is_right(lines, lines.len());
    assert(lines.take(lines.len() as int) =~= lines);
}

/// Whether the chain starts with the node of the file `path` and holds no
/// other file.
pub open spec fn rooted_at(chain: Seq<LocationNodeView>, path: Seq<char>) -> bool {
    rooted(chain) && chain[0] == file_chain(path)[0]
}

/// All through the scan of a file the cursor starts with the node of the
/// file and holds no other file, and so does the location of every stamped
/// line.
pub proof fn lemma_scan_is_rooted(
    book: Seq<ChapterView>,
    path: Seq<char>,
    lines: Seq<Seq<char>>,
    count: nat,
)
    requires
        count <= lines.len(),
    ensures
        rooted_at(scan_prefix(book, path, lines, count).location, path),
        forall|k: int|
            0 <= k < scan_prefix(book, path, lines, count).lines.len() ==> rooted_at(
                (#[trigger] scan_prefix(book, path, lines, count).lines[k]).location,
                path,
            ),
    decreases count,
{
    if count > 0 {
        lemma_scan_is_rooted(book, path, lines, (count - 1) as nat);
        let before = scan_prefix(book, path, lines, (count - 1) as nat);
        let after = scan_prefix(book, path, lines, count);
        let line = lines[count - 1];
        let next = line_after(lines, count as int);
        let here = scanned_before(before.location, line, next);
        lemma_scan_keeps_root(before.location, line, next);
        lemma_scan_keeps_root(here, line, next);
        assert forall|k: int| 0 <= k < after.lines.len() implies rooted_at(
            (#[trigger] after.lines[k]).location,
            path,
        ) by {
            if k < before.lines.len() {
                assert(after.lines[k] == before.lines[k]);
            }
        }
    }
}

/// Whether `locations[at]` is as deep as any of the locations and deeper
/// than all that come after it.
pub open spec fn is_last_deepest(locations: Seq<Seq<LocationNodeView>>, at: int) -> bool {
    &&& 0 <= at < locations.len()
    &&& forall|i: int| 0 <= i < locations.len() ==> (#[trigger] locations[i]).len() <= locations[at].len()
    &&& forall|i: int| at < i < locations.len() ==> (#[trigger] locations[i]).len() < locations[at].len()
}

/// The location that precedes a snippet is as deep as any of the locations
/// it was chosen from, and of the deepest it is the one nearest to the snippet.
pub proof fn lemma_deepest_is_last_deepest(locations: Seq<Seq<LocationNodeView>>)
    requires
        locations.len() > 0,
    ensures
        exists|at: int| is_last_deepest(locations, at) && deepest(locations) == Some(locations[at]),
    decreases locations.len(),
{
    let earlier = locations.drop_last();
    let last = locations.len() - 1;
    if earlier.len() == 0 {
        assert(is_last_deepest(locations, 0));
    } else {
        lemma_deepest_is_last_deepest(earlier);
        let at = choose|at: int| is_last_deepest(earlier, at) && deepest(earlier) == Some(earlier[at]);
        assert(earlier[at] == locations[at]);
        if earlier[at].len() > locations[last].len() {
            assert forall|i: int| 0 <= i < locations.len() implies (#[trigger] locations[i]).len()
                <= locations[at].len() by {
                if i < last {
                    assert(earlier[i] == locations[i]);
                }
            }
            assert forall|i: int| at < i < locations.len() implies (#[trigger] locations[i]).len()
                < locations[at].len() by {
                if i < last {
                    assert(earlier[i] == locations[i]);
                }
            }
            assert(is_last_deepest(locations, at));
        } else {
            assert forall|i: int| 0 <= i < locations.len() implies (#[trigger] locations[i]).len()
                <= locations[last].len() by {
                if i < last {
                    assert(earlier[i] == locations[i]);
                }
            }
            assert(is_last_deepest(locations, last));
        }
    }
}

/// A snippet that comes from merging comes from one of the two sides.
pub proof fn lemma_merged_names(
    all: Seq<SnippetView>,
    later: Seq<SnippetView>,
    count: nat,
    name: Seq<char>,
)
    requires
        count <= later.len(),
        snippet_names(merged_upto(all, later, count)).contains(name),
    ensures
        snippet_names(all).contains(name) || snippet_names(later).contains(name),
    decreases count,
{
    if count > 0 {
        let before = merged_upto(all, later, (count - 1) as nat);
        let snippet = later[count - 1];
        let after = replaced(before, snippet);
        let names = snippet_names(before);
        names.index_of_first_ensures(snippet.code_tag.name);
        let i = choose|i: int| 0 <= i < after.len() && snippet_names(after)[i] == name;
        if after[i].code_tag.name == snippet.code_tag.name {
            assert(snippet_names(later)[count - 1] == name);
        } else {
            assert(after[i] == before[i]);
            assert(names[i] == name);
            lemma_merged_names(all, later, (count - 1) as nat, name);
        }
    }
}

/// Whether a region of the name `name` is open on a stamped line of one of
/// the first `count` source files, or takes one away.
pub open spec fn marked_in(
    book: Seq<ChapterView>,
    sources: Seq<SourceTextView>,
    count: nat,
    name: Seq<char>,
) -> bool {
    exists|f: int|
        0 <= f < count && named_on(
            (#[trigger] scan_file(book, sources[f].path, sources[f].lines)).lines,
            scan_file(book, sources[f].path, sources[f].lines).lines,
            name,
        )
}

/// A name that has a snippet stands on a stamped line of some file.
pub proof fn lemma_snippet_has_markers(
    book: Seq<ChapterView>,
    sources: Seq<SourceTextView>,
    count: nat,
    name: Seq<char>,
)
    requires
        count <= sources.len(),
        snippets_upto(book, sources, count) matches Ok(snippets) && snippet_names(
            snippets,
        ).contains(name),
    ensures
        marked_in(book, sources, count, name),
    decreases count,
{
    if count == 0 {
        assert(snippet_names(Seq::<SnippetView>::empty()).len() == 0);
    } else {
        let all = snippets_upto(book, sources, (count - 1) as nat)->Ok_0;
        let scan = scan_file(book, sources[count - 1].path, sources[count - 1].lines);
        let later = snippets_of(scan.lines);
        lemma_merged_names(all, later, later.len(), name);
        if snippet_names(all).contains(name) {
            lemma_snippet_has_markers(book, sources, (count - 1) as nat, name);
            let f = choose|f: int|
                0 <= f < count - 1 && named_on(
                    (#[trigger] scan_file(book, sources[f].path, sources[f].lines)).lines,
                    scan_file(book, sources[f].path, sources[f].lines).lines,
                    name,
                );
            assert(0 <= f < count);
        } else {
            lemma_gathered_is_right(scan.lines, scan.lines.len());
            assert(scan.lines.take(scan.lines.len() as int) =~= scan.lines);
            let i = choose|i: int| 0 <= i < later.len() && snippet_names(later)[i] == name;
            assert(later[i].code_tag.name == gathered(scan.lines, scan.lines.len())[i].code_tag.name);
            assert(named_on(scan.lines, scan.lines, name));
        }
    }
}

/// A region that is referred to in the documentation and that no marker of
/// any source file opens, and none names as the region that removes a block,
/// is reported as not found: its reference becomes the notice.
pub proof fn lemma_unmarked_region_is_not_found(
    book: Seq<ChapterView>,
    sources: Seq<SourceTextView>,
    line: Seq<char>,
    name: Seq<char>,
)
    requires
        snippets_upto(book, sources, sources.len()) is Ok,
        referenced_name(regex_captures(REFERENCE_PATTERN@, line)) == Some(name),
        !marked_in(book, sources, sources.len(), name),
    ensures
        rendered_line(line, snippets_upto(book, sources, sources.len())->Ok_0) == not_found_notice(
            name,
        ),
{
    let snippets = snippets_upto(book, sources, sources.len())->Ok_0;
    snippet_names(snippets).index_of_first_ensures(name);
    if snippet_names(snippets).contains(name) {
        lemma_snippet_has_markers(book, sources, sources.len(), name);
    }
}

/// A source file whose scan fails makes the whole rendering fail.
pub proof fn lemma_failed_file_fails_run(
    chapters: Seq<ChapterTextView>,
    sources: Seq<SourceTextView>,
    at: nat,
)
    requires
        at < sources.len(),
        catalog_of(chapters) is Ok,
        scan_file(
            catalog_of(chapters)->Ok_0,
            sources[at as int].path,
            sources[at as int].lines,
        ).failure is Some,
    ensures
        rendered_book(chapters, sources) is Err,
{
    let book = catalog_of(chapters)->Ok_0;
    assert(snippets_upto(book, sources, at + 1) is Err);
    lemma_sources_failure_stays(book, sources, at + 1, sources.len());
}

} // verus!
