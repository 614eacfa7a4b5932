//! Putting the snippets into the chapters: every line of a chapter that
//! refers to a region gives way to the region's snippet, or to a notice that
//! there is none.
use crate::breadcrumb::breadcrumbs;
use crate::catalog::TagError;
use crate::gather::{
    all_snippets, build_snippets, find_snippet, first_snippet_named, SourceText, SourceTextView,
};
use crate::pattern::{
    captures, captures_each, group, group_text, regex_captures, Groups, REFERENCE_PATTERN,
};
use crate::references::{catalog_of, collect_code_tags, ChapterText, ChapterTextView};
use crate::snippet::{Snippet, SnippetView};
use crate::text::{chars_of, lines, string_of, text_lines};
use vstd::prelude::*;
use vstd::string::*;

verus! {

/// The first `count` of `lines`, each with `prefix` before it and a line
/// feed behind it.
pub open spec fn prefixed(prefix: Seq<char>, lines: Seq<Seq<char>>, count: nat) -> Seq<char>
    decreases count,
{
    if count == 0 {
        Seq::empty()
    } else {
        prefixed(prefix, lines, (count - 1) as nat) + prefix + lines[count - 1] + "\n"@
    }
}

/// The first `count` of `phrases` with `, ` between them.
pub open spec fn joined(phrases: Seq<Seq<char>>, count: nat) -> Seq<char>
    decreases count,
{
    if count == 0 {
        Seq::empty()
    } else if count == 1 {
        phrases[0]
    } else {
        joined(phrases, (count - 1) as nat) + ", "@ + phrases[count - 1]
    }
}

/// The breadcrumb of a snippet, where the snippet has a location.
pub open spec fn location_block(snippet: SnippetView) -> Seq<char> {
    match snippet.location {
        Some(chain) => {
            let phrases = breadcrumbs(
                chain,
                snippet.preceding_location,
                snippet.removed.len() > 0,
            );
            "<div class=\"location\">"@ + joined(phrases, phrases.len()) + "</div>\n"@
        },
        None => Seq::empty(),
    }
}

/// The code of a snippet: the context before it, the lines it removes, the
/// lines it adds and the context after it.
pub open spec fn code_block(snippet: SnippetView) -> Seq<char> {
    "<code class=\"language-java\">"@ + prefixed(
        "  "@,
        snippet.context_before,
        snippet.context_before.len(),
    ) + prefixed("- "@, snippet.removed, snippet.removed.len()) + prefixed(
        "+ "@,
        snippet.added,
        snippet.added.len(),
    ) + prefixed("  "@, snippet.context_after, snippet.context_after.len()) + "</code>\n"@
}

/// What stands for a reference to a region that has a snippet.
pub open spec fn snippet_block(snippet: SnippetView) -> Seq<char> {
    "<pre>"@ + code_block(snippet) + location_block(snippet) + "</pre>\n"@
}

/// What stands for a reference to a region that has no snippet.
pub open spec fn not_found_notice(name: Seq<char>) -> Seq<char> {
    "<p>Code tag "@ + name + " not found</p>\n"@
}

/// What stands for a reference to the region `name`.
pub open spec fn rendered_reference(name: Seq<char>, snippets: Seq<SnippetView>) -> Seq<char> {
    match first_snippet_named(snippets, name) {
        Some(snippet) => snippet_block(snippet),
        None => not_found_notice(name),
    }
}

/// The region that a line refers to, given what the reference pattern
/// captures on it.
pub open spec fn referenced_name(caps: Option<Seq<Option<Seq<char>>>>) -> Option<Seq<char>> {
    match caps {
        Some(groups) => group_text(groups, 1),
        None => None,
    }
}

/// What a line of a chapter becomes, given what the reference pattern
/// captures on it: a line that refers to no region stays, with a line feed
/// behind it.
pub open spec fn rendered_from(
    caps: Option<Seq<Option<Seq<char>>>>,
    line: Seq<char>,
    snippets: Seq<SnippetView>,
) -> Seq<char> {
    match referenced_name(caps) {
        Some(name) => rendered_reference(name, snippets),
        None => line + "\n"@,
    }
}

/// What a line of a chapter becomes.
pub open spec fn rendered_line(line: Seq<char>, snippets: Seq<SnippetView>) -> Seq<char> {
    rendered_from(regex_captures(REFERENCE_PATTERN@, line), line, snippets)
}

/// What the first `count` of `lines` become, one after the other.
pub open spec fn rendered_upto(lines: Seq<Seq<char>>, snippets: Seq<SnippetView>, count: nat) -> Seq<
    char,
>
    decreases count,
{
    if count == 0 {
        Seq::empty()
    } else {
        rendered_upto(lines, snippets, (count - 1) as nat) + rendered_line(lines[count - 1], snippets)
    }
}

/// What the text of a chapter becomes.
pub open spec fn rendered_chapter(content: Seq<char>, snippets: Seq<SnippetView>) -> Seq<char> {
    rendered_upto(text_lines(content), snippets, text_lines(content).len())
}

/// Adds to `out` each of `lines` with `prefix` before it and a line feed
/// behind it.
pub fn push_prefixed(out: &mut String, prefix: &str, lines: &Vec<String>)
    ensures
        final(out)@ == old(out)@ + prefixed(prefix@, lines.deep_view(), lines.len() as nat),
{
    let ghost had = out@;
    let ghost texts = lines.deep_view();
    let mut i: usize = 0;
    proof {
        assert(out@ =~= had + prefixed(prefix@, texts, 0));
    }
    while i < lines.len()
        invariant
            i <= lines.len(),
            texts == lines.deep_view(),
            out@ == had + prefixed(prefix@, texts, i as nat),
        decreases lines.len() - i,
    {
        let ghost before = prefixed(prefix@, texts, i as nat);
        out.append(prefix);
        out.append(lines[i].as_str());
        out.append("\n");
        proof {
            assert(texts[i as int] == lines[i as int]@);
            assert(out@ =~= had + (before + prefix@ + texts[i as int] + "\n"@));
        }
        i += 1;
    }
}

/// The phrases with `, ` between them.
pub fn join_phrases(phrases: &Vec<String>) -> (text: String)
    ensures
        text@ == joined(phrases.deep_view(), phrases.len() as nat),
{
    let ghost texts = phrases.deep_view();
    let mut text = String::new();
    let mut i: usize = 0;
    while i < phrases.len()
        invariant
            i <= phrases.len(),
            texts == phrases.deep_view(),
            text@ == joined(texts, i as nat),
        decreases phrases.len() - i,
    {
        if i > 0 {
            text.append(", ");
        }
        text.append(phrases[i].as_str());
        proof {
            assert(texts[i as int] == phrases[i as int]@);
            if i == 0 {
                assert(text@ =~= texts[0]);
            }
        }
        i += 1;
    }
    text
}

/// What stands for a reference to the region of `snippet`.
pub fn render_snippet(snippet: &Snippet) -> (text: String)
    ensures
        text@ == snippet_block(snippet@),
{
    let mut text = String::from_str("<pre>");
    text.append("<code class=\"language-java\">");
    push_prefixed(&mut text, "  ", &snippet.context_before);
    push_prefixed(&mut text, "- ", &snippet.removed);
    push_prefixed(&mut text, "+ ", &snippet.added);
    push_prefixed(&mut text, "  ", &snippet.context_after);
    text.append("</code>\n");
    assert(text@ =~= "<pre>"@ + code_block(snippet@));
    match &snippet.location {
        Some(location) => {
            let preceding = match &snippet.preceding_location {
                Some(p) => Some(p),
                None => None,
            };
            let phrases = location.to_html(preceding, snippet.removed.len() > 0);
            let crumbs = join_phrases(&phrases);
            text.append("<div class=\"location\">");
            text.append(crumbs.as_str());
            text.append("</div>\n");
            assert(text@ =~= "<pre>"@ + code_block(snippet@) + location_block(snippet@));
        },
        None => {
            assert(text@ =~= "<pre>"@ + code_block(snippet@) + location_block(snippet@));
        },
    }
    text.append("</pre>\n");
    text
}

/// What stands for a reference to the region `name`: its snippet, or the
/// notice that it has none.
pub fn render_reference(name: &str, snippets: &Vec<Snippet>) -> (text: String)
    ensures
        text@ == rendered_reference(name@, snippets.deep_view()),
        first_snippet_named(snippets.deep_view(), name@) is None ==> text@ == not_found_notice(
            name@,
        ),
{
    match find_snippet(snippets, name) {
        Some(snippet) => render_snippet(snippet),
        None => {
            let mut text = String::from_str("<p>Code tag ");
            text.append(name);
            text.append(" not found</p>\n");
            text
        },
    }
}

/// What a line of a chapter becomes, given what the reference pattern
/// captures on it.
pub fn render_line_from(caps: &Option<Groups>, line: &str, snippets: &Vec<Snippet>) -> (text:
    String)
    ensures
        text@ == rendered_from(caps.deep_view(), line@, snippets.deep_view()),
{
    let name = match caps {
        Some(groups) => group(groups, 1),
        None => None,
    };
    match name {
        Some(name) => render_reference(name.as_str(), snippets),
        None => {
            let mut text = String::from_str(line);
            text.append("\n");
            text
        },
    }
}

/// What a line of a chapter becomes.
pub fn render_line(line: &str, snippets: &Vec<Snippet>) -> (text: String)
    ensures
        text@ == rendered_line(line@, snippets.deep_view()),
{
    let caps = captures(REFERENCE_PATTERN, line);
    render_line_from(&caps, line, snippets)
}

/// What the text of a chapter becomes: every line that refers to a region
/// gives way to what stands for the reference, every other line stays.
pub fn render_chapter(content: &str, snippets: &Vec<Snippet>) -> (text: String)
    ensures
        text@ == rendered_chapter(content@, snippets.deep_view()),
{
    let v = chars_of(content);
    let bounds = lines(&v);
    let ghost all = text_lines(v@);
    let mut texts: Vec<String> = Vec::new();
    let mut k: usize = 0;
    while k < bounds.len()
        invariant
            k <= bounds.len(),
            all == text_lines(v@),
            bounds@.len() == all.len(),
            forall|j: int|
                0 <= j < bounds@.len() ==> {
                    &&& (#[trigger] bounds@[j]).0 <= bounds@[j].1 <= v.len()
                    &&& v@.subrange(bounds@[j].0 as int, bounds@[j].1 as int) == all[j]
                },
            texts.len() == k,
            forall|j: int| 0 <= j < k ==> (#[trigger] texts[j])@ == all[j],
        decreases bounds.len() - k,
    {
        let (from, to) = bounds[k];
        texts.push(string_of(&v, from, to));
        k += 1;
    }
    let found = captures_each(REFERENCE_PATTERN, &texts);
    let mut text = String::new();
    let mut i: usize = 0;
    while i < texts.len()
        invariant
            i <= texts.len(),
            v@ == content@,
            all == text_lines(v@),
            texts.len() == all.len(),
            forall|j: int| 0 <= j < texts.len() ==> (#[trigger] texts[j])@ == all[j],
            found.len() == texts.len(),
            forall|j: int|
                0 <= j < found.len() ==> (#[trigger] found[j]).deep_view() == regex_captures(
                    REFERENCE_PATTERN@,
                    texts[j]@,
                ),
            text@ == rendered_upto(all, snippets.deep_view(), i as nat),
        decreases texts.len() - i,
    {
        let rendered = render_line_from(&found[i], texts[i].as_str(), snippets);
        text.append(rendered.as_str());
        i += 1;
    }
    text
}

/// What the chapters become, given the snippets.
pub open spec fn rendered_chapters(chapters: Seq<ChapterTextView>, snippets: Seq<SnippetView>) -> Seq<
    Seq<char>,
> {
    chapters.map_values(|chapter: ChapterTextView| rendered_chapter(chapter.content, snippets))
}

/// What the chapters of the documentation become with the snippets of the
/// source files in them. An option list that cannot be read, or a file whose
/// markers cannot be followed, fails the whole.
pub open spec fn rendered_book(chapters: Seq<ChapterTextView>, sources: Seq<SourceTextView>) -> Result<
    Seq<Seq<char>>,
    TagError,
> {
    match catalog_of(chapters) {
        Ok(book) => match all_snippets(book, sources) {
            Ok(snippets) => Ok(rendered_chapters(chapters, snippets)),
            Err(e) => Err(e),
        },
        Err(e) => Err(e),
    }
}

/// Renders the documentation: builds the catalog from the chapters,
/// gathers the snippets from the source files, and puts them into the
/// chapters' texts, which come back in the order of the chapters.
pub fn render_book(chapters: &Vec<ChapterText>, sources: &Vec<SourceText>) -> (texts: Result<
    Vec<String>,
    TagError,
>)
    ensures
        rendered_book(chapters.deep_view(), sources.deep_view()) == match texts {
            Ok(all) => Ok::<Seq<Seq<char>>, TagError>(all.deep_view()),
            Err(e) => Err::<Seq<Seq<char>>, TagError>(e),
        },
{
    let book = match collect_code_tags(chapters) {
        Ok(book) => book,
        Err(e) => {
            return Err(e);
        },
    };
    let snippets = match build_snippets(&book, sources) {
        Ok(snippets) => snippets,
        Err(e) => {
            return Err(e);
        },
    };
    let mut texts: Vec<String> = Vec::new();
    let mut i: usize = 0;
    while i < chapters.len()
        invariant
            i <= chapters.len(),
            texts.len() == i,
            forall|k: int|
                0 <= k < i ==> (#[trigger] texts[k])@ == rendered_chapter(
                    chapters[k]@.content,
                    snippets.deep_view(),
                ),
        decreases chapters.len() - i,
    {
        texts.push(render_chapter(chapters[i].content.as_str(), &snippets));
        i += 1;
    }
    assert(texts.deep_view() =~= rendered_chapters(chapters.deep_view(), snippets.deep_view()));
    Ok(texts)
}

} // verus!
