//! The interval parser: it follows the markers of a source file, keeps the
//! stack of the regions that are open, and stamps every other line with the
//! innermost of them.
use crate::catalog::{
    resolve_tag, ChapterView, CodeBook, CodeTag, CodeTagView, TagError, STATIC_CHAPTER,
};
use crate::location::{rooted, Location, LocationKind, LocationNode, LocationNodeView};
use crate::pattern::{
    captures, captures_each, group, group_text, regex_captures, Groups, BLOCK_PATTERN,
    CONSTRUCTOR_PATTERN, END_PATTERN, FUNCTION_PATTERN, START_PATTERN, TYPE_PATTERN,
    VARIABLE_PATTERN,
};
use crate::scanner::{
    leave_line, lemma_scan_keeps_root, node_opened_by, open_node, opened_node, scanned_after,
    scanned_before,
};
use crate::snippet::{SourceFile, SourceLine, SourceLineView};
use crate::text::{same_text, trim, trimmed};
use vstd::prelude::*;

verus! {

/// An open region, and the region that removes its lines where the marker
/// named one.
#[derive(Debug)]
pub struct ParseState {
    pub start: CodeTag,
    pub end: Option<CodeTag>,
}

/// An open region as the contracts see it.
pub struct ParseStateView {
    pub start: CodeTagView,
    pub end: Option<CodeTagView>,
}

impl View for ParseState {
    type V = ParseStateView;

    open spec fn view(&self) -> ParseStateView {
        ParseStateView { start: self.start@, end: self.end.deep_view() }
    }
}

impl DeepView for ParseState {
    type V = ParseStateView;

    open spec fn deep_view(&self) -> ParseStateView {
        self@
    }
}

/// What a marker line says. Chapter names stand here without the white
/// space around them.
#[derive(Debug)]
#[allow(inconsistent_fields)]
pub enum Marker {
    /// `//> name`, with or without a chapter: a region opens.
    Start { chapter: Option<String>, name: String },
    /// `//< name`, with or without a chapter: the innermost region closes.
    End { chapter: Option<String>, name: String },
    /// `/* Chapter name < Chapter name`: a region opens whose lines the
    /// second region removes.
    Block { chapter: String, name: String, end_chapter: String, end_name: String },
    /// `*/`: the innermost region closes.
    BlockEnd,
}

/// A marker as the contracts see it.
#[allow(inconsistent_fields)]
pub enum MarkerView {
    Start { chapter: Option<Seq<char>>, name: Seq<char> },
    End { chapter: Option<Seq<char>>, name: Seq<char> },
    Block { chapter: Seq<char>, name: Seq<char>, end_chapter: Seq<char>, end_name: Seq<char> },
    BlockEnd,
}

impl View for Marker {
    type V = MarkerView;

    open spec fn view(&self) -> MarkerView {
        match self {
            Marker::Start { chapter, name } => MarkerView::Start {
                chapter: chapter.deep_view(),
                name: name@,
            },
            Marker::End { chapter, name } => MarkerView::End {
                chapter: chapter.deep_view(),
                name: name@,
            },
            Marker::Block { chapter, name, end_chapter, end_name } => MarkerView::Block {
                chapter: chapter@,
                name: name@,
                end_chapter: end_chapter@,
                end_name: end_name@,
            },
            Marker::BlockEnd => MarkerView::BlockEnd,
        }
    }
}

impl DeepView for Marker {
    type V = MarkerView;

    open spec fn deep_view(&self) -> MarkerView {
        self@
    }
}

/// `text` without the white space around it, where there is a text.
pub open spec fn trimmed_option(text: Option<Seq<char>>) -> Option<Seq<char>> {
    match text {
        Some(t) => Some(trimmed(t)),
        None => None,
    }
}

/// The marker that a match of the start pattern holds.
pub open spec fn start_marker(caps: Option<Seq<Option<Seq<char>>>>) -> Option<MarkerView> {
    match caps {
        Some(groups) => match group_text(groups, 2) {
            Some(name) => Some(
                MarkerView::Start { chapter: trimmed_option(group_text(groups, 1)), name },
            ),
            None => None,
        },
        None => None,
    }
}

/// The marker that a match of the end pattern holds.
pub open spec fn end_marker(caps: Option<Seq<Option<Seq<char>>>>) -> Option<MarkerView> {
    match caps {
        Some(groups) => match group_text(groups, 2) {
            Some(name) => Some(
                MarkerView::End { chapter: trimmed_option(group_text(groups, 1)), name },
            ),
            None => None,
        },
        None => None,
    }
}

/// The marker that a match of the block pattern holds.
pub open spec fn block_marker(caps: Option<Seq<Option<Seq<char>>>>) -> Option<MarkerView> {
    match caps {
        Some(groups) => match (
            group_text(groups, 1),
            group_text(groups, 2),
            group_text(groups, 3),
            group_text(groups, 4),
        ) {
            (Some(chapter), Some(name), Some(end_chapter), Some(end_name)) => Some(
                MarkerView::Block {
                    chapter: trimmed(chapter),
                    name,
                    end_chapter: trimmed(end_chapter),
                    end_name,
                },
            ),
            _ => None,
        },
        None => None,
    }
}

/// The marker that stands on a line, given what the three marker patterns
/// capture on it: the start pattern comes first, then the end pattern, then
/// the block pattern, then the line `*/`. Any other line is no marker.
pub open spec fn marker_from(
    start: Option<Seq<Option<Seq<char>>>>,
    end: Option<Seq<Option<Seq<char>>>>,
    block: Option<Seq<Option<Seq<char>>>>,
    line: Seq<char>,
) -> Option<MarkerView> {
    if start_marker(start) is Some {
        start_marker(start)
    } else if end_marker(end) is Some {
        end_marker(end)
    } else if block_marker(block) is Some {
        block_marker(block)
    } else if line == "*/"@ {
        Some(MarkerView::BlockEnd)
    } else {
        None
    }
}

/// The marker that stands on `line`, if the line is one.
pub open spec fn marker_of(line: Seq<char>) -> Option<MarkerView> {
    marker_from(
        regex_captures(START_PATTERN@, line),
        regex_captures(END_PATTERN@, line),
        regex_captures(BLOCK_PATTERN@, line),
        line,
    )
}

/// The name of the chapter at position `chapter`.
pub open spec fn chapter_name_at(book: Seq<ChapterView>, chapter: nat) -> Option<Seq<char>> {
    if chapter < book.len() {
        Some(book[chapter as int].name)
    } else {
        None
    }
}

/// The stack after a region was opened. A marker without a chapter means
/// the chapter of the innermost open region, so it needs one; the chapter's
/// name counts without the white space around it. The region, and the one
/// that removes its lines, must be in the catalog.
pub open spec fn pushed(
    book: Seq<ChapterView>,
    states: Seq<ParseStateView>,
    chapter: Option<Seq<char>>,
    name: Seq<char>,
    end: Option<(Seq<char>, Seq<char>)>,
) -> Result<Seq<ParseStateView>, TagError> {
    let named: Result<Seq<char>, TagError> = match chapter {
        Some(c) => Ok(c),
        None => if states.len() == 0 {
            Err(TagError::EmptyStack)
        } else {
            match chapter_name_at(book, states.last().start.chapter) {
                Some(c) => Ok(c),
                None => Err(TagError::UnknownTag),
            }
        },
    };
    match named {
        Err(e) => Err(e),
        Ok(c) => match resolve_tag(book, trimmed(c), name) {
            None => Err(TagError::UnknownTag),
            Some(start) => match end {
                None => Ok(states.push(ParseStateView { start, end: None })),
                Some((end_chapter, end_name)) => match resolve_tag(book, end_chapter, end_name) {
                    None => Err(TagError::UnknownTag),
                    Some(e) => Ok(states.push(ParseStateView { start, end: Some(e) })),
                },
            },
        },
    }
}

/// The stack after its innermost region was closed.
pub open spec fn dropped(states: Seq<ParseStateView>) -> Result<Seq<ParseStateView>, TagError> {
    if states.len() == 0 {
        Err(TagError::EmptyStack)
    } else {
        Ok(states.drop_last())
    }
}

/// The stack after an end marker. The marker must name the innermost open
/// region. Where it names a chapter too, that must be the region's chapter,
/// unless the region belongs to the chapter `$static$`.
pub open spec fn ended(
    book: Seq<ChapterView>,
    states: Seq<ParseStateView>,
    chapter: Option<Seq<char>>,
    name: Seq<char>,
) -> Result<Seq<ParseStateView>, TagError> {
    if states.len() == 0 {
        Err(TagError::EmptyStack)
    } else {
        let open = states.last().start;
        let home = chapter_name_at(book, open.chapter);
        if chapter is Some && home != Some(STATIC_CHAPTER@) && home != chapter {
            Err(TagError::ChapterMismatch)
        } else if open.name != name {
            Err(TagError::MismatchedEnd)
        } else {
            Ok(states.drop_last())
        }
    }
}

/// The stack after a marker.
pub open spec fn marked(book: Seq<ChapterView>, states: Seq<ParseStateView>, marker: MarkerView) -> Result<
    Seq<ParseStateView>,
    TagError,
> {
    match marker {
        MarkerView::Start { chapter, name } => pushed(book, states, chapter, name, None),
        MarkerView::End { chapter, name } => ended(book, states, chapter, name),
        MarkerView::Block { chapter, name, end_chapter, end_name } => pushed(
            book,
            states,
            Some(chapter),
            name,
            Some((end_chapter, end_name)),
        ),
        MarkerView::BlockEnd => dropped(states),
    }
}

/// The marker that a match of the start pattern holds.
pub fn start_marker_of(caps: &Option<Groups>) -> (marker: Option<Marker>)
    ensures
        marker.deep_view() == start_marker(caps.deep_view()),
{
    match caps {
        Some(groups) => match group(groups, 2) {
            Some(name) => {
                let chapter = match group(groups, 1) {
                    Some(c) => Some(trim(c.as_str())),
                    None => None,
                };
                Some(Marker::Start { chapter, name: name.clone() })
            },
            None => None,
        },
        None => None,
    }
}

/// The marker that a match of the end pattern holds.
pub fn end_marker_of(caps: &Option<Groups>) -> (marker: Option<Marker>)
    ensures
        marker.deep_view() == end_marker(caps.deep_view()),
{
    match caps {
        Some(groups) => match group(groups, 2) {
            Some(name) => {
                let chapter = match group(groups, 1) {
                    Some(c) => Some(trim(c.as_str())),
                    None => None,
                };
                Some(Marker::End { chapter, name: name.clone() })
            },
            None => None,
        },
        None => None,
    }
}

/// The marker that a match of the block pattern holds.
pub fn block_marker_of(caps: &Option<Groups>) -> (marker: Option<Marker>)
    ensures
        marker.deep_view() == block_marker(caps.deep_view()),
{
    match caps {
        Some(groups) => match (group(groups, 1), group(groups, 2), group(groups, 3), group(groups, 4)) {
            (Some(chapter), Some(name), Some(end_chapter), Some(end_name)) => Some(
                Marker::Block {
                    chapter: trim(chapter.as_str()),
                    name: name.clone(),
                    end_chapter: trim(end_chapter.as_str()),
                    end_name: end_name.clone(),
                },
            ),
            _ => None,
        },
        None => None,
    }
}

/// The marker that stands on `line`, given what the three marker patterns
/// capture on it.
pub fn marker_from_captures(
    start: &Option<Groups>,
    end: &Option<Groups>,
    block: &Option<Groups>,
    line: &str,
) -> (marker: Option<Marker>)
    ensures
        marker.deep_view() == marker_from(
            start.deep_view(),
            end.deep_view(),
            block.deep_view(),
            line@,
        ),
{
    let started = start_marker_of(start);
    if started.is_some() {
        return started;
    }
    let ended = end_marker_of(end);
    if ended.is_some() {
        return ended;
    }
    let blocked = block_marker_of(block);
    if blocked.is_some() {
        return blocked;
    }
    if same_text(line, "*/") {
        Some(Marker::BlockEnd)
    } else {
        None
    }
}

/// The marker that stands on `line`, if the line is one.
pub fn read_marker(line: &str) -> (marker: Option<Marker>)
    ensures
        marker.deep_view() == marker_of(line@),
{
    let start = captures(START_PATTERN, line);
    let end = captures(END_PATTERN, line);
    let block = captures(BLOCK_PATTERN, line);
    marker_from_captures(&start, &end, &block, line)
}

/// Follows one source file at a time.
#[derive(Debug)]
pub struct SourceFileParser<'a> {
    pub code_book: &'a CodeBook,
    /// The open regions, the innermost last.
    pub states: Vec<ParseState>,
    /// The cursor of the structural scanner.
    pub location: Location,
}

/// A parser as the contracts see it: its catalog, its stack and its
/// cursor.
pub struct ParserView {
    pub book: Seq<ChapterView>,
    pub states: Seq<ParseStateView>,
    pub location: Seq<LocationNodeView>,
}

impl<'a> View for SourceFileParser<'a> {
    type V = ParserView;

    open spec fn view(&self) -> ParserView {
        ParserView {
            book: self.code_book@,
            states: self.states.deep_view(),
            location: self.location@,
        }
    }
}

/// The line as it is stamped while `open` is the innermost open region
/// and the cursor stands at `location`.
pub open spec fn stamped(
    line: Seq<char>,
    location: Seq<LocationNodeView>,
    open: ParseStateView,
) -> SourceLineView {
    SourceLineView { content: line, location, start: open.start, end: open.end }
}

/// How far the scan of a file has come: the open regions, the cursor, the
/// lines stamped so far, and what went wrong, after which nothing changes
/// any more.
pub struct ScanView {
    pub states: Seq<ParseStateView>,
    pub location: Seq<LocationNodeView>,
    pub lines: Seq<SourceLineView>,
    pub failure: Option<TagError>,
}

/// The scan after one more line. The cursor moves in before the line is
/// looked at and out after it. A marker changes the stack; any other line is
/// stamped, for which a region must be open.
pub open spec fn scan_line(
    book: Seq<ChapterView>,
    scan: ScanView,
    line: Seq<char>,
    next_line: Option<Seq<char>>,
) -> ScanView {
    if scan.failure is Some {
        scan
    } else {
        let here = scanned_before(scan.location, line, next_line);
        match marker_of(line) {
            Some(marker) => match marked(book, scan.states, marker) {
                Ok(states) => ScanView { states, location: scanned_after(here, line), ..scan },
                Err(e) => ScanView { location: here, failure: Some(e), ..scan },
            },
            None => if scan.states.len() == 0 {
                ScanView { location: here, failure: Some(TagError::EmptyStack), ..scan }
            } else {
                ScanView {
                    location: scanned_after(here, line),
                    lines: scan.lines.push(stamped(line, here, scan.states.last())),
                    ..scan
                }
            },
        }
    }
}

/// The chain of a file's own location.
pub open spec fn file_chain(path: Seq<char>) -> Seq<LocationNodeView> {
    seq![
        (LocationNodeView { kind: LocationKind::File, name: path, is_function_declaration: false }),
    ]
}

/// The line after the first `count` lines, if there is one.
pub open spec fn line_after(lines: Seq<Seq<char>>, count: int) -> Option<Seq<char>> {
    if 0 <= count < lines.len() {
        Some(lines[count])
    } else {
        None
    }
}

/// The scan of the file `path` after its first `count` lines.
pub open spec fn scan_prefix(
    book: Seq<ChapterView>,
    path: Seq<char>,
    lines: Seq<Seq<char>>,
    count: nat,
) -> ScanView
    decreases count,
{
    if count == 0 {
        ScanView {
            states: Seq::empty(),
            location: file_chain(path),
            lines: Seq::empty(),
            failure: None,
        }
    } else {
        scan_line(
            book,
            scan_prefix(book, path, lines, (count - 1) as nat),
            lines[count - 1],
            line_after(lines, count as int),
        )
    }
}

/// The scan of the whole file `path`.
pub open spec fn scan_file(book: Seq<ChapterView>, path: Seq<char>, lines: Seq<Seq<char>>) -> ScanView {
    scan_prefix(book, path, lines, lines.len())
}

/// Once a line has failed, the lines after it change nothing.
pub proof fn lemma_failure_stays(
    book: Seq<ChapterView>,
    path: Seq<char>,
    lines: Seq<Seq<char>>,
    failed: nat,
    count: nat,
)
    requires
        failed <= count,
        scan_prefix(book, path, lines, failed).failure is Some,
    ensures
        scan_prefix(book, path, lines, count) == scan_prefix(book, path, lines, failed),
    decreases count,
{
    if failed < count {
        lemma_failure_stays(book, path, lines, failed, (count - 1) as nat);
    }
}

impl<'a> SourceFileParser<'a> {
    /// A parser that has not seen a file yet: no region is open, and the
    /// cursor is nowhere.
    pub fn new(code_book: &'a CodeBook) -> (parser: SourceFileParser<'a>)
        ensures
            parser@ == (ParserView {
                book: code_book@,
                states: Seq::empty(),
                location: Seq::empty(),
            }),
    {
        let parser = SourceFileParser {
            code_book,
            states: Vec::new(),
            location: Location { nodes: Vec::new() },
        };
        assert(parser@.states =~= Seq::empty());
        assert(parser@.location =~= Seq::empty());
        parser
    }

    /// Moves the cursor into the declaration that `line` opens, if it opens
    /// one.
    pub fn update_location_before(&mut self, line: &String, next_line: Option<&String>)
        ensures
            final(self)@ == (ParserView {
                location: scanned_before(old(self)@.location, line@, next_line.deep_view()),
                ..old(self)@
            }),
            rooted(old(self)@.location) ==> rooted(final(self)@.location),
    {
        let next = match next_line {
            Some(n) => Some(n.as_str()),
            None => None,
        };
        proof {
            if rooted(self@.location) {
                lemma_scan_keeps_root(self@.location, line@, next_line.deep_view());
            }
        }
        self.enter(open_node(line.as_str(), next));
    }

    /// Moves the cursor into `node`, if there is one.
    pub fn enter(&mut self, node: Option<LocationNode>)
        ensures
            final(self)@ == (ParserView {
                location: match node.deep_view() {
                    Some(inner) => old(self)@.location.push(inner),
                    None => old(self)@.location,
                },
                ..old(self)@
            }),
    {
        match node {
            Some(node) => {
                self.location = self.location.child(node);
            },
            None => {},
        }
    }

    /// Moves the cursor out of what `line` closes.
    pub fn update_location_after(&mut self, line: &String)
        ensures
            final(self)@ == (ParserView {
                location: scanned_after(old(self)@.location, line@),
                ..old(self)@
            }),
            rooted(old(self)@.location) ==> rooted(final(self)@.location),
    {
        proof {
            if rooted(self@.location) {
                lemma_scan_keeps_root(self@.location, line@, None);
            }
        }
        self.location = leave_line(&self.location, line.as_str());
    }

    /// Closes the innermost open region.
    pub fn pop(&mut self) -> (done: Result<(), TagError>)
        ensures
            match done {
                Ok(_) => dropped(old(self)@.states) == Ok::<Seq<ParseStateView>, TagError>(
                    final(self)@.states,
                ),
                Err(e) => dropped(old(self)@.states) == Err::<Seq<ParseStateView>, TagError>(e)
                    && final(self)@.states == old(self)@.states,
            },
            final(self)@.book == old(self)@.book,
            final(self)@.location == old(self)@.location,
    {
        match self.states.pop() {
            Some(_) => {
                assert(self@.states =~= old(self)@.states.drop_last());
                Ok(())
            },
            None => Err(TagError::EmptyStack),
        }
    }

    /// Opens the region `start_name` of the chapter `start_chapter_name`,
    /// or of the chapter of the innermost open region where no chapter is
    /// given. `end` names the chapter and the region that removes the lines of
    /// the new one.
    pub fn push(
        &mut self,
        start_chapter_name: Option<&str>,
        start_name: &str,
        end: Option<(&str, &str)>,
    ) -> (done: Result<(), TagError>)
        ensures
            match done {
                Ok(_) => pushed(
                    old(self)@.book,
                    old(self)@.states,
                    start_chapter_name.deep_view(),
                    start_name@,
                    end.deep_view(),
                ) == Ok::<Seq<ParseStateView>, TagError>(final(self)@.states),
                Err(e) => pushed(
                    old(self)@.book,
                    old(self)@.states,
                    start_chapter_name.deep_view(),
                    start_name@,
                    end.deep_view(),
                ) == Err::<Seq<ParseStateView>, TagError>(e) && final(self)@.states == old(
                    self,
                )@.states,
            },
            final(self)@.book == old(self)@.book,
            final(self)@.location == old(self)@.location,
    {
        let book = self.code_book;
        let chapter: String = match start_chapter_name {
            Some(c) => trim(c),
            None => {
                let n = self.states.len();
                if n == 0 {
                    return Err(TagError::EmptyStack);
                }
                let at = self.states[n - 1].start.chapter;
                assert(self@.states.last().start.chapter == at);
                if at >= book.chapters.len() {
                    return Err(TagError::UnknownTag);
                }
                assert(book@[at as int].name == book.chapters[at as int].name@);
                trim(book.chapters[at].name.as_str())
            },
        };
        let start = match book.find_code_tag(chapter.as_str(), start_name) {
            Some(tag) => tag.clone(),
            None => {
                return Err(TagError::UnknownTag);
            },
        };
        let finish = match end {
            Some((end_chapter, end_name)) => match book.find_code_tag(end_chapter, end_name) {
                Some(tag) => Some(tag.clone()),
                None => {
                    return Err(TagError::UnknownTag);
                },
            },
            None => None,
        };
        let state = ParseState { start, end: finish };
        self.states.push(state);
        assert(self@.states =~= old(self)@.states.push(state@));
        Ok(())
    }

    /// Closes the innermost open region on an end marker that names it.
    pub fn end(&mut self, chapter: Option<&str>, name: &str) -> (done: Result<(), TagError>)
        ensures
            match done {
                Ok(_) => ended(old(self)@.book, old(self)@.states, chapter.deep_view(), name@)
                    == Ok::<Seq<ParseStateView>, TagError>(final(self)@.states),
                Err(e) => ended(old(self)@.book, old(self)@.states, chapter.deep_view(), name@)
                    == Err::<Seq<ParseStateView>, TagError>(e) && final(self)@.states == old(
                    self,
                )@.states,
            },
            final(self)@.book == old(self)@.book,
            final(self)@.location == old(self)@.location,
    {
        let book = self.code_book;
        let n = self.states.len();
        if n == 0 {
            return Err(TagError::EmptyStack);
        }
        let open = &self.states[n - 1].start;
        assert(self@.states.last().start == open@);
        if let Some(given) = chapter {
            if open.chapter >= book.chapters.len() {
                return Err(TagError::ChapterMismatch);
            }
            let home = book.chapters[open.chapter].name.as_str();
            assert(book@[open.chapter as int].name == home@);
            if !same_text(home, STATIC_CHAPTER) && !same_text(home, given) {
                return Err(TagError::ChapterMismatch);
            }
        }
        if !same_text(open.name.as_str(), name) {
            return Err(TagError::MismatchedEnd);
        }
        self.states.pop();
        assert(self@.states =~= old(self)@.states.drop_last());
        Ok(())
    }

    /// Does to the stack what `marker` says.
    pub fn apply_marker(&mut self, marker: &Marker) -> (done: Result<(), TagError>)
        ensures
            match done {
                Ok(_) => marked(old(self)@.book, old(self)@.states, marker@) == Ok::<
                    Seq<ParseStateView>,
                    TagError,
                >(final(self)@.states),
                Err(e) => marked(old(self)@.book, old(self)@.states, marker@) == Err::<
                    Seq<ParseStateView>,
                    TagError,
                >(e) && final(self)@.states == old(self)@.states,
            },
            final(self)@.book == old(self)@.book,
            final(self)@.location == old(self)@.location,
    {
        match marker {
            Marker::Start { chapter, name } => {
                let given = match chapter {
                    Some(c) => Some(c.as_str()),
                    None => None,
                };
                self.push(given, name.as_str(), None)
            },
            Marker::End { chapter, name } => {
                let given = match chapter {
                    Some(c) => Some(c.as_str()),
                    None => None,
                };
                self.end(given, name.as_str())
            },
            Marker::Block { chapter, name, end_chapter, end_name } => self.push(
                Some(chapter.as_str()),
                name.as_str(),
                Some((end_chapter.as_str(), end_name.as_str())),
            ),
            Marker::BlockEnd => self.pop(),
        }
    }

    /// Follows what stands on a line: a marker, or none. Says whether it
    /// was a marker. A marker that cannot be followed leaves the stack as it
    /// was.
    pub fn follow(&mut self, marker: &Option<Marker>) -> (was_marker: Result<bool, TagError>)
        ensures
            match marker.deep_view() {
                Some(marker) => match marked(old(self)@.book, old(self)@.states, marker) {
                    Ok(states) => was_marker == Ok::<bool, TagError>(true) && final(self)@.states
                        == states,
                    Err(e) => was_marker == Err::<bool, TagError>(e) && final(self)@.states == old(
                        self,
                    )@.states,
                },
                None => was_marker == Ok::<bool, TagError>(false) && final(self)@.states == old(
                    self,
                )@.states,
            },
            final(self)@.book == old(self)@.book,
            final(self)@.location == old(self)@.location,
    {
        match marker {
            Some(marker) => match self.apply_marker(marker) {
                Ok(_) => Ok(true),
                Err(e) => Err(e),
            },
            None => Ok(false),
        }
    }

    /// Follows `line` if it is a marker, and says whether it was one. A
    /// marker that cannot be followed leaves the stack as it was.
    pub fn update_state(&mut self, line: &str) -> (was_marker: Result<bool, TagError>)
        ensures
            match marker_of(line@) {
                Some(marker) => match marked(old(self)@.book, old(self)@.states, marker) {
                    Ok(states) => was_marker == Ok::<bool, TagError>(true) && final(self)@.states
                        == states,
                    Err(e) => was_marker == Err::<bool, TagError>(e) && final(self)@.states == old(
                        self,
                    )@.states,
                },
                None => was_marker == Ok::<bool, TagError>(false) && final(self)@.states == old(
                    self,
                )@.states,
            },
            final(self)@.book == old(self)@.book,
            final(self)@.location == old(self)@.location,
    {
        let marker = read_marker(line);
        self.follow(&marker)
    }

    /// Scans the lines of the file `path` and hands back those that are no
    /// markers, each with its location and with the innermost region that is
    /// open on it. The first line that cannot be followed ends the scan.
    pub fn parse_source_file(&mut self, path: &str, lines: &Vec<String>) -> (file: Result<
        SourceFile,
        TagError,
    >)
        ensures
            final(self)@.book == old(self)@.book,
            final(self)@.states == scan_file(old(self)@.book, path@, lines.deep_view()).states,
            final(self)@.location == scan_file(old(self)@.book, path@, lines.deep_view()).location,
            match file {
                Ok(f) => {
                    &&& scan_file(old(self)@.book, path@, lines.deep_view()).failure is None
                    &&& f@ == scan_file(old(self)@.book, path@, lines.deep_view()).lines
                },
                Err(e) => scan_file(old(self)@.book, path@, lines.deep_view()).failure == Some(e),
            },
    {
        let ghost book = self@.book;
        let ghost texts = lines.deep_view();
        self.location = Location::file(path.to_owned());
        self.states.clear();
        let functions = captures_each(FUNCTION_PATTERN, lines);
        let constructors = captures_each(CONSTRUCTOR_PATTERN, lines);
        let types = captures_each(TYPE_PATTERN, lines);
        let variables = captures_each(VARIABLE_PATTERN, lines);
        let starts = captures_each(START_PATTERN, lines);
        let ends = captures_each(END_PATTERN, lines);
        let blocks = captures_each(BLOCK_PATTERN, lines);
        let mut stamped_lines: Vec<SourceLine> = Vec::new();
        let mut i: usize = 0;
        proof {
            assert(self@.states =~= Seq::empty());
            assert(stamped_lines.deep_view() =~= Seq::empty());
        }
        while i < lines.len()
            invariant
                i <= lines.len(),
                texts == lines.deep_view(),
                book == old(self)@.book,
                self@.book == book,
                scan_prefix(book, path@, texts, i as nat) == (ScanView {
                    states: self@.states,
                    location: self@.location,
                    lines: stamped_lines.deep_view(),
                    failure: None,
                }),
                functions.len() == lines.len(),
                constructors.len() == lines.len(),
                types.len() == lines.len(),
                variables.len() == lines.len(),
                starts.len() == lines.len(),
                ends.len() == lines.len(),
                blocks.len() == lines.len(),
                forall|k: int|
                    0 <= k < lines.len() ==> (#[trigger] functions[k]).deep_view()
                        == regex_captures(FUNCTION_PATTERN@, lines[k]@),
                forall|k: int|
                    0 <= k < lines.len() ==> (#[trigger] constructors[k]).deep_view()
                        == regex_captures(CONSTRUCTOR_PATTERN@, lines[k]@),
                forall|k: int|
                    0 <= k < lines.len() ==> (#[trigger] types[k]).deep_view() == regex_captures(
                        TYPE_PATTERN@,
                        lines[k]@,
                    ),
                forall|k: int|
                    0 <= k < lines.len() ==> (#[trigger] variables[k]).deep_view()
                        == regex_captures(VARIABLE_PATTERN@, lines[k]@),
                forall|k: int|
                    0 <= k < lines.len() ==> (#[trigger] starts[k]).deep_view() == regex_captures(
                        START_PATTERN@,
                        lines[k]@,
                    ),
                forall|k: int|
                    0 <= k < lines.len() ==> (#[trigger] ends[k]).deep_view() == regex_captures(
                        END_PATTERN@,
                        lines[k]@,
                    ),
                forall|k: int|
                    0 <= k < lines.len() ==> (#[trigger] blocks[k]).deep_view() == regex_captures(
                        BLOCK_PATTERN@,
                        lines[k]@,
                    ),
            decreases lines.len() - i,
        {
            let line = &lines[i];
            let next_line = if i + 1 < lines.len() {
                Some(lines[i + 1].as_str())
            } else {
                None
            };
            let ghost before = scan_prefix(book, path@, texts, i as nat);
            proof {
                assert(texts[i as int] == line@);
                assert(next_line.deep_view() == line_after(texts, i + 1));
            }
            let node = node_opened_by(
                &functions[i],
                &constructors[i],
                &types[i],
                &variables[i],
                line.as_str(),
                next_line,
            );
            assert(node.deep_view() == opened_node(line@, next_line.deep_view()));
            self.enter(node);
            let marker = marker_from_captures(&starts[i], &ends[i], &blocks[i], line.as_str());
            assert(marker.deep_view() == marker_of(line@));
            match self.follow(&marker) {
                Ok(true) => {},
                Ok(false) => {
                    let n = self.states.len();
                    if n == 0 {
                        proof {
                            let after = scan_prefix(book, path@, texts, (i + 1) as nat);
                            assert(after == scan_line(
                                book,
                                before,
                                texts[i as int],
                                line_after(texts, i + 1),
                            ));
                            assert(after.failure == Some(TagError::EmptyStack));
                            lemma_failure_stays(book, path@, texts, (i + 1) as nat, texts.len());
                        }
                        return Err(TagError::EmptyStack);
                    }
                    let open = &self.states[n - 1];
                    let stamp = SourceLine {
                        content: line.clone(),
                        location: self.location.clone(),
                        start: open.start.clone(),
                        end: match &open.end {
                            Some(end) => Some(end.clone()),
                            None => None,
                        },
                    };
                    let ghost had = stamped_lines.deep_view();
                    stamped_lines.push(stamp);
                    proof {
                        assert(self@.states.last() == open@);
                        assert(stamped_lines.deep_view() =~= had.push(stamp@));
                    }
                },
                Err(e) => {
                    proof {
                        let after = scan_prefix(book, path@, texts, (i + 1) as nat);
                        assert(after == scan_line(
                            book,
                            before,
                            texts[i as int],
                            line_after(texts, i + 1),
                        ));
                        assert(after.failure == Some(e));
                        lemma_failure_stays(book, path@, texts, (i + 1) as nat, texts.len());
                    }
                    return Err(e);
                },
            }
            self.update_location_after(line);
            i += 1;
        }
        Ok(SourceFile { lines: stamped_lines })
    }
}

} // verus!
