//! Reading the references to regions out of the chapters' texts, and
//! building the catalog from them.
use crate::catalog::{
    chapter_names, first_tag_named, lemma_first_index, tag_before, tag_names, Chapter, ChapterView,
    CodeBook, CodeTag, CodeTagView, TagError, STATIC_CHAPTER,
};
use crate::pattern::{captures_all, group, group_text, regex_captures_all, Groups, REFERENCE_PATTERN};
use crate::text::{
    chars_of, count_of, has_suffix, parse_count, same_chars, split, split_on, trim_range, trimmed,
};
use vstd::prelude::*;

verus! {

/// What the options of a reference ask for.
#[derive(Clone, Copy, Debug, PartialEq, Eq, Structural)]
pub struct ReferenceOptions {
    pub no_location: bool,
    pub before_count: u32,
    pub after_count: u32,
}

/// The options of a reference that gives none.
pub open spec fn no_options() -> ReferenceOptions {
    ReferenceOptions { no_location: false, before_count: 0, after_count: 0 }
}

/// The count in front of the word `word` at the end of an option.
pub open spec fn count_before(option: Seq<char>, word: Seq<char>) -> Option<u32> {
    count_of(trimmed(option.take(option.len() - word.len())))
}

/// The options after one more option was read. `no location` sets the
/// flag; `N before` and `N after` set the two counts, and fail where `N` is no
/// count; any other option changes nothing.
pub open spec fn with_option(options: ReferenceOptions, option: Seq<char>) -> Result<
    ReferenceOptions,
    TagError,
> {
    if option == "no location"@ {
        Ok(ReferenceOptions { no_location: true, ..options })
    } else if has_suffix(option, " before"@) {
        match count_before(option, " before"@) {
            Some(n) => Ok(ReferenceOptions { before_count: n, ..options }),
            None => Err(TagError::MalformedOption),
        }
    } else if has_suffix(option, " after"@) {
        match count_before(option, " after"@) {
            Some(n) => Ok(ReferenceOptions { after_count: n, ..options }),
            None => Err(TagError::MalformedOption),
        }
    } else {
        Ok(options)
    }
}

/// The options after the first `count` of `pieces` were read, each without
/// the white space around it. The first piece that fails decides.
pub open spec fn options_upto(pieces: Seq<Seq<char>>, count: nat) -> Result<
    ReferenceOptions,
    TagError,
>
    decreases count,
{
    if count == 0 {
        Ok(no_options())
    } else {
        match options_upto(pieces, (count - 1) as nat) {
            Ok(options) => with_option(options, trimmed(pieces[count - 1])),
            Err(e) => Err(e),
        }
    }
}

/// What the option list `text` asks for: its pieces between commas, read
/// from left to right.
pub open spec fn options_of(text: Seq<char>) -> Result<ReferenceOptions, TagError> {
    options_upto(split_on(text, ','), split_on(text, ',').len())
}

/// Reads one option, which stands in `v[from..to]`.
fn read_option(options: ReferenceOptions, v: &Vec<char>, from: usize, to: usize) -> (read: Result<
    ReferenceOptions,
    TagError,
>)
    requires
        from <= to <= v.len(),
    ensures
        read == with_option(options, v@.subrange(from as int, to as int)),
{
    let ghost option = v@.subrange(from as int, to as int);
    let flag = chars_of("no location");
    let before = chars_of(" before");
    let after = chars_of(" after");
    if same_chars(v, from, to, &flag) {
        return Ok(
            ReferenceOptions {
                no_location: true,
                before_count: options.before_count,
                after_count: options.after_count,
            },
        );
    }
    if before.len() <= to - from && same_chars(v, to - before.len(), to, &before) {
        proof {
            assert(option.subrange(option.len() - before.len(), option.len() as int) =~= v@.subrange(
                to - before.len(),
                to as int,
            ));
            assert(option.take(option.len() - before.len()) =~= v@.subrange(
                from as int,
                to - before.len(),
            ));
        }
        let (a, b) = trim_range(v, from, to - before.len());
        return match parse_count(v, a, b) {
            Some(n) => Ok(
                ReferenceOptions {
                    no_location: options.no_location,
                    before_count: n,
                    after_count: options.after_count,
                },
            ),
            None => Err(TagError::MalformedOption),
        };
    }
    proof {
        if before.len() <= to - from {
            assert(option.subrange(option.len() - before.len(), option.len() as int) =~= v@.subrange(
                to - before.len(),
                to as int,
            ));
        }
    }
    if after.len() <= to - from && same_chars(v, to - after.len(), to, &after) {
        proof {
            assert(option.subrange(option.len() - after.len(), option.len() as int) =~= v@.subrange(
                to - after.len(),
                to as int,
            ));
            assert(option.take(option.len() - after.len()) =~= v@.subrange(
                from as int,
                to - after.len(),
            ));
        }
        let (a, b) = trim_range(v, from, to - after.len());
        return match parse_count(v, a, b) {
            Some(n) => Ok(
                ReferenceOptions {
                    no_location: options.no_location,
                    before_count: options.before_count,
                    after_count: n,
                },
            ),
            None => Err(TagError::MalformedOption),
        };
    }
    proof {
        if after.len() <= to - from {
            assert(option.subrange(option.len() - after.len(), option.len() as int) =~= v@.subrange(
                to - after.len(),
                to as int,
            ));
        }
    }
    Ok(options)
}

/// Reads the option list of a reference: what stands between its
/// parentheses.
pub fn parse_options(text: &str) -> (read: Result<ReferenceOptions, TagError>)
    ensures
        read == options_of(text@),
{
    let v = chars_of(text);
    let pieces = split(&v, ',');
    let ghost parts = split_on(v@, ',');
    let mut options = ReferenceOptions { no_location: false, before_count: 0, after_count: 0 };
    let mut i: usize = 0;
    while i < pieces.len()
        invariant
            i <= pieces.len(),
            v@ == text@,
            parts == split_on(v@, ','),
            pieces@.len() == parts.len(),
            forall|k: int|
                0 <= k < pieces@.len() ==> {
                    &&& (#[trigger] pieces@[k]).0 <= pieces@[k].1 <= v.len()
                    &&& v@.subrange(pieces@[k].0 as int, pieces@[k].1 as int) == parts[k]
                },
            options_upto(parts, i as nat) == Ok::<ReferenceOptions, TagError>(options),
        decreases pieces.len() - i,
    {
        let (from, to) = pieces[i];
        let (a, b) = trim_range(&v, from, to);
        match read_option(options, &v, a, b) {
            Ok(read) => {
                options = read;
            },
            Err(e) => {
                proof {
                    lemma_options_failure_stays(parts, (i + 1) as nat, parts.len());
                }
                return Err(e);
            },
        }
        i += 1;
    }
    Ok(options)
}

/// A chapter of the documentation as it comes in: its name and its text.
#[derive(Debug)]
pub struct ChapterText {
    pub name: String,
    pub content: String,
}

/// A chapter that comes in, as the contracts see it.
pub struct ChapterTextView {
    pub name: Seq<char>,
    pub content: Seq<char>,
}

impl View for ChapterText {
    type V = ChapterTextView;

    open spec fn view(&self) -> ChapterTextView {
        ChapterTextView { name: self.name@, content: self.content@ }
    }
}

impl DeepView for ChapterText {
    type V = ChapterTextView;

    open spec fn deep_view(&self) -> ChapterTextView {
        self@
    }
}

/// The region that a match of the reference pattern names, and its option
/// list, which is empty where the reference has none.
pub open spec fn reference_of(groups: Seq<Option<Seq<char>>>) -> Option<(Seq<char>, Seq<char>)> {
    match group_text(groups, 1) {
        Some(name) => Some(
            (
                name,
                match group_text(groups, 2) {
                    Some(options) => options,
                    None => Seq::empty(),
                },
            ),
        ),
        None => None,
    }
}

/// The region that a first reference brings into a chapter.
pub open spec fn new_tag(chapter: nat, name: Seq<char>, index: nat, options: ReferenceOptions) -> CodeTagView {
    CodeTagView {
        chapter,
        name,
        index,
        no_location: options.no_location,
        before_count: options.before_count as nat,
        after_count: options.after_count as nat,
    }
}

/// The position of the chapter `chapter` once it is listed: where the first
/// chapter of that name stands, or behind the last.
pub open spec fn listed_at(book: Seq<ChapterView>, chapter: Seq<char>) -> int {
    match chapter_names(book).index_of_first(chapter) {
        Some(i) => i,
        None => book.len() as int,
    }
}

/// The chapters with `chapter` among them: a chapter that was not listed
/// yet comes last, without regions.
pub open spec fn listed(book: Seq<ChapterView>, chapter: Seq<char>) -> Seq<ChapterView> {
    match chapter_names(book).index_of_first(chapter) {
        Some(_) => book,
        None => book.push(ChapterView { name: chapter, code_tags: Seq::empty() }),
    }
}

/// The chapters after the chapter `chapter` referred to the region `name`.
/// The first reference to a name in a chapter makes the region, which comes
/// behind the chapter's other regions; a later one changes nothing.
pub open spec fn with_reference(
    book: Seq<ChapterView>,
    chapter: Seq<char>,
    name: Seq<char>,
    options: ReferenceOptions,
) -> Seq<ChapterView> {
    let all = listed(book, chapter);
    let at = listed_at(book, chapter);
    let tags = all[at].code_tags;
    if first_tag_named(tags, name) is Some {
        all
    } else {
        all.update(
            at,
            ChapterView {
                name: all[at].name,
                code_tags: tags.push(new_tag(at as nat, name, tags.len(), options)),
            },
        )
    }
}

/// The chapters after the first `count` matches of the reference pattern in
/// the text of the chapter `chapter` were taken in. An option list that
/// cannot be read fails.
pub open spec fn with_matches(
    book: Seq<ChapterView>,
    chapter: Seq<char>,
    matches: Seq<Seq<Option<Seq<char>>>>,
    count: nat,
) -> Result<Seq<ChapterView>, TagError>
    decreases count,
{
    if count == 0 {
        Ok(book)
    } else {
        match with_matches(book, chapter, matches, (count - 1) as nat) {
            Ok(before) => match reference_of(matches[count - 1]) {
                Some((name, options)) => match options_of(options) {
                    Ok(read) => Ok(with_reference(before, chapter, name, read)),
                    Err(e) => Err(e),
                },
                None => Ok(before),
            },
            Err(e) => Err(e),
        }
    }
}

/// The chapters of the catalog after the first `count` chapters of the
/// documentation were read.
pub open spec fn with_chapters(chapters: Seq<ChapterTextView>, count: nat) -> Result<
    Seq<ChapterView>,
    TagError,
>
    decreases count,
{
    if count == 0 {
        Ok(Seq::empty())
    } else {
        match with_chapters(chapters, (count - 1) as nat) {
            Ok(before) => {
                let matches = regex_captures_all(REFERENCE_PATTERN@, chapters[count - 1].content);
                with_matches(before, chapters[count - 1].name, matches, matches.len())
            },
            Err(e) => Err(e),
        }
    }
}

/// The chapter `$static$` as it stands at position `at`: its two regions
/// are there for every chapter.
pub open spec fn static_chapter(at: nat) -> ChapterView {
    ChapterView {
        name: STATIC_CHAPTER@,
        code_tags: seq![
            new_tag(at, "omit"@, 0, no_options()),
            new_tag(at, "not-yet"@, 1, no_options()),
        ],
    }
}

/// The catalog of the given documentation.
pub open spec fn catalog_of(chapters: Seq<ChapterTextView>) -> Result<Seq<ChapterView>, TagError> {
    match with_chapters(chapters, chapters.len()) {
        Ok(book) => Ok(book.push(static_chapter(book.len()))),
        Err(e) => Err(e),
    }
}

/// Whether every region knows its place: it carries the position of its
/// chapter and its own position in the chapter, and no other region of the
/// chapter has its name.
pub open spec fn in_order(book: Seq<ChapterView>) -> bool {
    forall|c: int, i: int|
        0 <= c < book.len() && 0 <= i < book[c].code_tags.len() ==> {
            &&& (#[trigger] book[c].code_tags[i]).chapter == c
            &&& book[c].code_tags[i].index == i
            &&& forall|j: int|
                0 <= j < i ==> (#[trigger] book[c].code_tags[j]).name != book[c].code_tags[i].name
        }
}

/// A catalog as `collect_code_tags` builds it: every region knows its
/// place, and the last chapter is the chapter `$static$`.
pub open spec fn well_formed(book: Seq<ChapterView>) -> bool {
    &&& book.len() > 0
    &&& book.last() == static_chapter((book.len() - 1) as nat)
    &&& in_order(book)
}

/// One more reference leaves every region in its place.
pub proof fn lemma_reference_keeps_order(
    book: Seq<ChapterView>,
    chapter: Seq<char>,
    name: Seq<char>,
    options: ReferenceOptions,
)
    requires
        in_order(book),
    ensures
        in_order(with_reference(book, chapter, name, options)),
{
    let all = listed(book, chapter);
    let at = listed_at(book, chapter);
    let after = with_reference(book, chapter, name, options);
    chapter_names(book).index_of_first_ensures(chapter);
    let tags = all[at].code_tags;
    tag_names(tags).index_of_first_ensures(name);
    assert forall|c: int, i: int|
        0 <= c < after.len() && 0 <= i < after[c].code_tags.len() implies {
        &&& (#[trigger] after[c].code_tags[i]).chapter == c
        &&& after[c].code_tags[i].index == i
        &&& forall|j: int|
            0 <= j < i ==> (#[trigger] after[c].code_tags[j]).name != after[c].code_tags[i].name
    } by {
        if c == at && i == tags.len() {
            assert forall|j: int| 0 <= j < i implies (#[trigger] after[c].code_tags[j]).name
                != after[c].code_tags[i].name by {
                assert(tag_names(tags)[j] == tags[j].name);
            }
        } else if c < book.len() {
            assert(after[c].code_tags[i] == book[c].code_tags[i]);
            assert forall|j: int| 0 <= j < i implies (#[trigger] after[c].code_tags[j]).name
                != after[c].code_tags[i].name by {
                assert(after[c].code_tags[j] == book[c].code_tags[j]);
            }
        }
    }
}

/// The references of a chapter leave every region in its place.
pub proof fn lemma_matches_keep_order(
    book: Seq<ChapterView>,
    chapter: Seq<char>,
    matches: Seq<Seq<Option<Seq<char>>>>,
    count: nat,
)
    requires
        in_order(book),
    ensures
        with_matches(book, chapter, matches, count) matches Ok(after) ==> in_order(after),
    decreases count,
{
    if count > 0 {
        lemma_matches_keep_order(book, chapter, matches, (count - 1) as nat);
        match with_matches(book, chapter, matches, (count - 1) as nat) {
            Ok(before) => match reference_of(matches[count - 1]) {
                Some((name, options)) => match options_of(options) {
                    Ok(read) => {
                        lemma_reference_keeps_order(before, chapter, name, read);
                    },
                    Err(_) => {},
                },
                None => {},
            },
            Err(_) => {},
        }
    }
}

/// The chapters of the documentation put every region in its place.
pub proof fn lemma_chapters_keep_order(chapters: Seq<ChapterTextView>, count: nat)
    ensures
        with_chapters(chapters, count) matches Ok(book) ==> in_order(book),
    decreases count,
{
    if count > 0 {
        lemma_chapters_keep_order(chapters, (count - 1) as nat);
        match with_chapters(chapters, (count - 1) as nat) {
            Ok(before) => {
                let matches = regex_captures_all(REFERENCE_PATTERN@, chapters[count - 1].content);
                lemma_matches_keep_order(before, chapters[count - 1].name, matches, matches.len());
            },
            Err(_) => {},
        }
    }
}

/// Every catalog that can be built is well formed.
pub proof fn lemma_catalog_is_well_formed(chapters: Seq<ChapterTextView>)
    ensures
        catalog_of(chapters) matches Ok(book) ==> well_formed(book),
{
    lemma_chapters_keep_order(chapters, chapters.len());
    match with_chapters(chapters, chapters.len()) {
        Ok(listed) => {
            let book = listed.push(static_chapter(listed.len()));
            reveal_strlit("omit");
            reveal_strlit("not-yet");
            assert("omit"@ != "not-yet"@) by {
                assert("omit"@.len() == 4);
                assert("not-yet"@.len() == 7);
            }
            assert forall|c: int, i: int|
                0 <= c < book.len() && 0 <= i < book[c].code_tags.len() implies {
                &&& (#[trigger] book[c].code_tags[i]).chapter == c
                &&& book[c].code_tags[i].index == i
                &&& forall|j: int|
                    0 <= j < i ==> (#[trigger] book[c].code_tags[j]).name
                        != book[c].code_tags[i].name
            } by {
                if c < listed.len() {
                    assert(book[c] == listed[c]);
                }
            }
        },
        Err(_) => {},
    }
}

/// In a catalog where every region knows its place, two regions at
/// different places are ordered one way or the other, and never both.
pub proof fn lemma_regions_are_totally_ordered(
    book: Seq<ChapterView>,
    c: int,
    i: int,
    d: int,
    j: int,
)
    requires
        in_order(book),
        0 <= c < book.len(),
        0 <= i < book[c].code_tags.len(),
        0 <= d < book.len(),
        0 <= j < book[d].code_tags.len(),
    ensures
        (c != d || i != j) ==> (tag_before(book[c].code_tags[i], book[d].code_tags[j])
            != tag_before(book[d].code_tags[j], book[c].code_tags[i])),
        (c == d && i == j) ==> !tag_before(book[c].code_tags[i], book[d].code_tags[j]),
{
}

/// Where the first chapter called `name` stands.
pub fn chapter_position(chapters: &Vec<Chapter>, name: &str) -> (at: Option<usize>)
    ensures
        match at {
            Some(i) => chapter_names(chapters.deep_view()).index_of_first(name@) == Some(i as int)
                && i < chapters.len(),
            None => chapter_names(chapters.deep_view()).index_of_first(name@) is None,
        },
{
    let wanted = chars_of(name);
    let ghost names = chapter_names(chapters.deep_view());
    let mut i: usize = 0;
    while i < chapters.len()
        invariant
            i <= chapters.len(),
            wanted@ == name@,
            names == chapter_names(chapters.deep_view()),
            forall|j: int| 0 <= j < i ==> names[j] != name@,
        decreases chapters.len() - i,
    {
        let have = chars_of(chapters[i].name.as_str());
        proof {
            assert(have@.subrange(0, have.len() as int) =~= have@);
            assert(names[i as int] == chapters[i as int].name@);
        }
        if same_chars(&have, 0, have.len(), &wanted) {
            proof {
                lemma_first_index(names, name@, i as int);
            }
            return Some(i);
        }
        i += 1;
    }
    proof {
        lemma_first_index(names, name@, i as int);
    }
    None
}

/// Takes in one reference of the chapter `chapter` to the region `name`.
pub fn add_reference(
    chapters: &mut Vec<Chapter>,
    chapter: &str,
    name: &str,
    options: ReferenceOptions,
)
    ensures
        final(chapters).deep_view() == with_reference(
            old(chapters).deep_view(),
            chapter@,
            name@,
            options,
        ),
{
    let ghost book = chapters.deep_view();
    let at = match chapter_position(chapters, chapter) {
        Some(i) => i,
        None => {
            let fresh = Chapter { name: chapter.to_owned(), code_tags: Vec::new() };
            assert(fresh@.code_tags =~= Seq::empty());
            chapters.push(fresh);
            assert(chapters.deep_view() =~= listed(book, chapter@));
            chapters.len() - 1
        },
    };
    assert(chapters.deep_view() == listed(book, chapter@));
    assert(at == listed_at(book, chapter@));
    let ghost all = chapters.deep_view();
    assert(all[at as int] == chapters[at as int]@);
    if chapters[at].find_code_tag(name).is_none() {
        let tag = CodeTag {
            chapter: at,
            name: name.to_owned(),
            index: chapters[at].code_tags.len(),
            no_location: options.no_location,
            before_count: options.before_count,
            after_count: options.after_count,
        };
        let ghost tags = chapters[at as int].code_tags.deep_view();
        chapters[at].code_tags.push(tag);
        proof {
            assert(chapters[at as int].code_tags.deep_view() =~= tags.push(tag@));
            assert(chapters.deep_view() =~= all.update(
                at as int,
                ChapterView { name: all[at as int].name, code_tags: tags.push(tag@) },
            ));
        }
    }
}

/// Takes in the references that the matches of the reference pattern in
/// the text of the chapter `chapter` hold.
pub fn add_references(chapters: Vec<Chapter>, chapter: &str, matches: &Vec<Groups>) -> (read:
    Result<Vec<Chapter>, TagError>)
    ensures
        with_matches(chapters.deep_view(), chapter@, matches.deep_view(), matches.len() as nat)
            == match read {
            Ok(more) => Ok::<Seq<ChapterView>, TagError>(more.deep_view()),
            Err(e) => Err::<Seq<ChapterView>, TagError>(e),
        },
{
    let ghost book = chapters.deep_view();
    let ghost found = matches.deep_view();
    let mut all = chapters;
    let mut i: usize = 0;
    while i < matches.len()
        invariant
            i <= matches.len(),
            found == matches.deep_view(),
            book == chapters.deep_view(),
            with_matches(book, chapter@, found, i as nat) == Ok::<Seq<ChapterView>, TagError>(
                all.deep_view(),
            ),
        decreases matches.len() - i,
    {
        assert(found[i as int] == matches[i as int].deep_view());
        match group(&matches[i], 1) {
            Some(name) => {
                let text: &str = match group(&matches[i], 2) {
                    Some(text) => text.as_str(),
                    None => "",
                };
                proof {
                    reveal_strlit("");
                    assert(""@ =~= Seq::<char>::empty());
                    assert(reference_of(found[i as int]) == Some((name@, text@)));
                }
                match parse_options(text) {
                    Ok(options) => {
                        add_reference(&mut all, chapter, name.as_str(), options);
                    },
                    Err(e) => {
                        proof {
                            assert(with_matches(book, chapter@, found, (i + 1) as nat) == Err::<
                                Seq<ChapterView>,
                                TagError,
                            >(e));
                            lemma_matches_failure_stays(
                                book,
                                chapter@,
                                found,
                                (i + 1) as nat,
                                found.len(),
                            );
                        }
                        return Err(e);
                    },
                }
            },
            None => {},
        }
        i += 1;
    }
    Ok(all)
}

/// Builds the catalog: the regions that each chapter refers to, in the
/// order of their first reference, and behind the chapters of the
/// documentation the chapter `$static$` with the regions `omit` and `not-yet`.
pub fn collect_code_tags(chapters: &Vec<ChapterText>) -> (catalog: Result<CodeBook, TagError>)
    ensures
        catalog_of(chapters.deep_view()) == match catalog {
            Ok(book) => Ok::<Seq<ChapterView>, TagError>(book@),
            Err(e) => Err::<Seq<ChapterView>, TagError>(e),
        },
        catalog matches Ok(book) ==> well_formed(book@),
{
    let ghost texts = chapters.deep_view();
    proof {
        lemma_catalog_is_well_formed(texts);
    }
    let mut book: Vec<Chapter> = Vec::new();
    let mut i: usize = 0;
    proof {
        assert(book.deep_view() =~= Seq::<ChapterView>::empty());
    }
    while i < chapters.len()
        invariant
            i <= chapters.len(),
            texts == chapters.deep_view(),
            with_chapters(texts, i as nat) == Ok::<Seq<ChapterView>, TagError>(book.deep_view()),
        decreases chapters.len() - i,
    {
        let chapter = &chapters[i];
        assert(texts[i as int] == chapter@);
        let matches = captures_all(REFERENCE_PATTERN, chapter.content.as_str());
        match add_references(book, chapter.name.as_str(), &matches) {
            Ok(more) => {
                book = more;
            },
            Err(e) => {
                proof {
                    lemma_chapters_failure_stays(texts, (i + 1) as nat, texts.len());
                }
                return Err(e);
            },
        }
        i += 1;
    }
    let at = book.len();
    let ghost listed = book.deep_view();
    let mut universal: Vec<CodeTag> = Vec::new();
    universal.push(
        CodeTag {
            chapter: at,
            name: "omit".to_owned(),
            index: 0,
            no_location: false,
            before_count: 0,
            after_count: 0,
        },
    );
    universal.push(
        CodeTag {
            chapter: at,
            name: "not-yet".to_owned(),
            index: 1,
            no_location: false,
            before_count: 0,
            after_count: 0,
        },
    );
    let last = Chapter { name: STATIC_CHAPTER.to_owned(), code_tags: universal };
    proof {
        assert(last@.code_tags =~= static_chapter(at as nat).code_tags);
    }
    book.push(last);
    proof {
        assert(book.deep_view() =~= listed.push(static_chapter(at as nat)));
    }
    Ok(CodeBook { chapters: book })
}

/// Once a reference has failed, the references after it change nothing.
pub proof fn lemma_matches_failure_stays(
    book: Seq<ChapterView>,
    chapter: Seq<char>,
    matches: Seq<Seq<Option<Seq<char>>>>,
    failed: nat,
    count: nat,
)
    requires
        failed <= count,
        with_matches(book, chapter, matches, failed) is Err,
    ensures
        with_matches(book, chapter, matches, count) == with_matches(book, chapter, matches, failed),
    decreases count,
{
    if failed < count {
        lemma_matches_failure_stays(book, chapter, matches, failed, (count - 1) as nat);
    }
}

/// Once a chapter has failed, the chapters after it change nothing.
pub proof fn lemma_chapters_failure_stays(chapters: Seq<ChapterTextView>, failed: nat, count: nat)
    requires
        failed <= count,
        with_chapters(chapters, failed) is Err,
    ensures
        with_chapters(chapters, count) == with_chapters(chapters, failed),
    decreases count,
{
    if failed < count {
        lemma_chapters_failure_stays(chapters, failed, (count - 1) as nat);
    }
}

/// Once an option has failed, the options after it change nothing.
pub proof fn lemma_options_failure_stays(pieces: Seq<Seq<char>>, failed: nat, count: nat)
    requires
        failed <= count,
        options_upto(pieces, failed) is Err,
    ensures
        options_upto(pieces, count) == options_upto(pieces, failed),
    decreases count,
{
    if failed < count {
        lemma_options_failure_stays(pieces, failed, (count - 1) as nat);
    }
}

} // verus!
