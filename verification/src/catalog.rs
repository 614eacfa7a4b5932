//! The catalog of tagged regions: which chapter refers to which region, in
//! what order, and with how much context.
use vstd::prelude::*;

verus! {

/// The name of the chapter that is always last in a catalog and whose
/// regions every chapter can use.
pub const STATIC_CHAPTER: &'static str = "$static$";

/// What can go wrong while the markers of a source file or the options of a
/// reference are read.
#[derive(Clone, Copy, Debug, PartialEq, Eq, Structural)]
pub enum TagError {
    /// A marker names a region that the catalog does not hold.
    UnknownTag,
    /// An end marker names another region than the innermost open one.
    MismatchedEnd,
    /// An end marker names another chapter than that of the region it closes.
    ChapterMismatch,
    /// A line needs an open region and there is none.
    EmptyStack,
    /// An option of a reference gives a count that is no number.
    MalformedOption,
}

/// A tagged region of the documentation.
#[derive(Debug)]
pub struct CodeTag {
    /// The position of the region's chapter in the catalog.
    pub chapter: usize,
    pub name: String,
    /// The position of the region among those of its chapter.
    pub index: usize,
    pub no_location: bool,
    /// How many lines of context to show before the region.
    pub before_count: u32,
    /// How many lines of context to show after the region.
    pub after_count: u32,
}

/// A region as the contracts see it.
pub struct CodeTagView {
    pub chapter: nat,
    pub name: Seq<char>,
    pub index: nat,
    pub no_location: bool,
    pub before_count: nat,
    pub after_count: nat,
}

impl View for CodeTag {
    type V = CodeTagView;

    open spec fn view(&self) -> CodeTagView {
        CodeTagView {
            chapter: self.chapter as nat,
            name: self.name@,
            index: self.index as nat,
            no_location: self.no_location,
            before_count: self.before_count as nat,
            after_count: self.after_count as nat,
        }
    }
}

impl DeepView for CodeTag {
    type V = CodeTagView;

    open spec fn deep_view(&self) -> CodeTagView {
        self@
    }
}

/// The order of the regions: by chapter, then by position in the chapter.
pub open spec fn tag_before(a: CodeTagView, b: CodeTagView) -> bool {
    a.chapter < b.chapter || (a.chapter == b.chapter && a.index < b.index)
}

impl Clone for CodeTag {
    fn clone(&self) -> (copy: Self)
        ensures
            copy == *self,
    {
        CodeTag {
            chapter: self.chapter,
            name: self.name.clone(),
            index: self.index,
            no_location: self.no_location,
            before_count: self.before_count,
            after_count: self.after_count,
        }
    }
}

impl CodeTag {
    /// Whether this region comes before `other` in the documentation.
    pub fn is_before(&self, other: &CodeTag) -> (before: bool)
        ensures
            before == tag_before(self@, other@),
    {
        if self.chapter != other.chapter {
            return self.chapter < other.chapter;
        }
        self.index < other.index
    }
}

/// The names of the given regions, in order.
pub open spec fn tag_names(tags: Seq<CodeTagView>) -> Seq<Seq<char>> {
    tags.map_values(|t: CodeTagView| t.name)
}

/// The first of `tags` that has the name `name`.
pub open spec fn first_tag_named(tags: Seq<CodeTagView>, name: Seq<char>) -> Option<CodeTagView> {
    match tag_names(tags).index_of_first(name) {
        Some(i) => Some(tags[i]),
        None => None,
    }
}

/// What `index_of_first` finds once the names before position `i` are known
/// to differ from `name`.
pub proof fn lemma_first_index(names: Seq<Seq<char>>, name: Seq<char>, i: int)
    requires
        0 <= i <= names.len(),
        forall|j: int| 0 <= j < i ==> names[j] != name,
    ensures
        i < names.len() && names[i] == name ==> names.index_of_first(name) == Some(i),
        i == names.len() ==> names.index_of_first(name) is None,
{
    names.index_of_first_ensures(name);
    if i < names.len() && names[i] == name {
        assert(names.contains(name));
    }
}

/// A chapter of the documentation with the regions it refers to.
#[derive(Debug)]
pub struct Chapter {
    pub name: String,
    pub code_tags: Vec<CodeTag>,
}

/// A chapter as the contracts see it.
pub struct ChapterView {
    pub name: Seq<char>,
    pub code_tags: Seq<CodeTagView>,
}

impl View for Chapter {
    type V = ChapterView;

    open spec fn view(&self) -> ChapterView {
        ChapterView { name: self.name@, code_tags: self.code_tags.deep_view() }
    }
}

impl DeepView for Chapter {
    type V = ChapterView;

    open spec fn deep_view(&self) -> ChapterView {
        self@
    }
}

impl Chapter {
    /// The first region of this chapter with the given name.
    pub fn find_code_tag(&self, name: &str) -> (found: Option<&CodeTag>)
        ensures
            found.deep_view() == first_tag_named(self@.code_tags, name@),
            found matches Some(tag) ==> exists|i: int|
                0 <= i < self.code_tags.len() && *tag == self.code_tags[i],
    {
        let wanted = crate::text::chars_of(name);
        let ghost names = tag_names(self@.code_tags);
        let mut i: usize = 0;
        while i < self.code_tags.len()
            invariant
                i <= self.code_tags.len(),
                wanted@ == name@,
                names == tag_names(self@.code_tags),
                forall|j: int| 0 <= j < i ==> names[j] != name@,
            decreases self.code_tags.len() - i,
        {
            let tag = &self.code_tags[i];
            let have = crate::text::chars_of(tag.name.as_str());
            proof {
                assert(have@.subrange(0, have.len() as int) =~= have@);
                assert(names[i as int] == tag.name@);
            }
            if crate::text::same_chars(&have, 0, have.len(), &wanted) {
                proof {
                    lemma_first_index(names, name@, i as int);
                }
                return Some(tag);
            }
            i += 1;
        }
        proof {
            lemma_first_index(names, name@, i as int);
        }
        None
    }
}

/// The catalog: the chapters in the order of the documentation, and after
/// them the chapter named `$static$`.
#[derive(Debug)]
pub struct CodeBook {
    pub chapters: Vec<Chapter>,
}

impl View for CodeBook {
    type V = Seq<ChapterView>;

    open spec fn view(&self) -> Seq<ChapterView> {
        self.chapters.deep_view()
    }
}

impl DeepView for CodeBook {
    type V = Seq<ChapterView>;

    open spec fn deep_view(&self) -> Seq<ChapterView> {
        self@
    }
}

/// The names of the given chapters, in order.
pub open spec fn chapter_names(chapters: Seq<ChapterView>) -> Seq<Seq<char>> {
    chapters.map_values(|c: ChapterView| c.name)
}

/// The first of `chapters` that has the name `name`.
pub open spec fn first_chapter_named(chapters: Seq<ChapterView>, name: Seq<char>) -> Option<
    ChapterView,
> {
    match chapter_names(chapters).index_of_first(name) {
        Some(i) => Some(chapters[i]),
        None => None,
    }
}

/// The region that a marker means by `name` when it stands in, or names,
/// the chapter `chapter`: a region of the last chapter if that has one of this
/// name, else the first such region of the first chapter named `chapter`.
pub open spec fn resolve_tag(chapters: Seq<ChapterView>, chapter: Seq<char>, name: Seq<char>) -> Option<
    CodeTagView,
> {
    let universal = if chapters.len() > 0 {
        first_tag_named(chapters.last().code_tags, name)
    } else {
        None
    };
    if universal is Some {
        universal
    } else {
        match first_chapter_named(chapters, chapter) {
            Some(c) => first_tag_named(c.code_tags, name),
            None => None,
        }
    }
}

impl CodeBook {
    /// The first chapter with the given name.
    pub fn find_chapter(&self, name: &str) -> (found: Option<&Chapter>)
        ensures
            found.deep_view() == first_chapter_named(self@, name@),
            found matches Some(chapter) ==> exists|i: int|
                0 <= i < self.chapters.len() && *chapter == self.chapters[i],
    {
        let wanted = crate::text::chars_of(name);
        let ghost names = chapter_names(self@);
        let mut i: usize = 0;
        while i < self.chapters.len()
            invariant
                i <= self.chapters.len(),
                wanted@ == name@,
                names == chapter_names(self@),
                forall|j: int| 0 <= j < i ==> names[j] != name@,
            decreases self.chapters.len() - i,
        {
            let chapter = &self.chapters[i];
            let have = crate::text::chars_of(chapter.name.as_str());
            proof {
                assert(have@.subrange(0, have.len() as int) =~= have@);
                assert(names[i as int] == chapter.name@);
            }
            if crate::text::same_chars(&have, 0, have.len(), &wanted) {
                proof {
                    lemma_first_index(names, name@, i as int);
                }
                return Some(chapter);
            }
            i += 1;
        }
        proof {
            lemma_first_index(names, name@, i as int);
        }
        None
    }

    /// The region called `name` as seen from the chapter called `chapter`.
    /// The regions of the last chapter come first, whatever `chapter` is.
    pub fn find_code_tag<'a>(&'a self, chapter: &str, name: &str) -> (found: Option<&'a CodeTag>)
        ensures
            found.deep_view() == resolve_tag(self@, chapter@, name@),
    {
        let n = self.chapters.len();
        if n > 0 {
            assert(self@.last() == self.chapters[n - 1]@);
            let universal = self.chapters[n - 1].find_code_tag(name);
            if universal.is_some() {
                return universal;
            }
        }
        match self.find_chapter(chapter) {
            Some(c) => c.find_code_tag(name),
            None => None,
        }
    }
}

} // verus!
