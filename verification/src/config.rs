//! What the preprocessor is told: under which name it goes, for which
//! renderer it works, and where the sources are.
use crate::text::same_text;
use vstd::prelude::*;

verus! {

/// The name under which the preprocessor is set up.
pub const PREPROCESSOR_NAME: &'static str = "codetags";

/// Where the sources are looked for when the setting `src-root` is missing
/// or is no text.
pub const DEFAULT_SRC_ROOT: &'static str = "../src";

/// The extension of the files that are read as sources.
pub const SOURCE_EXTENSION: &'static str = "java";

/// What was found under `src-root`.
#[derive(Debug)]
pub enum SrcRoot {
    /// Nothing.
    Missing,
    /// A text: the path to the sources.
    Text(String),
    /// Something that is no text.
    Other,
}

/// The settings of the preprocessor.
#[derive(Debug)]
pub struct Configuration {
    /// The path to the sources, from the root of the book where it is
    /// relative.
    pub src_root: String,
}

/// The path that the setting stands for.
pub open spec fn src_root_of(setting: SrcRoot) -> Seq<char> {
    match setting {
        SrcRoot::Text(path) => path@,
        _ => DEFAULT_SRC_ROOT@,
    }
}

impl Default for Configuration {
    /// The settings where the preprocessor has no table of its own: the
    /// path to the sources is empty.
    fn default() -> (configuration: Self)
        ensures
            configuration.src_root@ == Seq::<char>::empty(),
    {
        Configuration { src_root: String::new() }
    }
}

impl Configuration {
    /// The settings that the preprocessor's table gives.
    pub fn from_setting(setting: SrcRoot) -> (configuration: Configuration)
        ensures
            configuration.src_root@ == src_root_of(setting),
    {
        match setting {
            SrcRoot::Text(path) => Configuration { src_root: path },
            _ => Configuration { src_root: DEFAULT_SRC_ROOT.to_owned() },
        }
    }
}

/// Whether a file with the extension `extension` is read as a source.
pub fn is_source_extension(extension: &str) -> (is_source: bool)
    ensures
        is_source == (extension@ == SOURCE_EXTENSION@),
{
    same_text(extension, SOURCE_EXTENSION)
}

/// Whether the preprocessor works for the renderer `renderer`: it does for
/// `html` alone.
pub fn supports_renderer(renderer: &str) -> (supported: bool)
    ensures
        supported == (renderer@ == "html"@),
{
    same_text(renderer, "html")
}

} // verus!
