//! What the language front ends share: the front-end interface and the
//! module name a source path gives.
use vstd::prelude::*;
use crate::ir::Program;
use crate::semantic::SemanticInfo;

verus! {

broadcast use vstd::string::group_string_axioms;

/// A front end lowers the text of one source file to a program.
pub trait LanguageFrontend {
    fn lower(&self, code: &str, semantic_info: &SemanticInfo, file_path: &str) -> Result<Program, String>;
}

/// What `Path::file_stem` gives for a path, when it is valid text.
pub uninterp spec fn path_file_stem(path: Seq<char>) -> Option<Seq<char>>;

/// Trusted: `std::path::Path::file_stem` on `path`, read back as text; the
/// stem depends on the path alone.
#[verifier::external_body]
fn file_stem(path: &str) -> (r: Option<String>)
    ensures
        match r {
            Some(s) => path_file_stem(path@) == Some(s@),
            None => path_file_stem(path@) is None,
        },
{
    std::path::Path::new(path).file_stem().and_then(|s| s.to_str()).map(|s| s.to_string())
}

/// The module name of a source file: its file stem, or `main`.
pub open spec fn module_name_of(path: Seq<char>) -> Seq<char> {
    match path_file_stem(path) {
        Some(s) => s,
        None => "main"@,
    }
}

/// The module name of a source file: its file stem, or `main`.
pub fn module_name(path: &str) -> (r: String)
    ensures
        r@ == module_name_of(path@),
{
    match file_stem(path) {
        Some(s) => s,
        None => String::from_str("main"),
    }
}

} // verus!
