//! Calls into `globset`, each with the contract this library relies on.
use vstd::prelude::*;

verus! {

#[verifier::external_type_specification]
#[verifier::external_body]
pub struct ExGlob(globset::Glob);

#[verifier::external_type_specification]
#[verifier::external_body]
pub struct ExGlobSet(globset::GlobSet);

#[verifier::external_type_specification]
#[verifier::external_body]
pub struct ExGlobSetBuilder(globset::GlobSetBuilder);

#[verifier::external_type_specification]
#[verifier::external_body]
pub struct ExGlobError(globset::Error);

/// Whether `globset::Glob::new` accepts the pattern text.
pub uninterp spec fn glob_accepts(pattern: Seq<char>) -> bool;

/// Whether a glob compiled from `pattern` with default options matches `path`.
pub uninterp spec fn glob_matches(pattern: Seq<char>, path: Seq<char>) -> bool;

/// The pattern text a compiled glob was built from.
pub uninterp spec fn glob_text(g: globset::Glob) -> Seq<char>;

/// The pattern texts added to a builder, in order.
pub uninterp spec fn builder_globs(b: globset::GlobSetBuilder) -> Seq<Seq<char>>;

/// Whether a set of these glob texts compiles.
pub uninterp spec fn set_builds(globs: Seq<Seq<char>>) -> bool;

/// The pattern texts a compiled set holds, in order.
pub uninterp spec fn set_globs(s: globset::GlobSet) -> Seq<Seq<char>>;

/// A character with a meaning in glob syntax.
pub open spec fn is_glob_meta(c: char) -> bool {
    c == '*' || c == '?' || c == '[' || c == ']' || c == '{' || c == '}' || c == '\\' || c == ','
}

/// A non-empty pattern without any glob syntax: it stands for itself.
pub open spec fn is_plain_pattern(p: Seq<char>) -> bool {
    p.len() > 0 && forall|i: int| 0 <= i < p.len() ==> !is_glob_meta(#[trigger] p[i])
}

/// True when some glob of the list matches the path.
pub open spec fn any_glob_matches(globs: Seq<Seq<char>>, path: Seq<char>) -> bool {
    exists|k: int| 0 <= k < globs.len() && glob_matches(#[trigger] globs[k], path)
}

/// Relies on `globset::Glob::new`: it parses the pattern with default options and
/// keeps its text; a pattern without glob syntax always parses.
#[verifier::external_body]
pub(crate) fn compile_glob(pattern: &str) -> (r: Result<globset::Glob, globset::Error>)
    ensures
        r is Ok <==> glob_accepts(pattern@),
        is_plain_pattern(pattern@) ==> r is Ok,
        r is Ok ==> glob_text(r->Ok_0) == pattern@,
{
    globset::Glob::new(pattern)
}

/// Relies on `globset::GlobSetBuilder::new`: a builder holding no glob.
#[verifier::external_body]
pub(crate) fn new_builder() -> (b: globset::GlobSetBuilder)
    ensures
        builder_globs(b) == Seq::<Seq<char>>::empty(),
{
    globset::GlobSetBuilder::new()
}

/// Relies on `globset::GlobSetBuilder::add`: the glob is pushed at the end.
#[verifier::external_body]
pub(crate) fn add_glob(b: &mut globset::GlobSetBuilder, g: globset::Glob)
    ensures
        builder_globs(*final(b)) == builder_globs(*old(b)).push(glob_text(g)),
{
    b.add(g);
}

/// Relies on `globset::GlobSetBuilder::build`: a set of the added globs; whether
/// it compiles depends on the globs alone, and a set of globs without glob syntax
/// (or of none) always compiles.
#[verifier::external_body]
pub(crate) fn build_set(b: &globset::GlobSetBuilder) -> (r: Result<globset::GlobSet, globset::Error>)
    ensures
        r is Ok ==> set_globs(r->Ok_0) == builder_globs(*b),
        r is Ok <==> set_builds(builder_globs(*b)),
        (forall|k: int|
            0 <= k < builder_globs(*b).len() ==> is_plain_pattern(#[trigger] builder_globs(*b)[k]))
            ==> r is Ok,
{
    b.build()
}

/// Relies on `globset::GlobSet::empty`: a set holding no glob.
#[verifier::external_body]
pub(crate) fn empty_set() -> (s: globset::GlobSet)
    ensures
        set_globs(s) == Seq::<Seq<char>>::empty(),
{
    globset::GlobSet::empty()
}

/// Relies on `globset::GlobSet::is_match`: true iff some glob of the set matches
/// the path; a pattern without glob syntax matches the identical path.
#[verifier::external_body]
pub(crate) fn set_is_match(s: &globset::GlobSet, path: &str) -> (r: bool)
    ensures
        r == (exists|k: int|
            0 <= k < set_globs(*s).len() && glob_matches(#[trigger] set_globs(*s)[k], path@)),
        (exists|k: int|
            0 <= k < set_globs(*s).len() && #[trigger] set_globs(*s)[k] == path@
                && is_plain_pattern(path@)) ==> r,
{
    s.is_match(path)
}

} // verus!
