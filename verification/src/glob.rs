//! Glob matching, done by the `globset` crate.

use vstd::prelude::*;

verus! {

#[verifier::external_type_specification]
#[verifier::external_body]
pub struct ExGlob(globset::Glob);

#[verifier::external_type_specification]
#[verifier::external_body]
pub struct ExGlobSetBuilder(globset::GlobSetBuilder);

#[verifier::external_type_specification]
#[verifier::external_body]
pub struct ExGlobSet(globset::GlobSet);

#[verifier::external_type_specification]
#[verifier::external_body]
pub struct ExGlobError(globset::Error);

/// Whether `globset::Glob::new` accepts a pattern.
pub uninterp spec fn glob_accepted(pattern: Seq<char>) -> bool;

/// The pattern a `Glob` was built from (`Glob::glob`).
pub uninterp spec fn glob_pattern(g: globset::Glob) -> Seq<char>;

/// The patterns added to a `GlobSetBuilder`, in order.
pub uninterp spec fn builder_patterns(b: globset::GlobSetBuilder) -> Seq<Seq<char>>;

/// The patterns a `GlobSet` was built from, in order.
pub uninterp spec fn set_patterns(s: globset::GlobSet) -> Seq<Seq<char>>;

/// Whether `GlobSetBuilder::build` succeeds on a builder of these patterns:
/// it compiles them into matchers, which fails past the regex engine's size
/// limits; the outcome depends on the patterns alone.
pub uninterp spec fn set_builds(patterns: Seq<Seq<char>>) -> bool;

/// What `GlobSet::is_match` answers for a set of these patterns and a path.
pub uninterp spec fn glob_set_matches(patterns: Seq<Seq<char>>, path: Seq<char>) -> bool;

/// `globset::Glob::new`: fails exactly on the patterns it does not accept;
/// a glob it returns keeps its pattern, as `Glob::glob` shows.
#[verifier::external_body]
fn glob_new(pattern: &str) -> (r: Result<globset::Glob, globset::Error>)
    ensures
        r is Ok <==> glob_accepted(pattern@),
        r matches Ok(g) ==> glob_pattern(g) == pattern@,
{
    globset::Glob::new(pattern)
}

/// `GlobSetBuilder::new`: a builder with no patterns.
#[verifier::external_body]
fn builder_new() -> (r: globset::GlobSetBuilder)
    ensures
        builder_patterns(r) == Seq::<Seq<char>>::empty(),
{
    globset::GlobSetBuilder::new()
}

/// `GlobSetBuilder::add`: appends the glob.
#[verifier::external_body]
fn builder_add(b: &mut globset::GlobSetBuilder, g: globset::Glob)
    ensures
        builder_patterns(*final(b)) == builder_patterns(*old(b)).push(glob_pattern(g)),
{
    b.add(g);
}

/// `GlobSetBuilder::build`: a set of the builder's patterns, when they
/// compile (`set_builds`).
#[verifier::external_body]
fn builder_build(b: &globset::GlobSetBuilder) -> (r: Result<globset::GlobSet, globset::Error>)
    ensures
        r is Ok <==> set_builds(builder_patterns(*b)),
        r matches Ok(s) ==> set_patterns(s) == builder_patterns(*b),
{
    b.build()
}

/// `GlobSet::is_match` on a path given as a string.
#[verifier::external_body]
pub(crate) fn set_is_match(s: &globset::GlobSet, path: &str) -> (r: bool)
    ensures
        r == glob_set_matches(set_patterns(*s), path@),
{
    s.is_match(path)
}

/// The views of a list of strings.
pub open spec fn strings_view(v: Seq<String>) -> Seq<Seq<char>> {
    v.map_values(|s: String| s@)
}

/// Every pattern is a glob, and together they compile into a set.
pub open spec fn matcher_builds(patterns: Seq<Seq<char>>) -> bool {
    &&& forall|i: int| 0 <= i < patterns.len() ==> glob_accepted(#[trigger] patterns[i])
    &&& set_builds(patterns)
}

/// A glob set of all `patterns`; an error when one of them is not a glob or
/// they do not compile (`matcher_builds`).
pub fn build_matcher(patterns: &Vec<String>) -> (r: Result<globset::GlobSet, globset::Error>)
    ensures
        r is Ok <==> matcher_builds(strings_view(patterns@)),
        r matches Ok(s) ==> set_patterns(s) == strings_view(patterns@),
{
    let mut b = builder_new();
    let mut i: usize = 0;
    while i < patterns.len()
        invariant
            i <= patterns@.len(),
            builder_patterns(b) == strings_view(patterns@).take(i as int),
            forall|j: int| 0 <= j < i ==> glob_accepted(#[trigger] patterns@[j]@),
        decreases patterns@.len() - i,
    {
        let g = match glob_new(patterns[i].as_str()) {
            Ok(g) => g,
            Err(e) => {
                assert(!glob_accepted(strings_view(patterns@)[i as int]));
                return Err(e);
            },
        };
        builder_add(&mut b, g);
        i = i + 1;
        assert(builder_patterns(b) =~= strings_view(patterns@).take(i as int));
    }
    assert(strings_view(patterns@).take(i as int) =~= strings_view(patterns@));
    assert forall|j: int| 0 <= j < patterns@.len() implies glob_accepted(#[trigger] strings_view(patterns@)[j]) by {
        assert(glob_accepted(patterns@[j]@));
    }
    builder_build(&b)
}

} // verus!
