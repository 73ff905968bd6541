//! The attribute matcher of `gix_attributes`, and what is claimed of it.

use vstd::prelude::*;

use crate::gitattributes::AttrState;
use crate::gitattributes::State;
use crate::path_model;
use crate::platform::Platform;
use crate::repo_path_fs;

verus! {

/// One list of attribute lines given to a search: its bytes, the path of the
/// file that it comes from, whether the lines apply below that file's directory
/// only, and whether it may define macros.
pub type AttrSource = (Seq<u8>, Seq<char>, bool, bool);

/// `gix_attributes::Search` holds lists of attribute lines.
#[verifier::external_type_specification]
#[verifier::external_body]
pub struct ExSearch(gix_attributes::Search);

/// `gix_attributes::search::MetadataCollection` numbers the attributes that
/// some lists of attribute lines mention.
#[verifier::external_type_specification]
#[verifier::external_body]
pub struct ExMetadataCollection(gix_attributes::search::MetadataCollection);

/// `gix_attributes::search::Outcome` holds what was found for some attributes.
#[verifier::external_type_specification]
#[verifier::external_body]
pub struct ExOutcome(gix_attributes::search::Outcome);

/// The lists that a search was given, in that order.
pub uninterp spec fn search_sources(search: gix_attributes::Search) -> Seq<AttrSource>;

/// The lists whose attributes were numbered, in that order.
pub uninterp spec fn metadata_sources(
    metadata: gix_attributes::search::MetadataCollection,
) -> Seq<AttrSource>;

/// The names that an outcome is for.
pub uninterp spec fn outcome_names(outcome: gix_attributes::search::Outcome) -> Seq<Seq<char>>;

/// The lists whose attributes the outcome has room for.
pub uninterp spec fn outcome_sources(outcome: gix_attributes::search::Outcome) -> Seq<AttrSource>;

/// The states that an outcome holds for its names.
pub uninterp spec fn outcome_states(outcome: gix_attributes::search::Outcome) -> Seq<AttrState>;

/// The states that lists of attribute lines give to a path, one for each of some
/// names: what `gix_attributes::Search::pattern_matching_relative_path` finds
/// when it minds case.
pub uninterp spec fn matched_states(
    sources: Seq<AttrSource>,
    path: Seq<char>,
    names: Seq<Seq<char>>,
) -> Seq<AttrState>;

/// As many unspecified states.
pub open spec fn all_unspecified(n: nat) -> Seq<AttrState> {
    Seq::new(n, |i: int| AttrState::Unspecified)
}

/// The line that defines the one macro that is always there.
pub open spec fn builtin_text() -> Seq<u8> {
    // [attr]binary -diff -merge -text
    seq![
        91u8, 97u8, 116u8, 116u8, 114u8, 93u8, 98u8, 105u8, 110u8, 97u8, 114u8, 121u8, 32u8, 45u8,
        100u8, 105u8, 102u8, 102u8, 32u8, 45u8, 109u8, 101u8, 114u8, 103u8, 101u8, 32u8, 45u8,
        116u8, 101u8, 120u8, 116u8,
    ]
}

/// The list that holds that line.
pub open spec fn builtin_source() -> AttrSource {
    (builtin_text(), "[builtin]"@, false, true)
}

/// The names in a list of strings.
pub open spec fn name_texts(names: Seq<&str>) -> Seq<Seq<char>> {
    names.map_values(|name: &str| name@)
}

/// Whether a path is that of a file in a directory: it has names, and all of them
/// can be those of directory entries on the platform that this program runs on.
pub open spec fn has_fs_name(path: Seq<char>) -> bool {
    &&& path.len() > 0
    &&& path_model::valid_path(path)
    &&& exists|platform: Platform| #[trigger]
        platform.is_host() && repo_path_fs::first_invalid(platform, path_model::components(path))
            is None
}

/// `gix_attributes::Search::default` has no lists.
#[verifier::external_body]
pub(crate) fn new_search() -> (r: gix_attributes::Search)
    ensures
        search_sources(r) == Seq::<AttrSource>::empty(),
{
    gix_attributes::Search::default()
}

/// `gix_attributes::search::MetadataCollection::default` has numbered nothing.
#[verifier::external_body]
pub(crate) fn new_metadata() -> (r: gix_attributes::search::MetadataCollection)
    ensures
        metadata_sources(r) == Seq::<AttrSource>::empty(),
{
    gix_attributes::search::MetadataCollection::default()
}

/// The clone of a `gix_attributes::Search` has the same lists.
#[verifier::external_body]
pub(crate) fn clone_search(search: &gix_attributes::Search) -> (r: gix_attributes::Search)
    ensures
        search_sources(r) == search_sources(*search),
{
    search.clone()
}

/// The clone of a `gix_attributes::search::MetadataCollection` has numbered the
/// same lists.
#[verifier::external_body]
pub(crate) fn clone_metadata(metadata: &gix_attributes::search::MetadataCollection) -> (r:
    gix_attributes::search::MetadataCollection)
    ensures
        metadata_sources(r) == metadata_sources(*metadata),
{
    metadata.clone()
}

/// `gix_attributes::Search::add_patterns_buffer` appends a list of attribute
/// lines and numbers its attributes. The search keeps these numbers, so the same
/// lists must have been numbered before that the search was given. The root
/// handed to it is the empty path or none at all. With a root it asks for the
/// directory of the source, so that must have one.
#[verifier::external_body]
pub(crate) fn add_patterns_buffer(
    search: &mut gix_attributes::Search,
    bytes: &Vec<u8>,
    source: &str,
    rooted: bool,
    metadata: &mut gix_attributes::search::MetadataCollection,
    allow_macros: bool,
)
    requires
        metadata_sources(*old(metadata)) == search_sources(*old(search)),
        rooted ==> has_fs_name(source@),
    ensures
        search_sources(*final(search)) == search_sources(*old(search)).push(
            (bytes@, source@, rooted, allow_macros),
        ),
        metadata_sources(*final(metadata)) == metadata_sources(*old(metadata)).push(
            (bytes@, source@, rooted, allow_macros),
        ),
{
    let root = rooted.then_some(std::path::Path::new(""));
    search.add_patterns_buffer(bytes, source.into(), root, metadata, allow_macros);
}

/// `gix_attributes::search::Outcome::initialize_with_selection` on a new outcome
/// prepares it for some names. Nothing was found for them yet.
#[verifier::external_body]
pub(crate) fn outcome_for(
    metadata: &gix_attributes::search::MetadataCollection,
    names: &Vec<&str>,
) -> (r: gix_attributes::search::Outcome)
    ensures
        outcome_names(r) == name_texts(names@),
        outcome_sources(r) == metadata_sources(*metadata),
        outcome_states(r) == all_unspecified(names@.len()),
{
    let mut outcome = gix_attributes::search::Outcome::default();
    outcome.initialize_with_selection(metadata, names.iter().copied());
    outcome
}

/// `gix_attributes::Search::pattern_matching_relative_path`, minding case, fills
/// an outcome that is prepared for the lists of the search. No name in the path
/// may be empty: what is left of it below the directory of a list must not start
/// with a slash. The list that is always there defines a macro and has no line
/// that matches a path.
#[verifier::external_body]
pub(crate) fn pattern_matching_relative_path(
    search: &gix_attributes::Search,
    path: &str,
    outcome: &mut gix_attributes::search::Outcome,
)
    requires
        path_model::valid_path(path@),
        outcome_sources(*old(outcome)) == search_sources(*search),
        outcome_states(*old(outcome)) == all_unspecified(outcome_names(*old(outcome)).len()),
    ensures
        outcome_names(*final(outcome)) == outcome_names(*old(outcome)),
        outcome_states(*final(outcome)) == matched_states(
            search_sources(*search),
            path@,
            outcome_names(*old(outcome)),
        ),
        outcome_states(*final(outcome)).len() == outcome_names(*old(outcome)).len(),
        search_sources(*search) == seq![builtin_source()] ==> outcome_states(*final(outcome))
            == all_unspecified(outcome_names(*old(outcome)).len()),
{
    let case = gix_attributes::glob::pattern::Case::Sensitive;
    search.pattern_matching_relative_path(path.into(), case, None, outcome);
}

/// `gix_attributes::search::Outcome::iter_selected` lists the states of an
/// outcome in the order of its names.
#[verifier::external_body]
pub(crate) fn selected_states(outcome: &gix_attributes::search::Outcome) -> (r: Vec<State>)
    ensures
        r@.map_values(|state: State| state@) == outcome_states(*outcome),
{
    outcome
        .iter_selected()
        .map(|found| match found.assignment.state {
            gix_attributes::StateRef::Set => State::SetTrue,
            gix_attributes::StateRef::Unset => State::Unset,
            gix_attributes::StateRef::Value(value) => State::Value(value.as_bstr().to_vec()),
            gix_attributes::StateRef::Unspecified => State::Unspecified,
        })
        .collect()
}

} // verus!
