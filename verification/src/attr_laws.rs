//! Which attribute lines count for a file.
//!
//! The laws speak of what the functions are called with and of what they return.

use vstd::prelude::*;

use crate::attr_search;
use crate::eol;
use crate::eol::EolGitAttributes;
use crate::gitattributes;
use crate::gitattributes::AttrState;
use crate::gitattributes::AttributeStates;
use crate::gitattributes::FileLoader;
use crate::gitattributes::GitAttributes;
use crate::gitattributes::GitAttributesError;
use crate::gitattributes::GitAttributesNode;
use crate::gitattributes::LoadedFile;
use crate::gitattributes::State;
use crate::path_model;
use crate::repo_path;
use crate::repo_path::RepoPath;

verus! {

/// The lines that always count define the macro `binary`, and nothing else.
pub proof fn lemma_builtin_lines(node: GitAttributesNode, i: int)
    requires
        call_ensures(GitAttributesNode::builtin, (), node),
    ensures
        node@.len() == 1,
        node@[0].0.len() == "[attr]binary -diff -merge -text"@.len(),
        0 <= i < node@[0].0.len() ==> node@[0].0[i] as int
            == "[attr]binary -diff -merge -text"@[i] as int,
        node@[0].3,
{
    reveal_strlit("[attr]binary -diff -merge -text");
}

/// The file of a directory puts its lines behind those that count above it. They count for
/// the files below the directory, and may define macros at the root only. A directory without
/// a file adds nothing, and a file that cannot be read is an error.
pub proof fn lemma_lines_of_directory(
    base: GitAttributesNode,
    dir: RepoPath<'_>,
    file: LoadedFile,
    r: Result<Option<GitAttributesNode>, GitAttributesError>,
)
    requires
        call_ensures(gitattributes::node_for_file, (&base, dir, file), r),
    ensures
        file is Missing ==> r is Ok && r->Ok_0 is None,
        file is Unreadable ==> r is Err,
        file matches LoadedFile::Contents(contents) ==> (r matches Ok(node) ==> {
            &&& node is Some
            &&& node->0@.len() == base@.len() + 1
            &&& node->0@.drop_last() == base@
            &&& node->0@.last().0 == contents@
            &&& node->0@.last().1 == if dir@.len() == 0 {
                ".gitattributes"@
            } else {
                dir@ + "/.gitattributes"@
            }
            &&& node->0@.last().2
            &&& node->0@.last().3 <==> dir@.len() == 0
        }),
{
    reveal_strlit("/.gitattributes");
    reveal_strlit(".gitattributes");
    assert("/.gitattributes"@ =~= seq!['/'] + ".gitattributes"@);
    assert(dir@ + "/.gitattributes"@ =~= dir@ + seq!['/'] + ".gitattributes"@);
    if let LoadedFile::Contents(contents) = file {
        let line = gitattributes::dir_source(dir@, contents@);
        assert(base@.push(line).drop_last() =~= base@);
    }
}

/// The lines that count in a directory are those that count in its parent, and behind them
/// those of its own file, if there is one.
pub proof fn lemma_lines_inherited<L: FileLoader>(
    loaders: Seq<L>,
    dir: Seq<char>,
    name: Seq<char>,
    sources: Seq<attr_search::AttrSource>,
)
    requires
        path_model::valid_path(dir),
        path_model::valid_name(name),
        gitattributes::sources_for(loaders, sources, path_model::joined(dir, name)),
    ensures
        gitattributes::sources_for(loaders, sources, dir) || sources.len() > 0
            && gitattributes::sources_for(loaders, sources.drop_last(), dir) && sources.last().1
            == path_model::joined(dir, name) + "/.gitattributes"@ && !sources.last().3,
{
    repo_path::lemma_split_of_join(dir, name);
    let sub = path_model::joined(dir, name);
    reveal_strlit("/.gitattributes");
    reveal_strlit(".gitattributes");
    assert("/.gitattributes"@ =~= seq!['/'] + ".gitattributes"@);
    assert(sub + "/.gitattributes"@ =~= sub + seq!['/'] + ".gitattributes"@);
    assert(sub.len() > 0);
    assert(dir.len() < sub.len());
}

/// A file is given the states that the lines of its directory give to it: each attribute that
/// was asked for has one, and no other.
pub proof fn lemma_states_found<L: FileLoader>(
    attributes: &mut GitAttributes<L>,
    dir: RepoPath<'_>,
    name: Seq<char>,
    path: RepoPath<'_>,
    names: Vec<&str>,
    r: Result<AttributeStates, GitAttributesError>,
    i: int,
    state: Option<&State>,
    other: &str,
    other_state: Option<&State>,
    or_unspecified: State,
)
    requires
        path_model::valid_path(dir@),
        path_model::valid_name(name),
        path@ == path_model::joined(dir@, name),
        call_ensures(GitAttributes::<L>::search, (attributes, path, &names), r),
        r is Ok,
        0 <= i < names@.len(),
        forall|j: int| i < j < names@.len() ==> (#[trigger] names@[j])@ != names@[i]@,
        call_ensures(AttributeStates::get, (&r->Ok_0, names@[i]), state),
        call_ensures(AttributeStates::get, (&r->Ok_0, other), other_state),
        call_ensures(AttributeStates::state_or_unspecified, (&r->Ok_0, other), or_unspecified),
        forall|j: int| 0 <= j < names@.len() ==> (#[trigger] names@[j])@ != other@,
    ensures
        exists|sources: Seq<attr_search::AttrSource>| #[trigger]
            gitattributes::sources_for(final(attributes).loaders(), sources, dir@) && state is Some
                && state->0@ == attr_search::matched_states(
                sources,
                path@,
                attr_search::name_texts(names@),
            )[i],
        other_state is None,
        or_unspecified@ == AttrState::Unspecified,
        final(attributes).loaders() == old(attributes).loaders(),
{
    repo_path::lemma_split_of_join(dir@, name);
    let sources = final(attributes).cached(dir@)->0;
    let texts = attr_search::name_texts(names@);
    let found = attr_search::matched_states(sources, path@, texts);
    assert(texts[i] == names@[i]@);
    assert forall|j: int| i < j < texts.len() implies #[trigger] texts[j] != texts[i] by {
        assert(texts[j] == names@[j]@);
    }
    lemma_last_state(texts, found, i);
    if texts.contains(other@) {
        let j = choose|j: int| 0 <= j < texts.len() && texts[j] == other@;
        assert(names@[j]@ == other@);
    }
    assert(gitattributes::sources_for(final(attributes).loaders(), sources, dir@));
}

/// Of equal names the last one counts.
proof fn lemma_last_state(names: Seq<Seq<char>>, states: Seq<AttrState>, i: int)
    requires
        names.len() == states.len(),
        0 <= i < names.len(),
        forall|j: int| i < j < names.len() ==> #[trigger] names[j] != names[i],
    ensures
        gitattributes::states_by_name(names, states).contains_key(names[i]),
        gitattributes::states_by_name(names, states)[names[i]] == states[i],
    decreases names.len(),
{
    let n = names.len() - 1;
    if i < n {
        let (a, b) = (names.drop_last(), states.drop_last());
        assert forall|j: int| i < j < a.len() implies #[trigger] a[j] != a[i] by {
            assert(a[j] == names[j]);
        }
        lemma_last_state(a, b, i);
        assert(names[n] != names[i]);
    }
}

/// Names are filed with the states in the same places.
pub proof fn lemma_states_filed(
    names: Vec<&str>,
    states: Vec<State>,
    r: AttributeStates,
    i: int,
    state: Option<&State>,
)
    requires
        names@.len() == states@.len(),
        call_ensures(AttributeStates::from_lists, (&names, states), r),
        0 <= i < names@.len(),
        forall|j: int| i < j < names@.len() ==> (#[trigger] names@[j])@ != names@[i]@,
        call_ensures(AttributeStates::get, (&r, names@[i]), state),
    ensures
        state is Some && state->0@ == states@[i]@,
{
    let texts = attr_search::name_texts(names@);
    let found = states@.map_values(|state: State| state@);
    assert(texts[i] == names@[i]@);
    assert forall|j: int| i < j < texts.len() implies #[trigger] texts[j] != texts[i] by {
        assert(texts[j] == names@[j]@);
    }
    lemma_last_state(texts, found, i);
}

/// Without loaders all attributes are unspecified, and nothing fails.
pub proof fn lemma_nothing_loaded<L: FileLoader>(
    loaders: Vec<L>,
    new: GitAttributes<L>,
    attributes: &mut GitAttributes<L>,
    path: RepoPath<'_>,
    names: Vec<&str>,
    r: Result<AttributeStates, GitAttributesError>,
    name: &str,
    state: Option<&State>,
)
    requires
        loaders@.len() == 0,
        call_ensures(GitAttributes::<L>::new, (loaders,), new),
        *old(attributes) == new,
        call_ensures(GitAttributes::<L>::search, (attributes, path, &names), r),
        r is Ok ==> call_ensures(AttributeStates::get, (&r->Ok_0, name), state),
    ensures
        r is Ok,
        state is Some ==> state->0@ == AttrState::Unspecified,
{
}

/// States are named in messages.
pub proof fn lemma_states_named(state: State, r: String)
    requires
        call_ensures(State::describe, (&state,), r),
    ensures
        state is SetTrue ==> r@ == "State::Set"@,
        state is Unset ==> r@ == "State::Unset"@,
        state is Unspecified ==> r@ == "State::Unspecified"@,
        state matches State::Value(value) ==> r@ == "State::Value("@
            + gitattributes::quoted_bytes(value@) + ")"@,
{
}

/// Line endings are decided by the attributes `text`, `eol` and `crlf` of a file, each by its
/// own state.
pub proof fn lemma_eol_attributes_found<L: FileLoader>(
    attributes: &mut GitAttributes<L>,
    dir: Seq<char>,
    name: Seq<char>,
    path: RepoPath<'_>,
    r: Result<EolGitAttributes, GitAttributesError>,
)
    requires
        path_model::valid_path(dir),
        path_model::valid_name(name),
        path@ == path_model::joined(dir, name),
        call_ensures(eol::search_eol::<L>, (attributes, path), r),
        r is Ok,
    ensures
        exists|sources: Seq<attr_search::AttrSource>| #[trigger]
            gitattributes::sources_for(old(attributes).loaders(), sources, dir) && {
                let found = attr_search::matched_states(
                    sources,
                    path@,
                    seq!["text"@, "eol"@, "crlf"@],
                );
                &&& r->Ok_0@.text == found[0]
                &&& r->Ok_0@.eol == found[1]
                &&& r->Ok_0@.crlf == found[2]
            },
{
    repo_path::lemma_split_of_join(dir, name);
    let sources = final(attributes).cached(dir)->0;
    assert(eol::eol_names() =~= seq!["text"@, "eol"@, "crlf"@]);
    assert(gitattributes::sources_for(old(attributes).loaders(), sources, dir));
}

/// Attributes that were brought into a common form mean what they did, and stay in it.
pub proof fn lemma_common_form(
    attr: EolGitAttributes,
    r: EolGitAttributes,
    again: EolGitAttributes,
)
    requires
        call_ensures(EolGitAttributes::normalize, (attr,), r),
        call_ensures(EolGitAttributes::normalize, (r,), again),
    ensures
        again@ == r@,
        attr@.text is SetTrue || attr@.text is Unset ==> r@ == attr@,
{
    eol::lemma_normalized_idempotent(attr@);
}

} // verus!
