//! Conversion of line endings between the working copy and the store.

use vstd::prelude::*;

use crate::attr_search;
use crate::gitattributes;
use crate::gitattributes::AttrState;
use crate::gitattributes::FileLoader;
use crate::gitattributes::GitAttributes;
use crate::gitattributes::GitAttributesError;
use crate::gitattributes::GitAttributesErrorSource;
use crate::gitattributes::State;
use crate::path_model;
use crate::platform::Platform;
use crate::repo_path::RepoPath;

verus! {

/// The bytes `lf`.
pub open spec fn lf_text() -> Seq<u8> {
    seq![108u8, 102u8]
}

/// The bytes `crlf`.
pub open spec fn crlf_text() -> Seq<u8> {
    seq![99u8, 114u8, 108u8, 102u8]
}

/// The bytes `auto`.
pub open spec fn auto_text() -> Seq<u8> {
    seq![97u8, 117u8, 116u8, 111u8]
}

/// The bytes `input`.
pub open spec fn input_text() -> Seq<u8> {
    seq![105u8, 110u8, 112u8, 117u8, 116u8]
}

fn is_lf(value: &Vec<u8>) -> (r: bool)
    ensures
        r == (value@ == lf_text()),
{
    let r = value.len() == 2 && value[0] == 108 && value[1] == 102;
    assert(r ==> value@ =~= lf_text());
    r
}

fn is_crlf(value: &Vec<u8>) -> (r: bool)
    ensures
        r == (value@ == crlf_text()),
{
    let r = value.len() == 4 && value[0] == 99 && value[1] == 114 && value[2] == 108 && value[3]
        == 102;
    assert(r ==> value@ =~= crlf_text());
    r
}

fn is_auto(value: &Vec<u8>) -> (r: bool)
    ensures
        r == (value@ == auto_text()),
{
    let r = value.len() == 4 && value[0] == 97 && value[1] == 117 && value[2] == 116 && value[3]
        == 111;
    assert(r ==> value@ =~= auto_text());
    r
}

fn is_input(value: &Vec<u8>) -> (r: bool)
    ensures
        r == (value@ == input_text()),
{
    let r = value.len() == 5 && value[0] == 105 && value[1] == 110 && value[2] == 112 && value[3]
        == 117 && value[4] == 116;
    assert(r ==> value@ =~= input_text());
    r
}

/// The gitattributes related to eol conversion.
#[derive(PartialEq, Eq, Debug, Clone)]
pub struct EolGitAttributes {
    /// The state of the `eol` gitattribute.
    ///
    /// See https://git-scm.com/docs/gitattributes#_eol.
    pub eol: State,
    /// The state of the `text` gitattribute.
    ///
    /// See https://git-scm.com/docs/gitattributes#_text.
    pub text: State,
    /// The state of the `crlf` gitattribute.
    ///
    /// See https://git-scm.com/docs/gitattributes#_backwards_compatibility_with_crlf_attribute.
    pub crlf: State,
}

/// What [`EolGitAttributes`] stand for.
pub struct EolAttrs {
    pub eol: AttrState,
    pub text: AttrState,
    pub crlf: AttrState,
}

impl View for EolGitAttributes {
    type V = EolAttrs;

    open spec fn view(&self) -> EolAttrs {
        EolAttrs { eol: self.eol@, text: self.text@, crlf: self.crlf@ }
    }
}

impl EolAttrs {
    /// No attribute says anything.
    pub open spec fn unspecified() -> EolAttrs {
        EolAttrs {
            eol: AttrState::Unspecified,
            text: AttrState::Unspecified,
            crlf: AttrState::Unspecified,
        }
    }

    /// `text` is in none of its defined states, so it behaves as if it were
    /// unspecified.
    pub open spec fn text_open(self) -> bool {
        match self.text {
            AttrState::Unspecified => true,
            AttrState::SetTrue | AttrState::Unset => false,
            AttrState::Value(value) => value != auto_text(),
        }
    }

    /// `eol` is in none of its defined states.
    pub open spec fn eol_open(self) -> bool {
        match self.eol {
            AttrState::Value(value) => value != lf_text() && value != crlf_text(),
            _ => true,
        }
    }

    /// The attributes with what follows from others filled in: specifying `eol`
    /// sets `text` if that was left open, and `crlf` stands in for both of them
    /// if both were left open.
    pub open spec fn normalized(self) -> EolAttrs {
        if !self.text_open() {
            self
        } else if !self.eol_open() {
            EolAttrs { text: AttrState::SetTrue, ..self }
        } else {
            match self.crlf {
                AttrState::SetTrue => EolAttrs { text: AttrState::SetTrue, ..self },
                AttrState::Unset => EolAttrs { text: AttrState::Unset, ..self },
                AttrState::Value(value) => if value == input_text() {
                    EolAttrs { text: AttrState::SetTrue, eol: AttrState::Value(lf_text()), ..self }
                } else {
                    self
                },
                AttrState::Unspecified => self,
            }
        }
    }
}

/// Filling in what follows from the attributes once is enough.
pub proof fn lemma_normalized_idempotent(attr: EolAttrs)
    ensures
        attr.normalized().normalized() == attr.normalized(),
{
}

impl EolGitAttributes {
    /// Attributes that say nothing.
    pub fn unspecified() -> (r: EolGitAttributes)
        ensures
            r@ == EolAttrs::unspecified(),
    {
        EolGitAttributes {
            eol: State::Unspecified,
            text: State::Unspecified,
            crlf: State::Unspecified,
        }
    }

    /// Apply the automatic state conversion based on the states of other
    /// attributes.
    ///
    /// Currently, we handle 2 types of conversion:
    ///
    /// * Specifying `eol` automatically sets `text` if `text` was left
    ///   unspecified.
    /// * The `crlf` backwards compatibility is converted to proper `text` and
    ///   `eol` states.
    pub fn normalize(self) -> (r: EolGitAttributes)
        ensures
            r@ == self@.normalized(),
    {
        let mut attr = self;
        // If the text and eol attributes are not one of the defined states, they behave
        // as if they are unspecified.
        let text_unspecified = match &attr.text {
            State::Unspecified => true,
            State::SetTrue | State::Unset => false,
            State::Value(value) => !is_auto(value),
        };
        let eol_unspecified = match &attr.eol {
            State::Unspecified | State::SetTrue | State::Unset => true,
            State::Value(value) => !is_lf(value) && !is_crlf(value),
        };
        if text_unspecified && !eol_unspecified {
            // Specifying eol automatically sets text if text was left unspecified.
            attr.text = State::SetTrue;
        }
        if text_unspecified && eol_unspecified {
            // crlf exists for backwards compatibility, so it only has effect when both text
            // and eol are unspecified.
            match &attr.crlf {
                State::SetTrue => {
                    attr.text = State::SetTrue;
                },
                State::Unset => {
                    attr.text = State::Unset;
                },
                State::Value(value) => {
                    if is_input(value) {
                        // While the gitattributes doc only mentions that crlf=input is
                        // equivalent to eol=lf, the doc also mentions that specifying eol
                        // automatically sets text if text was left unspecified.
                        attr.text = State::SetTrue;
                        let lf: Vec<u8> = vec![108u8, 102u8];
                        assert(lf@ =~= lf_text());
                        attr.eol = State::Value(lf);
                    }
                },
                State::Unspecified => {},
            }
        }
        attr
    }
}

/// The attributes that decide about line endings.
pub open spec fn eol_names() -> Seq<Seq<char>> {
    seq!["text"@, "eol"@, "crlf"@]
}

/// The states of these attributes for a path.
pub open spec fn eol_states(sources: Seq<attr_search::AttrSource>, path: Seq<char>) -> EolAttrs {
    let found = attr_search::matched_states(sources, path, eol_names());
    EolAttrs { text: found[0], eol: found[1], crlf: found[2] }
}

/// Looks up the attributes of the file at `path` that decide about line
/// endings.
pub fn search_eol<L: FileLoader>(git_attributes: &mut GitAttributes<L>, path: RepoPath<'_>) -> (r:
    Result<EolGitAttributes, GitAttributesError>)
    requires
        old(git_attributes).wf(),
        path_model::valid_path(path@),
    ensures
        final(git_attributes).wf(),
        final(git_attributes).loaders() == old(git_attributes).loaders(),
        forall|dir: Seq<char>| #[trigger]
            old(git_attributes).cached(dir) is Some ==> final(git_attributes).cached(dir) == old(
                git_attributes,
            ).cached(dir),
        match r {
            Ok(attributes) => {
                let dir = GitAttributes::<L>::dir_of(path@);
                &&& final(git_attributes).cached(dir) matches Some(sources)
                &&& gitattributes::sources_for(old(git_attributes).loaders(), sources, dir)
                &&& attributes@ == eol_states(sources, path@)
            },
            Err(err) => {
                let dir = GitAttributes::<L>::dir_of(path@);
                &&& old(git_attributes).cached(dir) is None
                &&& old(git_attributes).loaders().len() > 0
                &&& err.source matches GitAttributesErrorSource::Attributes(source)
                &&& gitattributes::node_fails(old(git_attributes).loaders(), dir, *source)
            },
        },
{
    let names: Vec<&str> = vec!["text", "eol", "crlf"];
    match git_attributes.search(path, &names) {
        Ok(attributes) => {
            proof {
                let dir = GitAttributes::<L>::dir_of(path@);
                let sources = git_attributes.cached(dir)->0;
                let texts = attr_search::name_texts(names@);
                assert(texts =~= eol_names());
                let found = attr_search::matched_states(sources, path@, texts);
                lemma_three_states(found);
            }
            Ok(
                EolGitAttributes {
                    text: attributes.state_or_unspecified("text"),
                    eol: attributes.state_or_unspecified("eol"),
                    crlf: attributes.state_or_unspecified("crlf"),
                },
            )
        },
        Err(err) => Err(err),
    }
}

/// The three names are different, so each has a state of its own.
proof fn lemma_three_states(found: Seq<AttrState>)
    requires
        found.len() == 3,
    ensures
        ({
            let map = gitattributes::states_by_name(eol_names(), found);
            &&& map.contains_key("text"@) && map["text"@] == found[0]
            &&& map.contains_key("eol"@) && map["eol"@] == found[1]
            &&& map.contains_key("crlf"@) && map["crlf"@] == found[2]
        }),
{
    reveal_strlit("text");
    reveal_strlit("eol");
    reveal_strlit("crlf");
    assert("text"@.len() == 4 && "eol"@.len() == 3 && "crlf"@.len() == 4);
    assert("text"@[0] == 't' && "crlf"@[0] == 'c');
    reveal_with_fuel(gitattributes::states_by_name, 4);
    let names = eol_names();
    assert(names.drop_last() =~= seq!["text"@, "eol"@]);
    assert(names.drop_last().drop_last() =~= seq!["text"@]);
    assert(found.drop_last() =~= seq![found[0], found[1]]);
    assert(found.drop_last().drop_last() =~= seq![found[0]]);
}

/// Whether bytes look like those of a file that is not text: they hold a NUL, or
/// a CR that no LF follows.
pub open spec fn binary_bytes(bytes: Seq<u8>) -> bool {
    exists|i: int| 0 <= i < bytes.len() && #[trigger] binary_at(bytes, i)
}

/// Whether the byte at position `i` does not belong into a text file.
pub open spec fn binary_at(bytes: Seq<u8>, i: int) -> bool {
    ||| bytes[i] == 0
    ||| bytes[i] == 13 && !(i + 1 < bytes.len() && bytes[i + 1] == 10)
}

/// Whether `bytes[..end]` look like those of a file that is not text.
pub fn is_binary(bytes: &Vec<u8>, end: usize) -> (r: bool)
    requires
        end <= bytes@.len(),
    ensures
        r == binary_bytes(bytes@.take(end as int)),
{
    let ghost probed = bytes@.take(end as int);
    let mut i: usize = 0;
    while i < end
        invariant
            i <= end <= bytes@.len(),
            probed == bytes@.take(end as int),
            forall|j: int| 0 <= j < i ==> !#[trigger] binary_at(probed, j),
        decreases end - i,
    {
        let byte = bytes[i];
        if byte == 0 {
            assert(binary_at(probed, i as int));
            return true;
        }
        if byte == 13 && !(i + 1 < end && bytes[i + 1] == 10) {
            assert(binary_at(probed, i as int));
            return true;
        }
        assert(!binary_at(probed, i as int));
        i += 1;
    }
    false
}

/// The first index of a line end, or the length if there is none.
pub open spec fn line_end(bytes: Seq<u8>) -> int
    decreases bytes.len(),
{
    if bytes.len() == 0 {
        0
    } else if bytes[0] == 10 {
        0
    } else {
        1 + line_end(bytes.drop_first())
    }
}

/// The lines of a byte string, each with its line end.
pub open spec fn byte_lines(bytes: Seq<u8>) -> Seq<Seq<u8>>
    decreases bytes.len(),
{
    if bytes.len() == 0 {
        Seq::empty()
    } else {
        let i = line_end(bytes);
        if 0 <= i < bytes.len() {
            seq![bytes.subrange(0, i + 1)] + byte_lines(bytes.subrange(i + 1, bytes.len() as int))
        } else {
            seq![bytes]
        }
    }
}

/// The lines of a byte string, by `bstr::ByteSlice::lines_with_terminator`: each
/// ends with the first LF found from its start on, and what follows the last
/// LF is a line too unless it is empty.
#[verifier::external_body]
fn lines_with_terminator(bytes: &Vec<u8>) -> (r: Vec<&[u8]>)
    ensures
        r@.map_values(|line: &[u8]| line@) == byte_lines(bytes@),
{
    bstr::ByteSlice::lines_with_terminator(bytes.as_slice()).collect()
}

/// Bytes with each line end, LF or CRLF, replaced by `eol`.
pub open spec fn with_line_ends(bytes: Seq<u8>, eol: Seq<u8>) -> Seq<u8>
    decreases bytes.len(),
{
    if bytes.len() == 0 {
        Seq::empty()
    } else if bytes[0] == 13 && bytes.len() > 1 && bytes[1] == 10 {
        eol + with_line_ends(bytes.skip(2), eol)
    } else if bytes[0] == 10 {
        eol + with_line_ends(bytes.skip(1), eol)
    } else {
        seq![bytes[0]] + with_line_ends(bytes.skip(1), eol)
    }
}

/// The line ending that a file is given.
#[derive(Clone, Copy, Debug, PartialEq, Eq, Structural)]
pub enum TargetEol {
    Lf,
    Crlf,
    PassThrough,
}

/// The bytes LF.
pub open spec fn lf() -> Seq<u8> {
    seq![10u8]
}

/// The bytes CR LF.
pub open spec fn crlf() -> Seq<u8> {
    seq![13u8, 10u8]
}

/// Bytes after they were given a line ending.
pub open spec fn converted(bytes: Seq<u8>, target: TargetEol) -> Seq<u8> {
    match target {
        TargetEol::PassThrough => bytes,
        TargetEol::Lf => with_line_ends(bytes, lf()),
        TargetEol::Crlf => with_line_ends(bytes, crlf()),
    }
}

/// What a line end search finds.
proof fn lemma_line_end(bytes: Seq<u8>)
    ensures
        0 <= line_end(bytes) <= bytes.len(),
        forall|i: int| 0 <= i < line_end(bytes) ==> bytes[i] != 10,
        line_end(bytes) < bytes.len() ==> bytes[line_end(bytes)] == 10,
    decreases bytes.len(),
{
    if bytes.len() > 0 && bytes[0] != 10 {
        lemma_line_end(bytes.drop_first());
        assert forall|i: int| 0 <= i < line_end(bytes) implies bytes[i] != 10 by {
            if i > 0 {
                assert(bytes.drop_first()[i - 1] == bytes[i]);
            }
        }
    }
}

/// Where there is no line end, nothing is replaced.
proof fn lemma_no_line_end(bytes: Seq<u8>, eol: Seq<u8>)
    requires
        forall|i: int| 0 <= i < bytes.len() ==> bytes[i] != 10,
    ensures
        with_line_ends(bytes, eol) == bytes,
    decreases bytes.len(),
{
    if bytes.len() > 0 {
        lemma_no_line_end(bytes.skip(1), eol);
        assert(seq![bytes[0]] + bytes.skip(1) =~= bytes);
    } else {
        assert(with_line_ends(bytes, eol) =~= bytes);
    }
}

/// What a line is before its line end, which is a LF with the CR before it if
/// there is one.
pub open spec fn line_body(body: Seq<u8>) -> Seq<u8> {
    if body.len() > 0 && body.last() == 13 {
        body.drop_last()
    } else {
        body
    }
}

/// A line is converted for itself.
proof fn lemma_one_line(body: Seq<u8>, rest: Seq<u8>, eol: Seq<u8>)
    requires
        forall|i: int| 0 <= i < body.len() ==> body[i] != 10,
    ensures
        with_line_ends(body + seq![10u8] + rest, eol) == line_body(body) + eol + with_line_ends(
            rest,
            eol,
        ),
    decreases body.len(),
{
    let all = body + seq![10u8] + rest;
    if body.len() == 0 {
        assert(all[0] == 10);
        assert(all.skip(1) =~= rest);
        assert(line_body(body) + eol =~= eol);
    } else if body.len() == 1 && body[0] == 13 {
        assert(all[1] == 10);
        assert(all.skip(2) =~= rest);
        assert(line_body(body) =~= Seq::empty());
        assert(line_body(body) + eol =~= eol);
    } else {
        let less = body.skip(1);
        assert forall|i: int| 0 <= i < less.len() implies less[i] != 10 by {
            assert(less[i] == body[i + 1]);
        }
        lemma_one_line(less, rest, eol);
        assert(all.skip(1) =~= less + seq![10u8] + rest);
        assert(all[0] == body[0]);
        if body.len() > 1 {
            assert(all[1] == body[1]);
        }
        assert(seq![body[0]] + line_body(less) =~= line_body(body)) by {
            if less.len() > 0 {
                assert(less.last() == body.last());
            }
        }
        assert(with_line_ends(all, eol) == seq![body[0]] + (line_body(less) + eol
            + with_line_ends(rest, eol)));
        assert(seq![body[0]] + (line_body(less) + eol + with_line_ends(rest, eol)) =~= (
        seq![body[0]] + line_body(less)) + eol + with_line_ends(rest, eol));
    }
}

/// The line without its line end, if it has one: `Some(n)` for its first `n`
/// bytes.
fn trim_last_eol(input: &[u8]) -> (r: Option<usize>)
    ensures
        match r {
            Some(n) => {
                &&& input@.len() > 0
                &&& input@.last() == 10
                &&& n <= input@.len()
                &&& input@.take(n as int) == line_body(input@.drop_last())
            },
            None => input@.len() == 0 || input@.last() != 10,
        },
{
    let n = input.len();
    if n == 0 || input[n - 1] != 10 {
        return None;
    }
    let ghost body = input@.drop_last();
    if n > 1 && input[n - 2] == 13 {
        assert(body.last() == input@[n - 2]);
        assert(input@.take(n - 2) =~= body.drop_last());
        Some(n - 2)
    } else {
        proof {
            if n > 1 {
                assert(body.last() == input@[n - 2]);
            }
        }
        assert(input@.take(n - 1) =~= body);
        Some(n - 1)
    }
}

fn push_bytes(out: &mut Vec<u8>, bytes: &[u8], n: usize)
    requires
        n <= bytes@.len(),
    ensures
        final(out)@ == old(out)@ + bytes@.take(n as int),
{
    let ghost before = out@;
    let mut i: usize = 0;
    while i < n
        invariant
            i <= n <= bytes@.len(),
            out@ == before + bytes@.take(i as int),
        decreases n - i,
    {
        out.push(bytes[i]);
        assert(out@ =~= before + bytes@.take(i + 1));
        i += 1;
    }
}

/// Gives all lines of a file the line ending `target_eol`.
pub fn convert_eol(contents: Vec<u8>, target_eol: TargetEol) -> (r: Vec<u8>)
    ensures
        r@ == converted(contents@, target_eol),
{
    let eol: Vec<u8> = match target_eol {
        TargetEol::PassThrough => {
            return contents;
        },
        TargetEol::Lf => vec![10u8],
        TargetEol::Crlf => vec![13u8, 10u8],
    };
    let ghost end = eol@;
    proof {
        if target_eol == TargetEol::Lf {
            assert(eol@ =~= lf());
        } else {
            assert(eol@ =~= crlf());
        }
    }
    let lines = lines_with_terminator(&contents);
    let ghost texts = lines@.map_values(|line: &[u8]| line@);
    let mut res: Vec<u8> = Vec::new();
    let mut i: usize = 0;
    let ghost mut left = contents@;
    assert(texts.skip(0) =~= texts);
    while i < lines.len()
        invariant
            i <= lines@.len(),
            end == eol@,
            texts == lines@.map_values(|line: &[u8]| line@),
            byte_lines(left) == texts.skip(i as int),
            with_line_ends(contents@, end) == res@ + with_line_ends(left, end),
        decreases lines@.len() - i,
    {
        let line = lines[i];
        let ghost before = res@;
        let ghost k = line_end(left);
        proof {
            lemma_line_end(left);
            assert(texts.skip(i as int)[0] == line@);
            assert(texts.skip(i as int).drop_first() =~= texts.skip(i + 1));
            if k < left.len() {
                assert(line@ == left.subrange(0, k + 1));
            } else {
                assert(line@ == left);
            }
        }
        match trim_last_eol(line) {
            Some(n) => {
                push_bytes(&mut res, line, n);
                // If the line ends with an EOL, we should append the target EOL.
                push_bytes(&mut res, eol.as_slice(), eol.len());
                proof {
                    assert(k < left.len()) by {
                        if k == left.len() {
                            assert(left[left.len() - 1] == line@.last());
                        }
                    }
                    let body = line@.drop_last();
                    let rest = left.subrange(k + 1, left.len() as int);
                    assert forall|j: int| 0 <= j < body.len() implies body[j] != 10 by {
                        assert(body[j] == left[j]);
                    }
                    assert(left =~= body + seq![10u8] + rest);
                    lemma_one_line(body, rest, end);
                    assert(eol@.take(eol@.len() as int) =~= end);
                    assert(res@ =~= before + line_body(body) + end);
                    assert(byte_lines(left).drop_first() =~= byte_lines(rest));
                    assert(before + (line_body(body) + end + with_line_ends(rest, end)) =~= res@
                        + with_line_ends(rest, end));
                    left = rest;
                }
            },
            None => {
                // If the line doesn't end with an EOL, we don't append the EOL. This can happen
                // on the last line.
                push_bytes(&mut res, line, line.len());
                proof {
                    assert(k == left.len()) by {
                        if k < left.len() {
                            assert(line@.last() == left[k]);
                        }
                    }
                    lemma_no_line_end(left, end);
                    assert(line@.take(line@.len() as int) =~= left);
                    assert(byte_lines(left).drop_first() =~= Seq::<Seq<u8>>::empty());
                    left = Seq::empty();
                    assert(with_line_ends(left, end) =~= Seq::<u8>::empty());
                    assert(res@ + with_line_ends(left, end) =~= res@);
                }
            },
        }
        i += 1;
    }
    proof {
        assert(left.len() == 0) by {
            if left.len() > 0 {
                assert(byte_lines(left).len() > 0);
            }
        }
        assert(res@ + with_line_ends(left, end) =~= res@);
    }
    res
}

/// Configuring auto-converting CRLF line endings into LF when you add a file to
/// the backend, and vice versa when it checks out code onto your filesystem.
#[derive(Debug, PartialEq, Eq, Copy, Clone, Structural)]
pub enum EolConversionMode {
    /// Do not perform EOL conversion.
    Disabled,
    /// Only perform the CRLF to LF EOL conversion when writing to the backend
    /// store from the file system.
    Input,
    /// Perform CRLF to LF EOL conversion when writing to the backend store from
    /// the file system and LF to CRLF EOL conversion when writing to the file
    /// system from the backend store.
    InputOutput,
}

/// EOL conversion user settings.
#[derive(Debug, PartialEq, Eq, Copy, Clone, Structural)]
pub struct EolConversionSettings {
    /// A killer switch on whether EOL conversion should read gitattributes.
    /// When the value is `false`, the implementation shouldn't read any
    /// `gitattributes` files so that the user that doesn't need this feature
    /// pay little cost if not zero.
    pub use_git_attributes: bool,
    /// The equivalent of the git `core.eol` config. When the
    /// [`Self::eol_conversion_mode`] setting is not
    /// [`EolConversionMode::Disabled`], this setting is ignored.
    ///
    /// We don't have an equivalent for `native` in `core.eol`: the user should
    /// always specify `input` or `input-output` explicitly.
    pub default_eol_attributes: EolConversionMode,
    /// The equivalent of the git `core.autocrlf` config.
    pub eol_conversion_mode: EolConversionMode,
}

/// Indicate whether EOL conversion needs to be applied on update. Part of
/// [`EffectiveEolMode`].
#[derive(Debug, PartialEq, Eq, Copy, Clone, Structural)]
pub enum ConvertMode {
    /// Apply EOL conversion on both snapshot and update. Equivalent to
    /// `eol=crlf`.
    InputOutput,
    /// Apply EOL conversion only on snapshot. Equivalent to `eol=lf`.
    Input,
}

/// A type that is resolved from [`EolConversionSettings`], and
/// [`EolGitAttributes`] with fewer variants.
#[derive(Debug, PartialEq, Eq, Copy, Clone, Structural)]
pub enum EffectiveEolMode {
    /// The file is a text file, and may apply EOL conversion. Equivalent to set
    /// text.
    Text(ConvertMode),
    /// Use heuristics to detect if EOL conversion should be applied. Equivalent
    /// to `text=auto`.
    Auto(ConvertMode),
    /// The file is a binary file, and we should not apply EOL conversion.
    /// Equivalent to `-text`.
    Binary,
}

/// Which way lines are converted: as the `eol` attribute says, else as the
/// first setting that is not `none` says, else as the platform has it.
pub open spec fn convert_mode(
    attr: EolAttrs,
    settings: EolConversionSettings,
    platform: Platform,
) -> ConvertMode {
    if attr.eol == AttrState::Value(crlf_text()) {
        ConvertMode::InputOutput
    } else if attr.eol == AttrState::Value(lf_text()) {
        ConvertMode::Input
    } else if settings.eol_conversion_mode == EolConversionMode::InputOutput {
        ConvertMode::InputOutput
    } else if settings.eol_conversion_mode == EolConversionMode::Input {
        ConvertMode::Input
    } else if settings.default_eol_attributes == EolConversionMode::InputOutput {
        ConvertMode::InputOutput
    } else if settings.default_eol_attributes == EolConversionMode::Input {
        ConvertMode::Input
    } else if platform == Platform::Windows {
        ConvertMode::InputOutput
    } else {
        ConvertMode::Input
    }
}

/// What is done about the line endings of a file with these attributes.
pub open spec fn effective_mode(
    attr: EolAttrs,
    settings: EolConversionSettings,
    platform: Platform,
) -> EffectiveEolMode {
    let attr = attr.normalized();
    let mode = convert_mode(attr, settings, platform);
    if attr.text is SetTrue {
        EffectiveEolMode::Text(mode)
    } else if attr.text is Unset {
        EffectiveEolMode::Binary
    } else if attr.text == AttrState::Value(auto_text()) {
        EffectiveEolMode::Auto(mode)
    } else if settings.eol_conversion_mode == EolConversionMode::Disabled {
        EffectiveEolMode::Binary
    } else {
        EffectiveEolMode::Auto(mode)
    }
}

impl EffectiveEolMode {
    /// Resolve the attributes and the settings to [`EffectiveEolMode`] which
    /// has much less variants.
    pub fn new(attr: EolGitAttributes, settings: &EolConversionSettings, platform: Platform) -> (r:
        EffectiveEolMode)
        ensures
            r == effective_mode(attr@, *settings, platform),
    {
        let attr = attr.normalize();
        match &attr.text {
            State::SetTrue => EffectiveEolMode::Text(
                resolve_convert_mode(&attr, settings, platform),
            ),
            State::Unset => EffectiveEolMode::Binary,
            State::Value(value) => {
                if is_auto(value) {
                    return EffectiveEolMode::Auto(resolve_convert_mode(&attr, settings, platform));
                }
                EffectiveEolMode::for_open_text(&attr, settings, platform)
            },
            State::Unspecified => EffectiveEolMode::for_open_text(&attr, settings, platform),
        }
    }

    /// If the text attributes is unspecified or not in a state defined in the
    /// doc, we use the working-copy.eol-conversion setting, following
    /// https://git-scm.com/docs/gitattributes#Documentation/gitattributes.txt-Unspecified-1.
    fn for_open_text(
        attr: &EolGitAttributes,
        settings: &EolConversionSettings,
        platform: Platform,
    ) -> (r: EffectiveEolMode)
        ensures
            r == if settings.eol_conversion_mode == EolConversionMode::Disabled {
                EffectiveEolMode::Binary
            } else {
                EffectiveEolMode::Auto(convert_mode(attr@, *settings, platform))
            },
    {
        match settings.eol_conversion_mode {
            // If the setting is none, we don't apply EOL conversion.
            EolConversionMode::Disabled => EffectiveEolMode::Binary,
            // If the setting is not none, we probe the contents and decide whether to apply EOL
            // conversion.
            _ => EffectiveEolMode::Auto(resolve_convert_mode(attr, settings, platform)),
        }
    }
}

fn resolve_convert_mode(
    attr: &EolGitAttributes,
    settings: &EolConversionSettings,
    platform: Platform,
) -> (r: ConvertMode)
    ensures
        r == convert_mode(attr@, *settings, platform),
{
    // If the eol attribute is set explicitly, ConvertMode is decide by the
    // attribute.
    if let State::Value(value) = &attr.eol {
        if is_crlf(value) {
            return ConvertMode::InputOutput;
        }
        if is_lf(value) {
            assert(attr@.eol == AttrState::Value(lf_text()));
            assert(attr@.eol != AttrState::Value(crlf_text()));
            return ConvertMode::Input;
        }
    }
    // If the eol attribute is unspecified or not in a state defined in the
    // document, the ConvertMode is decided by the settings.

    match settings.eol_conversion_mode {
        EolConversionMode::InputOutput => {
            return ConvertMode::InputOutput;
        },
        EolConversionMode::Input => {
            return ConvertMode::Input;
        },
        EolConversionMode::Disabled => {},
    }
    // The working-copy.gitattributes-default-eol setting only takes effect when the
    // working-copy.eol-conversion setting is set to "none".
    match settings.default_eol_attributes {
        EolConversionMode::InputOutput => {
            return ConvertMode::InputOutput;
        },
        EolConversionMode::Input => {
            return ConvertMode::Input;
        },
        EolConversionMode::Disabled => {},
    }
    // If the eol attribute is unspecified and the settings are none, ConvertMode is
    // decided based on the platform.
    match platform {
        Platform::Windows => ConvertMode::InputOutput,
        Platform::Unix => ConvertMode::Input,
    }
}

/// The limit to probe for whether the file is binary is 8KB.
/// All files strictly smaller than the limit are always
/// evaluated correctly and in full.
/// Files larger than the limit - or with ambiguous content at the limit -
/// are potentially misclassified.
pub const PROBE_LIMIT: usize = 8192;

/// The part of a file that is probed. A CR at the very end of it is left out:
/// the limit may have cut a CRLF.
pub open spec fn probed_part(bytes: Seq<u8>) -> Seq<u8> {
    if bytes.len() < PROBE_LIMIT {
        bytes
    } else if bytes[PROBE_LIMIT - 1] == 13 {
        bytes.take(PROBE_LIMIT - 1)
    } else {
        bytes.take(PROBE_LIMIT as int)
    }
}

/// Whether a file is taken to be binary.
pub open spec fn probed_binary(bytes: Seq<u8>) -> bool {
    binary_bytes(probed_part(bytes))
}

/// Look at the first [`PROBE_LIMIT`] bytes of content to determine if it is
/// binary data.
pub fn probe_for_binary(contents: &Vec<u8>) -> (r: bool)
    ensures
        r == probed_binary(contents@),
{
    let end: usize = if contents.len() < PROBE_LIMIT {
        contents.len()
    } else if contents[PROBE_LIMIT - 1] == 13 {
        // The probe limit may have sliced a CRLF sequence, which would cause
        // misclassification as binary.
        PROBE_LIMIT - 1
    } else {
        PROBE_LIMIT
    };
    assert(contents@.take(end as int) =~= probed_part(contents@));
    is_binary(contents, end)
}

/// The line ending that a file gets on its way to the store.
pub open spec fn snapshot_target(mode: EffectiveEolMode, bytes: Seq<u8>) -> TargetEol {
    match mode {
        EffectiveEolMode::Binary => TargetEol::PassThrough,
        EffectiveEolMode::Text(_) => TargetEol::Lf,
        EffectiveEolMode::Auto(_) => if probed_binary(bytes) {
            TargetEol::PassThrough
        } else {
            TargetEol::Lf
        },
    }
}

/// The line ending that a file gets on its way to the working copy.
pub open spec fn update_target(mode: EffectiveEolMode, bytes: Seq<u8>) -> TargetEol {
    match mode {
        EffectiveEolMode::Binary
        | EffectiveEolMode::Text(ConvertMode::Input)
        | EffectiveEolMode::Auto(ConvertMode::Input) => TargetEol::PassThrough,
        EffectiveEolMode::Text(ConvertMode::InputOutput) => TargetEol::Crlf,
        EffectiveEolMode::Auto(ConvertMode::InputOutput) => if probed_binary(bytes) {
            TargetEol::PassThrough
        } else {
            TargetEol::Crlf
        },
    }
}

/// Decides about the line endings of files.
#[derive(Debug, Copy, Clone)]
pub struct TargetEolStrategy {
    settings: EolConversionSettings,
    platform: Platform,
}

impl TargetEolStrategy {
    /// The settings that decide.
    pub closed spec fn spec_settings(self) -> EolConversionSettings {
        self.settings
    }

    /// The platform whose line ending is the default.
    pub closed spec fn spec_platform(self) -> Platform {
        self.platform
    }

    /// What is done about the line endings of a file with these attributes,
    /// which count only where attributes are used at all.
    pub open spec fn mode(self, attr: EolAttrs) -> EffectiveEolMode {
        effective_mode(
            if self.spec_settings().use_git_attributes {
                attr
            } else {
                EolAttrs::unspecified()
            },
            self.spec_settings(),
            self.spec_platform(),
        )
    }

    pub fn new(settings: EolConversionSettings) -> (r: TargetEolStrategy)
        ensures
            r.spec_settings() == settings,
            r.spec_platform().is_host(),
    {
        TargetEolStrategy { settings, platform: Platform::host() }
    }

    /// A strategy with the defaults of the given platform.
    pub fn for_platform(settings: EolConversionSettings, platform: Platform) -> (r:
        TargetEolStrategy)
        ensures
            r.spec_settings() == settings,
            r.spec_platform() == platform,
    {
        TargetEolStrategy { settings, platform }
    }

    /// Whether the attributes of a file have to be known.
    pub fn needs_git_attributes(&self) -> (r: bool)
        ensures
            r == self.spec_settings().use_git_attributes,
    {
        self.settings.use_git_attributes
    }

    /// What is done about the line endings of a file with these attributes.
    pub fn get_effective_eol_mode(&self, git_attributes: EolGitAttributes) -> (r: EffectiveEolMode)
        ensures
            r == self.mode(git_attributes@),
    {
        let git_attributes = if self.settings.use_git_attributes {
            git_attributes
        } else {
            EolGitAttributes::unspecified()
        };
        EffectiveEolMode::new(git_attributes, &self.settings, self.platform)
    }

    /// Converts the contents of a file from the working copy for the store.
    pub fn convert_eol_for_snapshot(
        &self,
        contents: Vec<u8>,
        git_attributes: EolGitAttributes,
    ) -> (r: Vec<u8>)
        ensures
            r@ == converted(
                contents@,
                snapshot_target(self.mode(git_attributes@), contents@),
            ),
    {
        // For snapshot, we don't care about ConvertMode, if EOL conversion is applied,
        // we always convert the EOL to LF.
        let target_eol = match self.get_effective_eol_mode(git_attributes) {
            EffectiveEolMode::Binary => TargetEol::PassThrough,
            EffectiveEolMode::Text(_) => TargetEol::Lf,
            EffectiveEolMode::Auto(_) => if probe_for_binary(&contents) {
                TargetEol::PassThrough
            } else {
                TargetEol::Lf
            },
        };
        convert_eol(contents, target_eol)
    }

    /// Converts the contents of a file from the store for the working copy.
    pub fn convert_eol_for_update(&self, contents: Vec<u8>, git_attributes: EolGitAttributes) -> (r:
        Vec<u8>)
        ensures
            r@ == converted(contents@, update_target(self.mode(git_attributes@), contents@)),
    {
        let target_eol = match self.get_effective_eol_mode(git_attributes) {
            // For update, if EffectiveEolMode resolves to Binary or the ConvertMode is Input, we
            // don't need to apply any conversion.
            EffectiveEolMode::Binary
            | EffectiveEolMode::Text(ConvertMode::Input)
            | EffectiveEolMode::Auto(ConvertMode::Input) => TargetEol::PassThrough,
            EffectiveEolMode::Text(ConvertMode::InputOutput) => TargetEol::Crlf,
            EffectiveEolMode::Auto(ConvertMode::InputOutput) => if probe_for_binary(&contents) {
                TargetEol::PassThrough
            } else {
                TargetEol::Crlf
            },
        };
        convert_eol(contents, target_eol)
    }

    /// Whether the contents of a file have to be looked at on its way to the
    /// store.
    pub fn reads_for_snapshot(&self, git_attributes: EolGitAttributes) -> (r: bool)
        ensures
            r == !(self.mode(git_attributes@) is Binary),
    {
        match self.get_effective_eol_mode(git_attributes) {
            EffectiveEolMode::Binary => false,
            _ => true,
        }
    }

    /// Whether the contents of a file have to be looked at on its way to the
    /// working copy.
    pub fn reads_for_update(&self, git_attributes: EolGitAttributes) -> (r: bool)
        ensures
            r == (self.mode(git_attributes@) == EffectiveEolMode::Text(ConvertMode::InputOutput)
                || self.mode(git_attributes@) == EffectiveEolMode::Auto(
                ConvertMode::InputOutput,
            )),
    {
        match self.get_effective_eol_mode(git_attributes) {
            EffectiveEolMode::Text(ConvertMode::InputOutput)
            | EffectiveEolMode::Auto(ConvertMode::InputOutput) => true,
            _ => false,
        }
    }
}

/// Bytes in which a CR stands before a LF only.
pub open spec fn no_lone_cr(bytes: Seq<u8>) -> bool {
    forall|i: int| 0 <= i < bytes.len() ==> #[trigger] cr_before_lf(bytes, i)
}

/// If position `i` holds a CR, a LF follows.
pub open spec fn cr_before_lf(bytes: Seq<u8>, i: int) -> bool {
    bytes[i] == 13 ==> i + 1 < bytes.len() && bytes[i + 1] == 10
}

/// Bytes without any CR.
pub open spec fn no_cr(bytes: Seq<u8>) -> bool {
    forall|i: int| 0 <= i < bytes.len() ==> #[trigger] bytes[i] != 13
}

/// Position `i` holds a CRLF.
pub open spec fn crlf_at(bytes: Seq<u8>, i: int) -> bool {
    0 <= i && i + 1 < bytes.len() && bytes[i] == 13 && bytes[i + 1] == 10
}

/// Bytes without any CRLF.
pub open spec fn no_crlf(bytes: Seq<u8>) -> bool {
    forall|i: int| !#[trigger] crlf_at(bytes, i)
}

/// Bytes in which no CR stands before a CRLF.
pub open spec fn no_cr_crlf(bytes: Seq<u8>) -> bool {
    forall|i: int| #[trigger] crlf_at(bytes, i) && i > 0 ==> bytes[i - 1] != 13
}

/// What holds of CRLFs still does when the first bytes are gone.
proof fn lemma_skip_crlf(bytes: Seq<u8>, n: int)
    requires
        0 <= n <= bytes.len(),
    ensures
        no_crlf(bytes) ==> no_crlf(bytes.skip(n)),
        no_cr_crlf(bytes) ==> no_cr_crlf(bytes.skip(n)),
{
    let rest = bytes.skip(n);
    assert forall|i: int| #[trigger] crlf_at(rest, i) implies crlf_at(bytes, i + n) by {
        assert(rest[i] == bytes[i + n]);
        assert(rest[i + 1] == bytes[i + n + 1]);
    }
    if no_cr_crlf(bytes) {
        assert forall|i: int| #[trigger] crlf_at(rest, i) && i > 0 implies rest[i - 1] != 13 by {
            assert(crlf_at(bytes, i + n));
            assert(rest[i - 1] == bytes[i + n - 1]);
        }
    }
}

/// Text without CRLF has LF line endings already.
pub proof fn lemma_lf_already(bytes: Seq<u8>)
    requires
        no_crlf(bytes),
    ensures
        with_line_ends(bytes, lf()) == bytes,
    decreases bytes.len(),
{
    if bytes.len() > 0 {
        let rest = bytes.skip(1);
        assert(!crlf_at(bytes, 0));
        lemma_skip_crlf(bytes, 1);
        lemma_lf_already(rest);
        assert(seq![bytes[0]] + rest =~= bytes);
        assert(bytes[0] == 10 ==> lf() + rest =~= bytes);
    } else {
        assert(with_line_ends(bytes, lf()) =~= bytes);
    }
}

/// Giving text CRLF line endings and then LF line endings gives the text back,
/// if it had LF line endings to begin with.
pub proof fn lemma_crlf_then_lf(bytes: Seq<u8>)
    requires
        no_crlf(bytes),
    ensures
        with_line_ends(with_line_ends(bytes, crlf()), lf()) == bytes,
    decreases bytes.len(),
{
    let there = with_line_ends(bytes, crlf());
    if bytes.len() > 0 {
        let rest = bytes.skip(1);
        assert(!crlf_at(bytes, 0));
        lemma_skip_crlf(bytes, 1);
        lemma_crlf_then_lf(rest);
        let there_rest = with_line_ends(rest, crlf());
        if bytes[0] == 10 {
            assert(there == crlf() + there_rest);
            assert(there[0] == 13 && there[1] == 10);
            assert(there.skip(2) =~= there_rest);
            assert(lf() + rest =~= bytes);
        } else {
            assert(there == seq![bytes[0]] + there_rest);
            assert(there.skip(1) =~= there_rest);
            assert(seq![bytes[0]] + rest =~= bytes);
            if bytes[0] == 13 && rest.len() > 0 {
                assert(rest[0] == bytes[1]);
                assert(rest[0] != 10);
                assert(!crlf_at(rest, 0));
                assert(there_rest == seq![rest[0]] + with_line_ends(rest.skip(1), crlf()));
                assert(there[1] == rest[0]);
            }
        }
    } else {
        assert(there =~= Seq::empty());
        assert(with_line_ends(there, lf()) =~= bytes);
    }
}

/// What CRLF line endings make of a text without CRLF: a NUL, or a CR that no LF
/// follows, has not moved to the front.
proof fn lemma_crlf_text(bytes: Seq<u8>)
    requires
        no_crlf(bytes),
    ensures
        forall|i: int|
            0 <= i < with_line_ends(bytes, crlf()).len() && #[trigger] binary_at(
                with_line_ends(bytes, crlf()),
                i,
            ) ==> moved_from(bytes, with_line_ends(bytes, crlf())[i], i),
    decreases bytes.len(),
{
    let there = with_line_ends(bytes, crlf());
    if bytes.len() > 0 {
        let rest = bytes.skip(1);
        assert(!crlf_at(bytes, 0));
        lemma_skip_crlf(bytes, 1);
        lemma_crlf_text(rest);
        let there_rest = with_line_ends(rest, crlf());
        let n: int = if bytes[0] == 10 {
            2
        } else {
            1
        };
        assert(there =~= (if bytes[0] == 10 {
            crlf()
        } else {
            seq![bytes[0]]
        }) + there_rest);
        assert forall|i: int| 0 <= i < there.len() && #[trigger] binary_at(there, i) implies moved_from(
            bytes,
            there[i],
            i,
        ) by {
            if i >= n {
                assert(there[i] == there_rest[i - n]);
                if i + 1 < there.len() {
                    assert(there[i + 1] == there_rest[i + 1 - n]);
                }
                assert(binary_at(there_rest, i - n));
                let j = choose|j: int|
                    0 <= j <= i - n && j < rest.len() && #[trigger] rest[j] == there[i];
                assert(bytes[j + 1] == there[i]);
            } else if bytes[0] == 10 {
                assert(there[1] == 10);
            } else {
                assert(bytes[0] == there[0]);
            }
        }
    }
}

/// A byte stands at position `i` or before.
spec fn moved_from(bytes: Seq<u8>, byte: u8, i: int) -> bool {
    exists|j: int| 0 <= j <= i && j < bytes.len() && #[trigger] bytes[j] == byte
}

/// A text that was not taken to be binary is not taken to be binary either once
/// it has CRLF line endings.
proof fn lemma_probe_after_crlf(bytes: Seq<u8>)
    requires
        no_crlf(bytes),
        !probed_binary(bytes),
    ensures
        !probed_binary(with_line_ends(bytes, crlf())),
{
    let there = with_line_ends(bytes, crlf());
    lemma_crlf_text(bytes);
    let part = probed_part(there);
    let part_before = probed_part(bytes);
    if binary_bytes(part) {
        let i = choose|i: int| 0 <= i < part.len() && #[trigger] binary_at(part, i);
        assert(part[i] == there[i]);
        if i + 1 < part.len() {
            assert(part[i + 1] == there[i + 1]);
        }
        assert(binary_at(there, i));
        let j = choose|j: int| 0 <= j <= i && j < bytes.len() && #[trigger] bytes[j] == there[i];
        assert(j < part_before.len());
        assert(part_before[j] == there[i]);
        if there[i] == 13 && j + 1 < part_before.len() {
            assert(part_before[j + 1] == bytes[j + 1]);
            assert(!crlf_at(bytes, j));
        }
        assert(binary_at(part_before, j));
    }
}

/// What the working copy got from the store goes back to the store unchanged,
/// whatever the settings and attributes are, provided that the store holds no
/// CRLF or that nothing is converted.
pub proof fn lemma_update_then_snapshot(mode: EffectiveEolMode, stored: Seq<u8>)
    requires
        no_crlf(stored) || snapshot_target(mode, stored) is PassThrough,
    ensures
        ({
            let on_disk = converted(stored, update_target(mode, stored));
            converted(on_disk, snapshot_target(mode, on_disk)) == stored
        }),
{
    if no_crlf(stored) {
        lemma_lf_already(stored);
        lemma_crlf_then_lf(stored);
        if !probed_binary(stored) {
            lemma_probe_after_crlf(stored);
        }
    }
}

/// LF line endings leave no CR in a text where each CR stood before a LF.
pub proof fn lemma_lf_leaves_no_cr(bytes: Seq<u8>)
    requires
        no_lone_cr(bytes),
    ensures
        no_cr(with_line_ends(bytes, lf())),
    decreases bytes.len(),
{
    let there = with_line_ends(bytes, lf());
    if bytes.len() > 0 {
        if bytes[0] == 13 {
            assert(cr_before_lf(bytes, 0));
            let rest = bytes.skip(2);
            assert forall|i: int| 0 <= i < rest.len() implies #[trigger] cr_before_lf(rest, i) by {
                assert(cr_before_lf(bytes, i + 2));
            }
            lemma_lf_leaves_no_cr(rest);
            assert(there =~= lf() + with_line_ends(rest, lf()));
        } else {
            let rest = bytes.skip(1);
            assert forall|i: int| 0 <= i < rest.len() implies #[trigger] cr_before_lf(rest, i) by {
                assert(cr_before_lf(bytes, i + 1));
            }
            lemma_lf_leaves_no_cr(rest);
            assert(there =~= seq![bytes[0]] + with_line_ends(rest, lf()));
        }
    }
}

/// LF line endings leave no CRLF in a text where no CR stood before a CRLF.
pub proof fn lemma_lf_leaves_no_crlf(bytes: Seq<u8>)
    requires
        no_cr_crlf(bytes),
    ensures
        no_crlf(with_line_ends(bytes, lf())),
    decreases bytes.len(),
{
    let there = with_line_ends(bytes, lf());
    if bytes.len() > 0 {
        let n: int = if crlf_at(bytes, 0) {
            2
        } else {
            1
        };
        let rest = bytes.skip(n);
        lemma_skip_crlf(bytes, n);
        lemma_lf_leaves_no_crlf(rest);
        let there_rest = with_line_ends(rest, lf());
        let first: u8 = if crlf_at(bytes, 0) {
            10
        } else {
            bytes[0]
        };
        assert(there =~= seq![first] + there_rest);
        assert forall|i: int| !#[trigger] crlf_at(there, i) by {
            if crlf_at(there, i) && i > 0 {
                assert(there[i] == there_rest[i - 1] && there[i + 1] == there_rest[i]);
                assert(crlf_at(there_rest, i - 1));
            } else if crlf_at(there, i) {
                assert(there_rest[0] == 10);
                assert(rest[0] == bytes[1]);
                if crlf_at(rest, 0) {
                    assert(rest[1] == bytes[2]);
                    assert(crlf_at(bytes, 1));
                }
            }
        }
    }
}

/// Giving a text LF line endings a second time changes nothing, where no CR of
/// it stood before a CRLF.
pub proof fn lemma_lf_idempotent(bytes: Seq<u8>)
    requires
        no_cr_crlf(bytes),
    ensures
        with_line_ends(with_line_ends(bytes, lf()), lf()) == with_line_ends(bytes, lf()),
{
    lemma_lf_leaves_no_crlf(bytes);
    lemma_lf_already(with_line_ends(bytes, lf()));
}

/// Giving a text CRLF line endings a second time changes nothing.
pub proof fn lemma_crlf_idempotent(bytes: Seq<u8>)
    ensures
        with_line_ends(with_line_ends(bytes, crlf()), crlf()) == with_line_ends(bytes, crlf()),
    decreases bytes.len(),
{
    let there = with_line_ends(bytes, crlf());
    if bytes.len() > 0 {
        let n: int = if crlf_at(bytes, 0) {
            2
        } else {
            1
        };
        let rest = bytes.skip(n);
        let there_rest = with_line_ends(rest, crlf());
        lemma_crlf_idempotent(rest);
        if crlf_at(bytes, 0) || bytes[0] == 10 {
            assert(there == crlf() + there_rest);
            assert(there[0] == 13 && there[1] == 10);
            assert(there.skip(2) =~= there_rest);
        } else {
            assert(there == seq![bytes[0]] + there_rest);
            assert(there.skip(1) =~= there_rest);
            if bytes[0] == 13 && rest.len() > 0 {
                assert(rest[0] == bytes[1]);
                assert(there_rest[0] == 13 || there_rest[0] == rest[0]);
                assert(there[1] == there_rest[0]);
            }
        }
    } else {
        assert(there =~= Seq::empty());
    }
}

/// Converting a file for the store a second time changes nothing, where no CR of it
/// stood before a CRLF or nothing is converted.
pub proof fn lemma_snapshot_idempotent(mode: EffectiveEolMode, on_disk: Seq<u8>)
    requires
        no_cr_crlf(on_disk) || snapshot_target(mode, on_disk) is PassThrough,
    ensures
        ({
            let once = converted(on_disk, snapshot_target(mode, on_disk));
            converted(once, snapshot_target(mode, once)) == once
        }),
{
    if no_cr_crlf(on_disk) {
        lemma_lf_idempotent(on_disk);
    }
}

/// Converting a file for the working copy a second time changes nothing.
pub proof fn lemma_update_idempotent(mode: EffectiveEolMode, stored: Seq<u8>)
    ensures
        ({
            let once = converted(stored, update_target(mode, stored));
            converted(once, update_target(mode, once)) == once
        }),
{
    lemma_crlf_idempotent(stored);
}

/// Files strictly smaller than the limit are evaluated in full.
pub proof fn lemma_small_file_probed(bytes: Seq<u8>)
    requires
        bytes.len() < PROBE_LIMIT,
    ensures
        probed_binary(bytes) == binary_bytes(bytes),
{
}

/// Where attributes are not used, they do not matter.
pub proof fn lemma_attributes_unused(strategy: TargetEolStrategy, a: EolAttrs, b: EolAttrs)
    requires
        !strategy.spec_settings().use_git_attributes,
    ensures
        strategy.mode(a) == strategy.mode(b),
{
}

/// The default for the `eol` attribute is ignored where conversion is on anyway.
pub proof fn lemma_default_eol_ignored(
    attr: EolAttrs,
    settings: EolConversionSettings,
    other: EolConversionMode,
    platform: Platform,
)
    requires
        settings.eol_conversion_mode != EolConversionMode::Disabled,
    ensures
        effective_mode(attr, settings, platform) == effective_mode(
            attr,
            (EolConversionSettings { default_eol_attributes: other, ..settings }),
            platform,
        ),
{
}

/// Where attributes say nothing, the conversion setting decides alone: nothing is
/// converted, or files are treated as with `text=auto` and the `eol` that the
/// setting stands for.
pub proof fn lemma_setting_stands_for_attributes(
    settings: EolConversionSettings,
    platform: Platform,
)
    ensures
        effective_mode(EolAttrs::unspecified(), settings, platform) == match settings.eol_conversion_mode {
            EolConversionMode::Disabled => EffectiveEolMode::Binary,
            EolConversionMode::Input => effective_mode(
                (EolAttrs {
                    text: AttrState::Value(auto_text()),
                    eol: AttrState::Value(lf_text()),
                    crlf: AttrState::Unspecified,
                }),
                settings,
                platform,
            ),
            EolConversionMode::InputOutput => effective_mode(
                (EolAttrs {
                    text: AttrState::Value(auto_text()),
                    eol: AttrState::Value(crlf_text()),
                    crlf: AttrState::Unspecified,
                }),
                settings,
                platform,
            ),
        },
{
    assert(lf_text().len() != crlf_text().len());
}

} // verus!
