//! What becomes of the line endings of a file, by its contents, the settings and its
//! attributes.
//!
//! The laws speak of what the functions are called with and of what they return.

use vstd::prelude::*;

use crate::attr_search;
use crate::eol;
use crate::eol::ConvertMode;
use crate::eol::EffectiveEolMode;
use crate::eol::EolConversionMode;
use crate::eol::EolConversionSettings;
use crate::eol::EolGitAttributes;
use crate::eol::TargetEol;
use crate::eol::TargetEolStrategy;
use crate::gitattributes::AttrState;
use crate::platform::Platform;

verus! {

/// Bytes are taken to be binary exactly if there is a NUL among them, or a CR that no LF
/// follows. No other byte matters.
pub proof fn lemma_binary_bytes(bytes: Vec<u8>, end: usize, r: bool)
    requires
        end <= bytes@.len(),
        call_ensures(eol::is_binary, (&bytes, end), r),
    ensures
        r <==> exists|i: int|
            0 <= i < end && (#[trigger] bytes@[i] == 0 || bytes@[i] == 13 && (i + 1 == end
                || bytes@[i + 1] != 10)),
{
    let part = bytes@.take(end as int);
    if eol::binary_bytes(part) {
        let i = choose|i: int| 0 <= i < part.len() && #[trigger] eol::binary_at(part, i);
        assert(part[i] == bytes@[i]);
        if i + 1 < end {
            assert(part[i + 1] == bytes@[i + 1]);
        }
    }
    if exists|i: int|
        0 <= i < end && (#[trigger] bytes@[i] == 0 || bytes@[i] == 13 && (i + 1 == end || bytes@[i
            + 1] != 10)) {
        let i = choose|i: int|
            0 <= i < end && (#[trigger] bytes@[i] == 0 || bytes@[i] == 13 && (i + 1 == end
                || bytes@[i + 1] != 10));
        assert(part[i] == bytes@[i]);
        if i + 1 < end {
            assert(part[i + 1] == bytes@[i + 1]);
        }
        assert(eol::binary_at(part, i));
    }
}

/// A file is taken to be binary exactly if there is a NUL in the part that is probed, or a CR
/// that no LF follows. What follows the last byte of that part is not known, so a CR there
/// does not count unless the file ends with it.
pub proof fn lemma_binary_file(contents: Vec<u8>, r: bool)
    requires
        call_ensures(eol::probe_for_binary, (&contents,), r),
    ensures
        r <==> exists|i: int|
            0 <= i < contents@.len() && i < 8192 && (#[trigger] contents@[i] == 0 || contents@[i]
                == 13 && (if i + 1 < contents@.len() {
                i + 1 < 8192 && contents@[i + 1] != 10
            } else {
                i + 1 < 8192
            })),
{
    let bytes = contents@;
    let part = eol::probed_part(bytes);
    assert forall|i: int| 0 <= i < part.len() implies part[i] == bytes[i] by {}
    if eol::binary_bytes(part) {
        let i = choose|i: int| 0 <= i < part.len() && #[trigger] eol::binary_at(part, i);
        assert(part[i] == bytes[i]);
        if i + 1 < part.len() {
            assert(part[i + 1] == bytes[i + 1]);
        } else if bytes.len() >= 8192 && bytes[i] == 13 {
            assert(i + 1 == 8191);
            assert(bytes[i + 1] == 13);
        }
    }
    if exists|i: int|
        0 <= i < bytes.len() && i < 8192 && (#[trigger] bytes[i] == 0 || bytes[i] == 13 && (if i + 1
            < bytes.len() {
            i + 1 < 8192 && bytes[i + 1] != 10
        } else {
            i + 1 < 8192
        })) {
        let i = choose|i: int|
            0 <= i < bytes.len() && i < 8192 && (#[trigger] bytes[i] == 0 || bytes[i] == 13 && (if i
                + 1 < bytes.len() {
                i + 1 < 8192 && bytes[i + 1] != 10
            } else {
                i + 1 < 8192
            }));
        assert(i < part.len());
        assert(part[i] == bytes[i]);
        if i + 1 < part.len() {
            assert(part[i + 1] == bytes[i + 1]);
        }
        assert(eol::binary_at(part, i));
    }
}

/// Bytes without CR.
pub open spec fn without_cr(bytes: Seq<u8>) -> Seq<u8> {
    bytes.filter(|b: u8| b != 13)
}

/// CR aside, giving a file line endings changes nothing in it.
proof fn lemma_line_ends_keep_bytes(bytes: Seq<u8>, end: Seq<u8>)
    requires
        end == seq![10u8] || end == seq![13u8, 10u8],
    ensures
        without_cr(eol::with_line_ends(bytes, end)) == without_cr(bytes),
    decreases bytes.len(),
{
    let pred = |b: u8| b != 13;
    let there = eol::with_line_ends(bytes, end);
    lemma_without_cr_of_end(end);
    if bytes.len() > 0 {
        if bytes[0] == 13 && bytes.len() > 1 && bytes[1] == 10 {
            let rest = bytes.skip(2);
            lemma_line_ends_keep_bytes(rest, end);
            assert(bytes =~= seq![13u8, 10u8] + rest);
            Seq::filter_distributes_over_add(seq![13u8, 10u8], rest, pred);
            Seq::filter_distributes_over_add(end, eol::with_line_ends(rest, end), pred);
            lemma_without_cr_of_end(seq![13u8, 10u8]);
        } else if bytes[0] == 10 {
            let rest = bytes.skip(1);
            lemma_line_ends_keep_bytes(rest, end);
            assert(bytes =~= seq![10u8] + rest);
            Seq::filter_distributes_over_add(seq![10u8], rest, pred);
            Seq::filter_distributes_over_add(end, eol::with_line_ends(rest, end), pred);
            lemma_without_cr_of_end(seq![10u8]);
        } else {
            let rest = bytes.skip(1);
            lemma_line_ends_keep_bytes(rest, end);
            assert(bytes =~= seq![bytes[0]] + rest);
            Seq::filter_distributes_over_add(seq![bytes[0]], rest, pred);
            Seq::filter_distributes_over_add(seq![bytes[0]], eol::with_line_ends(rest, end), pred);
        }
    }
}

proof fn lemma_without_cr_of_end(end: Seq<u8>)
    requires
        end == seq![10u8] || end == seq![13u8, 10u8],
    ensures
        without_cr(end) == seq![10u8],
{
    reveal_with_fuel(Seq::filter, 3);
    let pred = |b: u8| b != 13;
    if end == seq![13u8, 10u8] {
        assert(end.drop_last() =~= seq![13u8]);
        assert(seq![13u8].drop_last() =~= Seq::empty());
        assert(seq![13u8].filter(pred) =~= Seq::empty());
    } else {
        assert(end.drop_last() =~= Seq::empty());
    }
    assert(without_cr(end) =~= seq![10u8]);
}

/// A CR stands before each LF.
spec fn crlf_everywhere(bytes: Seq<u8>) -> bool {
    forall|i: int|
        0 <= i < bytes.len() && #[trigger] bytes[i] == 10 ==> i > 0 && bytes[i - 1] == 13
}

/// With CRLF line endings, a CR stands before each LF.
proof fn lemma_crlf_everywhere(bytes: Seq<u8>)
    ensures
        crlf_everywhere(eol::with_line_ends(bytes, seq![13u8, 10u8])),
    decreases bytes.len(),
{
    let end = seq![13u8, 10u8];
    let there = eol::with_line_ends(bytes, end);
    if bytes.len() > 0 {
        let n: int = if bytes[0] == 13 && bytes.len() > 1 && bytes[1] == 10 {
            2
        } else {
            1
        };
        let front = if n == 2 || bytes[0] == 10 {
            end
        } else {
            seq![bytes[0]]
        };
        let rest = bytes.skip(n);
        lemma_crlf_everywhere(rest);
        let there_rest = eol::with_line_ends(rest, end);
        assert(there =~= front + there_rest);
        assert forall|i: int| 0 <= i < there.len() && #[trigger] there[i] == 10 implies i > 0
            && there[i - 1] == 13 by {
            if i >= front.len() {
                assert(there[i] == there_rest[i - front.len()]);
                assert(there_rest[i - front.len()] == 10);
                assert(there[i - 1] == there_rest[i - front.len() - 1]);
            }
        }
    }
}

/// Nothing is lost when a file is given other line endings, and nothing is added but CR: all
/// other bytes stay, in their order.
pub proof fn lemma_conversion_keeps_bytes(contents: Vec<u8>, target: TargetEol, r: Vec<u8>)
    requires
        call_ensures(eol::convert_eol, (contents, target), r),
    ensures
        without_cr(r@) == without_cr(contents@),
        target == TargetEol::PassThrough ==> r@ == contents@,
{
    if target == TargetEol::Lf {
        lemma_line_ends_keep_bytes(contents@, seq![10u8]);
    } else if target == TargetEol::Crlf {
        lemma_line_ends_keep_bytes(contents@, seq![13u8, 10u8]);
    }
}

/// A file that is given CRLF line endings has a CR before each LF. One that is given LF line
/// endings has none before any LF, if no CR stood before a CRLF in it. A file that has the
/// line endings already stays as it is.
pub proof fn lemma_conversion_reaches_target(
    contents: Vec<u8>,
    to_crlf: Vec<u8>,
    to_lf: Vec<u8>,
)
    requires
        call_ensures(eol::convert_eol, (contents, TargetEol::Crlf), to_crlf),
        call_ensures(eol::convert_eol, (contents, TargetEol::Lf), to_lf),
    ensures
        forall|i: int|
            0 <= i < to_crlf@.len() && #[trigger] to_crlf@[i] == 10 ==> i > 0 && to_crlf@[i - 1]
                == 13,
        (forall|i: int|
            0 < i < contents@.len() && #[trigger] contents@[i] == 10 && contents@[i - 1] == 13 ==> i
                < 2 || contents@[i - 2] != 13) ==> forall|i: int|
            0 < i < to_lf@.len() && #[trigger] to_lf@[i] == 10 ==> to_lf@[i - 1] != 13,
        (forall|i: int|
            0 < i < contents@.len() && #[trigger] contents@[i] == 10 ==> contents@[i - 1] != 13)
            ==> to_lf@ == contents@,
{
    let bytes = contents@;
    assert(eol::crlf() =~= seq![13u8, 10u8]);
    lemma_crlf_everywhere(bytes);
    if forall|i: int|
        0 < i < bytes.len() && #[trigger] bytes[i] == 10 && bytes[i - 1] == 13 ==> i < 2 || bytes[i
            - 2] != 13 {
        assert forall|i: int| #[trigger] eol::crlf_at(bytes, i) && i > 0 implies bytes[i - 1]
            != 13 by {
            assert(bytes[i + 1] == 10);
        }
        eol::lemma_lf_leaves_no_crlf(bytes);
        assert forall|i: int| 0 < i < to_lf@.len() && #[trigger] to_lf@[i] == 10 implies to_lf@[i
            - 1] != 13 by {
            assert(!eol::crlf_at(to_lf@, i - 1));
        }
    }
    if forall|i: int| 0 < i < bytes.len() && #[trigger] bytes[i] == 10 ==> bytes[i - 1] != 13 {
        assert forall|i: int| !#[trigger] eol::crlf_at(bytes, i) by {
            if eol::crlf_at(bytes, i) {
                assert(bytes[i + 1] == 10);
            }
        }
        eol::lemma_lf_already(bytes);
    }
}

/// The state of an attribute that has a value.
pub open spec fn value(bytes: Seq<u8>) -> AttrState {
    AttrState::Value(bytes)
}

/// A file that is marked as no text is never converted, whatever the settings are.
pub proof fn lemma_binary_attribute(
    attr: EolGitAttributes,
    settings: EolConversionSettings,
    platform: Platform,
    mode: EffectiveEolMode,
)
    requires
        attr@.text is Unset,
        call_ensures(EffectiveEolMode::new, (attr, &settings, platform), mode),
    ensures
        mode is Binary,
{
}

/// A file that is marked as text is always converted, whatever the settings are. One that is
/// left to be looked at is always looked at.
pub proof fn lemma_text_attribute(
    attr: EolGitAttributes,
    settings: EolConversionSettings,
    platform: Platform,
    mode: EffectiveEolMode,
)
    requires
        call_ensures(EffectiveEolMode::new, (attr, &settings, platform), mode),
    ensures
        attr@.text is SetTrue ==> mode is Text,
        attr@.text == value(seq![97u8, 117u8, 116u8, 111u8]) ==> mode is Auto,
{
}

/// For a file that is text or may be, the `eol` attribute decides the way, whatever the
/// settings and the platform are.
pub proof fn lemma_eol_attribute(
    attr: EolGitAttributes,
    settings: EolConversionSettings,
    platform: Platform,
    mode: EffectiveEolMode,
)
    requires
        !(attr@.text is Unset),
        call_ensures(EffectiveEolMode::new, (attr, &settings, platform), mode),
    ensures
        attr@.eol == value(seq![108u8, 102u8]) ==> mode == EffectiveEolMode::Text(
            ConvertMode::Input,
        ) || mode == EffectiveEolMode::Auto(ConvertMode::Input),
        attr@.eol == value(seq![99u8, 114u8, 108u8, 102u8]) ==> mode == EffectiveEolMode::Text(
            ConvertMode::InputOutput,
        ) || mode == EffectiveEolMode::Auto(ConvertMode::InputOutput),
        attr@.text is Unspecified && (attr@.eol == value(seq![108u8, 102u8]) || attr@.eol == value(
            seq![99u8, 114u8, 108u8, 102u8],
        )) ==> mode is Text,
{
    assert(seq![108u8, 102u8] =~= eol::lf_text());
    assert(seq![99u8, 114u8, 108u8, 102u8] =~= eol::crlf_text());
    assert(eol::lf_text().len() != eol::crlf_text().len());
}

/// Where neither `text` nor `eol` says anything, the older `crlf` attribute stands for them:
/// set for `text`, unset for `-text`, and `input` for `eol=lf`.
pub proof fn lemma_crlf_attribute(
    attr: EolGitAttributes,
    settings: EolConversionSettings,
    platform: Platform,
    mode: EffectiveEolMode,
    newer: EolGitAttributes,
    newer_mode: EffectiveEolMode,
)
    requires
        attr@.text is Unspecified,
        attr@.eol is Unspecified,
        newer@.crlf is Unspecified,
        match attr@.crlf {
            AttrState::SetTrue => newer@.text is SetTrue && newer@.eol is Unspecified,
            AttrState::Unset => newer@.text is Unset && newer@.eol is Unspecified,
            AttrState::Unspecified => newer@.text is Unspecified && newer@.eol is Unspecified,
            AttrState::Value(name) => if name == seq![105u8, 110u8, 112u8, 117u8, 116u8] {
                newer@.text is Unspecified && newer@.eol == value(seq![108u8, 102u8])
            } else {
                newer@.text is Unspecified && newer@.eol is Unspecified
            },
        },
        call_ensures(EffectiveEolMode::new, (attr, &settings, platform), mode),
        call_ensures(EffectiveEolMode::new, (newer, &settings, platform), newer_mode),
    ensures
        mode == newer_mode,
{
    assert(seq![108u8, 102u8] =~= eol::lf_text());
    assert(seq![105u8, 110u8, 112u8, 117u8, 116u8] =~= eol::input_text());
}

/// Where `text` or `eol` says something, the older `crlf` attribute has no say.
pub proof fn lemma_crlf_attribute_ignored(
    attr: EolGitAttributes,
    other: EolGitAttributes,
    settings: EolConversionSettings,
    platform: Platform,
    mode: EffectiveEolMode,
    other_mode: EffectiveEolMode,
)
    requires
        other@.text == attr@.text,
        other@.eol == attr@.eol,
        ({
            ||| attr@.text is SetTrue
            ||| attr@.text is Unset
            ||| attr@.text == value(seq![97u8, 117u8, 116u8, 111u8])
            ||| attr@.eol == value(seq![108u8, 102u8])
            ||| attr@.eol == value(seq![99u8, 114u8, 108u8, 102u8])
        }),
        call_ensures(EffectiveEolMode::new, (attr, &settings, platform), mode),
        call_ensures(EffectiveEolMode::new, (other, &settings, platform), other_mode),
    ensures
        mode == other_mode,
{
    assert(seq![108u8, 102u8] =~= eol::lf_text());
    assert(seq![99u8, 114u8, 108u8, 102u8] =~= eol::crlf_text());
    assert(seq![97u8, 117u8, 116u8, 111u8] =~= eol::auto_text());
}

/// Attributes with values that mean nothing count as if they said nothing.
pub proof fn lemma_unknown_values(
    attr: EolGitAttributes,
    plain: EolGitAttributes,
    settings: EolConversionSettings,
    platform: Platform,
    mode: EffectiveEolMode,
    plain_mode: EffectiveEolMode,
)
    requires
        plain@.crlf == attr@.crlf,
        plain@.text is Unspecified,
        plain@.eol is Unspecified,
        attr@.text matches AttrState::Value(text) ==> text != seq![97u8, 117u8, 116u8, 111u8],
        !(attr@.text is SetTrue) && !(attr@.text is Unset),
        attr@.eol matches AttrState::Value(eol) ==> eol != seq![108u8, 102u8] && eol != seq![
            99u8,
            114u8,
            108u8,
            102u8,
        ],
        call_ensures(EffectiveEolMode::new, (attr, &settings, platform), mode),
        call_ensures(EffectiveEolMode::new, (plain, &settings, platform), plain_mode),
    ensures
        mode == plain_mode,
{
    assert(seq![108u8, 102u8] =~= eol::lf_text());
    assert(seq![99u8, 114u8, 108u8, 102u8] =~= eol::crlf_text());
    assert(seq![97u8, 117u8, 116u8, 111u8] =~= eol::auto_text());
}

/// Where no attribute says anything, the conversion setting decides: files are left alone, or
/// looked at and converted the way that it says.
pub proof fn lemma_conversion_setting(
    attr: EolGitAttributes,
    settings: EolConversionSettings,
    platform: Platform,
    mode: EffectiveEolMode,
)
    requires
        attr@.text is Unspecified,
        attr@.eol is Unspecified,
        attr@.crlf is Unspecified,
        call_ensures(EffectiveEolMode::new, (attr, &settings, platform), mode),
    ensures
        settings.eol_conversion_mode == EolConversionMode::Disabled <==> mode is Binary,
        settings.eol_conversion_mode == EolConversionMode::Input <==> mode
            == EffectiveEolMode::Auto(ConvertMode::Input),
        settings.eol_conversion_mode == EolConversionMode::InputOutput <==> mode
            == EffectiveEolMode::Auto(ConvertMode::InputOutput),
{
}

/// For a file that is text, where nothing is said of its line endings, the way is that of the
/// conversion setting, or else that of the default for the attribute, or else that of the
/// platform: Windows has CRLF in files.
pub proof fn lemma_way_of_text(
    attr: EolGitAttributes,
    settings: EolConversionSettings,
    platform: Platform,
    mode: EffectiveEolMode,
)
    requires
        attr@.text is SetTrue,
        attr@.eol is Unspecified,
        call_ensures(EffectiveEolMode::new, (attr, &settings, platform), mode),
    ensures
        mode == EffectiveEolMode::Text(ConvertMode::InputOutput) || mode == EffectiveEolMode::Text(
            ConvertMode::Input,
        ),
        mode == EffectiveEolMode::Text(ConvertMode::InputOutput) <==> {
            let decides = if settings.eol_conversion_mode != EolConversionMode::Disabled {
                settings.eol_conversion_mode
            } else {
                settings.default_eol_attributes
            };
            ||| decides == EolConversionMode::InputOutput
            ||| decides == EolConversionMode::Disabled && platform == Platform::Windows
        },
{
}

/// What is converted for the store is a text: the contents have LF line endings then. A file
/// that is no text comes to the store as it is.
pub proof fn lemma_snapshot_conversion(
    strategy: TargetEolStrategy,
    contents: Vec<u8>,
    attr: EolGitAttributes,
    mode: EffectiveEolMode,
    binary: bool,
    to_lf: Vec<u8>,
    r: Vec<u8>,
)
    requires
        call_ensures(TargetEolStrategy::get_effective_eol_mode, (&strategy, attr), mode),
        call_ensures(eol::probe_for_binary, (&contents,), binary),
        call_ensures(eol::convert_eol, (contents, TargetEol::Lf), to_lf),
        call_ensures(
            TargetEolStrategy::convert_eol_for_snapshot,
            (&strategy, contents, attr),
            r,
        ),
    ensures
        mode is Binary ==> r@ == contents@,
        mode is Text ==> r@ == to_lf@,
        mode is Auto && binary ==> r@ == contents@,
        mode is Auto && !binary ==> r@ == to_lf@,
{
}

/// Bytes among which there is no CR, without CR.
proof fn lemma_no_cr_to_leave_out(bytes: Seq<u8>)
    requires
        forall|i: int| 0 <= i < bytes.len() ==> #[trigger] bytes[i] != 13,
    ensures
        without_cr(bytes) == bytes,
    decreases bytes.len(),
{
    reveal(Seq::filter);
    if bytes.len() > 0 {
        let before = bytes.drop_last();
        assert forall|i: int| 0 <= i < before.len() implies #[trigger] before[i] != 13 by {
            assert(before[i] == bytes[i]);
        }
        lemma_no_cr_to_leave_out(before);
        assert(bytes[bytes.len() - 1] != 13);
        assert(before.push(bytes.last()) =~= bytes);
    }
}

/// A text comes to the store with LF line endings, and otherwise as it is, be it ASCII or not:
/// nothing is left out of it but the CR of each line. This holds of all files under
/// `text=auto`, and, where no attribute says anything, under the conversion settings `input`
/// and `input-output`.
pub proof fn lemma_text_stored(
    settings: EolConversionSettings,
    platform: Platform,
    strategy: TargetEolStrategy,
    attr: EolGitAttributes,
    contents: Vec<u8>,
    r: Vec<u8>,
)
    requires
        settings.use_git_attributes && attr@.text == value(seq![97u8, 117u8, 116u8, 111u8])
            || settings.eol_conversion_mode != EolConversionMode::Disabled && (
        !settings.use_git_attributes || attr@.text is Unspecified && attr@.eol is Unspecified
            && attr@.crlf is Unspecified),
        forall|i: int| 0 <= i < contents@.len() ==> #[trigger] contents@[i] != 0,
        forall|i: int|
            0 <= i < contents@.len() && #[trigger] contents@[i] == 13 ==> i + 1 < contents@.len()
                && contents@[i + 1] == 10,
        call_ensures(TargetEolStrategy::for_platform, (settings, platform), strategy),
        call_ensures(
            TargetEolStrategy::convert_eol_for_snapshot,
            (&strategy, contents, attr),
            r,
        ),
    ensures
        r@ == without_cr(contents@),
        forall|i: int| 0 <= i < r@.len() ==> #[trigger] r@[i] != 13,
{
    let bytes = contents@;
    let part = eol::probed_part(bytes);
    assert forall|i: int| 0 <= i < part.len() implies !#[trigger] eol::binary_at(part, i) by {
        assert(part[i] == bytes[i]);
        if i + 1 < part.len() {
            assert(part[i + 1] == bytes[i + 1]);
        } else if bytes[i] == 13 {
            assert(i + 1 < bytes.len() && bytes[i + 1] == 10);
        }
    }
    assert(!eol::probed_binary(bytes));
    assert(seq![97u8, 117u8, 116u8, 111u8] =~= eol::auto_text());
    assert(eol::lf() =~= seq![10u8]);
    eol::lemma_lf_leaves_no_cr(bytes);
    lemma_line_ends_keep_bytes(bytes, seq![10u8]);
    lemma_no_cr_to_leave_out(r@);
}

/// What is converted for the working copy is a text that is to have CRLF line endings there.
/// Any other file comes to the working copy as it is in the store.
pub proof fn lemma_update_conversion(
    strategy: TargetEolStrategy,
    contents: Vec<u8>,
    attr: EolGitAttributes,
    mode: EffectiveEolMode,
    binary: bool,
    to_crlf: Vec<u8>,
    r: Vec<u8>,
)
    requires
        call_ensures(TargetEolStrategy::get_effective_eol_mode, (&strategy, attr), mode),
        call_ensures(eol::probe_for_binary, (&contents,), binary),
        call_ensures(eol::convert_eol, (contents, TargetEol::Crlf), to_crlf),
        call_ensures(
            TargetEolStrategy::convert_eol_for_update,
            (&strategy, contents, attr),
            r,
        ),
    ensures
        mode == EffectiveEolMode::Text(ConvertMode::InputOutput) ==> r@ == to_crlf@,
        mode == EffectiveEolMode::Auto(ConvertMode::InputOutput) && !binary ==> r@ == to_crlf@,
        mode == EffectiveEolMode::Auto(ConvertMode::InputOutput) && binary ==> r@ == contents@,
        mode is Binary || mode == EffectiveEolMode::Text(ConvertMode::Input) || mode
            == EffectiveEolMode::Auto(ConvertMode::Input) ==> r@ == contents@,
{
}

/// Attributes count exactly where the settings say so. Where they do not, all files are
/// treated as if there were none.
pub proof fn lemma_attributes_used(
    settings: EolConversionSettings,
    platform: Platform,
    strategy: TargetEolStrategy,
    attr: EolGitAttributes,
    none: EolGitAttributes,
    mode: EffectiveEolMode,
    by_attr: EffectiveEolMode,
    by_none: EffectiveEolMode,
    needs: bool,
)
    requires
        call_ensures(TargetEolStrategy::for_platform, (settings, platform), strategy),
        call_ensures(EolGitAttributes::unspecified, (), none),
        call_ensures(TargetEolStrategy::get_effective_eol_mode, (&strategy, attr), mode),
        call_ensures(EffectiveEolMode::new, (attr, &settings, platform), by_attr),
        call_ensures(EffectiveEolMode::new, (none, &settings, platform), by_none),
        call_ensures(TargetEolStrategy::needs_git_attributes, (&strategy,), needs),
    ensures
        needs == settings.use_git_attributes,
        mode == if settings.use_git_attributes {
            by_attr
        } else {
            by_none
        },
        none@.text is Unspecified && none@.eol is Unspecified && none@.crlf is Unspecified,
{
}

/// A file whose contents are not to be looked at comes through unchanged. If they are to be
/// looked at, some file would be changed.
pub proof fn lemma_reads_where_needed(
    strategy: TargetEolStrategy,
    attr: EolGitAttributes,
    contents: Vec<u8>,
    for_snapshot: bool,
    for_update: bool,
    snapshot: Vec<u8>,
    update: Vec<u8>,
)
    requires
        call_ensures(TargetEolStrategy::reads_for_snapshot, (&strategy, attr), for_snapshot),
        call_ensures(TargetEolStrategy::reads_for_update, (&strategy, attr), for_update),
        call_ensures(
            TargetEolStrategy::convert_eol_for_snapshot,
            (&strategy, contents, attr),
            snapshot,
        ),
        call_ensures(
            TargetEolStrategy::convert_eol_for_update,
            (&strategy, contents, attr),
            update,
        ),
    ensures
        !for_snapshot ==> snapshot@ == contents@,
        !for_update ==> update@ == contents@,
        for_snapshot && contents@ == seq![13u8, 10u8] ==> snapshot@ == seq![10u8],
        for_update && contents@ == seq![10u8] ==> update@ == seq![13u8, 10u8],
{
    reveal_with_fuel(eol::with_line_ends, 3);
    if contents@ == seq![13u8, 10u8] {
        assert(contents@.skip(2) =~= Seq::empty());
        assert(eol::lf() + Seq::empty() =~= seq![10u8]);
        assert forall|i: int| 0 <= i < contents@.len() implies !#[trigger] eol::binary_at(
            contents@,
            i,
        ) by {}
        assert(!eol::probed_binary(contents@));
    }
    if contents@ == seq![10u8] {
        assert(contents@.skip(1) =~= Seq::empty());
        assert(eol::crlf() + Seq::empty() =~= seq![13u8, 10u8]);
        assert forall|i: int| 0 <= i < contents@.len() implies !#[trigger] eol::binary_at(
            contents@,
            i,
        ) by {}
        assert(!eol::probed_binary(contents@));
    }
}

/// The state that is found for each of the attributes is that of the attribute of its name.
pub proof fn lemma_states_of_names(
    sources: Seq<attr_search::AttrSource>,
    path: Seq<char>,
    i: int,
)
    requires
        0 <= i < eol::eol_names().len(),
    ensures
        ({
            let found = attr_search::matched_states(sources, path, eol::eol_names());
            let states = eol::eol_states(sources, path);
            &&& eol::eol_names()[i] == "text"@ ==> states.text == found[i]
            &&& eol::eol_names()[i] == "eol"@ ==> states.eol == found[i]
            &&& eol::eol_names()[i] == "crlf"@ ==> states.crlf == found[i]
        }),
        eol::eol_names().contains("text"@),
        eol::eol_names().contains("eol"@),
        eol::eol_names().contains("crlf"@),
{
    reveal_strlit("text");
    reveal_strlit("eol");
    reveal_strlit("crlf");
    assert("text"@.len() == 4 && "eol"@.len() == 3 && "crlf"@.len() == 4);
    assert("text"@[0] == 't' && "crlf"@[0] == 'c');
    let names = eol::eol_names();
    assert(names[0] == "text"@ && names[1] == "eol"@ && names[2] == "crlf"@);
}

} // verus!
