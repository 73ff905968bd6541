//! What the settings of the user mean.
//!
//! The laws speak of what the functions are called with and of what they return.

use vstd::prelude::*;

use crate::eol::EolConversionMode;
use crate::eol::EolConversionSettings;
use crate::file_state::ExecChangeSetting;
use crate::matchers::FsmonitorSettings;
use crate::settings;
use crate::settings::ConfigFault;
use crate::settings::ConfigGetError;
use crate::settings::ConfigValue;
use crate::settings::ConflictMarkerStyle;
use crate::settings::TreeStateSettings;
use crate::settings::UserSettings;

verus! {

/// The first entry with a name is the one that counts.
proof fn lemma_first_entry(entries: Seq<(String, ConfigValue)>, name: Seq<char>, i: int)
    requires
        0 <= i <= entries.len(),
        forall|j: int| 0 <= j < i ==> (#[trigger] entries[j]).0@ != name,
        i < entries.len() ==> entries[i].0@ == name,
    ensures
        settings::setting(entries, name) == if i < entries.len() {
            Some(entries[i].1)
        } else {
            None
        },
    decreases i,
{
    if i > 0 {
        let rest = entries.drop_first();
        assert(entries[0].0@ != name);
        assert forall|j: int| 0 <= j < i - 1 implies (#[trigger] rest[j]).0@ != name by {
            assert(rest[j] == entries[j + 1]);
        }
        lemma_first_entry(rest, name, i - 1);
    }
}

/// A setting has the value of the first entry with its name. It cannot be read if there is
/// none, or if that has a value of another type; the error names it.
pub proof fn lemma_setting_read(
    user_settings: UserSettings,
    name: &str,
    i: int,
    text: Result<String, ConfigGetError>,
    flag: Result<bool, ConfigGetError>,
)
    requires
        0 <= i <= user_settings.entries@.len(),
        forall|j: int| 0 <= j < i ==> (#[trigger] user_settings.entries@[j]).0@ != name@,
        i < user_settings.entries@.len() ==> user_settings.entries@[i].0@ == name@,
        call_ensures(UserSettings::get_text, (&user_settings, name), text),
        call_ensures(UserSettings::get_bool, (&user_settings, name), flag),
    ensures
        i == user_settings.entries@.len() ==> {
            &&& text matches Err(err) && err.name@ == name@ && err.fault == ConfigFault::NotFound
            &&& flag matches Err(err) && err.name@ == name@ && err.fault == ConfigFault::NotFound
        },
        i < user_settings.entries@.len() ==> match user_settings.entries@[i].1 {
            ConfigValue::Text(value) => {
                &&& text matches Ok(found) && found@ == value@
                &&& flag matches Err(err) && err.name@ == name@ && err.fault
                    == ConfigFault::WrongType
            },
            ConfigValue::Bool(value) => {
                &&& flag matches Ok(found) && found == value
                &&& text matches Err(err) && err.name@ == name@ && err.fault
                    == ConfigFault::WrongType
            },
        },
{
    lemma_first_entry(user_settings.entries@, name@, i);
}

/// How line endings are converted is what the three settings say. All of them have to be
/// set, to values that they can have.
pub proof fn lemma_eol_settings_read(
    user_settings: UserSettings,
    use_git_attributes: Result<bool, ConfigGetError>,
    default_eol: Result<String, ConfigGetError>,
    conversion: Result<String, ConfigGetError>,
    r: Result<EolConversionSettings, ConfigGetError>,
)
    requires
        call_ensures(
            UserSettings::get_bool,
            (&user_settings, "working-copy.eol-conversion-use-gitattributes"),
            use_git_attributes,
        ),
        call_ensures(
            UserSettings::get_text,
            (&user_settings, "working-copy.gitattributes-default-eol"),
            default_eol,
        ),
        call_ensures(
            UserSettings::get_text,
            (&user_settings, "working-copy.eol-conversion"),
            conversion,
        ),
        call_ensures(EolConversionSettings::try_from_settings, (&user_settings,), r),
    ensures
        r is Ok <==> {
            &&& use_git_attributes is Ok
            &&& default_eol matches Ok(name) && (name@ == "none"@ || name@ == "input"@ || name@
                == "input-output"@)
            &&& conversion matches Ok(name) && (name@ == "none"@ || name@ == "input"@ || name@
                == "input-output"@)
        },
        r matches Ok(read) ==> {
            &&& use_git_attributes == Ok::<bool, ConfigGetError>(read.use_git_attributes)
            &&& default_eol->Ok_0@ == match read.default_eol_attributes {
                EolConversionMode::Disabled => "none"@,
                EolConversionMode::Input => "input"@,
                EolConversionMode::InputOutput => "input-output"@,
            }
            &&& conversion->Ok_0@ == match read.eol_conversion_mode {
                EolConversionMode::Disabled => "none"@,
                EolConversionMode::Input => "input"@,
                EolConversionMode::InputOutput => "input-output"@,
            }
        },
        r matches Err(err) ==> if use_git_attributes is Err {
            err@ == use_git_attributes->Err_0@
        } else if default_eol is Err {
            err@ == default_eol->Err_0@
        } else if default_eol->Ok_0@ != "none"@ && default_eol->Ok_0@ != "input"@
            && default_eol->Ok_0@ != "input-output"@ {
            err.name@ == "working-copy.gitattributes-default-eol"@ && err.fault
                == ConfigFault::WrongType
        } else if conversion is Err {
            err@ == conversion->Err_0@
        } else {
            err.name@ == "working-copy.eol-conversion"@ && err.fault == ConfigFault::WrongType
        },
{
}

/// The settings of a tree state are what the settings of the user say. They cannot be read if
/// one of them cannot.
pub proof fn lemma_tree_state_settings_read(
    user_settings: UserSettings,
    fsmonitor: Result<FsmonitorSettings, ConfigGetError>,
    style: Result<String, ConfigGetError>,
    eol: Result<EolConversionSettings, ConfigGetError>,
    exec: Result<String, ConfigGetError>,
    r: Result<TreeStateSettings, ConfigGetError>,
)
    requires
        call_ensures(
            UserSettings::get_text,
            (&user_settings, "ui.conflict-marker-style"),
            style,
        ),
        call_ensures(EolConversionSettings::try_from_settings, (&user_settings,), eol),
        call_ensures(
            UserSettings::get_text,
            (&user_settings, "working-copy.exec-bit-change"),
            exec,
        ),
        call_ensures(
            TreeStateSettings::try_from_user_settings,
            (&user_settings, fsmonitor),
            r,
        ),
    ensures
        r is Ok <==> {
            &&& style matches Ok(name) && (name@ == "diff"@ || name@ == "diff-experimental"@
                || name@ == "snapshot"@ || name@ == "git"@)
            &&& eol is Ok
            &&& exec matches Ok(name) && (name@ == "ignore"@ || name@ == "respect"@ || name@
                == "auto"@)
            &&& fsmonitor is Ok
        },
        r matches Ok(read) ==> {
            &&& style->Ok_0@ == match read.conflict_marker_style {
                ConflictMarkerStyle::Diff => "diff"@,
                ConflictMarkerStyle::DiffExperimental => "diff-experimental"@,
                ConflictMarkerStyle::Snapshot => "snapshot"@,
                ConflictMarkerStyle::Git => "git"@,
            }
            &&& read.eol_conversion_settings == eol->Ok_0
            &&& exec->Ok_0@ == match read.exec_change_setting {
                ExecChangeSetting::Ignore => "ignore"@,
                ExecChangeSetting::Respect => "respect"@,
                ExecChangeSetting::Auto => "auto"@,
            }
            &&& read.fsmonitor_settings == fsmonitor->Ok_0
        },
        r matches Err(err) ==> {
            ||| style is Err && err@ == style->Err_0@
            ||| style is Ok && err.name@ == "ui.conflict-marker-style"@ && err.fault
                == ConfigFault::WrongType
            ||| eol is Err && err@ == eol->Err_0@
            ||| exec is Err && err@ == exec->Err_0@
            ||| exec is Ok && err.name@ == "working-copy.exec-bit-change"@ && err.fault
                == ConfigFault::WrongType
            ||| fsmonitor is Err && err@ == fsmonitor->Err_0@
        },
        style is Err ==> (r matches Err(err) && err@ == style->Err_0@),
{
}

} // verus!
