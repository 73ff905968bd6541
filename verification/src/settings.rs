//! Settings of the user, and what of them bears on a working copy.

use vstd::prelude::*;

use crate::eol::EolConversionMode;
use crate::eol::EolConversionSettings;
use crate::file_state::ExecChangeSetting;
use crate::matchers::FsmonitorSettings;
use crate::text;

verus! {

/// The value of a setting.
#[derive(Clone, Debug, PartialEq, Eq)]
pub enum ConfigValue {
    Bool(bool),
    Text(String),
}

/// What is wrong with a setting.
#[derive(Clone, Copy, Debug, PartialEq, Eq, Structural)]
pub enum ConfigFault {
    /// It is not set.
    NotFound,
    /// It has a value that it cannot have.
    WrongType,
}

/// A setting could not be read.
#[derive(Clone, Debug, PartialEq, Eq)]
pub struct ConfigGetError {
    /// Dotted config name path.
    pub name: String,
    pub fault: ConfigFault,
}

impl View for ConfigGetError {
    type V = (Seq<char>, ConfigFault);

    open spec fn view(&self) -> (Seq<char>, ConfigFault) {
        (self.name@, self.fault)
    }
}

/// Settings by their names. The first one with a name counts.
#[derive(Clone, Debug, PartialEq, Eq)]
pub struct UserSettings {
    pub entries: Vec<(String, ConfigValue)>,
}

/// The value that a setting has.
pub open spec fn setting(entries: Seq<(String, ConfigValue)>, name: Seq<char>) -> Option<
    ConfigValue,
>
    decreases entries.len(),
{
    if entries.len() == 0 {
        None
    } else if entries[0].0@ == name {
        Some(entries[0].1)
    } else {
        setting(entries.drop_first(), name)
    }
}

/// A setting that is true or false.
pub open spec fn bool_setting(settings: UserSettings, name: Seq<char>) -> Result<
    bool,
    (Seq<char>, ConfigFault),
> {
    match setting(settings.entries@, name) {
        Some(ConfigValue::Bool(value)) => Ok(value),
        Some(ConfigValue::Text(_)) => Err((name, ConfigFault::WrongType)),
        None => Err((name, ConfigFault::NotFound)),
    }
}

/// A setting that is a text.
pub open spec fn text_setting(settings: UserSettings, name: Seq<char>) -> Result<
    Seq<char>,
    (Seq<char>, ConfigFault),
> {
    match setting(settings.entries@, name) {
        Some(ConfigValue::Text(value)) => Ok(value@),
        Some(ConfigValue::Bool(_)) => Err((name, ConfigFault::WrongType)),
        None => Err((name, ConfigFault::NotFound)),
    }
}

/// How line ends are converted, by name.
pub open spec fn eol_mode_named(name: Seq<char>) -> Option<EolConversionMode> {
    if name == "none"@ {
        Some(EolConversionMode::Disabled)
    } else if name == "input"@ {
        Some(EolConversionMode::Input)
    } else if name == "input-output"@ {
        Some(EolConversionMode::InputOutput)
    } else {
        None
    }
}

/// What is done about executable bits, by name.
pub open spec fn exec_setting_named(name: Seq<char>) -> Option<ExecChangeSetting> {
    if name == "ignore"@ {
        Some(ExecChangeSetting::Ignore)
    } else if name == "respect"@ {
        Some(ExecChangeSetting::Respect)
    } else if name == "auto"@ {
        Some(ExecChangeSetting::Auto)
    } else {
        None
    }
}

/// How conflicts are written into files.
#[derive(Clone, Copy, Debug, PartialEq, Eq, Structural)]
pub enum ConflictMarkerStyle {
    /// Style which shows a snapshot and a series of diffs to apply.
    Diff,
    /// Similar to "diff", but always picks the first side as the snapshot.
    DiffExperimental,
    /// Style which shows a snapshot for each base and side.
    Snapshot,
    /// Style which replicates Git's "diff3" style to support external tools.
    Git,
}

/// How conflicts are written, by name.
pub open spec fn marker_style_named(name: Seq<char>) -> Option<ConflictMarkerStyle> {
    if name == "diff"@ {
        Some(ConflictMarkerStyle::Diff)
    } else if name == "diff-experimental"@ {
        Some(ConflictMarkerStyle::DiffExperimental)
    } else if name == "snapshot"@ {
        Some(ConflictMarkerStyle::Snapshot)
    } else if name == "git"@ {
        Some(ConflictMarkerStyle::Git)
    } else {
        None
    }
}

/// A setting for the way conflicts are written.
pub open spec fn marker_style_setting(settings: UserSettings, name: Seq<char>) -> Result<
    ConflictMarkerStyle,
    (Seq<char>, ConfigFault),
> {
    match text_setting(settings, name) {
        Ok(value) => match marker_style_named(value) {
            Some(style) => Ok(style),
            None => Err((name, ConfigFault::WrongType)),
        },
        Err(err) => Err(err),
    }
}

/// A setting for the conversion of line ends.
pub open spec fn eol_mode_setting(settings: UserSettings, name: Seq<char>) -> Result<
    EolConversionMode,
    (Seq<char>, ConfigFault),
> {
    match text_setting(settings, name) {
        Ok(value) => match eol_mode_named(value) {
            Some(mode) => Ok(mode),
            None => Err((name, ConfigFault::WrongType)),
        },
        Err(err) => Err(err),
    }
}

/// A setting for executable bits.
pub open spec fn exec_change_setting(settings: UserSettings, name: Seq<char>) -> Result<
    ExecChangeSetting,
    (Seq<char>, ConfigFault),
> {
    match text_setting(settings, name) {
        Ok(value) => match exec_setting_named(value) {
            Some(mode) => Ok(mode),
            None => Err((name, ConfigFault::WrongType)),
        },
        Err(err) => Err(err),
    }
}

/// The settings for line ends.
pub open spec fn eol_settings(settings: UserSettings) -> Result<
    EolConversionSettings,
    (Seq<char>, ConfigFault),
> {
    match bool_setting(settings, "working-copy.eol-conversion-use-gitattributes"@) {
        Err(err) => Err(err),
        Ok(use_git_attributes) => match eol_mode_setting(
            settings,
            "working-copy.gitattributes-default-eol"@,
        ) {
            Err(err) => Err(err),
            Ok(default_eol_attributes) => match eol_mode_setting(
                settings,
                "working-copy.eol-conversion"@,
            ) {
                Err(err) => Err(err),
                Ok(eol_conversion_mode) => Ok(
                    EolConversionSettings {
                        use_git_attributes,
                        default_eol_attributes,
                        eol_conversion_mode,
                    },
                ),
            },
        },
    }
}

fn config_error(name: &str, fault: ConfigFault) -> (r: ConfigGetError)
    ensures
        r@ == (name@, fault),
{
    ConfigGetError { name: name.to_string(), fault }
}

impl UserSettings {
    fn find(&self, name: &str) -> (r: Option<&ConfigValue>)
        ensures
            match r {
                Some(value) => setting(self.entries@, name@) == Some(*value),
                None => setting(self.entries@, name@) is None,
            },
    {
        let ghost all = self.entries@;
        let mut i: usize = 0;
        assert(all.skip(0) =~= all);
        while i < self.entries.len()
            invariant
                i <= all.len(),
                all == self.entries@,
                setting(all, name@) == setting(all.skip(i as int), name@),
            decreases all.len() - i,
        {
            assert(all.skip(i as int).drop_first() =~= all.skip(i + 1));
            if text::str_eq(self.entries[i].0.as_str(), name) {
                return Some(&self.entries[i].1);
            }
            i += 1;
        }
        assert(all.skip(i as int).len() == 0);
        None
    }

    /// Reads a setting that is true or false.
    pub fn get_bool(&self, name: &str) -> (r: Result<bool, ConfigGetError>)
        ensures
            match r {
                Ok(value) => bool_setting(*self, name@) == Ok::<bool, (Seq<char>, ConfigFault)>(
                    value,
                ),
                Err(err) => bool_setting(*self, name@) == Err::<bool, (Seq<char>, ConfigFault)>(
                    err@,
                ),
            },
    {
        match self.find(name) {
            Some(ConfigValue::Bool(value)) => Ok(*value),
            Some(ConfigValue::Text(_)) => Err(config_error(name, ConfigFault::WrongType)),
            None => Err(config_error(name, ConfigFault::NotFound)),
        }
    }

    /// Reads a setting that is a text.
    pub fn get_text(&self, name: &str) -> (r: Result<String, ConfigGetError>)
        ensures
            match r {
                Ok(value) => text_setting(*self, name@) == Ok::<
                    Seq<char>,
                    (Seq<char>, ConfigFault),
                >(value@),
                Err(err) => text_setting(*self, name@) == Err::<
                    Seq<char>,
                    (Seq<char>, ConfigFault),
                >(err@),
            },
    {
        match self.find(name) {
            Some(ConfigValue::Text(value)) => Ok(value.clone()),
            Some(ConfigValue::Bool(_)) => Err(config_error(name, ConfigFault::WrongType)),
            None => Err(config_error(name, ConfigFault::NotFound)),
        }
    }

    fn get_eol_mode(&self, name: &str) -> (r: Result<EolConversionMode, ConfigGetError>)
        ensures
            match r {
                Ok(mode) => eol_mode_setting(*self, name@) == Ok::<
                    EolConversionMode,
                    (Seq<char>, ConfigFault),
                >(mode),
                Err(err) => eol_mode_setting(*self, name@) == Err::<
                    EolConversionMode,
                    (Seq<char>, ConfigFault),
                >(err@),
            },
    {
        match self.get_text(name) {
            Ok(value) => if text::str_eq(value.as_str(), "none") {
                Ok(EolConversionMode::Disabled)
            } else if text::str_eq(value.as_str(), "input") {
                Ok(EolConversionMode::Input)
            } else if text::str_eq(value.as_str(), "input-output") {
                Ok(EolConversionMode::InputOutput)
            } else {
                Err(config_error(name, ConfigFault::WrongType))
            },
            Err(err) => Err(err),
        }
    }

    fn get_marker_style(&self, name: &str) -> (r: Result<ConflictMarkerStyle, ConfigGetError>)
        ensures
            match r {
                Ok(style) => marker_style_setting(*self, name@) == Ok::<
                    ConflictMarkerStyle,
                    (Seq<char>, ConfigFault),
                >(style),
                Err(err) => marker_style_setting(*self, name@) == Err::<
                    ConflictMarkerStyle,
                    (Seq<char>, ConfigFault),
                >(err@),
            },
    {
        match self.get_text(name) {
            Ok(value) => if text::str_eq(value.as_str(), "diff") {
                Ok(ConflictMarkerStyle::Diff)
            } else if text::str_eq(value.as_str(), "diff-experimental") {
                Ok(ConflictMarkerStyle::DiffExperimental)
            } else if text::str_eq(value.as_str(), "snapshot") {
                Ok(ConflictMarkerStyle::Snapshot)
            } else if text::str_eq(value.as_str(), "git") {
                Ok(ConflictMarkerStyle::Git)
            } else {
                Err(config_error(name, ConfigFault::WrongType))
            },
            Err(err) => Err(err),
        }
    }

    fn get_exec_change(&self, name: &str) -> (r: Result<ExecChangeSetting, ConfigGetError>)
        ensures
            match r {
                Ok(mode) => exec_change_setting(*self, name@) == Ok::<
                    ExecChangeSetting,
                    (Seq<char>, ConfigFault),
                >(mode),
                Err(err) => exec_change_setting(*self, name@) == Err::<
                    ExecChangeSetting,
                    (Seq<char>, ConfigFault),
                >(err@),
            },
    {
        match self.get_text(name) {
            Ok(value) => if text::str_eq(value.as_str(), "ignore") {
                Ok(ExecChangeSetting::Ignore)
            } else if text::str_eq(value.as_str(), "respect") {
                Ok(ExecChangeSetting::Respect)
            } else if text::str_eq(value.as_str(), "auto") {
                Ok(ExecChangeSetting::Auto)
            } else {
                Err(config_error(name, ConfigFault::WrongType))
            },
            Err(err) => Err(err),
        }
    }
}

impl EolConversionSettings {
    /// Try to create the [`EolConversionSettings`] based on the
    /// [`UserSettings`].
    pub fn try_from_settings(user_settings: &UserSettings) -> (r: Result<
        EolConversionSettings,
        ConfigGetError,
    >)
        ensures
            match r {
                Ok(settings) => eol_settings(*user_settings) == Ok::<
                    EolConversionSettings,
                    (Seq<char>, ConfigFault),
                >(settings),
                Err(err) => eol_settings(*user_settings) == Err::<
                    EolConversionSettings,
                    (Seq<char>, ConfigFault),
                >(err@),
            },
    {
        let use_git_attributes = match user_settings.get_bool(
            "working-copy.eol-conversion-use-gitattributes",
        ) {
            Ok(value) => value,
            Err(err) => return Err(err),
        };
        let default_eol_attributes = match user_settings.get_eol_mode(
            "working-copy.gitattributes-default-eol",
        ) {
            Ok(value) => value,
            Err(err) => return Err(err),
        };
        let eol_conversion_mode = match user_settings.get_eol_mode("working-copy.eol-conversion") {
            Ok(value) => value,
            Err(err) => return Err(err),
        };
        Ok(
            EolConversionSettings {
                use_git_attributes,
                default_eol_attributes,
                eol_conversion_mode,
            },
        )
    }
}

/// Settings specific to the tree state of a local working copy.
#[derive(Debug)]
pub struct TreeStateSettings {
    /// Conflict marker style to use when materializing files or when checking
    /// changed files.
    pub conflict_marker_style: ConflictMarkerStyle,
    /// Configuring auto-converting CRLF line endings into LF when you add a
    /// file to the backend, and vice versa when it checks out code onto your
    /// filesystem.
    pub eol_conversion_settings: EolConversionSettings,
    /// Whether to ignore changes to the executable bit for files on Unix.
    pub exec_change_setting: ExecChangeSetting,
    /// The fsmonitor (e.g. Watchman) to use, if any.
    pub fsmonitor_settings: FsmonitorSettings,
}

/// The first setting of a tree state that cannot be read.
pub open spec fn tree_state_settings_fault(
    settings: UserSettings,
    fsmonitor_settings: Result<FsmonitorSettings, ConfigGetError>,
) -> Option<(Seq<char>, ConfigFault)> {
    match marker_style_setting(settings, "ui.conflict-marker-style"@) {
        Err(err) => Some(err),
        Ok(_) => match eol_settings(settings) {
            Err(err) => Some(err),
            Ok(_) => match exec_change_setting(settings, "working-copy.exec-bit-change"@) {
                Err(err) => Some(err),
                Ok(_) => match fsmonitor_settings {
                    Err(err) => Some(err@),
                    Ok(_) => None,
                },
            },
        },
    }
}

impl TreeStateSettings {
    /// Copies these settings.
    pub fn duplicate(&self) -> (r: TreeStateSettings)
        ensures
            r.conflict_marker_style == self.conflict_marker_style,
            r.eol_conversion_settings == self.eol_conversion_settings,
            r.exec_change_setting == self.exec_change_setting,
            r.fsmonitor_settings@ == self.fsmonitor_settings@,
    {
        TreeStateSettings {
            conflict_marker_style: self.conflict_marker_style,
            eol_conversion_settings: self.eol_conversion_settings,
            exec_change_setting: self.exec_change_setting,
            fsmonitor_settings: self.fsmonitor_settings.duplicate(),
        }
    }

    /// Create [`TreeStateSettings`] from [`UserSettings`]. `fsmonitor_settings` is
    /// what was found for the fsmonitor.
    pub fn try_from_user_settings(
        user_settings: &UserSettings,
        fsmonitor_settings: Result<FsmonitorSettings, ConfigGetError>,
    ) -> (r: Result<TreeStateSettings, ConfigGetError>)
        ensures
            match r {
                Ok(settings) => {
                    &&& marker_style_setting(*user_settings, "ui.conflict-marker-style"@) == Ok::<
                        ConflictMarkerStyle,
                        (Seq<char>, ConfigFault),
                    >(settings.conflict_marker_style)
                    &&& eol_settings(*user_settings) == Ok::<
                        EolConversionSettings,
                        (Seq<char>, ConfigFault),
                    >(settings.eol_conversion_settings)
                    &&& exec_change_setting(*user_settings, "working-copy.exec-bit-change"@)
                        == Ok::<ExecChangeSetting, (Seq<char>, ConfigFault)>(
                        settings.exec_change_setting,
                    )
                    &&& fsmonitor_settings == Ok::<FsmonitorSettings, ConfigGetError>(
                        settings.fsmonitor_settings,
                    )
                },
                Err(err) => tree_state_settings_fault(*user_settings, fsmonitor_settings) == Some(
                    err@,
                ),
            },
    {
        let conflict_marker_style = match user_settings.get_marker_style(
            "ui.conflict-marker-style",
        ) {
            Ok(value) => value,
            Err(err) => return Err(err),
        };
        let eol_conversion_settings = match EolConversionSettings::try_from_settings(
            user_settings,
        ) {
            Ok(value) => value,
            Err(err) => return Err(err),
        };
        let exec_change_setting = match user_settings.get_exec_change(
            "working-copy.exec-bit-change",
        ) {
            Ok(value) => value,
            Err(err) => return Err(err),
        };
        match fsmonitor_settings {
            Ok(fsmonitor_settings) => Ok(
                TreeStateSettings {
                    conflict_marker_style,
                    eol_conversion_settings,
                    exec_change_setting,
                    fsmonitor_settings,
                },
            ),
            Err(err) => Err(err),
        }
    }
}

} // verus!
