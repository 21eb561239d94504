//! The typed configuration that a sort run consumes.

use vstd::prelude::*;
use crate::text::{copy_str, push_str_chars};

verus! {

/// Which of a rule's two destination paths is authoritative.
#[derive(Clone, Copy, Debug, PartialEq, Eq, Structural)]
pub enum Mode {
    Relative,
    Absolute,
}

/// Where the directory to sort comes from when none is given.
#[derive(Clone, Copy, Debug, PartialEq, Eq, Structural)]
pub enum Target {
    Required,
    Downloads,
    CurrentDir,
}

/// One sorting rule ("preset"): the extensions it claims and where matching entries go.
#[derive(Clone, Debug)]
pub struct PresetConfig {
    pub name: String,
    pub enabled: bool,
    pub extension: Vec<String>,
    pub relative_path: Option<String>,
    pub absolute_path: Option<String>,
}

/// Settings that apply to a whole run.
#[derive(Clone, Debug)]
pub struct GeneralConfig {
    pub target: Option<Target>,
    pub mode: Mode,
    pub presets_path: Option<String>,
}

/// A validated configuration: the general settings and the rules in declared order.
#[derive(Clone, Debug)]
pub struct IrisConfig {
    pub general: GeneralConfig,
    pub presets: Vec<PresetConfig>,
}

/// Why the directory to sort could not be determined.
#[derive(Clone, Copy, Debug, PartialEq, Eq, Structural)]
pub enum TargetResolutionError {
    PathRequiredButNotProvided,
    FailedToGetDownloadsDir,
    FailedToGetCurrentDir,
    ProvidedPathInvalid,
}

impl TargetResolutionError {
    /// The text shown to the user.
    pub open spec fn text(self) -> Seq<char> {
        match self {
            TargetResolutionError::PathRequiredButNotProvided =>
                "target is set to 'required' in config. you must provide a path"@,
            TargetResolutionError::ProvidedPathInvalid => "provided path doesn't exist or is invalid"@,
            TargetResolutionError::FailedToGetCurrentDir => "failed to get current working directory"@,
            TargetResolutionError::FailedToGetDownloadsDir => "failed to get downloads directory"@,
        }
    }

    /// The text shown to the user.
    pub fn message(&self) -> (r: String)
        ensures
            r@ == self.text(),
    {
        match self {
            TargetResolutionError::PathRequiredButNotProvided =>
                copy_str("target is set to 'required' in config. you must provide a path"),
            TargetResolutionError::ProvidedPathInvalid => copy_str("provided path doesn't exist or is invalid"),
            TargetResolutionError::FailedToGetCurrentDir => copy_str("failed to get current working directory"),
            TargetResolutionError::FailedToGetDownloadsDir => copy_str("failed to get downloads directory"),
        }
    }
}

/// Where the directory to sort comes from.
#[derive(Clone, Debug, PartialEq, Eq)]
pub enum TargetChoice {
    /// The path given on the command line.
    Given(String),
    /// The user's downloads directory.
    DownloadsDir,
    /// The working directory.
    CurrentDir,
}

/// Decides where the directory to sort comes from: a given path always wins; otherwise the
/// config's `target` names the downloads or the working directory, and a required (or absent)
/// target without a path is an error.
pub fn choose_target(target: Option<Target>, cli_path: Option<&String>) -> (r: Result<TargetChoice, TargetResolutionError>)
    ensures
        match cli_path {
            Some(p) => r matches Ok(TargetChoice::Given(s)) && s@ == p@,
            None => match target {
                Some(Target::Downloads) => r == Ok::<TargetChoice, TargetResolutionError>(TargetChoice::DownloadsDir),
                Some(Target::CurrentDir) => r == Ok::<TargetChoice, TargetResolutionError>(TargetChoice::CurrentDir),
                _ => r == Err::<TargetChoice, TargetResolutionError>(TargetResolutionError::PathRequiredButNotProvided),
            },
        },
{
    match cli_path {
        Some(p) => Ok(TargetChoice::Given(copy_str(p.as_str()))),
        None => match target {
            Some(Target::Downloads) => Ok(TargetChoice::DownloadsDir),
            Some(Target::CurrentDir) => Ok(TargetChoice::CurrentDir),
            _ => Err(TargetResolutionError::PathRequiredButNotProvided),
        },
    }
}

/// Why a configuration file was rejected.
#[derive(Clone, Debug)]
pub enum ValidationError {
    MissingSection { section: String },
    MissingKey { key: String, section: String },
    InvalidValue { key: String, value: String },
    InvalidKey { preset: String, key: String },
    NoEntries { section: String },
    NoEnabledPresets,
    Io(String),
}

impl ValidationError {
    /// The text shown to the user.
    pub open spec fn text(self) -> Seq<char> {
        match self {
            ValidationError::MissingSection { section } => "missing "@ + section@ + " section in config file"@,
            ValidationError::MissingKey { key, section } =>
                "missing key '"@ + key@ + "' in "@ + section@ + " section"@,
            ValidationError::InvalidValue { key, value } =>
                "invalid value '"@ + value@ + "' for key '"@ + key@ + "'"@,
            ValidationError::InvalidKey { preset, key } => "invalid key '"@ + key@ + "' in "@ + preset@,
            ValidationError::NoEntries { section } => "no entries for "@ + section@ + " section"@,
            ValidationError::NoEnabledPresets =>
                "There are no enabled presets in the [preset] section of the config file."@,
            ValidationError::Io(e) => "input/output error while validating config: "@ + e@,
        }
    }

    /// The text shown to the user.
    pub fn message(&self) -> (r: String)
        ensures
            r@ == self.text(),
    {
        match self {
            ValidationError::MissingSection { section } => {
                let mut m = copy_str("missing ");
                push_str_chars(&mut m, section.as_str());
                push_str_chars(&mut m, " section in config file");
                m
            },
            ValidationError::MissingKey { key, section } => {
                let mut m = copy_str("missing key '");
                push_str_chars(&mut m, key.as_str());
                push_str_chars(&mut m, "' in ");
                push_str_chars(&mut m, section.as_str());
                push_str_chars(&mut m, " section");
                m
            },
            ValidationError::InvalidValue { key, value } => {
                let mut m = copy_str("invalid value '");
                push_str_chars(&mut m, value.as_str());
                push_str_chars(&mut m, "' for key '");
                push_str_chars(&mut m, key.as_str());
                push_str_chars(&mut m, "'");
                m
            },
            ValidationError::InvalidKey { preset, key } => {
                let mut m = copy_str("invalid key '");
                push_str_chars(&mut m, key.as_str());
                push_str_chars(&mut m, "' in ");
                push_str_chars(&mut m, preset.as_str());
                m
            },
            ValidationError::NoEntries { section } => {
                let mut m = copy_str("no entries for ");
                push_str_chars(&mut m, section.as_str());
                push_str_chars(&mut m, " section");
                m
            },
            ValidationError::NoEnabledPresets =>
                copy_str("There are no enabled presets in the [preset] section of the config file."),
            ValidationError::Io(e) => {
                let mut m = copy_str("input/output error while validating config: ");
                push_str_chars(&mut m, e.as_str());
                m
            },
        }
    }
}

} // verus!
