//! The configuration file: its settings, their defaults, and where the
//! file lives.
use vstd::prelude::*;
use crate::text::{chars_of, string_of};

verus! {

/// The `[general]` settings.
#[derive(Debug)]
pub struct GeneralConfig {
    pub aur_only: bool,
    pub repo_only: bool,
    pub verbose: bool,
    pub diff_prog: String,
    pub build_dir: String,
    pub animations: bool,
}

/// The whole configuration file.
#[derive(Debug)]
pub struct HajConfig {
    pub general: GeneralConfig,
}

/// `base` with the relative path `rel` appended, as `Path::join` does on
/// Unix: a `/` goes between them unless `base` is empty or ends with one.
pub open spec fn join_path(base: Seq<char>, rel: Seq<char>) -> Seq<char> {
    if base.len() > 0 && base.last() != '/' {
        base + "/"@ + rel
    } else {
        base + rel
    }
}

pub fn join_path_exec(base: &str, rel: &str) -> (r: String)
    ensures
        r@ == join_path(base@, rel@),
{
    let b = chars_of(base);
    if b.len() > 0 && b[b.len() - 1] != '/' {
        base.to_string().concat("/").concat(rel)
    } else {
        base.to_string().concat(rel)
    }
}

/// Where AUR packages are built by default: `.cache/haj/aur` in the home
/// directory, or under `/` when the home directory is unknown.
pub open spec fn default_build_dir(home: Option<Seq<char>>) -> Seq<char> {
    join_path(
        match home {
            Some(h) => h,
            None => "/"@,
        },
        ".cache/haj/aur"@,
    )
}

impl GeneralConfig {
    /// The settings of a fresh configuration, for the home directory
    /// `home` (none when `HOME` is unset).
    pub fn defaults_for_home(home: Option<&str>) -> (r: GeneralConfig)
        ensures
            !r.aur_only,
            !r.repo_only,
            !r.verbose,
            r.diff_prog@ == "vimdiff"@,
            r.build_dir@ == default_build_dir(
                match home {
                    Some(h) => Some(h@),
                    None => None,
                },
            ),
            r.animations,
    {
        let base = match home {
            Some(h) => h,
            None => "/",
        };
        GeneralConfig {
            aur_only: false,
            repo_only: false,
            verbose: false,
            diff_prog: "vimdiff".to_string(),
            build_dir: join_path_exec(base, ".cache/haj/aur"),
            animations: true,
        }
    }
}

impl HajConfig {
    /// A fresh configuration for the home directory `home`.
    pub fn defaults_for_home(home: Option<&str>) -> (r: HajConfig)
        ensures
            !r.general.aur_only,
            !r.general.repo_only,
            !r.general.verbose,
            r.general.diff_prog@ == "vimdiff"@,
            r.general.build_dir@ == default_build_dir(
                match home {
                    Some(h) => Some(h@),
                    None => None,
                },
            ),
            r.general.animations,
    {
        HajConfig { general: GeneralConfig::defaults_for_home(home) }
    }
}

/// The directory of the configuration: `haj` in `XDG_CONFIG_HOME`, else in
/// `.config` of the home directory, else `/etc/haj/haj`.
pub open spec fn config_dir_spec(xdg: Option<Seq<char>>, home: Option<Seq<char>>) -> Seq<char> {
    let base = match xdg {
        Some(x) => x,
        None => match home {
            Some(h) => join_path(h, ".config"@),
            None => "/etc/haj"@,
        },
    };
    join_path(base, "haj"@)
}

pub fn config_dir(xdg: Option<&str>, home: Option<&str>) -> (r: String)
    ensures
        r@ == config_dir_spec(
            match xdg {
                Some(x) => Some(x@),
                None => None,
            },
            match home {
                Some(h) => Some(h@),
                None => None,
            },
        ),
{
    let base = match xdg {
        Some(x) => x.to_string(),
        None => match home {
            Some(h) => join_path_exec(h, ".config"),
            None => "/etc/haj".to_string(),
        },
    };
    join_path_exec(base.as_str(), "haj")
}

/// The path of the configuration file in its directory.
pub fn config_file(dir: &str) -> (r: String)
    ensures
        r@ == join_path(dir@, "config.toml"@),
{
    join_path_exec(dir, "config.toml")
}

/// The text written to the configuration file: a comment line, a blank
/// line and the settings.
pub fn config_file_text(settings: &str) -> (r: String)
    ensures
        r@ == "# haj package manager configuration\n\n"@ + settings@,
{
    "# haj package manager configuration\n\n".to_string().concat(settings)
}

/// The command-line switches after the configuration: a switch given on
/// the command line, or set in the file, is on.
pub fn apply_config(aur: bool, repo: bool, verbose: bool, general: &GeneralConfig) -> (r: (
    bool,
    bool,
    bool,
))
    ensures
        r == (aur || general.aur_only, repo || general.repo_only, verbose || general.verbose),
{
    (aur || general.aur_only, repo || general.repo_only, verbose || general.verbose)
}

} // verus!
