//! Configuration: the settings of `config.toml` with their defaults, the
//! picker height per mode, and which directories hold the tricks.
//!
//! Reading the file and the environment is the caller's; the values read
//! are handed in here.

use vstd::prelude::*;
use crate::matcher::strings_view;
use crate::runner::non_empty;
use crate::text::{chars_of, eq_exec, split_char, split_char_exec, string_of, view_all};

verus! {

/// Whether commands run from the picker are recorded.
pub struct HistoryConfig {
    pub enabled: bool,
}

impl Default for HistoryConfig {
    fn default() -> (r: HistoryConfig)
        ensures
            r.enabled,
    {
        HistoryConfig { enabled: true }
    }
}

/// Picker settings.
pub struct PickerConfig {
    /// Number of rows for the preview pane. Default: 7.
    pub preview_height: usize,
    /// Default window height: "full" (alternate screen), "40%", or "20"
    /// (rows). Default: "full".
    pub height: String,
    /// Override height for tricks mode.
    pub tricks_height: Option<String>,
}

impl Default for PickerConfig {
    fn default() -> (r: PickerConfig)
        ensures
            r.preview_height == 7,
            r.height@ == seq!['f', 'u', 'l', 'l'],
            r.tricks_height is None,
    {
        PickerConfig { preview_height: 7, height: string_of(&vec!['f', 'u', 'l', 'l']), tricks_height: None }
    }
}

/// The height setting for a mode: the tricks override in tricks mode when
/// it is set, the default height otherwise.
pub open spec fn height_setting(c: PickerConfig, mode: Seq<char>) -> Seq<char> {
    if mode == seq!['t', 'r', 'i', 'c', 'k', 's'] && c.tricks_height is Some {
        c.tricks_height->0@
    } else {
        c.height@
    }
}

impl PickerConfig {
    /// Resolve the height for a given mode, falling back to the default
    /// `height`.
    pub fn height_for(&self, mode: &str) -> (r: &str)
        ensures
            r@ == height_setting(*self, mode@),
    {
        let tricks: Vec<char> = vec!['t', 'r', 'i', 'c', 'k', 's'];
        assert(tricks@ == seq!['t', 'r', 'i', 'c', 'k', 's']);
        if eq_exec(&chars_of(mode), &tricks) {
            match &self.tricks_height {
                Some(t) => t.as_str(),
                None => self.height.as_str(),
            }
        } else {
            self.height.as_str()
        }
    }
}

/// Where the tricks live, as configured.
pub struct PathsConfig {
    pub tricks: Vec<String>,
}

impl Default for PathsConfig {
    fn default() -> (r: PathsConfig)
        ensures
            r.tricks@.len() == 0,
    {
        PathsConfig { tricks: Vec::new() }
    }
}

/// Colours of the list columns.
pub struct StyleConfig {
    pub tag_color: String,
    pub comment_color: String,
    pub snippet_color: String,
}

impl Default for StyleConfig {
    fn default() -> (r: StyleConfig)
        ensures
            r.tag_color@ == seq!['c', 'y', 'a', 'n'],
            r.comment_color@ == seq!['b', 'l', 'u', 'e'],
            r.snippet_color@ == seq!['w', 'h', 'i', 't', 'e'],
    {
        StyleConfig {
            tag_color: string_of(&vec!['c', 'y', 'a', 'n']),
            comment_color: string_of(&vec!['b', 'l', 'u', 'e']),
            snippet_color: string_of(&vec!['w', 'h', 'i', 't', 'e']),
        }
    }
}

/// The shell that runs commands.
pub struct ShellConfig {
    pub command: String,
}

impl ShellConfig {
    /// The default shell: the value of `$SHELL` when it is set, `sh`
    /// otherwise.
    pub fn with_env_shell(env_shell: Option<String>) -> (r: ShellConfig)
        ensures
            r.command@ == match env_shell {
                Some(s) => s@,
                None => seq!['s', 'h'],
            },
    {
        match env_shell {
            Some(s) => ShellConfig { command: s },
            None => ShellConfig { command: string_of(&vec!['s', 'h']) },
        }
    }
}

/// Shell key bindings.
pub struct KeysConfig {
    /// Shell keybinding for the tricks picker. Default: `\C-t` (Ctrl-T).
    pub tricks: String,
}

impl Default for KeysConfig {
    fn default() -> (r: KeysConfig)
        ensures
            r.tricks@ == seq!['\\', 'C', '-', 't'],
    {
        KeysConfig { tricks: string_of(&vec!['\\', 'C', '-', 't']) }
    }
}

/// Top-level config structure matching `config.toml`.
pub struct Config {
    pub paths: PathsConfig,
    pub style: StyleConfig,
    pub shell: ShellConfig,
    pub history: HistoryConfig,
    pub picker: PickerConfig,
    pub keys: KeysConfig,
}

impl Config {
    /// The configuration used when no file is read: every section at its
    /// default, with the shell taken from `$SHELL`.
    pub fn with_env_shell(env_shell: Option<String>) -> (r: Config)
        ensures
            r.paths.tricks@.len() == 0,
            r.style.tag_color@ == seq!['c', 'y', 'a', 'n'],
            r.style.comment_color@ == seq!['b', 'l', 'u', 'e'],
            r.style.snippet_color@ == seq!['w', 'h', 'i', 't', 'e'],
            r.shell.command@ == match env_shell {
                Some(s) => s@,
                None => seq!['s', 'h'],
            },
            r.history.enabled,
            r.picker.preview_height == 7,
            r.picker.height@ == seq!['f', 'u', 'l', 'l'],
            r.picker.tricks_height is None,
            r.keys.tricks@ == seq!['\\', 'C', '-', 't'],
    {
        Config {
            paths: PathsConfig::default(),
            style: StyleConfig::default(),
            shell: ShellConfig::with_env_shell(env_shell),
            history: HistoryConfig::default(),
            picker: PickerConfig::default(),
            keys: KeysConfig::default(),
        }
    }
}

// ---------------------------------------------------------------------------
// Where the tricks are.
// ---------------------------------------------------------------------------

/// Where the tricks are taken from.
pub enum TrickPaths {
    /// From the command line flag (to be tilde-expanded).
    Cli(Vec<String>),
    /// From `$TOTO_PATH` (to be tilde-expanded).
    Env(Vec<String>),
    /// From the configuration file (to be tilde-expanded).
    Config(Vec<String>),
    /// The default directory, which exists.
    Default(String),
    /// Nowhere.
    Nothing,
}

/// The entries of a colon-separated path list, empty ones left out.
pub open spec fn path_list(s: Seq<char>) -> Seq<Seq<char>> {
    non_empty(split_char(s, ':'))
}

fn path_list_exec(s: &str) -> (r: Vec<String>)
    ensures
        strings_view(r@) == path_list(s@),
{
    let parts = split_char_exec(&chars_of(s), ':');
    let ghost pv = split_char(s@, ':');
    let mut r: Vec<String> = Vec::new();
    let mut k: usize = 0;
    while k < parts.len()
        invariant
            k <= parts.len(),
            view_all(parts@) == pv,
            strings_view(r@) == non_empty(pv.take(k as int)),
        decreases parts.len() - k,
    {
        assert(pv.take(k + 1).drop_last() =~= pv.take(k as int));
        assert(pv.take(k + 1).last() == parts@[k as int]@);
        if parts[k].len() > 0 {
            let ghost before = strings_view(r@);
            r.push(string_of(&parts[k]));
            assert(strings_view(r@) =~= before.push(parts@[k as int]@));
        }
        k = k + 1;
    }
    assert(pv.take(k as int) =~= pv);
    r
}

/// Resolve trick paths: the command line flag wins, then `$TOTO_PATH`,
/// then the configured paths when there are any, then the default
/// directory when it exists.
pub fn resolve_trick_paths(
    cli_path: Option<&str>,
    env_path: Option<&str>,
    config: &Config,
    default_dir: Option<String>,
    default_exists: bool,
) -> (r: TrickPaths)
    ensures
        match cli_path {
            Some(p) => r matches TrickPaths::Cli(v) && strings_view(v@) == path_list(p@),
            None => match env_path {
                Some(e) => r matches TrickPaths::Env(v) && strings_view(v@) == path_list(e@),
                None => if config.paths.tricks@.len() > 0 {
                    r matches TrickPaths::Config(v) && strings_view(v@) == strings_view(config.paths.tricks@)
                } else {
                    match default_dir {
                        Some(d) => if default_exists {
                            r matches TrickPaths::Default(x) && x@ == d@
                        } else {
                            r is Nothing
                        },
                        None => r is Nothing,
                    }
                },
            },
        },
{
    match cli_path {
        Some(p) => TrickPaths::Cli(path_list_exec(p)),
        None => match env_path {
            Some(e) => TrickPaths::Env(path_list_exec(e)),
            None => {
                if config.paths.tricks.len() > 0 {
                    let mut v: Vec<String> = Vec::new();
                    let mut k: usize = 0;
                    while k < config.paths.tricks.len()
                        invariant
                            k <= config.paths.tricks.len(),
                            strings_view(v@) == strings_view(config.paths.tricks@).take(k as int),
                        decreases config.paths.tricks.len() - k,
                    {
                        let ghost before = strings_view(v@);
                        v.push(config.paths.tricks[k].clone());
                        assert(strings_view(v@) =~= before.push(config.paths.tricks@[k as int]@));
                        assert(strings_view(config.paths.tricks@).take(k + 1) =~= strings_view(config.paths.tricks@).take(k as int).push(config.paths.tricks@[k as int]@));
                        k = k + 1;
                    }
                    assert(strings_view(config.paths.tricks@).take(k as int) =~= strings_view(config.paths.tricks@));
                    TrickPaths::Config(v)
                } else {
                    match default_dir {
                        Some(d) => if default_exists {
                            TrickPaths::Default(d)
                        } else {
                            TrickPaths::Nothing
                        },
                        None => TrickPaths::Nothing,
                    }
                }
            },
        },
    }
}

} // verus!
