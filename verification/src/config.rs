//! Configuration: prompts, the merged settings the application runs with,
//! and the precedence rule that merges command-line values over file values.

use vstd::prelude::*;
use vstd::string::StringExecFns;

verus! {

/// The author of a configured prompt.
#[derive(Debug, Clone, Copy, PartialEq, Eq, Structural)]
pub enum Role {
    /// The human user.
    User,
    /// The model.
    Assistant,
    /// The system prompt's author.
    System,
}

/// One configured prompt: a role and its text.
#[derive(Debug)]
pub struct Prompt {
    /// The prompt's author.
    pub role: Role,
    /// The prompt text.
    pub content: String,
}

impl Clone for Prompt {
    /// A copy with the same role and the same text.
    fn clone(&self) -> (r: Self)
        ensures
            r.role == self.role,
            r.content == self.content,
    {
        Prompt { role: self.role, content: self.content.clone() }
    }
}

/// The settings read from the command line: absent values fall back to the
/// configuration file.  The three switches are plain flags; a flag not given
/// on the command line arrives as false and then defers to the file.
pub struct CliConfig {
    /// API key for the backend.
    pub api_key: Option<String>,
    /// Model to request completions from.
    pub model: Option<String>,
    /// Prompts to seed every conversation with.
    pub prompt: Option<Vec<Prompt>>,
    /// Verbose logging.
    pub debug: bool,
    /// Answer without calling the backend.
    pub offline: bool,
    /// Modal key bindings in the input editor.
    pub vim: bool,
    /// Base URL of the backend.
    pub api_base: Option<String>,
}

/// The settings read from the configuration file.
pub struct FileConfig {
    /// API key for the backend.
    pub api_key: Option<String>,
    /// Model to request completions from.
    pub model: Option<String>,
    /// Prompts to seed every conversation with.
    pub prompt: Option<Vec<Prompt>>,
    /// Verbose logging.
    pub debug: Option<bool>,
    /// Answer without calling the backend.
    pub offline: Option<bool>,
    /// Modal key bindings in the input editor.
    pub vim: Option<bool>,
    /// Base URL of the backend.
    pub api_base: Option<String>,
}

/// The settings the application runs with, all resolved.
#[derive(Debug, Clone)]
pub struct Final {
    /// API key for the backend.
    pub api_key: String,
    /// Model to request completions from.
    pub model: String,
    /// Prompts to seed every conversation with.
    pub prompt: Vec<Prompt>,
    /// Verbose logging.
    pub debug: bool,
    /// Answer without calling the backend.
    pub offline: bool,
    /// Modal key bindings in the input editor.
    pub vim: bool,
    /// Base URL of the backend.
    pub api_base: String,
}

/// What stops a configuration from resolving.
#[derive(Debug, Clone, Copy, PartialEq, Eq, Structural)]
pub enum ConfigError {
    /// Neither source supplies an API key.
    MissingApiKey,
    /// Neither source supplies a model.
    MissingModel,
}

/// The base URL used when neither source names one.
pub open spec fn spec_default_api_base() -> Seq<char> {
    "https://api.openai.com/v1"@
}

/// Merges command-line settings over file settings: a value given on the
/// command line wins, an absent one falls back to the file, and what neither
/// gives takes its default — no prompts, switches off, the public API base.
/// Fails exactly when no API key is given anywhere, and otherwise when no
/// model is given anywhere.
pub fn merge(cli: CliConfig, file: FileConfig) -> (r: Result<Final, ConfigError>)
    ensures
        match r {
            Ok(f) => {
                &&& cli.api_key is Some || file.api_key is Some
                &&& cli.model is Some || file.model is Some
                &&& f.api_key == (if cli.api_key is Some {
                    cli.api_key->Some_0
                } else {
                    file.api_key->Some_0
                })
                &&& f.model == (if cli.model is Some {
                    cli.model->Some_0
                } else {
                    file.model->Some_0
                })
                &&& f.prompt@ == (if cli.prompt is Some {
                    cli.prompt->Some_0@
                } else if file.prompt is Some {
                    file.prompt->Some_0@
                } else {
                    Seq::<Prompt>::empty()
                })
                &&& f.debug == (cli.debug || (file.debug is Some && file.debug->Some_0))
                &&& f.offline == (cli.offline || (file.offline is Some && file.offline->Some_0))
                &&& f.vim == (cli.vim || (file.vim is Some && file.vim->Some_0))
                &&& f.api_base@ == (if cli.api_base is Some {
                    cli.api_base->Some_0@
                } else if file.api_base is Some {
                    file.api_base->Some_0@
                } else {
                    spec_default_api_base()
                })
            },
            Err(ConfigError::MissingApiKey) => cli.api_key is None && file.api_key is None,
            Err(ConfigError::MissingModel) => {
                &&& cli.api_key is Some || file.api_key is Some
                &&& cli.model is None && file.model is None
            },
        },
{
    let api_key = match cli.api_key {
        Some(k) => k,
        None => match file.api_key {
            Some(k) => k,
            None => {
                return Err(ConfigError::MissingApiKey);
            },
        },
    };
    let model = match cli.model {
        Some(m) => m,
        None => match file.model {
            Some(m) => m,
            None => {
                return Err(ConfigError::MissingModel);
            },
        },
    };
    let prompt = match cli.prompt {
        Some(p) => p,
        None => match file.prompt {
            Some(p) => p,
            None => Vec::new(),
        },
    };
    let api_base = match cli.api_base {
        Some(b) => b,
        None => match file.api_base {
            Some(b) => b,
            None => String::from_str("https://api.openai.com/v1"),
        },
    };
    let debug = cli.debug || match file.debug {
        Some(d) => d,
        None => false,
    };
    let offline = cli.offline || match file.offline {
        Some(o) => o,
        None => false,
    };
    let vim = cli.vim || match file.vim {
        Some(v) => v,
        None => false,
    };
    Ok(Final { api_key, model, prompt, debug, offline, vim, api_base })
}

} // verus!
