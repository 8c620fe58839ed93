//! Settings: credentials, the board to open on startup, and the column width.
use vstd::prelude::*;

verus! {

/// What the config file holds; every setting may be missing.
pub struct FileConfig {
    pub api_key: Option<String>,
    pub token: Option<String>,
    pub default_board: Option<String>,
    pub column_width: Option<u16>,
}

impl Default for FileConfig {
    fn default() -> (c: Self)
        ensures
            c.api_key is None,
            c.token is None,
            c.default_board is None,
            c.column_width is None,
    {
        FileConfig { api_key: None, token: None, default_board: None, column_width: None }
    }
}

pub struct Config {
    pub api_key: String,
    pub token: String,
    /// Board (by name, case-insensitive) to open on startup.
    pub default_board: Option<String>,
    pub column_width: u16,
}

/// The file holds no API key or no token, and the environment does not make up for it.
pub enum ConfigError {
    MissingCredentials,
}

/// The column width used when the file sets none.
pub const DEFAULT_COLUMN_WIDTH: u16 = 32;

/// The narrowest column the board draws.
pub const MIN_COLUMN_WIDTH: u16 = 12;

/// The width a configured column width gives: the default when unset, never below the minimum.
pub open spec fn column_width_spec(w: Option<u16>) -> u16 {
    let w = match w {
        Some(x) => x,
        None => DEFAULT_COLUMN_WIDTH,
    };
    if w < MIN_COLUMN_WIDTH { MIN_COLUMN_WIDTH } else { w }
}

/// A value from the environment counts only when it is set and not empty.
pub open spec fn env_value(v: Option<String>) -> Option<String> {
    match v {
        Some(s) => if s@.len() == 0 { None } else { Some(s) },
        None => None,
    }
}

/// The environment's value when it counts, else the file's.
pub open spec fn setting(env: Option<String>, file: Option<String>) -> Option<String> {
    match env_value(env) {
        Some(s) => Some(s),
        None => file,
    }
}

fn pick(env: Option<String>, file: Option<String>) -> (r: Option<String>)
    ensures
        r == setting(env, file),
{
    match env {
        Some(s) => {
            if s.as_str().is_empty() {
                file
            } else {
                Some(s)
            }
        },
        None => file,
    }
}

/// Builds the settings from the config file and the `TRELLO_API_KEY` / `TRELLO_TOKEN`
/// environment values, which override the file when set and not empty.
pub fn resolve(file: FileConfig, env_key: Option<String>, env_token: Option<String>) -> (r: Result<
    Config,
    ConfigError,
>)
    ensures
        (setting(env_key, file.api_key) is Some && setting(env_token, file.token) is Some) <==> r is Ok,
        r matches Ok(c) ==> {
            &&& Some(c.api_key) == setting(env_key, file.api_key)
            &&& Some(c.token) == setting(env_token, file.token)
            &&& c.default_board == file.default_board
            &&& c.column_width == column_width_spec(file.column_width)
        },
{
    let api_key = pick(env_key, file.api_key);
    let token = pick(env_token, file.token);
    match (api_key, token) {
        (Some(api_key), Some(token)) => {
            let w = match file.column_width {
                Some(x) => x,
                None => DEFAULT_COLUMN_WIDTH,
            };
            let column_width = if w < MIN_COLUMN_WIDTH { MIN_COLUMN_WIDTH } else { w };
            Ok(Config { api_key, token, default_board: file.default_board, column_width })
        },
        _ => Err(ConfigError::MissingCredentials),
    }
}

} // verus!
