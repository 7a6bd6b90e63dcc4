//! The configuration store: turning file text into configurations and back.
//! Reading and writing the file itself is the caller's concern; the store
//! works on the text and says exactly what it means.

use crate::config::{default_config, Config};
use crate::json::{config_json_chars, parse_config, spec_config_json, spec_parse_config};
use crate::text::string_from_chars;
use vstd::prelude::*;

verus! {

/// Why no configuration came out of a load.
#[derive(Clone, Copy, Debug, PartialEq, Eq, Structural)]
pub enum LoadError {
    /// There is no file: the caller supplies the defaults.
    NotFound,
    /// The file's text is not a well-formed configuration document.
    Parse,
}

/// Serializes a configuration as pretty-printed text, ready to overwrite
/// the file with.
pub fn to_json_pretty(c: &Config) -> (r: String)
    ensures
        r@ == spec_config_json(c@),
{
    let chars = config_json_chars(c);
    string_from_chars(&chars)
}

/// Interprets what was read from the configuration file's path: no file
/// signals `NotFound`, text that does not parse signals `Parse`, and
/// well-formed text yields exactly the configuration it spells.
pub fn load(contents: Option<&str>) -> (r: Result<Config, LoadError>)
    ensures
        match contents {
            None => r == Err::<Config, LoadError>(LoadError::NotFound),
            Some(text) => match r {
                Ok(c) => spec_parse_config(text@) is Some && c@ == spec_parse_config(
                    text@,
                )->Some_0,
                Err(e) => e == LoadError::Parse && spec_parse_config(text@) is None,
            },
        },
{
    match contents {
        None => Err(LoadError::NotFound),
        Some(text) => match parse_config(text) {
            Some(c) => Ok(c),
            None => Err(LoadError::Parse),
        },
    }
}

/// Loads as the application starts: a missing or unreadable file falls
/// back to the default configuration rather than failing.
pub fn load_or_default(contents: Option<&str>) -> (r: Config)
    ensures
        match contents {
            None => r@ == default_config(),
            Some(text) => match spec_parse_config(text@) {
                Some(c) => r@ == c,
                None => r@ == default_config(),
            },
        },
{
    match load(contents) {
        Ok(c) => c,
        Err(_) => Config::default(),
    }
}

} // verus!
