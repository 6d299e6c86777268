//! Settings of a run: the provider credential, the unit system, the language,
//! and where a configuration file is looked for.

use crate::strings::{lower_text, lowercase};
use crate::text::{trim, trimmed};
use vstd::prelude::*;

verus! {

/// Why a configuration cannot be used.
#[derive(Debug, Clone, Copy, PartialEq, Eq, Structural)]
pub enum ConfigError {
    /// The provider credential is empty or white space only.
    EmptyApiKey,
}

/// The settings that every request of a run is made with.
#[derive(Debug, Clone, PartialEq, Eq)]
pub struct Settings {
    /// The provider credential, without surrounding white space.
    pub api_key: String,
    /// Name of the unit system, in lower case.
    pub units: String,
    /// Language code, in lower case.
    pub lang: String,
}

/// The settings of a run from the configured values: the credential without
/// surrounding white space, the unit system and the language in lower case.
/// A credential that is empty once trimmed is refused.
pub fn settings_from(api_key: &str, units: &str, lang: &str) -> (result: Result<
    Settings,
    ConfigError,
>)
    ensures
        result is Err <==> trimmed(api_key@).len() == 0,
        result matches Ok(settings) ==> {
            &&& settings.api_key@ == trimmed(api_key@)
            &&& settings.units@ == lower_text(units@)
            &&& settings.lang@ == lower_text(lang@)
        },
        result matches Err(e) ==> e == ConfigError::EmptyApiKey,
{
    let key = trim(api_key);
    if key.unicode_len() == 0 {
        Err(ConfigError::EmptyApiKey)
    } else {
        Ok(
            Settings {
                api_key: String::from_str(key),
                units: lowercase(units),
                lang: lowercase(lang),
            },
        )
    }
}

/// A path that may be absent, as a sequence of none or one.
pub open spec fn optional<P>(path: Option<P>) -> Seq<P> {
    match path {
        Some(p) => seq![p],
        None => Seq::empty(),
    }
}

/// The places a configuration file is looked for, in the order they are
/// tried: the path given explicitly, the one named by the environment, the
/// two fixed paths below the working directory, and the one below the user's
/// configuration directory. An absent place is left out.
pub fn search_order<P>(
    explicit: Option<P>,
    from_env: Option<P>,
    in_tree: P,
    in_cwd: P,
    user_dir: Option<P>,
) -> (candidates: Vec<P>)
    ensures
        candidates@ == optional(explicit) + optional(from_env) + seq![in_tree, in_cwd] + optional(
            user_dir,
        ),
{
    let mut candidates: Vec<P> = Vec::new();
    if let Some(p) = explicit {
        candidates.push(p);
    }
    if let Some(p) = from_env {
        candidates.push(p);
    }
    candidates.push(in_tree);
    candidates.push(in_cwd);
    if let Some(p) = user_dir {
        candidates.push(p);
    }
    proof {
        assert(candidates@ =~= optional(explicit) + optional(from_env) + seq![in_tree, in_cwd]
            + optional(user_dir));
    }
    candidates
}

} // verus!
