//! Fetching a source: which configured command runs, when nothing needs to
//! be fetched, and the environment the command sees.
use vstd::prelude::*;
use crate::text::{chars_of, string_of, to_string, append_str, str_equal};
use crate::source::{SourceResolution, torrent_word};

verus! {

/// Why a fetch cannot start.
pub enum FetchError {
    /// The source kind is neither `torrent` nor `web`.
    UnknownSource(String),
    /// The configuration gives no command for the source.
    MissingCommand(String),
}

impl FetchError {
    /// The text of the error.
    pub open spec fn spec_message(&self) -> Seq<char> {
        match self {
            FetchError::UnknownSource(s) => "Unknown source: '"@ + s@ + "'. Expected 'torrent' or 'web'."@,
            FetchError::MissingCommand(f) => "Command '"@ + f@ + "' is missing or empty in config.nix"@,
        }
    }

    /// The text of the error.
    pub fn message(&self) -> (r: String)
        ensures
            r@ == self.spec_message(),
    {
        match self {
            FetchError::UnknownSource(s) => {
                let mut out = chars_of("Unknown source: '");
                append_str(&mut out, s.as_str());
                append_str(&mut out, "'. Expected 'torrent' or 'web'.");
                string_of(out.as_slice())
            },
            FetchError::MissingCommand(f) => {
                let mut out = chars_of("Command '");
                append_str(&mut out, f.as_str());
                append_str(&mut out, "' is missing or empty in config.nix");
                string_of(out.as_slice())
            },
        }
    }
}

/// The configuration field that holds the fetch command of a source kind.
pub open spec fn fetch_field_of(source: Seq<char>) -> Option<Seq<char>> {
    if source == torrent_word() {
        Some("commands.torrent.fetch"@)
    } else if source == "web"@ {
        Some("commands.web.fetch"@)
    } else {
        None
    }
}

/// The configuration field that holds the fetch command of a source kind.
pub fn fetch_command_field(source: &str) -> (r: Result<String, FetchError>)
    ensures
        match r {
            Ok(f) => fetch_field_of(source@) == Some(f@),
            Err(FetchError::UnknownSource(s)) => fetch_field_of(source@) is None && s@ == source@,
            Err(FetchError::MissingCommand(_)) => false,
        },
{
    proof {
        reveal_strlit("torrent");
    }
    assert("torrent"@ =~= torrent_word());
    if str_equal(source, "torrent") {
        Ok(to_string("commands.torrent.fetch"))
    } else if str_equal(source, "web") {
        Ok(to_string("commands.web.fetch"))
    } else {
        Err(FetchError::UnknownSource(to_string(source)))
    }
}

/// The command to run: the evaluated field, unless it is empty.
pub fn check_fetch_command(field: &str, command: String) -> (r: Result<String, FetchError>)
    ensures
        match r {
            Ok(c) => command@.len() > 0 && c@ == command@,
            Err(FetchError::MissingCommand(f)) => command@.len() == 0 && f@ == field@,
            Err(FetchError::UnknownSource(_)) => false,
        },
{
    if chars_of(command.as_str()).len() == 0 {
        Err(FetchError::MissingCommand(to_string(field)))
    } else {
        Ok(command)
    }
}

/// Nothing is fetched for a torrent that is already pinned in the store.
pub fn skip_fetch(source: &str, is_in_store: bool) -> (r: bool)
    ensures
        r == (source@ == torrent_word() && is_in_store),
{
    proof {
        reveal_strlit("torrent");
    }
    assert("torrent"@ =~= torrent_word());
    str_equal(source, "torrent") && is_in_store
}

/// The environment of a fetch, verification or build command:
/// `<PREFIX>_ORIGIN_PATH`, `<PREFIX>_SOURCE_NAME` and
/// `<PREFIX>_SANITIZED_SOURCE_NAME`.
pub fn source_env(prefix: &str, res: &SourceResolution) -> (r: Vec<(String, String)>)
    ensures
        r@.len() == 3,
        r@[0].0@ == prefix@ + "_ORIGIN_PATH"@ && r@[0].1@ == res.origin_path@,
        r@[1].0@ == prefix@ + "_SOURCE_NAME"@ && r@[1].1@ == res.internal_name@,
        r@[2].0@ == prefix@ + "_SANITIZED_SOURCE_NAME"@ && r@[2].1@ == res.sanitized_name@,
{
    let mut a = chars_of(prefix);
    append_str(&mut a, "_ORIGIN_PATH");
    let mut b = chars_of(prefix);
    append_str(&mut b, "_SOURCE_NAME");
    let mut c = chars_of(prefix);
    append_str(&mut c, "_SANITIZED_SOURCE_NAME");
    let mut r: Vec<(String, String)> = Vec::new();
    r.push((string_of(a.as_slice()), res.origin_path.clone()));
    r.push((string_of(b.as_slice()), res.internal_name.clone()));
    r.push((string_of(c.as_slice()), res.sanitized_name.clone()));
    r
}

} // verus!
