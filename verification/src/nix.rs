//! The Nix side: the flake that holds the user's configuration, the
//! expressions that are evaluated, and how an evaluation's output is read.
use vstd::prelude::*;
use crate::text::{chars_of, string_of, to_string, append_str, path_join, path_join_str, trim, trim_vec};

verus! {

/// The flake URI of a tool's configuration for a home directory:
/// `path:<home>/.config/<tool>`.
pub open spec fn flake_uri(home: Seq<char>, tool: Seq<char>) -> Seq<char> {
    "path:"@ + path_join(home, ".config/"@ + tool)
}

/// The flake URI of a tool's configuration for a home directory.
pub fn flake_uri_for_home(home: &str, tool: &str) -> (r: String)
    ensures
        r@ == flake_uri(home@, tool@),
{
    let mut sub = chars_of(".config/");
    append_str(&mut sub, tool);
    let subs = string_of(sub.as_slice());
    let p = path_join_str(home, subs.as_str());
    let mut out = chars_of("path:");
    append_str(&mut out, p.as_str());
    string_of(out.as_slice())
}

/// The flake URI of the `muet` configuration; none when the home directory
/// is unknown.
pub fn get_muet_flake_uri() -> (r: Option<String>)
    ensures
        r matches Some(u) ==> exists|home: Seq<char>| u@ == flake_uri(home, "muet"@),
        exists|home: Option<String>|
            #[trigger] crate::paths::home_found(home) && match home {
                Some(h) => r matches Some(u) && u@ == flake_uri(h@, "muet"@),
                None => r is None,
            },
{
    let home = crate::paths::find_home();
    match home {
        Some(h) => {
            let u = flake_uri_for_home(h.as_str(), "muet");
            assert(u@ == flake_uri(h@, "muet"@));
            Some(u)
        },
        None => None,
    }
}

/// The flake URI of the `munix` configuration; none when the home directory
/// is unknown.
pub fn get_munix_flake_uri() -> (r: Option<String>)
    ensures
        r matches Some(u) ==> exists|home: Seq<char>| u@ == flake_uri(home, "munix"@),
        exists|home: Option<String>|
            #[trigger] crate::paths::home_found(home) && match home {
                Some(h) => r matches Some(u) && u@ == flake_uri(h@, "munix"@),
                None => r is None,
            },
{
    let home = crate::paths::find_home();
    match home {
        Some(h) => {
            let u = flake_uri_for_home(h.as_str(), "munix");
            assert(u@ == flake_uri(h@, "munix"@));
            Some(u)
        },
        None => None,
    }
}

/// The expression that evaluates a field of a manifest on its own (with a
/// stub `mkAlbum`), as a string, empty when the field is missing.
pub open spec fn field_expr(path: Seq<char>, field: Seq<char>, tool: Seq<char>) -> Seq<char> {
    "let res = (import (/. + \""@ + path + "\") { "@ + tool + " = { mkAlbum = x: x; }; }); in builtins.toString (res."@
        + field + " or \"\")"@
}

/// The expression that evaluates a field of a manifest on its own.
pub fn nix_field_expr(path: &str, field: &str, tool: &str) -> (r: String)
    ensures
        r@ == field_expr(path@, field@, tool@),
{
    let mut out = chars_of("let res = (import (/. + \"");
    append_str(&mut out, path);
    append_str(&mut out, "\") { ");
    append_str(&mut out, tool);
    append_str(&mut out, " = { mkAlbum = x: x; }; }); in builtins.toString (res.");
    append_str(&mut out, field);
    append_str(&mut out, " or \"\")");
    string_of(out.as_slice())
}

/// The expression that evaluates a field of the derivation a manifest
/// builds with the configuration's library.
pub open spec fn derivation_expr(path: Seq<char>, field: Seq<char>, tool: Seq<char>, flake: Seq<char>) -> Seq<char> {
    "(import (/. + \""@ + path + "\") { "@ + tool + " = (builtins.getFlake \""@ + flake + "\").lib; })."@ + field
}

/// The expression that evaluates a field of the derivation a manifest builds.
pub fn nix_derivation_expr(path: &str, field: &str, tool: &str, flake: &str) -> (r: String)
    ensures
        r@ == derivation_expr(path@, field@, tool@, flake@),
{
    let mut out = chars_of("(import (/. + \"");
    append_str(&mut out, path);
    append_str(&mut out, "\") { ");
    append_str(&mut out, tool);
    append_str(&mut out, " = (builtins.getFlake \"");
    append_str(&mut out, flake);
    append_str(&mut out, "\").lib; }).");
    append_str(&mut out, field);
    string_of(out.as_slice())
}

/// The expression that evaluates a field of the configuration as it applies
/// to a manifest, as a string, empty when the field is missing.
pub open spec fn config_expr(path: Seq<char>, field: Seq<char>, tool: Seq<char>, flake: Seq<char>) -> Seq<char> {
    "let "@ + tool + " = (builtins.getFlake \""@ + flake + "\").lib; args = import (/. + \""@ + path + "\") { "@
        + tool + " = "@ + tool + " // { mkAlbum = x: x; }; }; config = "@ + tool
        + ".evalConfig args; in builtins.toString (config."@ + field + " or \"\")"@
}

/// The expression that evaluates a field of the configuration for a manifest.
pub fn nix_config_expr(path: &str, field: &str, tool: &str, flake: &str) -> (r: String)
    ensures
        r@ == config_expr(path@, field@, tool@, flake@),
{
    let mut out = chars_of("let ");
    append_str(&mut out, tool);
    append_str(&mut out, " = (builtins.getFlake \"");
    append_str(&mut out, flake);
    append_str(&mut out, "\").lib; args = import (/. + \"");
    append_str(&mut out, path);
    append_str(&mut out, "\") { ");
    append_str(&mut out, tool);
    append_str(&mut out, " = ");
    append_str(&mut out, tool);
    append_str(&mut out, " // { mkAlbum = x: x; }; }; config = ");
    append_str(&mut out, tool);
    append_str(&mut out, ".evalConfig args; in builtins.toString (config.");
    append_str(&mut out, field);
    append_str(&mut out, " or \"\")");
    string_of(out.as_slice())
}

/// The expression that evaluates the whole configuration to JSON.
pub open spec fn app_config_expr(flake: Seq<char>) -> Seq<char> {
    "builtins.toJSON ((builtins.getFlake \""@ + flake + "\").lib.evalConfig {})"@
}

/// The expression that evaluates the whole configuration to JSON.
pub fn nix_app_config_expr(flake: &str) -> (r: String)
    ensures
        r@ == app_config_expr(flake@),
{
    let mut out = chars_of("builtins.toJSON ((builtins.getFlake \"");
    append_str(&mut out, flake);
    append_str(&mut out, "\").lib.evalConfig {})");
    string_of(out.as_slice())
}

/// The expression that renders a manifest from the JSON data in a file with
/// the configuration's template function `template`.
pub open spec fn template_expr(flake: Seq<char>, template: Seq<char>, data_path: Seq<char>) -> Seq<char> {
    "(builtins.getFlake \""@ + flake + "\").lib."@ + template + " { data = builtins.fromJSON (builtins.readFile (/. + \""@
        + data_path + "\")); }"@
}

/// The expression that renders a manifest from JSON data.
pub fn nix_template_expr(flake: &str, template: &str, data_path: &str) -> (r: String)
    ensures
        r@ == template_expr(flake@, template@, data_path@),
{
    let mut out = chars_of("(builtins.getFlake \"");
    append_str(&mut out, flake);
    append_str(&mut out, "\").lib.");
    append_str(&mut out, template);
    append_str(&mut out, " { data = builtins.fromJSON (builtins.readFile (/. + \"");
    append_str(&mut out, data_path);
    append_str(&mut out, "\")); }");
    string_of(out.as_slice())
}

/// The expression that builds one format of an album in its directory.
pub open spec fn album_build_expr(flake: Seq<char>, tool: Seq<char>, format: Seq<char>) -> Seq<char> {
    "(import ./album.nix { "@ + tool + " = (builtins.getFlake \""@ + flake + "\").lib; })."@ + format
}

/// The expression that builds one format of an album in its directory.
pub fn nix_album_build_expr(flake: &str, tool: &str, format: &str) -> (r: String)
    ensures
        r@ == album_build_expr(flake@, tool@, format@),
{
    let mut out = chars_of("(import ./album.nix { ");
    append_str(&mut out, tool);
    append_str(&mut out, " = (builtins.getFlake \"");
    append_str(&mut out, flake);
    append_str(&mut out, "\").lib; }).");
    append_str(&mut out, format);
    string_of(out.as_slice())
}

/// The installable of the toolchain environment: `<flake>#env`.
pub fn env_installable(flake: &str) -> (r: String)
    ensures
        r@ == flake@ + "#env"@,
{
    let mut out = chars_of(flake);
    append_str(&mut out, "#env");
    string_of(out.as_slice())
}

/// How an evaluation's output is read: its trimmed standard output when it
/// succeeded, its error output otherwise.
pub open spec fn eval_outcome(success: bool, stdout: Seq<char>, stderr: Seq<char>) -> Result<Seq<char>, Seq<char>> {
    if success {
        Ok(trim(stdout))
    } else {
        Err(stderr)
    }
}

/// Reads an evaluation's (or a hash computation's) output.
pub fn eval_result(success: bool, stdout: &str, stderr: &str) -> (r: Result<String, String>)
    ensures
        match r {
            Ok(s) => eval_outcome(success, stdout@, stderr@) == Ok::<Seq<char>, Seq<char>>(s@),
            Err(e) => eval_outcome(success, stdout@, stderr@) == Err::<Seq<char>, Seq<char>>(e@),
        },
{
    if success {
        let o = chars_of(stdout);
        let t = trim_vec(&o);
        Ok(string_of(t.as_slice()))
    } else {
        Err(to_string(stderr))
    }
}

/// The arguments that select a store: `--store <path>` when one is given.
pub fn store_args(store: Option<&str>) -> (r: Vec<String>)
    ensures
        crate::text::views_str(r@) == match store {
            Some(s) => seq!["--store"@, s@],
            None => Seq::<Seq<char>>::empty(),
        },
{
    let mut r: Vec<String> = Vec::new();
    match store {
        Some(s) => {
            r.push(to_string("--store"));
            r.push(to_string(s));
        },
        None => {},
    }
    assert(crate::text::views_str(r@) =~= match store {
        Some(s) => seq!["--store"@, s@],
        None => Seq::<Seq<char>>::empty(),
    });
    r
}

} // verus!
