use muet::nix::{
    env_installable, eval_result, flake_uri_for_home, get_muet_flake_uri, nix_album_build_expr, nix_app_config_expr,
    nix_config_expr, nix_derivation_expr, nix_field_expr, nix_template_expr, store_args,
};

#[test]
fn flake_uris() {
    assert_eq!(flake_uri_for_home("/home/u", "muet"), "path:/home/u/.config/muet");
    if let Some(u) = get_muet_flake_uri() {
        assert!(u.starts_with("path:") && u.ends_with(".config/muet"));
    }
}

#[test]
fn field_expression_matches_format() {
    let path_str = "/m/a/album.nix";
    let field_path = "source.torrent.hash";
    let expected = format!(
        "let res = (import (/. + \"{path_str}\") {{ muet = {{ mkAlbum = x: x; }}; }}); in builtins.toString (res.{field_path} or \"\")"
    );
    assert_eq!(nix_field_expr(path_str, field_path, "muet"), expected);
}

#[test]
fn derivation_expression_matches_format() {
    let path_str = "/m/a/album.nix";
    let flake_uri = "path:/h/.config/muet";
    let field_path = "sourceStorePath";
    let expected = format!("(import (/. + \"{path_str}\") {{ muet = (builtins.getFlake \"{flake_uri}\").lib; }}).{field_path}");
    assert_eq!(nix_derivation_expr(path_str, field_path, "muet", flake_uri), expected);
}

#[test]
fn config_expression_matches_format() {
    let path_str = "/m/a/album.nix";
    let flake_uri = "path:/h/.config/munix";
    let field_path = "commands.torrent.fetch";
    let expected = format!(
        "let munix = (builtins.getFlake \"{flake_uri}\").lib; \
             args = import (/. + \"{path_str}\") {{ munix = munix // {{ mkAlbum = x: x; }}; }}; \
             config = munix.evalConfig args; \
         in builtins.toString (config.{field_path} or \"\")"
    );
    assert_eq!(nix_config_expr(path_str, field_path, "munix", flake_uri), expected);
}

#[test]
fn other_expressions() {
    let flake_uri = "path:/h/.config/muet";
    assert_eq!(
        nix_app_config_expr(flake_uri),
        format!("builtins.toJSON ((builtins.getFlake \"{flake_uri}\").lib.evalConfig {{}})")
    );
    let temp_path_str = "/d/.muet-tmp.json";
    assert_eq!(
        nix_template_expr(flake_uri, "albumNixTemplate", temp_path_str),
        format!("(builtins.getFlake \"{flake_uri}\").lib.albumNixTemplate {{ data = builtins.fromJSON (builtins.readFile (/. + \"{temp_path_str}\")); }}")
    );
    assert_eq!(
        nix_album_build_expr(flake_uri, "munix", "flac"),
        format!("{}.{}", format!("(import ./album.nix {{ munix = (builtins.getFlake \"{}\").lib; }})", flake_uri), "flac")
    );
    assert_eq!(env_installable(flake_uri), format!("{flake_uri}#env"));
}

#[test]
fn eval_outputs() {
    assert_eq!(eval_result(true, "  sha256-x \n", "").ok().unwrap(), "sha256-x");
    assert_eq!(eval_result(false, "x", "error: boom").err().unwrap(), "error: boom");
    assert_eq!(store_args(Some("/s")), vec!["--store", "/s"]);
    assert!(store_args(None).is_empty());
}
