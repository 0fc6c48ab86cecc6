use figma_asset_downloader::models::{Cli, SubCommands, DEFAULT_FILE_EXT};

fn build_default_cli() -> Cli {
    Cli {
        personal_access_token: None,
        file_id: None,
        document_id: None,
        path: "".to_string(),
        file_scales: vec![1],
        file_extensions: vec![DEFAULT_FILE_EXT.to_owned()],
        force_file_extensions: false,
        config_path: "".to_string(),
        opt_png_level: None,
        opt_jpg_level: None,
        opt_only_on_validation: false,
        subcommands: None,
    }
}

#[test]
fn cli_add_non_defaults_add_subcommands() {
    let mut cli = build_default_cli();
    let mut other = build_default_cli();

    other.subcommands = Some(SubCommands::ValidateManifest {
        path: "a".to_string(),
    });

    cli.add_non_defaults(other);

    assert!(cli.subcommands.is_some());
    assert_eq!(
        cli.subcommands,
        Some(SubCommands::ValidateManifest {
            path: "a".to_string(),
        })
    );
}

#[test]
fn cli_add_non_defaults_add_opt_only_on_validation_if_true() {
    let mut cli = build_default_cli();
    let mut other = build_default_cli();

    assert!(!cli.opt_only_on_validation);

    other.opt_only_on_validation = true;
    cli.add_non_defaults(other);

    assert!(cli.opt_only_on_validation);
}

#[test]
fn cli_add_non_defaults_add_force_file_extensions_if_true() {
    let mut cli = build_default_cli();
    let mut other = build_default_cli();

    assert!(!cli.force_file_extensions);

    other.force_file_extensions = true;
    cli.add_non_defaults(other);

    assert!(cli.force_file_extensions);
}

#[test]
fn cli_add_non_defaults_add_pat_if_some() {
    let mut cli = build_default_cli();
    let mut other = build_default_cli();

    other.personal_access_token = Some("x".to_string());
    cli.add_non_defaults(other);

    assert!(cli.personal_access_token.is_some());
    assert_eq!(cli.personal_access_token, Some("x".to_string()));
}

#[test]
fn cli_add_non_defaults_add_file_id_if_some() {
    let mut cli = build_default_cli();
    let mut other = build_default_cli();

    other.file_id = Some("x".to_string());
    cli.add_non_defaults(other);

    assert!(cli.file_id.is_some());
    assert_eq!(cli.file_id, Some("x".to_string()));
}

#[test]
fn cli_add_non_defaults_add_document_id_if_some() {
    let mut cli = build_default_cli();
    let mut other = build_default_cli();

    other.document_id = Some("x".to_string());
    cli.add_non_defaults(other);

    assert!(cli.document_id.is_some());
    assert_eq!(cli.document_id, Some("x".to_string()));
}

#[test]
fn cli_add_non_defaults_add_opt_png_level_if_some() {
    let mut cli = build_default_cli();
    let mut other = build_default_cli();

    other.opt_png_level = Some(10);
    cli.add_non_defaults(other);

    assert!(cli.opt_png_level.is_some());
    assert_eq!(cli.opt_png_level, Some(10));
}

#[test]
fn cli_add_non_defaults_add_opt_jpg_level_if_some() {
    let mut cli = build_default_cli();
    let mut other = build_default_cli();

    other.opt_jpg_level = Some(10);
    cli.add_non_defaults(other);

    assert!(cli.opt_jpg_level.is_some());
    assert_eq!(cli.opt_jpg_level, Some(10));
}

#[test]
fn cli_add_non_defaults_add_path_if_not_default() {
    let mut cli = build_default_cli();
    let mut other = build_default_cli();

    assert!(cli.path.is_empty());
    other.path = "x".to_string();
    cli.add_non_defaults(other);

    assert_eq!(cli.path, "x");
}

#[test]
fn cli_add_non_defaults_add_config_path_if_not_default() {
    let mut cli = build_default_cli();
    let mut other = build_default_cli();

    assert!(cli.config_path.is_empty());
    other.config_path = "x".to_string();
    cli.add_non_defaults(other);

    assert_eq!(cli.config_path, "x");
}

#[test]
fn cli_add_non_defaults_add_file_extensions_if_not_default() {
    let mut cli = build_default_cli();
    let mut other = build_default_cli();

    other.file_extensions = vec!["x".to_string()];
    cli.add_non_defaults(other);

    assert_eq!(cli.file_extensions, vec!["x".to_string()]);
}

#[test]
fn cli_add_non_defaults_add_file_scales_if_not_default() {
    let mut cli = build_default_cli();
    let mut other = build_default_cli();

    other.file_scales = vec![1, 2, 3];
    cli.add_non_defaults(other);

    assert_eq!(cli.file_scales, vec![1, 2, 3]);
}

#[test]
fn cli_add_non_defaults_keeps_what_the_other_leaves_at_its_default() {
    let mut cli = build_default_cli();
    cli.personal_access_token = Some("token".to_string());
    cli.file_id = Some("file".to_string());
    cli.document_id = Some("doc".to_string());
    cli.path = "assets".to_string();
    cli.config_path = "my.toml".to_string();
    cli.file_extensions = vec!["svg".to_string()];
    cli.file_scales = vec![2, 3];
    cli.opt_png_level = Some(3);
    cli.opt_jpg_level = Some(80);
    cli.opt_only_on_validation = true;
    cli.force_file_extensions = true;
    cli.subcommands = Some(SubCommands::ValidateManifest {
        path: "m.toml".to_string(),
    });

    let mut other = build_default_cli();
    other.path = "downloads".to_string();
    other.config_path = "fad.toml".to_string();
    other.file_extensions = vec!["png".to_string(), "png".to_string()];
    other.file_scales = vec![1, 1];
    cli.add_non_defaults(other);

    assert_eq!(cli.personal_access_token, Some("token".to_string()));
    assert_eq!(cli.file_id, Some("file".to_string()));
    assert_eq!(cli.document_id, Some("doc".to_string()));
    assert_eq!(cli.path, "assets");
    assert_eq!(cli.config_path, "my.toml");
    assert_eq!(cli.file_extensions, vec!["svg".to_string()]);
    assert_eq!(cli.file_scales, vec![2, 3]);
    assert_eq!(cli.opt_png_level, Some(3));
    assert_eq!(cli.opt_jpg_level, Some(80));
    assert!(cli.opt_only_on_validation);
    assert!(cli.force_file_extensions);
    assert_eq!(cli.subcommands, None);
}

#[test]
fn cli_add_non_defaults_takes_a_list_with_one_other_entry() {
    let mut cli = build_default_cli();
    let mut other = build_default_cli();
    other.file_extensions = vec!["png".to_string(), "jpg".to_string()];
    other.file_scales = vec![];
    other.path = "".to_string();
    cli.path = "kept".to_string();
    cli.file_scales = vec![4];
    cli.add_non_defaults(other);

    assert_eq!(
        cli.file_extensions,
        vec!["png".to_string(), "jpg".to_string()]
    );
    assert_eq!(cli.file_scales, vec![4]);
    assert_eq!(cli.path, "");
}
