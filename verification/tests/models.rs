use figma_asset_downloader::models::{
    default_force_file_extensions, default_format, default_opt_only_on_validation, default_path,
    default_scale, has_name_other_than, has_number_other_than, remove_extension, Image, Manifest,
    DEFAULT_CONFIG_PATH, DEFAULT_FILE_EXT, DEFAULT_FILE_SCALE, DEFAULT_PATH,
};

#[test]
fn defaults_are_the_documented_ones() {
    assert_eq!(default_scale(), vec![1]);
    assert_eq!(default_format(), vec!["png".to_string()]);
    assert_eq!(default_path(), "downloads");
    assert!(!default_force_file_extensions());
    assert!(!default_opt_only_on_validation());
    assert_eq!(DEFAULT_PATH, "downloads");
    assert_eq!(DEFAULT_FILE_EXT, "png");
    assert_eq!(DEFAULT_FILE_SCALE, 1);
    assert_eq!(DEFAULT_CONFIG_PATH, "fad.toml");
}

#[test]
fn default_manifest_has_no_files() {
    let manifest = Manifest::default();
    assert!(manifest.files.is_empty());
    assert_eq!(manifest.file_extensions, vec!["png".to_string()]);
    assert_eq!(manifest.file_scales, vec![1]);
    assert_eq!(manifest.path, "downloads");
}

#[test]
fn with_files_changes_the_files_only() {
    let manifest = Manifest {
        files: vec!["old".to_string()],
        file_extensions: vec!["svg".to_string()],
        file_scales: vec![2],
        path: "p".to_string(),
    }
    .with_files(vec!["a".to_string(), "b".to_string()]);
    assert_eq!(manifest.files, vec!["a".to_string(), "b".to_string()]);
    assert_eq!(manifest.file_extensions, vec!["svg".to_string()]);
    assert_eq!(manifest.file_scales, vec![2]);
    assert_eq!(manifest.path, "p");
}

#[test]
fn image_is_called_by_the_stem_of_its_frame() {
    let image = Image::new(
        "1:2".to_string(),
        "icons/home.png",
        2,
        "png".to_string(),
        "https://example.org/1".to_string(),
    );
    assert_eq!(image.id, "1:2");
    assert_eq!(image.name, "home");
    assert_eq!(image.scale, 2);
    assert_eq!(image.format, "png");
    assert_eq!(image.url, "https://example.org/1");
}

#[test]
fn remove_extension_keeps_a_name_without_one() {
    assert_eq!(remove_extension("logo"), "logo");
    assert_eq!(remove_extension("logo.svg"), "logo");
    assert_eq!(remove_extension("logo.min.svg"), "logo.min");
    assert_eq!(remove_extension(".hidden"), ".hidden");
    assert_eq!(remove_extension(" spaced .png"), " spaced ");
}

#[test]
fn other_than_looks_at_every_entry() {
    let names = vec!["png".to_string(), "png".to_string()];
    assert!(!has_name_other_than(&names, "png"));
    assert!(has_name_other_than(&names, "svg"));
    assert!(!has_name_other_than(&vec![], "png"));
    assert!(has_name_other_than(
        &vec!["png".to_string(), "jpg".to_string()],
        "png"
    ));
    assert!(!has_number_other_than(&vec![1, 1], 1));
    assert!(has_number_other_than(&vec![1, 2], 1));
    assert!(!has_number_other_than(&vec![], 1));
}
