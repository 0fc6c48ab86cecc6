use figma_asset_downloader::paths::{
    extension, file_stem, has_extension, locate_name, relative_to,
};
use figma_asset_downloader::text::chars_of;
use std::path::Path;

fn samples() -> Vec<&'static str> {
    vec![
        "",
        ".",
        "..",
        "...",
        "/",
        "//",
        "a",
        "a.",
        ".a",
        "..a",
        "a.b",
        "a.b.c",
        "a..b",
        ".a.b",
        "a/.",
        "a/..",
        "a.b/.",
        "a.b/",
        "a.b//",
        "a.b/./",
        "a.b/c",
        "a.b/c.d",
        "a.b/.c",
        "./a.b",
        "./.",
        "../.",
        "../a",
        "/a.png",
        "2.0x/a.png",
        "2.0x/a",
        "icons.d/home",
        "v1.2-release",
        "archive.tar.gz",
        "a b.png",
        " .png",
        "é.svg",
        "name.ünï",
        "dir/.hidden",
        "dir/.hidden.txt",
        "x/y/z/",
        "x/./y.z/.",
        "a\\b.c",
        "a.b\\c",
        "trailing.",
        "a/b./",
    ]
}

#[test]
fn extension_agrees_with_the_path_type_of_the_platform() {
    for sample in samples() {
        let expected = Path::new(sample)
            .extension()
            .and_then(|e| e.to_str())
            .map(String::from);
        assert_eq!(extension(sample), expected, "extension of {:?}", sample);
        assert_eq!(has_extension(sample), expected.is_some(), "{:?}", sample);
    }
}

#[test]
fn file_stem_agrees_with_the_path_type_of_the_platform() {
    for sample in samples() {
        let expected = Path::new(sample)
            .file_stem()
            .and_then(|e| e.to_str())
            .map(String::from);
        assert_eq!(file_stem(sample), expected, "stem of {:?}", sample);
    }
}

#[test]
fn extension_is_what_follows_the_last_dot() {
    assert_eq!(extension("a.png"), Some("png".to_string()));
    assert_eq!(extension("archive.tar.gz"), Some("gz".to_string()));
    assert_eq!(extension("trailing."), Some("".to_string()));
    assert_eq!(extension("v1.2-release"), Some("2-release".to_string()));
    assert_eq!(extension("2.0x/a.svg"), Some("svg".to_string()));
}

#[test]
fn no_extension_without_a_dot_behind_the_first_character() {
    assert_eq!(extension("a"), None);
    assert_eq!(extension(".hidden"), None);
    assert_eq!(extension("2.0x/a"), None);
    assert_eq!(extension(""), None);
    assert_eq!(extension(".."), None);
    assert_eq!(extension("a.b/.."), None);
    assert!(!has_extension("icons.d/home"));
    assert!(has_extension("icons.d/home.png"));
}

#[test]
fn file_stem_drops_folders_and_extension() {
    assert_eq!(file_stem("icons/home.png"), Some("home".to_string()));
    assert_eq!(file_stem("home"), Some("home".to_string()));
    assert_eq!(file_stem(".hidden"), Some(".hidden".to_string()));
    assert_eq!(file_stem("archive.tar.gz"), Some("archive.tar".to_string()));
    assert_eq!(file_stem("dir/"), Some("dir".to_string()));
    assert_eq!(file_stem(""), None);
    assert_eq!(file_stem("/"), None);
    assert_eq!(file_stem("a/.."), None);
    assert_eq!(file_stem("."), None);
}

#[test]
fn locate_name_gives_the_bounds_of_name_and_extension() {
    let chars = chars_of("dir/é.tar.gz/");
    let bounds = locate_name(&chars).unwrap();
    assert_eq!((bounds.start, bounds.dot, bounds.end), (4, 9, 12));
    let chars = chars_of("plain");
    let bounds = locate_name(&chars).unwrap();
    assert_eq!((bounds.start, bounds.dot, bounds.end), (0, 5, 5));
    assert!(locate_name(&chars_of("x/..")).is_none());
}

fn parts(items: Vec<&str>) -> Vec<String> {
    items.into_iter().map(String::from).collect()
}

#[test]
fn relative_to_joins_what_lies_below_the_root_with_slashes() {
    let root = parts(vec!["/", "home", "assets"]);
    assert_eq!(
        relative_to(&root, &parts(vec!["/", "home", "assets", "2.0x", "a.png"])),
        Some("2.0x/a.png".to_string())
    );
    assert_eq!(
        relative_to(&root, &parts(vec!["/", "home", "assets", "a.png"])),
        Some("a.png".to_string())
    );
    assert_eq!(relative_to(&root, &root), Some("".to_string()));
    assert_eq!(
        relative_to(&vec![], &parts(vec!["a", "b", "c"])),
        Some("a/b/c".to_string())
    );
}

#[test]
fn relative_to_needs_the_root_as_a_prefix() {
    let root = parts(vec!["/", "home", "assets"]);
    assert_eq!(
        relative_to(&root, &parts(vec!["/", "home", "other", "a.png"])),
        None
    );
    assert_eq!(relative_to(&root, &parts(vec!["/", "home"])), None);
    assert_eq!(relative_to(&root, &vec![]), None);
}
