use figma_asset_downloader::manifest_checker::{
    ManifestChecker, ManifestError, ManifestInfo, ManifestReader, TokioManifestReader,
};
use figma_asset_downloader::models::Manifest;

struct MockReader {
    pub read_manifest_result: Manifest,
    pub read_assets_result: Vec<String>,
}

impl MockReader {
    fn new(manifest_result: Manifest, assets_result: Vec<String>) -> Self {
        Self {
            read_manifest_result: manifest_result,
            read_assets_result: assets_result,
        }
    }
}

impl ManifestReader for MockReader {
    fn read_manifest(&self) -> Result<Manifest, ManifestError> {
        Ok(self.read_manifest_result.clone())
    }

    fn read_assets(&self, _: &String) -> Result<Vec<String>, ManifestError> {
        Ok(self.read_assets_result.clone())
    }
}

struct FailingReader {
    manifest: Option<Manifest>,
}

impl ManifestReader for FailingReader {
    fn read_manifest(&self) -> Result<Manifest, ManifestError> {
        match &self.manifest {
            Some(manifest) => Ok(manifest.clone()),
            None => Err(ManifestError::Parse("expected an equals".to_string())),
        }
    }

    fn read_assets(&self, path: &String) -> Result<Vec<String>, ManifestError> {
        Err(ManifestError::IO(format!("cannot walk {}", path)))
    }
}

fn asset_builder(vec: Vec<&str>) -> Vec<String> {
    vec.into_iter().map(String::from).collect()
}

fn check(manifest: Manifest, assets: Vec<String>) -> ManifestInfo {
    ManifestChecker::new(MockReader::new(manifest, assets))
        .check()
        .unwrap()
}

#[test]
fn manifest_should_have_all_none_if_assets_and_manifest_are_ok() {
    let assets = asset_builder(vec!["a.jpg", "b.jpg"]);
    let manifest = Manifest::default().with_files(assets.clone());
    let mock_reader = MockReader::new(manifest, assets);
    let checker = ManifestChecker::new(mock_reader);
    let result = checker.check().unwrap();

    assert!(result.new_assets.is_none());
    assert!(result.missing_assets.is_none());
}

#[test]
fn manifest_should_have_new_assets_if_new_assets_are_added() {
    let manifest = Manifest::default().with_files(asset_builder(vec!["a.jpg", "b.jpg"]));
    let assets = asset_builder(vec!["a.jpg", "b.jpg", "c.jpg"]);
    let mock_reader = MockReader::new(manifest, assets.clone());
    let checker = ManifestChecker::new(mock_reader);
    let result = checker.check().unwrap();

    assert!(result.new_assets.is_some());
    assert_eq!(result.new_assets.unwrap()[0], assets[2]);
    assert!(result.missing_assets.is_none());
}

#[test]
fn manifest_should_have_missing_assets_if_assets_are_missing() {
    let manifest_files = asset_builder(vec!["a.jpg", "b.jpg"]);
    let manifest = Manifest::default().with_files(manifest_files.clone());
    let assets = asset_builder(vec!["a.jpg"]);
    let mock_reader = MockReader::new(manifest, assets);
    let checker = ManifestChecker::new(mock_reader);
    let result = checker.check().unwrap();

    assert!(result.new_assets.is_none());
    assert!(result.missing_assets.is_some());
    assert_eq!(result.missing_assets.unwrap()[0], manifest_files[1]);
}

#[test]
fn manifest_should_use_extensions_when_files_have_no_extension() {
    let manifest = Manifest {
        file_extensions: vec!["png".to_string(), "svg".to_string()],
        file_scales: vec![1],
        files: asset_builder(vec!["a", "b"]),
        path: "".to_owned(),
    };
    let assets = asset_builder(vec!["a.png", "a.svg", "b.png", "b.svg"]);
    let mock_reader = MockReader::new(manifest, assets);
    let checker = ManifestChecker::new(mock_reader);
    let result = checker.check().unwrap();

    assert!(result.new_assets.is_none());
    assert!(result.missing_assets.is_none());
}

#[test]
fn manifest_should_not_use_extensions_when_files_have_extensions() {
    let manifest = Manifest {
        file_extensions: vec!["png".to_string(), "svg".to_string()],
        file_scales: vec![1],
        files: asset_builder(vec!["a", "b", "c.svg", "d.jpg"]),
        path: "".to_owned(),
    };
    let assets = asset_builder(vec!["a.png", "a.svg", "b.png", "b.svg", "c.svg", "d.jpg"]);
    let mock_reader = MockReader::new(manifest, assets);
    let checker = ManifestChecker::new(mock_reader);
    let result = checker.check().unwrap();

    assert!(result.new_assets.is_none());
    assert!(result.missing_assets.is_none());
}

#[test]
fn manifest_should_use_scales() {
    let manifest = Manifest {
        file_extensions: vec!["png".to_string(), "svg".to_string()],
        file_scales: vec![1, 2, 3],
        files: asset_builder(vec!["a"]),
        path: "".to_owned(),
    };
    let assets = asset_builder(vec![
        "a.png",
        "a.svg",
        "2.0x/a.png",
        "2.0x/a.svg",
        "3.0x/a.png",
        "3.0x/a.svg",
    ]);
    let mock_reader = MockReader::new(manifest, assets);
    let checker = ManifestChecker::new(mock_reader);
    let result = checker.check().unwrap();

    assert!(result.new_assets.is_none());
    assert!(result.missing_assets.is_none());
}

#[test]
fn check_twice_gives_the_same_report() {
    let manifest = Manifest {
        file_extensions: vec!["png".to_string(), "svg".to_string()],
        file_scales: vec![1, 2],
        files: asset_builder(vec!["b", "a.jpg", "c"]),
        path: "".to_owned(),
    };
    let assets = asset_builder(vec!["z.txt", "a.jpg", "b.png", "2.0x/c.svg", "extra/y.png"]);
    let first = check(manifest.clone(), assets.clone());
    let second = check(manifest, assets);
    assert_eq!(first.new_assets, second.new_assets);
    assert_eq!(first.missing_assets, second.missing_assets);
    assert_eq!(
        first.new_assets,
        Some(asset_builder(vec!["extra/y.png", "z.txt"]))
    );
    assert_eq!(
        first.missing_assets,
        Some(asset_builder(vec![
            "2.0x/a.jpg",
            "2.0x/b.png",
            "2.0x/b.svg",
            "2.0x/c.png",
            "b.svg",
            "c.png",
            "c.svg",
        ]))
    );
}

#[test]
fn lists_are_sorted_whatever_the_order_of_the_inputs() {
    let manifest = Manifest::default().with_files(asset_builder(vec!["m.jpg", "c.jpg", "x.jpg"]));
    let assets = asset_builder(vec!["zz.png", "b.png", "k.png"]);
    let info = check(manifest, assets);
    assert_eq!(
        info.new_assets,
        Some(asset_builder(vec!["b.png", "k.png", "zz.png"]))
    );
    assert_eq!(
        info.missing_assets,
        Some(asset_builder(vec!["c.jpg", "m.jpg", "x.jpg"]))
    );

    let reordered = Manifest::default().with_files(asset_builder(vec!["x.jpg", "m.jpg", "c.jpg"]));
    let reordered_assets = asset_builder(vec!["k.png", "zz.png", "b.png"]);
    let again = check(reordered, reordered_assets);
    assert_eq!(info.new_assets, again.new_assets);
    assert_eq!(info.missing_assets, again.missing_assets);
}

#[test]
fn sorting_goes_by_code_point_and_prefix() {
    let manifest = Manifest::default().with_files(vec![]);
    let assets = asset_builder(vec!["b", "ab", "a", "B", "a.png", "é", "10", "9", ""]);
    let info = check(manifest, assets);
    assert_eq!(
        info.new_assets,
        Some(asset_builder(vec![
            "", "10", "9", "B", "a", "a.png", "ab", "b", "é"
        ]))
    );
    assert!(info.missing_assets.is_none());
}

#[test]
fn duplicate_expansions_collapse() {
    let manifest = Manifest {
        file_extensions: vec!["png".to_string(), "png".to_string()],
        file_scales: vec![2, 2, 1],
        files: asset_builder(vec!["a", "a.png", "a"]),
        path: "".to_owned(),
    };
    let info = check(manifest, vec![]);
    assert!(info.new_assets.is_none());
    assert_eq!(
        info.missing_assets,
        Some(asset_builder(vec!["2.0x/a.png", "a.png"]))
    );
}

#[test]
fn an_asset_listed_twice_is_new_twice() {
    let manifest = Manifest::default().with_files(asset_builder(vec!["a.png"]));
    let info = check(manifest, asset_builder(vec!["x", "a.png", "x", "a.png"]));
    assert_eq!(info.new_assets, Some(asset_builder(vec!["x", "x"])));
    assert!(info.missing_assets.is_none());
}

#[test]
fn a_scale_places_its_files_in_its_folder_only() {
    let manifest = Manifest {
        file_extensions: vec!["png".to_string()],
        file_scales: vec![12],
        files: asset_builder(vec!["icon"]),
        path: "".to_owned(),
    };
    let info = check(manifest, asset_builder(vec!["icon.png"]));
    assert_eq!(info.new_assets, Some(asset_builder(vec!["icon.png"])));
    assert_eq!(
        info.missing_assets,
        Some(asset_builder(vec!["12.0x/icon.png"]))
    );
}

#[test]
fn scale_zero_and_no_scale_expect_nothing() {
    let zero = Manifest {
        file_extensions: vec!["png".to_string()],
        file_scales: vec![0],
        files: asset_builder(vec!["icon"]),
        path: "".to_owned(),
    };
    let info = check(zero, asset_builder(vec!["icon.png"]));
    assert_eq!(info.new_assets, Some(asset_builder(vec!["icon.png"])));
    assert!(info.missing_assets.is_none());

    let none = Manifest {
        file_extensions: vec!["png".to_string()],
        file_scales: vec![],
        files: asset_builder(vec!["icon"]),
        path: "".to_owned(),
    };
    let info = check(none, vec![]);
    assert!(info.new_assets.is_none());
    assert!(info.missing_assets.is_none());
}

#[test]
fn a_name_without_extension_and_no_extensions_expects_nothing() {
    let manifest = Manifest {
        file_extensions: vec![],
        file_scales: vec![1],
        files: asset_builder(vec!["icon", "logo.svg"]),
        path: "".to_owned(),
    };
    let info = check(manifest, vec![]);
    assert_eq!(info.missing_assets, Some(asset_builder(vec!["logo.svg"])));
}

#[test]
fn extension_is_detected_on_the_last_dot_of_the_last_component() {
    let manifest = Manifest {
        file_extensions: vec!["png".to_string()],
        file_scales: vec![1],
        files: asset_builder(vec!["v1.2-release", "icons.d/home", ".hidden", "trailing."]),
        path: "".to_owned(),
    };
    let info = check(manifest, vec![]);
    assert_eq!(
        info.missing_assets,
        Some(asset_builder(vec![
            ".hidden.png",
            "icons.d/home.png",
            "trailing.",
            "v1.2-release",
        ]))
    );
}

#[test]
fn empty_folder_and_empty_manifest_report_nothing() {
    let info = check(Manifest::default(), vec![]);
    assert!(info.new_assets.is_none());
    assert!(info.missing_assets.is_none());
}

#[test]
fn compare_results_agrees_with_check() {
    let manifest = Manifest::default().with_files(asset_builder(vec!["a", "b"]));
    let assets = asset_builder(vec!["b.png", "c.png"]);
    let direct =
        ManifestChecker::<MockReader>::compare_results(manifest.clone(), assets.clone());
    let checked = check(manifest, assets);
    assert_eq!(direct.new_assets, checked.new_assets);
    assert_eq!(direct.missing_assets, checked.missing_assets);
    assert_eq!(direct.new_assets, Some(asset_builder(vec!["c.png"])));
    assert_eq!(direct.missing_assets, Some(asset_builder(vec!["a.png"])));
}

#[test]
fn reader_errors_are_handed_on() {
    let parse = ManifestChecker::new(FailingReader { manifest: None }).check();
    match parse {
        Err(ManifestError::Parse(text)) => assert_eq!(text, "expected an equals"),
        other => panic!("unexpected outcome: {:?}", other),
    }
    let io = ManifestChecker::new(FailingReader {
        manifest: Some(Manifest::default()),
    })
    .check();
    match io {
        Err(ManifestError::IO(text)) => assert_eq!(text, "cannot walk downloads"),
        other => panic!("unexpected outcome: {:?}", other),
    }
}

#[test]
fn report_on_keeps_the_error_of_the_listing() {
    let res = ManifestChecker::<MockReader>::report_on(
        Manifest::default(),
        Err(ManifestError::Generic),
    );
    assert!(matches!(res, Err(ManifestError::Generic)));
    let res = ManifestChecker::<MockReader>::report_on(
        Manifest::default().with_files(asset_builder(vec!["a"])),
        Ok(vec![]),
    );
    assert_eq!(
        res.unwrap().missing_assets,
        Some(asset_builder(vec!["a.png"]))
    );
}

#[test]
fn error_messages_name_the_kind() {
    assert_eq!(ManifestError::Generic.message(), "Generic Error");
    assert_eq!(
        ManifestError::Parse("bad".to_string()).message(),
        "Error trying to parse the manifest: bad"
    );
    assert_eq!(
        ManifestError::IO("gone".to_string()).message(),
        "Error trying to read a file/directory: gone"
    );
}

#[test]
fn system_errors_become_io_errors() {
    let error = std::io::Error::new(std::io::ErrorKind::NotFound, "no such folder");
    match ManifestError::from(error) {
        ManifestError::IO(text) => assert_eq!(text, "no such folder"),
        other => panic!("unexpected error: {:?}", other),
    }
}

#[test]
fn with_tokio_reader_keeps_the_manifest_path() {
    let checker =
        ManifestChecker::<TokioManifestReader>::with_tokio_reader("fad_manifest.toml".to_string());
    assert_eq!(checker.reader().manifest_path, "fad_manifest.toml");
}

#[test]
fn info_builders_keep_empty_lists_absent() {
    let info = ManifestInfo::default()
        .with_new_assets(vec![])
        .with_missing_assets(vec![]);
    assert!(info.new_assets.is_none());
    assert!(info.missing_assets.is_none());

    let info = ManifestInfo::default()
        .with_new_assets(asset_builder(vec!["n"]))
        .with_missing_assets(asset_builder(vec!["m"]))
        .with_new_assets(vec![]);
    assert_eq!(info.new_assets, Some(asset_builder(vec!["n"])));
    assert_eq!(info.missing_assets, Some(asset_builder(vec!["m"])));
}

#[test]
fn parser_errors_become_parse_errors() {
    let error = toml::from_str::<toml::Value>("files = [").unwrap_err();
    let text = error.to_string();
    assert!(!text.is_empty());
    match ManifestError::from(error) {
        ManifestError::Parse(kept) => assert_eq!(kept, text),
        other => panic!("unexpected error: {:?}", other),
    }
}
