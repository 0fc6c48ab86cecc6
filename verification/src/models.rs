//! The data that the downloader and the manifest check work on.

use crate::paths::{file_stem, stem_of};
use crate::text::{str_eq, texts};
use vstd::prelude::*;

verus! {

/// The folder that assets go to when none is named.
pub const DEFAULT_PATH: &'static str = "downloads";

/// The extension exported when none is named.
pub const DEFAULT_FILE_EXT: &'static str = "png";

/// The scale exported when none is named.
pub const DEFAULT_FILE_SCALE: usize = 1;

/// The configuration file read when none is named.
pub const DEFAULT_CONFIG_PATH: &'static str = "fad.toml";

/// What the tool is asked to do besides downloading.
#[derive(Debug, PartialEq)]
pub enum SubCommands {
    /// Check the assets on disk against the manifest at `path`.
    ValidateManifest { path: String },
}

/// The options of the downloader, from the command line or from a configuration file.
#[derive(Debug, PartialEq)]
pub struct Cli {
    /// Personal access token for the design-file service.
    pub personal_access_token: Option<String>,
    /// The file to export from.
    pub file_id: Option<String>,
    /// The document of that file to export from.
    pub document_id: Option<String>,
    /// Folder that assets are downloaded to.
    pub path: String,
    /// Extensions to export to where the name of an asset has none.
    pub file_extensions: Vec<String>,
    /// Whether `file_extensions` prevail over an extension in an asset's name.
    pub force_file_extensions: bool,
    /// Scales to export at.
    pub file_scales: Vec<usize>,
    /// The configuration file.
    pub config_path: String,
    /// Level at which png images are optimized, if they are.
    pub opt_png_level: Option<u8>,
    /// Quality at which jpg images are optimized, if they are.
    pub opt_jpg_level: Option<u8>,
    /// Whether only the new assets found by a validation are optimized.
    pub opt_only_on_validation: bool,
    pub subcommands: Option<SubCommands>,
}

/// Some entry of `list` differs from `text`.
pub open spec fn names_other_than(list: Seq<String>, text: Seq<char>) -> bool {
    exists|i: int| 0 <= i < list.len() && #[trigger] list[i]@ != text
}

/// Some entry of `list` differs from `value`.
pub open spec fn numbers_other_than(list: Seq<usize>, value: usize) -> bool {
    exists|i: int| 0 <= i < list.len() && #[trigger] list[i] != value
}

/// Decides `names_other_than`.
pub fn has_name_other_than(list: &Vec<String>, text: &str) -> (res: bool)
    ensures
        res == names_other_than(list@, text@),
{
    let mut i: usize = 0;
    while i < list.len()
        invariant
            i <= list@.len(),
            forall|j: int| 0 <= j < i ==> (#[trigger] list@[j])@ == text@,
        decreases list@.len() - i,
    {
        if !str_eq(list[i].as_str(), text) {
            return true;
        }
        i = i + 1;
    }
    false
}

/// Decides `numbers_other_than`.
pub fn has_number_other_than(list: &Vec<usize>, value: usize) -> (res: bool)
    ensures
        res == numbers_other_than(list@, value),
{
    let mut i: usize = 0;
    while i < list.len()
        invariant
            i <= list@.len(),
            forall|j: int| 0 <= j < i ==> #[trigger] list@[j] == value,
        decreases list@.len() - i,
    {
        if list[i] != value {
            return true;
        }
        i = i + 1;
    }
    false
}

impl Cli {
    /// Takes over from `other_cli` every option that it sets to something other
    /// than the default. The subcommand is always taken over, a flag is only
    /// ever switched on, an optional value is taken where `other_cli` has one,
    /// and a path or a list is taken where it differs from the default.
    pub fn add_non_defaults(&mut self, other_cli: Cli)
        ensures
            final(self).subcommands == other_cli.subcommands,
            final(self).opt_only_on_validation == (old(self).opt_only_on_validation
                || other_cli.opt_only_on_validation),
            final(self).force_file_extensions == (old(self).force_file_extensions
                || other_cli.force_file_extensions),
            final(self).personal_access_token == if other_cli.personal_access_token is Some {
                other_cli.personal_access_token
            } else {
                old(self).personal_access_token
            },
            final(self).file_id == if other_cli.file_id is Some {
                other_cli.file_id
            } else {
                old(self).file_id
            },
            final(self).document_id == if other_cli.document_id is Some {
                other_cli.document_id
            } else {
                old(self).document_id
            },
            final(self).opt_png_level == if other_cli.opt_png_level is Some {
                other_cli.opt_png_level
            } else {
                old(self).opt_png_level
            },
            final(self).opt_jpg_level == if other_cli.opt_jpg_level is Some {
                other_cli.opt_jpg_level
            } else {
                old(self).opt_jpg_level
            },
            final(self).path == if other_cli.path@ != DEFAULT_PATH@ {
                other_cli.path
            } else {
                old(self).path
            },
            final(self).config_path == if other_cli.config_path@ != DEFAULT_CONFIG_PATH@ {
                other_cli.config_path
            } else {
                old(self).config_path
            },
            final(self).file_extensions == if names_other_than(
                other_cli.file_extensions@,
                DEFAULT_FILE_EXT@,
            ) {
                other_cli.file_extensions
            } else {
                old(self).file_extensions
            },
            final(self).file_scales == if numbers_other_than(
                other_cli.file_scales@,
                DEFAULT_FILE_SCALE,
            ) {
                other_cli.file_scales
            } else {
                old(self).file_scales
            },
    {
        let Cli {
            personal_access_token,
            file_id,
            document_id,
            path,
            file_extensions,
            force_file_extensions,
            file_scales,
            config_path,
            opt_png_level,
            opt_jpg_level,
            opt_only_on_validation,
            subcommands,
        } = other_cli;
        self.subcommands = subcommands;
        if opt_only_on_validation {
            self.opt_only_on_validation = true;
        }
        if force_file_extensions {
            self.force_file_extensions = true;
        }
        if personal_access_token.is_some() {
            self.personal_access_token = personal_access_token;
        }
        if file_id.is_some() {
            self.file_id = file_id;
        }
        if document_id.is_some() {
            self.document_id = document_id;
        }
        if opt_png_level.is_some() {
            self.opt_png_level = opt_png_level;
        }
        if opt_jpg_level.is_some() {
            self.opt_jpg_level = opt_jpg_level;
        }
        if !str_eq(path.as_str(), DEFAULT_PATH) {
            self.path = path;
        }
        if !str_eq(config_path.as_str(), DEFAULT_CONFIG_PATH) {
            self.config_path = config_path;
        }
        if has_name_other_than(&file_extensions, DEFAULT_FILE_EXT) {
            self.file_extensions = file_extensions;
        }
        if has_number_other_than(&file_scales, DEFAULT_FILE_SCALE) {
            self.file_scales = file_scales;
        }
    }
}

/// The scales exported when none are named: the base scale alone.
pub fn default_scale() -> (scales: Vec<usize>)
    ensures
        scales@ == seq![DEFAULT_FILE_SCALE],
{
    let mut scales: Vec<usize> = Vec::new();
    scales.push(DEFAULT_FILE_SCALE);
    assert(scales@ =~= seq![DEFAULT_FILE_SCALE]);
    scales
}

/// The extensions exported when none are named: `png` alone.
pub fn default_format() -> (formats: Vec<String>)
    ensures
        texts(formats@) == seq![DEFAULT_FILE_EXT@],
{
    let mut formats: Vec<String> = Vec::new();
    formats.push(String::from_str(DEFAULT_FILE_EXT));
    assert(texts(formats@) =~= seq![DEFAULT_FILE_EXT@]);
    formats
}

/// The folder that assets go to when none is named.
pub fn default_path() -> (path: String)
    ensures
        path@ == DEFAULT_PATH@,
{
    String::from_str(DEFAULT_PATH)
}

/// Extensions named on the command line do not override an extension in an asset's name.
pub fn default_force_file_extensions() -> (force: bool)
    ensures
        !force,
{
    false
}

/// Images are optimized on download, not only on validation.
pub fn default_opt_only_on_validation() -> (only: bool)
    ensures
        !only,
{
    false
}

/// The scales of a list, as mathematical numbers.
pub open spec fn scale_values(scales: Seq<usize>) -> Seq<nat> {
    Seq::new(scales.len(), |i: int| scales[i] as nat)
}

/// The assets that an export is expected to produce.
#[derive(Debug, Clone)]
pub struct Manifest {
    /// Files that must be present. A name without extension stands for one file per entry of `file_extensions`.
    pub files: Vec<String>,
    /// Extensions given to the names in `files` that have none.
    pub file_extensions: Vec<String>,
    /// Scales that every file is exported at.
    pub file_scales: Vec<usize>,
    /// Folder that holds the assets.
    pub path: String,
}

/// What a manifest says, as plain sequences.
pub struct ManifestView {
    pub files: Seq<Seq<char>>,
    pub file_extensions: Seq<Seq<char>>,
    pub file_scales: Seq<nat>,
    pub path: Seq<char>,
}

impl View for Manifest {
    type V = ManifestView;

    open spec fn view(&self) -> ManifestView {
        ManifestView {
            files: texts(self.files@),
            file_extensions: texts(self.file_extensions@),
            file_scales: scale_values(self.file_scales@),
            path: self.path@,
        }
    }
}

impl Default for Manifest {
    fn default() -> (manifest: Manifest)
        ensures
            manifest@.files == Seq::<Seq<char>>::empty(),
            manifest@.file_extensions == seq![DEFAULT_FILE_EXT@],
            manifest@.file_scales == seq![1nat],
            manifest@.path == DEFAULT_PATH@,
    {
        let manifest = Manifest {
            files: Vec::new(),
            file_extensions: default_format(),
            file_scales: default_scale(),
            path: default_path(),
        };
        assert(manifest@.files =~= Seq::<Seq<char>>::empty());
        assert(manifest@.file_scales =~= seq![1nat]);
        manifest
    }
}

impl Manifest {
    /// The same manifest with `files` as its list of files.
    pub fn with_files(self, files: Vec<String>) -> (manifest: Manifest)
        ensures
            manifest.files == files,
            manifest.file_extensions == self.file_extensions,
            manifest.file_scales == self.file_scales,
            manifest.path == self.path,
    {
        let mut manifest = self;
        manifest.files = files;
        manifest
    }
}

/// The kinds of node of a design file.
#[allow(non_camel_case_types)]
#[derive(Debug, Clone, Copy, PartialEq, Eq, Structural)]
pub enum NodeType {
    DOCUMENT,
    CANVAS,
    FRAME,
    GROUP,
    VECTOR,
    BOOLEAN_OPERATION,
    STAR,
    LINE,
    ELLIPSE,
    REGULAR_POLYGON,
    RECTANGLE,
    TEXT,
    SLICE,
    COMPONENT,
    INSTANCE,
}

/// A node of a design file, with the nodes below it.
#[derive(Debug)]
pub struct Node {
    pub id: String,
    pub name: String,
    pub node_type: NodeType,
    pub children: Option<Vec<Node>>,
}

/// The frames of a document: the nodes that are exported as images.
pub type Frames = Vec<Node>;

/// The root node of one document of a design file.
#[derive(Debug)]
pub struct Document {
    pub document: Node,
}

/// The answer to a request for documents: each with the id it was asked by.
#[derive(Debug)]
pub struct Page {
    pub name: String,
    pub nodes: Vec<(String, Document)>,
}

/// The answer to a request for images: the id of each image with its address.
#[derive(Debug, Clone)]
pub struct ImageUrlCollection {
    pub images: Vec<(String, String)>,
}

/// An image to download: a frame at one scale in one format.
pub struct Image {
    pub id: String,
    pub name: String,
    pub scale: usize,
    pub format: String,
    pub url: String,
}

/// What an `Image` holds, as plain values.
pub struct ImageView {
    pub id: Seq<char>,
    pub name: Seq<char>,
    pub scale: nat,
    pub format: Seq<char>,
    pub url: Seq<char>,
}

impl View for Image {
    type V = ImageView;

    open spec fn view(&self) -> ImageView {
        ImageView {
            id: self.id@,
            name: self.name@,
            scale: self.scale as nat,
            format: self.format@,
            url: self.url@,
        }
    }
}

impl Image {
    /// The image of the frame called `name`; the image is called by the stem of
    /// that name, without folders and without extension.
    pub fn new(id: String, name: &str, scale: usize, format: String, url: String) -> (image: Image)
        requires
            stem_of(name@) is Some,
        ensures
            image.id == id,
            stem_of(name@) == Some(image.name@),
            image.scale == scale,
            image.format == format,
            image.url == url,
    {
        Image { id, name: remove_extension(name), scale, format, url }
    }
}

/// The file name of `filename` without its extension.
pub fn remove_extension(filename: &str) -> (stem: String)
    requires
        stem_of(filename@) is Some,
    ensures
        stem_of(filename@) == Some(stem@),
{
    match file_stem(filename) {
        Some(stem) => stem,
        None => String::new(),
    }
}

} // verus!
