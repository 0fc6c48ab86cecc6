//! Checking a folder of assets against a manifest.

use crate::models::Manifest;
use crate::reconcile::reconcile;
use crate::text::texts;
use vstd::prelude::*;
use vstd::std_specs::convert::FromSpecImpl;

verus! {

/// Why a check could not be made.
#[derive(Debug, Clone)]
pub enum ManifestError {
    /// None of the other kinds.
    Generic,
    /// The manifest is not a well-formed document; the text is the parser's.
    Parse(String),
    /// The manifest or the folder could not be read; the text is the system's.
    IO(String),
}

/// The error of the manifest parser, `toml::de::Error`: carried through; only the
/// text that it displays is spoken of, under the name `parse_error_display`.
#[verifier::external_type_specification]
#[verifier::external_body]
pub struct ExTomlError(toml::de::Error);

/// The error of the file system, `std::io::Error`: carried through, never looked into.
#[verifier::external_type_specification]
#[verifier::external_body]
pub struct ExIoError(std::io::Error);

/// The text that a parser error displays: the message of `toml::de::Error`, with
/// the place in the document where it has one. It is read off the error value alone.
pub uninterp spec fn parse_error_display(error: toml::de::Error) -> Seq<char>;

/// The text of a parser error, as `toml::de::Error` displays it through
/// `to_string`: the text is the one that the error value stands for.
#[verifier::external_body]
fn parse_error_text(error: &toml::de::Error) -> (text: String)
    ensures
        text@ == parse_error_display(*error),
{
    error.to_string()
}

/// The text of a system error, as `std::io::Error` displays it through `to_string`.
/// Nothing is claimed of the text: it is the machine's.
#[verifier::external_body]
fn io_error_text(error: &std::io::Error) -> (text: String) {
    error.to_string()
}

impl ManifestError {
    /// The line that tells a user of this error.
    pub open spec fn message_of(self) -> Seq<char> {
        match self {
            ManifestError::Generic => "Generic Error"@,
            ManifestError::Parse(text) => "Error trying to parse the manifest: "@ + text@,
            ManifestError::IO(text) => "Error trying to read a file/directory: "@ + text@,
        }
    }

    /// The line that tells a user of this error.
    pub fn message(&self) -> (line: String)
        ensures
            line@ == self.message_of(),
    {
        match self {
            ManifestError::Generic => String::from_str("Generic Error"),
            ManifestError::Parse(text) => String::from_str(
                "Error trying to parse the manifest: ",
            ).concat(text.as_str()),
            ManifestError::IO(text) => String::from_str(
                "Error trying to read a file/directory: ",
            ).concat(text.as_str()),
        }
    }
}

impl From<toml::de::Error> for ManifestError {
    /// A parser error is a `Parse` error that carries the parser's text.
    fn from(error: toml::de::Error) -> (res: ManifestError)
        ensures
            res matches ManifestError::Parse(text) && text@ == parse_error_display(error),
    {
        ManifestError::Parse(parse_error_text(&error))
    }
}

impl FromSpecImpl<toml::de::Error> for ManifestError {
    open spec fn obeys_from_spec() -> bool {
        false
    }

    open spec fn from_spec(error: toml::de::Error) -> ManifestError {
        ManifestError::Generic
    }
}

impl From<std::io::Error> for ManifestError {
    /// A system error is an `IO` error.
    fn from(error: std::io::Error) -> (res: ManifestError)
        ensures
            res is IO,
    {
        ManifestError::IO(io_error_text(&error))
    }
}

impl FromSpecImpl<std::io::Error> for ManifestError {
    open spec fn obeys_from_spec() -> bool {
        false
    }

    open spec fn from_spec(error: std::io::Error) -> ManifestError {
        ManifestError::Generic
    }
}

/// Where a check gets the manifest and the contents of the assets folder from.
pub trait ManifestReader {
    /// Reads and parses the manifest.
    fn read_manifest(&self) -> Result<Manifest, ManifestError>;

    /// Lists the files below `assets_dir_path`, each by its path relative to that
    /// folder, with `/` between the components.
    fn read_assets(&self, assets_dir_path: &String) -> Result<Vec<String>, ManifestError>;
}

/// Names the manifest file of a reader that works on the file system.
pub struct TokioManifestReader {
    pub manifest_path: String,
}

/// Checks the assets that a reader lists against the manifest that it reads.
pub struct ManifestChecker<T> {
    reader: T,
}

impl<T> ManifestChecker<T> {
    /// The reader that this checker asks.
    pub closed spec fn source(&self) -> T {
        self.reader
    }

    /// A checker that asks `reader`.
    pub fn new(reader: T) -> (checker: Self)
        ensures
            checker.source() == reader,
    {
        ManifestChecker { reader }
    }

    /// A checker for the manifest file at `manifest_path`.
    pub fn with_tokio_reader(manifest_path: String) -> (checker: ManifestChecker<
        TokioManifestReader,
    >)
        ensures
            checker.source().manifest_path == manifest_path,
    {
        ManifestChecker { reader: TokioManifestReader { manifest_path } }
    }

    /// The reader that this checker asks.
    pub fn reader(&self) -> (reader: &T)
        ensures
            *reader == self.source(),
    {
        &self.reader
    }

    /// Checks the folder contents `assets` against `manifest`.
    pub fn compare_results(manifest: Manifest, assets: Vec<String>) -> (info: ManifestInfo)
        ensures
            info@.reports(manifest@, texts(assets@)),
    {
        reconcile(manifest, assets)
    }

    /// The outcome of a check once the folder of `manifest` was listed, or could not be.
    pub fn report_on(manifest: Manifest, listing: Result<Vec<String>, ManifestError>) -> (res:
        Result<ManifestInfo, ManifestError>)
        ensures
            match listing {
                Ok(assets) => res matches Ok(info) && info@.reports(manifest@, texts(assets@)),
                Err(error) => res == Err::<ManifestInfo, ManifestError>(error),
            },
    {
        match listing {
            Ok(assets) => Ok(reconcile(manifest, assets)),
            Err(error) => Err(error),
        }
    }
}

impl<T: ManifestReader> ManifestChecker<T> {
    /// Reads the manifest, lists the folder that it names and compares the two.
    /// An error of the reader is handed on as it is, and a report is the report of
    /// checking the listing that the reader gave against the manifest that it gave.
    pub fn check(&self) -> (res: Result<ManifestInfo, ManifestError>)
        ensures
            match res {
                Ok(info) => exists|manifest: Manifest, assets: Vec<String>|
                    {
                        &&& call_ensures(
                            T::read_manifest,
                            (&self.source(),),
                            Ok::<Manifest, ManifestError>(manifest),
                        )
                        &&& call_ensures(
                            T::read_assets,
                            (&self.source(), &manifest.path),
                            Ok::<Vec<String>, ManifestError>(assets),
                        )
                        &&& info@.reports(manifest@, texts(assets@))
                    },
                Err(error) => {
                    ||| call_ensures(
                        T::read_manifest,
                        (&self.source(),),
                        Err::<Manifest, ManifestError>(error),
                    )
                    ||| exists|manifest: Manifest|
                        {
                            &&& call_ensures(
                                T::read_manifest,
                                (&self.source(),),
                                Ok::<Manifest, ManifestError>(manifest),
                            )
                            &&& call_ensures(
                                T::read_assets,
                                (&self.source(), &manifest.path),
                                Err::<Vec<String>, ManifestError>(error),
                            )
                        }
                },
            },
    {
        match self.reader.read_manifest() {
            Ok(manifest) => {
                let listing = self.reader.read_assets(&manifest.path);
                let ghost read = manifest;
                let ghost listed = listing;
                let res = Self::report_on(manifest, listing);
                proof {
                    assert(call_ensures(
                        T::read_manifest,
                        (&self.source(),),
                        Ok::<Manifest, ManifestError>(read),
                    ));
                    assert(call_ensures(T::read_assets, (&self.source(), &read.path), listed));
                    if res is Ok {
                        assert(res->Ok_0@.reports(read@, texts(listed->Ok_0@)));
                    }
                }
                res
            },
            Err(error) => Err(error),
        }
    }
}

/// What a check found: the assets that the manifest does not know, and the
/// expected assets that are not there. A list that would be empty is absent.
#[derive(Debug)]
pub struct ManifestInfo {
    pub new_assets: Option<Vec<String>>,
    pub missing_assets: Option<Vec<String>>,
}

/// The two lists of a `ManifestInfo`, as plain sequences.
pub struct ManifestInfoView {
    pub new_assets: Option<Seq<Seq<char>>>,
    pub missing_assets: Option<Seq<Seq<char>>>,
}

/// The contents of an optional list of strings.
pub open spec fn optional_texts(list: Option<Vec<String>>) -> Option<Seq<Seq<char>>> {
    match list {
        Some(items) => Some(texts(items@)),
        None => None,
    }
}

/// The entries of an optional list; an absent list has none.
pub open spec fn entries(list: Option<Seq<Seq<char>>>) -> Seq<Seq<char>> {
    match list {
        Some(items) => items,
        None => Seq::empty(),
    }
}

impl View for ManifestInfo {
    type V = ManifestInfoView;

    open spec fn view(&self) -> ManifestInfoView {
        ManifestInfoView {
            new_assets: optional_texts(self.new_assets),
            missing_assets: optional_texts(self.missing_assets),
        }
    }
}

impl Default for ManifestInfo {
    fn default() -> (info: ManifestInfo)
        ensures
            info.new_assets is None,
            info.missing_assets is None,
    {
        ManifestInfo { new_assets: None, missing_assets: None }
    }
}

impl ManifestInfo {
    /// Records `assets` as the new assets, unless the list is empty.
    pub fn with_new_assets(self, assets: Vec<String>) -> (info: ManifestInfo)
        ensures
            info.missing_assets == self.missing_assets,
            info.new_assets == if assets@.len() > 0 {
                Some(assets)
            } else {
                self.new_assets
            },
    {
        let mut info = self;
        if assets.len() > 0 {
            info.new_assets = Some(assets);
        }
        info
    }

    /// Records `assets` as the missing assets, unless the list is empty.
    pub fn with_missing_assets(self, assets: Vec<String>) -> (info: ManifestInfo)
        ensures
            info.new_assets == self.new_assets,
            info.missing_assets == if assets@.len() > 0 {
                Some(assets)
            } else {
                self.missing_assets
            },
    {
        let mut info = self;
        if assets.len() > 0 {
            info.missing_assets = Some(assets);
        }
        info
    }
}

/// One line of what a check tells its user.
#[derive(Debug, PartialEq)]
pub enum InfoLine {
    /// The line above the missing assets.
    MissingHeader,
    /// One missing asset.
    Missing(String),
    /// The line above the new assets.
    NewHeader,
    /// One new asset.
    New(String),
}

/// An `InfoLine`, as plain values.
pub enum InfoLineView {
    MissingHeader,
    Missing(Seq<char>),
    NewHeader,
    New(Seq<char>),
}

impl View for InfoLine {
    type V = InfoLineView;

    open spec fn view(&self) -> InfoLineView {
        match self {
            InfoLine::MissingHeader => InfoLineView::MissingHeader,
            InfoLine::Missing(asset) => InfoLineView::Missing(asset@),
            InfoLine::NewHeader => InfoLineView::NewHeader,
            InfoLine::New(asset) => InfoLineView::New(asset@),
        }
    }
}

/// What a list of lines says.
pub open spec fn line_views(lines: Seq<InfoLine>) -> Seq<InfoLineView> {
    Seq::new(lines.len(), |i: int| lines[i]@)
}

/// The lines of the missing assets: a header and one line each, where the list is present.
pub open spec fn missing_lines(list: Option<Seq<Seq<char>>>) -> Seq<InfoLineView> {
    match list {
        Some(assets) => seq![InfoLineView::MissingHeader] + Seq::new(
            assets.len(),
            |i: int| InfoLineView::Missing(assets[i]),
        ),
        None => Seq::empty(),
    }
}

/// The lines of the new assets: a header and one line each, where the list is present.
pub open spec fn new_lines(list: Option<Seq<Seq<char>>>) -> Seq<InfoLineView> {
    match list {
        Some(assets) => seq![InfoLineView::NewHeader] + Seq::new(
            assets.len(),
            |i: int| InfoLineView::New(assets[i]),
        ),
        None => Seq::empty(),
    }
}

impl ManifestInfo {
    /// What the check tells its user: the missing assets first, then the new ones.
    pub fn info_lines(&self) -> (lines: Vec<InfoLine>)
        ensures
            line_views(lines@) == missing_lines(self@.missing_assets) + new_lines(
                self@.new_assets,
            ),
    {
        let mut lines: Vec<InfoLine> = Vec::new();
        if let Some(missing_assets) = &self.missing_assets {
            lines.push(InfoLine::MissingHeader);
            let mut i: usize = 0;
            while i < missing_assets.len()
                invariant
                    i <= missing_assets@.len(),
                    lines@.len() == i + 1,
                    lines@[0]@ == InfoLineView::MissingHeader,
                    forall|k: int|
                        1 <= k <= i ==> (#[trigger] lines@[k])@ == InfoLineView::Missing(
                            missing_assets@[k - 1]@,
                        ),
                decreases missing_assets@.len() - i,
            {
                lines.push(InfoLine::Missing(missing_assets[i].clone()));
                i = i + 1;
            }
            proof {
                let assets = texts(missing_assets@);
                assert(self@.missing_assets == Some(assets));
                assert forall|k: int| 0 <= k < lines@.len() implies line_views(lines@)[k]
                    == missing_lines(Some(assets))[k] by {
                    if k >= 1 {
                        assert(lines@[k]@ == InfoLineView::Missing(assets[k - 1]));
                    }
                }
            }
            assert(line_views(lines@) =~= missing_lines(self@.missing_assets));
        } else {
            assert(line_views(lines@) =~= missing_lines(self@.missing_assets));
        }
        let ghost first = line_views(lines@);
        if let Some(new_assets) = &self.new_assets {
            lines.push(InfoLine::NewHeader);
            let ghost offset = first.len();
            let mut i: usize = 0;
            while i < new_assets.len()
                invariant
                    i <= new_assets@.len(),
                    offset == first.len(),
                    lines@.len() == offset + 1 + i,
                    forall|j: int| 0 <= j < offset ==> (#[trigger] lines@[j])@ == first[j],
                    lines@[offset as int]@ == InfoLineView::NewHeader,
                    forall|k: int|
                        offset + 1 <= k <= offset + i ==> (#[trigger] lines@[k])@
                            == InfoLineView::New(new_assets@[k - offset - 1]@),
                decreases new_assets@.len() - i,
            {
                lines.push(InfoLine::New(new_assets[i].clone()));
                i = i + 1;
            }
            proof {
                let assets = texts(new_assets@);
                let all = first + new_lines(Some(assets));
                assert(self@.new_assets == Some(assets));
                assert forall|k: int| 0 <= k < lines@.len() implies line_views(lines@)[k]
                    == all[k] by {
                    if k > offset {
                        assert(lines@[k]@ == InfoLineView::New(assets[k - offset - 1]));
                    } else if k < offset {
                        assert(lines@[k]@ == first[k]);
                    }
                }
            }
            assert(line_views(lines@) =~= first + new_lines(self@.new_assets));
        } else {
            assert(line_views(lines@) =~= first + new_lines(self@.new_assets));
        }
        lines
    }
}

} // verus!
