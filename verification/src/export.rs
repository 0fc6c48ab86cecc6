//! Planning an export: which frames are asked for in which format, the
//! addresses of the requests, and the images that the answers stand for.

use crate::models::{Document, Image, ImageUrlCollection, ImageView, Node, NodeType, Page};
use crate::paths::{extension, extension_of, file_stem, stem_of};
use crate::text::{decimal, decimal_string, joined_by, str_eq, texts, trim, trim_of};
use vstd::prelude::*;

verus! {

/// The format that the name of a frame asks for.
#[derive(Debug, Clone, Copy, PartialEq, Eq, Structural)]
pub enum ImageKind {
    /// The name asks for no format: the frame is exported in each format of the configuration.
    Free,
    Png,
    Jpg,
    Svg,
    Pdf,
}

/// The format that the extension of `name` asks for.
pub open spec fn kind_of_name(name: Seq<char>) -> ImageKind {
    match extension_of(name) {
        Some(ext) => if ext == "png"@ {
            ImageKind::Png
        } else if ext == "jpeg"@ || ext == "jpg"@ {
            ImageKind::Jpg
        } else if ext == "pdf"@ {
            ImageKind::Pdf
        } else if ext == "svg"@ {
            ImageKind::Svg
        } else {
            ImageKind::Free
        },
        None => ImageKind::Free,
    }
}

/// The format that a frame called `name` is exported in; with `force_extensions`
/// the name has no say.
pub open spec fn kind_of(name: Seq<char>, force_extensions: bool) -> ImageKind {
    if force_extensions {
        ImageKind::Free
    } else {
        kind_of_name(name)
    }
}

/// Decides `kind_of`.
pub fn image_kind(name: &str, force_extensions: bool) -> (kind: ImageKind)
    ensures
        kind == kind_of(name@, force_extensions),
{
    if force_extensions {
        return ImageKind::Free;
    }
    match extension(name) {
        Some(ext) => {
            if str_eq(ext.as_str(), "png") {
                ImageKind::Png
            } else if str_eq(ext.as_str(), "jpeg") || str_eq(ext.as_str(), "jpg") {
                ImageKind::Jpg
            } else if str_eq(ext.as_str(), "pdf") {
                ImageKind::Pdf
            } else if str_eq(ext.as_str(), "svg") {
                ImageKind::Svg
            } else {
                ImageKind::Free
            }
        },
        None => ImageKind::Free,
    }
}

/// The ids of the frames of one kind, in the order of the frames.
pub open spec fn ids_of_kind(frames: Seq<Node>, kind: ImageKind, force_extensions: bool) -> Seq<
    Seq<char>,
>
    decreases frames.len(),
{
    if frames.len() == 0 {
        Seq::empty()
    } else if kind_of(frames.last().name@, force_extensions) == kind {
        ids_of_kind(frames.drop_last(), kind, force_extensions).push(frames.last().id@)
    } else {
        ids_of_kind(frames.drop_last(), kind, force_extensions)
    }
}

/// The parts with a comma between each two.
pub open spec fn joined(parts: Seq<Seq<char>>) -> Seq<char> {
    joined_by(parts, ',')
}

/// The ids of the frames of an export, joined by commas, one list per kind.
pub struct ImageGroups {
    pub free: String,
    pub png: String,
    pub jpg: String,
    pub svg: String,
    pub pdf: String,
}

impl ImageGroups {
    /// The list of one kind.
    pub open spec fn of_kind(&self, kind: ImageKind) -> Seq<char> {
        match kind {
            ImageKind::Free => self.free@,
            ImageKind::Png => self.png@,
            ImageKind::Jpg => self.jpg@,
            ImageKind::Svg => self.svg@,
            ImageKind::Pdf => self.pdf@,
        }
    }

    /// Each list holds the ids of the frames of its kind.
    pub open spec fn groups(&self, frames: Seq<Node>, force_extensions: bool) -> bool {
        forall|kind: ImageKind| #[trigger]
            self.of_kind(kind) == joined(ids_of_kind(frames, kind, force_extensions))
    }
}

/// Adds `id` to a comma-separated list that holds `count` ids so far.
fn join_id(list: &mut String, count: &mut usize, id: &str, Ghost(ids): Ghost<Seq<Seq<char>>>)
    requires
        old(list)@ == joined(ids),
        *old(count) == ids.len(),
        *old(count) < usize::MAX,
    ensures
        final(list)@ == joined(ids.push(id@)),
        *final(count) == ids.len() + 1,
{
    proof {
        assert(ids.push(id@).drop_last() =~= ids);
    }
    if *count > 0 {
        proof {
            reveal_strlit(",");
        }
        list.append(",");
    }
    list.append(id);
    *count = *count + 1;
    assert(list@ =~= joined(ids.push(id@)));
}

/// Sorts the frames by the format that each is exported in.
pub fn group_frames(frames: &Vec<Node>, force_extensions: bool) -> (groups: ImageGroups)
    ensures
        groups.groups(frames@, force_extensions),
{
    let mut groups = ImageGroups {
        free: String::new(),
        png: String::new(),
        jpg: String::new(),
        svg: String::new(),
        pdf: String::new(),
    };
    let mut free: usize = 0;
    let mut png: usize = 0;
    let mut jpg: usize = 0;
    let mut svg: usize = 0;
    let mut pdf: usize = 0;
    let mut i: usize = 0;
    assert(frames@.take(0) =~= Seq::<Node>::empty());
    while i < frames.len()
        invariant
            i <= frames@.len(),
            groups.groups(frames@.take(i as int), force_extensions),
            free == ids_of_kind(frames@.take(i as int), ImageKind::Free, force_extensions).len(),
            png == ids_of_kind(frames@.take(i as int), ImageKind::Png, force_extensions).len(),
            jpg == ids_of_kind(frames@.take(i as int), ImageKind::Jpg, force_extensions).len(),
            svg == ids_of_kind(frames@.take(i as int), ImageKind::Svg, force_extensions).len(),
            pdf == ids_of_kind(frames@.take(i as int), ImageKind::Pdf, force_extensions).len(),
            free <= i && png <= i && jpg <= i && svg <= i && pdf <= i,
        decreases frames@.len() - i,
    {
        let ghost before = frames@.take(i as int);
        let ghost after = frames@.take(i + 1);
        proof {
            assert(after.drop_last() =~= before);
            assert(after.last() == frames@[i as int]);
        }
        let frame = &frames[i];
        let kind = image_kind(frame.name.as_str(), force_extensions);
        let ghost ids = ids_of_kind(before, kind, force_extensions);
        assert(groups.of_kind(kind) == joined(ids));
        assert(groups.of_kind(ImageKind::Free) == joined(
            ids_of_kind(before, ImageKind::Free, force_extensions),
        ));
        assert(groups.of_kind(ImageKind::Png) == joined(
            ids_of_kind(before, ImageKind::Png, force_extensions),
        ));
        assert(groups.of_kind(ImageKind::Jpg) == joined(
            ids_of_kind(before, ImageKind::Jpg, force_extensions),
        ));
        assert(groups.of_kind(ImageKind::Svg) == joined(
            ids_of_kind(before, ImageKind::Svg, force_extensions),
        ));
        assert(groups.of_kind(ImageKind::Pdf) == joined(
            ids_of_kind(before, ImageKind::Pdf, force_extensions),
        ));
        match kind {
            ImageKind::Free => join_id(&mut groups.free, &mut free, frame.id.as_str(), Ghost(ids)),
            ImageKind::Png => join_id(&mut groups.png, &mut png, frame.id.as_str(), Ghost(ids)),
            ImageKind::Jpg => join_id(&mut groups.jpg, &mut jpg, frame.id.as_str(), Ghost(ids)),
            ImageKind::Svg => join_id(&mut groups.svg, &mut svg, frame.id.as_str(), Ghost(ids)),
            ImageKind::Pdf => join_id(&mut groups.pdf, &mut pdf, frame.id.as_str(), Ghost(ids)),
        }
        i = i + 1;
    }
    assert(frames@.take(i as int) =~= frames@);
    groups
}

/// One request to the image service: some frames, in one format, at one scale.
#[derive(Debug)]
pub struct ImageRequest {
    /// The ids of the frames, joined by commas.
    pub image_ids: String,
    pub format: String,
    pub scale: usize,
}

/// What an `ImageRequest` asks for, as plain values.
pub struct ImageRequestView {
    pub image_ids: Seq<char>,
    pub format: Seq<char>,
    pub scale: nat,
}

impl View for ImageRequest {
    type V = ImageRequestView;

    open spec fn view(&self) -> ImageRequestView {
        ImageRequestView {
            image_ids: self.image_ids@,
            format: self.format@,
            scale: self.scale as nat,
        }
    }
}

/// What a list of requests asks for.
pub open spec fn request_views(requests: Seq<ImageRequest>) -> Seq<ImageRequestView> {
    Seq::new(requests.len(), |i: int| requests[i]@)
}

/// The request for the frames `image_ids`, if there are any.
pub open spec fn request_if_any(image_ids: Seq<char>, format: Seq<char>, scale: nat) -> Seq<
    ImageRequestView,
> {
    if image_ids.len() > 0 {
        seq![ImageRequestView { image_ids, format, scale }]
    } else {
        Seq::empty()
    }
}

/// The requests for the frames whose names ask for no format: one per format.
pub open spec fn free_requests(image_ids: Seq<char>, formats: Seq<Seq<char>>, scale: nat) -> Seq<
    ImageRequestView,
>
    decreases formats.len(),
{
    if formats.len() == 0 {
        Seq::empty()
    } else {
        free_requests(image_ids, formats.drop_last(), scale) + request_if_any(
            image_ids,
            formats.last(),
            scale,
        )
    }
}

/// The requests of one scale: the frames that ask for png, jpg, svg and pdf, in
/// this order, then the other frames in each format of the configuration.
pub open spec fn requests_at(groups: ImageGroups, formats: Seq<Seq<char>>, scale: nat) -> Seq<
    ImageRequestView,
> {
    request_if_any(groups.png@, "png"@, scale) + request_if_any(groups.jpg@, "jpg"@, scale)
        + request_if_any(groups.svg@, "svg"@, scale) + request_if_any(groups.pdf@, "pdf"@, scale)
        + free_requests(groups.free@, formats, scale)
}

/// The requests of an export: those of each scale, in the order of the scales.
pub open spec fn planned(groups: ImageGroups, scales: Seq<usize>, formats: Seq<Seq<char>>) -> Seq<
    ImageRequestView,
>
    decreases scales.len(),
{
    if scales.len() == 0 {
        Seq::empty()
    } else {
        planned(groups, scales.drop_last(), formats) + requests_at(
            groups,
            formats,
            scales.last() as nat,
        )
    }
}

/// Appending five lists to a first one, one after the other, appends their concatenation.
proof fn lemma_regroup(
    done: Seq<ImageRequestView>,
    a: Seq<ImageRequestView>,
    b: Seq<ImageRequestView>,
    c: Seq<ImageRequestView>,
    d: Seq<ImageRequestView>,
    e: Seq<ImageRequestView>,
)
    ensures
        ((((done + a) + b) + c) + d) + e == done + ((((a + b) + c) + d) + e),
{
    assert(((((done + a) + b) + c) + d) + e =~= done + ((((a + b) + c) + d) + e));
}

/// Adds the request for the frames `image_ids`, if there are any.
fn push_request(requests: &mut Vec<ImageRequest>, image_ids: &String, format: &str, scale: usize)
    ensures
        request_views(final(requests)@) == request_views(old(requests)@) + request_if_any(
            image_ids@,
            format@,
            scale as nat,
        ),
{
    let ghost before = request_views(requests@);
    if !image_ids.as_str().is_empty() {
        requests.push(
            ImageRequest { image_ids: image_ids.clone(), format: String::from_str(format), scale },
        );
    }
    assert(request_views(requests@) =~= before + request_if_any(
        image_ids@,
        format@,
        scale as nat,
    ));
}

/// The requests to make for the grouped frames at each of `scales`.
pub fn plan_requests(groups: &ImageGroups, scales: &Vec<usize>, formats: &Vec<String>) -> (requests:
    Vec<ImageRequest>)
    ensures
        request_views(requests@) == planned(*groups, scales@, texts(formats@)),
{
    let mut requests: Vec<ImageRequest> = Vec::new();
    let ghost names = texts(formats@);
    let mut s: usize = 0;
    assert(scales@.take(0) =~= Seq::<usize>::empty());
    assert(request_views(requests@) =~= Seq::<ImageRequestView>::empty());
    while s < scales.len()
        invariant
            s <= scales@.len(),
            names == texts(formats@),
            request_views(requests@) == planned(*groups, scales@.take(s as int), names),
        decreases scales@.len() - s,
    {
        let scale = scales[s];
        let ghost done = request_views(requests@);
        push_request(&mut requests, &groups.png, "png", scale);
        push_request(&mut requests, &groups.jpg, "jpg", scale);
        push_request(&mut requests, &groups.svg, "svg", scale);
        push_request(&mut requests, &groups.pdf, "pdf", scale);
        let ghost fixed = request_views(requests@);
        let mut f: usize = 0;
        assert(names.take(0) =~= Seq::<Seq<char>>::empty());
        assert(fixed + free_requests(groups.free@, names.take(0), scale as nat) =~= fixed);
        while f < formats.len()
            invariant
                f <= formats@.len(),
                names == texts(formats@),
                request_views(requests@) == fixed + free_requests(
                    groups.free@,
                    names.take(f as int),
                    scale as nat,
                ),
            decreases formats@.len() - f,
        {
            let ghost sofar = free_requests(groups.free@, names.take(f as int), scale as nat);
            push_request(&mut requests, &groups.free, formats[f].as_str(), scale);
            proof {
                assert(names.take(f + 1).drop_last() =~= names.take(f as int));
                assert(names.take(f + 1).last() == names[f as int]);
                let added = request_if_any(groups.free@, names[f as int], scale as nat);
                assert((fixed + sofar) + added =~= fixed + (sofar + added));
            }
            f = f + 1;
        }
        proof {
            assert(names.take(f as int) =~= names);
            assert(scales@.take(s + 1).drop_last() =~= scales@.take(s as int));
            assert(scales@.take(s + 1).last() == scale);
            lemma_regroup(
                done,
                request_if_any(groups.png@, "png"@, scale as nat),
                request_if_any(groups.jpg@, "jpg"@, scale as nat),
                request_if_any(groups.svg@, "svg"@, scale as nat),
                request_if_any(groups.pdf@, "pdf"@, scale as nat),
                free_requests(groups.free@, names, scale as nat),
            );
        }
        s = s + 1;
    }
    assert(scales@.take(s as int) =~= scales@);
    requests
}

/// The address that the documents of a file are asked at.
pub open spec fn frames_url_of(file_id: Seq<char>, document_id: Seq<char>) -> Seq<char> {
    "https://api.figma.com/v1/files/"@ + file_id + "/nodes?ids="@ + document_id
}

/// The address that the frames of the document `document_id` of `file_id` are asked at.
pub fn frames_url(file_id: &str, document_id: &str) -> (url: String)
    ensures
        url@ == frames_url_of(file_id@, document_id@),
{
    let mut url = String::from_str("https://api.figma.com/v1/files/");
    url.append(file_id);
    url.append("/nodes?ids=");
    url.append(document_id);
    url
}

/// The address that the images of some frames are asked at.
pub open spec fn images_url_of(
    file_id: Seq<char>,
    image_ids: Seq<char>,
    scale: nat,
    format: Seq<char>,
) -> Seq<char> {
    "https://api.figma.com/v1/images/"@ + file_id + "?ids="@ + image_ids + "&scale="@ + decimal(
        scale,
    ) + "&format="@ + format
}

/// The address that the images of the frames `image_ids` of `file_id` are asked at.
pub fn images_url(file_id: &str, image_ids: &str, scale: usize, format: &str) -> (url: String)
    ensures
        url@ == images_url_of(file_id@, image_ids@, scale as nat, format@),
{
    let mut url = String::from_str("https://api.figma.com/v1/images/");
    url.append(file_id);
    url.append("?ids=");
    url.append(image_ids);
    url.append("&scale=");
    url.append(decimal_string(scale).as_str());
    url.append("&format=");
    url.append(format);
    url
}

/// The address that `images` gives for the image `id`: that of the first entry for it.
pub open spec fn url_of(images: Seq<(String, String)>, id: Seq<char>) -> Option<Seq<char>>
    decreases images.len(),
{
    if images.len() == 0 {
        None
    } else if images[0].0@ == id {
        Some(images[0].1@)
    } else {
        url_of(images.drop_first(), id)
    }
}

/// Looks up the address of the image `id`.
pub fn find_url<'a>(urls: &'a ImageUrlCollection, id: &str) -> (url: Option<&'a String>)
    ensures
        url is Some <==> url_of(urls.images@, id@) is Some,
        url matches Some(found) ==> url_of(urls.images@, id@) == Some(found@),
{
    let mut i: usize = 0;
    assert(urls.images@.skip(0) =~= urls.images@);
    while i < urls.images.len()
        invariant
            i <= urls.images@.len(),
            url_of(urls.images@, id@) == url_of(urls.images@.skip(i as int), id@),
        decreases urls.images@.len() - i,
    {
        if str_eq(urls.images[i].0.as_str(), id) {
            return Some(&urls.images[i].1);
        }
        proof {
            assert(urls.images@.skip(i as int).drop_first() =~= urls.images@.skip(i + 1));
        }
        i = i + 1;
    }
    None
}

/// What a list of images holds.
pub open spec fn image_views(images: Seq<Image>) -> Seq<ImageView> {
    Seq::new(images.len(), |i: int| images[i]@)
}

/// The images that `images` has an address for, in the order of the frames: each
/// called by the stem of the name of its frame.
pub open spec fn images_of(
    frames: Seq<Node>,
    images: Seq<(String, String)>,
    scale: nat,
    format: Seq<char>,
) -> Seq<ImageView>
    decreases frames.len(),
{
    if frames.len() == 0 {
        Seq::empty()
    } else {
        let frame = frames.last();
        let rest = images_of(frames.drop_last(), images, scale, format);
        match url_of(images, frame.id@) {
            Some(url) => rest.push(
                ImageView { id: frame.id@, name: stem_of(frame.name@)->Some_0, scale, format, url },
            ),
            None => rest,
        }
    }
}

/// Every frame that `images` has an address for has a name with a stem.
pub open spec fn nameable(frames: Seq<Node>, images: Seq<(String, String)>) -> bool {
    forall|i: int|
        0 <= i < frames.len() && url_of(images, (#[trigger] frames[i]).id@) is Some ==> stem_of(
            frames[i].name@,
        ) is Some
}

/// Decides `nameable`.
pub fn all_nameable(frames: &Vec<Node>, urls: &ImageUrlCollection) -> (res: bool)
    ensures
        res == nameable(frames@, urls.images@),
{
    let mut i: usize = 0;
    while i < frames.len()
        invariant
            i <= frames@.len(),
            forall|j: int|
                0 <= j < i && url_of(urls.images@, (#[trigger] frames@[j]).id@) is Some
                    ==> stem_of(frames@[j].name@) is Some,
        decreases frames@.len() - i,
    {
        let frame = &frames[i];
        if find_url(urls, frame.id.as_str()).is_some() && file_stem(
            frame.name.as_str(),
        ).is_none() {
            assert(url_of(urls.images@, frames@[i as int].id@) is Some);
            return false;
        }
        i = i + 1;
    }
    true
}

/// The images to download for the frames that `urls` answers for.
pub fn to_images(frames: &Vec<Node>, urls: &ImageUrlCollection, scale: usize, format: &str) -> (images:
    Vec<Image>)
    requires
        nameable(frames@, urls.images@),
    ensures
        image_views(images@) == images_of(frames@, urls.images@, scale as nat, format@),
{
    let mut images: Vec<Image> = Vec::new();
    let mut i: usize = 0;
    assert(frames@.take(0) =~= Seq::<Node>::empty());
    assert(image_views(images@) =~= Seq::<ImageView>::empty());
    while i < frames.len()
        invariant
            i <= frames@.len(),
            nameable(frames@, urls.images@),
            image_views(images@) == images_of(
                frames@.take(i as int),
                urls.images@,
                scale as nat,
                format@,
            ),
        decreases frames@.len() - i,
    {
        let ghost before = image_views(images@);
        let frame = &frames[i];
        proof {
            assert(frames@.take(i + 1).drop_last() =~= frames@.take(i as int));
            assert(frames@.take(i + 1).last() == frames@[i as int]);
        }
        match find_url(urls, frame.id.as_str()) {
            Some(url) => {
                let image = Image::new(
                    frame.id.clone(),
                    frame.name.as_str(),
                    scale,
                    String::from_str(format),
                    url.clone(),
                );
                images.push(image);
                assert(image_views(images@) =~= before.push(image@));
            },
            None => {},
        }
        i = i + 1;
    }
    assert(frames@.take(i as int) =~= frames@);
    images
}

/// The nodes of `nodes` that are frames, in their order.
pub open spec fn frames_among(nodes: Seq<Node>) -> Seq<Node>
    decreases nodes.len(),
{
    if nodes.len() == 0 {
        Seq::empty()
    } else if nodes.last().node_type == NodeType::FRAME {
        frames_among(nodes.drop_last()).push(nodes.last())
    } else {
        frames_among(nodes.drop_last())
    }
}

/// The frames of a document: its children that are frames. A document without
/// a list of children has no list of frames.
pub open spec fn frames_of_node(document: Node) -> Option<Seq<Node>> {
    match document.children {
        Some(nodes) => Some(frames_among(nodes@)),
        None => None,
    }
}

/// The items of `items` in the opposite order.
fn reversed(items: Vec<Node>) -> (res: Vec<Node>)
    ensures
        res@.len() == items@.len(),
        forall|j: int| 0 <= j < res@.len() ==> res@[j] == items@[items@.len() - 1 - j],
{
    let ghost all = items@;
    let mut items = items;
    let mut res: Vec<Node> = Vec::new();
    while items.len() > 0
        invariant
            items@.len() + res@.len() == all.len(),
            items@ == all.take(items@.len() as int),
            forall|j: int| 0 <= j < res@.len() ==> res@[j] == all[all.len() - 1 - j],
        decreases items@.len(),
    {
        let ghost left = items@.len();
        let item = items.pop().unwrap();
        res.push(item);
        assert(items@ =~= all.take(left - 1));
    }
    res
}

/// The frames of `document`.
pub fn frames_of(document: Node) -> (frames: Option<Vec<Node>>)
    ensures
        frames is Some <==> frames_of_node(document) is Some,
        frames matches Some(found) ==> frames_of_node(document) == Some(found@),
{
    let Node { id: _, name: _, node_type: _, children } = document;
    match children {
        None => None,
        Some(nodes) => {
            let ghost all = nodes@;
            let mut waiting = reversed(nodes);
            let mut frames: Vec<Node> = Vec::new();
            assert(all.take(0) =~= Seq::<Node>::empty());
            while waiting.len() > 0
                invariant
                    waiting@.len() <= all.len(),
                    forall|j: int|
                        0 <= j < waiting@.len() ==> waiting@[j] == all[all.len() - 1 - j],
                    frames@ == frames_among(all.take(all.len() - waiting@.len())),
                decreases waiting@.len(),
            {
                let ghost at = all.len() - waiting@.len();
                let node = waiting.pop().unwrap();
                proof {
                    assert(node == all[at]);
                    assert(all.take(at + 1).drop_last() =~= all.take(at));
                    assert(all.take(at + 1).last() == all[at]);
                }
                if node.node_type == NodeType::FRAME {
                    frames.push(node);
                }
            }
            assert(all.take(all.len() as int) =~= all);
            Some(frames)
        },
    }
}

/// The position of the first entry of `nodes` for the document `id`, or the
/// length of `nodes` where there is none.
pub open spec fn document_index(nodes: Seq<(String, Document)>, id: Seq<char>) -> int
    decreases nodes.len(),
{
    if nodes.len() == 0 {
        0
    } else if nodes[0].0@ == id {
        0
    } else {
        1 + document_index(nodes.drop_first(), id)
    }
}

impl Page {
    /// Takes the document `document_id` out of the page, if the page has it.
    pub fn remove_document(&mut self, document_id: &str) -> (document: Option<Document>)
        ensures
            final(self).name == old(self).name,
            0 <= document_index(old(self).nodes@, document_id@) <= old(self).nodes@.len(),
            document is Some <==> document_index(old(self).nodes@, document_id@) < old(
                self,
            ).nodes@.len(),
            document matches Some(found) ==> {
                &&& found == old(self).nodes@[document_index(old(self).nodes@, document_id@)].1
                &&& final(self).nodes@ == old(self).nodes@.remove(
                    document_index(old(self).nodes@, document_id@),
                )
            },
            document is None ==> final(self).nodes@ == old(self).nodes@,
    {
        let ghost all = self.nodes@;
        let mut i: usize = 0;
        assert(all.skip(0) =~= all);
        while i < self.nodes.len()
            invariant
                i <= self.nodes@.len(),
                self.nodes@ == all,
                all == old(self).nodes@,
                self.name == old(self).name,
                document_index(all, document_id@) == i + document_index(
                    all.skip(i as int),
                    document_id@,
                ),
            decreases self.nodes@.len() - i,
        {
            if str_eq(self.nodes[i].0.as_str(), document_id) {
                assert(all.skip(i as int)[0] == all[i as int]);
                let entry = self.nodes.remove(i);
                return Some(entry.1);
            }
            proof {
                assert(all.skip(i as int).drop_first() =~= all.skip(i + 1));
            }
            i = i + 1;
        }
        None
    }
}

/// The frames of the document `document_id` of a page, where the page has that
/// document and the document has children.
pub fn frames_of_page(page: Page, document_id: &str) -> (frames: Option<Vec<Node>>)
    ensures
        0 <= document_index(page.nodes@, document_id@) <= page.nodes@.len(),
        frames is Some <==> {
            &&& document_index(page.nodes@, document_id@) < page.nodes@.len()
            &&& frames_of_node(
                page.nodes@[document_index(page.nodes@, document_id@)].1.document,
            ) is Some
        },
        frames matches Some(found) ==> frames_of_node(
            page.nodes@[document_index(page.nodes@, document_id@)].1.document,
        ) == Some(found@),
{
    let mut page = page;
    match page.remove_document(document_id) {
        Some(found) => frames_of(found.document),
        None => None,
    }
}

/// The frames that a page adds for the document `id`: those of `frames_of_page`,
/// and none where that has no list.
pub open spec fn page_frames(nodes: Seq<(String, Document)>, id: Seq<char>) -> Seq<Node> {
    let at = document_index(nodes, id);
    if at < nodes.len() {
        match frames_of_node(nodes[at].1.document) {
            Some(frames) => frames,
            None => Seq::empty(),
        }
    } else {
        Seq::empty()
    }
}

/// Adds the frames of the document `document_id` of `page` behind those found so far.
pub fn add_frames_of_page(frames: &mut Vec<Node>, page: Page, document_id: &str)
    ensures
        final(frames)@ == old(frames)@ + page_frames(page.nodes@, document_id@),
{
    let ghost before = frames@;
    match frames_of_page(page, document_id) {
        Some(found) => {
            let mut found = found;
            frames.append(&mut found);
        },
        None => {
            assert(before + Seq::<Node>::empty() =~= before);
        },
    }
}

/// The frames of an export, if any were found: an empty list is no list.
pub fn frames_found(frames: Vec<Node>) -> (res: Option<Vec<Node>>)
    ensures
        res is None <==> frames@.len() == 0,
        res matches Some(found) ==> found == frames,
{
    if frames.len() == 0 {
        None
    } else {
        Some(frames)
    }
}

/// The name of the folder of a scale.
pub open spec fn scale_directory_of(scale: nat) -> Seq<char> {
    decimal(scale) + seq!['.', '0', 'x']
}

/// The name of the folder of `scale`.
pub fn scale_directory(scale: usize) -> (name: String)
    ensures
        name@ == scale_directory_of(scale as nat),
{
    let mut name = decimal_string(scale);
    proof {
        reveal_strlit(".0x");
    }
    name.append(".0x");
    assert(name@ =~= scale_directory_of(scale as nat));
    name
}

/// The folder that an image of `scale` is stored in, below the folder of the
/// download: none for scale 1, which lies in that folder itself.
pub fn image_directory(scale: usize) -> (name: Option<String>)
    ensures
        name is None <==> scale == 1,
        name matches Some(folder) ==> folder@ == scale_directory_of(scale as nat),
{
    if scale == 1 {
        None
    } else {
        Some(scale_directory(scale))
    }
}

/// The name of the file of an image: its name without surrounding white
/// space, a dot and its format.
pub open spec fn image_file_name_of(image: ImageView) -> Seq<char> {
    trim_of(image.name) + seq!['.'] + image.format
}

/// The name of the file that `image` is stored in.
pub fn image_file_name(image: &Image) -> (name: String)
    ensures
        name@ == image_file_name_of(image@),
{
    let mut name = trim(image.name.as_str());
    proof {
        reveal_strlit(".");
    }
    name.append(".");
    name.append(image.format.as_str());
    assert(name@ =~= image_file_name_of(image@));
    name
}

/// What is done to an image once it is on disk.
#[derive(Debug, Clone, Copy, PartialEq, Eq, Structural)]
pub enum Optimization {
    /// The file is left as it is.
    Skip,
    /// The file is encoded again as jpg, at this quality.
    Jpg(u8),
    /// The png file is compressed, at this level.
    Png(u8),
}

/// What is done to a file with `extension`: a jpg or a png file is optimized
/// where the configuration gives a level for its format.
pub open spec fn optimization_of(
    extension: Seq<char>,
    opt_png_level: Option<u8>,
    opt_jpg_level: Option<u8>,
) -> Optimization {
    if extension == "jpg"@ {
        match opt_jpg_level {
            Some(level) => Optimization::Jpg(level),
            None => Optimization::Skip,
        }
    } else if extension == "png"@ {
        match opt_png_level {
            Some(level) => Optimization::Png(level),
            None => Optimization::Skip,
        }
    } else {
        Optimization::Skip
    }
}

/// Decides `optimization_of`.
pub fn optimization_for(extension: &str, opt_png_level: Option<u8>, opt_jpg_level: Option<u8>) -> (res:
    Optimization)
    ensures
        res == optimization_of(extension@, opt_png_level, opt_jpg_level),
{
    if str_eq(extension, "jpg") {
        match opt_jpg_level {
            Some(level) => Optimization::Jpg(level),
            None => Optimization::Skip,
        }
    } else if str_eq(extension, "png") {
        match opt_png_level {
            Some(level) => Optimization::Png(level),
            None => Optimization::Skip,
        }
    } else {
        Optimization::Skip
    }
}

/// The format that an asset on disk is taken to have: its extension, and png where it has none.
pub fn asset_format(asset: &str) -> (format: String)
    ensures
        format@ == match extension_of(asset@) {
            Some(ext) => ext,
            None => "png"@,
        },
{
    match extension(asset) {
        Some(ext) => ext,
        None => String::from_str("png"),
    }
}

} // verus!
