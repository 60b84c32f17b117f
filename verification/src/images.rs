//! Images: finding those of a chat and taking their bytes out.
use crate::message::{
    DocumentSource, DocumentSourceView, Message, MessageView, ToolResultContent, UserContent,
    UserContentView,
};
use crate::slot::{fnv1a, fnv1a_64};
use crate::text::{result_view, result_views, views};
use crate::turns::{normalized_tool_parts, part_images, result_images, tool_results};
use vstd::prelude::*;
use vstd::string::*;

verus! {

/// One image of a request, with the hash of its bytes.
pub struct PreparedImage {
    /// The encoded image.
    pub bytes: Vec<u8>,
    /// The FNV-1a hash of the bytes.
    pub hash: u64,
}

/// The view of a [`PreparedImage`].
pub struct PreparedImageView {
    pub bytes: Seq<u8>,
    pub hash: u64,
}

impl View for PreparedImage {
    type V = PreparedImageView;

    open spec fn view(&self) -> PreparedImageView {
        PreparedImageView { bytes: self.bytes@, hash: self.hash }
    }
}

/// What the standard engine of `base64` decodes a text to, or the message of its error.
pub uninterp spec fn base64_decoded(text: Seq<char>) -> Result<Seq<u8>, Seq<char>>;

/// `decode` of `base64`'s `STANDARD` engine: the bytes and the error's message
/// depend on the text alone.
#[verifier::external_body]
fn decode_base64(text: &str) -> (bytes: Result<Vec<u8>, String>)
    ensures
        result_view(bytes) == base64_decoded(text@),
{
    base64::Engine::decode(&base64::engine::general_purpose::STANDARD, text).map_err(|e| e.to_string())
}

/// How `str`'s `Debug` writes a text: between quotes, with escapes.
pub uninterp spec fn quoted(text: Seq<char>) -> Seq<char>;

/// The `Debug` format of a `str` depends on its characters alone.
#[verifier::external_body]
fn quote(text: &str) -> (literal: String)
    ensures
        literal@ == quoted(text@),
{
    format!("{text:?}")
}

/// The bytes that were decoded, or the report that they were not.
pub open spec fn decoded_bytes(decoded: Result<Seq<u8>, Seq<char>>) -> Result<Seq<u8>, Seq<char>> {
    match decoded {
        Ok(bytes) => Ok(bytes),
        Err(message) => Err("Base64 decode failed: "@ + message),
    }
}

/// Computes [`decoded_bytes`].
pub fn take_decoded(decoded: Result<Vec<u8>, String>) -> (bytes: Result<Vec<u8>, String>)
    ensures
        result_view(bytes) == decoded_bytes(result_view(decoded)),
{
    match decoded {
        Ok(bytes) => Ok(bytes),
        Err(message) => {
            let mut error = "Base64 decode failed: ".to_owned();
            error.append(message.as_str());
            Err(error)
        },
    }
}

/// The bytes of an image, or why it has none here.
pub open spec fn image_bytes(source: DocumentSourceView) -> Result<Seq<u8>, Seq<char>> {
    match source {
        DocumentSourceView::Raw(bytes) => Ok(bytes),
        DocumentSourceView::Base64(text) => decoded_bytes(base64_decoded(text)),
        DocumentSourceView::Url(_) => Err(
            "URL image sources are not supported; pre-fetch the image data"@,
        ),
        DocumentSourceView::FileId(text) => Err(
            "Unsupported image source kind: FileId("@ + quoted(text) + ")"@,
        ),
        DocumentSourceView::Text(text) => Err(
            "Unsupported image source kind: String("@ + quoted(text) + ")"@,
        ),
        DocumentSourceView::Unknown => Err("Unsupported image source kind: Unknown"@),
    }
}

/// Takes the bytes out of an image.
pub fn extract_image_bytes(source: &DocumentSource) -> (bytes: Result<Vec<u8>, String>)
    ensures
        result_view(bytes) == image_bytes(source@),
{
    match source {
        DocumentSource::Raw(bytes) => {
            let copy = bytes.clone();
            assert(copy@ =~= bytes@);
            Ok(copy)
        },
        DocumentSource::Base64(text) => take_decoded(decode_base64(text.as_str())),
        DocumentSource::Url(_) => Err(
            "URL image sources are not supported; pre-fetch the image data".to_owned(),
        ),
        DocumentSource::FileId(text) => {
            let mut error = "Unsupported image source kind: FileId(".to_owned();
            error.append(quote(text.as_str()).as_str());
            error.append(")");
            Err(error)
        },
        DocumentSource::Text(text) => {
            let mut error = "Unsupported image source kind: String(".to_owned();
            error.append(quote(text.as_str()).as_str());
            error.append(")");
            Err(error)
        },
        DocumentSource::Unknown => Err("Unsupported image source kind: Unknown".to_owned()),
    }
}

/// The images of a user message that stand in the message itself, in order.
pub open spec fn direct_images(content: Seq<UserContentView>) -> Seq<DocumentSourceView>
    decreases content.len(),
{
    if content.len() == 0 {
        Seq::empty()
    } else {
        let before = direct_images(content.drop_last());
        match content.last() {
            UserContentView::Image(source) => before.push(source),
            _ => before,
        }
    }
}

/// The images of a message itself, each marked as such by `false`.
pub open spec fn from_message(sources: Seq<DocumentSourceView>) -> Seq<(bool, DocumentSourceView)> {
    sources.map_values(|source: DocumentSourceView| (false, source))
}

/// The images of tool results, each marked as such by `true`.
pub open spec fn from_tool(sources: Seq<DocumentSourceView>) -> Seq<(bool, DocumentSourceView)> {
    sources.map_values(|source: DocumentSourceView| (true, source))
}

/// The images of a user message in the order in which their markers stand: its
/// own, and then those of its tool results.
pub open spec fn content_images(content: Seq<UserContentView>) -> Seq<(bool, DocumentSourceView)> {
    from_message(direct_images(content)) + from_tool(result_images(tool_results(content)))
}

/// The images of a chat, in order. Only user messages hold any.
pub open spec fn history_images(history: Seq<MessageView>) -> Seq<(bool, DocumentSourceView)>
    decreases history.len(),
{
    if history.len() == 0 {
        Seq::empty()
    } else {
        history_images(history.drop_last()) + match history.last() {
            MessageView::User(content) => content_images(content),
            _ => Seq::empty(),
        }
    }
}

/// An image with the hash of its bytes, or the report that they could not be
/// had, which says whether a tool returned the image.
pub open spec fn prepared_image(
    by_tool: bool,
    bytes: Result<Seq<u8>, Seq<char>>,
) -> Result<PreparedImageView, Seq<char>> {
    match bytes {
        Ok(bytes) => Ok(PreparedImageView { bytes, hash: fnv1a(bytes) }),
        Err(error) => Err(
            (if by_tool {
                "Tool-result image extraction failed: "@
            } else {
                "Image extraction failed: "@
            }) + error,
        ),
    }
}

/// Computes [`prepared_image`].
pub fn prepare_image(by_tool: bool, bytes: Result<Vec<u8>, String>) -> (prepared: Result<
    PreparedImage,
    String,
>)
    ensures
        result_view(prepared) == prepared_image(by_tool, result_view(bytes)),
{
    match bytes {
        Ok(bytes) => {
            let hash: u64 = fnv1a_64(&bytes);
            Ok(PreparedImage { bytes, hash })
        },
        Err(message) => {
            let mut error = if by_tool {
                "Tool-result image extraction failed: ".to_owned()
            } else {
                "Image extraction failed: ".to_owned()
            };
            error.append(message.as_str());
            Err(error)
        },
    }
}

/// The prepared images, or the message of the first one whose bytes cannot be had.
pub open spec fn prepared_images(images: Seq<(bool, DocumentSourceView)>) -> Result<
    Seq<PreparedImageView>,
    Seq<char>,
>
    decreases images.len(),
{
    if images.len() == 0 {
        Ok(Seq::empty())
    } else {
        match prepared_images(images.drop_last()) {
            Err(error) => Err(error),
            Ok(before) => match prepared_image(images.last().0, image_bytes(images.last().1)) {
                Ok(image) => Ok(before.push(image)),
                Err(error) => Err(error),
            },
        }
    }
}

/// Where a prefix of the images fails, all of them fail in the same way.
proof fn lemma_prepared_images_err(images: Seq<(bool, DocumentSourceView)>, n: int)
    requires
        0 <= n <= images.len(),
        prepared_images(images.take(n)) is Err,
    ensures
        prepared_images(images) == prepared_images(images.take(n)),
    decreases images.len(),
{
    if n == images.len() {
        assert(images.take(n) =~= images);
    } else {
        assert(images.drop_last().take(n) =~= images.take(n));
        lemma_prepared_images_err(images.drop_last(), n);
    }
}

/// Collects the images of a user message: its own in a first pass, and those of
/// its tool results in a second one.
fn collect_content_images(content: &Vec<UserContent>) -> (images: Vec<(bool, DocumentSource)>)
    ensures
        views(images@) == content_images(views(content@)),
{
    let ghost all = views(content@);
    let mut images: Vec<(bool, DocumentSource)> = Vec::new();
    assert(views(images@) =~= from_message(direct_images(all.take(0))));
    let mut i: usize = 0;
    while i < content.len()
        invariant
            i <= content@.len(),
            all == views(content@),
            views(images@) == from_message(direct_images(all.take(i as int))),
        decreases content@.len() - i,
    {
        broadcast use crate::text::lemma_views_push;

        let ghost seen = direct_images(all.take(i as int));
        assert(all.take(i + 1).drop_last() =~= all.take(i as int));
        assert(all.take(i + 1).last() == content@[i as int]@);
        if let UserContent::Image(source) = &content[i] {
            images.push((false, source.clone()));
            assert(from_message(seen.push(source@)) =~= from_message(seen).push((false, source@)));
        }
        i = i + 1;
    }
    assert(all.take(i as int) =~= all);
    let ghost own = from_message(direct_images(all));
    assert(own + from_tool(result_images(tool_results(all.take(0)))) =~= own);
    let mut k: usize = 0;
    while k < content.len()
        invariant
            k <= content@.len(),
            all == views(content@),
            views(images@) == own + from_tool(result_images(tool_results(all.take(k as int)))),
        decreases content@.len() - k,
    {
        let ghost results = tool_results(all.take(k as int));
        assert(all.take(k + 1).drop_last() =~= all.take(k as int));
        assert(all.take(k + 1).last() == content@[k as int]@);
        if let UserContent::ToolResult(result) = &content[k] {
            let ghost before = views(images@);
            let parts = normalized_tool_parts(&result.content);
            let ghost read = views(parts@);
            for part in it: parts
                invariant
                    it.seq() == parts@,
                    read == views(parts@),
                    views(images@) == before + from_tool(part_images(read.take(it.index()))),
            {
                broadcast use crate::text::lemma_views_push;

                let ghost seen = part_images(read.take(it.index()));
                assert(read.take(it.index() + 1).drop_last() =~= read.take(it.index()));
                assert(read.take(it.index() + 1).last() == part@);
                if let ToolResultContent::Image(source) = part {
                    images.push((true, source));
                    assert(before + from_tool(seen.push(source@)) =~= (before + from_tool(
                        seen,
                    )).push((true, source@)));
                }
            }
            assert(read.take(read.len() as int) =~= read);
            assert(results.push(result@).drop_last() =~= results);
            assert(own + from_tool(result_images(results) + part_images(read)) =~= before
                + from_tool(part_images(read)));
        }
        k = k + 1;
    }
    assert(all.take(k as int) =~= all);
    images
}

/// Collects the images of a chat.
pub fn collect_history_images(history: &Vec<Message>) -> (images: Vec<(bool, DocumentSource)>)
    ensures
        views(images@) == history_images(views(history@)),
{
    let ghost all = views(history@);
    let mut images: Vec<(bool, DocumentSource)> = Vec::new();
    assert(views(images@) =~= Seq::empty());
    let mut i: usize = 0;
    while i < history.len()
        invariant
            i <= history@.len(),
            all == views(history@),
            views(images@) == history_images(all.take(i as int)),
        decreases history@.len() - i,
    {
        assert(all.take(i + 1).drop_last() =~= all.take(i as int));
        assert(all.take(i + 1).last() == history@[i as int]@);
        if let Message::User(content) = &history[i] {
            let mut found = collect_content_images(content);
            proof {
                crate::text::lemma_views_add(images@, found@);
            }
            images.append(&mut found);
        } else {
            assert(views(images@) + Seq::<(bool, DocumentSourceView)>::empty() =~= views(images@));
        }
        i = i + 1;
    }
    assert(all.take(i as int) =~= all);
    images
}

/// Computes [`prepared_images`].
pub fn prepare_images(images: Vec<(bool, DocumentSource)>) -> (prepared: Result<
    Vec<PreparedImage>,
    String,
>)
    ensures
        result_views(prepared) == prepared_images(views(images@)),
{
    let ghost all = views(images@);
    let mut prepared: Vec<PreparedImage> = Vec::new();
    assert(views(prepared@) =~= Seq::empty());
    for image in it: images
        invariant
            it.seq() == images@,
            all == views(images@),
            prepared_images(all.take(it.index())) == Ok::<Seq<PreparedImageView>, Seq<char>>(
                views(prepared@),
            ),
    {
        broadcast use crate::text::lemma_views_push;

        assert(all.take(it.index() + 1).drop_last() =~= all.take(it.index()));
        assert(all.take(it.index() + 1).last() == image@);
        match prepare_image(image.0, extract_image_bytes(&image.1)) {
            Ok(image) => {
                prepared.push(image);
            },
            Err(error) => {
                proof {
                    lemma_prepared_images_err(all, it.index() + 1);
                }
                return Err(error);
            },
        }
    }
    assert(all.take(all.len() as int) =~= all);
    Ok(prepared)
}

/// The images that stand in two lists of parts, one after the other, are those of
/// the first and then those of the second; no other part gives one.
pub proof fn law_own_images_keep_their_order(
    left: Seq<UserContentView>,
    right: Seq<UserContentView>,
    part: UserContentView,
)
    ensures
        direct_images(left + right) == direct_images(left) + direct_images(right),
        part matches UserContentView::Image(source) ==> direct_images(seq![part]) == seq![source],
        !(part is Image) ==> direct_images(seq![part]) == Seq::<DocumentSourceView>::empty(),
    decreases right.len(),
{
    reveal_with_fuel(direct_images, 2);
    assert(seq![part].drop_last() =~= Seq::empty());
    if right.len() == 0 {
        assert(left + right =~= left);
        assert(direct_images(left) + direct_images(right) =~= direct_images(left));
    } else {
        assert((left + right).drop_last() =~= left + right.drop_last());
        law_own_images_keep_their_order(left, right.drop_last(), part);
        assert(direct_images(left + right) =~= direct_images(left) + direct_images(right));
    }
}

/// The images of two chats, one after the other, are those of the first and then
/// those of the second. A user message gives its own images and then those of its
/// tool results; other messages give none.
pub proof fn law_images_of_a_chat_keep_their_order(
    left: Seq<MessageView>,
    right: Seq<MessageView>,
    message: MessageView,
)
    ensures
        history_images(left + right) == history_images(left) + history_images(right),
        message matches MessageView::User(content) ==> {
            let own = direct_images(content);
            let returned = result_images(tool_results(content));
            &&& history_images(seq![message]).len() == own.len() + returned.len()
            &&& forall|k: int|
                0 <= k < own.len() ==> #[trigger] history_images(seq![message])[k] == (false, own[k])
            &&& forall|k: int|
                own.len() <= k < own.len() + returned.len() ==> #[trigger] history_images(seq![message])[k] == (
                    true,
                    returned[k - own.len()],
                )
        },
        !(message is User) ==> history_images(seq![message]) == Seq::<(bool, DocumentSourceView)>::empty(),
    decreases right.len(),
{
    reveal_with_fuel(history_images, 2);
    assert(seq![message].drop_last() =~= Seq::empty());
    if right.len() == 0 {
        assert(left + right =~= left);
        assert(history_images(left) + history_images(right) =~= history_images(left));
    } else {
        assert((left + right).drop_last() =~= left + right.drop_last());
        law_images_of_a_chat_keep_their_order(left, right.drop_last(), message);
        assert(history_images(left + right) =~= history_images(left) + history_images(right));
    }
}

/// Raw bytes are the image, Base64 text is decoded, and every other source is
/// refused with an error of its own.
pub proof fn law_image_bytes_come_with_the_request(source: DocumentSourceView)
    ensures
        source matches DocumentSourceView::Raw(bytes) ==> image_bytes(source) == Ok::<
            Seq<u8>,
            Seq<char>,
        >(bytes),
        source matches DocumentSourceView::Base64(text) ==> match base64_decoded(text) {
            Ok(bytes) => image_bytes(source) == Ok::<Seq<u8>, Seq<char>>(bytes),
            Err(message) => image_bytes(source) == Err::<Seq<u8>, Seq<char>>(
                "Base64 decode failed: "@ + message,
            ),
        },
        source is Url ==> image_bytes(source) == Err::<Seq<u8>, Seq<char>>(
            "URL image sources are not supported; pre-fetch the image data"@,
        ),
        source matches DocumentSourceView::FileId(text) ==> image_bytes(source) == Err::<
            Seq<u8>,
            Seq<char>,
        >("Unsupported image source kind: FileId("@ + quoted(text) + ")"@),
        source matches DocumentSourceView::Text(text) ==> image_bytes(source) == Err::<
            Seq<u8>,
            Seq<char>,
        >("Unsupported image source kind: String("@ + quoted(text) + ")"@),
        source is Unknown ==> image_bytes(source) == Err::<Seq<u8>, Seq<char>>(
            "Unsupported image source kind: Unknown"@,
        ),
{
}

/// Where the bytes of all images can be had, each is prepared, in order, with
/// its bytes and their hash; else the first whose bytes cannot be had is
/// reported, with whether a tool returned it.
pub proof fn law_every_image_is_prepared(images: Seq<(bool, DocumentSourceView)>)
    ensures
        (forall|k: int| 0 <= k < images.len() ==> image_bytes((#[trigger] images[k]).1) is Ok)
            ==> prepared_images(images) is Ok && prepared_images(images)->Ok_0.len()
            == images.len() && forall|k: int|
            0 <= k < images.len() ==> (#[trigger] prepared_images(images)->Ok_0[k]).bytes
                == image_bytes(images[k].1)->Ok_0 && prepared_images(images)->Ok_0[k].hash == fnv1a(
                image_bytes(images[k].1)->Ok_0,
            ),
        forall|k: int|
            0 <= k < images.len() && image_bytes((#[trigger] images[k]).1) is Err && (forall|j: int|
                0 <= j < k ==> image_bytes((#[trigger] images[j]).1) is Ok) ==> prepared_images(
                images,
            ) == Err::<Seq<PreparedImageView>, Seq<char>>(
                (if images[k].0 {
                    "Tool-result image extraction failed: "@
                } else {
                    "Image extraction failed: "@
                }) + image_bytes(images[k].1)->Err_0,
            ),
    decreases images.len(),
{
    if images.len() > 0 {
        let before = images.drop_last();
        law_every_image_is_prepared(before);
        assert(forall|k: int| 0 <= k < before.len() ==> before[k] == #[trigger] images[k]);
        assert(images[images.len() - 1] == images.last());
    }
}

/// What a prepared image shows is its bytes and their hash.
pub proof fn law_prepared_images_show_what_they_hold(image: PreparedImage)
    ensures
        image@.bytes == image.bytes@,
        image@.hash == image.hash,
{
}

}
