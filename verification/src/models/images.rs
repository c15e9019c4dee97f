//! The images that an extraction was made from.

use crate::error::{outcome, ErrorView, ParseError};
use crate::reader::{
    after, decodes, empties, judge, lemma_views_push, self_closing, tag_of, token_at, verdict,
    views, EventReader, Verdict,
};
use crate::utils::{attribute_map, attributes_to_map, required, required_number};
use crate::xml::{StartTag, Token};
use vstd::prelude::*;

verus! {

/// `<images>` with its images.
#[derive(Debug, PartialEq)]
pub struct Images {
    pub images: Vec<Image>,
}

/// `<image key="..." path="..." size="..." type="..." verify="..."
/// extractionId="..."/>`
#[derive(Debug, PartialEq)]
pub struct Image {
    pub key: String,
    pub path: String,
    pub size: u64,
    pub dtype: String,
    pub verify: String,
    pub extraction_id: u64,
}

/// The mathematical value of [`Image`].
pub struct ImageView {
    pub key: Seq<char>,
    pub path: Seq<char>,
    pub size: u64,
    pub dtype: Seq<char>,
    pub verify: Seq<char>,
    pub extraction_id: u64,
}

/// The mathematical value of [`Images`].
pub struct ImagesView {
    pub images: Seq<ImageView>,
}

impl View for Image {
    type V = ImageView;

    open spec fn view(&self) -> ImageView {
        ImageView {
            key: self.key@,
            path: self.path@,
            size: self.size,
            dtype: self.dtype@,
            verify: self.verify@,
            extraction_id: self.extraction_id,
        }
    }
}

impl View for Images {
    type V = ImagesView;

    open spec fn view(&self) -> ImagesView {
        ImagesView { images: views(self.images@) }
    }
}

/// The image that the attributes `map` make. The first attribute that is
/// missing or no number fails it, in the order `key`, `path`, `size`,
/// `type`, `verify`, `extractionId`.
pub open spec fn image_from(map: Map<Seq<char>, Seq<char>>) -> Result<ImageView, ErrorView> {
    match required(map, "image"@, "key"@) {
        Err(e) => Err(e),
        Ok(key) => match required(map, "image"@, "path"@) {
            Err(e) => Err(e),
            Ok(path) => match required_number(map, "image"@, "size"@, u64::MAX as nat) {
                Err(e) => Err(e),
                Ok(size) => match required(map, "image"@, "type"@) {
                    Err(e) => Err(e),
                    Ok(dtype) => match required(map, "image"@, "verify"@) {
                        Err(e) => Err(e),
                        Ok(verify) => match required_number(
                            map,
                            "image"@,
                            "extractionId"@,
                            u64::MAX as nat,
                        ) {
                            Err(e) => Err(e),
                            Ok(extraction_id) => Ok(
                                ImageView {
                                    key,
                                    path,
                                    size: size as u64,
                                    dtype,
                                    verify,
                                    extraction_id: extraction_id as u64,
                                },
                            ),
                        },
                    },
                },
            },
        },
    }
}

/// The image that the self-closing tag `tag` stands for.
pub open spec fn decode_image(tag: StartTag) -> Result<ImageView, ErrorView> {
    match attribute_map(tag.attributes@) {
        None => Err(ErrorView::MalformedAttribute),
        Some(map) => image_from(map),
    }
}

/// The images of the element from `pos` on, after `acc`.
pub open spec fn images_images(tokens: Seq<Token>, pos: nat, acc: Seq<ImageView>) -> (
    Result<Seq<ImageView>, ErrorView>,
    nat,
)
    decreases tokens.len() - pos,
{
    let token = token_at(tokens, pos);
    if empties(token, "image"@) {
        match decode_image(tag_of(token)) {
            Err(e) => (Err(e), pos + 1),
            Ok(c) => images_images(tokens, pos + 1, acc.push(c)),
        }
    } else {
        match verdict("images"@, token) {
            Verdict::Closed => (Ok(acc), pos + 1),
            Verdict::Ignored => images_images(tokens, pos + 1, acc),
            Verdict::Failed(e) => (Err(e), after(tokens, pos)),
        }
    }
}

/// What the element `images` decodes to, and where its decoding ends, when
/// the cursor stands at `pos` behind its opening tag.
pub open spec fn decode_images(tokens: Seq<Token>, pos: nat) -> (
    Result<ImagesView, ErrorView>,
    nat,
) {
    let (images, next) = images_images(tokens, pos, Seq::empty());
    match images {
        Err(e) => (Err(e), next),
        Ok(images) => (Ok(ImagesView { images }), next),
    }
}

impl Image {
    /// Decodes the image that the self-closing tag `e` stands for.
    pub fn parse_one(e: &StartTag) -> (r: Result<Image, ParseError>)
        ensures
            outcome(r) == decode_image(*e),
    {
        let map = attributes_to_map(e)?;
        let key = map.require("image", "key")?;
        let path = map.require("image", "path")?;
        let size = map.require_u64("image", "size")?;
        let dtype = map.require("image", "type")?;
        let verify = map.require("image", "verify")?;
        let extraction_id = map.require_u64("image", "extractionId")?;
        Ok(Image { key, path, size, dtype, verify, extraction_id })
    }
}

impl Images {
    /// Decodes the element `images` whose opening tag has just been read.
    pub fn parse_one(reader: &mut EventReader) -> (r: Result<Images, ParseError>)
        ensures
            decodes(
                *old(reader),
                *final(reader),
                r,
                decode_images(old(reader).tokens@, old(reader).position as nat),
            ),
    {
        let mut images: Vec<Image> = Vec::new();
        proof {
            assert(views(images@) =~= Seq::empty());
        }
        loop
            invariant
                reader.tokens == old(reader).tokens,
                reader.position >= old(reader).position,
                reader.position <= reader.tokens@.len() || reader.position == old(
                    reader,
                ).position,
                images_images(reader.tokens@, reader.position as nat, views(images@))
                    == images_images(
                    old(reader).tokens@,
                    old(reader).position as nat,
                    Seq::empty(),
                ),
            decreases reader.tokens@.len() - reader.position,
        {
            let token = reader.read_event();
            if let Some(tag) = self_closing(token, "image") {
                let image = Image::parse_one(tag)?;
                proof {
                    lemma_views_push(images@, image);
                }
                images.push(image);
                continue ;
            }
            if judge("images", token)? {
                return Ok(Images { images });
            }
        }
    }
}

} // verus!
