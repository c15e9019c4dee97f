//! Cut streams that hold a project or one of its sections.

use super::model::{
    lemma_decode_field_cut, lemma_decode_field_within, lemma_decode_model_cut,
    lemma_decode_model_within, lemma_text_content_advances, lemma_text_content_cut,
};
use super::{advances, closed, cut_law, innermost, lemma_named_element, lemma_open_stack_split};
use super::{open_element, open_stack, within};
use crate::error::ErrorView;
use crate::models::access_info::{access_info_timestamps, decode_access_info};
use crate::models::case_information::{case_information_fields, decode_case_information};
use crate::models::commons::{decode_field, decode_item, FieldView, ItemView};
use crate::models::decoded_data::{decode_decoded_data, decoded_data_model_types};
use crate::models::file::{decode_file, file_children, FileChildren, FileView};
use crate::models::images::{decode_image, decode_images, images_images, ImageView};
use crate::models::metadata::{decode_metadata, metadata_items};
use crate::models::model::{decode_model, ModelView};
use crate::models::model_type::{decode_model_type, model_type_models, ModelTypeView};
use crate::models::project::{
    decode_project, no_sections, project_sections, ProjectSections, ProjectView,
};
use crate::models::source_extractions::{
    decode_extraction_info, decode_source_extractions, source_extractions_infos,
    ExtractionInfoView,
};
use crate::models::tagged_files::{decode_tagged_files, tagged_files_files};
use crate::models::timestamp::{decode_timestamp, TimestampView};
use crate::reader::{empties, opens, tag_of, token_at, verdict};
use crate::utils::attribute_map;
use crate::xml::{StartTag, Token};
use vstd::prelude::*;

verus! {

/// The decoder of an item leaves the cursor within the stream, and what it
/// decodes closes its element.
pub proof fn lemma_decode_item_within(
    tag: StartTag,
    tokens: Seq<Token>,
    pos: nat,
    stack: Seq<Seq<u8>>,
)
    ensures
        within(tokens, pos, decode_item(tag, tokens, pos).1),
        decode_item(tag, tokens, pos).0 is Ok ==> open_stack(
            tokens,
            pos,
            decode_item(tag, tokens, pos).1,
            stack,
        ) == closed(stack),
{
    if attribute_map(tag.attributes@) is Some {
        lemma_text_content_advances("item"@, tokens, pos, Seq::empty(), stack);
    }
}

/// The decoder of an item on a cut stream.
pub proof fn lemma_decode_item_cut(
    tag: StartTag,
    tokens: Seq<Token>,
    pos: nat,
    k: nat,
    root: Seq<char>,
    stack: Seq<Seq<u8>>,
)
    requires
        k <= tokens.len(),
        innermost(root, stack) == "item"@,
    ensures
        cut_law(
            decode_item(tag, tokens, pos),
            decode_item(tag, tokens.take(k as int), pos),
            pos,
            k,
            innermost(root, open_stack(tokens, pos, k, stack)),
        ),
{
    if attribute_map(tag.attributes@) is Some {
        lemma_text_content_cut("item"@, tokens, pos, Seq::empty(), k, root, stack);
    }
}

/// The decoder of a timestamp leaves the cursor within the stream, and what it
/// decodes closes its element.
pub proof fn lemma_decode_timestamp_within(
    tag: StartTag,
    tokens: Seq<Token>,
    pos: nat,
    stack: Seq<Seq<u8>>,
)
    ensures
        within(tokens, pos, decode_timestamp(tag, tokens, pos).1),
        decode_timestamp(tag, tokens, pos).0 is Ok ==> open_stack(
            tokens,
            pos,
            decode_timestamp(tag, tokens, pos).1,
            stack,
        ) == closed(stack),
{
    if attribute_map(tag.attributes@) is Some {
        lemma_text_content_advances("timestamp"@, tokens, pos, Seq::empty(), stack);
    }
}

/// The decoder of a timestamp on a cut stream.
pub proof fn lemma_decode_timestamp_cut(
    tag: StartTag,
    tokens: Seq<Token>,
    pos: nat,
    k: nat,
    root: Seq<char>,
    stack: Seq<Seq<u8>>,
)
    requires
        k <= tokens.len(),
        innermost(root, stack) == "timestamp"@,
    ensures
        cut_law(
            decode_timestamp(tag, tokens, pos),
            decode_timestamp(tag, tokens.take(k as int), pos),
            pos,
            k,
            innermost(root, open_stack(tokens, pos, k, stack)),
        ),
{
    if attribute_map(tag.attributes@) is Some {
        lemma_text_content_cut("timestamp"@, tokens, pos, Seq::empty(), k, root, stack);
    }
}

/// The body of a metadata section leaves the cursor within the stream, behind what it
/// has read, and a body that decodes closes its element.
pub proof fn lemma_metadata_items_advances(
    tokens: Seq<Token>,
    pos: nat,
    acc: Seq<ItemView>,
    stack: Seq<Seq<u8>>,
)
    ensures
        advances(tokens, pos, metadata_items(tokens, pos, acc).1),
        metadata_items(tokens, pos, acc).0 is Ok ==> open_stack(
            tokens,
            pos,
            metadata_items(tokens, pos, acc).1,
            stack,
        ) == closed(stack),
    decreases tokens.len() - pos,
{
    let token = token_at(tokens, pos);
    let end = metadata_items(tokens, pos, acc).1;
    assert(open_stack(tokens, pos + 1, pos + 1, closed(stack)) == closed(stack));
    if opens(token, "item"@) {
        let inner = stack.push(tag_of(token).name@);
        lemma_named_element(tag_of(token).name@, "item"@, stack, Seq::empty());
        lemma_decode_item_within(tag_of(token), tokens, pos + 1, inner);
        let (child, next) = decode_item(tag_of(token), tokens, pos + 1);
        if let Ok(c) = child {
            lemma_metadata_items_advances(tokens, next, acc.push(c), stack);
            lemma_open_stack_split(tokens, pos + 1, next, end, inner);
        }
    } else {
        if verdict("metadata"@, token) is Ignored {
            lemma_metadata_items_advances(tokens, pos + 1, acc, stack);
        }
    }
}

/// The body of a metadata section on a cut stream.
pub proof fn lemma_metadata_items_cut(
    tokens: Seq<Token>,
    pos: nat,
    acc: Seq<ItemView>,
    k: nat,
    root: Seq<char>,
    stack: Seq<Seq<u8>>,
)
    requires
        k <= tokens.len(),
        innermost(root, stack) == "metadata"@,
    ensures
        cut_law(
            metadata_items(tokens, pos, acc),
            metadata_items(tokens.take(k as int), pos, acc),
            pos,
            k,
            innermost(root, open_stack(tokens, pos, k, stack)),
        ),
    decreases tokens.len() - pos,
{
    let short = tokens.take(k as int);
    let token = token_at(tokens, pos);
    lemma_metadata_items_advances(tokens, pos, acc, stack);
    if pos < k {
        assert(token_at(short, pos) == token);
        if opens(token, "item"@) {
            let inner = stack.push(tag_of(token).name@);
            lemma_named_element(tag_of(token).name@, "item"@, stack, root);
            lemma_decode_item_within(tag_of(token), tokens, pos + 1, inner);
            lemma_decode_item_cut(tag_of(token), tokens, pos + 1, k, root, inner);
            let (child, next) = decode_item(tag_of(token), tokens, pos + 1);
            if let Ok(c) = child {
                lemma_metadata_items_advances(tokens, next, acc.push(c), stack);
                if next <= k {
                    lemma_metadata_items_cut(tokens, next, acc.push(c), k, root, stack);
                    lemma_open_stack_split(tokens, pos + 1, next, k, inner);
                }
            }
        } else {
            if verdict("metadata"@, token) is Ignored {
                lemma_metadata_items_cut(tokens, pos + 1, acc, k, root, stack);
            }
        }
    } else if pos >= tokens.len() && k == tokens.len() {
        assert(short =~= tokens);
    }
}

/// The decoder of a metadata section leaves the cursor within the stream, and what it
/// decodes closes its element.
pub proof fn lemma_decode_metadata_within(
    tag: StartTag,
    tokens: Seq<Token>,
    pos: nat,
    stack: Seq<Seq<u8>>,
)
    ensures
        within(tokens, pos, decode_metadata(tag, tokens, pos).1),
        decode_metadata(tag, tokens, pos).0 is Ok ==> open_stack(
            tokens,
            pos,
            decode_metadata(tag, tokens, pos).1,
            stack,
        ) == closed(stack),
{
    if attribute_map(tag.attributes@) is Some {
        lemma_metadata_items_advances(tokens, pos, Seq::empty(), stack);
    }
}

/// The decoder of a metadata section on a cut stream.
pub proof fn lemma_decode_metadata_cut(
    tag: StartTag,
    tokens: Seq<Token>,
    pos: nat,
    k: nat,
    root: Seq<char>,
    stack: Seq<Seq<u8>>,
)
    requires
        k <= tokens.len(),
        innermost(root, stack) == "metadata"@,
    ensures
        cut_law(
            decode_metadata(tag, tokens, pos),
            decode_metadata(tag, tokens.take(k as int), pos),
            pos,
            k,
            innermost(root, open_stack(tokens, pos, k, stack)),
        ),
{
    if attribute_map(tag.attributes@) is Some {
        lemma_metadata_items_cut(tokens, pos, Seq::empty(), k, root, stack);
    }
}

/// The body of the access information leaves the cursor within the stream, behind what it
/// has read, and a body that decodes closes its element.
pub proof fn lemma_access_info_timestamps_advances(
    tokens: Seq<Token>,
    pos: nat,
    acc: Seq<TimestampView>,
    stack: Seq<Seq<u8>>,
)
    ensures
        advances(tokens, pos, access_info_timestamps(tokens, pos, acc).1),
        access_info_timestamps(tokens, pos, acc).0 is Ok ==> open_stack(
            tokens,
            pos,
            access_info_timestamps(tokens, pos, acc).1,
            stack,
        ) == closed(stack),
    decreases tokens.len() - pos,
{
    let token = token_at(tokens, pos);
    let end = access_info_timestamps(tokens, pos, acc).1;
    assert(open_stack(tokens, pos + 1, pos + 1, closed(stack)) == closed(stack));
    if opens(token, "timestamp"@) {
        let inner = stack.push(tag_of(token).name@);
        lemma_named_element(tag_of(token).name@, "timestamp"@, stack, Seq::empty());
        lemma_decode_timestamp_within(tag_of(token), tokens, pos + 1, inner);
        let (child, next) = decode_timestamp(tag_of(token), tokens, pos + 1);
        if let Ok(c) = child {
            lemma_access_info_timestamps_advances(tokens, next, acc.push(c), stack);
            lemma_open_stack_split(tokens, pos + 1, next, end, inner);
        }
    } else {
        if verdict("accessInfo"@, token) is Ignored {
            lemma_access_info_timestamps_advances(tokens, pos + 1, acc, stack);
        }
    }
}

/// The body of the access information on a cut stream.
pub proof fn lemma_access_info_timestamps_cut(
    tokens: Seq<Token>,
    pos: nat,
    acc: Seq<TimestampView>,
    k: nat,
    root: Seq<char>,
    stack: Seq<Seq<u8>>,
)
    requires
        k <= tokens.len(),
        innermost(root, stack) == "accessInfo"@,
    ensures
        cut_law(
            access_info_timestamps(tokens, pos, acc),
            access_info_timestamps(tokens.take(k as int), pos, acc),
            pos,
            k,
            innermost(root, open_stack(tokens, pos, k, stack)),
        ),
    decreases tokens.len() - pos,
{
    let short = tokens.take(k as int);
    let token = token_at(tokens, pos);
    lemma_access_info_timestamps_advances(tokens, pos, acc, stack);
    if pos < k {
        assert(token_at(short, pos) == token);
        if opens(token, "timestamp"@) {
            let inner = stack.push(tag_of(token).name@);
            lemma_named_element(tag_of(token).name@, "timestamp"@, stack, root);
            lemma_decode_timestamp_within(tag_of(token), tokens, pos + 1, inner);
            lemma_decode_timestamp_cut(tag_of(token), tokens, pos + 1, k, root, inner);
            let (child, next) = decode_timestamp(tag_of(token), tokens, pos + 1);
            if let Ok(c) = child {
                lemma_access_info_timestamps_advances(tokens, next, acc.push(c), stack);
                if next <= k {
                    lemma_access_info_timestamps_cut(tokens, next, acc.push(c), k, root, stack);
                    lemma_open_stack_split(tokens, pos + 1, next, k, inner);
                }
            }
        } else {
            if verdict("accessInfo"@, token) is Ignored {
                lemma_access_info_timestamps_cut(tokens, pos + 1, acc, k, root, stack);
            }
        }
    } else if pos >= tokens.len() && k == tokens.len() {
        assert(short =~= tokens);
    }
}

/// The decoder of the access information leaves the cursor within the stream, and what it
/// decodes closes its element.
pub proof fn lemma_decode_access_info_within(tokens: Seq<Token>, pos: nat, stack: Seq<Seq<u8>>)
    ensures
        within(tokens, pos, decode_access_info(tokens, pos).1),
        decode_access_info(tokens, pos).0 is Ok ==> open_stack(
            tokens,
            pos,
            decode_access_info(tokens, pos).1,
            stack,
        ) == closed(stack),
{
    lemma_access_info_timestamps_advances(tokens, pos, Seq::empty(), stack);
}

/// The decoder of the access information on a cut stream.
pub proof fn lemma_decode_access_info_cut(
    tokens: Seq<Token>,
    pos: nat,
    k: nat,
    root: Seq<char>,
    stack: Seq<Seq<u8>>,
)
    requires
        k <= tokens.len(),
        innermost(root, stack) == "accessInfo"@,
    ensures
        cut_law(
            decode_access_info(tokens, pos),
            decode_access_info(tokens.take(k as int), pos),
            pos,
            k,
            innermost(root, open_stack(tokens, pos, k, stack)),
        ),
{
    lemma_access_info_timestamps_cut(tokens, pos, Seq::empty(), k, root, stack);
}

/// The body of a file leaves the cursor within the stream, behind what it
/// has read, and a body that decodes closes its element.
pub proof fn lemma_file_children_advances(
    tokens: Seq<Token>,
    pos: nat,
    acc: FileChildren,
    stack: Seq<Seq<u8>>,
)
    ensures
        advances(tokens, pos, file_children(tokens, pos, acc).1),
        file_children(tokens, pos, acc).0 is Ok ==> open_stack(
            tokens,
            pos,
            file_children(tokens, pos, acc).1,
            stack,
        ) == closed(stack),
    decreases tokens.len() - pos,
{
    let token = token_at(tokens, pos);
    let end = file_children(tokens, pos, acc).1;
    assert(open_stack(tokens, pos + 1, pos + 1, closed(stack)) == closed(stack));
    if opens(token, "accessInfo"@) {
        let inner = stack.push(tag_of(token).name@);
        lemma_named_element(tag_of(token).name@, "accessInfo"@, stack, Seq::empty());
        lemma_decode_access_info_within(tokens, pos + 1, inner);
        let (child, next) = decode_access_info(tokens, pos + 1);
        if let Ok(c) = child {
            lemma_file_children_advances(
                tokens,
                next,
                FileChildren { access_info: Some(c), ..acc },
                stack,
            );
            lemma_open_stack_split(tokens, pos + 1, next, end, inner);
        }
    } else if opens(token, "metadata"@) {
        let inner = stack.push(tag_of(token).name@);
        lemma_named_element(tag_of(token).name@, "metadata"@, stack, Seq::empty());
        lemma_decode_metadata_within(tag_of(token), tokens, pos + 1, inner);
        let (child, next) = decode_metadata(tag_of(token), tokens, pos + 1);
        if let Ok(c) = child {
            lemma_file_children_advances(
                tokens,
                next,
                FileChildren { metadata: acc.metadata.push(c), ..acc },
                stack,
            );
            lemma_open_stack_split(tokens, pos + 1, next, end, inner);
        }
    } else {
        if verdict("file"@, token) is Ignored {
            lemma_file_children_advances(tokens, pos + 1, acc, stack);
        }
    }
}

/// The body of a file on a cut stream.
pub proof fn lemma_file_children_cut(
    tokens: Seq<Token>,
    pos: nat,
    acc: FileChildren,
    k: nat,
    root: Seq<char>,
    stack: Seq<Seq<u8>>,
)
    requires
        k <= tokens.len(),
        innermost(root, stack) == "file"@,
    ensures
        cut_law(
            file_children(tokens, pos, acc),
            file_children(tokens.take(k as int), pos, acc),
            pos,
            k,
            innermost(root, open_stack(tokens, pos, k, stack)),
        ),
    decreases tokens.len() - pos,
{
    let short = tokens.take(k as int);
    let token = token_at(tokens, pos);
    lemma_file_children_advances(tokens, pos, acc, stack);
    if pos < k {
        assert(token_at(short, pos) == token);
        if opens(token, "accessInfo"@) {
            let inner = stack.push(tag_of(token).name@);
            lemma_named_element(tag_of(token).name@, "accessInfo"@, stack, root);
            lemma_decode_access_info_within(tokens, pos + 1, inner);
            lemma_decode_access_info_cut(tokens, pos + 1, k, root, inner);
            let (child, next) = decode_access_info(tokens, pos + 1);
            if let Ok(c) = child {
                lemma_file_children_advances(
                    tokens,
                    next,
                    FileChildren { access_info: Some(c), ..acc },
                    stack,
                );
                if next <= k {
                    lemma_file_children_cut(
                        tokens,
                        next,
                        FileChildren { access_info: Some(c), ..acc },
                        k,
                        root,
                        stack,
                    );
                    lemma_open_stack_split(tokens, pos + 1, next, k, inner);
                }
            }
        } else if opens(token, "metadata"@) {
            let inner = stack.push(tag_of(token).name@);
            lemma_named_element(tag_of(token).name@, "metadata"@, stack, root);
            lemma_decode_metadata_within(tag_of(token), tokens, pos + 1, inner);
            lemma_decode_metadata_cut(tag_of(token), tokens, pos + 1, k, root, inner);
            let (child, next) = decode_metadata(tag_of(token), tokens, pos + 1);
            if let Ok(c) = child {
                lemma_file_children_advances(
                    tokens,
                    next,
                    FileChildren { metadata: acc.metadata.push(c), ..acc },
                    stack,
                );
                if next <= k {
                    lemma_file_children_cut(
                        tokens,
                        next,
                        FileChildren { metadata: acc.metadata.push(c), ..acc },
                        k,
                        root,
                        stack,
                    );
                    lemma_open_stack_split(tokens, pos + 1, next, k, inner);
                }
            }
        } else {
            if verdict("file"@, token) is Ignored {
                lemma_file_children_cut(tokens, pos + 1, acc, k, root, stack);
            }
        }
    } else if pos >= tokens.len() && k == tokens.len() {
        assert(short =~= tokens);
    }
}

/// The decoder of a file leaves the cursor within the stream, and what it
/// decodes closes its element.
pub proof fn lemma_decode_file_within(
    tag: StartTag,
    tokens: Seq<Token>,
    pos: nat,
    stack: Seq<Seq<u8>>,
)
    ensures
        within(tokens, pos, decode_file(tag, tokens, pos).1),
        decode_file(tag, tokens, pos).0 is Ok ==> open_stack(
            tokens,
            pos,
            decode_file(tag, tokens, pos).1,
            stack,
        ) == closed(stack),
{
    lemma_file_children_advances(
        tokens,
        pos,
        FileChildren { access_info: None, metadata: Seq::empty() },
        stack,
    );
}

/// The decoder of a file on a cut stream.
pub proof fn lemma_decode_file_cut(
    tag: StartTag,
    tokens: Seq<Token>,
    pos: nat,
    k: nat,
    root: Seq<char>,
    stack: Seq<Seq<u8>>,
)
    requires
        k <= tokens.len(),
        innermost(root, stack) == "file"@,
    ensures
        cut_law(
            decode_file(tag, tokens, pos),
            decode_file(tag, tokens.take(k as int), pos),
            pos,
            k,
            innermost(root, open_stack(tokens, pos, k, stack)),
        ),
{
    lemma_file_children_cut(
        tokens,
        pos,
        FileChildren { access_info: None, metadata: Seq::empty() },
        k,
        root,
        stack,
    );
}

/// The body of the tagged files leaves the cursor within the stream, behind what it
/// has read, and a body that decodes closes its element.
pub proof fn lemma_tagged_files_files_advances(
    tokens: Seq<Token>,
    pos: nat,
    acc: Seq<FileView>,
    stack: Seq<Seq<u8>>,
)
    ensures
        advances(tokens, pos, tagged_files_files(tokens, pos, acc).1),
        tagged_files_files(tokens, pos, acc).0 is Ok ==> open_stack(
            tokens,
            pos,
            tagged_files_files(tokens, pos, acc).1,
            stack,
        ) == closed(stack),
    decreases tokens.len() - pos,
{
    let token = token_at(tokens, pos);
    let end = tagged_files_files(tokens, pos, acc).1;
    assert(open_stack(tokens, pos + 1, pos + 1, closed(stack)) == closed(stack));
    if opens(token, "file"@) {
        let inner = stack.push(tag_of(token).name@);
        lemma_named_element(tag_of(token).name@, "file"@, stack, Seq::empty());
        lemma_decode_file_within(tag_of(token), tokens, pos + 1, inner);
        let (child, next) = decode_file(tag_of(token), tokens, pos + 1);
        if let Ok(c) = child {
            lemma_tagged_files_files_advances(tokens, next, acc.push(c), stack);
            lemma_open_stack_split(tokens, pos + 1, next, end, inner);
        }
    } else {
        if verdict("taggedFiles"@, token) is Ignored {
            lemma_tagged_files_files_advances(tokens, pos + 1, acc, stack);
        }
    }
}

/// The body of the tagged files on a cut stream.
pub proof fn lemma_tagged_files_files_cut(
    tokens: Seq<Token>,
    pos: nat,
    acc: Seq<FileView>,
    k: nat,
    root: Seq<char>,
    stack: Seq<Seq<u8>>,
)
    requires
        k <= tokens.len(),
        innermost(root, stack) == "taggedFiles"@,
    ensures
        cut_law(
            tagged_files_files(tokens, pos, acc),
            tagged_files_files(tokens.take(k as int), pos, acc),
            pos,
            k,
            innermost(root, open_stack(tokens, pos, k, stack)),
        ),
    decreases tokens.len() - pos,
{
    let short = tokens.take(k as int);
    let token = token_at(tokens, pos);
    lemma_tagged_files_files_advances(tokens, pos, acc, stack);
    if pos < k {
        assert(token_at(short, pos) == token);
        if opens(token, "file"@) {
            let inner = stack.push(tag_of(token).name@);
            lemma_named_element(tag_of(token).name@, "file"@, stack, root);
            lemma_decode_file_within(tag_of(token), tokens, pos + 1, inner);
            lemma_decode_file_cut(tag_of(token), tokens, pos + 1, k, root, inner);
            let (child, next) = decode_file(tag_of(token), tokens, pos + 1);
            if let Ok(c) = child {
                lemma_tagged_files_files_advances(tokens, next, acc.push(c), stack);
                if next <= k {
                    lemma_tagged_files_files_cut(tokens, next, acc.push(c), k, root, stack);
                    lemma_open_stack_split(tokens, pos + 1, next, k, inner);
                }
            }
        } else {
            if verdict("taggedFiles"@, token) is Ignored {
                lemma_tagged_files_files_cut(tokens, pos + 1, acc, k, root, stack);
            }
        }
    } else if pos >= tokens.len() && k == tokens.len() {
        assert(short =~= tokens);
    }
}

/// The decoder of the tagged files leaves the cursor within the stream, and what it
/// decodes closes its element.
pub proof fn lemma_decode_tagged_files_within(tokens: Seq<Token>, pos: nat, stack: Seq<Seq<u8>>)
    ensures
        within(tokens, pos, decode_tagged_files(tokens, pos).1),
        decode_tagged_files(tokens, pos).0 is Ok ==> open_stack(
            tokens,
            pos,
            decode_tagged_files(tokens, pos).1,
            stack,
        ) == closed(stack),
{
    lemma_tagged_files_files_advances(tokens, pos, Seq::empty(), stack);
}

/// The decoder of the tagged files on a cut stream.
pub proof fn lemma_decode_tagged_files_cut(
    tokens: Seq<Token>,
    pos: nat,
    k: nat,
    root: Seq<char>,
    stack: Seq<Seq<u8>>,
)
    requires
        k <= tokens.len(),
        innermost(root, stack) == "taggedFiles"@,
    ensures
        cut_law(
            decode_tagged_files(tokens, pos),
            decode_tagged_files(tokens.take(k as int), pos),
            pos,
            k,
            innermost(root, open_stack(tokens, pos, k, stack)),
        ),
{
    lemma_tagged_files_files_cut(tokens, pos, Seq::empty(), k, root, stack);
}

/// The body of the images leaves the cursor within the stream, behind what it
/// has read, and a body that decodes closes its element.
pub proof fn lemma_images_images_advances(
    tokens: Seq<Token>,
    pos: nat,
    acc: Seq<ImageView>,
    stack: Seq<Seq<u8>>,
)
    ensures
        advances(tokens, pos, images_images(tokens, pos, acc).1),
        images_images(tokens, pos, acc).0 is Ok ==> open_stack(
            tokens,
            pos,
            images_images(tokens, pos, acc).1,
            stack,
        ) == closed(stack),
    decreases tokens.len() - pos,
{
    let token = token_at(tokens, pos);
    assert(open_stack(tokens, pos + 1, pos + 1, closed(stack)) == closed(stack));
    if empties(token, "image"@) {
        if let Ok(c) = decode_image(tag_of(token)) {
            lemma_images_images_advances(tokens, pos + 1, acc.push(c), stack);
        }
    } else {
        if verdict("images"@, token) is Ignored {
            lemma_images_images_advances(tokens, pos + 1, acc, stack);
        }
    }
}

/// The body of the images on a cut stream.
pub proof fn lemma_images_images_cut(
    tokens: Seq<Token>,
    pos: nat,
    acc: Seq<ImageView>,
    k: nat,
    root: Seq<char>,
    stack: Seq<Seq<u8>>,
)
    requires
        k <= tokens.len(),
        innermost(root, stack) == "images"@,
    ensures
        cut_law(
            images_images(tokens, pos, acc),
            images_images(tokens.take(k as int), pos, acc),
            pos,
            k,
            innermost(root, open_stack(tokens, pos, k, stack)),
        ),
    decreases tokens.len() - pos,
{
    let short = tokens.take(k as int);
    let token = token_at(tokens, pos);
    lemma_images_images_advances(tokens, pos, acc, stack);
    if pos < k {
        assert(token_at(short, pos) == token);
        if empties(token, "image"@) {
            if let Ok(c) = decode_image(tag_of(token)) {
                lemma_images_images_cut(tokens, pos + 1, acc.push(c), k, root, stack);
            }
        } else {
            if verdict("images"@, token) is Ignored {
                lemma_images_images_cut(tokens, pos + 1, acc, k, root, stack);
            }
        }
    } else if pos >= tokens.len() && k == tokens.len() {
        assert(short =~= tokens);
    }
}

/// The decoder of the images leaves the cursor within the stream, and what it
/// decodes closes its element.
pub proof fn lemma_decode_images_within(tokens: Seq<Token>, pos: nat, stack: Seq<Seq<u8>>)
    ensures
        within(tokens, pos, decode_images(tokens, pos).1),
        decode_images(tokens, pos).0 is Ok ==> open_stack(
            tokens,
            pos,
            decode_images(tokens, pos).1,
            stack,
        ) == closed(stack),
{
    lemma_images_images_advances(tokens, pos, Seq::empty(), stack);
}

/// The decoder of the images on a cut stream.
pub proof fn lemma_decode_images_cut(
    tokens: Seq<Token>,
    pos: nat,
    k: nat,
    root: Seq<char>,
    stack: Seq<Seq<u8>>,
)
    requires
        k <= tokens.len(),
        innermost(root, stack) == "images"@,
    ensures
        cut_law(
            decode_images(tokens, pos),
            decode_images(tokens.take(k as int), pos),
            pos,
            k,
            innermost(root, open_stack(tokens, pos, k, stack)),
        ),
{
    lemma_images_images_cut(tokens, pos, Seq::empty(), k, root, stack);
}

/// The body of the source extractions leaves the cursor within the stream, behind what it
/// has read, and a body that decodes closes its element.
pub proof fn lemma_source_extractions_infos_advances(
    tokens: Seq<Token>,
    pos: nat,
    acc: Seq<ExtractionInfoView>,
    stack: Seq<Seq<u8>>,
)
    ensures
        advances(tokens, pos, source_extractions_infos(tokens, pos, acc).1),
        source_extractions_infos(tokens, pos, acc).0 is Ok ==> open_stack(
            tokens,
            pos,
            source_extractions_infos(tokens, pos, acc).1,
            stack,
        ) == closed(stack),
    decreases tokens.len() - pos,
{
    let token = token_at(tokens, pos);
    assert(open_stack(tokens, pos + 1, pos + 1, closed(stack)) == closed(stack));
    if empties(token, "extractionInfo"@) {
        if let Ok(c) = decode_extraction_info(tag_of(token)) {
            lemma_source_extractions_infos_advances(tokens, pos + 1, acc.push(c), stack);
        }
    } else {
        if verdict("sourceExtractions"@, token) is Ignored {
            lemma_source_extractions_infos_advances(tokens, pos + 1, acc, stack);
        }
    }
}

/// The body of the source extractions on a cut stream.
pub proof fn lemma_source_extractions_infos_cut(
    tokens: Seq<Token>,
    pos: nat,
    acc: Seq<ExtractionInfoView>,
    k: nat,
    root: Seq<char>,
    stack: Seq<Seq<u8>>,
)
    requires
        k <= tokens.len(),
        innermost(root, stack) == "sourceExtractions"@,
    ensures
        cut_law(
            source_extractions_infos(tokens, pos, acc),
            source_extractions_infos(tokens.take(k as int), pos, acc),
            pos,
            k,
            innermost(root, open_stack(tokens, pos, k, stack)),
        ),
    decreases tokens.len() - pos,
{
    let short = tokens.take(k as int);
    let token = token_at(tokens, pos);
    lemma_source_extractions_infos_advances(tokens, pos, acc, stack);
    if pos < k {
        assert(token_at(short, pos) == token);
        if empties(token, "extractionInfo"@) {
            if let Ok(c) = decode_extraction_info(tag_of(token)) {
                lemma_source_extractions_infos_cut(tokens, pos + 1, acc.push(c), k, root, stack);
            }
        } else {
            if verdict("sourceExtractions"@, token) is Ignored {
                lemma_source_extractions_infos_cut(tokens, pos + 1, acc, k, root, stack);
            }
        }
    } else if pos >= tokens.len() && k == tokens.len() {
        assert(short =~= tokens);
    }
}

/// The decoder of the source extractions leaves the cursor within the stream, and what it
/// decodes closes its element.
pub proof fn lemma_decode_source_extractions_within(
    tokens: Seq<Token>,
    pos: nat,
    stack: Seq<Seq<u8>>,
)
    ensures
        within(tokens, pos, decode_source_extractions(tokens, pos).1),
        decode_source_extractions(tokens, pos).0 is Ok ==> open_stack(
            tokens,
            pos,
            decode_source_extractions(tokens, pos).1,
            stack,
        ) == closed(stack),
{
    lemma_source_extractions_infos_advances(tokens, pos, Seq::empty(), stack);
}

/// The decoder of the source extractions on a cut stream.
pub proof fn lemma_decode_source_extractions_cut(
    tokens: Seq<Token>,
    pos: nat,
    k: nat,
    root: Seq<char>,
    stack: Seq<Seq<u8>>,
)
    requires
        k <= tokens.len(),
        innermost(root, stack) == "sourceExtractions"@,
    ensures
        cut_law(
            decode_source_extractions(tokens, pos),
            decode_source_extractions(tokens.take(k as int), pos),
            pos,
            k,
            innermost(root, open_stack(tokens, pos, k, stack)),
        ),
{
    lemma_source_extractions_infos_cut(tokens, pos, Seq::empty(), k, root, stack);
}

/// The body of the case information leaves the cursor within the stream, behind what it
/// has read, and a body that decodes closes its element.
pub proof fn lemma_case_information_fields_advances(
    tokens: Seq<Token>,
    pos: nat,
    acc: Seq<FieldView>,
    stack: Seq<Seq<u8>>,
)
    ensures
        advances(tokens, pos, case_information_fields(tokens, pos, acc).1),
        case_information_fields(tokens, pos, acc).0 is Ok ==> open_stack(
            tokens,
            pos,
            case_information_fields(tokens, pos, acc).1,
            stack,
        ) == closed(stack),
    decreases tokens.len() - pos,
{
    let token = token_at(tokens, pos);
    let end = case_information_fields(tokens, pos, acc).1;
    assert(open_stack(tokens, pos + 1, pos + 1, closed(stack)) == closed(stack));
    if opens(token, "field"@) {
        let inner = stack.push(tag_of(token).name@);
        lemma_named_element(tag_of(token).name@, "field"@, stack, Seq::empty());
        lemma_decode_field_within(tag_of(token), tokens, pos + 1, inner);
        let (child, next) = decode_field(tag_of(token), tokens, pos + 1);
        if let Ok(c) = child {
            lemma_case_information_fields_advances(tokens, next, acc.push(c), stack);
            lemma_open_stack_split(tokens, pos + 1, next, end, inner);
        }
    } else {
        if verdict("caseInformation"@, token) is Ignored {
            lemma_case_information_fields_advances(tokens, pos + 1, acc, stack);
        }
    }
}

/// The body of the case information on a cut stream.
pub proof fn lemma_case_information_fields_cut(
    tokens: Seq<Token>,
    pos: nat,
    acc: Seq<FieldView>,
    k: nat,
    root: Seq<char>,
    stack: Seq<Seq<u8>>,
)
    requires
        k <= tokens.len(),
        innermost(root, stack) == "caseInformation"@,
    ensures
        cut_law(
            case_information_fields(tokens, pos, acc),
            case_information_fields(tokens.take(k as int), pos, acc),
            pos,
            k,
            innermost(root, open_stack(tokens, pos, k, stack)),
        ),
    decreases tokens.len() - pos,
{
    let short = tokens.take(k as int);
    let token = token_at(tokens, pos);
    lemma_case_information_fields_advances(tokens, pos, acc, stack);
    if pos < k {
        assert(token_at(short, pos) == token);
        if opens(token, "field"@) {
            let inner = stack.push(tag_of(token).name@);
            lemma_named_element(tag_of(token).name@, "field"@, stack, root);
            lemma_decode_field_within(tag_of(token), tokens, pos + 1, inner);
            lemma_decode_field_cut(tag_of(token), tokens, pos + 1, k, root, inner);
            let (child, next) = decode_field(tag_of(token), tokens, pos + 1);
            if let Ok(c) = child {
                lemma_case_information_fields_advances(tokens, next, acc.push(c), stack);
                if next <= k {
                    lemma_case_information_fields_cut(tokens, next, acc.push(c), k, root, stack);
                    lemma_open_stack_split(tokens, pos + 1, next, k, inner);
                }
            }
        } else {
            if verdict("caseInformation"@, token) is Ignored {
                lemma_case_information_fields_cut(tokens, pos + 1, acc, k, root, stack);
            }
        }
    } else if pos >= tokens.len() && k == tokens.len() {
        assert(short =~= tokens);
    }
}

/// The decoder of the case information leaves the cursor within the stream, and what it
/// decodes closes its element.
pub proof fn lemma_decode_case_information_within(tokens: Seq<Token>, pos: nat, stack: Seq<Seq<u8>>)
    ensures
        within(tokens, pos, decode_case_information(tokens, pos).1),
        decode_case_information(tokens, pos).0 is Ok ==> open_stack(
            tokens,
            pos,
            decode_case_information(tokens, pos).1,
            stack,
        ) == closed(stack),
{
    lemma_case_information_fields_advances(tokens, pos, Seq::empty(), stack);
}

/// The decoder of the case information on a cut stream.
pub proof fn lemma_decode_case_information_cut(
    tokens: Seq<Token>,
    pos: nat,
    k: nat,
    root: Seq<char>,
    stack: Seq<Seq<u8>>,
)
    requires
        k <= tokens.len(),
        innermost(root, stack) == "caseInformation"@,
    ensures
        cut_law(
            decode_case_information(tokens, pos),
            decode_case_information(tokens.take(k as int), pos),
            pos,
            k,
            innermost(root, open_stack(tokens, pos, k, stack)),
        ),
{
    lemma_case_information_fields_cut(tokens, pos, Seq::empty(), k, root, stack);
}

/// The body of a model type leaves the cursor within the stream, behind what it
/// has read, and a body that decodes closes its element.
pub proof fn lemma_model_type_models_advances(
    tokens: Seq<Token>,
    pos: nat,
    acc: Seq<ModelView>,
    stack: Seq<Seq<u8>>,
)
    ensures
        advances(tokens, pos, model_type_models(tokens, pos, acc).1),
        model_type_models(tokens, pos, acc).0 is Ok ==> open_stack(
            tokens,
            pos,
            model_type_models(tokens, pos, acc).1,
            stack,
        ) == closed(stack),
    decreases tokens.len() - pos,
{
    let token = token_at(tokens, pos);
    let end = model_type_models(tokens, pos, acc).1;
    assert(open_stack(tokens, pos + 1, pos + 1, closed(stack)) == closed(stack));
    if opens(token, "model"@) {
        let inner = stack.push(tag_of(token).name@);
        lemma_named_element(tag_of(token).name@, "model"@, stack, Seq::empty());
        lemma_decode_model_within(tag_of(token), tokens, pos + 1, inner);
        let (child, next) = decode_model(tag_of(token), tokens, pos + 1);
        if let Ok(c) = child {
            lemma_model_type_models_advances(tokens, next, acc.push(c), stack);
            lemma_open_stack_split(tokens, pos + 1, next, end, inner);
        }
    } else {
        if verdict("modelType"@, token) is Ignored {
            lemma_model_type_models_advances(tokens, pos + 1, acc, stack);
        }
    }
}

/// The body of a model type on a cut stream.
pub proof fn lemma_model_type_models_cut(
    tokens: Seq<Token>,
    pos: nat,
    acc: Seq<ModelView>,
    k: nat,
    root: Seq<char>,
    stack: Seq<Seq<u8>>,
)
    requires
        k <= tokens.len(),
        innermost(root, stack) == "modelType"@,
    ensures
        cut_law(
            model_type_models(tokens, pos, acc),
            model_type_models(tokens.take(k as int), pos, acc),
            pos,
            k,
            innermost(root, open_stack(tokens, pos, k, stack)),
        ),
    decreases tokens.len() - pos,
{
    let short = tokens.take(k as int);
    let token = token_at(tokens, pos);
    lemma_model_type_models_advances(tokens, pos, acc, stack);
    if pos < k {
        assert(token_at(short, pos) == token);
        if opens(token, "model"@) {
            let inner = stack.push(tag_of(token).name@);
            lemma_named_element(tag_of(token).name@, "model"@, stack, root);
            lemma_decode_model_within(tag_of(token), tokens, pos + 1, inner);
            lemma_decode_model_cut(tag_of(token), tokens, pos + 1, k, root, inner);
            let (child, next) = decode_model(tag_of(token), tokens, pos + 1);
            if let Ok(c) = child {
                lemma_model_type_models_advances(tokens, next, acc.push(c), stack);
                if next <= k {
                    lemma_model_type_models_cut(tokens, next, acc.push(c), k, root, stack);
                    lemma_open_stack_split(tokens, pos + 1, next, k, inner);
                }
            }
        } else {
            if verdict("modelType"@, token) is Ignored {
                lemma_model_type_models_cut(tokens, pos + 1, acc, k, root, stack);
            }
        }
    } else if pos >= tokens.len() && k == tokens.len() {
        assert(short =~= tokens);
    }
}

/// The decoder of a model type leaves the cursor within the stream, and what it
/// decodes closes its element.
pub proof fn lemma_decode_model_type_within(
    tag: StartTag,
    tokens: Seq<Token>,
    pos: nat,
    stack: Seq<Seq<u8>>,
)
    ensures
        within(tokens, pos, decode_model_type(tag, tokens, pos).1),
        decode_model_type(tag, tokens, pos).0 is Ok ==> open_stack(
            tokens,
            pos,
            decode_model_type(tag, tokens, pos).1,
            stack,
        ) == closed(stack),
{
    lemma_model_type_models_advances(tokens, pos, Seq::empty(), stack);
}

/// The decoder of a model type on a cut stream.
pub proof fn lemma_decode_model_type_cut(
    tag: StartTag,
    tokens: Seq<Token>,
    pos: nat,
    k: nat,
    root: Seq<char>,
    stack: Seq<Seq<u8>>,
)
    requires
        k <= tokens.len(),
        innermost(root, stack) == "modelType"@,
    ensures
        cut_law(
            decode_model_type(tag, tokens, pos),
            decode_model_type(tag, tokens.take(k as int), pos),
            pos,
            k,
            innermost(root, open_stack(tokens, pos, k, stack)),
        ),
{
    lemma_model_type_models_cut(tokens, pos, Seq::empty(), k, root, stack);
}

/// The body of the decoded data leaves the cursor within the stream, behind what it
/// has read, and a body that decodes closes its element.
pub proof fn lemma_decoded_data_model_types_advances(
    tokens: Seq<Token>,
    pos: nat,
    acc: Seq<ModelTypeView>,
    stack: Seq<Seq<u8>>,
)
    ensures
        advances(tokens, pos, decoded_data_model_types(tokens, pos, acc).1),
        decoded_data_model_types(tokens, pos, acc).0 is Ok ==> open_stack(
            tokens,
            pos,
            decoded_data_model_types(tokens, pos, acc).1,
            stack,
        ) == closed(stack),
    decreases tokens.len() - pos,
{
    let token = token_at(tokens, pos);
    let end = decoded_data_model_types(tokens, pos, acc).1;
    assert(open_stack(tokens, pos + 1, pos + 1, closed(stack)) == closed(stack));
    if opens(token, "modelType"@) {
        let inner = stack.push(tag_of(token).name@);
        lemma_named_element(tag_of(token).name@, "modelType"@, stack, Seq::empty());
        lemma_decode_model_type_within(tag_of(token), tokens, pos + 1, inner);
        let (child, next) = decode_model_type(tag_of(token), tokens, pos + 1);
        if let Ok(c) = child {
            lemma_decoded_data_model_types_advances(tokens, next, acc.push(c), stack);
            lemma_open_stack_split(tokens, pos + 1, next, end, inner);
        }
    } else {
        if verdict("decodedData"@, token) is Ignored {
            lemma_decoded_data_model_types_advances(tokens, pos + 1, acc, stack);
        }
    }
}

/// The body of the decoded data on a cut stream.
pub proof fn lemma_decoded_data_model_types_cut(
    tokens: Seq<Token>,
    pos: nat,
    acc: Seq<ModelTypeView>,
    k: nat,
    root: Seq<char>,
    stack: Seq<Seq<u8>>,
)
    requires
        k <= tokens.len(),
        innermost(root, stack) == "decodedData"@,
    ensures
        cut_law(
            decoded_data_model_types(tokens, pos, acc),
            decoded_data_model_types(tokens.take(k as int), pos, acc),
            pos,
            k,
            innermost(root, open_stack(tokens, pos, k, stack)),
        ),
    decreases tokens.len() - pos,
{
    let short = tokens.take(k as int);
    let token = token_at(tokens, pos);
    lemma_decoded_data_model_types_advances(tokens, pos, acc, stack);
    if pos < k {
        assert(token_at(short, pos) == token);
        if opens(token, "modelType"@) {
            let inner = stack.push(tag_of(token).name@);
            lemma_named_element(tag_of(token).name@, "modelType"@, stack, root);
            lemma_decode_model_type_within(tag_of(token), tokens, pos + 1, inner);
            lemma_decode_model_type_cut(tag_of(token), tokens, pos + 1, k, root, inner);
            let (child, next) = decode_model_type(tag_of(token), tokens, pos + 1);
            if let Ok(c) = child {
                lemma_decoded_data_model_types_advances(tokens, next, acc.push(c), stack);
                if next <= k {
                    lemma_decoded_data_model_types_cut(tokens, next, acc.push(c), k, root, stack);
                    lemma_open_stack_split(tokens, pos + 1, next, k, inner);
                }
            }
        } else {
            if verdict("decodedData"@, token) is Ignored {
                lemma_decoded_data_model_types_cut(tokens, pos + 1, acc, k, root, stack);
            }
        }
    } else if pos >= tokens.len() && k == tokens.len() {
        assert(short =~= tokens);
    }
}

/// The decoder of the decoded data leaves the cursor within the stream, and what it
/// decodes closes its element.
pub proof fn lemma_decode_decoded_data_within(tokens: Seq<Token>, pos: nat, stack: Seq<Seq<u8>>)
    ensures
        within(tokens, pos, decode_decoded_data(tokens, pos).1),
        decode_decoded_data(tokens, pos).0 is Ok ==> open_stack(
            tokens,
            pos,
            decode_decoded_data(tokens, pos).1,
            stack,
        ) == closed(stack),
{
    lemma_decoded_data_model_types_advances(tokens, pos, Seq::empty(), stack);
}

/// The decoder of the decoded data on a cut stream.
pub proof fn lemma_decode_decoded_data_cut(
    tokens: Seq<Token>,
    pos: nat,
    k: nat,
    root: Seq<char>,
    stack: Seq<Seq<u8>>,
)
    requires
        k <= tokens.len(),
        innermost(root, stack) == "decodedData"@,
    ensures
        cut_law(
            decode_decoded_data(tokens, pos),
            decode_decoded_data(tokens.take(k as int), pos),
            pos,
            k,
            innermost(root, open_stack(tokens, pos, k, stack)),
        ),
{
    lemma_decoded_data_model_types_cut(tokens, pos, Seq::empty(), k, root, stack);
}

/// The body of a project leaves the cursor within the stream, behind what it
/// has read, and a body that decodes closes its element.
pub proof fn lemma_project_sections_advances(
    tokens: Seq<Token>,
    pos: nat,
    acc: ProjectSections,
    stack: Seq<Seq<u8>>,
)
    ensures
        advances(tokens, pos, project_sections(tokens, pos, acc).1),
        project_sections(tokens, pos, acc).0 is Ok ==> open_stack(
            tokens,
            pos,
            project_sections(tokens, pos, acc).1,
            stack,
        ) == closed(stack),
    decreases tokens.len() - pos,
{
    let token = token_at(tokens, pos);
    let end = project_sections(tokens, pos, acc).1;
    assert(open_stack(tokens, pos + 1, pos + 1, closed(stack)) == closed(stack));
    if opens(token, "sourceExtractions"@) {
        let inner = stack.push(tag_of(token).name@);
        lemma_named_element(tag_of(token).name@, "sourceExtractions"@, stack, Seq::empty());
        lemma_decode_source_extractions_within(tokens, pos + 1, inner);
        let (child, next) = decode_source_extractions(tokens, pos + 1);
        if let Ok(c) = child {
            lemma_project_sections_advances(
                tokens,
                next,
                ProjectSections { source_extractions: Some(c), ..acc },
                stack,
            );
            lemma_open_stack_split(tokens, pos + 1, next, end, inner);
        }
    } else if opens(token, "caseInformation"@) {
        let inner = stack.push(tag_of(token).name@);
        lemma_named_element(tag_of(token).name@, "caseInformation"@, stack, Seq::empty());
        lemma_decode_case_information_within(tokens, pos + 1, inner);
        let (child, next) = decode_case_information(tokens, pos + 1);
        if let Ok(c) = child {
            lemma_project_sections_advances(
                tokens,
                next,
                ProjectSections { case_information: Some(c), ..acc },
                stack,
            );
            lemma_open_stack_split(tokens, pos + 1, next, end, inner);
        }
    } else if opens(token, "metadata"@) {
        let inner = stack.push(tag_of(token).name@);
        lemma_named_element(tag_of(token).name@, "metadata"@, stack, Seq::empty());
        lemma_decode_metadata_within(tag_of(token), tokens, pos + 1, inner);
        let (child, next) = decode_metadata(tag_of(token), tokens, pos + 1);
        if let Ok(c) = child {
            lemma_project_sections_advances(
                tokens,
                next,
                ProjectSections { metadata: acc.metadata.push(c), ..acc },
                stack,
            );
            lemma_open_stack_split(tokens, pos + 1, next, end, inner);
        }
    } else if opens(token, "images"@) {
        let inner = stack.push(tag_of(token).name@);
        lemma_named_element(tag_of(token).name@, "images"@, stack, Seq::empty());
        lemma_decode_images_within(tokens, pos + 1, inner);
        let (child, next) = decode_images(tokens, pos + 1);
        if let Ok(c) = child {
            lemma_project_sections_advances(
                tokens,
                next,
                ProjectSections { images: Some(c), ..acc },
                stack,
            );
            lemma_open_stack_split(tokens, pos + 1, next, end, inner);
        }
    } else if opens(token, "taggedFiles"@) {
        let inner = stack.push(tag_of(token).name@);
        lemma_named_element(tag_of(token).name@, "taggedFiles"@, stack, Seq::empty());
        lemma_decode_tagged_files_within(tokens, pos + 1, inner);
        let (child, next) = decode_tagged_files(tokens, pos + 1);
        if let Ok(c) = child {
            lemma_project_sections_advances(
                tokens,
                next,
                ProjectSections { tagged_files: Some(c), ..acc },
                stack,
            );
            lemma_open_stack_split(tokens, pos + 1, next, end, inner);
        }
    } else if opens(token, "decodedData"@) {
        let inner = stack.push(tag_of(token).name@);
        lemma_named_element(tag_of(token).name@, "decodedData"@, stack, Seq::empty());
        lemma_decode_decoded_data_within(tokens, pos + 1, inner);
        let (child, next) = decode_decoded_data(tokens, pos + 1);
        if let Ok(c) = child {
            lemma_project_sections_advances(
                tokens,
                next,
                ProjectSections { decoded_data: Some(c), ..acc },
                stack,
            );
            lemma_open_stack_split(tokens, pos + 1, next, end, inner);
        }
    } else {
        if verdict("project"@, token) is Ignored {
            lemma_project_sections_advances(tokens, pos + 1, acc, stack);
        }
    }
}

/// The body of a project on a cut stream.
pub proof fn lemma_project_sections_cut(
    tokens: Seq<Token>,
    pos: nat,
    acc: ProjectSections,
    k: nat,
    root: Seq<char>,
    stack: Seq<Seq<u8>>,
)
    requires
        k <= tokens.len(),
        innermost(root, stack) == "project"@,
    ensures
        cut_law(
            project_sections(tokens, pos, acc),
            project_sections(tokens.take(k as int), pos, acc),
            pos,
            k,
            innermost(root, open_stack(tokens, pos, k, stack)),
        ),
    decreases tokens.len() - pos,
{
    let short = tokens.take(k as int);
    let token = token_at(tokens, pos);
    lemma_project_sections_advances(tokens, pos, acc, stack);
    if pos < k {
        assert(token_at(short, pos) == token);
        if opens(token, "sourceExtractions"@) {
            let inner = stack.push(tag_of(token).name@);
            lemma_named_element(tag_of(token).name@, "sourceExtractions"@, stack, root);
            lemma_decode_source_extractions_within(tokens, pos + 1, inner);
            lemma_decode_source_extractions_cut(tokens, pos + 1, k, root, inner);
            let (child, next) = decode_source_extractions(tokens, pos + 1);
            if let Ok(c) = child {
                lemma_project_sections_advances(
                    tokens,
                    next,
                    ProjectSections { source_extractions: Some(c), ..acc },
                    stack,
                );
                if next <= k {
                    lemma_project_sections_cut(
                        tokens,
                        next,
                        ProjectSections { source_extractions: Some(c), ..acc },
                        k,
                        root,
                        stack,
                    );
                    lemma_open_stack_split(tokens, pos + 1, next, k, inner);
                }
            }
        } else if opens(token, "caseInformation"@) {
            let inner = stack.push(tag_of(token).name@);
            lemma_named_element(tag_of(token).name@, "caseInformation"@, stack, root);
            lemma_decode_case_information_within(tokens, pos + 1, inner);
            lemma_decode_case_information_cut(tokens, pos + 1, k, root, inner);
            let (child, next) = decode_case_information(tokens, pos + 1);
            if let Ok(c) = child {
                lemma_project_sections_advances(
                    tokens,
                    next,
                    ProjectSections { case_information: Some(c), ..acc },
                    stack,
                );
                if next <= k {
                    lemma_project_sections_cut(
                        tokens,
                        next,
                        ProjectSections { case_information: Some(c), ..acc },
                        k,
                        root,
                        stack,
                    );
                    lemma_open_stack_split(tokens, pos + 1, next, k, inner);
                }
            }
        } else if opens(token, "metadata"@) {
            let inner = stack.push(tag_of(token).name@);
            lemma_named_element(tag_of(token).name@, "metadata"@, stack, root);
            lemma_decode_metadata_within(tag_of(token), tokens, pos + 1, inner);
            lemma_decode_metadata_cut(tag_of(token), tokens, pos + 1, k, root, inner);
            let (child, next) = decode_metadata(tag_of(token), tokens, pos + 1);
            if let Ok(c) = child {
                lemma_project_sections_advances(
                    tokens,
                    next,
                    ProjectSections { metadata: acc.metadata.push(c), ..acc },
                    stack,
                );
                if next <= k {
                    lemma_project_sections_cut(
                        tokens,
                        next,
                        ProjectSections { metadata: acc.metadata.push(c), ..acc },
                        k,
                        root,
                        stack,
                    );
                    lemma_open_stack_split(tokens, pos + 1, next, k, inner);
                }
            }
        } else if opens(token, "images"@) {
            let inner = stack.push(tag_of(token).name@);
            lemma_named_element(tag_of(token).name@, "images"@, stack, root);
            lemma_decode_images_within(tokens, pos + 1, inner);
            lemma_decode_images_cut(tokens, pos + 1, k, root, inner);
            let (child, next) = decode_images(tokens, pos + 1);
            if let Ok(c) = child {
                lemma_project_sections_advances(
                    tokens,
                    next,
                    ProjectSections { images: Some(c), ..acc },
                    stack,
                );
                if next <= k {
                    lemma_project_sections_cut(
                        tokens,
                        next,
                        ProjectSections { images: Some(c), ..acc },
                        k,
                        root,
                        stack,
                    );
                    lemma_open_stack_split(tokens, pos + 1, next, k, inner);
                }
            }
        } else if opens(token, "taggedFiles"@) {
            let inner = stack.push(tag_of(token).name@);
            lemma_named_element(tag_of(token).name@, "taggedFiles"@, stack, root);
            lemma_decode_tagged_files_within(tokens, pos + 1, inner);
            lemma_decode_tagged_files_cut(tokens, pos + 1, k, root, inner);
            let (child, next) = decode_tagged_files(tokens, pos + 1);
            if let Ok(c) = child {
                lemma_project_sections_advances(
                    tokens,
                    next,
                    ProjectSections { tagged_files: Some(c), ..acc },
                    stack,
                );
                if next <= k {
                    lemma_project_sections_cut(
                        tokens,
                        next,
                        ProjectSections { tagged_files: Some(c), ..acc },
                        k,
                        root,
                        stack,
                    );
                    lemma_open_stack_split(tokens, pos + 1, next, k, inner);
                }
            }
        } else if opens(token, "decodedData"@) {
            let inner = stack.push(tag_of(token).name@);
            lemma_named_element(tag_of(token).name@, "decodedData"@, stack, root);
            lemma_decode_decoded_data_within(tokens, pos + 1, inner);
            lemma_decode_decoded_data_cut(tokens, pos + 1, k, root, inner);
            let (child, next) = decode_decoded_data(tokens, pos + 1);
            if let Ok(c) = child {
                lemma_project_sections_advances(
                    tokens,
                    next,
                    ProjectSections { decoded_data: Some(c), ..acc },
                    stack,
                );
                if next <= k {
                    lemma_project_sections_cut(
                        tokens,
                        next,
                        ProjectSections { decoded_data: Some(c), ..acc },
                        k,
                        root,
                        stack,
                    );
                    lemma_open_stack_split(tokens, pos + 1, next, k, inner);
                }
            }
        } else {
            if verdict("project"@, token) is Ignored {
                lemma_project_sections_cut(tokens, pos + 1, acc, k, root, stack);
            }
        }
    } else if pos >= tokens.len() && k == tokens.len() {
        assert(short =~= tokens);
    }
}

/// The decoder of a project leaves the cursor within the stream, and what it
/// decodes closes its element.
pub proof fn lemma_decode_project_within(
    tag: StartTag,
    tokens: Seq<Token>,
    pos: nat,
    stack: Seq<Seq<u8>>,
)
    ensures
        within(tokens, pos, decode_project(tag, tokens, pos).1),
        decode_project(tag, tokens, pos).0 is Ok ==> open_stack(
            tokens,
            pos,
            decode_project(tag, tokens, pos).1,
            stack,
        ) == closed(stack),
{
    if attribute_map(tag.attributes@) is Some {
        lemma_project_sections_advances(tokens, pos, no_sections(), stack);
    }
}

/// The decoder of a project on a cut stream.
pub proof fn lemma_decode_project_cut(
    tag: StartTag,
    tokens: Seq<Token>,
    pos: nat,
    k: nat,
    root: Seq<char>,
    stack: Seq<Seq<u8>>,
)
    requires
        k <= tokens.len(),
        innermost(root, stack) == "project"@,
    ensures
        cut_law(
            decode_project(tag, tokens, pos),
            decode_project(tag, tokens.take(k as int), pos),
            pos,
            k,
            innermost(root, open_stack(tokens, pos, k, stack)),
        ),
{
    if attribute_map(tag.attributes@) is Some {
        lemma_project_sections_cut(tokens, pos, no_sections(), k, root, stack);
    }
}

/// A project that decodes on a whole stream does not decode on a stream that
/// ends inside it: there the decoder fails with `PrematureEof`, and the
/// failure names the innermost element that the cut leaves open.
pub proof fn lemma_truncated_project(tag: StartTag, tokens: Seq<Token>, pos: nat, k: nat)
    requires
        k <= tokens.len(),
        decode_project(tag, tokens, pos).0 is Ok,
        pos <= k < decode_project(tag, tokens, pos).1,
    ensures
        decode_project(tag, tokens.take(k as int), pos).0 == Err::<ProjectView, ErrorView>(
            ErrorView::PrematureEof { element: open_element("project"@, tokens, pos, k) },
        ),
{
    lemma_decode_project_cut(tag, tokens, pos, k, "project"@, Seq::empty());
}

} // verus!
