//! From a document to its rendered form.

use crate::front_matter::{extract_metadata, front_matter, is_begin_line, line_at};
use crate::metadata::{metadata_of, read_metadata, Metadata, MetadataError};
use crate::render::{render, rendering, Format, RenderOptions};
use crate::template::{apply_template, interpolate};
use crate::text::{trim, trimmed};
use vstd::prelude::*;
use vstd::string::StringExecFns;

verus! {

/// The key under which a template finds the rendered body.
pub open spec fn body_key() -> Seq<char> {
    seq!['b', 'o', 'd', 'y']
}

/// The characters of `text`, where there is a text.
pub open spec fn text_of(text: Option<String>) -> Option<Seq<char>> {
    match text {
        Some(text) => Some(text@),
        None => None,
    }
}

/// The map of `metadata`, where there is metadata.
pub open spec fn map_of(metadata: Option<Metadata>) -> Option<Map<Seq<char>, Seq<char>>> {
    match metadata {
        Some(metadata) => Some(metadata@),
        None => None,
    }
}

/// The metadata that a template is filled in from: the seed, the document's
/// own metadata written over it, and the rendered body over both, under
/// `body`.
pub open spec fn template_map(
    seed: Map<Seq<char>, Seq<char>>,
    parsed: Map<Seq<char>, Seq<char>>,
    body: Seq<char>,
) -> Map<Seq<char>, Seq<char>> {
    seed.union_prefer_right(parsed).insert(body_key(), body)
}

/// What becomes of the renderer's output: it is trimmed, and where there is
/// both a template and metadata of the document, the template is filled in.
pub open spec fn finished(
    rendered: Seq<char>,
    template: Option<Seq<char>>,
    seed: Map<Seq<char>, Seq<char>>,
    parsed: Option<Map<Seq<char>, Seq<char>>>,
) -> Seq<char> {
    match (template, parsed) {
        (Some(template), Some(parsed)) => interpolate(
            template,
            template_map(seed, parsed, trimmed(rendered)),
        ),
        _ => trimmed(rendered),
    }
}

/// What converting `input` gives. A document without front matter is rendered
/// whole, and no template is applied. With front matter the block must read
/// as metadata; the body is rendered, and the template, if any, is filled in.
pub open spec fn conversion(
    input: Seq<char>,
    format: Format,
    template: Option<Seq<char>>,
    seed: Map<Seq<char>, Seq<char>>,
    options: RenderOptions,
) -> Result<Seq<char>, MetadataError> {
    match front_matter(input) {
        None => Ok(finished(rendering(input, format, options), template, seed, None)),
        Some((block, body)) => match metadata_of(block) {
            Err(error) => Err(error),
            Ok(parsed) => Ok(
                finished(rendering(body, format, options), template, seed, Some(parsed)),
            ),
        },
    }
}

/// A document whose first line does not open front matter has none, and is
/// converted to the rendering of the whole input, trimmed: neither a template
/// nor any metadata changes that.
pub proof fn lemma_conversion_without_front_matter(
    input: Seq<char>,
    format: Format,
    template: Option<Seq<char>>,
    seed: Map<Seq<char>, Seq<char>>,
    options: RenderOptions,
)
    requires
        !is_begin_line(line_at(input, 0)),
    ensures
        front_matter(input) is None,
        conversion(input, format, template, seed, options) == Ok::<Seq<char>, MetadataError>(
            trimmed(rendering(input, format, options)),
        ),
{
}

/// Without a template the metadata of a document does not show in the
/// result: it is the rendering of the body, trimmed.
pub proof fn lemma_conversion_without_template(
    input: Seq<char>,
    format: Format,
    seed: Map<Seq<char>, Seq<char>>,
    options: RenderOptions,
)
    ensures
        match front_matter(input) {
            Some((block, body)) => conversion(input, format, None, seed, options) == if metadata_of(
                block,
            ) is Ok {
                Ok::<Seq<char>, MetadataError>(trimmed(rendering(body, format, options)))
            } else {
                Err::<Seq<char>, MetadataError>(metadata_of(block)->Err_0)
            },
            None => conversion(input, format, None, seed, options) == Ok::<Seq<char>, MetadataError>(
                trimmed(rendering(input, format, options)),
            ),
        },
{
}

/// Under `body` a template finds the rendered body, whatever the seed and
/// the document held there. Under any other key it finds the document's
/// value, and the seed's where the document has none.
pub proof fn lemma_template_map(
    seed: Map<Seq<char>, Seq<char>>,
    parsed: Map<Seq<char>, Seq<char>>,
    body: Seq<char>,
    key: Seq<char>,
)
    ensures
        template_map(seed, parsed, body)[body_key()] == body,
        template_map(seed, parsed, body).contains_key(body_key()),
        key != body_key() ==> (template_map(seed, parsed, body).contains_key(key)
            <==> parsed.contains_key(key) || seed.contains_key(key)),
        key != body_key() && parsed.contains_key(key) ==> template_map(seed, parsed, body)[key]
            == parsed[key],
        key != body_key() && !parsed.contains_key(key) && seed.contains_key(key) ==> template_map(
            seed,
            parsed,
            body,
        )[key] == seed[key],
{
}

/// The metadata that a template is filled in from: `seed`, with `parsed`
/// written over it and `body` over both.
pub fn template_metadata(seed: Metadata, parsed: Metadata, body: String) -> (metadata: Metadata)
    ensures
        metadata@ == template_map(seed@, parsed@, body@),
{
    let mut metadata = seed;
    metadata.extend(parsed);
    proof {
        reveal_strlit("body");
        assert("body"@ =~= body_key());
    }
    metadata.insert(String::from_str("body"), body);
    metadata
}

/// Turns the renderer's output into the result: trims it, and fills in the
/// template where there is one and the document had metadata. `parsed` is
/// that metadata, `seed` what it is written over.
pub fn finish(
    rendered: &str,
    template: Option<String>,
    seed: Metadata,
    parsed: Option<Metadata>,
) -> (out: String)
    ensures
        out@ == finished(rendered@, text_of(template), seed@, map_of(parsed)),
{
    let output = String::from_str(trim(rendered));
    match template {
        Some(template) => match parsed {
            Some(parsed) => apply_template(template, template_metadata(seed, parsed, output)),
            None => output,
        },
        None => output,
    }
}

/// Converts a document: splits off its front matter, reads the block as
/// metadata, renders the body, and fills in the template.
///
/// A block that does not read as metadata fails the conversion. `metadata`
/// seeds the map: the block's keys are written over it, and `body` over both.
pub fn convert(
    input: &str,
    format: Format,
    template: Option<String>,
    metadata: Metadata,
    options: RenderOptions,
) -> (r: Result<String, MetadataError>)
    ensures
        match r {
            Ok(out) => conversion(input@, format, text_of(template), metadata@, options) == Ok::<
                Seq<char>,
                MetadataError,
            >(out@),
            Err(error) => conversion(input@, format, text_of(template), metadata@, options)
                == Err::<Seq<char>, MetadataError>(error),
        },
{
    match extract_metadata(input) {
        None => {
            let rendered = render(input, format, &options);
            Ok(finish(rendered.as_str(), template, metadata, None))
        },
        Some((block, body)) => {
            match read_metadata(block) {
                Err(error) => Err(error),
                Ok(parsed) => {
                    let rendered = render(body, format, &options);
                    Ok(finish(rendered.as_str(), template, metadata, Some(parsed)))
                },
            }
        },
    }
}

} // verus!
