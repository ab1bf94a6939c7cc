//! What the command line asks for.

use crate::convert::conversion;
use crate::convert::{convert, text_of};
use crate::metadata::{Metadata, MetadataError};
use crate::render::{Format, RenderOptions};
use crate::text::chars_of;
use vstd::prelude::*;
use vstd::string::{StrSliceExecFns, StringExecFns};

verus! {

/// The arguments of one run.
#[derive(Debug)]
pub struct Args {
    /// The format to write.
    pub to: Format,
    /// The file to read; standard input where there is none.
    pub file: Option<String>,
    /// The file that holds the template.
    pub template: Option<String>,
    /// The file to write; standard output where there is none.
    pub output: Option<String>,
    pub smart: bool,
    pub safe: bool,
    pub hardbreaks: bool,
    pub sourcepos: bool,
    /// The column at which CommonMark output is wrapped; 0 for no wrapping.
    pub columns: usize,
    /// Metadata given on the command line, as pairs of key and value.
    pub metadata: Vec<(String, String)>,
}

impl Args {
    /// The renderer's options among the arguments.
    pub fn to_options(&self) -> (options: RenderOptions)
        ensures
            options == (RenderOptions {
                smart: self.smart,
                safe: self.safe,
                hardbreaks: self.hardbreaks,
                sourcepos: self.sourcepos,
                columns: self.columns,
            }),
    {
        RenderOptions {
            smart: self.smart,
            safe: self.safe,
            hardbreaks: self.hardbreaks,
            sourcepos: self.sourcepos,
            columns: self.columns,
        }
    }
}

/// The number of characters of `s` from index `from` up to the first colon,
/// or to the end where there is none.
pub open spec fn key_len(s: Seq<char>, from: int) -> nat
    decreases s.len() - from,
{
    if 0 <= from < s.len() && s[from] != ':' {
        1 + key_len(s, from + 1)
    } else {
        0
    }
}

/// The key and the value of `s`: what stands before its first colon and what
/// stands after it. `None` where `s` has no colon.
pub open spec fn key_value(s: Seq<char>) -> Option<(Seq<char>, Seq<char>)> {
    let colon = key_len(s, 0) as int;
    if colon < s.len() {
        Some((s.subrange(0, colon), s.subrange(colon + 1, s.len() as int)))
    } else {
        None
    }
}

/// What is said of an argument that has no colon.
pub open spec fn key_value_error(s: Seq<char>) -> Seq<char> {
    "expected format key:value, got '"@ + s + "'"@
}

/// What `key_len` computes, said without recursion.
pub proof fn lemma_key_len(s: Seq<char>, from: int)
    requires
        0 <= from <= s.len(),
    ensures
        from + key_len(s, from) <= s.len(),
        forall|i: int| from <= i < from + key_len(s, from) ==> #[trigger] s[i] != ':',
        from + key_len(s, from) < s.len() ==> s[from + key_len(s, from)] == ':',
    decreases s.len() - from,
{
    if from < s.len() && s[from] != ':' {
        lemma_key_len(s, from + 1);
    }
}

/// Splits an argument of the form `key:value` at its first colon.
pub fn parse_key_value(input: &str) -> (r: Result<(String, String), String>)
    ensures
        match r {
            Ok((key, value)) => key_value(input@) == Some((key@, value@)),
            Err(message) => key_value(input@) is None && message@ == key_value_error(input@),
        },
{
    let chars = chars_of(input);
    let mut colon: usize = 0;
    while colon < chars.len() && chars[colon] != ':'
        invariant
            colon <= chars.len(),
            key_len(chars@, 0) == colon + key_len(chars@, colon as int),
        decreases chars.len() - colon,
    {
        colon += 1;
    }
    if colon < chars.len() {
        let key = String::from_str(input.substring_char(0, colon));
        let value = String::from_str(input.substring_char(colon + 1, chars.len()));
        Ok((key, value))
    } else {
        let mut message = String::from_str("expected format key:value, got '");
        message.append(input);
        message.append("'");
        Err(message)
    }
}

/// Converts a document as `convert` does. Where the conversion fails, the
/// input itself is what is written, and the error comes with it to be
/// reported.
pub fn convert_or_input(
    input: &str,
    format: Format,
    template: Option<String>,
    metadata: Metadata,
    options: RenderOptions,
) -> (r: (String, Option<MetadataError>))
    ensures
        match conversion(input@, format, text_of(template), metadata@, options) {
            Ok(out) => r.0@ == out && r.1 is None,
            Err(error) => r.0@ == input@ && r.1 == Some(error),
        },
{
    match convert(input, format, template, metadata, options) {
        Ok(out) => (out, None),
        Err(error) => (String::from_str(input), Some(error)),
    }
}

} // verus!
