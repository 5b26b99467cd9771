//! MusicXML scores: where the score of a file is found, and its conversion to
//! JSON text.

use crate::grammar::{chars_of, is_rest};
use vstd::prelude::*;
use vstd::string::*;

verus! {

/// Where the score of a file is found, by the file's extension.
#[derive(Clone, Copy, Debug, PartialEq, Eq, Structural)]
pub enum ScoreSource {
    /// A compressed archive, one of whose entries is the score.
    Archive,
    /// The file is the score.
    Plain,
    /// The file is of no format that holds a score.
    Unsupported,
}

/// Why a score could not be converted.
#[derive(Clone, Copy, Debug, PartialEq, Eq, Structural)]
pub enum ScoreError {
    /// The score is not well-formed XML.
    MalformedXml,
    /// The JSON made of the score could not be read back or laid out.
    Json,
}

/// Where the score of a file with this extension is found: in an archive for
/// `mxl`, in the file itself for `musicxml`, nowhere for any other extension
/// and for none.
pub open spec fn source_of(extension: Option<Seq<char>>) -> ScoreSource {
    match extension {
        Some(e) => if e == "mxl"@ {
            ScoreSource::Archive
        } else if e == "musicxml"@ {
            ScoreSource::Plain
        } else {
            ScoreSource::Unsupported
        },
        None => ScoreSource::Unsupported,
    }
}

/// The characters of an extension that may be missing.
pub open spec fn extension_view(extension: Option<&str>) -> Option<Seq<char>> {
    match extension {
        Some(e) => Some(e@),
        None => None,
    }
}

/// Where the score of a file with this extension is found.
pub fn score_source(extension: Option<&str>) -> (source: ScoreSource)
    ensures
        source == source_of(extension_view(extension)),
{
    match extension {
        Some(e) => {
            let text = chars_of(e);
            assert(text@.skip(0) =~= text@);
            if is_rest(&text, 0, "mxl") {
                ScoreSource::Archive
            } else if is_rest(&text, 0, "musicxml") {
                ScoreSource::Plain
            } else {
                ScoreSource::Unsupported
            }
        },
        None => ScoreSource::Unsupported,
    }
}

/// An entry of this name is a score: the name ends in `.xml`, and is not the
/// name of the archive's own table of contents.
pub open spec fn names_score(name: Seq<char>) -> bool {
    &&& name.len() >= 4
    &&& name.skip(name.len() - 4) == ".xml"@
    &&& name != "META-INF/container.xml"@
}

/// Whether an archive's entry of this name is a score.
pub fn is_score_entry(name: &str) -> (r: bool)
    ensures
        r == names_score(name@),
{
    let text = chars_of(name);
    assert(text@.skip(0) =~= text@);
    text.len() >= 4 && is_rest(&text, text.len() - 4, ".xml") && !is_rest(
        &text,
        0,
        "META-INF/container.xml",
    )
}

/// The place of the score among the entries of an archive, given their names
/// in the archive's order: the first entry that is a score, or `None` where
/// none is.
pub fn find_score_entry(names: &Vec<String>) -> (r: Option<usize>)
    ensures
        match r {
            Some(i) => {
                &&& i < names.len()
                &&& names_score(names[i as int]@)
                &&& forall|j: int| 0 <= j < i ==> !names_score(#[trigger] names[j]@)
            },
            None => forall|j: int| 0 <= j < names.len() ==> !names_score(#[trigger] names[j]@),
        },
{
    let mut i: usize = 0;
    while i < names.len()
        invariant
            i <= names.len(),
            forall|j: int| 0 <= j < i ==> !names_score(#[trigger] names[j]@),
        decreases names.len() - i,
    {
        if is_score_entry(names[i].as_str()) {
            return Some(i);
        }
        i += 1;
    }
    None
}

/// The JSON text that a score's XML is converted to, or `None` where the XML
/// is not well-formed.
pub uninterp spec fn xml_as_json(xml: Seq<char>) -> Option<Seq<char>>;

/// A JSON text read and laid out again with indentation, or `None` where it
/// cannot be read or laid out.
pub uninterp spec fn json_laid_out(json: Seq<char>) -> Option<Seq<char>>;

/// `quickxml_to_serde::xml_string_to_json` with the default configuration,
/// and the text of the value it gives: the contract names that text, as a
/// function of the XML, and claims no more.
#[verifier::external_body]
fn xml_to_json(xml: String) -> (r: Option<String>)
    ensures
        match r {
            Some(json) => xml_as_json(xml@) == Some(json@),
            None => xml_as_json(xml@) is None,
        },
{
    let config = quickxml_to_serde::Config::new_with_defaults();
    match quickxml_to_serde::xml_string_to_json(xml, &config) {
        Ok(value) => Some(value.to_string()),
        Err(_) => None,
    }
}

/// `serde_json::to_string_pretty` on the value that `serde_json::from_str`
/// reads from a text: the contract names the text that comes out, as a
/// function of the text that goes in, and claims no more.
#[verifier::external_body]
fn lay_out(json: &str) -> (r: Option<String>)
    ensures
        match r {
            Some(text) => json_laid_out(json@) == Some(text@),
            None => json_laid_out(json@) is None,
        },
{
    match serde_json::from_str::<serde_json::Value>(json) {
        Ok(value) => serde_json::to_string_pretty(&value).ok(),
        Err(_) => None,
    }
}

/// Converts the XML of a score to JSON text, laid out with indentation.
/// Fails with `MalformedXml` where the XML is not well-formed, and with `Json`
/// where the JSON made of it cannot be read back or laid out.
pub fn convert_mxl_to_json(xml_content: String) -> (r: Result<String, ScoreError>)
    ensures
        match xml_as_json(xml_content@) {
            None => r == Err::<String, ScoreError>(ScoreError::MalformedXml),
            Some(json) => match json_laid_out(json) {
                Some(text) => r is Ok && r.unwrap()@ == text,
                None => r == Err::<String, ScoreError>(ScoreError::Json),
            },
        },
{
    match xml_to_json(xml_content) {
        None => Err(ScoreError::MalformedXml),
        Some(json) => match lay_out(json.as_str()) {
            Some(text) => Ok(text),
            None => Err(ScoreError::Json),
        },
    }
}

} // verus!
