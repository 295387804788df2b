//! The JSON document side of the transcoder, carried by the `json` crate
//! behind trusted wrappers.  The snippet logic itself never inspects a JSON
//! value: it receives the `snippets` member's string content as plain text
//! and hands back plain records, and the wrappers here do the document
//! parsing, member replacement and pretty printing.

use vstd::prelude::*;
use crate::record::SnippetRecord;
use crate::record::RecordView;

verus! {

/// Whether `json::parse` accepts `s` as a JSON document.
pub uninterp spec fn json_valid(s: Seq<char>) -> bool;

/// Whether `json::parse` accepts `s` and the document's top-level value is
/// an object.
pub uninterp spec fn json_object_text(s: Seq<char>) -> bool;

/// The string content of the top-level `snippets` member of the document
/// that `s` encodes: `None` when the document's top-level value is not an
/// object, has no `snippets` member, or that member's value is not a JSON
/// string.  Meaningful only when `json_valid(s)` holds.
pub uninterp spec fn json_snips(s: Seq<char>) -> Option<Seq<char>>;

/// The text of the document that `s` encodes after its top-level `snippets`
/// member is removed and re-inserted as an array of objects, one per record
/// in order, each with the string members `trigger`, `replacement` and
/// `options` in that order, the whole document pretty-printed with 4-space
/// indentation.  The other top-level members keep their values and their
/// relative order; the rebuilt `snippets` member comes last.  Meaningful
/// only when `json_object_text(s)` holds.
pub uninterp spec fn json_spliced(s: Seq<char>, recs: Seq<RecordView>) -> Seq<char>;

/// Relies on `json::parse` and `JsonValue::as_str`: parses the document and
/// hands out the string content of its top-level `snippets` member, `None`
/// when the document is no object, lacks the member, or holds it as a
/// non-string.  Parsing and lookup depend on the text alone.
#[verifier::external_body]
pub(crate) fn doc_snippets_string(s: &str) -> (r: Result<Option<String>, json::Error>)
    ensures
        r is Ok <==> json_valid(s@),
        r matches Ok(Some(b)) ==> json_snips(s@) == Some(b@),
        r matches Ok(None) ==> json_snips(s@) is None,
{
    match json::parse(s) {
        Ok(doc) => Ok(doc["snippets"].as_str().map(String::from)),
        Err(e) => Err(e),
    }
}

/// Relies on `json::parse`, `JsonValue::remove`, `JsonValue::insert` and
/// `json::stringify_pretty`: parses the document, replaces its top-level
/// `snippets` member by an array of three-field objects built from `recs`,
/// and pretty-prints the result with 4-space indentation.  `insert` fails
/// exactly when the document's top-level value is not an object; parsing,
/// replacement and printing depend on the text and the records alone.
#[verifier::external_body]
pub(crate) fn splice_snippets(doc_text: &str, recs: &Vec<SnippetRecord>) -> (r: Result<
    String,
    json::Error,
>)
    ensures
        r is Ok <==> json_object_text(doc_text@),
        r matches Ok(out) ==> out@ == json_spliced(
            doc_text@,
            recs@.map_values(|x: SnippetRecord| x@),
        ),
{
    let mut doc = json::parse(doc_text)?;
    doc.remove("snippets");
    let items: Vec<json::JsonValue> = recs.iter().map(|rec: &SnippetRecord| {
        let mut o = json::JsonValue::new_object();
        let _ = o.insert("trigger", rec.trigger.as_str());
        let _ = o.insert("replacement", rec.replacement.as_str());
        let _ = o.insert("options", rec.options.as_str());
        o
    }).collect();
    doc.insert("snippets", items)?;
    Ok(json::stringify_pretty(doc, 4))
}

} // verus!
