//! The text of a configuration file, and the document that management commands edit.
use crate::document::{apply_management, management, Entries, ItemView};
use crate::json::{contents, member, Json, JsonView};
use crate::text::{concat2, concat3};
use serde_json::Value as SerdeValue;
use toml::Value as TomlValue;
use vstd::prelude::*;

verus! {

#[verifier::external_type_specification]
#[verifier::external_body]
pub struct ExDocument(toml_edit::DocumentMut);

#[verifier::external_type_specification]
#[verifier::external_body]
pub struct ExTomlValue(TomlValue);

/// The root of a document.
pub uninterp spec fn root(d: toml_edit::DocumentMut) -> ItemView;

/// The text that a document is written as, with its comments and its layout.
pub uninterp spec fn written(d: toml_edit::DocumentMut) -> Seq<char>;

/// The entries of the document that a text is, or why it is none.
pub uninterp spec fn document_of(text: Seq<char>) -> Result<
    Seq<(Seq<char>, ItemView)>,
    Seq<char>,
>;

/// `toml_edit::DocumentMut` from a text: the document, whose root is a table, or the text of the
/// error.
#[verifier::external_body]
fn read_document(text: &str) -> (r: Result<toml_edit::DocumentMut, String>)
    ensures
        match r {
            Ok(d) => root(d) is Table && document_of(text@) == Ok::<Entries, Seq<char>>(
                root(d)->Table_0,
            ),
            Err(e) => document_of(text@) == Err::<Entries, Seq<char>>(e@),
        },
{
    text.parse::<toml_edit::DocumentMut>().map_err(|e| e.to_string())
}

/// `toml_edit::DocumentMut::to_string`: the text of a document whose root is a table.
#[verifier::external_body]
fn print_document(d: &toml_edit::DocumentMut) -> (r: String)
    requires
        root(*d) is Table,
    ensures
        r@ == written(*d),
{
    d.to_string()
}

/// `toml_edit::DocumentMut::new`: a document without entries.
pub assume_specification[ toml_edit::DocumentMut::new ]() -> (r: toml_edit::DocumentMut)
    ensures
        root(r) == ItemView::Table(Entries::empty()),
;

/// Copying a document gives the same document.
pub assume_specification[ <toml_edit::DocumentMut as Clone>::clone ](
    d: &toml_edit::DocumentMut,
) -> (r: toml_edit::DocumentMut)
    ensures
        r == *d,
;

/// `toml_edit::DocumentMut::as_table_mut`: the root, which has to be a table; what is written
/// through it takes its place.
pub assume_specification[ toml_edit::DocumentMut::as_table_mut ](
    d: &mut toml_edit::DocumentMut,
) -> (r: &mut toml_edit::Table)
    requires
        root(*old(d)) is Table,
    ensures
        root(*old(d)) == ItemView::Table(crate::document::entries(*r)),
        root(*final(d)) == ItemView::Table(crate::document::entries(*final(r))),
;

/// The document of a file that is read again. What is wrong with it is told with the file's path.
pub fn loaded_document(path: &str, text: &str) -> (r: Result<toml_edit::DocumentMut, String>)
    ensures
        match document_of(text@) {
            Ok(e) => r matches Ok(d) && root(d) == ItemView::Table(e),
            Err(e) => r matches Err(t) && t@ == path@ + ": "@ + e,
        },
{
    match read_document(text) {
        Ok(d) => Ok(d),
        Err(e) => Err(concat3(path, ": ", e.as_str())),
    }
}

/// The document that a connector begins with: that of its file, or an empty one where the file
/// cannot be read or is no document.
pub fn first_document(text: Option<&str>) -> (r: toml_edit::DocumentMut)
    ensures
        root(r) == ItemView::Table(
            match text {
                Some(t) => match document_of(t@) {
                    Ok(e) => e,
                    Err(_) => Entries::empty(),
                },
                None => Entries::empty(),
            },
        ),
{
    match text {
        Some(t) => match read_document(t) {
            Ok(d) => d,
            Err(_) => toml_edit::DocumentMut::new(),
        },
        None => toml_edit::DocumentMut::new(),
    }
}

/// A document as a management command would have it, and its text.
pub struct Candidate {
    pub document: toml_edit::DocumentMut,
    pub text: String,
}

/// The document as a management command would have it. The one that is running stays as it is.
pub fn candidate(verb: &str, request: &Json, running: &toml_edit::DocumentMut) -> (r: Result<
    Candidate,
    String,
>)
    requires
        root(*running) is Table,
    ensures
        ({
            let edited = management(verb@, request@, root(*running)->Table_0);
            match edited.error {
                None => r matches Ok(c) && root(c.document) == ItemView::Table(edited.root)
                    && c.text@ == written(c.document),
                Some(e) => r matches Err(t) && t@ == e,
            }
        }),
{
    let mut document = running.clone();
    let edited: Result<(), String> = apply_management(verb, request, document.as_table_mut());
    match edited {
        Ok(()) => {
            let text: String = print_document(&document);
            Ok(Candidate { document, text })
        },
        Err(e) => Err(e),
    }
}

/// What a TOML value is as JSON.
pub uninterp spec fn as_json(v: TomlValue) -> JsonView;

/// What a text in TOML is as JSON, or why it is not TOML.
pub uninterp spec fn toml_text(text: Seq<char>) -> Result<JsonView, Seq<char>>;

/// `toml::from_str` into a value, or the text of the error.
#[verifier::external_body]
fn read_toml(text: &str) -> (r: Result<TomlValue, String>)
    ensures
        match r {
            Ok(v) => toml_text(text@) == Ok::<JsonView, Seq<char>>(as_json(v)),
            Err(e) => toml_text(text@) == Err::<JsonView, Seq<char>>(e@),
        },
{
    toml::from_str::<TomlValue>(text).map_err(|e| e.to_string())
}

/// `serde_json::to_value` of a TOML value, which always has one: its keys are texts, a date
/// becomes an object, and a float that is not finite becomes null.
#[verifier::external_body]
fn json_of_toml(v: &TomlValue) -> (r: Option<SerdeValue>)
    ensures
        r is Some,
        contents(r->0) == as_json(*v),
{
    serde_json::to_value(v).ok()
}

/// The first device of a configuration, where it has any.
pub open spec fn device_of(config: JsonView) -> Option<JsonView> {
    match member(config, "device"@) {
        Some(JsonView::Array(devices)) => if devices.len() > 0 {
            Some(devices[0])
        } else {
            None
        },
        _ => None,
    }
}

/// The first device of a configuration's text.
pub fn first_device(text: &str) -> (r: Result<Json, String>)
    ensures
        match toml_text(text@) {
            Err(e) => r matches Err(t) && t@ == "parse config: "@ + e,
            Ok(config) => match device_of(config) {
                Some(d) => r matches Ok(j) && j@ == d,
                None => r matches Err(t) && t@ == "config has no [[device]]"@,
            },
        },
{
    let parsed: TomlValue = match read_toml(text) {
        Ok(v) => v,
        Err(e) => {
            return Err(concat2("parse config: ", e.as_str()));
        },
    };
    if let Some(v) = json_of_toml(&parsed) {
        let config: Json = Json::from_value(v);
        if let Some(d) = config.get("device") {
            proof {
                d.lemma_view();
            }
            if let Some(devices) = d.as_array() {
                if devices.len() > 0 {
                    return Ok(devices[0].clone());
                }
            }
        }
    }
    Err("config has no [[device]]".to_owned())
}

} // verus!
