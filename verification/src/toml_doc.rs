//! Editing TOML documents through `toml_edit`, which keeps comments and layout.

use crate::text::{ends, occurs_in};
use vstd::prelude::*;

verus! {

#[verifier::external_type_specification]
#[verifier::external_body]
pub struct ExDocument(toml_edit::DocumentMut);

/// A value at the top of a TOML document.
pub enum TomlView {
    Text(Seq<char>),
    Flag(bool),
    Number(i64),
    /// Anything else: a table, an array, a date, a fraction.
    Other,
}

/// What a document holds, and what stands around it.
#[verifier::ext_equal]
pub struct DocumentView {
    /// What it holds under each of its top-level keys.
    pub entries: Map<Seq<char>, TomlView>,
    /// What stands before each top-level key that holds a text, a flag or a
    /// number: the comments and blank lines since the line above.
    pub notes: Map<Seq<char>, Seq<char>>,
    /// What stands after everything else.
    pub closing: Seq<char>,
}

/// What a document holds, and what stands around it, line ends written as
/// newlines.
pub uninterp spec fn document(d: toml_edit::DocumentMut) -> DocumentView;

/// What a text is as a TOML document, if it is one.
pub uninterp spec fn parsed_document(text: Seq<char>) -> Option<DocumentView>;

/// The text of a document, comments and layout with it.
pub uninterp spec fn document_text(d: toml_edit::DocumentMut) -> Seq<char>;

/// Whether a document was read from a text or begun empty, and edited at its
/// top-level keys alone since: one without tables that its text leaves out.
pub uninterp spec fn reads_back(d: toml_edit::DocumentMut) -> bool;

/// What a document holds under each of its top-level keys.
pub open spec fn entries(d: toml_edit::DocumentMut) -> Map<Seq<char>, TomlView> {
    document(d).entries
}

/// A document that holds nothing.
pub open spec fn blank() -> DocumentView {
    DocumentView { entries: Map::empty(), notes: Map::empty(), closing: Seq::empty() }
}

/// Whether `after` has the notes of `before` for every key but `key`, and the
/// same closing.
pub open spec fn same_around(before: DocumentView, after: DocumentView, key: Seq<char>) -> bool {
    &&& forall|k: Seq<char>|
        k != key && #[trigger] before.notes.contains_key(k) ==> after.notes.contains_key(k)
            && after.notes[k] == before.notes[k]
    &&& after.closing == before.closing
}

/// Whether `after` is `before` with `key` set to `value`: a key that held a
/// text, a flag or a number keeps the note before it.
pub open spec fn is_set(
    before: DocumentView,
    after: DocumentView,
    key: Seq<char>,
    value: TomlView,
) -> bool {
    &&& after.entries == before.entries.insert(key, value)
    &&& same_around(before, after, key)
    &&& before.notes.contains_key(key) ==> after.notes.contains_key(key) && after.notes[key]
        == before.notes[key]
}

/// Whether a text is read as a document that holds what `v` holds, and shows
/// what stands around it: every note somewhere, and the closing at its end.
pub open spec fn shows(text: Seq<char>, v: DocumentView) -> bool {
    &&& parsed_document(text) matches Some(read) && read.entries == v.entries
    &&& forall|k: Seq<char>| #[trigger] v.notes.contains_key(k) ==> occurs_in(v.notes[k], text)
    &&& ends(text, v.closing)
}

/// `str::parse` for `toml_edit::DocumentMut`: the document a text is, and
/// nothing when it is none. The text alone decides.
#[verifier::external_body]
pub(crate) fn parse(text: &str) -> (r: Option<toml_edit::DocumentMut>)
    ensures
        match r {
            Some(d) => parsed_document(text@) == Some(document(d)) && reads_back(d),
            None => parsed_document(text@) is None,
        },
{
    text.parse::<toml_edit::DocumentMut>().ok()
}

/// `toml_edit::DocumentMut::new`: a document that holds nothing.
#[verifier::external_body]
pub(crate) fn empty() -> (r: toml_edit::DocumentMut)
    ensures
        document(r) == blank(),
        reads_back(r),
{
    toml_edit::DocumentMut::new()
}

/// `toml_edit::Table::get` on the root: whether the document holds something
/// under `key`.
#[verifier::external_body]
pub(crate) fn has(d: &toml_edit::DocumentMut, key: &str) -> (r: bool)
    ensures
        r == entries(*d).contains_key(key@),
{
    d.get(key).is_some()
}

/// `toml_edit::value` of a string, assigned through the document's `IndexMut`:
/// `key` holds the string and every other key what it held. The assignment
/// replaces the value and leaves the key with what stands before it; nothing is
/// claimed of a comment behind the value, which goes with it.
#[verifier::external_body]
pub(crate) fn set_text(d: &mut toml_edit::DocumentMut, key: &str, value: &str)
    ensures
        is_set(document(*old(d)), document(*final(d)), key@, TomlView::Text(value@)),
        reads_back(*old(d)) ==> reads_back(*final(d)),
{
    d[key] = toml_edit::value(value);
}

/// `toml_edit::value` of a boolean, assigned through the document's `IndexMut`,
/// as [`set_text`] is.
#[verifier::external_body]
pub(crate) fn set_flag(d: &mut toml_edit::DocumentMut, key: &str, value: bool)
    ensures
        is_set(document(*old(d)), document(*final(d)), key@, TomlView::Flag(value)),
        reads_back(*old(d)) ==> reads_back(*final(d)),
{
    d[key] = toml_edit::value(value);
}

/// `toml_edit::value` of an integer, assigned through the document's `IndexMut`,
/// as [`set_text`] is.
#[verifier::external_body]
pub(crate) fn set_number(d: &mut toml_edit::DocumentMut, key: &str, value: i64)
    ensures
        is_set(document(*old(d)), document(*final(d)), key@, TomlView::Number(value)),
        reads_back(*old(d)) ==> reads_back(*final(d)),
{
    d[key] = toml_edit::value(value);
}

/// `toml_edit::Table::remove` on the root: `key` holds nothing, and every other
/// key what it held with what stands before it.
#[verifier::external_body]
pub(crate) fn remove(d: &mut toml_edit::DocumentMut, key: &str)
    ensures
        entries(*final(d)) == entries(*old(d)).remove(key@),
        same_around(document(*old(d)), document(*final(d)), key@),
        reads_back(*old(d)) ==> reads_back(*final(d)),
{
    d.remove(key);
}

/// `toml_edit::DocumentMut`'s `Display`: the document's text. That of a document
/// which [`reads_back`] is read as one that holds the same, and shows every note
/// and, at its end, the closing.
#[verifier::external_body]
pub(crate) fn print(d: &toml_edit::DocumentMut) -> (r: String)
    ensures
        r@ == document_text(*d),
        reads_back(*d) ==> shows(r@, document(*d)),
{
    d.to_string()
}

} // verus!
