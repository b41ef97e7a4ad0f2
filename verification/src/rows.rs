//! Annotations as the rows of a table: every field is a text or a number, and
//! the tags are one JSON text.

use crate::annotation::{opt_text, opt_texts, texts, Annotation, AnnotationView};
use vstd::prelude::*;

verus! {

/// The JSON text for a list of tags, if they can be written as one.
pub uninterp spec fn json_of_tags(tags: Seq<Seq<char>>) -> Option<Seq<char>>;

/// The list of tags that a JSON text holds, if it holds one.
pub uninterp spec fn tags_of_json(text: Seq<char>) -> Option<Seq<Seq<char>>>;

/// `serde_json::to_string` on a list of strings: the list as a JSON text.
/// Nothing is proved of the text; the result is the named value
/// `json_of_tags` of the list.
#[verifier::external_body]
fn tags_to_json(tags: &Vec<String>) -> (r: Option<String>)
    ensures
        opt_text(r) == json_of_tags(texts(tags@)),
{
    match serde_json::to_string(tags) {
        Ok(s) => Some(s),
        Err(_) => None,
    }
}

/// `serde_json::from_str` for a list of strings: the list that the JSON text
/// holds, or nothing where the text is no JSON list of strings. Nothing is
/// proved of the parsing; the result is the named value `tags_of_json` of the
/// text.
#[verifier::external_body]
fn tags_from_json(text: &str) -> (r: Option<Vec<String>>)
    ensures
        opt_texts(r) == tags_of_json(text@),
{
    match serde_json::from_str::<Vec<String>>(text) {
        Ok(v) => Some(v),
        Err(_) => None,
    }
}

/// An annotation as a row of the table.
#[derive(Debug, Clone)]
pub struct AnnotationRow {
    pub id: String,
    pub file_path: String,
    pub start_line: i64,
    pub end_line: i64,
    pub start_column: Option<i64>,
    pub end_column: Option<i64>,
    pub selected_text: String,
    pub comment: String,
    pub pre_context_hash: Option<String>,
    pub post_context_hash: Option<String>,
    pub file_digest: Option<String>,
    pub tags: Option<String>,
    pub priority: Option<String>,
    pub created_at: String,
    pub updated_at: String,
}

/// The tags as they are stored: their JSON text, the text of the empty list
/// where they cannot be written, and nothing for no tags.
pub open spec fn stored_tags(tags: Option<Seq<Seq<char>>>) -> Option<Seq<char>> {
    match tags {
        None => None,
        Some(t) => Some(
            match json_of_tags(t) {
                Some(j) => j,
                None => "[]"@,
            },
        ),
    }
}

/// The tags that a stored text stands for: the list that it holds, and none
/// where nothing is stored or the text holds no list.
pub open spec fn loaded_tags(text: Option<Seq<char>>) -> Option<Seq<Seq<char>>> {
    match text {
        None => None,
        Some(t) => tags_of_json(t),
    }
}

/// The annotation that a row stands for.
pub open spec fn row_annotation(row: AnnotationRow) -> AnnotationView {
    AnnotationView {
        id: row.id@,
        file_path: row.file_path@,
        start_line: row.start_line,
        end_line: row.end_line,
        start_column: row.start_column,
        end_column: row.end_column,
        selected_text: row.selected_text@,
        comment: row.comment@,
        pre_context_hash: opt_text(row.pre_context_hash),
        post_context_hash: opt_text(row.post_context_hash),
        file_digest: opt_text(row.file_digest),
        tags: loaded_tags(opt_text(row.tags)),
        priority: opt_text(row.priority),
        created_at: row.created_at@,
        updated_at: row.updated_at@,
    }
}

/// The tags as they are stored.
pub fn encode_tags(tags: &Option<Vec<String>>) -> (r: Option<String>)
    ensures
        opt_text(r) == stored_tags(opt_texts(*tags)),
{
    match tags {
        None => None,
        Some(t) => match tags_to_json(t) {
            Some(j) => Some(j),
            None => Some("[]".to_owned()),
        },
    }
}

/// The tags that a stored text stands for.
pub fn decode_tags(text: &Option<String>) -> (r: Option<Vec<String>>)
    ensures
        opt_texts(r) == loaded_tags(opt_text(*text)),
{
    match text {
        None => None,
        Some(t) => tags_from_json(t.as_str()),
    }
}

impl AnnotationRow {
    /// The annotation that the row stands for.
    pub fn into_core(self) -> (r: Annotation)
        ensures
            r@ == row_annotation(self),
    {
        let tags = decode_tags(&self.tags);
        Annotation {
            id: self.id,
            file_path: self.file_path,
            start_line: self.start_line,
            end_line: self.end_line,
            start_column: self.start_column,
            end_column: self.end_column,
            selected_text: self.selected_text,
            comment: self.comment,
            pre_context_hash: self.pre_context_hash,
            post_context_hash: self.post_context_hash,
            file_digest: self.file_digest,
            tags,
            priority: self.priority,
            created_at: self.created_at,
            updated_at: self.updated_at,
        }
    }

    /// The row for an annotation: its fields as they are, and its tags as
    /// they are stored.
    pub fn from_core(a: &Annotation) -> (r: AnnotationRow)
        ensures
            r.id@ == a@.id,
            r.file_path@ == a@.file_path,
            r.start_line == a.start_line,
            r.end_line == a.end_line,
            r.start_column == a.start_column,
            r.end_column == a.end_column,
            r.selected_text@ == a@.selected_text,
            r.comment@ == a@.comment,
            opt_text(r.pre_context_hash) == a@.pre_context_hash,
            opt_text(r.post_context_hash) == a@.post_context_hash,
            opt_text(r.file_digest) == a@.file_digest,
            opt_text(r.tags) == stored_tags(a@.tags),
            opt_text(r.priority) == a@.priority,
            r.created_at@ == a@.created_at,
            r.updated_at@ == a@.updated_at,
    {
        let c = a.copy();
        AnnotationRow {
            id: c.id,
            file_path: c.file_path,
            start_line: c.start_line,
            end_line: c.end_line,
            start_column: c.start_column,
            end_column: c.end_column,
            selected_text: c.selected_text,
            comment: c.comment,
            pre_context_hash: c.pre_context_hash,
            post_context_hash: c.post_context_hash,
            file_digest: c.file_digest,
            tags: encode_tags(&a.tags),
            priority: c.priority,
            created_at: c.created_at,
            updated_at: c.updated_at,
        }
    }
}

} // verus!
