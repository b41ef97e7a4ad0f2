//! The annotation record: a comment bound to a span of text in a file.

use crate::clock::{now_rfc3339, random_id};
use vstd::prelude::*;

verus! {

/// A comment pinned to a literal snippet of a file.
///
/// Lines and columns are counted from 1; the span runs from `start_line` to
/// `end_line`, both included. A column that is absent is unspecified, and an
/// absent `end_column` stands for the end of the line.
#[derive(Debug, Clone)]
pub struct Annotation {
    pub id: String,
    pub file_path: String,
    pub start_line: i64,
    pub end_line: i64,
    pub start_column: Option<i64>,
    pub end_column: Option<i64>,
    pub selected_text: String,
    pub comment: String,
    pub pre_context_hash: Option<String>,
    pub post_context_hash: Option<String>,
    pub file_digest: Option<String>,
    pub tags: Option<Vec<String>>,
    pub priority: Option<String>,
    pub created_at: String,
    pub updated_at: String,
}

/// What a request to create an annotation carries.
#[derive(Debug, Clone)]
pub struct CreateAnnotation {
    pub file_path: String,
    pub start_line: i64,
    pub end_line: i64,
    pub start_column: Option<i64>,
    pub end_column: Option<i64>,
    pub selected_text: String,
    pub comment: String,
    pub pre_context_hash: Option<String>,
    pub post_context_hash: Option<String>,
    pub file_digest: Option<String>,
    pub tags: Option<Vec<String>>,
    pub priority: Option<String>,
}

/// What a request to change an annotation carries: each field that is present
/// replaces the record's, each absent one leaves it.
#[derive(Debug, Clone)]
pub struct UpdateAnnotation {
    pub file_path: Option<String>,
    pub start_line: Option<i64>,
    pub end_line: Option<i64>,
    pub start_column: Option<i64>,
    pub end_column: Option<i64>,
    pub selected_text: Option<String>,
    pub comment: Option<String>,
    pub pre_context_hash: Option<String>,
    pub post_context_hash: Option<String>,
    pub file_digest: Option<String>,
    pub tags: Option<Vec<String>>,
    pub priority: Option<String>,
}

/// An annotation as plain mathematical values.
pub struct AnnotationView {
    pub id: Seq<char>,
    pub file_path: Seq<char>,
    pub start_line: i64,
    pub end_line: i64,
    pub start_column: Option<i64>,
    pub end_column: Option<i64>,
    pub selected_text: Seq<char>,
    pub comment: Seq<char>,
    pub pre_context_hash: Option<Seq<char>>,
    pub post_context_hash: Option<Seq<char>>,
    pub file_digest: Option<Seq<char>>,
    pub tags: Option<Seq<Seq<char>>>,
    pub priority: Option<Seq<char>>,
    pub created_at: Seq<char>,
    pub updated_at: Seq<char>,
}

/// What an optional string holds.
pub open spec fn opt_text(o: Option<String>) -> Option<Seq<char>> {
    match o {
        Some(s) => Some(s@),
        None => None,
    }
}

/// What a list of strings holds.
pub open spec fn texts(v: Seq<String>) -> Seq<Seq<char>> {
    Seq::new(v.len(), |i: int| v[i]@)
}

/// What an optional list of strings holds.
pub open spec fn opt_texts(o: Option<Vec<String>>) -> Option<Seq<Seq<char>>> {
    match o {
        Some(v) => Some(texts(v@)),
        None => None,
    }
}

impl View for Annotation {
    type V = AnnotationView;

    open spec fn view(&self) -> AnnotationView {
        AnnotationView {
            id: self.id@,
            file_path: self.file_path@,
            start_line: self.start_line,
            end_line: self.end_line,
            start_column: self.start_column,
            end_column: self.end_column,
            selected_text: self.selected_text@,
            comment: self.comment@,
            pre_context_hash: opt_text(self.pre_context_hash),
            post_context_hash: opt_text(self.post_context_hash),
            file_digest: opt_text(self.file_digest),
            tags: opt_texts(self.tags),
            priority: opt_text(self.priority),
            created_at: self.created_at@,
            updated_at: self.updated_at@,
        }
    }
}

/// What a list of annotations holds.
pub open spec fn views(v: Seq<Annotation>) -> Seq<AnnotationView> {
    Seq::new(v.len(), |i: int| v[i]@)
}

/// The priority that a new annotation gets where the request names none.
pub open spec fn default_priority() -> Seq<char> {
    seq!['P', '1']
}

/// The record that a request to create one gives: the request's fields under
/// the identifier `id`, created and last changed at `now`, with the middle
/// priority where the request names none.
pub open spec fn created(id: Seq<char>, now: Seq<char>, body: CreateAnnotation) -> AnnotationView {
    AnnotationView {
        id: id,
        file_path: body.file_path@,
        start_line: body.start_line,
        end_line: body.end_line,
        start_column: body.start_column,
        end_column: body.end_column,
        selected_text: body.selected_text@,
        comment: body.comment@,
        pre_context_hash: opt_text(body.pre_context_hash),
        post_context_hash: opt_text(body.post_context_hash),
        file_digest: opt_text(body.file_digest),
        tags: opt_texts(body.tags),
        priority: Some(
            match body.priority {
                Some(p) => p@,
                None => default_priority(),
            },
        ),
        created_at: now,
        updated_at: now,
    }
}

/// The record after a partial update: every field that `body` holds replaces
/// the record's, the others stay, the identifier and the time of creation
/// stay, and the record was last changed at `now`.
pub open spec fn updated(a: AnnotationView, body: UpdateAnnotation, now: Seq<char>) -> AnnotationView {
    AnnotationView {
        id: a.id,
        file_path: match body.file_path {
            Some(v) => v@,
            None => a.file_path,
        },
        start_line: match body.start_line {
            Some(v) => v,
            None => a.start_line,
        },
        end_line: match body.end_line {
            Some(v) => v,
            None => a.end_line,
        },
        start_column: match body.start_column {
            Some(v) => Some(v),
            None => a.start_column,
        },
        end_column: match body.end_column {
            Some(v) => Some(v),
            None => a.end_column,
        },
        selected_text: match body.selected_text {
            Some(v) => v@,
            None => a.selected_text,
        },
        comment: match body.comment {
            Some(v) => v@,
            None => a.comment,
        },
        pre_context_hash: match body.pre_context_hash {
            Some(v) => Some(v@),
            None => a.pre_context_hash,
        },
        post_context_hash: match body.post_context_hash {
            Some(v) => Some(v@),
            None => a.post_context_hash,
        },
        file_digest: match body.file_digest {
            Some(v) => Some(v@),
            None => a.file_digest,
        },
        tags: match body.tags {
            Some(v) => Some(texts(v@)),
            None => a.tags,
        },
        priority: match body.priority {
            Some(v) => Some(v@),
            None => a.priority,
        },
        created_at: a.created_at,
        updated_at: now,
    }
}

/// A copy of an optional string.
pub fn copy_opt(o: &Option<String>) -> (r: Option<String>)
    ensures
        opt_text(r) == opt_text(*o),
{
    match o {
        Some(s) => Some(s.clone()),
        None => None,
    }
}

/// A copy of a list of strings.
pub fn copy_texts(v: &Vec<String>) -> (r: Vec<String>)
    ensures
        texts(r@) == texts(v@),
{
    let mut r: Vec<String> = Vec::new();
    let mut i: usize = 0;
    while i < v.len()
        invariant
            i <= v@.len(),
            r@.len() == i,
            forall|j: int| 0 <= j < i ==> (#[trigger] r@[j])@ == v@[j]@,
        decreases v@.len() - i,
    {
        r.push(v[i].clone());
        i += 1;
    }
    assert(texts(r@) =~= texts(v@));
    r
}

/// A copy of an optional list of strings.
pub fn copy_opt_texts(o: &Option<Vec<String>>) -> (r: Option<Vec<String>>)
    ensures
        opt_texts(r) == opt_texts(*o),
{
    match o {
        Some(v) => Some(copy_texts(v)),
        None => None,
    }
}

impl Annotation {
    /// A copy of the record, field by field.
    pub fn copy(&self) -> (r: Annotation)
        ensures
            r@ == self@,
    {
        Annotation {
            id: self.id.clone(),
            file_path: self.file_path.clone(),
            start_line: self.start_line,
            end_line: self.end_line,
            start_column: self.start_column,
            end_column: self.end_column,
            selected_text: self.selected_text.clone(),
            comment: self.comment.clone(),
            pre_context_hash: copy_opt(&self.pre_context_hash),
            post_context_hash: copy_opt(&self.post_context_hash),
            file_digest: copy_opt(&self.file_digest),
            tags: copy_opt_texts(&self.tags),
            priority: copy_opt(&self.priority),
            created_at: self.created_at.clone(),
            updated_at: self.updated_at.clone(),
        }
    }

    /// The record that a request to create one gives: the request's fields
    /// under the identifier `id`, created and last changed at `now`, with the
    /// middle priority where the request names none.
    pub fn create(id: String, now: &str, body: CreateAnnotation) -> (r: Annotation)
        ensures
            r@ == created(id@, now@, body),
    {
        let priority = match body.priority {
            Some(p) => p,
            None => {
                proof {
                    reveal_strlit("P1");
                }
                let p = "P1".to_owned();
                assert(p@ =~= default_priority());
                p
            },
        };
        Annotation {
            id,
            file_path: body.file_path,
            start_line: body.start_line,
            end_line: body.end_line,
            start_column: body.start_column,
            end_column: body.end_column,
            selected_text: body.selected_text,
            comment: body.comment,
            pre_context_hash: body.pre_context_hash,
            post_context_hash: body.post_context_hash,
            file_digest: body.file_digest,
            tags: body.tags,
            priority: Some(priority),
            created_at: now.to_owned(),
            updated_at: now.to_owned(),
        }
    }

    /// The record after a partial update: every field that `body` holds
    /// replaces the record's, the others stay, the identifier and the time of
    /// creation stay, and the record was last changed at `now`.
    pub fn apply_update(self, body: UpdateAnnotation, now: &str) -> (r: Annotation)
        ensures
            r@ == updated(self@, body, now@),
    {
        let mut ex = self;
        if let Some(v) = body.file_path {
            ex.file_path = v;
        }
        if let Some(v) = body.start_line {
            ex.start_line = v;
        }
        if let Some(v) = body.end_line {
            ex.end_line = v;
        }
        if let Some(v) = body.start_column {
            ex.start_column = Some(v);
        }
        if let Some(v) = body.end_column {
            ex.end_column = Some(v);
        }
        if let Some(v) = body.selected_text {
            ex.selected_text = v;
        }
        if let Some(v) = body.comment {
            ex.comment = v;
        }
        if let Some(v) = body.pre_context_hash {
            ex.pre_context_hash = Some(v);
        }
        if let Some(v) = body.post_context_hash {
            ex.post_context_hash = Some(v);
        }
        if let Some(v) = body.file_digest {
            ex.file_digest = Some(v);
        }
        if let Some(v) = body.tags {
            ex.tags = Some(v);
        }
        if let Some(v) = body.priority {
            ex.priority = Some(v);
        }
        ex.updated_at = now.to_owned();
        ex
    }
}

/// The record for a request to create an annotation, under a fresh
/// identifier and at the time that the clock shows, or with no time where
/// the clock cannot be read.
pub fn create_annotation(body: CreateAnnotation) -> (r: Annotation)
    ensures
        r@ == created(r@.id, r@.created_at, body),
{
    let id = random_id();
    match now_rfc3339() {
        Some(now) => Annotation::create(id, now.as_str(), body),
        None => Annotation::create(id, "", body),
    }
}

/// The record `existing` after a partial update at the time that the clock
/// shows; where the clock cannot be read the record keeps the time of its
/// last change.
pub fn update_annotation(existing: Annotation, body: UpdateAnnotation) -> (r: Annotation)
    ensures
        r@ == updated(existing@, body, r@.updated_at),
{
    match now_rfc3339() {
        Some(now) => existing.apply_update(body, now.as_str()),
        None => {
            let kept = existing.updated_at.clone();
            existing.apply_update(body, kept.as_str())
        },
    }
}

impl Default for UpdateAnnotation {
    /// The update that changes nothing but the time of the last change.
    fn default() -> (r: UpdateAnnotation)
        ensures
            r.file_path is None,
            r.start_line is None,
            r.end_line is None,
            r.start_column is None,
            r.end_column is None,
            r.selected_text is None,
            r.comment is None,
            r.pre_context_hash is None,
            r.post_context_hash is None,
            r.file_digest is None,
            r.tags is None,
            r.priority is None,
    {
        UpdateAnnotation {
            file_path: None,
            start_line: None,
            end_line: None,
            start_column: None,
            end_column: None,
            selected_text: None,
            comment: None,
            pre_context_hash: None,
            post_context_hash: None,
            file_digest: None,
            tags: None,
            priority: None,
        }
    }
}

} // verus!
