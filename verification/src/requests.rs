//! What the requests of the interface carry, and the values that stand in for
//! what a request leaves out.

use crate::annotation::Annotation;
use crate::files::{CoreError, WriteError};
use crate::resync::DEFAULT_WINDOW;
use crate::verification::DEFAULT_FULL_LIMIT;
use vstd::prelude::*;
use vstd::string::StringExecFns;

verus! {

/// The number of lines of a window of a file, where the request names none.
pub const DEFAULT_MAX_LINES: usize = 2000;

/// The greatest number of lines of a window of a file.
pub const MAX_LINES_CAP: usize = 5000;

/// The least window of a pass that a request may ask for.
pub const MIN_WINDOW: usize = 1;

/// The greatest window of a pass that a request may ask for.
pub const MAX_WINDOW: usize = 2000;

/// The budget of a prompt where the request names none.
pub const DEFAULT_MAX_CHARS: usize = 4000;

/// The least budget of a prompt that a request may ask for.
pub const MIN_MAX_CHARS: usize = 200;

/// The greatest budget of a prompt that a request may ask for.
pub const MAX_MAX_CHARS: usize = 200000;

/// A request for the entries of a directory.
#[derive(Debug, Clone)]
pub struct TreeQuery {
    pub dir: Option<String>,
}

/// A request for a window of a file.
#[derive(Debug, Clone)]
pub struct FileQuery {
    pub path: String,
    pub start_line: Option<usize>,
    pub max_lines: Option<usize>,
}

/// A request for a file as a whole.
#[derive(Debug, Clone)]
pub struct FileFullQuery {
    pub path: String,
}

/// A request to write a file.
#[derive(Debug, Clone)]
pub struct SaveBody {
    pub path: String,
    pub content: String,
    pub base_digest: Option<String>,
}

/// How a prompt is to be made.
#[derive(Debug, Clone)]
pub struct StitchQuery {
    pub template_id: Option<String>,
    pub max_chars: Option<usize>,
}

/// Which annotations a prompt is to be made of.
#[derive(Debug, Clone)]
pub struct StitchBody {
    pub annotation_ids: Option<Vec<String>>,
}

/// A request to check the annotations of a file.
#[derive(Debug, Clone)]
pub struct VerifyBody {
    pub file_path: Option<String>,
    pub ids: Option<Vec<String>>,
    pub window: Option<usize>,
    pub full_limit_bytes: Option<usize>,
    pub remove_broken: Option<bool>,
}

/// A batch of annotations to import, with or without the marker of its schema.
#[derive(Debug, Clone)]
pub enum ImportPayload {
    Bundle { schema_version: String, annotations: Vec<Annotation> },
    Direct { annotations: Vec<Annotation> },
}

/// `x`, or the bound of `lo..=hi` that it lies beyond.
pub open spec fn clamped(x: int, lo: int, hi: int) -> int {
    if x < lo {
        lo
    } else if x > hi {
        hi
    } else {
        x
    }
}

impl TreeQuery {
    /// The directory asked for, the root where none is named.
    pub fn dir_or_root(&self) -> (r: String)
        ensures
            r@ == match self.dir {
                Some(d) => d@,
                None => "."@,
            },
    {
        match &self.dir {
            Some(d) => d.clone(),
            None => ".".to_owned(),
        }
    }
}

impl FileQuery {
    /// The first line of the window: the one asked for, or 1.
    pub fn first_line(&self) -> (r: usize)
        ensures
            r == match self.start_line {
                Some(s) => s,
                None => 1,
            },
    {
        match self.start_line {
            Some(s) => s,
            None => 1,
        }
    }

    /// The number of lines of the window: the one asked for, or 2000, and at
    /// most 5000.
    pub fn line_count(&self) -> (r: usize)
        ensures
            r == match self.max_lines {
                Some(m) => if m > MAX_LINES_CAP {
                    MAX_LINES_CAP
                } else {
                    m
                },
                None => DEFAULT_MAX_LINES,
            },
    {
        match self.max_lines {
            Some(m) => if m > MAX_LINES_CAP {
                MAX_LINES_CAP
            } else {
                m
            },
            None => DEFAULT_MAX_LINES,
        }
    }
}

impl StitchQuery {
    /// The budget of the prompt: the one asked for, or 4000, and within 200
    /// to 200000.
    pub fn budget(&self) -> (r: usize)
        ensures
            r == clamped(
                match self.max_chars {
                    Some(m) => m as int,
                    None => DEFAULT_MAX_CHARS as int,
                },
                MIN_MAX_CHARS as int,
                MAX_MAX_CHARS as int,
            ),
    {
        let m = match self.max_chars {
            Some(m) => m,
            None => DEFAULT_MAX_CHARS,
        };
        if m < MIN_MAX_CHARS {
            MIN_MAX_CHARS
        } else if m > MAX_MAX_CHARS {
            MAX_MAX_CHARS
        } else {
            m
        }
    }
}

impl VerifyBody {
    /// The window of the pass: the one asked for, or 40, and within 1 to 2000.
    pub fn window_lines(&self) -> (r: usize)
        ensures
            r == clamped(
                match self.window {
                    Some(w) => w as int,
                    None => DEFAULT_WINDOW as int,
                },
                MIN_WINDOW as int,
                MAX_WINDOW as int,
            ),
    {
        let w = match self.window {
            Some(w) => w,
            None => DEFAULT_WINDOW,
        };
        if w < MIN_WINDOW {
            MIN_WINDOW
        } else if w > MAX_WINDOW {
            MAX_WINDOW
        } else {
            w
        }
    }

    /// The ceiling for the whole text: the one asked for, or 5 MiB.
    pub fn full_limit(&self) -> (r: usize)
        ensures
            r == match self.full_limit_bytes {
                Some(l) => l,
                None => DEFAULT_FULL_LIMIT,
            },
    {
        match self.full_limit_bytes {
            Some(l) => l,
            None => DEFAULT_FULL_LIMIT,
        }
    }

    /// Whether lost annotations are removed: as asked for, and they are where
    /// the request does not say.
    pub fn removes_broken(&self) -> (r: bool)
        ensures
            r == match self.remove_broken {
                Some(b) => b,
                None => true,
            },
    {
        match self.remove_broken {
            Some(b) => b,
            None => true,
        }
    }
}

impl ImportPayload {
    /// The annotations of the batch.
    pub fn into_annotations(self) -> (r: Vec<Annotation>)
        ensures
            r == match self {
                ImportPayload::Bundle { schema_version, annotations } => annotations,
                ImportPayload::Direct { annotations } => annotations,
            },
    {
        match self {
            ImportPayload::Bundle { schema_version, annotations } => annotations,
            ImportPayload::Direct { annotations } => annotations,
        }
    }
}

/// The code under which a refusal to read is reported.
pub open spec fn read_error_code(e: CoreError) -> Seq<char> {
    match e {
        CoreError::InvalidPath => "INVALID_PATH"@,
        CoreError::NotFound => "NOT_FOUND"@,
        CoreError::NotAFile => "NOT_FILE"@,
        CoreError::NonText => "NON_TEXT"@,
        CoreError::OverLimit => "OVER_LIMIT"@,
        CoreError::Io(_) => "INTERNAL"@,
    }
}

/// The status with which a refusal to read is answered: 415 for what is no
/// text, 413 for what is too large, 500 where the system failed, and 400 for
/// any trouble with the path.
pub open spec fn read_error_status(e: CoreError) -> u16 {
    match e {
        CoreError::NonText => 415,
        CoreError::OverLimit => 413,
        CoreError::Io(_) => 500,
        _ => 400,
    }
}

/// What a refusal to read says.
pub open spec fn read_error_message(e: CoreError) -> Seq<char> {
    match e {
        CoreError::InvalidPath => "invalid path"@,
        CoreError::NotFound => "not found"@,
        CoreError::NotAFile => "not a file"@,
        CoreError::NonText => "non-text file"@,
        CoreError::OverLimit => "file too large for full read"@,
        CoreError::Io(m) => "io error: "@ + m@,
    }
}

impl CoreError {
    /// What the refusal says.
    pub fn message(&self) -> (r: String)
        ensures
            r@ == read_error_message(*self),
    {
        match self {
            CoreError::InvalidPath => "invalid path".to_owned(),
            CoreError::NotFound => "not found".to_owned(),
            CoreError::NotAFile => "not a file".to_owned(),
            CoreError::NonText => "non-text file".to_owned(),
            CoreError::OverLimit => "file too large for full read".to_owned(),
            CoreError::Io(m) => {
                let mut out = "io error: ".to_owned();
                out.append(m.as_str());
                out
            },
        }
    }

    /// The code under which the refusal is reported.
    pub fn code(&self) -> (r: String)
        ensures
            r@ == read_error_code(*self),
    {
        match self {
            CoreError::InvalidPath => "INVALID_PATH".to_owned(),
            CoreError::NotFound => "NOT_FOUND".to_owned(),
            CoreError::NotAFile => "NOT_FILE".to_owned(),
            CoreError::NonText => "NON_TEXT".to_owned(),
            CoreError::OverLimit => "OVER_LIMIT".to_owned(),
            CoreError::Io(_) => "INTERNAL".to_owned(),
        }
    }

    /// The status with which the refusal is answered.
    pub fn status(&self) -> (r: u16)
        ensures
            r == read_error_status(*self),
    {
        match self {
            CoreError::NonText => 415,
            CoreError::OverLimit => 413,
            CoreError::Io(_) => 500,
            _ => 400,
        }
    }
}

impl WriteError {
    /// The code under which the refusal is reported.
    pub fn code(&self) -> (r: String)
        ensures
            r@ == match *self {
                WriteError::Conflict { current_digest } => "CONFLICT"@,
                WriteError::Io(_) => "INTERNAL"@,
            },
    {
        match self {
            WriteError::Conflict { current_digest } => "CONFLICT".to_owned(),
            WriteError::Io(_) => "INTERNAL".to_owned(),
        }
    }

    /// The status with which the refusal is answered: 409 for a conflict, 500
    /// where the system failed.
    pub fn status(&self) -> (r: u16)
        ensures
            r == match *self {
                WriteError::Conflict { current_digest } => 409u16,
                WriteError::Io(_) => 500u16,
            },
    {
        match self {
            WriteError::Conflict { current_digest } => 409,
            WriteError::Io(_) => 500,
        }
    }
}

} // verus!
