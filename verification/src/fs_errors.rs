//! The errors of the filesystem tools, and the messages they render as.
//! Where a failure carries an underlying error from the filesystem, the
//! pattern compiler or the glob compiler, it is held by its message in
//! `source`; like the tools' own messages, none of them shows it.
use vstd::prelude::*;

use crate::range::LineRangeError;
use crate::text::{dec, push_decimal, push_str};

verus! {

/// A path that could not be placed under the tool's root.
#[derive(Debug, Clone, PartialEq, Eq)]
pub enum ResolveError {
    /// Joining the path onto the root failed.
    ResolvePath { path: String, source: String },
    /// The joined path lies outside the root.
    OutsideRoot { path: String, root: String },
}

/// The message of a resolve error.
pub open spec fn resolve_text(e: ResolveError) -> Seq<char> {
    match e {
        ResolveError::ResolvePath { path, .. } => "resolving "@ + path@,
        ResolveError::OutsideRoot { path, root } => "artifact "@ + path@ + " outside "@ + root@,
    }
}

impl ResolveError {
    /// The error's message.
    pub fn message(&self) -> (s: String)
        ensures
            s@ == resolve_text(*self),
    {
        let mut s = String::new();
        match self {
            ResolveError::ResolvePath { path, .. } => {
                push_str(&mut s, "resolving ");
                push_str(&mut s, path.as_str());
            },
            ResolveError::OutsideRoot { path, root } => {
                push_str(&mut s, "artifact ");
                push_str(&mut s, path.as_str());
                push_str(&mut s, " outside ");
                push_str(&mut s, root.as_str());
            },
        }
        s
    }
}

/// `resolved` placed under `root`: an error when it does not start with the
/// root's text.
pub fn check_under_root(resolved: &str, root: &str) -> (r: Result<(), ResolveError>)
    ensures
        match r {
            Ok(()) => root@.is_prefix_of(resolved@),
            Err(e) => !root@.is_prefix_of(resolved@) && (e matches ResolveError::OutsideRoot { path, root: rt }
                && path@ == resolved@ && rt@ == root@),
        },
{
    if crate::fs_tools::under_root(resolved, root) {
        Ok(())
    } else {
        Err(ResolveError::OutsideRoot { path: resolved.to_owned(), root: root.to_owned() })
    }
}

/// The message of a line-range error.
pub open spec fn line_range_text(e: LineRangeError) -> Seq<char> {
    match e {
        LineRangeError::InvalidStart => "line range start must be >= 1"@,
        LineRangeError::InvalidOrder { start, end } => "line range end "@ + dec(end as nat) + " must be >= start "@
            + dec(start as nat),
    }
}

/// `range end <end> exceeds total lines <total> of <path>`.
pub open spec fn out_of_range_text(path: Seq<char>, end: nat, total_lines: nat) -> Seq<char> {
    "range end "@ + dec(end) + " exceeds total lines "@ + dec(total_lines) + " of "@ + path
}

fn push_out_of_range(s: &mut String, path: &str, end: usize, total_lines: usize)
    ensures
        final(s)@ == old(s)@ + out_of_range_text(path@, end as nat, total_lines as nat),
{
    push_str(s, "range end ");
    push_decimal(s, end as u64);
    push_str(s, " exceeds total lines ");
    push_decimal(s, total_lines as u64);
    push_str(s, " of ");
    push_str(s, path);
    assert(final(s)@ =~= old(s)@ + out_of_range_text(path@, end as nat, total_lines as nat));
}

fn push_prefixed(s: &mut String, prefix: &str, path: &str, suffix: &str)
    ensures
        final(s)@ == old(s)@ + prefix@ + path@ + suffix@,
{
    push_str(s, prefix);
    push_str(s, path);
    push_str(s, suffix);
}

fn line_range_message(e: &LineRangeError) -> (s: String)
    ensures
        s@ == line_range_text(*e),
{
    e.message()
}

/// Why `fs.read` failed.
#[derive(Debug, Clone, PartialEq, Eq)]
pub enum FsReadError {
    Resolve(ResolveError),
    NotAFile { path: String },
    Read { path: String, source: String },
    NotUtf8 { path: String },
    LineRange(LineRangeError),
    OutOfRange { path: String, end: usize, total_lines: usize },
}

/// The message of an `fs.read` error.
pub open spec fn read_error_text(e: FsReadError) -> Seq<char> {
    match e {
        FsReadError::Resolve(r) => resolve_text(r),
        FsReadError::NotAFile { path } => "path "@ + path@ + " is not a file"@,
        FsReadError::Read { path, .. } => "reading "@ + path@,
        FsReadError::NotUtf8 { path } => "file "@ + path@ + " is not valid UTF-8"@,
        FsReadError::LineRange(l) => line_range_text(l),
        FsReadError::OutOfRange { path, end, total_lines } => out_of_range_text(path@, end as nat, total_lines as nat),
    }
}

impl FsReadError {
    /// The error's message.
    pub fn message(&self) -> (s: String)
        ensures
            s@ == read_error_text(*self),
    {
        match self {
            FsReadError::Resolve(r) => r.message(),
            FsReadError::LineRange(l) => line_range_message(l),
            FsReadError::NotAFile { path } => {
                let mut s = String::new();
                push_prefixed(&mut s, "path ", path.as_str(), " is not a file");
                s
            },
            FsReadError::Read { path, .. } => {
                let mut s = String::new();
                push_str(&mut s, "reading ");
                push_str(&mut s, path.as_str());
                s
            },
            FsReadError::NotUtf8 { path } => {
                let mut s = String::new();
                push_prefixed(&mut s, "file ", path.as_str(), " is not valid UTF-8");
                s
            },
            FsReadError::OutOfRange { path, end, total_lines } => {
                let mut s = String::new();
                push_out_of_range(&mut s, path.as_str(), *end, *total_lines);
                s
            },
        }
    }
}

/// Why `fs.edit` failed.
#[derive(Debug, Clone, PartialEq, Eq)]
pub enum FsEditError {
    Resolve(ResolveError),
    NotAFile { path: String },
    Read { path: String, source: String },
    Write { path: String, source: String },
    NotUtf8 { path: String },
    LineRange(LineRangeError),
    OutOfRange { path: String, end: usize, total_lines: usize },
}

/// The message of an `fs.edit` error.
pub open spec fn edit_error_text(e: FsEditError) -> Seq<char> {
    match e {
        FsEditError::Resolve(r) => resolve_text(r),
        FsEditError::NotAFile { path } => "path "@ + path@ + " is not a file"@,
        FsEditError::Read { path, .. } => "reading "@ + path@,
        FsEditError::Write { path, .. } => "writing "@ + path@,
        FsEditError::NotUtf8 { path } => "file "@ + path@ + " is not valid UTF-8"@,
        FsEditError::LineRange(l) => line_range_text(l),
        FsEditError::OutOfRange { path, end, total_lines } => out_of_range_text(path@, end as nat, total_lines as nat),
    }
}

impl FsEditError {
    /// The error's message.
    pub fn message(&self) -> (s: String)
        ensures
            s@ == edit_error_text(*self),
    {
        match self {
            FsEditError::Resolve(r) => r.message(),
            FsEditError::LineRange(l) => line_range_message(l),
            FsEditError::NotAFile { path } => {
                let mut s = String::new();
                push_prefixed(&mut s, "path ", path.as_str(), " is not a file");
                s
            },
            FsEditError::Read { path, .. } => {
                let mut s = String::new();
                push_str(&mut s, "reading ");
                push_str(&mut s, path.as_str());
                s
            },
            FsEditError::Write { path, .. } => {
                let mut s = String::new();
                push_str(&mut s, "writing ");
                push_str(&mut s, path.as_str());
                s
            },
            FsEditError::NotUtf8 { path } => {
                let mut s = String::new();
                push_prefixed(&mut s, "file ", path.as_str(), " is not valid UTF-8");
                s
            },
            FsEditError::OutOfRange { path, end, total_lines } => {
                let mut s = String::new();
                push_out_of_range(&mut s, path.as_str(), *end, *total_lines);
                s
            },
        }
    }
}

/// Why `fs.list` failed.
#[derive(Debug, Clone, PartialEq, Eq)]
pub enum FsListError {
    Resolve(ResolveError),
    NotADirectory { path: String },
    ReadDir { path: String, source: String },
    InvalidGlob { glob: String, source: String },
}

/// The message of an `fs.list` error.
pub open spec fn list_error_text(e: FsListError) -> Seq<char> {
    match e {
        FsListError::Resolve(r) => resolve_text(r),
        FsListError::NotADirectory { path } => "path "@ + path@ + " is not a directory"@,
        FsListError::ReadDir { path, .. } => "reading directory "@ + path@,
        FsListError::InvalidGlob { glob, .. } => "invalid glob "@ + glob@,
    }
}

impl FsListError {
    /// The error's message.
    pub fn message(&self) -> (s: String)
        ensures
            s@ == list_error_text(*self),
    {
        match self {
            FsListError::Resolve(r) => r.message(),
            FsListError::NotADirectory { path } => {
                let mut s = String::new();
                push_prefixed(&mut s, "path ", path.as_str(), " is not a directory");
                s
            },
            FsListError::ReadDir { path, .. } => {
                let mut s = String::new();
                push_str(&mut s, "reading directory ");
                push_str(&mut s, path.as_str());
                s
            },
            FsListError::InvalidGlob { glob, .. } => {
                let mut s = String::new();
                push_str(&mut s, "invalid glob ");
                push_str(&mut s, glob.as_str());
                s
            },
        }
    }
}

/// Why `fs.absent` failed.
#[derive(Debug, Clone, PartialEq, Eq)]
pub enum FsAbsentError {
    Resolve(ResolveError),
    Exists { path: String, source: String },
    Missing { path: String },
    Read { path: String, source: String },
}

/// The message of an `fs.absent` error.
pub open spec fn absent_error_text(e: FsAbsentError) -> Seq<char> {
    match e {
        FsAbsentError::Resolve(r) => resolve_text(r),
        FsAbsentError::Exists { path, .. } => "checking existence of "@ + path@,
        FsAbsentError::Missing { path } => "artifact "@ + path@ + " does not exist"@,
        FsAbsentError::Read { path, .. } => "reading "@ + path@,
    }
}

impl FsAbsentError {
    /// The error's message.
    pub fn message(&self) -> (s: String)
        ensures
            s@ == absent_error_text(*self),
    {
        match self {
            FsAbsentError::Resolve(r) => r.message(),
            FsAbsentError::Exists { path, .. } => {
                let mut s = String::new();
                push_str(&mut s, "checking existence of ");
                push_str(&mut s, path.as_str());
                s
            },
            FsAbsentError::Missing { path } => {
                let mut s = String::new();
                push_prefixed(&mut s, "artifact ", path.as_str(), " does not exist");
                s
            },
            FsAbsentError::Read { path, .. } => {
                let mut s = String::new();
                push_str(&mut s, "reading ");
                push_str(&mut s, path.as_str());
                s
            },
        }
    }
}

/// Why `fs.grep` failed.
#[derive(Debug, Clone, PartialEq, Eq)]
pub enum FsGrepError {
    Resolve(ResolveError),
    NotFound { path: String },
    Read { path: String, source: String },
    ReadDir { path: String, source: String },
    NotUtf8 { path: String },
    InvalidPattern { pattern: String, source: String },
    InvalidGlob { glob: String, source: String },
}

/// The message of an `fs.grep` error.
pub open spec fn grep_error_text(e: FsGrepError) -> Seq<char> {
    match e {
        FsGrepError::Resolve(r) => resolve_text(r),
        FsGrepError::NotFound { path } => "path "@ + path@ + " does not exist"@,
        FsGrepError::Read { path, .. } => "reading "@ + path@,
        FsGrepError::ReadDir { path, .. } => "reading directory "@ + path@,
        FsGrepError::NotUtf8 { path } => "file "@ + path@ + " is not valid UTF-8"@,
        FsGrepError::InvalidPattern { pattern, .. } => "invalid pattern "@ + pattern@,
        FsGrepError::InvalidGlob { glob, .. } => "invalid glob "@ + glob@,
    }
}

impl FsGrepError {
    /// The error's message.
    pub fn message(&self) -> (s: String)
        ensures
            s@ == grep_error_text(*self),
    {
        match self {
            FsGrepError::Resolve(r) => r.message(),
            FsGrepError::NotFound { path } => {
                let mut s = String::new();
                push_prefixed(&mut s, "path ", path.as_str(), " does not exist");
                s
            },
            FsGrepError::Read { path, .. } => {
                let mut s = String::new();
                push_str(&mut s, "reading ");
                push_str(&mut s, path.as_str());
                s
            },
            FsGrepError::ReadDir { path, .. } => {
                let mut s = String::new();
                push_str(&mut s, "reading directory ");
                push_str(&mut s, path.as_str());
                s
            },
            FsGrepError::NotUtf8 { path } => {
                let mut s = String::new();
                push_prefixed(&mut s, "file ", path.as_str(), " is not valid UTF-8");
                s
            },
            FsGrepError::InvalidPattern { pattern, .. } => {
                let mut s = String::new();
                push_str(&mut s, "invalid pattern ");
                push_str(&mut s, pattern.as_str());
                s
            },
            FsGrepError::InvalidGlob { glob, .. } => {
                let mut s = String::new();
                push_str(&mut s, "invalid glob ");
                push_str(&mut s, glob.as_str());
                s
            },
        }
    }
}

} // verus!
