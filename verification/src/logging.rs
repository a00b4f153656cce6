//! Log lines, and when and where a full log file moves.

use crate::calendar::{clock_text, date_text, push_clock, push_date};
use crate::text::last_position;
use vstd::prelude::*;

verus! {

/// Size in bytes from which a log file is moved aside, where the caller sets no other.
pub const DEFAULT_MAX_BYTES: u64 = 10_485_760;

/// How severe a line is.
#[derive(Debug, Clone, Copy, PartialEq, Eq, Structural)]
pub enum Level {
    Info,
    Warn,
    Error,
}

impl Level {
    pub open spec fn name(self) -> Seq<char> {
        match self {
            Level::Info => "INFO"@,
            Level::Warn => "WARN"@,
            Level::Error => "ERROR"@,
        }
    }

    /// The word that stands in brackets in a line.
    pub fn label(self) -> (r: &'static str)
        ensures
            r@ == self.name(),
    {
        match self {
            Level::Info => "INFO",
            Level::Warn => "WARN",
            Level::Error => "ERROR",
        }
    }
}

/// A line: UTC date and time to the millisecond, level, message.
pub open spec fn log_line(level: Level, msg: Seq<char>, secs: int, nanos: int) -> Seq<char> {
    date_text(secs / 86400) + " "@ + clock_text(secs % 86400 * 1000 + nanos / 1000000) + " ["@ + level.name()
        + "] "@ + msg
}

/// The line for a message at the time `secs` seconds and `nanos` nanoseconds after the Unix epoch.
pub fn format_line(level: Level, msg: &str, secs: i64, nanos: u32) -> (r: String)
    requires
        secs >= 0,
        nanos < 1_000_000_000,
    ensures
        r@ == log_line(level, msg@, secs as int, nanos as int),
{
    let mut out = String::new();
    let whole: u64 = secs as u64;
    push_date(&mut out, (whole / 86_400) as i64);
    assert(out@ =~= date_text(secs as int / 86400));
    out.append(" ");
    push_clock(&mut out, whole % 86_400 * 1000 + (nanos / 1_000_000) as u64);
    out.append(" [");
    out.append(level.label());
    out.append("] ");
    out.append(msg);
    out
}

/// Whether a file of `len` bytes is moved aside before the next line.
pub fn needs_rotation(len: u64, max_bytes: u64) -> (r: bool)
    ensures
        r == (len > max_bytes),
{
    len > max_bytes
}

/// What follows the last slash of a path.
pub open spec fn last_name(path: Seq<char>) -> Seq<char> {
    match last_position(path, '/') {
        Some(i) => path.skip(i + 1),
        None => path,
    }
}

/// What stands before the last slash of a path, where it has one.
pub open spec fn dir_of(path: Seq<char>) -> Option<Seq<char>> {
    match last_position(path, '/') {
        Some(i) => Some(path.take(i)),
        None => None,
    }
}

/// Whether a name is one on every platform: nothing in it separates, and it is no `.` or `..`.
pub open spec fn is_plain_name(name: Seq<char>) -> bool {
    &&& name.len() > 0
    &&& forall|i: int| 0 <= i < name.len() ==> #[trigger] name[i] != '/' && name[i] != '\\' && name[i] != ':'
    &&& name != seq!['.']
    &&& name != seq!['.', '.']
}

/// Whether a path begins with two separators, as the name of a share does on some platforms.
pub open spec fn begins_as_share(path: Seq<char>) -> bool {
    path.len() >= 2 && (path[0] == '/' || path[0] == '\\') && (path[1] == '/' || path[1] == '\\')
}

/// Whether a path ends in a plain name, in no directory, in the root, or in one with a plain name.
pub open spec fn is_plain_path(path: Seq<char>) -> bool {
    &&& !begins_as_share(path)
    &&& is_plain_name(last_name(path))
    &&& dir_of(path) matches Some(dir) ==> dir.len() == 0 || is_plain_name(last_name(dir))
}

/// The path of a file called `name` in the directory of `path`.
pub open spec fn beside(path: Seq<char>, name: Seq<char>, separator: char) -> Seq<char> {
    match dir_of(path) {
        Some(dir) => dir.push(separator) + name,
        None => name,
    }
}

/// Whether `r` is a path to `name` beside `path`. Behind a directory some platforms write a backslash.
pub open spec fn is_beside(r: Seq<char>, path: Seq<char>, name: Seq<char>) -> bool {
    ||| r == beside(path, name, '/')
    ||| dir_of(path) matches Some(dir) && dir.len() > 0 && r == beside(path, name, '\\')
}

/// `Path::file_name`, which gives the last name of a path, and none where the path is empty or ends
/// in `..`. What separates names, and what else has no name, is the platform's: that is left unsaid.
#[verifier::external_body]
fn file_name_of(path: &str) -> (r: Option<String>)
    ensures
        is_plain_name(last_name(path@)) && !begins_as_share(path@) ==> r is Some && r->0@ == last_name(path@),
        path@.len() == 0 || (last_name(path@) == seq!['.', '.'] && !begins_as_share(path@)) ==> r is None,
{
    match std::path::Path::new(path).file_name() {
        Some(name) => Some(name.to_string_lossy().into_owned()),
        None => None,
    }
}

/// `Path::with_file_name`, which gives a sibling of the path with another name. What other paths
/// become, and which separator is written, is the platform's: that is left unsaid.
#[verifier::external_body]
fn with_file_name(path: &str, name: &str) -> (r: String)
    ensures
        is_plain_path(path@) && is_plain_name(name@) ==> is_beside(r@, path@, name@),
{
    std::path::Path::new(path).with_file_name(name).to_string_lossy().into_owned()
}

/// The name that a full log file gets: `.1` behind its own.
pub fn backup_name(name: &str) -> (r: String)
    ensures
        r@ == name@ + ".1"@,
{
    let mut out = name.to_owned();
    out.append(".1");
    out
}

/// The path that the file at `path` is moved to when it is full: `.1` behind its name, in the same
/// directory. A path that ends in no file name stays. What a name is, the platform decides.
pub fn backup_path(path: &str) -> (r: String)
    ensures
        is_plain_path(path@) ==> is_beside(r@, path@, last_name(path@) + ".1"@),
        path@.len() == 0 || (last_name(path@) == seq!['.', '.'] && !begins_as_share(path@)) ==> r@ == path@,
{
    match file_name_of(path) {
        None => path.to_owned(),
        Some(name) => {
            let moved = backup_name(name.as_str());
            proof {
                reveal_strlit(".1");
                if is_plain_name(name@) {
                    lemma_backup_name_is_plain(name@);
                }
            }
            with_file_name(path, moved.as_str())
        },
    }
}

/// The name of a backup is as plain as that of its file.
proof fn lemma_backup_name_is_plain(name: Seq<char>)
    requires
        is_plain_name(name),
    ensures
        is_plain_name(name + ".1"@),
{
    reveal_strlit(".1");
    let moved = name + ".1"@;
    assert forall|i: int| 0 <= i < moved.len() implies #[trigger] moved[i] != '/' && moved[i] != '\\' && moved[i]
        != ':' by {
        if i < name.len() {
            assert(moved[i] == name[i]);
        }
    }
    assert(moved.last() == '1');
}

} // verus!
