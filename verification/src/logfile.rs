//! Where a session log goes. The log is plain text appended to a file (so
//! re-opening the same path keeps earlier sessions); creating the directories,
//! opening and writing the file are the caller's part.
use vstd::prelude::*;

use crate::text::{string_from_chars, trim, trim_chars};

verus! {

/// A log-file path as the user wrote it, trimmed.
#[derive(Debug, Clone)]
pub enum LogPath {
    /// A path used as written.
    Plain(String),
    /// A path starting with `~/`: `rest` is what follows, to be joined to
    /// the home directory; `written` is the whole path, used as is when
    /// there is no home directory.
    UnderHome { rest: String, written: String },
}

/// The path starts with `~/`.
pub open spec fn under_home(p: Seq<char>) -> bool {
    p.len() >= 2 && p[0] == '~' && p[1] == '/'
}

/// Reads the path typed for a log file: surrounding whitespace is ignored,
/// an empty path is refused, and a leading `~/` marks a path under the home
/// directory.
pub fn log_path(path: &str) -> (r: Result<LogPath, String>)
    ensures
        match r {
            Err(m) => trim(path@).len() == 0 && m@ == "Enter a log file path"@,
            Ok(LogPath::UnderHome { rest, written }) => trim(path@).len() > 0 && under_home(
                trim(path@),
            ) && rest@ == trim(path@).skip(2) && written@ == trim(path@),
            Ok(LogPath::Plain(p)) => trim(path@).len() > 0 && !under_home(trim(path@)) && p@ == trim(
                path@,
            ),
        },
{
    let t = trim_chars(path);
    if t.len() == 0 {
        return Err(String::from_str("Enter a log file path"));
    }
    let written = string_from_chars(t.as_slice());
    if t.len() >= 2 && t[0] == '~' && t[1] == '/' {
        let mut rest_chars: Vec<char> = Vec::new();
        let mut i: usize = 2;
        while i < t.len()
            invariant
                2 <= i <= t.len(),
                rest_chars@ == t@.subrange(2, i as int),
            decreases t.len() - i,
        {
            rest_chars.push(t[i]);
            i = i + 1;
            proof {
                assert(t@.subrange(2, i as int) =~= t@.subrange(2, i - 1).push(t@[i - 1]));
            }
        }
        let rest = string_from_chars(rest_chars.as_slice());
        proof {
            assert(t@.subrange(2, t.len() as int) =~= t@.skip(2));
        }
        Ok(LogPath::UnderHome { rest, written })
    } else {
        Ok(LogPath::Plain(written))
    }
}

} // verus!
