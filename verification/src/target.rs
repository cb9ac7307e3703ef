//! The download target and the names derived from it.
//!
//! A `DownloadTarget` holds the URL that the metadata fetch resolved.  The
//! destination file is named by the last `/`-delimited segment of that URL,
//! or by the fixed fallback name when that segment is empty.

use vstd::prelude::*;

verus! {

/// Scans `s` backwards from position `i`: the characters after the last
/// `'/'` strictly before `i`, or all of `s` if there is none.
pub open spec fn last_segment_from(s: Seq<char>, i: int) -> Seq<char>
    decreases i,
{
    if i <= 0 {
        s
    } else if s[i - 1] == '/' {
        s.subrange(i, s.len() as int)
    } else {
        last_segment_from(s, i - 1)
    }
}

/// The characters after the last `'/'` of `s`, or all of `s` if it has none.
pub open spec fn last_segment(s: Seq<char>) -> Seq<char> {
    last_segment_from(s, s.len() as int)
}

/// The destination file name for a URL: its last `/`-delimited segment, or
/// the fallback name `downloaded_file` when the URL has no such segment.
pub open spec fn spec_file_name(url: Seq<char>) -> Seq<char> {
    if last_segment(url).len() == 0 {
        "downloaded_file"@
    } else {
        last_segment(url)
    }
}

/// Derives the destination file name from a URL.
pub fn derive_file_name(url: &str) -> (name: String)
    ensures
        name@ == spec_file_name(url@),
{
    let len = url.unicode_len();
    let mut i = len;
    while i > 0
        invariant
            i <= len,
            len == url@.len(),
            last_segment(url@) == last_segment_from(url@, i as int),
        decreases i,
    {
        let c = url.get_char(i - 1);
        if c == '/' {
            let seg = url.substring_char(i, len);
            if seg.unicode_len() == 0 {
                return String::from_str("downloaded_file");
            } else {
                return String::from_str(seg);
            }
        }
        i -= 1;
    }
    if url.unicode_len() == 0 {
        String::from_str("downloaded_file")
    } else {
        String::from_str(url)
    }
}

/// The resolved resource to download: the URL the metadata fetch produced.
pub struct DownloadTarget {
    pub url: String,
}

impl DownloadTarget {
    /// The name of the destination file for this target.
    pub fn file_name(&self) -> (name: String)
        ensures
            name@ == spec_file_name(self.url@),
    {
        derive_file_name(self.url.as_str())
    }
}

/// The one-line completion summary naming the source URL and the
/// destination file.
pub open spec fn spec_completion_line(url: Seq<char>, file_name: Seq<char>) -> Seq<char> {
    "Downloaded "@ + url + " to "@ + file_name
}

/// Builds the completion summary line.
pub fn completion_line(url: &str, file_name: &str) -> (line: String)
    ensures
        line@ == spec_completion_line(url@, file_name@),
{
    let mut line = String::from_str("Downloaded ");
    line.append(url);
    line.append(" to ");
    line.append(file_name);
    proof {
        assert(line@ =~= spec_completion_line(url@, file_name@));
    }
    line
}

} // verus!
