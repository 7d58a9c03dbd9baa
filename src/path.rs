use vstd::prelude::*;
use vstd::string::{StrSliceExecFns, StringExecFns};

verus! {

/// The index just past the last `/` among the first `end` characters of `s`,
/// or 0 when there is none.
pub open spec fn segment_start(s: Seq<char>, end: int) -> int
    decreases end,
{
    if end <= 0 {
        0
    } else if s[end - 1] == '/' {
        end
    } else {
        segment_start(s, end - 1)
    }
}

/// The last normal component of the first `end` characters of the path `s`.
/// Empty and `.` segments are passed over, as separators and current-directory
/// marks are; a final `..`, a root alone or nothing at all give no name.
pub open spec fn file_name_before(s: Seq<char>, end: int) -> Option<Seq<char>>
    decreases end
    via file_name_before_decreases
{
    if end <= 0 {
        None
    } else {
        let start = segment_start(s, end);
        let seg = s.subrange(start, end);
        if seg.len() == 0 || seg == seq!['.'] {
            if start <= 0 {
                None
            } else {
                file_name_before(s, start - 1)
            }
        } else if seg == seq!['.', '.'] {
            None
        } else {
            Some(seg)
        }
    }
}

/// The final component of a path, if it has one.
pub open spec fn file_name_of(path: Seq<char>) -> Option<Seq<char>> {
    file_name_before(path, path.len() as int)
}

/// `s` ends with `suffix`.
pub open spec fn ends_with(s: Seq<char>, suffix: Seq<char>) -> bool {
    suffix.len() <= s.len() && s.subrange(s.len() - suffix.len(), s.len() as int) == suffix
}

/// The final component of `path` ends with `suffix`.
pub open spec fn name_has_suffix(path: Seq<char>, suffix: Seq<char>) -> bool {
    match file_name_of(path) {
        Some(name) => ends_with(name, suffix),
        None => false,
    }
}

/// The Markdown list item that links to `path` under its file name, or under
/// the whole path when it has no final component.
pub open spec fn markdown_line(path: Seq<char>) -> Seq<char> {
    let name = match file_name_of(path) {
        Some(name) => name,
        None => path,
    };
    "- ["@ + name + "]("@ + path + ")"@
}

#[via_fn]
proof fn file_name_before_decreases(s: Seq<char>, end: int) {
    lemma_segment_start_bounds(s, end);
}

proof fn lemma_segment_start_bounds(s: Seq<char>, end: int)
    ensures
        end >= 0 ==> 0 <= segment_start(s, end) <= end,
    decreases end,
{
    if end > 0 && s[end - 1] != '/' {
        lemma_segment_start_bounds(s, end - 1);
    }
}

/// The final component of `path`: the last segment between separators that is
/// neither empty nor `.`, unless that one is `..`.
pub fn file_name(path: &str) -> (r: Option<&str>)
    ensures
        r matches Some(n) ==> file_name_of(path@) == Some(n@),
        r is None ==> file_name_of(path@) is None,
{
    let s = Ghost(path@);
    let mut end = path.unicode_len();
    loop
        invariant
            s@ == path@,
            end <= path@.len(),
            file_name_before(s@, end as int) == file_name_of(s@),
        decreases end,
    {
        if end == 0 {
            return None;
        }
        let mut start = end;
        while start > 0 && path.get_char(start - 1) != '/'
            invariant
                s@ == path@,
                start <= end <= path@.len(),
                segment_start(s@, start as int) == segment_start(s@, end as int),
            decreases start,
        {
            start = start - 1;
        }
        assert(segment_start(s@, start as int) == start);
        let len = end - start;
        let seg = path.substring_char(start, end);
        let first = if len > 0 {
            path.get_char(start)
        } else {
            '/'
        };
        let dot = len == 1 && first == '.';
        if len == 0 || dot {
            assert(dot ==> seg@ =~= seq!['.']);
            if start == 0 {
                return None;
            }
            end = start - 1;
        } else if len == 2 && first == '.' && path.get_char(start + 1) == '.' {
            assert(seg@ =~= seq!['.', '.']);
            return None;
        } else {
            assert(seg@ != seq!['.']) by {
                if seg@ == seq!['.'] {
                    assert(seg@.len() == 1);
                    assert(len == 1);
                    assert(seg@[0] == path@[start as int]);
                    assert(first == '.');
                    assert(dot);
                }
            }
            assert(seg@ != seq!['.', '.']) by {
                if seg@ == seq!['.', '.'] {
                    assert(seg@[0] == path@[start as int]);
                    assert(seg@[1] == path@[start + 1]);
                }
            }
            return Some(seg);
        }
    }
}

/// Whether the final component of `path` ends with `suffix`, compared character
/// for character. A path without a final component has no suffix.
pub fn has_suffix(path: &str, suffix: &str) -> (r: bool)
    ensures
        r == name_has_suffix(path@, suffix@),
{
    match file_name(path) {
        None => false,
        Some(name) => {
            let n = name.unicode_len();
            let k = suffix.unicode_len();
            if k > n {
                return false;
            }
            let mut i: usize = 0;
            while i < k
                invariant
                    file_name_of(path@) == Some(name@),
                    k <= n,
                    n == name@.len(),
                    k == suffix@.len(),
                    i <= k,
                    forall|j: int| 0 <= j < i ==> name@[n - k + j] == suffix@[j],
                decreases k - i,
            {
                let a = name.get_char(n - k + i);
                let b = suffix.get_char(i);
                if a != b {
                    let ghost sub = name@.subrange(n - k, n as int);
                    assert(sub[i as int] == name@[n - k + i]);
                    assert(sub[i as int] != suffix@[i as int]);
                    assert(sub != suffix@);
                    assert(!ends_with(name@, suffix@));
                    return false;
                }
                i = i + 1;
            }
            assert(name@.subrange(n - k, n as int) =~= suffix@);
            true
        },
    }
}

/// Renders `path` as a Markdown list item, `- [<file name>](<path>)`, with the
/// whole path standing for the file name when it has no final component.
pub fn format_as_markdown(path: &str) -> (r: String)
    ensures
        r@ == markdown_line(path@),
{
    let name = match file_name(path) {
        Some(n) => n,
        None => path,
    };
    let mut r = String::from_str("- [");
    r.append(name);
    r.append("](");
    r.append(path);
    r.append(")");
    r
}

} // verus!
