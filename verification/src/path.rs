//! The extension of a file path, as `std::path::Path::extension` finds it on
//! Unix.

use vstd::prelude::*;
use vstd::string::*;
use crate::errors::{CodecErrorView, OwCodecError};

verus! {

/// Index of the last occurrence of `c` in `s`, or -1 when there is none.
pub open spec fn last_index(s: Seq<char>, c: char) -> int
    decreases s.len(),
{
    if s.len() == 0 {
        -1
    } else if s.last() == c {
        s.len() - 1
    } else {
        last_index(s.drop_last(), c)
    }
}

/// The final component of a Unix path: trailing slashes and `.` components
/// are skipped; there is none when the path has no component left or ends in
/// `..`.
pub open spec fn file_name(p: Seq<char>) -> Option<Seq<char>>
    decreases p.len(),
{
    if p.len() == 0 {
        None
    } else if p.last() == '/' {
        file_name(p.drop_last())
    } else {
        let k = last_index(p, '/') + 1;
        let piece = p.subrange(k, p.len() as int);
        if piece == seq!['.'] {
            proof {
                lemma_last_index_bounds(p, '/');
            }
            file_name(p.subrange(0, k))
        } else if piece == seq!['.', '.'] {
            None
        } else {
            Some(piece)
        }
    }
}

/// The extension of a path: the part of its file name after the final `.`;
/// there is none when there is no file name, when the name has no `.`, or
/// when its only `.` is its first character.
pub open spec fn extension(p: Seq<char>) -> Option<Seq<char>> {
    match file_name(p) {
        None => None,
        Some(name) => {
            let d = last_index(name, '.');
            if d <= 0 {
                None
            } else {
                Some(name.subrange(d + 1, name.len() as int))
            }
        },
    }
}

/// Where the last occurrence of `c` in `s` stands.
pub proof fn lemma_last_index_bounds(s: Seq<char>, c: char)
    ensures
        -1 <= last_index(s, c) < s.len(),
        last_index(s, c) >= 0 ==> s[last_index(s, c)] == c,
        forall|i: int| last_index(s, c) < i < s.len() ==> s[i] != c,
    decreases s.len(),
{
    if s.len() > 0 && s.last() != c {
        lemma_last_index_bounds(s.drop_last(), c);
        assert forall|i: int| last_index(s, c) < i < s.len() implies s[i] != c by {
            if i < s.len() - 1 {
                assert(s[i] == s.drop_last()[i]);
            }
        }
    }
}

/// The index of the last `c` among the first `end` characters of `s`.
fn last_index_before(s: &str, end: usize, c: char) -> (r: Option<usize>)
    requires
        end <= s@.len(),
    ensures
        match r {
            Some(i) => i == last_index(s@.take(end as int), c),
            None => last_index(s@.take(end as int), c) == -1,
        },
{
    let mut j = end;
    while j > 0
        invariant
            j <= end <= s@.len(),
            last_index(s@.take(end as int), c) == last_index(s@.take(j as int), c),
        decreases j,
    {
        assert(s@.take(j as int).drop_last() == s@.take(j - 1));
        if s.get_char(j - 1) == c {
            return Some(j - 1);
        }
        j = j - 1;
    }
    None
}

/// Position `(start, end)` of the file name of `s` in its characters.
fn file_name_range(s: &str) -> (r: Option<(usize, usize)>)
    ensures
        match r {
            Some((k, e)) => k <= e <= s@.len()
                && file_name(s@) == Some(s@.subrange(k as int, e as int)),
            None => file_name(s@) is None,
        },
{
    let len = s.unicode_len();
    let mut end = len;
    assert(s@.take(len as int) == s@);
    while end > 0
        invariant
            len == s@.len(),
            end <= len,
            file_name(s@) == file_name(s@.take(end as int)),
        decreases end,
    {
        let ghost p = s@.take(end as int);
        if s.get_char(end - 1) == '/' {
            assert(p.drop_last() == s@.take(end - 1));
            end = end - 1;
        } else {
            proof { lemma_last_index_bounds(p, '/'); }
            let k = match last_index_before(s, end, '/') {
                Some(i) => i + 1,
                None => 0,
            };
            proof { lemma_last_index_bounds(p, '/'); }
            let piece = s.substring_char(k, end);
            assert(piece@ == p.subrange(k as int, p.len() as int));
            let piece_len = piece.unicode_len();
            if piece_len == 1 && piece.get_char(0) == '.' {
                assert(piece@ == seq!['.']);
                assert(p.subrange(0, k as int) == s@.take(k as int));
                end = k;
            } else if piece_len == 2 && piece.get_char(0) == '.' && piece.get_char(1) == '.' {
                assert(piece@ == seq!['.', '.']);
                return None;
            } else {
                assert(piece@ != seq!['.']);
                assert(piece@ != seq!['.', '.']);
                return Some((k, end));
            }
        }
    }
    None
}

/// The extension of `path`, as `Path::extension` gives it, or
/// `FileExtensionExtraction` with the path when it has none.
pub fn extract_file_extension(path: &str) -> (res: Result<&str, OwCodecError>)
    ensures
        match res {
            Ok(ext) => extension(path@) == Some(ext@),
            Err(e) => extension(path@) is None
                && e@ == CodecErrorView::FileExtensionExtraction(path@),
        },
{
    match file_name_range(path) {
        None => Err(OwCodecError::FileExtensionExtraction(path.to_owned())),
        Some((k, e)) => {
            let ghost name = path@.subrange(k as int, e as int);
            let name_str = path.substring_char(k, e);
            proof { lemma_last_index_bounds(name, '.'); }
            let name_len = name_str.unicode_len();
            assert(name_str@.take(name_len as int) == name);
            match last_index_before(name_str, name_len, '.') {
                Some(d) => {
                    if d == 0 {
                        Err(OwCodecError::FileExtensionExtraction(path.to_owned()))
                    } else {
                        Ok(path.substring_char(k + d + 1, e))
                    }
                },
                None => Err(OwCodecError::FileExtensionExtraction(path.to_owned())),
            }
        },
    }
}

} // verus!
