//! The content type the local file server sends for a path, chosen by the
//! path's extension the way `std::path::Path` finds it.

use vstd::prelude::*;
use crate::text::{chars_of, lower, lower_vec, seq_eq, slice_of, split_on, split_pieces};

verus! {

broadcast use vstd::string::group_string_axioms;

/// The last component of a `/`-separated path that names something: empty
/// components and `.` are skipped.
pub open spec fn last_normal(parts: Seq<Seq<char>>) -> Option<Seq<char>>
    decreases parts.len(),
{
    if parts.len() == 0 {
        None
    } else if parts.last().len() == 0 || parts.last() == seq!['.'] {
        last_normal(parts.drop_last())
    } else {
        Some(parts.last())
    }
}

/// `Path::file_name`: the last named component, unless it is `..`.
pub open spec fn file_name(path: Seq<char>) -> Option<Seq<char>> {
    match last_normal(split_on(path, '/')) {
        Some(n) => if n == seq!['.', '.'] {
            None
        } else {
            Some(n)
        },
        None => None,
    }
}

/// Index of the last `.` of `s`, if any.
pub open spec fn last_dot(s: Seq<char>) -> Option<int>
    decreases s.len(),
{
    if s.len() == 0 {
        None
    } else if s.last() == '.' {
        Some(s.len() - 1)
    } else {
        last_dot(s.drop_last())
    }
}

/// `Path::extension`: what follows the last `.` of the file name, unless that
/// `.` is the name's first character.
pub open spec fn extension(path: Seq<char>) -> Option<Seq<char>> {
    match file_name(path) {
        Some(n) => match last_dot(n) {
            Some(k) => if k == 0 {
                None
            } else {
                Some(n.skip(k + 1))
            },
            None => None,
        },
        None => None,
    }
}

/// The content type for a lower-cased extension.
pub open spec fn mime_for(ext: Seq<char>) -> Seq<char> {
    if ext == "pdf"@ {
        "application/pdf"@
    } else if ext == "html"@ || ext == "htm"@ {
        "text/html"@
    } else if ext == "png"@ {
        "image/png"@
    } else if ext == "jpg"@ || ext == "jpeg"@ {
        "image/jpeg"@
    } else if ext == "gif"@ {
        "image/gif"@
    } else if ext == "svg"@ {
        "image/svg+xml"@
    } else if ext == "css"@ {
        "text/css"@
    } else if ext == "js"@ {
        "application/javascript"@
    } else {
        "application/octet-stream"@
    }
}

/// The content type of `path`, by its extension compared case-insensitively
/// (`application/octet-stream` when there is none or it is unknown).
pub open spec fn guess_mime_spec(path: Seq<char>) -> Seq<char> {
    match extension(path) {
        Some(e) => mime_for(lower(e)),
        None => "application/octet-stream"@,
    }
}

fn is_word(v: &Vec<char>, w: &str) -> (r: bool)
    ensures
        r == (v@ == w@),
{
    let wv = chars_of(w);
    seq_eq(v, &wv)
}

fn mime_for_exec(ext: &Vec<char>) -> (r: &'static str)
    ensures
        r@ == mime_for(ext@),
{
    if is_word(ext, "pdf") {
        "application/pdf"
    } else if is_word(ext, "html") || is_word(ext, "htm") {
        "text/html"
    } else if is_word(ext, "png") {
        "image/png"
    } else if is_word(ext, "jpg") || is_word(ext, "jpeg") {
        "image/jpeg"
    } else if is_word(ext, "gif") {
        "image/gif"
    } else if is_word(ext, "svg") {
        "image/svg+xml"
    } else if is_word(ext, "css") {
        "text/css"
    } else if is_word(ext, "js") {
        "application/javascript"
    } else {
        "application/octet-stream"
    }
}

/// The file name of `path` (see `file_name`).
fn file_name_of(path: &Vec<char>) -> (r: Option<Vec<char>>)
    ensures
        match file_name(path@) {
            Some(n) => r.is_some() && r.unwrap()@ == n,
            None => r.is_none(),
        },
{
    let parts = split_pieces(path, '/');
    let ghost ps = parts@.map_values(|p: Vec<char>| p@);
    let mut k: usize = parts.len();
    assert(ps.take(k as int) =~= ps);
    while k > 0 && (parts[k - 1].len() == 0 || (parts[k - 1].len() == 1 && parts[k - 1][0] == '.'))
        invariant
            0 <= k <= parts@.len(),
            ps == parts@.map_values(|p: Vec<char>| p@),
            last_normal(ps.take(k as int)) == last_normal(ps),
        decreases k,
    {
        proof {
            assert(ps.take(k as int).drop_last() =~= ps.take(k - 1));
            if parts@[k - 1]@.len() == 1 {
                assert(parts@[k - 1]@ =~= seq!['.']);
            }
        }
        k -= 1;
    }
    if k == 0 {
        assert(ps.take(0) =~= Seq::<Seq<char>>::empty());
        return None;
    }
    let name = &parts[k - 1];
    proof {
        assert(ps.take(k as int).last() == name@);
        if name@.len() == 1 {
            assert(name@ != seq!['.']);
        }
    }
    if name.len() == 2 && name[0] == '.' && name[1] == '.' {
        assert(name@ =~= seq!['.', '.']);
        return None;
    }
    proof {
        if name@ == seq!['.', '.'] {
            assert(name@[0] == '.' && name@[1] == '.');
        }
    }
    Some(slice_of(name, 0, name.len()))
}

/// Guess the content type of `path` by its extension.
pub fn guess_mime(path: &str) -> (r: &'static str)
    ensures
        r@ == guess_mime_spec(path@),
{
    let v = chars_of(path);
    let name = match file_name_of(&v) {
        Some(n) => n,
        None => return "application/octet-stream",
    };
    assert(name@.take(name@.len() as int) =~= name@);
    let mut k: usize = name.len();
    while k > 0 && name[k - 1] != '.'
        invariant
            0 <= k <= name@.len(),
            last_dot(name@.take(k as int)) == last_dot(name@),
        decreases k,
    {
        assert(name@.take(k as int).drop_last() =~= name@.take(k - 1));
        k -= 1;
    }
    if k == 0 {
        assert(name@.take(0) =~= Seq::<char>::empty());
        return "application/octet-stream";
    }
    assert(last_dot(name@.take(k as int)) == Some(k - 1));
    if k - 1 == 0 {
        return "application/octet-stream";
    }
    let ext = slice_of(&name, k, name.len());
    assert(ext@ =~= name@.skip(k as int));
    let low = lower_vec(&ext);
    mime_for_exec(&low)
}

} // verus!
