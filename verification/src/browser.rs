//! The browser-pane side of an export that needs no browser: the capture
//! report, the view rate, and how a local page URL maps to a file on disk.

use vstd::prelude::*;
use crate::error::Error;
use crate::export::{file_prefix, first_index_of, wizard_prefix};
use crate::text::{chars_of, push_chars, push_str, slice_of, starts_with, string_of};

verus! {

broadcast use vstd::string::group_string_axioms;

/// Frame rate an interactive `--view` session is recorded at.
pub const VIEW_FPS: u32 = 8;

/// Per-pane capture stats for headless web panes, printed at export end.
pub struct BrowserCaptureReport {
    pub pane_id: String,
    pub frame_count: usize,
    pub elapsed: std::time::Duration,
}

/// The local path a page URL refers to: what follows `file://`, or the path of
/// a wizard URL (from the first `/` after `http://127.0.0.1:`); `None` for any
/// other URL.
pub open spec fn local_path_spec(url: Seq<char>) -> Option<Seq<char>> {
    if file_prefix().is_prefix_of(url) {
        Some(url.skip(file_prefix().len() as int))
    } else if wizard_prefix().is_prefix_of(url) {
        let rest = url.skip(wizard_prefix().len() as int);
        match first_index_of(rest, '/') {
            Some(p) => Some(rest.skip(p)),
            None => None,
        }
    } else {
        None
    }
}

pub open spec fn no_path_msg(url: Seq<char>) -> Seq<char> {
    "can't extract path from URL: "@ + url
}

pub open spec fn not_found_msg(path: Seq<char>) -> Seq<char> {
    "file not found: "@ + path
}

/// The local path of a page URL, or the error naming the URL.
pub fn local_path_of(url: &str) -> (r: Result<String, Error>)
    ensures
        match local_path_spec(url@) {
            Some(p) => r is Ok && r->Ok_0@ == p,
            None => r is Err && r->Err_0.export_text() == Some(no_path_msg(url@)),
        },
{
    let v = chars_of(url);
    let fp = chars_of("file://");
    let wp = chars_of("http://127.0.0.1:");
    if starts_with(&v, &fp) {
        let rest = slice_of(&v, fp.len(), v.len());
        assert(rest@ =~= url@.skip(file_prefix().len() as int));
        return Ok(string_of(&rest));
    }
    if starts_with(&v, &wp) {
        let from = wp.len();
        let rest = slice_of(&v, from, v.len());
        assert(rest@ =~= url@.skip(wizard_prefix().len() as int));
        let mut i: usize = 0;
        while i < rest.len() && rest[i] != '/'
            invariant
                0 <= i <= rest@.len(),
                forall|j: int| 0 <= j < i ==> rest@[j] != '/',
            decreases rest@.len() - i,
        {
            i += 1;
        }
        if i < rest.len() {
            proof {
                reveal(first_index_of);
                let s = rest@;
                assert(s.contains('/'));
                assert(exists|k: int|
                    0 <= k < s.len() && s[k] == '/' && forall|j: int| 0 <= j < k ==> s[j] != '/');
                let x = first_index_of(s, '/').unwrap();
                if x < i {
                    assert(s[x] != '/');
                } else if x > i {
                    assert(s[i as int] != '/');
                }
            }
            let tail = slice_of(&rest, i, rest.len());
            assert(tail@ =~= rest@.skip(i as int));
            return Ok(string_of(&tail));
        }
        proof {
            reveal(first_index_of);
            if rest@.contains('/') {
                let k = choose|k: int| 0 <= k < rest@.len() && rest@[k] == '/';
                assert(rest@[k] != '/');
            }
        }
    }
    let mut msg = String::new();
    push_str(&mut msg, "can't extract path from URL: ");
    push_chars(&mut msg, &v);
    Err(Error::Export(msg))
}

/// Whether something exists at `path` (std `Path::exists`). The answer
/// depends on the filesystem, so nothing is promised about it.
#[verifier::external_body]
fn path_exists(path: &str) -> bool {
    std::path::Path::new(path).exists()
}

/// The path itself when something exists there, else the "file not found"
/// error naming it.
pub fn existing_path(path: String, exists: bool) -> (r: Result<String, Error>)
    ensures
        exists ==> r is Ok && r->Ok_0@ == path@,
        !exists ==> r is Err && r->Err_0.export_text() == Some(not_found_msg(path@)),
{
    if exists {
        Ok(path)
    } else {
        let mut msg = String::new();
        push_str(&mut msg, "file not found: ");
        push_str(&mut msg, path.as_str());
        Err(Error::Export(msg))
    }
}

/// The file on disk a local page URL refers to: a URL that names no local
/// path is refused, and so is a path where nothing exists.
pub fn local_file_path(url: &str) -> (r: Result<String, Error>)
    ensures
        match local_path_spec(url@) {
            Some(p) => match r {
                Ok(s) => s@ == p,
                Err(e) => e.export_text() == Some(not_found_msg(p)),
            },
            None => r is Err && r->Err_0.export_text() == Some(no_path_msg(url@)),
        },
{
    match local_path_of(url) {
        Ok(p) => {
            let exists = path_exists(p.as_str());
            existing_path(p, exists)
        },
        Err(e) => Err(e),
    }
}

} // verus!
