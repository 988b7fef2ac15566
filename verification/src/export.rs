//! Export-side naming and URL plumbing: the file name a demo is written to,
//! and how local pages (`file://` and wizard-served `http://127.0.0.1:PORT/`)
//! are pointed at the export's own local server.

use vstd::prelude::*;
use crate::model::{Pane, Score};
use crate::text::{chars_of, decimal, decimal_string, push_char, push_chars, push_str, slice_of, starts_with};

verus! {

broadcast use vstd::string::group_string_axioms;

/// Whether `c` is alphabetic or numeric in Unicode (`char::is_alphanumeric`).
pub uninterp spec fn alphanumeric(c: char) -> bool;

/// `char::is_alphanumeric`; on ASCII it holds exactly of letters and digits.
#[verifier::external_body]
fn is_alphanumeric_char(c: char) -> (r: bool)
    ensures
        r == alphanumeric(c),
        (c as u32) < 128 ==> (r <==> (('a' <= c <= 'z') || ('A' <= c <= 'Z') || ('0' <= c <= '9'))),
{
    c.is_alphanumeric()
}

/// A character kept in a file name: alphanumerics, `-` and `_`.
pub open spec fn name_char(c: char) -> char {
    if alphanumeric(c) || c == '-' || c == '_' {
        c
    } else {
        '-'
    }
}

/// `name` with every character other than an alphanumeric, `-` or `_`
/// replaced by `-`.
pub open spec fn sanitize_spec(name: Seq<char>) -> Seq<char> {
    name.map_values(|c: char| name_char(c))
}

/// A file-name-safe version of a demo name.
pub fn sanitize(name: &str) -> (r: String)
    ensures
        r@ == sanitize_spec(name@),
{
    let v = chars_of(name);
    let mut r = String::new();
    let mut i: usize = 0;
    while i < v.len()
        invariant
            0 <= i <= v@.len(),
            v@ == name@,
            r@ == v@.take(i as int).map_values(|c: char| name_char(c)),
        decreases v@.len() - i,
    {
        let c = v[i];
        if is_alphanumeric_char(c) || c == '-' || c == '_' {
            push_char(&mut r, c);
        } else {
            push_char(&mut r, '-');
        }
        assert(v@.take(i + 1).map_values(|c: char| name_char(c)) =~= v@.take(i as int).map_values(
            |c: char| name_char(c),
        ).push(name_char(c)));
        i += 1;
    }
    assert(v@.take(i as int) =~= v@);
    r
}

/// The prefix of the URLs the capture wizard serves local files under.
pub open spec fn wizard_prefix() -> Seq<char> {
    "http://127.0.0.1:"@
}

fn wizard_prefix_vec() -> (v: Vec<char>)
    ensures
        v@ == wizard_prefix(),
{
    chars_of("http://127.0.0.1:")
}

/// Whether `url` is a localhost URL generated by a wizard
/// (`http://127.0.0.1:PORT/path`).
pub fn is_localhost_wizard_url(url: &str) -> (r: bool)
    ensures
        r == wizard_prefix().is_prefix_of(url@),
{
    let v = chars_of(url);
    let p = wizard_prefix_vec();
    starts_with(&v, &p)
}

/// Index of the first `c` in `s`, if any.
#[verifier::opaque]
pub open spec fn first_index_of(s: Seq<char>, c: char) -> Option<int> {
    if s.contains(c) {
        Some(choose|i: int| 0 <= i < s.len() && s[i] == c && forall|j: int| 0 <= j < i ==> s[j] != c)
    } else {
        None
    }
}

fn find_char(v: &Vec<char>, from: usize, c: char) -> (r: Option<usize>)
    requires
        from <= v@.len(),
    ensures
        match first_index_of(v@.skip(from as int), c) {
            Some(i) => r.is_some() && r.unwrap() == from + i,
            None => r.is_none(),
        },
        r.is_some() ==> from <= r.unwrap() < v@.len(),
{
    reveal(first_index_of);
    let ghost s = v@.skip(from as int);
    let mut i: usize = from;
    while i < v.len()
        invariant
            from <= i <= v@.len(),
            s == v@.skip(from as int),
            forall|j: int| 0 <= j < i - from ==> s[j] != c,
        decreases v@.len() - i,
    {
        if v[i] == c {
            proof {
                assert(s[i - from] == c);
                reveal(first_index_of);
                let m: int = i - from;
                assert(s[m] == v@[i as int]);
                assert(s.contains(c));
                assert(0 <= m < s.len() && s[m] == c && forall|j: int| 0 <= j < m ==> s[j] != c);
                assert(exists|k: int| 0 <= k < s.len() && s[k] == c && forall|j: int| 0 <= j < k ==> s[j] != c);
                let x = first_index_of(s, c).unwrap();
                assert(0 <= x < s.len() && s[x] == c && forall|j: int| 0 <= j < x ==> s[j] != c);
                if x < m {
                    assert(s[x] != c);
                } else if x > m {
                    assert(s[m] != c);
                }
            }
            return Some(i);
        }
        i += 1;
    }
    proof {
        if s.contains(c) {
            let k = choose|k: int| 0 <= k < s.len() && s[k] == c;
            assert(s[k] != c);
        }
    }
    None
}

/// A wizard URL moved to port `port`: the part of the URL after the old
/// prefix from its first `/` on is kept; without a `/` the URL is unchanged.
pub open spec fn rewrite_wizard_url_spec(url: Seq<char>, port: u16) -> Seq<char> {
    let rest = if wizard_prefix().is_prefix_of(url) {
        url.skip(wizard_prefix().len() as int)
    } else {
        url
    };
    match first_index_of(rest, '/') {
        Some(p) => wizard_prefix() + decimal(port as nat) + rest.skip(p),
        None => url,
    }
}

/// Rewrite a wizard-generated localhost URL to use a new port:
/// `http://127.0.0.1:8001/home/user/doc.pdf` with port 9001 gives
/// `http://127.0.0.1:9001/home/user/doc.pdf`.
pub fn rewrite_wizard_url(url: &str, new_port: u16) -> (r: String)
    ensures
        r@ == rewrite_wizard_url_spec(url@, new_port),
{
    let v = chars_of(url);
    let p = wizard_prefix_vec();
    let from: usize = if starts_with(&v, &p) {
        p.len()
    } else {
        0
    };
    proof {
        assert(v@.skip(0) =~= v@);
        if wizard_prefix().is_prefix_of(url@) {
            assert(v@.skip(from as int) == url@.skip(wizard_prefix().len() as int));
        } else {
            assert(v@.skip(from as int) == url@);
        }
    }
    match find_char(&v, from, '/') {
        Some(i) => {
            let mut r = String::new();
            push_chars(&mut r, &p);
            let port = decimal_string(new_port as u64);
            push_str(&mut r, port.as_str());
            let tail = slice_of(&v, i, v.len());
            push_chars(&mut r, &tail);
            assert(tail@ =~= v@.skip(from as int).skip(i - from));
            let ghost rest = v@.skip(from as int);
            assert(first_index_of(rest, '/') == Some(i - from));
            assert(r@ == wizard_prefix() + decimal(new_port as nat) + rest.skip(i - from));
            r
        },
        None => {
            let mut r = String::new();
            push_chars(&mut r, &v);
            assert(first_index_of(v@.skip(from as int), '/').is_none());
            r
        },
    }
}

/// The scheme prefix of a local file URL.
pub open spec fn file_prefix() -> Seq<char> {
    "file://"@
}

/// `s` without its leading `/` characters.
pub open spec fn drop_slashes(s: Seq<char>) -> Seq<char>
    decreases s.len(),
{
    if s.len() > 0 && s[0] == '/' {
        drop_slashes(s.drop_first())
    } else {
        s
    }
}

/// Where a pane URL points once local pages are served on `port`: a `file://`
/// URL becomes `http://127.0.0.1:PORT/` and its path (leading slashes
/// dropped); a wizard URL moves to the port; any other URL is unchanged.
pub open spec fn served_url_spec(url: Seq<char>, port: u16) -> Seq<char> {
    if file_prefix().is_prefix_of(url) {
        wizard_prefix() + decimal(port as nat) + "/"@ + drop_slashes(url.skip(file_prefix().len() as int))
    } else if wizard_prefix().is_prefix_of(url) {
        rewrite_wizard_url_spec(url, port)
    } else {
        url
    }
}

proof fn lemma_decimal_no_slash(n: nat)
    ensures
        !decimal(n).contains('/'),
    decreases n,
{
    if n >= 10 {
        lemma_decimal_no_slash(n / 10);
        let d = decimal(n / 10);
        let c = crate::text::digit_char(n % 10);
        assert(c != '/');
        assert forall|i: int| 0 <= i < d.push(c).len() implies d.push(c)[i] != '/' by {
            if i < d.len() {
                assert(d.push(c)[i] == d[i]);
            }
        }
    } else {
        assert(crate::text::digit_char(n) != '/');
        assert(seq![crate::text::digit_char(n)][0] == crate::text::digit_char(n));
    }
}

proof fn lemma_first_slash(d: Seq<char>, t: Seq<char>)
    requires
        !d.contains('/'),
        t.len() > 0,
        t[0] == '/',
    ensures
        first_index_of(d + t, '/') == Some(d.len() as int),
{
    reveal(first_index_of);
    let s = d + t;
    let m = d.len() as int;
    assert(s[m] == '/');
    assert forall|j: int| 0 <= j < m implies s[j] != '/' by {
        assert(s[j] == d[j]);
    }
    assert(s.contains('/'));
    let x = first_index_of(s, '/').unwrap();
    assert(0 <= x < s.len() && s[x] == '/' && forall|j: int| 0 <= j < x ==> s[j] != '/');
    if x < m {
        assert(s[x] == d[x]);
    } else if x > m {
        assert(s[m] != '/');
    }
}

proof fn lemma_first_index_found(s: Seq<char>, c: char)
    ensures
        first_index_of(s, c) matches Some(q) ==> 0 <= q < s.len() && s[q] == c,
    decreases s.len(),
{
    reveal(first_index_of);
    if s.contains(c) {
        lemma_least_index_exists(s, c);
    }
}

proof fn lemma_least_index_exists(s: Seq<char>, c: char)
    requires
        s.contains(c),
    ensures
        exists|i: int| 0 <= i < s.len() && s[i] == c && forall|j: int| 0 <= j < i ==> s[j] != c,
    decreases s.len(),
{
    if s[0] == c {
        assert(0 <= 0 < s.len() && s[0] == c && forall|j: int| 0 <= j < 0 ==> s[j] != c);
    } else {
        let k = choose|k: int| 0 <= k < s.len() && s[k] == c;
        let t = s.drop_first();
        assert(t[k - 1] == c);
        lemma_least_index_exists(t, c);
        let i = choose|i: int| 0 <= i < t.len() && t[i] == c && forall|j: int| 0 <= j < i ==> t[j] != c;
        assert forall|j: int| 0 <= j < i + 1 implies s[j] != c by {
            if j > 0 {
                assert(s[j] == t[j - 1]);
            }
        }
        assert(s[i + 1] == t[i]);
    }
}

/// A wizard URL pointed at `port` (with its path) reads back unchanged when
/// pointed at `port` again.
proof fn lemma_wizard_url_fixed(tail: Seq<char>, port: u16)
    requires
        tail.len() > 0,
        tail[0] == '/',
    ensures
        rewrite_wizard_url_spec(wizard_prefix() + decimal(port as nat) + tail, port)
            == wizard_prefix() + decimal(port as nat) + tail,
{
    let dec = decimal(port as nat);
    let w = wizard_prefix() + dec + tail;
    assert(wizard_prefix().is_prefix_of(w)) by {
        assert(w.subrange(0, wizard_prefix().len() as int) =~= wizard_prefix());
    }
    assert(w.skip(wizard_prefix().len() as int) =~= dec + tail);
    lemma_decimal_no_slash(port as nat);
    lemma_first_slash(dec, tail);
    assert((dec + tail).skip(dec.len() as int) =~= tail);
}

/// Serving local pages is idempotent: a URL already pointed at the server on
/// `port` is left as it is when served on `port` again.
pub proof fn lemma_served_url_idempotent(url: Seq<char>, port: u16)
    ensures
        served_url_spec(served_url_spec(url, port), port) == served_url_spec(url, port),
{
    reveal_strlit("file://");
    reveal_strlit("http://127.0.0.1:");
    reveal_strlit("/");
    let w = served_url_spec(url, port);
    if file_prefix().is_prefix_of(url) || wizard_prefix().is_prefix_of(url) {
        if wizard_prefix().is_prefix_of(w) {
            assert(!file_prefix().is_prefix_of(w)) by {
                assert(w[0] == wizard_prefix()[0]);
                if file_prefix().is_prefix_of(w) {
                    assert(w[0] == file_prefix()[0]);
                }
            }
        }
        if file_prefix().is_prefix_of(url) {
            let tail = "/"@ + drop_slashes(url.skip(file_prefix().len() as int));
            assert(w =~= wizard_prefix() + decimal(port as nat) + tail);
            lemma_wizard_url_fixed(tail, port);
            assert(wizard_prefix().is_prefix_of(w)) by {
                assert(w.subrange(0, wizard_prefix().len() as int) =~= wizard_prefix());
            }
        } else {
            assert(!file_prefix().is_prefix_of(url)) by {
                assert(url[0] == wizard_prefix()[0]);
                if file_prefix().is_prefix_of(url) {
                    assert(url[0] == file_prefix()[0]);
                }
            }
            let rest = url.skip(wizard_prefix().len() as int);
            match first_index_of(rest, '/') {
                Some(q) => {
                    lemma_first_index_found(rest, '/');
                    let tail = rest.skip(q);
                    assert(tail[0] == rest[q]);
                    lemma_wizard_url_fixed(tail, port);
                    assert(wizard_prefix().is_prefix_of(w)) by {
                        assert(w.subrange(0, wizard_prefix().len() as int) =~= wizard_prefix());
                    }
                },
                None => {},
            }
        }
    }
}

/// Pointing a pane's local page at the server twice is the same as once: the
/// second time keeps every field and leaves the URL as the first time left it.
pub proof fn lemma_served_pane_idempotent(a: Pane, b: Pane, c: Pane, port: u16)
    requires
        served_pane(a, b, port),
        served_pane(b, c, port),
    ensures
        c == (Pane { url: c.url, ..b }),
        crate::model::opt_str(c.url) == crate::model::opt_str(b.url),
{
    match a.url {
        Some(u) => {
            lemma_served_url_idempotent(u@, port);
        },
        None => {},
    }
}

/// The URL a pane should load when local pages are served on `port`.
pub fn served_url(url: &str, port: u16) -> (r: String)
    ensures
        r@ == served_url_spec(url@, port),
{
    let v = chars_of(url);
    let fp = chars_of("file://");
    if starts_with(&v, &fp) {
        let mut i: usize = fp.len();
        while i < v.len() && v[i] == '/'
            invariant
                fp@.len() <= i <= v@.len(),
                drop_slashes(v@.skip(i as int)) == drop_slashes(v@.skip(fp@.len() as int)),
            decreases v@.len() - i,
        {
            assert(v@.skip(i as int).drop_first() =~= v@.skip(i + 1));
            i += 1;
        }
        assert(drop_slashes(v@.skip(i as int)) == v@.skip(i as int));
        let mut r = wizard_prefix_string();
        let port_s = decimal_string(port as u64);
        push_str(&mut r, port_s.as_str());
        push_char(&mut r, '/');
        let tail = slice_of(&v, i, v.len());
        push_chars(&mut r, &tail);
        assert(tail@ =~= v@.skip(i as int));
        proof {
            reveal_strlit("/");
            assert("/"@ =~= seq!['/']);
        }
        r
    } else if is_localhost_wizard_url(url) {
        rewrite_wizard_url(url, port)
    } else {
        let mut r = String::new();
        push_chars(&mut r, &v);
        r
    }
}

fn wizard_prefix_string() -> (r: String)
    ensures
        r@ == wizard_prefix(),
{
    let mut r = String::new();
    push_str(&mut r, "http://127.0.0.1:");
    r
}


// ---------------------------------------------------------------------------
// The local file server, as the export sees it
// ---------------------------------------------------------------------------

/// The export's local file server: the port it listens on (the listening
/// itself is the front end's).
#[derive(Debug, Clone, Copy, PartialEq, Eq, Structural)]
pub struct LocalServer {
    port: u16,
}

/// Where the server serves a `file://` URL: `file:///` or `file://` gives way to
/// `http://127.0.0.1:PORT/`; any other URL is unchanged.
pub open spec fn server_url_spec(url: Seq<char>, port: u16) -> Seq<char> {
    if "file:///"@.is_prefix_of(url) {
        wizard_prefix() + decimal(port as nat) + "/"@ + url.skip(8)
    } else if file_prefix().is_prefix_of(url) {
        wizard_prefix() + decimal(port as nat) + "/"@ + url.skip(7)
    } else {
        url
    }
}

impl LocalServer {
    /// The port the server listens on.
    pub closed spec fn port_spec(&self) -> u16 {
        self.port
    }

    /// The server listening on `port`.
    pub fn with_port(port: u16) -> (r: LocalServer)
        ensures
            r.port_spec() == port,
    {
        LocalServer { port }
    }

    /// The port the server is listening on.
    pub fn port(&self) -> (r: u16)
        ensures
            r == self.port_spec(),
    {
        self.port
    }

    /// Rewrites a `file://` URL to go through the server.
    pub fn rewrite_url(&self, url: &str) -> (r: String)
        ensures
            r@ == server_url_spec(url@, self.port_spec()),
    {
        let v = chars_of(url);
        let three = chars_of("file:///");
        let two = chars_of("file://");
        proof {
            reveal_strlit("file:///");
            reveal_strlit("file://");
        }
        let skip: usize = if starts_with(&v, &three) {
            8
        } else if starts_with(&v, &two) {
            7
        } else {
            let mut r = String::new();
            push_chars(&mut r, &v);
            return r;
        };
        let mut r = wizard_prefix_string();
        let port_s = decimal_string(self.port as u64);
        push_str(&mut r, port_s.as_str());
        push_char(&mut r, '/');
        let tail = slice_of(&v, skip, v.len());
        push_chars(&mut r, &tail);
        assert(tail@ =~= v@.skip(skip as int));
        proof {
            reveal_strlit("/");
            assert("/"@ =~= seq!['/']);
        }
        r
    }
}

/// Pane `p` loads a local file or a wizard-served page.
pub open spec fn pane_is_local(p: Pane) -> bool {
    match p.url {
        Some(u) => file_prefix().is_prefix_of(u@) || wizard_prefix().is_prefix_of(u@),
        None => false,
    }
}

/// Whether any pane needs the local file server.
pub fn needs_local_server(score: &Score) -> (r: bool)
    ensures
        r == exists|i: int|
            0 <= i < score.layout.panes@.len() && pane_is_local(#[trigger] score.layout.panes@[i]),
{
    let fp = chars_of("file://");
    let wp = wizard_prefix_vec();
    proof {
        reveal_strlit("file://");
    }
    let mut i: usize = 0;
    while i < score.layout.panes.len()
        invariant
            0 <= i <= score.layout.panes@.len(),
            fp@ == file_prefix(),
            wp@ == wizard_prefix(),
            forall|j: int| 0 <= j < i ==> !pane_is_local(#[trigger] score.layout.panes@[j]),
        decreases score.layout.panes@.len() - i,
    {
        if let Some(u) = &score.layout.panes[i].url {
            let v = chars_of(u.as_str());
            if starts_with(&v, &fp) || starts_with(&v, &wp) {
                assert(pane_is_local(score.layout.panes@[i as int]));
                return true;
            }
        }
        i += 1;
    }
    false
}

/// Pane `b` is pane `a` with its URL served on `port`.
pub open spec fn served_pane(a: Pane, b: Pane, port: u16) -> bool {
    &&& b == Pane { url: b.url, ..a }
    &&& match a.url {
        Some(u) => match b.url {
            Some(w) => w@ == served_url_spec(u@, port),
            None => false,
        },
        None => b.url.is_none(),
    }
}

/// The score with every pane's local or wizard URL pointed at the server on
/// `server_port` (see `served_url_spec`); everything else is unchanged.
pub fn rewrite_local_urls(score: Score, server_port: u16) -> (r: Score)
    ensures
        r.demo == score.demo,
        r.sources == score.sources,
        r.timeline == score.timeline,
        r.layout.width == score.layout.width,
        r.layout.height == score.layout.height,
        r.layout.fps == score.layout.fps,
        r.layout.background == score.layout.background,
        r.layout.font_family == score.layout.font_family,
        r.layout.font_size == score.layout.font_size,
        r.layout.panes@.len() == score.layout.panes@.len(),
        forall|i: int|
            0 <= i < score.layout.panes@.len() ==> served_pane(
                score.layout.panes@[i],
                #[trigger] r.layout.panes@[i],
                server_port,
            ),
{
    let ghost orig = score;
    let mut score = score;
    let ghost before = score.layout.panes@;
    let mut i: usize = 0;
    while i < score.layout.panes.len()
        invariant
            0 <= i <= score.layout.panes@.len(),
            score.layout.panes@.len() == before.len(),
            before == orig.layout.panes@,
            score.demo == orig.demo,
            score.sources == orig.sources,
            score.timeline == orig.timeline,
            score.layout.width == orig.layout.width,
            score.layout.height == orig.layout.height,
            score.layout.fps == orig.layout.fps,
            score.layout.background == orig.layout.background,
            score.layout.font_family == orig.layout.font_family,
            score.layout.font_size == orig.layout.font_size,
            forall|j: int| 0 <= j < i ==> served_pane(before[j], #[trigger] score.layout.panes@[j], server_port),
            forall|j: int| i <= j < before.len() ==> #[trigger] score.layout.panes@[j] == before[j],
        decreases before.len() - i,
    {
        let p = &score.layout.panes[i];
        let url = match &p.url {
            Some(u) => Some(served_url(u.as_str(), server_port)),
            None => None,
        };
        let q = Pane {
            id: p.id.clone(),
            kind: p.kind,
            x: p.x,
            y: p.y,
            width: p.width,
            height: p.height,
            font_family: match &p.font_family {
                Some(f) => Some(f.clone()),
                None => None,
            },
            font_size: p.font_size,
            url,
            theme: match &p.theme {
                Some(t) => Some(t.clone()),
                None => None,
            },
            ignore_speed: p.ignore_speed,
        };
        score.layout.panes.set(i, q);
        i += 1;
    }
    score
}

/// `file` inside directory `dir`, joined as a path: a separator goes between
/// them unless `dir` is empty or already ends with one.
pub open spec fn path_join(dir: Seq<char>, file: Seq<char>) -> Seq<char> {
    if dir.len() == 0 {
        file
    } else if dir.last() == '/' {
        dir + file
    } else {
        dir + "/"@ + file
    }
}

/// The file an export in format `ext` is written to: the demo's name,
/// sanitized, with the extension, in its output directory.
pub open spec fn resolve_output_spec(output_dir: Seq<char>, name: Seq<char>, ext: Seq<char>) -> Seq<char> {
    path_join(output_dir, sanitize_spec(name) + "."@ + ext)
}

/// The path an export in format `ext` is written to.
pub fn resolve_output(score: &Score, ext: &str) -> (r: String)
    ensures
        r@ == resolve_output_spec(score.demo.output_dir@, score.demo.name@, ext@),
{
    let file_name = {
        let mut f = sanitize(score.demo.name.as_str());
        push_char(&mut f, '.');
        push_str(&mut f, ext);
        f
    };
    proof {
        reveal_strlit(".");
        reveal_strlit("/");
        assert("."@ =~= seq!['.']);
        assert("/"@ =~= seq!['/']);
    }
    let dir = chars_of(score.demo.output_dir.as_str());
    let mut r = String::new();
    push_chars(&mut r, &dir);
    if dir.len() > 0 && dir[dir.len() - 1] != '/' {
        push_char(&mut r, '/');
    }
    push_str(&mut r, file_name.as_str());
    proof {
        if dir@.len() > 0 && dir@.last() != '/' {
            assert(dir@.push('/') + file_name@ =~= dir@ + "/"@ + file_name@);
        }
    }
    r
}
} // verus!
