//! The advice of `demo doctor`: the platform label, the checks' verdicts from
//! what was found on the machine, the install hints, and the WSL browser
//! routing helpers' contents.

use vstd::prelude::*;
use crate::text::{
    chars_of, contains_seq, lower, lower_vec, push_str, seq_eq, split_on, split_pieces, trim,
    trim_bounds,
};

verus! {

broadcast use vstd::string::group_string_axioms;

/// Severity of a single check's result.
#[derive(Debug, Clone, Copy, PartialEq, Eq, Structural)]
pub enum Level {
    Pass,
    Warn,
    Fail,
}

/// One check's result.
pub struct Check {
    pub name: &'static str,
    pub level: Level,
    pub detail: String,
    /// A shell command the user can run to fix it.
    pub fix: Option<String>,
}

/// The host operating system.
#[derive(Debug, Clone, Copy, PartialEq, Eq, Structural)]
pub enum Os {
    Linux,
    Mac,
    Windows,
    Other,
}

/// The host platform, enough to tailor the advice.
#[derive(Debug, Clone, Copy, PartialEq, Eq, Structural)]
pub struct Platform {
    pub os: Os,
    pub wsl: bool,
    pub apt: bool,
}

pub open spec fn os_name(os: Os) -> Seq<char> {
    match os {
        Os::Linux => "Linux"@,
        Os::Mac => "macOS"@,
        Os::Windows => "Windows"@,
        Os::Other => "this platform"@,
    }
}

/// The platform's name, marked `(WSL)` under WSL.
pub open spec fn label_spec(p: Platform) -> Seq<char> {
    if p.wsl {
        os_name(p.os) + " (WSL)"@
    } else {
        os_name(p.os)
    }
}

impl Platform {
    /// The platform's name for the report header.
    pub fn label(&self) -> (r: String)
        ensures
            r@ == label_spec(*self),
    {
        let mut r = String::new();
        match self.os {
            Os::Linux => push_str(&mut r, "Linux"),
            Os::Mac => push_str(&mut r, "macOS"),
            Os::Windows => push_str(&mut r, "Windows"),
            Os::Other => push_str(&mut r, "this platform"),
        }
        if self.wsl {
            push_str(&mut r, " (WSL)");
        }
        r
    }
}

/// Whether the contents of `/proc/version` say we run under WSL: they contain
/// `microsoft`, in any case.
pub open spec fn indicates_wsl(contents: Seq<char>) -> bool {
    contains_seq(lower(contents), "microsoft"@)
}

/// Returns true if the contents of `/proc/version` indicate we are running
/// under WSL (the string contains "microsoft", case-insensitive). Only ASCII
/// letters can lower-case into the letters of that word, so folding ASCII case
/// finds exactly what full Unicode lower-casing would.
pub fn proc_version_indicates_wsl(contents: &str) -> (r: bool)
    ensures
        r == indicates_wsl(contents@),
{
    let v = chars_of(contents);
    let l = lower_vec(&v);
    let m = chars_of("microsoft");
    crate::text::contains(&l, &m)
}

pub open spec fn linux_chrome_hint() -> Seq<char> {
    "wget -O /tmp/google-chrome.deb https://dl.google.com/linux/direct/google-chrome-stable_current_amd64.deb && sudo dpkg -i /tmp/google-chrome.deb || sudo apt-get -f install -y     (or run `demo doctor --fix`)"@
}

/// The platform-specific command to install a working (non-snap) browser.
pub open spec fn chrome_install_hint_spec(p: Platform) -> Seq<char> {
    match p.os {
        Os::Linux => linux_chrome_hint(),
        Os::Mac => "brew install --cask google-chrome"@,
        Os::Windows => "install Google Chrome from google.com/chrome"@,
        Os::Other => "install Google Chrome or a non-snap Chromium"@,
    }
}

/// The platform-specific command to install a working (non-snap) browser.
pub fn chrome_install_hint(plat: &Platform) -> (r: String)
    ensures
        r@ == chrome_install_hint_spec(*plat),
{
    let mut r = String::new();
    match plat.os {
        Os::Linux => push_str(
            &mut r,
            "wget -O /tmp/google-chrome.deb https://dl.google.com/linux/direct/google-chrome-stable_current_amd64.deb && sudo dpkg -i /tmp/google-chrome.deb || sudo apt-get -f install -y     (or run `demo doctor --fix`)",
        ),
        Os::Mac => push_str(&mut r, "brew install --cask google-chrome"),
        Os::Windows => push_str(&mut r, "install Google Chrome from google.com/chrome"),
        Os::Other => push_str(&mut r, "install Google Chrome or a non-snap Chromium"),
    }
    r
}

fn text(s: &str) -> (r: String)
    ensures
        r@ == s@,
{
    let mut r = String::new();
    push_str(&mut r, s);
    r
}

/// The browser check, from the Chromium found (if any) and whether it is the
/// snap build: the snap and a missing browser fail with the install hint; any
/// other browser passes.
pub fn chromium_check(found: Option<&str>, snap: bool, plat: &Platform) -> (c: Check)
    ensures
        c.name@ == "chromium"@,
        match found {
            Some(path) => if snap {
                &&& c.level == Level::Fail
                &&& c.detail@ == "found the SNAP chromium ("@ + path@
                    + ") — its sandbox blocks the debug port, so automation can't use it"@
                &&& c.fix.is_some() && c.fix.unwrap()@ == chrome_install_hint_spec(*plat)
            } else {
                c.level == Level::Pass && c.detail@ == path@ && c.fix.is_none()
            },
            None => {
                &&& c.level == Level::Fail
                &&& c.detail@ == "not found — needed for `demo open` browser scenes"@
                &&& c.fix.is_some() && c.fix.unwrap()@ == chrome_install_hint_spec(*plat)
            },
        },
{
    match found {
        Some(path) => {
            if snap {
                let mut d = String::new();
                push_str(&mut d, "found the SNAP chromium (");
                push_str(&mut d, path);
                push_str(&mut d, ") — its sandbox blocks the debug port, so automation can't use it");
                Check { name: "chromium", level: Level::Fail, detail: d, fix: Some(chrome_install_hint(plat)) }
            } else {
                Check { name: "chromium", level: Level::Pass, detail: text(path), fix: None }
            }
        },
        None => Check {
            name: "chromium",
            level: Level::Fail,
            detail: text("not found — needed for `demo open` browser scenes"),
            fix: Some(chrome_install_hint(plat)),
        },
    }
}

/// The ffmpeg check, from whether a system ffmpeg is installed: without one
/// it is only a warning (mp4 export fetches a managed copy), with a
/// platform-specific install command.
pub fn ffmpeg_check(installed: bool, plat: &Platform) -> (c: Check)
    ensures
        c.name@ == "ffmpeg"@,
        installed ==> c.level == Level::Pass && c.detail@ == "available (for the mp4 target)"@
            && c.fix.is_none(),
        !installed ==> {
            &&& c.level == Level::Warn
            &&& c.detail@ == "not on PATH — `mp4` will auto-download a managed copy on first use"@
            &&& c.fix.is_some()
            &&& c.fix.unwrap()@ == match plat.os {
                Os::Linux => "sudo apt-get install -y ffmpeg"@,
                Os::Mac => "brew install ffmpeg"@,
                _ => "install ffmpeg, or let `demo export mp4` fetch it"@,
            }
        },
{
    if installed {
        Check { name: "ffmpeg", level: Level::Pass, detail: text("available (for the mp4 target)"), fix: None }
    } else {
        let fix = match plat.os {
            Os::Linux => text("sudo apt-get install -y ffmpeg"),
            Os::Mac => text("brew install ffmpeg"),
            _ => text("install ffmpeg, or let `demo export mp4` fetch it"),
        };
        Check {
            name: "ffmpeg",
            level: Level::Warn,
            detail: text("not on PATH — `mp4` will auto-download a managed copy on first use"),
            fix: Some(fix),
        }
    }
}

/// The display check, from whether a graphical display was found (a Mac
/// always has one): informational, a warning at worst.
pub fn display_check(has_display: bool, plat: &Platform) -> (c: Check)
    ensures
        c.name@ == "display"@,
        c.fix.is_none(),
        (has_display || plat.os == Os::Mac) ==> c.level == Level::Pass && c.detail@
            == "a graphical display is available (`demo open --view` can run)"@,
        !(has_display || plat.os == Os::Mac) ==> c.level == Level::Warn && c.detail@
            == "no graphical display — `demo open --view` needs one"@ + (if plat.wsl {
            " (on WSL: WSLg)"@
        } else {
            ""@
        }) + ". Headless reveals still work."@,
{
    if has_display || plat.os == Os::Mac {
        Check {
            name: "display",
            level: Level::Pass,
            detail: text("a graphical display is available (`demo open --view` can run)"),
            fix: None,
        }
    } else {
        let mut d = String::new();
        push_str(&mut d, "no graphical display — `demo open --view` needs one");
        if plat.wsl {
            push_str(&mut d, " (on WSL: WSLg)");
        } else {
            push_str(&mut d, "");
        }
        push_str(&mut d, ". Headless reveals still work.");
        Check { name: "display", level: Level::Warn, detail: d, fix: None }
    }
}

/// The measured state of desktop browser defaults on WSL.
pub struct WslBrowserState {
    pub default_web_browser: String,
    pub scheme_handler_https: String,
}

impl WslBrowserState {
    /// Whether either default names the installed Google Chrome.
    pub fn points_at_chrome(&self) -> (r: bool)
        ensures
            r == (contains_seq(self.default_web_browser@, "google-chrome"@) || contains_seq(
                self.scheme_handler_https@,
                "google-chrome"@,
            )),
    {
        let g = chars_of("google-chrome");
        let d = chars_of(self.default_web_browser.as_str());
        let s = chars_of(self.scheme_handler_https.as_str());
        crate::text::contains(&d, &g) || crate::text::contains(&s, &g)
    }
}

pub open spec fn launcher_script_spec() -> Seq<char> {
    "#!/bin/sh\n# Route a URL to the Windows-side default browser via PowerShell.\n# Uses Start-Process so the URL is passed as a single argument — cmd.exe /c start\n# splits on & and breaks OAuth callbacks.\nexec powershell.exe -NoProfile -Command \"Start-Process \\\"$1\\\"\"\n"@
}

/// The launcher script content. Uses PowerShell's `Start-Process` to pass the
/// URL as a single argument (`cmd.exe /c start` splits on `&`).
pub fn launcher_script() -> (r: String)
    ensures
        r@ == launcher_script_spec(),
{
    text(
        "#!/bin/sh\n# Route a URL to the Windows-side default browser via PowerShell.\n# Uses Start-Process so the URL is passed as a single argument — cmd.exe /c start\n# splits on & and breaks OAuth callbacks.\nexec powershell.exe -NoProfile -Command \"Start-Process \\\"$1\\\"\"\n",
    )
}

/// The `.desktop` entry content, with the launcher's absolute path in `Exec`
/// so it works even when `~/.local/bin` is not on `$PATH`.
pub open spec fn desktop_entry_spec(launcher_path: Seq<char>) -> Seq<char> {
    "[Desktop Entry]\nVersion=1.0\nType=Application\nName=WSL Open Browser\nComment=Open URLs in the Windows-side default browser\nExec="@
        + launcher_path
        + " %u\nTerminal=false\nCategories=Network;WebBrowser;\nMimeType=x-scheme-handler/http;x-scheme-handler/https;text/html;\n"@
}

/// The `.desktop` entry content for the launcher at `launcher_path`.
pub fn desktop_entry(launcher_path: &str) -> (r: String)
    ensures
        r@ == desktop_entry_spec(launcher_path@),
{
    let mut r = String::new();
    push_str(
        &mut r,
        "[Desktop Entry]\nVersion=1.0\nType=Application\nName=WSL Open Browser\nComment=Open URLs in the Windows-side default browser\nExec=",
    );
    push_str(&mut r, launcher_path);
    push_str(
        &mut r,
        " %u\nTerminal=false\nCategories=Network;WebBrowser;\nMimeType=x-scheme-handler/http;x-scheme-handler/https;text/html;\n",
    );
    r
}

/// Is one of the `/`-separated components of `path` exactly `snap`?
pub open spec fn under_snap(path: Seq<char>) -> bool {
    exists|i: int| 0 <= i < split_on(path, '/').len() && #[trigger] split_on(path, '/')[i] == "snap"@
}

fn under_snap_exec(path: &str) -> (r: bool)
    ensures
        r == under_snap(path@),
{
    let v = chars_of(path);
    let parts = split_pieces(&v, '/');
    let snap = chars_of("snap");
    let ghost ps = parts@.map_values(|p: Vec<char>| p@);
    let mut i: usize = 0;
    while i < parts.len()
        invariant
            i <= parts@.len(),
            ps == parts@.map_values(|p: Vec<char>| p@),
            ps == split_on(path@, '/'),
            snap@ == "snap"@,
            forall|j: int| 0 <= j < i ==> ps[j] != "snap"@,
        decreases parts@.len() - i,
    {
        assert(ps[i as int] == parts@[i as int]@);
        if seq_eq(&parts[i], &snap) {
            return true;
        }
        i += 1;
    }
    false
}

/// Is this Chromium the snap (whose sandbox cannot drive headless)? Either its
/// path, or the path it resolves to (when it resolves), has a `snap`
/// component.
pub fn is_snap(path: &str, resolved: Option<&str>) -> (r: bool)
    ensures
        r == (under_snap(path@) || (resolved matches Some(p) && under_snap(p@))),
{
    if under_snap_exec(path) {
        return true;
    }
    match resolved {
        Some(p) => under_snap_exec(p),
        None => false,
    }
}

/// The lines of a text: its pieces between newlines, without the empty piece
/// after a final newline.
pub open spec fn line_pieces(s: Seq<char>) -> Seq<Seq<char>> {
    let parts = split_on(s, '\n');
    if parts.last().len() == 0 {
        parts.drop_last()
    } else {
        parts
    }
}

/// Does `existing` already hold `line` (each compared trimmed)? A shell
/// profile line is appended only when it does not.
pub fn has_line(existing: &str, line: &str) -> (r: bool)
    ensures
        r == exists|i: int|
            0 <= i < line_pieces(existing@).len() && trim(#[trigger] line_pieces(existing@)[i])
                == trim(line@),
{
    let v = chars_of(existing);
    let parts = split_pieces(&v, '\n');
    let lv = chars_of(line);
    let (la, lb) = trim_bounds(&lv);
    let want = crate::text::slice_of(&lv, la, lb);
    let ghost ps = parts@.map_values(|p: Vec<char>| p@);
    proof {
        crate::text::lemma_split_nonempty(existing@, '\n');
    }
    let n = parts.len();
    let count = if parts[n - 1].len() == 0 {
        n - 1
    } else {
        n
    };
    assert(line_pieces(existing@).len() == count);
    let mut i: usize = 0;
    while i < count
        invariant
            i <= count,
            count <= parts@.len(),
            ps == parts@.map_values(|p: Vec<char>| p@),
            ps == split_on(existing@, '\n'),
            line_pieces(existing@).len() == count,
            forall|j: int| 0 <= j < count ==> line_pieces(existing@)[j] == ps[j],
            want@ == trim(line@),
            forall|j: int| 0 <= j < i ==> trim(#[trigger] line_pieces(existing@)[j]) != trim(line@),
        decreases count - i,
    {
        let p = &parts[i];
        let (a, b) = trim_bounds(p);
        let t = crate::text::slice_of(p, a, b);
        assert(ps[i as int] == parts@[i as int]@);
        if seq_eq(&t, &want) {
            assert(trim(line_pieces(existing@)[i as int]) == trim(line@));
            return true;
        }
        i += 1;
    }
    false
}

// ---------------------------------------------------------------------------
// Finding a Chromium
// ---------------------------------------------------------------------------

/// The executables tried for a Chromium, in order.
pub const CHROMIUM_CANDIDATES: [&'static str; 5] = [
    "google-chrome",
    "google-chrome-stable",
    "chromium",
    "chromium-browser",
    "chrome",
];

/// Whether the probe found candidate `c` as a file in `PATH` directory `d`
/// (an answer missing from the table counts as not found).
pub open spec fn probed(found: Seq<Seq<bool>>, c: int, d: int) -> bool {
    0 <= c < found.len() && 0 <= d < found[c].len() && found[c][d]
}

/// The first of the first `n` directories where candidate `c` was found.
pub open spec fn first_dir(found: Seq<Seq<bool>>, c: int, n: int) -> Option<int>
    decreases n,
{
    if n <= 0 {
        None
    } else {
        match first_dir(found, c, n - 1) {
            Some(d) => Some(d),
            None => if probed(found, c, n - 1) {
                Some(n - 1)
            } else {
                None
            },
        }
    }
}

/// The first of the first `k` candidates found somewhere among `nd`
/// directories, with the first directory it was found in.
pub open spec fn first_candidate(found: Seq<Seq<bool>>, k: int, nd: int) -> Option<(int, int)>
    decreases k,
{
    if k <= 0 {
        None
    } else {
        match first_candidate(found, k - 1, nd) {
            Some(p) => Some(p),
            None => match first_dir(found, k - 1, nd) {
                Some(d) => Some((k - 1, d)),
                None => None,
            },
        }
    }
}

proof fn lemma_first_dir_settles(found: Seq<Seq<bool>>, c: int, a: int, b: int)
    requires
        0 <= a <= b,
        first_dir(found, c, a).is_some(),
    ensures
        first_dir(found, c, b) == first_dir(found, c, a),
    decreases b - a,
{
    if a < b {
        lemma_first_dir_settles(found, c, a, b - 1);
    }
}

proof fn lemma_first_candidate_settles(found: Seq<Seq<bool>>, a: int, b: int, nd: int)
    requires
        0 <= a <= b,
        first_candidate(found, a, nd).is_some(),
    ensures
        first_candidate(found, b, nd) == first_candidate(found, a, nd),
    decreases b - a,
{
    if a < b {
        lemma_first_candidate_settles(found, a, b - 1, nd);
    }
}

/// `file` joined to directory `dir` as a path.
pub fn join_path(dir: &str, file: &str) -> (r: String)
    ensures
        r@ == crate::export::path_join(dir@, file@),
{
    let dv = chars_of(dir);
    let mut r = String::new();
    push_str(&mut r, dir);
    if dv.len() > 0 && dv[dv.len() - 1] != '/' {
        push_str(&mut r, "/");
    }
    push_str(&mut r, file);
    proof {
        if dv@.len() == 0 {
            assert(r@ =~= file@);
        }
    }
    r
}

/// The Chromium to drive: the first candidate (in `CHROMIUM_CANDIDATES`
/// order) found as a file in some `PATH` directory, joined to the first
/// directory holding it. `found[c][d]` is the probe's answer for candidate `c`
/// in directory `path_dirs[d]`.
pub fn find_chromium(path_dirs: &[String], found: &[Vec<bool>]) -> (r: Option<String>)
    ensures
        match first_candidate(found@.map_values(|v: Vec<bool>| v@), 5, path_dirs@.len() as int) {
            Some((c, d)) => r matches Some(p) && p@ == crate::export::path_join(
                path_dirs@[d]@,
                CHROMIUM_CANDIDATES@[c]@,
            ),
            None => r is None,
        },
{
    let ghost fv = found@.map_values(|v: Vec<bool>| v@);
    let nd = path_dirs.len();
    let mut c: usize = 0;
    while c < 5
        invariant
            c <= 5,
            nd == path_dirs@.len(),
            fv == found@.map_values(|v: Vec<bool>| v@),
            first_candidate(fv, c as int, nd as int).is_none(),
        decreases 5 - c,
    {
        let mut d: usize = 0;
        while d < nd
            invariant
                c < 5,
                d <= nd,
                nd == path_dirs@.len(),
                fv == found@.map_values(|v: Vec<bool>| v@),
                first_candidate(fv, c as int, nd as int).is_none(),
                first_dir(fv, c as int, d as int).is_none(),
            decreases nd - d,
        {
            let hit = c < found.len() && d < found[c].len() && found[c][d];
            proof {
                if c < found@.len() {
                    assert(fv[c as int] == found@[c as int]@);
                }
            }
            if hit {
                proof {
                    assert(first_dir(fv, c as int, d + 1) == Some(d as int));
                    lemma_first_dir_settles(fv, c as int, d + 1, nd as int);
                    assert(first_candidate(fv, c + 1, nd as int) == Some((c as int, d as int)));
                    lemma_first_candidate_settles(fv, c + 1, 5, nd as int);
                }
                return Some(join_path(path_dirs[d].as_str(), CHROMIUM_CANDIDATES[c]));
            }
            d += 1;
        }
        c += 1;
    }
    None
}

} // verus!
