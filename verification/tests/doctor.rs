use demo_stage::doctor::{
    chrome_install_hint, find_chromium, has_line, is_snap, join_path, launcher_script, proc_version_indicates_wsl, Os,
    Platform,
};

#[test]
fn chrome_install_hint_linux_mentions_deb() {
    let plat = Platform {
        os: Os::Linux,
        wsl: false,
        apt: true,
    };
    let hint = chrome_install_hint(&plat);
    assert!(hint.contains("google-chrome"));
    assert!(hint.contains("apt") || hint.contains("dpkg"));
}

#[test]
fn chrome_install_hint_mac_mentions_brew() {
    let plat = Platform {
        os: Os::Mac,
        wsl: false,
        apt: false,
    };
    let hint = chrome_install_hint(&plat);
    assert!(hint.contains("brew"));
}

#[test]
fn chrome_install_hint_windows_mentions_google() {
    let plat = Platform {
        os: Os::Windows,
        wsl: false,
        apt: false,
    };
    let hint = chrome_install_hint(&plat);
    assert!(hint.contains("google.com"));
}

#[test]
fn chrome_install_hint_other_mentions_chrome() {
    let plat = Platform {
        os: Os::Other,
        wsl: false,
        apt: false,
    };
    let hint = chrome_install_hint(&plat);
    assert!(hint.contains("Chrome") || hint.contains("Chromium"));
}

#[test]
fn platform_label_linux() {
    let plat = Platform {
        os: Os::Linux,
        wsl: false,
        apt: true,
    };
    assert_eq!(plat.label(), "Linux");
}

#[test]
fn platform_label_wsl() {
    let plat = Platform {
        os: Os::Linux,
        wsl: true,
        apt: true,
    };
    assert_eq!(plat.label(), "Linux (WSL)");
}

#[test]
fn platform_label_mac() {
    let plat = Platform {
        os: Os::Mac,
        wsl: false,
        apt: false,
    };
    assert_eq!(plat.label(), "macOS");
}

#[test]
fn platform_label_windows() {
    let plat = Platform {
        os: Os::Windows,
        wsl: false,
        apt: false,
    };
    assert_eq!(plat.label(), "Windows");
}

#[test]
fn platform_label_other() {
    let plat = Platform {
        os: Os::Other,
        wsl: false,
        apt: false,
    };
    assert_eq!(plat.label(), "this platform");
}

#[test]
fn wsl_detection_microsoft_in_proc_version() {
    let content = "Linux version 5.15.0 (microsoft-standard-WSL2)";
    assert!(proc_version_indicates_wsl(content));
}

#[test]
fn wsl_detection_plain_linux_no_microsoft() {
    let content = "Linux version 5.15.0-generic (builder@host)";
    assert!(!proc_version_indicates_wsl(content));
}

#[test]
fn launcher_script_uses_start_process() {
    let script = launcher_script();
    assert!(script.contains("Start-Process"));
    assert!(script.contains("$1"));
}

#[test]
fn is_snap_detects_snap_path() {
    assert!(is_snap("/snap/chromium/current/chromium", None));
}

#[test]
fn is_snap_rejects_non_snap_path() {
    assert!(!is_snap("/usr/bin/chromium", None));
    assert!(!is_snap("/opt/google/chrome/chrome", None));
}

#[test]
fn is_snap_rejects_empty_path() {
    assert!(!is_snap("", None));
}

#[test]
fn is_snap_follows_the_resolved_launcher() {
    assert!(is_snap("/usr/bin/chromium-browser", Some("/usr/bin/snap")));
    assert!(!is_snap("/usr/bin/chromium-browser", Some("/usr/lib/chromium/chromium")));
    assert!(!is_snap("/snapshots/chromium", None));
}

#[test]
fn has_line_compares_trimmed_lines() {
    assert!(!has_line("existing line\n", "export BROWSER=/tmp/test"));
    assert!(has_line(
        "existing line\nexport BROWSER=/tmp/test\n",
        "export BROWSER=/tmp/test"
    ));
    assert!(has_line("  export BROWSER=/tmp/test  \r\n", "export BROWSER=/tmp/test"));
    assert!(!has_line("", ""));
    assert!(has_line("a\n\nb", ""));
}

#[test]
fn find_chromium_prefers_the_earlier_candidate_then_the_earlier_dir() {
    let dirs = vec!["/usr/local/bin".to_string(), "/usr/bin/".to_string()];
    // chromium in both dirs, google-chrome-stable only in the second.
    let found = vec![
        vec![false, false],
        vec![false, true],
        vec![true, true],
        vec![false, false],
        vec![false, false],
    ];
    assert_eq!(find_chromium(&dirs, &found).as_deref(), Some("/usr/bin/google-chrome-stable"));
    let found = vec![vec![false, false], vec![false, false], vec![true, true]];
    assert_eq!(find_chromium(&dirs, &found).as_deref(), Some("/usr/local/bin/chromium"));
    assert_eq!(find_chromium(&dirs, &[]), None);
    assert_eq!(find_chromium(&[], &[vec![true]]), None);
}

#[test]
fn join_path_adds_one_separator() {
    assert_eq!(join_path("/usr/bin", "chrome"), "/usr/bin/chrome");
    assert_eq!(join_path("/usr/bin/", "chrome"), "/usr/bin/chrome");
    assert_eq!(join_path("", "chrome"), "chrome");
}
