use haj::aur::{is_built_archive, makepkg_stage, missing_deps_error, nonblank_lines, srcinfo_dependencies, BuildStage};
use haj::commands::{
    collect_group, decimal_string, dependency_column_width, health_issues, list_row_shown, mark_flags,
    os_name, pair_aur_versions, parse_breaks_line, parse_selections, parse_upgrade_line, removal_report,
    search_scope, sync_age_text, sync_notice, sync_state, system_stats, tree_prefix, InstalledPkg, SyncState,
};
use haj::aur::AurPackage;
use haj::config::{apply_config, config_dir, config_file, config_file_text, GeneralConfig, HajConfig};
use haj::history::{format_log_timestamp, format_relative_timestamp, relative_text};
use haj::stream::{pacman_invocation, plan_invocation, status_message, LineSplitter};
use haj::backend::CommandPlan;

fn s(v: &[&str]) -> Vec<String> {
    v.iter().map(|x| x.to_string()).collect()
}

#[test]
fn srcinfo_dependencies_are_read() {
    let srcinfo = "pkgbase = yay\n\tdepends = pacman>6.1\n\tmakedepends = go\r\n\tdepends =\n\toptdepends = x\n\tdepends = a = b\n";
    assert_eq!(srcinfo_dependencies(srcinfo), s(&["pacman>6.1", "go", "a"]));
    assert_eq!(nonblank_lines(" foo \n\n  \nbar"), s(&["foo", "bar"]));
}

#[test]
fn makepkg_stages_and_archives() {
    assert_eq!(makepkg_stage("==> Making package: yay 12-1"), Some(BuildStage::Initializing));
    assert_eq!(makepkg_stage("  ==> Retrieving sources..."), Some(BuildStage::Downloading));
    assert_eq!(makepkg_stage("==> Starting build()..."), Some(BuildStage::Compiling));
    assert_eq!(makepkg_stage("==> Starting package()..."), Some(BuildStage::Packaging));
    assert_eq!(makepkg_stage("compiling foo.c"), None);
    assert!(is_built_archive("yay-12-1-x86_64.pkg.tar.zst"));
    assert!(!is_built_archive("yay-debug-12-1-x86_64.pkg.tar.zst"));
    assert!(!is_built_archive("PKGBUILD"));
    assert_eq!(
        missing_deps_error(&s(&["a", "b"])),
        "failed to install missing build dependencies. (one of them might be an aur package). run 'pacman -S a b' manually to debug."
    );
}

#[test]
fn line_splitter_hands_out_lines() {
    let mut sp = LineSplitter::new();
    let mut got = Vec::new();
    for c in "ab\r\ncd\n".chars() {
        if let Some(l) = sp.push(c) {
            got.push(l);
        }
    }
    assert_eq!(got, s(&["ab", "", "cd"]));
    assert_eq!(status_message("   "), None);
    assert_eq!(status_message(" abc "), None);
    assert_eq!(status_message(" abcd "), Some("abcd...".to_string()));
    let long = "x".repeat(70);
    assert_eq!(status_message(&long), Some(format!("{}...", "x".repeat(60))));
}

#[test]
fn invocations() {
    let plan = CommandPlan { executable: "apt-get".to_string(), args: s(&["install", "vim"]), requires_root: true };
    assert_eq!(
        plan_invocation(&plan, false, false),
        ("sudo".to_string(), s(&["apt-get", "--color=never", "install", "vim"]))
    );
    assert_eq!(plan_invocation(&plan, true, true), ("apt-get".to_string(), s(&["install", "vim"])));
    assert_eq!(
        pacman_invocation(&s(&["-Syu"]), &None, false, false),
        ("sudo".to_string(), s(&["pacman", "--color=never", "-Syu"]))
    );
    assert_eq!(pacman_invocation(&s(&["-Syu"]), &None, true, true), ("pacman".to_string(), s(&["-Syu"])));
    assert_eq!(
        pacman_invocation(&s(&["-S", "vim"]), &Some("/mnt".to_string()), false, false),
        ("sudo".to_string(), s(&["pacman", "--color=never", "--root", "/mnt", "-S", "vim"]))
    );
    assert_eq!(
        pacman_invocation(&s(&["-S", "vim"]), &Some("/mnt".to_string()), true, true),
        ("pacman".to_string(), s(&["--root", "/mnt", "-S", "vim"]))
    );
}

#[test]
fn configuration_defaults_and_paths() {
    let g = GeneralConfig::defaults_for_home(Some("/home/me"));
    assert!(!g.aur_only && !g.repo_only && !g.verbose && g.animations);
    assert_eq!(g.diff_prog, "vimdiff");
    assert_eq!(g.build_dir, "/home/me/.cache/haj/aur");
    assert_eq!(GeneralConfig::defaults_for_home(None).build_dir, "/.cache/haj/aur");
    assert_eq!(HajConfig::defaults_for_home(Some("/h/")).general.build_dir, "/h/.cache/haj/aur");
    assert_eq!(config_dir(Some("/x"), Some("/home/me")), "/x/haj");
    assert_eq!(config_dir(None, Some("/home/me")), "/home/me/.config/haj");
    assert_eq!(config_dir(None, None), "/etc/haj/haj");
    assert_eq!(config_file("/x/haj"), "/x/haj/config.toml");
    assert_eq!(config_file_text("[general]\n"), "# haj package manager configuration\n\n[general]\n");
    let mut g2 = GeneralConfig::defaults_for_home(None);
    g2.aur_only = true;
    assert_eq!(apply_config(false, false, true, &g2), (true, false, true));
}

#[test]
fn picks_and_reports() {
    assert_eq!(parse_selections("1 3 x 9 0 2", 3), vec![1, 3, 2]);
    assert_eq!(parse_selections("", 3), Vec::<usize>::new());
    assert_eq!(
        parse_breaks_line(":: removing glibc breaks dependency 'glibc' required by bash"),
        Some(("glibc".to_string(), "bash".to_string()))
    );
    assert_eq!(parse_breaks_line("error: failed"), None);
    let (broken, other) = removal_report(
        "checking dependencies...\n:: removing a breaks dependency 'a>=1' required by b\n\nerror: x\n",
    );
    assert_eq!(broken, vec![("a>=1".to_string(), "b".to_string())]);
    assert_eq!(other, s(&["checking dependencies...", "error: x"]));
    assert_eq!(dependency_column_width(&broken), 10);
    assert_eq!(
        dependency_column_width(&vec![("a-very-long-dependency".to_string(), "b".to_string())]),
        22
    );
    assert_eq!(
        parse_upgrade_line("linux 6.9.1-1 -> 6.9.2-1"),
        Some(("linux".to_string(), "6.9.1-1".to_string(), "6.9.2-1".to_string()))
    );
    assert_eq!(parse_upgrade_line("linux 6.9"), None);
}

#[test]
fn aur_update_pairs() {
    let installed = vec![("yay".to_string(), "11".to_string()), ("paru".to_string(), "1".to_string())];
    let results = vec![
        AurPackage { name: "paru".to_string(), version: "2".to_string(), description: None, num_votes: 3 },
        AurPackage { name: "other".to_string(), version: "9".to_string(), description: None, num_votes: 0 },
    ];
    assert_eq!(
        pair_aur_versions(&installed, &results),
        vec![("paru".to_string(), "1".to_string(), "2".to_string())]
    );
}

#[test]
fn search_scope_and_freshness() {
    assert_eq!(search_scope(true, false), (false, true, "aur"));
    assert_eq!(search_scope(false, true), (true, false, "standard repos"));
    assert_eq!(search_scope(false, false), (true, true, "standard repos and aur"));
    assert_eq!(sync_state(&vec![]), SyncState::Missing);
    assert_eq!(sync_state(&vec![Some(10), None]), SyncState::Fresh);
    assert_eq!(sync_state(&vec![Some(10), Some(604801)]), SyncState::Stale);
    assert_eq!(sync_notice(SyncState::Missing), Some("package databases are missing."));
    assert_eq!(sync_notice(SyncState::Fresh), None);
    assert_eq!(sync_age_text(59), "59s ago");
    assert_eq!(sync_age_text(120), "2m ago");
    assert_eq!(sync_age_text(7200), "2h ago");
    assert_eq!(sync_age_text(172800), "2d ago");
    assert_eq!(decimal_string(0), "0");
    assert_eq!(decimal_string(1234567), "1234567");
}

#[test]
fn system_overview() {
    assert_eq!(os_name("NAME=\"Arch\"\nPRETTY_NAME=\"Arch Linux\"\n"), "Arch Linux");
    assert_eq!(os_name("NAME=x\n"), "arch linux");
    assert_eq!(health_issues(2, true), s(&["2 orphans", "stale db lock"]));
    assert!(health_issues(0, false).is_empty());
    let pkgs = vec![
        InstalledPkg { name: "a".into(), is_explicit: true, required_by_empty: true, optional_for_empty: true, install_date: Some(50), installed_size: 100, in_sync_db: true },
        InstalledPkg { name: "b".into(), is_explicit: false, required_by_empty: true, optional_for_empty: true, install_date: Some(10), installed_size: 20, in_sync_db: false },
        InstalledPkg { name: "c".into(), is_explicit: false, required_by_empty: false, optional_for_empty: true, install_date: Some(90), installed_size: 1, in_sync_db: true },
    ];
    let st = system_stats(&pkgs);
    assert_eq!((st.total, st.explicit, st.dependencies, st.foreign, st.orphans), (3, 1, 2, 1, 1));
    assert_eq!(st.installed_size, 121);
    assert_eq!(st.oldest, "b");
    assert_eq!(st.newest, "c");
    assert!(list_row_shown(false, false, false, true, true));
    assert!(!list_row_shown(true, false, false, false, true));
    assert!(!list_row_shown(false, false, true, false, true));
    assert_eq!(mark_flags(true), ("--asdeps", "dependency"));
    assert_eq!(mark_flags(false), ("--asexplicit", "explicit"));
    assert_eq!(tree_prefix(1, 2), "└─");
    assert_eq!(tree_prefix(0, 2), "├─");
}

#[test]
fn group_members_are_listed_once() {
    let pkgs = vec![
        ("xterm".to_string(), "1".to_string(), s(&["xorg"]), true),
        ("gcc".to_string(), "2".to_string(), s(&["base-devel"]), false),
        ("xterm".to_string(), "1".to_string(), s(&["xorg", "x"]), true),
        ("xclock".to_string(), "3".to_string(), s(&["xorg"]), false),
    ];
    assert_eq!(
        collect_group(&pkgs, "xorg"),
        vec![("xterm".to_string(), "1".to_string(), true), ("xclock".to_string(), "3".to_string(), false)]
    );
}

#[test]
fn relative_time_stamps() {
    let today = (2024, 5, 10);
    let yesterday = (2024, 5, 9);
    assert_eq!(format_relative_timestamp("2024-05-10T08:30", today, yesterday), "today at 08:30");
    assert_eq!(format_relative_timestamp("2024-05-09T23:05", today, yesterday), "yesterday at 23:05");
    assert_eq!(format_relative_timestamp("2024-01-02T03:04", today, yesterday), "Jan 02, 03:04");
    assert_eq!(format_relative_timestamp("2023-01-02T03:04", today, yesterday), "Jan 02, 2023");
    assert_eq!(format_relative_timestamp("unknown", today, yesterday), "unknown");
    assert_eq!(format_log_timestamp("2024-05-10T08:30:59+0200", today, yesterday), "today at 08:30");
    assert_eq!(relative_text("x", None, today, yesterday), "x");
    let odd = "2024-05-10T08:3é0";
    assert_eq!(format_log_timestamp(odd, today, yesterday), format_relative_timestamp(odd, today, yesterday));
}
