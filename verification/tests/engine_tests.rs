use haj::aur::build_refusal;
use haj::highlight::highlight_or_plain;
use haj::bytes::{byte_len_exceeds, char_index_at_byte_exec};
use haj::commands::dashboard_sync_text;
use haj::highlight::highlight_search;
use haj::news::{headline_is_recent, news_guard_due};
use haj::backend::{pacman_preview_exec, plan_preview_exec, AptBackend, BackendError, PacmanBackend};
use haj::browser::{
    filter_packages, go_to_bottom, go_to_top, next_item, previous_item, sort_packages, GroupInfo,
    PackageFilter, PackageInfo, SelectionMode, SortMode,
};
use haj::commands::{orphan, InstalledPkg};
use haj::conflicts::{conflict_prompt_text, sort_dedup_conflicts, ConflictInfo};
use haj::history::{history_entries, next_filter_exec};
use haj::pacman_log::HistoryFilter;
use haj::pacman_output::{popup_line_events, prompt_kind_exec, OutputState, Stage};
use haj::selection::{action_targets, get_selected_count, is_package_selected, NameSet};
use haj::stream::LineSplitter;
use haj::tui::{
    cycle_group_sort, cycle_sort_mode, next_filter_index, previous_filter_index, toggle_news_focus,
    toggle_selection_mode, toggle_widget, DashboardWidget, GroupSortMode, NewsFocus,
};

fn pkg(name: &str, repo: &str, installed: bool, upgradable: bool) -> PackageInfo {
    PackageInfo {
        name: name.to_string(),
        version: "1.0".to_string(),
        repo: repo.to_string(),
        is_installed: installed,
        is_upgradable: upgradable,
        installed_size: 1,
    }
}

fn names(v: &[PackageInfo]) -> Vec<String> {
    v.iter().map(|p| p.name.clone()).collect()
}

fn s(v: &[&str]) -> Vec<String> {
    v.iter().map(|x| x.to_string()).collect()
}

#[test]
fn pacman_output_stages_and_alerts() {
    let mut st = OutputState::new();
    assert_eq!(st.feed_line("   "), None);
    assert_eq!(st.feed_line("resolving dependencies..."), Some(Stage::Resolving));
    assert_eq!(st.feed_line("checking keys in keyring"), Some(Stage::Verifying));
    assert_eq!(st.feed_line("downloading vim-9.1.pkg.tar.zst"), Some(Stage::Downloading));
    assert_eq!(
        st.feed_line(":: Proceed with installation"),
        Some(Stage::Section("→ Proceed with installation".to_string()))
    );
    assert_eq!(
        st.feed_line("(1/3) upgrading glibc"),
        Some(Stage::Counting { counter: "(1/3)".to_string(), installing: false })
    );
    assert_eq!(
        st.feed_line("(2/3) installing vim"),
        Some(Stage::Counting { counter: "(2/3)".to_string(), installing: true })
    );
    assert_eq!(st.feed_line("some plain text"), None);
    assert_eq!(st.feed_line("error: could not open file"), None);
    assert!(!st.in_hook_phase);
    assert_eq!(st.feed_line("running post-transaction hooks..."), Some(Stage::Hooks));
    assert!(st.in_hook_phase);
    assert_eq!(
        st.feed_line("==> Building image from preset"),
        Some(Stage::HookDetail("==> Building image from preset".to_string()))
    );
    assert_eq!(st.feed_line("firmware not found for module"), None);
    assert_eq!(st.feed_line("hook output"), None);
    assert_eq!(
        st.hook_alerts,
        s(&["error: could not open file", "firmware not found for module"])
    );
    assert_eq!(
        st.context,
        s(&[":: Proceed with installation", "some plain text", "error: could not open file"])
    );
}

#[test]
fn pacman_output_keeps_fifteen_context_lines() {
    let mut st = OutputState::new();
    for i in 0..20 {
        st.feed_line(&format!("line {i}"));
    }
    assert_eq!(st.context.len(), 15);
    assert_eq!(st.context[0], "line 5");
    assert_eq!(st.context[14], "line 19");
}

#[test]
fn pacman_output_keeps_every_section_line() {
    let mut st = OutputState::new();
    for i in 0..20 {
        st.feed_line(&format!(":: section {i}"));
    }
    assert_eq!(st.context.len(), 20);
    st.feed_line("plain");
    assert_eq!(st.context.len(), 20);
    assert_eq!(st.context[0], ":: section 1");
    assert_eq!(st.context[19], "plain");
}

#[test]
fn pacman_questions_are_recognised() {
    assert_eq!(prompt_kind_exec(":: Proceed with installation? [Y/n] "), Some(true));
    assert_eq!(prompt_kind_exec("Enter a number (default=1):"), Some(false));
    assert_eq!(prompt_kind_exec("resolving"), None);
}

#[test]
fn dashboard_reads_pacman_lines() {
    assert!(popup_line_events("   ", false).is_none());
    let ev = popup_line_events("resolving dependencies...", false).unwrap();
    assert_eq!(ev.action, Some("resolving package dependencies...".to_string()));
    assert!(!ev.log);
    assert_eq!(ev.progress, None);
    assert!(!ev.in_hook_phase);

    let ev = popup_line_events("(1/2) removing vim", false).unwrap();
    assert_eq!(ev.action, Some("(1/2) packages removing...".to_string()));

    let ev = popup_line_events(" downloading core.db   50%", false).unwrap();
    assert_eq!(ev.action, None);
    assert!(ev.log);
    assert_eq!(ev.progress, Some(50));

    let ev = popup_line_events("running post-transaction hooks...", false).unwrap();
    assert_eq!(ev.action, Some("running post-transaction hooks...".to_string()));
    assert!(ev.in_hook_phase);

    let ev = popup_line_events("==> Generating module dependencies", true).unwrap();
    assert_eq!(ev.action, Some("==> Generating module dependencies".to_string()));
    assert!(ev.in_hook_phase);

    let ev = popup_line_events("module not found", true).unwrap();
    assert!(ev.log);
    let ev = popup_line_events("module not found", false).unwrap();
    assert!(!ev.log);
    assert_eq!(popup_line_events("abc%", false).unwrap().progress, None);
}

#[test]
fn line_splitter_keeps_the_unfinished_line() {
    let mut sp = LineSplitter::new();
    assert_eq!(sp.push('a'), None);
    assert_eq!(sp.push('b'), None);
    assert_eq!(sp.partial(), "ab");
    assert_eq!(sp.push('\n'), Some("ab".to_string()));
    assert_eq!(sp.partial(), "");
    sp.push('c');
    sp.clear();
    assert_eq!(sp.partial(), "");
    assert_eq!(sp.push('\r'), Some(String::new()));
}

#[test]
fn browser_filters_packages() {
    let list = vec![
        pkg("vim", "extra", true, false),
        pkg("gVim", "extra", false, false),
        pkg("neovim", "core", true, true),
        pkg("emacs", "local/aur", true, false),
    ];
    let groups = vec![GroupInfo {
        name: "editors".to_string(),
        packages: vec![("emacs".to_string(), true), ("vim".to_string(), true)],
        description: "package group".to_string(),
        is_favorite: false,
    }];
    assert_eq!(names(&filter_packages(&list, "VIM", &PackageFilter::All, &groups)), s(&["vim", "gVim", "neovim"]));
    assert_eq!(names(&filter_packages(&list, "", &PackageFilter::Installed, &groups)), s(&["vim", "neovim", "emacs"]));
    assert_eq!(names(&filter_packages(&list, "", &PackageFilter::NotInstalled, &groups)), s(&["gVim"]));
    assert_eq!(names(&filter_packages(&list, "", &PackageFilter::Updates, &groups)), s(&["neovim"]));
    assert_eq!(names(&filter_packages(&list, "", &PackageFilter::Aur, &groups)), s(&["emacs"]));
    assert_eq!(
        names(&filter_packages(&list, "", &PackageFilter::Repositories, &groups)),
        s(&["vim", "gVim", "neovim"])
    );
    assert_eq!(names(&filter_packages(&list, "", &PackageFilter::Repo("core".to_string()), &groups)), s(&["neovim"]));
    assert_eq!(
        names(&filter_packages(&list, "", &PackageFilter::Group("editors".to_string()), &groups)),
        s(&["vim", "emacs"])
    );
    assert!(filter_packages(&list, "", &PackageFilter::Group("none".to_string()), &groups).is_empty());
}

#[test]
fn browser_sorts_packages() {
    let list = vec![
        pkg("neovim", "extra", false, false),
        pkg("gvim", "core", true, false),
        pkg("vim-plugins", "extra", true, false),
        pkg("vim", "extra", false, false),
    ];
    let by = |mode: SortMode, q: &str| -> Vec<String> {
        let copy: Vec<PackageInfo> = list.iter().map(|p| pkg(&p.name, &p.repo, p.is_installed, false)).collect();
        names(&sort_packages(copy, mode, q))
    };
    assert_eq!(by(SortMode::Relevance, "vim"), s(&["vim", "vim-plugins", "gvim", "neovim"]));
    assert_eq!(by(SortMode::Relevance, ""), s(&["gvim", "neovim", "vim", "vim-plugins"]));
    assert_eq!(by(SortMode::Alphabetical, "vim"), s(&["gvim", "neovim", "vim", "vim-plugins"]));
    assert_eq!(by(SortMode::Installed, ""), s(&["gvim", "vim-plugins", "neovim", "vim"]));
    assert_eq!(by(SortMode::Repository, ""), s(&["gvim", "neovim", "vim", "vim-plugins"]));
}

#[test]
fn browser_cursor_moves_and_wraps() {
    assert_eq!(next_item(Some(2), 3), Some(0));
    assert_eq!(next_item(Some(0), 3), Some(1));
    assert_eq!(next_item(None, 3), Some(0));
    assert_eq!(next_item(None, 0), None);
    assert_eq!(previous_item(Some(0), 3), Some(2));
    assert_eq!(previous_item(Some(2), 3), Some(1));
    assert_eq!(previous_item(Some(4), 0), Some(4));
    assert_eq!(go_to_top(Some(2), 3), Some(0));
    assert_eq!(go_to_bottom(None, 3), Some(2));
    assert_eq!(go_to_top(None, 0), None);
}

#[test]
fn browser_selection_and_targets() {
    let visible = vec![pkg("a", "core", false, false), pkg("b", "core", false, false), pkg("c", "core", false, false)];
    let mut selected = NameSet::new();
    let mut deselected = NameSet::new();
    assert_eq!(action_targets(SelectionMode::Explicit, &selected, &deselected, &visible, Some(1)), s(&["b"]));
    assert!(action_targets(SelectionMode::Explicit, &selected, &deselected, &visible, None).is_empty());
    selected.toggle("c");
    selected.toggle("a");
    assert_eq!(action_targets(SelectionMode::Explicit, &selected, &deselected, &visible, Some(1)), s(&["c", "a"]));
    assert_eq!(get_selected_count(SelectionMode::Explicit, &selected, 3, &deselected), 2);
    assert!(is_package_selected(SelectionMode::Explicit, &selected, &deselected, "a"));
    assert!(!is_package_selected(SelectionMode::Explicit, &selected, &deselected, "b"));

    deselected.toggle("b");
    assert_eq!(action_targets(SelectionMode::AllVisible, &selected, &deselected, &visible, Some(0)), s(&["a", "c"]));
    assert_eq!(get_selected_count(SelectionMode::AllVisible, &selected, 3, &deselected), 2);
    assert!(!is_package_selected(SelectionMode::AllVisible, &selected, &deselected, "b"));
    assert!(is_package_selected(SelectionMode::AllVisible, &selected, &deselected, "z"));
    deselected.toggle("x");
    deselected.toggle("y");
    deselected.toggle("z");
    assert_eq!(get_selected_count(SelectionMode::AllVisible, &selected, 3, &deselected), 0);
}

#[test]
fn labels_and_cycles() {
    assert_eq!(PackageFilter::Repo("core".to_string()).label(), "repo:core");
    assert_eq!(PackageFilter::Group("xorg".to_string()).label(), "group:xorg");
    assert_eq!(PackageFilter::NotInstalled.label(), "not installed");
    assert_eq!(SortMode::Relevance.label(), "relevance");
    assert_eq!(cycle_sort_mode(SortMode::Relevance), SortMode::Alphabetical);
    assert_eq!(cycle_sort_mode(SortMode::Alphabetical), SortMode::Installed);
    assert_eq!(cycle_group_sort(GroupSortMode::InstallCompletion), GroupSortMode::Alphabetical);
    assert_eq!(toggle_selection_mode(SelectionMode::Explicit), SelectionMode::AllVisible);
    assert_eq!(toggle_widget(DashboardWidget::News), DashboardWidget::Blahaj);
    assert_eq!(toggle_news_focus(NewsFocus::List), NewsFocus::Article);
    assert_eq!(next_filter_index(5, 6), 0);
    assert_eq!(next_filter_index(2, 6), 3);
    assert_eq!(previous_filter_index(0, 6), 5);
    assert_eq!(next_filter_exec(HistoryFilter::Failures), HistoryFilter::All);
    assert_eq!(next_filter_exec(HistoryFilter::All), HistoryFilter::Installs);
}

#[test]
fn history_keeps_package_changes() {
    let lines = s(&[
        "[2024-01-01T10:00:00+0000] [ALPM] transaction started",
        "[2024-01-01T10:00:01+0000] [ALPM] installed vim (9.1-1)",
        "[2024-01-01T10:00:02+0000] [ALPM] downgraded git (2.40-1 -> 2.39-1)",
        "[2024-01-01T10:00:03+0000] [PACMAN] Running 'pacman -S vim'",
        "[2024-01-01T10:00:04+0000] [ALPM] removed nano (7.2-1)",
    ]);
    assert_eq!(
        history_entries(&lines),
        s(&[
            "[2024-01-01T10:00:01+0000] [ALPM] installed vim (9.1-1)",
            "[2024-01-01T10:00:02+0000] [ALPM] downgraded git (2.40-1 -> 2.39-1)",
            "[2024-01-01T10:00:04+0000] [ALPM] removed nano (7.2-1)",
        ])
    );
}

#[test]
fn command_plans_and_previews() {
    let pacman = PacmanBackend::new().unwrap();
    assert_eq!(pacman.name(), "pacman");
    let plan = pacman.build_install(&["vim", "git"]).unwrap();
    assert_eq!(plan.executable, "pacman");
    assert_eq!(plan.args, s(&["-S", "--noconfirm", "vim", "git"]));
    assert!(plan.requires_root);
    assert_eq!(plan_preview_exec(&plan), "sudo pacman -S --noconfirm vim git");
    assert_eq!(plan_preview_exec(&pacman.build_update().unwrap()), "sudo pacman -Sy --noconfirm");
    assert_eq!(plan_preview_exec(&pacman.build_remove(&["vim"]).unwrap()), "sudo pacman -Rs --noconfirm vim");
    assert_eq!(plan_preview_exec(&pacman.build_upgrade().unwrap()), "sudo pacman -Su --noconfirm");

    let apt = AptBackend::new().unwrap();
    assert_eq!(apt.name(), "apt");
    assert_eq!(plan_preview_exec(&apt.build_install(&["vim"]).unwrap()), "sudo apt-get install -y vim");
    assert_eq!(
        plan_preview_exec(&apt.build_remove(&["vim"]).unwrap()),
        "sudo apt-get remove --auto-remove -y vim"
    );

    assert_eq!(pacman_preview_exec(&s(&["-Syu"]), &Some("/mnt".to_string())), "sudo pacman --root /mnt -Syu");
    assert_eq!(pacman_preview_exec(&s(&["-S", "vim"]), &None), "sudo pacman -S vim");
    assert_eq!(
        BackendError::ExecutionError(1, "boom".to_string()).message("1"),
        "Execution failed (1): boom"
    );
    assert_eq!(BackendError::NotFound("vim".to_string()).message("0"), "Package not found: vim");
}

#[test]
fn orphans_are_unrequired_dependencies() {
    let mk = |explicit: bool, req: bool, opt: bool| InstalledPkg {
        name: "x".to_string(),
        is_explicit: explicit,
        required_by_empty: req,
        optional_for_empty: opt,
        install_date: None,
        installed_size: 0,
        in_sync_db: true,
    };
    assert!(orphan(&mk(false, true, true)));
    assert!(!orphan(&mk(true, true, true)));
    assert!(!orphan(&mk(false, false, true)));
    assert!(!orphan(&mk(false, true, false)));
}

#[test]
fn conflict_questions_and_order() {
    let c = |i: &str, o: &str, k: Option<&str>| ConflictInfo {
        incoming_pkg: i.to_string(),
        installed_pkg: o.to_string(),
        constraint: k.map(str::to_string),
    };
    assert_eq!(
        conflict_prompt_text(&c("nvidia-dkms", "nvidia", None)),
        "replace installed package 'nvidia' with 'nvidia-dkms'? [y/N]"
    );
    let sorted = sort_dedup_conflicts(vec![c("b", "x", None), c("a", "y", Some(">=1")), c("b", "x", None), c("a", "y", None)]);
    let keys: Vec<(String, String, Option<String>)> =
        sorted.into_iter().map(|k| (k.incoming_pkg, k.installed_pkg, k.constraint)).collect();
    assert_eq!(
        keys,
        vec![
            ("a".to_string(), "y".to_string(), None),
            ("a".to_string(), "y".to_string(), Some(">=1".to_string())),
            ("b".to_string(), "x".to_string(), None),
        ]
    );
}

#[test]
fn news_guard_covers_eight_days() {
    assert!(headline_is_recent(0));
    assert!(headline_is_recent(7 * 86400));
    assert!(headline_is_recent(8 * 86400 - 1));
    assert!(!headline_is_recent(8 * 86400));
    assert!(!headline_is_recent(30 * 86400));
    assert!(headline_is_recent(-3600));
}

#[test]
fn news_guard_needs_manual_intervention() {
    assert!(news_guard_due(86400, "glibc: Manual Intervention required", ""));
    assert!(news_guard_due(86400, "Update", "this needs MANUAL INTERVENTION first"));
    assert!(!news_guard_due(86400, "New mirror in town", "nothing to do"));
    assert!(!news_guard_due(9 * 86400, "Manual intervention required", ""));
    assert!(!news_guard_due(8 * 86400, "x", "manual intervention"));
    assert!(news_guard_due(-60, "x", "manual intervention"));
}

fn pieces(v: &[(&str, bool)]) -> Vec<(String, bool)> {
    v.iter().map(|(t, h)| (t.to_string(), *h)).collect()
}

#[test]
fn search_matches_are_marked() {
    assert_eq!(highlight_search("Hello World", "world"), Some(pieces(&[("Hello ", false), ("World", true)])));
    assert_eq!(
        highlight_search("abcabc", "B"),
        Some(pieces(&[("a", false), ("b", true), ("ca", false), ("b", true), ("c", false)]))
    );
    assert_eq!(highlight_search("aaa", "aa"), Some(pieces(&[("aa", true), ("a", false)])));
    assert_eq!(highlight_search("abc", ""), Some(pieces(&[("abc", false)])));
    assert_eq!(highlight_search("", "x"), Some(Vec::new()));
    assert_eq!(highlight_search("no match here", "zz"), Some(pieces(&[("no match here", false)])));
    // lower-casing the dotted capital I lengthens the text, so the match in
    // the lower-cased text lies past the end of the text itself
    assert_eq!(highlight_search("\u{130}a", "a"), None);
}

#[test]
fn dashboard_sync_age() {
    assert_eq!(dashboard_sync_text(0), "0 min ago");
    assert_eq!(dashboard_sync_text(3599), "59 min ago");
    assert_eq!(dashboard_sync_text(3600), "1 hrs ago");
    assert_eq!(dashboard_sync_text(86399), "23 hrs ago");
    assert_eq!(dashboard_sync_text(3 * 86400 + 5), "3 days ago");
    assert_eq!(dashboard_sync_text(-30), "0 min ago");
    assert_eq!(dashboard_sync_text(-90), "-1 min ago");
}

#[test]
fn sort_orders_cycle_back() {
    for m in [SortMode::Alphabetical, SortMode::Installed, SortMode::Repository, SortMode::Relevance] {
        assert_eq!(cycle_sort_mode(cycle_sort_mode(cycle_sort_mode(cycle_sort_mode(m)))), m);
    }
    for g in [GroupSortMode::Alphabetical, GroupSortMode::PackageCount, GroupSortMode::InstallCompletion] {
        assert_eq!(cycle_group_sort(cycle_group_sort(cycle_group_sort(g))), g);
    }
}

#[test]
fn pacman_output_lists_a_warning_once() {
    let mut st = OutputState::new();
    st.feed_line("warning: disk almost full");
    st.feed_line("  warning: disk almost full  ");
    st.feed_line("running pre-transaction hooks...");
    st.feed_line("some hook output");
    assert_eq!(st.hook_alerts, s(&["warning: disk almost full"]));
    assert!(st.in_hook_phase);
    st.feed_line("resolving dependencies...");
    assert!(st.in_hook_phase);
}

#[test]
fn equal_packages_keep_their_order() {
    let list = vec![pkg("vim", "extra", false, false), pkg("emacs", "core", false, false), pkg("vim", "core", false, false)];
    let sorted = sort_packages(list, SortMode::Alphabetical, "");
    let keys: Vec<(String, String)> = sorted.iter().map(|p| (p.name.clone(), p.repo.clone())).collect();
    assert_eq!(
        keys,
        vec![
            ("emacs".to_string(), "core".to_string()),
            ("vim".to_string(), "extra".to_string()),
            ("vim".to_string(), "core".to_string()),
        ]
    );
}

#[test]
fn aur_build_refuses_root() {
    assert_eq!(
        build_refusal(true, "✗"),
        Some("✗ makepkg cannot run as root. please run haj as a normal user.".to_string())
    );
    assert_eq!(build_refusal(false, "✗"), None);
}

#[test]
fn highlighting_falls_back_to_the_plain_line() {
    assert_eq!(
        highlight_or_plain("Pacman update", "pac"),
        vec![("Pac".to_string(), true), ("man update".to_string(), false)]
    );
    assert_eq!(highlight_or_plain("plain", ""), vec![("plain".to_string(), false)]);
}

#[test]
fn byte_lengths_beyond_small_bounds() {
    let long: Vec<char> = "é".repeat(1500).chars().collect();
    assert!(byte_len_exceeds(&long, 2999));
    assert!(!byte_len_exceeds(&long, 3000));
    assert_eq!(char_index_at_byte_exec(&long, 2000), Some(1000));
    assert_eq!(char_index_at_byte_exec(&long, 2001), None);
    assert!(!byte_len_exceeds(&long, usize::MAX));
}
