use haj::browser::{info_dependencies, package_files};
use haj::browser::PackageFilter;
use haj::groups::{group_install_targets, group_remove_targets, select_group_filter};
use haj::browser::{assemble_packages, GroupInfo, LocalPackage, PackageInfo};
use haj::dashboard::{
    home_key, idle_widget, orphan_sweep, push_log, spawn_command, split_frames, transaction_args,
    transaction_text, HomeAction, HomeKey,
};
use haj::groups::{filter_groups, groups_from_listing, sort_groups, toggle_favorite, update_group_filter};
use haj::palette::{palette_key, parse_command, ActiveScreen, PaletteKey, Transition};
use haj::selection::NameSet;
use haj::tui::{CurrentScreen, DashboardWidget, GroupSortMode};

fn s(v: &[&str]) -> Vec<String> {
    v.iter().map(|x| x.to_string()).collect()
}

#[test]
fn palette_commands() {
    assert_eq!(parse_command("update"), Transition::SwitchScreen(ActiveScreen::Updates));
    assert_eq!(parse_command("upgrade"), Transition::SwitchScreen(ActiveScreen::Updates));
    assert_eq!(parse_command("orphans"), Transition::SwitchScreen(ActiveScreen::Orphans));
    assert_eq!(parse_command("exit"), Transition::Quit);
    assert_eq!(parse_command("nonsense"), Transition::CloseCommandPalette);
}

#[test]
fn palette_keys_edit_and_run() {
    let mut buf = String::new();
    assert_eq!(palette_key(PaletteKey::Char('S'), &mut buf), Transition::Stay);
    assert_eq!(palette_key(PaletteKey::Char('t'), &mut buf), Transition::Stay);
    assert_eq!(palette_key(PaletteKey::Char('x'), &mut buf), Transition::Stay);
    assert_eq!(palette_key(PaletteKey::Backspace, &mut buf), Transition::Stay);
    assert_eq!(buf, "St");
    for c in "ats ".chars() {
        palette_key(PaletteKey::Char(c), &mut buf);
    }
    assert_eq!(palette_key(PaletteKey::Enter, &mut buf), Transition::SwitchScreen(ActiveScreen::Stats));
    assert_eq!(buf, "");
    assert_eq!(palette_key(PaletteKey::Esc, &mut buf), Transition::CloseCommandPalette);
}

fn group(name: &str, pkgs: &[(&str, bool)], fav: bool) -> GroupInfo {
    GroupInfo {
        name: name.to_string(),
        packages: pkgs.iter().map(|(n, b)| (n.to_string(), *b)).collect(),
        description: "package group".to_string(),
        is_favorite: fav,
    }
}

#[test]
fn groups_are_searched_and_ordered() {
    let groups = vec![
        group("xorg", &[("a", true), ("b", false), ("c", false)], false),
        group("gnome", &[("d", true)], false),
        group("kde", &[("e", true), ("f", true)], true),
    ];
    let found = filter_groups(groups, "O");
    let names: Vec<&str> = found.iter().map(|g| g.name.as_str()).collect();
    assert_eq!(names, vec!["xorg", "gnome"]);

    let groups = vec![
        group("xorg", &[("a", true), ("b", false), ("c", false)], false),
        group("gnome", &[("d", true)], false),
        group("kde", &[("e", true), ("f", false)], true),
    ];
    let by_count = sort_groups(
        groups.iter().map(|g| group(&g.name, &[], g.is_favorite)).collect(),
        GroupSortMode::Alphabetical,
    );
    assert_eq!(by_count[0].name, "kde");
    assert_eq!(by_count[1].name, "gnome");
    let by_completion = update_group_filter(groups, "", GroupSortMode::InstallCompletion);
    let names: Vec<&str> = by_completion.iter().map(|g| g.name.as_str()).collect();
    assert_eq!(names, vec!["kde", "gnome", "xorg"]);
}

#[test]
fn favourite_toggles_first_match() {
    let mut groups = vec![group("a", &[], false), group("b", &[], true)];
    toggle_favorite(&mut groups, "b");
    assert!(!groups[1].is_favorite);
    toggle_favorite(&mut groups, "zzz");
    assert!(!groups[0].is_favorite);
}

fn pkg(name: &str, installed: bool, upgradable: bool) -> PackageInfo {
    PackageInfo {
        name: name.to_string(),
        version: "1".to_string(),
        repo: "extra".to_string(),
        is_installed: installed,
        is_upgradable: upgradable,
        installed_size: 10,
    }
}

#[test]
fn groups_from_pacman_listing() {
    let packages = vec![pkg("xterm", true, false), pkg("xclock", false, false)];
    let out = "xorg xterm\nbase-devel gcc\nxorg xclock\nbroken\n";
    let groups = groups_from_listing(out, &packages);
    assert_eq!(groups.len(), 2);
    assert_eq!(groups[0].name, "base-devel");
    assert_eq!(groups[0].packages, vec![("gcc".to_string(), false)]);
    assert_eq!(groups[1].name, "xorg");
    assert_eq!(
        groups[1].packages,
        vec![("xterm".to_string(), true), ("xclock".to_string(), false)]
    );
}

#[test]
fn package_list_adds_foreign_packages() {
    let sync = vec![pkg("zsh", true, true), pkg("bash", true, false), pkg("vim", false, false)];
    let local = vec![
        LocalPackage { name: "yay".to_string(), version: "12".to_string(), installed_size: 5 },
        LocalPackage { name: "bash".to_string(), version: "5".to_string(), installed_size: 5 },
    ];
    let (list, installed, updates) = assemble_packages(sync, &local);
    let names: Vec<&str> = list.iter().map(|p| p.name.as_str()).collect();
    assert_eq!(names, vec!["bash", "vim", "yay", "zsh"]);
    assert_eq!(list[2].repo, "local/aur");
    assert!(list[2].is_installed);
    assert_eq!(installed, 3);
    assert_eq!(updates, 1);
}

#[test]
fn name_set_insert_reports_new_names() {
    let mut read = NameSet::new();
    assert!(read.insert("https://a"));
    assert!(!read.insert("https://a"));
    assert!(read.contains("https://a"));
    assert_eq!(read.len(), 1);
}

#[test]
fn home_screen_keys() {
    assert_eq!(home_key(HomeKey::Char('q'), DashboardWidget::Blahaj), HomeAction::Quit);
    assert_eq!(home_key(HomeKey::Char('f'), DashboardWidget::Blahaj), HomeAction::Search);
    assert_eq!(home_key(HomeKey::Char('h'), DashboardWidget::News), HomeAction::Open(CurrentScreen::History));
    assert_eq!(home_key(HomeKey::Tab, DashboardWidget::Blahaj), HomeAction::ShowWidget(DashboardWidget::News));
    assert_eq!(home_key(HomeKey::Enter, DashboardWidget::Blahaj), HomeAction::Open(CurrentScreen::Browser));
    assert_eq!(home_key(HomeKey::Enter, DashboardWidget::News), HomeAction::OpenNews);
    assert_eq!(home_key(HomeKey::Char('z'), DashboardWidget::News), HomeAction::Nothing);
    assert_eq!(
        idle_widget(CurrentScreen::Dashboard, DashboardWidget::News, true, 0, 0),
        DashboardWidget::Blahaj
    );
    assert_eq!(
        idle_widget(CurrentScreen::Dashboard, DashboardWidget::News, true, 1, 0),
        DashboardWidget::News
    );
}

#[test]
fn transactions_started_from_the_dashboard() {
    assert_eq!(transaction_args(true, &s(&["a"])), s(&["pacman", "-S", "--noconfirm", "a"]));
    assert_eq!(transaction_args(false, &s(&["a", "b"])), s(&["pacman", "-Rs", "--noconfirm", "a", "b"]));
    assert_eq!(transaction_text("install", &s(&["htop"])), "installing htop...");
    assert_eq!(transaction_text("remov", &s(&["a", "b"])), "removing 2 packages...");
    assert_eq!(
        spawn_command(s(&["pacman", "-Sy"]), false),
        ("sudo".to_string(), s(&["pacman", "-Sy", "--color=never"]))
    );
    assert_eq!(
        spawn_command(s(&["pacman", "--color=never", "-Sy"]), true),
        ("pacman".to_string(), s(&["--color=never", "-Sy"]))
    );
    let (args, text) = orphan_sweep(&s(&["x", "y"]));
    assert_eq!(args, s(&["pacman", "-Rns", "--noconfirm", "x", "y"]));
    assert_eq!(text, "sweeping 2 orphans...");
}

#[test]
fn popup_log_keeps_thirty_lines() {
    let mut logs = Vec::new();
    for i in 0..31 {
        push_log(&mut logs, format!("line {i}"));
    }
    assert_eq!(logs.len(), 30);
    assert_eq!(logs[0], "line 1");
    assert_eq!(logs[29], "line 30");
}

#[test]
fn art_output_is_cut_into_frames() {
    let mut buf = b"one\x1b[Htwo\x1b[Hpart".to_vec();
    let frames = split_frames(&mut buf);
    assert_eq!(frames, vec![b"one".to_vec(), b"two".to_vec()]);
    assert_eq!(buf, b"part".to_vec());
}

#[test]
fn details_panes_read_pacman_output() {
    let info = "Name            : vim\nDepends On      : gpm  acl  None\nOptional Deps   : None\nRequired By     : vim-plugins\nDescription     : x: y\n";
    assert_eq!(info_dependencies(info), s(&["gpm", "acl", "vim-plugins"]));
    assert_eq!(package_files("vim /usr/bin/vim\nvim /usr/share/\n", "vim"), s(&["/usr/bin/", "/usr/share/"]));
}

#[test]
fn acting_on_groups() {
    let g = group("xorg", &[("a", true), ("b", false), ("c", true)], false);
    assert_eq!(group_install_targets(&g), s(&["a", "b", "c"]));
    assert_eq!(group_remove_targets(&g), s(&["a", "c"]));
    let mut filters = vec![PackageFilter::All, PackageFilter::Group("kde".to_string())];
    assert_eq!(select_group_filter(&mut filters, "kde"), 1);
    assert_eq!(filters.len(), 2);
    assert_eq!(select_group_filter(&mut filters, "xorg"), 2);
    assert_eq!(filters[2], PackageFilter::Group("xorg".to_string()));
}
