use haj::browser::BrowserTab;
use haj::keys::{
    browser_key, clears_copy_note, group_key, history_key, news_key, overlay_key, progress_percent, stats_key, BrowserAction,
    BrowserKeys, GroupAction, GroupKeys, HistoryAction, HistoryKeys, Key, NewsAction, NewsKeys, Overlay,
    OverlayAction, StatsAction,
};
use haj::tui::NewsFocus;

fn overlay(help: bool, installing: bool, prompt: bool) -> Overlay {
    Overlay { help, installing, prompt }
}

#[test]
fn help_takes_keys_and_closes() {
    let (o, a) = overlay_key(overlay(true, false, true), Key::Char('y'));
    assert_eq!((o, a), (overlay(true, false, true), OverlayAction::Nothing));
    let (o, a) = overlay_key(overlay(true, true, false), Key::Char('q'));
    assert_eq!((o, a), (overlay(false, true, false), OverlayAction::Nothing));
    let (o, a) = overlay_key(overlay(false, false, false), Key::Char('?'));
    assert_eq!((o, a), (overlay(true, false, false), OverlayAction::Nothing));
}

#[test]
fn running_transaction_stops_only_on_q() {
    assert_eq!(overlay_key(overlay(false, true, false), Key::Char('q')).1, OverlayAction::AbortRun);
    assert_eq!(overlay_key(overlay(false, true, false), Key::Esc).1, OverlayAction::Nothing);
}

#[test]
fn prompt_answers() {
    assert_eq!(overlay_key(overlay(false, false, true), Key::Enter), (overlay(false, false, false), OverlayAction::RunPrompt));
    assert_eq!(overlay_key(overlay(false, false, true), Key::Char('Y')).1, OverlayAction::RunPrompt);
    assert_eq!(overlay_key(overlay(false, false, true), Key::Char('N')), (overlay(false, false, false), OverlayAction::DropPrompt));
    assert_eq!(overlay_key(overlay(false, false, true), Key::Char('x')), (overlay(false, false, true), OverlayAction::Nothing));
    assert_eq!(overlay_key(overlay(false, false, false), Key::Char('x')).1, OverlayAction::ToScreen);
}

#[test]
fn progress_is_capped() {
    assert_eq!(progress_percent(42), 42);
    assert_eq!(progress_percent(100), 100);
    assert_eq!(progress_percent(250), 100);
}

#[test]
fn stats_keys() {
    assert_eq!(stats_key(Key::Char('h')), StatsAction::OpenHistory);
    assert_eq!(stats_key(Key::Esc), StatsAction::Back);
    assert_eq!(stats_key(Key::Ctrl('q')), StatsAction::Quit);
    assert_eq!(stats_key(Key::Char('z')), StatsAction::Nothing);
}

#[test]
fn history_moves_and_searches() {
    let s = HistoryKeys { expanded: false, editing: false, selected: Some(2), len: 3 };
    assert_eq!(history_key(s, Key::Down).0.selected, Some(0));
    assert_eq!(history_key(s, Key::Char('k')).0.selected, Some(1));
    assert_eq!(history_key(s, Key::Char('g')).0.selected, Some(0));
    assert_eq!(history_key(s, Key::Char('/')).0.editing, true);
    assert_eq!(history_key(s, Key::Enter).0.expanded, true);
    assert_eq!(history_key(s, Key::Tab).1, HistoryAction::NextFilter);
    let e = HistoryKeys { editing: true, ..s };
    assert_eq!(history_key(e, Key::Char('q')), (e, HistoryAction::Push('q')));
    assert_eq!(history_key(e, Key::Delete), (e, HistoryAction::Nothing));
    let x = HistoryKeys { expanded: true, ..s };
    assert_eq!(history_key(x, Key::Char('q')), (x, HistoryAction::Nothing));
    assert_eq!(history_key(x, Key::Esc).0.expanded, false);
}

#[test]
fn groups_keys() {
    let s = GroupKeys { editing: false, selected: None, len: 4 };
    assert_eq!(group_key(s, Key::Char('G')).0.selected, Some(3));
    assert_eq!(group_key(s, Key::Char(' ')).1, GroupAction::ToggleFavorite);
    assert_eq!(group_key(s, Key::Enter).1, GroupAction::OpenInBrowser);
    assert_eq!(group_key(s, Key::Char('i')).1, GroupAction::PromptInstall);
    let e = GroupKeys { editing: true, ..s };
    assert_eq!(group_key(e, Key::Ctrl('l')).1, GroupAction::ClearQuery);
    assert_eq!(group_key(e, Key::Char('l')).1, GroupAction::Push('l'));
    assert_eq!(group_key(e, Key::Esc).0.editing, false);
}

#[test]
fn browser_pages_and_tabs() {
    let s = BrowserKeys { editing: false, tab: BrowserTab::Overview, selected: Some(0), len: 20, scroll: 10 };
    assert_eq!(browser_key(s, Key::PageDown).0.selected, Some(15));
    assert_eq!(browser_key(s, Key::PageUp).0.selected, Some(5));
    assert_eq!(browser_key(s, Key::Char('3')).0.tab, BrowserTab::Files);
    assert_eq!(browser_key(s, Key::Ctrl('d')).0.scroll, 25);
    assert_eq!(browser_key(s, Key::Ctrl('u')).0.scroll, 0);
    assert_eq!(browser_key(s, Key::Char('d')), (s, BrowserAction::Nothing));
    assert_eq!(browser_key(s, Key::Char('f')).0.editing, true);
    assert_eq!(browser_key(s, Key::Char('a')).1, BrowserAction::ToggleSelectionMode);
    assert_eq!(browser_key(s, Key::Char('c')).1, BrowserAction::ExplicitSelection);
    assert_eq!(browser_key(s, Key::BackTab).1, BrowserAction::PreviousFilter);
    let e = BrowserKeys { editing: true, ..s };
    assert_eq!(browser_key(e, Key::Char('q')).1, BrowserAction::Push('q'));
    assert_eq!(browser_key(e, Key::Enter).0.editing, false);
}

#[test]
fn news_list_and_article_keys() {
    let l = NewsKeys { editing: false, focus: NewsFocus::List, scroll: 7 };
    assert_eq!(news_key(l, Key::Down), (NewsKeys { scroll: 0, ..l }, NewsAction::RowDown));
    assert_eq!(news_key(l, Key::Char('G')).1, NewsAction::RowBottom);
    assert_eq!(news_key(l, Key::PageDown), (l, NewsAction::Nothing));
    assert_eq!(news_key(l, Key::Tab).0.focus, NewsFocus::Article);
    assert_eq!(news_key(l, Key::Char(']')).1, NewsAction::NextPage);
    assert_eq!(news_key(l, Key::Char('c')).1, NewsAction::CopyCommands);
    let a = NewsKeys { focus: NewsFocus::Article, ..l };
    assert_eq!(news_key(a, Key::Down).0.scroll, 8);
    assert_eq!(news_key(a, Key::PageUp).0.scroll, 0);
    assert_eq!(news_key(a, Key::End).0.scroll, 999);
    assert_eq!(news_key(a, Key::Char('g')).0.scroll, 0);
    let e = NewsKeys { editing: true, ..l };
    assert_eq!(news_key(e, Key::Ctrl('l')).1, NewsAction::ClearQuery);
    assert_eq!(news_key(e, Key::Char('j')).1, NewsAction::Push('j'));
}

#[test]
fn copy_note_clears_on_other_keys() {
    assert!(clears_copy_note(true, Key::Char('j'), "copied \"x\" to clipboard"));
    assert!(clears_copy_note(true, Key::Esc, "no command found"));
    assert!(!clears_copy_note(true, Key::Char('c'), "copied \"x\" to clipboard"));
    assert!(!clears_copy_note(false, Key::Char('j'), "copied \"x\" to clipboard"));
    assert!(!clears_copy_note(true, Key::Char('j'), "syncing"));
}
