use haj::history::{clamp_selection, filter_transactions, history_start, split_history_entry};
use haj::pacman_log::{history_counts, parse_pacman_log, HistoryCounts, HistoryFilter, TxAction};

fn log() -> Vec<String> {
    [
        "[2024-05-01T10:00:00+0200] [PACMAN] Running 'pacman -S htop'",
        "[2024-05-01T10:00:01+0200] [ALPM] transaction started",
        "[2024-05-01T10:00:02+0200] [ALPM] installed htop (3.3.0-1)",
        "[2024-05-01T10:00:02+0200] [ALPM] warning: /etc/htoprc installed as /etc/htoprc.pacnew",
        "[2024-05-01T10:00:03+0200] [ALPM] transaction completed",
        "[2024-05-02T09:00:00+0200] [ALPM] transaction started",
        "[2024-05-02T09:00:01+0200] [ALPM] upgraded bash (5.2.026-1 -> 5.2.026-2)",
        "[2024-05-02T09:00:01+0200] [ALPM] upgraded zsh (5.9-4 -> 5.9-5)",
        "[2024-05-02T09:00:02+0200] [ALPM-SCRIPTLET] Running post-transaction hooks...",
        "[2024-05-02T09:00:03+0200] [ALPM] Running 'systemd-update.hook'...",
        "[2024-05-02T09:00:04+0200] [ALPM] transaction failed",
    ]
    .iter()
    .map(|s| s.to_string())
    .collect()
}

#[test]
fn transactions_are_grouped_newest_first() {
    let txs = parse_pacman_log(&log());
    assert_eq!(txs.len(), 2);
    assert_eq!(txs[0].timestamp, "2024-05-02T09:00");
    assert!(!txs[0].is_success);
    assert_eq!(txs[0].primary_action, TxAction::Upgrade);
    assert_eq!(txs[0].packages.len(), 2);
    assert_eq!(txs[0].packages[0].name, "bash");
    assert_eq!(txs[0].packages[0].old_version.as_deref(), Some("5.2.026-1"));
    assert_eq!(txs[0].packages[0].new_version, "5.2.026-2");
    assert_eq!(txs[0].raw_log.len(), 6);
    assert_eq!(txs[1].timestamp, "2024-05-01T10:00");
    assert!(txs[1].is_success);
    assert_eq!(txs[1].primary_action, TxAction::Install);
    assert_eq!(txs[1].packages[0].new_version, "3.3.0-1");
    assert_eq!(txs[1].warnings, vec!["/etc/htoprc installed as /etc/htoprc.pacnew".to_string()]);
}

#[test]
fn hooks_are_named_without_the_runner() {
    let txs = parse_pacman_log(&log());
    assert_eq!(
        txs[0].hooks,
        vec!["post-transaction hooks...".to_string(), "'systemd-update.hook'...".to_string()]
    );
}

#[test]
fn lines_outside_a_transaction_are_ignored() {
    let lines = vec![
        "[2024-05-01T10:00:02+0200] [ALPM] installed htop (3.3.0-1)".to_string(),
        "[2024-05-01T10:00:03+0200] [ALPM] transaction completed".to_string(),
    ];
    assert!(parse_pacman_log(&lines).is_empty());
}

#[test]
fn short_lines_have_an_unknown_timestamp() {
    let lines = vec![
        "x transaction started".to_string(),
        "transaction completed".to_string(),
    ];
    let txs = parse_pacman_log(&lines);
    assert_eq!(txs[0].timestamp, "unknown");
    assert_eq!(txs[0].primary_action, TxAction::Unknown);
}

#[test]
fn history_filter_by_kind_and_query() {
    let txs = parse_pacman_log(&log());
    assert_eq!(filter_transactions(&txs, "", HistoryFilter::All).len(), 2);
    assert_eq!(filter_transactions(&txs, "", HistoryFilter::Failures).len(), 1);
    assert_eq!(filter_transactions(&txs, "", HistoryFilter::Removals).len(), 0);
    let by_name = filter_transactions(&txs, "HTOP", HistoryFilter::All);
    assert_eq!(by_name.len(), 1);
    assert_eq!(by_name[0].packages[0].name, "htop");
    assert_eq!(filter_transactions(&txs, "2024-05-02", HistoryFilter::All).len(), 1);
}

#[test]
fn selection_is_clamped_to_the_list() {
    assert_eq!(clamp_selection(Some(7), 3), Some(2));
    assert_eq!(clamp_selection(Some(1), 3), Some(1));
    assert_eq!(clamp_selection(None, 3), Some(0));
    assert_eq!(clamp_selection(Some(1), 0), None);
}

#[test]
fn history_entries_are_split_at_the_marker() {
    let (ts, action) =
        split_history_entry("[2024-05-01T10:00:02+0200] [ALPM] installed htop (3.3.0-1)").unwrap();
    assert_eq!(ts, "2024-05-01T10:00:02+0200");
    assert_eq!(action, "installed htop (3.3.0-1)");
    assert!(split_history_entry("no marker here").is_none());
    assert_eq!(history_start(10, 3), 7);
    assert_eq!(history_start(2, 3), 0);
}

#[test]
fn timestamp_cut_inside_a_character_is_unknown() {
    let lines: Vec<String> = vec![
        "[2024-05-10T08:3é] [ALPM] transaction started".to_string(),
        "[2024-05-10T08:3é] [ALPM] transaction completed".to_string(),
    ];
    let txs = parse_pacman_log(&lines);
    assert_eq!(txs.len(), 1);
    assert_eq!(txs[0].timestamp, "unknown");
}

#[test]
fn history_header_counts() {
    let txs = parse_pacman_log(&log());
    assert_eq!(
        history_counts(&txs, "2024-05-02"),
        HistoryCounts { total: 2, today: 1, installs: 1, upgrades: 1, removals: 0 }
    );
    assert_eq!(history_counts(&txs, "2024-06-01").today, 0);
    assert_eq!(history_counts(&Vec::new(), "2024-05-02").total, 0);
}
