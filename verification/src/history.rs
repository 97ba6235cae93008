//! The history views: filtering transactions on the dashboard and picking
//! the recent changes that `haj history` prints.
use vstd::prelude::*;
use chrono::{Datelike, Timelike};
use crate::bytes::{byte_len, char_index_at_byte, char_index_at_byte_exec, byte_len_exceeds};
use crate::pacman_log::{
    Transaction, TxView, PkgChange, PkgChangeView, TxAction, HistoryFilter, strings_view,
    opt_view,
};
use crate::text::{contains, lowercase, find, find_from, chars_of, string_of, contains_exec, to_lowercase,
    find_exec, slice_range, remove_char, remove_char_exec, matches_at};

verus! {

/// Whether a transaction shows under a history filter.
pub open spec fn filter_admits(f: HistoryFilter, tx: TxView) -> bool {
    match f {
        HistoryFilter::All => true,
        HistoryFilter::Installs => tx.primary_action == TxAction::Install,
        HistoryFilter::Upgrades => tx.primary_action == TxAction::Upgrade,
        HistoryFilter::Removals => tx.primary_action == TxAction::Remove,
        HistoryFilter::Failures => !tx.is_success,
    }
}

/// Some package of `pkgs` has a name whose lower-case form contains `q`.
pub open spec fn some_pkg_matches(pkgs: Seq<PkgChangeView>, q: Seq<char>) -> bool {
    exists|i: int| 0 <= i < pkgs.len() && contains(lowercase(#[trigger] pkgs[i].name), q)
}

/// Whether a transaction matches a lower-cased search query: an empty
/// query matches all, else the timestamp or a package name must contain it
/// (both compared in lower case).
pub open spec fn query_admits(q: Seq<char>, tx: TxView) -> bool {
    q.len() == 0 || contains(lowercase(tx.timestamp), q) || some_pkg_matches(tx.packages, q)
}

pub open spec fn history_filter(txs: Seq<TxView>, q: Seq<char>, f: HistoryFilter) -> Seq<TxView>
    decreases txs.len(),
{
    if txs.len() == 0 {
        seq![]
    } else {
        let rest = history_filter(txs.drop_last(), q, f);
        if query_admits(q, txs.last()) && filter_admits(f, txs.last()) {
            rest.push(txs.last())
        } else {
            rest
        }
    }
}

/// The filter that the tab key moves to.
pub open spec fn next_filter(f: HistoryFilter) -> HistoryFilter {
    match f {
        HistoryFilter::All => HistoryFilter::Installs,
        HistoryFilter::Installs => HistoryFilter::Upgrades,
        HistoryFilter::Upgrades => HistoryFilter::Removals,
        HistoryFilter::Removals => HistoryFilter::Failures,
        HistoryFilter::Failures => HistoryFilter::All,
    }
}

/// The selection kept after a list changed length: none for an empty list,
/// else the old one (or the first) moved inside the list.
pub open spec fn clamp_selection_spec(sel: Option<usize>, len: nat) -> Option<usize> {
    if len == 0 {
        None
    } else {
        let i = match sel {
            Some(i) => i as int,
            None => 0,
        };
        Some(if i < len { i as usize } else { (len - 1) as usize })
    }
}

/// The four kinds of `[ALPM]` lines that `haj history` lists.
pub open spec fn is_history_entry(line: Seq<char>) -> bool {
    contains(line, "[ALPM] installed"@) || contains(line, "[ALPM] upgraded"@) || contains(
        line,
        "[ALPM] removed"@,
    ) || contains(line, "[ALPM] downgraded"@)
}

/// Without a search, the history's filters keep, in order, all the
/// transactions, those named by an install, by an upgrade, by a removal,
/// and those that failed.
pub proof fn law_history_filters(txs: Seq<TxView>)
    ensures
        history_filter(txs, seq![], HistoryFilter::All) == txs,
        history_filter(txs, seq![], HistoryFilter::Installs) == txs.filter(
            |t: TxView| t.primary_action == TxAction::Install,
        ),
        history_filter(txs, seq![], HistoryFilter::Upgrades) == txs.filter(
            |t: TxView| t.primary_action == TxAction::Upgrade,
        ),
        history_filter(txs, seq![], HistoryFilter::Removals) == txs.filter(
            |t: TxView| t.primary_action == TxAction::Remove,
        ),
        history_filter(txs, seq![], HistoryFilter::Failures) == txs.filter(|t: TxView| !t.is_success),
    decreases txs.len(),
{
    reveal_with_fuel(Seq::<TxView>::filter, 1);
    if txs.len() > 0 {
        law_history_filters(txs.drop_last());
        assert(txs.drop_last().push(txs.last()) =~= txs);
    }
}

/// The history lines among `lines`, in order.
pub open spec fn history_lines(lines: Seq<Seq<char>>) -> Seq<Seq<char>>
    decreases lines.len(),
{
    if lines.len() == 0 {
        seq![]
    } else if is_history_entry(lines.last()) {
        history_lines(lines.drop_last()).push(lines.last())
    } else {
        history_lines(lines.drop_last())
    }
}

/// `haj history` lists exactly the log lines that record an installation,
/// an upgrade, a removal or a downgrade, in their order in the log.
pub proof fn law_history_lists_changes(lines: Seq<Seq<char>>)
    ensures
        history_lines(lines) == lines.filter(
            |l: Seq<char>|
                contains(l, "[ALPM] installed"@) || contains(l, "[ALPM] upgraded"@) || contains(
                    l,
                    "[ALPM] removed"@,
                ) || contains(l, "[ALPM] downgraded"@),
        ),
    decreases lines.len(),
{
    reveal_with_fuel(Seq::<Seq<char>>::filter, 1);
    if lines.len() > 0 {
        law_history_lists_changes(lines.drop_last());
    }
}

/// A history line cut at its first ` [ALPM] `: the timestamp without its
/// brackets and the action that follows; none when the marker is absent.
pub open spec fn split_history_entry_spec(entry: Seq<char>) -> Option<(Seq<char>, Seq<char>)> {
    match find(entry, " [ALPM] "@) {
        Some(i) => Some(
            (
                remove_char(remove_char(entry.take(i), '['), ']'),
                entry.skip(i + " [ALPM] "@.len()),
            ),
        ),
        None => None,
    }
}

// ---------------------------------------------------------------- exec ----

pub fn next_filter_exec(f: HistoryFilter) -> (r: HistoryFilter)
    ensures
        r == next_filter(f),
{
    match f {
        HistoryFilter::All => HistoryFilter::Installs,
        HistoryFilter::Installs => HistoryFilter::Upgrades,
        HistoryFilter::Upgrades => HistoryFilter::Removals,
        HistoryFilter::Removals => HistoryFilter::Failures,
        HistoryFilter::Failures => HistoryFilter::All,
    }
}

pub fn clamp_selection(sel: Option<usize>, len: usize) -> (r: Option<usize>)
    ensures
        r == clamp_selection_spec(sel, len as nat),
        r matches Some(i) ==> i < len,
{
    if len == 0 {
        None
    } else {
        let i = match sel {
            Some(i) => i,
            None => 0,
        };
        Some(if i < len { i } else { len - 1 })
    }
}

fn clone_strings(v: &Vec<String>) -> (r: Vec<String>)
    ensures
        strings_view(r@) == strings_view(v@),
{
    let mut out: Vec<String> = Vec::new();
    let mut k: usize = 0;
    while k < v.len()
        invariant
            k <= v.len(),
            strings_view(out@) == strings_view(v@).take(k as int),
        decreases v.len() - k,
    {
        let ghost old_out = out@;
        out.push(v[k].clone());
        assert(strings_view(out@) =~= strings_view(old_out).push(v@[k as int]@));
        assert(strings_view(v@).take(k + 1) =~= strings_view(v@).take(k as int).push(
            v@[k as int]@,
        ));
        k = k + 1;
    }
    assert(strings_view(v@).take(k as int) =~= strings_view(v@));
    out
}

fn clone_change(c: &PkgChange) -> (r: PkgChange)
    ensures
        r@ == c@,
{
    PkgChange {
        name: c.name.clone(),
        old_version: match &c.old_version {
            Some(v) => Some(v.clone()),
            None => None,
        },
        new_version: c.new_version.clone(),
        action: c.action,
    }
}

/// A copy of a transaction.
pub fn clone_transaction(t: &Transaction) -> (r: Transaction)
    ensures
        r@ == t@,
{
    let mut pk: Vec<PkgChange> = Vec::new();
    let mut k: usize = 0;
    while k < t.packages.len()
        invariant
            k <= t.packages.len(),
            pk@.len() == k,
            forall|j: int| 0 <= j < k ==> (#[trigger] pk@[j])@ == t.packages@[j]@,
        decreases t.packages.len() - k,
    {
        pk.push(clone_change(&t.packages[k]));
        k = k + 1;
    }
    assert(pk@.map_values(|p: PkgChange| p@) =~= t.packages@.map_values(|p: PkgChange| p@));
    Transaction {
        timestamp: t.timestamp.clone(),
        is_success: t.is_success,
        primary_action: t.primary_action,
        packages: pk,
        hooks: clone_strings(&t.hooks),
        warnings: clone_strings(&t.warnings),
        raw_log: clone_strings(&t.raw_log),
    }
}

fn filter_admits_exec(f: HistoryFilter, tx: &Transaction) -> (r: bool)
    ensures
        r == filter_admits(f, tx@),
{
    match f {
        HistoryFilter::All => true,
        HistoryFilter::Installs => tx.primary_action == TxAction::Install,
        HistoryFilter::Upgrades => tx.primary_action == TxAction::Upgrade,
        HistoryFilter::Removals => tx.primary_action == TxAction::Remove,
        HistoryFilter::Failures => !tx.is_success,
    }
}

fn query_admits_exec(q: &[char], tx: &Transaction) -> (r: bool)
    ensures
        r == query_admits(q@, tx@),
{
    if q.len() == 0 {
        return true;
    }
    let ts = to_lowercase(chars_of(tx.timestamp.as_str()).as_slice());
    if contains_exec(ts.as_slice(), q) {
        return true;
    }
    let ghost pv = tx.packages@.map_values(|p: PkgChange| p@);
    let mut k: usize = 0;
    while k < tx.packages.len()
        invariant
            k <= tx.packages.len(),
            pv == tx.packages@.map_values(|p: PkgChange| p@),
            forall|j: int| 0 <= j < k ==> !contains(lowercase(#[trigger] pv[j].name), q@),
        decreases tx.packages.len() - k,
    {
        let n = to_lowercase(chars_of(tx.packages[k].name.as_str()).as_slice());
        if contains_exec(n.as_slice(), q) {
            assert(contains(lowercase(pv[k as int].name), q@));
            return true;
        }
        k = k + 1;
    }
    false
}

/// The transactions that the history screen lists: those whose timestamp or
/// a package name contains the query (ignoring case) and that the filter
/// admits, in their order.
pub fn filter_transactions(txs: &Vec<Transaction>, query: &str, filter: HistoryFilter) -> (r: Vec<
    Transaction,
>)
    ensures
        r@.map_values(|t: Transaction| t@) == history_filter(
            txs@.map_values(|t: Transaction| t@),
            lowercase(query@),
            filter,
        ),
{
    let q = to_lowercase(chars_of(query).as_slice());
    let ghost tv = txs@.map_values(|t: Transaction| t@);
    let mut out: Vec<Transaction> = Vec::new();
    let mut k: usize = 0;
    assert(tv.take(0) =~= Seq::<TxView>::empty());
    while k < txs.len()
        invariant
            k <= txs.len(),
            tv == txs@.map_values(|t: Transaction| t@),
            q@ == lowercase(query@),
            out@.map_values(|t: Transaction| t@) == history_filter(tv.take(k as int), q@, filter),
        decreases txs.len() - k,
    {
        assert(tv.take(k + 1).drop_last() =~= tv.take(k as int));
        if query_admits_exec(q.as_slice(), &txs[k]) && filter_admits_exec(filter, &txs[k]) {
            let ghost old_out = out@;
            out.push(clone_transaction(&txs[k]));
            assert(out@.map_values(|t: Transaction| t@) =~= old_out.map_values(
                |t: Transaction| t@,
            ).push(tv[k as int]));
        }
        k = k + 1;
    }
    assert(tv.take(k as int) =~= tv);
    out
}

pub fn is_history_entry_exec(line: &str) -> (r: bool)
    ensures
        r == is_history_entry(line@),
{
    let l = chars_of(line);
    contains_exec(l.as_slice(), chars_of("[ALPM] installed").as_slice()) || contains_exec(
        l.as_slice(),
        chars_of("[ALPM] upgraded").as_slice(),
    ) || contains_exec(l.as_slice(), chars_of("[ALPM] removed").as_slice()) || contains_exec(
        l.as_slice(),
        chars_of("[ALPM] downgraded").as_slice(),
    )
}

/// The history lines of a log, in order.
pub fn history_entries(lines: &Vec<String>) -> (r: Vec<String>)
    ensures
        strings_view(r@) == history_lines(strings_view(lines@)),
{
    let ghost lv = strings_view(lines@);
    let mut out: Vec<String> = Vec::new();
    let mut k: usize = 0;
    assert(lv.take(0) =~= Seq::<Seq<char>>::empty());
    while k < lines.len()
        invariant
            k <= lines.len(),
            lv == strings_view(lines@),
            strings_view(out@) == history_lines(lv.take(k as int)),
        decreases lines.len() - k,
    {
        assert(lv.take(k + 1).drop_last() =~= lv.take(k as int));
        assert(lv[k as int] == lines@[k as int]@);
        let keep = is_history_entry_exec(lines[k].as_str());
        if keep {
            let ghost old_out = out@;
            out.push(lines[k].clone());
            assert(strings_view(out@) =~= strings_view(old_out).push(lv[k as int]));
        }
        k = k + 1;
    }
    assert(lv.take(k as int) =~= lv);
    out
}

/// Where the listing of the last `limit` of `len` entries starts.
pub fn history_start(len: usize, limit: usize) -> (r: usize)
    ensures
        r == if len > limit {
            len - limit
        } else {
            0
        },
{
    if len > limit {
        len - limit
    } else {
        0
    }
}

/// Split a history line at ` [ALPM] ` into its bare timestamp and action.
pub fn split_history_entry(entry: &str) -> (r: Option<(String, String)>)
    ensures
        match r {
            Some((t, a)) => split_history_entry_spec(entry@) == Some((t@, a@)),
            None => split_history_entry_spec(entry@) is None,
        },
{
    let e = chars_of(entry);
    let m = chars_of(" [ALPM] ");
    match find_exec(e.as_slice(), m.as_slice()) {
        Some(i) => {
            proof {
                crate::text::lemma_find_from(e@, m@, 0);
                assert(find_from(e@, m@, 0) == Some(i as int));
                assert(matches_at(e@, i as int, m@));
                assert(i + m@.len() <= e@.len());
            }
            assert(i + m.len() <= e.len());
            let ts = slice_range(e.as_slice(), 0, i);
            let ts = remove_char_exec(remove_char_exec(ts.as_slice(), '[').as_slice(), ']');
            let act = slice_range(e.as_slice(), i + m.len(), e.len());
            assert(act@ =~= e@.skip(i + m@.len()));
            assert(e@.subrange(0, i as int) =~= e@.take(i as int));
            Some((string_of(ts.as_slice()), string_of(act.as_slice())))
        },
        None => None,
    }
}


/// chrono's reading of a log time stamp `YYYY-MM-DDTHH:MM`: its date and
/// the texts `%H:%M`, `%b %d, %H:%M` and `%b %d, %Y` of it.
pub uninterp spec fn stamp_parts(ts: Seq<char>) -> Option<(i32, u32, u32, Seq<char>, Seq<char>, Seq<char>)>;

/// chrono: `NaiveDateTime::parse_from_str(ts, "%Y-%m-%dT%H:%M")`, its
/// `year`, `month` and `day`, and its `format` with the three patterns.
/// The result depends on `ts` alone; the texts are left to chrono.
#[verifier::external_body]
fn parse_stamp(ts: &str) -> (r: Option<(i32, u32, u32, String, String, String)>)
    ensures
        match r {
            Some((y, m, d, a, b, c)) => stamp_parts(ts@) == Some((y, m, d, a@, b@, c@)),
            None => stamp_parts(ts@) is None,
        },
{
    match chrono::NaiveDateTime::parse_from_str(ts, "%Y-%m-%dT%H:%M") {
        Ok(dt) => Some(
            (
                dt.year(),
                dt.month(),
                dt.day(),
                dt.format("%H:%M").to_string(),
                dt.format("%b %d, %H:%M").to_string(),
                dt.format("%b %d, %Y").to_string(),
            ),
        ),
        Err(_) => None,
    }
}

/// A time stamp told relative to `today`: "today at" or "yesterday at"
/// and the time, else the day and time within this year, else the day and
/// year; a stamp that cannot be read is shown as it is.
pub open spec fn relative_text_spec(
    ts: Seq<char>,
    parts: Option<(i32, u32, u32, Seq<char>, Seq<char>, Seq<char>)>,
    today: (i32, u32, u32),
    yesterday: (i32, u32, u32),
) -> Seq<char> {
    match parts {
        None => ts,
        Some((y, m, d, hm, md_hm, md_y)) => if (y, m, d) == today {
            "today at "@ + hm
        } else if (y, m, d) == yesterday {
            "yesterday at "@ + hm
        } else if y == today.0 {
            md_hm
        } else {
            md_y
        },
    }
}

/// The text for a time stamp given what chrono read of it.
pub fn relative_text(
    ts: &str,
    parts: Option<(i32, u32, u32, String, String, String)>,
    today: (i32, u32, u32),
    yesterday: (i32, u32, u32),
) -> (r: String)
    ensures
        r@ == relative_text_spec(
            ts@,
            match parts {
                Some((y, m, d, a, b, c)) => Some((y, m, d, a@, b@, c@)),
                None => None,
            },
            today,
            yesterday,
        ),
{
    match parts {
        None => ts.to_string(),
        Some((y, m, d, hm, md_hm, md_y)) => {
            if y == today.0 && m == today.1 && d == today.2 {
                "today at ".to_string().concat(hm.as_str())
            } else if y == yesterday.0 && m == yesterday.1 && d == yesterday.2 {
                "yesterday at ".to_string().concat(hm.as_str())
            } else if y == today.0 {
                md_hm
            } else {
                md_y
            }
        },
    }
}

/// A transaction's time stamp as the history screen shows it, `today` and
/// `yesterday` being the local dates.
pub fn format_relative_timestamp(ts: &str, today: (i32, u32, u32), yesterday: (i32, u32, u32)) -> (r:
    String)
    ensures
        r@ == relative_text_spec(ts@, stamp_parts(ts@), today, yesterday),
{
    let parts = parse_stamp(ts);
    relative_text(ts, parts, today, yesterday)
}

/// The first 16 bytes of a time stamp: what the recent-changes listing
/// reads. All of it when it is shorter, or when byte 16 falls inside a
/// character.
pub open spec fn stamp_prefix(ts: Seq<char>) -> Seq<char> {
    if byte_len(ts) >= 16 {
        match char_index_at_byte(ts, 16, 0) {
            Some(m) => ts.take(m),
            None => ts,
        }
    } else {
        ts
    }
}

/// A log line's time stamp as `haj history` shows it: cut to its first 16
/// bytes.
pub fn format_log_timestamp(ts: &str, today: (i32, u32, u32), yesterday: (i32, u32, u32)) -> (r:
    String)
    ensures
        r@ == relative_text_spec(stamp_prefix(ts@), stamp_parts(stamp_prefix(ts@)), today, yesterday),
{
    let cs = chars_of(ts);
    let short = if byte_len_exceeds(cs.as_slice(), 15) {
        match char_index_at_byte_exec(cs.as_slice(), 16) {
            Some(m) => string_of(slice_range(cs.as_slice(), 0, m).as_slice()),
            None => ts.to_string(),
        }
    } else {
        ts.to_string()
    };
    assert(short@ == stamp_prefix(ts@)) by {
        if byte_len(ts@) >= 16 && char_index_at_byte(ts@, 16, 0) is Some {
            let m = char_index_at_byte(ts@, 16, 0)->0;
            assert(cs@.subrange(0, m) =~= ts@.take(m));
        }
    }
    format_relative_timestamp(short.as_str(), today, yesterday)
}

} // verus!
