//! Reading `/var/log/pacman.log`: grouping its lines into transactions, the
//! history filter of the dashboard, and the recent-changes listing.
use vstd::prelude::*;
use crate::bytes::{byte_len, char_index_at_byte, char_index_at_byte_exec, byte_len_exceeds};
use crate::text::{
    contains, words, remove_char, after_last, trim, replace_all, lowercase, chars_of,
    string_of, contains_exec, words_exec, remove_char_exec, after_last_exec, trim_exec,
    replace_all_exec, to_lowercase, slice_range, starts_with, starts_with_exec,
};

verus! {

#[derive(Clone, Copy, PartialEq, Eq, Debug, Structural)]
pub enum TxAction {
    Install,
    Upgrade,
    Remove,
    Unknown,
}

#[derive(Clone, Copy, PartialEq, Eq, Debug, Structural)]
pub enum HistoryFilter {
    All,
    Installs,
    Upgrades,
    Removals,
    Failures,
}

#[derive(Debug)]
pub struct PkgChange {
    pub name: String,
    pub old_version: Option<String>,
    pub new_version: String,
    pub action: TxAction,
}

#[derive(Debug)]
pub struct Transaction {
    pub timestamp: String,
    pub is_success: bool,
    pub primary_action: TxAction,
    pub packages: Vec<PkgChange>,
    pub hooks: Vec<String>,
    pub warnings: Vec<String>,
    pub raw_log: Vec<String>,
}

pub struct PkgChangeView {
    pub name: Seq<char>,
    pub old_version: Option<Seq<char>>,
    pub new_version: Seq<char>,
    pub action: TxAction,
}

pub struct TxView {
    pub timestamp: Seq<char>,
    pub is_success: bool,
    pub primary_action: TxAction,
    pub packages: Seq<PkgChangeView>,
    pub hooks: Seq<Seq<char>>,
    pub warnings: Seq<Seq<char>>,
    pub raw_log: Seq<Seq<char>>,
}

pub open spec fn opt_view(o: Option<String>) -> Option<Seq<char>> {
    match o {
        Some(s) => Some(s@),
        None => None,
    }
}

pub open spec fn strings_view(v: Seq<String>) -> Seq<Seq<char>> {
    v.map_values(|s: String| s@)
}

impl View for PkgChange {
    type V = PkgChangeView;

    open spec fn view(&self) -> PkgChangeView {
        PkgChangeView {
            name: self.name@,
            old_version: opt_view(self.old_version),
            new_version: self.new_version@,
            action: self.action,
        }
    }
}

impl View for Transaction {
    type V = TxView;

    open spec fn view(&self) -> TxView {
        TxView {
            timestamp: self.timestamp@,
            is_success: self.is_success,
            primary_action: self.primary_action,
            packages: self.packages@.map_values(|p: PkgChange| p@),
            hooks: strings_view(self.hooks@),
            warnings: strings_view(self.warnings@),
            raw_log: strings_view(self.raw_log@),
        }
    }
}

/// The timestamp of a log line: bytes 1 to 17 of a line that starts with
/// `[` and is longer than 18 bytes, else `unknown` (also when byte 17 falls
/// inside a character, where no such cut exists).
pub open spec fn line_timestamp(line: Seq<char>) -> Seq<char> {
    if line.len() > 0 && line[0] == '[' && byte_len(line) > 18 {
        match char_index_at_byte(line, 17, 0) {
            Some(m) => line.subrange(1, m),
            None => "unknown"@,
        }
    } else {
        "unknown"@
    }
}

pub open spec fn count_action(pkgs: Seq<PkgChangeView>, a: TxAction) -> nat
    decreases pkgs.len(),
{
    if pkgs.len() == 0 {
        0
    } else {
        count_action(pkgs.drop_last(), a) + if pkgs.last().action == a {
            1nat
        } else {
            0nat
        }
    }
}

/// The action that names a transaction: the one that most of its packages
/// took, with installs winning ties, and `Unknown` when nothing happened.
pub open spec fn primary_action(installs: nat, upgrades: nat, removals: nat) -> TxAction {
    if upgrades > installs && upgrades > removals {
        TxAction::Upgrade
    } else if removals > installs && removals > upgrades {
        TxAction::Remove
    } else if installs > 0 {
        TxAction::Install
    } else {
        TxAction::Unknown
    }
}

/// The package change that an `[ALPM]` line records, by its whitespace fields.
pub open spec fn alpm_change(line: Seq<char>) -> Option<PkgChangeView> {
    let parts = words(line);
    if contains(line, "[ALPM] installed"@) {
        if parts.len() >= 5 {
            Some(
                PkgChangeView {
                    name: parts[3],
                    old_version: None,
                    new_version: remove_char(remove_char(parts[4], '('), ')'),
                    action: TxAction::Install,
                },
            )
        } else {
            None
        }
    } else if contains(line, "[ALPM] upgraded"@) {
        if parts.len() >= 7 {
            Some(
                PkgChangeView {
                    name: parts[3],
                    old_version: Some(remove_char(parts[4], '(')),
                    new_version: remove_char(parts[6], ')'),
                    action: TxAction::Upgrade,
                },
            )
        } else {
            None
        }
    } else if contains(line, "[ALPM] removed"@) {
        if parts.len() >= 5 {
            Some(
                PkgChangeView {
                    name: parts[3],
                    old_version: None,
                    new_version: remove_char(remove_char(parts[4], '('), ')'),
                    action: TxAction::Remove,
                },
            )
        } else {
            None
        }
    } else {
        None
    }
}

pub open spec fn is_alpm_change_line(line: Seq<char>) -> bool {
    contains(line, "[ALPM] installed"@) || contains(line, "[ALPM] upgraded"@) || contains(
        line,
        "[ALPM] removed"@,
    )
}

/// What a line inside an open transaction adds to it.
pub open spec fn absorb_line(tx: TxView, line: Seq<char>) -> TxView {
    let tx = TxView { raw_log: tx.raw_log.push(line), ..tx };
    if is_alpm_change_line(line) {
        match alpm_change(line) {
            Some(c) => TxView { packages: tx.packages.push(c), ..tx },
            None => tx,
        }
    } else if contains(line, "warning:"@) {
        TxView { warnings: tx.warnings.push(trim(after_last(line, "warning:"@))), ..tx }
    } else if contains(line, "Running"@) && contains(line, "hook"@) {
        TxView {
            hooks: tx.hooks.push(trim(replace_all(after_last(line, "Running"@), "hook..."@, ""@))),
            ..tx
        }
    } else {
        tx
    }
}

/// A transaction closed by its last line.
pub open spec fn close_tx(tx: TxView, line: Seq<char>) -> TxView {
    let pk = tx.packages;
    TxView {
        raw_log: tx.raw_log.push(line),
        is_success: contains(line, "transaction completed"@),
        primary_action: primary_action(
            count_action(pk, TxAction::Install),
            count_action(pk, TxAction::Upgrade),
            count_action(pk, TxAction::Remove),
        ),
        ..tx
    }
}

pub open spec fn open_tx(line: Seq<char>) -> TxView {
    TxView {
        timestamp: line_timestamp(line),
        is_success: false,
        primary_action: TxAction::Unknown,
        packages: seq![],
        hooks: seq![],
        warnings: seq![],
        raw_log: seq![line],
    }
}

pub struct LogState {
    pub done: Seq<TxView>,
    pub current: Option<TxView>,
}

/// One line of the log read in order: a start opens a transaction (dropping
/// one left open), a completion or failure closes the open one, and any other
/// line is absorbed by the open transaction or ignored.
pub open spec fn log_step(st: LogState, line: Seq<char>) -> LogState {
    if contains(line, "transaction started"@) {
        LogState { done: st.done, current: Some(open_tx(line)) }
    } else if contains(line, "transaction completed"@) || contains(line, "transaction failed"@) {
        match st.current {
            Some(tx) => LogState { done: st.done.push(close_tx(tx, line)), current: None },
            None => st,
        }
    } else {
        match st.current {
            Some(tx) => LogState { done: st.done, current: Some(absorb_line(tx, line)) },
            None => st,
        }
    }
}

pub open spec fn log_state(lines: Seq<Seq<char>>) -> LogState
    decreases lines.len(),
{
    if lines.len() == 0 {
        LogState { done: seq![], current: None }
    } else {
        log_step(log_state(lines.drop_last()), lines.last())
    }
}

/// The closed transactions of a log, newest first.
pub open spec fn log_transactions(lines: Seq<Seq<char>>) -> Seq<TxView> {
    log_state(lines).done.reverse()
}

/// Each kind of `[ALPM]` line records its own kind of change: with enough
/// whitespace fields, an `installed` line an install of the fourth field at
/// the fifth (brackets dropped), an `upgraded` line an upgrade from the
/// fifth field to the seventh, a `removed` line a removal of the fourth
/// field at the fifth.
pub proof fn law_alpm_line_kinds(line: Seq<char>)
    ensures
        contains(line, "[ALPM] installed"@) && words(line).len() >= 5 ==> alpm_change(line) == Some(
            PkgChangeView {
                name: words(line)[3],
                old_version: None,
                new_version: remove_char(remove_char(words(line)[4], '('), ')'),
                action: TxAction::Install,
            },
        ),
        !contains(line, "[ALPM] installed"@) && contains(line, "[ALPM] upgraded"@) && words(line).len()
            >= 7 ==> alpm_change(line) == Some(
            PkgChangeView {
                name: words(line)[3],
                old_version: Some(remove_char(words(line)[4], '(')),
                new_version: remove_char(words(line)[6], ')'),
                action: TxAction::Upgrade,
            },
        ),
        !contains(line, "[ALPM] installed"@) && !contains(line, "[ALPM] upgraded"@) && contains(
            line,
            "[ALPM] removed"@,
        ) && words(line).len() >= 5 ==> alpm_change(line) == Some(
            PkgChangeView {
                name: words(line)[3],
                old_version: None,
                new_version: remove_char(remove_char(words(line)[4], '('), ')'),
                action: TxAction::Remove,
            },
        ),
        alpm_change(line) matches Some(c) ==> (c.action == TxAction::Install <==> contains(
            line,
            "[ALPM] installed"@,
        )),
        alpm_change(line) matches Some(c) ==> (c.action == TxAction::Remove <==> (!contains(
            line,
            "[ALPM] installed"@,
        ) && !contains(line, "[ALPM] upgraded"@))),
{
}

proof fn lemma_count_all(pk: Seq<PkgChangeView>, a: TxAction, b: TxAction)
    requires
        forall|i: int| 0 <= i < pk.len() ==> #[trigger] pk[i].action == a,
    ensures
        count_action(pk, a) == pk.len(),
        b != a ==> count_action(pk, b) == 0,
    decreases pk.len(),
{
    if pk.len() > 0 {
        lemma_count_all(pk.drop_last(), a, b);
        assert(pk.last() == pk[pk.len() - 1]);
    }
}

/// A transaction whose changes are all of one kind is named by that kind:
/// only removals make a removal, only upgrades an upgrade, only installs an
/// install; with no change it is unknown.
pub proof fn law_single_kind_transaction(tx: TxView, line: Seq<char>, a: TxAction)
    requires
        a != TxAction::Unknown,
        tx.packages.len() > 0,
        forall|i: int| 0 <= i < tx.packages.len() ==> #[trigger] tx.packages[i].action == a,
    ensures
        close_tx(tx, line).primary_action == a,
{
    lemma_count_all(tx.packages, a, TxAction::Install);
    lemma_count_all(tx.packages, a, TxAction::Upgrade);
    lemma_count_all(tx.packages, a, TxAction::Remove);
}

/// A transaction with no package change is named by no kind.
pub proof fn law_empty_transaction_unknown(tx: TxView, line: Seq<char>)
    requires
        tx.packages.len() == 0,
    ensures
        close_tx(tx, line).primary_action == TxAction::Unknown,
{
}

// ---------------------------------------------------------------- exec ----

fn new_strings() -> (v: Vec<String>)
    ensures
        strings_view(v@) == Seq::<Seq<char>>::empty(),
{
    let v: Vec<String> = Vec::new();
    assert(strings_view(v@) =~= Seq::<Seq<char>>::empty());
    v
}

fn push_string(v: &mut Vec<String>, s: String)
    ensures
        strings_view(final(v)@) == strings_view(old(v)@).push(s@),
{
    let ghost old_v = v@;
    v.push(s);
    assert(strings_view(v@) =~= strings_view(old_v).push(s@));
}

fn timestamp_of(line: &[char]) -> (r: String)
    ensures
        r@ == line_timestamp(line@),
{
    if line.len() > 0 && line[0] == '[' && byte_len_exceeds(line, 18) {
        match char_index_at_byte_exec(line, 17) {
            Some(m) => {
                proof {
                    lemma_index_at_byte_bound(line@, 17, 0);
                }
                string_of(slice_range(line, 1, m).as_slice())
            },
            None => "unknown".to_string(),
        }
    } else {
        "unknown".to_string()
    }
}

/// A found position is within the text, past its first character here.
proof fn lemma_index_at_byte_bound(s: Seq<char>, b: nat, m: int)
    requires
        0 <= m,
        b > 0,
    ensures
        char_index_at_byte(s, b, m) matches Some(k) ==> 1 <= k <= s.len(),
    decreases s.len() - m,
{
    if m > s.len() {
    } else if byte_len(s.take(m)) == b {
        if m == 0 {
            assert(s.take(0) =~= Seq::<char>::empty());
        }
    } else if byte_len(s.take(m)) > b || m == s.len() {
    } else {
        lemma_index_at_byte_bound(s, b, m + 1);
    }
}

fn count_action_exec(pkgs: &Vec<PkgChange>, a: TxAction) -> (n: usize)
    ensures
        n == count_action(pkgs@.map_values(|p: PkgChange| p@), a),
{
    let ghost pv = pkgs@.map_values(|p: PkgChange| p@);
    let mut n: usize = 0;
    let mut k: usize = 0;
    assert(pv.take(0) =~= Seq::<PkgChangeView>::empty());
    while k < pkgs.len()
        invariant
            k <= pkgs.len(),
            pv == pkgs@.map_values(|p: PkgChange| p@),
            n == count_action(pv.take(k as int), a),
            n <= k,
        decreases pkgs.len() - k,
    {
        assert(pv.take(k + 1).drop_last() =~= pv.take(k as int));
        if pkgs[k].action == a {
            n = n + 1;
        }
        k = k + 1;
    }
    assert(pv.take(k as int) =~= pv);
    n
}

fn primary_action_exec(i: usize, u: usize, r: usize) -> (a: TxAction)
    ensures
        a == primary_action(i as nat, u as nat, r as nat),
{
    if u > i && u > r {
        TxAction::Upgrade
    } else if r > i && r > u {
        TxAction::Remove
    } else if i > 0 {
        TxAction::Install
    } else {
        TxAction::Unknown
    }
}

fn alpm_change_exec(line: &[char]) -> (r: Option<PkgChange>)
    ensures
        match r {
            Some(c) => alpm_change(line@) == Some(c@),
            None => alpm_change(line@) is None,
        },
{
    let parts = words_exec(line);
    if contains_exec(line, chars_of("[ALPM] installed").as_slice()) {
        if parts.len() >= 5 {
            let v = remove_char_exec(remove_char_exec(parts[4].as_slice(), '(').as_slice(), ')');
            Some(
                PkgChange {
                    name: string_of(parts[3].as_slice()),
                    old_version: None,
                    new_version: string_of(v.as_slice()),
                    action: TxAction::Install,
                },
            )
        } else {
            None
        }
    } else if contains_exec(line, chars_of("[ALPM] upgraded").as_slice()) {
        if parts.len() >= 7 {
            let o = remove_char_exec(parts[4].as_slice(), '(');
            let v = remove_char_exec(parts[6].as_slice(), ')');
            Some(
                PkgChange {
                    name: string_of(parts[3].as_slice()),
                    old_version: Some(string_of(o.as_slice())),
                    new_version: string_of(v.as_slice()),
                    action: TxAction::Upgrade,
                },
            )
        } else {
            None
        }
    } else if contains_exec(line, chars_of("[ALPM] removed").as_slice()) {
        if parts.len() >= 5 {
            let v = remove_char_exec(remove_char_exec(parts[4].as_slice(), '(').as_slice(), ')');
            Some(
                PkgChange {
                    name: string_of(parts[3].as_slice()),
                    old_version: None,
                    new_version: string_of(v.as_slice()),
                    action: TxAction::Remove,
                },
            )
        } else {
            None
        }
    } else {
        None
    }
}

fn absorb_line_exec(tx: &mut Transaction, line: &[char], raw: String)
    requires
        raw@ == line@,
    ensures
        final(tx)@ == absorb_line(old(tx)@, line@),
{
    push_string(&mut tx.raw_log, raw);
    let is_change = contains_exec(line, chars_of("[ALPM] installed").as_slice())
        || contains_exec(line, chars_of("[ALPM] upgraded").as_slice()) || contains_exec(
        line,
        chars_of("[ALPM] removed").as_slice(),
    );
    if is_change {
        match alpm_change_exec(line) {
            Some(c) => {
                let ghost old_p = tx.packages@;
                tx.packages.push(c);
                assert(tx.packages@.map_values(|p: PkgChange| p@) =~= old_p.map_values(
                    |p: PkgChange| p@,
                ).push(c@));
            },
            None => {},
        }
    } else if contains_exec(line, chars_of("warning:").as_slice()) {
        let w = trim_exec(after_last_exec(line, chars_of("warning:").as_slice()).as_slice());
        push_string(&mut tx.warnings, string_of(w.as_slice()));
    } else if contains_exec(line, chars_of("Running").as_slice()) && contains_exec(
        line,
        chars_of("hook").as_slice(),
    ) {
        let a = after_last_exec(line, chars_of("Running").as_slice());
        let e: Vec<char> = Vec::new();
        let h = replace_all_exec(a.as_slice(), chars_of("hook...").as_slice(), e.as_slice());
        proof {
            assert(e@ =~= ""@) by {
                reveal_strlit("");
            }
        }
        let h = trim_exec(h.as_slice());
        push_string(&mut tx.hooks, string_of(h.as_slice()));
    }
}

/// Group the lines of pacman's log into transactions, newest first.
///
/// A transaction runs from a `transaction started` line to the next
/// `transaction completed` or `transaction failed` line; inside it, the
/// `[ALPM] installed/upgraded/removed` lines give the package changes,
/// `warning:` lines the warnings and `Running ... hook` lines the hooks.
pub fn parse_pacman_log(lines: &Vec<String>) -> (txs: Vec<Transaction>)
    ensures
        txs@.map_values(|t: Transaction| t@) == log_transactions(strings_view(lines@)),
{
    let ghost lv = strings_view(lines@);
    let mut done: Vec<Transaction> = Vec::new();
    let mut current: Option<Transaction> = None;
    let mut i: usize = 0;
    assert(lv.take(0) =~= Seq::<Seq<char>>::empty());
    while i < lines.len()
        invariant
            i <= lines.len(),
            lv == strings_view(lines@),
            done@.map_values(|t: Transaction| t@) == log_state(lv.take(i as int)).done,
            opt_tx_view(current) == log_state(lv.take(i as int)).current,
        decreases lines.len() - i,
    {
        let raw: &String = &lines[i];
        let line = chars_of(raw.as_str());
        assert(lv.take(i + 1).drop_last() =~= lv.take(i as int));
        assert(lv.take(i + 1).last() == line@);
        let ghost st = log_state(lv.take(i as int));
        if contains_exec(line.as_slice(), chars_of("transaction started").as_slice()) {
            let ts = timestamp_of(line.as_slice());
            let mut raw_log = new_strings();
            push_string(&mut raw_log, raw.clone());
            let hooks = new_strings();
            let warnings = new_strings();
            let packages: Vec<PkgChange> = Vec::new();
            proof {
                assert(packages@.map_values(|p: PkgChange| p@) =~= Seq::<PkgChangeView>::empty());
                assert(strings_view(raw_log@) =~= seq![line@]);
            }
            current = Some(
                Transaction {
                    timestamp: ts,
                    is_success: false,
                    primary_action: TxAction::Unknown,
                    packages,
                    hooks,
                    warnings,
                    raw_log,
                },
            );
        } else if contains_exec(line.as_slice(), chars_of("transaction completed").as_slice())
            || contains_exec(line.as_slice(), chars_of("transaction failed").as_slice()) {
            match current.take() {
                Some(mut tx) => {
                    push_string(&mut tx.raw_log, raw.clone());
                    tx.is_success = contains_exec(
                        line.as_slice(),
                        chars_of("transaction completed").as_slice(),
                    );
                    let ins = count_action_exec(&tx.packages, TxAction::Install);
                    let upg = count_action_exec(&tx.packages, TxAction::Upgrade);
                    let rem = count_action_exec(&tx.packages, TxAction::Remove);
                    tx.primary_action = primary_action_exec(ins, upg, rem);
                    let ghost old_done = done@;
                    done.push(tx);
                    assert(done@.map_values(|t: Transaction| t@) =~= old_done.map_values(
                        |t: Transaction| t@,
                    ).push(tx@));
                },
                None => {},
            }
        } else {
            match current {
                Some(ref mut tx) => {
                    absorb_line_exec(tx, line.as_slice(), raw.clone());
                },
                None => {},
            }
        }
        i = i + 1;
    }
    assert(lv.take(i as int) =~= lv);
    let ghost fwd = done@.map_values(|t: Transaction| t@);
    let mut out: Vec<Transaction> = Vec::new();
    while done.len() > 0
        invariant
            fwd.len() == done@.len() + out@.len(),
            forall|k: int| 0 <= k < done@.len() ==> (#[trigger] done@[k])@ == fwd[k],
            forall|k: int|
                0 <= k < out@.len() ==> (#[trigger] out@[k])@ == fwd[fwd.len() - 1 - k],
        decreases done.len(),
    {
        let t = done.pop().unwrap();
        out.push(t);
    }
    assert(out@.map_values(|t: Transaction| t@) =~= fwd.reverse());
    out
}

pub open spec fn opt_tx_view(o: Option<Transaction>) -> Option<TxView> {
    match o {
        Some(t) => Some(t@),
        None => None,
    }
}

/// The transactions dated `day`: those whose time stamp starts with it.
pub open spec fn count_on_day(txs: Seq<TxView>, day: Seq<char>) -> nat
    decreases txs.len(),
{
    if txs.len() == 0 {
        0
    } else {
        count_on_day(txs.drop_last(), day) + if starts_with(txs.last().timestamp, day) {
            1nat
        } else {
            0nat
        }
    }
}

/// The transactions named by the action `a`.
pub open spec fn count_primary(txs: Seq<TxView>, a: TxAction) -> nat
    decreases txs.len(),
{
    if txs.len() == 0 {
        0
    } else {
        count_primary(txs.drop_last(), a) + if txs.last().primary_action == a {
            1nat
        } else {
            0nat
        }
    }
}

/// The figures above the history: all transactions, those of today, and
/// those named by an install, an upgrade and a removal.
#[derive(Clone, Copy, Debug, PartialEq, Eq, Structural)]
pub struct HistoryCounts {
    pub total: usize,
    pub today: usize,
    pub installs: usize,
    pub upgrades: usize,
    pub removals: usize,
}

/// Counts the transactions for the history's header; `today` is the local
/// date as `YYYY-MM-DD`.
pub fn history_counts(txs: &Vec<Transaction>, today: &str) -> (r: HistoryCounts)
    ensures
        r.total == txs@.len(),
        r.today == count_on_day(txs@.map_values(|t: Transaction| t@), today@),
        r.installs == count_primary(txs@.map_values(|t: Transaction| t@), TxAction::Install),
        r.upgrades == count_primary(txs@.map_values(|t: Transaction| t@), TxAction::Upgrade),
        r.removals == count_primary(txs@.map_values(|t: Transaction| t@), TxAction::Remove),
{
    let ghost v = txs@.map_values(|t: Transaction| t@);
    let day = chars_of(today);
    let mut c = HistoryCounts { total: txs.len(), today: 0, installs: 0, upgrades: 0, removals: 0 };
    let mut i: usize = 0;
    assert(v.take(0) =~= Seq::<TxView>::empty());
    while i < txs.len()
        invariant
            i <= txs.len(),
            v == txs@.map_values(|t: Transaction| t@),
            day@ == today@,
            c.total == txs@.len(),
            c.today == count_on_day(v.take(i as int), today@),
            c.installs == count_primary(v.take(i as int), TxAction::Install),
            c.upgrades == count_primary(v.take(i as int), TxAction::Upgrade),
            c.removals == count_primary(v.take(i as int), TxAction::Remove),
            c.today <= i && c.installs <= i && c.upgrades <= i && c.removals <= i,
        decreases txs.len() - i,
    {
        proof {
            assert(v.take(i + 1).drop_last() =~= v.take(i as int));
            assert(v.take(i + 1).last() == txs@[i as int]@);
        }
        let t = &txs[i];
        let ts = chars_of(t.timestamp.as_str());
        if starts_with_exec(ts.as_slice(), day.as_slice()) {
            c.today = c.today + 1;
        }
        match t.primary_action {
            TxAction::Install => c.installs = c.installs + 1,
            TxAction::Upgrade => c.upgrades = c.upgrades + 1,
            TxAction::Remove => c.removals = c.removals + 1,
            TxAction::Unknown => {},
        }
        i = i + 1;
    }
    assert(v.take(txs.len() as int) =~= v);
    c
}

} // verus!
