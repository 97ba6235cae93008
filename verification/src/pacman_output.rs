//! Reading pacman's output while it runs: the stages shown in the spinner
//! and the popup, the warnings collected from hooks, the lines kept as
//! context, interactive prompts and progress percentages.
use vstd::prelude::*;
use crate::pacman_log::strings_view;
use crate::text::{
    contains, starts_with, ends_with, find, trim, trim_end, lowercase, replace_all, words,
    parse_unsigned, before_first, chars_of, string_of, contains_exec, starts_with_exec,
    ends_with_exec, find_exec, trim_exec, trim_end_exec, to_lowercase, replace_all_exec,
    words_exec, parse_unsigned_exec, before_first_exec, slice_range,
};

verus! {

/// What the command-line spinner shows for a line of pacman's output.
#[derive(Debug, PartialEq, Eq)]
pub enum Stage {
    Resolving,
    Verifying,
    Downloading,
    /// `(3/7) installing`: the counter with its brackets, and whether the
    /// packages are being installed (else upgraded).
    Counting { counter: String, installing: bool },
    Hooks,
    HookDetail(String),
    /// A `::` line, with `::` written as an arrow.
    Section(String),
}

pub enum StageView {
    Resolving,
    Verifying,
    Downloading,
    Counting { counter: Seq<char>, installing: bool },
    Hooks,
    HookDetail(Seq<char>),
    Section(Seq<char>),
}

impl View for Stage {
    type V = StageView;

    open spec fn view(&self) -> StageView {
        match self {
            Stage::Resolving => StageView::Resolving,
            Stage::Verifying => StageView::Verifying,
            Stage::Downloading => StageView::Downloading,
            Stage::Counting { counter, installing } => StageView::Counting {
                counter: counter@,
                installing: *installing,
            },
            Stage::Hooks => StageView::Hooks,
            Stage::HookDetail(s) => StageView::HookDetail(s@),
            Stage::Section(s) => StageView::Section(s@),
        }
    }
}

/// What the command-line reader keeps while pacman runs.
pub struct OutputState {
    pub in_hook_phase: bool,
    /// Warnings and errors, each kept once, in the order they came.
    pub hook_alerts: Vec<String>,
    /// The last lines that no stage claimed, shown before a prompt.
    pub context: Vec<String>,
}

pub struct OutputStateView {
    pub in_hook_phase: bool,
    pub hook_alerts: Seq<Seq<char>>,
    pub context: Seq<Seq<char>>,
}

impl View for OutputState {
    type V = OutputStateView;

    open spec fn view(&self) -> OutputStateView {
        OutputStateView {
            in_hook_phase: self.in_hook_phase,
            hook_alerts: strings_view(self.hook_alerts@),
            context: strings_view(self.context@),
        }
    }
}

/// The largest number of context lines kept.
pub const CONTEXT_LINES: usize = 15;

pub open spec fn any_of(s: Seq<char>, a: Seq<char>, b: Seq<char>) -> bool {
    contains(s, a) || contains(s, b)
}

/// The stage of a trimmed, non-empty line, when not in the hook phase and
/// the line is not a hook line: `None` when no stage claims it.
pub open spec fn line_stage(clean: Seq<char>, in_hook: bool) -> Option<StageView> {
    if any_of(clean, "resolving dependencies"@, "conflicting packages"@) {
        Some(StageView::Resolving)
    } else if contains(clean, "checking keys"@) || contains(clean, "checking package integrity"@)
        || contains(clean, "loading package files"@) {
        Some(StageView::Verifying)
    } else if any_of(clean, "retrieving packages"@, "downloading"@) {
        Some(StageView::Downloading)
    } else if starts_with(clean, "("@) && any_of(clean, ") upgrading"@, ") installing"@) {
        match find(clean, ")"@) {
            Some(i) => Some(
                StageView::Counting {
                    counter: clean.take(i + 1),
                    installing: contains(clean, "installing"@),
                },
            ),
            None => None,
        }
    } else if any_of(clean, "running pre-transaction hooks"@, "running post-transaction hooks"@) {
        Some(StageView::Hooks)
    } else if in_hook {
        if starts_with(clean, "==> Building image"@) || starts_with(clean, "==> Install DKMS"@) {
            Some(StageView::HookDetail(clean))
        } else {
            None
        }
    } else if starts_with(clean, "::"@) {
        Some(StageView::Section(replace_all(clean, "::"@, "→"@)))
    } else {
        None
    }
}

/// `v` with `x` added at the end unless it is already there.
pub open spec fn push_unique(v: Seq<Seq<char>>, x: Seq<char>) -> Seq<Seq<char>> {
    if v.contains(x) {
        v
    } else {
        v.push(x)
    }
}

/// The context lines after a line that no stage claims was added: the
/// line goes at the end, and when that makes more than fifteen the
/// oldest one goes.
pub open spec fn push_context(v: Seq<Seq<char>>, line: Seq<char>) -> Seq<Seq<char>> {
    let w = v.push(line);
    if w.len() > CONTEXT_LINES {
        w.drop_first()
    } else {
        w
    }
}

/// The reader's state after one complete line `raw` of pacman's output.
pub open spec fn feed_state(st: OutputStateView, raw: Seq<char>) -> OutputStateView {
    let clean = trim(raw);
    let lower = lowercase(clean);
    if clean.len() == 0 {
        st
    } else {
        let alerts1 = if contains(lower, "error"@) || contains(lower, "warning"@) || contains(
            lower,
            "failed"@,
        ) {
            push_unique(st.hook_alerts, clean)
        } else {
            st.hook_alerts
        };
        let stage = line_stage(clean, st.in_hook_phase);
        let hook = st.in_hook_phase || (stage matches Some(StageView::Hooks));
        let hook_claims = !(stage is Some) && st.in_hook_phase;
        let alerts2 = if hook_claims && (contains(lower, "missing"@) || contains(
            lower,
            "not found"@,
        )) {
            push_unique(alerts1, clean)
        } else {
            alerts1
        };
        let context = if stage matches Some(StageView::Section(_)) {
            st.context.push(raw)
        } else if stage is None && !hook {
            push_context(st.context, raw)
        } else {
            st.context
        };
        OutputStateView { in_hook_phase: hook, hook_alerts: alerts2, context }
    }
}

/// Reading a line adds it to the context or leaves the context as it was;
/// a section line is always kept, a line that no stage claims can push
/// out the oldest line once there are more than fifteen; no warning is
/// listed twice, and the hook phase never ends once it has begun.
pub proof fn law_output_state_kept(st: OutputStateView, raw: Seq<char>)
    requires
        st.hook_alerts.no_duplicates(),
    ensures
        feed_state(st, raw).context == st.context || feed_state(st, raw).context == st.context.push(raw)
            || (st.context.len() >= CONTEXT_LINES && feed_state(st, raw).context == st.context.push(
            raw,
        ).drop_first()),
        feed_state(st, raw).context.len() <= st.context.len() + 1,
        st.context.len() < CONTEXT_LINES ==> feed_state(st, raw).context.len() <= CONTEXT_LINES,
        feed_state(st, raw).hook_alerts.no_duplicates(),
        st.in_hook_phase ==> feed_state(st, raw).in_hook_phase,
{
    let clean = trim(raw);
    assert forall|v: Seq<Seq<char>>, x: Seq<char>| v.no_duplicates() implies #[trigger] push_unique(
        v,
        x,
    ).no_duplicates() by {
        if !v.contains(x) {
            assert forall|i: int, j: int|
                0 <= i < j < v.push(x).len() implies v.push(x)[i] != v.push(x)[j] by {
                if j == v.len() {
                    assert(v[i] == v.push(x)[i]);
                }
            }
        }
    }
}

/// The prompt that a partial line ends in: `Some(true)` for a yes/no
/// question, `Some(false)` for a numbered choice, `None` for no prompt.
pub open spec fn prompt_kind(partial: Seq<char>) -> Option<bool> {
    let t = trim_end(lowercase(partial));
    if ends_with(t, "[y/n]"@) {
        Some(true)
    } else if ends_with(t, "):"@) {
        Some(false)
    } else {
        None
    }
}

// ------------------------------------------------------ dashboard output ----

/// The parts of a line that the dashboard's transaction popup uses.
pub struct LineEvents {
    /// New text for the action line.
    pub action: Option<String>,
    /// Whether the line goes to the log pane.
    pub log: bool,
    /// A percentage read from the line.
    pub progress: Option<u16>,
    pub in_hook_phase: bool,
}

pub open spec fn counter_action(lower: Seq<char>) -> Seq<char> {
    if contains(lower, "installing"@) {
        "installing"@
    } else if contains(lower, "removing"@) {
        "removing"@
    } else {
        "upgrading"@
    }
}

/// The action text that the dashboard shows for a trimmed line, and whether
/// the line starts the hook phase.
pub open spec fn popup_action(clean: Seq<char>, in_hook: bool) -> (Option<Seq<char>>, bool) {
    let lower = lowercase(clean);
    if any_of(lower, "resolving dependencies"@, "conflicting packages"@) {
        (Some("resolving package dependencies..."@), in_hook)
    } else if any_of(lower, "checking keys"@, "checking package integrity"@) {
        (Some("verifying package integrity..."@), in_hook)
    } else if contains(lower, "loading package files"@) {
        (Some("loading package files..."@), in_hook)
    } else if contains(lower, "checking for file conflicts"@) {
        (Some("checking for file conflicts..."@), in_hook)
    } else if contains(lower, "checking available disk space"@) {
        (Some("checking available disk space..."@), in_hook)
    } else if contains(lower, "retrieving packages"@) {
        (Some("downloading packages..."@), in_hook)
    } else if contains(lower, "processing package changes"@) {
        (Some("processing package changes..."@), in_hook)
    } else if starts_with(clean, "("@) && (contains(lower, ") upgrading"@) || contains(
        lower,
        ") installing"@,
    ) || contains(lower, ") removing"@)) {
        match find(clean, ")"@) {
            Some(i) => (
                Some(clean.take(i + 1) + " packages "@ + counter_action(lower) + "..."@),
                in_hook,
            ),
            None => (None, in_hook),
        }
    } else if contains(lower, "running pre-transaction hooks"@) {
        (Some("running pre-transaction hooks..."@), true)
    } else if contains(lower, "running post-transaction hooks"@) {
        (Some("running post-transaction hooks..."@), true)
    } else if in_hook && (starts_with(clean, "==> Building image"@) || starts_with(
        clean,
        "==> Install DKMS"@,
    ) || starts_with(clean, "==> Generating"@)) {
        (Some(clean), in_hook)
    } else {
        (None, in_hook)
    }
}

/// Whether a trimmed line goes to the dashboard's log pane.
pub open spec fn popup_logs(clean: Seq<char>, in_hook: bool) -> bool {
    let lower = lowercase(clean);
    contains(lower, "error:"@) || contains(lower, "warning:"@) || contains(lower, "failed"@)
        || starts_with(clean, "::"@) || contains(lower, "up to date"@) || contains(
        lower,
        "downloading"@,
    ) || (in_hook && (contains(lower, "missing"@) || contains(lower, "not found"@)))
}

/// The percentage in a line with a `%`: the last word before the first `%`
/// (or `0` when there is none) read as a `u16`.
pub open spec fn popup_progress(clean: Seq<char>) -> Option<u16> {
    if contains(clean, "%"@) {
        let ws = words(before_first(clean, "%"@));
        let num = if ws.len() > 0 {
            ws.last()
        } else {
            "0"@
        };
        match parse_unsigned(num, 65535) {
            Some(v) => Some(v as u16),
            None => None,
        }
    } else {
        None
    }
}

// ---------------------------------------------------------------- exec ----

fn lit(s: &str) -> (v: Vec<char>)
    ensures
        v@ == s@,
{
    chars_of(s)
}

fn has(s: &[char], p: &str) -> (r: bool)
    ensures
        r == contains(s@, p@),
{
    contains_exec(s, lit(p).as_slice())
}

fn begins(s: &[char], p: &str) -> (r: bool)
    ensures
        r == starts_with(s@, p@),
{
    starts_with_exec(s, lit(p).as_slice())
}

fn line_stage_exec(clean: &[char], in_hook: bool) -> (r: Option<Stage>)
    ensures
        match r {
            Some(st) => line_stage(clean@, in_hook) == Some(st@),
            None => line_stage(clean@, in_hook) is None,
        },
{
    if has(clean, "resolving dependencies") || has(clean, "conflicting packages") {
        Some(Stage::Resolving)
    } else if has(clean, "checking keys") || has(clean, "checking package integrity") || has(
        clean,
        "loading package files",
    ) {
        Some(Stage::Verifying)
    } else if has(clean, "retrieving packages") || has(clean, "downloading") {
        Some(Stage::Downloading)
    } else if begins(clean, "(") && (has(clean, ") upgrading") || has(clean, ") installing")) {
        match find_exec(clean, lit(")").as_slice()) {
            Some(i) => {
                proof {
                    crate::text::lemma_find_from(clean@, ")"@, 0);
                }
                let c = slice_range(clean, 0, i + 1);
                assert(c@ =~= clean@.take(i + 1));
                Some(
                    Stage::Counting {
                        counter: string_of(c.as_slice()),
                        installing: has(clean, "installing"),
                    },
                )
            },
            None => None,
        }
    } else if has(clean, "running pre-transaction hooks") || has(
        clean,
        "running post-transaction hooks",
    ) {
        Some(Stage::Hooks)
    } else if in_hook {
        if begins(clean, "==> Building image") || begins(clean, "==> Install DKMS") {
            Some(Stage::HookDetail(string_of(clean)))
        } else {
            None
        }
    } else if begins(clean, "::") {
        let r = replace_all_exec(clean, lit("::").as_slice(), lit("→").as_slice());
        Some(Stage::Section(string_of(r.as_slice())))
    } else {
        None
    }
}

fn contains_string(v: &Vec<String>, x: &[char]) -> (r: bool)
    ensures
        r == strings_view(v@).contains(x@),
{
    let ghost sv = strings_view(v@);
    let mut k: usize = 0;
    while k < v.len()
        invariant
            k <= v.len(),
            sv == strings_view(v@),
            forall|j: int| 0 <= j < k ==> sv[j] != x@,
        decreases v.len() - k,
    {
        let item = chars_of(v[k].as_str());
        if crate::text::seq_eq(item.as_slice(), x) {
            assert(sv[k as int] == x@);
            return true;
        }
        k = k + 1;
    }
    false
}

fn push_unique_exec(v: &mut Vec<String>, x: &[char])
    ensures
        strings_view(final(v)@) == push_unique(strings_view(old(v)@), x@),
{
    if !contains_string(v, x) {
        let ghost o = v@;
        v.push(string_of(x));
        assert(strings_view(v@) =~= strings_view(o).push(x@));
    }
}

fn push_context_exec(v: &mut Vec<String>, line: String)
    ensures
        strings_view(final(v)@) == push_context(strings_view(old(v)@), line@),
{
    let ghost o = v@;
    v.push(line);
    assert(strings_view(v@) =~= strings_view(o).push(line@));
    if v.len() > CONTEXT_LINES {
        let ghost w = v@;
        v.remove(0);
        assert(strings_view(v@) =~= strings_view(w).drop_first());
    }
}

impl OutputState {
    pub fn new() -> (r: OutputState)
        ensures
            !r@.in_hook_phase,
            r@.hook_alerts.len() == 0,
            r@.context.len() == 0,
    {
        let a: Vec<String> = Vec::new();
        let c: Vec<String> = Vec::new();
        OutputState { in_hook_phase: false, hook_alerts: a, context: c }
    }

    /// Take one complete line of pacman's output: collect the warnings and
    /// errors it reports, keep it as context when no stage claims it, and
    /// return the stage that the spinner should show, if any.
    pub fn feed_line(&mut self, raw: &str) -> (r: Option<Stage>)
        ensures
            final(self)@ == feed_state(old(self)@, raw@),
            trim(raw@).len() == 0 ==> r is None,
            trim(raw@).len() > 0 ==> match r {
                Some(st) => line_stage(trim(raw@), old(self)@.in_hook_phase) == Some(st@),
                None => line_stage(trim(raw@), old(self)@.in_hook_phase) is None,
            },
    {
        let rawc = chars_of(raw);
        let clean = trim_exec(rawc.as_slice());
        if clean.len() == 0 {
            return None;
        }
        let lower = to_lowercase(clean.as_slice());
        if has(lower.as_slice(), "error") || has(lower.as_slice(), "warning") || has(
            lower.as_slice(),
            "failed",
        ) {
            push_unique_exec(&mut self.hook_alerts, clean.as_slice());
        }
        let was_hook = self.in_hook_phase;
        let stage = line_stage_exec(clean.as_slice(), was_hook);
        let is_hooks = match &stage {
            Some(Stage::Hooks) => true,
            _ => false,
        };
        let is_section = match &stage {
            Some(Stage::Section(_)) => true,
            _ => false,
        };
        let hook = was_hook || is_hooks;
        if stage.is_none() && was_hook && (has(lower.as_slice(), "missing") || has(
            lower.as_slice(),
            "not found",
        )) {
            push_unique_exec(&mut self.hook_alerts, clean.as_slice());
        }
        if is_section {
            let ghost o = self.context@;
            self.context.push(raw.to_string());
            assert(strings_view(self.context@) =~= strings_view(o).push(raw@));
        } else if stage.is_none() && !hook {
            push_context_exec(&mut self.context, raw.to_string());
        }
        self.in_hook_phase = hook;
        stage
    }
}

/// The prompt, if any, that a partial line of pacman's output ends in.
pub fn prompt_kind_exec(partial: &str) -> (r: Option<bool>)
    ensures
        r == prompt_kind(partial@),
{
    let t = trim_end_exec(to_lowercase(chars_of(partial).as_slice()).as_slice());
    if ends_with_exec(t.as_slice(), lit("[y/n]").as_slice()) {
        Some(true)
    } else if ends_with_exec(t.as_slice(), lit("):").as_slice()) {
        Some(false)
    } else {
        None
    }
}

fn counter_action_exec(lower: &[char]) -> (r: Vec<char>)
    ensures
        r@ == counter_action(lower@),
{
    if has(lower, "installing") {
        lit("installing")
    } else if has(lower, "removing") {
        lit("removing")
    } else {
        lit("upgrading")
    }
}

fn popup_action_exec(clean: &[char], in_hook: bool) -> (r: (Option<String>, bool))
    ensures
        (match r.0 {
            Some(s) => Some(s@),
            None => None,
        }, r.1) == popup_action(clean@, in_hook),
{
    let lower = to_lowercase(clean);
    let l = lower.as_slice();
    if has(l, "resolving dependencies") || has(l, "conflicting packages") {
        (Some("resolving package dependencies...".to_string()), in_hook)
    } else if has(l, "checking keys") || has(l, "checking package integrity") {
        (Some("verifying package integrity...".to_string()), in_hook)
    } else if has(l, "loading package files") {
        (Some("loading package files...".to_string()), in_hook)
    } else if has(l, "checking for file conflicts") {
        (Some("checking for file conflicts...".to_string()), in_hook)
    } else if has(l, "checking available disk space") {
        (Some("checking available disk space...".to_string()), in_hook)
    } else if has(l, "retrieving packages") {
        (Some("downloading packages...".to_string()), in_hook)
    } else if has(l, "processing package changes") {
        (Some("processing package changes...".to_string()), in_hook)
    } else if begins(clean, "(") && (has(l, ") upgrading") || has(l, ") installing") || has(
        l,
        ") removing",
    )) {
        match find_exec(clean, lit(")").as_slice()) {
            Some(i) => {
                proof {
                    crate::text::lemma_find_from(clean@, ")"@, 0);
                }
                let mut out = slice_range(clean, 0, i + 1);
                assert(out@ =~= clean@.take(i + 1));
                crate::text::append_chars(&mut out, lit(" packages ").as_slice());
                crate::text::append_chars(&mut out, counter_action_exec(l).as_slice());
                crate::text::append_chars(&mut out, lit("...").as_slice());
                (Some(string_of(out.as_slice())), in_hook)
            },
            None => (None, in_hook),
        }
    } else if has(l, "running pre-transaction hooks") {
        (Some("running pre-transaction hooks...".to_string()), true)
    } else if has(l, "running post-transaction hooks") {
        (Some("running post-transaction hooks...".to_string()), true)
    } else if in_hook && (begins(clean, "==> Building image") || begins(clean, "==> Install DKMS")
        || begins(clean, "==> Generating")) {
        (Some(string_of(clean)), in_hook)
    } else {
        (None, in_hook)
    }
}

fn popup_progress_exec(clean: &[char]) -> (r: Option<u16>)
    ensures
        r == popup_progress(clean@),
{
    if has(clean, "%") {
        let head = before_first_exec(clean, lit("%").as_slice());
        let ws = words_exec(head.as_slice());
        let num: Vec<char> = if ws.len() > 0 {
            let n = ws.len() - 1;
            slice_range(ws[n].as_slice(), 0, ws[n].len())
        } else {
            lit("0")
        };
        proof {
            if ws.len() > 0 {
                assert(ws@[ws.len() - 1]@ == words(head@)[ws.len() - 1]);
                assert(num@ =~= words(head@).last());
            }
        }
        match parse_unsigned_exec(num.as_slice(), 65535) {
            Some(v) => {
                assert(v <= 65535);
                Some(v as u16)
            },
            None => None,
        }
    } else {
        None
    }
}

/// Read one line of pacman's output for the dashboard's transaction popup:
/// the action to show, whether to log it, and any percentage in it.
pub fn popup_line_events(line: &str, in_hook_phase: bool) -> (r: Option<LineEvents>)
    ensures
        trim(line@).len() == 0 <==> r is None,
        r matches Some(ev) ==> {
            let clean = trim(line@);
            let (act, hook) = popup_action(clean, in_hook_phase);
            &&& match ev.action {
                Some(s) => act == Some(s@),
                None => act is None,
            }
            &&& ev.in_hook_phase == hook
            &&& ev.log == popup_logs(clean, hook)
            &&& ev.progress == popup_progress(clean)
        },
{
    let clean = trim_exec(chars_of(line).as_slice());
    if clean.len() == 0 {
        return None;
    }
    let (action, hook) = popup_action_exec(clean.as_slice(), in_hook_phase);
    let lower = to_lowercase(clean.as_slice());
    let l = lower.as_slice();
    let log = has(l, "error:") || has(l, "warning:") || has(l, "failed") || begins(
        clean.as_slice(),
        "::",
    ) || has(l, "up to date") || has(l, "downloading") || (hook && (has(l, "missing") || has(
        l,
        "not found",
    )));
    let progress = popup_progress_exec(clean.as_slice());
    Some(LineEvents { action, log, progress, in_hook_phase: hook })
}

} // verus!
