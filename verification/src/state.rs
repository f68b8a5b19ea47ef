//! The application state and what each user action does to it.

use vstd::prelude::*;
use crate::binary64::{c045_mant, c065_mant, clamp_i32, lemma_constants, percent, percent_of, scale, scale_trunc};
use crate::catalog::{
    get_initial_fleet_nodes, get_os_blocks, get_os_ghosts, get_os_presets, initial_fleet_view,
    lemma_catalog_small, os_blocks_view, os_ghosts_view, os_presets_view,
};
use crate::model::{
    blocks_view, chat_view, ghost_sizes, ghosts_view, logs_view, nodes_view, preset_sizes,
    presets_view, small_sizes, view_sizes, ChatMessage, DiskBlock, DiskBlockView, FleetNode,
    FleetNodeView, GhostFile, GhostFileView, LogEntry, RulePreset, RulePresetView,
};
use crate::text::{chars_of, contains_chars, has_infix, parse_i32_chars, parse_i32_spec, trim, trim_chars, has_prefix, starts_with_chars, dec_int, dec_nat, digit_value, is_digit, push_dec_i64, push_dec_u64, str_eq, to_upper, uppercase};
use crate::treemap::{
    block_sizes, compute_treemap_layout, layout_for, lemma_layout_fits, prefixes_fit, same_plan, sum_sizes, Treemap,
};
use crate::catalog::{format_bytes, size_text};

verus! {

/// Everything the application shows, as plain values.
pub struct AppStateView {
    pub active_os: Seq<char>,
    pub safety_level: Seq<char>,
    pub blocks: Seq<DiskBlockView>,
    pub layout: Treemap,
    pub presets: Seq<RulePresetView>,
    pub ghosts: Seq<GhostFileView>,
    pub fleet_nodes: Seq<FleetNodeView>,
    pub logs: Seq<(Seq<char>, Seq<char>)>,
    pub chat_history: Seq<(Seq<char>, Seq<char>)>,
    pub reclaimed_bytes: i32,
    pub total_capacity: i32,
    pub initial_used: i32,
}

/// The application state: the selected platform and safety threshold, the
/// disk map and its layout plan, the presets, the held-open files, the
/// fleet, the console, the chat, and the space accounting.
pub struct AppState {
    pub active_os: String,
    pub safety_level: String,
    pub blocks: Vec<DiskBlock>,
    pub layout: Treemap,
    pub presets: Vec<RulePreset>,
    pub ghosts: Vec<GhostFile>,
    pub fleet_nodes: Vec<FleetNode>,
    pub logs: Vec<LogEntry>,
    pub chat_history: Vec<ChatMessage>,
    pub reclaimed_bytes: i32,
    pub total_capacity: i32,
    pub initial_used: i32,
}

impl View for AppState {
    type V = AppStateView;

    open spec fn view(&self) -> AppStateView {
        AppStateView {
            active_os: self.active_os@,
            safety_level: self.safety_level@,
            blocks: blocks_view(self.blocks@),
            layout: self.layout,
            presets: presets_view(self.presets@),
            ghosts: ghosts_view(self.ghosts@),
            fleet_nodes: nodes_view(self.fleet_nodes@),
            logs: logs_view(self.logs@),
            chat_history: chat_view(self.chat_history@),
            reclaimed_bytes: self.reclaimed_bytes,
            total_capacity: self.total_capacity,
            initial_used: self.initial_used,
        }
    }
}

impl AppStateView {
    /// The state the actions keep: short lists of modest sizes, and a layout
    /// plan that matches the blocks.
    pub open spec fn wf(self) -> bool {
        &&& small_sizes(view_sizes(self.blocks))
        &&& small_sizes(preset_sizes(self.presets))
        &&& small_sizes(ghost_sizes(self.ghosts))
        &&& self.layout == layout_for(view_sizes(self.blocks))
    }
}

/// The greeting the advisor chat opens with.
pub open spec fn welcome_text() -> Seq<char> {
    "Hello! I am the **Oxidust AI Systems Advisor**.\n\nI am optimized to help you perform server-grade space purging, analyze ghost handles, and formulate highly technical Rust-speed system optimizations.\n\nAsk me a question below, or trigger a **Comprehensive Storage Audit** to generate a diagnostic performance report!"@
}

/// The state the application starts in: Linux and the moderate threshold
/// selected, nothing loaded, the built-in fleet, two start-up lines in the
/// console, the advisor's greeting, 500 MiB of capacity of which 384 MiB
/// are used.
pub open spec fn initial_view() -> AppStateView {
    AppStateView {
        active_os: "linux"@,
        safety_level: "moderate"@,
        blocks: seq![],
        layout: Treemap::Empty,
        presets: seq![],
        ghosts: seq![],
        fleet_nodes: initial_fleet_view(),
        logs: seq![
            ("info"@, "[OK] Oxidust Core v2.4.0 initialized"@),
            ("info"@, "[INFO] System sensors calibrated"@),
        ],
        chat_history: seq![("assistant"@, welcome_text())],
        reclaimed_bytes: 0,
        total_capacity: 524288000,
        initial_used: 402653184,
    }
}

/// Switching the platform: its disk map (and plan), presets and held-open
/// files replace the current ones, with three console lines, the first
/// naming the platform as `label`.
pub open spec fn load_os_labelled_view(s: AppStateView, os: Seq<char>, label: Seq<char>) -> AppStateView {
    let blocks = os_blocks_view(os);
    AppStateView {
        active_os: os,
        blocks: blocks,
        layout: layout_for(view_sizes(blocks)),
        presets: os_presets_view(os),
        ghosts: os_ghosts_view(os),
        logs: s.logs + seq![
            ("ok"@, "[OK] Shifted kernel compiler targeting to: "@ + label),
            (
                "info"@,
                "[INFO] Re-compiled and loaded OS-specific preset checklists ("@ + dec_nat(
                    os_presets_view(os).len(),
                ) + " loaded)"@,
            ),
            ("info"@, "[INFO] TreeMap cache rebuilt. Storage maps synchronized."@),
        ],
        ..s
    }
}

/// Switching the platform, named in upper case in the console.
pub open spec fn load_os_view(s: AppStateView, os: Seq<char>) -> AppStateView {
    load_os_labelled_view(s, os, uppercase(os))
}

/// Whether a preset is selected under a safety threshold: `safe` selects
/// the safe ones, `moderate` the safe and moderate ones, anything else all.
pub open spec fn selected_under(level: Seq<char>, p: RulePresetView) -> bool {
    if level == "safe"@ {
        p.safety == "safe"@
    } else if level == "moderate"@ {
        p.safety == "safe"@ || p.safety == "moderate"@
    } else {
        true
    }
}

/// Setting the safety threshold re-selects every preset by it, with two
/// console lines, the first naming the threshold as `label`.
pub open spec fn apply_safety_labelled_view(s: AppStateView, level: Seq<char>, label: Seq<char>) -> AppStateView {
    AppStateView {
        safety_level: level,
        presets: s.presets.map_values(|p: RulePresetView| RulePresetView { checked: selected_under(level, p), ..p }),
        logs: s.logs + seq![
            ("exec"@, "[EXEC] Adjusted Maximum Safety Threshold to: ["@ + label + "]"@),
            ("ok"@, "[OK] Re-mapped preset checklists to align with safety matrix thresholds."@),
        ],
        ..s
    }
}

/// Setting the safety threshold, named in upper case in the console.
pub open spec fn apply_safety_view(s: AppStateView, level: Seq<char>) -> AppStateView {
    apply_safety_labelled_view(s, level, uppercase(level))
}

/// The total size of the selected presets.
pub open spec fn selected_total(ps: Seq<RulePresetView>) -> int
    decreases ps.len(),
{
    if ps.len() == 0 {
        0
    } else {
        selected_total(ps.drop_last()) + if ps.last().checked { ps.last().size_bytes as int } else { 0 }
    }
}

/// The share of the capacity in use, in percent: what was used at start
/// less what was reclaimed (not below zero), over the capacity, computed as
/// the `f64` expression of the application does.
pub open spec fn used_percentage_of(s: AppStateView) -> int {
    let used = s.initial_used - s.reclaimed_bytes;
    percent_of(if used > 0 { used } else { 0 }, s.total_capacity as int)
}

/// The value of two decimal digits.
pub open spec fn two_digits(a: char, b: char) -> int {
    (digit_value(a) * 10 + digit_value(b)) as int
}

/// Text of the form `HH:MM:SS`: two digits, a colon, two digits, a
/// colon, two digits, with an hour up to 23, a minute up to 59 and a second
/// up to 60 (a leap second).
pub open spec fn clock_text(t: Seq<char>) -> bool {
    &&& t.len() == 8
    &&& t[2] == ':' && t[5] == ':'
    &&& is_digit(t[0]) && is_digit(t[1]) && is_digit(t[3]) && is_digit(t[4])
    &&& is_digit(t[6]) && is_digit(t[7])
    &&& two_digits(t[0], t[1]) <= 23
    &&& two_digits(t[3], t[4]) <= 59
    &&& two_digits(t[6], t[7]) <= 60
}

/// Every running total of `w` over the entries of `s` that satisfy `f`
/// fits in an `i32` (an `i32` sum of them does not overflow).
pub open spec fn sums_fit<A>(s: Seq<A>, f: spec_fn(A) -> bool, w: spec_fn(A) -> int) -> bool {
    forall|k: int| 0 <= k <= s.len() ==> i32::MIN <= #[trigger] sum_where(s.take(k), f, w) <= i32::MAX
}

/// Every running total of the selected presets' sizes fits in an `i32`.
pub open spec fn selection_fits(ps: Seq<RulePresetView>) -> bool {
    forall|k: int| 0 <= k <= ps.len() ==> i32::MIN <= #[trigger] selected_total(ps.take(k)) <= i32::MAX
}

/// The first position in `s` that satisfies `f`.
pub open spec fn find_first<A>(s: Seq<A>, f: spec_fn(A) -> bool) -> Option<int>
    decreases s.len(),
{
    if s.len() == 0 {
        None
    } else if f(s[0]) {
        Some(0)
    } else {
        match find_first(s.drop_first(), f) {
            Some(i) => Some(i + 1),
            None => None,
        }
    }
}

/// How many entries of `s` satisfy `f`.
pub open spec fn count<A>(s: Seq<A>, f: spec_fn(A) -> bool) -> nat
    decreases s.len(),
{
    if s.len() == 0 {
        0
    } else {
        count(s.drop_last(), f) + if f(s.last()) { 1nat } else { 0nat }
    }
}

/// The entries of `s` that satisfy `f`, in order.
pub open spec fn keep<A>(s: Seq<A>, f: spec_fn(A) -> bool) -> Seq<A>
    decreases s.len(),
{
    if s.len() == 0 {
        seq![]
    } else {
        let r = keep(s.drop_last(), f);
        if f(s.last()) { r.push(s.last()) } else { r }
    }
}

/// The sum of `w` over the entries of `s` that satisfy `f`.
pub open spec fn sum_where<A>(s: Seq<A>, f: spec_fn(A) -> bool, w: spec_fn(A) -> int) -> int
    decreases s.len(),
{
    if s.len() == 0 {
        0
    } else {
        sum_where(s.drop_last(), f, w) + if f(s.last()) { w(s.last()) } else { 0 }
    }
}

/// With no match before `i`, the first match is at `i` if `i` matches, and
/// there is none if `i` is the end.
pub proof fn lemma_find_first<A>(s: Seq<A>, f: spec_fn(A) -> bool, i: int)
    requires
        0 <= i <= s.len(),
        forall|k: int| 0 <= k < i ==> !f(#[trigger] s[k]),
    ensures
        i < s.len() && f(s[i]) ==> find_first(s, f) == Some(i),
        i == s.len() ==> find_first(s, f) is None,
    decreases i,
{
    if i > 0 {
        let t = s.drop_first();
        assert forall|k: int| 0 <= k < i - 1 implies !f(#[trigger] t[k]) by {
            assert(t[k] == s[k + 1]);
        }
        lemma_find_first(t, f, i - 1);
        if i < s.len() {
            assert(t[i - 1] == s[i]);
        }
    }
}

/// The first match is a match, and without one nothing matches.
pub proof fn lemma_find_first_found<A>(s: Seq<A>, f: spec_fn(A) -> bool)
    ensures
        match find_first(s, f) {
            Some(i) => 0 <= i < s.len() && f(s[i]),
            None => forall|k: int| 0 <= k < s.len() ==> !f(#[trigger] s[k]),
        },
    decreases s.len(),
{
    if s.len() > 0 {
        let t = s.drop_first();
        lemma_find_first_found(t, f);
        if !f(s[0]) {
            match find_first(t, f) {
                Some(i) => {
                    assert(s[i + 1] == t[i]);
                },
                None => {
                    assert forall|k: int| 0 <= k < s.len() implies !f(#[trigger] s[k]) by {
                        if k > 0 {
                            assert(s[k] == t[k - 1]);
                        }
                    }
                },
            }
        }
    }
}

/// Counting and keeping over one more entry.
pub proof fn lemma_count_step<A>(s: Seq<A>, f: spec_fn(A) -> bool, i: int)
    requires
        0 <= i < s.len(),
    ensures
        count(s.take(i + 1), f) == count(s.take(i), f) + if f(s[i]) { 1nat } else { 0nat },
        keep(s.take(i + 1), f) == if f(s[i]) { keep(s.take(i), f).push(s[i]) } else { keep(s.take(i), f) },
        count(s.take(i), f) <= i,
{
    assert(s.take(i + 1).drop_last() =~= s.take(i));
    lemma_count_le(s.take(i), f);
}

/// A count never exceeds the length.
pub proof fn lemma_count_le<A>(s: Seq<A>, f: spec_fn(A) -> bool)
    ensures
        count(s, f) <= s.len(),
    decreases s.len(),
{
    if s.len() > 0 {
        lemma_count_le(s.drop_last(), f);
    }
}

/// Summing over one more entry.
pub proof fn lemma_sum_where_step<A>(s: Seq<A>, f: spec_fn(A) -> bool, w: spec_fn(A) -> int, i: int)
    requires
        0 <= i < s.len(),
    ensures
        sum_where(s.take(i + 1), f, w) == sum_where(s.take(i), f, w) + if f(s[i]) { w(s[i]) } else { 0 },
{
    assert(s.take(i + 1).drop_last() =~= s.take(i));
}

/// A held-open file not yet released.
pub open spec fn unreleased() -> spec_fn(GhostFileView) -> bool {
    |g: GhostFileView| !g.released
}

/// A preset with the given id.
pub open spec fn preset_has_id(id: Seq<char>) -> spec_fn(RulePresetView) -> bool {
    |p: RulePresetView| p.id == id
}

/// Pausing the console for a dry run: seven lines, nothing else changes.
pub open spec fn dry_scan_view(s: AppStateView, ts: Seq<char>) -> AppStateView {
    AppStateView {
        logs: s.logs + seq![
            ("exec"@, "["@ + ts + "] launching Dry-Run file diagnostics scan..."@),
            ("cmd"@, "$ oxidust core scan --os="@ + s.active_os + " --safety="@ + s.safety_level),
            ("ok"@, "[OK] Attached filesystem kernel sensor to absolute roots..."@),
            ("info"@, "[INFO] Auditing standard caches, local indexes, and dangling container registers..."@),
            ("info"@, "[INFO] Discovered "@ + dec_nat(s.blocks.len()) + " storage density blocks occupying system volume"@),
            ("lock"@, "[LOCK] Found "@ + dec_nat(count(s.ghosts, unreleased())) + " unlinked open process handles (phantom file structures)"@),
            ("success"@, "[SUCCESS] Scan complete! Identified reclaimable threshold of "@ + size_text(sum_sizes(view_sizes(s.blocks))) + " across all policy checklists."@),
        ],
        ..s
    }
}

/// Flipping the selection of the first preset with the given id (no
/// change when there is none).
pub open spec fn toggle_preset_view(s: AppStateView, id: Seq<char>) -> AppStateView {
    match find_first(s.presets, preset_has_id(id)) {
        Some(i) => AppStateView {
            presets: s.presets.update(i, RulePresetView { checked: !s.presets[i].checked, ..s.presets[i] }),
            ..s
        },
        None => s,
    }
}

/// Selecting or clearing every preset.
pub open spec fn select_all_view(s: AppStateView, v: bool) -> AppStateView {
    AppStateView {
        presets: s.presets.map_values(|p: RulePresetView| RulePresetView { checked: v, ..p }),
        ..s
    }
}

/// Auditing the held-open files: two console lines.
pub open spec fn scan_ghosts_view(s: AppStateView) -> AppStateView {
    AppStateView {
        logs: s.logs + seq![
            ("exec"@, "[EXEC] Ghost-Hunter triggered file descriptor audit..."@),
            ("info"@, "[INFO] Discovered "@ + dec_nat(count(s.ghosts, unreleased())) + " ghost file handles held by active processes."@),
        ],
        ..s
    }
}

/// One path lies under the other (either is a prefix of the other).
pub open spec fn overlap(a: Seq<char>, b: Seq<char>) -> bool {
    has_prefix(a, b) || has_prefix(b, a)
}

/// A selected preset.
pub open spec fn is_checked() -> spec_fn(RulePresetView) -> bool {
    |p: RulePresetView| p.checked
}

/// A block whose path overlaps the target of a selected preset.
pub open spec fn targeted(ps: Seq<RulePresetView>) -> spec_fn(DiskBlockView) -> bool {
    |b: DiskBlockView| exists|k: int| 0 <= k < ps.len() && ps[k].checked && #[trigger] overlap(b.path, ps[k].target)
}

/// A block no selected preset targets.
pub open spec fn untargeted(ps: Seq<RulePresetView>) -> spec_fn(DiskBlockView) -> bool {
    |b: DiskBlockView| !targeted(ps)(b)
}

/// A block outside the `Ghost` category.
pub open spec fn not_ghost_block() -> spec_fn(DiskBlockView) -> bool {
    |b: DiskBlockView| b.category != "Ghost"@
}

/// A block with the given id.
pub open spec fn block_has_id(id: Seq<char>) -> spec_fn(DiskBlockView) -> bool {
    |b: DiskBlockView| b.id == id
}

/// A held-open file with the given id.
pub open spec fn ghost_has_id(id: Seq<char>) -> spec_fn(GhostFileView) -> bool {
    |g: GhostFileView| g.id == id
}

/// A held-open file of the given process.
pub open spec fn ghost_has_pid(pid: i32) -> spec_fn(GhostFileView) -> bool {
    |g: GhostFileView| g.pid == pid
}

/// The size of a block.
pub open spec fn block_size() -> spec_fn(DiskBlockView) -> int {
    |b: DiskBlockView| b.size as int
}

/// The size of a held-open file.
pub open spec fn ghost_size() -> spec_fn(GhostFileView) -> int {
    |g: GhostFileView| g.size as int
}

/// A preset after its target was purged: nothing left to reclaim, not
/// selected.
pub open spec fn cleared(p: RulePresetView) -> RulePresetView {
    RulePresetView { size_bytes: 0, checked: false, ..p }
}

/// A selected preset cleared, any other unchanged.
pub open spec fn clear_selected() -> spec_fn(RulePresetView) -> RulePresetView {
    |p: RulePresetView| if p.checked { cleared(p) } else { p }
}

/// A preset whose target overlaps `path` cleared, any other unchanged.
pub open spec fn clear_if_overlap(path: Seq<char>) -> spec_fn(RulePresetView) -> RulePresetView {
    |p: RulePresetView| if overlap(path, p.target) { cleared(p) } else { p }
}

/// A held-open file whose path overlaps `path` released, any other
/// unchanged.
pub open spec fn release_if_overlap(path: Seq<char>) -> spec_fn(GhostFileView) -> GhostFileView {
    |g: GhostFileView| if overlap(path, g.path) { GhostFileView { released: true, ..g } } else { g }
}

/// A held-open file of process `pid` released, any other unchanged.
pub open spec fn release_if_pid(pid: i32) -> spec_fn(GhostFileView) -> GhostFileView {
    |g: GhostFileView| if g.pid == pid { GhostFileView { released: true, ..g } } else { g }
}

/// Purging the block with the given id keeps the reclaimed total in range.
pub open spec fn block_purge_fits(s: AppStateView, id: Seq<char>) -> bool {
    match find_first(s.blocks, block_has_id(id)) {
        Some(i) => s.reclaimed_bytes + s.blocks[i].size <= i32::MAX,
        None => true,
    }
}

/// Releasing the held-open file with the given id keeps the reclaimed
/// total in range.
pub open spec fn ghost_release_fits(s: AppStateView, id: Seq<char>) -> bool {
    match find_first(s.ghosts, ghost_has_id(id)) {
        Some(i) => s.reclaimed_bytes + s.ghosts[i].size <= i32::MAX,
        None => true,
    }
}

/// The space a purge of the selected presets reclaims.
pub open spec fn purge_space(s: AppStateView) -> int {
    sum_where(s.blocks, targeted(s.presets), block_size())
}

/// Purging the selected presets (nothing happens when none is selected):
/// the blocks under a selected target leave the disk map, the selected
/// presets are cleared, and their space is reclaimed, with five console
/// lines.
pub open spec fn purge_view(s: AppStateView, ts: Seq<char>) -> AppStateView {
    let n = count(s.presets, is_checked());
    if n == 0 {
        s
    } else {
        let blocks = keep(s.blocks, untargeted(s.presets));
        let space = purge_space(s);
        AppStateView {
            blocks: blocks,
            layout: layout_for(view_sizes(blocks)),
            presets: s.presets.map_values(clear_selected()),
            reclaimed_bytes: (s.reclaimed_bytes + space) as i32,
            logs: s.logs + seq![
                ("exec"@, "["@ + ts + "] Initiating absolute purge sequence on checked rule nodes..."@),
                ("cmd"@, "$ oxidust system clean --policy=active --force"@),
                ("ok"@, "[OK] Wiped metadata headers and trimmed sector blocks."@),
                ("success"@, "[SUCCESS] Successfully released "@ + dec_nat(n) + " checked target rules."@),
                ("success"@, "[SUCCESS] System disk reclaimed: +"@ + size_text(space) + " returned to root index."@),
            ],
            ..s
        }
    }
}

/// Purging one block of the disk map (nothing happens when no block has
/// the id): it leaves the map, the presets whose target overlaps its path
/// are cleared, a `Ghost` block releases the held-open files whose path
/// overlaps its own, and its space is reclaimed, with four console lines.
pub open spec fn block_clicked_view(s: AppStateView, id: Seq<char>, ts: Seq<char>) -> AppStateView {
    match find_first(s.blocks, block_has_id(id)) {
        None => s,
        Some(i) => {
            let b = s.blocks[i];
            let blocks = s.blocks.remove(i);
            AppStateView {
                blocks: blocks,
                layout: layout_for(view_sizes(blocks)),
                presets: s.presets.map_values(clear_if_overlap(b.path)),
                ghosts: if b.category == "Ghost"@ {
                    s.ghosts.map_values(release_if_overlap(b.path))
                } else {
                    s.ghosts
                },
                reclaimed_bytes: (s.reclaimed_bytes + b.size) as i32,
                logs: s.logs + seq![
                    ("exec"@, "["@ + ts + "] [EXEC] Granular direct purge triggered on block: "@ + b.name),
                    ("cmd"@, "$ rm -rf "@ + b.path),
                    ("ok"@, "[OK] Raw blocks purged cleanly."@),
                    ("success"@, "[SUCCESS] Reclaimed "@ + size_text(b.size as int) + " from node sector."@),
                ],
                ..s
            }
        },
    }
}

/// Releasing one held-open file (nothing happens when no file has the id):
/// it is marked released, every `Ghost` block leaves the disk map, and its
/// space is reclaimed, with four console lines.
pub open spec fn release_ghost_view(s: AppStateView, id: Seq<char>, ts: Seq<char>) -> AppStateView {
    match find_first(s.ghosts, ghost_has_id(id)) {
        None => s,
        Some(i) => {
            let g = s.ghosts[i];
            let blocks = keep(s.blocks, not_ghost_block());
            AppStateView {
                ghosts: s.ghosts.update(i, GhostFileView { released: true, ..g }),
                blocks: blocks,
                layout: layout_for(view_sizes(blocks)),
                reclaimed_bytes: (s.reclaimed_bytes + g.size) as i32,
                logs: s.logs + seq![
                    ("lock"@, "["@ + ts + "] [LOCK] Closing locking descriptor for PID "@ + dec_int(g.pid as int) + " ("@ + g.process + ")"@),
                    ("cmd"@, "$ lsof -p "@ + dec_int(g.pid as int) + " | grep deleted"@),
                    ("ok"@, "[OK] Truncated socket handle fd. OS garbage collector cleared locked sectors."@),
                    ("success"@, "[SUCCESS] Released Open Socket Lock. Reclaimed +"@ + size_text(g.size as int) + " phantom space."@),
                ],
                ..s
            }
        },
    }
}

/// The space held by the files of process `pid`.
pub open spec fn pid_space(s: AppStateView, pid: i32) -> int {
    sum_where(s.ghosts, ghost_has_pid(pid), ghost_size())
}

/// Killing a process: all its held-open files are released, every `Ghost`
/// block leaves the disk map, and their space is reclaimed, with four
/// console lines.
pub open spec fn kill_process_view(s: AppStateView, pid: i32, ts: Seq<char>) -> AppStateView {
    let total = pid_space(s, pid);
    let blocks = keep(s.blocks, not_ghost_block());
    AppStateView {
        ghosts: s.ghosts.map_values(release_if_pid(pid)),
        blocks: blocks,
        layout: layout_for(view_sizes(blocks)),
        reclaimed_bytes: (s.reclaimed_bytes + total) as i32,
        logs: s.logs + seq![
            ("critical"@, "["@ + ts + "] [CRITICAL] Issuing SIGKILL (kill -9) to daemon process PID "@ + dec_int(pid as int)),
            ("cmd"@, "$ kill -9 "@ + dec_int(pid as int)),
            ("ok"@, "[OK] Process thread "@ + dec_int(pid as int) + " terminated. All locked kernel files descriptors closed."@),
            ("success"@, "[SUCCESS] Freed locked system thread sockets. Reclaimed +"@ + size_text(total) + " memory-buffered disk blocks."@),
        ],
        ..s
    }
}

/// Keeping some blocks keeps the sizes small and the list no longer.
pub proof fn lemma_keep_small(bs: Seq<DiskBlockView>, f: spec_fn(DiskBlockView) -> bool)
    requires
        small_sizes(view_sizes(bs)),
    ensures
        small_sizes(view_sizes(keep(bs, f))),
        keep(bs, f).len() <= bs.len(),
    decreases bs.len(),
{
    if bs.len() > 0 {
        let t = bs.drop_last();
        assert(view_sizes(t) =~= view_sizes(bs).drop_last());
        lemma_keep_small(t, f);
        let r = keep(t, f);
        if f(bs.last()) {
            assert(view_sizes(r.push(bs.last())) =~= view_sizes(r).push(bs.last().size));
            assert(view_sizes(bs)[bs.len() - 1] == bs.last().size);
        }
    }
}

/// A sum over at most 128 entries each below 2^24 stays below 128 * 2^24.
pub proof fn lemma_sum_where_small<A>(s: Seq<A>, f: spec_fn(A) -> bool, w: spec_fn(A) -> int)
    requires
        s.len() <= 128,
        forall|i: int| 0 <= i < s.len() ==> 0 <= #[trigger] w(s[i]) < 0x100_0000,
    ensures
        0 <= sum_where(s, f, w) <= s.len() * 0xFF_FFFF,
    decreases s.len(),
{
    if s.len() > 0 {
        let t = s.drop_last();
        assert forall|i: int| 0 <= i < t.len() implies 0 <= #[trigger] w(t[i]) < 0x100_0000 by {
            assert(t[i] == s[i]);
        }
        lemma_sum_where_small(t, f, w);
        assert(w(s[s.len() - 1]) < 0x100_0000);
    }
}

/// Whether one path lies under the other.
fn overlap_exec(a: &String, b: &String) -> (r: bool)
    ensures
        r == overlap(a@, b@),
{
    let x = chars_of(a.as_str());
    let y = chars_of(b.as_str());
    starts_with_chars(&x, &y) || starts_with_chars(&y, &x)
}

/// Whether a selected preset targets `path`.
fn targeted_exec(ps: &Vec<RulePreset>, path: &String) -> (r: bool)
    ensures
        r == (exists|k: int|
            0 <= k < presets_view(ps@).len() && presets_view(ps@)[k].checked
                && #[trigger] overlap(path@, presets_view(ps@)[k].target)),
{
    let ghost pv = presets_view(ps@);
    let n = ps.len();
    let mut k: usize = 0;
    while k < n
        invariant
            n == ps@.len(),
            pv == presets_view(ps@),
            k <= n,
            forall|j: int| 0 <= j < k ==> !(pv[j].checked && #[trigger] overlap(path@, pv[j].target)),
        decreases n - k,
    {
        assert(pv[k as int] == ps@[k as int]@);
        if ps[k].checked && overlap_exec(path, &ps[k].target) {
            assert(pv[k as int].checked && overlap(path@, pv[k as int].target));
            return true;
        }
        k = k + 1;
    }
    false
}

/// The blocks outside the `Ghost` category, in order.
fn without_ghost_blocks(blocks: &Vec<DiskBlock>) -> (r: Vec<DiskBlock>)
    ensures
        blocks_view(r@) == keep(blocks_view(blocks@), not_ghost_block()),
{
    let ghost f = not_ghost_block();
    let ghost bv = blocks_view(blocks@);
    let n = blocks.len();
    let mut r: Vec<DiskBlock> = Vec::new();
    let mut i: usize = 0;
    assert(blocks_view(r@) =~= keep(bv.take(0), f));
    while i < n
        invariant
            n == blocks@.len(),
            f == not_ghost_block(),
            bv == blocks_view(blocks@),
            i <= n,
            blocks_view(r@) == keep(bv.take(i as int), f),
        decreases n - i,
    {
        proof {
            lemma_count_step(bv, f, i as int);
            assert(bv[i as int] == blocks@[i as int]@);
        }
        if !str_eq(blocks[i].category.as_str(), "Ghost") {
            r.push(blocks[i].duplicate());
            assert(blocks_view(r@) =~= keep(bv.take(i as int), f).push(bv[i as int]));
        }
        i = i + 1;
    }
    assert(bv.take(n as int) =~= bv);
    r
}

impl RulePreset {
    /// A copy with the same view.
    pub fn duplicate(&self) -> (r: RulePreset)
        ensures
            r@ == self@,
    {
        RulePreset {
            id: self.id.clone(),
            name: self.name.clone(),
            description: self.description.clone(),
            category: self.category.clone(),
            os: self.os.clone(),
            dist: self.dist.clone(),
            target: self.target.clone(),
            size_bytes: self.size_bytes,
            size_text: self.size_text.clone(),
            safety: self.safety.clone(),
            checked: self.checked,
        }
    }
}

/// The presets with every selected one cleared.
fn cleared_selected(ps: &Vec<RulePreset>) -> (r: Vec<RulePreset>)
    ensures
        presets_view(r@) == presets_view(ps@).map_values(clear_selected()),
{
    let ghost want = presets_view(ps@).map_values(clear_selected());
    let n = ps.len();
    let mut r: Vec<RulePreset> = Vec::new();
    let mut i: usize = 0;
    while i < n
        invariant
            n == ps@.len(),
            want == presets_view(ps@).map_values(clear_selected()),
            i <= n,
            r@.len() == i,
            presets_view(r@) == want.take(i as int),
        decreases n - i,
    {
        assert(presets_view(ps@)[i as int] == ps@[i as int]@);
        let mut p = ps[i].duplicate();
        if p.checked {
            p.size_bytes = 0;
            p.checked = false;
        }
        let ghost pv = p@;
        r.push(p);
        assert(want[i as int] == clear_selected()(presets_view(ps@)[i as int]));
        assert(r@[i as int]@ == pv);
        assert(pv == want[i as int]);
        i = i + 1;
        assert(presets_view(r@) =~= want.take(i as int));
    }
    assert(want.take(n as int) =~= want);
    r
}

impl GhostFile {
    /// A copy with the same view.
    pub fn duplicate(&self) -> (r: GhostFile)
        ensures
            r@ == self@,
    {
        GhostFile {
            id: self.id.clone(),
            pid: self.pid,
            process: self.process.clone(),
            path: self.path.clone(),
            size: self.size,
            released: self.released,
        }
    }
}

/// The presets with each one whose target overlaps `path` cleared.
fn clear_overlapping(ps: &Vec<RulePreset>, path: &String) -> (r: Vec<RulePreset>)
    ensures
        presets_view(r@) == presets_view(ps@).map_values(clear_if_overlap(path@)),
{
    let ghost want = presets_view(ps@).map_values(clear_if_overlap(path@));
    let n = ps.len();
    let mut r: Vec<RulePreset> = Vec::new();
    let mut i: usize = 0;
    while i < n
        invariant
            n == ps@.len(),
            want == presets_view(ps@).map_values(clear_if_overlap(path@)),
            i <= n,
            r@.len() == i,
            presets_view(r@) == want.take(i as int),
        decreases n - i,
    {
        assert(presets_view(ps@)[i as int] == ps@[i as int]@);
        let mut p = ps[i].duplicate();
        if overlap_exec(path, &p.target) {
            p.size_bytes = 0;
            p.checked = false;
        }
        let ghost pv = p@;
        r.push(p);
        assert(r@[i as int]@ == pv);
        assert(pv == want[i as int]);
        i = i + 1;
        assert(presets_view(r@) =~= want.take(i as int));
    }
    assert(want.take(n as int) =~= want);
    r
}

/// The held-open files with each one whose path overlaps `path` released.
fn release_overlapping(gs: &Vec<GhostFile>, path: &String) -> (r: Vec<GhostFile>)
    ensures
        ghosts_view(r@) == ghosts_view(gs@).map_values(release_if_overlap(path@)),
{
    let ghost want = ghosts_view(gs@).map_values(release_if_overlap(path@));
    let n = gs.len();
    let mut r: Vec<GhostFile> = Vec::new();
    let mut i: usize = 0;
    while i < n
        invariant
            n == gs@.len(),
            want == ghosts_view(gs@).map_values(release_if_overlap(path@)),
            i <= n,
            r@.len() == i,
            ghosts_view(r@) == want.take(i as int),
        decreases n - i,
    {
        assert(ghosts_view(gs@)[i as int] == gs@[i as int]@);
        let mut g = gs[i].duplicate();
        if overlap_exec(path, &g.path) {
            g.released = true;
        }
        let ghost gv = g@;
        r.push(g);
        assert(r@[i as int]@ == gv);
        assert(gv == want[i as int]);
        i = i + 1;
        assert(ghosts_view(r@) =~= want.take(i as int));
    }
    assert(want.take(n as int) =~= want);
    r
}

/// The held-open files with each one of process `pid` released.
fn release_of_pid(gs: &Vec<GhostFile>, pid: i32) -> (r: Vec<GhostFile>)
    ensures
        ghosts_view(r@) == ghosts_view(gs@).map_values(release_if_pid(pid)),
{
    let ghost want = ghosts_view(gs@).map_values(release_if_pid(pid));
    let n = gs.len();
    let mut r: Vec<GhostFile> = Vec::new();
    let mut i: usize = 0;
    while i < n
        invariant
            n == gs@.len(),
            want == ghosts_view(gs@).map_values(release_if_pid(pid)),
            i <= n,
            r@.len() == i,
            ghosts_view(r@) == want.take(i as int),
        decreases n - i,
    {
        assert(ghosts_view(gs@)[i as int] == gs@[i as int]@);
        let mut g = gs[i].duplicate();
        if g.pid == pid {
            g.released = true;
        }
        let ghost gv = g@;
        r.push(g);
        assert(r@[i as int]@ == gv);
        assert(gv == want[i as int]);
        i = i + 1;
        assert(ghosts_view(r@) =~= want.take(i as int));
    }
    assert(want.take(n as int) =~= want);
    r
}

/// Taking a block out keeps the sizes small.
proof fn lemma_remove_small(bs: Seq<DiskBlockView>, i: int)
    requires
        0 <= i < bs.len(),
        small_sizes(view_sizes(bs)),
    ensures
        small_sizes(view_sizes(bs.remove(i))),
{
    let r = bs.remove(i);
    bs.remove_ensures(i);
    assert forall|k: int| 0 <= k < view_sizes(r).len() implies 0 <= #[trigger] view_sizes(r)[k] < 0x100_0000 by {
        if k < i {
            assert(view_sizes(bs)[k] == bs[k].size);
        } else {
            assert(view_sizes(bs)[k + 1] == bs[k + 1].size);
        }
    }
}


/// A fleet machine with the given id.
pub open spec fn node_has_id(id: Seq<char>) -> spec_fn(FleetNodeView) -> bool {
    |n: FleetNodeView| n.id == id
}

/// A machine above 80% disk usage.
pub open spec fn busy_node() -> spec_fn(FleetNodeView) -> bool {
    |n: FleetNodeView| n.disk_usage > 80
}

/// Scanning a fleet machine: four console lines (none when no machine has
/// the id).
pub open spec fn node_scan_view(s: AppStateView, id: Seq<char>, ts: Seq<char>) -> AppStateView {
    match find_first(s.fleet_nodes, node_has_id(id)) {
        None => s,
        Some(i) => {
            let nd = s.fleet_nodes[i];
            AppStateView {
                logs: s.logs + seq![
                    ("exec"@, "["@ + ts + "] [EXEC] Synchronizing SSH session with edge node: "@ + nd.name + " ("@ + nd.ip + ")"@),
                    ("cmd"@, "$ ssh -i ~/.ssh/id_ed25519 root@"@ + nd.ip + " \"oxidust core scan\""@),
                    ("ok"@, "[OK] SSH Tunnel secured. Fetching device disk layout tables..."@),
                    ("info"@, "[INFO] Target node "@ + nd.name + " reports: "@ + dec_int(nd.ghost_files_count as int) + " unlinked locking processes."@),
                ],
                ..s
            }
        },
    }
}

/// The space a remote purge frees on a machine: 45% of its disk, as the
/// `f64` product truncated and saturated to `i32`.
pub open spec fn recovered_space(nd: FleetNodeView) -> int {
    clamp_i32(scale_trunc(nd.disk_total as int, c045_mant(), 54))
}

/// A machine after a remote purge: the recovered space is free, the usage
/// is recomputed (as the `f64` percentage), no held-open files, online,
/// scanned just now.
pub open spec fn purged_node(nd: FleetNodeView) -> FleetNodeView {
    let free = nd.disk_free + recovered_space(nd);
    FleetNodeView {
        disk_free: free as i32,
        disk_usage: percent_of(nd.disk_total - free, nd.disk_total as int) as i32,
        ghost_files_count: 0,
        status: "online"@,
        last_scan: "Just now"@,
        ..nd
    }
}

/// A remote purge of the machine with the given id keeps its free space and
/// used space in the range of `i32`.
pub open spec fn remote_purge_fits(s: AppStateView, id: Seq<char>) -> bool {
    match find_first(s.fleet_nodes, node_has_id(id)) {
        Some(i) => {
            let nd = s.fleet_nodes[i];
            let free = nd.disk_free + recovered_space(nd);
            &&& i32::MIN <= free <= i32::MAX
            &&& i32::MIN <= nd.disk_total - free <= i32::MAX
        },
        None => true,
    }
}

/// Purging a fleet machine remotely (nothing happens when no machine has
/// the id), with four console lines.
pub open spec fn remote_purge_view(s: AppStateView, id: Seq<char>, ts: Seq<char>) -> AppStateView {
    match find_first(s.fleet_nodes, node_has_id(id)) {
        None => s,
        Some(i) => {
            let nd = s.fleet_nodes[i];
            AppStateView {
                fleet_nodes: s.fleet_nodes.update(i, purged_node(nd)),
                logs: s.logs + seq![
                    ("exec"@, "["@ + ts + "] [EXEC] Triggering edge purge command on node: "@ + nd.name),
                    ("cmd"@, "$ ssh -i ~/.ssh/id_ed25519 root@"@ + nd.ip + " \"oxidust system clean --force\""@),
                    ("ok"@, "[OK] Remote cleaning operations successful on target node."@),
                    ("success"@, "[SUCCESS] Edge node health state updated: Healthy."@),
                ],
                ..s
            }
        },
    }
}

/// The capacity typed for a new machine, in GB: the text as an `i32`, or
/// 250 when it does not parse.
pub open spec fn typed_capacity(text: Seq<char>) -> i32 {
    match parse_i32_spec(text) {
        Some(v) => v,
        None => 250,
    }
}

/// A newly registered machine: `total` GB of disk (in bytes, truncated to
/// `i32`), 65% of it free, 35% in use, online.
pub open spec fn new_node(name: Seq<char>, ip: Seq<char>, os: Seq<char>, total: i32, now: i64) -> FleetNodeView {
    FleetNodeView {
        id: "fleet_node_"@ + dec_int(now as int),
        name: name,
        ip: ip,
        os: os,
        status: "online"@,
        disk_usage: 35,
        disk_total: ((total as i64) * 1073741824) as i32,
        disk_free: ((scale_trunc(total as int, c065_mant(), 53) as i64) * 1073741824) as i32,
        ghost_files_count: 0,
        last_scan: "Registered today"@,
    }
}

/// Registering a machine: it goes first in the fleet, with two console
/// lines.
pub open spec fn add_node_view(
    s: AppStateView,
    name: Seq<char>,
    ip: Seq<char>,
    os: Seq<char>,
    capacity: Seq<char>,
    now: i64,
    ts: Seq<char>,
) -> AppStateView {
    AppStateView {
        fleet_nodes: seq![new_node(name, ip, os, typed_capacity(capacity), now)] + s.fleet_nodes,
        logs: s.logs + seq![
            ("ok"@, "["@ + ts + "] [OK] Registered new edge node target: "@ + name + " ("@ + ip + ")"@),
            ("info"@, "[INFO] Establishing persistent telemetry channels... Connected."@),
        ],
        ..s
    }
}

/// A chat message: ignored when it is only whitespace, otherwise it joins
/// the history followed by the advisor's answer.
pub open spec fn send_message_view(s: AppStateView, msg: Seq<char>) -> AppStateView {
    if trim(msg).len() == 0 {
        s
    } else {
        AppStateView { chat_history: s.chat_history + seq![("user"@, msg), ("assistant"@, advice(msg))], ..s }
    }
}

/// The current Unix time in seconds, from `chrono::Local::now().timestamp()`.
/// Nothing is stated of it: it is the clock's reading.
#[verifier::external_body]
fn unix_now() -> (t: i64) {
    chrono::Local::now().timestamp()
}

/// The advisor's answer on held-open files.
pub open spec fn advice_ghost() -> Seq<char> {
    "### Ghost Log Analysis\n\nTo safely release deleted Nginx file descriptors without restarting:\n\n1. Identify the PID holding the handle:\n   ```bash\n   lsof +L1 | grep nginx\n   ```\n2. Truncate the file handle:\n   ```bash\n   > /proc/PID/fd/FD_NUM\n   ```\n3. Or use Oxidust:\n   ```bash\n   oxidust ghost release --pid=PID\n   ```\n\n**Note:** This does not restart Nginx and is completely safe for production."@
}

/// The advisor's answer on Docker volumes.
pub open spec fn advice_docker() -> Seq<char> {
    "### Docker Volume Debloat Strategy\n\nSafe steps to purge orphaned Docker resources:\n\n1. List dangling volumes:\n   ```bash\n   docker volume ls -qf dangling=true\n   ```\n2. Remove orphaned volumes:\n   ```bash\n   docker volume prune --filter 'label!=\n   ```\n3. Clean build cache:\n   ```bash\n   docker builder prune -af\n   ```\n\n**Safety:** Use `--dry-run` first with any prune command."@
}

/// The advisor's answer on macOS and Homebrew.
pub open spec fn advice_brew() -> Seq<char> {
    "### macOS Homebrew Cleanup\n\nRecommended safe cleanup targets:\n\n- `~/Library/Caches/Homebrew` - Source tarballs (safe to delete)\n- `~/Library/Logs/DiagnosticReports` - Crash logs (safe)\n- `~/Library/Developer/Xcode/DerivedData` - Xcode caches (safe, will regenerate)\n\n```bash\nbrew cleanup --prune=7\nrm -rf ~/Library/Caches/Homebrew/*\n```\n\nAlways verify with `oxidust scan --dry-run` before bulk deletion."@
}

/// The advisor's answer to anything else.
pub open spec fn advice_general() -> Seq<char> {
    "### System Analysis\n\nBased on your query, here are recommended actions:\n\n1. **Run a full scan** with `oxidust core scan` to identify reclaimable space.\n2. **Check ghost file handles** using the Ghost-Hunter tab - these often consume significant invisible space.\n3. **Review fleet nodes** if managing remote servers.\n\nWould you like me to elaborate on any specific area? I can provide detailed shell commands and safety assessments."@
}

/// The advisor's canned answer: keyed on the words the message contains
/// (case-sensitive), in this order of precedence.
pub open spec fn advice(msg: Seq<char>) -> Seq<char> {
    if has_infix(msg, "nginx"@) || has_infix(msg, "ghost"@) {
        advice_ghost()
    } else if has_infix(msg, "docker"@) || has_infix(msg, "volume"@) {
        advice_docker()
    } else if has_infix(msg, "homebrew"@) || has_infix(msg, "brew"@) || has_infix(msg, "macos"@) {
        advice_brew()
    } else {
        advice_general()
    }
}

/// The advisor's canned answer to `msg`.
fn advice_text(msg: &Vec<char>) -> (r: &'static str)
    ensures
        r@ == advice(msg@),
{
    if contains_chars(msg, &chars_of("nginx")) || contains_chars(msg, &chars_of("ghost")) {
        "### Ghost Log Analysis\n\nTo safely release deleted Nginx file descriptors without restarting:\n\n1. Identify the PID holding the handle:\n   ```bash\n   lsof +L1 | grep nginx\n   ```\n2. Truncate the file handle:\n   ```bash\n   > /proc/PID/fd/FD_NUM\n   ```\n3. Or use Oxidust:\n   ```bash\n   oxidust ghost release --pid=PID\n   ```\n\n**Note:** This does not restart Nginx and is completely safe for production."
    } else if contains_chars(msg, &chars_of("docker")) || contains_chars(msg, &chars_of("volume")) {
        "### Docker Volume Debloat Strategy\n\nSafe steps to purge orphaned Docker resources:\n\n1. List dangling volumes:\n   ```bash\n   docker volume ls -qf dangling=true\n   ```\n2. Remove orphaned volumes:\n   ```bash\n   docker volume prune --filter 'label!=\n   ```\n3. Clean build cache:\n   ```bash\n   docker builder prune -af\n   ```\n\n**Safety:** Use `--dry-run` first with any prune command."
    } else if contains_chars(msg, &chars_of("homebrew")) || contains_chars(msg, &chars_of("brew")) || contains_chars(msg, &chars_of("macos")) {
        "### macOS Homebrew Cleanup\n\nRecommended safe cleanup targets:\n\n- `~/Library/Caches/Homebrew` - Source tarballs (safe to delete)\n- `~/Library/Logs/DiagnosticReports` - Crash logs (safe)\n- `~/Library/Developer/Xcode/DerivedData` - Xcode caches (safe, will regenerate)\n\n```bash\nbrew cleanup --prune=7\nrm -rf ~/Library/Caches/Homebrew/*\n```\n\nAlways verify with `oxidust scan --dry-run` before bulk deletion."
    } else {
        "### System Analysis\n\nBased on your query, here are recommended actions:\n\n1. **Run a full scan** with `oxidust core scan` to identify reclaimable space.\n2. **Check ghost file handles** using the Ghost-Hunter tab - these often consume significant invisible space.\n3. **Review fleet nodes** if managing remote servers.\n\nWould you like me to elaborate on any specific area? I can provide detailed shell commands and safety assessments."
    }
}

/// The audit report: platform, counts of blocks, unreleased held-open
/// files, fleet machines, selected presets and machines above 80% disk
/// usage, and the reclaimable space of the selection.
pub open spec fn audit_text_labelled(s: AppStateView, label: Seq<char>) -> Seq<char> {
    "## Oxidust Storage Audit Report\n\n**OS:** "@ + label + "\n**Scan Status:** Complete\n\n### Findings\n\n- "@ + dec_nat(s.blocks.len()) + " storage blocks identified\n- "@
        + dec_nat(count(s.ghosts, unreleased())) + " ghost file handles detected\n- "@ + dec_nat(s.fleet_nodes.len()) + " fleet nodes monitored\n\n### Recommendations\n\n1. **Review Rule Presets**: "@
        + dec_nat(count(s.presets, is_checked())) + " active rules selected\n2. **Release Ghost Handles**: Use Ghost-Hunter tab to close file descriptors\n3. **Optimize Fleet**: "@ + dec_nat(count(s.fleet_nodes, busy_node())) + " nodes with critical disk usage\n\n### Summary\n\nReclaimable space: "@
        + size_text(selected_total(s.presets)) + "\n\n---\n*Generated by Oxidust AI Advisor*"@
}

/// The audit report, naming the platform in upper case.
pub open spec fn audit_text(s: AppStateView) -> Seq<char> {
    audit_text_labelled(s, uppercase(s.active_os))
}

/// A console line.
fn log_entry(level: &str, text: String) -> (e: LogEntry)
    ensures
        e@ == (level@, text@),
{
    LogEntry { level: String::from_str(level), text }
}

/// `a` followed by `b`.
fn cat2(a: &str, b: &str) -> (r: String)
    ensures
        r@ == a@ + b@,
{
    let mut r = String::from_str(a);
    r.append(b);
    r
}

/// `a`, `b` and `c` in a row.
fn cat3(a: &str, b: &str, c: &str) -> (r: String)
    ensures
        r@ == a@ + b@ + c@,
{
    let mut r = String::from_str(a);
    r.append(b);
    r.append(c);
    r
}

/// The sum of small sizes is at most their count times 2^24 - 1.
proof fn lemma_small_sum(s: Seq<i32>)
    requires
        small_sizes(s),
    ensures
        0 <= crate::treemap::sum_sizes(s) <= s.len() * 0xFF_FFFF,
    decreases s.len(),
{
    if s.len() > 0 {
        let t = s.drop_last();
        assert forall|i: int| 0 <= i < t.len() implies 0 <= #[trigger] t[i] < 0x100_0000 by {
            assert(t[i] == s[i]);
        }
        lemma_small_sum(t);
        assert(s.last() == s[s.len() - 1]);
    }
}

/// Running totals of entries each in [0, 2^24), at most 128 of them, fit
/// in an `i32`.
proof fn lemma_small_sums_fit<A>(s: Seq<A>, f: spec_fn(A) -> bool, w: spec_fn(A) -> int)
    requires
        s.len() <= 128,
        forall|i: int| 0 <= i < s.len() ==> 0 <= #[trigger] w(s[i]) < 0x100_0000,
    ensures
        sums_fit(s, f, w),
{
    assert forall|k: int| 0 <= k <= s.len() implies i32::MIN <= #[trigger] sum_where(s.take(k), f, w) <= i32::MAX by {
        let t = s.take(k);
        assert forall|i: int| 0 <= i < t.len() implies 0 <= #[trigger] w(t[i]) < 0x100_0000 by {
            assert(t[i] == s[i]);
        }
        lemma_sum_where_small(t, f, w);
    }
}

/// Running selected totals of small preset sizes stay small.
proof fn lemma_selection_small(ps: Seq<RulePresetView>)
    requires
        small_sizes(preset_sizes(ps)),
    ensures
        0 <= selected_total(ps) <= ps.len() * 0xFF_FFFF,
    decreases ps.len(),
{
    if ps.len() > 0 {
        let t = ps.drop_last();
        assert(preset_sizes(t) =~= preset_sizes(ps).drop_last());
        lemma_selection_small(t);
        assert(preset_sizes(ps)[ps.len() - 1] == ps.last().size_bytes);
    }
}

/// A well-formed state keeps every sum the queries take in the range of
/// `i32`: the selected total, the disk map's total, the space a purge
/// reclaims and the space any process holds.
pub proof fn lemma_wf_sums_fit(s: AppStateView, pid: i32)
    requires
        s.wf(),
    ensures
        selection_fits(s.presets),
        prefixes_fit(view_sizes(s.blocks)),
        sums_fit(s.blocks, targeted(s.presets), block_size()),
        sums_fit(s.ghosts, ghost_has_pid(pid), ghost_size()),
{
    assert forall|k: int| 0 <= k <= s.presets.len() implies i32::MIN <= #[trigger] selected_total(s.presets.take(k)) <= i32::MAX by {
        let t = s.presets.take(k);
        assert(preset_sizes(t) =~= preset_sizes(s.presets).take(k));
        lemma_selection_small(t);
    }
    let sz = view_sizes(s.blocks);
    assert forall|k: int| 0 <= k <= sz.len() implies i32::MIN <= #[trigger] sum_sizes(sz.take(k)) <= i32::MAX by {
        lemma_small_sum(sz.take(k));
    }
    assert forall|i: int| 0 <= i < s.blocks.len() implies 0 <= #[trigger] block_size()(s.blocks[i]) < 0x100_0000 by {
        assert(sz[i] == s.blocks[i].size);
    }
    lemma_small_sums_fit(s.blocks, targeted(s.presets), block_size());
    assert forall|i: int| 0 <= i < s.ghosts.len() implies 0 <= #[trigger] ghost_size()(s.ghosts[i]) < 0x100_0000 by {
        assert(ghost_sizes(s.ghosts)[i] == s.ghosts[i].size);
    }
    lemma_small_sums_fit(s.ghosts, ghost_has_pid(pid), ghost_size());
}

impl AppState {
    /// The state the application starts in.
    pub fn new() -> (s: AppState)
        ensures
            s@ == initial_view(),
            s@.wf(),
    {
        let mut logs: Vec<LogEntry> = Vec::new();
        logs.push(log_entry("info", String::from_str("[OK] Oxidust Core v2.4.0 initialized")));
        logs.push(log_entry("info", String::from_str("[INFO] System sensors calibrated")));
        let mut chat_history: Vec<ChatMessage> = Vec::new();
        chat_history.push(ChatMessage {
            role: String::from_str("assistant"),
            text: String::from_str("Hello! I am the **Oxidust AI Systems Advisor**.\n\nI am optimized to help you perform server-grade space purging, analyze ghost handles, and formulate highly technical Rust-speed system optimizations.\n\nAsk me a question below, or trigger a **Comprehensive Storage Audit** to generate a diagnostic performance report!"),
        });
        let s = AppState {
            active_os: String::from_str("linux"),
            safety_level: String::from_str("moderate"),
            blocks: Vec::new(),
            layout: Treemap::Empty,
            presets: Vec::new(),
            ghosts: Vec::new(),
            fleet_nodes: get_initial_fleet_nodes(),
            logs,
            chat_history,
            reclaimed_bytes: 0,
            total_capacity: 500 * 1024 * 1024,
            initial_used: 384 * 1024 * 1024,
        };
        proof {
            assert(s@.blocks =~= Seq::<DiskBlockView>::empty());
            assert(s@.presets =~= Seq::<RulePresetView>::empty());
            assert(s@.ghosts =~= Seq::<GhostFileView>::empty());
            assert(s@.logs =~= initial_view().logs);
            assert(s@.chat_history =~= initial_view().chat_history);
            assert(view_sizes(s@.blocks) =~= Seq::<i32>::empty());
            assert(preset_sizes(s@.presets) =~= Seq::<i32>::empty());
            assert(ghost_sizes(s@.ghosts) =~= Seq::<i32>::empty());
            assert(crate::treemap::layout_items(Seq::<i32>::empty()) =~= Seq::empty());
        }
        s
    }

    /// Appends a console line.
    pub fn add_log(&mut self, level: &str, text: &str)
        ensures
            final(self)@ == (AppStateView { logs: old(self)@.logs.push((level@, text@)), ..old(self)@ }),
            old(self)@.wf() ==> final(self)@.wf(),
    {
        self.logs.push(log_entry(level, String::from_str(text)));
        assert(logs_view(self.logs@) =~= logs_view(old(self).logs@).push((level@, text@)));
    }

    /// Switches to the platform `os`, named in upper case in the console.
    pub fn load_os(&mut self, os: &str)
        ensures
            final(self)@ == load_os_view(old(self)@, os@),
            final(self)@.wf(),
    {
        let up = to_upper(os);
        self.load_os_labelled(os, up.as_str());
    }

    /// Switches to the platform `os`, named `label` in the console.
    pub fn load_os_labelled(&mut self, os: &str, label: &str)
        ensures
            final(self)@ == load_os_labelled_view(old(self)@, os@, label@),
            final(self)@.wf(),
    {
        self.active_os = String::from_str(os);
        self.blocks = get_os_blocks(os);
        self.presets = get_os_presets(os);
        self.ghosts = get_os_ghosts(os);
        proof {
            lemma_catalog_small(os@);
            assert(block_sizes(self.blocks@) =~= view_sizes(blocks_view(self.blocks@)));
            lemma_layout_fits(block_sizes(self.blocks@));
        }
        self.layout = compute_treemap_layout(&self.blocks);
        self.logs.push(log_entry("ok", cat2("[OK] Shifted kernel compiler targeting to: ", label)));
        let mut t = String::from_str("[INFO] Re-compiled and loaded OS-specific preset checklists (");
        push_dec_u64(&mut t, self.presets.len() as u64);
        t.append(" loaded)");
        self.logs.push(log_entry("info", t));
        self.logs.push(log_entry("info", String::from_str("[INFO] TreeMap cache rebuilt. Storage maps synchronized.")));
        proof {
            assert(logs_view(self.logs@) =~= load_os_labelled_view(old(self)@, os@, label@).logs);
        }
    }

    /// Sets the safety threshold and re-selects the presets by it, naming
    /// the threshold in upper case in the console.
    pub fn apply_safety(&mut self, level: &str)
        ensures
            final(self)@ == apply_safety_view(old(self)@, level@),
            old(self)@.wf() ==> final(self)@.wf(),
    {
        let up = to_upper(level);
        self.apply_safety_labelled(level, up.as_str());
    }

    /// Sets the safety threshold and re-selects the presets by it, naming
    /// the threshold `label` in the console.
    pub fn apply_safety_labelled(&mut self, level: &str, label: &str)
        ensures
            final(self)@ == apply_safety_labelled_view(old(self)@, level@, label@),
            old(self)@.wf() ==> final(self)@.wf(),
    {
        self.safety_level = String::from_str(level);
        let is_safe = str_eq(level, "safe");
        let is_moderate = str_eq(level, "moderate");
        let n = self.presets.len();
        let mut i: usize = 0;
        while i < n
            invariant
                n == self.presets@.len(),
                n == old(self).presets@.len(),
                i <= n,
                is_safe == (level@ == "safe"@),
                is_moderate == (level@ == "moderate"@),
                forall|k: int| 0 <= k < i ==> (#[trigger] self.presets@[k])@ == (RulePresetView {
                    checked: selected_under(level@, old(self).presets@[k]@),
                    ..old(self).presets@[k]@
                }),
                forall|k: int| i <= k < n ==> (#[trigger] self.presets@[k]) == old(self).presets@[k],
                self.active_os == old(self).active_os,
                self.blocks == old(self).blocks,
                self.layout == old(self).layout,
                self.ghosts == old(self).ghosts,
                self.fleet_nodes == old(self).fleet_nodes,
                self.logs == old(self).logs,
                self.chat_history == old(self).chat_history,
                self.reclaimed_bytes == old(self).reclaimed_bytes,
                self.total_capacity == old(self).total_capacity,
                self.initial_used == old(self).initial_used,
                self.safety_level@ == level@,
            decreases n - i,
        {
            let safe = str_eq(self.presets[i].safety.as_str(), "safe");
            let moderate = str_eq(self.presets[i].safety.as_str(), "moderate");
            let c = if is_safe { safe } else if is_moderate { safe || moderate } else { true };
            self.presets[i].checked = c;
            i = i + 1;
        }
        self.logs.push(log_entry("exec", cat3("[EXEC] Adjusted Maximum Safety Threshold to: [", label, "]")));
        self.logs.push(log_entry("ok", String::from_str("[OK] Re-mapped preset checklists to align with safety matrix thresholds.")));
        proof {
            let v = apply_safety_labelled_view(old(self)@, level@, label@);
            assert(presets_view(self.presets@) =~= v.presets);
            assert(logs_view(self.logs@) =~= v.logs);
            assert(preset_sizes(presets_view(self.presets@)) =~= preset_sizes(old(self)@.presets));
        }
    }

    /// The total size of the selected presets.
    pub fn total_reclaimable_selected(&self) -> (t: i32)
        requires
            selection_fits(self@.presets),
        ensures
            t == selected_total(self@.presets),
    {
        let n = self.presets.len();
        let mut t: i32 = 0;
        let mut i: usize = 0;
        assert(self@.presets.take(0) =~= Seq::<RulePresetView>::empty());
        while i < n
            invariant
                n == self.presets@.len(),
                i <= n,
                selection_fits(self@.presets),
                t == selected_total(self@.presets.take(i as int)),
            decreases n - i,
        {
            let ghost ps = self@.presets;
            assert(ps.take(i + 1).drop_last() =~= ps.take(i as int));
            assert(ps[i as int] == self.presets@[i as int]@);
            assert(i32::MIN <= selected_total(ps.take(i + 1)) <= i32::MAX);
            if self.presets[i].checked {
                t = t + self.presets[i].size_bytes;
            }
            i = i + 1;
        }
        assert(self@.presets.take(n as int) =~= self@.presets);
        t
    }

    /// The local wall-clock time, from `chrono::Local::now().format("%H:%M:%S")`
    /// rendered to a `String`. Claimed of it: two digits, a colon, two
    /// digits, a colon, two digits (chrono writes hour, minute and second
    /// zero-padded to two digits), the hour at most 23, the minute at most
    /// 59 and the second at most 60 (chrono shows a leap second as 60).
    /// Which time it is is not stated.
    #[verifier::external_body]
    fn time_str() -> (t: String)
        ensures
            clock_text(t@),
    {
        chrono::Local::now().format("%H:%M:%S").to_string()
    }

    /// The number of held-open files not yet released.
    pub fn unreleased_ghosts(&self) -> (n: usize)
        ensures
            n == count(self@.ghosts, unreleased()),
    {
        let ghost f = unreleased();
        let n = self.ghosts.len();
        let mut c: usize = 0;
        let mut i: usize = 0;
        while i < n
            invariant
                n == self.ghosts@.len(),
                i <= n,
                f == unreleased(),
                c == count(self@.ghosts.take(i as int), f),
            decreases n - i,
        {
            proof {
                lemma_count_step(self@.ghosts, f, i as int);
                assert(self@.ghosts[i as int] == self.ghosts@[i as int]@);
            }
            if !self.ghosts[i].released {
                assert(f(self@.ghosts[i as int]));
                c = c + 1;
            } else {
                assert(!f(self@.ghosts[i as int]));
            }
            assert(c == count(self@.ghosts.take(i + 1), f));
            i = i + 1;
        }
        assert(self@.ghosts.take(n as int) =~= self@.ghosts);
        c
    }

    /// The total size of the disk map's blocks.
    pub fn blocks_total(&self) -> (t: i32)
        requires
            prefixes_fit(view_sizes(self@.blocks)),
        ensures
            t == sum_sizes(view_sizes(self@.blocks)),
    {
        let ghost sz = view_sizes(self@.blocks);
        let n = self.blocks.len();
        let mut t: i32 = 0;
        let mut i: usize = 0;
        assert(sz.take(0) =~= Seq::<i32>::empty());
        while i < n
            invariant
                n == self.blocks@.len(),
                sz == view_sizes(self@.blocks),
                prefixes_fit(sz),
                i <= n,
                t == sum_sizes(sz.take(i as int)),
            decreases n - i,
        {
            assert(sz.take(i + 1).drop_last() =~= sz.take(i as int));
            assert(sz[i as int] == self.blocks@[i as int].size);
            assert(i32::MIN <= sum_sizes(sz.take(i + 1)) <= i32::MAX);
            t = t + self.blocks[i].size;
            i = i + 1;
        }
        assert(sz.take(n as int) =~= sz);
        t
    }

    /// Logs a dry run of the scan stamped `ts`.
    pub fn run_dry_scan_at(&mut self, ts: &str)
        requires
            prefixes_fit(view_sizes(old(self)@.blocks)),
        ensures
            final(self)@ == dry_scan_view(old(self)@, ts@),
            old(self)@.wf() ==> final(self)@.wf(),
    {
        let block_len = self.blocks.len();
        let total_space = self.blocks_total();
        let ghost_count = self.unreleased_ghosts();
        self.logs.push(log_entry("exec", cat3("[", ts, "] launching Dry-Run file diagnostics scan...")));
        let mut t = cat2("$ oxidust core scan --os=", self.active_os.as_str());
        t.append(" --safety=");
        t.append(self.safety_level.as_str());
        self.logs.push(log_entry("cmd", t));
        self.logs.push(log_entry("ok", String::from_str("[OK] Attached filesystem kernel sensor to absolute roots...")));
        self.logs.push(log_entry("info", String::from_str("[INFO] Auditing standard caches, local indexes, and dangling container registers...")));
        let mut t = String::from_str("[INFO] Discovered ");
        push_dec_u64(&mut t, block_len as u64);
        t.append(" storage density blocks occupying system volume");
        self.logs.push(log_entry("info", t));
        let mut t = String::from_str("[LOCK] Found ");
        push_dec_u64(&mut t, ghost_count as u64);
        t.append(" unlinked open process handles (phantom file structures)");
        self.logs.push(log_entry("lock", t));
        let fb = format_bytes(total_space);
        self.logs.push(log_entry("success", cat3("[SUCCESS] Scan complete! Identified reclaimable threshold of ", fb.as_str(), " across all policy checklists.")));
        proof {
            assert(logs_view(self.logs@) =~= dry_scan_view(old(self)@, ts@).logs);
        }
    }

    /// Logs a dry run of the scan, stamped with the current time.
    pub fn run_dry_scan(&mut self)
        requires
            prefixes_fit(view_sizes(old(self)@.blocks)),
        ensures
            exists|ts: Seq<char>| clock_text(ts) && final(self)@ == dry_scan_view(old(self)@, ts),
            old(self)@.wf() ==> final(self)@.wf(),
    {
        let ts = Self::time_str();
        self.run_dry_scan_at(ts.as_str());
    }

    /// Flips the selection of the first preset with id `id`.
    pub fn toggle_preset(&mut self, id: &str)
        ensures
            final(self)@ == toggle_preset_view(old(self)@, id@),
            old(self)@.wf() ==> final(self)@.wf(),
    {
        let ghost f = preset_has_id(id@);
        let n = self.presets.len();
        let mut i: usize = 0;
        while i < n
            invariant
                n == self.presets@.len(),
                i <= n,
                *self == *old(self),
                f == preset_has_id(id@),
                forall|k: int| 0 <= k < i ==> !f(#[trigger] self@.presets[k]),
            decreases n - i,
        {
            assert(self@.presets[i as int] == self.presets@[i as int]@);
            if str_eq(self.presets[i].id.as_str(), id) {
                proof {
                    assert(f(self@.presets[i as int]));
                    lemma_find_first(self@.presets, f, i as int);
                    assert(find_first(old(self)@.presets, preset_has_id(id@)) == Some(i as int));
                }
                let c = self.presets[i].checked;
                self.presets[i].checked = !c;
                proof {
                    let want = toggle_preset_view(old(self)@, id@).presets;
                    assert forall|k: int| 0 <= k < n implies #[trigger] presets_view(self.presets@)[k] == want[k] by {
                        if k != i {
                            assert(self.presets@[k] == old(self).presets@[k]);
                        }
                    }
                    assert(presets_view(self.presets@) =~= want);
                    assert(preset_sizes(want) =~= preset_sizes(old(self)@.presets));
                }
                return;
            }
            i = i + 1;
        }
        proof {
            lemma_find_first(self@.presets, f, n as int);
        }
    }

    /// Selects (or clears) every preset.
    pub fn select_all(&mut self, v: bool)
        ensures
            final(self)@ == select_all_view(old(self)@, v),
            old(self)@.wf() ==> final(self)@.wf(),
    {
        let n = self.presets.len();
        let mut i: usize = 0;
        while i < n
            invariant
                n == self.presets@.len(),
                n == old(self).presets@.len(),
                i <= n,
                forall|k: int| 0 <= k < i ==> (#[trigger] self.presets@[k])@ == (RulePresetView {
                    checked: v,
                    ..old(self).presets@[k]@
                }),
                forall|k: int| i <= k < n ==> (#[trigger] self.presets@[k]) == old(self).presets@[k],
                self.active_os == old(self).active_os,
                self.safety_level == old(self).safety_level,
                self.blocks == old(self).blocks,
                self.layout == old(self).layout,
                self.ghosts == old(self).ghosts,
                self.fleet_nodes == old(self).fleet_nodes,
                self.logs == old(self).logs,
                self.chat_history == old(self).chat_history,
                self.reclaimed_bytes == old(self).reclaimed_bytes,
                self.total_capacity == old(self).total_capacity,
                self.initial_used == old(self).initial_used,
            decreases n - i,
        {
            self.presets[i].checked = v;
            i = i + 1;
        }
        proof {
            assert(presets_view(self.presets@) =~= select_all_view(old(self)@, v).presets);
            assert(preset_sizes(presets_view(self.presets@)) =~= preset_sizes(old(self)@.presets));
        }
    }

    /// Logs an audit of the held-open files.
    pub fn scan_ghosts(&mut self)
        ensures
            final(self)@ == scan_ghosts_view(old(self)@),
            old(self)@.wf() ==> final(self)@.wf(),
    {
        let n = self.unreleased_ghosts();
        self.logs.push(log_entry("exec", String::from_str("[EXEC] Ghost-Hunter triggered file descriptor audit...")));
        let mut t = String::from_str("[INFO] Discovered ");
        push_dec_u64(&mut t, n as u64);
        t.append(" ghost file handles held by active processes.");
        self.logs.push(log_entry("info", t));
        proof {
            assert(logs_view(self.logs@) =~= scan_ghosts_view(old(self)@).logs);
        }
    }

    /// Empties the console.
    pub fn clear_logs(&mut self)
        ensures
            final(self)@ == (AppStateView { logs: seq![], ..old(self)@ }),
            old(self)@.wf() ==> final(self)@.wf(),
    {
        self.logs.clear();
        assert(logs_view(self.logs@) =~= Seq::<(Seq<char>, Seq<char>)>::empty());
    }

    /// The number of selected presets.
    pub fn checked_count(&self) -> (n: usize)
        ensures
            n == count(self@.presets, is_checked()),
    {
        let ghost f = is_checked();
        let n = self.presets.len();
        let mut c: usize = 0;
        let mut i: usize = 0;
        while i < n
            invariant
                n == self.presets@.len(),
                f == is_checked(),
                i <= n,
                c == count(self@.presets.take(i as int), f),
            decreases n - i,
        {
            proof {
                lemma_count_step(self@.presets, f, i as int);
                assert(self@.presets[i as int] == self.presets@[i as int]@);
            }
            if self.presets[i].checked {
                c = c + 1;
            }
            i = i + 1;
        }
        assert(self@.presets.take(n as int) =~= self@.presets);
        c
    }

    /// Purges every selected preset, stamping the console with `ts`.
    pub fn purge_checked_at(&mut self, ts: &str)
        requires
            old(self)@.wf(),
            old(self)@.reclaimed_bytes + purge_space(old(self)@) <= i32::MAX,
        ensures
            final(self)@ == purge_view(old(self)@, ts@),
            final(self)@.wf(),
    {
        let n_checked = self.checked_count();
        if n_checked == 0 {
            return;
        }
        self.logs.push(log_entry("exec", cat3("[", ts, "] Initiating absolute purge sequence on checked rule nodes...")));
        self.logs.push(log_entry("cmd", String::from_str("$ oxidust system clean --policy=active --force")));
        let ghost s0 = old(self)@;
        let ghost hit = targeted(s0.presets);
        let ghost spare = untargeted(s0.presets);
        let ghost bv = s0.blocks;
        let n = self.blocks.len();
        let mut kept: Vec<DiskBlock> = Vec::new();
        let mut space: i32 = 0;
        let mut i: usize = 0;
        assert(blocks_view(kept@) =~= keep(bv.take(0), spare));
        assert(bv.take(0) =~= Seq::<DiskBlockView>::empty());
        assert(sum_where(bv.take(0), hit, block_size()) == 0);
        while i < n
            invariant
                n == self.blocks@.len(),
                bv == blocks_view(self.blocks@),
                s0.presets == presets_view(self.presets@),
                hit == targeted(s0.presets),
                spare == untargeted(s0.presets),
                small_sizes(view_sizes(bv)),
                i <= n,
                blocks_view(kept@) == keep(bv.take(i as int), spare),
                space == sum_where(bv.take(i as int), hit, block_size()),
                0 <= space <= i * 0xFF_FFFF,
            decreases n - i,
        {
            proof {
                lemma_count_step(bv, spare, i as int);
                lemma_sum_where_step(bv, hit, block_size(), i as int);
                assert(bv[i as int] == self.blocks@[i as int]@);
                assert(view_sizes(bv)[i as int] == bv[i as int].size);
            }
            let h = targeted_exec(&self.presets, &self.blocks[i].path);
            proof {
                let b = bv[i as int];
                let pv = presets_view(self.presets@);
                assert(b.path == self.blocks@[i as int].path@);
                if h {
                    let k = choose|k: int| 0 <= k < pv.len() && pv[k].checked && #[trigger] overlap(self.blocks@[i as int].path@, pv[k].target);
                    assert(s0.presets[k].checked && overlap(b.path, s0.presets[k].target));
                }
                if hit(b) {
                    let k = choose|k: int| 0 <= k < s0.presets.len() && s0.presets[k].checked && #[trigger] overlap(b.path, s0.presets[k].target);
                    assert(pv[k].checked && overlap(self.blocks@[i as int].path@, pv[k].target));
                }
            }
            assert(h == hit(bv[i as int]));
            assert(spare(bv[i as int]) == !h);
            if h {
                space = space + self.blocks[i].size;
            } else {
                kept.push(self.blocks[i].duplicate());
                assert(blocks_view(kept@) =~= keep(bv.take(i as int), spare).push(bv[i as int]));
            }
            i = i + 1;
        }
        assert(bv.take(n as int) =~= bv);
        proof {
            lemma_keep_small(bv, spare);
            assert(block_sizes(kept@) =~= view_sizes(blocks_view(kept@)));
            lemma_layout_fits(block_sizes(kept@));
        }
        assert(space == purge_space(s0));
        self.layout = compute_treemap_layout(&kept);
        self.blocks = kept;
        self.presets = cleared_selected(&self.presets);
        self.reclaimed_bytes = self.reclaimed_bytes + space;
        self.logs.push(log_entry("ok", String::from_str("[OK] Wiped metadata headers and trimmed sector blocks.")));
        let mut t = String::from_str("[SUCCESS] Successfully released ");
        push_dec_u64(&mut t, n_checked as u64);
        t.append(" checked target rules.");
        self.logs.push(log_entry("success", t));
        let fb = format_bytes(space);
        self.logs.push(log_entry("success", cat3("[SUCCESS] System disk reclaimed: +", fb.as_str(), " returned to root index.")));
        proof {
            let v = purge_view(s0, ts@);
            assert(logs_view(self.logs@) =~= v.logs);
            assert(presets_view(self.presets@) =~= v.presets);
            assert forall|k: int| 0 <= k < preset_sizes(v.presets).len() implies 0 <= #[trigger] preset_sizes(v.presets)[k] < 0x100_0000 by {
                assert(preset_sizes(s0.presets)[k] == s0.presets[k].size_bytes);
            }
        }
    }

    /// Purges every selected preset, stamped with the current time.
    pub fn purge_checked(&mut self)
        requires
            old(self)@.wf(),
            old(self)@.reclaimed_bytes + purge_space(old(self)@) <= i32::MAX,
        ensures
            exists|ts: Seq<char>| clock_text(ts) && final(self)@ == purge_view(old(self)@, ts),
            final(self)@.wf(),
    {
        let ts = Self::time_str();
        self.purge_checked_at(ts.as_str());
    }

    /// Purges the block with id `id`, stamping the console with `ts`.
    pub fn block_clicked_at(&mut self, id: &str, ts: &str)
        requires
            old(self)@.wf(),
            block_purge_fits(old(self)@, id@),
        ensures
            final(self)@ == block_clicked_view(old(self)@, id@, ts@),
            final(self)@.wf(),
    {
        let ghost s0 = old(self)@;
        let ghost f = block_has_id(id@);
        let n = self.blocks.len();
        let mut idx: usize = 0;
        while idx < n
            invariant
                n == self.blocks@.len(),
                idx <= n,
                *self == *old(self),
                s0 == old(self)@,
                f == block_has_id(id@),
                forall|k: int| 0 <= k < idx ==> !f(#[trigger] self@.blocks[k]),
            ensures
                idx <= n,
                *self == *old(self),
                forall|k: int| 0 <= k < idx ==> !f(#[trigger] self@.blocks[k]),
                idx < n ==> f(self@.blocks[idx as int]),
            decreases n - idx,
        {
            assert(self@.blocks[idx as int] == self.blocks@[idx as int]@);
            if str_eq(self.blocks[idx].id.as_str(), id) {
                break;
            }
            idx = idx + 1;
        }
        if idx == n {
            proof {
                lemma_find_first(s0.blocks, f, n as int);
            }
            return;
        }
        proof {
            assert(f(s0.blocks[idx as int]));
            lemma_find_first(s0.blocks, f, idx as int);
        }
        let block = self.blocks[idx].duplicate();
        assert(block@ == s0.blocks[idx as int]);
        assert(view_sizes(s0.blocks)[idx as int] == s0.blocks[idx as int].size);
        assert(s0.reclaimed_bytes + block.size <= i32::MAX);
        let mut t = cat3("[", ts, "] [EXEC] Granular direct purge triggered on block: ");
        t.append(block.name.as_str());
        self.logs.push(log_entry("exec", t));
        self.logs.push(log_entry("cmd", cat2("$ rm -rf ", block.path.as_str())));
        let _removed = self.blocks.remove(idx);
        proof {
            assert(blocks_view(self.blocks@) =~= s0.blocks.remove(idx as int));
            lemma_remove_small(s0.blocks, idx as int);
            assert(block_sizes(self.blocks@) =~= view_sizes(blocks_view(self.blocks@)));
            lemma_layout_fits(block_sizes(self.blocks@));
        }
        self.layout = compute_treemap_layout(&self.blocks);
        self.presets = clear_overlapping(&self.presets, &block.path);
        if str_eq(block.category.as_str(), "Ghost") {
            self.ghosts = release_overlapping(&self.ghosts, &block.path);
        }
        self.reclaimed_bytes = self.reclaimed_bytes + block.size;
        self.logs.push(log_entry("ok", String::from_str("[OK] Raw blocks purged cleanly.")));
        let fb = format_bytes(block.size);
        self.logs.push(log_entry("success", cat3("[SUCCESS] Reclaimed ", fb.as_str(), " from node sector.")));
        proof {
            let v = block_clicked_view(s0, id@, ts@);
            assert(logs_view(self.logs@) =~= v.logs);
            assert forall|k: int| 0 <= k < preset_sizes(v.presets).len() implies 0 <= #[trigger] preset_sizes(v.presets)[k] < 0x100_0000 by {
                assert(preset_sizes(s0.presets)[k] == s0.presets[k].size_bytes);
            }
            assert forall|k: int| 0 <= k < ghost_sizes(v.ghosts).len() implies 0 <= #[trigger] ghost_sizes(v.ghosts)[k] < 0x100_0000 by {
                assert(ghost_sizes(s0.ghosts)[k] == s0.ghosts[k].size);
            }
        }
    }

    /// Purges the block with id `id`, stamped with the current time.
    pub fn block_clicked(&mut self, id: &str)
        requires
            old(self)@.wf(),
            block_purge_fits(old(self)@, id@),
        ensures
            exists|ts: Seq<char>| clock_text(ts) && final(self)@ == block_clicked_view(old(self)@, id@, ts),
            final(self)@.wf(),
    {
        let ts = Self::time_str();
        self.block_clicked_at(id, ts.as_str());
    }

    /// Releases the held-open file with id `id`, stamping the console with
    /// `ts`.
    pub fn release_ghost_at(&mut self, id: &str, ts: &str)
        requires
            old(self)@.wf(),
            ghost_release_fits(old(self)@, id@),
        ensures
            final(self)@ == release_ghost_view(old(self)@, id@, ts@),
            final(self)@.wf(),
    {
        let ghost s0 = old(self)@;
        let ghost f = ghost_has_id(id@);
        let n = self.ghosts.len();
        let mut idx: usize = 0;
        while idx < n
            invariant
                n == self.ghosts@.len(),
                idx <= n,
                *self == *old(self),
                s0 == old(self)@,
                f == ghost_has_id(id@),
                forall|k: int| 0 <= k < idx ==> !f(#[trigger] self@.ghosts[k]),
            ensures
                idx <= n,
                *self == *old(self),
                forall|k: int| 0 <= k < idx ==> !f(#[trigger] self@.ghosts[k]),
                idx < n ==> f(self@.ghosts[idx as int]),
            decreases n - idx,
        {
            assert(self@.ghosts[idx as int] == self.ghosts@[idx as int]@);
            if str_eq(self.ghosts[idx].id.as_str(), id) {
                break;
            }
            idx = idx + 1;
        }
        if idx == n {
            proof {
                lemma_find_first(s0.ghosts, f, n as int);
            }
            return;
        }
        proof {
            assert(f(s0.ghosts[idx as int]));
            lemma_find_first(s0.ghosts, f, idx as int);
        }
        assert(s0.ghosts[idx as int] == self.ghosts@[idx as int]@);
        let pid = self.ghosts[idx].pid;
        let process = self.ghosts[idx].process.clone();
        let size = self.ghosts[idx].size;
        assert(ghost_sizes(s0.ghosts)[idx as int] == s0.ghosts[idx as int].size);
        assert(s0.reclaimed_bytes + size <= i32::MAX);
        self.ghosts[idx].released = true;
        let mut t = cat3("[", ts, "] [LOCK] Closing locking descriptor for PID ");
        push_dec_i64(&mut t, pid as i64);
        t.append(" (");
        t.append(process.as_str());
        t.append(")");
        self.logs.push(log_entry("lock", t));
        let mut t = String::from_str("$ lsof -p ");
        push_dec_i64(&mut t, pid as i64);
        t.append(" | grep deleted");
        self.logs.push(log_entry("cmd", t));
        let kept = without_ghost_blocks(&self.blocks);
        proof {
            lemma_keep_small(s0.blocks, not_ghost_block());
            assert(block_sizes(kept@) =~= view_sizes(blocks_view(kept@)));
            lemma_layout_fits(block_sizes(kept@));
        }
        self.layout = compute_treemap_layout(&kept);
        self.blocks = kept;
        self.reclaimed_bytes = self.reclaimed_bytes + size;
        self.logs.push(log_entry("ok", String::from_str("[OK] Truncated socket handle fd. OS garbage collector cleared locked sectors.")));
        let fb = format_bytes(size);
        self.logs.push(log_entry("success", cat3("[SUCCESS] Released Open Socket Lock. Reclaimed +", fb.as_str(), " phantom space.")));
        proof {
            let v = release_ghost_view(s0, id@, ts@);
            assert(logs_view(self.logs@) =~= v.logs);
            assert(ghosts_view(self.ghosts@) =~= v.ghosts);
            assert forall|k: int| 0 <= k < ghost_sizes(v.ghosts).len() implies 0 <= #[trigger] ghost_sizes(v.ghosts)[k] < 0x100_0000 by {
                assert(ghost_sizes(s0.ghosts)[k] == s0.ghosts[k].size);
            }
        }
    }

    /// Releases the held-open file with id `id`, stamped with the current
    /// time.
    pub fn release_ghost(&mut self, id: &str)
        requires
            old(self)@.wf(),
            ghost_release_fits(old(self)@, id@),
        ensures
            exists|ts: Seq<char>| clock_text(ts) && final(self)@ == release_ghost_view(old(self)@, id@, ts),
            final(self)@.wf(),
    {
        let ts = Self::time_str();
        self.release_ghost_at(id, ts.as_str());
    }

    /// The space held by the files of process `pid`, when every running
    /// total of it fits in an `i32`.
    fn pid_sum(&self, pid: i32) -> (r: Option<i32>)
        ensures
            r is Some <==> sums_fit(self@.ghosts, ghost_has_pid(pid), ghost_size()),
            r matches Some(t) ==> t == pid_space(self@, pid),
    {
        let ghost gs = self@.ghosts;
        let ghost f = ghost_has_pid(pid);
        let n = self.ghosts.len();
        let mut t: i32 = 0;
        let mut i: usize = 0;
        assert(gs.take(0) =~= Seq::<GhostFileView>::empty());
        assert(sum_where(gs.take(0), f, ghost_size()) == 0);
        while i < n
            invariant
                n == self.ghosts@.len(),
                gs == self@.ghosts,
                f == ghost_has_pid(pid),
                i <= n,
                t == sum_where(gs.take(i as int), f, ghost_size()),
                forall|k: int| 0 <= k <= i ==> i32::MIN <= #[trigger] sum_where(gs.take(k), f, ghost_size()) <= i32::MAX,
            decreases n - i,
        {
            proof {
                lemma_sum_where_step(gs, f, ghost_size(), i as int);
                assert(gs[i as int] == self.ghosts@[i as int]@);
            }
            if self.ghosts[i].pid == pid {
                let next: i64 = (t as i64) + (self.ghosts[i].size as i64);
                if next < i32::MIN as i64 || next > i32::MAX as i64 {
                    assert(!(i32::MIN <= sum_where(gs.take(i + 1), f, ghost_size()) <= i32::MAX));
                    return None;
                }
                t = next as i32;
            }
            i = i + 1;
        }
        assert(gs.take(n as int) =~= gs);
        Some(t)
    }

    /// The space held by the files of process `pid`.
    pub fn pid_total(&self, pid: i32) -> (t: i32)
        requires
            sums_fit(self@.ghosts, ghost_has_pid(pid), ghost_size()),
        ensures
            t == pid_space(self@, pid),
    {
        match self.pid_sum(pid) {
            Some(t) => t,
            None => {
                assert(false);
                0
            },
        }
    }

    /// Kills process `pid`, releasing its held-open files, stamping the
    /// console with `ts`.
    pub fn kill_process_at(&mut self, pid: i32, ts: &str)
        requires
            old(self)@.wf(),
            old(self)@.reclaimed_bytes + pid_space(old(self)@, pid) <= i32::MAX,
        ensures
            final(self)@ == kill_process_view(old(self)@, pid, ts@),
            final(self)@.wf(),
    {
        let ghost s0 = old(self)@;
        proof {
            lemma_wf_sums_fit(s0, pid);
        }
        let total = self.pid_total(pid);
        proof {
            assert forall|i: int| 0 <= i < s0.ghosts.len() implies 0 <= #[trigger] ghost_size()(s0.ghosts[i]) < 0x100_0000 by {
                assert(ghost_sizes(s0.ghosts)[i] == s0.ghosts[i].size);
            }
            lemma_sum_where_small(s0.ghosts, ghost_has_pid(pid), ghost_size());
        }
        self.ghosts = release_of_pid(&self.ghosts, pid);
        let mut t = cat2("[", ts);
        t.append("] [CRITICAL] Issuing SIGKILL (kill -9) to daemon process PID ");
        push_dec_i64(&mut t, pid as i64);
        self.logs.push(log_entry("critical", t));
        let mut t = String::from_str("$ kill -9 ");
        push_dec_i64(&mut t, pid as i64);
        self.logs.push(log_entry("cmd", t));
        let kept = without_ghost_blocks(&self.blocks);
        proof {
            lemma_keep_small(s0.blocks, not_ghost_block());
            assert(block_sizes(kept@) =~= view_sizes(blocks_view(kept@)));
            lemma_layout_fits(block_sizes(kept@));
        }
        self.layout = compute_treemap_layout(&kept);
        self.blocks = kept;
        self.reclaimed_bytes = self.reclaimed_bytes + total;
        let mut t = String::from_str("[OK] Process thread ");
        push_dec_i64(&mut t, pid as i64);
        t.append(" terminated. All locked kernel files descriptors closed.");
        self.logs.push(log_entry("ok", t));
        let fb = format_bytes(total);
        self.logs.push(log_entry("success", cat3("[SUCCESS] Freed locked system thread sockets. Reclaimed +", fb.as_str(), " memory-buffered disk blocks.")));
        proof {
            let v = kill_process_view(s0, pid, ts@);
            assert(logs_view(self.logs@) =~= v.logs);
            assert forall|k: int| 0 <= k < ghost_sizes(v.ghosts).len() implies 0 <= #[trigger] ghost_sizes(v.ghosts)[k] < 0x100_0000 by {
                assert(ghost_sizes(s0.ghosts)[k] == s0.ghosts[k].size);
            }
        }
    }

    /// Kills process `pid`, stamped with the current time.
    pub fn kill_process(&mut self, pid: i32)
        requires
            old(self)@.wf(),
            old(self)@.reclaimed_bytes + pid_space(old(self)@, pid) <= i32::MAX,
        ensures
            exists|ts: Seq<char>| clock_text(ts) && final(self)@ == kill_process_view(old(self)@, pid, ts),
            final(self)@.wf(),
    {
        let ts = Self::time_str();
        self.kill_process_at(pid, ts.as_str());
    }

    /// The position of the first fleet machine with id `id`, if any.
    fn node_index(&self, id: &str) -> (r: Option<usize>)
        ensures
            match r {
                Some(i) => find_first(self@.fleet_nodes, node_has_id(id@)) == Some(i as int)
                    && i < self.fleet_nodes@.len(),
                None => find_first(self@.fleet_nodes, node_has_id(id@)) is None,
            },
    {
        let ghost f = node_has_id(id@);
        let n = self.fleet_nodes.len();
        let mut idx: usize = 0;
        while idx < n
            invariant
                n == self.fleet_nodes@.len(),
                idx <= n,
                f == node_has_id(id@),
                forall|k: int| 0 <= k < idx ==> !f(#[trigger] self@.fleet_nodes[k]),
            ensures
                idx <= n,
                forall|k: int| 0 <= k < idx ==> !f(#[trigger] self@.fleet_nodes[k]),
                idx < n ==> f(self@.fleet_nodes[idx as int]),
            decreases n - idx,
        {
            assert(self@.fleet_nodes[idx as int] == self.fleet_nodes@[idx as int]@);
            if str_eq(self.fleet_nodes[idx].id.as_str(), id) {
                break;
            }
            idx = idx + 1;
        }
        proof {
            lemma_find_first(self@.fleet_nodes, f, idx as int);
        }
        if idx == n {
            None
        } else {
            Some(idx)
        }
    }

    /// Logs a scan of the fleet machine with id `id`, stamped `ts`.
    pub fn trigger_node_scan_at(&mut self, id: &str, ts: &str)
        ensures
            final(self)@ == node_scan_view(old(self)@, id@, ts@),
            old(self)@.wf() ==> final(self)@.wf(),
    {
        let ghost s0 = old(self)@;
        let found = self.node_index(id);
        let idx = match found {
            Some(i) => i,
            None => {
                return;
            },
        };
        assert(s0.fleet_nodes[idx as int] == self.fleet_nodes@[idx as int]@);
        let name = self.fleet_nodes[idx].name.clone();
        let ip = self.fleet_nodes[idx].ip.clone();
        let ghost_count = self.fleet_nodes[idx].ghost_files_count;
        let mut t = cat3("[", ts, "] [EXEC] Synchronizing SSH session with edge node: ");
        t.append(name.as_str());
        t.append(" (");
        t.append(ip.as_str());
        t.append(")");
        self.logs.push(log_entry("exec", t));
        let mut t = cat2("$ ssh -i ~/.ssh/id_ed25519 root@", ip.as_str());
        t.append(" \"oxidust core scan\"");
        self.logs.push(log_entry("cmd", t));
        self.logs.push(log_entry("ok", String::from_str("[OK] SSH Tunnel secured. Fetching device disk layout tables...")));
        let mut t = cat3("[INFO] Target node ", name.as_str(), " reports: ");
        push_dec_i64(&mut t, ghost_count as i64);
        t.append(" unlinked locking processes.");
        self.logs.push(log_entry("info", t));
        proof {
            assert(logs_view(self.logs@) =~= node_scan_view(s0, id@, ts@).logs);
        }
    }

    /// Logs a scan of the fleet machine with id `id`, stamped with the
    /// current time.
    pub fn trigger_node_scan(&mut self, id: &str)
        ensures
            exists|ts: Seq<char>| clock_text(ts) && final(self)@ == node_scan_view(old(self)@, id@, ts),
            old(self)@.wf() ==> final(self)@.wf(),
    {
        let ts = Self::time_str();
        self.trigger_node_scan_at(id, ts.as_str());
    }

    /// Purges the fleet machine with id `id` remotely, stamping the console
    /// with `ts`.
    pub fn remote_node_purge_at(&mut self, id: &str, ts: &str)
        requires
            remote_purge_fits(old(self)@, id@),
        ensures
            final(self)@ == remote_purge_view(old(self)@, id@, ts@),
            old(self)@.wf() ==> final(self)@.wf(),
    {
        let ghost s0 = old(self)@;
        let found = self.node_index(id);
        let idx = match found {
            Some(i) => i,
            None => {
                return;
            },
        };
        assert(s0.fleet_nodes[idx as int] == self.fleet_nodes@[idx as int]@);
        let name = self.fleet_nodes[idx].name.clone();
        let ip = self.fleet_nodes[idx].ip.clone();
        let disk_total = self.fleet_nodes[idx].disk_total;
        let disk_free = self.fleet_nodes[idx].disk_free;
        let mut t = cat3("[", ts, "] [EXEC] Triggering edge purge command on node: ");
        t.append(name.as_str());
        self.logs.push(log_entry("exec", t));
        let mut t = cat2("$ ssh -i ~/.ssh/id_ed25519 root@", ip.as_str());
        t.append(" \"oxidust system clean --force\"");
        self.logs.push(log_entry("cmd", t));
        proof {
            lemma_constants();
        }
        let recovered: i64 = scale(disk_total, 8106479329266893, 54);
        let space_recovered: i32 = recovered as i32;
        assert(recovered_space(s0.fleet_nodes[idx as int]) == space_recovered);
        let new_free: i32 = disk_free + space_recovered;
        let new_usage: i32 = percent(disk_total - new_free, disk_total);
        self.fleet_nodes[idx].disk_free = new_free;
        self.fleet_nodes[idx].disk_usage = new_usage;
        self.fleet_nodes[idx].ghost_files_count = 0;
        self.fleet_nodes[idx].status = String::from_str("online");
        self.fleet_nodes[idx].last_scan = String::from_str("Just now");
        self.logs.push(log_entry("ok", String::from_str("[OK] Remote cleaning operations successful on target node.")));
        self.logs.push(log_entry("success", String::from_str("[SUCCESS] Edge node health state updated: Healthy.")));
        proof {
            let v = remote_purge_view(s0, id@, ts@);
            assert(self.fleet_nodes@[idx as int]@ == purged_node(s0.fleet_nodes[idx as int]));
            assert(nodes_view(self.fleet_nodes@) =~= v.fleet_nodes);
            assert(logs_view(self.logs@) =~= v.logs);
        }
    }

    /// Purges the fleet machine with id `id` remotely, stamped with the
    /// current time.
    pub fn remote_node_purge(&mut self, id: &str)
        requires
            remote_purge_fits(old(self)@, id@),
        ensures
            exists|ts: Seq<char>| clock_text(ts) && final(self)@ == remote_purge_view(old(self)@, id@, ts),
            old(self)@.wf() ==> final(self)@.wf(),
    {
        let ts = Self::time_str();
        self.remote_node_purge_at(id, ts.as_str());
    }

    /// Registers a fleet machine named `name` at `ip` running `os`, with a
    /// disk of `capacity` GB as typed; `now` (Unix seconds) makes its id and
    /// `ts` stamps the console.
    pub fn add_node_at(&mut self, name: &str, ip: &str, os: &str, capacity: &str, now: i64, ts: &str)
        ensures
            final(self)@ == add_node_view(old(self)@, name@, ip@, os@, capacity@, now, ts@),
            old(self)@.wf() ==> final(self)@.wf(),
    {
        let parsed = parse_i32_chars(&chars_of(capacity));
        let total_space: i32 = match parsed {
            Some(v) => v,
            None => 250,
        };
        let disk_total: i64 = (total_space as i64) * 1024 * 1024 * 1024;
        proof {
            lemma_constants();
        }
        let free_gb: i64 = scale(total_space, 5854679515581645, 53);
        let disk_free: i64 = free_gb * 1024 * 1024 * 1024;
        let mut node_id = String::from_str("fleet_node_");
        push_dec_i64(&mut node_id, now);
        let node = FleetNode {
            id: node_id,
            name: String::from_str(name),
            ip: String::from_str(ip),
            os: String::from_str(os),
            status: String::from_str("online"),
            disk_usage: 35,
            disk_total: disk_total as i32,
            disk_free: disk_free as i32,
            ghost_files_count: 0,
            last_scan: String::from_str("Registered today"),
        };
        assert(node@ == new_node(name@, ip@, os@, typed_capacity(capacity@), now));
        let mut t = cat3("[", ts, "] [OK] Registered new edge node target: ");
        t.append(name);
        t.append(" (");
        t.append(ip);
        t.append(")");
        self.logs.push(log_entry("ok", t));
        self.logs.push(log_entry("info", String::from_str("[INFO] Establishing persistent telemetry channels... Connected.")));
        self.fleet_nodes.insert(0, node);
        proof {
            let v = add_node_view(old(self)@, name@, ip@, os@, capacity@, now, ts@);
            assert(nodes_view(self.fleet_nodes@) =~= v.fleet_nodes);
            assert(logs_view(self.logs@) =~= v.logs);
        }
    }

    /// Registers a fleet machine, with its id made from the current Unix
    /// time and the console stamped with the current time.
    pub fn add_node(&mut self, name: &str, ip: &str, os: &str, capacity: &str)
        ensures
            exists|now: i64, ts: Seq<char>|
                clock_text(ts) && final(self)@ == add_node_view(old(self)@, name@, ip@, os@, capacity@, now, ts),
            old(self)@.wf() ==> final(self)@.wf(),
    {
        let now = unix_now();
        let ts = Self::time_str();
        self.add_node_at(name, ip, os, capacity, now, ts.as_str());
    }

    /// Posts `msg` to the advisor chat, followed by the advisor's answer; a
    /// message of only whitespace is ignored.
    pub fn send_message(&mut self, msg: &str)
        ensures
            final(self)@ == send_message_view(old(self)@, msg@),
            old(self)@.wf() ==> final(self)@.wf(),
    {
        let cs = chars_of(msg);
        let trimmed = trim_chars(&cs);
        if trimmed.len() == 0 {
            return;
        }
        self.chat_history.push(ChatMessage { role: String::from_str("user"), text: String::from_str(msg) });
        let answer = advice_text(&cs);
        self.chat_history.push(ChatMessage { role: String::from_str("assistant"), text: String::from_str(answer) });
        assert(chat_view(self.chat_history@) =~= send_message_view(old(self)@, msg@).chat_history);
    }

    /// The number of fleet machines above 80% disk usage.
    pub fn busy_node_count(&self) -> (n: usize)
        ensures
            n == count(self@.fleet_nodes, busy_node()),
    {
        let ghost f = busy_node();
        let n = self.fleet_nodes.len();
        let mut c: usize = 0;
        let mut i: usize = 0;
        while i < n
            invariant
                n == self.fleet_nodes@.len(),
                f == busy_node(),
                i <= n,
                c <= i,
                c == count(self@.fleet_nodes.take(i as int), f),
            decreases n - i,
        {
            proof {
                lemma_count_step(self@.fleet_nodes, f, i as int);
                assert(self@.fleet_nodes[i as int] == self.fleet_nodes@[i as int]@);
            }
            if self.fleet_nodes[i].disk_usage > 80 {
                c = c + 1;
            }
            i = i + 1;
        }
        assert(self@.fleet_nodes.take(n as int) =~= self@.fleet_nodes);
        c
    }

    /// The storage audit report of the current state, naming the platform
    /// in upper case.
    pub fn generate_audit(&self) -> (r: String)
        requires
            selection_fits(self@.presets),
        ensures
            r@ == audit_text(self@),
    {
        let up = to_upper(self.active_os.as_str());
        self.audit_report(up.as_str())
    }

    /// The storage audit report of the current state, naming the platform
    /// `label`.
    pub fn audit_report(&self, label: &str) -> (r: String)
        requires
            selection_fits(self@.presets),
        ensures
            r@ == audit_text_labelled(self@, label@),
    {
        let mut r = String::from_str("## Oxidust Storage Audit Report\n\n**OS:** ");
        r.append(label);
        r.append("\n**Scan Status:** Complete\n\n### Findings\n\n- ");
        push_dec_u64(&mut r, self.blocks.len() as u64);
        r.append(" storage blocks identified\n- ");
        push_dec_u64(&mut r, self.unreleased_ghosts() as u64);
        r.append(" ghost file handles detected\n- ");
        push_dec_u64(&mut r, self.fleet_nodes.len() as u64);
        r.append(" fleet nodes monitored\n\n### Recommendations\n\n1. **Review Rule Presets**: ");
        push_dec_u64(&mut r, self.checked_count() as u64);
        r.append(" active rules selected\n2. **Release Ghost Handles**: Use Ghost-Hunter tab to close file descriptors\n3. **Optimize Fleet**: ");
        push_dec_u64(&mut r, self.busy_node_count() as u64);
        r.append(" nodes with critical disk usage\n\n### Summary\n\nReclaimable space: ");
        let fb = format_bytes(self.total_reclaimable_selected());
        r.append(fb.as_str());
        r.append("\n\n---\n*Generated by Oxidust AI Advisor*");
        assert(self@.blocks.len() == self.blocks@.len());
        assert(self@.fleet_nodes.len() == self.fleet_nodes@.len());
        r
    }

    /// The position of the first block with id `id`, if any.
    fn block_index(&self, id: &str) -> (r: Option<usize>)
        ensures
            match r {
                Some(i) => find_first(self@.blocks, block_has_id(id@)) == Some(i as int)
                    && i < self.blocks@.len(),
                None => find_first(self@.blocks, block_has_id(id@)) is None,
            },
    {
        let ghost f = block_has_id(id@);
        let n = self.blocks.len();
        let mut idx: usize = 0;
        while idx < n
            invariant
                n == self.blocks@.len(),
                idx <= n,
                f == block_has_id(id@),
                forall|k: int| 0 <= k < idx ==> !f(#[trigger] self@.blocks[k]),
            ensures
                idx <= n,
                forall|k: int| 0 <= k < idx ==> !f(#[trigger] self@.blocks[k]),
                idx < n ==> f(self@.blocks[idx as int]),
            decreases n - idx,
        {
            assert(self@.blocks[idx as int] == self.blocks@[idx as int]@);
            if str_eq(self.blocks[idx].id.as_str(), id) {
                break;
            }
            idx = idx + 1;
        }
        proof {
            lemma_find_first(self@.blocks, f, idx as int);
        }
        if idx == n {
            None
        } else {
            Some(idx)
        }
    }

    /// The position of the first held-open file with id `id`, if any.
    fn ghost_index(&self, id: &str) -> (r: Option<usize>)
        ensures
            match r {
                Some(i) => find_first(self@.ghosts, ghost_has_id(id@)) == Some(i as int)
                    && i < self.ghosts@.len(),
                None => find_first(self@.ghosts, ghost_has_id(id@)) is None,
            },
    {
        let ghost f = ghost_has_id(id@);
        let n = self.ghosts.len();
        let mut idx: usize = 0;
        while idx < n
            invariant
                n == self.ghosts@.len(),
                idx <= n,
                f == ghost_has_id(id@),
                forall|k: int| 0 <= k < idx ==> !f(#[trigger] self@.ghosts[k]),
            ensures
                idx <= n,
                forall|k: int| 0 <= k < idx ==> !f(#[trigger] self@.ghosts[k]),
                idx < n ==> f(self@.ghosts[idx as int]),
            decreases n - idx,
        {
            assert(self@.ghosts[idx as int] == self.ghosts@[idx as int]@);
            if str_eq(self.ghosts[idx].id.as_str(), id) {
                break;
            }
            idx = idx + 1;
        }
        proof {
            lemma_find_first(self@.ghosts, f, idx as int);
        }
        if idx == n {
            None
        } else {
            Some(idx)
        }
    }

    /// The space a purge of the selected presets would reclaim, when every
    /// running total of it fits in an `i32`.
    fn purge_sum(&self) -> (r: Option<i32>)
        ensures
            r is Some <==> sums_fit(self@.blocks, targeted(self@.presets), block_size()),
            r matches Some(t) ==> t == purge_space(self@),
    {
        let ghost hit = targeted(self@.presets);
        let ghost bv = self@.blocks;
        let n = self.blocks.len();
        let mut space: i32 = 0;
        let mut i: usize = 0;
        assert(bv.take(0) =~= Seq::<DiskBlockView>::empty());
        assert(sum_where(bv.take(0), hit, block_size()) == 0);
        while i < n
            invariant
                n == self.blocks@.len(),
                bv == self@.blocks,
                hit == targeted(self@.presets),
                i <= n,
                space == sum_where(bv.take(i as int), hit, block_size()),
                forall|k: int| 0 <= k <= i ==> i32::MIN <= #[trigger] sum_where(bv.take(k), hit, block_size()) <= i32::MAX,
            decreases n - i,
        {
            proof {
                lemma_sum_where_step(bv, hit, block_size(), i as int);
                assert(bv[i as int] == self.blocks@[i as int]@);
            }
            let h = targeted_exec(&self.presets, &self.blocks[i].path);
            proof {
                let b = bv[i as int];
                let pv = self@.presets;
                assert(b.path == self.blocks@[i as int].path@);
                if h {
                    let k = choose|k: int| 0 <= k < pv.len() && pv[k].checked && #[trigger] overlap(self.blocks@[i as int].path@, pv[k].target);
                    assert(pv[k].checked && overlap(b.path, pv[k].target));
                }
            }
            assert(h == hit(bv[i as int]));
            if h {
                let next: i64 = (space as i64) + (self.blocks[i].size as i64);
                if next < i32::MIN as i64 || next > i32::MAX as i64 {
                    assert(!(i32::MIN <= sum_where(bv.take(i + 1), hit, block_size()) <= i32::MAX));
                    return None;
                }
                space = next as i32;
            }
            i = i + 1;
        }
        assert(bv.take(n as int) =~= bv);
        Some(space)
    }

    /// The space a purge of the selected presets would reclaim.
    pub fn purge_total(&self) -> (t: i32)
        requires
            sums_fit(self@.blocks, targeted(self@.presets), block_size()),
        ensures
            t == purge_space(self@),
    {
        match self.purge_sum() {
            Some(t) => t,
            None => {
                assert(false);
                0
            },
        }
    }

    /// Whether a purge of the selected presets keeps the reclaimed total in
    /// the range of `i32` (the requirement of `purge_checked`).
    pub fn can_purge_checked(&self) -> (b: bool)
        ensures
            b == (sums_fit(self@.blocks, targeted(self@.presets), block_size())
                && self@.reclaimed_bytes + purge_space(self@) <= i32::MAX),
    {
        match self.purge_sum() {
            Some(t) => (self.reclaimed_bytes as i64) + (t as i64) <= i32::MAX as i64,
            None => false,
        }
    }

    /// Whether purging the block with id `id` keeps the reclaimed total in
    /// the range of `i32` (the requirement of `block_clicked`).
    pub fn can_purge_block(&self, id: &str) -> (b: bool)
        ensures
            b == block_purge_fits(self@, id@),
    {
        match self.block_index(id) {
            Some(i) => {
                assert(self@.blocks[i as int] == self.blocks@[i as int]@);
                (self.reclaimed_bytes as i64) + (self.blocks[i].size as i64) <= i32::MAX as i64
            },
            None => true,
        }
    }

    /// Whether releasing the held-open file with id `id` keeps the reclaimed
    /// total in the range of `i32` (the requirement of `release_ghost`).
    pub fn can_release_ghost(&self, id: &str) -> (b: bool)
        ensures
            b == ghost_release_fits(self@, id@),
    {
        match self.ghost_index(id) {
            Some(i) => {
                assert(self@.ghosts[i as int] == self.ghosts@[i as int]@);
                (self.reclaimed_bytes as i64) + (self.ghosts[i].size as i64) <= i32::MAX as i64
            },
            None => true,
        }
    }

    /// Whether killing process `pid` keeps the reclaimed total in the range
    /// of `i32` (the requirement of `kill_process`).
    pub fn can_kill_process(&self, pid: i32) -> (b: bool)
        ensures
            b == (sums_fit(self@.ghosts, ghost_has_pid(pid), ghost_size())
                && self@.reclaimed_bytes + pid_space(self@, pid) <= i32::MAX),
    {
        match self.pid_sum(pid) {
            Some(t) => (self.reclaimed_bytes as i64) + (t as i64) <= i32::MAX as i64,
            None => false,
        }
    }

    /// Whether a remote purge of the fleet machine with id `id` keeps its
    /// free and used space in the range of `i32` (the requirement of
    /// `remote_node_purge`).
    pub fn can_purge_node(&self, id: &str) -> (b: bool)
        ensures
            b == remote_purge_fits(self@, id@),
    {
        match self.node_index(id) {
            Some(i) => {
                assert(self@.fleet_nodes[i as int] == self.fleet_nodes@[i as int]@);
                let disk_total = self.fleet_nodes[i].disk_total;
                proof {
                    lemma_constants();
                }
                let recovered: i64 = scale(disk_total, 8106479329266893, 54);
                assert(recovered_space(self@.fleet_nodes[i as int]) == recovered);
                let free: i64 = (self.fleet_nodes[i].disk_free as i64) + recovered;
                let used: i64 = (disk_total as i64) - free;
                i32::MIN as i64 <= free && free <= i32::MAX as i64 && i32::MIN as i64 <= used && used <= i32::MAX as i64
            },
            None => true,
        }
    }

    /// Whether the state is well formed (`wf`): at most 128 blocks, presets
    /// and held-open files, each of a size in [0, 2^24), and a layout plan
    /// that matches the blocks.
    pub fn is_well_formed(&self) -> (b: bool)
        ensures
            b == self@.wf(),
    {
        let n = self.blocks.len();
        if n > 128 {
            return false;
        }
        let mut i: usize = 0;
        while i < n
            invariant
                n == self.blocks@.len(),
                i <= n,
                forall|k: int| 0 <= k < i ==> 0 <= #[trigger] view_sizes(self@.blocks)[k] < 0x100_0000,
            decreases n - i,
        {
            assert(view_sizes(self@.blocks)[i as int] == self.blocks@[i as int].size);
            if self.blocks[i].size < 0 || self.blocks[i].size >= 0x100_0000 {
                return false;
            }
            i = i + 1;
        }
        let n = self.presets.len();
        if n > 128 {
            return false;
        }
        let mut i: usize = 0;
        while i < n
            invariant
                n == self.presets@.len(),
                i <= n,
                forall|k: int| 0 <= k < i ==> 0 <= #[trigger] preset_sizes(self@.presets)[k] < 0x100_0000,
                small_sizes(view_sizes(self@.blocks)),
            decreases n - i,
        {
            assert(preset_sizes(self@.presets)[i as int] == self.presets@[i as int].size_bytes);
            if self.presets[i].size_bytes < 0 || self.presets[i].size_bytes >= 0x100_0000 {
                return false;
            }
            i = i + 1;
        }
        let n = self.ghosts.len();
        if n > 128 {
            return false;
        }
        let mut i: usize = 0;
        while i < n
            invariant
                n == self.ghosts@.len(),
                i <= n,
                forall|k: int| 0 <= k < i ==> 0 <= #[trigger] ghost_sizes(self@.ghosts)[k] < 0x100_0000,
                small_sizes(view_sizes(self@.blocks)),
                small_sizes(preset_sizes(self@.presets)),
            decreases n - i,
        {
            assert(ghost_sizes(self@.ghosts)[i as int] == self.ghosts@[i as int].size);
            if self.ghosts[i].size < 0 || self.ghosts[i].size >= 0x100_0000 {
                return false;
            }
            i = i + 1;
        }
        proof {
            assert(block_sizes(self.blocks@) =~= view_sizes(blocks_view(self.blocks@)));
            lemma_layout_fits(block_sizes(self.blocks@));
        }
        let expected = compute_treemap_layout(&self.blocks);
        same_plan(&expected, &self.layout)
    }

    /// The share of the capacity in use, in percent.
    pub fn used_percentage(&self) -> (p: i32)
        requires
            i32::MIN <= self.initial_used - self.reclaimed_bytes <= i32::MAX,
        ensures
            p == used_percentage_of(self@),
    {
        let used = self.initial_used - self.reclaimed_bytes;
        let current_used = if used > 0 { used } else { 0 };
        percent(current_used, self.total_capacity)
    }
}

} // verus!
