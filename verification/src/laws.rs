//! Properties that hold across the actions of the application.

use vstd::prelude::*;
use crate::model::{view_sizes, DiskBlockView};
use crate::state::{
    apply_safety_view, block_clicked_view, block_has_id, block_purge_fits, block_size, count,
    dry_scan_view, find_first, is_checked, keep, lemma_find_first, lemma_find_first_found,
    lemma_sum_where_small, preset_has_id, purge_space, purge_view, sum_where, targeted,
    toggle_preset_view, untargeted, AppStateView,
};
use crate::state::{
    ghost_has_id, kill_process_view, not_ghost_block, release_ghost_view, used_percentage_of,
};
use crate::binary64::{lemma_percent_mono, lemma_percent_range};
use crate::state::{
    advice_brew, advice_docker, advice_general, advice_ghost, audit_text_labelled, scan_ghosts_view,
    send_message_view, unreleased, busy_node, selected_total,
};
use crate::catalog::size_text;
use crate::state::{select_all_view, ghost_release_fits};
use crate::text::{has_prefix, parse_i32_spec};
use crate::state::{add_node_view, node_has_id, remote_purge_view, remote_purge_fits};
use crate::binary64::{c045_mant, c065_mant, clamp_i32, percent_of, scale_trunc};
use crate::model::{FleetNodeView, RulePresetView};
use crate::model::GhostFileView;
use crate::text::{dec_int, dec_nat, has_infix, is_ws, trim, trim_end, trim_start};
use crate::treemap::sum_sizes;

verus! {

/// A sum over one more size.
proof fn lemma_sum_push(s: Seq<i32>, v: i32)
    ensures
        sum_sizes(s.push(v)) == sum_sizes(s) + v,
{
    assert(s.push(v).drop_last() =~= s);
}

/// Splitting a disk map by a predicate: the blocks kept weigh the whole map
/// less the blocks left out.
proof fn lemma_keep_split(
    bs: Seq<DiskBlockView>,
    f: spec_fn(DiskBlockView) -> bool,
    g: spec_fn(DiskBlockView) -> bool,
)
    requires
        forall|b: DiskBlockView| #[trigger] g(b) == !f(b),
    ensures
        sum_sizes(view_sizes(keep(bs, f))) + sum_where(bs, g, block_size()) == sum_sizes(view_sizes(bs)),
    decreases bs.len(),
{
    if bs.len() > 0 {
        let t = bs.drop_last();
        lemma_keep_split(t, f, g);
        assert(view_sizes(bs) =~= view_sizes(t).push(bs.last().size));
        lemma_sum_push(view_sizes(t), bs.last().size);
        let r = keep(t, f);
        if f(bs.last()) {
            assert(view_sizes(r.push(bs.last())) =~= view_sizes(r).push(bs.last().size));
            lemma_sum_push(view_sizes(r), bs.last().size);
        }
    }
}

/// Taking one entry out of a list of sizes takes its size out of the sum.
proof fn lemma_sum_remove(s: Seq<i32>, i: int)
    requires
        0 <= i < s.len(),
    ensures
        sum_sizes(s.remove(i)) + s[i] == sum_sizes(s),
    decreases s.len(),
{
    if i == s.len() - 1 {
        assert(s.remove(i) =~= s.drop_last());
    } else {
        let t = s.drop_last();
        lemma_sum_remove(t, i);
        assert(s.remove(i) =~= t.remove(i).push(s.last()));
        lemma_sum_push(t.remove(i), s.last());
    }
}

/// The entries `keep` gives all satisfy its predicate.
proof fn lemma_keep_all<A>(s: Seq<A>, f: spec_fn(A) -> bool)
    ensures
        forall|i: int| 0 <= i < keep(s, f).len() ==> f(#[trigger] keep(s, f)[i]),
    decreases s.len(),
{
    if s.len() > 0 {
        let r = keep(s.drop_last(), f);
        lemma_keep_all(s.drop_last(), f);
        if f(s.last()) {
            assert forall|i: int| 0 <= i < r.len() + 1 implies f(#[trigger] r.push(s.last())[i]) by {
                if i < r.len() {
                    assert(r.push(s.last())[i] == r[i]);
                }
            }
        }
    }
}

/// No entry satisfies `f` exactly when none is counted.
proof fn lemma_count_zero<A>(s: Seq<A>, f: spec_fn(A) -> bool)
    ensures
        (count(s, f) == 0) == (forall|i: int| 0 <= i < s.len() ==> !f(#[trigger] s[i])),
    decreases s.len(),
{
    if s.len() > 0 {
        let t = s.drop_last();
        lemma_count_zero(t, f);
        if count(s, f) == 0 {
            assert forall|i: int| 0 <= i < s.len() implies !f(#[trigger] s[i]) by {
                if i < s.len() - 1 {
                    assert(s[i] == t[i]);
                }
            }
        } else if forall|i: int| 0 <= i < s.len() ==> !f(#[trigger] s[i]) {
            assert forall|i: int| 0 <= i < t.len() implies !f(#[trigger] t[i]) by {
                assert(s[i] == t[i]);
            }
            assert(!f(s[s.len() - 1]));
        }
    }
}

/// The first match has no match before it.
proof fn lemma_find_first_prefix<A>(s: Seq<A>, f: spec_fn(A) -> bool)
    ensures
        match find_first(s, f) {
            Some(i) => forall|k: int| 0 <= k < i ==> !f(#[trigger] s[k]),
            None => true,
        },
    decreases s.len(),
{
    if s.len() > 0 && !f(s[0]) {
        let t = s.drop_first();
        lemma_find_first_prefix(t, f);
        lemma_find_first_found(t, f);
        match find_first(t, f) {
            Some(j) => {
                assert forall|k: int| 0 <= k < j + 1 implies !f(#[trigger] s[k]) by {
                    if k > 0 {
                        assert(s[k] == t[k - 1]);
                    }
                }
            },
            None => {},
        }
    }
}

/// A purge moves space from the disk map to the reclaimed counter: the
/// reclaimed bytes plus the bytes still on the map do not change.
pub proof fn lemma_purge_conserves_space(s: AppStateView, ts: Seq<char>)
    requires
        s.wf(),
        s.reclaimed_bytes + purge_space(s) <= i32::MAX,
    ensures
        purge_view(s, ts).reclaimed_bytes + sum_sizes(view_sizes(purge_view(s, ts).blocks))
            == s.reclaimed_bytes + sum_sizes(view_sizes(s.blocks)),
{
    if count(s.presets, is_checked()) > 0 {
        assert forall|b: DiskBlockView| #[trigger] targeted(s.presets)(b) == !untargeted(s.presets)(b) by {}
        lemma_keep_split(s.blocks, untargeted(s.presets), targeted(s.presets));
        assert forall|i: int| 0 <= i < s.blocks.len() implies 0 <= #[trigger] block_size()(s.blocks[i]) < 0x100_0000 by {
            assert(view_sizes(s.blocks)[i] == s.blocks[i].size);
        }
        lemma_sum_where_small(s.blocks, targeted(s.presets), block_size());
    }
}

/// Purging one block moves its space from the disk map to the reclaimed
/// counter: the reclaimed bytes plus the bytes still on the map do not
/// change.
pub proof fn lemma_block_purge_conserves_space(s: AppStateView, id: Seq<char>, ts: Seq<char>)
    requires
        s.wf(),
        block_purge_fits(s, id),
    ensures
        block_clicked_view(s, id, ts).reclaimed_bytes + sum_sizes(view_sizes(block_clicked_view(s, id, ts).blocks))
            == s.reclaimed_bytes + sum_sizes(view_sizes(s.blocks)),
{
    lemma_find_first_found(s.blocks, block_has_id(id));
    match find_first(s.blocks, block_has_id(id)) {
        Some(i) => {
            assert(view_sizes(s.blocks.remove(i)) =~= view_sizes(s.blocks).remove(i));
            lemma_sum_remove(view_sizes(s.blocks), i);
            assert(view_sizes(s.blocks)[i] == s.blocks[i].size);
        },
        None => {},
    }
}

/// After a purge nothing is selected, and no block left on the disk map
/// lies under a target that was selected.
pub proof fn lemma_purge_clears_selection(s: AppStateView, ts: Seq<char>)
    ensures
        count(purge_view(s, ts).presets, is_checked()) == 0,
        forall|i: int|
            0 <= i < purge_view(s, ts).blocks.len() ==> !targeted(s.presets)(#[trigger] purge_view(s, ts).blocks[i]),
{
    let t = purge_view(s, ts);
    lemma_count_zero(s.presets, is_checked());
    lemma_count_zero(t.presets, is_checked());
    if count(s.presets, is_checked()) == 0 {
        assert forall|i: int| 0 <= i < t.blocks.len() implies !targeted(s.presets)(#[trigger] t.blocks[i]) by {
            if targeted(s.presets)(t.blocks[i]) {
                let k = choose|k: int| 0 <= k < s.presets.len() && s.presets[k].checked
                    && #[trigger] crate::state::overlap(t.blocks[i].path, s.presets[k].target);
                assert(is_checked()(s.presets[k]));
            }
        }
    } else {
        assert forall|i: int| 0 <= i < t.presets.len() implies !is_checked()(#[trigger] t.presets[i]) by {}
        lemma_keep_all(s.blocks, untargeted(s.presets));
    }
}

/// Toggling the same preset twice restores the state.
pub proof fn lemma_toggle_twice(s: AppStateView, id: Seq<char>)
    ensures
        toggle_preset_view(toggle_preset_view(s, id), id) == s,
{
    let f = preset_has_id(id);
    let t = toggle_preset_view(s, id);
    lemma_find_first_found(s.presets, f);
    lemma_find_first_prefix(s.presets, f);
    match find_first(s.presets, f) {
        Some(i) => {
            assert forall|k: int| 0 <= k < i implies !f(#[trigger] t.presets[k]) by {
                assert(t.presets[k] == s.presets[k]);
            }
            lemma_find_first(t.presets, f, i);
            assert(toggle_preset_view(t, id).presets =~= s.presets);
        },
        None => {},
    }
}

/// A dry run deletes nothing: it only appends its report to the console.
pub proof fn lemma_dry_run_deletes_nothing(s: AppStateView, ts: Seq<char>)
    ensures
        dry_scan_view(s, ts) == (AppStateView { logs: dry_scan_view(s, ts).logs, ..s }),
        dry_scan_view(s, ts).logs.take(s.logs.len() as int) == s.logs,
{
    assert(dry_scan_view(s, ts).logs.take(s.logs.len() as int) =~= s.logs);
}

/// The safety thresholds are nested: `safe` selects exactly the presets
/// rated safe, whatever `safe` selects `moderate` selects, and whatever
/// `moderate` selects any other threshold selects.
pub proof fn lemma_safety_nested(s: AppStateView, level: Seq<char>)
    requires
        level != "safe"@,
        level != "moderate"@,
    ensures
        forall|i: int| 0 <= i < s.presets.len() ==> {
            &&& #[trigger] apply_safety_view(s, "safe"@).presets[i].checked == (s.presets[i].safety == "safe"@)
            &&& apply_safety_view(s, "safe"@).presets[i].checked ==> apply_safety_view(s, "moderate"@).presets[i].checked
            &&& apply_safety_view(s, "moderate"@).presets[i].checked ==> apply_safety_view(s, level).presets[i].checked
        },
{
    reveal_strlit("safe");
    reveal_strlit("moderate");
    assert("safe"@ != "moderate"@) by {
        assert("safe"@.len() != "moderate"@.len());
    }
}

/// While what is in use does not exceed a positive capacity, the used
/// percentage lies between 0 and 100.
pub proof fn lemma_used_percentage_range(s: AppStateView)
    requires
        s.total_capacity > 0,
        s.initial_used - s.reclaimed_bytes <= s.total_capacity,
    ensures
        0 <= used_percentage_of(s) <= 100,
{
    let used = s.initial_used - s.reclaimed_bytes;
    lemma_percent_range(if used > 0 { used } else { 0 }, s.total_capacity as int);
}

/// Killing a process releases every held-open file of that process, and no
/// `Ghost` block is left on the disk map.
pub proof fn lemma_kill_releases_all(s: AppStateView, pid: i32, ts: Seq<char>)
    ensures
        forall|i: int|
            0 <= i < kill_process_view(s, pid, ts).ghosts.len() && #[trigger] kill_process_view(s, pid, ts).ghosts[i].pid == pid
                ==> kill_process_view(s, pid, ts).ghosts[i].released,
        forall|i: int|
            0 <= i < kill_process_view(s, pid, ts).blocks.len() ==> #[trigger] kill_process_view(s, pid, ts).blocks[i].category != "Ghost"@,
{
    lemma_keep_all(s.blocks, not_ghost_block());
    let t = kill_process_view(s, pid, ts);
    assert forall|i: int| 0 <= i < t.blocks.len() implies #[trigger] t.blocks[i].category != "Ghost"@ by {
        assert(not_ghost_block()(t.blocks[i]));
    }
}

/// Releasing a held-open file marks it released and leaves no `Ghost`
/// block on the disk map.
pub proof fn lemma_release_clears_ghost_blocks(s: AppStateView, id: Seq<char>, ts: Seq<char>)
    requires
        exists|i: int| 0 <= i < s.ghosts.len() && #[trigger] s.ghosts[i].id == id,
    ensures
        exists|i: int|
            0 <= i < release_ghost_view(s, id, ts).ghosts.len() && release_ghost_view(s, id, ts).ghosts[i].id == id
                && #[trigger] release_ghost_view(s, id, ts).ghosts[i].released,
        forall|i: int|
            0 <= i < release_ghost_view(s, id, ts).blocks.len() ==> #[trigger] release_ghost_view(s, id, ts).blocks[i].category != "Ghost"@,
{
    let f = ghost_has_id(id);
    lemma_find_first_found(s.ghosts, f);
    let w = choose|i: int| 0 <= i < s.ghosts.len() && #[trigger] s.ghosts[i].id == id;
    assert(f(s.ghosts[w]));
    let t = release_ghost_view(s, id, ts);
    match find_first(s.ghosts, f) {
        Some(i) => {
            assert(t.ghosts[i].released);
        },
        None => {},
    }
    lemma_keep_all(s.blocks, not_ghost_block());
    assert forall|i: int| 0 <= i < t.blocks.len() implies #[trigger] t.blocks[i].category != "Ghost"@ by {
        assert(not_ghost_block()(t.blocks[i]));
    }
}

/// Reclaiming more space never raises the used percentage: of two states
/// that differ in the reclaimed bytes alone, the one that reclaimed more
/// shows a percentage no higher, and both lie between 0 and 100.
pub proof fn lemma_used_percentage_falls(a: AppStateView, b: AppStateView)
    requires
        a.total_capacity == b.total_capacity,
        a.initial_used == b.initial_used,
        0 <= a.reclaimed_bytes <= b.reclaimed_bytes,
        0 <= a.initial_used <= a.total_capacity,
        a.total_capacity > 0,
    ensures
        0 <= used_percentage_of(b) <= used_percentage_of(a) <= 100,
{
    let ua = a.initial_used - a.reclaimed_bytes;
    let ub = b.initial_used - b.reclaimed_bytes;
    let ca = if ua > 0 { ua } else { 0 };
    let cb = if ub > 0 { ub } else { 0 };
    lemma_percent_mono(cb, ca, a.total_capacity as int);
    lemma_percent_range(ca, a.total_capacity as int);
    lemma_percent_range(cb, a.total_capacity as int);
}

/// The number of held-open files not yet released.
pub open spec fn open_handles(gs: Seq<GhostFileView>) -> nat {
    gs.filter(|g: GhostFileView| !g.released).len()
}

proof fn lemma_open_handles_count(gs: Seq<GhostFileView>)
    ensures
        count(gs, unreleased()) == open_handles(gs),
    decreases gs.len(),
{
    reveal(Seq::filter);
    if gs.len() > 0 {
        lemma_open_handles_count(gs.drop_last());
    }
}

/// Purging a block outside the `Ghost` category leaves the held-open files
/// (and their released flags) as they were.
pub proof fn lemma_block_purge_keeps_ghosts(s: AppStateView, id: Seq<char>, ts: Seq<char>)
    requires
        forall|j: int| 0 <= j < s.blocks.len() && #[trigger] s.blocks[j].id == id ==> s.blocks[j].category != "Ghost"@,
    ensures
        block_clicked_view(s, id, ts).ghosts == s.ghosts,
{
    lemma_find_first_found(s.blocks, block_has_id(id));
}

/// A dry run adds seven console lines: the first stamped `ts`, the second
/// naming the platform and the threshold, the fifth counting the blocks of
/// the disk map, the sixth the held-open files not yet released, and the
/// last giving the size of the whole disk map.
pub proof fn lemma_dry_run_counts(s: AppStateView, ts: Seq<char>)
    ensures
        dry_scan_view(s, ts).logs.len() == s.logs.len() + 7,
        dry_scan_view(s, ts).logs.take(s.logs.len() as int) == s.logs,
        dry_scan_view(s, ts).logs[s.logs.len() as int] == ("exec"@, "["@ + ts + "] launching Dry-Run file diagnostics scan..."@),
        dry_scan_view(s, ts).logs[s.logs.len() + 1int] == ("cmd"@, "$ oxidust core scan --os="@ + s.active_os + " --safety="@
            + s.safety_level),
        dry_scan_view(s, ts).logs[s.logs.len() + 6int] == ("success"@, "[SUCCESS] Scan complete! Identified reclaimable threshold of "@
            + size_text(sum_sizes(view_sizes(s.blocks))) + " across all policy checklists."@),
        dry_scan_view(s, ts).logs[s.logs.len() + 4int] == ("info"@, "[INFO] Discovered "@ + dec_nat(s.blocks.len())
            + " storage density blocks occupying system volume"@),
        dry_scan_view(s, ts).logs[s.logs.len() + 5int] == ("lock"@, "[LOCK] Found "@ + dec_nat(open_handles(s.ghosts))
            + " unlinked open process handles (phantom file structures)"@),
{
    lemma_open_handles_count(s.ghosts);
    assert(dry_scan_view(s, ts).logs.take(s.logs.len() as int) =~= s.logs);
}

/// A ghost scan adds two console lines, the second counting the held-open
/// files not yet released.
pub proof fn lemma_ghost_scan_counts(s: AppStateView)
    ensures
        scan_ghosts_view(s).logs.len() == s.logs.len() + 2,
        scan_ghosts_view(s).logs[s.logs.len() + 1int] == ("info"@, "[INFO] Discovered "@ + dec_nat(open_handles(s.ghosts))
            + " ghost file handles held by active processes."@),
{
    lemma_open_handles_count(s.ghosts);
}

/// `n` occurs in `u`, then in any text that starts with `u`.
proof fn lemma_infix_prefix(u: Seq<char>, t: Seq<char>, n: Seq<char>)
    requires
        has_infix(u, n),
        u.len() <= t.len(),
        t.take(u.len() as int) == u,
    ensures
        has_infix(t, n),
{
    let i = choose|i: int| 0 <= i && i + n.len() <= u.len() && #[trigger] u.subrange(i, i + n.len()) == n;
    assert(t.subrange(i, i + n.len()) =~= u.subrange(i, i + n.len()));
}

/// `p + mid + q` occurs in `x + mid + y` when `x` ends with `p` and `y`
/// starts with `q`.
proof fn lemma_infix_join(x: Seq<char>, mid: Seq<char>, y: Seq<char>, p: Seq<char>, q: Seq<char>)
    requires
        p.len() <= x.len(),
        x.subrange(x.len() - p.len(), x.len() as int) == p,
        q.len() <= y.len(),
        y.take(q.len() as int) == q,
    ensures
        has_infix(x + mid + y, p + mid + q),
{
    let i = x.len() - p.len();
    let t = x + mid + y;
    let n = p + mid + q;
    assert forall|k: int| 0 <= k < n.len() implies #[trigger] t.subrange(i, i + n.len())[k] == n[k] by {
        if k < p.len() {
            assert(x.subrange(i, x.len() as int)[k] == p[k]);
        } else if k >= p.len() + mid.len() {
            assert(y.take(q.len() as int)[k - p.len() - mid.len()] == q[k - p.len() - mid.len()]);
        }
    }
    assert(t.subrange(i, i + n.len()) =~= n);
}

/// The audit report has a line `- N ghost file handles detected`, where N is
/// the number of held-open files not yet released.
pub proof fn lemma_audit_counts_open_handles(s: AppStateView, label: Seq<char>)
    ensures
        has_infix(audit_text_labelled(s, label), "\n- "@ + dec_nat(open_handles(s.ghosts)) + " ghost file handles detected\n"@),
{
    lemma_open_handles_count(s.ghosts);
    let text = audit_text_labelled(s, label);
    let x = "## Oxidust Storage Audit Report\n\n**OS:** "@ + label + "\n**Scan Status:** Complete\n\n### Findings\n\n- "@ + dec_nat(s.blocks.len()) + " storage blocks identified\n- "@;
    let mid = dec_nat(count(s.ghosts, unreleased()));
    let y = " ghost file handles detected\n- "@;
    let p = "\n- "@;
    let q = " ghost file handles detected\n"@;
    reveal_strlit(" storage blocks identified\n- ");
    reveal_strlit(" ghost file handles detected\n- ");
    reveal_strlit("\n- ");
    reveal_strlit(" ghost file handles detected\n");
    let lit = " storage blocks identified\n- "@;
    assert(x.subrange(x.len() - 3, x.len() as int) =~= lit.subrange(lit.len() - 3, lit.len() as int));
    assert(x.subrange(x.len() - 3, x.len() as int) =~= p);
    assert(y.take(q.len() as int) =~= q);
    lemma_infix_join(x, mid, y, p, q);
    let u = x + mid + y;
    assert(text.take(u.len() as int) =~= u);
    lemma_infix_prefix(u, text, p + mid + q);
}

/// A text with a character outside whitespace is not blank once trimmed.
proof fn lemma_trim_nonblank(msg: Seq<char>, i: int)
    requires
        0 <= i < msg.len(),
        !is_ws(msg[i]),
    ensures
        trim(msg).len() > 0,
{
    lemma_trim_start_keeps(msg, i);
    let t = trim_start(msg);
    lemma_trim_end_keeps(t);
}

proof fn lemma_trim_start_keeps(s: Seq<char>, i: int)
    requires
        0 <= i < s.len(),
        !is_ws(s[i]),
    ensures
        trim_start(s).len() > 0,
        !is_ws(trim_start(s)[0]),
    decreases s.len(),
{
    if is_ws(s[0]) {
        assert(s.drop_first()[i - 1] == s[i]);
        lemma_trim_start_keeps(s.drop_first(), i - 1);
    }
}

proof fn lemma_trim_end_keeps(t: Seq<char>)
    requires
        t.len() > 0,
        !is_ws(t[0]),
    ensures
        trim_end(t).len() > 0,
    decreases t.len(),
{
    if t.len() > 1 && is_ws(t.last()) {
        assert(t.drop_last()[0] == t[0]);
        lemma_trim_end_keeps(t.drop_last());
    }
}

/// A text of whitespace alone is blank once trimmed.
proof fn lemma_trim_blank(msg: Seq<char>)
    requires
        forall|i: int| 0 <= i < msg.len() ==> is_ws(#[trigger] msg[i]),
    ensures
        trim(msg).len() == 0,
    decreases msg.len(),
{
    if msg.len() > 0 {
        let t = msg.drop_first();
        assert forall|i: int| 0 <= i < t.len() implies is_ws(#[trigger] t[i]) by {
            assert(t[i] == msg[i + 1]);
        }
        lemma_trim_blank(t);
        assert(is_ws(msg[0]));
    }
}

/// The advisor answers by keyword, case-sensitively: a message that
/// contains `nginx` or `ghost` gets the held-open-file advice; otherwise
/// one with `docker` or `volume` gets the Docker advice; otherwise one with
/// `homebrew`, `brew` or `macos` gets the Homebrew advice; anything else the
/// general advice. The message and the answer join the chat, in that order.
/// A message of whitespace alone changes nothing.
pub proof fn lemma_advice_by_keyword(s: AppStateView, msg: Seq<char>)
    ensures
        (forall|i: int| 0 <= i < msg.len() ==> is_ws(#[trigger] msg[i])) ==> send_message_view(s, msg) == s,
        (exists|i: int| 0 <= i < msg.len() && !is_ws(#[trigger] msg[i])) ==> {
            let c = send_message_view(s, msg).chat_history;
            let n = s.chat_history.len() as int;
            &&& c.len() == n + 2
            &&& c.take(n) == s.chat_history
            &&& c[n] == ("user"@, msg)
            &&& c[n + 1].0 == "assistant"@
            &&& (has_infix(msg, "nginx"@) || has_infix(msg, "ghost"@)) ==> c[n + 1].1 == advice_ghost()
            &&& (!has_infix(msg, "nginx"@) && !has_infix(msg, "ghost"@) && (has_infix(msg, "docker"@)
                || has_infix(msg, "volume"@))) ==> c[n + 1].1 == advice_docker()
            &&& (!has_infix(msg, "nginx"@) && !has_infix(msg, "ghost"@) && !has_infix(msg, "docker"@)
                && !has_infix(msg, "volume"@) && (has_infix(msg, "homebrew"@) || has_infix(msg, "brew"@)
                || has_infix(msg, "macos"@))) ==> c[n + 1].1 == advice_brew()
            &&& (!has_infix(msg, "nginx"@) && !has_infix(msg, "ghost"@) && !has_infix(msg, "docker"@)
                && !has_infix(msg, "volume"@) && !has_infix(msg, "homebrew"@) && !has_infix(msg, "brew"@)
                && !has_infix(msg, "macos"@)) ==> c[n + 1].1 == advice_general()
        },
{
    if forall|i: int| 0 <= i < msg.len() ==> is_ws(#[trigger] msg[i]) {
        lemma_trim_blank(msg);
    }
    if exists|i: int| 0 <= i < msg.len() && !is_ws(#[trigger] msg[i]) {
        let i = choose|i: int| 0 <= i < msg.len() && !is_ws(#[trigger] msg[i]);
        lemma_trim_nonblank(msg, i);
        let c = send_message_view(s, msg).chat_history;
        assert(c.take(s.chat_history.len() as int) =~= s.chat_history);
    }
}

/// The number of selected presets.
pub open spec fn selected_presets(ps: Seq<RulePresetView>) -> nat {
    ps.filter(|p: RulePresetView| p.checked).len()
}

/// The number of fleet machines above 80% disk usage.
pub open spec fn busy_machines(ns: Seq<FleetNodeView>) -> nat {
    ns.filter(|n: FleetNodeView| n.disk_usage > 80).len()
}

proof fn lemma_selected_presets_count(ps: Seq<RulePresetView>)
    ensures
        count(ps, is_checked()) == selected_presets(ps),
    decreases ps.len(),
{
    reveal(Seq::filter);
    if ps.len() > 0 {
        lemma_selected_presets_count(ps.drop_last());
    }
}

proof fn lemma_busy_machines_count(ns: Seq<FleetNodeView>)
    ensures
        count(ns, busy_node()) == busy_machines(ns),
    decreases ns.len(),
{
    reveal(Seq::filter);
    if ns.len() > 0 {
        lemma_busy_machines_count(ns.drop_last());
    }
}

/// `p + mid + q` occurs in a text that starts with `x + mid + y`, when `x`
/// ends with `p` and `y` starts with `q`.
proof fn lemma_segment(t: Seq<char>, x: Seq<char>, mid: Seq<char>, y: Seq<char>, p: Seq<char>, q: Seq<char>)
    requires
        (x + mid + y).len() <= t.len(),
        t.take((x + mid + y).len() as int) == x + mid + y,
        p.len() <= x.len(),
        x.subrange(x.len() - p.len(), x.len() as int) == p,
        q.len() <= y.len(),
        y.take(q.len() as int) == q,
    ensures
        has_infix(t, p + mid + q),
{
    lemma_infix_join(x, mid, y, p, q);
    lemma_infix_prefix(x + mid + y, t, p + mid + q);
}

/// The audit report names the platform as `label` and gives, each on its
/// line, the number of blocks on the disk map, of fleet machines, of
/// selected presets and of machines above 80% disk usage, and the space the
/// selection would reclaim.
pub proof fn lemma_audit_report_lines(s: AppStateView, label: Seq<char>)
    ensures
        has_infix(audit_text_labelled(s, label), "**OS:** "@ + label + "\n**Scan Status:** Complete\n"@),
        has_infix(audit_text_labelled(s, label), "\n- "@ + dec_nat(s.blocks.len()) + " storage blocks identified\n"@),
        has_infix(audit_text_labelled(s, label), "\n- "@ + dec_nat(s.fleet_nodes.len()) + " fleet nodes monitored\n"@),
        has_infix(audit_text_labelled(s, label), "Presets**: "@ + dec_nat(selected_presets(s.presets)) + " active rules selected\n"@),
        has_infix(audit_text_labelled(s, label), "Fleet**: "@ + dec_nat(busy_machines(s.fleet_nodes)) + " nodes with critical disk usage\n"@),
        has_infix(audit_text_labelled(s, label), "Reclaimable space: "@ + size_text(selected_total(s.presets)) + "\n\n---"@),
{
    lemma_selected_presets_count(s.presets);
    lemma_busy_machines_count(s.fleet_nodes);
    let t = audit_text_labelled(s, label);
    let l0 = "## Oxidust Storage Audit Report\n\n**OS:** "@;
    let l1 = "\n**Scan Status:** Complete\n\n### Findings\n\n- "@;
    let l2 = " storage blocks identified\n- "@;
    let l3 = " ghost file handles detected\n- "@;
    let l4 = " fleet nodes monitored\n\n### Recommendations\n\n1. **Review Rule Presets**: "@;
    let l5 = " active rules selected\n2. **Release Ghost Handles**: Use Ghost-Hunter tab to close file descriptors\n3. **Optimize Fleet**: "@;
    let l6 = " nodes with critical disk usage\n\n### Summary\n\nReclaimable space: "@;
    let l7 = "\n\n---\n*Generated by Oxidust AI Advisor*"@;
    reveal_strlit("## Oxidust Storage Audit Report\n\n**OS:** ");
    reveal_strlit("\n**Scan Status:** Complete\n\n### Findings\n\n- ");
    reveal_strlit(" storage blocks identified\n- ");
    reveal_strlit(" ghost file handles detected\n- ");
    reveal_strlit(" fleet nodes monitored\n\n### Recommendations\n\n1. **Review Rule Presets**: ");
    reveal_strlit(" active rules selected\n2. **Release Ghost Handles**: Use Ghost-Hunter tab to close file descriptors\n3. **Optimize Fleet**: ");
    reveal_strlit(" nodes with critical disk usage\n\n### Summary\n\nReclaimable space: ");
    reveal_strlit("\n\n---\n*Generated by Oxidust AI Advisor*");
    reveal_strlit("**OS:** ");
    reveal_strlit("\n**Scan Status:** Complete\n");
    reveal_strlit("\n- ");
    reveal_strlit(" storage blocks identified\n");
    reveal_strlit(" fleet nodes monitored\n");
    reveal_strlit("Presets**: ");
    reveal_strlit(" active rules selected\n");
    reveal_strlit("Fleet**: ");
    reveal_strlit(" nodes with critical disk usage\n");
    reveal_strlit("Reclaimable space: ");
    reveal_strlit("\n\n---");
    let d_blocks = dec_nat(s.blocks.len());
    let d_ghosts = dec_nat(count(s.ghosts, unreleased()));
    let d_fleet = dec_nat(s.fleet_nodes.len());
    let d_chk = dec_nat(count(s.presets, is_checked()));
    let d_busy = dec_nat(count(s.fleet_nodes, busy_node()));
    let sz = size_text(selected_total(s.presets));
    // the platform
    assert(l0.subrange(l0.len() - 8, l0.len() as int) =~= "**OS:** "@);
    assert(l1.take(27) =~= "\n**Scan Status:** Complete\n"@);
    assert(t.take((l0 + label + l1).len() as int) =~= l0 + label + l1);
    lemma_segment(t, l0, label, l1, "**OS:** "@, "\n**Scan Status:** Complete\n"@);
    // the blocks
    let x = l0 + label + l1;
    assert(x.subrange(x.len() - 3, x.len() as int) =~= "\n- "@);
    assert(l2.take(27) =~= " storage blocks identified\n"@);
    assert(t.take((x + d_blocks + l2).len() as int) =~= x + d_blocks + l2);
    lemma_segment(t, x, d_blocks, l2, "\n- "@, " storage blocks identified\n"@);
    // the fleet
    let x = l0 + label + l1 + d_blocks + l2 + d_ghosts + l3;
    assert(x.subrange(x.len() - 3, x.len() as int) =~= "\n- "@);
    assert(l4.take(23) =~= " fleet nodes monitored\n"@);
    assert(t.take((x + d_fleet + l4).len() as int) =~= x + d_fleet + l4);
    lemma_segment(t, x, d_fleet, l4, "\n- "@, " fleet nodes monitored\n"@);
    // the selected presets
    let x = l0 + label + l1 + d_blocks + l2 + d_ghosts + l3 + d_fleet + l4;
    assert(x.subrange(x.len() - 11, x.len() as int) =~= "Presets**: "@);
    assert(l5.take(23) =~= " active rules selected\n"@);
    assert(t.take((x + d_chk + l5).len() as int) =~= x + d_chk + l5);
    lemma_segment(t, x, d_chk, l5, "Presets**: "@, " active rules selected\n"@);
    // the busy machines
    let x = l0 + label + l1 + d_blocks + l2 + d_ghosts + l3 + d_fleet + l4 + d_chk + l5;
    assert(x.subrange(x.len() - 9, x.len() as int) =~= "Fleet**: "@);
    assert(l6.take(32) =~= " nodes with critical disk usage\n"@);
    assert(t.take((x + d_busy + l6).len() as int) =~= x + d_busy + l6);
    lemma_segment(t, x, d_busy, l6, "Fleet**: "@, " nodes with critical disk usage\n"@);
    // the reclaimable space
    let x = l0 + label + l1 + d_blocks + l2 + d_ghosts + l3 + d_fleet + l4 + d_chk + l5 + d_busy + l6;
    assert(x.subrange(x.len() - 19, x.len() as int) =~= "Reclaimable space: "@);
    assert(l7.take(5) =~= "\n\n---"@);
    assert(t =~= x + sz + l7);
    assert(t.take((x + sz + l7).len() as int) =~= x + sz + l7);
    lemma_segment(t, x, sz, l7, "Reclaimable space: "@, "\n\n---"@);
}

/// Setting the safety threshold selects, among the presets, exactly those
/// rated `safe` under `safe`, those rated `safe` or `moderate` under
/// `moderate`, and all of them under any other threshold; nothing else of a
/// preset changes, and the threshold is recorded.
pub proof fn lemma_safety_selects(s: AppStateView, level: Seq<char>)
    ensures
        apply_safety_view(s, level).safety_level == level,
        apply_safety_view(s, level).presets.len() == s.presets.len(),
        forall|i: int| 0 <= i < s.presets.len() ==> #[trigger] apply_safety_view(s, level).presets[i] == (RulePresetView {
            checked: if level == "safe"@ {
                s.presets[i].safety == "safe"@
            } else if level == "moderate"@ {
                s.presets[i].safety == "safe"@ || s.presets[i].safety == "moderate"@
            } else {
                true
            },
            ..s.presets[i]
        }),
{
}

/// Selecting (or clearing) all sets every preset's flag to `v` and changes
/// nothing else.
pub proof fn lemma_select_all_sets_every_flag(s: AppStateView, v: bool)
    ensures
        select_all_view(s, v).presets.len() == s.presets.len(),
        forall|i: int| 0 <= i < s.presets.len() ==> #[trigger] select_all_view(s, v).presets[i] == (RulePresetView { checked: v, ..s.presets[i] }),
        select_all_view(s, v) == (AppStateView { presets: select_all_view(s, v).presets, ..s }),
{
}

/// Toggling flips the flag of the first preset with the id and changes
/// nothing else; with no such preset nothing changes.
pub proof fn lemma_toggle_flips_first(s: AppStateView, id: Seq<char>, i: int)
    requires
        0 <= i < s.presets.len(),
        s.presets[i].id == id,
        forall|j: int| 0 <= j < i ==> #[trigger] s.presets[j].id != id,
    ensures
        toggle_preset_view(s, id).presets.len() == s.presets.len(),
        toggle_preset_view(s, id).presets[i] == (RulePresetView { checked: !s.presets[i].checked, ..s.presets[i] }),
        forall|k: int| 0 <= k < s.presets.len() && k != i ==> #[trigger] toggle_preset_view(s, id).presets[k] == s.presets[k],
        toggle_preset_view(s, id) == (AppStateView { presets: toggle_preset_view(s, id).presets, ..s }),
{
    let f = preset_has_id(id);
    assert forall|k: int| 0 <= k < i implies !f(#[trigger] s.presets[k]) by {}
    lemma_find_first(s.presets, f, i);
}

/// Toggling an id no preset has changes nothing.
pub proof fn lemma_toggle_unknown(s: AppStateView, id: Seq<char>)
    requires
        forall|j: int| 0 <= j < s.presets.len() ==> #[trigger] s.presets[j].id != id,
    ensures
        toggle_preset_view(s, id) == s,
{
    let f = preset_has_id(id);
    assert forall|k: int| 0 <= k < s.presets.len() implies !f(#[trigger] s.presets[k]) by {}
    lemma_find_first(s.presets, f, s.presets.len() as int);
}

/// Releasing the first held-open file with the id marks it released, keeps
/// every other file as it was, and adds its size to the reclaimed bytes.
pub proof fn lemma_release_marks_first(s: AppStateView, id: Seq<char>, ts: Seq<char>, i: int)
    requires
        0 <= i < s.ghosts.len(),
        s.ghosts[i].id == id,
        forall|j: int| 0 <= j < i ==> #[trigger] s.ghosts[j].id != id,
        ghost_release_fits(s, id),
        s.reclaimed_bytes + s.ghosts[i].size >= i32::MIN,
    ensures
        release_ghost_view(s, id, ts).ghosts.len() == s.ghosts.len(),
        release_ghost_view(s, id, ts).ghosts[i] == (GhostFileView { released: true, ..s.ghosts[i] }),
        forall|k: int| 0 <= k < s.ghosts.len() && k != i ==> #[trigger] release_ghost_view(s, id, ts).ghosts[k] == s.ghosts[k],
        release_ghost_view(s, id, ts).reclaimed_bytes == s.reclaimed_bytes + s.ghosts[i].size,
{
    let f = ghost_has_id(id);
    assert forall|k: int| 0 <= k < i implies !f(#[trigger] s.ghosts[k]) by {}
    lemma_find_first(s.ghosts, f, i);
}

/// Killing a process releases exactly the held-open files of that process;
/// every other file stays as it was.
pub proof fn lemma_kill_marks_its_files(s: AppStateView, pid: i32, ts: Seq<char>)
    ensures
        kill_process_view(s, pid, ts).ghosts.len() == s.ghosts.len(),
        forall|k: int| 0 <= k < s.ghosts.len() ==> #[trigger] kill_process_view(s, pid, ts).ghosts[k] == (if s.ghosts[k].pid == pid {
            GhostFileView { released: true, ..s.ghosts[k] }
        } else {
            s.ghosts[k]
        }),
{
}

/// A purge clears exactly the selected presets (nothing left to reclaim,
/// no longer selected) and keeps every other preset as it was.
pub proof fn lemma_purge_clears_selected_presets(s: AppStateView, ts: Seq<char>)
    ensures
        purge_view(s, ts).presets.len() == s.presets.len(),
        forall|k: int| 0 <= k < s.presets.len() ==> #[trigger] purge_view(s, ts).presets[k] == (if s.presets[k].checked {
            RulePresetView { size_bytes: 0, checked: false, ..s.presets[k] }
        } else {
            s.presets[k]
        }),
{
    lemma_count_zero(s.presets, is_checked());
    if count(s.presets, is_checked()) == 0 {
        assert forall|k: int| 0 <= k < s.presets.len() implies !(#[trigger] s.presets[k]).checked by {
            assert(!is_checked()(s.presets[k]));
        }
    }
}

/// Purging the first block with the id takes it off the disk map, clears
/// every preset whose target lies under its path or above it, keeps the
/// other presets, and adds its size to the reclaimed bytes.
pub proof fn lemma_block_purge_effects(s: AppStateView, id: Seq<char>, ts: Seq<char>, i: int)
    requires
        0 <= i < s.blocks.len(),
        s.blocks[i].id == id,
        forall|j: int| 0 <= j < i ==> #[trigger] s.blocks[j].id != id,
        block_purge_fits(s, id),
        s.reclaimed_bytes + s.blocks[i].size >= i32::MIN,
    ensures
        block_clicked_view(s, id, ts).blocks == s.blocks.remove(i),
        block_clicked_view(s, id, ts).reclaimed_bytes == s.reclaimed_bytes + s.blocks[i].size,
        block_clicked_view(s, id, ts).presets.len() == s.presets.len(),
        forall|k: int| 0 <= k < s.presets.len() ==> #[trigger] block_clicked_view(s, id, ts).presets[k] == (if has_prefix(s.blocks[i].path, s.presets[k].target)
            || has_prefix(s.presets[k].target, s.blocks[i].path) {
            RulePresetView { size_bytes: 0, checked: false, ..s.presets[k] }
        } else {
            s.presets[k]
        }),
{
    let f = block_has_id(id);
    assert forall|k: int| 0 <= k < i implies !f(#[trigger] s.blocks[k]) by {}
    lemma_find_first(s.blocks, f, i);
}

/// A purge with at least one preset selected adds five console lines; the
/// fourth counts the selected presets and the fifth gives the space the
/// purge reclaims.
pub proof fn lemma_purge_log(s: AppStateView, ts: Seq<char>)
    requires
        exists|i: int| 0 <= i < s.presets.len() && (#[trigger] s.presets[i]).checked,
    ensures
        purge_view(s, ts).logs.len() == s.logs.len() + 5,
        purge_view(s, ts).logs.take(s.logs.len() as int) == s.logs,
        purge_view(s, ts).logs[s.logs.len() + 3int] == ("success"@, "[SUCCESS] Successfully released "@
            + dec_nat(selected_presets(s.presets)) + " checked target rules."@),
        purge_view(s, ts).logs[s.logs.len() + 4int] == ("success"@, "[SUCCESS] System disk reclaimed: +"@
            + size_text(purge_space(s)) + " returned to root index."@),
{
    lemma_selected_presets_count(s.presets);
    lemma_count_zero(s.presets, is_checked());
    let i = choose|i: int| 0 <= i < s.presets.len() && (#[trigger] s.presets[i]).checked;
    assert(is_checked()(s.presets[i]));
    assert(purge_view(s, ts).logs.take(s.logs.len() as int) =~= s.logs);
}

/// A remote purge of the first fleet machine with the id frees 45% of its
/// disk (the `f64` product, truncated and saturated to `i32`), recomputes its usage as the `f64`
/// percentage of the space still used, clears its held-open files and marks
/// it online and scanned just now; every other machine stays as it was.
pub proof fn lemma_remote_purge_effects(s: AppStateView, id: Seq<char>, ts: Seq<char>, i: int)
    requires
        0 <= i < s.fleet_nodes.len(),
        s.fleet_nodes[i].id == id,
        forall|j: int| 0 <= j < i ==> #[trigger] s.fleet_nodes[j].id != id,
        remote_purge_fits(s, id),
    ensures
        ({
            let nd = s.fleet_nodes[i];
            let t = remote_purge_view(s, id, ts).fleet_nodes;
            let free = nd.disk_free + clamp_i32(scale_trunc(nd.disk_total as int, c045_mant(), 54));
            &&& t.len() == s.fleet_nodes.len()
            &&& t[i].disk_free == free
            &&& t[i].disk_usage == percent_of(nd.disk_total - free, nd.disk_total as int)
            &&& t[i].ghost_files_count == 0
            &&& t[i].status == "online"@
            &&& t[i].last_scan == "Just now"@
            &&& t[i].id == nd.id && t[i].name == nd.name && t[i].ip == nd.ip && t[i].os == nd.os
            &&& t[i].disk_total == nd.disk_total
            &&& forall|k: int| 0 <= k < t.len() && k != i ==> #[trigger] t[k] == s.fleet_nodes[k]
        }),
{
    let f = node_has_id(id);
    assert forall|k: int| 0 <= k < i implies !f(#[trigger] s.fleet_nodes[k]) by {}
    lemma_find_first(s.fleet_nodes, f, i);
}

/// Registering a machine puts it first in the fleet and keeps the others in
/// order: its id is `fleet_node_` and the time `now`, it is online, 35% in
/// use, with no held-open files, and its disk is the typed number of GB
/// (250 when the text is not an integer) in bytes, truncated to `i32`, 65%
/// of it free.
pub proof fn lemma_add_node_effects(
    s: AppStateView,
    name: Seq<char>,
    ip: Seq<char>,
    os: Seq<char>,
    capacity: Seq<char>,
    now: i64,
    ts: Seq<char>,
)
    ensures
        ({
            let t = add_node_view(s, name, ip, os, capacity, now, ts).fleet_nodes;
            let gb: i32 = match parse_i32_spec(capacity) {
                Some(v) => v,
                None => 250,
            };
            &&& t.len() == s.fleet_nodes.len() + 1
            &&& t.skip(1) == s.fleet_nodes
            &&& t[0].id == "fleet_node_"@ + dec_int(now as int)
            &&& t[0].name == name && t[0].ip == ip && t[0].os == os
            &&& t[0].status == "online"@ && t[0].disk_usage == 35 && t[0].ghost_files_count == 0
            &&& t[0].disk_total == ((gb as i64) * 1073741824) as i32
            &&& t[0].disk_free == ((scale_trunc(gb as int, c065_mant(), 53) as i64) * 1073741824) as i32
        }),
{
    let t = add_node_view(s, name, ip, os, capacity, now, ts).fleet_nodes;
    assert(t.skip(1) =~= s.fleet_nodes);
}

} // verus!
