use oxidust::state::AppState;

fn log_tail(s: &AppState, n: usize) -> Vec<(String, String)> {
    let k = s.logs.len();
    s.logs[k - n..].iter().map(|e| (e.level.clone(), e.text.clone())).collect()
}

fn pair(a: &str, b: &str) -> (String, String) {
    (a.to_string(), b.to_string())
}

fn linux() -> AppState {
    let mut s = AppState::new();
    s.load_os("linux");
    s
}

fn f64_percent(n: i32, d: i32) -> i32 {
    ((n as f64 / d as f64) * 100.0) as i32
}

#[test]
fn starting_state() {
    let s = AppState::new();
    assert_eq!(s.active_os, "linux");
    assert_eq!(s.safety_level, "moderate");
    assert!(s.blocks.is_empty() && s.presets.is_empty() && s.ghosts.is_empty());
    assert_eq!(s.fleet_nodes.len(), 4);
    assert_eq!(
        log_tail(&s, 2),
        vec![pair("info", "[OK] Oxidust Core v2.4.0 initialized"), pair("info", "[INFO] System sensors calibrated")]
    );
    assert_eq!(s.chat_history.len(), 1);
    assert_eq!(s.chat_history[0].role, "assistant");
    assert!(s.chat_history[0].text.starts_with("Hello! I am the **Oxidust AI Systems Advisor**."));
    assert_eq!(s.total_capacity, 500 * 1024 * 1024);
    assert_eq!(s.initial_used, 384 * 1024 * 1024);
    assert_eq!(s.used_percentage(), 76);
    assert_eq!(s.total_reclaimable_selected(), 0);
}

#[test]
fn loading_a_platform() {
    let s = linux();
    assert_eq!(s.blocks.len(), 8);
    assert_eq!(s.presets.len(), 7);
    assert_eq!(s.ghosts.len(), 1);
    assert_eq!(
        log_tail(&s, 3),
        vec![
            pair("ok", "[OK] Shifted kernel compiler targeting to: LINUX"),
            pair("info", "[INFO] Re-compiled and loaded OS-specific preset checklists (7 loaded)"),
            pair("info", "[INFO] TreeMap cache rebuilt. Storage maps synchronized."),
        ]
    );
    assert_eq!(s.total_reclaimable_selected(), 7340031);
    assert_eq!(s.checked_count(), 3);
    assert_eq!(s.unreleased_ghosts(), 1);
    assert_eq!(s.blocks_total(), 38587592);
    let mut m = AppState::new();
    m.load_os("macos");
    assert_eq!(m.active_os, "macos");
    assert_eq!(log_tail(&m, 3)[1].1, "[INFO] Re-compiled and loaded OS-specific preset checklists (6 loaded)");
    let mut u = AppState::new();
    u.load_os("beos");
    assert!(u.blocks.is_empty());
    assert_eq!(log_tail(&u, 3)[0].1, "[OK] Shifted kernel compiler targeting to: BEOS");
}

#[test]
fn safety_thresholds() {
    let mut s = linux();
    s.apply_safety("moderate");
    assert_eq!(s.safety_level, "moderate");
    assert_eq!(s.total_reclaimable_selected(), 14680059);
    assert_eq!(
        log_tail(&s, 2),
        vec![
            pair("exec", "[EXEC] Adjusted Maximum Safety Threshold to: [MODERATE]"),
            pair("ok", "[OK] Re-mapped preset checklists to align with safety matrix thresholds."),
        ]
    );
    s.apply_safety("safe");
    assert_eq!(s.total_reclaimable_selected(), 7340031);
    for p in &s.presets {
        assert_eq!(p.checked, p.safety == "safe");
    }
    s.apply_safety("aggressive");
    assert_eq!(s.total_reclaimable_selected(), 33869000);
    assert_eq!(s.checked_count(), 7);
    assert_eq!(log_tail(&s, 2)[0].1, "[EXEC] Adjusted Maximum Safety Threshold to: [AGGRESSIVE]");
}

#[test]
fn nested_thresholds_on_every_platform() {
    for os in ["linux", "macos", "windows"] {
        let mut a = AppState::new();
        a.load_os(os);
        let mut b = AppState::new();
        b.load_os(os);
        let mut c = AppState::new();
        c.load_os(os);
        a.apply_safety("safe");
        b.apply_safety("moderate");
        c.apply_safety("paranoid");
        for i in 0..a.presets.len() {
            assert!(!a.presets[i].checked || b.presets[i].checked);
            assert!(!b.presets[i].checked || c.presets[i].checked);
        }
    }
}

#[test]
fn toggling_and_selecting() {
    let mut s = linux();
    assert!(!s.presets[0].checked);
    s.toggle_preset("linux_0");
    assert!(s.presets[0].checked);
    assert_eq!(s.total_reclaimable_selected(), 7340031 + 13421773);
    s.toggle_preset("linux_0");
    assert!(!s.presets[0].checked);
    s.toggle_preset("missing");
    assert_eq!(s.checked_count(), 3);
    s.select_all(true);
    assert_eq!(s.checked_count(), 7);
    s.select_all(false);
    assert_eq!(s.checked_count(), 0);
    assert_eq!(s.total_reclaimable_selected(), 0);
}

#[test]
fn toggling_twice_restores_the_selection() {
    let mut s = linux();
    let before: Vec<bool> = s.presets.iter().map(|p| p.checked).collect();
    for id in ["linux_0", "linux_3", "linux_6", "nothing"] {
        s.toggle_preset(id);
        s.toggle_preset(id);
        let after: Vec<bool> = s.presets.iter().map(|p| p.checked).collect();
        assert_eq!(before, after);
    }
}

#[test]
fn dry_run_reports_and_changes_nothing_else() {
    let mut s = linux();
    let n = s.logs.len();
    s.run_dry_scan_at("01:02:03");
    assert_eq!(s.logs.len(), n + 7);
    assert_eq!(
        log_tail(&s, 7),
        vec![
            pair("exec", "[01:02:03] launching Dry-Run file diagnostics scan..."),
            pair("cmd", "$ oxidust core scan --os=linux --safety=moderate"),
            pair("ok", "[OK] Attached filesystem kernel sensor to absolute roots..."),
            pair("info", "[INFO] Auditing standard caches, local indexes, and dangling container registers..."),
            pair("info", "[INFO] Discovered 8 storage density blocks occupying system volume"),
            pair("lock", "[LOCK] Found 1 unlinked open process handles (phantom file structures)"),
            pair("success", "[SUCCESS] Scan complete! Identified reclaimable threshold of 36.7 MB across all policy checklists."),
        ]
    );
    assert_eq!(s.blocks.len(), 8);
    assert_eq!(s.reclaimed_bytes, 0);
    assert_eq!(s.checked_count(), 3);
}

#[test]
fn dry_run_is_stamped_with_the_clock() {
    let mut s = linux();
    s.run_dry_scan();
    let first = &s.logs[s.logs.len() - 7].text;
    let b: Vec<char> = first.chars().collect();
    assert_eq!(b[0], '[');
    assert!(b[1].is_ascii_digit() && b[2].is_ascii_digit() && b[4].is_ascii_digit() && b[5].is_ascii_digit());
    assert!(b[7].is_ascii_digit() && b[8].is_ascii_digit());
    assert_eq!((b[3], b[6], b[9]), (':', ':', ']'));
    assert!(first.ends_with("] launching Dry-Run file diagnostics scan..."));
}

#[test]
fn ghost_scan_logs() {
    let mut s = linux();
    s.scan_ghosts();
    assert_eq!(
        log_tail(&s, 2),
        vec![
            pair("exec", "[EXEC] Ghost-Hunter triggered file descriptor audit..."),
            pair("info", "[INFO] Discovered 1 ghost file handles held by active processes."),
        ]
    );
    s.clear_logs();
    assert!(s.logs.is_empty());
}

#[test]
fn purging_the_selection() {
    let mut s = linux();
    assert!(s.can_purge_checked());
    assert_eq!(s.purge_total(), 7340031);
    let before = s.reclaimed_bytes + s.blocks_total();
    s.purge_checked_at("09:15:00");
    assert_eq!(
        log_tail(&s, 5),
        vec![
            pair("exec", "[09:15:00] Initiating absolute purge sequence on checked rule nodes..."),
            pair("cmd", "$ oxidust system clean --policy=active --force"),
            pair("ok", "[OK] Wiped metadata headers and trimmed sector blocks."),
            pair("success", "[SUCCESS] Successfully released 3 checked target rules."),
            pair("success", "[SUCCESS] System disk reclaimed: +6.9 MB returned to root index."),
        ]
    );
    let ids: Vec<&str> = s.blocks.iter().map(|b| b.id.as_str()).collect();
    assert_eq!(ids, vec!["linux_0", "linux_1", "linux_4", "linux_5", "linux_6"]);
    assert_eq!(s.reclaimed_bytes, 7340031);
    assert_eq!(s.reclaimed_bytes + s.blocks_total(), before);
    assert_eq!(s.checked_count(), 0);
    for i in [2usize, 3, 6] {
        assert_eq!(s.presets[i].size_bytes, 0);
    }
    assert_eq!(s.presets[0].size_bytes, 13421773);
    assert_eq!(s.used_percentage(), f64_percent(402653184 - 7340031, 524288000));
    let n = s.logs.len();
    s.purge_checked_at("09:16:00");
    assert_eq!(s.logs.len(), n);
    assert_eq!(s.blocks.len(), 5);
}

#[test]
fn purge_guard_refuses_an_overflowing_total() {
    let mut s = linux();
    s.reclaimed_bytes = i32::MAX - 5;
    assert!(!s.can_purge_checked());
    s.select_all(false);
    assert!(s.can_purge_checked());
}

#[test]
fn purging_one_block() {
    let mut s = linux();
    assert!(s.can_purge_block("linux_5"));
    s.block_clicked_at("linux_5", "08:00:00");
    assert_eq!(
        log_tail(&s, 4),
        vec![
            pair("exec", "[08:00:00] [EXEC] Granular direct purge triggered on block: Nginx Ghost Descriptor"),
            pair("cmd", "$ rm -rf /var/log/nginx/access.log.1 (deleted)"),
            pair("ok", "[OK] Raw blocks purged cleanly."),
            pair("success", "[SUCCESS] Reclaimed 4.5 MB from node sector."),
        ]
    );
    assert_eq!(s.blocks.len(), 7);
    assert!(s.blocks.iter().all(|b| b.id != "linux_5"));
    assert!(s.ghosts[0].released);
    assert_eq!(s.presets[1].size_bytes, 0);
    assert!(!s.presets[1].checked);
    assert_eq!(s.presets[0].size_bytes, 13421773);
    assert_eq!(s.reclaimed_bytes, 4718592);
    assert_eq!(s.reclaimed_bytes + s.blocks_total(), 38587592);
    let n = s.logs.len();
    s.block_clicked_at("linux_5", "08:00:01");
    assert_eq!(s.logs.len(), n);
    s.block_clicked_at("linux_2", "08:00:02");
    assert!(!s.presets[2].checked);
    assert_eq!(s.presets[2].size_bytes, 0);
    assert_eq!(s.reclaimed_bytes, 4718592 + 3565158);
    s.reclaimed_bytes = i32::MAX;
    assert!(!s.can_purge_block("linux_0"));
    assert!(s.can_purge_block("nope"));
}

#[test]
fn releasing_a_ghost() {
    let mut s = linux();
    assert!(s.can_release_ghost("ghost_lin_0"));
    s.release_ghost_at("ghost_lin_0", "07:00:00");
    assert_eq!(
        log_tail(&s, 4),
        vec![
            pair("lock", "[07:00:00] [LOCK] Closing locking descriptor for PID 4092 (nginx)"),
            pair("cmd", "$ lsof -p 4092 | grep deleted"),
            pair("ok", "[OK] Truncated socket handle fd. OS garbage collector cleared locked sectors."),
            pair("success", "[SUCCESS] Released Open Socket Lock. Reclaimed +4.5 MB phantom space."),
        ]
    );
    assert!(s.ghosts[0].released);
    assert_eq!(s.blocks.len(), 7);
    assert!(s.blocks.iter().all(|b| b.category != "Ghost"));
    assert_eq!(s.reclaimed_bytes, 4718592);
    assert_eq!(s.unreleased_ghosts(), 0);
    let n = s.logs.len();
    s.release_ghost_at("ghost_mac_0", "07:00:01");
    assert_eq!(s.logs.len(), n);
}

#[test]
fn killing_a_process() {
    let mut s = linux();
    assert_eq!(s.pid_total(4092), 4718592);
    assert!(s.can_kill_process(4092));
    s.kill_process_at(4092, "06:00:00");
    assert_eq!(
        log_tail(&s, 4),
        vec![
            pair("critical", "[06:00:00] [CRITICAL] Issuing SIGKILL (kill -9) to daemon process PID 4092"),
            pair("cmd", "$ kill -9 4092"),
            pair("ok", "[OK] Process thread 4092 terminated. All locked kernel files descriptors closed."),
            pair("success", "[SUCCESS] Freed locked system thread sockets. Reclaimed +4.5 MB memory-buffered disk blocks."),
        ]
    );
    assert!(s.ghosts.iter().filter(|g| g.pid == 4092).all(|g| g.released));
    assert!(s.blocks.iter().all(|b| b.category != "Ghost"));
    assert_eq!(s.reclaimed_bytes, 4718592);
    let mut w = AppState::new();
    w.load_os("windows");
    w.kill_process_at(-1, "06:00:01");
    assert_eq!(w.reclaimed_bytes, 0);
    assert_eq!(w.blocks.len(), 6);
    assert!(!w.ghosts[0].released);
    assert_eq!(log_tail(&w, 4)[1].1, "$ kill -9 -1");
    assert_eq!(log_tail(&w, 4)[3].1, "[SUCCESS] Freed locked system thread sockets. Reclaimed +0 B memory-buffered disk blocks.");
    w.reclaimed_bytes = i32::MAX - 10;
    assert!(!w.can_kill_process(1420));
    assert!(w.can_kill_process(7));
}

#[test]
fn scanning_a_fleet_machine() {
    let mut s = AppState::new();
    s.trigger_node_scan_at("fleet_node_0", "10:00:00");
    assert_eq!(
        log_tail(&s, 4),
        vec![
            pair("exec", "[10:00:00] [EXEC] Synchronizing SSH session with edge node: prod-nginx-lb-01 (10.128.0.12)"),
            pair("cmd", "$ ssh -i ~/.ssh/id_ed25519 root@10.128.0.12 \"oxidust core scan\""),
            pair("ok", "[OK] SSH Tunnel secured. Fetching device disk layout tables..."),
            pair("info", "[INFO] Target node prod-nginx-lb-01 reports: 2 unlinked locking processes."),
        ]
    );
    let n = s.logs.len();
    s.trigger_node_scan_at("fleet_node_9", "10:00:01");
    assert_eq!(s.logs.len(), n);
}

#[test]
fn purging_a_fleet_machine() {
    let mut s = AppState::new();
    assert!(s.can_purge_node("fleet_node_0"));
    s.remote_node_purge_at("fleet_node_0", "11:00:00");
    let nd = &s.fleet_nodes[0];
    assert_eq!(nd.disk_free, 57671680 + 235929600);
    assert_eq!(nd.disk_usage, 44);
    assert_eq!(nd.ghost_files_count, 0);
    assert_eq!(nd.status, "online");
    assert_eq!(nd.last_scan, "Just now");
    assert_eq!(
        log_tail(&s, 4),
        vec![
            pair("exec", "[11:00:00] [EXEC] Triggering edge purge command on node: prod-nginx-lb-01"),
            pair("cmd", "$ ssh -i ~/.ssh/id_ed25519 root@10.128.0.12 \"oxidust system clean --force\""),
            pair("ok", "[OK] Remote cleaning operations successful on target node."),
            pair("success", "[SUCCESS] Edge node health state updated: Healthy."),
        ]
    );
    let total = s.fleet_nodes[3].disk_total;
    let free = s.fleet_nodes[3].disk_free;
    s.remote_node_purge_at("fleet_node_3", "11:00:01");
    let rec = (total as f64 * 0.45) as i32;
    assert_eq!(s.fleet_nodes[3].disk_free, free + rec);
    assert_eq!(s.fleet_nodes[3].disk_usage, f64_percent(total - (free + rec), total));
    assert_eq!(s.fleet_nodes[3].status, "online");
    let n = s.logs.len();
    s.remote_node_purge_at("nobody", "11:00:02");
    assert_eq!(s.logs.len(), n);
    s.fleet_nodes[1].disk_free = i32::MAX - 3;
    assert!(!s.can_purge_node("fleet_node_1"));
    assert!(s.can_purge_node("nobody"));
}

#[test]
fn registering_a_fleet_machine() {
    let mut s = AppState::new();
    s.add_node_at("edge-7", "10.0.0.7", "linux", "100", 1700000000, "12:34:56");
    assert_eq!(s.fleet_nodes.len(), 5);
    let nd = &s.fleet_nodes[0];
    assert_eq!(nd.id, "fleet_node_1700000000");
    assert_eq!(nd.name, "edge-7");
    assert_eq!(nd.ip, "10.0.0.7");
    assert_eq!(nd.os, "linux");
    assert_eq!(nd.status, "online");
    assert_eq!(nd.disk_usage, 35);
    assert_eq!(nd.disk_total, ((100i64) * 1024 * 1024 * 1024) as i32);
    assert_eq!(nd.disk_free, (((100 as f64 * 0.65) as i64) * 1024 * 1024 * 1024) as i32);
    assert_eq!(nd.disk_free, 1073741824);
    assert_eq!(nd.ghost_files_count, 0);
    assert_eq!(nd.last_scan, "Registered today");
    assert_eq!(s.fleet_nodes[1].id, "fleet_node_0");
    assert_eq!(
        log_tail(&s, 2),
        vec![
            pair("ok", "[12:34:56] [OK] Registered new edge node target: edge-7 (10.0.0.7)"),
            pair("info", "[INFO] Establishing persistent telemetry channels... Connected."),
        ]
    );
    s.add_node_at("x", "y", "macos", "lots", -5, "00:00:00");
    assert_eq!(s.fleet_nodes[0].id, "fleet_node_-5");
    assert_eq!(s.fleet_nodes[0].disk_total, ((250i64) * 1024 * 1024 * 1024) as i32);
    assert_eq!(s.fleet_nodes[0].disk_free, (((250 as f64 * 0.65) as i64) * 1024 * 1024 * 1024) as i32);
    for cap in ["1", "3", "7", "-2", "2147483647", "-2147483648", "12 "] {
        s.add_node_at("n", "i", "o", cap, 0, "00:00:00");
        let c: i32 = cap.parse().unwrap_or(250);
        assert_eq!(s.fleet_nodes[0].disk_total, ((c as i64) * 1024 * 1024 * 1024) as i32);
        assert_eq!(s.fleet_nodes[0].disk_free, (((c as f64 * 0.65) as i64) * 1024 * 1024 * 1024) as i32);
    }
}

#[test]
fn registering_with_the_clock() {
    let mut s = AppState::new();
    s.add_node("a", "b", "c", "10");
    let id = s.fleet_nodes[0].id.clone();
    assert!(id.starts_with("fleet_node_"));
    assert!(id["fleet_node_".len()..].parse::<i64>().unwrap() > 0);
}

#[test]
fn advisor_chat() {
    let mut s = AppState::new();
    s.send_message("   \t\n");
    assert_eq!(s.chat_history.len(), 1);
    s.send_message("How do I purge docker volumes?");
    assert_eq!(s.chat_history.len(), 3);
    assert_eq!(s.chat_history[1].role, "user");
    assert_eq!(s.chat_history[1].text, "How do I purge docker volumes?");
    assert_eq!(s.chat_history[2].role, "assistant");
    assert!(s.chat_history[2].text.starts_with("### Docker Volume Debloat Strategy"));
    s.send_message("docker keeps a ghost file");
    assert!(s.chat_history[4].text.starts_with("### Ghost Log Analysis"));
    s.send_message("Homebrew cleanup");
    assert!(s.chat_history[6].text.starts_with("### macOS Homebrew Cleanup"));
    s.send_message("NGINX and BREW");
    assert!(s.chat_history[8].text.starts_with("### System Analysis"));
    s.send_message("  volume  ");
    assert_eq!(s.chat_history[9].text, "  volume  ");
    assert!(s.chat_history[10].text.starts_with("### Docker Volume Debloat Strategy"));
}

#[test]
fn audit_report() {
    let s = linux();
    let expect = format!(
        "## Oxidust Storage Audit Report\n\n**OS:** {}\n**Scan Status:** Complete\n\n### Findings\n\n- {} storage blocks identified\n- {} ghost file handles detected\n- {} fleet nodes monitored\n\n### Recommendations\n\n1. **Review Rule Presets**: {} active rules selected\n2. **Release Ghost Handles**: Use Ghost-Hunter tab to close file descriptors\n3. **Optimize Fleet**: {} nodes with critical disk usage\n\n### Summary\n\nReclaimable space: {}\n\n---\n*Generated by Oxidust AI Advisor*",
        "LINUX", 8, 1, 4, 3, 2, "6.9 MB",
    );
    assert_eq!(s.generate_audit(), expect);
    assert_eq!(s.busy_node_count(), 2);
}

#[test]
fn used_percentage_follows_reclaimed_space() {
    let mut s = AppState::new();
    for r in [0, 1, 1000, 7340031, 402653183, 402653184, 500000000] {
        s.reclaimed_bytes = r;
        let used = (s.initial_used - r).max(0);
        assert_eq!(s.used_percentage(), f64_percent(used, s.total_capacity));
        assert!(s.used_percentage() >= 0 && s.used_percentage() <= 100);
    }
    s.reclaimed_bytes = 0;
    s.initial_used = s.total_capacity;
    assert_eq!(s.used_percentage(), 100);
}

#[test]
fn purges_conserve_space() {
    for os in ["linux", "macos", "windows"] {
        let mut s = AppState::new();
        s.load_os(os);
        s.apply_safety("moderate");
        let before = s.reclaimed_bytes + s.blocks_total();
        s.purge_checked_at("00:00:00");
        assert_eq!(s.reclaimed_bytes + s.blocks_total(), before);
        let id = s.blocks[0].id.clone();
        s.block_clicked_at(&id, "00:00:01");
        assert_eq!(s.reclaimed_bytes + s.blocks_total(), before);
        assert_eq!(s.checked_count(), 0);
    }
}

#[test]
fn labels_given_by_the_caller() {
    let mut s = AppState::new();
    s.load_os_labelled("macos", "Mac");
    assert_eq!(log_tail(&s, 3)[0].1, "[OK] Shifted kernel compiler targeting to: Mac");
    assert_eq!(s.blocks.len(), 7);
    s.apply_safety_labelled("safe", "S");
    assert_eq!(log_tail(&s, 2)[0].1, "[EXEC] Adjusted Maximum Safety Threshold to: [S]");
    assert_eq!(s.safety_level, "safe");
    let r = s.audit_report("mac os");
    assert!(r.starts_with("## Oxidust Storage Audit Report\n\n**OS:** mac os\n**Scan Status:** Complete"));
    assert_eq!(s.generate_audit().replace("**OS:** MACOS", "**OS:** mac os"), r);
}

#[test]
fn upper_case_names_follow_unicode() {
    let mut s = AppState::new();
    s.load_os("straße");
    assert_eq!(log_tail(&s, 3)[0].1, "[OK] Shifted kernel compiler targeting to: STRASSE");
    s.apply_safety("über");
    assert_eq!(log_tail(&s, 2)[0].1, "[EXEC] Adjusted Maximum Safety Threshold to: [ÜBER]");
}

#[test]
fn well_formedness_check() {
    let mut s = AppState::new();
    assert!(s.is_well_formed());
    s.load_os("linux");
    assert!(s.is_well_formed());
    s.layout = oxidust::treemap::Treemap::Empty;
    assert!(!s.is_well_formed());
    s.load_os("macos");
    assert!(s.is_well_formed());
    s.blocks[0].size = -1;
    assert!(!s.is_well_formed());
    s.load_os("windows");
    s.presets[2].size_bytes = 0x100_0000;
    assert!(!s.is_well_formed());
}

#[test]
fn sums_beyond_the_invariant() {
    let mut s = linux();
    for p in s.presets.iter_mut() {
        p.size_bytes = 700_000_000;
        p.checked = false;
    }
    s.presets[0].checked = true;
    s.presets[3].checked = true;
    s.presets[6].checked = true;
    assert!(!s.is_well_formed());
    assert_eq!(s.total_reclaimable_selected(), 2_100_000_000);
    for b in s.blocks.iter_mut() {
        b.size = 1_500_000_000;
    }
    assert!(!s.can_purge_checked());
    s.presets[3].checked = false;
    s.presets[6].checked = false;
    assert!(s.can_purge_checked());
    assert_eq!(s.purge_total(), 1_500_000_000);
    s.ghosts[0].size = i32::MAX;
    assert!(s.can_kill_process(4092));
    s.reclaimed_bytes = 1;
    assert!(!s.can_kill_process(4092));
    assert!(s.can_kill_process(1));
    s.ghosts.push(s.ghosts[0].clone());
    s.ghosts[0].size = 10;
    s.ghosts[1].size = 20;
    assert_eq!(s.pid_total(4092), 30);
}

#[test]
fn used_percentage_falls_as_space_is_reclaimed() {
    let mut s = AppState::new();
    let mut last = 101;
    for r in [0, 1, 5242880, 7340031, 104857600, 402653183, 402653184, 402653185, 600000000] {
        s.reclaimed_bytes = r;
        let p = s.used_percentage();
        assert!(p <= last && p >= 0 && p <= 100);
        last = p;
    }
    assert_eq!(last, 0);
}

#[test]
fn clock_fields_are_in_range() {
    let mut s = linux();
    s.run_dry_scan();
    let first = s.logs[s.logs.len() - 7].text.clone();
    let h: u32 = first[1..3].parse().unwrap();
    let m: u32 = first[4..6].parse().unwrap();
    let sec: u32 = first[7..9].parse().unwrap();
    assert!(h <= 23 && m <= 59 && sec <= 60);
}

#[test]
fn presets_line_up_with_blocks() {
    for os in ["linux", "macos", "windows"] {
        let bs = oxidust::catalog::get_os_blocks(os);
        let ps = oxidust::catalog::get_os_presets(os);
        assert_eq!(ps.len() + 1, bs.len());
        for p in &ps {
            let hits: Vec<_> = bs.iter().filter(|b| b.path == p.target).collect();
            assert_eq!(hits.len(), 1);
            assert_eq!(hits[0].size, p.size_bytes);
            assert_eq!(hits[0].safety, p.safety);
        }
        for b in bs.iter().filter(|b| b.category != "Ghost") {
            assert_eq!(ps.iter().filter(|p| p.target == b.path).count(), 1);
        }
    }
}
