use oxidust::binary64::{percent, scale};
use std::path::PathBuf;
use oxidust::catalog::{format_bytes, get_initial_fleet_nodes, get_os_blocks, get_os_ghosts, get_os_presets};
use oxidust::color::{hex_color, Rgb};
use oxidust::text::{chars_of, parse_i32_chars, split_chars, trim_chars};
use oxidust::treemap::{compute_treemap_layout, plan, sort_by_size_desc, Treemap};
use oxidust::window::{
    create_storage, decode_file_text, window_state_path, decode_registry_values, encode_file_text, encode_registry_values,
    RegistryValues, StorageKind, WindowState,
};

fn s(v: &Vec<char>) -> String {
    v.iter().collect()
}

#[test]
fn linux_blocks_match_the_table() {
    let blocks = get_os_blocks("linux");
    assert_eq!(blocks.len(), 8);
    for (i, b) in blocks.iter().enumerate() {
        assert_eq!(b.id, format!("linux_{}", i));
    }
    assert_eq!(blocks[0].name, "Docker overlay2");
    assert_eq!(blocks[0].path, "/var/lib/docker/overlay2");
    assert_eq!(blocks[0].size, 13421773);
    assert_eq!(blocks[0].category, "Docker");
    assert_eq!(blocks[0].safety, "dangerous");
    assert_eq!(blocks[0].color, Rgb { r: 0x08, g: 0x91, b: 0xb2 });
    assert_eq!(blocks[5].category, "Ghost");
    assert_eq!(blocks[5].path, "/var/log/nginx/access.log.1 (deleted)");
    assert_eq!(blocks[7].color, Rgb { r: 0x25, g: 0x63, b: 0xeb });
}

#[test]
fn other_platforms_and_unknown_platform() {
    let mac = get_os_blocks("macos");
    assert_eq!(mac.len(), 7);
    assert_eq!(mac[1].name, "Docker Virtual Disk");
    assert_eq!(mac[1].size, 15205001);
    let win = get_os_blocks("windows");
    assert_eq!(win.len(), 7);
    assert_eq!(win[0].path, "C:\\ProgramData\\Docker\\windowsfilter");
    assert_eq!(win[6].id, "windows_6");
    assert!(get_os_blocks("haiku").is_empty());
    assert!(get_os_presets("haiku").is_empty());
    assert!(get_os_ghosts("haiku").is_empty());
    assert!(get_os_blocks("Linux").is_empty());
}

#[test]
fn presets_are_selected_when_safe() {
    let presets = get_os_presets("linux");
    assert_eq!(presets.len(), 7);
    for p in &presets {
        assert_eq!(p.checked, p.safety == "safe");
        assert_eq!(p.os, "linux");
        assert_eq!(p.size_text, format_bytes(p.size_bytes));
    }
    assert_eq!(presets[0].id, "linux_0");
    assert_eq!(presets[0].size_text, "12.8 MB");
    assert_eq!(presets[5].dist, "ubuntu");
    assert_eq!(presets[5].category, "dist");
    let mac = get_os_presets("macos");
    assert_eq!(mac.len(), 6);
    assert_eq!(mac[4].dist, "brew");
    assert_eq!(get_os_presets("windows").len(), 6);
}

#[test]
fn ghosts_and_fleet_tables() {
    let g = get_os_ghosts("linux");
    assert_eq!(g.len(), 1);
    assert_eq!(g[0].id, "ghost_lin_0");
    assert_eq!(g[0].pid, 4092);
    assert_eq!(g[0].process, "nginx");
    assert_eq!(g[0].size, 4718592);
    assert!(!g[0].released);
    assert_eq!(get_os_ghosts("macos")[0].pid, 501);
    assert_eq!(get_os_ghosts("windows")[0].process, "svchost.exe");
    let fleet = get_initial_fleet_nodes();
    assert_eq!(fleet.len(), 4);
    assert_eq!(fleet[0].id, "fleet_node_0");
    assert_eq!(fleet[0].disk_usage, 89);
    assert_eq!(fleet[3].status, "warning");
    assert_eq!(fleet[3].last_scan, "Never");
    assert_eq!(fleet[2].disk_free, 576716800);
}

#[test]
fn hex_colors() {
    assert_eq!(hex_color("#0891b2"), Rgb { r: 8, g: 145, b: 178 });
    assert_eq!(hex_color("ea580c"), Rgb { r: 0xea, g: 0x58, b: 0x0c });
    assert_eq!(hex_color("##FF0000"), Rgb { r: 255, g: 0, b: 0 });
    assert_eq!(hex_color("#zz1000"), Rgb { r: 0, g: 16, b: 0 });
    assert_eq!(hex_color("#+f1000"), Rgb { r: 15, g: 16, b: 0 });
    assert_eq!(hex_color("#10203040"), Rgb { r: 16, g: 32, b: 48 });
    assert_eq!(hex_color("#\u{e9}1000"), Rgb { r: 0, g: 16, b: 0 });
}

#[test]
fn byte_formatting() {
    assert_eq!(format_bytes(0), "0 B");
    assert_eq!(format_bytes(1023), "1023 B");
    assert_eq!(format_bytes(-5), "-5 B");
    assert_eq!(format_bytes(1024), "1.0 KB");
    assert_eq!(format_bytes(1536), "1.5 KB");
    assert_eq!(format_bytes(1048576), "1.0 MB");
    assert_eq!(format_bytes(7340031), "6.9 MB");
    assert_eq!(format_bytes(1073741824), "1.0 GB");
    assert_eq!(format_bytes(i32::MAX), "1.9 GB");
}

#[test]
fn percent_matches_f64_arithmetic() {
    let values: Vec<i32> = vec![
        0, 1, -1, 2, 3, 7, 10, 99, 100, 101, 333, 1000, 4092, 65536, 230686720, 402653184, 524288000,
        1048576000, 57671680, 999999937, i32::MAX, i32::MIN, -524288000, -3,
    ];
    for &n in &values {
        for &d in &values {
            let expect = ((n as f64 / d as f64) * 100.0) as i32;
            assert_eq!(percent(n, d), expect, "percent({}, {})", n, d);
        }
    }
}

#[test]
fn scale_matches_f64_arithmetic() {
    assert_eq!(8106479329266893f64 / 2f64.powi(54), 0.45);
    assert_eq!(5854679515581645f64 / 2f64.powi(53), 0.65);
    let values: Vec<i32> = vec![
        0, 1, -1, 2, 3, 20, 100, 250, 999, 1000, 12345, 524288000, 262144000, 1048576000, i32::MAX,
        i32::MIN, -7, 2147483, 123456789,
    ];
    for &x in &values {
        assert_eq!(scale(x, 8106479329266893, 54), (x as f64 * 0.45) as i64, "0.45 * {}", x);
        assert_eq!(scale(x, 5854679515581645, 53), (x as f64 * 0.65) as i64, "0.65 * {}", x);
    }
    assert_eq!(scale(524288000, 8106479329266893, 54), 235929600);
    assert_eq!(scale(100, 5854679515581645, 53), 65);
}

#[test]
fn integer_parsing_like_str_parse() {
    let p = |t: &str| parse_i32_chars(&chars_of(t));
    assert_eq!(p("250"), Some(250));
    assert_eq!(p("+12"), Some(12));
    assert_eq!(p("-2147483648"), Some(i32::MIN));
    assert_eq!(p("2147483647"), Some(i32::MAX));
    assert_eq!(p("2147483648"), None);
    assert_eq!(p(""), None);
    assert_eq!(p("-"), None);
    assert_eq!(p("12a"), None);
    assert_eq!(p(" 1"), None);
    assert_eq!(p("007"), Some(7));
    for t in ["0", "-0", "99999", "-31", "+", "1_000", "٣"] {
        assert_eq!(p(t), t.parse::<i32>().ok(), "{}", t);
    }
}

#[test]
fn trimming_and_splitting_like_str() {
    for t in ["  a b  ", "\t\nx\u{3000}", "", "   ", "a  b"] {
        assert_eq!(s(&trim_chars(&chars_of(t))), t.trim());
        let parts: Vec<String> = split_chars(&chars_of(t), ' ').iter().map(s).collect();
        let expect: Vec<String> = t.split(' ').map(|p| p.to_string()).collect();
        assert_eq!(parts, expect);
    }
}

#[test]
fn window_state_file_form() {
    let ws = WindowState { x: 10, y: -20, width: 800, height: 600, maximized: false };
    assert_eq!(encode_file_text(&ws), "10 -20 800 600 false");
    assert_eq!(decode_file_text("10 -20 800 600 false"), Some(ws));
    let max = WindowState { x: 0, y: 0, width: 1, height: 2, maximized: true };
    assert_eq!(encode_file_text(&max), "0 0 1 2 true");
    assert_eq!(decode_file_text("  0 0 1 2 true\n"), Some(max));
    assert_eq!(decode_file_text("1 2 3 4"), None);
    assert_eq!(decode_file_text("1 2 3 4 true extra"), None);
    assert_eq!(decode_file_text("1  2 3 4 true"), None);
    assert_eq!(decode_file_text("a 2 3 4 true"), None);
    assert_eq!(
        decode_file_text("1 2 3 4 yes"),
        Some(WindowState { x: 1, y: 2, width: 3, height: 4, maximized: false })
    );
    assert_eq!(decode_file_text(""), None);
}

#[test]
fn window_state_registry_form() {
    let ws = WindowState { x: -3, y: 4, width: 1280, height: 720, maximized: true };
    let v = encode_registry_values(&ws);
    assert_eq!(v.x, "-3");
    assert_eq!(v.y, "4");
    assert_eq!(v.width, "1280");
    assert_eq!(v.height, "720");
    assert_eq!(v.maximized, "true");
    assert_eq!(decode_registry_values(&v), Some(ws));
    let bad = RegistryValues {
        x: "1".to_string(),
        y: "2".to_string(),
        width: "wide".to_string(),
        height: "4".to_string(),
        maximized: "true".to_string(),
    };
    assert_eq!(decode_registry_values(&bad), None);
    let not_max = RegistryValues {
        x: "1".to_string(),
        y: "2".to_string(),
        width: "3".to_string(),
        height: "4".to_string(),
        maximized: "TRUE".to_string(),
    };
    assert_eq!(
        decode_registry_values(&not_max),
        Some(WindowState { x: 1, y: 2, width: 3, height: 4, maximized: false })
    );
}

#[test]
fn storage_choice() {
    assert_eq!(create_storage(true), StorageKind::Registry);
    assert_eq!(create_storage(false), StorageKind::File);
}

fn leaf(t: &Treemap) -> usize {
    match t {
        Treemap::Leaf(i) => *i,
        other => panic!("expected a leaf, got {:?}", other),
    }
}

fn split(t: &Treemap) -> (i32, i32, &Treemap, &Treemap) {
    match t {
        Treemap::Split { left_size, total_size, left, right } => (*left_size, *total_size, &**left, &**right),
        other => panic!("expected a split, got {:?}", other),
    }
}

#[test]
fn display_order_is_stable_descending() {
    assert_eq!(sort_by_size_desc(&vec![3, 9, 3, 1, 9]), vec![1, 4, 0, 2, 3]);
    assert_eq!(sort_by_size_desc(&vec![]), Vec::<usize>::new());
}

#[test]
fn linux_treemap_plan() {
    let t = compute_treemap_layout(&get_os_blocks("linux"));
    let (l, tot, left, right) = split(&t);
    assert_eq!((l, tot), (23907533, 38587592));
    let (l2, t2, ll, lr) = split(left);
    assert_eq!((l2, t2), (13421773, 23907533));
    assert_eq!(leaf(ll), 0);
    let (l3, t3, a, b) = split(lr);
    assert_eq!((l3, t3), (5767168, 10485760));
    assert_eq!((leaf(a), leaf(b)), (4, 5));
    let (l4, t4, rl, rr) = split(right);
    assert_eq!((l4, t4), (7969174, 14680059));
    let (l5, t5, a, b) = split(rl);
    assert_eq!((l5, t5), (4404016, 7969174));
    assert_eq!((leaf(a), leaf(b)), (1, 2));
    let (l6, t6, x, y) = split(rr);
    assert_eq!((l6, t6), (5138021, 6710885));
    assert_eq!(leaf(y), 7);
    let (l7, t7, a, b) = split(x);
    assert_eq!((l7, t7), (2936012, 5138021));
    assert_eq!((leaf(a), leaf(b)), (6, 3));
}

#[test]
fn treemap_edge_cases() {
    assert!(matches!(compute_treemap_layout(&vec![]), Treemap::Empty));
    let one = get_os_blocks("macos").into_iter().take(1).collect::<Vec<_>>();
    assert!(matches!(compute_treemap_layout(&one), Treemap::Leaf(0)));
    assert!(matches!(plan(&vec![(4, 0), (2, 0), (9, 0)]), Treemap::Keep));
    let t = plan(&vec![(7, 5), (3, 5)]);
    let (l, tot, a, b) = split(&t);
    assert_eq!((l, tot, leaf(a), leaf(b)), (5, 10, 7, 3));
    let t = plan(&vec![(0, 1), (1, 1), (2, 100)]);
    let (l, tot, a, b) = split(&t);
    assert_eq!((l, tot, leaf(a)), (1, 102, 0));
    let (l2, t2, c, d) = split(b);
    assert_eq!((l2, t2, leaf(c), leaf(d)), (1, 101, 1, 2));
}

#[test]
fn whitespace_matches_char_is_whitespace() {
    for u in 0u32..=0x10FFFF {
        if let Some(c) = char::from_u32(u) {
            assert_eq!(oxidust::text::is_ws_char(c), c.is_whitespace(), "U+{:04X}", u);
        }
    }
}

fn next(seed: &mut u64) -> i32 {
    *seed = seed.wrapping_mul(6364136223846793005).wrapping_add(1442695040888963407);
    (*seed >> 32) as u32 as i32
}

#[test]
fn percent_and_scale_match_f64_on_many_values() {
    let mut seed: u64 = 0x5eed;
    for k in 0..50000 {
        let mut n = next(&mut seed);
        let mut d = next(&mut seed);
        if k % 3 == 0 {
            n %= 1000;
            d %= 1000;
        } else if k % 3 == 1 {
            n = (n & 0x7fff_ffff) % 600_000_000;
            d = n + (d & 0x7fff_ffff) % 600_000_000;
        }
        assert_eq!(percent(n, d), ((n as f64 / d as f64) * 100.0) as i32, "percent({}, {})", n, d);
        assert_eq!(scale(n, 8106479329266893, 54), (n as f64 * 0.45) as i64, "0.45 * {}", n);
        assert_eq!(scale(d, 5854679515581645, 53), (d as f64 * 0.65) as i64, "0.65 * {}", d);
    }
}

#[test]
fn window_state_file_location() {
    assert_eq!(window_state_path(Some("/home/ada")), "/home/ada/.config/oxidust/window_state");
    assert_eq!(window_state_path(None), "/tmp/.config/oxidust/window_state");
    assert_eq!(window_state_path(Some("/")), "/.config/oxidust/window_state");
    assert_eq!(window_state_path(Some("")), ".config/oxidust/window_state");
    for home in ["/home/ada", "/home/ada/", "/", "", "relative/dir", "/tmp"] {
        let joined = PathBuf::from(home).join(".config/oxidust/window_state");
        assert_eq!(window_state_path(Some(home)), joined.to_str().unwrap());
    }
}
