//! The built-in rule catalog: the disk map, the cleaning presets and the
//! held-open files of each platform, and the initial fleet.

use vstd::prelude::*;
use crate::color::{hex_color, hex_rgb, lemma_hex_literal, pairs_ok, trim_hash};
use crate::model::{
    ghost_sizes, preset_sizes, small_sizes, view_sizes, blocks_view, ghosts_view, nodes_view, presets_view, DiskBlock, DiskBlockView, FleetNode,
    FleetNodeView, GhostFile, GhostFileView, RulePreset, RulePresetView,
};
use crate::text::{dec_int, dec_nat, push_dec_i64, push_dec_u64, str_eq};

verus! {

pub type BlockRow = (Seq<char>, Seq<char>, i32, Seq<char>, Seq<char>, Seq<char>);

pub type PresetRow = (Seq<char>, Seq<char>, Seq<char>, Seq<char>, Seq<char>, Seq<char>, i32, Seq<char>);

pub type GhostRow = (Seq<char>, i32, Seq<char>, Seq<char>, i32);

/// One kilobyte, in bytes.
pub open spec fn kib() -> int { 1024 }
/// One megabyte, in bytes.
pub open spec fn mib() -> int { 1048576 }
/// One gigabyte, in bytes.
pub open spec fn gib() -> int { 1073741824 }

/// A size with one decimal place in the given unit (rounded down).
pub open spec fn tenths_text(b: int, unit: int) -> Seq<char> {
    dec_nat((b / unit) as nat) + "."@ + dec_nat((((b % unit) * 10) / unit) as nat)
}

/// How a byte count is shown: in GB, MB or KB (binary units) with one
/// decimal place, or in bytes below one kilobyte.
pub open spec fn size_text(b: int) -> Seq<char> {
    if b >= gib() {
        tenths_text(b, gib()) + " GB"@
    } else if b >= mib() {
        tenths_text(b, mib()) + " MB"@
    } else if b >= kib() {
        tenths_text(b, kib()) + " KB"@
    } else {
        dec_int(b) + " B"@
    }
}

/// Appends `b / unit` with one decimal place, rounded down.
fn push_tenths(out: &mut String, b: i32, unit: i32)
    requires
        b >= unit > 0,
        unit <= 1024 * 1024 * 1024,
    ensures
        final(out)@ == old(out)@ + tenths_text(b as int, unit as int),
{
    push_dec_u64(out, (b / unit) as u64);
    out.append(".");
    let rem: i64 = (b % unit) as i64;
    push_dec_u64(out, ((rem * 10) / unit as i64) as u64);
    proof {
        reveal_strlit(".");
    }
}

/// Renders a byte count for display (see `size_text`).
pub fn format_bytes(bytes: i32) -> (s: String)
    ensures
        s@ == size_text(bytes as int),
{
    let mut s = String::new();
    proof {
        reveal_strlit(" GB");
        reveal_strlit(" MB");
        reveal_strlit(" KB");
        reveal_strlit(" B");
    }
    if bytes >= 1024 * 1024 * 1024 {
        push_tenths(&mut s, bytes, 1024 * 1024 * 1024);
        s.append(" GB");
    } else if bytes >= 1024 * 1024 {
        push_tenths(&mut s, bytes, 1024 * 1024);
        s.append(" MB");
    } else if bytes >= 1024 {
        push_tenths(&mut s, bytes, 1024);
        s.append(" KB");
    } else {
        push_dec_i64(&mut s, bytes as i64);
        s.append(" B");
    }
    s
}

/// The disk-map rows of each platform: name, path, size, category,
/// safety, color.
pub open spec fn block_rows(os: Seq<char>) -> Seq<BlockRow> {
    if os == "linux"@ {
        seq![
            ("Docker overlay2"@, "/var/lib/docker/overlay2"@, 13421773, "Docker"@, "dangerous"@, "#0891b2"@),
            ("Nginx Access Logs"@, "/var/log/nginx/access.log"@, 4404016, "Logs"@, "moderate"@, "#d97706"@),
            ("Chromium Cache"@, "~/.cache/chromium"@, 3565158, "Caches"@, "safe"@, "#059669"@),
            ("Spotify Offline Cache"@, "~/.local/share/Spotify"@, 2202009, "Caches"@, "safe"@, "#10b981"@),
            ("Kernel Headers Backup"@, "/usr/src/kernels"@, 5767168, "System"@, "dangerous"@, "#be123c"@),
            ("Nginx Ghost Descriptor"@, "/var/log/nginx/access.log.1 (deleted)"@, 4718592, "Ghost"@, "moderate"@, "#ea580c"@),
            ("Apt Package Cache"@, "/var/cache/apt/archives"@, 2936012, "System"@, "moderate"@, "#e11d48"@),
            ("User Home Temp"@, "~/downloads/tmp"@, 1572864, "UserFiles"@, "safe"@, "#2563eb"@),
        ]
    } else if os == "macos"@ {
        seq![
            ("Xcode DerivedData"@, "~/Library/Developer/Xcode/DerivedData"@, 8599604, "Caches"@, "safe"@, "#059669"@),
            ("Docker Virtual Disk"@, "~/Library/Containers/com.docker.docker"@, 15205001, "Docker"@, "dangerous"@, "#0891b2"@),
            ("CoreSymbolication Cache"@, "~/Library/Caches/com.apple.coresymbolicationd"@, 5452594, "Caches"@, "safe"@, "#10b981"@),
            ("DiagnosticReports Logs"@, "~/Library/Logs/DiagnosticReports"@, 2936012, "Logs"@, "moderate"@, "#d97706"@),
            ("Safari Ghost Descriptor"@, "~/Library/Caches/Safari/Cache.db (deleted)"@, 3984589, "Ghost"@, "moderate"@, "#ea580c"@),
            ("Homebrew Downloads"@, "~/Library/Caches/Homebrew"@, 4090072, "System"@, "moderate"@, "#e11d48"@),
            ("User Trash Can"@, "~/.Trash"@, 2306866, "UserFiles"@, "safe"@, "#2563eb"@),
        ]
    } else if os == "windows"@ {
        seq![
            ("Docker windowsfilter"@, "C:\\ProgramData\\Docker\\windowsfilter"@, 11744007, "Docker"@, "dangerous"@, "#0891b2"@),
            ("Windows Update Cache"@, "C:\\Windows\\SoftwareDistribution\\Download"@, 4718592, "System"@, "dangerous"@, "#be123c"@),
            ("Windows Event Logs"@, "C:\\Windows\\System32\\Winevt\\Logs"@, 4090072, "Logs"@, "moderate"@, "#d97706"@),
            ("Spotify Local AppData"@, "C:\\Users\\AppData\\Local\\Spotify"@, 2936012, "Caches"@, "safe"@, "#059669"@),
            ("Svchost Ghost Handle"@, "C:\\Windows\\Temp\\srv_socket_log.tmp (deleted)"@, 5347894, "Ghost"@, "moderate"@, "#ea580c"@),
            ("User Recycler"@, "C:\\$Recycle.Bin"@, 3774874, "UserFiles"@, "safe"@, "#2563eb"@),
            ("Chrome Browser Cache"@, "C:\\Users\\AppData\\Local\\Google\\Chrome\\User Data\\Default\\Cache"@, 3355444, "Caches"@, "safe"@, "#10b981"@),
        ]
    } else {
        seq![]
    }
}

/// The cleaning rules of each platform: name, description, category, os,
/// distribution, target, size, safety.
pub open spec fn preset_rows(os: Seq<char>) -> Seq<PresetRow> {
    if os == "linux"@ {
        seq![
            ("Docker Layers Purge"@, "Clears dangling container layers and unused Docker build caches."@, "app"@, "linux"@, "none"@, "/var/lib/docker/overlay2"@, 13421773, "dangerous"@),
            ("Systemd Journal Log Rotation"@, "Archived journald binary files older than 7 days."@, "os"@, "linux"@, "none"@, "/var/log/nginx/access.log"@, 4404016, "moderate"@),
            ("Chromium Browser Cache"@, "Removes local indexed database indices and offline page icons."@, "app"@, "linux"@, "none"@, "~/.cache/chromium"@, 3565158, "safe"@),
            ("Spotify Streaming Cache"@, "Wipes local encodings of offline tracks and album thumbnails."@, "app"@, "linux"@, "none"@, "~/.local/share/Spotify"@, 2202009, "safe"@),
            ("Orphaned Kernel Backups"@, "Redundant kernel symbols and old device module frameworks."@, "os"@, "linux"@, "none"@, "/usr/src/kernels"@, 5767168, "dangerous"@),
            ("Apt Package Cellar Cache"@, "Cached .deb installation packages from apt-get commands."@, "dist"@, "linux"@, "ubuntu"@, "/var/cache/apt/archives"@, 2936012, "moderate"@),
            ("System Temp Directories"@, "Cleans discarded execution locks from the root temporal folder."@, "os"@, "linux"@, "none"@, "~/downloads/tmp"@, 1572864, "safe"@),
        ]
    } else if os == "macos"@ {
        seq![
            ("Xcode Derived Data Assets"@, "Intermediate compile logs and module index caches."@, "app"@, "macos"@, "none"@, "~/Library/Developer/Xcode/DerivedData"@, 8599604, "safe"@),
            ("Docker Overlay Layers"@, "Removes dangling layer builds from local container services."@, "app"@, "macos"@, "none"@, "~/Library/Containers/com.docker.docker"@, 15205001, "dangerous"@),
            ("CoreSymbolication Caches"@, "System diagnostic crash caches."@, "os"@, "macos"@, "none"@, "~/Library/Caches/com.apple.coresymbolicationd"@, 5452594, "safe"@),
            ("Apple Diagnostic Crashlogs"@, "Archived diagnostic telemetry tables."@, "os"@, "macos"@, "none"@, "~/Library/Logs/DiagnosticReports"@, 2936012, "moderate"@),
            ("Homebrew Cellar Cache"@, "Purges unlinked source tarballs and stale brew bottles."@, "dist"@, "macos"@, "brew"@, "~/Library/Caches/Homebrew"@, 4090072, "moderate"@),
            ("Mac User Trash Volume"@, "Empties the local user directory Trash collection."@, "os"@, "macos"@, "none"@, "~/.Trash"@, 2306866, "safe"@),
        ]
    } else if os == "windows"@ {
        seq![
            ("Docker Storage Filter"@, "Cleans cached storage layers and unused Docker network grids."@, "app"@, "windows"@, "none"@, "C:\\ProgramData\\Docker\\windowsfilter"@, 11744007, "dangerous"@),
            ("Windows Update Installer Cabinets"@, "Redundant update payloads."@, "os"@, "windows"@, "none"@, "C:\\Windows\\SoftwareDistribution\\Download"@, 4718592, "dangerous"@),
            ("Windows Application Event Logs"@, "Event viewer diagnostic trace logs."@, "os"@, "windows"@, "none"@, "C:\\Windows\\System32\\Winevt\\Logs"@, 4090072, "moderate"@),
            ("Spotify Album Caches"@, "Wipes cached metadata and offline catalog listings."@, "app"@, "windows"@, "none"@, "C:\\Users\\AppData\\Local\\Spotify"@, 2936012, "safe"@),
            ("Windows Recycler bin"@, "Deletes file structures locked inside the Recycle bin."@, "os"@, "windows"@, "none"@, "C:\\$Recycle.Bin"@, 3774874, "safe"@),
            ("Chrome Indexed caches"@, "Removes service worker caches and local browser memory indices."@, "app"@, "windows"@, "none"@, "C:\\Users\\AppData\\Local\\Google\\Chrome\\User Data\\Default\\Cache"@, 3355444, "safe"@),
        ]
    } else {
        seq![]
    }
}

/// The files held open after deletion on each platform: id, pid,
/// process, path, size.
pub open spec fn ghost_rows(os: Seq<char>) -> Seq<GhostRow> {
    if os == "linux"@ {
        seq![
            ("ghost_lin_0"@, 4092, "nginx"@, "/var/log/nginx/access.log.1 (deleted)"@, 4718592),
        ]
    } else if os == "macos"@ {
        seq![
            ("ghost_mac_0"@, 501, "Safari"@, "~/Library/Caches/Safari/Cache.db (deleted)"@, 3984589),
        ]
    } else if os == "windows"@ {
        seq![
            ("ghost_win_0"@, 1420, "svchost.exe"@, "C:\\Windows\\Temp\\srv_socket_log.tmp (deleted)"@, 5347894),
        ]
    } else {
        seq![]
    }
}

/// The platform names differ from each other.
proof fn lemma_os_names_distinct()
    ensures
        "linux"@ != "macos"@,
        "linux"@ != "windows"@,
        "macos"@ != "windows"@,
{
    reveal_strlit("linux");
    reveal_strlit("macos");
    reveal_strlit("windows");
    assert("linux"@[0] != "macos"@[0]);
    assert("linux"@.len() != "windows"@.len());
    assert("macos"@.len() != "windows"@.len());
}

/// Every platform's tables are short and their sizes modest.
pub proof fn lemma_catalog_small(os: Seq<char>)
    ensures
        small_sizes(view_sizes(os_blocks_view(os))),
        small_sizes(preset_sizes(os_presets_view(os))),
        small_sizes(ghost_sizes(os_ghosts_view(os))),
{
    lemma_os_names_distinct();
    let b = view_sizes(os_blocks_view(os));
    let p = preset_sizes(os_presets_view(os));
    let g = ghost_sizes(os_ghosts_view(os));
    assert forall|i: int| 0 <= i < b.len() implies 0 <= #[trigger] b[i] < 0x100_0000 by {
        assert(b[i] == block_rows(os)[i].2);
    }
    assert forall|i: int| 0 <= i < p.len() implies 0 <= #[trigger] p[i] < 0x100_0000 by {
        assert(p[i] == preset_rows(os)[i].6);
    }
    assert forall|i: int| 0 <= i < g.len() implies 0 <= #[trigger] g[i] < 0x100_0000 by {
        assert(g[i] == ghost_rows(os)[i].4);
    }
}

/// The id of the `i`-th entry of a platform's table: `{os}_{i}`.
pub open spec fn row_id(os: Seq<char>, i: nat) -> Seq<char> {
    os + "_"@ + dec_nat(i)
}

/// The block built from row `i` of a platform's disk-map table.
pub open spec fn block_of(os: Seq<char>, i: nat, r: BlockRow) -> DiskBlockView {
    DiskBlockView {
        id: row_id(os, i),
        name: r.0,
        path: r.1,
        size: r.2,
        category: r.3,
        safety: r.4,
        color: hex_rgb(r.5),
    }
}

/// The preset built from row `i` of a platform's preset table.
pub open spec fn preset_of(os: Seq<char>, i: nat, r: PresetRow) -> RulePresetView {
    RulePresetView {
        id: row_id(os, i),
        name: r.0,
        description: r.1,
        category: r.2,
        os: r.3,
        dist: r.4,
        target: r.5,
        size_bytes: r.6,
        size_text: size_text(r.6 as int),
        safety: r.7,
        checked: r.7 == "safe"@,
    }
}

/// The held-open file built from a row of a platform's table.
pub open spec fn ghost_of(r: GhostRow) -> GhostFileView {
    GhostFileView { id: r.0, pid: r.1, process: r.2, path: r.3, size: r.4, released: false }
}

/// The disk map of a platform (empty for an unknown one).
pub open spec fn os_blocks_view(os: Seq<char>) -> Seq<DiskBlockView> {
    Seq::new(block_rows(os).len(), |i: int| block_of(os, i as nat, block_rows(os)[i]))
}

/// The presets of a platform (empty for an unknown one); a preset starts
/// selected exactly when it is rated safe.
pub open spec fn os_presets_view(os: Seq<char>) -> Seq<RulePresetView> {
    Seq::new(preset_rows(os).len(), |i: int| preset_of(os, i as nat, preset_rows(os)[i]))
}

/// The held-open files of a platform (empty for an unknown one), none
/// released.
pub open spec fn os_ghosts_view(os: Seq<char>) -> Seq<GhostFileView> {
    Seq::new(ghost_rows(os).len(), |i: int| ghost_of(ghost_rows(os)[i]))
}

/// The id of row `i` of platform `os`: `os_i`.
fn row_id_exec(os: &str, i: usize) -> (s: String)
    ensures
        s@ == row_id(os@, i as nat),
{
    let mut s = String::from_str(os);
    s.append("_");
    push_dec_u64(&mut s, i as u64);
    proof {
        reveal_strlit("_");
    }
    s
}

/// Appends the block of one table row.
fn push_block(
    v: &mut Vec<DiskBlock>,
    os: &str,
    name: &str,
    path: &str,
    size: i32,
    category: &str,
    safety: &str,
    color: &str,
)
    requires
        pairs_ok(trim_hash(color@), 3),
    ensures
        blocks_view(final(v)@) == blocks_view(old(v)@).push(
            block_of(os@, old(v)@.len(), (name@, path@, size, category@, safety@, color@)),
        ),
{
    let b = DiskBlock {
        id: row_id_exec(os, v.len()),
        name: String::from_str(name),
        path: String::from_str(path),
        size,
        category: String::from_str(category),
        safety: String::from_str(safety),
        color: hex_color(color),
    };
    v.push(b);
    assert(blocks_view(v@) =~= blocks_view(old(v)@).push(
        block_of(os@, old(v)@.len(), (name@, path@, size, category@, safety@, color@)),
    ));
}

/// Appends the preset of one table row.
fn push_preset(
    v: &mut Vec<RulePreset>,
    os: &str,
    name: &str,
    description: &str,
    category: &str,
    os_val: &str,
    dist: &str,
    target: &str,
    size: i32,
    safety: &str,
)
    ensures
        presets_view(final(v)@) == presets_view(old(v)@).push(
            preset_of(os@, old(v)@.len(), (name@, description@, category@, os_val@, dist@, target@, size, safety@)),
        ),
{
    let p = RulePreset {
        id: row_id_exec(os, v.len()),
        name: String::from_str(name),
        description: String::from_str(description),
        category: String::from_str(category),
        os: String::from_str(os_val),
        dist: String::from_str(dist),
        target: String::from_str(target),
        size_bytes: size,
        size_text: format_bytes(size),
        safety: String::from_str(safety),
        checked: str_eq(safety, "safe"),
    };
    v.push(p);
    assert(presets_view(v@) =~= presets_view(old(v)@).push(
        preset_of(os@, old(v)@.len(), (name@, description@, category@, os_val@, dist@, target@, size, safety@)),
    ));
}

/// Appends the held-open file of one table row.
fn push_ghost(v: &mut Vec<GhostFile>, id: &str, pid: i32, process: &str, path: &str, size: i32)
    ensures
        ghosts_view(final(v)@) == ghosts_view(old(v)@).push(ghost_of((id@, pid, process@, path@, size))),
{
    let g = GhostFile {
        id: String::from_str(id),
        pid,
        process: String::from_str(process),
        path: String::from_str(path),
        size,
        released: false,
    };
    v.push(g);
    assert(ghosts_view(v@) =~= ghosts_view(old(v)@).push(ghost_of((id@, pid, process@, path@, size))));
}

/// The Linux disk map.
fn linux_blocks(os: &str) -> (v: Vec<DiskBlock>)
    requires
        os@ == "linux"@,
    ensures
        blocks_view(v@) == os_blocks_view(os@),
{
    let mut v: Vec<DiskBlock> = Vec::new();
    assert(blocks_view(v@) =~= Seq::empty());
    proof {
        reveal_strlit("#059669");
        lemma_hex_literal("#059669"@);
        reveal_strlit("#0891b2");
        lemma_hex_literal("#0891b2"@);
        reveal_strlit("#10b981");
        lemma_hex_literal("#10b981"@);
        reveal_strlit("#2563eb");
        lemma_hex_literal("#2563eb"@);
        reveal_strlit("#be123c");
        lemma_hex_literal("#be123c"@);
        reveal_strlit("#d97706");
        lemma_hex_literal("#d97706"@);
        reveal_strlit("#e11d48");
        lemma_hex_literal("#e11d48"@);
        reveal_strlit("#ea580c");
        lemma_hex_literal("#ea580c"@);
    }
    push_block(&mut v, os, "Docker overlay2", "/var/lib/docker/overlay2", 13421773, "Docker", "dangerous", "#0891b2");
    push_block(&mut v, os, "Nginx Access Logs", "/var/log/nginx/access.log", 4404016, "Logs", "moderate", "#d97706");
    push_block(&mut v, os, "Chromium Cache", "~/.cache/chromium", 3565158, "Caches", "safe", "#059669");
    push_block(&mut v, os, "Spotify Offline Cache", "~/.local/share/Spotify", 2202009, "Caches", "safe", "#10b981");
    push_block(&mut v, os, "Kernel Headers Backup", "/usr/src/kernels", 5767168, "System", "dangerous", "#be123c");
    push_block(&mut v, os, "Nginx Ghost Descriptor", "/var/log/nginx/access.log.1 (deleted)", 4718592, "Ghost", "moderate", "#ea580c");
    push_block(&mut v, os, "Apt Package Cache", "/var/cache/apt/archives", 2936012, "System", "moderate", "#e11d48");
    push_block(&mut v, os, "User Home Temp", "~/downloads/tmp", 1572864, "UserFiles", "safe", "#2563eb");
    assert(blocks_view(v@) =~= os_blocks_view(os@));
    v
}

/// The Linux presets.
fn linux_presets(os: &str) -> (v: Vec<RulePreset>)
    requires
        os@ == "linux"@,
    ensures
        presets_view(v@) == os_presets_view(os@),
{
    let mut v: Vec<RulePreset> = Vec::new();
    assert(presets_view(v@) =~= Seq::empty());
    push_preset(&mut v, os, "Docker Layers Purge", "Clears dangling container layers and unused Docker build caches.", "app", "linux", "none", "/var/lib/docker/overlay2", 13421773, "dangerous");
    push_preset(&mut v, os, "Systemd Journal Log Rotation", "Archived journald binary files older than 7 days.", "os", "linux", "none", "/var/log/nginx/access.log", 4404016, "moderate");
    push_preset(&mut v, os, "Chromium Browser Cache", "Removes local indexed database indices and offline page icons.", "app", "linux", "none", "~/.cache/chromium", 3565158, "safe");
    push_preset(&mut v, os, "Spotify Streaming Cache", "Wipes local encodings of offline tracks and album thumbnails.", "app", "linux", "none", "~/.local/share/Spotify", 2202009, "safe");
    push_preset(&mut v, os, "Orphaned Kernel Backups", "Redundant kernel symbols and old device module frameworks.", "os", "linux", "none", "/usr/src/kernels", 5767168, "dangerous");
    push_preset(&mut v, os, "Apt Package Cellar Cache", "Cached .deb installation packages from apt-get commands.", "dist", "linux", "ubuntu", "/var/cache/apt/archives", 2936012, "moderate");
    push_preset(&mut v, os, "System Temp Directories", "Cleans discarded execution locks from the root temporal folder.", "os", "linux", "none", "~/downloads/tmp", 1572864, "safe");
    assert(presets_view(v@) =~= os_presets_view(os@));
    v
}

/// The Linux held-open files.
fn linux_ghosts(os: &str) -> (v: Vec<GhostFile>)
    requires
        os@ == "linux"@,
    ensures
        ghosts_view(v@) == os_ghosts_view(os@),
{
    let mut v: Vec<GhostFile> = Vec::new();
    assert(ghosts_view(v@) =~= Seq::empty());
    push_ghost(&mut v, "ghost_lin_0", 4092, "nginx", "/var/log/nginx/access.log.1 (deleted)", 4718592);
    assert(ghosts_view(v@) =~= os_ghosts_view(os@));
    v
}

/// The macOS disk map.
fn macos_blocks(os: &str) -> (v: Vec<DiskBlock>)
    requires
        os@ == "macos"@,
    ensures
        blocks_view(v@) == os_blocks_view(os@),
{
    proof {
        lemma_os_names_distinct();
    }
    let mut v: Vec<DiskBlock> = Vec::new();
    assert(blocks_view(v@) =~= Seq::empty());
    proof {
        reveal_strlit("#059669");
        lemma_hex_literal("#059669"@);
        reveal_strlit("#0891b2");
        lemma_hex_literal("#0891b2"@);
        reveal_strlit("#10b981");
        lemma_hex_literal("#10b981"@);
        reveal_strlit("#2563eb");
        lemma_hex_literal("#2563eb"@);
        reveal_strlit("#d97706");
        lemma_hex_literal("#d97706"@);
        reveal_strlit("#e11d48");
        lemma_hex_literal("#e11d48"@);
        reveal_strlit("#ea580c");
        lemma_hex_literal("#ea580c"@);
    }
    push_block(&mut v, os, "Xcode DerivedData", "~/Library/Developer/Xcode/DerivedData", 8599604, "Caches", "safe", "#059669");
    push_block(&mut v, os, "Docker Virtual Disk", "~/Library/Containers/com.docker.docker", 15205001, "Docker", "dangerous", "#0891b2");
    push_block(&mut v, os, "CoreSymbolication Cache", "~/Library/Caches/com.apple.coresymbolicationd", 5452594, "Caches", "safe", "#10b981");
    push_block(&mut v, os, "DiagnosticReports Logs", "~/Library/Logs/DiagnosticReports", 2936012, "Logs", "moderate", "#d97706");
    push_block(&mut v, os, "Safari Ghost Descriptor", "~/Library/Caches/Safari/Cache.db (deleted)", 3984589, "Ghost", "moderate", "#ea580c");
    push_block(&mut v, os, "Homebrew Downloads", "~/Library/Caches/Homebrew", 4090072, "System", "moderate", "#e11d48");
    push_block(&mut v, os, "User Trash Can", "~/.Trash", 2306866, "UserFiles", "safe", "#2563eb");
    assert(blocks_view(v@) =~= os_blocks_view(os@));
    v
}

/// The macOS presets.
fn macos_presets(os: &str) -> (v: Vec<RulePreset>)
    requires
        os@ == "macos"@,
    ensures
        presets_view(v@) == os_presets_view(os@),
{
    proof {
        lemma_os_names_distinct();
    }
    let mut v: Vec<RulePreset> = Vec::new();
    assert(presets_view(v@) =~= Seq::empty());
    push_preset(&mut v, os, "Xcode Derived Data Assets", "Intermediate compile logs and module index caches.", "app", "macos", "none", "~/Library/Developer/Xcode/DerivedData", 8599604, "safe");
    push_preset(&mut v, os, "Docker Overlay Layers", "Removes dangling layer builds from local container services.", "app", "macos", "none", "~/Library/Containers/com.docker.docker", 15205001, "dangerous");
    push_preset(&mut v, os, "CoreSymbolication Caches", "System diagnostic crash caches.", "os", "macos", "none", "~/Library/Caches/com.apple.coresymbolicationd", 5452594, "safe");
    push_preset(&mut v, os, "Apple Diagnostic Crashlogs", "Archived diagnostic telemetry tables.", "os", "macos", "none", "~/Library/Logs/DiagnosticReports", 2936012, "moderate");
    push_preset(&mut v, os, "Homebrew Cellar Cache", "Purges unlinked source tarballs and stale brew bottles.", "dist", "macos", "brew", "~/Library/Caches/Homebrew", 4090072, "moderate");
    push_preset(&mut v, os, "Mac User Trash Volume", "Empties the local user directory Trash collection.", "os", "macos", "none", "~/.Trash", 2306866, "safe");
    assert(presets_view(v@) =~= os_presets_view(os@));
    v
}

/// The macOS held-open files.
fn macos_ghosts(os: &str) -> (v: Vec<GhostFile>)
    requires
        os@ == "macos"@,
    ensures
        ghosts_view(v@) == os_ghosts_view(os@),
{
    proof {
        lemma_os_names_distinct();
    }
    let mut v: Vec<GhostFile> = Vec::new();
    assert(ghosts_view(v@) =~= Seq::empty());
    push_ghost(&mut v, "ghost_mac_0", 501, "Safari", "~/Library/Caches/Safari/Cache.db (deleted)", 3984589);
    assert(ghosts_view(v@) =~= os_ghosts_view(os@));
    v
}

/// The Windows disk map.
fn windows_blocks(os: &str) -> (v: Vec<DiskBlock>)
    requires
        os@ == "windows"@,
    ensures
        blocks_view(v@) == os_blocks_view(os@),
{
    proof {
        lemma_os_names_distinct();
    }
    let mut v: Vec<DiskBlock> = Vec::new();
    assert(blocks_view(v@) =~= Seq::empty());
    proof {
        reveal_strlit("#059669");
        lemma_hex_literal("#059669"@);
        reveal_strlit("#0891b2");
        lemma_hex_literal("#0891b2"@);
        reveal_strlit("#10b981");
        lemma_hex_literal("#10b981"@);
        reveal_strlit("#2563eb");
        lemma_hex_literal("#2563eb"@);
        reveal_strlit("#be123c");
        lemma_hex_literal("#be123c"@);
        reveal_strlit("#d97706");
        lemma_hex_literal("#d97706"@);
        reveal_strlit("#ea580c");
        lemma_hex_literal("#ea580c"@);
    }
    push_block(&mut v, os, "Docker windowsfilter", "C:\\ProgramData\\Docker\\windowsfilter", 11744007, "Docker", "dangerous", "#0891b2");
    push_block(&mut v, os, "Windows Update Cache", "C:\\Windows\\SoftwareDistribution\\Download", 4718592, "System", "dangerous", "#be123c");
    push_block(&mut v, os, "Windows Event Logs", "C:\\Windows\\System32\\Winevt\\Logs", 4090072, "Logs", "moderate", "#d97706");
    push_block(&mut v, os, "Spotify Local AppData", "C:\\Users\\AppData\\Local\\Spotify", 2936012, "Caches", "safe", "#059669");
    push_block(&mut v, os, "Svchost Ghost Handle", "C:\\Windows\\Temp\\srv_socket_log.tmp (deleted)", 5347894, "Ghost", "moderate", "#ea580c");
    push_block(&mut v, os, "User Recycler", "C:\\$Recycle.Bin", 3774874, "UserFiles", "safe", "#2563eb");
    push_block(&mut v, os, "Chrome Browser Cache", "C:\\Users\\AppData\\Local\\Google\\Chrome\\User Data\\Default\\Cache", 3355444, "Caches", "safe", "#10b981");
    assert(blocks_view(v@) =~= os_blocks_view(os@));
    v
}

/// The Windows presets.
fn windows_presets(os: &str) -> (v: Vec<RulePreset>)
    requires
        os@ == "windows"@,
    ensures
        presets_view(v@) == os_presets_view(os@),
{
    proof {
        lemma_os_names_distinct();
    }
    let mut v: Vec<RulePreset> = Vec::new();
    assert(presets_view(v@) =~= Seq::empty());
    push_preset(&mut v, os, "Docker Storage Filter", "Cleans cached storage layers and unused Docker network grids.", "app", "windows", "none", "C:\\ProgramData\\Docker\\windowsfilter", 11744007, "dangerous");
    push_preset(&mut v, os, "Windows Update Installer Cabinets", "Redundant update payloads.", "os", "windows", "none", "C:\\Windows\\SoftwareDistribution\\Download", 4718592, "dangerous");
    push_preset(&mut v, os, "Windows Application Event Logs", "Event viewer diagnostic trace logs.", "os", "windows", "none", "C:\\Windows\\System32\\Winevt\\Logs", 4090072, "moderate");
    push_preset(&mut v, os, "Spotify Album Caches", "Wipes cached metadata and offline catalog listings.", "app", "windows", "none", "C:\\Users\\AppData\\Local\\Spotify", 2936012, "safe");
    push_preset(&mut v, os, "Windows Recycler bin", "Deletes file structures locked inside the Recycle bin.", "os", "windows", "none", "C:\\$Recycle.Bin", 3774874, "safe");
    push_preset(&mut v, os, "Chrome Indexed caches", "Removes service worker caches and local browser memory indices.", "app", "windows", "none", "C:\\Users\\AppData\\Local\\Google\\Chrome\\User Data\\Default\\Cache", 3355444, "safe");
    assert(presets_view(v@) =~= os_presets_view(os@));
    v
}

/// The Windows held-open files.
fn windows_ghosts(os: &str) -> (v: Vec<GhostFile>)
    requires
        os@ == "windows"@,
    ensures
        ghosts_view(v@) == os_ghosts_view(os@),
{
    proof {
        lemma_os_names_distinct();
    }
    let mut v: Vec<GhostFile> = Vec::new();
    assert(ghosts_view(v@) =~= Seq::empty());
    push_ghost(&mut v, "ghost_win_0", 1420, "svchost.exe", "C:\\Windows\\Temp\\srv_socket_log.tmp (deleted)", 5347894);
    assert(ghosts_view(v@) =~= os_ghosts_view(os@));
    v
}

/// The disk map of a platform: each row becomes a block with id `{os}_{i}`
/// and the color its hex text names; an unknown platform has none.
pub fn get_os_blocks(os: &str) -> (v: Vec<DiskBlock>)
    ensures
        blocks_view(v@) == os_blocks_view(os@),
{
    if str_eq(os, "linux") {
        linux_blocks(os)
    } else if str_eq(os, "macos") {
        macos_blocks(os)
    } else if str_eq(os, "windows") {
        windows_blocks(os)
    } else {
        let v: Vec<DiskBlock> = Vec::new();
        assert(blocks_view(v@) =~= os_blocks_view(os@));
        v
    }
}

/// The cleaning presets of a platform: ids `{os}_{i}`, the size shown as
/// text, and selected exactly when rated safe; none for an unknown platform.
pub fn get_os_presets(os: &str) -> (v: Vec<RulePreset>)
    ensures
        presets_view(v@) == os_presets_view(os@),
{
    if str_eq(os, "linux") {
        linux_presets(os)
    } else if str_eq(os, "macos") {
        macos_presets(os)
    } else if str_eq(os, "windows") {
        windows_presets(os)
    } else {
        let v: Vec<RulePreset> = Vec::new();
        assert(presets_view(v@) =~= os_presets_view(os@));
        v
    }
}

/// The held-open deleted files of a platform, none released yet; none for
/// an unknown platform.
pub fn get_os_ghosts(os: &str) -> (v: Vec<GhostFile>)
    ensures
        ghosts_view(v@) == os_ghosts_view(os@),
{
    if str_eq(os, "linux") {
        linux_ghosts(os)
    } else if str_eq(os, "macos") {
        macos_ghosts(os)
    } else if str_eq(os, "windows") {
        windows_ghosts(os)
    } else {
        let v: Vec<GhostFile> = Vec::new();
        assert(ghosts_view(v@) =~= os_ghosts_view(os@));
        v
    }
}

/// The fleet the application starts with.
pub open spec fn initial_fleet_view() -> Seq<FleetNodeView> {
    seq![
        FleetNodeView {
            id: "fleet_node_0"@,
            name: "prod-nginx-lb-01"@,
            ip: "10.128.0.12"@,
            os: "linux"@,
            status: "online"@,
            disk_usage: 89,
            disk_total: 524288000,
            disk_free: 57671680,
            ghost_files_count: 2,
            last_scan: "12h ago"@,
        },
        FleetNodeView {
            id: "fleet_node_1"@,
            name: "k8s-docker-worker-4"@,
            ip: "10.128.1.15"@,
            os: "linux"@,
            status: "online"@,
            disk_usage: 76,
            disk_total: 262144000,
            disk_free: 62914560,
            ghost_files_count: 0,
            last_scan: "2h ago"@,
        },
        FleetNodeView {
            id: "fleet_node_2"@,
            name: "alice-workstation-imac"@,
            ip: "192.168.1.101"@,
            os: "macos"@,
            status: "online"@,
            disk_usage: 45,
            disk_total: 1048576000,
            disk_free: 576716800,
            ghost_files_count: 0,
            last_scan: "3 days ago"@,
        },
        FleetNodeView {
            id: "fleet_node_3"@,
            name: "legacy-win-db-08"@,
            ip: "10.142.12.8"@,
            os: "windows"@,
            status: "warning"@,
            disk_usage: 94,
            disk_total: 1048576000,
            disk_free: 62914560,
            ghost_files_count: 1,
            last_scan: "Never"@,
        },
    ]
}

/// The fleet the application starts with: four monitored machines.
pub fn get_initial_fleet_nodes() -> (v: Vec<FleetNode>)
    ensures
        nodes_view(v@) == initial_fleet_view(),
{
    let mut v: Vec<FleetNode> = Vec::new();
    v.push(FleetNode {
        id: String::from_str("fleet_node_0"),
        name: String::from_str("prod-nginx-lb-01"),
        ip: String::from_str("10.128.0.12"),
        os: String::from_str("linux"),
        status: String::from_str("online"),
        disk_usage: 89,
        disk_total: 524288000,
        disk_free: 57671680,
        ghost_files_count: 2,
        last_scan: String::from_str("12h ago"),
    });
    v.push(FleetNode {
        id: String::from_str("fleet_node_1"),
        name: String::from_str("k8s-docker-worker-4"),
        ip: String::from_str("10.128.1.15"),
        os: String::from_str("linux"),
        status: String::from_str("online"),
        disk_usage: 76,
        disk_total: 262144000,
        disk_free: 62914560,
        ghost_files_count: 0,
        last_scan: String::from_str("2h ago"),
    });
    v.push(FleetNode {
        id: String::from_str("fleet_node_2"),
        name: String::from_str("alice-workstation-imac"),
        ip: String::from_str("192.168.1.101"),
        os: String::from_str("macos"),
        status: String::from_str("online"),
        disk_usage: 45,
        disk_total: 1048576000,
        disk_free: 576716800,
        ghost_files_count: 0,
        last_scan: String::from_str("3 days ago"),
    });
    v.push(FleetNode {
        id: String::from_str("fleet_node_3"),
        name: String::from_str("legacy-win-db-08"),
        ip: String::from_str("10.142.12.8"),
        os: String::from_str("windows"),
        status: String::from_str("warning"),
        disk_usage: 94,
        disk_total: 1048576000,
        disk_free: 62914560,
        ghost_files_count: 1,
        last_scan: String::from_str("Never"),
    });
    assert(nodes_view(v@) =~= initial_fleet_view());
    v
}
/// A preset cleans a block: the block's path is the preset's target, and
/// both have the same size and the same safety rating.
pub open spec fn cleans(p: RulePresetView, b: DiskBlockView) -> bool {
    b.path == p.target && b.size == p.size_bytes && b.safety == p.safety
}

/// A platform's presets and disk map line up: one preset fewer than
/// blocks; every preset cleans some block; no two blocks share a path;
/// every block outside the `Ghost` category is cleaned by some preset; no
/// two presets share a target.
pub open spec fn tables_line_up(ps: Seq<RulePresetView>, bs: Seq<DiskBlockView>) -> bool {
    &&& ps.len() + 1 == bs.len()
    &&& forall|i: int| #![trigger ps[i]] 0 <= i < ps.len() ==> exists|j: int| 0 <= j < bs.len() && #[trigger] cleans(ps[i], bs[j])
    &&& forall|j1: int, j2: int|
        #![trigger bs[j1], bs[j2]]
        0 <= j1 < bs.len() && 0 <= j2 < bs.len() && bs[j1].path == bs[j2].path ==> j1 == j2
    &&& forall|j: int|
        #![trigger bs[j]]
        0 <= j < bs.len() && bs[j].category != "Ghost"@ ==> exists|i: int| 0 <= i < ps.len() && #[trigger] cleans(ps[i], bs[j])
    &&& forall|i1: int, i2: int|
        #![trigger ps[i1], ps[i2]]
        0 <= i1 < ps.len() && 0 <= i2 < ps.len() && ps[i1].target == ps[i2].target ==> i1 == i2
}

/// The linux tables line up.
proof fn lemma_line_up_linux()
    ensures
        tables_line_up(os_presets_view("linux"@), os_blocks_view("linux"@)),
{
    lemma_os_names_distinct();
    let os = "linux"@;
    let bs = os_blocks_view(os);
    let ps = os_presets_view(os);
    reveal_strlit("/var/lib/docker/overlay2");
    reveal_strlit("/var/log/nginx/access.log");
    reveal_strlit("~/.cache/chromium");
    reveal_strlit("~/.local/share/Spotify");
    reveal_strlit("/usr/src/kernels");
    reveal_strlit("/var/log/nginx/access.log.1 (deleted)");
    reveal_strlit("/var/cache/apt/archives");
    reveal_strlit("~/downloads/tmp");
    assert(bs.len() == 8 && ps.len() == 7);
    assert(bs[0] == block_of(os, 0, block_rows(os)[0]));
    assert(bs[0].path.len() == 24);
    assert(bs[1] == block_of(os, 1, block_rows(os)[1]));
    assert(bs[1].path.len() == 25);
    assert(bs[2] == block_of(os, 2, block_rows(os)[2]));
    assert(bs[2].path.len() == 17);
    assert(bs[3] == block_of(os, 3, block_rows(os)[3]));
    assert(bs[3].path.len() == 22);
    assert(bs[4] == block_of(os, 4, block_rows(os)[4]));
    assert(bs[4].path.len() == 16);
    assert(bs[5] == block_of(os, 5, block_rows(os)[5]));
    assert(bs[5].path.len() == 37);
    assert(bs[6] == block_of(os, 6, block_rows(os)[6]));
    assert(bs[6].path.len() == 23);
    assert(bs[7] == block_of(os, 7, block_rows(os)[7]));
    assert(bs[7].path.len() == 15);
    assert(ps[0] == preset_of(os, 0, preset_rows(os)[0]));
    assert(cleans(ps[0], bs[0]));
    assert(ps[0].target.len() == bs[0].path.len());
    assert(ps[1] == preset_of(os, 1, preset_rows(os)[1]));
    assert(cleans(ps[1], bs[1]));
    assert(ps[1].target.len() == bs[1].path.len());
    assert(ps[2] == preset_of(os, 2, preset_rows(os)[2]));
    assert(cleans(ps[2], bs[2]));
    assert(ps[2].target.len() == bs[2].path.len());
    assert(ps[3] == preset_of(os, 3, preset_rows(os)[3]));
    assert(cleans(ps[3], bs[3]));
    assert(ps[3].target.len() == bs[3].path.len());
    assert(ps[4] == preset_of(os, 4, preset_rows(os)[4]));
    assert(cleans(ps[4], bs[4]));
    assert(ps[4].target.len() == bs[4].path.len());
    assert(ps[5] == preset_of(os, 5, preset_rows(os)[5]));
    assert(cleans(ps[5], bs[6]));
    assert(ps[5].target.len() == bs[6].path.len());
    assert(ps[6] == preset_of(os, 6, preset_rows(os)[6]));
    assert(cleans(ps[6], bs[7]));
    assert(ps[6].target.len() == bs[7].path.len());
    assert(bs[5].category == "Ghost"@);
    assert forall|i: int| #![trigger ps[i]] 0 <= i < ps.len() implies exists|j: int| 0 <= j < bs.len() && #[trigger] cleans(ps[i], bs[j]) by {
        if i == 0 {
            assert(cleans(ps[0], bs[0]));
        } else if i == 1 {
            assert(cleans(ps[1], bs[1]));
        } else if i == 2 {
            assert(cleans(ps[2], bs[2]));
        } else if i == 3 {
            assert(cleans(ps[3], bs[3]));
        } else if i == 4 {
            assert(cleans(ps[4], bs[4]));
        } else if i == 5 {
            assert(cleans(ps[5], bs[6]));
        } else if i == 6 {
            assert(cleans(ps[6], bs[7]));
        }
    }
    assert forall|j: int| #![trigger bs[j]] 0 <= j < bs.len() && bs[j].category != "Ghost"@ implies exists|i: int| 0 <= i < ps.len() && #[trigger] cleans(ps[i], bs[j]) by {
        if j == 0 {
            assert(cleans(ps[0], bs[0]));
        } else if j == 1 {
            assert(cleans(ps[1], bs[1]));
        } else if j == 2 {
            assert(cleans(ps[2], bs[2]));
        } else if j == 3 {
            assert(cleans(ps[3], bs[3]));
        } else if j == 4 {
            assert(cleans(ps[4], bs[4]));
        } else if j == 6 {
            assert(cleans(ps[5], bs[6]));
        } else if j == 7 {
            assert(cleans(ps[6], bs[7]));
        }
    }
    assert forall|j1: int, j2: int| #![trigger bs[j1], bs[j2]] 0 <= j1 < bs.len() && 0 <= j2 < bs.len() && bs[j1].path == bs[j2].path implies j1 == j2 by {
        assert(j1 == 0 || j1 == 1 || j1 == 2 || j1 == 3 || j1 == 4 || j1 == 5 || j1 == 6 || j1 == 7);
        assert(j2 == 0 || j2 == 1 || j2 == 2 || j2 == 3 || j2 == 4 || j2 == 5 || j2 == 6 || j2 == 7);
        assert(bs[j1].path.len() == bs[j2].path.len());
    }
    assert forall|i1: int, i2: int| #![trigger ps[i1], ps[i2]] 0 <= i1 < ps.len() && 0 <= i2 < ps.len() && ps[i1].target == ps[i2].target implies i1 == i2 by {
        assert(i1 == 0 || i1 == 1 || i1 == 2 || i1 == 3 || i1 == 4 || i1 == 5 || i1 == 6);
        assert(i2 == 0 || i2 == 1 || i2 == 2 || i2 == 3 || i2 == 4 || i2 == 5 || i2 == 6);
        assert(ps[i1].target.len() == ps[i2].target.len());
    }
}

/// The macos tables line up.
proof fn lemma_line_up_macos()
    ensures
        tables_line_up(os_presets_view("macos"@), os_blocks_view("macos"@)),
{
    lemma_os_names_distinct();
    let os = "macos"@;
    let bs = os_blocks_view(os);
    let ps = os_presets_view(os);
    reveal_strlit("~/Library/Developer/Xcode/DerivedData");
    reveal_strlit("~/Library/Containers/com.docker.docker");
    reveal_strlit("~/Library/Caches/com.apple.coresymbolicationd");
    reveal_strlit("~/Library/Logs/DiagnosticReports");
    reveal_strlit("~/Library/Caches/Safari/Cache.db (deleted)");
    reveal_strlit("~/Library/Caches/Homebrew");
    reveal_strlit("~/.Trash");
    assert(bs.len() == 7 && ps.len() == 6);
    assert(bs[0] == block_of(os, 0, block_rows(os)[0]));
    assert(bs[0].path.len() == 37);
    assert(bs[1] == block_of(os, 1, block_rows(os)[1]));
    assert(bs[1].path.len() == 38);
    assert(bs[2] == block_of(os, 2, block_rows(os)[2]));
    assert(bs[2].path.len() == 45);
    assert(bs[3] == block_of(os, 3, block_rows(os)[3]));
    assert(bs[3].path.len() == 32);
    assert(bs[4] == block_of(os, 4, block_rows(os)[4]));
    assert(bs[4].path.len() == 42);
    assert(bs[5] == block_of(os, 5, block_rows(os)[5]));
    assert(bs[5].path.len() == 25);
    assert(bs[6] == block_of(os, 6, block_rows(os)[6]));
    assert(bs[6].path.len() == 8);
    assert(ps[0] == preset_of(os, 0, preset_rows(os)[0]));
    assert(cleans(ps[0], bs[0]));
    assert(ps[0].target.len() == bs[0].path.len());
    assert(ps[1] == preset_of(os, 1, preset_rows(os)[1]));
    assert(cleans(ps[1], bs[1]));
    assert(ps[1].target.len() == bs[1].path.len());
    assert(ps[2] == preset_of(os, 2, preset_rows(os)[2]));
    assert(cleans(ps[2], bs[2]));
    assert(ps[2].target.len() == bs[2].path.len());
    assert(ps[3] == preset_of(os, 3, preset_rows(os)[3]));
    assert(cleans(ps[3], bs[3]));
    assert(ps[3].target.len() == bs[3].path.len());
    assert(ps[4] == preset_of(os, 4, preset_rows(os)[4]));
    assert(cleans(ps[4], bs[5]));
    assert(ps[4].target.len() == bs[5].path.len());
    assert(ps[5] == preset_of(os, 5, preset_rows(os)[5]));
    assert(cleans(ps[5], bs[6]));
    assert(ps[5].target.len() == bs[6].path.len());
    assert(bs[4].category == "Ghost"@);
    assert forall|i: int| #![trigger ps[i]] 0 <= i < ps.len() implies exists|j: int| 0 <= j < bs.len() && #[trigger] cleans(ps[i], bs[j]) by {
        if i == 0 {
            assert(cleans(ps[0], bs[0]));
        } else if i == 1 {
            assert(cleans(ps[1], bs[1]));
        } else if i == 2 {
            assert(cleans(ps[2], bs[2]));
        } else if i == 3 {
            assert(cleans(ps[3], bs[3]));
        } else if i == 4 {
            assert(cleans(ps[4], bs[5]));
        } else if i == 5 {
            assert(cleans(ps[5], bs[6]));
        }
    }
    assert forall|j: int| #![trigger bs[j]] 0 <= j < bs.len() && bs[j].category != "Ghost"@ implies exists|i: int| 0 <= i < ps.len() && #[trigger] cleans(ps[i], bs[j]) by {
        if j == 0 {
            assert(cleans(ps[0], bs[0]));
        } else if j == 1 {
            assert(cleans(ps[1], bs[1]));
        } else if j == 2 {
            assert(cleans(ps[2], bs[2]));
        } else if j == 3 {
            assert(cleans(ps[3], bs[3]));
        } else if j == 5 {
            assert(cleans(ps[4], bs[5]));
        } else if j == 6 {
            assert(cleans(ps[5], bs[6]));
        }
    }
    assert forall|j1: int, j2: int| #![trigger bs[j1], bs[j2]] 0 <= j1 < bs.len() && 0 <= j2 < bs.len() && bs[j1].path == bs[j2].path implies j1 == j2 by {
        assert(j1 == 0 || j1 == 1 || j1 == 2 || j1 == 3 || j1 == 4 || j1 == 5 || j1 == 6);
        assert(j2 == 0 || j2 == 1 || j2 == 2 || j2 == 3 || j2 == 4 || j2 == 5 || j2 == 6);
        assert(bs[j1].path.len() == bs[j2].path.len());
    }
    assert forall|i1: int, i2: int| #![trigger ps[i1], ps[i2]] 0 <= i1 < ps.len() && 0 <= i2 < ps.len() && ps[i1].target == ps[i2].target implies i1 == i2 by {
        assert(i1 == 0 || i1 == 1 || i1 == 2 || i1 == 3 || i1 == 4 || i1 == 5);
        assert(i2 == 0 || i2 == 1 || i2 == 2 || i2 == 3 || i2 == 4 || i2 == 5);
        assert(ps[i1].target.len() == ps[i2].target.len());
    }
}

/// The windows tables line up.
proof fn lemma_line_up_windows()
    ensures
        tables_line_up(os_presets_view("windows"@), os_blocks_view("windows"@)),
{
    lemma_os_names_distinct();
    let os = "windows"@;
    let bs = os_blocks_view(os);
    let ps = os_presets_view(os);
    reveal_strlit("C:\\ProgramData\\Docker\\windowsfilter");
    reveal_strlit("C:\\Windows\\SoftwareDistribution\\Download");
    reveal_strlit("C:\\Windows\\System32\\Winevt\\Logs");
    reveal_strlit("C:\\Users\\AppData\\Local\\Spotify");
    reveal_strlit("C:\\Windows\\Temp\\srv_socket_log.tmp (deleted)");
    reveal_strlit("C:\\$Recycle.Bin");
    reveal_strlit("C:\\Users\\AppData\\Local\\Google\\Chrome\\User Data\\Default\\Cache");
    assert(bs.len() == 7 && ps.len() == 6);
    assert(bs[0] == block_of(os, 0, block_rows(os)[0]));
    assert(bs[0].path.len() == 35);
    assert(bs[1] == block_of(os, 1, block_rows(os)[1]));
    assert(bs[1].path.len() == 40);
    assert(bs[2] == block_of(os, 2, block_rows(os)[2]));
    assert(bs[2].path.len() == 31);
    assert(bs[3] == block_of(os, 3, block_rows(os)[3]));
    assert(bs[3].path.len() == 30);
    assert(bs[4] == block_of(os, 4, block_rows(os)[4]));
    assert(bs[4].path.len() == 44);
    assert(bs[5] == block_of(os, 5, block_rows(os)[5]));
    assert(bs[5].path.len() == 15);
    assert(bs[6] == block_of(os, 6, block_rows(os)[6]));
    assert(bs[6].path.len() == 60);
    assert(ps[0] == preset_of(os, 0, preset_rows(os)[0]));
    assert(cleans(ps[0], bs[0]));
    assert(ps[0].target.len() == bs[0].path.len());
    assert(ps[1] == preset_of(os, 1, preset_rows(os)[1]));
    assert(cleans(ps[1], bs[1]));
    assert(ps[1].target.len() == bs[1].path.len());
    assert(ps[2] == preset_of(os, 2, preset_rows(os)[2]));
    assert(cleans(ps[2], bs[2]));
    assert(ps[2].target.len() == bs[2].path.len());
    assert(ps[3] == preset_of(os, 3, preset_rows(os)[3]));
    assert(cleans(ps[3], bs[3]));
    assert(ps[3].target.len() == bs[3].path.len());
    assert(ps[4] == preset_of(os, 4, preset_rows(os)[4]));
    assert(cleans(ps[4], bs[5]));
    assert(ps[4].target.len() == bs[5].path.len());
    assert(ps[5] == preset_of(os, 5, preset_rows(os)[5]));
    assert(cleans(ps[5], bs[6]));
    assert(ps[5].target.len() == bs[6].path.len());
    assert(bs[4].category == "Ghost"@);
    assert forall|i: int| #![trigger ps[i]] 0 <= i < ps.len() implies exists|j: int| 0 <= j < bs.len() && #[trigger] cleans(ps[i], bs[j]) by {
        if i == 0 {
            assert(cleans(ps[0], bs[0]));
        } else if i == 1 {
            assert(cleans(ps[1], bs[1]));
        } else if i == 2 {
            assert(cleans(ps[2], bs[2]));
        } else if i == 3 {
            assert(cleans(ps[3], bs[3]));
        } else if i == 4 {
            assert(cleans(ps[4], bs[5]));
        } else if i == 5 {
            assert(cleans(ps[5], bs[6]));
        }
    }
    assert forall|j: int| #![trigger bs[j]] 0 <= j < bs.len() && bs[j].category != "Ghost"@ implies exists|i: int| 0 <= i < ps.len() && #[trigger] cleans(ps[i], bs[j]) by {
        if j == 0 {
            assert(cleans(ps[0], bs[0]));
        } else if j == 1 {
            assert(cleans(ps[1], bs[1]));
        } else if j == 2 {
            assert(cleans(ps[2], bs[2]));
        } else if j == 3 {
            assert(cleans(ps[3], bs[3]));
        } else if j == 5 {
            assert(cleans(ps[4], bs[5]));
        } else if j == 6 {
            assert(cleans(ps[5], bs[6]));
        }
    }
    assert forall|j1: int, j2: int| #![trigger bs[j1], bs[j2]] 0 <= j1 < bs.len() && 0 <= j2 < bs.len() && bs[j1].path == bs[j2].path implies j1 == j2 by {
        assert(j1 == 0 || j1 == 1 || j1 == 2 || j1 == 3 || j1 == 4 || j1 == 5 || j1 == 6);
        assert(j2 == 0 || j2 == 1 || j2 == 2 || j2 == 3 || j2 == 4 || j2 == 5 || j2 == 6);
        assert(bs[j1].path.len() == bs[j2].path.len());
    }
    assert forall|i1: int, i2: int| #![trigger ps[i1], ps[i2]] 0 <= i1 < ps.len() && 0 <= i2 < ps.len() && ps[i1].target == ps[i2].target implies i1 == i2 by {
        assert(i1 == 0 || i1 == 1 || i1 == 2 || i1 == 3 || i1 == 4 || i1 == 5);
        assert(i2 == 0 || i2 == 1 || i2 == 2 || i2 == 3 || i2 == 4 || i2 == 5);
        assert(ps[i1].target.len() == ps[i2].target.len());
    }
}

/// On each platform the presets and the disk map line up: there is one
/// preset fewer than blocks; every preset's target is the path of exactly
/// one block, of the same size and safety rating; and every block outside
/// the `Ghost` category is the target of exactly one preset.
pub proof fn lemma_presets_match_blocks(os: Seq<char>)
    requires
        os == "linux"@ || os == "macos"@ || os == "windows"@,
    ensures
        tables_line_up(os_presets_view(os), os_blocks_view(os)),
{
    if os == "linux"@ {
        lemma_line_up_linux();
    } else if os == "macos"@ {
        lemma_line_up_macos();
    } else {
        lemma_line_up_windows();
    }
}

} // verus!
