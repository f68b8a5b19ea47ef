//! The records the application shows and edits, with their views as plain
//! sequences of characters.

use vstd::prelude::*;
use crate::color::Rgb;

verus! {

/// One rectangle of the disk map: a directory or file that can be purged.
#[derive(Clone, Debug)]
pub struct DiskBlock {
    pub id: String,
    pub name: String,
    pub path: String,
    pub size: i32,
    pub category: String,
    pub safety: String,
    pub color: Rgb,
}

pub struct DiskBlockView {
    pub id: Seq<char>,
    pub name: Seq<char>,
    pub path: Seq<char>,
    pub size: i32,
    pub category: Seq<char>,
    pub safety: Seq<char>,
    pub color: Rgb,
}

impl View for DiskBlock {
    type V = DiskBlockView;

    open spec fn view(&self) -> DiskBlockView {
        DiskBlockView {
            id: self.id@,
            name: self.name@,
            path: self.path@,
            size: self.size,
            category: self.category@,
            safety: self.safety@,
            color: self.color,
        }
    }
}

/// A cleaning rule with its target and whether it is selected.
#[derive(Clone, Debug)]
pub struct RulePreset {
    pub id: String,
    pub name: String,
    pub description: String,
    pub category: String,
    pub os: String,
    pub dist: String,
    pub target: String,
    pub size_bytes: i32,
    pub size_text: String,
    pub safety: String,
    pub checked: bool,
}

pub struct RulePresetView {
    pub id: Seq<char>,
    pub name: Seq<char>,
    pub description: Seq<char>,
    pub category: Seq<char>,
    pub os: Seq<char>,
    pub dist: Seq<char>,
    pub target: Seq<char>,
    pub size_bytes: i32,
    pub size_text: Seq<char>,
    pub safety: Seq<char>,
    pub checked: bool,
}

impl View for RulePreset {
    type V = RulePresetView;

    open spec fn view(&self) -> RulePresetView {
        RulePresetView {
            id: self.id@,
            name: self.name@,
            description: self.description@,
            category: self.category@,
            os: self.os@,
            dist: self.dist@,
            target: self.target@,
            size_bytes: self.size_bytes,
            size_text: self.size_text@,
            safety: self.safety@,
            checked: self.checked,
        }
    }
}

/// A deleted file still held open by a process.
#[derive(Clone, Debug)]
pub struct GhostFile {
    pub id: String,
    pub pid: i32,
    pub process: String,
    pub path: String,
    pub size: i32,
    pub released: bool,
}

pub struct GhostFileView {
    pub id: Seq<char>,
    pub pid: i32,
    pub process: Seq<char>,
    pub path: Seq<char>,
    pub size: i32,
    pub released: bool,
}

impl View for GhostFile {
    type V = GhostFileView;

    open spec fn view(&self) -> GhostFileView {
        GhostFileView {
            id: self.id@,
            pid: self.pid,
            process: self.process@,
            path: self.path@,
            size: self.size,
            released: self.released,
        }
    }
}

/// A remote machine of the managed fleet.
#[derive(Clone, Debug)]
pub struct FleetNode {
    pub id: String,
    pub name: String,
    pub ip: String,
    pub os: String,
    pub status: String,
    pub disk_usage: i32,
    pub disk_total: i32,
    pub disk_free: i32,
    pub ghost_files_count: i32,
    pub last_scan: String,
}

pub struct FleetNodeView {
    pub id: Seq<char>,
    pub name: Seq<char>,
    pub ip: Seq<char>,
    pub os: Seq<char>,
    pub status: Seq<char>,
    pub disk_usage: i32,
    pub disk_total: i32,
    pub disk_free: i32,
    pub ghost_files_count: i32,
    pub last_scan: Seq<char>,
}

impl View for FleetNode {
    type V = FleetNodeView;

    open spec fn view(&self) -> FleetNodeView {
        FleetNodeView {
            id: self.id@,
            name: self.name@,
            ip: self.ip@,
            os: self.os@,
            status: self.status@,
            disk_usage: self.disk_usage,
            disk_total: self.disk_total,
            disk_free: self.disk_free,
            ghost_files_count: self.ghost_files_count,
            last_scan: self.last_scan@,
        }
    }
}

/// One line of the activity console.
#[derive(Clone, Debug)]
pub struct LogEntry {
    pub level: String,
    pub text: String,
}

impl View for LogEntry {
    type V = (Seq<char>, Seq<char>);

    open spec fn view(&self) -> (Seq<char>, Seq<char>) {
        (self.level@, self.text@)
    }
}

/// One message of the advisor chat.
#[derive(Clone, Debug)]
pub struct ChatMessage {
    pub role: String,
    pub text: String,
}

impl View for ChatMessage {
    type V = (Seq<char>, Seq<char>);

    open spec fn view(&self) -> (Seq<char>, Seq<char>) {
        (self.role@, self.text@)
    }
}

/// The views of a list of blocks.
pub open spec fn blocks_view(s: Seq<DiskBlock>) -> Seq<DiskBlockView> {
    s.map_values(|b: DiskBlock| b@)
}

/// The views of a list of presets.
pub open spec fn presets_view(s: Seq<RulePreset>) -> Seq<RulePresetView> {
    s.map_values(|p: RulePreset| p@)
}

/// The views of a list of held-open files.
pub open spec fn ghosts_view(s: Seq<GhostFile>) -> Seq<GhostFileView> {
    s.map_values(|g: GhostFile| g@)
}

/// The views of a list of fleet machines.
pub open spec fn nodes_view(s: Seq<FleetNode>) -> Seq<FleetNodeView> {
    s.map_values(|n: FleetNode| n@)
}

/// The views of a list of console lines.
pub open spec fn logs_view(s: Seq<LogEntry>) -> Seq<(Seq<char>, Seq<char>)> {
    s.map_values(|l: LogEntry| l@)
}

/// The views of a list of chat messages.
pub open spec fn chat_view(s: Seq<ChatMessage>) -> Seq<(Seq<char>, Seq<char>)> {
    s.map_values(|m: ChatMessage| m@)
}

/// The sizes of the blocks, in order.
pub open spec fn view_sizes(bs: Seq<DiskBlockView>) -> Seq<i32> {
    bs.map_values(|b: DiskBlockView| b.size)
}

/// A short list of records, each of a modest size.
pub open spec fn small_sizes(s: Seq<i32>) -> bool {
    &&& s.len() <= 128
    &&& forall|i: int| 0 <= i < s.len() ==> 0 <= #[trigger] s[i] < 0x100_0000
}

/// The sizes of the presets, in order.
pub open spec fn preset_sizes(ps: Seq<RulePresetView>) -> Seq<i32> {
    ps.map_values(|p: RulePresetView| p.size_bytes)
}

/// The sizes of the held-open files, in order.
pub open spec fn ghost_sizes(gs: Seq<GhostFileView>) -> Seq<i32> {
    gs.map_values(|g: GhostFileView| g.size)
}

impl DiskBlock {
    /// A copy with the same view.
    pub fn duplicate(&self) -> (r: DiskBlock)
        ensures
            r@ == self@,
    {
        DiskBlock {
            id: self.id.clone(),
            name: self.name.clone(),
            path: self.path.clone(),
            size: self.size,
            category: self.category.clone(),
            safety: self.safety.clone(),
            color: self.color,
        }
    }
}

} // verus!
