//! The saved window geometry and its two persisted forms: one line of text
//! for the file store, and five named text values for the registry store.

use vstd::prelude::*;
use crate::text::{
    chars_of, dec_int, dec_string, lemma_dec_int_chars, lemma_parse_dec_i32, lemma_split_on_append,
    lemma_split_on_none, lemma_trim_keeps, parse_i32_chars, parse_i32_spec, push_dec_i64,
    split_chars, split_on, starts_with_chars, trim, trim_chars,
};

verus! {

/// Position, size and maximized flag of the main window.
#[derive(Clone, Copy, Debug, PartialEq, Eq, Structural)]
pub struct WindowState {
    pub x: i32,
    pub y: i32,
    pub width: i32,
    pub height: i32,
    pub maximized: bool,
}

/// Where the window state is kept: a text file, or the registry.
#[derive(Clone, Copy, Debug, PartialEq, Eq, Structural)]
pub enum StorageKind {
    File,
    Registry,
}

/// Picks the store: the registry on Windows, a file elsewhere.
pub fn create_storage(target_is_windows: bool) -> (kind: StorageKind)
    ensures
        kind == (if target_is_windows { StorageKind::Registry } else { StorageKind::File }),
{
    if target_is_windows {
        StorageKind::Registry
    } else {
        StorageKind::File
    }
}

/// The home directory the file store lives under: `HOME` when it is set,
/// `/tmp` otherwise.
pub open spec fn home_or_tmp(home: Option<Seq<char>>) -> Seq<char> {
    match home {
        Some(h) => h,
        None => "/tmp"@,
    }
}

/// A relative path joined onto `base` as a Unix path is: a `/` goes
/// between them unless `base` is empty or already ends with one.
pub open spec fn join_relative(base: Seq<char>, rel: Seq<char>) -> Seq<char> {
    if base.len() == 0 || base.last() == '/' {
        base + rel
    } else {
        base + seq!['/'] + rel
    }
}

/// Where the file store keeps the window state:
/// `.config/oxidust/window_state` under the home directory.
pub open spec fn window_state_path_of(home: Option<Seq<char>>) -> Seq<char> {
    join_relative(home_or_tmp(home), ".config/oxidust/window_state"@)
}

/// The path of the window-state file, given the value of `HOME` if set.
pub fn window_state_path(home: Option<&str>) -> (p: String)
    ensures
        p@ == window_state_path_of(
            match home {
                Some(h) => Some(h@),
                None => None,
            },
        ),
{
    let base: &str = match home {
        Some(h) => h,
        None => "/tmp",
    };
    let cs = chars_of(base);
    let mut p = String::from_str(base);
    proof {
        reveal_strlit("/");
    }
    if cs.len() > 0 && cs[cs.len() - 1] != '/' {
        p.append("/");
    }
    p.append(".config/oxidust/window_state");
    p
}

/// How `bool` is displayed.
pub open spec fn bool_text(b: bool) -> Seq<char> {
    if b { "true"@ } else { "false"@ }
}

/// The file form: the five fields separated by single spaces.
pub open spec fn file_text(ws: WindowState) -> Seq<char> {
    dec_int(ws.x as int) + seq![' '] + dec_int(ws.y as int) + seq![' '] + dec_int(ws.width as int)
        + seq![' '] + dec_int(ws.height as int) + seq![' '] + bool_text(ws.maximized)
}

/// Reading the file form back: trimmed, split at each space, exactly five
/// pieces, four integers and a flag that is set only by the word `true`.
pub open spec fn parse_file_text(content: Seq<char>) -> Option<WindowState> {
    let parts = split_on(trim(content), ' ');
    if parts.len() != 5 {
        None
    } else {
        parse_fields(parts[0], parts[1], parts[2], parts[3], parts[4])
    }
}

/// Five text values to a window state: four integers and the flag.
pub open spec fn parse_fields(x: Seq<char>, y: Seq<char>, w: Seq<char>, h: Seq<char>, m: Seq<char>) -> Option<WindowState> {
    match (parse_i32_spec(x), parse_i32_spec(y), parse_i32_spec(w), parse_i32_spec(h)) {
        (Some(x), Some(y), Some(w), Some(h)) => Some(
            WindowState { x, y, width: w, height: h, maximized: m == "true"@ },
        ),
        _ => None,
    }
}

/// The registry form: one text value per field.
pub struct RegistryValues {
    pub x: String,
    pub y: String,
    pub width: String,
    pub height: String,
    pub maximized: String,
}

/// How `bool` is displayed.
fn bool_str(b: bool) -> (s: &'static str)
    ensures
        s@ == bool_text(b),
{
    if b { "true" } else { "false" }
}

/// The line the file store writes.
pub fn encode_file_text(ws: &WindowState) -> (s: String)
    ensures
        s@ == file_text(*ws),
{
    let mut s = String::new();
    push_dec_i64(&mut s, ws.x as i64);
    s.append(" ");
    push_dec_i64(&mut s, ws.y as i64);
    s.append(" ");
    push_dec_i64(&mut s, ws.width as i64);
    s.append(" ");
    push_dec_i64(&mut s, ws.height as i64);
    s.append(" ");
    s.append(bool_str(ws.maximized));
    proof {
        reveal_strlit(" ");
    }
    s
}

/// Five text values to a window state.
fn parse_fields_exec(x: &Vec<char>, y: &Vec<char>, w: &Vec<char>, h: &Vec<char>, m: &Vec<char>) -> (r: Option<WindowState>)
    ensures
        r == parse_fields(x@, y@, w@, h@, m@),
{
    let px = parse_i32_chars(x);
    let py = parse_i32_chars(y);
    let pw = parse_i32_chars(w);
    let ph = parse_i32_chars(h);
    let t = chars_of("true");
    let max = m.len() == t.len() && starts_with_chars(m, &t);
    proof {
        if max {
            assert(m@ =~= t@);
        }
        if m@ == t@ {
            assert(m@.take(t@.len() as int) =~= m@);
        }
    }
    match (px, py, pw, ph) {
        (Some(x), Some(y), Some(w), Some(h)) => Some(
            WindowState { x, y, width: w, height: h, maximized: max },
        ),
        _ => None,
    }
}

/// Reads the line the file store holds.
pub fn decode_file_text(content: &str) -> (r: Option<WindowState>)
    ensures
        r == parse_file_text(content@),
{
    let cs = chars_of(content);
    let t = trim_chars(&cs);
    let parts = split_chars(&t, ' ');
    if parts.len() != 5 {
        return None;
    }
    parse_fields_exec(&parts[0], &parts[1], &parts[2], &parts[3], &parts[4])
}

/// The values the registry store writes.
pub fn encode_registry_values(ws: &WindowState) -> (v: RegistryValues)
    ensures
        v.x@ == dec_int(ws.x as int),
        v.y@ == dec_int(ws.y as int),
        v.width@ == dec_int(ws.width as int),
        v.height@ == dec_int(ws.height as int),
        v.maximized@ == bool_text(ws.maximized),
{
    RegistryValues {
        x: dec_string(ws.x as i64),
        y: dec_string(ws.y as i64),
        width: dec_string(ws.width as i64),
        height: dec_string(ws.height as i64),
        maximized: String::from_str(bool_str(ws.maximized)),
    }
}

/// Reads the values the registry store holds.
pub fn decode_registry_values(v: &RegistryValues) -> (r: Option<WindowState>)
    ensures
        r == parse_fields(v.x@, v.y@, v.width@, v.height@, v.maximized@),
{
    parse_fields_exec(
        &chars_of(v.x.as_str()),
        &chars_of(v.y.as_str()),
        &chars_of(v.width.as_str()),
        &chars_of(v.height.as_str()),
        &chars_of(v.maximized.as_str()),
    )
}

/// What the file store writes, it reads back unchanged.
pub proof fn lemma_file_round_trip(ws: WindowState)
    ensures
        parse_file_text(file_text(ws)) == Some(ws),
{
    reveal_strlit("true");
    reveal_strlit("false");
    let a = dec_int(ws.x as int);
    let b = dec_int(ws.y as int);
    let c = dec_int(ws.width as int);
    let d = dec_int(ws.height as int);
    let e = bool_text(ws.maximized);
    lemma_dec_int_chars(ws.x as int);
    lemma_dec_int_chars(ws.y as int);
    lemma_dec_int_chars(ws.width as int);
    lemma_dec_int_chars(ws.height as int);
    lemma_parse_dec_i32(ws.x);
    lemma_parse_dec_i32(ws.y);
    lemma_parse_dec_i32(ws.width);
    lemma_parse_dec_i32(ws.height);
    let s = file_text(ws);
    assert(s[0] == a[0]);
    assert(s.last() == e.last());
    lemma_trim_keeps(s);
    lemma_split_on_none(a, ' ');
    lemma_split_on_append(a, ' ', b);
    lemma_split_on_append(a + seq![' '] + b, ' ', c);
    lemma_split_on_append(a + seq![' '] + b + seq![' '] + c, ' ', d);
    lemma_split_on_append(a + seq![' '] + b + seq![' '] + c + seq![' '] + d, ' ', e);
    let parts = split_on(s, ' ');
    assert(parts =~= seq![a, b, c, d, e]);
    assert("false"@.len() == 5);
    assert((e == "true"@) == ws.maximized);
}

/// What the registry store writes, it reads back unchanged.
pub proof fn lemma_registry_round_trip(ws: WindowState)
    ensures
        parse_fields(
            dec_int(ws.x as int),
            dec_int(ws.y as int),
            dec_int(ws.width as int),
            dec_int(ws.height as int),
            bool_text(ws.maximized),
        ) == Some(ws),
{
    reveal_strlit("true");
    reveal_strlit("false");
    lemma_parse_dec_i32(ws.x);
    lemma_parse_dec_i32(ws.y);
    lemma_parse_dec_i32(ws.width);
    lemma_parse_dec_i32(ws.height);
    assert("false"@.len() == 5);
    assert((bool_text(ws.maximized) == "true"@) == ws.maximized);
}

} // verus!
