//! The decisions and texts around the operating system: which links may be
//! opened, how the app gets its elevation at start-up, the scheduled task's
//! XML file, the PowerShell command that relaunches the app elevated, and
//! where the Riot client and the League lockfile are looked for.

use vstd::prelude::*;
use crate::crypto::message;
use crate::session::opt_view;
use crate::text::{chars_of, push_char, starts_with_chars};

verus! {

/// The addresses that may be opened in the browser start with one of these.
pub open spec fn allowed_url_prefixes() -> Seq<Seq<char>> {
    seq![
        "https://www.op.gg/"@,
        "https://u.gg/"@,
        "https://tracker.gg/"@,
        "https://github.com/paralysisx/MANACC/releases"@,
        "https://objects.githubusercontent.com/"@,
        "https://release-assets.githubusercontent.com/"@,
    ]
}

/// `url` starts with one of the allowed prefixes.
pub open spec fn url_allowed(url: Seq<char>) -> bool {
    exists|i: int| 0 <= i < allowed_url_prefixes().len() && url.len() >= (#[trigger] allowed_url_prefixes()[i]).len()
        && url.subrange(0, allowed_url_prefixes()[i].len() as int) == allowed_url_prefixes()[i]
}

/// Whether a link may be opened: `Ok` for the allowed sites, else
/// `URL not allowed`.
pub fn check_external_url(url: &str) -> (r: Result<(), String>)
    ensures
        r is Ok <==> url_allowed(url@),
        r matches Err(e) ==> e@ == "URL not allowed"@,
{
    let prefixes: [&str; 6] = [
        "https://www.op.gg/",
        "https://u.gg/",
        "https://tracker.gg/",
        "https://github.com/paralysisx/MANACC/releases",
        "https://objects.githubusercontent.com/",
        "https://release-assets.githubusercontent.com/",
    ];
    assert(prefixes@.map_values(|p: &str| p@) =~= allowed_url_prefixes());
    let u = chars_of(url);
    let mut i: usize = 0;
    while i < 6
        invariant
            i <= 6,
            prefixes@.map_values(|p: &str| p@) == allowed_url_prefixes(),
            u@ == url@,
            forall|j: int| 0 <= j < i ==> !(url@.len() >= (#[trigger] allowed_url_prefixes()[j]).len()
                && url@.subrange(0, allowed_url_prefixes()[j].len() as int) == allowed_url_prefixes()[j]),
        decreases 6 - i,
    {
        let p = chars_of(prefixes[i]);
        assert(p@ == allowed_url_prefixes()[i as int]);
        if starts_with_chars(u.as_slice(), p.as_slice()) {
            return Ok(());
        }
        i = i + 1;
    }
    Err(message("URL not allowed"))
}

/// What the app does when it starts.
#[derive(Debug, PartialEq, Eq, Structural, Clone, Copy)]
pub enum StartupAction {
    /// Elevated, and the elevation task is missing: create it, then run.
    CreateTaskThenRun,
    /// Elevated, and the task exists: run.
    Run,
    /// Not elevated, and the task exists: start the task (which runs the app
    /// elevated); exit if it started, else run without elevation.
    RunTask,
    /// Not elevated and no task: relaunch elevated (the user is asked once)
    /// and exit.
    Elevate,
}

/// The start-up decision, from whether the process is elevated and whether
/// the scheduled task exists.
pub fn startup_action(elevated: bool, task_exists: bool) -> (r: StartupAction)
    ensures
        r == (if elevated {
            if task_exists { StartupAction::Run } else { StartupAction::CreateTaskThenRun }
        } else if task_exists {
            StartupAction::RunTask
        } else {
            StartupAction::Elevate
        }),
{
    if elevated {
        if task_exists { StartupAction::Run } else { StartupAction::CreateTaskThenRun }
    } else if task_exists {
        StartupAction::RunTask
    } else {
        StartupAction::Elevate
    }
}

/// A character of XML text, escaped: `&`, `<`, `>`, `"` and `'` become
/// entities.
pub open spec fn xml_escape_char(c: char) -> Seq<char> {
    if c == '&' {
        "&amp;"@
    } else if c == '<' {
        "&lt;"@
    } else if c == '>' {
        "&gt;"@
    } else if c == '"' {
        "&quot;"@
    } else if c == '\'' {
        "&apos;"@
    } else {
        seq![c]
    }
}

/// Text escaped for XML, character by character.
pub open spec fn xml_escaped(s: Seq<char>) -> Seq<char>
    decreases s.len(),
{
    if s.len() == 0 {
        seq![]
    } else {
        xml_escaped(s.drop_last()) + xml_escape_char(s.last())
    }
}

fn push_str(out: &mut String, s: &str)
    ensures
        final(out)@ == old(out)@ + s@,
{
    let cs = chars_of(s);
    let mut i: usize = 0;
    while i < cs.len()
        invariant
            i <= cs@.len(),
            cs@ == s@,
            out@ == old(out)@ + cs@.subrange(0, i as int),
        decreases cs@.len() - i,
    {
        push_char(out, cs[i]);
        assert(cs@.subrange(0, i as int).push(cs@[i as int]) =~= cs@.subrange(0, i + 1));
        i = i + 1;
    }
    assert(cs@.subrange(0, cs@.len() as int) =~= cs@);
}

/// Appends `s` escaped for XML.
fn push_xml_escaped(out: &mut String, s: &str)
    ensures
        final(out)@ == old(out)@ + xml_escaped(s@),
{
    let cs = chars_of(s);
    let mut i: usize = 0;
    while i < cs.len()
        invariant
            i <= cs@.len(),
            cs@ == s@,
            out@ == old(out)@ + xml_escaped(cs@.subrange(0, i as int)),
        decreases cs@.len() - i,
    {
        let c = cs[i];
        let ghost before = out@;
        if c == '&' {
            push_str(out, "&amp;");
        } else if c == '<' {
            push_str(out, "&lt;");
        } else if c == '>' {
            push_str(out, "&gt;");
        } else if c == '"' {
            push_str(out, "&quot;");
        } else if c == '\'' {
            push_str(out, "&apos;");
        } else {
            push_char(out, c);
            assert(out@ =~= before + seq![c]);
        }
        assert(cs@.subrange(0, i + 1).drop_last() =~= cs@.subrange(0, i as int));
        assert(out@ =~= old(out)@ + xml_escaped(cs@.subrange(0, i + 1)));
        i = i + 1;
    }
    assert(cs@.subrange(0, cs@.len() as int) =~= cs@);
}

/// The scheduled task's XML up to the command.
pub const TASK_XML_HEAD: &'static str = "<?xml version=\"1.0\" encoding=\"UTF-16\"?><Task version=\"1.2\" xmlns=\"http://schemas.microsoft.com/windows/2004/02/mit/task\"><RegistrationInfo><Description>VaultX auto-elevation task</Description></RegistrationInfo><Triggers/><Principals><Principal id=\"Author\"><LogonType>InteractiveToken</LogonType><RunLevel>HighestAvailable</RunLevel></Principal></Principals><Settings><MultipleInstancesPolicy>IgnoreNew</MultipleInstancesPolicy><DisallowStartIfOnBatteries>false</DisallowStartIfOnBatteries><StopIfGoingOnBatteries>false</StopIfGoingOnBatteries><ExecutionTimeLimit>PT0S</ExecutionTimeLimit><Priority>7</Priority></Settings><Actions Context=\"Author\"><Exec><Command>";

/// The scheduled task's XML after the command.
pub const TASK_XML_TAIL: &'static str = "</Command></Exec></Actions></Task>";

/// The scheduled task that runs `exe` on demand, with the highest
/// privileges, as the interactive user.
pub open spec fn task_xml_text(exe: Seq<char>) -> Seq<char> {
    TASK_XML_HEAD@ + xml_escaped(exe) + TASK_XML_TAIL@
}

/// The XML of the elevation task for the executable at `exe`.
pub fn task_xml(exe: &str) -> (r: String)
    ensures
        r@ == task_xml_text(exe@),
{
    let mut out = String::new();
    push_str(&mut out, TASK_XML_HEAD);
    push_xml_escaped(&mut out, exe);
    push_str(&mut out, TASK_XML_TAIL);
    out
}

/// The UTF-16 code units of one character: itself below `0x10000`, else a
/// surrogate pair.
pub open spec fn utf16_of_char(c: char) -> Seq<u16> {
    let v = (c as u32) as int;
    if v < 0x10000 {
        seq![v as u16]
    } else {
        seq![(0xD800 + (v - 0x10000) / 0x400) as u16, (0xDC00 + (v - 0x10000) % 0x400) as u16]
    }
}

/// The UTF-16 encoding of a text.
pub open spec fn utf16_units(s: Seq<char>) -> Seq<u16>
    decreases s.len(),
{
    if s.len() == 0 {
        seq![]
    } else {
        utf16_units(s.drop_last()) + utf16_of_char(s.last())
    }
}

/// Code units as little-endian bytes.
pub open spec fn le_bytes(units: Seq<u16>) -> Seq<u8>
    decreases units.len(),
{
    if units.len() == 0 {
        seq![]
    } else {
        le_bytes(units.drop_last()) + seq![(units.last() % 256) as u8, (units.last() / 256) as u8]
    }
}

/// A text as a UTF-16 LE file: the byte order mark `FF FE`, then the code
/// units.
pub open spec fn utf16_le_file(s: Seq<char>) -> Seq<u8> {
    seq![0xFFu8, 0xFEu8] + le_bytes(utf16_units(s))
}

fn push_unit(out: &mut Vec<u8>, u: u16)
    ensures
        final(out)@ == old(out)@ + seq![(u % 256) as u8, (u / 256) as u8],
{
    out.push((u % 256) as u8);
    out.push((u / 256) as u8);
}

/// `text` as the bytes of a UTF-16 LE file with its byte order mark (the form
/// `schtasks /XML` reads).
pub fn utf16_le_bytes(text: &str) -> (r: Vec<u8>)
    ensures
        r@ == utf16_le_file(text@),
{
    let cs = chars_of(text);
    let mut out: Vec<u8> = Vec::new();
    out.push(0xFF);
    out.push(0xFE);
    let ghost units: Seq<u16> = seq![];
    let mut i: usize = 0;
    while i < cs.len()
        invariant
            i <= cs@.len(),
            cs@ == text@,
            out@ == seq![0xFFu8, 0xFEu8] + le_bytes(utf16_units(cs@.subrange(0, i as int))),
        decreases cs@.len() - i,
    {
        let c = cs[i];
        proof {
            vstd::utf8::char_is_scalar(c);
        }
        let v: u32 = c as u32;
        let ghost prev = utf16_units(cs@.subrange(0, i as int));
        assert(cs@.subrange(0, i + 1).drop_last() =~= cs@.subrange(0, i as int));
        assert(cs@.subrange(0, i + 1).last() == c);
        if v < 0x10000 {
            let u: u16 = v as u16;
            push_unit(&mut out, u);
            assert(utf16_of_char(c) =~= seq![u]);
            assert(prev + seq![u] =~= (prev + seq![u]).drop_last().push(u));
            assert((prev + seq![u]).drop_last() =~= prev);
            assert(le_bytes(prev + seq![u]) =~= le_bytes(prev) + seq![(u % 256) as u8, (u / 256) as u8]);
        } else {
            let w: u32 = v - 0x10000;
            let hi: u16 = (0xD800 + w / 0x400) as u16;
            let lo: u16 = (0xDC00 + w % 0x400) as u16;
            push_unit(&mut out, hi);
            push_unit(&mut out, lo);
            assert(utf16_of_char(c) =~= seq![hi, lo]);
            let ghost both = prev + seq![hi, lo];
            assert(both.drop_last() =~= prev + seq![hi]);
            assert((prev + seq![hi]).drop_last() =~= prev);
            assert(le_bytes(prev + seq![hi]) =~= le_bytes(prev) + seq![(hi % 256) as u8, (hi / 256) as u8]);
            assert(le_bytes(both) =~= le_bytes(prev + seq![hi]) + seq![(lo % 256) as u8, (lo / 256) as u8]);
        }
        i = i + 1;
    }
    assert(cs@.subrange(0, cs@.len() as int) =~= cs@);
    out
}

/// The bytes of the task file for the executable at `exe`: its XML as UTF-16
/// LE with a byte order mark.
pub fn task_file_bytes(exe: &str) -> (r: Vec<u8>)
    ensures
        r@ == utf16_le_file(task_xml_text(exe@)),
{
    let xml = task_xml(exe);
    utf16_le_bytes(xml.as_str())
}

/// Characters that would end or open markup in XML text.
pub open spec fn xml_special(c: char) -> bool {
    c == '<' || c == '>' || c == '"' || c == '\''
}

/// Escaped text holds none of `<`, `>`, `"` and `'`: a path cannot break out
/// of the task's `Command` element.
pub proof fn lemma_xml_escaped_safe(s: Seq<char>)
    ensures
        forall|i: int| 0 <= i < xml_escaped(s).len() ==> !xml_special(#[trigger] xml_escaped(s)[i]),
    decreases s.len(),
{
    if s.len() > 0 {
        lemma_xml_escaped_safe(s.drop_last());
        reveal_strlit("&amp;");
        reveal_strlit("&lt;");
        reveal_strlit("&gt;");
        reveal_strlit("&quot;");
        reveal_strlit("&apos;");
        let prev = xml_escaped(s.drop_last());
        let e = xml_escape_char(s.last());
        assert forall|i: int| 0 <= i < e.len() implies !xml_special(#[trigger] e[i]) by {}
        assert forall|i: int| 0 <= i < xml_escaped(s).len() implies !xml_special(#[trigger] xml_escaped(s)[i]) by {
            if i < prev.len() {
                assert(xml_escaped(s)[i] == prev[i]);
            } else {
                assert(xml_escaped(s)[i] == e[i - prev.len()]);
            }
        }
    }
}

proof fn lemma_le_bytes_at(units: Seq<u16>)
    ensures
        le_bytes(units).len() == 2 * units.len(),
        forall|i: int| 0 <= i < units.len() ==> {
            &&& le_bytes(units)[2 * i] == (#[trigger] units[i]) % 256
            &&& le_bytes(units)[2 * i + 1] == units[i] / 256
        },
    decreases units.len(),
{
    if units.len() > 0 {
        let prev = units.drop_last();
        lemma_le_bytes_at(prev);
        assert forall|i: int| 0 <= i < units.len() implies {
            &&& le_bytes(units)[2 * i] == (#[trigger] units[i]) % 256
            &&& le_bytes(units)[2 * i + 1] == units[i] / 256
        } by {
            if i < prev.len() {
                assert(units[i] == prev[i]);
            }
        }
    }
}

/// Bytes written as UTF-16 LE read back as the same code units.
pub proof fn lemma_le_roundtrip(units: Seq<u16>)
    ensures
        crate::lobby::le_units(le_bytes(units)) == units,
{
    lemma_le_bytes_at(units);
    let b = le_bytes(units);
    assert forall|i: int| 0 <= i < units.len() implies #[trigger] crate::lobby::le_units(b)[i] == units[i] by {
        assert(b[2 * i] == units[i] % 256);
        assert(b[2 * i + 1] == units[i] / 256);
        assert(units[i] % 256 + 256 * (units[i] / 256) == units[i]);
    }
    assert(crate::lobby::le_units(b) =~= units);
}

/// Text escaped for a single-quoted PowerShell string: `'` doubled.
pub open spec fn ps_quoted(s: Seq<char>) -> Seq<char>
    decreases s.len(),
{
    if s.len() == 0 {
        seq![]
    } else {
        ps_quoted(s.drop_last()) + (if s.last() == '\'' { "''"@ } else { seq![s.last()] })
    }
}

/// The PowerShell command that starts `exe` elevated.
pub open spec fn elevation_command_text(exe: Seq<char>) -> Seq<char> {
    "Start-Process '"@ + ps_quoted(exe) + "' -Verb RunAs"@
}

/// The PowerShell command that relaunches the executable at `exe` elevated.
pub fn elevation_command(exe: &str) -> (r: String)
    ensures
        r@ == elevation_command_text(exe@),
{
    let mut out = String::new();
    push_str(&mut out, "Start-Process '");
    let cs = chars_of(exe);
    let ghost head = out@;
    let mut i: usize = 0;
    while i < cs.len()
        invariant
            i <= cs@.len(),
            cs@ == exe@,
            out@ == head + ps_quoted(cs@.subrange(0, i as int)),
        decreases cs@.len() - i,
    {
        let c = cs[i];
        let ghost before = out@;
        if c == '\'' {
            push_str(&mut out, "''");
        } else {
            push_char(&mut out, c);
            assert(out@ =~= before + seq![c]);
        }
        assert(cs@.subrange(0, i + 1).drop_last() =~= cs@.subrange(0, i as int));
        assert(out@ =~= head + ps_quoted(cs@.subrange(0, i + 1)));
        i = i + 1;
    }
    assert(cs@.subrange(0, cs@.len() as int) =~= cs@);
    push_str(&mut out, "' -Verb RunAs");
    out
}

/// The places the Riot client is looked for after the registry's.
pub open spec fn riot_client_fallbacks() -> Seq<Seq<char>> {
    seq![
        "C:\\Riot Games\\Riot Client\\RiotClientServices.exe"@,
        "C:\\Program Files\\Riot Games\\Riot Client\\RiotClientServices.exe"@,
        "C:\\Program Files (x86)\\Riot Games\\Riot Client\\RiotClientServices.exe"@,
    ]
}

/// The places the League lockfile is looked for after the registry's.
pub open spec fn lockfile_fallbacks() -> Seq<Seq<char>> {
    seq![
        "C:\\Riot Games\\League of Legends\\lockfile"@,
        "C:\\Program Files\\Riot Games\\League of Legends\\lockfile"@,
        "C:\\Program Files (x86)\\Riot Games\\League of Legends\\lockfile"@,
    ]
}

/// The places to look, in order: the one the registry gives, if any, then
/// the fallbacks.
pub open spec fn candidates(registry: Option<Seq<char>>, fallbacks: Seq<Seq<char>>) -> Seq<Seq<char>> {
    match registry {
        Some(p) => seq![p] + fallbacks,
        None => fallbacks,
    }
}

/// The view of a list of paths.
pub open spec fn paths_view(v: Seq<String>) -> Seq<Seq<char>> {
    v.map_values(|p: String| p@)
}

fn candidate_list(registry: Option<String>, fallbacks: [&str; 3]) -> (r: Vec<String>)
    ensures
        paths_view(r@) == candidates(opt_view(registry), fallbacks@.map_values(|p: &str| p@)),
{
    let mut out: Vec<String> = Vec::new();
    let ghost first: Seq<Seq<char>> = match opt_view(registry) {
        Some(p) => seq![p],
        None => seq![],
    };
    match registry {
        Some(p) => out.push(p),
        None => {},
    }
    assert(paths_view(out@) =~= first);
    let mut i: usize = 0;
    while i < 3
        invariant
            i <= 3,
            paths_view(out@) == first + fallbacks@.map_values(|p: &str| p@).take(i as int),
        decreases 3 - i,
    {
        let f: &str = fallbacks[i];
        assert(fallbacks@.map_values(|p: &str| p@)[i as int] == f@);
        let ghost before = out@;
        let fs = f.to_string();
        assert(fs@ == f@);
        out.push(fs);
        assert(paths_view(out@) =~= paths_view(before).push(f@));
        assert(fallbacks@.map_values(|p: &str| p@).take(i + 1) =~= fallbacks@.map_values(|p: &str| p@).take(i as int).push(f@));
        assert(paths_view(out@) =~= first + fallbacks@.map_values(|p: &str| p@).take(i + 1));
        i = i + 1;
    }
    assert(fallbacks@.map_values(|p: &str| p@).take(3) =~= fallbacks@.map_values(|p: &str| p@));
    assert(first + fallbacks@.map_values(|p: &str| p@) =~= candidates(opt_view(registry), fallbacks@.map_values(|p: &str| p@)));
    out
}

/// Where to look for the Riot client: the registry's install location
/// (already joined with `RiotClientServices.exe`), then the usual places.
pub fn riot_client_candidates(registry: Option<String>) -> (r: Vec<String>)
    ensures
        paths_view(r@) == candidates(opt_view(registry), riot_client_fallbacks()),
{
    let fallbacks: [&str; 3] = [
        "C:\\Riot Games\\Riot Client\\RiotClientServices.exe",
        "C:\\Program Files\\Riot Games\\Riot Client\\RiotClientServices.exe",
        "C:\\Program Files (x86)\\Riot Games\\Riot Client\\RiotClientServices.exe",
    ];
    assert(fallbacks@.map_values(|p: &str| p@) =~= riot_client_fallbacks());
    candidate_list(registry, fallbacks)
}

/// Where to look for the League lockfile: the registry's location (already
/// joined with `lockfile`), then the usual places.
pub fn lockfile_candidates(registry: Option<String>) -> (r: Vec<String>)
    ensures
        paths_view(r@) == candidates(opt_view(registry), lockfile_fallbacks()),
{
    let fallbacks: [&str; 3] = [
        "C:\\Riot Games\\League of Legends\\lockfile",
        "C:\\Program Files\\Riot Games\\League of Legends\\lockfile",
        "C:\\Program Files (x86)\\Riot Games\\League of Legends\\lockfile",
    ];
    assert(fallbacks@.map_values(|p: &str| p@) =~= lockfile_fallbacks());
    candidate_list(registry, fallbacks)
}

/// The index of the first place that exists.
pub open spec fn first_existing_index(exists: Seq<bool>, i: int) -> Option<int>
    decreases exists.len() - i,
{
    if i < 0 || i >= exists.len() {
        None
    } else if exists[i] {
        Some(i)
    } else {
        first_existing_index(exists, i + 1)
    }
}

/// The first of `paths` that exists (`exists[i]` tells whether `paths[i]`
/// does).
pub open spec fn first_existing(paths: Seq<Seq<char>>, exists: Seq<bool>) -> Option<Seq<char>> {
    match first_existing_index(exists, 0) {
        Some(i) => Some(paths[i]),
        None => None,
    }
}

fn pick_existing(paths: Vec<String>, exists: &Vec<bool>) -> (r: Option<String>)
    requires
        paths@.len() == exists@.len(),
    ensures
        opt_view(r) == first_existing(paths_view(paths@), exists@),
{
    let mut i: usize = 0;
    while i < exists.len()
        invariant
            i <= exists@.len(),
            paths@.len() == exists@.len(),
            first_existing_index(exists@, 0) == first_existing_index(exists@, i as int),
        decreases exists@.len() - i,
    {
        if exists[i] {
            return Some(paths[i].clone());
        }
        i = i + 1;
    }
    None
}

/// The Riot client's executable: the first of the candidate places that
/// exists.
pub fn find_riot_client_path(candidates: Vec<String>, exists: &Vec<bool>) -> (r: Option<String>)
    requires
        candidates@.len() == exists@.len(),
    ensures
        opt_view(r) == first_existing(paths_view(candidates@), exists@),
{
    pick_existing(candidates, exists)
}

/// The League lockfile: the first of the candidate places that exists.
pub fn find_lockfile_path(candidates: Vec<String>, exists: &Vec<bool>) -> (r: Option<String>)
    requires
        candidates@.len() == exists@.len(),
    ensures
        opt_view(r) == first_existing(paths_view(candidates@), exists@),
{
    pick_existing(candidates, exists)
}

/// The account a launch is for (nothing of it is needed to start the
/// client).
#[derive(Debug)]
pub struct LaunchAccount {}

/// How the Riot client is started: the executable and its arguments.
#[derive(Debug)]
pub struct LaunchCommand {
    pub program: String,
    pub args: Vec<String>,
}

/// The arguments that open League of Legends on the live patch line.
pub open spec fn launch_args() -> Seq<Seq<char>> {
    seq!["--launch-product=league_of_legends"@, "--launch-patchline=live"@]
}

/// The command that starts the Riot client found at `riot_exe`, or the
/// error shown when it was not found.
pub fn launch_with_account(account: &LaunchAccount, riot_exe: Option<String>) -> (r: Result<LaunchCommand, String>)
    ensures
        r is Ok <==> riot_exe is Some,
        r matches Ok(c) ==> riot_exe matches Some(p) && c.program@ == p@ && paths_view(c.args@) == launch_args(),
        r matches Err(e) ==> e@ == "Riot Client not found. Make sure League of Legends is installed."@,
{
    match riot_exe {
        Some(program) => {
            let mut args: Vec<String> = Vec::new();
            args.push("--launch-product=league_of_legends".to_string());
            args.push("--launch-patchline=live".to_string());
            assert(paths_view(args@) =~= launch_args());
            Ok(LaunchCommand { program, args })
        },
        None => Err(message("Riot Client not found. Make sure League of Legends is installed.")),
    }
}

} // verus!
