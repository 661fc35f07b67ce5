//! Putting the hook into the game's folder: where the game is, whether the hook
//! there is the one that ships, and what may be done about it.

use crate::text::{
    chars_of, lines, lines_of, lower, lowered, put, same_text, split, split_char, starts,
    starts_with, string_of, text_of_units, texts, trim, trimmed, utf16_text,
};
use vstd::prelude::*;
use vstd::string::StringExecFns;

verus! {

/// The game's folder under a Steam library.
pub fn game_folder() -> (r: &'static str)
    ensures
        r@ == "MARVEL vs. CAPCOM Fighting Collection"@,
{
    "MARVEL vs. CAPCOM Fighting Collection"
}

/// The game's program.
pub fn game_exe() -> (r: &'static str)
    ensures
        r@ == "MarvelVsCapcomFightingCollection.exe"@,
{
    "MarvelVsCapcomFightingCollection.exe"
}

/// The hook's file.
pub fn hook_dll() -> (r: &'static str)
    ensures
        r@ == "DINPUT8.dll"@,
{
    "DINPUT8.dll"
}

/// A text in which every two backslashes stand for one.
pub open spec fn unescaped(s: Seq<char>) -> Seq<char>
    decreases s.len(),
{
    if s.len() == 0 {
        s
    } else if s.len() > 1 && s[0] == '\\' && s[1] == '\\' {
        seq!['\\'] + unescaped(s.skip(2))
    } else {
        seq![s[0]] + unescaped(s.skip(1))
    }
}

/// The line of a library list names a path.
pub open spec fn is_path_line(line: Seq<char>) -> bool {
    starts(trim(line), "\"path\""@)
}

/// The path in such a line: what stands in the last pair of quotes.
pub open spec fn path_in(line: Seq<char>) -> Seq<char> {
    let parts = split(trim(line), '"');
    unescaped(parts[parts.len() - 2])
}

/// The paths in some lines of a library list.
pub open spec fn paths_in(lines: Seq<Seq<char>>) -> Seq<Seq<char>>
    decreases lines.len(),
{
    if lines.len() == 0 {
        Seq::empty()
    } else if is_path_line(lines.last()) {
        paths_in(lines.drop_last()).push(path_in(lines.last()))
    } else {
        paths_in(lines.drop_last())
    }
}

/// The texts of some strings.
pub open spec fn strings(v: Seq<String>) -> Seq<Seq<char>> {
    Seq::new(v.len(), |i: int| v[i]@)
}

fn unescape(v: &Vec<char>) -> (r: Vec<char>)
    ensures
        r@ == unescaped(v@),
{
    let n: usize = v.len();
    let mut r: Vec<char> = Vec::new();
    let mut i: usize = 0;
    assert(v@.skip(0) =~= v@);
    assert(r@ + unescaped(v@) =~= unescaped(v@));
    while i < n
        invariant
            i <= n == v@.len(),
            r@ + unescaped(v@.skip(i as int)) == unescaped(v@),
        decreases n - i,
    {
        let ghost rest = v@.skip(i as int);
        let ghost before = r@;
        if v[i] == '\\' && n - i > 1 && v[i + 1] == '\\' {
            r.push('\\');
            i += 2;
            proof {
                assert(rest[1] == v@[i - 1]);
                assert(rest.skip(2) =~= v@.skip(i as int));
                assert(r@ + unescaped(v@.skip(i as int)) =~= before + unescaped(rest));
            }
        } else {
            r.push(v[i]);
            i += 1;
            proof {
                assert(rest.skip(1) =~= v@.skip(i as int));
                assert(r@ + unescaped(v@.skip(i as int)) =~= before + unescaped(rest));
            }
        }
    }
    assert(r@ + unescaped(v@.skip(i as int)) =~= r@);
    r
}

/// A text that begins with a quoted word parts in three at least.
proof fn lemma_quoted(s: Seq<char>)
    requires
        starts(s, "\"path\""@),
    ensures
        split(s, '"').len() >= 3,
{
    reveal_strlit("\"path\"");
    let p = s.subrange(0, 6);
    assert(p == "\"path\""@);
    assert(s[0] == p[0] && s[5] == p[5]);
    lemma_two_separators(s, 5);
}

proof fn lemma_two_separators(s: Seq<char>, k: int)
    requires
        0 < k < s.len(),
        s[0] == '"',
        s[k] == '"',
    ensures
        split(s, '"').len() >= 3,
{
    let t = s.subrange(1, s.len() as int);
    lemma_one_separator(t, k - 1);
    assert(crate::text::just('"')(s[0]));
    assert(split(s, '"') == seq![Seq::<char>::empty()] + split(t, '"'));
}

proof fn lemma_one_separator(s: Seq<char>, k: int)
    requires
        0 <= k < s.len(),
        s[k] == '"',
    ensures
        split(s, '"').len() >= 2,
    decreases k,
{
    let t = s.subrange(1, s.len() as int);
    crate::text::lemma_split_nonempty(t, crate::text::just('"'));
    if s[0] == '"' {
        assert(split(s, '"') == seq![Seq::<char>::empty()] + split(t, '"'));
    } else {
        lemma_one_separator(t, k - 1);
        let r = split(t, '"');
        assert(split(s, '"') == seq![seq![s[0]] + r[0]] + r.subrange(1, r.len() as int));
    }
}

/// The libraries that a Steam library list names.
pub fn library_paths(list: &str) -> (r: Vec<String>)
    ensures
        strings(r@) == paths_in(lines_of(list@)),
{
    let ls: Vec<Vec<char>> = lines(&chars_of(list));
    let ghost all = texts(ls@);
    let mut r: Vec<String> = Vec::new();
    let mut i: usize = 0;
    assert(strings(r@) =~= paths_in(all.take(0)));
    while i < ls.len()
        invariant
            i <= ls@.len(),
            all == texts(ls@),
            strings(r@) == paths_in(all.take(i as int)),
        decreases ls@.len() - i,
    {
        let t: Vec<char> = trimmed(&ls[i]);
        let ghost before = r@;
        if starts_with(&t, "\"path\"") {
            proof {
                lemma_quoted(t@);
            }
            let parts: Vec<Vec<char>> = split_char(&t, '"');
            assert(texts(parts@).len() == parts@.len());
            let n: usize = parts.len();
            let path: String = string_of(&unescape(&parts[n - 2]));
            assert(texts(parts@)[n - 2] == parts@[n - 2]@);
            r.push(path);
            assert(strings(r@) =~= strings(before).push(path@));
        }
        i += 1;
        assert(all.take(i as int).drop_last() =~= all.take(i - 1));
        assert(all.take(i as int).last() == ls@[i - 1]@);
    }
    assert(all.take(i as int) =~= all);
    r
}

/// Where Steam is found without the registry's help, most likely place first.
pub fn default_steam_paths() -> (r: (&'static str, &'static str))
    ensures
        r.0@ == "C:\\Program Files (x86)\\Steam"@,
        r.1@ == "C:\\Program Files\\Steam"@,
{
    ("C:\\Program Files (x86)\\Steam", "C:\\Program Files\\Steam")
}

/// Steam's folder: where the registry says, if that is there, else the first of the
/// default places that is there. `exist` says which of the two are.
pub fn steam_path(said: Option<String>, said_exists: bool, exist: (bool, bool)) -> (r: Option<
    String,
>)
    ensures
        said is Some && said_exists ==> r == said,
        !(said is Some && said_exists) ==> {
            &&& r is Some <==> exist.0 || exist.1
            &&& r matches Some(p) ==> p@ == (if exist.0 {
                "C:\\Program Files (x86)\\Steam"@
            } else {
                "C:\\Program Files\\Steam"@
            })
        },
{
    let (first, second) = default_steam_paths();
    match said {
        Some(p) => if said_exists {
            return Some(p);
        },
        None => {},
    }
    if exist.0 {
        Some(String::from_str(first))
    } else if exist.1 {
        Some(String::from_str(second))
    } else {
        None
    }
}

/// The texts of some lists, one after the other.
pub open spec fn all_paths(lists: Seq<String>) -> Seq<Seq<char>>
    decreases lists.len(),
{
    if lists.len() == 0 {
        Seq::empty()
    } else {
        all_paths(lists.drop_last()) + paths_in(lines_of(lists.last()@))
    }
}

/// The libraries to search: Steam's own folder, then those of its lists.
pub fn steam_libraries(steam: &str, lists: &Vec<String>) -> (r: Vec<String>)
    ensures
        strings(r@) == seq![steam@] + all_paths(lists@),
{
    let mut r: Vec<String> = Vec::new();
    r.push(String::from_str(steam));
    let mut i: usize = 0;
    assert(strings(r@) =~= seq![steam@] + all_paths(lists@.take(0)));
    while i < lists.len()
        invariant
            i <= lists@.len(),
            strings(r@) == seq![steam@] + all_paths(lists@.take(i as int)),
        decreases lists@.len() - i,
    {
        let mut more: Vec<String> = library_paths(lists[i].as_str());
        let ghost before = r@;
        let ghost added = more@;
        r.append(&mut more);
        assert(r@ =~= before + added);
        assert(strings(r@) =~= strings(before) + strings(added));
        i += 1;
        assert(lists@.take(i as int).drop_last() =~= lists@.take(i - 1));
        assert(strings(r@) =~= seq![steam@] + all_paths(lists@.take(i as int)));
    }
    assert(lists@.take(i as int) =~= lists@);
    r
}

/// A folder that may be the game's: what stands in it.
#[derive(Clone, Copy, Debug, PartialEq, Eq, Structural)]
pub struct GameFolder {
    /// The game's program.
    pub exe: bool,
    /// A hook.
    pub dll: bool,
}

/// Whether the game is in a folder.
pub fn has_game(f: &GameFolder) -> (r: bool)
    ensures
        r == f.exe,
{
    f.exe
}

/// A hook is in a folder.
pub open spec fn hook_there(f: GameFolder) -> bool {
    f.dll
}

/// Whether a hook is in a folder.
pub fn is_installed(f: &GameFolder) -> (r: bool)
    ensures
        r == hook_there(*f),
{
    f.dll
}

/// A folder once its hook is removed. Where there is none, nothing changes.
pub open spec fn after_removal(f: GameFolder) -> GameFolder {
    GameFolder { dll: false, ..f }
}

/// A folder once a hook is written into it.
pub open spec fn after_install(f: GameFolder) -> GameFolder {
    GameFolder { dll: true, ..f }
}

/// Remove the hook from what is known of a folder. Returns whether there is a file to
/// remove.
pub fn uninstall(f: &mut GameFolder) -> (r: bool)
    ensures
        r == hook_there(*old(f)),
        *final(f) == after_removal(*old(f)),
{
    let there = f.dll;
    f.dll = false;
    there
}

/// The first of some folders that has the game.
pub fn find_game_dir(folders: &Vec<GameFolder>) -> (r: Option<usize>)
    ensures
        r is None <==> forall|i: int| 0 <= i < folders@.len() ==> !(#[trigger] folders@[i]).exe,
        r matches Some(k) ==> k < folders@.len() && folders@[k as int].exe && forall|i: int|
            0 <= i < k ==> !(#[trigger] folders@[i]).exe,
{
    let mut i: usize = 0;
    while i < folders.len()
        invariant
            i <= folders@.len(),
            forall|j: int| 0 <= j < i ==> !(#[trigger] folders@[j]).exe,
        decreases folders@.len() - i,
    {
        if folders[i].exe {
            return Some(i);
        }
        i += 1;
    }
    None
}

/// What is known of a file without reading it.
#[derive(Clone, Copy, Debug, PartialEq, Eq, Structural)]
pub struct FileFacts {
    pub len: u64,
    /// When it was last changed, where that can be told.
    pub modified: Option<u64>,
}

/// Whether the hook in the game's folder is the one that ships.
#[derive(Clone, Copy, Debug, PartialEq, Eq, Structural)]
pub enum Freshness {
    Current,
    Stale,
    /// Only the contents can tell.
    Compare,
}

/// What the facts of two files tell.
pub open spec fn freshness(src: Option<FileFacts>, dst: Option<FileFacts>) -> Freshness {
    match (src, dst) {
        (Some(a), Some(b)) => if a.len != b.len {
            Freshness::Stale
        } else if a.modified is Some && a.modified == b.modified {
            Freshness::Current
        } else {
            Freshness::Compare
        },
        _ => Freshness::Stale,
    }
}

/// Whether the hook in the game's folder is the one that ships. That there is one is
/// not enough. Where a file is missing it is not; where the lengths differ it is not;
/// where length and time agree it is.
pub fn is_current(src: Option<FileFacts>, dst: Option<FileFacts>) -> (r: Freshness)
    ensures
        r == freshness(src, dst),
{
    match (src, dst) {
        (Some(a), Some(b)) => {
            if a.len != b.len {
                return Freshness::Stale;
            }
            match (a.modified, b.modified) {
                (Some(x), Some(y)) => if x == y {
                    Freshness::Current
                } else {
                    Freshness::Compare
                },
                _ => Freshness::Compare,
            }
        },
        _ => Freshness::Stale,
    }
}

/// Whether two files hold the same bytes.
pub fn same_bytes(a: &[u8], b: &[u8]) -> (r: bool)
    ensures
        r == (a@ == b@),
{
    let n: usize = a.len();
    let m: usize = b.len();
    assert(n == a@.len() && m == b@.len());
    if n != m {
        return false;
    }
    let mut i: usize = 0;
    while i < n
        invariant
            i <= n,
            n == a@.len(),
            n == b@.len(),
            forall|j: int| 0 <= j < i ==> a@[j] == b@[j],
        decreases n - i,
    {
        if a[i] != b[i] {
            return false;
        }
        i += 1;
    }
    assert(a@ =~= b@);
    true
}

/// The name in the buffer of a process entry: what stands before the first zero;
/// nothing where there is none.
pub open spec fn process_name(entry: Seq<u16>) -> Seq<char> {
    if entry.contains(0) {
        utf16_text(crate::hid::before_zero(entry))
    } else {
        utf16_text(Seq::empty())
    }
}

/// A process entry is the game's, in any case of letters.
pub open spec fn is_game(entry: Seq<u16>) -> bool {
    lower(process_name(entry)) == lower("MarvelVsCapcomFightingCollection.exe"@)
}

proof fn lemma_before_zero(u: Seq<u16>, k: int)
    requires
        0 <= k <= u.len(),
        k < u.len() ==> u[k] == 0,
        forall|i: int| 0 <= i < k ==> u[i] != 0,
    ensures
        crate::hid::before_zero(u) == u.take(k),
    decreases k,
{
    if k == 0 {
        assert(u.take(0) =~= Seq::empty());
    } else {
        lemma_before_zero(u.skip(1), k - 1);
        assert(seq![u[0]] + u.skip(1).take(k - 1) =~= u.take(k));
    }
}

/// Whether the game runs, given the names of all processes as the system hands them
/// out. A loaded hook cannot be replaced.
pub fn game_running(entries: &Vec<Vec<u16>>) -> (r: bool)
    ensures
        r == exists|i: int| 0 <= i < entries@.len() && is_game((#[trigger] entries@[i])@),
{
    let want: Vec<char> = lowered(&chars_of(game_exe()));
    let mut i: usize = 0;
    while i < entries.len()
        invariant
            i <= entries@.len(),
            want@ == lower("MarvelVsCapcomFightingCollection.exe"@),
            forall|j: int| 0 <= j < i ==> !is_game((#[trigger] entries@[j])@),
        decreases entries@.len() - i,
    {
        let e: &Vec<u16> = &entries[i];
        let n: usize = e.len();
        let mut kept: Vec<u16> = Vec::new();
        let mut k: usize = 0;
        while k < n && e[k] != 0
            invariant
                k <= n == e@.len(),
                kept@ == e@.take(k as int),
                forall|j: int| 0 <= j < k ==> e@[j] != 0,
            decreases n - k,
        {
            kept.push(e[k]);
            k += 1;
            assert(kept@ =~= e@.take(k as int));
        }
        proof {
            lemma_before_zero(e@, k as int);
            if k < n {
                assert(e@.contains(0)) by {
                    assert(e@[k as int] == 0);
                }
            } else {
                assert(!e@.contains(0));
            }
        }
        let name: String = if k < n {
            text_of_units(kept.as_slice())
        } else {
            let none: Vec<u16> = Vec::new();
            assert(none@ =~= Seq::empty());
            text_of_units(none.as_slice())
        };
        if same_text(&lowered(&chars_of(name.as_str())), &want) {
            assert(is_game(entries@[i as int]@));
            return true;
        }
        i += 1;
    }
    false
}

/// What to do so that the right hook is in place.
#[derive(Clone, Copy, Debug, PartialEq, Eq, Structural)]
pub enum Ensure {
    /// It is.
    Nothing,
    /// The game runs, and its hook cannot be replaced.
    Busy,
    /// Write it.
    Write,
    /// Keep a copy of what is there, then write it.
    KeepAndWrite,
}

/// What to do, by what is there.
pub open spec fn ensuring(current: bool, running: bool, dll: bool, kept: bool) -> Ensure {
    if current {
        Ensure::Nothing
    } else if running {
        Ensure::Busy
    } else if dll && !kept {
        Ensure::KeepAndWrite
    } else {
        Ensure::Write
    }
}

/// What to do so that the right hook is in place: nothing where it is; nothing yet
/// while the game runs; else write it, and keep what was there before the first time.
pub fn ensure_installed(current: bool, running: bool, dll: bool, kept: bool) -> (r: Ensure)
    ensures
        r == ensuring(current, running, dll, kept),
{
    if current {
        Ensure::Nothing
    } else if running {
        Ensure::Busy
    } else if dll && !kept {
        Ensure::KeepAndWrite
    } else {
        Ensure::Write
    }
}

/// What to say while the game runs.
pub fn busy_text() -> (r: &'static str)
    ensures
        r@ == "Marvel is running - close it so NOBD can update itself"@,
{
    "Marvel is running - close it so NOBD can update itself"
}

/// Why the hook cannot be written: there is no game in the folder, or no hook beside
/// the program.
pub open spec fn install_error(exe: bool, source: bool) -> Option<Seq<char>> {
    if !exe {
        Some("MarvelVsCapcomFightingCollection.exe"@ + " not found in that folder."@)
    } else if !source {
        Some("DINPUT8.dll"@ + " not found next to nobd.exe."@)
    } else {
        None
    }
}

/// Write the hook into what is known of a folder, where it can be written.
pub fn install(f: &mut GameFolder, source: bool) -> (r: Result<(), String>)
    ensures
        r is Ok <==> install_error(old(f).exe, source) is None,
        r matches Err(e) ==> Some(e@) == install_error(old(f).exe, source),
        r is Ok ==> *final(f) == after_install(*old(f)),
        r is Err ==> *final(f) == *old(f),
{
    if !f.exe {
        let mut out: Vec<char> = chars_of(game_exe());
        put(&mut out, " not found in that folder.");
        return Err(string_of(&out));
    }
    if !source {
        let mut out: Vec<char> = chars_of(hook_dll());
        put(&mut out, " not found next to nobd.exe.");
        return Err(string_of(&out));
    }
    f.dll = true;
    Ok(())
}

/// A removed hook is seen as gone, and one that is then written is seen as there; the
/// game stays where it was.
pub proof fn law_the_hook_is_seen_as_it_is(f: GameFolder)
    ensures
        !hook_there(after_removal(f)),
        hook_there(after_install(after_removal(f))),
        after_removal(f).exe == f.exe,
        after_install(f).exe == f.exe,
{
}

/// The script that makes a shortcut at `lnk` to the program at `exe`, which starts in
/// the folder `dir`.
pub open spec fn shortcut_script(lnk: Seq<char>, exe: Seq<char>, dir: Seq<char>) -> Seq<char> {
    "$s=(New-Object -COM WScript.Shell).CreateShortcut('"@ + lnk + "'); $s.TargetPath='"@ + exe
        + "'; $s.WorkingDirectory='"@ + dir + "'; $s.Save()"@
}

/// The script that makes a shortcut at `lnk` to the program at `exe`, which starts in
/// the folder `dir`.
pub fn create_desktop_shortcut(lnk: &str, exe: &str, dir: &str) -> (r: String)
    ensures
        r@ == shortcut_script(lnk@, exe@, dir@),
{
    let mut out: Vec<char> = chars_of("$s=(New-Object -COM WScript.Shell).CreateShortcut('");
    put(&mut out, lnk);
    put(&mut out, "'); $s.TargetPath='");
    put(&mut out, exe);
    put(&mut out, "'; $s.WorkingDirectory='");
    put(&mut out, dir);
    put(&mut out, "'; $s.Save()");
    string_of(&out)
}

/// A missing hook is never current, nor is any where the one that ships is missing.
pub proof fn law_missing_hook_is_never_current(src: Option<FileFacts>)
    ensures
        freshness(src, None) == Freshness::Stale,
        freshness(None, src) == Freshness::Stale,
{
}

/// The hook is written exactly where it is not the right one and the game does not run, and
/// what was there is kept the first time.
pub proof fn law_what_was_there_is_kept(current: bool, running: bool, dll: bool, kept: bool)
    ensures
        ({
            let e = ensuring(current, running, dll, kept);
            &&& (e is Write || e is KeepAndWrite) <==> !current && !running
            &&& e is Nothing <==> current
            &&& e is Busy <==> running && !current
            &&& e is Write ==> !dll || kept
            &&& e is KeepAndWrite ==> dll && !kept
        }),
{
}

/// Files of different lengths are never taken for the same, and those of the same length and
/// time are; where the time differs or is not known, only the contents tell.
pub proof fn law_lengths_and_times_tell(a: FileFacts, b: FileFacts)
    ensures
        freshness(Some(a), Some(b)) is Stale <==> a.len != b.len,
        freshness(Some(a), Some(b)) is Current <==> a == b && a.modified is Some,
        freshness(Some(a), Some(b)) == freshness(Some(b), Some(a)),
{
}

/// The hook can be written exactly where the game is in the folder and a hook is there to
/// write.
pub proof fn law_the_hook_goes_where_the_game_is(exe: bool, source: bool)
    ensures
        install_error(exe, source) is None <==> exe && source,
{
}

/// `s` with two backslashes for every one.
pub open spec fn escaped(s: Seq<char>) -> Seq<char>
    decreases s.len(),
{
    if s.len() == 0 {
        s
    } else if s[0] == '\\' {
        seq!['\\', '\\'] + escaped(s.skip(1))
    } else {
        seq![s[0]] + escaped(s.skip(1))
    }
}

/// A path that is written with two backslashes for every one reads back as it was.
pub proof fn law_escaped_paths_read_back(s: Seq<char>)
    ensures
        unescaped(escaped(s)) == s,
    decreases s.len(),
{
    if s.len() > 0 {
        law_escaped_paths_read_back(s.skip(1));
        let e = escaped(s);
        assert(s =~= seq![s[0]] + s.skip(1));
        if s[0] == '\\' {
            assert(e.skip(2) =~= escaped(s.skip(1)));
        } else {
            assert(e.skip(1) =~= escaped(s.skip(1)));
        }
    }
}

proof fn lemma_escaped_has_no_quote(s: Seq<char>)
    requires
        !s.contains('"'),
    ensures
        !escaped(s).contains('"'),
    decreases s.len(),
{
    if s.len() > 0 {
        let t = s.skip(1);
        assert(!t.contains('"')) by {
            if t.contains('"') {
                let i = choose|i: int| 0 <= i < t.len() && t[i] == '"';
                assert(s[i + 1] == '"');
            }
        }
        lemma_escaped_has_no_quote(t);
        assert(s.contains(s[0]));
        let e = escaped(s);
        if e.contains('"') {
            let i = choose|i: int| 0 <= i < e.len() && e[i] == '"';
            let n: int = if s[0] == '\\' {
                2
            } else {
                1
            };
            assert(i >= n);
            assert(escaped(t)[i - n] == '"');
        }
    }
}

/// A line of a library list reads as the path that it names.
pub proof fn law_a_path_line_reads_as_its_path(gap: Seq<char>, path: Seq<char>)
    requires
        !gap.contains('"') && !path.contains('"'),
    ensures
        is_path_line("\"path\""@ + gap + seq!['"'] + escaped(path) + seq!['"']),
        path_in("\"path\""@ + gap + seq!['"'] + escaped(path) + seq!['"']) == path,
{
    reveal_strlit("\"path\"");
    let w = "\"path\""@;
    let e = escaped(path);
    let line = w + gap + seq!['"'] + e + seq!['"'];
    lemma_escaped_has_no_quote(path);
    crate::text::lemma_trimmed_already(line);
    assert(trim(line) == line);
    assert(line.subrange(0, 6) =~= w);
    let none = Seq::<char>::empty();
    let word = seq!['p', 'a', 't', 'h'];
    assert(!none.contains('"'));
    assert(!word.contains('"'));
    let r3 = e + seq!['"'] + none;
    let r2 = gap + seq!['"'] + r3;
    let r1 = word + seq!['"'] + r2;
    assert(w =~= seq!['"'] + word + seq!['"']);
    assert(line =~= none + seq!['"'] + r1);
    crate::text::lemma_split_first(none, r1, '"');
    crate::text::lemma_split_first(word, r2, '"');
    crate::text::lemma_split_first(gap, r3, '"');
    crate::text::lemma_split_first(e, none, '"');
    assert(split(none, '"') =~= seq![none]);
    assert(split(line, '"') =~= seq![none, word, gap, e, none]);
    law_escaped_paths_read_back(path);
}

} // verus!
