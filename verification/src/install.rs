//! Driver packages: which are installed, which is wanted, and what to do.
//!
//! The package tool's labels are localised, so nothing here reads them: a
//! published name is the word shaped like `oem7.inf`, an original name the word
//! ending in `.inf` that holds the package's name, and a version the dotted quad.

use crate::text::{
    after, after_last, all_digits, before, blocks_from, chars_of, contains, cut, decimal, ends,
    ends_with, from_last, has_text, index_of, is_digit, lines, lines_of, lower, lowered, put,
    put_number, same_text, split, split_char, split_once, split_text, starts, starts_with,
    string_of, strip_end, strip_start, stripped, texts, trim, trimmed, up_to, words, words_of,
};
use vstd::prelude::*;

verus! {

/// An installed driver package.
#[derive(Debug, PartialEq, Eq)]
pub struct InstalledPkg {
    /// The name by which it is removed.
    pub published: String,
    /// The name under which it was made.
    pub original: String,
    /// Its version; empty where none could be read.
    pub version: String,
}

/// A package as mathematics.
#[verifier::ext_equal]
pub struct PkgView {
    pub published: Seq<char>,
    pub original: Seq<char>,
    pub version: Seq<char>,
}

impl View for InstalledPkg {
    type V = PkgView;

    open spec fn view(&self) -> PkgView {
        PkgView {
            published: self.published@,
            original: self.original@,
            version: self.version@,
        }
    }
}

/// The packages as mathematics.
pub open spec fn pkgs_of(v: Seq<InstalledPkg>) -> Seq<PkgView> {
    Seq::new(v.len(), |i: int| v[i]@)
}

// ---- versions -------------------------------------------------------------

/// A run of digits.
pub open spec fn is_number(s: Seq<char>) -> bool {
    s.len() > 0 && all_digits(s)
}

/// Every part is a run of digits.
pub open spec fn all_numbers(parts: Seq<Seq<char>>) -> bool {
    forall|i: int| 0 <= i < parts.len() ==> is_number(#[trigger] parts[i])
}

/// A dotted version of at most four parts.
pub open spec fn is_version(v: Seq<char>) -> bool {
    split(v, '.').len() <= 4 && all_numbers(split(v, '.'))
}

/// `v` with `n` more parts of zero.
pub open spec fn zero_parts(v: Seq<char>, n: int) -> Seq<char>
    decreases n,
{
    if n <= 0 {
        v
    } else {
        zero_parts(v, n - 1) + ".0"@
    }
}

/// A version filled up to four parts; what is no version is left as it is.
pub open spec fn normal(v: Seq<char>) -> Seq<char> {
    if is_version(v) {
        zero_parts(v, 4 - split(v, '.').len())
    } else {
        v
    }
}

fn number_text(v: &Vec<char>) -> (r: bool)
    ensures
        r == is_number(v@),
{
    if v.len() == 0 {
        return false;
    }
    let mut i: usize = 0;
    while i < v.len()
        invariant
            i <= v@.len(),
            v@.len() > 0,
            forall|k: int| 0 <= k < i ==> is_digit(#[trigger] v@[k]),
        decreases v@.len() - i,
    {
        if !(v[i] >= '0' && v[i] <= '9') {
            assert(!is_digit(v@[i as int]));
            return false;
        }
        i = i + 1;
    }
    true
}

fn number_texts(parts: &Vec<Vec<char>>) -> (r: bool)
    ensures
        r == all_numbers(texts(parts@)),
{
    let mut i: usize = 0;
    while i < parts.len()
        invariant
            i <= parts@.len(),
            forall|k: int| 0 <= k < i ==> is_number(#[trigger] texts(parts@)[k]),
        decreases parts@.len() - i,
    {
        assert(texts(parts@)[i as int] == parts@[i as int]@);
        if !number_text(&parts[i]) {
            assert(!is_number(texts(parts@)[i as int]));
            return false;
        }
        i = i + 1;
    }
    true
}

fn normal_of(v: &Vec<char>) -> (r: Vec<char>)
    ensures
        r@ == normal(v@),
{
    let parts: Vec<Vec<char>> = split_char(v, '.');
    assert(texts(parts@).len() == parts@.len());
    let mut r: Vec<char> = cut(v, 0, v.len());
    assert(v@.subrange(0, v@.len() as int) =~= v@);
    if parts.len() > 4 || !number_texts(&parts) {
        return r;
    }
    let mut n: usize = parts.len();
    while n < 4
        invariant
            parts@.len() <= n <= 4,
            r@ == zero_parts(v@, n - parts@.len()),
        decreases 4 - n,
    {
        put(&mut r, ".0");
        n = n + 1;
    }
    r
}

/// Fill a version up to the four parts that the package tool prints, so that
/// `1.3.17` and `1.3.17.0` are the same.
pub fn norm_ver(v: &str) -> (r: String)
    ensures
        r@ == normal(v@),
{
    string_of(&normal_of(&chars_of(v)))
}

/// A line that gives the driver's version.
pub open spec fn is_ver_line(l: Seq<char>) -> bool {
    starts(lower(trim(l)), "driverver"@)
}

/// The version in such a line: behind the equals sign and the date, before any
/// comment. Each of these may be missing.
pub open spec fn line_ver(l: Seq<char>) -> Seq<char> {
    let t = trim(l);
    let rhs = if index_of(t, '=') < t.len() {
        after(t, '=')
    } else {
        t
    };
    trim(after_last(before(rhs, ';'), ','))
}

/// The version that the lines from `i` on give: the first version line decides.
pub open spec fn ver_from(ls: Seq<Seq<char>>, i: int) -> Option<Seq<char>>
    decreases ls.len() - i,
{
    if i < 0 || i >= ls.len() {
        None
    } else if !is_ver_line(ls[i]) {
        ver_from(ls, i + 1)
    } else if line_ver(ls[i]).len() == 0 {
        None
    } else {
        Some(normal(line_ver(ls[i])))
    }
}

/// The driver version in the text of an INF file.
pub fn inf_driver_ver(text: &str) -> (r: Option<String>)
    ensures
        r is Some <==> ver_from(lines_of(text@), 0) is Some,
        r matches Some(v) ==> Some(v@) == ver_from(lines_of(text@), 0),
{
    let ls: Vec<Vec<char>> = lines(&chars_of(text));
    let ghost t = texts(ls@);
    let mut i: usize = 0;
    while i < ls.len()
        invariant
            i <= ls@.len(),
            t == texts(ls@),
            t == lines_of(text@),
            ver_from(t, 0) == ver_from(t, i as int),
        decreases ls@.len() - i,
    {
        assert(t[i as int] == ls@[i as int]@);
        let l: Vec<char> = trimmed(&ls[i]);
        if starts_with(&lowered(&l), "driverver") {
            let rhs: Vec<char> = match split_once(&l, '=') {
                Some((_, b)) => b,
                None => l,
            };
            let v: Vec<char> = trimmed(&from_last(&up_to(&rhs, ';'), ','));
            assert(v@ == line_ver(t[i as int]));
            if v.len() == 0 {
                return None;
            }
            return Some(string_of(&normal_of(&v)));
        }
        i = i + 1;
    }
    None
}

// ---- the package tool's list ----------------------------------------------

/// A word of the list, without punctuation around it.
pub open spec fn bare(w: Seq<char>) -> Seq<char> {
    strip_end(strip_start(w))
}

/// A dotted quad.
pub open spec fn is_quad(t: Seq<char>) -> bool {
    split(t, '.').len() == 4 && all_numbers(split(t, '.'))
}

/// What a package is known as after one more word of its block.
pub open spec fn with_word(p: PkgView, w: Seq<char>, needle: Seq<char>) -> PkgView {
    let t = bare(w);
    let l = lower(t);
    if starts(l, "oem"@) && ends(l, ".inf"@) {
        PkgView { published: t, ..p }
    } else if ends(l, ".inf"@) && contains(l, needle) {
        PkgView { original: t, ..p }
    } else if is_quad(t) {
        PkgView { version: t, ..p }
    } else {
        p
    }
}

/// Nothing is known of the package.
pub open spec fn unknown_pkg() -> PkgView {
    PkgView { published: Seq::empty(), original: Seq::empty(), version: Seq::empty() }
}

/// What a package is known as after the first `n` words of its block. The last
/// quad wins: a class version may stand before the driver's.
pub open spec fn from_words(ws: Seq<Seq<char>>, n: int, needle: Seq<char>) -> PkgView
    decreases n,
{
    if n <= 0 {
        unknown_pkg()
    } else {
        with_word(from_words(ws, n - 1, needle), ws[n - 1], needle)
    }
}

/// The package of a block, if the block is about `needle` and names one.
pub open spec fn block_pkg(block: Seq<char>, needle: Seq<char>) -> Option<PkgView> {
    let ws = words_of(block);
    let p = from_words(ws, ws.len() as int, needle);
    if contains(lower(block), needle) && p.published.len() > 0 {
        Some(p)
    } else {
        None
    }
}

/// The packages of the first `n` blocks.
pub open spec fn blocks_pkgs(blocks: Seq<Seq<char>>, n: int, needle: Seq<char>) -> Seq<PkgView>
    decreases n,
{
    if n <= 0 {
        Seq::empty()
    } else {
        match block_pkg(blocks[n - 1], needle) {
            Some(p) => blocks_pkgs(blocks, n - 1, needle).push(p),
            None => blocks_pkgs(blocks, n - 1, needle),
        }
    }
}

/// The packages about `needle` in the tool's list, whose blocks stand between
/// blank lines.
pub open spec fn listed(text: Seq<char>, needle: Seq<char>) -> Seq<PkgView> {
    let blocks = blocks_from(text, "\r\n\r\n"@, 0);
    blocks_pkgs(blocks, blocks.len() as int, lower(needle))
}

fn parse_block(block: &Vec<char>, needle: &Vec<char>) -> (r: Option<InstalledPkg>)
    ensures
        r is Some <==> block_pkg(block@, needle@) is Some,
        r matches Some(p) ==> Some(p@) == block_pkg(block@, needle@),
{
    if !has_text(&lowered(block), needle) {
        return None;
    }
    let ws: Vec<Vec<char>> = words(block);
    let ghost t = texts(ws@);
    let mut published: Vec<char> = Vec::new();
    let mut original: Vec<char> = Vec::new();
    let mut version: Vec<char> = Vec::new();
    let mut i: usize = 0;
    assert((PkgView { published: published@, original: original@, version: version@ })
        =~= unknown_pkg());
    while i < ws.len()
        invariant
            i <= ws@.len(),
            t == texts(ws@),
            (PkgView { published: published@, original: original@, version: version@ })
                == from_words(t, i as int, needle@),
        decreases ws@.len() - i,
    {
        assert(t[i as int] == ws@[i as int]@);
        let tok: Vec<char> = stripped(&ws[i]);
        let l: Vec<char> = lowered(&tok);
        let is_inf: bool = ends_with(&l, ".inf");
        if starts_with(&l, "oem") && is_inf {
            published = tok;
        } else if is_inf && has_text(&l, needle) {
            original = tok;
        } else {
            let parts: Vec<Vec<char>> = split_char(&tok, '.');
            assert(texts(parts@).len() == parts@.len());
            if parts.len() == 4 && number_texts(&parts) {
                version = tok;
            }
        }
        i = i + 1;
    }
    if published.len() == 0 {
        return None;
    }
    Some(
        InstalledPkg {
            published: string_of(&published),
            original: string_of(&original),
            version: string_of(&version),
        },
    )
}

/// The packages about `needle` in the package tool's list, in either case.
pub fn enum_packages(text: &str, needle: &str) -> (r: Vec<InstalledPkg>)
    ensures
        pkgs_of(r@) == listed(text@, needle@),
{
    let sep: Vec<char> = chars_of("\r\n\r\n");
    proof {
        reveal_strlit("\r\n\r\n");
    }
    let blocks: Vec<Vec<char>> = split_text(&chars_of(text), &sep);
    let n: Vec<char> = lowered(&chars_of(needle));
    let ghost t = texts(blocks@);
    let mut r: Vec<InstalledPkg> = Vec::new();
    let mut i: usize = 0;
    assert(pkgs_of(r@) =~= Seq::empty());
    while i < blocks.len()
        invariant
            i <= blocks@.len(),
            t == texts(blocks@),
            pkgs_of(r@) == blocks_pkgs(t, i as int, n@),
        decreases blocks@.len() - i,
    {
        assert(t[i as int] == blocks@[i as int]@);
        if let Some(p) = parse_block(&blocks[i], &n) {
            let ghost r0 = r@;
            let ghost pv = p@;
            r.push(p);
            assert(pkgs_of(r@) =~= pkgs_of(r0).push(pv));
        }
        i = i + 1;
    }
    r
}

// ---- decisions ------------------------------------------------------------

/// The package was made under the name `inf`, in either case.
pub open spec fn is_mine(p: PkgView, inf: Seq<char>) -> bool {
    lower(p.original) == lower(inf)
}

/// Some package of the name `inf` has the version `want`.
pub open spec fn is_live(pkgs: Seq<PkgView>, inf: Seq<char>, want: Seq<char>) -> bool {
    exists|i: int|
        0 <= i < pkgs.len() && is_mine(#[trigger] pkgs[i], inf) && pkgs[i].version == want
}

/// The places of the first `n` packages of the name `inf` that are of another
/// version.
pub open spec fn stale_below(pkgs: Seq<PkgView>, inf: Seq<char>, want: Seq<char>, n: int) -> Seq<
    usize,
>
    decreases n,
{
    if n <= 0 {
        Seq::empty()
    } else if is_mine(pkgs[n - 1], inf) && pkgs[n - 1].version != want {
        stale_below(pkgs, inf, want, n - 1).push((n - 1) as usize)
    } else {
        stale_below(pkgs, inf, want, n - 1)
    }
}

fn mine(p: &InstalledPkg, inf: &Vec<char>) -> (r: bool)
    ensures
        r == is_mine(p@, inf@),
{
    same_text(&lowered(&chars_of(p.original.as_str())), &lowered(inf))
}

/// Whether the wanted version of the package is installed.
pub fn version_live(pkgs: &Vec<InstalledPkg>, inf: &str, want: &str) -> (r: bool)
    ensures
        r == is_live(pkgs_of(pkgs@), inf@, want@),
{
    let name: Vec<char> = chars_of(inf);
    let w: Vec<char> = chars_of(want);
    let ghost t = pkgs_of(pkgs@);
    let mut i: usize = 0;
    while i < pkgs.len()
        invariant
            i <= pkgs@.len(),
            t == pkgs_of(pkgs@),
            name@ == inf@,
            w@ == want@,
            forall|k: int|
                0 <= k < i ==> !(is_mine(#[trigger] t[k], inf@) && t[k].version == want@),
        decreases pkgs@.len() - i,
    {
        assert(t[i as int] == pkgs@[i as int]@);
        if mine(&pkgs[i], &name) && same_text(&chars_of(pkgs[i].version.as_str()), &w) {
            return true;
        }
        i = i + 1;
    }
    false
}

/// The places of the packages that a newer one replaces.
pub fn stale_packages(pkgs: &Vec<InstalledPkg>, inf: &str, want: &str) -> (r: Vec<usize>)
    ensures
        r@ == stale_below(pkgs_of(pkgs@), inf@, want@, pkgs@.len() as int),
{
    let name: Vec<char> = chars_of(inf);
    let w: Vec<char> = chars_of(want);
    let ghost t = pkgs_of(pkgs@);
    let mut r: Vec<usize> = Vec::new();
    let mut i: usize = 0;
    while i < pkgs.len()
        invariant
            i <= pkgs@.len(),
            t == pkgs_of(pkgs@),
            name@ == inf@,
            w@ == want@,
            r@ == stale_below(t, inf@, want@, i as int),
        decreases pkgs@.len() - i,
    {
        assert(t[i as int] == pkgs@[i as int]@);
        if mine(&pkgs[i], &name) && !same_text(&chars_of(pkgs[i].version.as_str()), &w) {
            r.push(i);
        }
        i = i + 1;
    }
    r
}

/// What to do about a driver.
#[derive(Clone, Copy, Debug, PartialEq, Eq, Structural)]
pub enum DriverAction {
    /// Our own package says no version: touch nothing.
    Refuse,
    /// Install it. Only then may older ones go: a live device must never be left
    /// without a driver in between.
    Install,
    /// It is live already.
    Keep,
}

/// Decide what to do about a driver: `want` is the version of our own package,
/// `pkgs` what is installed. [`crate::upgrade`] carries it through to the end.
pub fn ensure_driver(want: Option<&str>, pkgs: &Vec<InstalledPkg>, inf: &str) -> (r: DriverAction)
    ensures
        r == (match want {
            None => DriverAction::Refuse,
            Some(w) => if is_live(pkgs_of(pkgs@), inf@, w@) {
                DriverAction::Keep
            } else {
                DriverAction::Install
            },
        }),
{
    match want {
        None => DriverAction::Refuse,
        Some(w) => if version_live(pkgs, inf, w) {
            DriverAction::Keep
        } else {
            DriverAction::Install
        },
    }
}

/// Whether an install took: by version where our package says one, else by the
/// package being there at all.
pub fn install_driver(
    want: Option<&str>,
    pkgs: &Vec<InstalledPkg>,
    inf: &str,
    present: bool,
) -> (r: bool)
    ensures
        r == (match want {
            Some(w) => is_live(pkgs_of(pkgs@), inf@, w@),
            None => present,
        }),
{
    match want {
        Some(w) => version_live(pkgs, inf, w),
        None => present,
    }
}

/// Whether an upgrade is owed: some package of the name is installed, and none of
/// them is of the wanted version.
pub fn driver_stale(want: Option<&str>, pkgs: &Vec<InstalledPkg>, inf: &str) -> (r: bool)
    ensures
        r == (match want {
            None => false,
            Some(w) => (exists|i: int|
                0 <= i < pkgs@.len() && is_mine(#[trigger] pkgs_of(pkgs@)[i], inf@)) && !is_live(
                pkgs_of(pkgs@),
                inf@,
                w@,
            ),
        }),
{
    let w: &str = match want {
        None => {
            return false;
        },
        Some(w) => w,
    };
    let name: Vec<char> = chars_of(inf);
    let ghost t = pkgs_of(pkgs@);
    let mut found: bool = false;
    let mut i: usize = 0;
    while i < pkgs.len()
        invariant
            i <= pkgs@.len(),
            t == pkgs_of(pkgs@),
            name@ == inf@,
            found == exists|k: int| 0 <= k < i && is_mine(#[trigger] t[k], inf@),
        decreases pkgs@.len() - i,
    {
        assert(t[i as int] == pkgs@[i as int]@);
        if mine(&pkgs[i], &name) {
            found = true;
        }
        i = i + 1;
    }
    found && !version_live(pkgs, inf, w)
}

/// Whether a directory of the driver store belongs to the package `inf`, in
/// either case.
pub fn is_package_dir(entry: &str, inf: &str) -> (r: bool)
    ensures
        r == is_package(entry@, inf@),
{
    let mut p: Vec<char> = lowered(&chars_of(inf));
    put(&mut p, "_amd64_");
    let e: Vec<char> = lowered(&chars_of(entry));
    crate::text::stands_at(&e, &p, 0)
}

/// A directory of the driver store belongs to the package `inf`.
pub open spec fn is_package(entry: Seq<char>, inf: Seq<char>) -> bool {
    starts(lower(entry), lower(inf) + "_amd64_"@)
}

/// Some entry of the driver store is a package of `inf`.
pub open spec fn has_package(entries: Seq<String>, inf: Seq<char>) -> bool {
    exists|i: int| 0 <= i < entries.len() && is_package((#[trigger] entries[i])@, inf)
}

/// Entry `k` of the driver store is the first that is a package of `inf`.
pub open spec fn is_first_package(entries: Seq<String>, inf: Seq<char>, k: int) -> bool {
    &&& 0 <= k < entries.len()
    &&& is_package(entries[k]@, inf)
    &&& forall|i: int| 0 <= i < k ==> !is_package((#[trigger] entries[i])@, inf)
}

/// The first entry of the driver store that is a package of `inf`.
pub fn installed_package(entries: &Vec<String>, inf: &str) -> (r: Option<usize>)
    ensures
        r is Some <==> has_package(entries@, inf@),
        r matches Some(k) ==> is_first_package(entries@, inf@, k as int),
{
    let mut i: usize = 0;
    while i < entries.len()
        invariant
            i <= entries@.len(),
            forall|j: int| 0 <= j < i ==> !is_package((#[trigger] entries@[j])@, inf@),
        decreases entries@.len() - i,
    {
        if is_package_dir(entries[i].as_str(), inf) {
            return Some(i);
        }
        i = i + 1;
    }
    None
}

/// Whether a package of `inf` is in the driver store.
pub fn package_installed(entries: &Vec<String>, inf: &str) -> (r: bool)
    ensures
        r == has_package(entries@, inf@),
{
    installed_package(entries, inf).is_some()
}

/// The path of the plain driver's file in the driver store at `repo`, whose directories
/// are `entries`: that of the first directory of the package, where that directory holds
/// the file. `holds` says of each directory whether it does.
pub fn installed_inf_path(repo: &str, entries: &Vec<String>, holds: &Vec<bool>) -> (r: Option<
    String,
>)
    requires
        holds@.len() == entries@.len(),
    ensures
        r is Some <==> exists|k: int|
            #[trigger] is_first_package(entries@, "hidmaestro.inf"@, k) && holds@[k],
        r matches Some(p) ==> exists|k: int|
            #[trigger] is_first_package(entries@, "hidmaestro.inf"@, k) && holds@[k] && p@ == repo@
                + "\\"@ + entries@[k]@ + "\\hidmaestro.inf"@,
{
    let k: usize = match installed_package(entries, "hidmaestro.inf") {
        Some(k) => k,
        None => {
            return None;
        },
    };
    assert(is_first_package(entries@, "hidmaestro.inf"@, k as int));
    if !holds[k] {
        assert forall|j: int| #[trigger]
            is_first_package(entries@, "hidmaestro.inf"@, j) implies !holds@[j] by {
            if j < k {
                assert(!is_package(entries@[j]@, "hidmaestro.inf"@));
            } else if k < j {
                assert(!is_package(entries@[k as int]@, "hidmaestro.inf"@));
            }
        }
        return None;
    }
    let mut out: Vec<char> = chars_of(repo);
    put(&mut out, "\\");
    put(&mut out, entries[k].as_str());
    put(&mut out, "\\hidmaestro.inf");
    Some(string_of(&out))
}

/// Whether the plain driver is in the driver store: the first directory of its package
/// holds its file. `holds` says of each directory whether it does.
pub fn driver_installed(entries: &Vec<String>, holds: &Vec<bool>) -> (r: bool)
    requires
        holds@.len() == entries@.len(),
    ensures
        r <==> exists|k: int|
            #[trigger] is_first_package(entries@, "hidmaestro.inf"@, k) && holds@[k],
{
    installed_inf_path("", entries, holds).is_some()
}

/// The arguments that remove the package of a published name.
pub open spec fn removal_args(published: Seq<char>) -> Seq<Seq<char>> {
    seq!["/delete-driver"@, published, "/uninstall"@, "/force"@]
}

/// The arguments that remove a package.
pub fn remove_packages(p: &InstalledPkg) -> (r: Vec<String>)
    ensures
        crate::gameinstall::strings(r@) == removal_args(p.published@),
{
    let mut r: Vec<String> = Vec::new();
    r.push(string_of(&chars_of("/delete-driver")));
    r.push(string_of(&chars_of(p.published.as_str())));
    r.push(string_of(&chars_of("/uninstall")));
    r.push(string_of(&chars_of("/force")));
    assert(crate::gameinstall::strings(r@) =~= seq![
        "/delete-driver"@,
        p.published@,
        "/uninstall"@,
        "/force"@,
    ]);
    r
}

/// Every package of ours among those installed, of any version, either driver. Both
/// names begin with the same word; neither contains the other.
pub fn uninstall_hidmaestro(text: &str) -> (r: Vec<InstalledPkg>)
    ensures
        pkgs_of(r@) == listed(text@, "hidmaestro"@),
{
    enum_packages(text, "hidmaestro")
}

/// What is said of `n` older copies that stay.
pub open spec fn leftover_words(inf: Seq<char>, want: Seq<char>, n: nat) -> Seq<char> {
    "installed "@ + inf + " "@ + want + ", but "@ + decimal(n)
        + " older copy/copies could not be removed"@
}

/// What to say where older copies stay: ours is live, but the system may still pick one
/// of them.
pub fn leftover_error(inf: &str, want: &str, stale: usize, removed: usize) -> (r: Option<String>)
    ensures
        r is Some <==> removed < stale,
        r matches Some(e) ==> e@ == leftover_words(inf@, want@, (stale - removed) as nat),
{
    if removed >= stale {
        return None;
    }
    let mut out: Vec<char> = chars_of("installed ");
    put(&mut out, inf);
    put(&mut out, " ");
    put(&mut out, want);
    put(&mut out, ", but ");
    put_number(&mut out, (stale - removed) as u64);
    put(&mut out, " older copy/copies could not be removed");
    Some(string_of(&out))
}

/// The package name without its ending, repeated endings too.
pub open spec fn without_inf(s: Seq<char>) -> Seq<char>
    decreases s.len(),
{
    if ".inf"@.len() > 0 && ends(s, ".inf"@) {
        without_inf(s.subrange(0, s.len() - ".inf"@.len()))
    } else {
        s
    }
}

/// By which text a package's blocks are found in the tool's list.
pub fn needle_of(inf: &str) -> (r: String)
    ensures
        r@ == without_inf(inf@),
{
    proof {
        reveal_strlit(".inf");
    }
    let mut v: Vec<char> = chars_of(inf);
    let ghost s0 = v@;
    while ends_with(&v, ".inf")
        invariant
            ".inf"@.len() == 4,
            s0 == inf@,
            without_inf(s0) == without_inf(v@),
        decreases v@.len(),
    {
        let n: usize = v.len();
        v = cut(&v, 0, n - 4);
    }
    string_of(&v)
}

/// A package that is kept or retired is never of another name, and the live
/// version is never retired.
pub proof fn law_only_older_copies_go(pkgs: Seq<PkgView>, inf: Seq<char>, want: Seq<char>, n: int)
    requires
        0 <= n <= pkgs.len(),
        pkgs.len() <= usize::MAX,
    ensures
        forall|k: int|
            0 <= k < stale_below(pkgs, inf, want, n).len() ==> {
                let i = #[trigger] stale_below(pkgs, inf, want, n)[k];
                i < n && is_mine(pkgs[i as int], inf) && pkgs[i as int].version != want
            },
    decreases n,
{
    if n > 0 {
        law_only_older_copies_go(pkgs, inf, want, n - 1);
        let rest = stale_below(pkgs, inf, want, n - 1);
        let all = stale_below(pkgs, inf, want, n);
        assert forall|k: int| 0 <= k < all.len() implies {
            let i = #[trigger] all[k];
            i < n && is_mine(pkgs[i as int], inf) && pkgs[i as int].version != want
        } by {
            if k < rest.len() {
                assert(all[k] == rest[k]);
            }
        }
    }
}

proof fn lemma_split_without(s: Seq<char>, c: char)
    requires
        forall|i: int| 0 <= i < s.len() ==> #[trigger] s[i] != c,
    ensures
        split(s, c) == seq![s],
    decreases s.len(),
{
    if s.len() > 0 {
        let t = s.subrange(1, s.len() as int);
        lemma_split_without(t, c);
        assert(seq![s[0]] + t =~= s);
        assert(split(s, c) =~= seq![s]);
    } else {
        assert(split(s, c) =~= seq![s]);
    }
}

/// One more part behind a separator is one more part of the split.
proof fn lemma_split_push(s: Seq<char>, c: char, t: Seq<char>)
    requires
        forall|i: int| 0 <= i < t.len() ==> #[trigger] t[i] != c,
    ensures
        split(s + (seq![c] + t), c) == split(s, c).push(t),
    decreases s.len(),
{
    let w = s + (seq![c] + t);
    if s.len() == 0 {
        assert(w.subrange(1, w.len() as int) =~= t);
        lemma_split_without(t, c);
        assert(split(w, c) =~= seq![Seq::<char>::empty()] + seq![t]);
        assert(split(s, c) =~= seq![s]);
        assert(s =~= Seq::<char>::empty());
        assert(split(w, c) =~= split(s, c).push(t));
    } else {
        let r = s.subrange(1, s.len() as int);
        lemma_split_push(r, c, t);
        assert(w.subrange(1, w.len() as int) =~= r + (seq![c] + t));
        crate::text::lemma_split_nonempty(r, crate::text::just(c));
        assert(split(w, c) =~= split(s, c).push(t));
    }
}

proof fn lemma_zero_parts(v: Seq<char>, n: int)
    requires
        0 <= n,
        all_numbers(split(v, '.')),
    ensures
        split(zero_parts(v, n), '.').len() == split(v, '.').len() + n,
        all_numbers(split(zero_parts(v, n), '.')),
    decreases n,
{
    if n > 0 {
        lemma_zero_parts(v, n - 1);
        let p = zero_parts(v, n - 1);
        reveal_strlit(".0");
        assert(".0"@ =~= seq!['.'] + seq!['0']);
        lemma_split_push(p, '.', seq!['0']);
        assert(is_number(seq!['0']));
        assert forall|i: int| 0 <= i < split(zero_parts(v, n), '.').len() implies is_number(
            #[trigger] split(zero_parts(v, n), '.')[i],
        ) by {
            if i < split(p, '.').len() {
                assert(is_number(split(p, '.')[i]));
            }
        }
    }
}

/// A version that is filled up has four parts, and filling it up again changes
/// nothing: versions compare equal however they were written.
pub proof fn law_filled_version_has_four_parts(v: Seq<char>)
    requires
        is_version(v),
    ensures
        split(normal(v), '.').len() == 4,
        is_version(normal(v)),
        normal(normal(v)) == normal(v),
{
    lemma_zero_parts(v, 4 - split(v, '.').len());
}

/// Every package of that name and of another version is among the older copies.
pub proof fn law_every_older_copy_goes(
    pkgs: Seq<PkgView>,
    inf: Seq<char>,
    want: Seq<char>,
    n: int,
    i: int,
)
    requires
        0 <= i < n <= pkgs.len(),
        pkgs.len() <= usize::MAX,
        is_mine(pkgs[i], inf),
        pkgs[i].version != want,
    ensures
        stale_below(pkgs, inf, want, n).contains(i as usize),
    decreases n,
{
    let all = stale_below(pkgs, inf, want, n);
    if i == n - 1 {
        assert(all.last() == i as usize);
    } else {
        law_every_older_copy_goes(pkgs, inf, want, n - 1, i);
        let rest = stale_below(pkgs, inf, want, n - 1);
        let k = choose|k: int| 0 <= k < rest.len() && rest[k] == i as usize;
        assert(all[k] == i as usize);
    }
}

/// The ending is taken off a package's name however often it stands there, and nothing else
/// is.
pub proof fn law_the_ending_is_taken_off(s: Seq<char>)
    ensures
        without_inf(s + ".inf"@) == without_inf(s),
        !ends(without_inf(s), ".inf"@),
        starts(s, without_inf(s)),
    decreases s.len(),
{
    reveal_strlit(".inf");
    let t = s + ".inf"@;
    assert(t.subrange(t.len() - 4, t.len() as int) =~= ".inf"@);
    assert(t.subrange(0, t.len() - 4) =~= s);
    if ends(s, ".inf"@) {
        let h = s.subrange(0, s.len() - 4);
        law_the_ending_is_taken_off(h);
        let w = without_inf(h);
        assert(s.subrange(0, w.len() as int) =~= h.subrange(0, w.len() as int));
    } else {
        assert(s.subrange(0, s.len() as int) =~= s);
    }
}

/// The version line of a driver reads as its version: what stands behind the date, without
/// the comment.
pub proof fn law_a_version_line_reads_as_its_version(
    key: Seq<char>,
    date: Seq<char>,
    version: Seq<char>,
    comment: Seq<char>,
)
    requires
        key.len() > 0 && version.len() > 0,
        !key.contains('='),
        !date.contains(';') && !version.contains(';') && !version.contains(','),
        !crate::text::is_space(key[0]),
        !crate::text::is_space(version[0]) && !crate::text::is_space(version.last()),
        comment.len() > 0 && !crate::text::is_space(comment.last()),
    ensures
        line_ver(key + seq!['='] + (date + seq![','] + version)) == version,
        line_ver(key + seq!['='] + ((date + seq![','] + version) + seq![';'] + comment)) == version,
{
    let body = date + seq![','] + version;
    assert(!body.contains(';')) by {
        if body.contains(';') {
            let i = choose|i: int| 0 <= i < body.len() && body[i] == ';';
            if i < date.len() {
                assert(date[i] == ';');
            } else if i > date.len() {
                assert(version[i - date.len() - 1] == ';');
            }
        }
    }
    let l1 = key + seq!['='] + body;
    let l2 = key + seq!['='] + (body + seq![';'] + comment);
    crate::text::lemma_trimmed_already(l1);
    crate::text::lemma_trimmed_already(l2);
    crate::text::lemma_key_and_value(key, body, '=');
    crate::text::lemma_key_and_value(key, body + seq![';'] + comment, '=');
    crate::text::lemma_key_and_value(body, comment, ';');
    assert forall|i: int| 0 <= i < body.len() implies body[i] != ';' by {
        assert(body.contains(body[i]));
    }
    crate::text::lemma_is_index_of(body, ';', body.len() as int);
    assert(before(body, ';') =~= body);
    lemma_last_part(date, version);
    crate::text::lemma_trimmed_already(version);
}

proof fn lemma_last_part(head: Seq<char>, tail: Seq<char>)
    requires
        !tail.contains(','),
    ensures
        after_last(head + seq![','] + tail, ',') == tail,
    decreases tail.len(),
{
    let s = head + seq![','] + tail;
    if tail.len() == 0 {
        assert(s.last() == ',');
        assert(after_last(s, ',') =~= tail);
    } else {
        let t = tail.drop_last();
        assert(tail.contains(tail.last()));
        assert(!t.contains(',')) by {
            if t.contains(',') {
                let i = choose|i: int| 0 <= i < t.len() && t[i] == ',';
                assert(tail[i] == ',');
            }
        }
        lemma_last_part(head, t);
        assert(s.drop_last() =~= head + seq![','] + t);
        assert(s.last() == tail.last());
        assert(after_last(s, ',') =~= tail);
    }
}

} // verus!
