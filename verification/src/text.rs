//! Text as sequences of characters.
//!
//! Settings files, device names and command output are read here on characters.
//! What these functions return is what the string methods of the standard
//! library of the same name return.

use vstd::prelude::*;
use vstd::string::{StrSliceExecFns, StringExecFns};

verus! {

/// [`String::push`] appends one character.
pub assume_specification[ String::push ](s: &mut String, c: char)
    ensures
        final(s)@ == old(s)@.push(c),
;

// ---- characters -----------------------------------------------------------

/// The characters with the Unicode property `White_Space`.
pub open spec fn is_space(c: char) -> bool {
    let n = c as u32;
    ||| 0x9 <= n <= 0xD
    ||| n == 0x20
    ||| n == 0x85
    ||| n == 0xA0
    ||| n == 0x1680
    ||| 0x2000 <= n <= 0x200A
    ||| n == 0x2028
    ||| n == 0x2029
    ||| n == 0x202F
    ||| n == 0x205F
    ||| n == 0x3000
}

/// Whether `c` is white space.
pub fn space(c: char) -> (r: bool)
    ensures
        r == is_space(c),
{
    let n: u32 = c as u32;
    (n >= 0x9 && n <= 0xD) || n == 0x20 || n == 0x85 || n == 0xA0 || n == 0x1680 || (n >= 0x2000
        && n <= 0x200A) || n == 0x2028 || n == 0x2029 || n == 0x202F || n == 0x205F || n == 0x3000
}

/// A decimal digit.
pub open spec fn is_digit(c: char) -> bool {
    '0' <= c <= '9'
}

/// The value of a decimal digit.
pub open spec fn digit_value(c: char) -> nat {
    (c as u32 - '0' as u32) as nat
}

/// An ASCII letter or digit.
pub open spec fn is_alnum(c: char) -> bool {
    is_digit(c) || 'a' <= c <= 'z' || 'A' <= c <= 'Z'
}

/// A hexadecimal digit.
pub open spec fn is_hex(c: char) -> bool {
    is_digit(c) || 'a' <= c <= 'f' || 'A' <= c <= 'F'
}

/// `c` with an ASCII capital made small.
pub open spec fn lower_char(c: char) -> char {
    if 'A' <= c <= 'Z' {
        ((c as u32) + 32) as char
    } else {
        c
    }
}

/// `s` with ASCII capitals made small.
pub open spec fn lower(s: Seq<char>) -> Seq<char> {
    Seq::new(s.len(), |i: int| lower_char(s[i]))
}

fn to_lower(c: char) -> (r: char)
    ensures
        r == lower_char(c),
{
    match c {
        'A' => 'a',
        'B' => 'b',
        'C' => 'c',
        'D' => 'd',
        'E' => 'e',
        'F' => 'f',
        'G' => 'g',
        'H' => 'h',
        'I' => 'i',
        'J' => 'j',
        'K' => 'k',
        'L' => 'l',
        'M' => 'm',
        'N' => 'n',
        'O' => 'o',
        'P' => 'p',
        'Q' => 'q',
        'R' => 'r',
        'S' => 's',
        'T' => 't',
        'U' => 'u',
        'V' => 'v',
        'W' => 'w',
        'X' => 'x',
        'Y' => 'y',
        'Z' => 'z',
        _ => c,
    }
}

// ---- conversions ----------------------------------------------------------

/// The characters of a string.
pub fn chars_of(s: &str) -> (r: Vec<char>)
    ensures
        r@ == s@,
{
    let mut r: Vec<char> = Vec::new();
    for c in it: s.chars()
        invariant
            r@ == it.seq().take(it.index()),
            it.seq() == s@,
    {
        proof {
            assert(it.seq().take(it.index() + 1) =~= it.seq().take(it.index()).push(c));
        }
        r.push(c);
    }
    assert(r@ =~= s@);
    r
}

/// The string of some characters.
pub fn string_of(v: &Vec<char>) -> (r: String)
    ensures
        r@ == v@,
{
    let mut r: String = String::new();
    let mut i: usize = 0;
    while i < v.len()
        invariant
            i <= v.len(),
            r@ == v@.take(i as int),
        decreases v.len() - i,
    {
        r.push(v[i]);
        i = i + 1;
        assert(v@.take(i as int) =~= v@.take(i - 1).push(v@[i - 1]));
    }
    assert(v@.take(i as int) =~= v@);
    r
}

/// The characters from `from` up to `to`.
pub fn cut(v: &Vec<char>, from: usize, to: usize) -> (r: Vec<char>)
    requires
        from <= to <= v@.len(),
    ensures
        r@ == v@.subrange(from as int, to as int),
{
    let mut r: Vec<char> = Vec::new();
    let mut i: usize = from;
    while i < to
        invariant
            from <= i <= to <= v@.len(),
            r@ == v@.subrange(from as int, i as int),
        decreases to - i,
    {
        r.push(v[i]);
        i = i + 1;
        assert(v@.subrange(from as int, i as int) =~= v@.subrange(from as int, i - 1).push(
            v@[i - 1],
        ));
    }
    r
}

/// Whether the characters spell `lit`.
pub fn is_text(v: &Vec<char>, lit: &str) -> (r: bool)
    ensures
        r == (v@ == lit@),
{
    let n: usize = lit.unicode_len();
    if v.len() != n {
        return false;
    }
    let mut i: usize = 0;
    while i < n
        invariant
            i <= n == v@.len(),
            n == lit@.len(),
            forall|k: int| 0 <= k < i ==> v@[k] == lit@[k],
        decreases n - i,
    {
        if v[i] != lit.get_char(i) {
            assert(v@[i as int] != lit@[i as int]);
            return false;
        }
        i = i + 1;
    }
    assert(v@ =~= lit@);
    true
}

/// Whether two texts are the same.
pub fn same_text(a: &Vec<char>, b: &Vec<char>) -> (r: bool)
    ensures
        r == (a@ == b@),
{
    if a.len() != b.len() {
        return false;
    }
    let mut i: usize = 0;
    while i < a.len()
        invariant
            i <= a@.len() == b@.len(),
            forall|k: int| 0 <= k < i ==> a@[k] == b@[k],
        decreases a@.len() - i,
    {
        if a[i] != b[i] {
            assert(a@[i as int] != b@[i as int]);
            return false;
        }
        i = i + 1;
    }
    assert(a@ =~= b@);
    true
}

/// `v` with ASCII capitals made small.
pub fn lowered(v: &Vec<char>) -> (r: Vec<char>)
    ensures
        r@ == lower(v@),
{
    let mut r: Vec<char> = Vec::new();
    let mut i: usize = 0;
    while i < v.len()
        invariant
            i <= v@.len(),
            r@.len() == i,
            forall|k: int| 0 <= k < i ==> #[trigger] r@[k] == lower_char(v@[k]),
        decreases v@.len() - i,
    {
        r.push(to_lower(v[i]));
        i = i + 1;
    }
    assert(r@ =~= lower(v@));
    r
}

/// Append `b` to `a`.
pub fn extend(a: &mut Vec<char>, b: &Vec<char>)
    ensures
        final(a)@ == old(a)@ + b@,
{
    let ghost a0 = a@;
    let mut i: usize = 0;
    while i < b.len()
        invariant
            i <= b@.len(),
            a@ == a0 + b@.take(i as int),
        decreases b@.len() - i,
    {
        a.push(b[i]);
        i = i + 1;
        assert(b@.take(i as int) =~= b@.take(i - 1).push(b@[i - 1]));
        assert(a@ =~= a0 + b@.take(i as int));
    }
    assert(b@.take(i as int) =~= b@);
}

/// Append a string to `a`.
pub fn put(a: &mut Vec<char>, s: &str)
    ensures
        final(a)@ == old(a)@ + s@,
{
    extend(a, &chars_of(s));
}

// ---- trimming -------------------------------------------------------------

/// `s` without leading white space.
pub open spec fn trim_start(s: Seq<char>) -> Seq<char>
    decreases s.len(),
{
    if s.len() > 0 && is_space(s[0]) {
        trim_start(s.subrange(1, s.len() as int))
    } else {
        s
    }
}

/// `s` without trailing white space.
pub open spec fn trim_end(s: Seq<char>) -> Seq<char>
    decreases s.len(),
{
    if s.len() > 0 && is_space(s.last()) {
        trim_end(s.drop_last())
    } else {
        s
    }
}

/// `s` without white space at either end.
pub open spec fn trim(s: Seq<char>) -> Seq<char> {
    trim_end(trim_start(s))
}

/// `v` without white space at either end.
pub fn trimmed(v: &Vec<char>) -> (r: Vec<char>)
    ensures
        r@ == trim(v@),
{
    let n: usize = v.len();
    let mut i: usize = 0;
    assert(v@.subrange(0, n as int) =~= v@);
    while i < n && space(v[i])
        invariant
            i <= n == v@.len(),
            trim_start(v@) == trim_start(v@.subrange(i as int, n as int)),
        decreases n - i,
    {
        proof {
            let s = v@.subrange(i as int, n as int);
            assert(s.subrange(1, s.len() as int) =~= v@.subrange(i + 1, n as int));
        }
        i = i + 1;
    }
    let ghost t = v@.subrange(i as int, n as int);
    assert(trim_start(v@) == t);
    let mut j: usize = n;
    assert(t.subrange(0, t.len() as int) =~= t);
    while j > i && space(v[j - 1])
        invariant
            i <= j <= n == v@.len(),
            trim_end(t) == trim_end(v@.subrange(i as int, j as int)),
        decreases j,
    {
        proof {
            let s = v@.subrange(i as int, j as int);
            assert(s.drop_last() =~= v@.subrange(i as int, j - 1));
        }
        j = j - 1;
    }
    cut(v, i, j)
}

/// `s` without leading `c`s.
pub open spec fn trim_start_char(s: Seq<char>, c: char) -> Seq<char>
    decreases s.len(),
{
    if s.len() > 0 && s[0] == c {
        trim_start_char(s.subrange(1, s.len() as int), c)
    } else {
        s
    }
}

/// `v` without leading `c`s.
pub fn trimmed_start_char(v: &Vec<char>, c: char) -> (r: Vec<char>)
    ensures
        r@ == trim_start_char(v@, c),
{
    let n: usize = v.len();
    let mut i: usize = 0;
    assert(v@.subrange(0, n as int) =~= v@);
    while i < n && v[i] == c
        invariant
            i <= n == v@.len(),
            trim_start_char(v@, c) == trim_start_char(v@.subrange(i as int, n as int), c),
        decreases n - i,
    {
        proof {
            let s = v@.subrange(i as int, n as int);
            assert(s.subrange(1, s.len() as int) =~= v@.subrange(i + 1, n as int));
        }
        i = i + 1;
    }
    cut(v, i, n)
}

/// A character that names are made of: a letter, a digit, a dot or an underscore.
pub open spec fn is_name_char(c: char) -> bool {
    is_alnum(c) || c == '.' || c == '_'
}

/// `s` without what is no name character at its start.
pub open spec fn strip_start(s: Seq<char>) -> Seq<char>
    decreases s.len(),
{
    if s.len() > 0 && !is_name_char(s[0]) {
        strip_start(s.subrange(1, s.len() as int))
    } else {
        s
    }
}

/// `s` without what is no name character at its end.
pub open spec fn strip_end(s: Seq<char>) -> Seq<char>
    decreases s.len(),
{
    if s.len() > 0 && !is_name_char(s.last()) {
        strip_end(s.drop_last())
    } else {
        s
    }
}

fn name_char(c: char) -> (r: bool)
    ensures
        r == is_name_char(c),
{
    (c >= '0' && c <= '9') || (c >= 'a' && c <= 'z') || (c >= 'A' && c <= 'Z') || c == '.' || c
        == '_'
}

/// `v` without what is no name character at either end.
pub fn stripped(v: &Vec<char>) -> (r: Vec<char>)
    ensures
        r@ == strip_end(strip_start(v@)),
{
    let n: usize = v.len();
    let mut i: usize = 0;
    assert(v@.subrange(0, n as int) =~= v@);
    while i < n && !name_char(v[i])
        invariant
            i <= n == v@.len(),
            strip_start(v@) == strip_start(v@.subrange(i as int, n as int)),
        decreases n - i,
    {
        proof {
            let s = v@.subrange(i as int, n as int);
            assert(s.subrange(1, s.len() as int) =~= v@.subrange(i + 1, n as int));
        }
        i = i + 1;
    }
    let ghost t = v@.subrange(i as int, n as int);
    assert(strip_start(v@) == t);
    let mut j: usize = n;
    while j > i && !name_char(v[j - 1])
        invariant
            i <= j <= n == v@.len(),
            strip_end(t) == strip_end(v@.subrange(i as int, j as int)),
        decreases j,
    {
        proof {
            let s = v@.subrange(i as int, j as int);
            assert(s.drop_last() =~= v@.subrange(i as int, j - 1));
        }
        j = j - 1;
    }
    cut(v, i, j)
}

// ---- searching ------------------------------------------------------------

/// The place of the first `c` in `s`, or the length where there is none.
pub open spec fn index_of(s: Seq<char>, c: char) -> int
    decreases s.len(),
{
    if s.len() == 0 {
        0
    } else if s[0] == c {
        0
    } else {
        1 + index_of(s.subrange(1, s.len() as int), c)
    }
}

/// The first `c` is where it says, and none comes before it.
pub proof fn lemma_index_of(s: Seq<char>, c: char)
    ensures
        0 <= index_of(s, c) <= s.len(),
        index_of(s, c) < s.len() ==> s[index_of(s, c)] == c,
        forall|i: int| 0 <= i < index_of(s, c) ==> s[i] != c,
    decreases s.len(),
{
    if s.len() > 0 && s[0] != c {
        let t = s.subrange(1, s.len() as int);
        lemma_index_of(t, c);
        assert forall|i: int| 0 <= i < index_of(s, c) implies s[i] != c by {
            if i > 0 {
                assert(s[i] == t[i - 1]);
            }
        }
    }
}

/// A place with a `c` and none before it is the first.
pub proof fn lemma_is_index_of(s: Seq<char>, c: char, at: int)
    requires
        0 <= at <= s.len(),
        at < s.len() ==> s[at] == c,
        forall|i: int| 0 <= i < at ==> s[i] != c,
    ensures
        at == index_of(s, c),
{
    lemma_index_of(s, c);
    let k = index_of(s, c);
    if k < at {
        assert(s[k] != c);
    } else if at < k {
        assert(s[at] != c);
    }
}

/// The place of the first `c` in `v` at or after `from`, or the length.
pub fn find_char(v: &Vec<char>, c: char, from: usize) -> (r: usize)
    requires
        from <= v@.len(),
    ensures
        from <= r <= v@.len(),
        r == from + index_of(v@.subrange(from as int, v@.len() as int), c),
{
    let n: usize = v.len();
    let mut i: usize = from;
    while i < n && v[i] != c
        invariant
            from <= i <= n == v@.len(),
            forall|k: int| from <= k < i ==> v@[k] != c,
        decreases n - i,
    {
        i = i + 1;
    }
    proof {
        lemma_is_index_of(v@.subrange(from as int, n as int), c, i - from);
    }
    i
}

/// `s` starts with `p`.
pub open spec fn starts(s: Seq<char>, p: Seq<char>) -> bool {
    p.len() <= s.len() && s.subrange(0, p.len() as int) == p
}

/// `s` ends with `p`.
pub open spec fn ends(s: Seq<char>, p: Seq<char>) -> bool {
    p.len() <= s.len() && s.subrange(s.len() - p.len(), s.len() as int) == p
}

/// `p` stands in `s` at `at`.
pub open spec fn at(s: Seq<char>, p: Seq<char>, at: int) -> bool {
    0 <= at && at + p.len() <= s.len() && s.subrange(at, at + p.len()) == p
}

/// `p` stands somewhere in `s`.
pub open spec fn contains(s: Seq<char>, p: Seq<char>) -> bool {
    exists|k: int| #[trigger] at(s, p, k)
}

/// Whether `p` stands in `v` at `k`.
pub fn stands_at(v: &Vec<char>, p: &Vec<char>, k: usize) -> (r: bool)
    ensures
        r == at(v@, p@, k as int),
{
    if k > v.len() || v.len() - k < p.len() {
        return false;
    }
    let n: usize = v.len();
    let mut i: usize = 0;
    while i < p.len()
        invariant
            i <= p@.len(),
            n == v@.len(),
            k + p@.len() <= n,
            forall|j: int| 0 <= j < i ==> v@[k + j] == p@[j],
        decreases p@.len() - i,
    {
        if v[k + i] != p[i] {
            assert(v@.subrange(k as int, k + p@.len())[i as int] != p@[i as int]);
            return false;
        }
        i = i + 1;
    }
    assert(v@.subrange(k as int, k + p@.len()) =~= p@);
    true
}

/// Whether `v` starts with `p`.
pub fn starts_with(v: &Vec<char>, p: &str) -> (r: bool)
    ensures
        r == starts(v@, p@),
{
    let w: Vec<char> = chars_of(p);
    stands_at(v, &w, 0)
}

/// Whether `v` ends with `p`.
pub fn ends_with(v: &Vec<char>, p: &str) -> (r: bool)
    ensures
        r == ends(v@, p@),
{
    let w: Vec<char> = chars_of(p);
    if w.len() > v.len() {
        return false;
    }
    stands_at(v, &w, v.len() - w.len())
}

/// Whether `p` stands somewhere in `v`.
pub fn has_text(v: &Vec<char>, p: &Vec<char>) -> (r: bool)
    ensures
        r == contains(v@, p@),
{
    let mut k: usize = 0;
    while k <= v.len()
        invariant
            k <= v@.len() + 1,
            forall|j: int| 0 <= j < k ==> !(#[trigger] at(v@, p@, j)),
        decreases v@.len() + 1 - k,
    {
        if stands_at(v, p, k) {
            return true;
        }
        if k == v.len() {
            assert forall|j: int| !(#[trigger] at(v@, p@, j)) by {}
            return false;
        }
        k = k + 1;
    }
    assert forall|j: int| !(#[trigger] at(v@, p@, j)) by {}
    false
}

// ---- splitting ------------------------------------------------------------

/// The parts of `s` between the characters for which `sep` holds.
pub open spec fn split_by(s: Seq<char>, sep: spec_fn(char) -> bool) -> Seq<Seq<char>>
    decreases s.len(),
{
    if s.len() == 0 {
        seq![s]
    } else {
        let rest = split_by(s.subrange(1, s.len() as int), sep);
        if sep(s[0]) {
            seq![Seq::<char>::empty()] + rest
        } else {
            seq![seq![s[0]] + rest[0]] + rest.subrange(1, rest.len() as int)
        }
    }
}

/// The character `a` or the character `b`.
pub open spec fn either(a: char, b: char) -> spec_fn(char) -> bool {
    |x: char| x == a || x == b
}

/// The character `c`.
pub open spec fn just(c: char) -> spec_fn(char) -> bool {
    |x: char| x == c
}

/// The parts of `s` between `c`s.
pub open spec fn split(s: Seq<char>, c: char) -> Seq<Seq<char>> {
    split_by(s, just(c))
}

/// The texts of some vectors.
pub open spec fn texts(v: Seq<Vec<char>>) -> Seq<Seq<char>> {
    Seq::new(v.len(), |i: int| v[i]@)
}

/// There is always a first part.
pub proof fn lemma_split_nonempty(s: Seq<char>, sep: spec_fn(char) -> bool)
    ensures
        split_by(s, sep).len() >= 1,
    decreases s.len(),
{
    if s.len() > 0 {
        lemma_split_nonempty(s.subrange(1, s.len() as int), sep);
    }
}

/// Taking one more character off the front of what is still to be split.
proof fn lemma_split_step(
    done: Seq<Seq<char>>,
    part: Seq<char>,
    s: Seq<char>,
    sep: spec_fn(char) -> bool,
)
    requires
        s.len() > 0,
    ensures
        ({
            let rest = s.subrange(1, s.len() as int);
            let here = split_by(s, sep);
            let next = split_by(rest, sep);
            &&& here.len() >= 1 && next.len() >= 1
            &&& sep(s[0]) ==> done + (seq![part + here[0]] + here.subrange(1, here.len() as int))
                == done.push(part) + (seq![Seq::<char>::empty() + next[0]] + next.subrange(
                1,
                next.len() as int,
            ))
            &&& !sep(s[0]) ==> done + (seq![part + here[0]] + here.subrange(1, here.len() as int))
                == done + (seq![part.push(s[0]) + next[0]] + next.subrange(1, next.len() as int))
        }),
{
    let rest = s.subrange(1, s.len() as int);
    lemma_split_nonempty(rest, sep);
    lemma_split_nonempty(s, sep);
    let here = split_by(s, sep);
    let next = split_by(rest, sep);
    if sep(s[0]) {
        assert(here[0] =~= Seq::<char>::empty());
        assert(part + here[0] =~= part);
        assert(here.subrange(1, here.len() as int) =~= next);
        assert(Seq::<char>::empty() + next[0] =~= next[0]);
        assert(seq![next[0]] + next.subrange(1, next.len() as int) =~= next);
        assert(done + (seq![part + here[0]] + here.subrange(1, here.len() as int))
            =~= done.push(part) + (seq![Seq::<char>::empty() + next[0]] + next.subrange(
            1,
            next.len() as int,
        )));
    } else {
        assert(here[0] == seq![s[0]] + next[0]);
        assert(part + here[0] =~= part.push(s[0]) + next[0]);
        assert(here.subrange(1, here.len() as int) =~= next.subrange(1, next.len() as int));
    }
}

/// The parts of `v` between `a`s and `b`s.
pub fn split_either(v: &Vec<char>, a: char, b: char) -> (r: Vec<Vec<char>>)
    ensures
        texts(r@) == split_by(v@, either(a, b)),
        r@.len() >= 1,
{
    let ghost sep = either(a, b);
    let n: usize = v.len();
    let mut r: Vec<Vec<char>> = Vec::new();
    let mut part: Vec<char> = Vec::new();
    let mut i: usize = 0;
    proof {
        lemma_split_nonempty(v@, sep);
        let w = split_by(v@, sep);
        assert(v@.subrange(0, n as int) =~= v@);
        assert(texts(r@) =~= Seq::empty());
        assert(part@ + w[0] =~= w[0]);
        assert(seq![w[0]] + w.subrange(1, w.len() as int) =~= w);
        assert(texts(r@) + (seq![part@ + w[0]] + w.subrange(1, w.len() as int)) =~= w);
    }
    while i < n
        invariant
            i <= n == v@.len(),
            sep == either(a, b),
            ({
                let w = split_by(v@.subrange(i as int, n as int), sep);
                &&& w.len() >= 1
                &&& texts(r@) + (seq![part@ + w[0]] + w.subrange(1, w.len() as int)) == split_by(
                    v@,
                    sep,
                )
            }),
        decreases n - i,
    {
        let c: char = v[i];
        let ghost s = v@.subrange(i as int, n as int);
        proof {
            lemma_split_step(texts(r@), part@, s, sep);
            assert(s.subrange(1, s.len() as int) =~= v@.subrange(i + 1, n as int));
        }
        if c == a || c == b {
            let ghost old_r = r@;
            let ghost old_part = part@;
            r.push(part);
            part = Vec::new();
            proof {
                assert(texts(r@) =~= texts(old_r).push(old_part));
            }
        } else {
            part.push(c);
        }
        i = i + 1;
    }
    let ghost old_r = r@;
    let ghost old_part = part@;
    r.push(part);
    proof {
        let e = v@.subrange(n as int, n as int);
        assert(split_by(e, sep) =~= seq![e]);
        assert(old_part + e =~= old_part);
        assert(texts(r@) =~= texts(old_r).push(old_part));
        assert(texts(r@) =~= texts(old_r) + (seq![old_part + e] + seq![e].subrange(1, 1)));
    }
    r
}

/// The parts of `v` between `c`s.
pub fn split_char(v: &Vec<char>, c: char) -> (r: Vec<Vec<char>>)
    ensures
        texts(r@) == split(v@, c),
        r@.len() >= 1,
{
    let r: Vec<Vec<char>> = split_either(v, c, c);
    proof {
        assert(either(c, c) =~= just(c));
    }
    r
}

/// What stands before the first `c`.
pub open spec fn before(s: Seq<char>, c: char) -> Seq<char> {
    s.subrange(0, index_of(s, c))
}

/// What stands after the first `c`.
pub open spec fn after(s: Seq<char>, c: char) -> Seq<char> {
    s.subrange(index_of(s, c) + 1, s.len() as int)
}

/// What stands before and after the first `c`, if there is one.
pub fn split_once(v: &Vec<char>, c: char) -> (r: Option<(Vec<char>, Vec<char>)>)
    ensures
        r is Some <==> index_of(v@, c) < v@.len(),
        r matches Some((a, b)) ==> a@ == before(v@, c) && b@ == after(v@, c),
{
    let i: usize = find_char(v, c, 0);
    assert(v@.subrange(0, v@.len() as int) =~= v@);
    if i == v.len() {
        return None;
    }
    Some((cut(v, 0, i), cut(v, i + 1, v.len())))
}

/// What stands before the first `c`, or all of it where there is none.
pub fn up_to(v: &Vec<char>, c: char) -> (r: Vec<char>)
    ensures
        r@ == before(v@, c),
{
    let i: usize = find_char(v, c, 0);
    assert(v@.subrange(0, v@.len() as int) =~= v@);
    cut(v, 0, i)
}

/// What stands after the last `c`, or all of it where there is none.
pub open spec fn after_last(s: Seq<char>, c: char) -> Seq<char>
    decreases s.len(),
{
    if s.len() == 0 || s.last() == c {
        Seq::empty()
    } else {
        after_last(s.drop_last(), c).push(s.last())
    }
}

/// What stands after the last `c`, or all of it where there is none.
pub fn from_last(v: &Vec<char>, c: char) -> (r: Vec<char>)
    ensures
        r@ == after_last(v@, c),
{
    let n: usize = v.len();
    let mut i: usize = n;
    assert(v@.subrange(0, n as int) =~= v@);
    assert(v@.subrange(n as int, n as int) =~= Seq::empty());
    assert(after_last(v@.subrange(0, n as int), c) + v@.subrange(n as int, n as int) =~= after_last(
        v@,
        c,
    ));
    while i > 0 && v[i - 1] != c
        invariant
            i <= n == v@.len(),
            after_last(v@.subrange(0, i as int), c) + v@.subrange(i as int, n as int) == after_last(
                v@,
                c,
            ),
        decreases i,
    {
        proof {
            let s = v@.subrange(0, i as int);
            assert(s.drop_last() =~= v@.subrange(0, i - 1));
            assert(s.last() == v@[i - 1]);
            assert(after_last(s.drop_last(), c) + v@.subrange(i - 1, n as int) =~= after_last(s, c)
                + v@.subrange(i as int, n as int));
        }
        i = i - 1;
    }
    proof {
        let s = v@.subrange(0, i as int);
        assert(i > 0 ==> s.last() == v@[i - 1]);
        assert(after_last(s, c) =~= Seq::empty());
        assert(after_last(s, c) + v@.subrange(i as int, n as int) =~= v@.subrange(
            i as int,
            n as int,
        ));
    }
    cut(v, i, n)
}

/// The place of the first `p` in `s` at or after `from`, or -1.
pub open spec fn find_from(s: Seq<char>, p: Seq<char>, from: int) -> int
    decreases s.len() + 1 - from,
{
    if from < 0 || from > s.len() {
        -1
    } else if at(s, p, from) {
        from
    } else {
        find_from(s, p, from + 1)
    }
}

/// What is found stands there.
pub proof fn lemma_found(s: Seq<char>, p: Seq<char>, from: int)
    requires
        0 <= from,
    ensures
        find_from(s, p, from) == -1 || (from <= find_from(s, p, from) && at(
            s,
            p,
            find_from(s, p, from),
        )),
    decreases s.len() + 1 - from,
{
    if from <= s.len() && !at(s, p, from) {
        lemma_found(s, p, from + 1);
    }
}

/// The place of the first `p` in `v` at or after `from`.
pub fn find_text(v: &Vec<char>, p: &Vec<char>, from: usize) -> (r: Option<usize>)
    requires
        from <= v@.len(),
    ensures
        r is None <==> find_from(v@, p@, from as int) == -1,
        r matches Some(k) ==> k == find_from(v@, p@, from as int) && at(v@, p@, k as int) && from
            <= k,
{
    let mut k: usize = from;
    loop
        invariant
            from <= k <= v@.len(),
            find_from(v@, p@, from as int) == find_from(v@, p@, k as int),
        decreases v@.len() - k,
    {
        if stands_at(v, p, k) {
            return Some(k);
        }
        if k == v.len() {
            assert(find_from(v@, p@, k + 1) == -1);
            return None;
        }
        k = k + 1;
    }
}

/// The parts of `s` between `p`s, from `from` on.
pub open spec fn blocks_from(s: Seq<char>, p: Seq<char>, from: int) -> Seq<Seq<char>>
    decreases s.len() - from,
{
    let k = find_from(s, p, from);
    if p.len() == 0 || from < 0 || k < from || k + p.len() > s.len() {
        seq![s.subrange(from, s.len() as int)]
    } else {
        seq![s.subrange(from, k)] + blocks_from(s, p, k + p.len())
    }
}

/// The parts of `v` between `p`s.
pub fn split_text(v: &Vec<char>, p: &Vec<char>) -> (r: Vec<Vec<char>>)
    requires
        p@.len() > 0,
    ensures
        texts(r@) == blocks_from(v@, p@, 0),
{
    let n: usize = v.len();
    let mut r: Vec<Vec<char>> = Vec::new();
    let mut from: usize = 0;
    assert(texts(r@) + blocks_from(v@, p@, 0) =~= blocks_from(v@, p@, 0));
    loop
        invariant_except_break
            p@.len() > 0,
            n == v@.len(),
            from <= v@.len(),
            texts(r@) + blocks_from(v@, p@, from as int) == blocks_from(v@, p@, 0),
        ensures
            texts(r@) == blocks_from(v@, p@, 0),
        decreases v@.len() - from,
    {
        let ghost r0 = r@;
        match find_text(v, p, from) {
            Some(k) => {
                let part: Vec<char> = cut(v, from, k);
                let ghost pt = part@;
                r.push(part);
                proof {
                    assert(texts(r@) =~= texts(r0).push(pt));
                    let rest = blocks_from(v@, p@, k + p@.len());
                    assert(texts(r@) + rest =~= texts(r0) + (seq![pt] + rest));
                }
                from = k + p.len();
            },
            None => {
                let part: Vec<char> = cut(v, from, v.len());
                let ghost pt = part@;
                r.push(part);
                proof {
                    assert(texts(r@) =~= texts(r0).push(pt));
                    assert(texts(r@) =~= texts(r0) + seq![pt]);
                }
                break;
            },
        }
    }
    r
}

/// A line without its carriage return.
pub open spec fn chomp(s: Seq<char>) -> Seq<char> {
    if s.len() > 0 && s.last() == '\r' {
        s.drop_last()
    } else {
        s
    }
}

/// The lines of a text: what stands between line feeds, each without a trailing
/// carriage return. A line feed at the end starts no further line.
pub open spec fn lines_of(s: Seq<char>) -> Seq<Seq<char>> {
    let parts = split(s, '\n');
    let kept = if parts.last().len() == 0 {
        parts.drop_last()
    } else {
        parts
    };
    Seq::new(
        kept.len(),
        |i: int|
            if i == parts.len() - 1 {
                kept[i]
            } else {
                chomp(kept[i])
            },
    )
}

/// A text has its first line, then those of the rest.
pub proof fn lemma_first_line(line: Seq<char>, rest: Seq<char>)
    requires
        !line.contains('\n'),
    ensures
        lines_of(line + seq!['\n'] + rest) == seq![chomp(line)] + lines_of(rest),
{
    let s = line + seq!['\n'] + rest;
    lemma_split_first(line, rest, '\n');
    lemma_split_nonempty(rest, just('\n'));
    let parts = split(s, '\n');
    let more = split(rest, '\n');
    assert(parts.last() == more.last());
    assert(lines_of(s) =~= seq![chomp(line)] + lines_of(rest));
}

/// There are no lines in an empty text.
pub proof fn lemma_no_lines()
    ensures
        lines_of(Seq::empty()) == Seq::<Seq<char>>::empty(),
{
    assert(split(Seq::empty(), '\n') =~= seq![Seq::<char>::empty()]);
    assert(lines_of(Seq::empty()) =~= Seq::<Seq<char>>::empty());
}

/// What stands before the first separator is the first part.
pub(crate) proof fn lemma_split_first(a: Seq<char>, rest: Seq<char>, c: char)
    requires
        !a.contains(c),
    ensures
        split(a + seq![c] + rest, c) == seq![a] + split(rest, c),
    decreases a.len(),
{
    let s = a + seq![c] + rest;
    let tail = s.subrange(1, s.len() as int);
    if a.len() == 0 {
        assert(tail =~= rest);
        assert(a =~= Seq::empty());
        assert(s[0] == c);
        assert(just(c)(s[0]));
        assert(split(s, c) =~= seq![a] + split(rest, c));
    } else {
        let b = a.subrange(1, a.len() as int);
        assert(!b.contains(c)) by {
            if b.contains(c) {
                let i = choose|i: int| 0 <= i < b.len() && b[i] == c;
                assert(a[i + 1] == c);
            }
        }
        lemma_split_first(b, rest, c);
        assert(tail =~= b + seq![c] + rest);
        assert(a[0] != c);
        let r = split(tail, c);
        assert(r == seq![b] + split(rest, c));
        assert(r[0] == b);
        assert(r.subrange(1, r.len() as int) =~= split(rest, c));
        assert(seq![a[0]] + b =~= a);
        assert(s[0] == a[0]);
        assert(split(s, c) =~= seq![a] + split(rest, c));
    }
}

/// A text that neither begins nor ends with white space is its own trimming.
pub proof fn lemma_trimmed_already(s: Seq<char>)
    requires
        s.len() > 0 ==> !is_space(s[0]) && !is_space(s.last()),
    ensures
        trim(s) == s,
{
}

/// A key and its value part at the first separator.
pub proof fn lemma_key_and_value(key: Seq<char>, value: Seq<char>, c: char)
    requires
        !key.contains(c),
    ensures
        index_of(key + seq![c] + value, c) == key.len(),
        before(key + seq![c] + value, c) == key,
        after(key + seq![c] + value, c) == value,
{
    let s = key + seq![c] + value;
    assert forall|i: int| 0 <= i < key.len() implies s[i] != c by {
        assert(key.contains(key[i]));
    }
    lemma_is_index_of(s, c, key.len() as int);
    assert(before(s, c) =~= key);
    assert(after(s, c) =~= value);
}

/// The lines of a text.
pub fn lines(v: &Vec<char>) -> (r: Vec<Vec<char>>)
    ensures
        texts(r@) == lines_of(v@),
{
    let parts: Vec<Vec<char>> = split_char(v, '\n');
    let n: usize = parts.len();
    let ghost want = lines_of(v@);
    assert(texts(parts@).last() == parts@.last()@);
    let kept: usize = if parts[n - 1].len() == 0 {
        n - 1
    } else {
        n
    };
    let mut r: Vec<Vec<char>> = Vec::new();
    let mut i: usize = 0;
    while i < kept
        invariant
            i <= kept <= n == parts@.len(),
            texts(parts@) == split(v@, '\n'),
            want == lines_of(v@),
            want.len() == kept,
            r@.len() == i,
            forall|k: int| 0 <= k < i ==> (#[trigger] r@[k])@ == want[k],
        decreases kept - i,
    {
        let line: &Vec<char> = &parts[i];
        assert(line@ == texts(parts@)[i as int]);
        let m: usize = line.len();
        let piece: Vec<char> = if i + 1 < n && m > 0 && line[m - 1] == '\r' {
            cut(line, 0, m - 1)
        } else {
            cut(line, 0, m)
        };
        assert(line@.subrange(0, m as int) =~= line@);
        proof {
            if m > 0 {
                assert(line@.subrange(0, m - 1) =~= line@.drop_last());
            }
        }
        r.push(piece);
        i = i + 1;
    }
    assert(texts(r@) =~= want);
    r
}

/// How many characters stand before the first white space.
pub open spec fn word_len(s: Seq<char>) -> int
    decreases s.len(),
{
    if s.len() == 0 || is_space(s[0]) {
        0
    } else {
        1 + word_len(s.subrange(1, s.len() as int))
    }
}

proof fn lemma_word_len(s: Seq<char>, k: int)
    requires
        0 <= k <= s.len(),
        forall|i: int| 0 <= i < k ==> !is_space(#[trigger] s[i]),
        k < s.len() ==> is_space(s[k]),
    ensures
        word_len(s) == k,
    decreases s.len(),
{
    if s.len() > 0 && k > 0 {
        assert(!is_space(s[0]));
        lemma_word_len(s.subrange(1, s.len() as int), k - 1);
    }
}

proof fn lemma_word_len_bounds(s: Seq<char>)
    ensures
        0 <= word_len(s) <= s.len(),
        s.len() > 0 && !is_space(s[0]) ==> word_len(s) > 0,
    decreases s.len(),
{
    if s.len() > 0 && !is_space(s[0]) {
        lemma_word_len_bounds(s.subrange(1, s.len() as int));
    }
}

proof fn lemma_trim_start(s: Seq<char>)
    ensures
        trim_start(s).len() <= s.len(),
        trim_start(s).len() > 0 ==> !is_space(trim_start(s)[0]),
    decreases s.len(),
{
    if s.len() > 0 && is_space(s[0]) {
        lemma_trim_start(s.subrange(1, s.len() as int));
    }
}

/// The words of a text: what stands between white space.
pub open spec fn words_of(s: Seq<char>) -> Seq<Seq<char>>
    decreases s.len(),
    via words_of_decreases
{
    let t = trim_start(s);
    if t.len() == 0 {
        Seq::empty()
    } else {
        seq![t.subrange(0, word_len(t))] + words_of(t.subrange(word_len(t), t.len() as int))
    }
}

#[via_fn]
proof fn words_of_decreases(s: Seq<char>) {
    lemma_trim_start(s);
    lemma_word_len_bounds(trim_start(s));
}

/// The words of a text.
pub fn words(v: &Vec<char>) -> (r: Vec<Vec<char>>)
    ensures
        texts(r@) == words_of(v@),
{
    let n: usize = v.len();
    let mut r: Vec<Vec<char>> = Vec::new();
    let mut i: usize = 0;
    proof {
        assert(v@.subrange(0, n as int) =~= v@);
        assert(texts(r@) + words_of(v@) =~= words_of(v@));
    }
    loop
        invariant
            i <= n == v@.len(),
            texts(r@) + words_of(v@.subrange(i as int, n as int)) == words_of(v@),
        ensures
            texts(r@) == words_of(v@),
        decreases n - i,
    {
        let ghost s = v@.subrange(i as int, n as int);
        let mut a: usize = i;
        while a < n && space(v[a])
            invariant
                i <= a <= n == v@.len(),
                s == v@.subrange(i as int, n as int),
                trim_start(s) == trim_start(v@.subrange(a as int, n as int)),
            decreases n - a,
        {
            proof {
                let t = v@.subrange(a as int, n as int);
                assert(t.subrange(1, t.len() as int) =~= v@.subrange(a + 1, n as int));
            }
            a = a + 1;
        }
        let ghost t = v@.subrange(a as int, n as int);
        assert(trim_start(s) == t);
        if a == n {
            assert(words_of(s) =~= Seq::empty());
            assert(texts(r@) + words_of(s) =~= texts(r@));
            break;
        }
        let mut b: usize = a;
        while b < n && !space(v[b])
            invariant
                a <= b <= n == v@.len(),
                forall|k: int| a <= k < b ==> !is_space(#[trigger] v@[k]),
            decreases n - b,
        {
            b = b + 1;
        }
        proof {
            assert forall|k: int| 0 <= k < b - a implies !is_space(#[trigger] t[k]) by {
                assert(t[k] == v@[a + k]);
            }
            lemma_word_len(t, b - a);
            assert(t.subrange(0, b - a) =~= v@.subrange(a as int, b as int));
            assert(t.subrange(b - a, t.len() as int) =~= v@.subrange(b as int, n as int));
        }
        let w: Vec<char> = cut(v, a, b);
        let ghost r0 = r@;
        let ghost wt = w@;
        r.push(w);
        proof {
            assert(texts(r@) =~= texts(r0).push(wt));
            let rest = words_of(v@.subrange(b as int, n as int));
            assert(words_of(s) == seq![wt] + rest);
            assert(texts(r@) + rest =~= texts(r0) + (seq![wt] + rest));
        }
        i = b;
    }
    r
}

// ---- numbers --------------------------------------------------------------

/// Every character is a decimal digit.
pub open spec fn all_digits(s: Seq<char>) -> bool {
    forall|i: int| 0 <= i < s.len() ==> is_digit(#[trigger] s[i])
}

/// The number that some digits spell.
pub open spec fn number(s: Seq<char>) -> nat
    decreases s.len(),
{
    if s.len() == 0 {
        0
    } else {
        number(s.drop_last()) * 10 + digit_value(s.last())
    }
}

/// The digits of an unsigned number: a plus sign may stand before them.
pub open spec fn unsigned_digits(s: Seq<char>) -> Seq<char> {
    if s.len() > 0 && s[0] == '+' {
        s.subrange(1, s.len() as int)
    } else {
        s
    }
}

/// The unsigned number of at most `max` that a text spells, if it does.
pub open spec fn parse_unsigned(s: Seq<char>, max: nat) -> Option<nat> {
    let d = unsigned_digits(s);
    if d.len() > 0 && all_digits(d) && number(d) <= max {
        Some(number(d))
    } else {
        None
    }
}

/// More digits never make a number smaller.
proof fn lemma_number_grows(s: Seq<char>, n: int)
    requires
        0 <= n <= s.len(),
    ensures
        number(s.take(n)) <= number(s),
    decreases s.len(),
{
    if n == s.len() {
        assert(s.take(n) =~= s);
    } else {
        lemma_number_grows(s.drop_last(), n);
        assert(s.drop_last().take(n) =~= s.take(n));
    }
}

/// The unsigned number of at most `max` that the characters spell.
pub fn parse_max(v: &Vec<char>, max: u64) -> (r: Option<u64>)
    ensures
        r is Some <==> parse_unsigned(v@, max as nat) is Some,
        r matches Some(n) ==> Some(n as nat) == parse_unsigned(v@, max as nat),
{
    let d: Vec<char> = if v.len() > 0 && v[0] == '+' {
        cut(v, 1, v.len())
    } else {
        cut(v, 0, v.len())
    };
    assert(v@.subrange(0, v@.len() as int) =~= v@);
    assert(d@ == unsigned_digits(v@));
    if d.len() == 0 {
        return None;
    }
    let mut n: u64 = 0;
    let mut i: usize = 0;
    while i < d.len()
        invariant
            i <= d@.len(),
            n == number(d@.take(i as int)),
            n <= max,
            d@ == unsigned_digits(v@),
            d@.len() > 0,
            forall|k: int| 0 <= k < i ==> is_digit(#[trigger] d@[k]),
        decreases d@.len() - i,
    {
        let c: char = d[i];
        if !(c >= '0' && c <= '9') {
            assert(!is_digit(d@[i as int]));
            return None;
        }
        let x: u64 = (c as u32 - '0' as u32) as u64;
        proof {
            assert(d@.take(i + 1).drop_last() =~= d@.take(i as int));
            assert(d@.take(i + 1).last() == c);
            lemma_number_grows(d@, i + 1);
        }
        if n > max / 10 {
            return None;
        }
        let m: u64 = n * 10;
        if x > max - m {
            return None;
        }
        n = m + x;
        i = i + 1;
    }
    assert(d@.take(i as int) =~= d@);
    Some(n)
}

/// The `u32` that the characters spell.
pub fn parse_u32(v: &Vec<char>) -> (r: Option<u32>)
    ensures
        r is Some <==> parse_unsigned(v@, u32::MAX as nat) is Some,
        r matches Some(n) ==> Some(n as nat) == parse_unsigned(v@, u32::MAX as nat),
{
    match parse_max(v, u32::MAX as u64) {
        Some(n) => Some(n as u32),
        None => None,
    }
}

/// The `u64` that the characters spell.
pub fn parse_u64(v: &Vec<char>) -> (r: Option<u64>)
    ensures
        r is Some <==> parse_unsigned(v@, u64::MAX as nat) is Some,
        r matches Some(n) ==> Some(n as nat) == parse_unsigned(v@, u64::MAX as nat),
{
    parse_max(v, u64::MAX)
}

/// The signed number of 32 bits that a text spells, if it does: a sign may stand
/// before the digits.
pub open spec fn parse_signed(s: Seq<char>) -> Option<int> {
    if s.len() > 0 && s[0] == '-' {
        let d = s.subrange(1, s.len() as int);
        if d.len() > 0 && all_digits(d) && number(d) <= 0x8000_0000 {
            Some(-(number(d) as int))
        } else {
            None
        }
    } else {
        match parse_unsigned(s, 0x7FFF_FFFF) {
            Some(n) => Some(n as int),
            None => None,
        }
    }
}

/// The `i32` that the characters spell.
pub fn parse_i32(v: &Vec<char>) -> (r: Option<i32>)
    ensures
        r is Some <==> parse_signed(v@) is Some,
        r matches Some(n) ==> Some(n as int) == parse_signed(v@),
{
    if v.len() > 0 && v[0] == '-' {
        let d: Vec<char> = cut(v, 1, v.len());
        if d.len() > 0 && d[0] == '+' {
            assert(!is_digit(d@[0]));
            return None;
        }
        assert(unsigned_digits(d@) == d@);
        match parse_max(&d, 0x8000_0000) {
            Some(n) => Some((-(n as i64)) as i32),
            None => None,
        }
    } else {
        match parse_max(v, 0x7FFF_FFFF) {
            Some(n) => Some(n as i32),
            None => None,
        }
    }
}

/// The value of a hexadecimal digit.
pub open spec fn hex_value(c: char) -> nat {
    if is_digit(c) {
        digit_value(c)
    } else if 'a' <= c <= 'f' {
        (c as u32 - 'a' as u32 + 10) as nat
    } else {
        (c as u32 - 'A' as u32 + 10) as nat
    }
}

/// The number that some hexadecimal digits spell.
pub open spec fn hex_number(s: Seq<char>) -> nat
    decreases s.len(),
{
    if s.len() == 0 {
        0
    } else {
        hex_number(s.drop_last()) * 16 + hex_value(s.last())
    }
}

/// The unsigned number of at most `max` that a text spells in hexadecimal.
pub open spec fn parse_hex(s: Seq<char>, max: nat) -> Option<nat> {
    let d = unsigned_digits(s);
    if d.len() > 0 && (forall|i: int| 0 <= i < d.len() ==> is_hex(#[trigger] d[i])) && hex_number(d)
        <= max {
        Some(hex_number(d))
    } else {
        None
    }
}

proof fn lemma_hex_grows(s: Seq<char>, n: int)
    requires
        0 <= n <= s.len(),
    ensures
        hex_number(s.take(n)) <= hex_number(s),
    decreases s.len(),
{
    if n == s.len() {
        assert(s.take(n) =~= s);
    } else {
        lemma_hex_grows(s.drop_last(), n);
        assert(s.drop_last().take(n) =~= s.take(n));
    }
}

/// The `u16` that the characters spell in hexadecimal.
pub fn parse_hex_u16(v: &Vec<char>) -> (r: Option<u16>)
    ensures
        r is Some <==> parse_hex(v@, u16::MAX as nat) is Some,
        r matches Some(n) ==> Some(n as nat) == parse_hex(v@, u16::MAX as nat),
{
    let d: Vec<char> = if v.len() > 0 && v[0] == '+' {
        cut(v, 1, v.len())
    } else {
        cut(v, 0, v.len())
    };
    assert(v@.subrange(0, v@.len() as int) =~= v@);
    assert(d@ == unsigned_digits(v@));
    if d.len() == 0 {
        return None;
    }
    let mut n: u32 = 0;
    let mut i: usize = 0;
    while i < d.len()
        invariant
            i <= d@.len(),
            n == hex_number(d@.take(i as int)),
            n <= 0xFFFF,
            d@ == unsigned_digits(v@),
            d@.len() > 0,
            forall|k: int| 0 <= k < i ==> is_hex(#[trigger] d@[k]),
        decreases d@.len() - i,
    {
        let c: char = d[i];
        let x: u32 = if c >= '0' && c <= '9' {
            c as u32 - '0' as u32
        } else if c >= 'a' && c <= 'f' {
            c as u32 - 'a' as u32 + 10
        } else if c >= 'A' && c <= 'F' {
            c as u32 - 'A' as u32 + 10
        } else {
            assert(!is_hex(d@[i as int]));
            return None;
        };
        proof {
            assert(d@.take(i + 1).drop_last() =~= d@.take(i as int));
            assert(d@.take(i + 1).last() == c);
            lemma_hex_grows(d@, i + 1);
        }
        n = n * 16 + x;
        if n > 0xFFFF {
            return None;
        }
        i = i + 1;
    }
    assert(d@.take(i as int) =~= d@);
    Some(n as u16)
}

/// The decimal digit of a value below ten.
pub open spec fn digit_char(n: nat) -> char {
    ('0' as u32 + n) as char
}

/// A number in decimal.
pub open spec fn decimal(n: nat) -> Seq<char>
    decreases n,
{
    if n < 10 {
        seq![digit_char(n)]
    } else {
        decimal(n / 10).push(digit_char(n % 10))
    }
}

fn digit_of(n: u64) -> (r: char)
    requires
        n < 10,
    ensures
        r == digit_char(n as nat),
{
    match n {
        0 => '0',
        1 => '1',
        2 => '2',
        3 => '3',
        4 => '4',
        5 => '5',
        6 => '6',
        7 => '7',
        8 => '8',
        _ => '9',
    }
}

/// A number in decimal.
pub fn decimal_of(n: u64) -> (r: Vec<char>)
    ensures
        r@ == decimal(n as nat),
    decreases n,
{
    if n < 10 {
        let mut r: Vec<char> = Vec::new();
        r.push(digit_of(n));
        assert(r@ =~= decimal(n as nat));
        r
    } else {
        let mut r: Vec<char> = decimal_of(n / 10);
        r.push(digit_of(n % 10));
        r
    }
}

/// Append a number in decimal to `a`.
pub fn put_number(a: &mut Vec<char>, n: u64)
    ensures
        final(a)@ == old(a)@ + decimal(n as nat),
{
    extend(a, &decimal_of(n));
}

/// A hexadecimal digit of a value below sixteen.
pub open spec fn hex_char(n: nat, upper: bool) -> char {
    if n < 10 {
        digit_char(n)
    } else if upper {
        ('A' as u32 + (n - 10)) as char
    } else {
        ('a' as u32 + (n - 10)) as char
    }
}

/// The lowest `width` hexadecimal digits of a number.
pub open spec fn hex(n: nat, width: nat, upper: bool) -> Seq<char>
    decreases width,
{
    if width == 0 {
        Seq::empty()
    } else {
        hex(n / 16, (width - 1) as nat, upper).push(hex_char(n % 16, upper))
    }
}

fn hex_digit_of(n: u32, upper: bool) -> (r: char)
    requires
        n < 16,
    ensures
        r == hex_char(n as nat, upper),
{
    if n < 10 {
        digit_of(n as u64)
    } else if upper {
        match n {
            10 => 'A',
            11 => 'B',
            12 => 'C',
            13 => 'D',
            14 => 'E',
            _ => 'F',
        }
    } else {
        match n {
            10 => 'a',
            11 => 'b',
            12 => 'c',
            13 => 'd',
            14 => 'e',
            _ => 'f',
        }
    }
}

/// Append the lowest `width` hexadecimal digits of a number.
pub fn put_hex(a: &mut Vec<char>, n: u32, width: usize, upper: bool)
    ensures
        final(a)@ == old(a)@ + hex(n as nat, width as nat, upper),
    decreases width,
{
    if width == 0 {
        assert(a@ =~= old(a)@ + hex(n as nat, 0, upper));
    } else {
        put_hex(a, n / 16, width - 1, upper);
        a.push(hex_digit_of(n % 16, upper));
        assert(a@ =~= old(a)@ + hex(n as nat, width as nat, upper));
    }
}

/// Sixteen to a power.
pub open spec fn pow16(k: nat) -> nat
    decreases k,
{
    if k == 0 {
        1
    } else {
        16 * pow16((k - 1) as nat)
    }
}

/// Hexadecimal digits of a number that fits read back as the number.
pub proof fn law_hex_reads_back(n: nat, width: nat, upper: bool)
    requires
        n < pow16(width),
    ensures
        hex(n, width, upper).len() == width,
        hex_number(hex(n, width, upper)) == n,
    decreases width,
{
    let s = hex(n, width, upper);
    if width > 0 {
        assert(n / 16 < pow16((width - 1) as nat));
        law_hex_reads_back(n / 16, (width - 1) as nat, upper);
        assert(s.drop_last() =~= hex(n / 16, (width - 1) as nat, upper));
        assert(s.last() == hex_char(n % 16, upper));
        assert(hex_value(hex_char(n % 16, upper)) == n % 16);
    }
}

/// What is written in decimal reads back as the same number.
pub proof fn law_decimal_reads_back(n: nat)
    ensures
        all_digits(decimal(n)),
        decimal(n).len() > 0,
        number(decimal(n)) == n,
        decimal(n)[0] != '+',
        parse_unsigned(decimal(n), n) == Some(n),
    decreases n,
{
    if n < 10 {
        assert(decimal(n).drop_last() =~= Seq::empty());
        assert(number(decimal(n).drop_last()) == 0);
        assert(digit_value(digit_char(n)) == n);
    } else {
        law_decimal_reads_back(n / 10);
        let s = decimal(n);
        assert(s.drop_last() =~= decimal(n / 10));
        assert(s.last() == digit_char(n % 10));
        assert forall|i: int| 0 <= i < s.len() implies is_digit(#[trigger] s[i]) by {
            if i < s.len() - 1 {
                assert(s[i] == decimal(n / 10)[i]);
            }
        }
        assert(digit_value(digit_char(n % 10)) == n % 10);
        assert(s[0] == decimal(n / 10)[0]);
    }
    assert(unsigned_digits(decimal(n)) == decimal(n));
}

// ---- UTF-16 ---------------------------------------------------------------

/// The UTF-16 code units of a character.
pub open spec fn units(c: char) -> Seq<u16> {
    let n = c as u32;
    if n < 0x1_0000 {
        seq![n as u16]
    } else {
        seq![(0xD800 + (n - 0x1_0000) / 0x400) as u16, (0xDC00 + (n - 0x1_0000) % 0x400) as u16]
    }
}

/// The UTF-16 code units of a text.
pub open spec fn utf16(s: Seq<char>) -> Seq<u16>
    decreases s.len(),
{
    if s.len() == 0 {
        Seq::empty()
    } else {
        utf16(s.drop_last()) + units(s.last())
    }
}

/// Append the UTF-16 code units of a text.
pub fn put_units(out: &mut Vec<u16>, s: &str)
    ensures
        final(out)@ == old(out)@ + utf16(s@),
{
    let ghost o = out@;
    let v: Vec<char> = chars_of(s);
    let mut i: usize = 0;
    assert(out@ =~= o + utf16(v@.take(0)));
    while i < v.len()
        invariant
            i <= v@.len(),
            out@ == o + utf16(v@.take(i as int)),
        decreases v@.len() - i,
    {
        let n: u32 = v[i] as u32;
        let ghost before = out@;
        if n < 0x1_0000 {
            out.push(n as u16);
        } else {
            out.push((0xD800 + (n - 0x1_0000) / 0x400) as u16);
            out.push((0xDC00 + (n - 0x1_0000) % 0x400) as u16);
        }
        proof {
            let c = v@[i as int];
            assert(out@ =~= before + units(c));
            assert(v@.take(i + 1).drop_last() =~= v@.take(i as int));
            assert(v@.take(i + 1).last() == c);
            assert(out@ =~= o + utf16(v@.take(i + 1)));
        }
        i = i + 1;
    }
    assert(v@.take(i as int) =~= v@);
}

/// A text as the wide string that Windows takes: ended by a zero.
pub fn wide(s: &str) -> (r: Vec<u16>)
    ensures
        r@ == utf16(s@).push(0),
{
    let mut r: Vec<u16> = Vec::new();
    put_units(&mut r, s);
    r.push(0);
    assert(r@ =~= utf16(s@).push(0));
    r
}

/// A high surrogate.
pub open spec fn is_lead(u: u16) -> bool {
    0xD800 <= u < 0xDC00
}

/// A low surrogate.
pub open spec fn is_trail(u: u16) -> bool {
    0xDC00 <= u < 0xE000
}

/// The text of some UTF-16 code units: a surrogate without its partner reads as the
/// replacement character.
pub open spec fn utf16_text(u: Seq<u16>) -> Seq<char>
    decreases u.len(),
{
    if u.len() == 0 {
        Seq::empty()
    } else if is_lead(u[0]) && u.len() > 1 && is_trail(u[1]) {
        seq![(0x1_0000 + (u[0] - 0xD800) * 0x400 + (u[1] - 0xDC00)) as char] + utf16_text(u.skip(2))
    } else if is_lead(u[0]) || is_trail(u[0]) {
        seq!['\u{FFFD}'] + utf16_text(u.skip(1))
    } else {
        seq![u[0] as char] + utf16_text(u.skip(1))
    }
}

/// `String::from_utf16_lossy`, which decodes UTF-16 and puts U+FFFD for what is
/// invalid, that is for each surrogate without its partner.
#[verifier::external_body]
pub(crate) fn text_of_units(u: &[u16]) -> (r: String)
    ensures
        r@ == utf16_text(u@),
{
    String::from_utf16_lossy(u)
}

/// Text written in UTF-16 reads back as it was.
pub proof fn law_wide_text_reads_back(s: Seq<char>)
    ensures
        utf16_text(utf16(s)) == s,
    decreases s.len(),
{
    if s.len() > 0 {
        law_wide_text_reads_back(s.drop_last());
        lemma_text_of_units(s.drop_last(), s.last());
        assert(s =~= s.drop_last().push(s.last()));
    }
}

proof fn lemma_text_of_units(s: Seq<char>, c: char)
    ensures
        utf16_text(utf16(s) + units(c)) == utf16_text(utf16(s)).push(c),
    decreases s.len(),
{
    lemma_utf16_front(s);
    let n = c as u32;
    if s.len() == 0 {
        assert(utf16(s) + units(c) =~= units(c));
        assert(units(c).skip(units(c).len() as int) =~= Seq::empty());
        assert(utf16_text(Seq::empty()) =~= Seq::<char>::empty());
        lemma_units(c, Seq::empty());
        assert(units(c) + Seq::<u16>::empty() =~= units(c));
        assert(utf16_text(units(c)) =~= utf16_text(utf16(s)).push(c));
    } else {
        let rest = s.skip(1);
        lemma_text_of_units(rest, c);
        assert(utf16(s) + units(c) =~= units(s[0]) + (utf16(rest) + units(c)));
        lemma_units(s[0], utf16(rest) + units(c));
        lemma_units(s[0], utf16(rest));
        assert(utf16_text(utf16(s) + units(c)) =~= utf16_text(utf16(s)).push(c));
    }
}

/// The first character's units come first.
proof fn lemma_utf16_front(s: Seq<char>)
    ensures
        s.len() > 0 ==> utf16(s) == units(s[0]) + utf16(s.skip(1)),
    decreases s.len(),
{
    if s.len() == 1 {
        assert(s.drop_last() =~= Seq::empty());
        assert(s.skip(1) =~= Seq::empty());
        assert(utf16(s) =~= units(s[0]) + utf16(s.skip(1)));
    } else if s.len() > 1 {
        lemma_utf16_front(s.drop_last());
        assert(s.drop_last().skip(1) =~= s.skip(1).drop_last());
        assert(utf16(s) =~= units(s[0]) + utf16(s.skip(1)));
    }
}

/// The units of a character decode to it, whatever follows.
proof fn lemma_units(c: char, rest: Seq<u16>)
    ensures
        utf16_text(units(c) + rest) == seq![c] + utf16_text(rest),
{
    let n = c as u32;
    let u = units(c) + rest;
    if n < 0x1_0000 {
        assert(u.skip(1) =~= rest);
        assert(u[0] == n);
        assert(u[0] as char == c);
    } else {
        assert(u.skip(2) =~= rest);
        assert(u[0] == 0xD800 + (n - 0x1_0000) / 0x400);
        assert(u[1] == 0xDC00 + (n - 0x1_0000) % 0x400);
        assert((0x1_0000 + (u[0] - 0xD800) * 0x400 + (u[1] - 0xDC00)) as char == c);
    }
}

/// The wide strings of the first `n` items, each ended by a zero.
pub open spec fn wide_items(items: Seq<String>, n: int) -> Seq<u16>
    decreases n,
{
    if n <= 0 {
        Seq::empty()
    } else {
        (wide_items(items, n - 1) + utf16(items[n - 1]@)).push(0)
    }
}

/// A list of wide strings as Windows takes it: each ended by a zero, the whole by
/// one more.
pub fn multi_sz(items: &Vec<String>) -> (r: Vec<u16>)
    ensures
        r@ == wide_items(items@, items@.len() as int).push(0),
{
    let mut r: Vec<u16> = Vec::new();
    let mut i: usize = 0;
    while i < items.len()
        invariant
            i <= items@.len(),
            r@ == wide_items(items@, i as int),
        decreases items@.len() - i,
    {
        put_units(&mut r, items[i].as_str());
        r.push(0);
        i = i + 1;
    }
    r.push(0);
    r
}

// ---- laws -------------------------------------------------------------------

/// `part` is what stands in `s` from `i` up to `j`, and what stands around it is all white
/// space.
pub open spec fn is_core(s: Seq<char>, part: Seq<char>, i: int, j: int) -> bool {
    &&& 0 <= i <= j <= s.len()
    &&& part == s.subrange(i, j)
    &&& forall|k: int| 0 <= k < i ==> is_space(#[trigger] s[k])
    &&& forall|k: int| j <= k < s.len() ==> is_space(#[trigger] s[k])
}

proof fn lemma_trim_start_core(s: Seq<char>)
    ensures
        is_core(s, trim_start(s), s.len() - trim_start(s).len(), s.len() as int),
    decreases s.len(),
{
    if s.len() > 0 && is_space(s[0]) {
        let t = s.subrange(1, s.len() as int);
        lemma_trim_start_core(t);
        let i = s.len() - trim_start(s).len();
        assert forall|k: int| 0 <= k < i implies is_space(#[trigger] s[k]) by {
            if k > 0 {
                assert(t[k - 1] == s[k]);
        assert(is_space(t[k - 1]));
            }
        }
        assert(trim_start(s) =~= s.subrange(i, s.len() as int));
    } else {
        assert(trim_start(s) =~= s.subrange(0, s.len() as int));
    }
}

proof fn lemma_trim_end_core(s: Seq<char>)
    ensures
        is_core(s, trim_end(s), 0, trim_end(s).len() as int),
        trim_end(s).len() > 0 ==> !is_space(trim_end(s).last()),
    decreases s.len(),
{
    if s.len() > 0 && is_space(s.last()) {
        let t = s.drop_last();
        lemma_trim_end_core(t);
        let j = trim_end(s).len() as int;
        assert forall|k: int| j <= k < s.len() implies is_space(#[trigger] s[k]) by {
            if k < t.len() {
                assert(t[k] == s[k]);
        assert(is_space(t[k]));
            }
        }
        assert(trim_end(s) =~= s.subrange(0, j));
    } else {
        assert(trim_end(s) =~= s.subrange(0, s.len() as int));
    }
}

/// Trimming takes white space off both ends, all of it and nothing else: what is left stands
/// in the text with only white space around it, and neither begins nor ends with any.
pub proof fn law_trimming_takes_white_space_alone(s: Seq<char>)
    ensures
        exists|i: int, j: int| #[trigger] is_core(s, trim(s), i, j),
        trim(s).len() > 0 ==> !is_space(trim(s)[0]) && !is_space(trim(s).last()),
        trim(trim(s)) == trim(s),
{
    let t = trim_start(s);
    lemma_trim_start_core(s);
    lemma_trim_end_core(t);
    lemma_trim_start(s);
    let i = s.len() - t.len();
    let j = i + trim(s).len();
    assert(trim(s) =~= s.subrange(i, j));
    assert forall|k: int| 0 <= k < i implies is_space(#[trigger] s[k]) by {
        assert(is_space(s[k]));
    }
    assert forall|k: int| j <= k < s.len() implies is_space(#[trigger] s[k]) by {
        assert(t[k - i] == s[k]);
        assert(is_space(t[k - i]));
    }
    assert(is_core(s, trim(s), i, j));
    if trim(s).len() > 0 {
        assert(trim(s)[0] == t[0]);
        lemma_trimmed_already(trim(s));
    }
}

/// Some parts with `c` between them.
pub open spec fn join(parts: Seq<Seq<char>>, c: char) -> Seq<char>
    decreases parts.len(),
{
    if parts.len() == 0 {
        Seq::empty()
    } else if parts.len() == 1 {
        parts[0]
    } else {
        parts[0] + seq![c] + join(parts.subrange(1, parts.len() as int), c)
    }
}

/// Splitting is undone by joining, and no part holds the separator.
pub proof fn law_split_and_join(s: Seq<char>, c: char)
    ensures
        join(split(s, c), c) == s,
        split(s, c).len() >= 1,
        forall|i: int| 0 <= i < split(s, c).len() ==> !(#[trigger] split(s, c)[i]).contains(c),
    decreases s.len(),
{
    let p = split(s, c);
    lemma_split_nonempty(s, just(c));
    if s.len() == 0 {
        assert(join(p, c) =~= s);
    } else {
        let t = s.subrange(1, s.len() as int);
        law_split_and_join(t, c);
        let r = split(t, c);
        lemma_split_nonempty(t, just(c));
        assert(s =~= seq![s[0]] + t);
        if s[0] == c {
            assert(just(c)(s[0]));
            assert(p[0] =~= Seq::<char>::empty());
            assert(p.subrange(1, p.len() as int) =~= r);
            assert(join(p, c) =~= s);
            assert forall|i: int| 0 <= i < p.len() implies !(#[trigger] p[i]).contains(c) by {
                if i > 0 {
                    assert(p[i] == r[i - 1]);
                }
            }
        } else {
            assert(!just(c)(s[0]));
            let rest = r.subrange(1, r.len() as int);
            assert(p[0] == seq![s[0]] + r[0]);
            assert(p.subrange(1, p.len() as int) =~= rest);
            if r.len() == 1 {
                assert(p.len() == 1);
                assert(join(p, c) =~= s);
            } else {
                assert(join(r, c) == r[0] + seq![c] + join(rest, c));
                assert(join(p, c) =~= seq![s[0]] + join(r, c));
            }
            assert forall|i: int| 0 <= i < p.len() implies !(#[trigger] p[i]).contains(c) by {
                if i > 0 {
                    assert(p[i] == r[i]);
                } else {
                    assert(!r[0].contains(c));
                    if p[0].contains(c) {
                        let k = choose|k: int| 0 <= k < p[0].len() && p[0][k] == c;
                        assert(r[0][k - 1] == c);
                    }
                }
            }
        }
    }
}

/// What stands after the last separator ends the text, holds no separator, and is either all
/// of it or follows one.
pub proof fn law_after_the_last(s: Seq<char>, c: char)
    ensures
        after_last(s, c).len() <= s.len(),
        after_last(s, c) == s.subrange(s.len() - after_last(s, c).len(), s.len() as int),
        !after_last(s, c).contains(c),
        after_last(s, c).len() < s.len() ==> s[s.len() - after_last(s, c).len() - 1] == c,
    decreases s.len(),
{
    let r = after_last(s, c);
    if s.len() == 0 || s.last() == c {
        assert(r =~= s.subrange(s.len() - r.len(), s.len() as int));
    } else {
        law_after_the_last(s.drop_last(), c);
        let h = after_last(s.drop_last(), c);
        assert(r =~= s.subrange(s.len() - r.len(), s.len() as int));
        if r.contains(c) {
            let k = choose|k: int| 0 <= k < r.len() && r[k] == c;
            assert(k < h.len());
            assert(h[k] == c);
        }
    }
}

/// The first place found is the first there is, and none is found only where there is none.
pub proof fn law_the_first_is_found(s: Seq<char>, p: Seq<char>, from: int, k: int)
    requires
        0 <= from <= k,
        at(s, p, k),
    ensures
        from <= find_from(s, p, from) <= k,
        at(s, p, find_from(s, p, from)),
    decreases k - from,
{
    if !at(s, p, from) {
        law_the_first_is_found(s, p, from + 1, k);
    }
}

/// Made small, a text keeps its length, has no capital left, and is as small as it can be; two
/// texts that differ in capitals alone become one. Letters of the alphabet become their small
/// ones, which stand 32 places on.
pub proof fn law_lower_makes_capitals_small(s: Seq<char>, i: int)
    requires
        0 <= i < s.len(),
    ensures
        lower(s).len() == s.len(),
        lower(lower(s)) == lower(s),
        !('A' <= lower(s)[i] <= 'Z'),
        'A' <= s[i] <= 'Z' ==> lower(s)[i] as u32 == s[i] as u32 + 32,
        !('A' <= s[i] <= 'Z') ==> lower(s)[i] == s[i],
{
    assert forall|k: int| 0 <= k < s.len() implies #[trigger] lower(lower(s))[k] == lower(s)[k] by {
        let c = s[k];
        assert(lower(s)[k] == lower_char(c));
        if 'A' <= c <= 'Z' {
            assert(lower_char(c) as u32 == c as u32 + 32);
        }
    }
    assert(lower(lower(s)) =~= lower(s));
    let c = s[i];
    if 'A' <= c <= 'Z' {
        assert(lower_char(c) as u32 == c as u32 + 32);
    }
}

/// A word, white space and the rest are the word and the words of the rest; white space in
/// front makes no difference.
pub proof fn law_words_come_one_by_one(word: Seq<char>, sep: char, rest: Seq<char>)
    requires
        word.len() > 0,
        forall|i: int| 0 <= i < word.len() ==> !is_space(#[trigger] word[i]),
        is_space(sep),
    ensures
        words_of(word + seq![sep] + rest) == seq![word] + words_of(rest),
        words_of(seq![sep] + rest) == words_of(rest),
        words_of(word) == seq![word],
{
    let s = word + seq![sep] + rest;
    assert(!is_space(word[0]));
    assert(s[0] == word[0]);
    assert(trim_start(s) == s);
    assert forall|i: int| 0 <= i < word.len() implies !is_space(#[trigger] s[i]) by {
        assert(s[i] == word[i]);
    }
    lemma_word_len(s, word.len() as int);
    let tail = s.subrange(word.len() as int, s.len() as int);
    assert(s.subrange(0, word.len() as int) =~= word);
    assert(tail =~= seq![sep] + rest);
    lemma_space_first(sep, rest);
    assert(words_of(s) == seq![word] + words_of(tail));
    lemma_word_len(word, word.len() as int);
    assert(word.subrange(0, word.len() as int) =~= word);
    let none = word.subrange(word.len() as int, word.len() as int);
    assert(trim_start(none).len() == 0);
    assert(words_of(none) =~= Seq::<Seq<char>>::empty());
    assert(words_of(word) =~= seq![word]);
}

proof fn lemma_space_first(sep: char, rest: Seq<char>)
    requires
        is_space(sep),
    ensures
        words_of(seq![sep] + rest) == words_of(rest),
{
    let t = seq![sep] + rest;
    assert(t.subrange(1, t.len() as int) =~= rest);
    assert(trim_start(t) == trim_start(rest));
}

/// No word is empty or holds white space.
pub proof fn law_words_hold_no_white_space(s: Seq<char>)
    ensures
        forall|k: int| 0 <= k < words_of(s).len() ==> (#[trigger] words_of(s)[k]).len() > 0,
        forall|k: int, i: int|
            0 <= k < words_of(s).len() && 0 <= i < words_of(s)[k].len() ==> !is_space(
                #[trigger] words_of(s)[k][i],
            ),
    decreases s.len(),
{
    let t = trim_start(s);
    lemma_trim_start(s);
    if t.len() > 0 {
        lemma_word_len_bounds(t);
        lemma_word_chars(t);
        let rest = t.subrange(word_len(t), t.len() as int);
        law_words_hold_no_white_space(rest);
        let w = words_of(s);
        let r = words_of(rest);
        assert forall|k: int| 0 <= k < w.len() implies (#[trigger] w[k]).len() > 0 by {
            if k > 0 {
                assert(w[k] == r[k - 1]);
            }
        }
        assert forall|k: int, i: int| 0 <= k < w.len() && 0 <= i < w[k].len() implies !is_space(
            #[trigger] w[k][i],
        ) by {
            if k > 0 {
                assert(w[k] == r[k - 1]);
                assert(!is_space(r[k - 1][i]));
            } else {
                assert(w[0][i] == t[i]);
            }
        }
    }
}

proof fn lemma_word_chars(s: Seq<char>)
    ensures
        forall|i: int| 0 <= i < word_len(s) ==> !is_space(#[trigger] s[i]),
    decreases s.len(),
{
    lemma_word_len_bounds(s);
    if s.len() > 0 && !is_space(s[0]) {
        let t = s.subrange(1, s.len() as int);
        lemma_word_chars(t);
        assert forall|i: int| 0 <= i < word_len(s) implies !is_space(#[trigger] s[i]) by {
            if i > 0 {
                assert(t[i - 1] == s[i]);
            }
        }
    }
}

/// Digits count by their places: what stands in front counts ten times as much for each digit
/// behind it, and a leading zero counts nothing. A digit counts from 0 to 9.
pub proof fn law_digits_count_by_place(s: Seq<char>, c: char)
    requires
        is_digit(c),
    ensures
        number(s.push(c)) == 10 * number(s) + digit_value(c),
        digit_value(c) <= 9,
        number(seq!['0'] + s) == number(s),
        number(seq![c]) == digit_value(c),
    decreases s.len(),
{
    assert(s.push(c).drop_last() =~= s);
    assert(seq![c].drop_last() =~= Seq::<char>::empty());
    assert(number(Seq::<char>::empty()) == 0);
    let z = seq!['0'] + s;
    if s.len() == 0 {
        assert(z =~= seq!['0']);
        assert(seq!['0'].drop_last() =~= Seq::<char>::empty());
    } else {
        law_digits_count_by_place(s.drop_last(), c);
        assert(z.drop_last() =~= seq!['0'] + s.drop_last());
    }
}

/// A signed number reads back as it is written, with its sign, as far as 32 bits go.
pub proof fn law_signed_numbers_read_back(n: nat)
    ensures
        n <= 0x7FFF_FFFF ==> parse_signed(decimal(n)) == Some(n as int),
        n <= 0x8000_0000 ==> parse_signed(seq!['-'] + decimal(n)) == Some(-(n as int)),
        n > 0x7FFF_FFFF ==> parse_signed(decimal(n)) is None,
        n > 0x8000_0000 ==> parse_signed(seq!['-'] + decimal(n)) is None,
{
    law_decimal_reads_back(n);
    let d = decimal(n);
    let m = seq!['-'] + d;
    assert(m.subrange(1, m.len() as int) =~= d);
    assert(is_digit(d[0]));
    assert(unsigned_digits(d) == d);
}

/// An unsigned number is read exactly where it is at most the greatest that is allowed, with
/// a plus sign or without.
pub proof fn law_unsigned_numbers_have_a_limit(n: nat, max: nat)
    ensures
        parse_unsigned(decimal(n), max) == if n <= max {
            Some(n)
        } else {
            None
        },
        parse_unsigned(seq!['+'] + decimal(n), max) == parse_unsigned(decimal(n), max),
        parse_unsigned(Seq::empty(), max) is None,
{
    law_decimal_reads_back(n);
    let d = decimal(n);
    assert(is_digit(d[0]));
    assert(unsigned_digits(d) == d);
    let p = seq!['+'] + d;
    assert(unsigned_digits(p) =~= d);
}

} // verus!
