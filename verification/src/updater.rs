//! Self-update: which release is newer, whether it is signed, and how both of its
//! files are put in place or neither.

use crate::text::{
    all_digits, chars_of, contains, decimal, either, has_text, is_digit, law_decimal_reads_back,
    law_unsigned_numbers_have_a_limit, lemma_split_nonempty, parse_u64, parse_unsigned, put,
    split_by, split_either, string_of, texts, trim, trim_start_char, trimmed, trimmed_start_char,
};
use base64::Engine;
use vstd::prelude::*;
use vstd::utf8::{decode_utf8, valid_utf8};

verus! {

// ---- outside functions ----------------------------------------------------

/// The string at `key` of the JSON object that `body` spells: none where `body` is
/// no JSON, no object, has no such member, or has one that is no string.
pub uninterp spec fn json_member(body: Seq<char>, key: Seq<char>) -> Option<Seq<char>>;

/// What `base64::engine::general_purpose::STANDARD` decodes a text to, if it does.
pub uninterp spec fn base64_decoded(text: Seq<char>) -> Option<Seq<u8>>;

/// What `minisign_verify::PublicKey::from_base64` says against a key, if anything.
pub uninterp spec fn public_key_error(key: Seq<char>) -> Option<Seq<char>>;

/// What `minisign_verify::Signature::decode` says against a signature, if anything.
pub uninterp spec fn signature_error(sig: Seq<char>) -> Option<Seq<char>>;

/// What `minisign_verify::PublicKey::verify` says against a payload under a key
/// and a signature, if anything. Signatures of the legacy kind are not allowed.
pub uninterp spec fn payload_error(key: Seq<char>, sig: Seq<char>, payload: Seq<u8>) -> Option<
    Seq<char>,
>;

/// `serde_json::from_str` into a `serde_json::Value`, of which `get` and `as_str`
/// pick one string. It claims that the result depends on the two texts alone.
#[verifier::external_body]
fn json_string(body: &str, key: &str) -> (r: Option<String>)
    ensures
        r is Some <==> json_member(body@, key@) is Some,
        r matches Some(s) ==> json_member(body@, key@) == Some(s@),
{
    let v: serde_json::Value = serde_json::from_str(body).ok()?;
    let s: &str = v.get(key)?.as_str()?;
    Some(s.to_string())
}

/// `base64::Engine::decode` of the standard engine. It claims that the result
/// depends on the text alone.
#[verifier::external_body]
fn decode_base64(text: &str) -> (r: Option<Vec<u8>>)
    ensures
        r is Some <==> base64_decoded(text@) is Some,
        r matches Some(b) ==> base64_decoded(text@) == Some(b@),
{
    base64::engine::general_purpose::STANDARD.decode(text).ok()
}

/// `String::from_utf8`: the text of some bytes where they are valid UTF-8.
#[verifier::external_body]
fn utf8_text(b: Vec<u8>) -> (r: Option<String>)
    ensures
        r is Some <==> valid_utf8(b@),
        r matches Some(s) ==> s@ == decode_utf8(b@),
{
    String::from_utf8(b).ok()
}

/// `minisign_verify::PublicKey::from_base64`, as what it says against the key. It
/// claims that the result depends on the text alone.
#[verifier::external_body]
fn check_public_key(key: &str) -> (r: Option<String>)
    ensures
        r is Some <==> public_key_error(key@) is Some,
        r matches Some(e) ==> public_key_error(key@) == Some(e@),
{
    match minisign_verify::PublicKey::from_base64(key) {
        Ok(_) => None,
        Err(e) => Some(e.to_string()),
    }
}

/// `minisign_verify::Signature::decode`, as what it says against the signature. It
/// claims that the result depends on the text alone.
#[verifier::external_body]
fn check_signature(sig: &str) -> (r: Option<String>)
    ensures
        r is Some <==> signature_error(sig@) is Some,
        r matches Some(e) ==> signature_error(sig@) == Some(e@),
{
    match minisign_verify::Signature::decode(sig) {
        Ok(_) => None,
        Err(e) => Some(e.to_string()),
    }
}

/// `minisign_verify::PublicKey::verify`, without legacy signatures, as what it
/// says against the payload. It claims that the result depends on the key, the
/// signature and the payload alone. An unusable key or signature speaks against
/// every payload.
#[verifier::external_body]
fn check_payload(key: &str, sig: &str, payload: &[u8]) -> (r: Option<String>)
    requires
        public_key_error(key@) is None,
        signature_error(sig@) is None,
    ensures
        r is Some <==> payload_error(key@, sig@, payload@) is Some,
        r matches Some(e) ==> payload_error(key@, sig@, payload@) == Some(e@),
{
    let k = match minisign_verify::PublicKey::from_base64(key) {
        Ok(k) => k,
        Err(e) => return Some(e.to_string()),
    };
    let s = match minisign_verify::Signature::decode(sig) {
        Ok(s) => s,
        Err(e) => return Some(e.to_string()),
    };
    match k.verify(payload, &s, false) {
        Ok(_) => None,
        Err(e) => Some(e.to_string()),
    }
}

// ---- errors ---------------------------------------------------------------

/// Why an update was not applied.
#[derive(Debug, PartialEq, Eq)]
pub enum UpdateError {
    Http(String),
    Parse(String),
    Verify(String),
    Io(String),
    NotSafe,
}

impl UpdateError {
    /// The error in words.
    pub fn text(&self) -> (r: String)
        ensures
            r@ == (match *self {
                UpdateError::Http(e) => "download failed: "@ + e@,
                UpdateError::Parse(e) => "bad update manifest: "@ + e@,
                UpdateError::Verify(e) => "signature check failed: "@ + e@,
                UpdateError::Io(e) => "could not write the update: "@ + e@,
                UpdateError::NotSafe => "Marvel is running"@,
            }),
    {
        match self {
            UpdateError::Http(e) => joined("download failed: ", e.as_str()),
            UpdateError::Parse(e) => joined("bad update manifest: ", e.as_str()),
            UpdateError::Verify(e) => joined("signature check failed: ", e.as_str()),
            UpdateError::Io(e) => joined("could not write the update: ", e.as_str()),
            UpdateError::NotSafe => string_of(&chars_of("Marvel is running")),
        }
    }
}

fn joined(a: &str, b: &str) -> (r: String)
    ensures
        r@ == a@ + b@,
{
    let mut v: Vec<char> = chars_of(a);
    put(&mut v, b);
    string_of(&v)
}

// ---- versions -------------------------------------------------------------

/// The number that a part of a version stands for: 0 where it is none.
pub open spec fn part_number(p: Seq<char>) -> u64 {
    match parse_unsigned(p, u64::MAX as nat) {
        Some(n) => n as u64,
        None => 0,
    }
}

/// The numbers of a version: between dots and dashes, behind any leading `v`s.
pub open spec fn version_parts(s: Seq<char>) -> Seq<u64> {
    let p = split_by(trim_start_char(s, 'v'), either('.', '-'));
    Seq::new(p.len(), |i: int| part_number(p[i]))
}

/// Part `i` of a version; a missing part is 0.
pub open spec fn part(x: Seq<u64>, i: int) -> u64 {
    if 0 <= i < x.len() {
        x[i]
    } else {
        0
    }
}

/// Some part of `x` is larger than that of `y`, and all before it are the same.
pub open spec fn beyond(x: Seq<u64>, y: Seq<u64>) -> bool {
    exists|i: int|
        0 <= i && #[trigger] part(x, i) > part(y, i) && forall|j: int|
            0 <= j < i ==> #[trigger] part(x, j) == part(y, j)
}

fn numbers(s: &str) -> (r: Vec<u64>)
    ensures
        r@ == version_parts(s@),
{
    let v: Vec<char> = trimmed_start_char(&chars_of(s), 'v');
    let ps: Vec<Vec<char>> = split_either(&v, '.', '-');
    let ghost t = texts(ps@);
    let mut r: Vec<u64> = Vec::new();
    let mut i: usize = 0;
    while i < ps.len()
        invariant
            i <= ps@.len(),
            t == texts(ps@),
            r@.len() == i,
            forall|k: int| 0 <= k < i ==> #[trigger] r@[k] == part_number(t[k]),
        decreases ps@.len() - i,
    {
        assert(t[i as int] == ps@[i as int]@);
        let n: u64 = match parse_u64(&ps[i]) {
            Some(n) => n,
            None => 0,
        };
        r.push(n);
        i = i + 1;
    }
    assert(r@ =~= version_parts(s@));
    r
}

/// Whether version `a` is newer than `b`: by number, part by part. A missing part
/// counts as 0.
pub fn is_newer(a: &str, b: &str) -> (r: bool)
    ensures
        r == beyond(version_parts(a@), version_parts(b@)),
{
    let x: Vec<u64> = numbers(a);
    let y: Vec<u64> = numbers(b);
    let n: usize = if x.len() > y.len() {
        x.len()
    } else {
        y.len()
    };
    let mut i: usize = 0;
    while i < n
        invariant
            i <= n,
            n >= x@.len(),
            n >= y@.len(),
            x@ == version_parts(a@),
            y@ == version_parts(b@),
            forall|j: int| 0 <= j < i ==> #[trigger] part(x@, j) == part(y@, j),
        decreases n - i,
    {
        let l: u64 = if i < x.len() {
            x[i]
        } else {
            0
        };
        let r: u64 = if i < y.len() {
            y[i]
        } else {
            0
        };
        assert(l == part(x@, i as int) && r == part(y@, i as int));
        if l != r {
            proof {
                if l < r && beyond(x@, y@) {
                    let k = choose|k: int|
                        0 <= k && #[trigger] part(x@, k) > part(y@, k) && forall|j: int|
                            0 <= j < k ==> #[trigger] part(x@, j) == part(y@, j);
                    if k > i {
                        assert(part(x@, i as int) == part(y@, i as int));
                    }
                }
            }
            return l > r;
        }
        i = i + 1;
    }
    proof {
        if beyond(x@, y@) {
            let k = choose|k: int|
                0 <= k && #[trigger] part(x@, k) > part(y@, k) && forall|j: int|
                    0 <= j < k ==> #[trigger] part(x@, j) == part(y@, j);
            assert(part(x@, k) == part(y@, k));
        }
    }
    false
}

/// No version is newer than itself, and of two versions at most one is newer.
pub proof fn law_newer_is_one_way(a: Seq<u64>, b: Seq<u64>)
    ensures
        !beyond(a, a),
        !(beyond(a, b) && beyond(b, a)),
{
    if beyond(a, b) && beyond(b, a) {
        let i = choose|i: int|
            0 <= i && #[trigger] part(a, i) > part(b, i) && forall|j: int|
                0 <= j < i ==> #[trigger] part(a, j) == part(b, j);
        let k = choose|k: int|
            0 <= k && #[trigger] part(b, k) > part(a, k) && forall|j: int|
                0 <= j < k ==> #[trigger] part(b, j) == part(a, j);
        if i < k {
            assert(part(b, i) == part(a, i));
        } else if k < i {
            assert(part(a, k) == part(b, k));
        }
    }
}

/// What is newer than a newer version is newer.
pub proof fn law_newer_chains(a: Seq<u64>, b: Seq<u64>, c: Seq<u64>)
    requires
        beyond(a, b),
        beyond(b, c),
    ensures
        beyond(a, c),
{
    let i = choose|i: int|
        0 <= i && #[trigger] part(a, i) > part(b, i) && forall|j: int|
            0 <= j < i ==> #[trigger] part(a, j) == part(b, j);
    let k = choose|k: int|
        0 <= k && #[trigger] part(b, k) > part(c, k) && forall|j: int|
            0 <= j < k ==> #[trigger] part(b, j) == part(c, j);
    let m = if i < k {
        i
    } else {
        k
    };
    assert(part(a, m) > part(c, m)) by {
        if i < k {
            assert(part(b, i) == part(c, i));
        } else if k < i {
            assert(part(a, k) == part(b, k));
        }
    }
    assert forall|j: int| 0 <= j < m implies #[trigger] part(a, j) == part(c, j) by {
        assert(part(a, j) == part(b, j));
        assert(part(b, j) == part(c, j));
    }
}

// ---- the manifest ---------------------------------------------------------

/// A newer release.
#[derive(Debug, PartialEq, Eq)]
pub struct Update {
    pub version: String,
    pub exe_url: String,
    pub exe_sig_url: String,
    pub dll_url: String,
    pub dll_sig_url: String,
    pub notes: Option<String>,
}

/// The strings of a manifest, as far as it has them.
#[derive(Debug, PartialEq, Eq)]
pub struct Manifest {
    pub version: Option<String>,
    pub exe_url: Option<String>,
    pub dll_url: Option<String>,
    pub exe_sig_url: Option<String>,
    pub dll_sig_url: Option<String>,
    pub notes: Option<String>,
}

/// The text of a string that may be missing.
pub open spec fn text_of(s: Option<String>) -> Option<Seq<char>> {
    match s {
        Some(t) => Some(t@),
        None => None,
    }
}

/// Where a file's signature is: where the manifest says, or beside the file.
pub open spec fn sig_url(said: Option<Seq<char>>, url: Seq<char>) -> Seq<char> {
    match said {
        Some(u) => u,
        None => url + ".minisig"@,
    }
}

/// `u` is the update of a manifest with these members.
pub open spec fn is_update(
    u: Update,
    version: Seq<char>,
    exe: Seq<char>,
    dll: Seq<char>,
    exe_sig: Option<Seq<char>>,
    dll_sig: Option<Seq<char>>,
    notes: Option<Seq<char>>,
) -> bool {
    &&& u.version@ == version
    &&& u.exe_url@ == exe
    &&& u.exe_sig_url@ == sig_url(exe_sig, exe)
    &&& u.dll_url@ == dll
    &&& u.dll_sig_url@ == sig_url(dll_sig, dll)
    &&& text_of(u.notes) == notes
}

/// A manifest with these members offers something newer than `current`.
pub open spec fn offers(
    version: Option<Seq<char>>,
    exe: Option<Seq<char>>,
    dll: Option<Seq<char>>,
    current: Seq<char>,
) -> bool {
    version is Some && exe is Some && dll is Some && beyond(
        version_parts(version->0),
        version_parts(current),
    )
}

fn sig_or_default(said: Option<String>, url: &String) -> (r: String)
    ensures
        r@ == sig_url(text_of(said), url@),
{
    match said {
        Some(u) => u,
        None => joined(url.as_str(), ".minisig"),
    }
}

/// The update that a manifest offers, if it is newer than `current`. The files
/// must be named; their signatures are beside them unless it says otherwise.
pub fn update_from(m: Manifest, current: &str) -> (r: Option<Update>)
    ensures
        r is Some <==> offers(text_of(m.version), text_of(m.exe_url), text_of(m.dll_url), current@),
        r matches Some(u) ==> is_update(
            u,
            m.version->0@,
            m.exe_url->0@,
            m.dll_url->0@,
            text_of(m.exe_sig_url),
            text_of(m.dll_sig_url),
            text_of(m.notes),
        ),
{
    let version: String = match m.version {
        Some(v) => v,
        None => {
            return None;
        },
    };
    if !is_newer(version.as_str(), current) {
        return None;
    }
    let exe_url: String = match m.exe_url {
        Some(u) => u,
        None => {
            return None;
        },
    };
    let dll_url: String = match m.dll_url {
        Some(u) => u,
        None => {
            return None;
        },
    };
    let exe_sig_url: String = sig_or_default(m.exe_sig_url, &exe_url);
    let dll_sig_url: String = sig_or_default(m.dll_sig_url, &dll_url);
    Some(Update { version, exe_url, exe_sig_url, dll_url, dll_sig_url, notes: m.notes })
}

/// The update that the text of a manifest offers, if it is newer than `current`.
pub fn check_for_update(body: &str, current: &str) -> (r: Option<Update>)
    ensures
        r is Some <==> offers(
            json_member(body@, "version"@),
            json_member(body@, "exe_url"@),
            json_member(body@, "dll_url"@),
            current@,
        ),
        r matches Some(u) ==> is_update(
            u,
            json_member(body@, "version"@)->0,
            json_member(body@, "exe_url"@)->0,
            json_member(body@, "dll_url"@)->0,
            json_member(body@, "exe_sig_url"@),
            json_member(body@, "dll_sig_url"@),
            json_member(body@, "notes"@),
        ),
{
    let m = Manifest {
        version: json_string(body, "version"),
        exe_url: json_string(body, "exe_url"),
        dll_url: json_string(body, "dll_url"),
        exe_sig_url: json_string(body, "exe_sig_url"),
        dll_sig_url: json_string(body, "dll_sig_url"),
        notes: json_string(body, "notes"),
    };
    update_from(m, current)
}

// ---- signatures -----------------------------------------------------------

/// The key that releases are signed with. Until a real one stands here, every
/// update is refused.
pub fn public_key() -> (r: &'static str)
    ensures
        r@ == "RWQPLACEHOLDERREPLACEBEFORESHIPPINGxxxxxxxxxxxxxxxxxxxxx"@,
{
    "RWQPLACEHOLDERREPLACEBEFORESHIPPINGxxxxxxxxxxxxxxxxxxxxx"
}

/// Whether `key` is a real key: a placeholder says so.
pub fn is_configured(key: &str) -> (r: bool)
    ensures
        r == !contains(key@, "PLACEHOLDER"@),
{
    !has_text(&chars_of(key), &chars_of("PLACEHOLDER"))
}

/// Whether a real key has been set. Until then nothing is fetched at all.
pub fn configured() -> (r: bool)
    ensures
        r == !contains("RWQPLACEHOLDERREPLACEBEFORESHIPPINGxxxxxxxxxxxxxxxxxxxxx"@, "PLACEHOLDER"@),
{
    is_configured(public_key())
}

/// The signature's text: some tools wrap it in base64 once more. What was decoded
/// is taken only where it reads as a signature.
pub open spec fn raw_signature(decoded: Option<Seq<u8>>, sig: Seq<char>) -> Seq<char> {
    match decoded {
        Some(b) => if valid_utf8(b) && contains(decode_utf8(b), "untrusted comment"@) {
            decode_utf8(b)
        } else {
            sig
        },
        None => sig,
    }
}

/// The bytes that may be missing.
pub open spec fn bytes_of(b: Option<Vec<u8>>) -> Option<Seq<u8>> {
    match b {
        Some(v) => Some(v@),
        None => None,
    }
}

/// The signature's text, given what its text decodes to.
pub fn signature_text(decoded: Option<Vec<u8>>, sig: &str) -> (r: String)
    ensures
        r@ == raw_signature(bytes_of(decoded), sig@),
{
    match decoded {
        Some(b) => match utf8_text(b) {
            Some(s) => if has_text(&chars_of(s.as_str()), &chars_of("untrusted comment")) {
                s
            } else {
                string_of(&chars_of(sig))
            },
            None => string_of(&chars_of(sig)),
        },
        None => string_of(&chars_of(sig)),
    }
}

/// What the three checks come to: the first complaint refuses the payload.
pub open spec fn refusal(
    key: Option<Seq<char>>,
    sig: Option<Seq<char>>,
    payload: Option<Seq<char>>,
) -> Option<Seq<char>> {
    if key is Some {
        Some("bad public key: "@ + key->0)
    } else if sig is Some {
        Some("bad signature: "@ + sig->0)
    } else {
        payload
    }
}

/// `r` refuses with `why`, or accepts where there is nothing against it.
pub open spec fn refuses(r: Result<(), UpdateError>, why: Option<Seq<char>>) -> bool {
    match r {
        Ok(_) => why is None,
        Err(UpdateError::Verify(e)) => why == Some(e@),
        Err(_) => false,
    }
}

/// What the complaints about key, signature and payload come to.
pub fn verdict(
    key: Option<String>,
    sig: Option<String>,
    payload: Option<String>,
) -> (r: Result<(), UpdateError>)
    ensures
        refuses(r, refusal(text_of(key), text_of(sig), text_of(payload))),
{
    match (key, sig, payload) {
        (Some(e), _, _) => Err(UpdateError::Verify(joined("bad public key: ", e.as_str()))),
        (None, Some(e), _) => Err(UpdateError::Verify(joined("bad signature: ", e.as_str()))),
        (None, None, Some(e)) => Err(UpdateError::Verify(e)),
        (None, None, None) => Ok(()),
    }
}

/// Check that `payload` is signed by `key` with the signature in `sig`.
pub fn verify(key: &str, payload: &[u8], sig: &str) -> (r: Result<(), UpdateError>)
    ensures
        ({
            let raw = raw_signature(base64_decoded(trim(sig@)), sig@);
            let k = public_key_error(key@);
            let s = signature_error(raw);
            let p = if k is None && s is None {
                payload_error(key@, raw, payload@)
            } else {
                None
            };
            refuses(r, refusal(k, s, p))
        }),
{
    let key_says: Option<String> = check_public_key(key);
    let bare: String = string_of(&trimmed(&chars_of(sig)));
    let raw: String = signature_text(decode_base64(bare.as_str()), sig);
    let sig_says: Option<String> = check_signature(raw.as_str());
    let payload_says: Option<String> = if key_says.is_none() && sig_says.is_none() {
        check_payload(key, raw.as_str(), payload)
    } else {
        None
    };
    verdict(key_says, sig_says, payload_says)
}

// ---- applying -------------------------------------------------------------

/// Whether the files may be swapped: not while the game has the hook loaded.
pub fn safe_to_apply(game_running: bool) -> (r: bool)
    ensures
        r == !game_running,
{
    !game_running
}

/// What a check of the manifest leads to.
#[derive(Clone, Copy, Debug, PartialEq, Eq, Structural)]
pub enum CheckOutcome {
    /// There is nothing newer.
    Nothing,
    /// Apply it now.
    Apply,
    /// Remember it until the game is closed.
    Later,
}

/// What to do after a check of the manifest.
pub fn after_check(newer: bool, safe: bool) -> (r: CheckOutcome)
    ensures
        r == (if !newer {
            CheckOutcome::Nothing
        } else if safe {
            CheckOutcome::Apply
        } else {
            CheckOutcome::Later
        }),
{
    if !newer {
        CheckOutcome::Nothing
    } else if safe {
        CheckOutcome::Apply
    } else {
        CheckOutcome::Later
    }
}

/// One step of applying an update. Both files are fetched and verified before
/// either is written; the hook goes first because it is the half that can be
/// undone.
#[derive(Clone, Copy, Debug, PartialEq, Eq, Structural)]
pub enum ApplyStep {
    CheckSafe,
    VerifyExe,
    VerifyDll,
    WriteTemp,
    /// Move the live hook aside.
    BackupDll,
    WriteDll,
    ReplaceExe,
    /// Undo: take the new hook away again.
    RemoveDll,
    /// Undo a failed write: put the old hook back.
    PutBackDll,
    /// Undo a failed swap: put the old hook back.
    RestoreDll,
    /// Undo: remove the fetched program.
    RemoveTemp,
    /// Remove the old hook and the fetched program.
    Cleanup,
    Applied,
    Failed,
}

/// The step after `s`, which succeeded or not. `had_dll` is whether a hook was
/// there before.
pub open spec fn step_after(s: ApplyStep, ok: bool, had_dll: bool) -> ApplyStep {
    match s {
        ApplyStep::CheckSafe => if ok {
            ApplyStep::VerifyExe
        } else {
            ApplyStep::Failed
        },
        ApplyStep::VerifyExe => if ok {
            ApplyStep::VerifyDll
        } else {
            ApplyStep::Failed
        },
        ApplyStep::VerifyDll => if ok {
            ApplyStep::WriteTemp
        } else {
            ApplyStep::Failed
        },
        ApplyStep::WriteTemp => if !ok {
            ApplyStep::Failed
        } else if had_dll {
            ApplyStep::BackupDll
        } else {
            ApplyStep::WriteDll
        },
        ApplyStep::BackupDll => if ok {
            ApplyStep::WriteDll
        } else {
            ApplyStep::Failed
        },
        ApplyStep::WriteDll => if ok {
            ApplyStep::ReplaceExe
        } else if had_dll {
            ApplyStep::PutBackDll
        } else {
            ApplyStep::Failed
        },
        ApplyStep::ReplaceExe => if ok {
            ApplyStep::Cleanup
        } else {
            ApplyStep::RemoveDll
        },
        ApplyStep::RemoveDll => if had_dll {
            ApplyStep::RestoreDll
        } else {
            ApplyStep::RemoveTemp
        },
        ApplyStep::PutBackDll => ApplyStep::Failed,
        ApplyStep::RestoreDll => ApplyStep::RemoveTemp,
        ApplyStep::RemoveTemp => ApplyStep::Failed,
        ApplyStep::Cleanup => ApplyStep::Applied,
        ApplyStep::Applied => ApplyStep::Applied,
        ApplyStep::Failed => ApplyStep::Failed,
    }
}

/// The step after `s`, which succeeded or not.
pub fn apply_update(s: ApplyStep, ok: bool, had_dll: bool) -> (r: ApplyStep)
    ensures
        r == step_after(s, ok, had_dll),
{
    match s {
        ApplyStep::CheckSafe => if ok {
            ApplyStep::VerifyExe
        } else {
            ApplyStep::Failed
        },
        ApplyStep::VerifyExe => if ok {
            ApplyStep::VerifyDll
        } else {
            ApplyStep::Failed
        },
        ApplyStep::VerifyDll => if ok {
            ApplyStep::WriteTemp
        } else {
            ApplyStep::Failed
        },
        ApplyStep::WriteTemp => if !ok {
            ApplyStep::Failed
        } else if had_dll {
            ApplyStep::BackupDll
        } else {
            ApplyStep::WriteDll
        },
        ApplyStep::BackupDll => if ok {
            ApplyStep::WriteDll
        } else {
            ApplyStep::Failed
        },
        ApplyStep::WriteDll => if ok {
            ApplyStep::ReplaceExe
        } else if had_dll {
            ApplyStep::PutBackDll
        } else {
            ApplyStep::Failed
        },
        ApplyStep::ReplaceExe => if ok {
            ApplyStep::Cleanup
        } else {
            ApplyStep::RemoveDll
        },
        ApplyStep::RemoveDll => if had_dll {
            ApplyStep::RestoreDll
        } else {
            ApplyStep::RemoveTemp
        },
        ApplyStep::PutBackDll => ApplyStep::Failed,
        ApplyStep::RestoreDll => ApplyStep::RemoveTemp,
        ApplyStep::RemoveTemp => ApplyStep::Failed,
        ApplyStep::Cleanup => ApplyStep::Applied,
        ApplyStep::Applied => ApplyStep::Applied,
        ApplyStep::Failed => ApplyStep::Failed,
    }
}

/// A hook file.
#[derive(Clone, Copy, Debug, PartialEq, Eq, Structural)]
pub enum Hook {
    Missing,
    Old,
    New,
    /// A write that failed half-way.
    Broken,
}

/// What is installed: the program, the hook, and the hook moved aside.
pub struct Installed {
    pub exe_new: bool,
    pub hook: Hook,
    pub aside: bool,
}

/// What a step does to what is installed.
pub open spec fn effect(w: Installed, s: ApplyStep, ok: bool) -> Installed {
    match s {
        ApplyStep::BackupDll => if ok {
            Installed { hook: Hook::Missing, aside: true, ..w }
        } else {
            w
        },
        ApplyStep::WriteDll => Installed {
            hook: if ok {
                Hook::New
            } else {
                Hook::Broken
            },
            ..w
        },
        ApplyStep::ReplaceExe => if ok {
            Installed { exe_new: true, ..w }
        } else {
            w
        },
        ApplyStep::RemoveDll => if ok {
            Installed { hook: Hook::Missing, ..w }
        } else {
            w
        },
        ApplyStep::PutBackDll => if ok && w.aside {
            Installed { hook: Hook::Old, aside: false, ..w }
        } else {
            w
        },
        ApplyStep::RestoreDll => if ok && w.aside {
            Installed { hook: Hook::Old, aside: false, ..w }
        } else {
            w
        },
        ApplyStep::Cleanup => Installed { aside: false, ..w },
        _ => w,
    }
}

/// Where an update stands after the outcomes `oks`.
pub open spec fn progress(oks: Seq<bool>, had_dll: bool) -> (ApplyStep, Installed)
    decreases oks.len(),
{
    if oks.len() == 0 {
        (
            ApplyStep::CheckSafe,
            Installed {
                exe_new: false,
                hook: if had_dll {
                    Hook::Old
                } else {
                    Hook::Missing
                },
                aside: false,
            },
        )
    } else {
        let (s, w) = progress(oks.drop_last(), had_dll);
        (step_after(s, oks.last(), had_dll), effect(w, s, oks.last()))
    }
}

/// A step that undoes an earlier one.
pub open spec fn is_undo(s: ApplyStep) -> bool {
    s is RemoveDll || s is PutBackDll || s is RestoreDll
}

/// The undo steps of a run all succeed.
pub open spec fn undos_succeed(oks: Seq<bool>, had_dll: bool) -> bool {
    forall|i: int|
        0 <= i < oks.len() && is_undo(progress(oks.take(i), had_dll).0) ==> #[trigger] oks[i]
}

/// No first hook is left half-written: where none was there, its write succeeds.
pub open spec fn first_write_succeeds(oks: Seq<bool>, had_dll: bool) -> bool {
    forall|i: int|
        0 <= i < oks.len() && !had_dll && progress(oks.take(i), had_dll).0 is WriteDll
            ==> #[trigger] oks[i]
}

/// What holds at each step of a run.
spec fn consistent(s: ApplyStep, w: Installed, had_dll: bool) -> bool {
    let before = if had_dll {
        Hook::Old
    } else {
        Hook::Missing
    };
    match s {
        ApplyStep::CheckSafe => !w.exe_new && w.hook == before && !w.aside,
        ApplyStep::VerifyExe => !w.exe_new && w.hook == before && !w.aside,
        ApplyStep::VerifyDll => !w.exe_new && w.hook == before && !w.aside,
        ApplyStep::WriteTemp => !w.exe_new && w.hook == before && !w.aside,
        ApplyStep::BackupDll => !w.exe_new && w.hook == before && !w.aside && had_dll,
        ApplyStep::WriteDll => !w.exe_new && w.hook == Hook::Missing && w.aside == had_dll,
        ApplyStep::ReplaceExe => !w.exe_new && w.hook == Hook::New && w.aside == had_dll,
        ApplyStep::RemoveDll => !w.exe_new && w.aside == had_dll,
        ApplyStep::PutBackDll => !w.exe_new && w.aside && had_dll,
        ApplyStep::RestoreDll => !w.exe_new && w.aside && had_dll,
        ApplyStep::RemoveTemp => !w.exe_new && w.hook == before && !w.aside,
        ApplyStep::Failed => !w.exe_new && w.hook == before && !w.aside,
        ApplyStep::Cleanup => w.exe_new && w.hook == Hook::New,
        ApplyStep::Applied => w.exe_new && w.hook == Hook::New && !w.aside,
    }
}

proof fn lemma_consistent(oks: Seq<bool>, had_dll: bool)
    requires
        undos_succeed(oks, had_dll),
        first_write_succeeds(oks, had_dll),
    ensures
        consistent(progress(oks, had_dll).0, progress(oks, had_dll).1, had_dll),
    decreases oks.len(),
{
    if oks.len() > 0 {
        let ps = oks.drop_last();
        let n = oks.len() - 1;
        assert(oks.take(n) =~= ps);
        assert forall|i: int|
            0 <= i < ps.len() && is_undo(progress(ps.take(i), had_dll).0) implies #[trigger] ps[i] by {
            assert(ps.take(i) =~= oks.take(i));
            assert(ps[i] == oks[i]);
        }
        assert forall|i: int|
            0 <= i < ps.len() && !had_dll && progress(ps.take(i), had_dll).0
                is WriteDll implies #[trigger] ps[i] by {
            assert(ps.take(i) =~= oks.take(i));
            assert(ps[i] == oks[i]);
        }
        lemma_consistent(ps, had_dll);
        assert(oks.last() == oks[n]);
    }
}

/// An update is applied whole or not at all: it ends with both files new, or with
/// the program and the hook as they were. This rests on the undo steps succeeding,
/// and on a first hook not being left half-written.
pub proof fn law_both_or_neither(oks: Seq<bool>, had_dll: bool)
    requires
        undos_succeed(oks, had_dll),
        first_write_succeeds(oks, had_dll),
    ensures
        ({
            let (s, w) = progress(oks, had_dll);
            &&& s is Applied ==> w.exe_new && w.hook == Hook::New
            &&& s is Failed ==> !w.exe_new && w.hook == if had_dll {
                Hook::Old
            } else {
                Hook::Missing
            }
        }),
{
    lemma_consistent(oks, had_dll);
}

/// Nothing is written unless both files were fetched and verified: where the game
/// runs or either check fails, the update fails with everything as it was.
pub proof fn law_nothing_is_written_unless_both_are_verified(oks: Seq<bool>, had_dll: bool, i: int)
    requires
        0 <= i < oks.len(),
        i < 3,
        !oks[i],
    ensures
        progress(oks, had_dll).0 is Failed,
        !progress(oks, had_dll).1.exe_new,
        progress(oks, had_dll).1.hook == if had_dll {
            Hook::Old
        } else {
            Hook::Missing
        },
{
    lemma_failed_stays(oks, had_dll, i, oks.len() as int);
    assert(oks.take(oks.len() as int) =~= oks);
}

proof fn lemma_failed_stays(oks: Seq<bool>, had_dll: bool, i: int, n: int)
    requires
        0 <= i < 3,
        i < n <= oks.len(),
        !oks[i],
    ensures
        progress(oks.take(n), had_dll).0 is Failed,
        !progress(oks.take(n), had_dll).1.exe_new,
        progress(oks.take(n), had_dll).1.hook == if had_dll {
            Hook::Old
        } else {
            Hook::Missing
        },
    decreases n,
{
    let s = oks.take(n);
    assert(s.drop_last() =~= oks.take(n - 1));
    assert(s.last() == oks[n - 1]);
    if n > i + 1 {
        lemma_failed_stays(oks, had_dll, i, n - 1);
    } else {
        lemma_early(oks, had_dll, n - 1);
    }
}

proof fn lemma_early(oks: Seq<bool>, had_dll: bool, n: int)
    requires
        0 <= n < 3,
        n <= oks.len(),
    ensures
        ({
            let (s, w) = progress(oks.take(n), had_dll);
            &&& n == 0 ==> s is CheckSafe
            &&& n == 1 ==> s is VerifyExe || s is Failed
            &&& n == 2 ==> s is VerifyDll || s is Failed
            &&& !w.exe_new
            &&& w.hook == if had_dll {
                Hook::Old
            } else {
                Hook::Missing
            }
        }),
    decreases n,
{
    if n > 0 {
        assert(oks.take(n).drop_last() =~= oks.take(n - 1));
        lemma_early(oks, had_dll, n - 1);
    }
}

/// Of two versions of which neither is newer, every part is the same: the order is total.
pub proof fn law_versions_can_always_be_told_apart(a: Seq<u64>, b: Seq<u64>, i: int)
    requires
        !beyond(a, b),
        !beyond(b, a),
        0 <= i,
    ensures
        part(a, i) == part(b, i),
    decreases i,
{
    assert forall|j: int| 0 <= j < i implies #[trigger] part(a, j) == part(b, j) by {
        law_versions_can_always_be_told_apart(a, b, j);
    }
    if part(a, i) > part(b, i) {
        assert(beyond(a, b));
    } else if part(b, i) > part(a, i) {
        assert forall|j: int| 0 <= j < i implies #[trigger] part(b, j) == part(a, j) by {
            assert(part(a, j) == part(b, j));
        }
        assert(beyond(b, a));
    }
}

/// The first part that differs decides: a greater first part is newer whatever follows, and
/// with the same first part the next one decides. A missing part counts as zero.
pub proof fn law_the_first_difference_decides(a: Seq<u64>, b: Seq<u64>, x: u64, y: u64)
    ensures
        x > y ==> beyond(seq![x] + a, seq![y] + b),
        beyond(seq![x] + a, seq![x] + b) <==> beyond(a, b),
        !beyond(a, a + seq![0u64]) && !beyond(a + seq![0u64], a),
        y > 0 ==> beyond(a + seq![y], a),
{
    let (p, q) = (seq![x] + a, seq![y] + b);
    if x > y {
        assert(part(p, 0) > part(q, 0));
    }
    let r = seq![x] + b;
    assert(forall|i: int| #![trigger part(p, i)] i >= 1 ==> part(p, i) == part(a, i - 1));
    assert(forall|i: int| #![trigger part(r, i)] i >= 1 ==> part(r, i) == part(b, i - 1));
    assert(part(p, 0) == x && part(r, 0) == x);
    if beyond(a, b) {
        let i = choose|i: int|
            0 <= i && #[trigger] part(a, i) > part(b, i) && forall|j: int|
                0 <= j < i ==> #[trigger] part(a, j) == part(b, j);
        assert(part(p, i + 1) > part(r, i + 1));
        assert forall|j: int| 0 <= j < i + 1 implies #[trigger] part(p, j) == part(r, j) by {
            if j > 0 {
                assert(part(a, j - 1) == part(b, j - 1));
            }
        }
        assert(beyond(p, r));
    }
    if beyond(p, r) {
        let i = choose|i: int|
            0 <= i && #[trigger] part(p, i) > part(r, i) && forall|j: int|
                0 <= j < i ==> #[trigger] part(p, j) == part(r, j);
        assert(i > 0);
        assert(part(a, i - 1) > part(b, i - 1));
        assert forall|j: int| 0 <= j < i - 1 implies #[trigger] part(a, j) == part(b, j) by {
            assert(part(p, j + 1) == part(r, j + 1));
        }
        assert(beyond(a, b));
    }
    let z = a + seq![0u64];
    assert(forall|i: int| #[trigger] part(z, i) == part(a, i));
    let w = a + seq![y];
    if y > 0 {
        let n = a.len() as int;
        assert(part(w, n) > part(a, n));
        assert forall|j: int| 0 <= j < n implies #[trigger] part(w, j) == part(a, j) by {}
        assert(beyond(w, a));
    }
}

/// A version reads as its numbers, with a leading `v` or without.
pub proof fn law_a_version_reads_as_its_numbers(a: u64, b: u64)
    ensures
        version_parts(decimal(a as nat) + seq!['.'] + decimal(b as nat)) == seq![a, b],
        version_parts(seq!['v'] + (decimal(a as nat) + seq!['.'] + decimal(b as nat))) == seq![a, b],
{
    let (x, y) = (decimal(a as nat), decimal(b as nat));
    let s = x + seq!['.'] + y;
    law_decimal_reads_back(a as nat);
    law_decimal_reads_back(b as nat);
    assert(is_digit(x[0]));
    assert(s[0] == x[0]);
    assert(trim_start_char(s, 'v') == s);
    let t = seq!['v'] + s;
    assert(t.subrange(1, t.len() as int) =~= s);
    assert(trim_start_char(t, 'v') == s);
    let sep = either('.', '-');
    lemma_split_digits(x, seq!['.'] + y, sep);
    let u = seq!['.'] + y;
    assert(u.subrange(1, u.len() as int) =~= y);
    assert(sep(u[0]));
    lemma_split_digits(y, Seq::empty(), sep);
    assert(y + Seq::<char>::empty() =~= y);
    assert(x + u =~= s);
    assert(split_by(Seq::<char>::empty(), sep) =~= seq![Seq::<char>::empty()]);
    assert(split_by(y, sep) =~= seq![y]);
    assert(split_by(u, sep) =~= seq![Seq::<char>::empty(), y]);
    assert(split_by(s, sep) =~= seq![x, y]);
    law_unsigned_numbers_have_a_limit(a as nat, u64::MAX as nat);
    law_unsigned_numbers_have_a_limit(b as nat, u64::MAX as nat);
    assert(version_parts(s) =~= seq![a, b]);
    assert(version_parts(t) =~= seq![a, b]);
}

proof fn lemma_split_digits(d: Seq<char>, rest: Seq<char>, sep: spec_fn(char) -> bool)
    requires
        all_digits(d),
        sep == either('.', '-'),
    ensures
        ({
            let r = split_by(rest, sep);
            split_by(d + rest, sep) == seq![d + r[0]] + r.subrange(1, r.len() as int)
        }),
    decreases d.len(),
{
    lemma_split_nonempty(rest, sep);
    let r = split_by(rest, sep);
    let s = d + rest;
    if d.len() == 0 {
        assert(s =~= rest);
        assert(d + r[0] =~= r[0]);
        assert(seq![d + r[0]] + r.subrange(1, r.len() as int) =~= r);
    } else {
        let e = d.subrange(1, d.len() as int);
        assert forall|i: int| 0 <= i < e.len() implies is_digit(#[trigger] e[i]) by {
            assert(e[i] == d[i + 1]);
        }
        lemma_split_digits(e, rest, sep);
        assert(s.subrange(1, s.len() as int) =~= e + rest);
        assert(is_digit(d[0]));
        assert(!sep(s[0]));
        let q = split_by(e + rest, sep);
        assert(q.subrange(1, q.len() as int) =~= r.subrange(1, r.len() as int));
        assert(seq![d[0]] + (e + r[0]) =~= d + r[0]);
        assert(split_by(s, sep) =~= seq![d + r[0]] + r.subrange(1, r.len() as int));
    }
}

/// An update is offered exactly where a manifest names both files and a version that is newer
/// than the one that runs; the version that runs is never offered.
pub proof fn law_only_newer_versions_are_offered(
    version: Seq<char>,
    exe: Seq<char>,
    dll: Seq<char>,
    current: Seq<char>,
)
    ensures
        !offers(Some(current), Some(exe), Some(dll), current),
        offers(Some(version), Some(exe), Some(dll), current) ==> !offers(
            Some(current),
            Some(exe),
            Some(dll),
            version,
        ),
        !offers(None, Some(exe), Some(dll), current),
        !offers(Some(version), None, Some(dll), current),
        !offers(Some(version), Some(exe), None, current),
{
    law_newer_is_one_way(version_parts(version), version_parts(current));
    law_newer_is_one_way(version_parts(current), version_parts(current));
}

/// A payload is accepted exactly where nothing is said against key, signature or payload.
pub proof fn law_any_complaint_refuses(
    key: Option<Seq<char>>,
    sig: Option<Seq<char>>,
    payload: Option<Seq<char>>,
)
    ensures
        refusal(key, sig, payload) is None <==> key is None && sig is None && payload is None,
{
}

} // verus!
