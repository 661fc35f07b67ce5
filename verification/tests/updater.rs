//! Versions, manifests, signatures and the order of an installation.

use nobd::updater::{
    after_check, apply_update, check_for_update, configured, is_configured, is_newer, public_key,
    safe_to_apply, signature_text, update_from, verdict, verify, ApplyStep, CheckOutcome, Manifest,
    UpdateError,
};

#[test]
fn newer_versions_are_detected() {
    assert!(is_newer("0.7.1", "0.7.0"));
    assert!(is_newer("0.8.0", "0.7.9"));
    assert!(is_newer("1.0.0", "0.9.9"));
}

#[test]
fn same_or_older_is_not_an_update() {
    assert!(!is_newer("0.7.0", "0.7.0"));
    assert!(!is_newer("0.6.9", "0.7.0"));
}

/// Components are numbers, not text: as text "0.10.0" would come before "0.9.0".
#[test]
fn double_digit_components_compare_numerically() {
    assert!(is_newer("0.10.0", "0.9.0"));
    assert!(is_newer("0.7.10", "0.7.9"));
    assert!(!is_newer("0.9.0", "0.10.0"));
}

#[test]
fn a_v_prefix_and_missing_components_are_tolerated() {
    assert!(is_newer("v0.8.0", "0.7.0"));
    assert!(!is_newer("0.8", "0.8.0")); // "0.8" is "0.8.0", not newer
    assert!(is_newer("0.8.1", "0.8"));
}

/// A later version is later whichever way it is asked, and lateness carries over.
#[test]
fn later_is_one_way_and_carries_over() {
    assert!(is_newer("2.0", "1.9.9"));
    assert!(!is_newer("1.9.9", "2.0"));
    assert!(is_newer("1.9.9", "1.9"));
    assert!(is_newer("2.0", "1.9"));
    // A part that is no number counts as zero.
    assert!(!is_newer("1.0-beta", "1.0"));
    assert!(is_newer("1.0-2", "1.0-1"));
}

const MANIFEST: &str =
    "{\"version\":\"0.9.0\",\"exe_url\":\"https://x/e\",\"dll_url\":\"https://x/d\",\
     \"exe_sig_url\":\"https://x/e.minisig\",\"dll_sig_url\":\"https://x/d.minisig\",\"notes\":\"n\"}";

#[test]
fn a_newer_manifest_is_an_update() {
    let u = check_for_update(MANIFEST, "0.8.1").expect("newer");
    assert_eq!(u.version, "0.9.0");
    assert_eq!(u.exe_url, "https://x/e");
    assert_eq!(u.dll_url, "https://x/d");
    assert_eq!(u.exe_sig_url, "https://x/e.minisig");
    assert_eq!(u.dll_sig_url, "https://x/d.minisig");
    assert_eq!(u.notes.as_deref(), Some("n"));
}

#[test]
fn what_is_no_update_is_none() {
    assert!(check_for_update(MANIFEST, "0.9.0").is_none());
    assert!(check_for_update("not json", "0.1.0").is_none());
    assert!(check_for_update("{\"version\":\"9.0.0\"}", "0.1.0").is_none());
    assert!(check_for_update("{\"version\":7}", "0.1.0").is_none());
}

fn manifest(version: Option<&str>) -> Manifest {
    let some = |t: &str| Some(t.to_string());
    Manifest {
        version: version.map(|v| v.to_string()),
        exe_url: some("e"),
        dll_url: some("d"),
        exe_sig_url: some("es"),
        dll_sig_url: some("ds"),
        notes: None,
    }
}

#[test]
fn every_address_is_needed() {
    assert!(update_from(manifest(Some("2.0.0")), "1.0.0").is_some());
    assert!(update_from(manifest(None), "1.0.0").is_none());
    let mut m = manifest(Some("2.0.0"));
    m.dll_url = None;
    assert!(update_from(m, "1.0.0").is_none());
    let mut m = manifest(Some("2.0.0"));
    m.exe_url = None;
    assert!(update_from(m, "1.0.0").is_none());
    // A signature stands beside its file unless it is said where.
    let mut m = manifest(Some("2.0.0"));
    m.dll_sig_url = None;
    let u = update_from(m, "1.0.0").expect("newer");
    assert_eq!((u.exe_sig_url.as_str(), u.dll_sig_url.as_str()), ("es", "d.minisig"));
}

const KEY: &str = "RWQf6LRCGA9i53mlYecO4IzT51TGPpvWucNSCh1CBM0QTaLn73Y7GFO3";
const SIG: &str = "untrusted comment: signature from minisign secret key\n\
RUQf6LRCGA9i559r3g7V1qNyJDApGip8MfqcadIgT9CuhV3EMhHoN1mGTkUidF/z7SrlQgXdy8ofjb7bNJJylDOocrCo8KLzZwo=\n\
trusted comment: timestamp:1633700835\tfile:test\tprehashed\n\
wLMDjy9FLAuxZ3q4NlEvkgtyhrr0gtTu6KC4KBJdITbbOeAi1zBIYo0v4iTgt8jJpIidRJnp94ABQkJAgAooBQ==";

#[test]
fn a_true_signature_verifies() {
    assert_eq!(verify(KEY, b"test", SIG), Ok(()));
    // The same signature in base64, as a release may carry it.
    let wrapped = base64::Engine::encode(&base64::engine::general_purpose::STANDARD, SIG);
    assert_eq!(verify(KEY, b"test", &wrapped), Ok(()));
}

#[test]
fn anything_else_is_refused() {
    assert!(matches!(verify(KEY, b"Test", SIG), Err(UpdateError::Verify(_))));
    assert!(matches!(verify(KEY, b"test", "nonsense"), Err(UpdateError::Verify(_))));
    assert!(matches!(verify("nonsense", b"test", SIG), Err(UpdateError::Verify(_))));
    assert!(verify(public_key(), b"test", SIG).is_err());
}

#[test]
fn the_first_fault_is_the_verdict() {
    let some = |t: &str| Some(t.to_string());
    let refused = |t: &str| Err(UpdateError::Verify(t.to_string()));
    assert_eq!(verdict(None, None, None), Ok(()));
    assert_eq!(verdict(some("k"), None, None), refused("bad public key: k"));
    assert_eq!(verdict(some("k"), some("s"), some("p")), refused("bad public key: k"));
    assert_eq!(verdict(None, some("s"), some("p")), refused("bad signature: s"));
    assert_eq!(verdict(None, None, some("p")), refused("p"));
}

#[test]
fn a_signature_that_is_not_base64_is_taken_as_it_is() {
    assert_eq!(signature_text(None, "abc"), "abc");
    assert_eq!(signature_text(Some(b"text".to_vec()), "abc"), "abc");
    assert_eq!(signature_text(Some(b"untrusted comment: x".to_vec()), "abc"), "untrusted comment: x");
    assert_eq!(signature_text(Some(vec![0xFF, 0xFE]), "abc"), "abc");
}

#[test]
fn nothing_is_fetched_under_a_placeholder() {
    assert!(!configured());
    assert!(is_configured(KEY));
    assert!(!is_configured("RWQPLACEHOLDER"));
}

#[test]
fn errors_in_words() {
    let e = |t: &str| t.to_string();
    assert_eq!(UpdateError::Http(e("x")).text(), "download failed: x");
    assert_eq!(UpdateError::Parse(e("x")).text(), "bad update manifest: x");
    assert_eq!(UpdateError::Verify(e("x")).text(), "signature check failed: x");
    assert_eq!(UpdateError::Io(e("x")).text(), "could not write the update: x");
    assert_eq!(UpdateError::NotSafe.text(), "Marvel is running");
}

#[test]
fn an_update_waits_for_the_game() {
    assert!(safe_to_apply(false));
    assert!(!safe_to_apply(true));
    assert!(matches!(after_check(true, true), CheckOutcome::Apply));
    assert!(matches!(after_check(true, false), CheckOutcome::Later));
    assert!(matches!(after_check(false, true), CheckOutcome::Nothing));
}

/// Run the steps, with the ones in `fails` failing, and list them.
fn steps(had_dll: bool, fails: &[ApplyStep]) -> Vec<ApplyStep> {
    let mut s = ApplyStep::CheckSafe;
    let mut out = vec![s];
    while !matches!(s, ApplyStep::Applied | ApplyStep::Failed) {
        s = apply_update(s, !fails.contains(&s), had_dll);
        out.push(s);
    }
    out
}

#[test]
fn a_smooth_update() {
    assert_eq!(
        steps(true, &[]),
        vec![ApplyStep::CheckSafe, ApplyStep::VerifyExe, ApplyStep::VerifyDll, ApplyStep::WriteTemp, ApplyStep::BackupDll, ApplyStep::WriteDll, ApplyStep::ReplaceExe, ApplyStep::Cleanup, ApplyStep::Applied]
    );
    let fresh = steps(false, &[]);
    assert_eq!(fresh.last(), Some(&ApplyStep::Applied));
    assert!(!fresh.contains(&ApplyStep::BackupDll));
}

#[test]
fn an_update_that_fails_is_undone() {
    for early in [ApplyStep::CheckSafe, ApplyStep::VerifyExe, ApplyStep::VerifyDll] {
        let s = steps(true, &[early]);
        assert_eq!(s.last(), Some(&ApplyStep::Failed));
        assert!(!s.contains(&ApplyStep::WriteTemp) && !s.contains(&ApplyStep::WriteDll) && !s.contains(&ApplyStep::ReplaceExe));
    }
    let s = steps(true, &[ApplyStep::WriteDll]);
    assert_eq!(&s[s.len() - 2..], &[ApplyStep::PutBackDll, ApplyStep::Failed]);
    let s = steps(true, &[ApplyStep::ReplaceExe]);
    assert_eq!(&s[s.len() - 3..], &[ApplyStep::RestoreDll, ApplyStep::RemoveTemp, ApplyStep::Failed]);
    let s = steps(false, &[ApplyStep::ReplaceExe]);
    assert!(s.contains(&ApplyStep::RemoveDll));
    assert_eq!(s.last(), Some(&ApplyStep::Failed));
}
