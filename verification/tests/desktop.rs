//! The desktop side: settings, sync service, setup, hiding, the window and the tray.

use nobd::channel::InputChannel;
use nobd::controller::{
    self, clear_branding, setup_hid, setup_xinput, NobdController, PadMode, SetupStep,
};
use nobd::dinput::{
    attack_bytes, attack_word, ceiling_notice, is_joystick, Admit, DeviceSlots, LogBudget,
    MAX_LOG_BYTES,
};
use nobd::gameinstall::{
    create_desktop_shortcut, ensure_installed, find_game_dir, game_exe, game_running, has_game,
    install, is_current, is_installed, library_paths, same_bytes, steam_libraries, steam_path,
    uninstall, Ensure, FileFacts, Freshness, GameFolder,
};
use nobd::hid::{HidDeviceId, HidDeviceInfo};
use nobd::hidhide::{
    cli_path, cloak, hide_device, interface_to_instance, release, unhide_device, whitelist_self,
};
use nobd::install::{
    driver_installed, driver_stale, ensure_driver, enum_packages, inf_driver_ver, install_driver,
    installed_inf_path, installed_package, leftover_error, needle_of, norm_ver, package_installed,
    remove_packages, stale_packages, uninstall_hidmaestro, version_live, DriverAction, InstalledPkg,
};
use nobd::logo::rgba;
use nobd::names::{
    companion_compatible_ids, companion_hardware_id, companion_ids, container_id, device_ids,
    hardware_id, ids_hold, suffix, vid_pid,
};
use nobd::notices::{
    collecting_note, install_notes, pad_choice, pad_name, phase_button, phase_hint, player_note,
    service_note, source_choice, stale_note, stick_text, switch_text, turn_text,
    two_pads_warning, verdict_words, widen_note,
};
use nobd::pad::PadState;
use nobd::persist::{current, load, load_ui, save, save_ui, UiCfg};
use nobd::registry::{
    clear_oem_name, config_key, params_key, set_oem_name, write_instance_config, Hive, Value,
};
use nobd::screen::{
    active_input_name, apply_stick_hiding, autodetect_input, first_choice, headline, hook_card,
    hook_status, phase, restored_device, set_window_ms, slack_name, subline, sync_source, turn_off, turn_on,
    wants_install, Acts, Desk, Hiding, HookSeen, HookStatus, Phase, Pulse, Seen, SourceKind,
    TurnOn, Wants,
};
use nobd::setup::{
    cert_thumbprint, eject, inf_name, legacy_stack_present, login_task_present,
    register_login_task, relaunch_elevated_for_eject, relaunch_elevated_for_legacy_removal,
    relaunch_elevated_for_setup, relaunched, run_setup, setup_line,
    uninstall_everything, uninstall_log, unregister_login_task, Removal, RemovalStep,
};
use nobd::state::SharedState;
use nobd::stats::Grouping;
use nobd::sync_service::{
    find_real_slot, latency_summary, release_pad, Fingerprint, PadType, Search, SyncLoop,
    SyncSource, MARKER, NO_PAD,
};
use nobd::telemetry::{SyncStatus, SyncTelemetry, NO_SLOT};
use nobd::tester::landing_text;
use nobd::tray::{
    choose_item, claim_single_instance, is_setup_run, launch, quit_steps, refresh_checks,
    set_taskbar_button, starts_visible, Checks, Launch, MenuChoice, QuitStep,
};
use nobd::upgrade::{Event, Stage, Step, Upgrade};
use nobd::winusb::{choose_pipe, find_device_path, BulkSnapshot};

fn s(t: &str) -> String {
    t.to_string()
}

fn strings(v: &[&str]) -> Vec<String> {
    v.iter().map(|t| t.to_string()).collect()
}

// ---- settings ---------------------------------------------------------------------

#[test]
fn settings_are_kept_between_sessions() {
    let mut a = SharedState::new();
    a.enabled = 0;
    a.window_ms = [3, 16];
    a.directions_windowed = 1;
    a.mode = 1;
    a.settle_ms = 3;
    let text = save(&current(&a));
    assert_eq!(text, "enabled=0\ndirections=1\nmode=1\nsettle=3\nwindow0=3\nwindow1=16\n");
    let mut b = SharedState::new();
    let cfg = load(Some(&text), &mut b);
    assert_eq!((b.enabled, b.window_ms, b.directions_windowed), (0, [3, 16], 1));
    assert_eq!((b.mode, b.settle_ms), (1, 3));
    assert_eq!((cfg.enabled, cfg.window), (0, [3, 16]));
}

#[test]
fn settings_are_brought_within_their_bounds() {
    let mut st = SharedState::new();
    load(
        Some("enabled = 7\nmode=9\nsettle=9\ndirections=2\nwindow0=0\nwindow1=99\nwindow2=4\nwindow=4\nnonsense\nx=1\nmode=y\n"),
        &mut st,
    );
    assert_eq!((st.enabled, st.mode, st.settle_ms, st.directions_windowed), (1, 2, 3, 1));
    assert_eq!(st.window_ms, [1, 16]);
    let mut st = SharedState::new();
    load(None, &mut st);
    assert_eq!(st.window_ms, [5, 5]);
}

#[test]
fn the_interface_keeps_its_stick() {
    let ui = UiCfg { input_source: 1, hid_device: s("\\\\?\\hid#x=y"), ..UiCfg::default() };
    let text = save_ui(&ui);
    assert_eq!(text, "input_source=1\nhid_device=\\\\?\\hid#x=y\n");
    let back = load_ui(Some(&text));
    assert_eq!((back.input_source, back.hid_device), (1, s("\\\\?\\hid#x=y")));
    let d = load_ui(None);
    assert_eq!((d.input_source, d.hid_device), (0, s("")));
    assert_eq!(load_ui(Some("input_source=8")).input_source, 1);
    assert_eq!(load_ui(Some("input_source=x\r\n")).input_source, 0);
}

// ---- the sync service -------------------------------------------------------------

#[test]
fn a_pad_type_is_kept_as_a_number() {
    for p in [PadType::Hid, PadType::Xinput] {
        assert_eq!(PadType::from_u32(p.as_u32()), p);
    }
    assert_eq!(PadType::from_u32(77), PadType::Xinput);
    assert_eq!(PadType::Hid.mode(), PadMode::Hid);
    assert_eq!(release_pad(NO_PAD), None);
    assert_eq!(release_pad(1), Some(PadMode::Hid));
}

#[test]
fn our_slot_shows_the_marker_twice() {
    let mut f = Fingerprint::new();
    assert_eq!(f.look([None, Some(MARKER), None, None]), Search::Again);
    assert_eq!(f.look([Some(MARKER), None, None, None]), Search::Again);
    assert_eq!(f.look([Some(0), None, None, None]), Search::Again);
    assert_eq!(f.look([None, None, Some(MARKER), Some(MARKER)]), Search::Again);
    assert_eq!(f.look([None, None, Some(MARKER), None]), Search::Found(2));
    let mut f = Fingerprint::new();
    for _ in 0..199 {
        assert_eq!(f.look([None; 4]), Search::Again);
    }
    assert_eq!(f.look([None; 4]), Search::GivenUp);
}

#[test]
fn the_players_slot_is_never_ours() {
    let mut st = SyncStatus::new();
    assert_eq!(find_real_slot(Some(0), [true, false, true, true], &mut st), Some(2));
    assert_eq!((st.real_slot, st.real_present), (2, true));
    assert_eq!(find_real_slot(Some(0), [true, false, false, false], &mut st), None);
    assert_eq!((st.real_slot, st.real_present), (NO_SLOT, false));
    assert_eq!(find_real_slot(None, [true; 4], &mut st), Some(0));
}

#[test]
fn latency_has_a_least_a_mean_and_a_most() {
    let mut st = SyncStatus::new();
    latency_summary(&vec![], &mut st);
    assert_eq!(st.latency(), None);
    latency_summary(&vec![90, 40, 50], &mut st);
    assert_eq!(st.latency(), Some((40, 60, 90)));
}

#[test]
fn a_round_groups_the_buttons_and_passes_the_rest() {
    let mut sh = SharedState::new();
    let mut st = SyncStatus::new();
    let mut l = SyncLoop::start(&mut sh, &mut st);
    assert!(st.active);
    let pad = |buttons| PadState { buttons, lt: 9, ..PadState::default() };
    let (out, gap) = l.tick(&mut sh, &mut st, pad(0x1001), true, 1_000);
    assert_eq!((out.buttons, out.lt, gap), (0x0001, 9, None));
    assert!(st.window_open && st.real_present);
    let (out, gap) = l.tick(&mut sh, &mut st, pad(0x3001), true, 3_000);
    assert_eq!((out.buttons, gap), (0x3001, Some(2_000)));
    assert!(!st.window_open);
    assert_eq!((sh.players[0].groups, sh.players[0].lat_last_us), (1, 2_000));
    SyncLoop::away(&mut st);
    assert!(!st.real_present);
    assert_eq!(SyncLoop::finish(&mut st), PadState::default());
    assert!(!st.active);
}

const A: u16 = 0x1000;
const B: u16 = 0x2000;

fn raw_finger_gap_ms(st: &SharedState) -> (f64, f64) {
    let p = st.players[0];
    if p.raw_gap_count == 0 {
        return (0.0, 0.0);
    }
    (
        p.raw_gap_sum_us as f64 / p.raw_gap_count as f64 / 1000.0,
        p.raw_gap_max_us as f64 / 1000.0,
    )
}

#[test]
fn raw_gap_survives_a_held_button_and_measures_a_real_chord() {
    let mut status = SyncStatus::new();
    let mut sh = SharedState::new();

    // --- 1. hold A for a full second, then press B ---------------------
    let mut tel = SyncTelemetry::new(&mut sh);
    for ms in 0..1100u64 {
        let raw = match ms {
            0..=999 => A,
            1000..=1049 => A | B,
            _ => 0, // release, so that the group closes and records
        };
        tel.observe(&mut sh, raw, 0, ms * 1000, false, 0, &mut status);
    }
    let (_, max) = raw_finger_gap_ms(&sh);
    assert!(max < 17.0, "a held button inflated the finger gap to {max:.1} ms");

    // --- 2. a real 3 ms chord, pressed and released --------------------
    let mut tel = SyncTelemetry::new(&mut sh);
    for ms in 0..40u64 {
        let raw = match ms {
            0..=2 => A,
            3..=20 => A | B,
            _ => 0,
        };
        tel.observe(&mut sh, raw, 0, ms * 1000, false, 0, &mut status);
    }
    let (avg, max) = raw_finger_gap_ms(&sh);
    let attempts = sh.players[0].attempts;
    assert_eq!(attempts, 1, "one chord attempt should have been counted");
    assert!(
        (avg - 3.0).abs() < 0.5 && (max - 3.0).abs() < 0.5,
        "expected a ~3 ms finger gap, got avg {avg:.1} max {max:.1}"
    );

    // --- 3. a chord the window FAILS to group still counts as an attempt
    let mut tel = SyncTelemetry::new(&mut sh);
    for ms in 0..40u64 {
        let raw = match ms {
            0..=7 => A,
            8..=20 => A | B,
            _ => 0,
        };
        // window too tight: A commits alone at 1 ms, B alone at 9 ms
        let out = match ms {
            0 => 0,
            1..=8 => A,
            _ => A | B,
        };
        tel.observe(&mut sh, raw, out, ms * 1000, false, 1_000, &mut status);
    }
    assert_eq!(sh.players[0].attempts, 1, "a split chord is still an attempt");
    assert_eq!(sh.players[0].groups, 0, "nothing was grouped");
    assert_eq!(sh.players[0].singles, 2, "two separate singles");
    let hold_max = sh.players[0].lat_max_us as f64 / 1000.0;
    assert!(hold_max < 2.0, "hold must be the window's own delay, got {hold_max:.1} ms");
}

#[test]
fn a_stopped_service_says_why() {
    let st = SyncStatus::stopped();
    assert_eq!(st.error, 3);
    assert_eq!((st.found_real_slot(), st.found_virtual_slot(), st.latency()), (None, None, None));
    let mut st = SyncStatus::new();
    st.virtual_slot = 1;
    assert_eq!(st.found_virtual_slot(), Some(1));
}

// ---- the bulk stream on Windows ---------------------------------------------------

fn frame(seq: u32, buttons: u16) -> Vec<u8> {
    let mut f = Vec::new();
    f.extend_from_slice(&seq.to_le_bytes());
    f.extend_from_slice(&(seq * 10).to_le_bytes());
    f.extend_from_slice(&buttons.to_le_bytes());
    f.extend_from_slice(&[7, 8]);
    for v in [-1i16, 2, -3, 4] {
        f.extend_from_slice(&v.to_le_bytes());
    }
    f
}

#[test]
fn the_snapshot_holds_the_latest_frame() {
    let mut b = BulkSnapshot::new();
    assert!(!b.present());
    b.attach(1_000);
    let mut data = frame(1, 0x1000);
    data.extend(frame(2, 0x2000));
    data.extend(frame(6, 0x3000));
    data.push(0); // a part of a frame
    b.on_transfer(&data, 2_000);
    assert!(b.present());
    assert_eq!(b.get(), (0x3000, 7, 8, -1, 2, -3, 4));
    assert_eq!((b.drops(), b.edge_us(), b.rate_hz()), (3, 60, 0));
    b.on_transfer(&frame(7, 0), 201_000);
    assert_eq!((b.drops(), b.rate_hz()), (3, 20));
    b.detach();
    assert!(!b.present() && b.rate_hz() == 0);
    b.stop();
    assert!(b.stopping);
}

#[test]
fn the_device_is_found_by_its_numbers() {
    let wide = |t: &str| t.encode_utf16().collect::<Vec<u16>>();
    let paths = vec![wide("\\\\?\\usb#vid_1234&pid_4030#1"), wide("\\\\?\\USB#VID_CAFE&PID_4030#2")];
    assert_eq!(find_device_path(&paths, 0xCAFE, 0x4030), Some(1));
    assert_eq!(find_device_path(&paths, 0xCAFE, 0x4031), None);
    assert_eq!(choose_pipe(&vec![(0x81, false), (0x02, true), (0x83, true), (0x84, true)]), Some(0x84));
    assert_eq!(choose_pipe(&vec![(0x02, true), (0x81, false)]), None);
}

// ---- the game's folder ------------------------------------------------------------

#[test]
fn libraries_come_from_the_lists() {
    let list = "\"libraryfolders\"\n{\n\t\"0\"\n\t{\n\t\t\"path\"\t\t\"D:\\\\Games\\\\Steam\"\n\t}\n}\n";
    assert_eq!(library_paths(list), strings(&["D:\\Games\\Steam"]));
    assert_eq!(
        steam_libraries("C:\\Steam", &strings(&[list, "", "  \"path\" \"E:\\\\\\\\x\""])),
        strings(&["C:\\Steam", "D:\\Games\\Steam", "E:\\\\x"])
    );
}

#[test]
fn the_first_folder_with_the_game_is_the_games() {
    let f = |exe, dll| GameFolder { exe, dll };
    let v = vec![f(false, true), f(true, false), f(true, true)];
    assert_eq!(find_game_dir(&v), Some(1));
    assert_eq!(find_game_dir(&vec![f(false, false)]), None);
    assert!(has_game(&v[1]) && !is_installed(&v[1]) && is_installed(&v[0]));
}

#[test]
fn a_hook_is_current_only_as_a_copy() {
    let f = |len, modified| Some(FileFacts { len, modified });
    assert_eq!(is_current(f(5, Some(1)), f(5, Some(1))), Freshness::Current);
    assert_eq!(is_current(f(5, Some(1)), f(5, Some(2))), Freshness::Compare);
    assert_eq!(is_current(f(5, None), f(5, None)), Freshness::Compare);
    assert_eq!(is_current(f(5, Some(1)), f(6, Some(1))), Freshness::Stale);
    assert_eq!(is_current(None, f(6, Some(1))), Freshness::Stale);
    assert_eq!(is_current(f(6, Some(1)), None), Freshness::Stale);
    assert!(same_bytes(b"abc", b"abc"));
    assert!(!same_bytes(b"abc", b"abd") && !same_bytes(b"abc", b"ab"));
}

#[test]
fn the_running_game_is_found_by_name() {
    let entry = |t: &str| {
        let mut u: Vec<u16> = t.encode_utf16().collect();
        u.push(0);
        u.push(65);
        u
    };
    assert!(game_running(&vec![entry("x.exe"), entry("marvelvscapcomfightingcollection.EXE")]));
    assert!(!game_running(&vec![entry("x.exe")]));
    // A name that fills its buffer is no name.
    assert!(!game_running(&vec![game_exe().encode_utf16().collect()]));
}

#[test]
fn a_hook_is_put_in_place_when_it_may() {
    assert_eq!(ensure_installed(true, true, true, true), Ensure::Nothing);
    assert_eq!(ensure_installed(false, true, true, false), Ensure::Busy);
    assert_eq!(ensure_installed(false, false, true, false), Ensure::KeepAndWrite);
    assert_eq!(ensure_installed(false, false, true, true), Ensure::Write);
    assert_eq!(ensure_installed(false, false, false, false), Ensure::Write);
    let f = |exe| GameFolder { exe, dll: false };
    assert_eq!(install(&mut f(true), true), Ok(()));
    assert_eq!(
        install(&mut f(false), false),
        Err(s("MarvelVsCapcomFightingCollection.exe not found in that folder."))
    );
    assert_eq!(install(&mut f(true), false), Err(s("DINPUT8.dll not found next to nobd.exe.")));
}

// ---- hiding the stick -------------------------------------------------------------

#[test]
fn an_interface_path_names_an_instance() {
    assert_eq!(
        interface_to_instance("\\\\?\\HID#VID_x&PID_y#7&ab&0&0000#{guid}"),
        Some(s("HID\\VID_x&PID_y\\7&ab&0&0000"))
    );
    assert_eq!(interface_to_instance("\\\\.\\A#B"), Some(s("A\\B")));
    assert_eq!(interface_to_instance("\\\\?\\\\\\?\\A"), Some(s("A")));
    assert_eq!(interface_to_instance("#{guid}"), None);
    assert_eq!(interface_to_instance(""), None);
}

#[test]
fn hiding_and_showing() {
    assert_eq!(hide_device("A#B"), Ok(strings(&["--dev-hide", "A\\B"])));
    assert_eq!(unhide_device("A#B"), Ok(strings(&["--dev-unhide", "A\\B"])));
    assert_eq!(hide_device(""), Err("bad device path"));
    assert_eq!(unhide_device(""), Err("bad device path"));
    assert_eq!((cloak(true), cloak(false)), ("--cloak-on", "--cloak-off"));
    assert_eq!(whitelist_self("n.exe"), strings(&["--app-reg", "n.exe"]));
    assert_eq!(release("A"), vec![strings(&["--cloak-off"]), strings(&["--dev-unhide", "A"])]);
    assert_eq!(release(""), vec![strings(&["--cloak-off"])]);
    let places = cli_path("C:\\P");
    assert_eq!(places.len(), 3);
    assert_eq!(places[0], "C:\\P\\Nefarius Software Solutions\\HidHide\\x64\\HidHideCLI.exe");
}

// ---- setup ------------------------------------------------------------------------

#[test]
fn a_setup_wants_its_bundle() {
    assert_eq!(run_setup(PadType::Hid, true, true, "d"), Ok(setup_hid()));
    assert_eq!(run_setup(PadType::Xinput, true, true, "d"), Ok(setup_xinput()));
    assert_eq!(run_setup(PadType::Hid, false, true, "d"), Err(s("driver bundle missing in d")));
    assert_eq!(run_setup(PadType::Hid, true, false, "d"), Err(s("driver bundle missing in d")));
    assert_eq!(inf_name(PadType::Xinput), "hidmaestro_xusb.inf");
    assert_eq!(setup_line(PadType::Hid, None), "run_setup (hidmaestro.inf): OK\n");
    assert_eq!(setup_line(PadType::Hid, Some("x")), "run_setup (hidmaestro.inf): FAILED: x\n");
    assert_eq!(eject(true), Ok(()));
    assert_eq!(eject(false), Err("eject requires elevation"));
    assert!(setup_hid()[0].required() && !setup_hid()[1].required());
    assert!(matches!(clear_branding(), SetupStep::ClearOemName { vid: 0x1209, pid: 0x4E43 }));
}

#[test]
fn the_thumbprint_is_the_line_of_forty_digits() {
    let hash = "0123456789abcdef0123456789ABCDEF01234567";
    let spaced: String = hash.chars().map(|c| format!("{c} ")).collect();
    let text = format!("SHA1-Hash von nobd.cer:\r\n{spaced}\r\nok\r\n");
    assert_eq!(cert_thumbprint(&text), Some(s(hash)));
    assert_eq!(cert_thumbprint("nothing\n0123\n"), None);
    assert_eq!(cert_thumbprint(&hash.replace('0', "g")), None);
}

#[test]
fn the_removal_shows_the_stick_first() {
    let steps = uninstall_everything(true, true, true);
    assert_eq!(&steps[..2], &[RemovalStep::CloakOff, RemovalStep::Unhide]);
    assert_eq!(steps.len(), 8);
    let steps = uninstall_everything(false, false, false);
    assert_eq!(
        steps,
        vec![
            RemovalStep::CloakOff,
            RemovalStep::ReleasePad,
            RemovalStep::RemoveTask,
            RemovalStep::RemovePackages,
            RemovalStep::RemoveCertificate
        ]
    );
    let log = uninstall_log(&Removal {
        devices: 2,
        task_error: Some(s("gone")),
        packages: 1,
        certificate: Some((true, false)),
        settings: Some(false),
    });
    assert_eq!(
        log,
        "hidhide: cloak cleared\ndevnodes removed: 2\nlogon task: gone\ndriver packages removed: 1\n\
         cert Root: removed\ncert TrustedPublisher: not found\nsettings: none\n"
    );
    let log = uninstall_log(&Removal {
        devices: 0,
        task_error: None,
        packages: 0,
        certificate: None,
        settings: None,
    });
    assert!(log.ends_with("cert: thumbprint unreadable, NOT removed\n"));
    assert!(legacy_stack_present(false, false, true, false));
    assert!(!legacy_stack_present(false, false, false, false));
}

#[test]
fn the_task_at_logon() {
    let a = register_login_task("C:\\n.exe");
    assert_eq!(a.len(), 10);
    assert_eq!((a[2].as_str(), a[8].as_str()), ("NOBD Controller (elevated)", "\"C:\\n.exe\" --tray"));
    assert_eq!(login_task_present()[0], "/Query");
    assert_eq!(unregister_login_task(), strings(&["/Delete", "/TN", "NOBD Controller (elevated)", "/F"]));
    assert_eq!(relaunch_elevated_for_setup(PadType::Hid), "--setup-hid");
    assert_eq!(relaunch_elevated_for_setup(PadType::Xinput), "--setup-xinput");
    assert!(relaunched(33) && !relaunched(32));
}

const LISTING: &str = "Published Name:     oem12.inf\r\nOriginal Name:      hidmaestro.inf\r\n\
Class Version: 1.0.0.0\r\nDriver Version:     06/11/2026 1.3.17.0\r\n\r\n\
Published Name:     oem13.inf\r\nOriginal Name:      HIDMaestro_xusb.inf\r\n\
Driver Version:     01/01/2025 1.2.0.0\r\n\r\n\
Published Name:     oem14.inf\r\nOriginal Name:      other.inf\r\n";

#[test]
fn packages_are_read_off_the_listing() {
    let p = enum_packages(LISTING, "hidmaestro");
    assert_eq!(p.len(), 2);
    assert_eq!((p[0].published.as_str(), p[0].original.as_str(), p[0].version.as_str()), ("oem12.inf", "hidmaestro.inf", "1.3.17.0"));
    assert_eq!(p[1].version, "1.2.0.0");
    assert_eq!(uninstall_hidmaestro(LISTING).len(), 2);
    assert!(version_live(&p, "hidmaestro.inf", "1.3.17.0"));
    assert!(!version_live(&p, "hidmaestro_xusb.inf", "1.3.17.0"));
    assert_eq!(stale_packages(&p, "hidmaestro_xusb.inf", "1.3.17.0"), vec![1]);
    assert_eq!(remove_packages(&p[1]), strings(&["/delete-driver", "oem13.inf", "/uninstall", "/force"]));
    assert_eq!(ensure_driver(None, &p, "hidmaestro.inf"), DriverAction::Refuse);
    assert_eq!(ensure_driver(Some("1.3.17.0"), &p, "hidmaestro.inf"), DriverAction::Keep);
    assert_eq!(ensure_driver(Some("1.4.0.0"), &p, "hidmaestro.inf"), DriverAction::Install);
    assert!(driver_stale(Some("1.4.0.0"), &p, "hidmaestro.inf"));
    assert!(!driver_stale(Some("1.3.17.0"), &p, "hidmaestro.inf"));
    assert!(!driver_stale(None, &p, "hidmaestro.inf"));
    assert!(!driver_stale(Some("1.4.0.0"), &vec![], "hidmaestro.inf"));
    assert!(install_driver(Some("1.3.17.0"), &p, "hidmaestro.inf", false));
    assert!(install_driver(None, &p, "hidmaestro.inf", true));
    assert!(!install_driver(Some("9.0.0.0"), &p, "hidmaestro.inf", true));
    assert_eq!(leftover_error("x.inf", "1", 2, 2), None);
    assert_eq!(
        leftover_error("x.inf", "1.0.0.0", 3, 1),
        Some(s("installed x.inf 1.0.0.0, but 2 older copy/copies could not be removed"))
    );
}

#[test]
fn versions_are_filled_up() {
    assert_eq!(norm_ver("1.3.17"), "1.3.17.0");
    assert_eq!(norm_ver("1.3.17.0"), "1.3.17.0");
    assert_eq!(norm_ver("1.x"), "1.x");
    assert_eq!(norm_ver("1.2.3.4.5"), "1.2.3.4.5");
    assert_eq!(inf_driver_ver("[Version]\nDriverVer = 06/11/2026,1.3.17 ; note\n"), Some(s("1.3.17.0")));
    assert_eq!(inf_driver_ver("driverver=1.2.3.4"), Some(s("1.2.3.4")));
    assert_eq!(inf_driver_ver("DriverVer = 06/11/2026,"), None);
    assert_eq!(inf_driver_ver("nothing"), None);
    assert_eq!(needle_of("hidmaestro.inf"), "hidmaestro");
}

#[test]
fn packages_are_found_in_the_store() {
    let e = strings(&["other.inf_amd64_1", "HidMaestro.inf_amd64_9f"]);
    assert_eq!(installed_package(&e, "hidmaestro.inf"), Some(1));
    assert!(package_installed(&e, "other.inf") && driver_installed(&e, &vec![false, true]));
    // The first directory of the package must hold the file.
    assert!(!driver_installed(&e, &vec![true, false]));
    assert_eq!(
        installed_inf_path("C:\\R", &e, &vec![false, true]),
        Some(s("C:\\R\\HidMaestro.inf_amd64_9f\\hidmaestro.inf"))
    );
    let twice = strings(&["hidmaestro.inf_amd64_a", "hidmaestro.inf_amd64_b"]);
    assert!(!driver_installed(&twice, &vec![false, true]));
    assert!(controller::is_installed(PadMode::Hid, &e));
    assert!(!controller::is_installed(PadMode::Xinput, &e));
    assert!(!package_installed(&e, "hidmaestro_xusb.inf"));
    let p = InstalledPkg { published: s("oem1.inf"), original: s("x.inf"), version: s("") };
    assert_eq!(remove_packages(&p)[1], "oem1.inf");
}

#[test]
fn the_registry_gets_the_controller() {
    let c = write_instance_config(0x1209, 0x4E43, "NOBD Controller", 5);
    assert_eq!(c.len(), 7);
    assert_eq!(c[0].name, "ReportDescriptor");
    assert!(matches!(&c[0].value, Value::Bytes(b) if b.len() == 74));
    assert!(matches!(c[1].value, Value::Number(0x1209)));
    assert!(matches!(&c[4].value, Value::Text(t) if t == "NOBD Controller"));
    assert!(matches!(c[5].value, Value::Number(5)));
    assert_eq!(config_key(0), "SOFTWARE\\HIDMaestro\\Controller0");
    assert_eq!(params_key("ROOT\\X"), "SYSTEM\\CurrentControlSet\\Enum\\ROOT\\X\\Device Parameters");
    let k = set_oem_name(0x1209, 0x4E43);
    assert_eq!(k.len(), 3);
    assert!(k[0].key.ends_with("DirectInput\\VID_1209&PID_4E43\\OEM"));
    assert_eq!((k[0].value, k[1].value), ("OEM Name", "OEMName"));
    assert_eq!((k[1].hive, k[2].hive), (Hive::Machine, Hive::User));
    assert_eq!(k[1].key, k[2].key);
    assert_eq!(clear_oem_name(0x1209, 0x4E43).len(), 3);
}

#[test]
fn devices_have_names() {
    assert_eq!(vid_pid(0x45E, 0x28E), "VID_045E&PID_028E");
    assert_eq!(hardware_id(0x1209, 0x4E43), "root\\VID_1209&PID_4E43");
    assert_eq!(companion_hardware_id(0x45E, 0x28E), "root\\VID_045E&PID_028E&XI_00");
    assert!(ids_hold("ROOT\\HIDMaestroXUSB\u{0}", "root\\hidmaestroxusb"));
    assert!(!ids_hold("root\\other", "root\\hidmaestroxusb"));
    assert_eq!(container_id(0).data1, 0x4849_4430);
    assert_ne!(container_id(0).data4, container_id(1).data4);
    assert_ne!(suffix(1, 2, 0), suffix(1, 3, 0));
    assert!(suffix(0xABCD, 1, 0).starts_with("0000ABCD0001_"));
}

#[test]
fn a_frame_is_written_between_an_odd_and_an_even_number() {
    let mut c = InputChannel::create();
    let stores = c.submit(&[1, 2, 3, 4, 5]);
    assert_eq!((stores[0].offset, stores[0].bytes[0]), (0, 1));
    let last = stores.last().expect("stores");
    assert_eq!((last.offset, last.bytes[0]), (0, 2));
    assert_eq!(c.seq, 2);
    let mut x = NobdController::open(PadMode::Xinput);
    let stores = x.submit(PadState { buttons: 0x1000, ..PadState::default() });
    let mut image = vec![0u8; 362];
    for st in &stores {
        image[st.offset..st.offset + st.bytes.len()].copy_from_slice(&st.bytes);
    }
    assert_eq!(image[264 + 12] & 1, 1);
    let mut h = NobdController::open(PadMode::Hid);
    let stores = h.submit(PadState { buttons: 0x1000, ..PadState::default() });
    let mut image = vec![0u8; 362];
    for st in &stores {
        image[st.offset..st.offset + st.bytes.len()].copy_from_slice(&st.bytes);
    }
    assert_eq!(&image[8..13], &[128, 128, 8, 1, 0]);
}

// ---- the window -------------------------------------------------------------------

fn device(path: &str, vid: u16) -> HidDeviceInfo {
    HidDeviceInfo {
        id: HidDeviceId { path: s(path), vid, pid: 1 },
        product: s("stick"),
        usage_page: 1,
        usage: 5,
        button_count: 8,
    }
}

#[test]
fn a_stick_is_chosen() {
    let d = vec![device("ours", 0x1209), device("xbox", 0x045E), device("stick", 0x0F0D)];
    assert_eq!(autodetect_input(&d), Some(2));
    assert_eq!(first_choice(&d), Some(1));
    assert_eq!(autodetect_input(&vec![device("xbox", 0x045E)]), None);
    assert_eq!(restored_device(1, "xbox", &d), Some(1));
    assert_eq!(restored_device(0, "xbox", &d), None);
    assert_eq!(restored_device(1, "gone", &d), None);
    assert!(matches!(sync_source(true, SourceKind::Hid, Some(&d[2])), SyncSource::Bulk));
    match sync_source(false, SourceKind::Hid, Some(&d[2])) {
        SyncSource::Hid(id) => assert_eq!(id.path, "stick"),
        _ => panic!("hid"),
    }
    assert!(matches!(sync_source(false, SourceKind::Hid, None), SyncSource::XInput));
    assert!(matches!(sync_source(false, SourceKind::XInput, Some(&d[2])), SyncSource::XInput));
    assert_eq!(active_input_name(SourceKind::Hid, "Stick"), "Stick");
    assert_eq!(active_input_name(SourceKind::Hid, ""), "controller");
    assert_eq!(active_input_name(SourceKind::XInput, "Stick"), "Xbox controller");
}

#[test]
fn the_window_is_set_for_all() {
    let mut st = SharedState::new();
    st.players[0].groups = 4;
    set_window_ms(&mut st, 99);
    assert_eq!((st.window_ms, st.players[0].groups), ([16, 16], 0));
    set_window_ms(&mut st, 0);
    assert_eq!(st.window_ms, [1, 1]);
    assert_eq!((slack_name(3), slack_name(4), slack_name(7)), ("Tight", "Normal", "Loose"));
}

#[test]
fn the_screen_is_about_one_thing() {
    let mut st = SharedState::new();
    assert_eq!(phase(false, false, &st, true), Phase::NotInstalled);
    assert_eq!(phase(false, true, &st, true), Phase::NeedsDevice);
    assert_eq!(phase(true, true, &st, false), Phase::NoStick);
    assert_eq!(phase(true, true, &st, true), Phase::Waiting);
    st.players[0].attempts = 2;
    assert_eq!(phase(true, true, &st, true), Phase::TooTight);
    st.players[0].groups = 1;
    assert_eq!(phase(true, true, &st, true), Phase::Working);
    st.enabled = 0;
    assert_eq!(phase(true, true, &st, true), Phase::SyncOff);
    assert_eq!(headline(Phase::Working), "YOUR DASHES ARE COMING OUT");
    assert_eq!(subline(Phase::Working, 3, 2), "3 in a row, none dropped.");
    assert_eq!(subline(Phase::Working, 3, 5), "3 of your last 5 landed.");
    assert_eq!(
        subline(Phase::TooTight, 0, 2),
        "None of your last 2 landed. Your hands need a little more slack."
    );
}

#[test]
fn the_hook_lives_while_its_count_moves() {
    let mut p = Pulse::new();
    p.beat(0, 10);
    assert!(!p.live(10, 1500));
    p.beat(5, 20);
    assert!(p.live(20, 1500) && p.live(1519, 1500));
    p.beat(5, 1520);
    assert!(!p.live(1520, 1500));
    assert_eq!(hook_status(false, true, true, true), HookStatus::NoGame);
    assert_eq!(hook_status(true, false, true, true), HookStatus::LiveOutdated);
    assert_eq!(hook_status(true, false, false, true), HookStatus::CloseGame);
    assert_eq!(hook_status(true, false, false, false), HookStatus::Installing);
    assert_eq!(hook_status(true, true, false, true), HookStatus::Ready);
    assert_eq!(hook_status(true, true, true, true), HookStatus::Live);
    assert!(wants_install(false, false, false));
    assert!(!wants_install(false, false, true) && !wants_install(true, false, false));
}

#[test]
fn switching_on_and_off() {
    let mut st = SharedState::new();
    st.players[1].singles = 3;
    assert!(turn_off(&mut st, true));
    assert_eq!((st.enabled, st.players[1].singles), (0, 0));
    assert!(!turn_off(&mut st, false));
    assert_eq!(turn_on(&mut st, true, false), TurnOn::Nothing);
    assert_eq!(st.enabled, 1);
    assert_eq!(turn_on(&mut st, false, true), TurnOn::Setup);
    assert_eq!(turn_on(&mut st, false, false), TurnOn::Relaunch);
    assert_eq!(apply_stick_hiding(false, true, true, SourceKind::Hid, true), Hiding::Nothing);
    assert_eq!(apply_stick_hiding(true, true, true, SourceKind::Hid, true), Hiding::Hide);
    assert_eq!(apply_stick_hiding(true, true, false, SourceKind::Hid, true), Hiding::Show);
    assert_eq!(apply_stick_hiding(true, true, true, SourceKind::XInput, true), Hiding::Show);
}

#[test]
fn a_frame_looks_and_acts() {
    let mut d = Desk::new(false, false, true, false, 0);
    assert_eq!(d.wants(249), Wants { bulk: false, hook: false });
    assert_eq!(d.wants(1000), Wants { bulk: false, hook: true });
    assert_eq!(
        d.setup_ended(true),
        Acts { restart_sync: true, check_hiding: true, install_hook: false }
    );
    assert!(d.present && d.installed && !d.stale);
    assert_eq!(d.wants(1000), Wants { bulk: true, hook: true });
    let seen = Seen {
        now_ms: 1000,
        bulk: Some(true),
        commits: 3,
        hook: Some(HookSeen { reads: 0, game_running: false, current: Some(false) }),
    };
    assert_eq!(d.frame(seen), Acts { restart_sync: true, check_hiding: true, install_hook: true });
    assert!(d.commits.live(1100, 250));
    let seen = Seen {
        now_ms: 2000,
        hook: Some(HookSeen { reads: 9, game_running: true, current: Some(true) }),
        ..seen
    };
    assert_eq!(d.frame(seen), Acts { restart_sync: false, check_hiding: false, install_hook: false });
    assert!(d.hook_current && d.game_running && d.hook.live(2000, 1500));
    d.removed();
    assert!(!d.present);
    assert_eq!(
        d.setup_ended(false),
        Acts { restart_sync: false, check_hiding: false, install_hook: false }
    );
}

// ---- the tray ---------------------------------------------------------------------

#[test]
fn the_menu_shows_and_changes_the_state() {
    let mut st = SharedState::new();
    assert_eq!(refresh_checks(&st), Checks { enabled: true, w3: false, w5: true, w8: false });
    choose_item(&mut st, MenuChoice::Bypass);
    assert_eq!(st.enabled, 0);
    choose_item(&mut st, MenuChoice::Bypass);
    assert_eq!(st.enabled, 1);
    choose_item(&mut st, MenuChoice::Window8);
    assert_eq!(st.window_ms, [8, 8]);
    choose_item(&mut st, MenuChoice::Window3);
    assert_eq!(refresh_checks(&st), Checks { enabled: true, w3: true, w5: false, w8: false });
    st.window_ms = [3, 5];
    assert_eq!(refresh_checks(&st), Checks { enabled: true, w3: false, w5: false, w8: false });
    choose_item(&mut st, MenuChoice::Window5);
    assert_eq!(st.window_ms, [5, 5]);
    assert_eq!(quit_steps(true), vec![QuitStep::CloakOff, QuitStep::ReleasePad]);
    assert_eq!(quit_steps(false).last(), Some(&QuitStep::Eject));
}

#[test]
fn a_start_is_for_something() {
    assert_eq!(launch(&strings(&["nobd", "--eject"])), Launch::Eject);
    assert_eq!(launch(&strings(&["--uninstall"])), Launch::Uninstall);
    assert_eq!(launch(&strings(&["--eject", "--hid-probe"])), Launch::HidProbe);
    assert_eq!(launch(&strings(&["--setup-hid"])), Launch::Window { setup: Some(PadType::Hid) });
    assert_eq!(launch(&strings(&["--setup-xinput"])), Launch::Window { setup: Some(PadType::Xinput) });
    assert_eq!(launch(&strings(&["--tray"])), Launch::Window { setup: None });
    assert!(is_setup_run(&strings(&["--setup-x"])) && !is_setup_run(&strings(&["--tray"])));
    assert!(!starts_visible(&strings(&["--tray"])) && starts_visible(&strings(&[])));
    assert!(claim_single_instance(true, false, false));
    assert!(!claim_single_instance(true, false, true));
    assert!(!claim_single_instance(false, true, false));
    assert!(claim_single_instance(false, false, false));
}

#[test]
fn a_window_is_in_the_taskbar_or_not() {
    assert_eq!(set_taskbar_button(0x0000_0180, true), 0x0004_0100);
    assert_eq!(set_taskbar_button(0x0004_0100, false), 0x0000_0180);
}

#[test]
fn the_icon_is_drawn() {
    let icon = rgba(32, true);
    assert_eq!(icon.len(), 32 * 32 * 4);
    let at = |x: usize, y: usize| &icon[4 * (y * 32 + x)..4 * (y * 32 + x) + 4];
    assert_eq!(at(16, 16), &[244, 247, 250, 255]); // the lens
    assert_eq!(at(10, 16), &[139, 92, 246, 255]); // the left dot
    assert_eq!(at(21, 16), &[255, 214, 10, 255]); // the right dot
    assert_eq!(at(0, 0), &[0, 0, 0, 0]); // outside the corner
    assert_eq!(at(16, 4), &[18, 18, 24, 255]); // the square
    assert_eq!(at(6, 16), &[232, 236, 243, 255]); // a bracket
    assert_eq!(&rgba(32, false)[4 * (4 * 32 + 16)..4 * (4 * 32 + 16) + 4], &[0, 0, 0, 0]);
    assert!(rgba(0, true).is_empty());
}

// ---- DirectInput ------------------------------------------------------------------

#[test]
fn devices_get_slots() {
    let mut d = DeviceSlots::new();
    assert_eq!(d.assign_slot(100), 0);
    assert_eq!(d.assign_slot(200), 1);
    assert_eq!(d.assign_slot(100), 0);
    assert_eq!(d.assign_slot(300), 0);
    assert_eq!((d.slot_for(100), d.slot_for(200), d.slot_for(300)), (0, 1, 0));
    assert!(is_joystick(80) && is_joystick(272) && !is_joystick(256));
}

#[test]
fn attack_bytes_read_back() {
    let mut buttons = [0u8; 32];
    buttons[0] = 0x80;
    buttons[7] = 0xFF;
    buttons[8] = 0x80;
    buttons[2] = 0x7F;
    assert_eq!(attack_word(&buttons), 0x81);
    assert_eq!(attack_bytes(0x181), [0x80, 0, 0, 0, 0, 0, 0, 0x80]);
    assert_eq!(attack_word(&attack_bytes(0xA5)), 0xA5);
}

#[test]
fn the_log_ends_at_its_ceiling() {
    let mut b = LogBudget::new();
    assert_eq!(b.log(2_000_000), Admit::Notice);
    assert_eq!((b.used, b.log(1), b.used), (55, Admit::Drop, 55));
    let mut b = LogBudget::new();
    // A line feed and the notice still fit behind it, and not one byte more.
    assert_eq!(b.log(MAX_LOG_BYTES - 56), Admit::Write);
    assert_eq!((b.log(0), b.used), (Admit::Notice, MAX_LOG_BYTES));
    assert_eq!((b.log(0), b.log(usize::MAX)), (Admit::Drop, Admit::Drop));
    assert_eq!(b.used, MAX_LOG_BYTES);
    assert_eq!(LogBudget::new().log(MAX_LOG_BYTES - 55), Admit::Notice);
    assert_eq!(ceiling_notice().len() + 1, 55);
}

#[test]
fn cards_and_landings_in_words() {
    assert_eq!(hook_card(HookStatus::CloseGame).0, "CLOSE MARVEL TO FINISH");
    assert_eq!(hook_card(HookStatus::Ready).0, "READY \u{2014} LAUNCH MARVEL");
    assert_eq!(hook_card(HookStatus::Installing).1, "Putting NOBD into your Marvel folder.");
    assert_eq!(landing_text(true, 5_000_000, 5), "landed together");
    assert_eq!(landing_text(true, 5_000_001, 5), "too far apart \u{2014} about 1 in 3");
    assert_eq!(landing_text(false, 0, 5), "NOBD off \u{2014} always safe");
    assert_eq!(landing_text(true, 20_000_000, 16), "too far apart \u{2014} drops every time");
}

#[test]
fn steam_is_where_the_registry_says() {
    let said = || Some("D:\\Steam".to_string());
    assert_eq!(steam_path(said(), true, (true, true)), said());
    let first = Some("C:\\Program Files (x86)\\Steam".to_string());
    assert_eq!(steam_path(said(), false, (true, true)), first);
    let second = Some("C:\\Program Files\\Steam".to_string());
    assert_eq!(steam_path(None, false, (false, true)), second);
    assert_eq!(steam_path(None, true, (false, false)), None);
}

#[test]
fn a_shortcut_is_a_script() {
    assert_eq!(
        create_desktop_shortcut("C:\\a.lnk", "C:\\b\\nobd.exe", "C:\\b"),
        "$s=(New-Object -COM WScript.Shell).CreateShortcut('C:\\a.lnk'); \
         $s.TargetPath='C:\\b\\nobd.exe'; $s.WorkingDirectory='C:\\b'; $s.Save()"
    );
    assert_eq!(relaunch_elevated_for_eject(), "--eject");
    assert_eq!(relaunch_elevated_for_legacy_removal(), "--remove-legacy");
}

fn pkg(published: &str, original: &str, version: &str) -> InstalledPkg {
    InstalledPkg { published: s(published), original: s(original), version: s(version) }
}

fn removal(published: &str) -> Step {
    Step::Remove(strings(&["/delete-driver", published, "/uninstall", "/force"]))
}

#[test]
fn a_driver_is_installed_before_older_ones_go() {
    let mut u = Upgrade::begin("hidmaestro.inf", Some(s("2.0.0.0"))).unwrap();
    let old = vec![pkg("oem1.inf", "HIDMaestro.inf", "1.0.0.0"), pkg("oem2.inf", "x.inf", "1.0.0.0")];
    assert_eq!(u.next(Event::Listed(old)), Step::Install);
    assert_eq!(u.next(Event::Installed), Step::List);
    let both = vec![
        pkg("oem1.inf", "HIDMaestro.inf", "1.0.0.0"),
        pkg("oem2.inf", "x.inf", "1.0.0.0"),
        pkg("oem3.inf", "hidmaestro.inf", "2.0.0.0"),
        pkg("oem4.inf", "hidmaestro.inf", "1.5.0.0"),
    ];
    assert_eq!(u.next(Event::Listed(both)), removal("oem1.inf"));
    assert_eq!(u.next(Event::Removed(true)), removal("oem4.inf"));
    assert_eq!(u.next(Event::Removed(true)), Step::Done);
    assert_eq!(u.stage(), Stage::Done);
}

#[test]
fn a_driver_that_is_live_is_left_alone() {
    let live = || vec![pkg("oem3.inf", "hidmaestro.inf", "2.0.0.0")];
    let mut u = Upgrade::begin("hidmaestro.inf", Some(s("2.0.0.0"))).unwrap();
    assert_eq!(u.next(Event::Listed(live())), Step::Done);
    assert_eq!(
        Upgrade::begin("hidmaestro.inf", None).err(),
        Some(s("no readable DriverVer in hidmaestro.inf"))
    );
}

#[test]
fn a_driver_that_does_not_come_is_reported() {
    let mut u = Upgrade::begin("a.inf", Some(s("2.0.0.0"))).unwrap();
    assert_eq!(u.next(Event::Listed(vec![])), Step::Install);
    assert_eq!(u.next(Event::Installed), Step::List);
    assert_eq!(
        u.next(Event::Listed(vec![pkg("oem1.inf", "a.inf", "1.0.0.0")])),
        Step::Fail(s("pnputil /add-driver did not populate the DriverStore"))
    );
    let mut u = Upgrade::begin("a.inf", Some(s("2.0.0.0"))).unwrap();
    assert_eq!(u.next(Event::Listed(vec![])), Step::Install);
    assert_eq!(u.next(Event::NotInstalled(s("certutil"))), Step::Fail(s("certutil")));
    // An older copy stays.
    let mut u = Upgrade::begin("a.inf", Some(s("2.0.0.0"))).unwrap();
    let both = vec![pkg("oem1.inf", "a.inf", "1.0.0.0"), pkg("oem2.inf", "a.inf", "2.0.0.0")];
    assert_eq!(u.next(Event::Listed(both)), removal("oem1.inf"));
    assert_eq!(
        u.next(Event::Removed(false)),
        Step::Fail(s("installed a.inf 2.0.0.0, but 1 older copy/copies could not be removed"))
    );
    assert_eq!(u.stage(), Stage::Failed);
}

#[test]
fn a_removed_hook_is_seen_as_gone() {
    let mut f = GameFolder { exe: true, dll: true };
    assert!(uninstall(&mut f) && !is_installed(&f));
    assert!(!uninstall(&mut f));
    assert_eq!(install(&mut f, false).is_ok(), false);
    assert!(!is_installed(&f));
    assert_eq!(install(&mut f, true), Ok(()));
    assert!(is_installed(&f) && has_game(&f));
}

#[test]
fn the_window_says_what_it_is_about() {
    assert_eq!(pad_name(PadType::Hid), "NOBD Controller");
    assert_eq!(service_note(0, true), None);
    assert_eq!(service_note(0, false), Some("Starting the sync loop\u{2026}"));
    assert_eq!(service_note(1, false).is_some(), true);
    assert_eq!(phase_button(Phase::NeedsDevice), "Turn NOBD on");
    assert_eq!((phase_button(Phase::Working), phase_hint(Phase::Working)), ("", ""));
    assert_eq!((switch_text(false, true), switch_text(true, false)), ("NOBD off", "bypassed"));
    assert!(two_pads_warning(true, SourceKind::XInput, PadType::Xinput).is_some());
    assert_eq!(two_pads_warning(true, SourceKind::Hid, PadType::Xinput), None);
    assert_eq!(two_pads_warning(false, SourceKind::XInput, PadType::Xinput), None);
    assert!(install_notes()[2].starts_with("The NOBD Controller"));
    assert_eq!(verdict_words(Grouping::Hint), ("INCONCLUSIVE", "keep going"));
}

#[test]
fn devices_are_known_by_lists() {
    assert_eq!(device_ids(0x1209, 0x4E43), ["root\\VID_1209&PID_4E43", "root\\HIDMaestro"]);
    assert_eq!(companion_ids(0x045E, 0x028E)[0], "root\\VID_045E&PID_028E&XI_00");
    assert_eq!(companion_compatible_ids().len(), 4);
}

#[test]
fn choices_of_the_pad_are_kept() {
    let ui = UiCfg { pad_type: 1, keep_controller: 1, ..UiCfg::default() };
    let text = save_ui(&ui);
    assert_eq!(text, "input_source=0\nhid_device=\npad_type=1\nkeep_controller=1\n");
    let back = load_ui(Some(&text));
    assert_eq!((back.pad_type, back.hide_stick, back.keep_controller), (1, 0, 1));
    assert_eq!(load_ui(Some("hide_stick=7")).hide_stick, 1);
    assert_eq!(load_ui(Some("keep_controller=x")).keep_controller, 0);
    assert_eq!(save_ui(&UiCfg::default()), "input_source=0\nhid_device=\n");
    assert!(pad_choice(PadType::Xinput).starts_with("XInput"));
    assert_eq!(stick_text(true, true, SourceKind::Hid, "Stick"), "Stick");
    assert_eq!(stick_text(true, false, SourceKind::Hid, "Stick"), "no stick detected");
    assert_eq!(stick_text(false, true, SourceKind::Hid, "Stick"), "your stick");
    assert_eq!((turn_text(true), turn_text(false)), ("Turn NOBD off", "Turn NOBD on"));
    assert!(player_note(1).ends_with("NOBD is player 2."));
    assert!(collecting_note(3).contains(" 3 more time(s)"));
    assert!(widen_note(9).starts_with("Widens the wait to 9 ms,"));
    assert_eq!(source_choice(SourceKind::Hid), "DirectInput fightstick");
    assert_eq!((stale_note(true, false), stale_note(false, true)), (None, None));
    assert!(stale_note(true, true).is_some());
}
