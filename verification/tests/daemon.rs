//! The daemon's parts: clock bridge, settings, engine, probes.

use nobd::bulk::{
    decode_payload, find_bulk_in, is_bulk_device, is_device_entry, usb_node, BulkStream,
    ClockBridge,
};
use nobd::cli::{
    apply_cli, apply_text, no_pads_note, parse_command, probe_note, probe_rounds, tune_note, usage,
    Command,
};
use nobd::config::{parse_bool, Config};
use nobd::ctl::{dispatch, reply_code, request_line, stats_line, Averages};
use nobd::engine::{timer_spec, EdgeTracker, Engine, Settings, Stats, Wait};
use nobd::evdev::{
    choose_device, event_number, has_axis, inverts, is_gamepad, is_own, order, out_of_deadzone, Decoder, DeviceInfo,
    DpadKind, PadId, Scaled,
};
use nobd::pad::{bit, parse_mask, PadState, ATTACK_MASK};
use nobd::pollprobe::analyse;
use nobd::probe::{next_marker, percentiles, round_trip, test_pattern};
use nobd::rt::{
    clamp_priority, jspoll_text, jspoll_write, ok as rt_ok, preempt_model, report as rt_report,
    skip as rt_skip, tell_step, tuning_steps, Jspoll, TuneStep, TuningRequest,
};
use nobd::source::{takes_bulk, BulkProbe, Source, Waiting};
use nobd::state::SharedState;
use nobd::sync_window::SyncWindow;
use nobd::uapi::{
    abs, btn, ev, eviocgabs, eviocgbit, eviocgname, io, ioc, ior, iow, ui_get_sysname, InputEvent,
    EVIOCGID, UI_DEV_CREATE, UI_DEV_SETUP, USBDEVFS_SUBMITURB,
};
use nobd::uinput::{axes, button_map, nobd_phys, setup_name, Identity, PadSink};

#[test]
fn clock_bridge_tracks_minimum_offset() {
    let mut cb = ClockBridge::new();
    // An edge at 1000 µs delivered 300 µs late, then 90 µs late.
    assert_eq!(cb.translate(1_000, 1_300), 1_300); // first sample defines the offset
    // A less-delayed sample pulls the offset down.
    let t: u64 = cb.translate(2_000, 2_090);
    assert_eq!(t, 2_090);
    // A later delivery of an earlier edge must not drag the estimate up.
    let t2: u64 = cb.translate(3_000, 3_500);
    assert_eq!(t2, 3_090, "should use the best (90 µs) offset, not 500 µs");
}

#[test]
fn clock_bridge_never_returns_future_timestamps() {
    let mut cb = ClockBridge::new();
    cb.translate(1_000, 1_090);
    // An edge claiming to be newer than arrival clamps to arrival.
    assert_eq!(cb.translate(9_999, 5_000), 5_000);
}

#[test]
fn parses_and_validates() {
    let mut c = Config::default();
    assert!(c.apply_line("window_ms = 7").is_ok());
    assert_eq!(c.window_ms, 7);
    assert!(c.apply_line("  # a comment").is_ok());
    assert!(c.apply_line("window_ms = 9 # trailing comment").is_ok());
    assert_eq!(c.window_ms, 9);
    assert!(c.apply_line("window_ms = 99").is_err(), "must reject >16 ms");
    assert!(c.apply_line("nonsense = 1").is_err());
    assert!(c.apply_line("attack_buttons = a,b").is_ok());
    assert_eq!(c.attack_mask, bit::A | bit::B);
}

#[test]
fn window_directions_follows_attack_mask() {
    let mut c = Config::default();
    c.apply_line("attack_buttons = a,b").unwrap();
    c.apply_line("window_directions = off").unwrap();
    assert_eq!(c.synced_mask, bit::A | bit::B);
}

const AM: u16 = ATTACK_MASK;
const W: u32 = 5_000;

/// Drive the tracker the way the engine does, sampling the window's pending state
/// before `process`.
fn run(events: &[(u16, u64)]) -> (u64, u64) {
    let mut edges = EdgeTracker::default();
    let mut sync = SyncWindow::new();
    for &(raw, t) in events {
        let was_pending = sync.pending_since().is_some();
        edges.observe(raw, AM, t, was_pending);
        sync.process(raw, AM, AM, t, W, true);
    }
    (edges.open_us, edges.gap_us())
}

#[test]
fn lone_press_has_no_gap() {
    let (open, gap) = run(&[(bit::A, 1_000)]);
    assert_eq!(open, 1_000);
    assert_eq!(gap, 0);
}

#[test]
fn chord_gap_includes_the_press_that_closes_the_group() {
    let (open, gap) = run(&[(bit::A, 1_000), (bit::A | bit::B, 4_000)]);
    assert_eq!(open, 1_000);
    assert_eq!(gap, 3_000, "chord gap must be first press -> closing press");
}

#[test]
fn three_button_chord_measures_to_the_last_press() {
    // The window commits at the second press, so the third opens a fresh group.
    let (open, gap) = run(&[
        (bit::A, 1_000),
        (bit::A | bit::B, 3_000),
        (bit::A | bit::B | bit::X, 3_500),
    ]);
    assert_eq!(open, 3_500, "third press starts a new group");
    assert_eq!(gap, 0);
}

#[test]
fn simultaneous_press_is_a_zero_gap() {
    let (open, gap) = run(&[(bit::A | bit::B, 2_000)]);
    assert_eq!(open, 2_000);
    assert_eq!(gap, 0);
}

#[test]
fn releases_and_unsynced_bits_do_not_open_a_group() {
    let mut edges = EdgeTracker::default();
    // A d-pad press is outside the synced mask, so it must not start a group.
    edges.observe(bit::DPAD_LEFT, AM, 500, false);
    assert_eq!(edges.open_us, 0);
    // A real attack press does.
    edges.observe(bit::DPAD_LEFT | bit::A, AM, 900, false);
    assert_eq!(edges.open_us, 900);
    // Releasing it is not a new edge.
    edges.observe(bit::DPAD_LEFT, AM, 1_500, true);
    assert_eq!(edges.last_press_us, 900);
}

#[test]
fn mask_parsing() {
    assert_eq!(parse_mask("a,b,x,y,lb,rb"), Some(ATTACK_MASK));
    assert_eq!(parse_mask(" A , B "), Some(bit::A | bit::B));
    assert_eq!(parse_mask(""), Some(0));
    assert_eq!(parse_mask("a,nope"), None);
}

#[test]
fn percentile_edges() {
    let p = percentiles(vec![10]);
    assert_eq!((p.min, p.p50, p.max, p.n), (10, 10, 10, 1));
    let p = percentiles((1..=100).collect());
    assert_eq!(p.min, 1);
    assert_eq!(p.max, 100);
    // rank of 0.50 = (99 * 0.50) rounded = 50 -> v[50] = 51
    assert_eq!(p.p50, 51);
    // rank of 0.99 = (99 * 0.99) rounded = 98 -> v[98] = 99
    assert_eq!(p.p99, 99);
    let mean: f64 = p.sum as f64 / p.n as f64;
    assert!((mean - 50.5).abs() < 1e-9);
}

#[test]
fn empty_is_zeroed_not_panicking() {
    let p = percentiles(vec![]);
    assert_eq!(p.n, 0);
    assert_eq!(p.max, 0);
}

/// A cadence with a given median and jitter about it, deterministic.
fn cadence(median_us: u32, jitter_us: u32, n: usize) -> Vec<u32> {
    (0..n)
        .map(|i| {
            let w: u32 =
                if jitter_us == 0 { 0 } else { (i as u32).wrapping_mul(2654435761) % (jitter_us + 1) };
            median_us + w - jitter_us / 2
        })
        .collect()
}

#[test]
fn tight_60hz_is_viable() {
    let r = analyse(&cadence(16_667, 1_000, 1024)).verdict.text();
    assert!(r.contains("ONE POLL PER FRAME"), "{r}");
}

#[test]
fn loose_60hz_warns_about_margin() {
    let r = analyse(&cadence(16_667, 9_000, 1024)).verdict.text();
    assert!(r.contains("LOOSE"), "{r}");
}

#[test]
fn kilohertz_polling_is_called_out() {
    let r = analyse(&cadence(1_000, 200, 1024)).verdict.text();
    assert!(r.contains("FASTER THAN ONCE PER FRAME"), "{r}");
}

#[test]
fn twice_per_frame_is_not_mistaken_for_60hz() {
    let r = analyse(&cadence(8_333, 500, 1024)).verdict.text();
    assert!(!r.contains("ONE POLL PER FRAME"), "{r}");
}

// ---- the bulk stream ---------------------------------------------------------------

fn payload(seq: u32, edge_us: u32, buttons: u16) -> Vec<u8> {
    let mut f = Vec::new();
    f.extend_from_slice(&seq.to_le_bytes());
    f.extend_from_slice(&edge_us.to_le_bytes());
    f.extend_from_slice(&buttons.to_le_bytes());
    f.extend_from_slice(&[1, 2]);
    for v in [i16::MIN, i16::MAX, -1, 0] {
        f.extend_from_slice(&v.to_le_bytes());
    }
    f
}

#[test]
fn a_payload_decodes() {
    let p = decode_payload(&payload(7, 8, 0x1234), 0);
    assert_eq!((p.seq, p.edge_us, p.state.buttons, p.state.lt, p.state.rt), (7, 8, 0x1234, 1, 2));
    assert_eq!((p.state.lx, p.state.ly, p.state.rx, p.state.ry), (i16::MIN, i16::MAX, -1, 0));
}

#[test]
fn a_transfer_hands_on_every_payload() {
    let mut s = BulkStream::new(0);
    let mut data = payload(1, 1_000, 1);
    data.extend(payload(4, 1_100, 2));
    data.push(9);
    let out = s.on_transfer(&data, 1_500);
    assert_eq!(out.len(), 2);
    assert_eq!((out[0].0.buttons, out[1].0.buttons), (1, 2));
    // The second was delivered sooner, and is its own arrival.
    assert_eq!(out[1].1, 1_500);
    assert_eq!((s.drops, s.payloads), (2, 2));
    s.on_transfer(&payload(5, 300_000, 3), 300_500);
    assert_eq!((s.drops, s.rate_hz), (2, 9));
    assert!(s.on_transfer(&[], 300_600).is_empty());
    assert!(nobd::bulk::has_room(0, 25) && !nobd::bulk::has_room(1, 25));
}

#[test]
fn the_bulk_endpoint_is_found_in_the_descriptors() {
    // device, configuration, interface 3, endpoint 0x02 out, endpoint 0x81 bulk in
    let mut d = vec![18, 1];
    d.extend_from_slice(&[0; 16]);
    d.extend_from_slice(&[9, 2, 0, 0, 0, 0, 0, 0, 0]);
    d.extend_from_slice(&[9, 4, 3, 0, 2, 0xFF, 0, 0, 0]);
    d.extend_from_slice(&[7, 5, 0x02, 2, 64, 0, 0]);
    d.extend_from_slice(&[7, 5, 0x81, 2, 64, 0, 0]);
    assert_eq!(find_bulk_in(&d), Some((3, 0x81)));
    assert_eq!(find_bulk_in(&d[..d.len() - 7]), None);
    assert_eq!(find_bulk_in(&[]), None);
    assert!(is_bulk_device("cafe\n", " 4030"));
    assert!(!is_bulk_device("cafe", "4031") && !is_bulk_device("", ""));
    assert!(is_device_entry("1-2") && !is_device_entry("1-2:1.0"));
    assert_eq!(usb_node("1\n", "12\n"), Some("/dev/bus/usb/001/012".to_string()));
    assert_eq!(usb_node("x", "1"), None);
}

// ---- events ------------------------------------------------------------------------

const STILL: Scaled = Scaled { stick: 0, trigger: 0 };

fn event(ty: u16, code: u16, value: i32, us: i64) -> InputEvent {
    InputEvent { tv_sec: us / 1_000_000, tv_usec: us % 1_000_000, ..InputEvent::new(ty, code, value) }
}

#[test]
fn a_report_is_handed_on_at_its_end() {
    let mut d = Decoder::new(true, true, true, true);
    assert_eq!(d.dpad, DpadKind::Hat);
    assert_eq!(d.feed(&event(ev::KEY, btn::SOUTH, 1, 2_000_005), STILL), None);
    assert_eq!(d.feed(&event(ev::ABS, abs::HAT0X, -1, 2_000_006), STILL), None);
    assert_eq!(d.feed(&event(ev::ABS, abs::X, 9, 2_000_007), Scaled { stick: -9_000, trigger: 0 }), None);
    let (st, t) = d.feed(&event(ev::SYN, 0, 0, 2_000_008), STILL).expect("a report");
    assert_eq!((st.buttons, st.lx, t), (bit::A | bit::DPAD_LEFT, -9_000, 2_000_007));
    // Nothing has changed since.
    assert_eq!(d.feed(&event(ev::SYN, 0, 0, 2_000_009), STILL), None);
    assert!(d.apply(&event(ev::ABS, abs::HAT0X, 1, 0), STILL));
    assert_eq!(d.state.buttons, bit::A | bit::DPAD_RIGHT);
    assert!(d.apply(&event(ev::KEY, btn::SOUTH, 0, 0), STILL));
    assert!(!d.apply(&event(ev::KEY, btn::SOUTH, 0, 0), STILL));
    assert_eq!(d.state.buttons, bit::DPAD_RIGHT);
}

#[test]
fn triggers_are_axes_or_keys() {
    let mut d = Decoder::new(false, false, false, false);
    assert_eq!(d.dpad, DpadKind::Buttons);
    assert!(d.apply(&event(ev::KEY, btn::TL2, 1, 0), STILL));
    assert_eq!(d.state.lt, 255);
    let mut d = Decoder::new(true, true, false, false);
    assert!(!d.apply(&event(ev::KEY, btn::TL2, 1, 0), STILL));
    assert!(d.apply(&event(ev::ABS, abs::RZ, 1, 0), Scaled { stick: 5, trigger: 77 }));
    assert_eq!(d.state.rt, 77);
}

#[test]
fn the_dead_zone_is_flat() {
    assert!(has_axis(0, 255) && has_axis(-1, 0) && !has_axis(0, 0));
    assert!(inverts(abs::Y) && inverts(abs::RY) && !inverts(abs::X) && !inverts(abs::Z));
    assert_eq!((out_of_deadzone(7849), out_of_deadzone(-7849)), (0, 0));
    assert_eq!((out_of_deadzone(7850), out_of_deadzone(-32768)), (7850, -32768));
}

#[test]
fn pads_are_told_from_other_devices() {
    let mut bits = vec![0u8; 96];
    assert!(!is_gamepad(&bits));
    bits[0x130 / 8] = 1 << (0x130 % 8);
    assert!(is_gamepad(&bits));
    assert!(!is_gamepad(&bits[..10]));
    assert!(is_own(nobd_phys()) && !is_own("usb-0000"));
    assert_eq!(event_number("/dev/input/event17"), 17);
    assert_eq!(order(&vec![9, 2, 9, 1]), vec![3, 1, 0, 2]);
}

fn dev(path: &str, name: &str) -> DeviceInfo {
    DeviceInfo {
        path: path.to_string(),
        name: name.to_string(),
        id: PadId { bustype: 3, vendor: 0x1209, product: 0xAB, version: 1 },
    }
}

#[test]
fn a_device_is_chosen_by_path_or_name() {
    let devs = vec![dev("/dev/input/event3", "A"), dev("/dev/input/event4", "B")];
    assert_eq!(choose_device(&devs, None), Some(0));
    assert_eq!(choose_device(&devs, Some("B")), Some(1));
    assert_eq!(choose_device(&devs, Some("/dev/input/event4")), Some(1));
    assert_eq!(choose_device(&devs, Some("C")), None);
    assert_eq!(choose_device(&vec![], None), None);
    assert_eq!(
        Source::Evdev(dev("/dev/input/event3", "A"), true).describe(),
        "evdev /dev/input/event3 — A (1209:00ab), grabbed"
    );
    assert!(Source::Evdev(dev("p", "n"), false).describe().ends_with(", NOT grabbed"));
    assert_eq!(Source::Bulk(9_987).describe(), "NOBD Bulk (usbfs, 9987 payloads/s)");
    assert!(takes_bulk(true, BulkProbe::Usable));
    assert!(!takes_bulk(false, BulkProbe::Usable) && !takes_bulk(true, BulkProbe::Broken));
    let mut w = Waiting::new();
    assert!(w.missing() && !w.missing());
    w.found();
    assert!(w.missing());
}

// ---- the virtual pad -----------------------------------------------------------------

#[test]
fn request_numbers_are_those_of_the_kernel() {
    assert_eq!(ior(0x45, 0x02, 8), EVIOCGID);
    assert_eq!(iow(0x55, 3, 92), UI_DEV_SETUP);
    assert_eq!(io(0x55, 1), UI_DEV_CREATE);
    assert_eq!(ioc(2, 0x55, 0x0a, 56), USBDEVFS_SUBMITURB);
    assert_eq!(eviocgname(256), 0x8100_4506);
    assert_eq!(eviocgbit(1, 96), 0x8060_4521);
    assert_eq!(eviocgabs(0), 0x8018_4540);
    assert_eq!(ui_get_sysname(64), 0x8040_552c);
    assert_eq!(event(0, 0, 0, 3_000_004).time_us(), 3_000_004);
}

#[test]
fn only_changes_are_written() {
    let mut sink = PadSink::new();
    let rest = PadState::default();
    let first = sink.submit(rest);
    assert!(first.len() > 15, "the first state is written in full");
    assert_eq!((first.last().expect("events").ty, first.last().expect("events").code), (ev::SYN, 0));
    sink.accept(rest);
    assert!(sink.submit(rest).is_empty());
    let batch = sink.submit(rest.with_buttons(bit::A | bit::DPAD_UP));
    let written: Vec<(u16, u16, i32)> = batch.iter().map(|e| (e.ty, e.code, e.value)).collect();
    assert!(written.contains(&(ev::KEY, btn::SOUTH, 1)));
    assert!(written.contains(&(ev::KEY, btn::DPAD_UP, 1)));
    assert_eq!(written.len(), 3);
    let tilted = sink.submit(PadState { lx: -7, ..rest });
    assert_eq!((tilted[0].ty, tilted[0].code, tilted[0].value), (ev::ABS, abs::X, -7));
}

#[test]
fn the_pad_has_an_identity() {
    assert_eq!(Identity::Xbox360.input_id().vendor, 0x045e);
    assert_ne!(Identity::Nobd.input_id(), Identity::Xbox360.input_id());
    let long = setup_name(&[b'x'; 100]);
    assert_eq!((long[78], long[79]), (b'x', 0));
    assert_eq!(&setup_name(b"ab")[..3], b"ab\0");
    assert_eq!(axes().len(), 6);
    for a in [bit::A, bit::B, bit::X, bit::Y, bit::LEFT_SHOULDER, bit::RIGHT_SHOULDER] {
        assert!(button_map().iter().any(|m| m.0 == a || m.1 == a), "{a:#06x}");
    }
}

// ---- tuning --------------------------------------------------------------------------

#[test]
fn tuning_is_reported() {
    let mut lines = Vec::new();
    assert_eq!(rt_report(&lines), "  (no tuning requested)");
    rt_ok(&mut lines, "mlock", "done");
    rt_skip(&mut lines, "SCHED_FIFO", "denied");
    let r = rt_report(&lines);
    assert!(r.starts_with("  ✓ mlock"), "{r}");
    assert!(r.contains("\n  · SCHED_FIFO") && r.ends_with(" denied"), "{r}");
    assert_eq!((clamp_priority(200, 1, 99), clamp_priority(-3, 1, 99), clamp_priority(50, 1, 99)), (99, 1, 50));
    assert_eq!(jspoll_write("1\n", 1), None);
    assert_eq!(jspoll_write("8", 1), Some("1".to_string()));
    assert_eq!(preempt_model(Some("none voluntary (full)"), None), "full");
    assert_eq!(preempt_model(None, Some("#1 SMP PREEMPT_RT x")), "rt");
    assert_eq!(preempt_model(None, Some("#1 SMP PREEMPT_DYNAMIC x")), "dynamic");
    assert_eq!(preempt_model(Some("(broken"), Some("#1 SMP PREEMPT x")), "preempt");
    assert_eq!(preempt_model(None, Some("#1")), "unknown");
    assert_eq!(preempt_model(None, None), "unknown");
}

// ---- the engine ----------------------------------------------------------------------

fn engine(spin_us: u64) -> Engine {
    Engine::new(Settings { attack_mask: AM, synced_mask: AM, spin_us })
}

fn pad(buttons: u16) -> PadState {
    PadState { buttons, lt: 3, ..PadState::default() }
}

#[test]
fn a_lone_press_is_delivered_at_its_deadline() {
    let mut e = engine(0);
    let d = e.on_event(true, 5, pad(bit::A), 1_000);
    assert_eq!((d.out.buttons, d.out.lt), (0, 3));
    assert!(d.commit.is_none());
    assert_eq!(e.plan_wait(5, 1_100), Wait::Arm(Some(6_000)));
    e.timer_set(Some(6_000));
    assert_eq!(e.plan_wait(5, 1_200), Wait::Block);
    assert!(e.on_deadline(true, 5, pad(bit::A), 5_999).is_none());
    let d = e.on_deadline(true, 5, pad(bit::A), 6_000).expect("due");
    assert_eq!(d.out.buttons, bit::A);
    let c = d.commit.expect("a commit");
    e.record_commit(c, 6_050);
    assert_eq!((e.stats.commits, e.stats.singles, e.stats.groups), (1, 1, 0));
    assert_eq!(e.stats.hold_max_us, 5_000);
}

#[test]
fn a_chord_is_delivered_at_once() {
    let mut e = engine(0);
    e.on_event(true, 5, pad(bit::A), 1_000);
    let d = e.on_event(true, 5, pad(bit::A | bit::B), 3_000);
    assert_eq!(d.out.buttons, bit::A | bit::B);
    let c = d.commit.expect("a commit");
    assert_eq!(c.gap_us, 2_000);
    e.record_commit(c, 3_100);
    assert_eq!((e.stats.groups, e.stats.gap_max_us, e.stats.source_events), (1, 2_000, 2));
    e.restart();
    assert_eq!(e.plan_wait(5, 4_000), Wait::Block);
}

#[test]
fn the_loop_spins_close_to_a_deadline() {
    let mut e = engine(200);
    e.on_event(true, 5, pad(bit::A), 1_000);
    assert_eq!(e.plan_wait(5, 1_100), Wait::Arm(Some(5_800)));
    assert_eq!(e.plan_wait(5, 5_900), Wait::Spin);
    assert!(Engine::reads_source(true, false) && !Engine::reads_source(false, false));
    assert!(Engine::visits_deadline(true, false, 3) && !Engine::visits_deadline(false, false, 0));
    assert_eq!(timer_spec(Some(2_500_001)), (2, 500_001_000));
    assert_eq!(timer_spec(None), (0, 0));
}

// ---- settings and commands --------------------------------------------------------------

#[test]
fn every_bad_setting_is_refused() {
    let mut c = Config::default();
    for line in [
        "window_ms = x",
        "spin_us = 6000",
        "enabled = maybe",
        "attack_buttons = nope",
        "identity = ps5",
        "grab = perhaps",
        "no sign",
        "unknown = 1",
    ] {
        assert!(c.apply_line(line).is_err(), "{line}");
    }
    assert_eq!(parse_bool("on"), Some(true));
    assert_eq!(parse_bool("0"), Some(false));
    assert_eq!(parse_bool("x"), None);
    let mut st = SharedState::new();
    c.apply_line("window_ms = 0").unwrap();
    c.apply_line("enabled = off").unwrap();
    c.publish(&mut st);
    assert_eq!((st.window_ms, st.enabled), ([0, 0], 0));
    assert_eq!(c.settings().attack_mask, c.attack_mask);
}

#[test]
fn arguments_are_settings() {
    let mut c = Config::default();
    assert!(apply_cli(&mut c, &vec!["--window_ms=3".to_string(), "grab=off".to_string()]).is_ok());
    assert_eq!((c.window_ms, c.grab), (3, false));
    let e = apply_cli(&mut c, &vec!["--window_ms".to_string()]).expect_err("no value");
    assert_eq!(e, "expected --key=value, got `window_ms`");
    let notes = apply_text(&mut c, "window_ms=4\nwindow_ms=77\n\n# x\nnope\n");
    assert_eq!(c.window_ms, 4);
    let lines: Vec<usize> = notes.iter().map(|n| n.0).collect();
    assert_eq!(lines, vec![2, 5]);
    assert_eq!(parse_command(None), Command::Run);
    assert_eq!(parse_command(Some("stats")), Command::Client);
    assert_eq!(parse_command(Some("--help")), Command::Help);
    assert_eq!(parse_command(Some("dance")), Command::Unknown);
    assert_eq!((probe_rounds(None), probe_rounds(Some("9")), probe_rounds(Some("x"))), (500, 9, 500));
}

#[test]
fn the_socket_answers() {
    let mut st = SharedState::new();
    let stats = Stats::default();
    let avg = Averages { gap_us: 1, hold_us: 2, pipeline_us: 3 };
    let mut ask = |line: &str, st: &mut SharedState| dispatch(line, st, &stats, avg);
    assert_eq!(ask("ping", &mut st), "pong");
    assert_eq!(ask("", &mut st), "");
    assert_eq!(ask("set window_ms 9", &mut st), "ok");
    assert_eq!(st.window_ms, [9, 9]);
    assert_eq!(ask("set window 17", &mut st), "error: window_ms must be 0..=16");
    assert_eq!(st.window_ms, [9, 9]);
    assert_eq!(ask("set window x", &mut st), "error: `x` is not a number");
    assert_eq!(ask("set enabled off", &mut st), "ok");
    assert_eq!(st.enabled, 0);
    assert_eq!(ask("set enabled 7", &mut st), "error: `7` is not a boolean");
    st.enabled = 0;
    assert_eq!(ask("set enabled yes", &mut st), "ok");
    assert_eq!(st.enabled, 1);
    assert_eq!(ask("set enabled NO", &mut st), "ok");
    assert_eq!(st.enabled, 0);
    assert_eq!(ask("set enabled True", &mut st), "ok");
    assert_eq!(st.enabled, 1);
    assert_eq!(ask("set enabled off", &mut st), "ok");
    assert_eq!(ask("set x 1", &mut st), "error: unknown key `x` (live keys: window_ms, enabled)");
    assert_eq!(ask("set x", &mut st), "error: usage: set <key> <value>");
    assert_eq!(ask("dance", &mut st), "error: unknown command `dance`");
    assert!(ask("get", &mut st).contains('9'));
    assert_eq!(ask("stats", &mut st), stats_line(&stats, avg));
    assert!(stats_line(&stats, avg).starts_with("commits=0 groups=0 singles=0 gap_avg_us=1"));
    assert_eq!(request_line("set", &vec!["a".to_string(), "b".to_string()]), "set a b");
    assert_eq!(request_line("get", &vec![]), "get");
    assert_eq!((reply_code("ok"), reply_code("error: x")), (0, 1));
}

// ---- probes ----------------------------------------------------------------------------

#[test]
fn round_trips_are_summed_up() {
    let v: Vec<u64> = (1..=200).rev().collect();
    let r = round_trip(&v).expect("samples");
    assert_eq!((r.min, r.avg, r.p50, r.p99, r.max, r.n), (1, 100, 101, 199, 200, 200));
    assert_eq!(round_trip(&vec![]), None);
    assert_eq!((next_marker(777), next_marker(-101)), (878, 1));
    assert_eq!((test_pattern(0), test_pattern(15), test_pattern(30), test_pattern(45)), (0x1001, 0x1008, 0x0002, 0x0004));
}

#[test]
fn each_tuning_leaves_a_line() {
    let req = TuningRequest { cpu_affinity: Some(3), mlock: false, ..TuningRequest::default() };
    assert_eq!(
        tuning_steps(&req),
        vec![
            TuneStep::TimerSlack,
            TuneStep::CpuLatency,
            TuneStep::Scheduler(20),
            TuneStep::Affinity(3)
        ]
    );
    let mut lines = Vec::new();
    tell_step(&mut lines, TuneStep::Scheduler(20), 99, None);
    tell_step(&mut lines, TuneStep::Scheduler(-1), 99, Some("EPERM"));
    tell_step(&mut lines, TuneStep::Affinity(3), 99, Some("EINVAL"));
    tell_step(&mut lines, TuneStep::Memory, 99, None);
    assert_eq!(
        lines,
        [
            "  ✓ scheduler              SCHED_FIFO prio 20 (max 99)",
            "  · scheduler              EPERM — grant CAP_SYS_NICE or raise RLIMIT_RTPRIO",
            "  · affinity               EINVAL",
            "  ✓ memory                 mlockall — no major faults in the loop",
        ]
    );
}

#[test]
fn the_poll_interval_leaves_a_line() {
    let s = |t: &str| t.to_string();
    assert_eq!(
        jspoll_text(1, &Jspoll::Unavailable(s("x"))),
        "  · usbhid jspoll        unavailable (x)"
    );
    assert_eq!(jspoll_text(1, &Jspoll::Already), "  ✓ usbhid jspoll        already 1 ms");
    assert_eq!(
        jspoll_text(1, &Jspoll::Changed(s("8\n"))),
        "  ✓ usbhid jspoll        8 → 1 ms (applies to devices bound from now)"
    );
    assert_eq!(
        jspoll_text(1, &Jspoll::Refused(s("EPERM"))),
        "  · usbhid jspoll        EPERM (need root)"
    );
}

#[test]
fn the_usage_names_every_command() {
    let u = usage("1.2.3");
    assert!(u.starts_with("nobdd 1.2.3 \u{2014} NOBD sync window for Linux\n\nCOMMANDS\n  run "));
    for word in ["list", "probe", "tune", "get | stats | ping", "set <key> <value>"] {
        assert!(u.contains(&format!("\n  {word} ")));
    }
    assert!(u.ends_with("\n  /etc/nobd/nobdd.conf  then  ~/.config/nobd/nobdd.conf  then  --key=value\n"));
}

#[test]
fn the_notes_are_whole() {
    assert!(no_pads_note().starts_with("No gamepads found.\nIf your stick"));
    assert!(probe_note().contains("after we\nwrite. Add the source hop"));
    assert!(tune_note().ends_with("does not have here.\nThe systemd unit in packaging/ grants exactly these and no more."));
}

#[test]
fn the_delay_is_what_translation_takes_off() {
    let mut b = ClockBridge::new();
    assert_eq!(b.delivery_delay_us(7, u64::MAX), 0);
    assert_eq!(b.translate(1_000, 51_000), 51_000);
    assert_eq!(b.delivery_delay_us(1_000, 51_000), 0);
    // Three hundred microseconds late.
    assert_eq!(b.translate(2_000, 52_300), 52_000);
    assert_eq!(b.delivery_delay_us(2_000, 52_300), 300);
}
