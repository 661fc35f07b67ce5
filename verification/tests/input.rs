//! Presses into chords: the readers, the pairing, the statistics and the monitor.

use nobd::button::{
    at_place, format_button, is_attack, map_button, place, Button, BUTTONS,
};
use nobd::hid::{
    apply_hat, apply_hid_button, decode_state, is_gamepad, product_name, to_wide, wide_from_bytes,
    HidButtons, HidDeviceId, HidDeviceInfo, HidSnapshot, HidState,
};
use nobd::input::{
    BounceEvent, GamepadInput, InputEvent, InputMsg, PollResult, StrayPress, StrayReason,
};
use nobd::monitor::{press_detail, release_detail, ButtonMonitor};
use nobd::scan::{Reading, XinputScan};
use nobd::stats::{game_frame_split, GapStats, Grouping};
use nobd::tester::{
    chord_text, lands_together, log_entry_slot, odds_phrase, GapLogEntry, GapTester,
};

const MS: u64 = 1_000_000;

// ---- buttons ------------------------------------------------------------------

#[test]
fn places_are_in_the_order_of_names() {
    let mut names: Vec<String> = Vec::new();
    for i in 0..BUTTONS {
        assert_eq!(place(at_place(i)), i);
        names.push(format!("{:?}", at_place(i)));
    }
    let mut sorted = names.clone();
    sorted.sort();
    assert_eq!(names, sorted);
}

#[test]
fn the_first_eight_hid_buttons_are_the_attacks() {
    for i in 0..16 {
        let b = map_button(i).expect("a button");
        assert_eq!(is_attack(b), i < 8, "{b:?}");
    }
    assert_eq!(map_button(16), None);
    assert_eq!(map_button(15), Some(Button::Unknown));
}

#[test]
fn buttons_have_labels() {
    assert_eq!(format_button(Button::South), "A/Cross");
    assert_eq!(format_button(Button::DPadLeft), "DPad Left");
    assert_eq!(format_button(Button::Mode), "Mode");
}

// ---- pairing --------------------------------------------------------------------

fn press(b: Button, ms: u64) -> InputMsg {
    InputMsg::Pressed(0, b, ms * MS)
}

fn release(b: Button, ms: u64) -> InputMsg {
    InputMsg::Released(0, b, ms * MS)
}

fn poll(msgs: Vec<InputMsg>, now_ms: u64) -> PollResult {
    GamepadInput::new().poll(&msgs, now_ms * MS)
}

#[test]
fn two_presses_close_together_are_a_chord() {
    let r = poll(vec![press(Button::South, 10), press(Button::East, 13), release(Button::South, 40)], 40);
    assert_eq!(r.pairs.len(), 1);
    let p = &r.pairs[0];
    assert_eq!((p.button_a, p.button_b, p.count), (Button::South, Button::East, 2));
    assert_eq!((p.gap_ns, p.t0_ns, p.controller), (3 * MS, 10 * MS, 0));
    assert_eq!(p.buttons, vec![Button::South, Button::East]);
    assert!(r.strays.is_empty() && r.bounces.is_empty());
    assert_eq!(r.events.len(), 3);
}

#[test]
fn a_chord_spreads_from_its_first_press_to_its_last() {
    let r = poll(
        vec![
            press(Button::South, 0),
            press(Button::East, 30),
            press(Button::West, 60),
            release(Button::West, 70),
        ],
        70,
    );
    assert_eq!(r.pairs[0].count, 3);
    assert_eq!(r.pairs[0].gap_ns, 60 * MS);
}

#[test]
fn a_press_released_alone_is_a_stray() {
    let r = poll(vec![press(Button::North, 5), release(Button::North, 9)], 20);
    assert_eq!(
        r.strays,
        vec![StrayPress {
            button: Button::North,
            solo_ns: 15 * MS,
            reason: StrayReason::ReleasedBeforePair,
            // The release came after the press: no time between them.
            off_time_ns: Some(0),
            controller: 0,
        }]
    );
}

#[test]
fn a_press_that_comes_too_late_opens_another_chord() {
    let r = poll(vec![press(Button::South, 0), press(Button::East, 51)], 52);
    assert_eq!(r.pairs.len(), 0);
    assert_eq!(r.strays.len(), 1);
    assert_eq!(r.strays[0].reason, StrayReason::NoPairArrived);
    // At fifty exactly it still joins.
    let r = poll(vec![press(Button::South, 0), press(Button::East, 50), release(Button::East, 60)], 60);
    assert_eq!(r.pairs[0].gap_ns, 50 * MS);
}

#[test]
fn a_held_chord_is_told_once_its_window_has_passed() {
    let mut g = GamepadInput::new();
    let r = g.poll(&vec![press(Button::South, 0), press(Button::East, 2)], 52 * MS);
    assert!(r.pairs.is_empty());
    let r = g.poll(&vec![], 52 * MS + 1);
    assert_eq!(r.pairs.len(), 1);
    let r = g.poll(&vec![release(Button::South, 90)], 90 * MS);
    assert!(r.pairs.is_empty() && r.strays.is_empty());
}

#[test]
fn a_quick_repress_is_a_bounce() {
    let r = poll(
        vec![press(Button::South, 0), release(Button::South, 1), press(Button::South, 4)],
        5,
    );
    assert_eq!(
        r.bounces,
        vec![BounceEvent { button: Button::South, off_ns: 3 * MS, controller: 0 }]
    );
    let r = poll(
        vec![press(Button::South, 0), release(Button::South, 1), press(Button::South, 6)],
        7,
    );
    assert!(r.bounces.is_empty());
}

#[test]
fn directions_do_not_pair() {
    let r = poll(vec![press(Button::DPadUp, 0), press(Button::South, 1), release(Button::South, 2)], 3);
    assert!(r.pairs.is_empty());
    assert_eq!(r.strays.len(), 1);
    assert_eq!(r.events[0], (0, InputEvent::Pressed(Button::DPadUp)));
    assert_eq!(r.events.len(), 3);
}

/// Every attack press is told once: in a chord, as a stray, or it still waits.
#[test]
fn no_press_is_lost_and_none_is_told_twice() {
    let attacks = [Button::South, Button::East, Button::West, Button::North, Button::LeftTrigger];
    let mut g = GamepadInput::new();
    let mut told: usize = 0;
    let mut pressed: usize = 0;
    let mut seed: u64 = 7;
    for round in 0..200u64 {
        let mut msgs = Vec::new();
        for k in 0..3u64 {
            seed = seed.wrapping_mul(6364136223846793005).wrapping_add(1442695040888963407);
            let b = attacks[(seed >> 33) as usize % attacks.len()];
            let t = (round * 20 + k * 5) * MS;
            let slot = (seed >> 60) as usize % 2;
            if (seed >> 20) % 2 == 0 {
                msgs.push(InputMsg::Pressed(slot, b, t));
                pressed += 1;
            } else {
                msgs.push(InputMsg::Released(slot, b, t));
            }
        }
        let r = g.poll(&msgs, (round * 20 + 20) * MS);
        for p in &r.pairs {
            assert!(p.count >= 2 && p.count == p.buttons.len());
            for (i, b) in p.buttons.iter().enumerate() {
                assert!(!p.buttons[..i].contains(b), "a button twice in one chord");
            }
            told += p.count;
        }
        told += r.strays.len();
    }
    let r = g.poll(&vec![], 1_000_000 * MS);
    for p in &r.pairs {
        told += p.count;
    }
    told += r.strays.len();
    assert_eq!(told, pressed);
}

#[test]
fn controllers_are_listed_by_slot() {
    let mut g = GamepadInput::new();
    assert_eq!(g.report_interval_ns(), None);
    let list = vec![(2, "Stick".to_string()), (0, String::new())];
    g.poll(&vec![InputMsg::Connected(list, MS)], 0);
    assert_eq!(g.controllers(), vec![(0, "Controller 1".to_string()), (2, "Stick".to_string())]);
    assert_eq!(g.report_interval_ns(), Some(MS));
    g.poll(&vec![InputMsg::Connected(vec![], 0)], 0);
    assert_eq!(g.controllers(), vec![]);
    assert_eq!(g.report_interval_ns(), Some(MS));
}

#[test]
fn reasons_in_words() {
    assert_eq!(StrayReason::NoPairArrived.label(), "no pair arrived");
    assert_eq!(StrayReason::ReleasedBeforePair.label(), "released before pair");
}

// ---- polling XInput ---------------------------------------------------------------

fn reading(packet: u32, buttons: u16) -> Option<Reading> {
    Some(Reading { packet, buttons, left_trigger: 0, right_trigger: 0 })
}

fn kinds(msgs: &[InputMsg]) -> Vec<(bool, Button)> {
    msgs.iter()
        .map(|m| match m {
            InputMsg::Pressed(_, b, _) => (true, *b),
            InputMsg::Released(_, b, _) => (false, *b),
            InputMsg::Connected(_, _) => panic!("no edge"),
        })
        .collect()
}

#[test]
fn a_scan_tells_the_edges_between_reports() {
    let mut s = XinputScan::new();
    assert!(s.begin(0));
    assert!(!s.begin(1_999_999_999));
    assert!(s.begin(2_000_000_000));
    assert!(!s.asks(1, false) && s.asks(1, true));
    let e = s.answer(1, reading(1, 0x1000), 5);
    assert_eq!(kinds(&e), vec![(true, Button::South)]);
    assert!(s.asks(1, false));
    // The same packet tells nothing, whatever it holds.
    assert!(s.answer(1, reading(1, 0x2000), 6).is_empty());
    let e = s.answer(1, reading(2, 0x2000), 7);
    assert_eq!(kinds(&e), vec![(false, Button::South), (true, Button::East)]);
    // Gone and back: it starts clean.
    assert!(s.answer(1, None, 8).is_empty());
    let e = s.answer(1, reading(2, 0x2000), 9);
    assert_eq!(kinds(&e), vec![(true, Button::East)]);
}

#[test]
fn triggers_count_as_buttons_beyond_the_threshold() {
    let mut s = XinputScan::new();
    let pulled = |l, r| Some(Reading { packet: l as u32 + 256 * r as u32, buttons: 0, left_trigger: l, right_trigger: r });
    assert!(s.answer(0, pulled(30, 0), 0).is_empty());
    assert_eq!(kinds(&s.answer(0, pulled(31, 31), 1)), vec![(true, Button::LeftTrigger2), (true, Button::RightTrigger2)]);
}

#[test]
fn a_scan_announces_its_slots_once_a_second() {
    let mut s = XinputScan::new();
    s.answer(2, reading(1, 0), 0);
    s.answer(2, reading(2, 0), 4 * MS);
    s.answer(2, reading(3, 0), 5 * MS);
    s.answer(2, reading(4, 0), 205 * MS);
    match s.publish(10 * MS) {
        Some(InputMsg::Connected(list, interval)) => {
            assert_eq!(list, vec![(2, "Controller 3".to_string())]);
            assert_eq!(interval, MS);
        }
        _ => panic!("due"),
    }
    assert!(s.publish(1009 * MS).is_none());
    assert!(s.publish(1010 * MS).is_some());
}

// ---- HID --------------------------------------------------------------------------

#[test]
fn joysticks_and_gamepads_are_gamepads() {
    assert!(is_gamepad(1, 4) && is_gamepad(1, 5));
    assert!(!is_gamepad(1, 6) && !is_gamepad(2, 5));
}

#[test]
fn a_device_is_called_what_it_calls_itself() {
    let mut buf = to_wide("Stick é😀");
    buf.resize(64, 0);
    assert_eq!(product_name(Some(buf), 1, 2), "Stick é😀");
    assert_eq!(product_name(Some(to_wide("  ")), 0x1209, 0xAB), "1209:00AB");
    assert_eq!(product_name(None, 0x1209, 0xAB), "1209:00AB");
}

#[test]
fn wide_text_reads_back() {
    let text = "\\\\?\\hid#vid_1209 é 😀";
    let mut bytes: Vec<u8> = Vec::new();
    for u in to_wide(text) {
        bytes.extend_from_slice(&u.to_le_bytes());
    }
    bytes.extend_from_slice(&[0x41, 0x00]);
    assert_eq!(wide_from_bytes(&bytes), text);
    // A surrogate without its partner, and an odd byte at the end.
    assert_eq!(wide_from_bytes(&[0x00, 0xD8, 0x41, 0x00, 0x42]), "\u{FFFD}A");
    assert_eq!(wide_from_bytes(&[]), "");
}

#[test]
fn hid_edges_are_the_difference_of_two_reports() {
    let mut h = HidButtons::new(0);
    let e = h.report(Some(vec![1, 3]), 1, 5);
    assert_eq!(kinds(&e), vec![(true, Button::South), (true, Button::West)]);
    // A report that cannot be decoded changes nothing.
    assert!(h.report(None, 1, 6).is_empty());
    assert!(h.report(Some(vec![1, 3]), 1, 7).is_empty());
    let e = h.report(Some(vec![3, 2]), 1, 8);
    assert_eq!(kinds(&e), vec![(true, Button::East), (false, Button::South)]);
    // An index beyond the table is no button.
    assert!(h.report(Some(vec![3, 2, 40]), 1, 9).is_empty());
    assert!(!h.publish_due(999_999_999));
    assert!(h.publish_due(1_000_000_000));
    assert!(!h.publish_due(1_000_000_001));
}

#[test]
fn a_report_decodes_into_the_xinput_layout() {
    let s = decode_state(Some(vec![1, 7, 8, 10, 99]), 1, Some(1));
    assert_eq!(
        s,
        HidState { buttons: 0x1000 | 0x0010 | 0x0001 | 0x0008, lt: 255, rt: 255, lx: 32767, ly: 32767 }
    );
    let rest = HidState { buttons: 0, lt: 0, rt: 0, lx: 0, ly: 0 };
    assert_eq!(decode_state(None, 1, None), rest);
    assert_eq!(decode_state(Some(vec![]), 1, Some(8)), rest);
    assert_eq!(decode_state(None, 1, Some(5)).lx, -32768);
}

#[test]
fn every_hid_button_has_its_bit() {
    let want: [u16; 13] = [
        0x1000, 0x2000, 0x4000, 0x8000, 0x0100, 0x0200, 0, 0, 0x0020, 0x0010, 0x0040, 0x0080, 0x0400,
    ];
    for (i, bit) in want.iter().enumerate() {
        let mut s = decode_state(None, 0, None);
        apply_hid_button(&mut s, i);
        assert_eq!(s.buttons, *bit);
    }
}

#[test]
fn a_hat_points_at_most_two_ways() {
    let want: [u16; 9] = [1, 1 | 8, 8, 8 | 2, 2, 2 | 4, 4, 4 | 1, 0];
    for (dir, bits) in want.iter().enumerate() {
        let mut s = decode_state(None, 0, None);
        apply_hat(&mut s, dir as u32);
        assert_eq!(s.buttons, *bits, "direction {dir}");
        assert!(s.buttons & 3 != 3 && s.buttons & 12 != 12);
    }
}

#[test]
fn a_snapshot_gives_back_what_was_written() {
    let mut s = HidSnapshot::new();
    assert!(!s.is_present() && !s.stopping);
    s.write(0xF00F, 1, 2, -3, 4);
    assert_eq!(s.read(), (0xF00F, 1, 2, -3, 4));
    s.stop();
    assert!(s.stopping);
}

#[test]
fn a_device_is_known_by_its_path() {
    let info = HidDeviceInfo {
        id: HidDeviceId { path: "p".to_string(), vid: 1, pid: 2 },
        product: "x".to_string(),
        usage_page: 1,
        usage: 5,
        button_count: 8,
    };
    assert_eq!(info.id().to_persist(), "p");
    assert_eq!((info.id().vid, info.id().pid), (1, 2));
}

// ---- statistics -------------------------------------------------------------------

fn stats(gaps_us: &[u64]) -> GapStats {
    let mut s = GapStats::new();
    s.set_window(40);
    for g in gaps_us {
        s.record_chord(g * 1000, &vec![Button::South, Button::East], 0);
    }
    s
}

#[test]
fn a_summary_of_the_gaps() {
    let s = stats(&[3_000, 1_000, 8_000]);
    assert_eq!(s.count(), 3);
    assert_eq!(s.average(), 4 * MS);
    assert_eq!((s.min(), s.max()), (Some(MS), 8 * MS));
    assert_eq!(s.percentile(50), 3 * MS);
    assert_eq!(s.percentile(95), 8 * MS);
    assert_eq!(s.recommended_nobd(), 9);
    // (3 + 1 + 8) ms of three frames of 16.67 ms
    assert_eq!(s.split_probability(), 240_000);
    let none = GapStats::new();
    assert_eq!((none.average(), none.min(), none.max(), none.percentile(50)), (0, None, 0, 0));
    assert_eq!((none.recommended_nobd(), none.split_probability()), (0, 0));
}

#[test]
fn the_advised_window_keeps_its_bounds() {
    assert_eq!(stats(&[100]).recommended_nobd(), 3);
    assert_eq!(stats(&[4_000]).recommended_nobd(), 5);
    assert_eq!(stats(&[4_001]).recommended_nobd(), 6);
    assert_eq!(stats(&[40_000]).recommended_nobd(), 16);
}

#[test]
fn the_game_splits_at_its_frames() {
    assert!(!game_frame_split(0, 16_666_666));
    assert!(game_frame_split(0, 16_666_667));
    assert!(game_frame_split(16_000_000, 1_000_000));
    assert!(!game_frame_split(17_000_000, 1_000_000));
    let mut s = GapStats::new();
    s.record_chord(MS, &vec![Button::South], 16 * MS);
    s.record_chord(MS, &vec![Button::South], 17 * MS);
    assert_eq!(s.simulated_split_count(), 1);
    assert_eq!(s.simulated_split_rate(), 500_000);
}

#[test]
fn only_the_latest_inputs_count() {
    let mut s = GapStats::new();
    assert_eq!(s.window(), 12);
    for i in 0..20u64 {
        s.record_chord(i * MS, &vec![Button::South], 0);
    }
    assert_eq!(s.count(), 12);
    assert_eq!(s.min(), Some(8 * MS));
    s.set_window(1);
    assert_eq!((s.window(), s.count()), (6, 6));
    s.set_window(100);
    assert_eq!(s.window(), 40);
    s.clear();
    assert_eq!(s.count(), 0);
}

#[test]
fn the_interval_keeps_its_bounds() {
    let mut s = GapStats::new();
    assert_eq!(s.frame_ns(), MS);
    s.set_frame_ns(0);
    assert_eq!(s.frame_ns(), MS);
    s.set_frame_ns(1);
    assert_eq!(s.frame_ns(), 200_000);
    s.set_frame_ns(u64::MAX);
    assert_eq!(s.frame_ns(), 8 * MS);
}

#[test]
fn the_histogram_counts_by_report() {
    let s = stats(&[0, 400, 1_000, 1_600, 3_000]);
    assert_eq!(s.frame_histogram(), vec![(0, 2), (1, 1), (2, 1), (3, 1)]);
    assert_eq!(s.same_frame_pct(), 400_000);
    assert_eq!(s.dead_zone_frames(), 0);
    assert_eq!(s.estimated_window_ns(), Some(MS));
    let s = stats(&[0, 0, 6_000]);
    assert_eq!(s.dead_zone_frames(), 5);
    assert_eq!(s.estimated_window_ns(), Some(6 * MS));
    assert_eq!(stats(&[0]).estimated_window_ns(), None);
    assert!(GapStats::new().frame_histogram().is_empty());
}

#[test]
fn what_happens_upstream() {
    let s = stats(&[3_000; 7]);
    assert_eq!(s.grouping(), None);
    assert_eq!(s.samples_until_verdict(), 1);
    let s = stats(&[3_000; 8]);
    assert_eq!(s.samples_until_verdict(), 0);
    assert_eq!(s.grouping(), Some(Grouping::Natural));
    assert!(!s.grouping_active());
    let s = stats(&[0; 8]);
    assert_eq!(s.grouping(), Some(Grouping::AlwaysOn));
    let mut s = stats(&[0; 8]);
    s.record_solo();
    assert_eq!(s.solo_count(), 1);
    assert_eq!(s.grouping(), Some(Grouping::Window));
    assert!(s.grouping_active());
    let mut s = stats(&[0; 8]);
    s.record_chord(0, &vec![Button::West, Button::East], 0);
    assert_eq!(s.grouping(), Some(Grouping::Window));
    let s = stats(&[0, 0, 1_000, 2_000, 3_000, 4_000, 5_000, 6_000]);
    assert_eq!(s.grouping(), Some(Grouping::Hint));
}

#[test]
fn chords_differ_by_their_buttons_not_their_order() {
    let mut s = GapStats::new();
    s.record_chord(0, &vec![Button::South, Button::East], 0);
    s.record_chord(0, &vec![Button::East, Button::South, Button::East], 0);
    assert_eq!(s.distinct_chords(), 1);
    s.record_chord(0, &vec![Button::East], 0);
    s.record_solo();
    assert_eq!(s.distinct_chords(), 2);
}

// ---- the tester -------------------------------------------------------------------

#[test]
fn the_tester_counts_by_controller() {
    let mut t = GapTester::new();
    let mut g = GamepadInput::new();
    let msgs = vec![
        InputMsg::Pressed(1, Button::South, 0),
        InputMsg::Pressed(1, Button::East, 2 * MS),
        InputMsg::Released(1, Button::East, 3 * MS),
        InputMsg::Pressed(0, Button::West, 3 * MS),
        InputMsg::Released(0, Button::West, 4 * MS),
        InputMsg::Pressed(0, Button::West, 5 * MS),
    ];
    let found = g.poll(&msgs, 6 * MS);
    t.take(&found, 500_000);
    assert_eq!(t.counts(0), (1, 1, 0));
    assert_eq!(t.counts(1), (0, 0, 1));
    assert_eq!(t.counts(9), (0, 0, 0));
    assert_eq!(t.stats(1).expect("known").count(), 1);
    assert_eq!(t.stats(1).expect("known").frame_ns(), 500_000);
    assert!(t.stats(2).is_none());
    assert_eq!(t.log().len(), 3);
    assert_eq!(
        t.log()[0],
        GapLogEntry::Pair {
            controller: 1,
            attempt: 1,
            button_a: Button::South,
            button_b: Button::East,
            count: 2,
            gap_ns: 2 * MS,
        }
    );
    assert_eq!(log_entry_slot(&t.log()[2]), 0);
    t.reset_local_stats();
    assert!(t.log().is_empty() && t.stats(1).is_none());
}

#[test]
fn the_log_keeps_the_latest_entries() {
    let mut t = GapTester::new();
    for i in 0..510u64 {
        let mut found = PollResult::new();
        found.bounces.push(BounceEvent { button: Button::South, off_ns: i, controller: 0 });
        t.take(&found, 0);
    }
    assert_eq!(t.log().len(), 500);
    assert_eq!(t.log()[0], GapLogEntry::Bounce { controller: 0, button: Button::South, off_ns: 10 });
    assert_eq!(t.log()[499], GapLogEntry::Bounce { controller: 0, button: Button::South, off_ns: 509 });
}

#[test]
fn odds_a_player_can_picture() {
    assert_eq!(odds_phrase(0), "always safe");
    assert_eq!(odds_phrase(16_666_667), "drops every time");
    assert_eq!(odds_phrase(16_666_666), "about 1 in 2");
    assert_eq!(odds_phrase(3_333_333), "about 1 in 5");
    assert_eq!(odds_phrase(1), "about 1 in 16666667");
}

#[test]
fn a_chord_within_the_window_lands_together() {
    assert!(lands_together(true, 5 * MS, 5));
    assert!(!lands_together(true, 5 * MS + 1, 5));
    assert!(!lands_together(false, 0, 5));
}

#[test]
fn chords_in_words() {
    assert_eq!(chord_text(Button::South, Button::East, 2), "A/Cross+B/Circle");
    assert_eq!(chord_text(Button::South, Button::West, 3), "A/Cross+X/Square (3 btn)");
}

// ---- the monitor ------------------------------------------------------------------

#[test]
fn the_monitor_measures_holds_and_represses() {
    let mut m = ButtonMonitor::new();
    assert_eq!(m.on_press(Button::South, 10), (1, None));
    assert_eq!(m.on_release(Button::South, 25), Some(15));
    assert_eq!(m.on_press(Button::South, 30), (2, Some(5)));
    assert_eq!(m.on_release(Button::East, 31), None);
    // Of the second button only a release was seen.
    let infos = m.button_infos();
    assert_eq!(infos.len(), 1);
    let a = &infos[0];
    assert_eq!((a.name.as_str(), a.held, a.press_count), ("A/Cross", true, 2));
    assert_eq!((a.hold_count, a.hold_sum_ns, a.last_hold_ns), (1, 15, 15));
    assert_eq!((a.repress_count, a.repress_sum_ns, a.last_repress_ns), (1, 5, 5));
    m.on_press(Button::East, 40);
    let infos = m.button_infos();
    assert_eq!((infos.len(), infos[0].name.as_str(), infos[0].held), (2, "B/Circle", true));
    m.clear();
    assert!(m.button_infos().is_empty());
}

#[test]
fn the_monitor_keeps_a_log() {
    let mut m = ButtonMonitor::new();
    m.log_press(Button::South, 1, None);
    m.log_release(Button::South, Some("15.0"));
    m.log_press(Button::South, 2, Some("5.0"));
    let log = m.event_log();
    assert_eq!((log[0].button_name.as_str(), log[0].event_type.as_str()), ("A/Cross", "PRESS"));
    assert_eq!(log[0].detail, "press #1");
    assert_eq!((log[1].event_type.as_str(), log[1].detail.as_str()), ("RELEASE", "held: 15.0ms"));
    assert_eq!(log[2].detail, "press #2  repress: 5.0ms");
    assert_eq!(release_detail(None), "");
    for i in 0..500 {
        m.log_press(Button::East, i, None);
    }
    assert_eq!(m.event_log().len(), 500);
    assert_eq!(m.event_log()[0].detail, press_detail(0, None));
}
