use maolan_plugins::random::dsp::NotePicker;
use maolan_plugins::random::params::Note;
use maolan_plugins::random::state::{default_version, state_json_text};

#[test]
fn changed_ranges_include_endpoints_and_allow_one_note() {
    let mut dsp = NotePicker::new();
    for (lowest, highest) in [(60u8, 61u8), (72, 48), (0, 127), (69, 69), (127, 127)] {
        dsp.set_note_range(lowest, highest);
        let range = lowest.min(highest)..=lowest.max(highest);
        let mut seen = [false; 128];
        for _ in 0..10000 {
            let previous = dsp.previous_note;
            dsp.next_note();
            assert!(range.contains(&dsp.previous_note));
            if lowest != highest {
                assert_ne!(previous, dsp.previous_note);
            }
            seen[usize::from(dsp.previous_note)] = true;
        }
        assert!(seen[usize::from(lowest)] && seen[usize::from(highest)]);
    }
}

#[test]
fn pitches_stay_in_range_and_do_not_repeat() {
    let mut dsp = NotePicker::new();
    for _ in 0..1000 {
        let previous = dsp.previous_note;
        dsp.next_note();
        assert!((48..=72).contains(&dsp.previous_note));
        assert_ne!(previous, dsp.previous_note);
    }
}

#[test]
fn seeded_picker_is_deterministic() {
    let mut a = NotePicker::with_seed(12345);
    let mut b = NotePicker::with_seed(12345);
    for _ in 0..50 {
        assert_eq!(a.next_note(), b.next_note());
    }
    let z = NotePicker::with_seed(0);
    assert_eq!(z.rng, 1);
    // One xorshift step from 1: 1 ^ 1<<13 = 0x2001, ^ >>7 = 0x2041, ^ <<17 = 0x40822041.
    let mut p = NotePicker::with_seed(1);
    p.next_note();
    assert_eq!(p.rng, 0x4082_2041);
}

#[test]
fn note_range_caps_at_127_and_orders() {
    let mut p = NotePicker::with_seed(7);
    p.set_note_range(200, 100);
    assert_eq!(p.note_range, (100, 127));
    p.set_note_range(10, 3);
    assert_eq!(p.note_range, (3, 10));
}

#[test]
fn note_names_use_c4_as_middle_c() {
    assert_eq!(Note(60).name(), "C4");
    assert_eq!(Note(61).name(), "C#4");
    assert_eq!(Note(0).name(), "C-1");
    assert_eq!(Note(127).name(), "G9");
    assert_eq!(Note(69).name(), "A4");
    assert_eq!(Note(121).name(), "C#9");
}

#[test]
fn state_header_line_is_dropped() {
    assert_eq!(state_json_text("maolan-random-state-v0.1.0\n{\"a\":1}"), "{\"a\":1}");
    assert_eq!(state_json_text("{\"a\":1}"), "{\"a\":1}");
    assert_eq!(state_json_text("other header\n{}"), "other header\n{}");
    assert_eq!(default_version(), "0.1.0");
}
