use gif_braille_tui::playback::{InputEvent, Phase, Scheduler, FRAME_INTERVAL_MICROS, QUIT_KEY};
use gif_braille_tui::raster::RawFrame;
use gif_braille_tui::store::convert_frames;

#[test]
fn constants_are_as_documented() {
    assert_eq!(QUIT_KEY, 'q');
    assert_eq!(FRAME_INTERVAL_MICROS, 96_000);
}

#[test]
fn empty_store_cannot_be_played() {
    assert!(Scheduler::new(0, FRAME_INTERVAL_MICROS, 0).is_none());
}

#[test]
fn playback_starts_running_at_frame_zero() {
    let scheduler = Scheduler::new(3, FRAME_INTERVAL_MICROS, 1_000).unwrap();
    assert_eq!(scheduler.frame_index(), 0);
    assert_eq!(scheduler.frame_count(), 3);
    assert_eq!(scheduler.phase(), Phase::Running);
}

#[test]
fn wait_is_the_rest_of_the_interval() {
    let scheduler = Scheduler::new(3, 96_000, 1_000).unwrap();
    assert_eq!(scheduler.time_left(1_000), 96_000);
    assert_eq!(scheduler.time_left(1_001), 95_999);
    assert_eq!(scheduler.time_left(50_000), 47_000);
    assert_eq!(scheduler.time_left(96_999), 1);
    assert_eq!(scheduler.time_left(97_000), 0);
    assert_eq!(scheduler.time_left(u64::MAX), 0);
    // A clock reading from before the start counts as no time passed.
    assert_eq!(scheduler.time_left(500), 96_000);
}

#[test]
fn frame_stays_until_interval_is_over() {
    let mut scheduler = Scheduler::new(3, 96_000, 0).unwrap();
    assert_eq!(scheduler.step(InputEvent::Idle, 1), Phase::Running);
    assert_eq!(scheduler.frame_index(), 0);
    assert_eq!(scheduler.step(InputEvent::Idle, 95_999), Phase::Running);
    assert_eq!(scheduler.frame_index(), 0);
    // The timer was not reset by the rounds that did not advance.
    assert_eq!(scheduler.time_left(95_999), 1);
}

#[test]
fn interval_over_brings_next_frame() {
    let mut scheduler = Scheduler::new(3, 96_000, 0).unwrap();
    assert_eq!(scheduler.step(InputEvent::Idle, 96_000), Phase::Running);
    assert_eq!(scheduler.frame_index(), 1);
    // The timer starts again at the time of the advance.
    assert_eq!(scheduler.time_left(96_000), 96_000);
    assert_eq!(scheduler.time_left(100_000), 92_000);
}

#[test]
fn index_wraps_after_as_many_intervals_as_frames() {
    let mut scheduler = Scheduler::new(3, 96_000, 0).unwrap();
    let mut now = 0;
    let mut seen = Vec::new();
    for _ in 0..7 {
        now += 96_000;
        assert_eq!(scheduler.step(InputEvent::Idle, now), Phase::Running);
        seen.push(scheduler.frame_index());
    }
    assert_eq!(seen, vec![1, 2, 0, 1, 2, 0, 1]);
}

#[test]
fn late_round_advances_by_one_frame_only() {
    let mut scheduler = Scheduler::new(5, 96_000, 0).unwrap();
    scheduler.step(InputEvent::Idle, 1_000_000);
    assert_eq!(scheduler.frame_index(), 1);
    assert_eq!(scheduler.time_left(1_000_000), 96_000);
}

#[test]
fn single_frame_keeps_playing_itself() {
    let mut scheduler = Scheduler::new(1, 96_000, 0).unwrap();
    assert_eq!(scheduler.step(InputEvent::Idle, 96_000), Phase::Running);
    assert_eq!(scheduler.frame_index(), 0);
    assert_eq!(scheduler.time_left(96_000), 96_000);
}

#[test]
fn quit_key_ends_playback_anywhere_in_the_interval() {
    for now in [0u64, 1, 48_000, 95_999, 96_000, 5_000_000] {
        let mut scheduler = Scheduler::new(3, 96_000, 0).unwrap();
        assert_eq!(scheduler.step(InputEvent::Key('q'), now), Phase::Terminated);
        assert_eq!(scheduler.phase(), Phase::Terminated);
        // Quitting comes before advancing, even when the frame was due.
        assert_eq!(scheduler.frame_index(), 0);
    }
}

#[test]
fn quit_key_ends_playback_in_mid_animation() {
    let mut scheduler = Scheduler::new(3, 96_000, 0).unwrap();
    scheduler.step(InputEvent::Idle, 96_000);
    scheduler.step(InputEvent::Other, 192_000);
    assert_eq!(scheduler.frame_index(), 2);
    assert_eq!(scheduler.step(InputEvent::Key('q'), 200_000), Phase::Terminated);
    assert_eq!(scheduler.frame_index(), 2);
}

#[test]
fn nothing_happens_after_the_end() {
    let mut scheduler = Scheduler::new(3, 96_000, 0).unwrap();
    scheduler.step(InputEvent::Key('q'), 10);
    assert_eq!(scheduler.step(InputEvent::Idle, 96_000), Phase::Terminated);
    assert_eq!(scheduler.step(InputEvent::Key('x'), 500_000), Phase::Terminated);
    assert_eq!(scheduler.frame_index(), 0);
    assert_eq!(scheduler.time_left(10), 95_990);
}

#[test]
fn other_keys_and_events_are_ignored() {
    let mut scheduler = Scheduler::new(3, 96_000, 0).unwrap();
    let events =
        [InputEvent::Key('Q'), InputEvent::Key('x'), InputEvent::Key(' '), InputEvent::Other];
    for event in events {
        assert_eq!(scheduler.step(event, 10_000), Phase::Running);
        assert_eq!(scheduler.frame_index(), 0);
    }
}

#[test]
fn held_key_does_not_stall_playback() {
    let mut scheduler = Scheduler::new(3, 96_000, 0).unwrap();
    let mut now = 0;
    while now < 96_000 {
        now += 1_000;
        scheduler.step(InputEvent::Key('x'), now);
    }
    assert_eq!(scheduler.frame_index(), 1);
    scheduler.step(InputEvent::Other, 200_000);
    assert_eq!(scheduler.frame_index(), 2);
}

#[test]
fn interval_is_a_parameter() {
    let mut scheduler = Scheduler::new(2, 16_000, 0).unwrap();
    assert_eq!(scheduler.time_left(6_000), 10_000);
    scheduler.step(InputEvent::Idle, 16_000);
    assert_eq!(scheduler.frame_index(), 1);
    let mut eager = Scheduler::new(2, 0, 0).unwrap();
    assert_eq!(eager.time_left(0), 0);
    eager.step(InputEvent::Idle, 0);
    assert_eq!(eager.frame_index(), 1);
}

#[test]
fn scheduler_for_a_store_plays_all_its_frames() {
    let frame =
        |level: u8| RawFrame { width: 1, height: 1, pixels: vec![level, level, level, 255] };
    let store = convert_frames(&vec![frame(0), frame(100), frame(200)], 80, 24).unwrap();
    let mut scheduler = Scheduler::for_store(&store, FRAME_INTERVAL_MICROS, 5);
    assert_eq!(scheduler.frame_count(), 3);
    assert_eq!(scheduler.frame_index(), 0);
    assert_eq!(scheduler.phase(), Phase::Running);
    assert_eq!(scheduler.time_left(5), 96_000);
    let mut shown = Vec::new();
    for round in 1..=4u64 {
        scheduler.step(InputEvent::Idle, 5 + round * 96_000);
        shown.push(store.frame(scheduler.frame_index()).unwrap().cell(0, 0).unwrap().red);
    }
    assert_eq!(shown, vec![100, 200, 0, 100]);
}
