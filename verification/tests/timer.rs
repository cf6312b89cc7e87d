use sozu_lib::clock::{elapsed, instant_after, time_between, Duration};
use sozu_lib::timer::{Builder, TimeoutContainer, Timer};
use sozu_lib::Token;
use time::Instant;

const TICK: u64 = 100;
const SLOTS: usize = 16;
const CAPACITY: usize = 32;

fn count<T>(timer: &Timer<T>) -> usize {
    timer.len()
}

fn timer() -> Timer<&'static str> {
    Timer::new(TICK, SLOTS, CAPACITY, Instant::now())
}

fn ms_to_tick<T>(timer: &Timer<T>, ms: u64) -> u64 {
    ms / timer.tick_ms()
}

#[test]
fn test_timeout_next_tick() {
    let mut t = timer();
    let mut tick;

    t.set_timeout_at(Duration::milliseconds(100), "a");

    tick = ms_to_tick(&t, 50);
    assert_eq!(None, t.poll_to(tick));

    tick = ms_to_tick(&t, 100);
    assert_eq!(Some("a"), t.poll_to(tick));
    assert_eq!(None, t.poll_to(tick));

    tick = ms_to_tick(&t, 150);
    assert_eq!(None, t.poll_to(tick));

    tick = ms_to_tick(&t, 200);
    assert_eq!(None, t.poll_to(tick));

    assert_eq!(count(&t), 0);
}

#[test]
fn test_clearing_timeout() {
    let mut t = timer();
    let mut tick;

    let to = t.set_timeout_at(Duration::milliseconds(100), "a");
    assert_eq!("a", t.cancel_timeout(&to).unwrap());

    tick = ms_to_tick(&t, 100);
    assert_eq!(None, t.poll_to(tick));

    tick = ms_to_tick(&t, 200);
    assert_eq!(None, t.poll_to(tick));

    assert_eq!(count(&t), 0);
}

#[test]
fn test_multiple_timeouts_same_tick() {
    let mut t = timer();
    let mut tick;

    t.set_timeout_at(Duration::milliseconds(100), "a");
    t.set_timeout_at(Duration::milliseconds(100), "b");

    let mut rcv = vec![];

    tick = ms_to_tick(&t, 100);
    rcv.push(t.poll_to(tick).unwrap());
    rcv.push(t.poll_to(tick).unwrap());

    assert_eq!(None, t.poll_to(tick));

    rcv.sort();
    assert!(rcv == ["a", "b"], "actual={:?}", rcv);

    tick = ms_to_tick(&t, 200);
    assert_eq!(None, t.poll_to(tick));

    assert_eq!(count(&t), 0);
}

#[test]
fn test_multiple_timeouts_diff_tick() {
    let mut t = timer();
    let mut tick;

    t.set_timeout_at(Duration::milliseconds(110), "a");
    t.set_timeout_at(Duration::milliseconds(220), "b");
    t.set_timeout_at(Duration::milliseconds(230), "c");
    t.set_timeout_at(Duration::milliseconds(440), "d");
    t.set_timeout_at(Duration::milliseconds(560), "e");

    tick = ms_to_tick(&t, 100);
    assert_eq!(Some("a"), t.poll_to(tick));
    assert_eq!(None, t.poll_to(tick));

    tick = ms_to_tick(&t, 200);
    assert_eq!(Some("c"), t.poll_to(tick));
    assert_eq!(Some("b"), t.poll_to(tick));
    assert_eq!(None, t.poll_to(tick));

    tick = ms_to_tick(&t, 300);
    assert_eq!(None, t.poll_to(tick));

    tick = ms_to_tick(&t, 400);
    assert_eq!(Some("d"), t.poll_to(tick));
    assert_eq!(None, t.poll_to(tick));

    tick = ms_to_tick(&t, 500);
    assert_eq!(None, t.poll_to(tick));

    tick = ms_to_tick(&t, 600);
    assert_eq!(Some("e"), t.poll_to(tick));
    assert_eq!(None, t.poll_to(tick));
}

#[test]
fn test_catching_up() {
    let mut t = timer();

    t.set_timeout_at(Duration::milliseconds(110), "a");
    t.set_timeout_at(Duration::milliseconds(220), "b");
    t.set_timeout_at(Duration::milliseconds(230), "c");
    t.set_timeout_at(Duration::milliseconds(440), "d");

    let tick = ms_to_tick(&t, 600);
    assert_eq!(Some("a"), t.poll_to(tick));
    assert_eq!(Some("c"), t.poll_to(tick));
    assert_eq!(Some("b"), t.poll_to(tick));
    assert_eq!(Some("d"), t.poll_to(tick));
    assert_eq!(None, t.poll_to(tick));
}

#[test]
fn test_timeout_hash_collision() {
    let mut t = timer();
    let mut tick;

    t.set_timeout_at(Duration::milliseconds(100), "a");
    t.set_timeout_at(
        Duration::milliseconds((100 + TICK * SLOTS as u64) as i64),
        "b",
    );

    tick = ms_to_tick(&t, 100);
    assert_eq!(Some("a"), t.poll_to(tick));
    assert_eq!(1, count(&t));

    tick = ms_to_tick(&t, 200);
    assert_eq!(None, t.poll_to(tick));
    assert_eq!(1, count(&t));

    tick = ms_to_tick(&t, 100 + TICK * SLOTS as u64);
    assert_eq!(Some("b"), t.poll_to(tick));
    assert_eq!(0, count(&t));
}

#[test]
fn test_clearing_timeout_between_triggers() {
    let mut t = timer();
    let mut tick;

    let a = t.set_timeout_at(Duration::milliseconds(100), "a");
    let _ = t.set_timeout_at(Duration::milliseconds(100), "b");
    let _ = t.set_timeout_at(Duration::milliseconds(200), "c");

    tick = ms_to_tick(&t, 100);
    assert_eq!(Some("b"), t.poll_to(tick));
    assert_eq!(2, count(&t));

    t.cancel_timeout(&a);
    assert_eq!(1, count(&t));

    assert_eq!(None, t.poll_to(tick));

    tick = ms_to_tick(&t, 200);
    assert_eq!(Some("c"), t.poll_to(tick));
    assert_eq!(0, count(&t));
}

#[test]
fn cancelling_twice_hands_nothing_back_the_second_time() {
    let mut t = timer();
    let to = t.set_timeout_at(Duration::milliseconds(300), "a");
    assert_eq!(Some("a"), t.cancel_timeout(&to));
    assert_eq!(None, t.cancel_timeout(&to));
    assert_eq!(0, t.len());
}

#[test]
fn a_token_that_is_used_again_is_told_apart_by_its_tick() {
    let mut t = timer();
    let stale = t.set_timeout_at(Duration::milliseconds(100), "a");
    assert_eq!(Some("a"), t.cancel_timeout(&stale));
    let fresh = t.set_timeout_at(Duration::milliseconds(500), "b");
    assert_eq!(None, t.cancel_timeout(&stale));
    assert_eq!(Some("b"), t.cancel_timeout(&fresh));
}

#[test]
fn the_last_of_two_timeouts_of_one_tick_fires_first() {
    let mut t = timer();
    t.set_timeout_at(Duration::milliseconds(100), "first");
    t.set_timeout_at(Duration::milliseconds(100), "second");
    assert_eq!(Some("second"), t.poll_to(1));
    assert_eq!(Some("first"), t.poll_to(1));
}

#[test]
fn the_next_poll_is_due_no_later_than_the_next_timeout() {
    let start = Instant::now();
    let mut t: Timer<&'static str> = Timer::new(TICK, SLOTS, CAPACITY, start);
    t.set_timeout_at(Duration::milliseconds(700), "late");
    t.set_timeout_at(Duration::milliseconds(300), "early");
    assert_eq!(Some(3), t.next_tick());
    let date = t.next_poll_date().unwrap();
    assert_eq!((date - start).whole_milliseconds(), 300);
}

#[test]
fn a_poll_too_far_off_has_no_date() {
    let mut t = timer();
    t.set_timeout_at(Duration::seconds(i64::MAX), "never");
    assert_eq!(Some(u64::MAX / 100), t.next_tick());
    assert!(t.next_poll_date().is_none());
    t.set_timeout_at(Duration::milliseconds(300), "soon");
    assert!(t.next_poll_date().is_some());
}

#[test]
fn an_instant_is_found_if_and_only_if_the_clock_has_it() {
    let start = Instant::now();
    assert_eq!(Some(start), instant_after(&start, Duration::seconds(0)));
    let later = instant_after(&start, Duration::milliseconds(5_250)).unwrap();
    assert_eq!((later - start).whole_milliseconds(), 5_250);
    assert_eq!(None, instant_after(&start, Duration::seconds(i64::MAX)));
}

#[test]
fn the_time_since_an_instant_leads_to_the_reading() {
    let start = Instant::now();
    let reading = instant_after(&start, elapsed(&start)).unwrap();
    assert!(start <= reading && reading <= Instant::now());
}

#[test]
fn the_time_between_instants_saturates() {
    let start = Instant::now();
    let later = instant_after(&start, Duration::milliseconds(40)).unwrap();
    assert_eq!(time_between(&start, &later), Duration::milliseconds(40));
    assert_eq!(time_between(&later, &start), Duration::milliseconds(-40));
    let longest = Duration::seconds(i64::MAX).saturating_add(Duration::seconds(1));
    let far = instant_after(&start, Duration::seconds(i64::MIN)).unwrap();
    assert_eq!(elapsed(&far), longest);
}

#[test]
fn a_timer_without_timeouts_has_nothing_to_wait_for() {
    let mut t = timer();
    assert_eq!(None, t.next_tick());
    assert!(t.next_poll_date().is_none());
    let early = t.set_timeout_at(Duration::milliseconds(300), "early");
    let late = t.set_timeout_at(Duration::milliseconds(700), "late");
    assert_eq!(Some(3), t.next_tick());
    t.cancel_timeout(&early);
    assert_eq!(Some(7), t.next_tick());
    t.cancel_timeout(&late);
    assert_eq!(None, t.next_tick());
}

#[test]
fn what_is_due_now_is_the_next_tick_while_others_fire() {
    let mut t = timer();
    t.set_timeout_at(Duration::milliseconds(200), "a");
    t.set_timeout_at(Duration::milliseconds(200), "b");
    assert_eq!(Some("b"), t.poll_to(2));
    assert_eq!(Some(2), t.next_tick());
    assert_eq!(Some("a"), t.poll_to(2));
    assert_eq!(None, t.next_tick());
}

#[test]
fn a_timeout_fires_once_its_delay_has_passed_and_not_before() {
    let mut t = timer();
    t.set_timeout_after(
        Duration::milliseconds(1_000),
        Duration::milliseconds(500),
        "a",
    );
    assert_eq!(None, t.poll_at(Duration::milliseconds(1_000)));
    assert_eq!(None, t.poll_at(Duration::milliseconds(1_400)));
    assert_eq!(Some("a"), t.poll_at(Duration::milliseconds(1_500)));
    assert_eq!(None, t.poll_at(Duration::milliseconds(1_500)));
}

#[test]
fn the_default_timer_has_the_documented_settings() {
    let t: Timer<u8> = Builder::default().build();
    assert_eq!(t.tick_ms(), 100);
    let fine: Timer<u8> = Builder::default()
        .tick_duration(Duration::milliseconds(7))
        .num_slots(4)
        .capacity(2)
        .build();
    assert_eq!(fine.tick_ms(), 7);
    assert_eq!(Timer::<u8>::default().tick_ms(), 100);
}

#[test]
fn a_fresh_timer_fires_nothing_until_time_has_passed() {
    let mut t: Timer<u8> = Timer::new(100, 16, 32, Instant::now());
    let timeout = t.set_timeout(Duration::seconds(600), 1);
    assert_eq!(None, t.poll());
    let fresh = t.reset_timeout(&timeout, Duration::seconds(900)).unwrap();
    assert!(t.reset_timeout(&timeout, Duration::seconds(1)).is_none());
    assert_eq!(Some(1), t.cancel_timeout(&fresh));
}

#[test]
fn elapsed_time_is_measured_from_the_start() {
    let start = Instant::now() - time::Duration::seconds(5);
    let mut t: Timer<u8> = Timer::new(100, 64, 32, start);
    t.set_timeout_at(Duration::milliseconds(4000), 9);
    assert_eq!(Some(9), t.poll());
    assert_eq!(None, t.poll());
}

#[test]
fn a_container_cancels_and_resets_its_timeout() {
    let mut t: Timer<Token> = Timer::new(100, 16, 32, Instant::now());
    let mut c = TimeoutContainer::new(&mut t, Duration::seconds(10), Token(3));
    assert_eq!(t.len(), 1);
    assert!(c.reset(&mut t));
    assert_eq!(t.len(), 1);
    assert!(c.cancel(&mut t));
    assert!(!c.cancel(&mut t));
    assert_eq!(t.len(), 0);

    c.set_duration(Duration::seconds(2));
    assert_eq!(c.duration().millis(), 2000);
    c.set(&mut t, Token(3));
    let mut taken = c.take();
    assert!(!c.cancel(&mut t));
    assert!(taken.cancel(&mut t));
    taken.triggered();
    assert!(!taken.reset(&mut t));

    let mut empty = TimeoutContainer::new_empty(Duration::seconds(1));
    assert!(!empty.cancel(&mut t));
}

#[test]
fn durations_are_rounded_up_to_milliseconds() {
    assert_eq!(Duration::milliseconds(1500).millis(), 1500);
    assert_eq!(Duration::microseconds(1_001).millis(), 2);
    assert_eq!(Duration::milliseconds(-5).millis(), u64::MAX);
    assert_eq!(Duration::seconds(3).millis(), 3000);
    assert_eq!(
        Duration::seconds(1)
            .saturating_add(Duration::milliseconds(250))
            .millis(),
        1250
    );
}
