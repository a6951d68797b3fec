use download_worker::item::{Draw, Progress};
use download_worker::multiplexer::Multiplexer;

fn draw(total: u64, chunk_size: u64, delay_ms: u64) -> Draw {
    Draw { total, chunk_size, delay_ms }
}

fn url(n: u32) -> String {
    format!("http://somer.server/files/{}", n)
}

#[test]
fn a_new_multiplexer_is_empty_and_silent() {
    let mut mux: Multiplexer<u32> = Multiplexer::new();
    assert!(mux.is_empty());
    assert_eq!(mux.len(), 0);
    assert_eq!(mux.next_deadline(), None);
    assert_eq!(mux.next_with(1_000, draw(10_000, 1_000, 100)), None);
    assert_eq!(mux.next(1_000), None);
}

#[test]
fn a_registered_machine_is_due_at_once() {
    let mut mux = Multiplexer::new();
    mux.register_with(7u32, url(7), 40, draw(12_000, 1_000, 100));
    assert_eq!(mux.len(), 1);
    assert!(!mux.is_empty());
    assert_eq!(mux.next_deadline(), Some(40));
    assert_eq!(mux.next_with(39, draw(10_000, 2_000, 250)), None);
    assert_eq!(mux.len(), 1);
    assert_eq!(mux.next_with(40, draw(10_000, 2_000, 250)), Some((7, Progress::Started)));
}

#[test]
fn a_step_is_due_when_its_delay_has_passed() {
    let mut mux = Multiplexer::new();
    mux.register_with(7u32, url(7), 40, draw(12_000, 1_000, 100));
    assert_eq!(mux.next_with(50, draw(10_000, 2_000, 250)), Some((7, Progress::Started)));
    assert_eq!(mux.next_deadline(), Some(300));
    assert_eq!(mux.next_with(299, draw(10_000, 3_000, 400)), None);
    assert_eq!(
        mux.next_with(300, draw(10_000, 3_000, 400)),
        Some((7, Progress::Advanced { downloaded: 2_000, total: 12_000 }))
    );
    assert_eq!(mux.next_deadline(), Some(700));
    assert_eq!(
        mux.next_with(1_000, draw(10_000, 1_000, 100)),
        Some((7, Progress::Advanced { downloaded: 5_000, total: 12_000 }))
    );
    assert_eq!(mux.next_deadline(), Some(1_100));
}

#[test]
fn a_finished_machine_leaves_the_live_set() {
    let mut mux = Multiplexer::new();
    mux.register_with(1u32, url(1), 0, draw(10_000, 1_000, 100));
    let chunk = draw(10_000, 4_999, 100);
    assert_eq!(mux.next_with(0, chunk), Some((1, Progress::Started)));
    assert_eq!(mux.next_with(100, chunk), Some((1, Progress::Advanced { downloaded: 4_999, total: 10_000 })));
    assert_eq!(mux.next_with(200, chunk), Some((1, Progress::Advanced { downloaded: 9_998, total: 10_000 })));
    assert_eq!(mux.next_with(300, chunk), Some((1, Progress::Advanced { downloaded: 14_997, total: 10_000 })));
    // The step that finds the total passed takes no time.
    assert_eq!(mux.next_deadline(), Some(300));
    assert_eq!(mux.len(), 1);
    assert_eq!(mux.next_with(300, chunk), Some((1, Progress::Finished)));
    assert_eq!(mux.len(), 0);
    assert_eq!(mux.next_deadline(), None);
    assert_eq!(mux.next_with(u64::MAX, chunk), None);
}

#[test]
fn the_machine_that_is_due_first_is_served_first() {
    let mut mux = Multiplexer::new();
    mux.register_with(1u32, url(1), 30, draw(10_000, 1_000, 100));
    mux.register_with(2u32, url(2), 10, draw(20_000, 1_000, 100));
    mux.register_with(3u32, url(3), 20, draw(30_000, 1_000, 100));
    assert_eq!(mux.next_deadline(), Some(10));
    let d = draw(10_000, 1_000, 100);
    assert_eq!(mux.next_with(30, d), Some((2, Progress::Started)));
    assert_eq!(mux.next_with(30, d), Some((3, Progress::Started)));
    assert_eq!(mux.next_with(30, d), Some((1, Progress::Started)));
    assert_eq!(mux.next_with(30, d), None);
    assert_eq!(mux.next_deadline(), Some(130));
}

#[test]
fn machines_due_together_are_served_in_turn() {
    let mut mux = Multiplexer::new();
    mux.register_with(1u32, url(1), 0, draw(10_000, 1_000, 100));
    mux.register_with(2u32, url(2), 0, draw(10_000, 1_000, 100));
    let d = draw(10_000, 1_000, 100);
    assert_eq!(mux.next_with(0, d), Some((1, Progress::Started)));
    assert_eq!(mux.next_with(0, d), Some((2, Progress::Started)));
    // Both steps are due at 100; 1 has waited longer.
    assert_eq!(mux.next_with(100, d), Some((1, Progress::Advanced { downloaded: 1_000, total: 10_000 })));
    assert_eq!(mux.next_with(100, d), Some((2, Progress::Advanced { downloaded: 1_000, total: 10_000 })));
    assert_eq!(mux.next_with(100, d), None);
    // A late poll serves both before either comes round again.
    assert_eq!(mux.next_with(1_000, d), Some((1, Progress::Advanced { downloaded: 2_000, total: 10_000 })));
    assert_eq!(mux.next_with(1_000, d), Some((2, Progress::Advanced { downloaded: 2_000, total: 10_000 })));
    assert_eq!(mux.next_with(1_000, d), None);
}

#[test]
fn registering_leaves_the_other_machines_alone() {
    let mut mux = Multiplexer::new();
    mux.register_with(1u32, url(1), 0, draw(10_000, 1_000, 100));
    assert_eq!(mux.next_with(0, draw(10_000, 3_000, 200)), Some((1, Progress::Started)));
    mux.register_with(2u32, url(2), 500, draw(40_000, 1_000, 100));
    assert_eq!(mux.len(), 2);
    assert_eq!(mux.next_deadline(), Some(200));
    assert_eq!(
        mux.next_with(200, draw(10_000, 1_000, 100)),
        Some((1, Progress::Advanced { downloaded: 3_000, total: 10_000 }))
    );
}

/// Drives the multiplexer until it is empty, polling at each deadline, and
/// returns the events handed out.
fn drain(mux: &mut Multiplexer<u32>, draws: &[Draw]) -> Vec<(u32, Progress)> {
    let mut events = Vec::new();
    let mut turn = 0;
    while let Some(now) = mux.next_deadline() {
        let event = mux.next_with(now, draws[turn % draws.len()]).unwrap();
        events.push(event);
        turn += 1;
        assert!(turn < 1_000);
    }
    events
}

fn assert_item_run(events: &[Progress]) {
    assert!(events.len() >= 5);
    assert_eq!(events[0], Progress::Started);
    assert_eq!(events[events.len() - 1], Progress::Finished);
    let mut reached = 0;
    let mut seen_total = None;
    for event in &events[1..events.len() - 1] {
        match event {
            Progress::Advanced { downloaded, total } => {
                assert!(*downloaded > reached);
                assert!(seen_total.is_none() || seen_total == Some(*total));
                reached = *downloaded;
                seen_total = Some(*total);
            }
            other => panic!("unexpected event {:?}", other),
        }
    }
    assert!(reached > seen_total.unwrap());
}

#[test]
fn two_items_run_independently() {
    let draws = vec![
        draw(10_000, 1_000, 100),
        draw(10_000, 4_999, 499),
        draw(10_000, 2_345, 250),
        draw(10_000, 3_210, 333),
        draw(10_000, 1_500, 120),
    ];
    let mut mux = Multiplexer::new();
    mux.register_with(0u32, url(0), 0, draw(15_000, 1_000, 100));
    mux.register_with(1u32, url(1), 0, draw(25_000, 1_000, 100));
    let events = drain(&mut mux, &draws);
    for id in [0u32, 1] {
        let own: Vec<Progress> =
            events.iter().filter(|(from, _)| *from == id).map(|(_, event)| *event).collect();
        assert_item_run(&own);
        let total = if id == 0 { 15_000 } else { 25_000 };
        assert!(matches!(own[1], Progress::Advanced { total: carried, .. } if carried == total));
    }
    assert_eq!(events.iter().filter(|(_, event)| *event == Progress::Started).count(), 2);
    assert_eq!(events.iter().filter(|(_, event)| *event == Progress::Finished).count(), 2);
    // The two runs are interleaved, not one after the other.
    let first_finish = events.iter().position(|(_, event)| *event == Progress::Finished).unwrap();
    assert!(events[..first_finish].iter().any(|(from, _)| *from == 0));
    assert!(events[..first_finish].iter().any(|(from, _)| *from == 1));
}

#[test]
fn nothing_is_handed_out_for_an_item_before_its_started() {
    let d = draw(10_000, 2_000, 200);
    let mut mux = Multiplexer::new();
    mux.register_with(0u32, url(0), 0, d);
    let mut events = Vec::new();
    let mut submitted = false;
    let mut turn = 0;
    while let Some(now) = mux.next_deadline() {
        events.push(mux.next_with(now, d).unwrap());
        turn += 1;
        if turn == 3 {
            mux.register_with(1u32, url(1), now, d);
            submitted = true;
        }
    }
    assert!(submitted);
    let first = events.iter().position(|(from, _)| *from == 1).unwrap();
    assert!(first >= 3);
    assert_eq!(events[first], (1, Progress::Started));
}

#[test]
fn a_finished_item_stays_silent_while_others_go_on() {
    let quick = draw(10_000, 4_999, 100);
    let mut mux = Multiplexer::new();
    mux.register_with(0u32, url(0), 0, quick);
    let mut events = Vec::new();
    while let Some(now) = mux.next_deadline() {
        events.push(mux.next_with(now, quick).unwrap());
    }
    assert_eq!(events.last(), Some(&(0, Progress::Finished)));
    let finished_at = events.len();

    for id in 1u32..4 {
        mux.register_with(id, url(id), 10_000, draw(20_000, 1_000, 100));
    }
    events.extend(drain(&mut mux, &[draw(10_000, 3_000, 150)]));
    assert!(events.len() > finished_at + 3 * 5 - 1);
    assert!(events[finished_at..].iter().all(|(from, _)| *from != 0));
    assert_eq!(mux.next_with(u64::MAX, quick), None);
}

#[test]
fn a_deadline_stops_at_the_end_of_time() {
    let mut mux = Multiplexer::new();
    let d = draw(10_000, 1_000, 499);
    mux.register_with(9u32, url(9), u64::MAX - 10, d);
    assert_eq!(mux.next_with(u64::MAX - 10, d), Some((9, Progress::Started)));
    assert_eq!(mux.next_deadline(), Some(u64::MAX));
    assert_eq!(mux.next_with(u64::MAX - 1, d), None);
    assert_eq!(
        mux.next_with(u64::MAX, d),
        Some((9, Progress::Advanced { downloaded: 1_000, total: 10_000 }))
    );
}

#[test]
fn random_draws_give_a_complete_run() {
    let mut mux = Multiplexer::new();
    mux.register(0u32, url(0), 0);
    mux.register(1u32, url(1), 0);
    let mut events = Vec::new();
    let mut last = 0;
    while let Some(now) = mux.next_deadline() {
        assert!(now >= last);
        last = now;
        events.push(mux.next(now).unwrap());
        assert!(events.len() <= 104);
    }
    for id in [0u32, 1] {
        let own: Vec<Progress> =
            events.iter().filter(|(from, _)| *from == id).map(|(_, event)| *event).collect();
        assert_item_run(&own);
    }
}
