use download_worker::item::{
    Draw, Progress, State, CHUNK_MAX, CHUNK_MIN, DELAY_MAX_MS, DELAY_MIN_MS, TOTAL_MAX, TOTAL_MIN,
};
use download_worker::random::{download, draw_for};

fn in_range(draw: &Draw) -> bool {
    (TOTAL_MIN..TOTAL_MAX).contains(&draw.total)
        && (CHUNK_MIN..CHUNK_MAX).contains(&draw.chunk_size)
        && (DELAY_MIN_MS..DELAY_MAX_MS).contains(&draw.delay_ms)
}

#[test]
fn totals_are_drawn_from_their_range() {
    let ready = State::Ready(String::from("x"));
    let mut low = u64::MAX;
    let mut high = 0;
    for _ in 0..20_000 {
        let draw = draw_for(&ready);
        assert!(in_range(&draw));
        assert_eq!((draw.chunk_size, draw.delay_ms), (CHUNK_MIN, DELAY_MIN_MS));
        low = low.min(draw.total);
        high = high.max(draw.total);
    }
    // 20 000 uniform draws from 40 000 values: the extremes lie near the ends.
    assert!(low < TOTAL_MIN + 2_000);
    assert!(high >= TOTAL_MAX - 2_000);
}

#[test]
fn chunks_and_delays_are_drawn_from_their_ranges() {
    let state = State::Downloading { total: 10_000, downloaded: 0 };
    let (mut low_chunk, mut high_chunk) = (u64::MAX, 0);
    let (mut low_delay, mut high_delay) = (u64::MAX, 0);
    for _ in 0..20_000 {
        let draw = draw_for(&state);
        assert!(in_range(&draw));
        assert_eq!(draw.total, TOTAL_MIN);
        low_chunk = low_chunk.min(draw.chunk_size);
        high_chunk = high_chunk.max(draw.chunk_size);
        low_delay = low_delay.min(draw.delay_ms);
        high_delay = high_delay.max(draw.delay_ms);
    }
    assert!(low_chunk < CHUNK_MIN + 200 && high_chunk >= CHUNK_MAX - 200);
    assert!(low_delay < DELAY_MIN_MS + 20 && high_delay >= DELAY_MAX_MS - 20);
}

#[test]
fn nothing_is_drawn_for_a_step_that_needs_nothing() {
    let floor = Draw { total: TOTAL_MIN, chunk_size: CHUNK_MIN, delay_ms: DELAY_MIN_MS };
    for _ in 0..100 {
        assert_eq!(draw_for(&State::Downloading { total: 10, downloaded: 11 }), floor);
        assert_eq!(draw_for(&State::Finished), floor);
    }
}

#[test]
fn download_takes_a_step_with_values_in_range() {
    for _ in 0..2_000 {
        let step = download(State::Ready(String::from("x"))).unwrap();
        assert_eq!((step.delay_ms, step.event), (0, Progress::Started));
        let total = match step.state {
            State::Downloading { total, downloaded: 0 } => total,
            other => panic!("unexpected state {:?}", other),
        };
        assert!((TOTAL_MIN..TOTAL_MAX).contains(&total));

        let step = download(step.state).unwrap();
        assert!((DELAY_MIN_MS..DELAY_MAX_MS).contains(&step.delay_ms));
        match step.event {
            Progress::Advanced { downloaded, total: carried } => {
                assert_eq!(carried, total);
                assert!((CHUNK_MIN..CHUNK_MAX).contains(&downloaded));
                assert_eq!(step.state, State::Downloading { total, downloaded });
            }
            other => panic!("unexpected event {:?}", other),
        }
    }
    assert_eq!(download(State::Finished), None);
}

#[test]
fn a_random_run_ends_within_its_bounds() {
    for _ in 0..500 {
        let mut events = Vec::new();
        let mut elapsed = 0;
        let mut next = download(State::Ready(String::from("any")));
        while let Some(step) = next {
            events.push(step.event);
            elapsed += step.delay_ms;
            assert!(events.len() <= 52);
            if step.state == State::Finished {
                assert_eq!(step.event, Progress::Finished);
            }
            next = download(step.state);
        }
        assert_eq!(events[0], Progress::Started);
        assert_eq!(events[events.len() - 1], Progress::Finished);
        let mut total = 0;
        let mut reached = 0;
        for event in &events[1..events.len() - 1] {
            match event {
                Progress::Advanced { downloaded, total: carried } => {
                    assert!(*downloaded > reached);
                    assert!(total == 0 || total == *carried);
                    reached = *downloaded;
                    total = *carried;
                }
                other => panic!("unexpected event {:?}", other),
            }
        }
        assert!(reached > total);
        assert!(total * DELAY_MIN_MS < elapsed * CHUNK_MAX);
        assert!(elapsed * CHUNK_MIN <= (total + CHUNK_MIN) * (DELAY_MAX_MS - 1));
    }
}
