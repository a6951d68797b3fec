use download_worker::item::{Draw, Progress, CHUNK_MAX, CHUNK_MIN, DELAY_MAX_MS, DELAY_MIN_MS};
use download_worker::worker::{
    DownloaderEvent, DownloaderMessage, Worker, COMMAND_CAPACITY, EVENT_CAPACITY,
};

fn draw(total: u64, chunk_size: u64, delay_ms: u64) -> Draw {
    Draw { total, chunk_size, delay_ms }
}

fn start(id: usize) -> DownloaderMessage<usize> {
    DownloaderMessage::Download(id, format!("http://somer.server/files/{}", id))
}

#[test]
fn channel_capacities_are_the_documented_ones() {
    assert_eq!(COMMAND_CAPACITY, 32);
    assert_eq!(EVENT_CAPACITY, 128);
}

#[test]
fn the_first_poll_announces_the_worker() {
    let mut worker: Worker<usize> = Worker::new();
    assert!(!worker.is_running());
    assert_eq!(worker.live(), 0);
    assert_eq!(worker.next_deadline(), Some(0));
    assert_eq!(worker.poll_with(17, draw(10_000, 1_000, 100)), Some(DownloaderEvent::Initialized));
    assert!(worker.is_running());
    assert_eq!(worker.next_deadline(), None);
    assert_eq!(worker.poll_with(18, draw(10_000, 1_000, 100)), None);
}

#[test]
fn the_worker_is_announced_once_and_before_any_progress() {
    let d = draw(10_000, 4_000, 100);
    let mut worker = Worker::new();
    let mut reports = Vec::new();
    reports.extend(worker.poll_with(0, d));
    worker.receive_with(start(0), 0, d);
    let mut now = 0;
    while let Some(due) = worker.next_deadline() {
        now = now.max(due);
        reports.extend(worker.poll_with(now, d));
    }
    assert_eq!(
        reports,
        vec![
            DownloaderEvent::Initialized,
            DownloaderEvent::Progress(0, Progress::Started),
            DownloaderEvent::Progress(0, Progress::Advanced { downloaded: 4_000, total: 10_000 }),
            DownloaderEvent::Progress(0, Progress::Advanced { downloaded: 8_000, total: 10_000 }),
            DownloaderEvent::Progress(0, Progress::Advanced { downloaded: 12_000, total: 10_000 }),
            DownloaderEvent::Progress(0, Progress::Finished),
        ]
    );
    assert_eq!(now, 300);
    assert_eq!(worker.live(), 0);
}

#[test]
fn a_message_before_the_announcement_is_dropped() {
    let d = draw(10_000, 1_000, 100);
    let mut worker = Worker::new();
    worker.receive_with(start(0), 0, d);
    worker.receive(start(1), 0);
    assert_eq!(worker.live(), 0);
    assert_eq!(worker.poll_with(0, d), Some(DownloaderEvent::Initialized));
    assert_eq!(worker.poll_with(0, d), None);
    assert_eq!(worker.next_deadline(), None);
}

#[test]
fn a_running_worker_registers_what_it_is_sent() {
    let d = draw(30_000, 1_000, 100);
    let mut worker = Worker::new();
    assert_eq!(worker.poll(0), Some(DownloaderEvent::Initialized));
    worker.receive_with(start(5), 120, d);
    assert_eq!(worker.live(), 1);
    assert_eq!(worker.next_deadline(), Some(120));
    assert_eq!(worker.poll_with(119, d), None);
    assert_eq!(worker.poll_with(120, d), Some(DownloaderEvent::Progress(5, Progress::Started)));
    assert_eq!(worker.next_deadline(), Some(220));
    assert_eq!(
        worker.poll_with(220, d),
        Some(DownloaderEvent::Progress(5, Progress::Advanced { downloaded: 1_000, total: 30_000 }))
    );
}

#[test]
fn one_download_end_to_end() {
    for round in 0..200 {
        let mut worker = Worker::new();
        assert_eq!(worker.poll(0), Some(DownloaderEvent::Initialized));
        let submitted_at = 1_000 + round;
        worker.receive(start(0), submitted_at);
        let mut events = Vec::new();
        let mut now = submitted_at;
        while let Some(due) = worker.next_deadline() {
            assert!(due >= now);
            now = due;
            match worker.poll(now) {
                Some(DownloaderEvent::Progress(0, event)) => events.push(event),
                other => panic!("unexpected report {:?}", other),
            }
            assert!(events.len() <= 52);
        }
        assert_eq!(events[0], Progress::Started);
        assert_eq!(events[events.len() - 1], Progress::Finished);
        assert_eq!(events.iter().filter(|event| **event == Progress::Started).count(), 1);
        assert_eq!(events.iter().filter(|event| **event == Progress::Finished).count(), 1);
        let mut total = 0;
        let mut reached = 0;
        let mut percentage = 0.0f32;
        for event in &events[1..events.len() - 1] {
            match event {
                Progress::Advanced { downloaded, total: carried } => {
                    assert!(*downloaded > reached);
                    let next = (*downloaded as f32 / *carried as f32) * 100.0;
                    assert!(next > percentage);
                    percentage = next;
                    reached = *downloaded;
                    total = *carried;
                }
                other => panic!("unexpected event {:?}", other),
            }
        }
        assert!(percentage > 100.0);
        let elapsed = now - submitted_at;
        assert!(total * DELAY_MIN_MS < elapsed * CHUNK_MAX);
        assert!(elapsed * CHUNK_MIN <= (total + CHUNK_MIN) * (DELAY_MAX_MS - 1));
        assert_eq!(worker.poll(u64::MAX), None);
    }
}

#[test]
fn downloads_with_distinct_ids_interleave() {
    let mut worker = Worker::new();
    assert_eq!(worker.poll(0), Some(DownloaderEvent::Initialized));
    worker.receive(start(0), 0);
    worker.receive(start(1), 0);
    let mut reports = Vec::new();
    while let Some(due) = worker.next_deadline() {
        reports.extend(worker.poll(due));
    }
    for id in [0usize, 1] {
        let own: Vec<Progress> = reports
            .iter()
            .filter_map(|report| match report {
                DownloaderEvent::Progress(from, event) if *from == id => Some(*event),
                _ => None,
            })
            .collect();
        assert_eq!(own[0], Progress::Started);
        assert_eq!(own[own.len() - 1], Progress::Finished);
        assert!(own[1..own.len() - 1]
            .iter()
            .all(|event| matches!(event, Progress::Advanced { .. })));
    }
}
