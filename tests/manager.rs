use dlm::download::progress_percent;
use dlm::{Admission, DownloadManager, State, Step, CAPACITY};

const URL_A: &str = "https://example.com/a.bin";
const URL_B: &str = "https://example.com/b.bin";

fn manager() -> DownloadManager {
    DownloadManager::new("/tmp/dl".to_string())
}

/// A manager with `URL_A` registered as id 1, claimed and downloading.
fn downloading() -> DownloadManager {
    let mut m = manager();
    assert_eq!(m.add_urls(vec![URL_A.to_string()]), vec![Admission::Accepted(1)]);
    assert_eq!(m.claim_next(), Some(1));
    assert!(m.response_received(1, Some(1000)));
    m
}

#[test]
fn submit_one_locator_gives_pending_task_with_id_one() {
    let mut m = manager();
    let out = m.add_urls(vec![URL_A.to_string()]);
    assert_eq!(out, vec![Admission::Accepted(1)]);
    let list = m.list_downloads();
    assert_eq!(list.len(), 1);
    assert_eq!(list[0].id, 1);
    assert_eq!(list[0].state(), State::Pending);
    assert_eq!(list[0].url(), URL_A);
    assert_eq!(list[0].destination(), "/tmp/dl/httpsexamplecomabin");
    assert_eq!(list[0].progress, 0);
    assert_eq!(list[0].total_length(), 0);
    assert_eq!(m.claim_next(), Some(1));
    assert!(m.response_received(1, Some(4096)));
    let t = m.task(1).unwrap();
    assert_eq!(t.state(), State::Downloading);
    assert_eq!(t.total_length(), 4096);
}

#[test]
fn same_locator_twice_in_one_batch_gives_one_task() {
    let mut m = manager();
    let out = m.add_urls(vec![URL_A.to_string(), URL_A.to_string()]);
    assert_eq!(out, vec![Admission::Accepted(1), Admission::Duplicate]);
    assert_eq!(m.list_downloads().len(), 1);
}

#[test]
fn resubmitting_while_downloading_creates_nothing() {
    let mut m = downloading();
    assert_eq!(m.add_urls(vec![URL_A.to_string()]), vec![Admission::Duplicate]);
    assert_eq!(m.list_downloads().len(), 1);
    // once the first download is over, the locator may be fetched again
    assert!(m.complete(1));
    assert_eq!(m.add_urls(vec![URL_A.to_string()]), vec![Admission::Accepted(2)]);
}

#[test]
fn ids_are_sequential_and_never_reused() {
    let mut m = manager();
    let out = m.add_urls(vec![
        URL_A.to_string(),
        "not a url".to_string(),
        URL_B.to_string(),
    ]);
    assert_eq!(
        out,
        vec![Admission::Accepted(1), Admission::Malformed, Admission::Accepted(2)]
    );
    assert!(m.cancel_downloading(1));
    assert_eq!(m.add_urls(vec![URL_A.to_string()]), vec![Admission::Accepted(3)]);
    let ids: Vec<usize> = m.list_downloads().iter().map(|t| t.id).collect();
    assert_eq!(ids, vec![1, 2, 3]);
    assert_eq!(m.task(1).unwrap().state(), State::Canceled);
}

#[test]
fn pause_then_resume_keeps_the_byte_offset() {
    let mut m = downloading();
    assert!(m.record_chunk(1, 100));
    m.take_events();
    assert!(m.pause_downloading(1));
    assert_eq!(m.task(1).unwrap().state(), State::Paused);
    let events = m.take_events();
    assert_eq!(events.len(), 1);
    assert_eq!(events[0].state(), State::Paused);
    assert_eq!(m.boundary_step(1), Step::Suspend);
    assert!(m.resume_download(1));
    assert_eq!(m.task(1).unwrap().state(), State::Downloading);
    assert!(m.take_events().is_empty());
    assert_eq!(m.boundary_step(1), Step::Proceed);
    assert!(m.record_chunk(1, 50));
    let t = m.task(1).unwrap();
    assert_eq!(t.bytes_written(), 150);
    assert_eq!(t.progress, 15);
}

#[test]
fn cancel_mid_stream_stops_at_the_next_boundary() {
    let mut m = downloading();
    assert!(m.record_chunk(1, 10));
    m.take_events();
    assert!(m.cancel_downloading(1));
    assert_eq!(m.boundary_step(1), Step::Stop);
    assert!(!m.complete(1));
    let events = m.take_events();
    assert_eq!(events.len(), 1);
    assert_eq!(events[0].state(), State::Canceled);
    assert_eq!(m.task(1).unwrap().state(), State::Canceled);
    assert_eq!(m.task(1).unwrap().bytes_written(), 10);
}

#[test]
fn pause_on_terminal_tasks_is_a_no_op() {
    let mut m = downloading();
    assert!(m.complete(1));
    m.take_events();
    assert!(!m.pause_downloading(1));
    assert_eq!(m.task(1).unwrap().state(), State::Completed);
    assert!(m.take_events().is_empty());

    let mut m = downloading();
    assert!(m.cancel_downloading(1));
    m.take_events();
    assert!(!m.pause_downloading(1));
    assert_eq!(m.task(1).unwrap().state(), State::Canceled);
    assert!(m.take_events().is_empty());
}

#[test]
fn pause_on_pending_task_is_a_no_op() {
    let mut m = manager();
    m.add_urls(vec![URL_A.to_string()]);
    assert!(!m.pause_downloading(1));
    assert_eq!(m.task(1).unwrap().state(), State::Pending);
    assert!(!m.pause_downloading(7));
}

#[test]
fn resume_when_not_paused_is_a_no_op() {
    let mut m = downloading();
    assert!(!m.resume_download(1));
    assert_eq!(m.task(1).unwrap().state(), State::Downloading);
    assert!(m.complete(1));
    assert!(!m.resume_download(1));
    assert_eq!(m.task(1).unwrap().state(), State::Completed);
    assert!(!m.resume_download(0));
}

#[test]
fn cancel_on_terminal_task_is_a_no_op() {
    let mut m = downloading();
    assert!(m.complete(1));
    m.take_events();
    assert!(!m.cancel_downloading(1));
    assert_eq!(m.task(1).unwrap().state(), State::Completed);
    assert!(m.take_events().is_empty());
}

#[test]
fn bytes_written_never_decrease() {
    let mut m = downloading();
    let mut last = 0;
    for len in [0usize, 10, 0, 300, 5] {
        assert!(m.record_chunk(1, len));
        let now = m.task(1).unwrap().bytes_written();
        assert!(now >= last);
        last = now;
    }
    assert_eq!(last, 315);
    assert!(m.pause_downloading(1));
    assert!(m.resume_download(1));
    assert_eq!(m.task(1).unwrap().bytes_written(), 315);
}

#[test]
fn byte_count_is_held_at_the_maximum() {
    let mut m = downloading();
    assert!(m.record_chunk(1, usize::MAX - 1));
    assert!(m.record_chunk(1, 10));
    assert_eq!(m.task(1).unwrap().bytes_written(), usize::MAX);
    assert_eq!(m.task(1).unwrap().progress, 100);
}

#[test]
fn percent_formula() {
    assert_eq!(progress_percent(0, 0), 0);
    assert_eq!(progress_percent(500, 0), 0);
    assert_eq!(progress_percent(50, 200), 25);
    assert_eq!(progress_percent(1, 3), 33);
    assert_eq!(progress_percent(2, 3), 66);
    assert_eq!(progress_percent(200, 200), 100);
    assert_eq!(progress_percent(500, 100), 100);
    assert_eq!(progress_percent(usize::MAX, usize::MAX), 100);
}

#[test]
fn unknown_length_keeps_percent_at_zero() {
    let mut m = manager();
    m.add_urls(vec![URL_A.to_string()]);
    assert_eq!(m.claim_next(), Some(1));
    assert!(m.response_received(1, None));
    assert!(m.record_chunk(1, 4096));
    let t = m.task(1).unwrap();
    assert_eq!(t.total_length(), 0);
    assert_eq!(t.progress, 0);
    assert_eq!(t.bytes_written(), 4096);
}

#[test]
fn every_written_chunk_publishes_a_snapshot_in_order() {
    let mut m = downloading();
    assert!(m.record_chunk(1, 100));
    assert!(m.record_chunk(1, 400));
    assert!(m.complete(1));
    let events = m.take_events();
    let seen: Vec<(usize, State)> = events.iter().map(|e| (e.progress, e.state())).collect();
    assert_eq!(
        seen,
        vec![(10, State::Downloading), (50, State::Downloading), (50, State::Completed)]
    );
    assert!(m.take_events().is_empty());
}

#[test]
fn at_most_capacity_transfers_run_at_once() {
    let mut m = manager();
    let urls: Vec<String> = (0..15).map(|i| format!("https://example.com/{i}.bin")).collect();
    let out = m.add_urls(urls);
    assert_eq!(out.len(), 15);
    for k in 1..=CAPACITY {
        assert_eq!(m.claim_next(), Some(k));
        assert!(m.response_received(k, Some(10)));
    }
    assert_eq!(m.in_flight(), CAPACITY);
    assert!(m.has_waiting());
    assert_eq!(m.claim_next(), None);
    let running = m
        .list_downloads()
        .iter()
        .filter(|t| t.state() == State::Downloading)
        .count();
    assert_eq!(running, CAPACITY);
    assert!(m.complete(3));
    assert!(m.release(3));
    assert_eq!(m.in_flight(), CAPACITY - 1);
    assert_eq!(m.claim_next(), Some(11));
    assert_eq!(m.claim_next(), None);
}

#[test]
fn released_task_is_never_claimed_again() {
    let mut m = manager();
    m.add_urls(vec![URL_A.to_string()]);
    assert_eq!(m.claim_next(), Some(1));
    // both attempts failed before any response
    assert!(m.release(1));
    assert!(!m.release(1));
    assert_eq!(m.task(1).unwrap().state(), State::Pending);
    assert!(!m.has_waiting());
    assert_eq!(m.claim_next(), None);
    assert!(!m.response_received(1, Some(5)));
    assert!(!m.record_chunk(1, 5));
}

#[test]
fn canceled_before_start_is_not_claimed() {
    let mut m = manager();
    m.add_urls(vec![URL_A.to_string(), URL_B.to_string()]);
    assert!(m.cancel_downloading(1));
    assert_eq!(m.claim_next(), Some(2));
    assert_eq!(m.claim_next(), None);
}

#[test]
fn response_after_cancel_keeps_the_task_canceled() {
    let mut m = manager();
    m.add_urls(vec![URL_A.to_string()]);
    assert_eq!(m.claim_next(), Some(1));
    assert!(m.cancel_downloading(1));
    assert!(m.response_received(1, Some(100)));
    assert_eq!(m.task(1).unwrap().state(), State::Canceled);
    assert_eq!(m.boundary_step(1), Step::Stop);
}

#[test]
fn unknown_ids_are_ignored() {
    let mut m = downloading();
    assert!(!m.cancel_downloading(2));
    assert!(!m.complete(0));
    assert!(!m.release(9));
    assert_eq!(m.boundary_step(5), Step::Stop);
    assert!(m.task(2).is_none());
    assert!(m.take_events().is_empty());
}

#[test]
fn download_claims_waiting_tasks_in_order_up_to_capacity() {
    let mut m = manager();
    let urls: Vec<String> = (0..12).map(|i| format!("https://example.com/{i}.bin")).collect();
    m.add_urls(urls);
    assert!(m.cancel_downloading(2));
    let claimed = m.download();
    assert_eq!(claimed, vec![1, 3, 4, 5, 6, 7, 8, 9, 10, 11]);
    assert_eq!(m.in_flight(), CAPACITY);
    assert!(m.has_waiting());
    assert!(m.download().is_empty());
    assert!(m.release(4));
    assert_eq!(m.download(), vec![12]);
    assert!(!m.has_waiting());
    assert!(m.release(5));
    assert!(m.download().is_empty());
    assert_eq!(m.in_flight(), CAPACITY - 1);
}

#[test]
fn new_task_is_pending_with_derived_destination() {
    let t = dlm::SingleDownload::new("http://h:8080/x/y.tar.gz ", 7, "/srv/files/");
    assert_eq!(t.id(), 7);
    assert_eq!(t.state(), State::Pending);
    assert_eq!(t.url(), "http://h:8080/x/y.tar.gz ");
    assert_eq!(t.destination(), "/srv/files/httph8080xytargz");
    assert_eq!((t.progress(), t.bytes_written(), t.total_length()), (0, 0, 0));
    let copy = t.snapshot();
    assert_eq!(copy.destination(), t.destination());
}
