use nix_upload_daemon::daemon::{
    intake_records, intake_step, upload_command, AcceptAction, AcceptEvent, AcceptLoop,
    IntakeAction, IntakeEvent, ProcessOutcome, ServeError, Worker, WorkerAction, WorkerError,
    WorkerEvent, WorkerState,
};
use std::collections::VecDeque;
use std::path::Path;

fn strings(v: &[&str]) -> Vec<String> {
    v.iter().map(|s| s.to_string()).collect()
}

#[test]
fn intake_publishes_existing_and_skips_missing() {
    match intake_step(IntakeEvent::Line { path: "/a".to_string(), exists: true }) {
        IntakeAction::Publish(p) => assert_eq!(p, "/a"),
        _ => panic!("expected publish"),
    }
    match intake_step(IntakeEvent::Line { path: "/b".to_string(), exists: false }) {
        IntakeAction::Skip(p) => assert_eq!(p, "/b"),
        _ => panic!("expected skip"),
    }
    assert!(matches!(intake_step(IntakeEvent::EndOfStream), IntakeAction::Finish));
    match intake_step(IntakeEvent::ReadFailed("reset".to_string())) {
        IntakeAction::Fail(WorkerError::ReadingConnection(m)) => assert_eq!(m, "reset"),
        _ => panic!("expected failure"),
    }
}

#[test]
fn all_existing_lines_reach_queue_in_order() {
    let lines = strings(&["/x", "/y", "/z", "/x"]);
    let r = intake_records(&lines, &vec![true; 4]);
    assert_eq!(r, lines);
}

#[test]
fn missing_line_is_dropped_others_kept() {
    let lines = strings(&["/x", "/gone", "/z"]);
    let r = intake_records(&lines, &vec![true, false, true]);
    assert_eq!(r, strings(&["/x", "/z"]));
    assert!(intake_records(&vec![], &vec![]).is_empty());
}

#[test]
fn socket_scenario_dispatches_only_existing_path() {
    let lines = strings(&["/bin/ls", "/does/not/exist"]);
    let exists: Vec<bool> = lines.iter().map(|l| Path::new(l).exists()).collect();
    assert_eq!(exists, vec![true, false]);
    let queued = intake_records(&lines, &exists);
    let mut w = Worker::new("ssh://cache".to_string());
    let mut dispatched = Vec::new();
    for p in queued {
        match w.step(WorkerEvent::Dequeued(p)) {
            WorkerAction::Upload(c) => dispatched.push(c[2].clone()),
            _ => panic!("expected an upload"),
        }
        assert!(matches!(w.step(WorkerEvent::UploadDone(ProcessOutcome::Exited(Some(0)))), WorkerAction::Dequeue));
    }
    assert_eq!(dispatched, strings(&["/bin/ls"]));
}

#[test]
fn upload_command_line() {
    assert_eq!(upload_command("/nix/store/abc", "s3://bucket"), strings(&["nix", "copy", "/nix/store/abc", "--to", "s3://bucket"]));
}

#[test]
fn failed_upload_is_reported_and_not_retried() {
    let mut w = Worker::new("dest".to_string());
    assert!(matches!(w.step(WorkerEvent::Dequeued("/r".to_string())), WorkerAction::Upload(_)));
    match w.step(WorkerEvent::UploadDone(ProcessOutcome::Exited(Some(3)))) {
        WorkerAction::ReportAndDequeue(WorkerError::CouldNotUpload(p, code)) => {
            assert_eq!(p, "/r");
            assert_eq!(code, Some(3));
        }
        _ => panic!("expected a report"),
    }
    assert!(matches!(w.state, WorkerState::Idle));
    match w.step(WorkerEvent::Dequeued("/next".to_string())) {
        WorkerAction::Upload(c) => assert_eq!(c[2], "/next"),
        _ => panic!("expected the next upload"),
    }
    match w.step(WorkerEvent::UploadDone(ProcessOutcome::ForkFailed("no nix".to_string()))) {
        WorkerAction::ReportAndDequeue(WorkerError::ForkingUploadProcess(p, m)) => {
            assert_eq!(p, "/next");
            assert_eq!(m, "no nix");
        }
        _ => panic!("expected a report"),
    }
    match w.step(WorkerEvent::UploadDone(ProcessOutcome::Exited(None))) {
        WorkerAction::Dequeue => {}
        _ => panic!("nothing was in flight"),
    }
}

#[test]
fn worker_stops_on_closed_queue_and_stays_stopped() {
    let mut w = Worker::new("dest".to_string());
    assert!(matches!(w.step(WorkerEvent::QueueClosed), WorkerAction::Stop));
    assert!(matches!(w.step(WorkerEvent::Dequeued("/late".to_string())), WorkerAction::Stop));
    assert_eq!(w.destination, "dest");
}

#[test]
fn pool_drains_every_record_once() {
    let m = 7;
    let mut queue: VecDeque<String> = (0..m).map(|i| format!("/p{i}")).collect();
    let mut workers: Vec<Worker> = (0..3).map(|_| Worker::new("d".to_string())).collect();
    let mut seen: Vec<String> = Vec::new();
    let mut stopped = 0;
    while stopped < workers.len() {
        stopped = 0;
        for w in workers.iter_mut() {
            let ev = match queue.pop_front() {
                Some(p) => WorkerEvent::Dequeued(p),
                None => WorkerEvent::QueueClosed,
            };
            match w.step(ev) {
                WorkerAction::Upload(c) => {
                    seen.push(c[2].clone());
                    assert!(matches!(w.step(WorkerEvent::UploadDone(ProcessOutcome::Exited(Some(0)))), WorkerAction::Dequeue));
                }
                WorkerAction::Stop => stopped += 1,
                _ => panic!("unexpected action"),
            }
        }
    }
    let mut sorted = seen.clone();
    sorted.sort();
    sorted.dedup();
    assert_eq!(seen.len(), m);
    assert_eq!(sorted.len(), m);
}

#[test]
fn accept_loop_stops_for_good_after_cancel() {
    let mut l = AcceptLoop::new();
    assert!(l.is_running());
    assert!(matches!(l.on_event(AcceptEvent::Accepted), AcceptAction::SpawnHandler));
    assert!(matches!(l.on_event(AcceptEvent::Cancelled), AcceptAction::Stop));
    assert!(!l.is_running());
    assert!(matches!(l.on_event(AcceptEvent::Accepted), AcceptAction::Stop));
    assert!(matches!(l.on_event(AcceptEvent::Failed("x".to_string())), AcceptAction::Stop));
}

#[test]
fn accept_failure_ends_loop_with_error() {
    let mut l = AcceptLoop::new();
    match l.on_event(AcceptEvent::Failed("EMFILE".to_string())) {
        AcceptAction::Abort(ServeError::AcceptingConnection(m)) => assert_eq!(m, "EMFILE"),
        _ => panic!("expected abort"),
    }
    assert!(matches!(l.on_event(AcceptEvent::Accepted), AcceptAction::Stop));
}
