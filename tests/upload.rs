use nix_upload_daemon::daemon::ProcessOutcome;
use nix_upload_daemon::upload::{
    check_paths, encode_records, flush_result, keep_existing, plan_upload, sign_command,
    sign_result, Candidate, Error, FlushEvent,
};
use nix_upload_daemon::{ServeSubcommand, UploadSubcommand, DEFAULT_WORKERS};
use nix_upload_daemon::binding::Binding;
use std::path::Path;

fn cand(path: &str, exists: bool, representable: bool) -> Candidate {
    Candidate { path: path.to_string(), exists, representable }
}

fn on_disk(path: &str) -> Candidate {
    cand(path, Path::new(path).exists(), true)
}

#[test]
fn missing_key_fails_before_writing() {
    let paths = vec![on_disk("/bin/ls")];
    let key = Some(on_disk("/does/not/exist/key.sec"));
    match plan_upload(&paths, &key) {
        Err(Error::MissingKey(k)) => assert_eq!(k, "/does/not/exist/key.sec"),
        _ => panic!("expected a missing key"),
    }
}

#[test]
fn plan_without_key_writes_every_path() {
    let paths = vec![cand("/a", true, true), cand("/b", true, true)];
    match plan_upload(&paths, &None) {
        Ok(plan) => {
            assert_eq!(plan.records, "/a\n/b\n");
            assert!(plan.sign_command.is_none());
        }
        Err(_) => panic!("expected a plan"),
    }
}

#[test]
fn plan_with_key_signs_every_path() {
    let paths = vec![cand("/a", true, true), cand("/b", true, true)];
    let key = Some(cand("/k", true, true));
    match plan_upload(&paths, &key) {
        Ok(plan) => {
            assert_eq!(plan.records, "/a\n/b\n");
            assert_eq!(plan.sign_command.unwrap(), vec!["nix", "store", "sign", "--key-file", "/k", "/a", "/b"]);
        }
        Err(_) => panic!("expected a plan"),
    }
}

#[test]
fn path_errors_come_in_order() {
    let paths = vec![cand("/a", true, true), cand("/bad", true, false), cand("/gone", false, true)];
    match check_paths(&paths) {
        Err(Error::UnrepresentablePath(p)) => assert_eq!(p, "/bad"),
        _ => panic!("expected unrepresentable"),
    }
    let paths = vec![cand("/gone", false, false), cand("/bad", true, false)];
    match plan_upload(&paths, &Some(cand("/k", false, true))) {
        Err(Error::MissingPath(p)) => assert_eq!(p, "/gone"),
        _ => panic!("expected missing path"),
    }
}

#[test]
fn empty_input_writes_nothing() {
    assert_eq!(encode_records(&vec![]), "");
    assert!(check_paths(&vec![]).ok().unwrap().is_empty());
}

#[test]
fn keep_existing_filters() {
    let r = keep_existing(&vec![cand("/a", true, true), cand("/b", false, true), cand("/c", true, false)]);
    let names: Vec<String> = r.iter().map(|c| c.path.clone()).collect();
    assert_eq!(names, vec!["/a", "/c"]);
}

#[test]
fn sign_command_line() {
    assert_eq!(sign_command("/k", &vec!["/p".to_string()]), vec!["nix", "store", "sign", "--key-file", "/k", "/p"]);
}

#[test]
fn sign_outcomes() {
    assert!(sign_result(ProcessOutcome::Exited(Some(0))).is_ok());
    assert!(matches!(sign_result(ProcessOutcome::Exited(Some(1))), Err(Error::CouldNotSign(Some(1)))));
    assert!(matches!(sign_result(ProcessOutcome::Exited(None)), Err(Error::CouldNotSign(None))));
    match sign_result(ProcessOutcome::ForkFailed("enoent".to_string())) {
        Err(Error::ForkingSignProcess(m)) => assert_eq!(m, "enoent"),
        _ => panic!("expected fork failure"),
    }
}

#[test]
fn flush_outcomes() {
    assert!(flush_result(FlushEvent::Flushed(None)).is_ok());
    assert!(matches!(flush_result(FlushEvent::Cancelled), Err(Error::Cancelled)));
    match flush_result(FlushEvent::Flushed(Some("broken pipe".to_string()))) {
        Err(Error::IO(m)) => assert_eq!(m, "broken pipe"),
        _ => panic!("expected io error"),
    }
}

#[test]
fn worker_count_defaults() {
    let mk = |w: Option<u8>| ServeSubcommand {
        bind: Binding::Unix("/s".to_string()),
        workers: w,
        copy_destination: "d".to_string(),
    };
    assert_eq!(mk(None).worker_count(), DEFAULT_WORKERS);
    assert_eq!(mk(None).worker_count(), 4);
    assert_eq!(mk(Some(9)).worker_count(), 9);
}

#[test]
fn client_settings_skip_missing_paths_then_check_key() {
    let args = UploadSubcommand {
        bind: Binding::Unix("/s".to_string()),
        sign_key: Some(cand("/k", false, true)),
        paths: vec![cand("/a", true, true), cand("/gone", false, true)],
    };
    match args.plan() {
        Err(Error::MissingKey(k)) => assert_eq!(k, "/k"),
        _ => panic!("expected a missing key"),
    }
    let args = UploadSubcommand {
        bind: Binding::Unix("/s".to_string()),
        sign_key: None,
        paths: vec![cand("/a", true, true), cand("/gone", false, true), cand("/c", true, true)],
    };
    match args.plan() {
        Ok(plan) => assert_eq!(plan.records, "/a\n/c\n"),
        Err(_) => panic!("expected a plan"),
    }
}
