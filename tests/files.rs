use agis::error::ServerError;
use agis::files::{
    directory_listing, file_response, index_document, static_step, typed_file_response, Entry,
    StaticStep,
};
use agis::pool::{JobQueue, Message};
use agis::response::Response;
use agis::text::{decimal_text, parse_usize};

#[test]
fn directory_without_separator_redirects() {
    match static_step("/docs", "/srv/docs", Entry::Directory { has_index: true }) {
        StaticStep::Respond(Response::Redirect(p)) => assert_eq!(p, "/docs/"),
        other => panic!("unexpected {other:?}"),
    }
}

#[test]
fn directory_with_index_serves_it() {
    match static_step("/docs/", "/srv/docs/", Entry::Directory { has_index: true }) {
        StaticStep::ReadFile(f) => assert_eq!(f, "/srv/docs/index.gmi"),
        other => panic!("unexpected {other:?}"),
    }
    assert_eq!(index_document("/srv/docs"), "/srv/docs/index.gmi");
}

#[test]
fn directory_without_index_is_listed() {
    match static_step("/docs/", "/srv/docs/", Entry::Directory { has_index: false }) {
        StaticStep::ListDirectory(d) => assert_eq!(d, "/srv/docs/"),
        other => panic!("unexpected {other:?}"),
    }
    let names = vec![Some(String::from("a.gmi")), Some(String::from("sub"))];
    match directory_listing(&names) {
        Response::Success { mimetype, body } => {
            assert_eq!(mimetype, "text/gemini");
            assert_eq!(
                String::from_utf8(body).unwrap(),
                "# Directory listing\n=> .. Parent\n=> a.gmi\n=> sub\n"
            );
        }
        other => panic!("unexpected {other:?}"),
    }
}

#[test]
fn empty_directory_lists_parent_only() {
    match directory_listing(&vec![]) {
        Response::Success { body, .. } => {
            assert_eq!(body, b"# Directory listing\n=> .. Parent\n".to_vec())
        }
        other => panic!("unexpected {other:?}"),
    }
}

#[test]
fn non_text_entry_name_is_an_io_error() {
    let names = vec![Some(String::from("a")), None];
    match directory_listing(&names) {
        Response::ServerError(ServerError::IoError(m)) => assert_eq!(m, "Invalid pathname"),
        other => panic!("unexpected {other:?}"),
    }
}

#[test]
fn file_is_read() {
    match static_step("/a.txt", "/srv/a.txt", Entry::File) {
        StaticStep::ReadFile(f) => assert_eq!(f, "/srv/a.txt"),
        other => panic!("unexpected {other:?}"),
    }
}

#[test]
fn native_documents_are_gemini() {
    match typed_file_response("/srv/a.gmi", b"# hi".to_vec(), String::from("text/plain")) {
        Response::Success { mimetype, body } => {
            assert_eq!(mimetype, "text/gemini");
            assert_eq!(body, b"# hi".to_vec());
        }
        other => panic!("unexpected {other:?}"),
    }
    match typed_file_response("/srv/.gmi", vec![], String::from("text/plain")) {
        Response::Success { mimetype, .. } => assert_eq!(mimetype, "text/plain"),
        other => panic!("unexpected {other:?}"),
    }
    match file_response("/srv/index.gmi", b"=> x".to_vec()) {
        Response::Success { mimetype, .. } => assert_eq!(mimetype, "text/gemini"),
        other => panic!("unexpected {other:?}"),
    }
}

#[test]
fn other_files_take_the_sniffed_type() {
    match typed_file_response("/srv/a.png", vec![1, 2], String::from("image/png")) {
        Response::Success { mimetype, .. } => assert_eq!(mimetype, "image/png"),
        other => panic!("unexpected {other:?}"),
    }
    match file_response("/srv/data.bin", b"plain words".to_vec()) {
        Response::Success { mimetype, body } => {
            assert!(!mimetype.is_empty());
            assert_eq!(body, b"plain words".to_vec());
        }
        other => panic!("unexpected {other:?}"),
    }
}

#[test]
fn late_jobs_are_never_taken() {
    let mut q: JobQueue<u32> = JobQueue::new(2);
    q.submit(1);
    q.submit(2);
    q.shutdown();
    q.submit(3);
    assert!(matches!(q.take(), Some(Message::NewJob(1))));
    assert!(matches!(q.take(), Some(Message::NewJob(2))));
    assert!(matches!(q.take(), Some(Message::Terminate)));
    assert_eq!(q.live_count(), 1);
    assert!(matches!(q.take(), Some(Message::Terminate)));
    assert_eq!(q.live_count(), 0);
    assert!(q.take().is_none());
}

#[test]
fn second_shutdown_changes_nothing() {
    let mut q: JobQueue<u32> = JobQueue::new(1);
    q.shutdown();
    q.shutdown();
    assert!(matches!(q.take(), Some(Message::Terminate)));
    assert!(q.take().is_none());
}

#[test]
fn empty_queue_gives_nothing() {
    let mut q: JobQueue<u32> = JobQueue::new(3);
    assert!(q.take().is_none());
    assert_eq!(q.live_count(), 3);
}

#[test]
fn decimal_round_trip() {
    assert_eq!(decimal_text(0), "0");
    assert_eq!(decimal_text(1200), "1200");
    assert_eq!(parse_usize(&"1200".chars().collect()), Some(1200));
    assert_eq!(parse_usize(&"+7".chars().collect()), Some(7));
    assert_eq!(parse_usize(&"+".chars().collect()), None);
    assert_eq!(parse_usize(&"".chars().collect()), None);
    assert_eq!(parse_usize(&"1x".chars().collect()), None);
    assert_eq!(parse_usize(&"18446744073709551615".chars().collect()), Some(usize::MAX));
    assert_eq!(parse_usize(&"18446744073709551616".chars().collect()), None);
}
