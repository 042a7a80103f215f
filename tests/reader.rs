use uterm::reader::{exit_code, wants_exit_status, OutputReader, ReadOutcome, ReaderAction};
use uterm::registry::SessionRegistry;
use uterm::events::{PtyExit, PtyOutput};

fn emitted(action: ReaderAction) -> String {
    match action {
        ReaderAction::Emit(c) => c.text,
        ReaderAction::Finish(_) => panic!("expected output"),
    }
}

#[test]
fn reader_stops_before_reading_once_shutdown_is_asked() {
    let r = OutputReader::new();
    assert!(r.should_read(false));
    assert!(!r.should_read(true));
}

#[test]
fn zero_bytes_is_end_of_input() {
    let mut r = OutputReader::new();
    match r.on_read(ReadOutcome::Bytes(vec![]), false) {
        ReaderAction::Finish(None) => {}
        _ => panic!("expected a quiet finish"),
    }
    assert!(r.finished());
    assert!(!r.should_read(false));
}

#[test]
fn read_error_is_logged_unless_shutdown_was_asked() {
    let mut r = OutputReader::new();
    match r.on_read(ReadOutcome::Failed("boom".to_string()), false) {
        ReaderAction::Finish(Some(m)) => assert_eq!(m, "PTY read error: boom"),
        _ => panic!("expected a logged finish"),
    }
    let mut r = OutputReader::new();
    match r.on_read(ReadOutcome::Failed("boom".to_string()), true) {
        ReaderAction::Finish(None) => {}
        _ => panic!("expected a quiet finish"),
    }
}

#[test]
fn reader_reassembles_a_split_character() {
    let mut r = OutputReader::new();
    let bytes = "ü".as_bytes();
    let a = emitted(r.on_read(ReadOutcome::Bytes(vec![bytes[0]]), false));
    let b = emitted(r.on_read(ReadOutcome::Bytes(vec![bytes[1]]), false));
    assert_eq!(a, "");
    assert_eq!(b, "ü");
}

#[test]
fn reader_reports_dropped_malformed_bytes() {
    let mut r = OutputReader::new();
    match r.on_read(ReadOutcome::Bytes(vec![0xBF; 5]), false) {
        ReaderAction::Emit(c) => {
            assert_eq!(c.text, "");
            assert_eq!(c.dropped, 5);
        }
        _ => panic!("expected output"),
    }
    assert!(r.should_read(false));
}

#[test]
fn exit_code_mapping() {
    assert_eq!(exit_code(Some(true)), Some(0));
    assert_eq!(exit_code(Some(false)), Some(1));
    assert_eq!(exit_code(None), None);
    assert!(wants_exit_status(false));
    assert!(!wants_exit_status(true));
}

#[test]
fn session_lifecycle_from_output_to_exit() {
    let mut reg: SessionRegistry<u8> = SessionRegistry::new();
    let id = reg.reserve_id(80, 24).unwrap();
    reg.insert(id.clone(), 0).unwrap();
    assert!(reg.lookup(&id).is_ok());

    let mut r = OutputReader::new();
    let mut events: Vec<PtyOutput> = Vec::new();
    for chunk in [&b"echo hi\r\n"[..], &b"h"[..], &b"i\r\n$ "[..]] {
        assert!(r.should_read(false));
        let text = emitted(r.on_read(ReadOutcome::Bytes(chunk.to_vec()), false));
        events.push(PtyOutput { session_id: id.clone(), data: text });
    }
    let all: String = events.iter().map(|e| e.data.as_str()).collect();
    assert!(all.contains("hi"));

    match r.on_read(ReadOutcome::Bytes(vec![]), false) {
        ReaderAction::Finish(None) => {}
        _ => panic!("expected end of input"),
    }
    let code = if wants_exit_status(false) { exit_code(Some(true)) } else { None };
    let exit = PtyExit { session_id: id.clone(), exit_code: code };
    assert_eq!(exit.exit_code, Some(0));
    assert_eq!(reg.remove(&exit.session_id), Some(0));
    assert!(reg.lookup(&id).unwrap_err().contains("Session not found"));
}
