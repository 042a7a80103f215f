use portable_pty::{native_pty_system, CommandBuilder, PtySize};
use std::io::{Read, Write};

use uterm::launch::{shell_command, LaunchEnv};
use uterm::reader::{exit_code, wants_exit_status, OutputReader, ReadOutcome, ReaderAction};
use uterm::registry::SessionRegistry;

#[test]
fn shell_session_echoes_then_exits_and_is_forgotten() {
    let mut registry: SessionRegistry<u32> = SessionRegistry::new();
    let id = registry.reserve_id(80, 24).unwrap();

    let pair = native_pty_system()
        .openpty(PtySize { rows: 24, cols: 80, pixel_width: 0, pixel_height: 0 })
        .unwrap();
    let launch = shell_command(&LaunchEnv {
        shell: Some("/bin/sh".to_string()),
        home: Some("/".to_string()),
        user: None,
        lang: None,
        lc_all: None,
        path: None,
    });
    let mut cmd = CommandBuilder::new(&launch.program);
    cmd.cwd(&launch.cwd);
    for (k, v) in &launch.env {
        cmd.env(k, v);
    }
    let mut child = pair.slave.spawn_command(cmd).unwrap();
    drop(pair.slave);
    let mut writer = pair.master.take_writer().unwrap();
    let mut reader = pair.master.try_clone_reader().unwrap();
    registry.insert(id.clone(), 1).unwrap();

    writer.write_all(b"echo h''i\n").unwrap();
    writer.flush().unwrap();

    let mut state = OutputReader::new();
    let mut buffer = [0u8; 4096];
    let mut output = String::new();
    let mut asked_exit = false;
    let mut exits = 0;
    while state.should_read(false) {
        let outcome = match reader.read(&mut buffer) {
            Ok(n) => ReadOutcome::Bytes(buffer[..n].to_vec()),
            Err(e) => ReadOutcome::Failed(e.to_string()),
        };
        match state.on_read(outcome, false) {
            ReaderAction::Emit(chunk) => output.push_str(&chunk.text),
            ReaderAction::Finish(_) => exits += 1,
        }
        if !asked_exit && output.contains("hi\r\n") {
            writer.write_all(b"exit\n").unwrap();
            writer.flush().unwrap();
            asked_exit = true;
        }
    }
    assert!(output.contains("hi"));
    assert_eq!(exits, 1);

    let success = if wants_exit_status(false) { child.wait().ok().map(|s| s.success()) } else { None };
    assert_eq!(exit_code(success), Some(0));
    assert_eq!(registry.remove(&id), Some(1));
    assert!(registry.lookup(&id).unwrap_err().contains("Session not found"));
}
