use caligula::escalation::{confirms_escalation, Error, EscalationMethod, SUCCESS_TOKEN};
use caligula::frame::{push_frame, split_frames};
use caligula::ipc::{ErrorType, InitialInfo, StatusMessage};
use caligula::memory::{MemSource, MemTarget, MessageLog};
use caligula::monitor::{run_state, RunState};
use caligula::worker::{Opened, WorkerPlan};

#[test]
fn frames_round_trip_in_order() {
    let payloads: Vec<Vec<u8>> = vec![
        b"{\"InitSuccess\":{\"input_file_bytes\":5}}".to_vec(),
        b"\"Success\"".to_vec(),
        Vec::new(),
        b"{\"TotalBytes\":{\"src\":1,\"dest\":2}}".to_vec(),
    ];
    let mut stream = Vec::new();
    for p in &payloads {
        assert!(push_frame(&mut stream, p));
    }
    let (frames, end) = split_frames(&stream);
    assert_eq!(frames, payloads);
    assert_eq!(end, stream.len());
}

#[test]
fn frame_with_newline_is_refused() {
    let mut stream = b"x\n".to_vec();
    assert!(!push_frame(&mut stream, &b"a\nb".to_vec()));
    assert_eq!(stream, b"x\n".to_vec());
}

#[test]
fn unfinished_frame_is_left_over() {
    let stream = b"one\ntwo\nthr".to_vec();
    let (frames, end) = split_frames(&stream);
    assert_eq!(frames, vec![b"one".to_vec(), b"two".to_vec()]);
    assert_eq!(end, 8);
}

#[test]
fn message_terminal_kinds() {
    assert!(StatusMessage::Success.is_terminal());
    assert!(StatusMessage::Error(ErrorType::EndOfOutput).is_terminal());
    assert!(!StatusMessage::TotalBytes { src: 1, dest: 1 }.is_terminal());
    assert!(!StatusMessage::FinishedWriting { verifying: true }.is_terminal());
}

fn plan(verify: bool) -> WorkerPlan {
    WorkerPlan {
        verify,
        buf_size: 16,
        checkpoint_period: 2,
    }
}

#[test]
fn run_with_verify_ends_in_success() {
    let data: Vec<u8> = (0..40u8).collect();
    let opened = Opened {
        src: MemSource::new(data.clone()),
        dest: MemTarget::new(vec![0u8; 64]),
        input_file_bytes: 40,
    };
    let mut log = MessageLog::new();
    let back = plan(true).run(Ok(opened), &mut log).expect("endpoints come back");
    assert_eq!(&back.dest.bytes()[..40], &data[..]);
    assert_eq!(&back.dest.bytes()[40..], &vec![0u8; 24][..]);
    assert_eq!(back.input_file_bytes, 40);
    assert_eq!(
        log.messages(),
        &vec![
            StatusMessage::InitSuccess(InitialInfo {
                input_file_bytes: 40
            }),
            StatusMessage::TotalBytes { src: 32, dest: 32 },
            StatusMessage::TotalBytes { src: 40, dest: 40 },
            StatusMessage::FinishedWriting { verifying: true },
            StatusMessage::TotalBytes { src: 32, dest: 32 },
            StatusMessage::TotalBytes { src: 40, dest: 48 },
            StatusMessage::Success,
        ]
    );
}

#[test]
fn run_without_verify() {
    let opened = Opened {
        src: MemSource::new(vec![1, 2, 3]),
        dest: MemTarget::growable(),
        input_file_bytes: 3,
    };
    let mut log = MessageLog::new();
    let back = plan(false).run(Ok(opened), &mut log).expect("endpoints come back");
    assert_eq!(back.dest.bytes(), &vec![1u8, 2, 3]);
    assert_eq!(
        log.messages(),
        &vec![
            StatusMessage::InitSuccess(InitialInfo {
                input_file_bytes: 3
            }),
            StatusMessage::TotalBytes { src: 3, dest: 3 },
            StatusMessage::FinishedWriting { verifying: false },
            StatusMessage::Success,
        ]
    );
}

#[test]
fn run_that_cannot_open_reports_one_error() {
    let mut log = MessageLog::new();
    let failed: Result<Opened<MemSource, MemTarget>, ErrorType> =
        Err(ErrorType::Io("permission denied".to_string()));
    assert!(plan(true).run(failed, &mut log).is_none());
    assert_eq!(
        log.messages(),
        &vec![StatusMessage::Error(ErrorType::Io(
            "permission denied".to_string()
        ))]
    );
}

#[test]
fn run_onto_small_destination_ends_in_error() {
    let opened = Opened {
        src: MemSource::new(vec![7u8; 50]),
        dest: MemTarget::new(vec![0u8; 20]),
        input_file_bytes: 50,
    };
    let mut log = MessageLog::new();
    let back = plan(true).run(Ok(opened), &mut log).expect("endpoints come back");
    assert_eq!(back.dest.bytes(), &vec![7u8; 20]);
    let msgs = log.messages();
    assert_eq!(msgs.last(), Some(&StatusMessage::Error(ErrorType::EndOfOutput)));
    assert_eq!(msgs.iter().filter(|m| m.is_terminal()).count(), 1);
}

#[test]
fn standard_plan() {
    let p = WorkerPlan::standard(true);
    assert_eq!(p.buf_size, 524288);
    assert_eq!(p.checkpoint_period, 32);
    assert!(p.verify);
}

#[test]
fn escalation_prefers_sudo_then_doas_then_su() {
    assert_eq!(EscalationMethod::detect(true, true, true), Ok(EscalationMethod::Sudo));
    assert_eq!(EscalationMethod::detect(false, true, true), Ok(EscalationMethod::Doas));
    assert_eq!(EscalationMethod::detect(false, false, true), Ok(EscalationMethod::Su));
    assert_eq!(
        EscalationMethod::detect(false, false, false),
        Err(Error::UnixNotDetected)
    );
}

#[test]
fn escalation_wraps_command() {
    let argv = vec![b"/bin/caligula".to_vec(), b"it's".to_vec()];
    assert_eq!(
        EscalationMethod::Sudo.wrap_command(&argv),
        vec![b"sudo".to_vec(), b"/bin/caligula".to_vec(), b"it's".to_vec()]
    );
    assert_eq!(
        EscalationMethod::Doas.wrap_command(&argv),
        vec![b"doas".to_vec(), b"/bin/caligula".to_vec(), b"it's".to_vec()]
    );
    assert_eq!(
        EscalationMethod::Su.wrap_command(&argv),
        vec![
            b"su".to_vec(),
            b"root".to_vec(),
            b"-c".to_vec(),
            b"'/bin/caligula' 'it'\\''s'".to_vec()
        ]
    );
}

#[test]
fn escalation_token_is_recognised() {
    let token = SUCCESS_TOKEN.as_bytes().to_vec();
    assert!(confirms_escalation(&token));
    let mut line = token.clone();
    line.push(b'\n');
    assert!(confirms_escalation(&line));
    let mut crlf = token.clone();
    crlf.extend_from_slice(b"\r\n");
    assert!(confirms_escalation(&crlf));
    assert!(!confirms_escalation(b"[sudo] password for user: "));
    assert!(!confirms_escalation(&token[..token.len() - 1]));
    assert!(!confirms_escalation(b""));
}

#[test]
fn escalation_error_messages() {
    assert_eq!(
        Error::UnixNotDetected.message(),
        "Could not become root! Searched for sudo, doas, su"
    );
    assert_eq!(Error::MacOSDenial.message(), "User failed to confirm");
}

#[test]
fn monitor_stops_at_first_terminal() {
    let mut msgs = vec![
        StatusMessage::InitSuccess(InitialInfo {
            input_file_bytes: 3,
        }),
        StatusMessage::TotalBytes { src: 3, dest: 3 },
    ];
    assert_eq!(run_state(&msgs, false), RunState::Running);
    assert_eq!(run_state(&msgs, true), RunState::Abandoned);
    msgs.push(StatusMessage::Error(ErrorType::VerificationFailed));
    msgs.push(StatusMessage::Success);
    assert_eq!(run_state(&msgs, false), RunState::Ended { at: 2 });
    assert_eq!(run_state(&msgs, true), RunState::Ended { at: 2 });
    assert_eq!(run_state(&Vec::new(), true), RunState::Abandoned);
}
