use sandbox::multiplex::Multiplexer;
use sandbox::names::validate_names;
use sandbox::protocol::{decode, Source};
use sandbox::supervisor::{Action, Event, Stage, RunFailed, Supervisor};

fn finish(events: &[Event]) -> Supervisor {
    let mut s = Supervisor::new();
    for (i, e) in events.iter().enumerate() {
        let a = s.step(*e);
        if i + 1 == events.len() {
            assert_eq!(a, Action::Finish);
        } else {
            assert_eq!(a, Action::Wait);
        }
    }
    s
}

#[test]
fn exit_code_is_reported() {
    let s = finish(&[Event::Exited(Some(3)), Event::InputClosed, Event::OutputDrained]);
    assert_eq!(s.phase, Stage::Completed);
    let r = s.conclude(b"out".to_vec()).unwrap();
    assert_eq!(r.status, Some(3));
    assert_eq!(r.output, b"out".to_vec());
}

#[test]
fn signal_death_has_no_code() {
    let s = finish(&[Event::InputClosed, Event::OutputDrained, Event::Exited(None)]);
    assert_eq!(s.conclude(Vec::new()).unwrap().status, None);
}

#[test]
fn deadline_kills_and_keeps_output() {
    let mut s = Supervisor::new();
    assert_eq!(s.step(Event::InputClosed), Action::Wait);
    assert_eq!(s.step(Event::DeadlineElapsed), Action::Kill);
    assert_eq!(s.phase, Stage::TimedOut);
    assert!(!s.is_running());
    let r = s.conclude(b"partial".to_vec()).unwrap();
    assert_eq!(r.status, None);
    assert_eq!(r.output, b"partial".to_vec());
}

#[test]
fn io_failure_aborts() {
    let mut s = Supervisor::new();
    assert_eq!(s.step(Event::OutputDrained), Action::Wait);
    assert_eq!(s.step(Event::IoFailed), Action::Kill);
    assert_eq!(s.conclude(b"x".to_vec()).err(), Some(RunFailed));
}

fn scenario(names: &[&str], writes: &[(Source, &[u8])], code: i32) -> (Option<i32>, Vec<u8>) {
    let names: Vec<String> = names.iter().map(|n| n.to_string()).collect();
    assert_eq!(validate_names(&names), Ok(()));
    let mut m = Multiplexer::new();
    for (src, bytes) in writes {
        m.on_read(*src, bytes);
    }
    m.on_read(Source::Stdout, b"");
    m.on_read(Source::Stderr, b"");
    assert!(!m.wants_more());
    let s = finish(&[Event::InputClosed, Event::Exited(Some(code)), Event::OutputDrained]);
    let r = s.conclude(m.into_output()).unwrap();
    (r.status, r.output)
}

#[test]
fn false_exits_with_one() {
    assert_eq!(scenario(&[], &[], 1), (Some(1), Vec::new()));
}

#[test]
fn echo_prints_without_marker() {
    assert_eq!(scenario(&[], &[(Source::Stdout, b"abc\n")], 0), (Some(0), b"abc\n".to_vec()));
}

#[test]
fn cat_echoes_stdin() {
    assert_eq!(scenario(&[], &[(Source::Stdout, b"abc")], 0), (Some(0), b"abc".to_vec()));
}

#[test]
fn cat_reads_workspace_files() {
    let r = scenario(&["a", "c"], &[(Source::Stdout, b"b"), (Source::Stdout, b"d")], 0);
    assert_eq!(r, (Some(0), b"bd".to_vec()));
}

#[test]
fn interleaved_streams_decode_apart() {
    let (status, out) = scenario(
        &[],
        &[(Source::Stdout, b"X"), (Source::Stderr, b"Y"), (Source::Stdout, b"Z")],
        0,
    );
    assert_eq!(status, Some(0));
    let to_e = out.windows(2).filter(|w| w == b"\x7fE").count();
    let to_o = out.windows(2).filter(|w| w == b"\x7fO").count();
    assert_eq!((to_e, to_o), (1, 1));
    let d = decode(&out).unwrap();
    assert_eq!(d.stdout, b"XZ".to_vec());
    assert_eq!(d.stderr, b"Y".to_vec());
}
