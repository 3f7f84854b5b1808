use serverquery::{
    decimal_text, login_command, port_or_default, read_data, reply_status, select_command, staff,
    Action, Event, QueryError, ReadOutcome, Run, Stage, DEFAULT_PORT,
};

fn data(s: &str) -> Event {
    Event::Read(ReadOutcome::Data(s.as_bytes().to_vec()))
}

fn sent(a: &Action) -> String {
    match a {
        Action::Send(p) => p.clone(),
        other => panic!("expected a command, got {:?}", other),
    }
}

/// Runs a session up to the reply to the login.
fn logged_in(sid: &str) -> Run {
    let (mut run, first) = staff("serveradmin", "secret", sid);
    assert!(matches!(first, Action::Read { timeout_secs: 1 }));
    let a = run.step(Event::Read(ReadOutcome::TimedOut));
    assert_eq!(sent(&a), "login serveradmin secret\n\r");
    let a = run.step(Event::Sent);
    assert!(matches!(a, Action::Read { timeout_secs: 2 }));
    assert_eq!(run.stage(), Stage::AwaitLoginReply);
    run
}

#[test]
fn decimal_text_cases() {
    assert_eq!(decimal_text(0), "0");
    assert_eq!(decimal_text(7), "7");
    assert_eq!(decimal_text(-120), "-120");
    assert_eq!(decimal_text(i32::MAX), "2147483647");
    assert_eq!(decimal_text(i32::MIN), "-2147483648");
}

#[test]
fn command_lines() {
    assert_eq!(login_command("serveradmin", "pw"), "login serveradmin pw\n\r");
    assert_eq!(login_command("", ""), "login  \n\r");
    assert_eq!(select_command(0), "use 0\n\r");
    assert_eq!(select_command(-5), "use -5\n\r");
    assert_eq!(select_command(12345), "use 12345\n\r");
}

#[test]
fn port_arguments() {
    assert_eq!(port_or_default("abc"), (DEFAULT_PORT, true));
    assert_eq!(port_or_default("abc"), (10011, true));
    assert_eq!(port_or_default("10022"), (10022, false));
    assert_eq!(port_or_default("+80"), (80, false));
    assert_eq!(port_or_default("65535"), (65535, false));
    assert_eq!(port_or_default("65536"), (DEFAULT_PORT, true));
    assert_eq!(port_or_default("-1"), (DEFAULT_PORT, true));
    assert_eq!(port_or_default("-0"), (DEFAULT_PORT, true));
    assert_eq!(port_or_default(""), (DEFAULT_PORT, true));
}

#[test]
fn read_outcomes() {
    assert_eq!(read_data(ReadOutcome::Data(vec![1, 2])).unwrap(), Some(vec![1, 2]));
    assert_eq!(read_data(ReadOutcome::TimedOut).unwrap(), None);
    assert_eq!(read_data(ReadOutcome::NoData).unwrap(), None);
    assert!(matches!(read_data(ReadOutcome::Failed), Err(QueryError::TransportError)));
}

#[test]
fn reply_statuses() {
    let s = reply_status(ReadOutcome::Data(b"error id=0 msg=ok\n\r".to_vec())).unwrap();
    assert_eq!((s.id(), s.msg()), (0, "ok"));
    assert!(matches!(reply_status(ReadOutcome::TimedOut), Err(QueryError::NoResponse)));
    assert!(matches!(reply_status(ReadOutcome::NoData), Err(QueryError::NoResponse)));
    assert!(matches!(reply_status(ReadOutcome::Failed), Err(QueryError::TransportError)));
    assert!(matches!(
        reply_status(ReadOutcome::Data(b"nothing here\n".to_vec())),
        Err(QueryError::NoStatusLine)
    ));
    assert!(matches!(
        reply_status(ReadOutcome::Data(vec![0xff])),
        Err(QueryError::EncodingError)
    ));
}

#[test]
fn successful_run() {
    let mut run = logged_in("0");
    let a = run.step(data("error id=0 msg=ok\n\r"));
    assert_eq!(sent(&a), "use 0\n\r");
    let a = run.step(Event::Sent);
    assert!(matches!(a, Action::Read { timeout_secs: 2 }));
    let a = run.step(data("error id=0 msg=ok\n\r"));
    assert!(matches!(a, Action::Done(Ok(()))));
    assert_eq!(run.stage(), Stage::Finished);
}

#[test]
fn banner_is_optional_and_ignored() {
    let (mut run, _) = staff("u", "p", "3");
    let a = run.step(data("TS3\n\rWelcome\n\r"));
    assert_eq!(sent(&a), "login u p\n\r");
    let (mut run, _) = staff("u", "p", "3");
    let a = run.step(Event::Read(ReadOutcome::NoData));
    assert_eq!(sent(&a), "login u p\n\r");
}

#[test]
fn banner_read_failure_ends_run() {
    let (mut run, _) = staff("u", "p", "3");
    let a = run.step(Event::Read(ReadOutcome::Failed));
    assert!(matches!(a, Action::Done(Err(QueryError::TransportError))));
    assert_eq!(run.stage(), Stage::Finished);
}

#[test]
fn login_rejected_ends_run() {
    let mut run = logged_in("0");
    let a = run.step(data("error id=520 msg=invalid\\sloginname\\sor\\spassword\n\r"));
    match a {
        Action::Done(Err(QueryError::LoginFailed(s))) => {
            assert_eq!(s.id(), 520);
            assert_eq!(s.msg(), "invalid\\sloginname\\sor\\spassword");
        }
        other => panic!("unexpected {:?}", other),
    }
    assert_eq!(run.stage(), Stage::Finished);
}

#[test]
fn login_timeout_ends_run() {
    let mut run = logged_in("0");
    let a = run.step(Event::Read(ReadOutcome::TimedOut));
    assert!(matches!(a, Action::Done(Err(QueryError::NoResponse))));
    assert_eq!(run.stage(), Stage::Finished);
}

#[test]
fn bad_server_id_ends_run_before_selection() {
    let mut run = logged_in("abc");
    let a = run.step(data("error id=0 msg=ok\n\r"));
    assert!(matches!(a, Action::Done(Err(QueryError::InvalidServerId))));
    assert_eq!(run.stage(), Stage::Finished);
}

#[test]
fn selection_rejected_ends_run() {
    let mut run = logged_in("9");
    let a = run.step(data("error id=0 msg=ok\n\r"));
    assert_eq!(sent(&a), "use 9\n\r");
    run.step(Event::Sent);
    let a = run.step(data("error id=1024 msg=invalid\\sserverID\n\r"));
    match a {
        Action::Done(Err(QueryError::SelectFailed(s))) => assert_eq!(s.id(), 1024),
        other => panic!("unexpected {:?}", other),
    }
}

#[test]
fn reply_without_status_line_ends_run() {
    let mut run = logged_in("0");
    let a = run.step(data("just text\n\r"));
    assert!(matches!(a, Action::Done(Err(QueryError::NoStatusLine))));
}

#[test]
fn malformed_reply_ends_run() {
    let mut run = logged_in("0");
    let a = run.step(data("error id=notanumber msg=x\n\r"));
    assert!(matches!(a, Action::Done(Err(QueryError::MalformedStatus))));
}

#[test]
fn failed_write_ends_run() {
    let (mut run, _) = staff("u", "p", "0");
    run.step(Event::Read(ReadOutcome::TimedOut));
    let a = run.step(Event::SendFailed);
    assert!(matches!(a, Action::Done(Err(QueryError::WriteError))));
    assert_eq!(run.stage(), Stage::Finished);
}

#[test]
fn accepted_events_follow_the_stage() {
    let (mut run, _) = staff("u", "p", "0");
    assert!(run.accepts(&Event::Read(ReadOutcome::NoData)));
    assert!(!run.accepts(&Event::Sent));
    run.step(Event::Read(ReadOutcome::NoData));
    assert!(run.accepts(&Event::Sent));
    assert!(run.accepts(&Event::SendFailed));
    assert!(!run.accepts(&Event::Read(ReadOutcome::NoData)));
    run.step(Event::SendFailed);
    assert!(!run.accepts(&Event::Sent));
    assert!(!run.accepts(&Event::Read(ReadOutcome::NoData)));
}
