use vstd::prelude::*;
use crate::codec::{decode_result, decode_spec};
use crate::number::{decimal_text, int_text, parse_i32, parse_i32_spec, signed_value};
use crate::status::{QueryError, QueryStatus};
use crate::text::chars_of;

verus! {

/// The port used when none is given or the one given is not a port number.
pub const DEFAULT_PORT: u16 = 10011;

/// Seconds to wait for the greeting after connecting.
pub const BANNER_TIMEOUT_SECS: u64 = 1;

/// Seconds to wait for the reply to a command.
pub const REPLY_TIMEOUT_SECS: u64 = 2;

/// The line terminator that the server expects after a command.
pub open spec fn terminator() -> Seq<char> {
    seq!['\n', '\r']
}

/// The login command for `user` and `password`.
pub open spec fn login_command_spec(user: Seq<char>, password: Seq<char>) -> Seq<char> {
    seq!['l', 'o', 'g', 'i', 'n', ' '] + user + seq![' '] + password + terminator()
}

/// The command that selects the virtual server `id`.
pub open spec fn select_command_spec(id: i32) -> Seq<char> {
    seq!['u', 's', 'e', ' '] + int_text(id as int) + terminator()
}

/// The command line `login <user> <password>`.
pub fn login_command(user: &str, password: &str) -> (r: String)
    ensures
        r@ == login_command_spec(user@, password@),
{
    proof {
        reveal_strlit("login ");
        reveal_strlit(" ");
        reveal_strlit("\n\r");
    }
    let mut r = String::from_str("login ");
    r.append(user);
    r.append(" ");
    r.append(password);
    r.append("\n\r");
    assert(r@ =~= login_command_spec(user@, password@));
    r
}

/// The command line `use <id>`.
pub fn select_command(id: i32) -> (r: String)
    ensures
        r@ == select_command_spec(id),
{
    proof {
        reveal_strlit("use ");
        reveal_strlit("\n\r");
    }
    let digits = decimal_text(id);
    let mut r = String::from_str("use ");
    r.append(digits.as_str());
    r.append("\n\r");
    assert(r@ =~= select_command_spec(id));
    r
}

/// The port number that `s` spells, as `u16::from_str` reads it.
pub open spec fn parse_port_spec(s: Seq<char>) -> Option<u16> {
    if s.len() > 0 && s[0] == '-' {
        None
    } else {
        match signed_value(s) {
            Some(v) => if 0 <= v <= u16::MAX {
                Some(v as u16)
            } else {
                None
            },
            None => None,
        }
    }
}

/// Reads a port argument; the flag says whether it fell back to the default.
pub fn port_or_default(arg: &str) -> (r: (u16, bool))
    ensures
        r == match parse_port_spec(arg@) {
            Some(p) => (p, false),
            None => (DEFAULT_PORT, true),
        },
{
    let chars = chars_of(arg);
    if chars.len() > 0 && chars[0] == '-' {
        return (DEFAULT_PORT, true);
    }
    match parse_i32(chars.as_slice()) {
        Some(v) => if 0 <= v && v <= 65535 {
            (v as u16, false)
        } else {
            (DEFAULT_PORT, true)
        },
        None => (DEFAULT_PORT, true),
    }
}

/// What one bounded read from the server gave.
#[derive(Debug)]
pub enum ReadOutcome {
    /// Bytes arrived.
    Data(Vec<u8>),
    /// Nothing arrived before the timeout.
    TimedOut,
    /// The read returned without data.
    NoData,
    /// The transport reported an error, or an event that carries no data.
    Failed,
}

/// The outcome of a read as the read primitive reports it: the bytes, `None`
/// when nothing came, or a transport error.
pub open spec fn read_spec(o: ReadOutcome) -> Result<Option<Seq<u8>>, QueryError> {
    match o {
        ReadOutcome::Data(d) => Ok(Some(d@)),
        ReadOutcome::TimedOut => Ok(None),
        ReadOutcome::NoData => Ok(None),
        ReadOutcome::Failed => Err(QueryError::TransportError),
    }
}

/// The status that the reply to a command carries, over plain values.
pub open spec fn reply_status_spec(o: ReadOutcome) -> Result<(i32, Seq<char>), QueryError> {
    match read_spec(o) {
        Err(e) => Err(e),
        Ok(None) => Err(QueryError::NoResponse),
        Ok(Some(d)) => match decode_spec(d) {
            Err(e) => Err(e),
            Ok(None) => Err(QueryError::NoStatusLine),
            Ok(Some(st)) => Ok(st),
        },
    }
}

pub open spec fn status_result_view(r: Result<QueryStatus, QueryError>) -> Result<
    (i32, Seq<char>),
    QueryError,
> {
    match r {
        Ok(s) => Ok(s@),
        Err(e) => Err(e),
    }
}

/// Classifies one read.
pub fn read_data(o: ReadOutcome) -> (r: Result<Option<Vec<u8>>, QueryError>)
    ensures
        match r {
            Ok(Some(d)) => read_spec(o) == Ok::<Option<Seq<u8>>, QueryError>(Some(d@)),
            Ok(None) => read_spec(o) == Ok::<Option<Seq<u8>>, QueryError>(None),
            Err(e) => read_spec(o) == Err::<Option<Seq<u8>>, QueryError>(e),
        },
{
    match o {
        ReadOutcome::Data(d) => Ok(Some(d)),
        ReadOutcome::TimedOut => Ok(None),
        ReadOutcome::NoData => Ok(None),
        ReadOutcome::Failed => Err(QueryError::TransportError),
    }
}

/// The status carried by the reply to a command: a read that brings nothing
/// is `NoResponse`, and a reply without a status line is `NoStatusLine`.
pub fn reply_status(o: ReadOutcome) -> (r: Result<QueryStatus, QueryError>)
    ensures
        status_result_view(r) == reply_status_spec(o),
{
    let data = match read_data(o) {
        Ok(Some(d)) => d,
        Ok(None) => return Err(QueryError::NoResponse),
        Err(e) => return Err(e),
    };
    match decode_result(data) {
        Ok(Some(st)) => Ok(st),
        Ok(None) => Err(QueryError::NoStatusLine),
        Err(e) => Err(e),
    }
}

/// Where a run stands.
#[derive(Clone, Copy, Debug, PartialEq, Eq, Structural)]
pub enum Stage {
    /// Connected; the greeting is being read.
    AwaitBanner,
    /// The login command is being written.
    AwaitLoginWrite,
    /// The reply to the login is being read.
    AwaitLoginReply,
    /// The server selection is being written.
    AwaitSelectWrite,
    /// The reply to the server selection is being read.
    AwaitSelectReply,
    /// The run has ended.
    Finished,
}

/// Whether a run at `stage` waits for a read.
pub open spec fn awaits_read(stage: Stage) -> bool {
    stage == Stage::AwaitBanner || stage == Stage::AwaitLoginReply || stage
        == Stage::AwaitSelectReply
}

/// What the connection did with the last action.
#[derive(Debug)]
pub enum Event {
    /// A read ended so.
    Read(ReadOutcome),
    /// The command was written (perhaps only in part).
    Sent,
    /// Writing the command failed.
    SendFailed,
}

/// What the connection is to do next.
#[derive(Debug)]
pub enum Action {
    /// Read once, waiting at most so many seconds.
    Read { timeout_secs: u64 },
    /// Write this command line.
    Send(String),
    /// Stop: the run succeeded or failed.
    Done(Result<(), QueryError>),
}

/// A login followed by a server selection, driven by the outcomes of the
/// connection's reads and writes.
pub struct Run {
    stage: Stage,
    user: String,
    password: String,
    sid: String,
}

pub struct RunView {
    pub stage: Stage,
    pub user: Seq<char>,
    pub password: Seq<char>,
    pub sid: Seq<char>,
}

impl View for Run {
    type V = RunView;

    closed spec fn view(&self) -> RunView {
        RunView { stage: self.stage, user: self.user@, password: self.password@, sid: self.sid@ }
    }
}

/// Whether `a` stops the run with the result `r`.
pub open spec fn ends_with(a: Action, r: Result<(), QueryError>) -> bool {
    match a {
        Action::Done(x) => x == r,
        _ => false,
    }
}

/// How a run moves on `ev` from `before` to `after`, taking the action `a`.
pub open spec fn step_spec(before: RunView, ev: Event, after: RunView, a: Action) -> bool {
    &&& after.user == before.user
    &&& after.password == before.password
    &&& after.sid == before.sid
    &&& match (before.stage, ev) {
        (Stage::AwaitBanner, Event::Read(ReadOutcome::Failed)) => {
            after.stage == Stage::Finished && ends_with(a, Err(QueryError::TransportError))
        },
        (Stage::AwaitBanner, Event::Read(_)) => {
            &&& after.stage == Stage::AwaitLoginWrite
            &&& a matches Action::Send(p) && p@ == login_command_spec(before.user, before.password)
        },
        (Stage::AwaitLoginWrite, Event::Sent) => {
            after.stage == Stage::AwaitLoginReply && a == (Action::Read {
                timeout_secs: REPLY_TIMEOUT_SECS,
            })
        },
        (Stage::AwaitSelectWrite, Event::Sent) => {
            after.stage == Stage::AwaitSelectReply && a == (Action::Read {
                timeout_secs: REPLY_TIMEOUT_SECS,
            })
        },
        (Stage::AwaitLoginReply, Event::Read(o)) => match reply_status_spec(o) {
            Err(e) => after.stage == Stage::Finished && ends_with(a, Err(e)),
            Ok(st) => if st.0 != 0 {
                &&& after.stage == Stage::Finished
                &&& a matches Action::Done(Err(QueryError::LoginFailed(s))) && s@ == st
            } else {
                match parse_i32_spec(before.sid) {
                    None => after.stage == Stage::Finished && ends_with(
                        a,
                        Err(QueryError::InvalidServerId),
                    ),
                    Some(id) => {
                        &&& after.stage == Stage::AwaitSelectWrite
                        &&& a matches Action::Send(p) && p@ == select_command_spec(id)
                    },
                }
            },
        },
        (Stage::AwaitSelectReply, Event::Read(o)) => match reply_status_spec(o) {
            Err(e) => after.stage == Stage::Finished && ends_with(a, Err(e)),
            Ok(st) => if st.0 != 0 {
                &&& after.stage == Stage::Finished
                &&& a matches Action::Done(Err(QueryError::SelectFailed(s))) && s@ == st
            } else {
                after.stage == Stage::Finished && ends_with(a, Ok(()))
            },
        },
        (_, Event::SendFailed) => {
            after.stage == Stage::Finished && ends_with(a, Err(QueryError::WriteError))
        },
        _ => false,
    }
}

/// Whether `ev` is an outcome that a run at `stage` waits for.
pub open spec fn accepts(stage: Stage, ev: Event) -> bool {
    stage != Stage::Finished && (ev is Read <==> awaits_read(stage))
}

/// Starts a run for `user` and `password` that selects the server `sid`
/// names; the connection has just been opened.
pub fn staff(user: &str, password: &str, sid: &str) -> (r: (Run, Action))
    ensures
        r.0@.stage == Stage::AwaitBanner,
        r.0@.user == user@,
        r.0@.password == password@,
        r.0@.sid == sid@,
        r.1 == (Action::Read { timeout_secs: BANNER_TIMEOUT_SECS }),
{
    let run = Run {
        stage: Stage::AwaitBanner,
        user: user.to_owned(),
        password: password.to_owned(),
        sid: sid.to_owned(),
    };
    (run, Action::Read { timeout_secs: BANNER_TIMEOUT_SECS })
}

impl Run {
    pub fn stage(&self) -> (r: Stage)
        ensures
            r == self@.stage,
    {
        self.stage
    }

    /// Whether `ev` is an outcome that this run waits for now.
    pub fn accepts(&self, ev: &Event) -> (r: bool)
        ensures
            r == accepts(self@.stage, *ev),
    {
        let reads = match self.stage {
            Stage::AwaitBanner | Stage::AwaitLoginReply | Stage::AwaitSelectReply => true,
            _ => false,
        };
        match self.stage {
            Stage::Finished => false,
            _ => match ev {
                Event::Read(_) => reads,
                _ => !reads,
            },
        }
    }

    /// Moves the run on by the outcome of its last action.
    pub fn step(&mut self, ev: Event) -> (a: Action)
        requires
            accepts(old(self)@.stage, ev),
        ensures
            step_spec(old(self)@, ev, final(self)@, a),
            a is Read ==> awaits_read(final(self)@.stage),
            a is Send ==> final(self)@.stage != Stage::Finished && !awaits_read(final(self)@.stage),
            a is Done <==> final(self)@.stage == Stage::Finished,
    {
        match ev {
            Event::SendFailed => {
                self.stage = Stage::Finished;
                Action::Done(Err(QueryError::WriteError))
            },
            Event::Sent => {
                self.stage = match self.stage {
                    Stage::AwaitLoginWrite => Stage::AwaitLoginReply,
                    _ => Stage::AwaitSelectReply,
                };
                Action::Read { timeout_secs: REPLY_TIMEOUT_SECS }
            },
            Event::Read(o) => match self.stage {
                Stage::AwaitBanner => match o {
                    ReadOutcome::Failed => {
                        self.stage = Stage::Finished;
                        Action::Done(Err(QueryError::TransportError))
                    },
                    _ => {
                        self.stage = Stage::AwaitLoginWrite;
                        Action::Send(login_command(self.user.as_str(), self.password.as_str()))
                    },
                },
                Stage::AwaitLoginReply => {
                    self.stage = Stage::Finished;
                    match reply_status(o) {
                        Err(e) => Action::Done(Err(e)),
                        Ok(st) => if !st.is_ok() {
                            Action::Done(Err(QueryError::LoginFailed(st)))
                        } else {
                            let sid = chars_of(self.sid.as_str());
                            match parse_i32(sid.as_slice()) {
                                None => Action::Done(Err(QueryError::InvalidServerId)),
                                Some(id) => {
                                    self.stage = Stage::AwaitSelectWrite;
                                    Action::Send(select_command(id))
                                },
                            }
                        },
                    }
                },
                _ => {
                    self.stage = Stage::Finished;
                    match reply_status(o) {
                        Err(e) => Action::Done(Err(e)),
                        Ok(st) => if !st.is_ok() {
                            Action::Done(Err(QueryError::SelectFailed(st)))
                        } else {
                            Action::Done(Ok(()))
                        },
                    }
                },
            },
        }
    }
}

} // verus!
