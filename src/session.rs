//! What a connection session decides: how the reader treats each inbound
//! frame, and how the session moves from `Connecting` to `Closed` as its
//! two loops end.
use vstd::prelude::*;
use crate::channel::Payload;

verus! {

/// One inbound frame, or the failure to read one.
#[derive(Debug, PartialEq, Eq)]
pub enum Inbound {
    Text(String),
    Binary(Vec<u8>),
    /// A close frame from the peer.
    Close,
    /// Ping, pong or any other frame that carries no payload for peers.
    Control,
    /// The connection could not be read.
    Failed,
}

/// What the reader loop does with one inbound frame.
#[derive(Debug, PartialEq, Eq)]
pub enum ReaderStep {
    /// Fan the payload out to the other members and read on.
    Forward(Payload),
    /// Ignore the frame and read on.
    Skip,
    /// Leave the loop; answer the peer's close frame first when
    /// `acknowledge` holds.
    Stop { acknowledge: bool },
}

/// Text and binary frames are forwarded, a close frame stops the reader
/// after it is acknowledged, a read failure stops it at once, and any
/// other frame is ignored.
pub fn read_step(frame: Inbound) -> (r: ReaderStep)
    ensures
        match frame {
            Inbound::Text(t) => r matches ReaderStep::Forward(p) && p@ == Payload::Text(t)@,
            Inbound::Binary(b) => r matches ReaderStep::Forward(p) && p@ == Payload::Binary(b)@,
            Inbound::Close => r == (ReaderStep::Stop { acknowledge: true }),
            Inbound::Control => r is Skip,
            Inbound::Failed => r == (ReaderStep::Stop { acknowledge: false }),
        },
{
    match frame {
        Inbound::Text(t) => ReaderStep::Forward(Payload::Text(t)),
        Inbound::Binary(b) => ReaderStep::Forward(Payload::Binary(b)),
        Inbound::Close => ReaderStep::Stop { acknowledge: true },
        Inbound::Control => ReaderStep::Skip,
        Inbound::Failed => ReaderStep::Stop { acknowledge: false },
    }
}

/// The lifecycle of a session.
#[derive(PartialEq, Eq, Structural, Clone, Copy, Debug)]
pub enum Phase {
    Connecting,
    Active,
    Closing,
    Closed,
}

/// What the session's driver reports.
#[derive(PartialEq, Eq, Structural, Clone, Copy, Debug)]
pub enum SessionEvent {
    /// The connection joined the registry.
    Registered,
    /// The reader loop has returned.
    ReaderExited,
    /// The writer loop has returned.
    WriterExited,
}

/// What the session's driver must do next.
#[derive(PartialEq, Eq, Structural, Clone, Copy, Debug)]
pub enum SessionCommand {
    /// Start the reader and the writer loops.
    StartLoops,
    /// Close the network connection, which ends a waiting reader.
    CloseConnection,
    /// Remove the session from the registry; this drops the send half of
    /// its channel, which ends a waiting writer.
    Deregister,
    /// Both loops are done and the session is deregistered: release the
    /// connection.
    Release,
    /// The event does not apply in this phase.
    Nothing,
}

/// The state of one session.
#[derive(PartialEq, Eq, Structural, Clone, Copy, Debug)]
pub struct Session {
    pub phase: Phase,
    pub reader_running: bool,
    pub writer_running: bool,
    pub deregistered: bool,
}

impl Session {
    /// The states a session can be in.
    pub open spec fn wf(&self) -> bool {
        match self.phase {
            Phase::Connecting => !self.reader_running && !self.writer_running && !self.deregistered,
            Phase::Active => self.reader_running && self.writer_running && !self.deregistered,
            Phase::Closing => self.reader_running != self.writer_running && (self.deregistered
                <==> !self.reader_running),
            Phase::Closed => !self.reader_running && !self.writer_running && self.deregistered,
        }
    }

    /// A session that has not joined the registry yet.
    pub fn new() -> (r: Session)
        ensures
            r.wf(),
            r.phase == Phase::Connecting,
    {
        Session {
            phase: Phase::Connecting,
            reader_running: false,
            writer_running: false,
            deregistered: false,
        }
    }

    /// Takes one event and says what to do. Registration starts both loops;
    /// the first loop to end moves the session to `Closing` and stops the
    /// other one (a reader that ends deregisters, which ends the writer; a
    /// writer that ends closes the connection, which ends the reader); the
    /// second one moves it to `Closed`, deregistering if that was not done.
    /// An event that does not apply changes nothing.
    pub fn on_event(&mut self, event: SessionEvent) -> (r: SessionCommand)
        requires
            old(self).wf(),
        ensures
            final(self).wf(),
            (r == SessionCommand::Deregister) <==> (!old(self).deregistered
                && final(self).deregistered),
            old(self).deregistered ==> final(self).deregistered,
            r == SessionCommand::Nothing ==> *final(self) == *old(self),
            final(self).phase == Phase::Closed ==> (r == SessionCommand::Deregister || r
                == SessionCommand::Release || old(self).phase == Phase::Closed),
            match (old(self).phase, event) {
                (Phase::Connecting, SessionEvent::Registered) => r == SessionCommand::StartLoops
                    && final(self).phase == Phase::Active,
                (Phase::Active, SessionEvent::ReaderExited) => r == SessionCommand::Deregister
                    && final(self).phase == Phase::Closing && final(self).writer_running,
                (Phase::Active, SessionEvent::WriterExited) => r
                    == SessionCommand::CloseConnection && final(self).phase == Phase::Closing
                    && final(self).reader_running,
                (Phase::Closing, SessionEvent::ReaderExited) => if old(self).reader_running {
                    r == SessionCommand::Deregister && final(self).phase == Phase::Closed
                } else {
                    r == SessionCommand::Nothing
                },
                (Phase::Closing, SessionEvent::WriterExited) => if old(self).writer_running {
                    r == SessionCommand::Release && final(self).phase == Phase::Closed
                } else {
                    r == SessionCommand::Nothing
                },
                _ => r == SessionCommand::Nothing,
            },
    {
        match (self.phase, event) {
            (Phase::Connecting, SessionEvent::Registered) => {
                self.phase = Phase::Active;
                self.reader_running = true;
                self.writer_running = true;
                SessionCommand::StartLoops
            },
            (Phase::Active, SessionEvent::ReaderExited) => {
                self.phase = Phase::Closing;
                self.reader_running = false;
                self.deregistered = true;
                SessionCommand::Deregister
            },
            (Phase::Active, SessionEvent::WriterExited) => {
                self.phase = Phase::Closing;
                self.writer_running = false;
                SessionCommand::CloseConnection
            },
            (Phase::Closing, SessionEvent::ReaderExited) => {
                if self.reader_running {
                    self.phase = Phase::Closed;
                    self.reader_running = false;
                    self.deregistered = true;
                    SessionCommand::Deregister
                } else {
                    SessionCommand::Nothing
                }
            },
            (Phase::Closing, SessionEvent::WriterExited) => {
                if self.writer_running {
                    self.phase = Phase::Closed;
                    self.writer_running = false;
                    SessionCommand::Release
                } else {
                    SessionCommand::Nothing
                }
            },
            _ => SessionCommand::Nothing,
        }
    }
}

} // verus!
