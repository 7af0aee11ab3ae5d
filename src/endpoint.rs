//! Dispatch of an accepted connection by its path, and the replies of the
//! reflect endpoint.
use vstd::prelude::*;
use vstd::string::StringExecFns;
use crate::channel::{Payload, PayloadView};
use crate::session::Inbound;

verus! {

/// The endpoints a connection can be routed to.
#[derive(PartialEq, Eq, Structural, Clone, Copy, Debug)]
pub enum Endpoint {
    /// Reflects each message back.
    Echo,
    /// Evaluates arithmetic expressions.
    Math,
    /// Fans each message out to every other peer.
    GlobalChat,
    /// No endpoint has this path; the connection is dropped.
    Unknown,
}

/// Whether two texts hold the same characters.
fn same_text(a: &str, b: &str) -> (r: bool)
    ensures
        r == (a@ == b@),
{
    let n = a.unicode_len();
    if n != b.unicode_len() {
        return false;
    }
    let mut i: usize = 0;
    while i < n
        invariant
            n == a@.len() == b@.len(),
            i <= n,
            forall|j: int| 0 <= j < i ==> a@[j] == b@[j],
        decreases n - i,
    {
        if a.get_char(i) != b.get_char(i) {
            return false;
        }
        i = i + 1;
    }
    assert(a@ =~= b@);
    true
}

/// The endpoint that serves `path`.
pub fn route(path: &str) -> (r: Endpoint)
    ensures
        r == if path@ == "/echo"@ {
            Endpoint::Echo
        } else if path@ == "/math"@ {
            Endpoint::Math
        } else if path@ == "/global-chat"@ {
            Endpoint::GlobalChat
        } else {
            Endpoint::Unknown
        },
{
    if same_text(path, "/echo") {
        Endpoint::Echo
    } else if same_text(path, "/math") {
        Endpoint::Math
    } else if same_text(path, "/global-chat") {
        Endpoint::GlobalChat
    } else {
        Endpoint::Unknown
    }
}

/// What the reflect endpoint does with one inbound frame.
#[derive(Debug, PartialEq, Eq)]
pub enum EchoStep {
    /// Send this payload back and read on.
    Reply(Payload),
    /// Ignore the frame and read on.
    Skip,
    /// Leave the loop; answer the peer's close frame first when
    /// `acknowledge` holds.
    Stop { acknowledge: bool },
}

/// Text comes back prefixed with `Echo: `, bytes come back unchanged, a
/// close frame is answered and ends the loop, a read failure ends it at
/// once, and any other frame is ignored.
pub fn echo_step(frame: Inbound) -> (r: EchoStep)
    ensures
        match frame {
            Inbound::Text(t) => r matches EchoStep::Reply(p) && p@ == PayloadView::Text(
                "Echo: "@ + t@,
            ),
            Inbound::Binary(b) => r matches EchoStep::Reply(p) && p@ == Payload::Binary(b)@,
            Inbound::Close => r == (EchoStep::Stop { acknowledge: true }),
            Inbound::Control => r is Skip,
            Inbound::Failed => r == (EchoStep::Stop { acknowledge: false }),
        },
{
    match frame {
        Inbound::Text(t) => {
            let mut out = String::from_str("Echo: ");
            out.append(t.as_str());
            EchoStep::Reply(Payload::Text(out))
        },
        Inbound::Binary(b) => EchoStep::Reply(Payload::Binary(b)),
        Inbound::Close => EchoStep::Stop { acknowledge: true },
        Inbound::Control => EchoStep::Skip,
        Inbound::Failed => EchoStep::Stop { acknowledge: false },
    }
}

} // verus!
