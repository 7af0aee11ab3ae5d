//! Message payloads and the per-connection delivery channel.
use vstd::prelude::*;

verus! {

/// What a payload holds, as mathematical values.
pub enum PayloadView {
    Text(Seq<char>),
    Binary(Seq<u8>),
}

/// An outbound message: UTF-8 text or raw bytes. Control frames never
/// become payloads.
#[derive(Debug, PartialEq, Eq)]
pub enum Payload {
    Text(String),
    Binary(Vec<u8>),
}

impl View for Payload {
    type V = PayloadView;

    open spec fn view(&self) -> PayloadView {
        match self {
            Payload::Text(t) => PayloadView::Text(t@),
            Payload::Binary(b) => PayloadView::Binary(b@),
        }
    }
}

impl Payload {
    /// A copy of the payload with the same contents.
    pub fn duplicate(&self) -> (r: Payload)
        ensures
            r@ == self@,
    {
        match self {
            Payload::Text(t) => Payload::Text(t.clone()),
            Payload::Binary(b) => {
                let mut out: Vec<u8> = Vec::new();
                let mut i: usize = 0;
                while i < b.len()
                    invariant
                        i <= b@.len(),
                        out@ == b@.take(i as int),
                    decreases b@.len() - i,
                {
                    out.push(b[i]);
                    i = i + 1;
                    assert(out@ =~= b@.take(i as int));
                }
                assert(out@ =~= b@);
                Payload::Binary(out)
            },
        }
    }
}

#[verifier::external_type_specification]
#[verifier::external_body]
#[verifier::reject_recursive_types(T)]
pub struct ExUnboundedSender<T>(tokio::sync::mpsc::UnboundedSender<T>);

#[verifier::external_type_specification]
#[verifier::external_body]
#[verifier::reject_recursive_types(T)]
pub struct ExUnboundedReceiver<T>(tokio::sync::mpsc::UnboundedReceiver<T>);

/// The send half of a tokio delivery channel.
pub type SendHandle = tokio::sync::mpsc::UnboundedSender<Payload>;

/// The receive half of a delivery channel, drained by a session's writer.
pub type ReceiveHandle = tokio::sync::mpsc::UnboundedReceiver<Payload>;

/// The send half of a delivery channel together with the payloads handed
/// to it so far, in order. Only `offer` extends that record.
pub struct Outlet {
    tx: SendHandle,
    sent: Ghost<Seq<PayloadView>>,
}

impl Outlet {
    /// The payloads handed to this channel, oldest first.
    pub closed spec fn sent(&self) -> Seq<PayloadView> {
        self.sent@
    }

    /// Relies on `UnboundedSender::send`: it takes the payload without
    /// waiting, enqueuing it, and reports `false` when the receive half is
    /// gone. Either way the payload has been handed to the channel; which
    /// outcome comes depends on the receiver, so it is not promised.
    #[verifier::external_body]
    pub(crate) fn offer(&mut self, p: Payload) -> (accepted: bool)
        ensures
            final(self).sent() == old(self).sent().push(p@),
    {
        self.tx.send(p).is_ok()
    }
}

/// Relies on `tokio::sync::mpsc::unbounded_channel`: a fresh channel whose
/// two halves are connected to each other only.
#[verifier::external_body]
fn unbounded() -> (r: (SendHandle, ReceiveHandle)) {
    tokio::sync::mpsc::unbounded_channel()
}

/// A new delivery channel: its send half, to which nothing has been handed
/// yet, and its receive half.
pub(crate) fn open_channel() -> (r: (Outlet, ReceiveHandle))
    ensures
        r.0.sent() == Seq::<PayloadView>::empty(),
{
    let (tx, rx) = unbounded();
    (Outlet { tx, sent: Ghost(Seq::empty()) }, rx)
}

/// Relies on `uuid::Uuid::new_v4` and `Uuid::as_u128`: a random 128-bit
/// identifier. Nothing is promised of its value.
#[verifier::external_body]
pub(crate) fn random_identity() -> (r: u128) {
    uuid::Uuid::new_v4().as_u128()
}

} // verus!
