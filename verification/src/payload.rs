//! The bytes that a call is given to send.
//!
//! A call knows nothing of the type of its bytes but that it is a [`Payload`]. So it can hand them on,
//! once, and that is all: it cannot look at them, copy them or make up others.
use crate::call::Key;
use crate::client::TcpClient;
use vstd::prelude::*;

verus! {

/// Bytes to send.
pub(crate) trait Payload: View<V = Seq<u8>> + Sized {
    /// The bytes as a vector, for the command that they go into.
    fn into_vec(self, key: Key) -> (data: Vec<u8>)
        ensures
            data@ == self@,
    ;
}

impl Payload for Vec<u8> {
    /// The calls that are not disconnects do not depend on this, as the contract is about them: none
    /// of them can take a vector of its own making for its bytes.
    fn into_vec(self, _key: Key) -> (data: Vec<u8>)
        ensures
            TcpClient::<()>::sends_answer_for_themselves(),
            forall|client: &TcpClient<()>| #[trigger] TcpClient::flush_answers_for_itself(client),
    {
        proof {
            TcpClient::<()>::law_sends_answer_for_themselves();
        }
        self
    }
}

/// No bytes. There is no way to come by a value, so a call of this payload is never made.
pub struct Nothing(());

impl View for Nothing {
    type V = Seq<u8>;

    open spec fn view(&self) -> Seq<u8> {
        Seq::empty()
    }
}

impl Payload for Nothing {
    fn into_vec(self, _key: Key) -> (data: Vec<u8>) {
        Vec::new()
    }
}

} // verus!
