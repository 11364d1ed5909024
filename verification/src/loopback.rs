//! Both ends of one AS2 exchange on one machine: a partner listening at an
//! ephemeral local port takes the one message the other partner posts and
//! answers its receipt, which the sender verifies before the send counts.
//! The exchange is unsigned.
use std::time::Duration;

use vstd::prelude::*;

use crate::error::ErrorView;
use crate::transport::{ArrivedView, As2Transport, OutgoingView, Setup, TakenView};
use crate::{exchange, mdn, transport};

verus! {

/// The partner the loopback listens as.
pub const ME: &'static str = "Seller";

/// The partner that posts to it.
pub const PARTNER: &'static str = "Buyer";

impl As2Transport {
    /// Both ends on this machine: [`ME`] listening at an ephemeral local
    /// port for [`PARTNER`], that timeout on either side, unsigned.
    #[must_use]
    pub fn loopback(timeout: Duration) -> (both: Self)
        ensures
            both@ == (Setup {
                endpoint: transport::wire_url("as2://127.0.0.1:0/as2"@),
                me: ME@,
                partner: PARTNER@,
                timeout: Some(timeout),
            }),
            both.is_unsigned(),
    {
        Self::new("as2://127.0.0.1:0/as2", ME, PARTNER).timing_out_after(timeout)
    }

    /// This partner again, unsigned: what the far end listens as.
    #[must_use]
    pub fn unsigned_twin(&self) -> (twin: Self)
        ensures
            twin@ == self@,
            twin.is_unsigned(),
    {
        let twin = Self::new(self.endpoint(), self.me(), self.partner());
        match self.timeout() {
            Some(timeout) => twin.timing_out_after(timeout),
            None => twin,
        }
    }

    /// The other partner, which posts to this one's `path` at `address`,
    /// unsigned, with `patience` for a timeout where this one has none.
    #[must_use]
    pub fn near_end(&self, address: &str, path: &str, patience: Duration) -> (near: Self)
        ensures
            near@ == (Setup {
                endpoint: transport::wire_url("as2://"@ + address@ + path@),
                me: self@.partner,
                partner: self@.me,
                timeout: match self@.timeout {
                    Some(timeout) => Some(timeout),
                    None => Some(patience),
                },
            }),
            near.is_unsigned(),
    {
        let mut endpoint = "as2://".to_string();
        endpoint.append(address);
        endpoint.append(path);
        let timeout = match self.timeout() {
            Some(timeout) => timeout,
            None => patience,
        };
        Self::new(&endpoint, self.partner(), self.me()).timing_out_after(timeout)
    }
}

/// The loopback returns every payload whole: what the near end posts, the far
/// end takes with nothing of it changed, and the near end can only verify the
/// answer.
pub proof fn law_loopback_returns_every_payload(
    both: &As2Transport,
    far: &As2Transport,
    near: &As2Transport,
    authority: Seq<char>,
    path: Seq<char>,
    peer: Seq<char>,
    bytes: Seq<u8>,
    n: u64,
    boundary: Seq<char>,
    prepared: Result<OutgoingView, ErrorView>,
)
    requires
        both@.me == ME@,
        both@.partner == PARTNER@,
        far@ == both@,
        far.is_unsigned(),
        near@.me == both@.partner,
        near@.partner == both@.me,
        near.is_unsigned(),
        mdn::is_report_boundary(boundary),
        near.may_prepare(authority, path, bytes, n, prepared),
    ensures
        prepared matches Ok(out) && forall|result: Result<TakenView, ErrorView>| #[trigger]
            far.may_take(out.request, boundary, result) ==> (result matches Ok(took)
                && near.delivers(out, bytes, took)) && transport::settled(
                peer,
                path,
                result,
            ).arrived == Ok::<ArrivedView, ErrorView>(
                ArrivedView {
                    origin_uri: transport::origin_of(peer, path, out.message.as_read()),
                    bytes,
                },
            ),
{
    reveal_strlit("Seller");
    reveal_strlit("Buyer");
    exchange::law_unsigned_exchange(near, far, authority, path, bytes, n, boundary, prepared);
}

} // verus!
