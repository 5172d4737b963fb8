use vstd::prelude::*;

verus! {

/// The single ALPN protocol that both sides must offer.
pub open spec fn spec_alpn_protocol() -> Seq<u8> {
    seq![118, 111, 120, 45, 109, 101, 100, 105, 97, 47, 49]
}

/// Idle timeout of the server's QUIC transport, in seconds.
pub const SERVER_IDLE_TIMEOUT_SECS: u64 = 30;

/// Datagram receive buffer of the server's QUIC transport, in bytes.
pub const DATAGRAM_RECEIVE_BUFFER: usize = 65535;

/// The ALPN protocol identifier, `vox-media/1`, as bytes.
pub fn alpn_protocol() -> (r: Vec<u8>)
    ensures
        r@ == spec_alpn_protocol(),
{
    let r: Vec<u8> = vec![118, 111, 120, 45, 109, 101, 100, 105, 97, 47, 49];
    assert(r@ =~= spec_alpn_protocol());
    r
}

/// Certificate pinning: the server's end-entity certificate is accepted
/// exactly when its DER bytes are the pinned ones.
pub fn cert_matches_pin(presented: &[u8], pinned: &[u8]) -> (r: bool)
    ensures
        r == (presented@ == pinned@),
{
    if presented.len() != pinned.len() {
        return false;
    }
    let mut i: usize = 0;
    while i < presented.len()
        invariant
            presented@.len() == pinned@.len(),
            i <= presented@.len(),
            presented@.take(i as int) == pinned@.take(i as int),
        decreases presented@.len() - i,
    {
        if presented[i] != pinned[i] {
            assert(presented@[i as int] != pinned@[i as int]);
            return false;
        }
        assert(presented@.take(i + 1) =~= presented@.take(i as int).push(presented@[i as int]));
        assert(pinned@.take(i + 1) =~= pinned@.take(i as int).push(pinned@[i as int]));
        i = i + 1;
    }
    assert(presented@ =~= presented@.take(i as int));
    assert(pinned@ =~= pinned@.take(i as int));
    true
}

} // verus!
