//! The discovery listener's selection rule.
//!
//! The listener receives UDP datagrams one at a time, decodes each with the
//! codec, discards invalid ones and completes with the first valid
//! endpoint. The receive loop itself blocks on a socket and stays outside
//! the library; the decision — which datagram wins and what endpoint it
//! yields — is `select_endpoint`, stated over the arrival order.

use vstd::prelude::*;
use crate::codec::{decode, spec_decode, DecodeResult, Endpoint, HostAddr};

verus! {

/// One received UDP datagram: its payload and the sender address the
/// transport reported. The host of a discovered endpoint comes from the
/// sender, never from the payload, which carries only a port.
pub struct Datagram {
    pub payload: Vec<u8>,
    pub sender: HostAddr,
}

impl View for Datagram {
    type V = (Seq<u8>, HostAddr);

    open spec fn view(&self) -> (Seq<u8>, HostAddr) {
        (self.payload@, self.sender)
    }
}

/// The endpoint the first valid discovery message yields, paired with its
/// own datagram's sender address; `None` if no datagram is valid.
pub open spec fn spec_first_valid(msgs: Seq<(Seq<u8>, HostAddr)>) -> Option<Endpoint>
    decreases msgs.len(),
{
    if msgs.len() == 0 {
        None
    } else {
        match spec_decode(msgs.first().0) {
            Some(p) => Some(Endpoint { host: msgs.first().1, port: p }),
            None => spec_first_valid(msgs.drop_first()),
        }
    }
}

/// Scans datagrams in arrival order and returns the endpoint of the first
/// valid discovery message, skipping invalid ones; `None` when none is
/// valid.
pub fn select_endpoint(datagrams: &Vec<Datagram>) -> (r: Option<Endpoint>)
    ensures
        r == spec_first_valid(datagrams@.map_values(|d: Datagram| d@)),
{
    let ghost all = datagrams@.map_values(|d: Datagram| d@);
    proof {
        assert(all.skip(0) =~= all);
    }
    let mut i: usize = 0;
    while i < datagrams.len()
        invariant
            0 <= i <= datagrams@.len(),
            all == datagrams@.map_values(|d: Datagram| d@),
            spec_first_valid(all) == spec_first_valid(all.skip(i as int)),
        decreases datagrams@.len() - i,
    {
        let d = &datagrams[i];
        match decode(d.payload.as_slice(), d.sender) {
            DecodeResult::Valid(e) => {
                proof {
                    assert(all.skip(i as int).first() == all[i as int]);
                }
                return Some(e);
            },
            DecodeResult::Invalid => {
                proof {
                    assert(all.skip(i as int).first() == all[i as int]);
                    assert(all.skip(i as int).drop_first() =~= all.skip(i + 1));
                }
            },
        }
        i = i + 1;
    }
    proof {
        assert(all.skip(datagrams@.len() as int) =~= Seq::<(Seq<u8>, HostAddr)>::empty());
    }
    None
}

/// Discovery is address-source-based: when scanning yields an endpoint,
/// some datagram carries its port, every earlier one is invalid, and the
/// endpoint's host is that very datagram's sender address — the payload
/// has no say in it.
pub proof fn lemma_discovery_host_is_sender(msgs: Seq<(Seq<u8>, HostAddr)>, e: Endpoint)
    requires
        spec_first_valid(msgs) == Some(e),
    ensures
        exists|i: int|
            0 <= i < msgs.len() && spec_decode(msgs[i].0) == Some(e.port) && e.host == msgs[i].1
                && (forall|j: int| 0 <= j < i ==> spec_decode(msgs[j].0) is None),
    decreases msgs.len(),
{
    if spec_decode(msgs.first().0) is Some {
        assert(0 <= 0 < msgs.len() && spec_decode(msgs[0].0) == Some(e.port) && e.host
            == msgs[0].1 && (forall|j: int| 0 <= j < 0 ==> spec_decode(msgs[j].0) is None));
    } else {
        lemma_discovery_host_is_sender(msgs.drop_first(), e);
        let i = choose|i: int|
            0 <= i < msgs.drop_first().len() && spec_decode(msgs.drop_first()[i].0) == Some(e.port)
                && e.host == msgs.drop_first()[i].1 && (forall|j: int|
                0 <= j < i ==> spec_decode(msgs.drop_first()[j].0) is None);
        assert(msgs[i + 1] == msgs.drop_first()[i]);
        assert forall|j: int| 0 <= j < i + 1 implies spec_decode(msgs[j].0) is None by {
            if j > 0 {
                assert(msgs.drop_first()[j - 1] == msgs[j]);
            }
        }
        assert(0 <= i + 1 < msgs.len() && spec_decode(msgs[i + 1].0) == Some(e.port) && e.host
            == msgs[i + 1].1 && (forall|j: int| 0 <= j < i + 1 ==> spec_decode(msgs[j].0) is None));
    }
}

} // verus!
