//! Entry-point behavior: a once-only setup call, then decode, derive the
//! key, and write.
//!
//! The setup flag comes in and goes out as plain values, so both phases can
//! be exercised directly. A fresh instance answers its first call by raising
//! the flag and nothing else; afterwards each call handles one proof buffer.

use vstd::prelude::*;

use crate::codec::{spec_decode, MyPacket};
use crate::digest::{hex_key, key_of};
use crate::error::Error;
use crate::store::Store;

verus! {

/// Whether the deployed instance has performed its one-time setup. Written
/// once, never reset.
pub struct StoreState {
    pub initialized: bool,
}

/// What one pass of the pipeline does to the store contents: a decodable
/// proof is stored raw under its request's content address; an undecodable
/// one leaves the store untouched.
pub open spec fn relay_effect(m: Map<Seq<char>, Seq<u8>>, proof_bytes: Seq<u8>) -> Map<
    Seq<char>,
    Seq<u8>,
> {
    match spec_decode(proof_bytes) {
        Some(p) => m.insert(key_of(p.req), proof_bytes),
        None => m,
    }
}

/// Decodes the proof buffer and, on success, stores the raw buffer under the
/// hex digest key of its request, overwriting any existing entry. On decode
/// failure the store is not touched and `FailToDecodeProof` is reported.
pub fn relay_and_verify(store: &mut Store, proof_arg: &Vec<u8>) -> (r: Result<(), Error>)
    requires
        old(store).wf(),
    ensures
        final (store).wf(),
        final (store)@ == relay_effect(old(store)@, proof_arg@),
        r matches Ok(u) ==> u == () && spec_decode(proof_arg@) is Some,
        r matches Err(e) ==> e == Error::FailToDecodeProof && spec_decode(proof_arg@) is None,
{
    match MyPacket::decode(proof_arg.as_slice()) {
        Ok(packet) => {
            let key = hex_key(&packet.req);
            store.put(key, proof_arg.clone());
            Ok(())
        },
        Err(_) => Err(Error::FailToDecodeProof),
    }
}

/// What one call does to the flag and to the stored contents. A raised flag
/// stays raised forever; a lowered one is raised with the contents kept as
/// they were.
pub open spec fn gate_step(initialized: bool, m: Map<Seq<char>, Seq<u8>>, proof_bytes: Seq<u8>) -> (
    bool,
    Map<Seq<char>, Seq<u8>>,
) {
    if !initialized {
        (true, m)
    } else {
        (true, relay_effect(m, proof_bytes))
    }
}

/// One invocation of the entry point. The first call after deployment sets
/// the flag and returns success without touching the store; every later call
/// runs the decode → address → store pipeline.
pub fn handle_invocation(state: &mut StoreState, store: &mut Store, proof_arg: &Vec<u8>) -> (r:
    Result<(), Error>)
    requires
        old(store).wf(),
    ensures
        final (store).wf(),
        (final (state).initialized, final (store)@) == gate_step(
            old(state).initialized,
            old(store)@,
            proof_arg@,
        ),
        !old(state).initialized ==> (r matches Ok(u) && u == ()),
        old(state).initialized ==> ((r matches Ok(u) ==> u == () && spec_decode(proof_arg@)
            is Some) && (r matches Err(e) ==> e == Error::FailToDecodeProof && spec_decode(
            proof_arg@,
        ) is None)),
{
    if !state.initialized {
        state.initialized = true;
        Ok(())
    } else {
        relay_and_verify(store, proof_arg)
    }
}

/// Idempotent storage: submitting the same proof twice yields the same store
/// contents as submitting it once; a decodable proof ends up stored, raw,
/// under exactly its derived key, and no other key changes.
pub proof fn lemma_relay_idempotent(m: Map<Seq<char>, Seq<u8>>, proof_bytes: Seq<u8>)
    ensures
        relay_effect(relay_effect(m, proof_bytes), proof_bytes) == relay_effect(m, proof_bytes),
        spec_decode(proof_bytes) matches Some(p) ==> {
            let m1 = relay_effect(m, proof_bytes);
            &&& m1.contains_key(key_of(p.req))
            &&& m1[key_of(p.req)] == proof_bytes
            &&& m1.dom() == m.dom().insert(key_of(p.req))
            &&& forall|k: Seq<char>|
                m.contains_key(k) && k != key_of(p.req) ==> #[trigger] m1[k] == m[k]
        },
        spec_decode(proof_bytes) is None ==> relay_effect(m, proof_bytes) == m,
{
    match spec_decode(proof_bytes) {
        Some(p) => {
            let key = key_of(p.req);
            assert(m.insert(key, proof_bytes).insert(key, proof_bytes) =~= m.insert(
                key,
                proof_bytes,
            ));
            assert(m.insert(key, proof_bytes).dom() =~= m.dom().insert(key));
        },
        None => {},
    }
}

/// Initialization gate: from a fresh deployment, the first invocation only
/// makes the flag present and leaves the store untouched; the second runs the
/// full pipeline on an initialized instance.
pub proof fn lemma_initialization_gate(
    m: Map<Seq<char>, Seq<u8>>,
    first_proof: Seq<u8>,
    second_proof: Seq<u8>,
)
    ensures
        ({
            let (st1, m1) = gate_step(false, m, first_proof);
            let (st2, m2) = gate_step(st1, m1, second_proof);
            st1 && m1 == m && st2 && m2 == relay_effect(m, second_proof)
        }),
{
}

} // verus!
