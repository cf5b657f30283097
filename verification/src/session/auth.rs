//! The authentication exchange as three steps around the network I/O: the client's
//! hello, the host's challenge and the client's answer. A device is trusted only
//! after its answer carries the proof for the pairing key.
use super::control::{
    challenge, confirmation, reconnect_requested, validate_answer, validate_hello, AuthError,
    MAX_NAME,
};
use crate::pairing::{
    hex_decode_spec, hex_lower, lookup, pairing_proof, proof_spec, verify, verify_spec, Identity,
    PairingError, MAX_DEVICES,
};
use crate::protocol::{
    message_spec, negotiate, negotiate_spec, DisplayCapabilities, Handshake, Packet, Pairing,
    ProtocolError,
};
use vstd::prelude::*;
use vstd::utf8::encode_utf8;

verus! {

/// Why the authentication exchange stopped.
#[derive(Debug, Clone, Copy, PartialEq, Eq, Structural)]
pub enum AuthFailure {
    /// The client's hello or answer is not acceptable.
    Client(AuthError),
    /// No protocol version is shared.
    Protocol(ProtocolError),
    /// A stored key is unreadable, the proof is wrong, or no more devices can be trusted.
    Pairing(PairingError),
}

impl AuthFailure {
    /// The text `describe` gives: that of the underlying reason.
    pub open spec fn reason_text(&self) -> Seq<char> {
        match *self {
            AuthFailure::Client(e) => e.reason_text(),
            AuthFailure::Protocol(e) => e.reason_text(),
            AuthFailure::Pairing(e) => e.reason_text(),
        }
    }

    /// Human-readable reason.
    pub fn describe(&self) -> (r: &'static str)
        ensures
            r@ == self.reason_text(),
    {
        match self {
            AuthFailure::Client(e) => e.describe(),
            AuthFailure::Protocol(e) => e.describe(),
            AuthFailure::Pairing(e) => e.describe(),
        }
    }
}

/// What the host keeps between its challenge and the client's answer.
pub struct PendingPairing {
    /// The client's id.
    pub id: [u8; 16],
    /// The pairing key: the saved one on a reconnect, a fresh one otherwise.
    pub key: Vec<u8>,
    /// The challenge nonce.
    pub nonce: [u8; 32],
    /// Whether the device pairs anew.
    pub is_new: bool,
}

/// The client's hello identifies it properly.
pub open spec fn hello_valid(h: Handshake) -> bool {
    h.client_id@.len() == 16 && encode_utf8(h.name@).len() <= MAX_NAME
}

/// First step: the client's id and the protocol version selected for it.
pub fn accept_hello(h: &Handshake) -> (r: Result<([u8; 16], (u8, u8)), AuthFailure>)
    ensures
        !hello_valid(*h) ==> r == Err::<([u8; 16], (u8, u8)), AuthFailure>(
            AuthFailure::Client(AuthError::InvalidClient),
        ),
        hello_valid(*h) ==> match negotiate_spec(h.min_major, h.max_major) {
            Ok(v) => r matches Ok((id, w)) && id@ == h.client_id@ && w == v,
            Err(e) => r == Err::<([u8; 16], (u8, u8)), AuthFailure>(AuthFailure::Protocol(e)),
        },
{
    let id = match validate_hello(h) {
        Ok(id) => id,
        Err(e) => {
            return Err(AuthFailure::Client(e));
        },
    };
    match negotiate(h.min_major, h.max_major, h.minor) {
        Ok(v) => Ok((id, v)),
        Err(e) => Err(AuthFailure::Protocol(e)),
    }
}

/// Second step: a client that asks to reconnect (`trusted` 1) and is known uses its saved
/// key; any other pairs anew with `fresh_key`. Gives the pending pairing and the
/// challenge to send.
pub fn open_pairing(
    trusted: u8,
    identity: &Identity,
    id: [u8; 16],
    fresh_key: [u8; 16],
    nonce: [u8; 32],
) -> (r: Result<(PendingPairing, Pairing), AuthFailure>)
    requires
        identity.wf(),
    ensures
        trusted > 1 ==> r == Err::<(PendingPairing, Pairing), AuthFailure>(
            AuthFailure::Client(AuthError::InvalidPairingState),
        ),
        trusted == 0 ==> (r matches Ok((p, _)) && p.is_new && p.key@ == fresh_key@),
        trusted == 1 ==> match lookup(identity.devices(), hex_lower(id@)) {
            None => r matches Ok((p, _)) && p.is_new && p.key@ == fresh_key@,
            Some(v) => match hex_decode_spec(encode_utf8(v)) {
                Some(k) => r matches Ok((p, _)) && !p.is_new && p.key@ == k,
                None => r == Err::<(PendingPairing, Pairing), AuthFailure>(
                    AuthFailure::Pairing(PairingError::InvalidStoredKey),
                ),
            },
        },
        r matches Ok((p, m)) ==> {
            &&& p.id == id
            &&& p.nonce == nonce
            &&& m.phase == if p.is_new {
                0u8
            } else {
                1u8
            }
            &&& m.nonce@ == nonce@
            &&& m.proof@.len() == 0
            &&& m.secret@.len() == 0
        },
{
    let reconnect = match reconnect_requested(trusted) {
        Ok(b) => b,
        Err(e) => {
            return Err(AuthFailure::Client(e));
        },
    };
    let saved = if reconnect {
        match identity.trusted(&id) {
            Ok(k) => k,
            Err(e) => {
                return Err(AuthFailure::Pairing(e));
            },
        }
    } else {
        None
    };
    let is_new = saved.is_none();
    let key = match saved {
        Some(k) => k,
        None => vstd::slice::slice_to_vec(fresh_key.as_slice()),
    };
    let message = challenge(is_new, &nonce);
    Ok((PendingPairing { id, key, nonce, is_new }, message))
}

/// A control stream whose client has answered the challenge with the proof for the
/// pairing key. Only `complete_pairing` makes one, and only a link reads the client's
/// display capabilities, which open the session.
pub struct AuthenticatedLink {
    device: [u8; 16],
    key: Ghost<Seq<u8>>,
    certificate: Ghost<Seq<u8>>,
    nonce: Ghost<Seq<u8>>,
    answer_proof: Ghost<Seq<u8>>,
}

impl AuthenticatedLink {
    /// The client's proof (role 1) checks out for its key, the host certificate, its id
    /// and the challenge nonce.
    #[verifier::type_invariant]
    spec fn proved(self) -> bool {
        verify_spec(self.key@, self.certificate@, self.device@, self.nonce@, 1, self.answer_proof@) is Ok
    }

    /// The authenticated client's id.
    pub closed spec fn device(&self) -> Seq<u8> {
        self.device@
    }

    /// The pairing key the client proved.
    pub closed spec fn key(&self) -> Seq<u8> {
        self.key@
    }

    /// The host certificate the proof is bound to.
    pub closed spec fn certificate(&self) -> Seq<u8> {
        self.certificate@
    }

    /// The challenge nonce.
    pub closed spec fn nonce(&self) -> Seq<u8> {
        self.nonce@
    }

    /// The client's proof.
    pub closed spec fn client_proof(&self) -> Seq<u8> {
        self.answer_proof@
    }

    /// The authenticated client's id.
    pub fn device_id(&self) -> (id: [u8; 16])
        ensures
            id@ == self.device(),
    {
        self.device
    }

    /// Reads the client's display capabilities from the control packet `p`. Every link
    /// this succeeds on carries a client proof that verifies.
    pub fn capabilities(&self, p: &Packet) -> (r: Result<DisplayCapabilities, ProtocolError>)
        ensures
            match message_spec::<DisplayCapabilities>(p@) {
                Ok(v) => r == Ok::<DisplayCapabilities, ProtocolError>(v),
                Err(e) => r == Err::<DisplayCapabilities, ProtocolError>(e),
            },
            r is Ok ==> verify_spec(
                self.key(),
                self.certificate(),
                self.device(),
                self.nonce(),
                1,
                self.client_proof(),
            ) is Ok,
    {
        proof {
            use_type_invariant(self);
        }
        p.message::<DisplayCapabilities>()
    }
}

/// The client's answer to the challenge has the right phase, nonce and no secret.
pub open spec fn answer_valid(p: PendingPairing, answer: Pairing) -> bool {
    answer.phase == 2 && answer.nonce@ == p.nonce@ && answer.secret@.len() == 0
}

/// Last step: checks the client's answer and its proof (role 1), trusts a newly paired
/// device with `fresh_secret`, and gives the confirmation to send, with the host's
/// proof (role 2), over the identity's certificate, and the authenticated link. The
/// trusted devices change only when the answer and the proof are right and the device
/// pairs anew.
pub fn complete_pairing(
    p: &PendingPairing,
    answer: &Pairing,
    identity: &mut Identity,
    fresh_secret: [u8; 32],
) -> (r: Result<(Pairing, AuthenticatedLink), AuthFailure>)
    requires
        old(identity).wf(),
    ensures
        final(identity).wf(),
        final(identity).credentials() == old(identity).credentials(),
        ({
            let cert = old(identity).credentials().1;
            let proved = verify_spec(p.key@, cert, p.id@, p.nonce@, 1, answer.proof@);
            let full = old(identity).devices().len() >= MAX_DEVICES;
            if !answer_valid(*p, *answer) {
                &&& r == Err::<(Pairing, AuthenticatedLink), AuthFailure>(
                    AuthFailure::Client(AuthError::UnexpectedPairingResponse),
                )
                &&& final(identity).devices() == old(identity).devices()
            } else if proved is Err {
                &&& r == Err::<(Pairing, AuthenticatedLink), AuthFailure>(AuthFailure::Pairing(proved->Err_0))
                &&& final(identity).devices() == old(identity).devices()
            } else if p.is_new && full {
                &&& r == Err::<(Pairing, AuthenticatedLink), AuthFailure>(AuthFailure::Pairing(PairingError::DeviceLimit))
                &&& final(identity).devices() == old(identity).devices()
            } else {
                &&& r matches Ok((m, link)) && m.phase == 3 && m.nonce@ == p.nonce@ && m.proof@
                    == proof_spec(p.key@, cert, p.id@, p.nonce@, 2) && m.secret@ == if p.is_new {
                    fresh_secret@
                } else {
                    Seq::<u8>::empty()
                } && link.device() == p.id@ && link.key() == p.key@ && link.certificate()
                    == cert && link.nonce() == p.nonce@ && link.client_proof() == answer.proof@
                &&& !p.is_new ==> final(identity).devices() == old(identity).devices()
                &&& p.is_new ==> forall|q: Seq<char>|
                    #![trigger lookup(final(identity).devices(), q)]
                    lookup(final(identity).devices(), q) == if q == hex_lower(p.id@) {
                        Some(hex_lower(fresh_secret@))
                    } else {
                        lookup(old(identity).devices(), q)
                    }
            }
        }),
{
    if let Err(e) = validate_answer(answer, &p.nonce) {
        return Err(AuthFailure::Client(e));
    }
    if let Err(e) = verify(
        p.key.as_slice(),
        identity.certificate().as_slice(),
        p.id.as_slice(),
        p.nonce.as_slice(),
        1,
        answer.proof.as_slice(),
    ) {
        return Err(AuthFailure::Pairing(e));
    }
    let secret = if p.is_new {
        vstd::slice::slice_to_vec(fresh_secret.as_slice())
    } else {
        p.key.clone()
    };
    if p.is_new {
        if let Err(e) = identity.trust(&p.id, fresh_secret.as_slice()) {
            return Err(AuthFailure::Pairing(e));
        }
    }
    let proof = match pairing_proof(
        p.key.as_slice(),
        identity.certificate().as_slice(),
        p.id.as_slice(),
        p.nonce.as_slice(),
        2,
    ) {
        Ok(v) => v,
        Err(e) => {
            return Err(AuthFailure::Pairing(e));
        },
    };
    let link = AuthenticatedLink {
        device: p.id,
        key: Ghost(p.key@),
        certificate: Ghost(identity.credentials().1),
        nonce: Ghost(p.nonce@),
        answer_proof: Ghost(answer.proof@),
    };
    Ok((confirmation(p.is_new, &p.nonce, proof, secret), link))
}

} // verus!
