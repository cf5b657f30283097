//! The host's identity and the devices it trusts, keyed by hexadecimal client id.
use super::{
    hex_decode, hex_decode_spec, hex_encode, hex_lower, hex_value, self_signed, PairingError,
};
use vstd::prelude::*;
use vstd::utf8::encode_utf8;

verus! {

/// Most devices the host trusts at once.
pub const MAX_DEVICES: usize = 64;

/// A device entry: hexadecimal client id and hexadecimal device key.
pub type DeviceEntry = (Seq<char>, Seq<char>);

/// The value of the last entry whose key is `k`.
pub open spec fn lookup(e: Seq<DeviceEntry>, k: Seq<char>) -> Option<Seq<char>>
    decreases e.len(),
{
    if e.len() == 0 {
        None
    } else if e.last().0 == k {
        Some(e.last().1)
    } else {
        lookup(e.drop_last(), k)
    }
}

/// No two entries share a key.
pub open spec fn distinct_keys(e: Seq<DeviceEntry>) -> bool {
    forall|i: int, j: int| 0 <= i < j < e.len() ==> (#[trigger] e[i]).0 != (#[trigger] e[j]).0
}

proof fn lemma_lookup_none(e: Seq<DeviceEntry>, k: Seq<char>)
    ensures
        (lookup(e, k) is None) <==> (forall|i: int| 0 <= i < e.len() ==> (#[trigger] e[i]).0 != k),
    decreases e.len(),
{
    if e.len() > 0 {
        lemma_lookup_none(e.drop_last(), k);
        if lookup(e, k) is None {
            assert forall|i: int| 0 <= i < e.len() implies (#[trigger] e[i]).0 != k by {
                if i < e.len() - 1 {
                    assert(e.drop_last()[i] == e[i]);
                }
            }
        } else if e.last().0 != k {
            let i = choose|i: int| 0 <= i < e.drop_last().len() && (#[trigger] e.drop_last()[i]).0 == k;
            assert(e[i] == e.drop_last()[i]);
        }
    }
}

proof fn lemma_lookup_at(e: Seq<DeviceEntry>, i: int)
    requires
        distinct_keys(e),
        0 <= i < e.len(),
    ensures
        lookup(e, e[i].0) == Some(e[i].1),
    decreases e.len(),
{
    if i < e.len() - 1 {
        assert(e[i].0 != e[e.len() - 1].0);
        assert(distinct_keys(e.drop_last())) by {
            assert forall|a: int, b: int| 0 <= a < b < e.drop_last().len() implies (
            #[trigger] e.drop_last()[a]).0 != (#[trigger] e.drop_last()[b]).0 by {
                assert(e.drop_last()[a] == e[a]);
                assert(e.drop_last()[b] == e[b]);
            }
        }
        assert(e.drop_last()[i] == e[i]);
        lemma_lookup_at(e.drop_last(), i);
    }
}

proof fn lemma_lookup_update(e: Seq<DeviceEntry>, i: int, v: Seq<char>, q: Seq<char>)
    requires
        0 <= i < e.len(),
        q != e[i].0,
    ensures
        lookup(e.update(i, (e[i].0, v)), q) == lookup(e, q),
    decreases e.len(),
{
    let u = e.update(i, (e[i].0, v));
    if i < e.len() - 1 {
        assert(u.drop_last() =~= e.drop_last().update(i, (e[i].0, v)));
        assert(e.drop_last()[i] == e[i]);
        lemma_lookup_update(e.drop_last(), i, v, q);
    } else {
        assert(u.drop_last() =~= e.drop_last());
    }
}

proof fn lemma_lookup_push(e: Seq<DeviceEntry>, k: Seq<char>, v: Seq<char>, q: Seq<char>)
    ensures
        lookup(e.push((k, v)), q) == if q == k {
            Some(v)
        } else {
            lookup(e, q)
        },
{
    assert(e.push((k, v)).drop_last() =~= e);
}

/// The credentials that stored hexadecimal text stands for, or why it is refused: the
/// host id is decoded and must be 16 bytes, then the certificate, then the key.
pub open spec fn stored_credentials(
    host_id: Seq<char>,
    cert: Seq<char>,
    key: Seq<char>,
) -> Result<(Seq<u8>, Seq<u8>, Seq<u8>), PairingError> {
    match hex_decode_spec(encode_utf8(host_id)) {
        None => Err(PairingError::InvalidStoredHex),
        Some(h) => if h.len() != 16 {
            Err(PairingError::InvalidHostIdentity)
        } else {
            match hex_decode_spec(encode_utf8(cert)) {
                None => Err(PairingError::InvalidStoredHex),
                Some(c) => match hex_decode_spec(encode_utf8(key)) {
                    None => Err(PairingError::InvalidStoredHex),
                    Some(k) => Ok((h, c, k)),
                },
            }
        },
    }
}

/// Stored device entries as text pairs.
pub open spec fn entries_view(e: Seq<(String, String)>) -> Seq<DeviceEntry> {
    e.map_values(|p: (String, String)| (p.0@, p.1@))
}

/// The host's persistent identity: id, TLS certificate and key, and trusted devices.
pub struct Identity {
    pub host_id: [u8; 16],
    pub cert: Vec<u8>,
    pub key: Vec<u8>,
    devices: Vec<(String, String)>,
}

impl Identity {
    /// The trusted devices, as (hexadecimal id, hexadecimal key) entries.
    pub closed spec fn devices(&self) -> Seq<DeviceEntry> {
        self.devices@.map_values(|p: (String, String)| (p.0@, p.1@))
    }

    /// The host id, certificate and key.
    pub closed spec fn credentials(&self) -> (Seq<u8>, Seq<u8>, Seq<u8>) {
        (self.host_id@, self.cert@, self.key@)
    }

    pub open spec fn wf(&self) -> bool {
        distinct_keys(self.devices())
    }

    /// An identity that trusts no device yet.
    pub fn new(host_id: [u8; 16], cert: Vec<u8>, key: Vec<u8>) -> (r: Self)
        ensures
            r.wf(),
            r.devices() == Seq::<DeviceEntry>::empty(),
            r.credentials() == (host_id@, cert@, key@),
    {
        let r = Identity { host_id, cert, key, devices: Vec::new() };
        assert(r.devices() =~= Seq::<DeviceEntry>::empty());
        r
    }

    /// A new identity under `host_id` with a freshly generated self-signed certificate
    /// for `sidecardos.local`, trusting no device; `None` when generation fails.
    pub fn generate(host_id: [u8; 16]) -> (r: Option<Self>)
        ensures
            r matches Some(i) ==> i.wf() && i.devices() == Seq::<DeviceEntry>::empty()
                && i.credentials().0 == host_id@,
    {
        match self_signed("sidecardos.local") {
            Some((cert, key)) => Some(Identity::new(host_id, cert, key)),
            None => None,
        }
    }

    /// The host id, certificate and key as the lowercase hexadecimal text they are
    /// stored as.
    pub fn stored_text(&self) -> (r: (String, String, String))
        ensures
            r.0@ == hex_lower(self.credentials().0),
            r.1@ == hex_lower(self.credentials().1),
            r.2@ == hex_lower(self.credentials().2),
    {
        (
            hex_encode(self.host_id.as_slice()),
            hex_encode(self.cert.as_slice()),
            hex_encode(self.key.as_slice()),
        )
    }

    /// The identity read back from storage: hexadecimal host id, certificate and key,
    /// and the trusted device entries, restored in order.
    pub fn from_stored(host_id: &str, cert: &str, key: &str, devices: Vec<(String, String)>) -> (r:
        Result<Identity, PairingError>)
        ensures
            match stored_credentials(host_id@, cert@, key@) {
                Err(e) => r matches Err(x) && x == e,
                Ok(c) => r matches Ok(id) && {
                    &&& id.wf()
                    &&& id.credentials() == c
                    &&& forall|q: Seq<char>|
                        #![trigger lookup(id.devices(), q)]
                        lookup(id.devices(), q) == lookup(entries_view(devices@), q)
                    &&& distinct_keys(entries_view(devices@)) ==> id.devices() == entries_view(
                        devices@,
                    )
                },
            },
    {
        let h = match hex_decode(host_id) {
            Some(v) => v,
            None => {
                return Err(PairingError::InvalidStoredHex);
            },
        };
        if h.len() != 16 {
            return Err(PairingError::InvalidHostIdentity);
        }
        let c = match hex_decode(cert) {
            Some(v) => v,
            None => {
                return Err(PairingError::InvalidStoredHex);
            },
        };
        let k = match hex_decode(key) {
            Some(v) => v,
            None => {
                return Err(PairingError::InvalidStoredHex);
            },
        };
        let mut hid = [0u8; 16];
        let mut i: usize = 0;
        while i < 16
            invariant
                0 <= i <= 16,
                h@.len() == 16,
                hid@.len() == 16,
                forall|j: int| 0 <= j < i ==> hid@[j] == h@[j],
            decreases 16 - i,
        {
            hid[i] = h[i];
            i = i + 1;
        }
        assert(hid@ =~= h@);
        let mut id = Identity::new(hid, c, k);
        let ghost want = entries_view(devices@);
        let ghost all = devices@;
        let mut rest = devices;
        while rest.len() > 0
            invariant
                rest@.len() <= all.len(),
                rest@ == all.skip(all.len() - rest@.len()),
                want == entries_view(all),
                id.wf(),
                id.credentials() == (h@, c@, k@),
                forall|q: Seq<char>|
                    #![trigger lookup(id.devices(), q)]
                    lookup(id.devices(), q) == lookup(want.take(all.len() - rest@.len()), q),
                distinct_keys(want) ==> id.devices() == want.take(all.len() - rest@.len()),
            decreases rest.len(),
        {
            let ghost n = all.len() - rest@.len();
            let ghost before = id.devices();
            let (a, b) = rest.remove(0);
            proof {
                assert(all[n] == (a, b)) by {
                    assert(all.skip(n)[0] == all[n]);
                }
                assert(want[n] == (a@, b@));
                assert(want.take(n + 1).drop_last() =~= want.take(n));
                assert(rest@ =~= all.skip(n + 1));
                if distinct_keys(want) {
                    lemma_lookup_none(before, a@);
                    assert forall|i: int| 0 <= i < before.len() implies (#[trigger] before[i]).0
                        != a@ by {
                        assert(before[i] == want[i]);
                    }
                }
            }
            id.restore(a, b);
            proof {
                assert(want.take(n + 1) =~= want.take(n).push((a@, b@)));
                assert forall|q: Seq<char>| #[trigger]
                    lookup(id.devices(), q) == lookup(want.take(n + 1), q) by {
                    lemma_lookup_push(want.take(n), a@, b@, q);
                }
            }
        }
        assert(all.len() - rest@.len() == all.len());
        assert(want.take(want.len() as int) =~= want);
        Ok(id)
    }

    /// The TLS certificate.
    pub fn certificate(&self) -> (c: &Vec<u8>)
        ensures
            c@ == self.credentials().1,
    {
        &self.cert
    }

    /// The trusted devices as stored text pairs.
    pub fn entries(&self) -> (r: &Vec<(String, String)>)
        ensures
            r@.map_values(|p: (String, String)| (p.0@, p.1@)) == self.devices(),
    {
        &self.devices
    }

    /// Sets the entry for `id` to `value`, replacing an entry with the same id.
    fn insert(&mut self, id: String, value: String)
        requires
            old(self).wf(),
        ensures
            final(self).wf(),
            final(self).credentials() == old(self).credentials(),
            forall|q: Seq<char>|
                #![trigger lookup(final(self).devices(), q)]
                lookup(final(self).devices(), q) == if q == id@ {
                    Some(value@)
                } else {
                    lookup(old(self).devices(), q)
                },
            final(self).devices().len() == old(self).devices().len() + if lookup(
                old(self).devices(),
                id@,
            ) is None {
                1int
            } else {
                0int
            },
            lookup(old(self).devices(), id@) is None ==> final(self).devices() == old(
                self,
            ).devices().push((id@, value@)),
    {
        let ghost before = self.devices();
        let mut i: usize = 0;
        while i < self.devices.len()
            invariant
                i <= self.devices@.len(),
                self.devices() == before,
                before == old(self).devices(),
                distinct_keys(before),
                self.credentials() == old(self).credentials(),
                forall|j: int| 0 <= j < i ==> (#[trigger] before[j]).0 != id@,
            decreases self.devices.len() - i,
        {
            if self.devices[i].0 == id {
                proof {
                    assert(before[i as int].0 == id@);
                    lemma_lookup_at(before, i as int);
                }
                let ghost idx = i as int;
                self.devices.set(i, (id, value));
                proof {
                    assert(self.devices() =~= before.update(idx, (before[idx].0, value@)));
                    assert(distinct_keys(self.devices())) by {
                        assert forall|a: int, b: int|
                            0 <= a < b < self.devices().len() implies (
                        #[trigger] self.devices()[a]).0 != (#[trigger] self.devices()[b]).0 by {
                            assert(self.devices()[a].0 == before[a].0);
                            assert(self.devices()[b].0 == before[b].0);
                        }
                    }
                    assert forall|q: Seq<char>| #[trigger]
                        lookup(self.devices(), q) == if q == id@ {
                            Some(value@)
                        } else {
                            lookup(before, q)
                        } by {
                        if q == id@ {
                            lemma_lookup_at(self.devices(), idx);
                        } else {
                            lemma_lookup_update(before, idx, value@, q);
                        }
                    }
                }
                return ;
            }
            i = i + 1;
        }
        proof {
            lemma_lookup_none(before, id@);
        }
        self.devices.push((id, value));
        proof {
            assert(self.devices() =~= before.push((id@, value@)));
            assert forall|q: Seq<char>| #[trigger]
                lookup(self.devices(), q) == if q == id@ {
                    Some(value@)
                } else {
                    lookup(before, q)
                } by {
                lemma_lookup_push(before, id@, value@, q);
            }
            assert(distinct_keys(self.devices())) by {
                assert forall|a: int, b: int|
                    0 <= a < b < self.devices().len() implies (#[trigger] self.devices()[a]).0
                    != (#[trigger] self.devices()[b]).0 by {
                    if b == before.len() {
                        assert(self.devices()[a] == before[a]);
                    } else {
                        assert(self.devices()[a] == before[a]);
                        assert(self.devices()[b] == before[b]);
                    }
                }
            }
        }
    }

    /// Restores an entry read back from storage, with no limit on the count.
    pub fn restore(&mut self, id: String, value: String)
        requires
            old(self).wf(),
        ensures
            final(self).wf(),
            final(self).credentials() == old(self).credentials(),
            lookup(old(self).devices(), id@) is None ==> final(self).devices() == old(
                self,
            ).devices().push((id@, value@)),
            forall|q: Seq<char>|
                #![trigger lookup(final(self).devices(), q)]
                lookup(final(self).devices(), q) == if q == id@ {
                    Some(value@)
                } else {
                    lookup(old(self).devices(), q)
                },
    {
        self.insert(id, value);
    }

    /// The saved key of the device `id`, if it is trusted.
    pub fn trusted(&self, id: &[u8; 16]) -> (r: Result<Option<Vec<u8>>, PairingError>)
        requires
            self.wf(),
        ensures
            match lookup(self.devices(), hex_lower(id@)) {
                None => r matches Ok(None),
                Some(v) => match hex_decode_spec(encode_utf8(v)) {
                    Some(b) => r matches Ok(Some(k)) && k@ == b,
                    None => r == Err::<Option<Vec<u8>>, PairingError>(
                        PairingError::InvalidStoredKey,
                    ),
                },
            },
    {
        let ids = id.as_slice();
        assert(ids@ == id@);
        let name = hex_encode(ids);
        let ghost e = self.devices();
        let mut i: usize = 0;
        while i < self.devices.len()
            invariant
                i <= self.devices@.len(),
                e == self.devices(),
                distinct_keys(e),
                name@ == hex_lower(id@),
                forall|j: int| 0 <= j < i ==> (#[trigger] e[j]).0 != name@,
            decreases self.devices.len() - i,
        {
            if self.devices[i].0 == name {
                proof {
                    assert(e[i as int].0 == name@);
                    assert(e[i as int].1 == self.devices@[i as int].1@);
                    lemma_lookup_at(e, i as int);
                    assert(lookup(self.devices(), hex_lower(id@)) == Some(e[i as int].1));
                }
                let text = self.devices[i].1.as_str();
                assert(text@ == e[i as int].1);
                return match hex_decode(text) {
                    Some(k) => Ok(Some(k)),
                    None => Err(PairingError::InvalidStoredKey),
                };
            }
            i = i + 1;
        }
        proof {
            lemma_lookup_none(e, name@);
        }
        Ok(None)
    }

    /// Trusts the device `id` with `key`, replacing an earlier key; refused when
    /// `MAX_DEVICES` devices are trusted already.
    pub fn trust(&mut self, id: &[u8; 16], key: &[u8]) -> (r: Result<(), PairingError>)
        requires
            old(self).wf(),
        ensures
            final(self).wf(),
            final(self).credentials() == old(self).credentials(),
            old(self).devices().len() >= 64 ==> r == Err::<(), PairingError>(
                PairingError::DeviceLimit,
            ) && final(self).devices() == old(self).devices(),
            old(self).devices().len() < 64 ==> r == Ok::<(), PairingError>(()) && forall|
                q: Seq<char>,
            |
                #![trigger lookup(final(self).devices(), q)]
                lookup(final(self).devices(), q) == if q == hex_lower(id@) {
                    Some(hex_lower(key@))
                } else {
                    lookup(old(self).devices(), q)
                },
    {
        if self.devices.len() >= MAX_DEVICES {
            return Err(PairingError::DeviceLimit);
        }
        let ids = id.as_slice();
        assert(ids@ == id@);
        let name = hex_encode(ids);
        let value = hex_encode(key);
        self.insert(name, value);
        Ok(())
    }

    /// Forgets every trusted device.
    pub fn forget_all(&mut self)
        ensures
            final(self).wf(),
            final(self).credentials() == old(self).credentials(),
            final(self).devices() == Seq::<DeviceEntry>::empty(),
    {
        self.devices.clear();
        assert(self.devices() =~= Seq::<DeviceEntry>::empty());
    }
}

/// A device trusted with a key is then found with exactly that key.
pub proof fn lemma_trust_then_trusted(e: Seq<DeviceEntry>, id: Seq<u8>, key: Seq<u8>, after: Seq<DeviceEntry>)
    requires
        forall|q: Seq<char>|
            #![trigger lookup(after, q)]
            lookup(after, q) == if q == hex_lower(id) {
                Some(hex_lower(key))
            } else {
                lookup(e, q)
            },
    ensures
        lookup(after, hex_lower(id)) == Some(hex_lower(key)),
        hex_decode_spec(encode_utf8(hex_lower(key))) == Some(key),
{
    lemma_hex_roundtrip(key);
}

spec fn hex_digit_byte(v: u8) -> u8 {
    if v < 10 {
        (48 + v) as u8
    } else {
        (87 + v) as u8
    }
}

spec fn hex_bytes(data: Seq<u8>) -> Seq<u8>
    decreases data.len(),
{
    if data.len() == 0 {
        seq![]
    } else {
        seq![hex_digit_byte(data[0] / 16), hex_digit_byte(data[0] % 16)] + hex_bytes(
            data.drop_first(),
        )
    }
}

proof fn lemma_hex_chars(data: Seq<u8>)
    ensures
        hex_lower(data).len() == 2 * data.len(),
        hex_bytes(data).len() == 2 * data.len(),
        forall|i: int|
            0 <= i < hex_lower(data).len() ==> '\0' <= #[trigger] hex_lower(data)[i] <= '\u{7f}'
                && hex_lower(data)[i] as u8 == hex_bytes(data)[i],
    decreases data.len(),
{
    if data.len() > 0 {
        let rest = data.drop_first();
        lemma_hex_chars(rest);
        let h = hex_lower(data);
        let b = hex_bytes(data);
        assert forall|i: int|
            0 <= i < h.len() implies '\0' <= #[trigger] h[i] <= '\u{7f}' && h[i] as u8 == b[i] by {
            if i >= 2 {
                assert(h[i] == hex_lower(rest)[i - 2]);
                assert(b[i] == hex_bytes(rest)[i - 2]);
            }
        }
    }
}

proof fn lemma_hex_decode_bytes(data: Seq<u8>)
    ensures
        hex_decode_spec(hex_bytes(data)) == Some(data),
    decreases data.len(),
{
    if data.len() > 0 {
        let rest = data.drop_first();
        lemma_hex_chars(data);
        lemma_hex_decode_bytes(rest);
        let b = hex_bytes(data);
        assert(b.skip(2) =~= hex_bytes(rest));
        let hi = data[0] / 16;
        let lo = data[0] % 16;
        assert(hex_value(hex_digit_byte(hi)) == Some(hi));
        assert(hex_value(hex_digit_byte(lo)) == Some(lo));
        assert((hi * 16 + lo) as u8 == data[0]);
        assert(seq![data[0]] + rest =~= data);
    } else {
        assert(hex_bytes(data) =~= Seq::<u8>::empty());
    }
}

/// Decoding the hexadecimal text of some bytes gives those bytes back.
pub proof fn lemma_hex_roundtrip(key: Seq<u8>)
    ensures
        hex_decode_spec(encode_utf8(hex_lower(key))) == Some(key),
{
    lemma_hex_chars(key);
    let h = hex_lower(key);
    assert(vstd::utf8::is_ascii_chars(h));
    vstd::utf8::is_ascii_chars_encode_utf8(h);
    assert(encode_utf8(h) =~= hex_bytes(key));
    lemma_hex_decode_bytes(key);
}

/// Credentials stored as their hexadecimal text read back as they were, for any
/// certificate and key and a 16-byte host id.
pub proof fn lemma_stored_credentials_roundtrip(host_id: Seq<u8>, cert: Seq<u8>, key: Seq<u8>)
    requires
        host_id.len() == 16,
    ensures
        stored_credentials(hex_lower(host_id), hex_lower(cert), hex_lower(key)) == Ok::<
            (Seq<u8>, Seq<u8>, Seq<u8>),
            PairingError,
        >((host_id, cert, key)),
{
    lemma_hex_roundtrip(host_id);
    lemma_hex_roundtrip(cert);
    lemma_hex_roundtrip(key);
}

} // verus!
