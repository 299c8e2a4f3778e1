//! The client core: session bootstrap, login, authenticated GET/PUT, and
//! hybrid payload encryption.
//!
//! A `Client` owns the user's account, its transport instance and the
//! request registry.  The shared content-addressed store is passed in by the
//! caller, so several clients — and several devices in a test — can work
//! against one store.  The background worker that pumps the transport, and
//! the condition-variable plumbing that blocks a waiter, live outside the
//! library with the threads; a `ResponseGetter` here pumps the transport
//! once and reads the delivered slot.

use vstd::prelude::*;
use vstd::slice::{slice_subrange, slice_to_vec};
use vstd::string::StringSliceAdditionalSpecFns;
use crate::account::{
    decrypt_account_spec, encrypt_account_spec, honest_enc_keys, identity_name_spec,
    network_id_spec, Account, AccountV, IdentityV,
};
use crate::codec::{chunk_spec, copy_bytes, read_chunk, read_chunk_spec, write_chunk};
use crate::crypto::{
    aes256_cbc_decrypt, aes256_cbc_encrypt, aes_decrypt_of, box_open, box_open_of, box_seal,
    random_bytes, sha256_hash, sha256_of, sha512_of,
};
use crate::errors::ClientError;
use crate::name::{Name, Nonce, NONCE_BYTES};
use crate::registry::{complete_spec, take_result_spec, RequestRegistry, SlotV};
use crate::store::{
    decode_immutable_spec, decode_structured_spec, immutable_bytes_spec,
    lemma_immutable_roundtrip, lemma_store_put_frame, lemma_store_put_get,
    lemma_structured_roundtrip, record_bytes_spec, record_name_spec, store_get_spec,
    store_put_spec, structured_bytes_spec, ImmutableData, Record, Store, StructuredData,
    StructuredDataV, IMMUTABLE_DATA_TAG, STRUCTURED_DATA_TAG,
};
use crate::transport::{run_spec, Transport, TransportV};

verus! {

/// The hybrid envelope: the sealed key block, then the symmetric
/// ciphertext, each as one chunk.
pub open spec fn envelope_bytes_spec(asym: Seq<u8>, sym: Seq<u8>) -> Seq<u8> {
    chunk_spec(asym) + chunk_spec(sym)
}

/// Parsing the envelope: exactly two chunks.
pub open spec fn decode_envelope_spec(data: Seq<u8>) -> Option<(Seq<u8>, Seq<u8>)> {
    match read_chunk_spec(data, 0) {
        None => None,
        Some((asym, p1)) => match read_chunk_spec(data, p1) {
            None => None,
            Some((sym, p2)) => if p2 == data.len() {
                Some((asym, sym))
            } else {
                None
            },
        },
    }
}

/// Reading an envelope back from where its encoding starts yields its two
/// parts.
pub proof fn lemma_envelope_roundtrip(asym: Seq<u8>, sym: Seq<u8>)
    requires
        asym.len() <= u64::MAX,
        sym.len() <= u64::MAX,
    ensures
        decode_envelope_spec(envelope_bytes_spec(asym, sym)) == Some((asym, sym)),
{
    let data = envelope_bytes_spec(asym, sym);
    assert(data.subrange(0, data.len() as int) =~= chunk_spec(asym) + chunk_spec(sym));
    crate::codec::lemma_read_chunk_at(data, 0, asym, chunk_spec(sym));
    let p1 = 0 + 8 + asym.len() as int;
    assert(data.subrange(p1, data.len() as int) =~= chunk_spec(sym) + Seq::<u8>::empty());
    crate::codec::lemma_read_chunk_at(data, p1, sym, Seq::<u8>::empty());
}

/// The view of an optional nonce argument.
pub open spec fn opt_nonce_view(n: Option<&Nonce>) -> Option<Seq<u8>> {
    match n {
        Some(x) => Some(x@),
        None => None,
    }
}

/// The nonce a hybrid operation uses: the explicit one, or the first
/// `NONCE_BYTES` bytes of the hash of the owner's public name.
pub open spec fn effective_nonce_spec(owner_name: Seq<u8>, nonce_opt: Option<Seq<u8>>) -> Seq<
    u8,
> {
    match nonce_opt {
        Some(n) => n,
        None => sha256_of(owner_name).take(NONCE_BYTES as int),
    }
}

/// What hybrid decryption yields for an identity, an envelope and a nonce
/// choice: parse the envelope, open the sealed key block, check its width,
/// then decrypt the symmetric part.  `None` on any failure.
pub open spec fn hybrid_decrypt_spec(
    maid: IdentityV,
    data: Seq<u8>,
    nonce_opt: Option<Seq<u8>>,
) -> Option<Seq<u8>> {
    let n = effective_nonce_spec(identity_name_spec(maid), nonce_opt);
    match decode_envelope_spec(data) {
        None => None,
        Some((asym, sym)) => match box_open_of(asym, n, maid.enc_pub, maid.enc_sec) {
            None => None,
            Some(kiv) => if kiv.len() == 48 {
                aes_decrypt_of(kiv.subrange(0, 32), kiv.subrange(32, 48), sym)
            } else {
                None
            },
        },
    }
}

/// The outcome a login against a store must have: a missing session pointer
/// or a failed decryption is `InvalidCredentials` (indistinguishable to the
/// caller); a pointer whose current version is absent or malformed is
/// `CorruptSession`.
pub open spec fn login_result_spec(
    store: Seq<(Seq<u8>, Seq<u8>)>,
    keyword: Seq<u8>,
    pin: u32,
    password: Seq<u8>,
) -> Result<AccountV, ClientError> {
    match store_get_spec(store, network_id_spec(keyword, pin)) {
        None => Err(ClientError::InvalidCredentials),
        Some(sd_bytes) => match decode_structured_spec(sd_bytes) {
            None => Err(ClientError::CorruptSession),
            Some(sd) => if sd.value.len() == 0 {
                Err(ClientError::CorruptSession)
            } else {
                match store_get_spec(store, sd.value.last()) {
                    None => Err(ClientError::CorruptSession),
                    Some(im_bytes) => match decode_immutable_spec(im_bytes) {
                        None => Err(ClientError::CorruptSession),
                        Some(packet) => match decrypt_account_spec(packet, password, pin) {
                            None => Err(ClientError::InvalidCredentials),
                            Some(a) => Ok(a),
                        },
                    },
                }
            },
        },
    }
}

/// The session records that `create_account` publishes log back in:
/// against the store it leaves behind, a login with the same three secrets
/// recovers exactly the created account.  The hypotheses are what
/// `create_account` ensures of its output — name widths and the packet's
/// decryptability — plus one exclusion: the locator and the packet hash
/// must differ, which fails only on a hash collision.
pub proof fn lemma_created_session_logs_in(
    store0: Seq<(Seq<u8>, Seq<u8>)>,
    a: AccountV,
    keyword: Seq<u8>,
    pin: u32,
    password: Seq<u8>,
)
    requires
        a.wf(),
        decrypt_account_spec(encrypt_account_spec(a, password, pin), password, pin) == Some(a),
        encrypt_account_spec(a, password, pin).len() <= u64::MAX,
        sha512_of(encrypt_account_spec(a, password, pin)).len() == 64,
        network_id_spec(keyword, pin).len() == 64,
        identity_name_spec(a.maid).len() == 64,
        network_id_spec(keyword, pin) != sha512_of(encrypt_account_spec(a, password, pin)),
    ensures
        login_result_spec(
            store_put_spec(
                store_put_spec(
                    store_put_spec(
                        store0,
                        identity_name_spec(a.maid),
                        crate::account::public_identity_bytes_spec(a.maid),
                    ),
                    sha512_of(encrypt_account_spec(a, password, pin)),
                    immutable_bytes_spec(encrypt_account_spec(a, password, pin)),
                ),
                network_id_spec(keyword, pin),
                structured_bytes_spec(
                    StructuredDataV {
                        identifier: network_id_spec(keyword, pin),
                        owner: identity_name_spec(a.maid),
                        value: seq![sha512_of(encrypt_account_spec(a, password, pin))],
                    },
                ),
            ),
            keyword,
            pin,
            password,
        ) == Ok::<AccountV, ClientError>(a),
{
    let packet = encrypt_account_spec(a, password, pin);
    let packet_name = sha512_of(packet);
    let user_id = network_id_spec(keyword, pin);
    let owner = identity_name_spec(a.maid);
    let sdv = StructuredDataV { identifier: user_id, owner, value: seq![packet_name] };
    let s1 = store_put_spec(store0, owner, crate::account::public_identity_bytes_spec(a.maid));
    let s2 = store_put_spec(s1, packet_name, immutable_bytes_spec(packet));
    lemma_store_put_get(s2, user_id, structured_bytes_spec(sdv));
    assert forall|i: int| 0 <= i < sdv.value.len() implies (#[trigger] sdv.value[i]).len()
        == 64 by {
        assert(sdv.value[i] == packet_name);
    }
    lemma_structured_roundtrip(sdv);
    assert(sdv.value.last() == packet_name);
    lemma_store_put_frame(s2, user_id, structured_bytes_spec(sdv), packet_name);
    lemma_store_put_get(s1, packet_name, immutable_bytes_spec(packet));
    lemma_immutable_roundtrip(packet);
}

/// Every id the registry or the response queue holds was issued before
/// `next_id`.
pub open spec fn ids_below(m: Map<u64, SlotV>, t: TransportV) -> bool {
    &&& forall|id: u64| m.contains_key(id) ==> id < t.next_id
    &&& forall|i: int| 0 <= i < t.pending.len() ==> (#[trigger] t.pending[i]).0 < t.next_id
}

/// Delivering queued responses adds no id at or above the issue bound.
pub proof fn lemma_run_spec_ids(m: Map<u64, SlotV>, pending: Seq<(u64, Option<Seq<u8>>)>, bound: u64)
    requires
        forall|id: u64| m.contains_key(id) ==> id < bound,
        forall|i: int| 0 <= i < pending.len() ==> (#[trigger] pending[i]).0 < bound,
    ensures
        forall|id: u64| run_spec(m, pending).contains_key(id) ==> id < bound,
    decreases pending.len(),
{
    if pending.len() > 0 {
        let m2 = complete_spec(m, pending[0].0, pending[0].1);
        assert forall|id: u64| m2.contains_key(id) implies id < bound by {
            if id != pending[0].0 {
                assert(m.contains_key(id));
            }
        }
        assert forall|i: int|
            0 <= i < pending.drop_first().len() implies (#[trigger] pending.drop_first()[i]).0
            < bound by {
            assert(pending.drop_first()[i] == pending[i + 1]);
        }
        lemma_run_spec_ids(m2, pending.drop_first(), bound);
        assert(run_spec(m, pending) == run_spec(m2, pending.drop_first()));
    }
}

/// Pumping a queue that holds one response delivers exactly it.
pub proof fn lemma_run_spec_single(m: Map<u64, SlotV>, p: (u64, Option<Seq<u8>>))
    ensures
        run_spec(m, seq![p]) == complete_spec(m, p.0, p.1),
{
    let s = seq![p];
    assert(s.drop_first() =~= Seq::<(u64, Option<Seq<u8>>)>::empty());
    assert(run_spec(m, s) == run_spec(complete_spec(m, p.0, p.1), s.drop_first()));
}

/// Synchronous handle over one pending request id.
pub struct ResponseGetter {
    request_id: u64,
}

/// Orchestrator of the session lifecycle: owns the account, the transport
/// instance and the request registry.
pub struct Client {
    account: Account,
    transport: Transport,
    registry: RequestRegistry,
}

impl Client {
    pub closed spec fn account_view(&self) -> AccountV {
        self.account@
    }

    pub closed spec fn transport_view(&self) -> TransportV {
        self.transport@
    }

    pub closed spec fn registry_view(&self) -> Map<u64, SlotV> {
        self.registry@
    }

    /// A valid client: well-formed keys, and no id on record that the
    /// transport has not issued.
    pub open spec fn wf(&self) -> bool {
        &&& self.account_view().wf()
        &&& ids_below(self.registry_view(), self.transport_view())
    }

    /// Creates an account and publishes the session: the public identity
    /// record under the identity's name, the encrypted session packet under
    /// the hash of its payload, and the session pointer under the locator
    /// derived from `(keyword, pin)`.  With a fresh transport the id space
    /// cannot run out, so this always succeeds.
    pub fn create_account(
        keyword: &str,
        pin: u32,
        password: &[u8],
        store: &mut Store,
    ) -> (r: Result<Client, ClientError>)
        ensures
            r is Ok,
            r matches Ok(c) ==> ({
                let maid = c.account_view().maid;
                let packet = encrypt_account_spec(c.account_view(), password@, pin);
                let packet_name = sha512_of(packet);
                let user_id = network_id_spec(keyword.spec_bytes(), pin);
                &&& c.wf()
                &&& honest_enc_keys(c.account_view().maid)
                &&& c.account_view().legacy.len() == 0
                &&& decrypt_account_spec(packet, password@, pin) == Some(c.account_view())
                &&& packet.len() <= u64::MAX
                &&& packet_name.len() == 64
                &&& user_id.len() == 64
                &&& identity_name_spec(maid).len() == 64
                &&& final(store)@ == store_put_spec(
                    store_put_spec(
                        store_put_spec(
                            old(store)@,
                            identity_name_spec(maid),
                            crate::account::public_identity_bytes_spec(maid),
                        ),
                        packet_name,
                        immutable_bytes_spec(packet),
                    ),
                    user_id,
                    structured_bytes_spec(
                        StructuredDataV {
                            identifier: user_id,
                            owner: identity_name_spec(maid),
                            value: seq![packet_name],
                        },
                    ),
                )
                &&& c.transport_view().pending.len() == 0
                &&& c.registry_view() == Map::<u64, SlotV>::empty()
            }),
    {
        let account = Account::new(None);
        let mut transport = Transport::new();
        let mut registry = RequestRegistry::new();

        // Bootstrap: publish the public identity so later signed PUTs can be
        // verified.  No response is expected.
        let maid_name = account.get_maid().name();
        let pub_bytes = account.get_maid().serialise_public();
        transport.unauthorised_put(store, &maid_name, pub_bytes);

        // The encrypted session packet, stored as an immutable record.
        let packet = match account.encrypt(password, pin) {
            Ok(ct) => ct,
            Err(e) => {
                return Err(e);
            },
        };
        // The packet lives in a Vec, so its length fits the length field.
        let packet_len: usize = packet.len();
        let immutable = ImmutableData::new(packet);
        let packet_name = immutable.name();
        let im_bytes = immutable.serialised_contents();
        let id1 = match transport.put(store, &packet_name, im_bytes) {
            Ok(id) => id,
            Err(e) => {
                proof {
                    assert(false);
                }
                return Err(e);
            },
        };
        registry.insert_pending(id1);
        let ghost m1 = registry@;
        let ghost pend1 = transport@.pending;
        transport.run(&mut registry);
        proof {
            assert(pend1 =~= seq![(id1, Some(Seq::<u8>::empty()))]);
            lemma_run_spec_single(m1, (id1, Some(Seq::<u8>::empty())));
            assert(registry@ == complete_spec(m1, id1, Some(Seq::<u8>::empty())));
            assert(registry@ == m1.insert(id1, SlotV::Ready(Seq::<u8>::empty())));
        }
        match registry.take(id1) {
            Ok(_) => {},
            Err(_) => {
                proof {
                    assert(false);
                }
                return Err(ClientError::ResponseFailure);
            },
        };

        // The session pointer: a structured record at the session locator
        // whose version list points at the packet.
        let user_id = Account::generate_network_id(keyword, pin);
        let mut versions: Vec<Name> = Vec::new();
        versions.push(packet_name.clone());
        let sd = StructuredData::new(user_id, maid_name, versions);
        let sd_bytes = sd.serialised_contents();
        proof {
            assert(sd@.value =~= seq![sha512_of(immutable@)]);
        }
        let id2 = match transport.put(store, sd.identifier(), sd_bytes) {
            Ok(id) => id,
            Err(e) => {
                proof {
                    assert(false);
                }
                return Err(e);
            },
        };
        proof {
            assert(!registry@.contains_key(id2));
        }
        registry.insert_pending(id2);
        let ghost m2 = registry@;
        let ghost pend2 = transport@.pending;
        transport.run(&mut registry);
        proof {
            assert(pend2 =~= seq![(id2, Some(Seq::<u8>::empty()))]);
            lemma_run_spec_single(m2, (id2, Some(Seq::<u8>::empty())));
            assert(registry@ == complete_spec(m2, id2, Some(Seq::<u8>::empty())));
            assert(registry@ == m2.insert(id2, SlotV::Ready(Seq::<u8>::empty())));
        }
        match registry.take(id2) {
            Ok(_) => {},
            Err(_) => {
                proof {
                    assert(false);
                }
                return Err(ClientError::ResponseFailure);
            },
        };

        let client = Client { account, transport, registry };
        proof {
            assert(client.registry_view() =~= Map::<u64, SlotV>::empty());
        }
        Ok(client)
    }

    /// Logs in with the three secrets: fetches the session pointer at the
    /// locator, then the current session packet, and decrypts it.  The
    /// lookups run over a throwaway transport; the returned client gets a
    /// fresh one bound to the recovered identity.
    pub fn log_in(
        keyword: &str,
        pin: u32,
        password: &[u8],
        store: &Store,
    ) -> (r: Result<Client, ClientError>)
        ensures
            (match login_result_spec(store@, keyword.spec_bytes(), pin, password@) {
                Ok(a) => r matches Ok(c) && c.account_view() == a && c.wf()
                    && c.transport_view().pending.len() == 0 && c.registry_view() == Map::<
                    u64,
                    SlotV,
                >::empty(),
                Err(e) => r matches Err(e2) && e2 == e,
            }),
    {
        let user_id = Account::generate_network_id(keyword, pin);
        let mut transport = Transport::new();
        let mut registry = RequestRegistry::new();

        let id1 = match transport.get(store, STRUCTURED_DATA_TAG, &user_id) {
            Ok(id) => id,
            Err(e) => {
                proof {
                    assert(false);
                }
                return Err(e);
            },
        };
        registry.insert_pending(id1);
        let ghost m1 = registry@;
        let ghost pend1 = transport@.pending;
        let ghost sd_lookup = store_get_spec(store@, user_id@);
        transport.run(&mut registry);
        proof {
            assert(pend1 =~= seq![(id1, sd_lookup)]);
            lemma_run_spec_single(m1, (id1, sd_lookup));
            assert(registry@ == complete_spec(m1, id1, sd_lookup));
        }
        let raw = match registry.take(id1) {
            Ok(b) => b,
            Err(_) => {
                return Err(ClientError::InvalidCredentials);
            },
        };
        let sd = match StructuredData::deserialise(raw.as_slice()) {
            Some(sd) => sd,
            None => {
                return Err(ClientError::CorruptSession);
            },
        };
        let latest = match sd.latest_version() {
            Some(n) => n,
            None => {
                return Err(ClientError::CorruptSession);
            },
        };

        let id2 = match transport.get(store, IMMUTABLE_DATA_TAG, latest) {
            Ok(id) => id,
            Err(e) => {
                proof {
                    assert(false);
                }
                return Err(e);
            },
        };
        proof {
            assert(!registry@.contains_key(id2));
        }
        registry.insert_pending(id2);
        let ghost m2 = registry@;
        let ghost pend2 = transport@.pending;
        let ghost im_lookup = store_get_spec(store@, sd@.value.last());
        transport.run(&mut registry);
        proof {
            assert(pend2 =~= seq![(id2, im_lookup)]);
            lemma_run_spec_single(m2, (id2, im_lookup));
            assert(registry@ == complete_spec(m2, id2, im_lookup));
        }
        let raw2 = match registry.take(id2) {
            Ok(b) => b,
            Err(_) => {
                return Err(ClientError::CorruptSession);
            },
        };
        let immutable = match ImmutableData::deserialise(raw2.as_slice()) {
            Some(d) => d,
            None => {
                return Err(ClientError::CorruptSession);
            },
        };
        let account = match Account::decrypt(immutable.value().as_slice(), password, pin) {
            Ok(a) => a,
            Err(_) => {
                return Err(ClientError::InvalidCredentials);
            },
        };

        // The throwaway transport is dropped here; the real client starts
        // with a fresh transport bound to the recovered identity.
        let client = Client { account, transport: Transport::new(), registry: RequestRegistry::new() };
        proof {
            assert(client.registry_view() =~= Map::<u64, SlotV>::empty());
        }
        Ok(client)
    }

    /// Advances the transport once: every queued response is delivered to
    /// the registry.  The background driver calls this periodically so that
    /// responses arrive while no caller is active.
    pub fn run_once(&mut self)
        requires
            old(self).wf(),
        ensures
            final(self).wf(),
            final(self).account_view() == old(self).account_view(),
            final(self).transport_view().pending.len() == 0,
            final(self).transport_view().next_id == old(self).transport_view().next_id,
            final(self).registry_view() == run_spec(
                old(self).registry_view(),
                old(self).transport_view().pending,
            ),
    {
        self.transport.run(&mut self.registry);
        proof {
            lemma_run_spec_ids(
                old(self).registry_view(),
                old(self).transport_view().pending,
                old(self).transport_view().next_id,
            );
        }
    }

    /// The owner's public name: a 64-byte `Name`.
    pub fn get_owner(&self) -> (r: Name)
        ensures
            r@ == identity_name_spec(self.account_view().maid),
            r@.len() == 64,
    {
        self.account.get_maid().name()
    }

    /// Dispatches a PUT of `sendable` and returns the handle for its
    /// response; the issued id is registered as pending.
    pub fn put(&mut self, sendable: &Record, store: &mut Store) -> (r: Result<
        ResponseGetter,
        ClientError,
    >)
        requires
            old(self).wf(),
        ensures
            final(self).wf(),
            final(self).account_view() == old(self).account_view(),
            r is Ok <==> old(self).transport_view().next_id < u64::MAX,
            r matches Ok(rg) ==> ({
                let id = old(self).transport_view().next_id;
                &&& rg.id_spec() == id
                &&& final(self).transport_view().next_id == id + 1
                &&& final(self).transport_view().pending == old(
                    self,
                ).transport_view().pending.push((id, Some(Seq::<u8>::empty())))
                &&& final(self).registry_view() == old(self).registry_view().insert(
                    id,
                    SlotV::Pending,
                )
                &&& final(store)@ == store_put_spec(
                    old(store)@,
                    record_name_spec(*sendable),
                    record_bytes_spec(*sendable),
                )
            }),
            r matches Err(e) ==> e == ClientError::Io && final(self).registry_view() == old(
                self,
            ).registry_view() && final(store)@ == old(store)@,
    {
        let name = sendable.name();
        let contents = sendable.serialised_contents();
        match self.transport.put(store, &name, contents) {
            Ok(id) => {
                self.registry.insert_pending(id);
                Ok(ResponseGetter { request_id: id })
            },
            Err(e) => Err(e),
        }
    }

    /// Dispatches a GET for the record under `name` and returns the handle
    /// for its response; the issued id is registered as pending.
    pub fn get(&mut self, tag_id: u64, name: &Name, store: &Store) -> (r: Result<
        ResponseGetter,
        ClientError,
    >)
        requires
            old(self).wf(),
        ensures
            final(self).wf(),
            final(self).account_view() == old(self).account_view(),
            r is Ok <==> old(self).transport_view().next_id < u64::MAX,
            r matches Ok(rg) ==> ({
                let id = old(self).transport_view().next_id;
                &&& rg.id_spec() == id
                &&& final(self).transport_view().next_id == id + 1
                &&& final(self).transport_view().pending == old(
                    self,
                ).transport_view().pending.push((id, store_get_spec(store@, name@)))
                &&& final(self).registry_view() == old(self).registry_view().insert(
                    id,
                    SlotV::Pending,
                )
            }),
            r matches Err(e) ==> e == ClientError::Io && final(self).registry_view() == old(
                self,
            ).registry_view(),
    {
        match self.transport.get(store, tag_id, name) {
            Ok(id) => {
                self.registry.insert_pending(id);
                Ok(ResponseGetter { request_id: id })
            },
            Err(e) => Err(e),
        }
    }

    /// Hybrid encryption: a fresh random AES key and IV encrypt the
    /// payload; the key block is sealed to the owner's own key pair under
    /// the effective nonce.  For an identity whose encryption halves come
    /// from one seed — every identity this library generates — the result
    /// decrypts back to the payload under the same nonce choice, whatever
    /// key material was drawn; for key material of unknown origin (say, a
    /// tampered session packet) the sealing primitive itself gives no such
    /// promise, so neither does this contract.
    pub fn hybrid_encrypt(&self, data_to_encrypt: &[u8], nonce_opt: Option<&Nonce>) -> (r:
        Result<Vec<u8>, ClientError>)
        requires
            self.wf(),
            nonce_opt matches Some(n) ==> n.wf(),
        ensures
            r is Ok,
            r matches Ok(ct) ==> (honest_enc_keys(self.account_view().maid)
                ==> hybrid_decrypt_spec(
                self.account_view().maid,
                ct@,
                opt_nonce_view(nonce_opt),
            ) == Some(data_to_encrypt@)),
    {
        let nonce: Vec<u8> = match nonce_opt {
            Some(n) => copy_bytes(n.as_bytes()),
            None => {
                let owner = self.account.get_maid().name();
                let digest = sha256_hash(owner.as_bytes().as_slice());
                slice_to_vec(slice_subrange(digest.as_slice(), 0, NONCE_BYTES))
            },
        };
        proof {
            assert(nonce@ =~= effective_nonce_spec(
                identity_name_spec(self.account_view().maid),
                opt_nonce_view(nonce_opt),
            ));
        }
        let key = random_bytes(32);
        let iv = random_bytes(16);
        let sym = aes256_cbc_encrypt(key.as_slice(), iv.as_slice(), data_to_encrypt);
        let mut key_iv: Vec<u8> = Vec::new();
        key_iv.extend_from_slice(key.as_slice());
        key_iv.extend_from_slice(iv.as_slice());
        proof {
            assert(key_iv@ =~= key@ + iv@);
            assert(key_iv@.subrange(0, 32) =~= key@);
            assert(key_iv@.subrange(32, 48) =~= iv@);
        }
        let asym = box_seal(
            key_iv.as_slice(),
            nonce.as_slice(),
            self.account.get_maid().encrypt_public_key().as_slice(),
            self.account.get_maid().encrypt_secret_key().as_slice(),
        );
        let asym_len: usize = asym.len();
        let sym_len: usize = sym.len();
        let mut out: Vec<u8> = Vec::new();
        write_chunk(&mut out, asym.as_slice());
        write_chunk(&mut out, sym.as_slice());
        proof {
            assert(out@ =~= envelope_bytes_spec(asym@, sym@));
            lemma_envelope_roundtrip(asym@, sym@);
        }
        Ok(out)
    }

    /// Hybrid decryption: the inverse of `hybrid_encrypt`.  Returns `None`
    /// on any parse, unseal or cipher failure, or when the unsealed key
    /// block is not exactly 48 bytes — in particular under a nonce choice
    /// other than the one used to encrypt.
    pub fn hybrid_decrypt(&self, data_to_decrypt: &[u8], nonce_opt: Option<&Nonce>) -> (r:
        Option<Vec<u8>>)
        requires
            self.wf(),
            nonce_opt matches Some(n) ==> n.wf(),
        ensures
            (match r {
                Some(v) => hybrid_decrypt_spec(
                    self.account_view().maid,
                    data_to_decrypt@,
                    opt_nonce_view(nonce_opt),
                ) == Some(v@),
                None => hybrid_decrypt_spec(
                    self.account_view().maid,
                    data_to_decrypt@,
                    opt_nonce_view(nonce_opt),
                ) is None,
            }),
    {
        let nonce: Vec<u8> = match nonce_opt {
            Some(n) => copy_bytes(n.as_bytes()),
            None => {
                let owner = self.account.get_maid().name();
                let digest = sha256_hash(owner.as_bytes().as_slice());
                slice_to_vec(slice_subrange(digest.as_slice(), 0, NONCE_BYTES))
            },
        };
        proof {
            assert(nonce@ =~= effective_nonce_spec(
                identity_name_spec(self.account_view().maid),
                opt_nonce_view(nonce_opt),
            ));
        }
        let (asym, p1) = match read_chunk(data_to_decrypt, 0) {
            Some(x) => x,
            None => {
                return None;
            },
        };
        let (sym, p2) = match read_chunk(data_to_decrypt, p1) {
            Some(x) => x,
            None => {
                return None;
            },
        };
        if p2 != data_to_decrypt.len() {
            return None;
        }
        let key_iv = match box_open(
            asym.as_slice(),
            nonce.as_slice(),
            self.account.get_maid().encrypt_public_key().as_slice(),
            self.account.get_maid().encrypt_secret_key().as_slice(),
        ) {
            Some(k) => k,
            None => {
                return None;
            },
        };
        if key_iv.len() != 48 {
            return None;
        }
        let key = slice_subrange(key_iv.as_slice(), 0, 32);
        let iv = slice_subrange(key_iv.as_slice(), 32, 48);
        aes256_cbc_decrypt(key, iv, sym.as_slice())
    }
}

impl ResponseGetter {
    /// The request id this handle awaits.
    pub closed spec fn id_spec(&self) -> u64 {
        self.request_id
    }

    /// Pumps the transport once — as the background driver would — and
    /// takes the delivered slot: the payload, the delivered failure, or
    /// `Timeout` if no response for this id was queued.  The slot is
    /// removed either way.
    pub fn get(&self, client: &mut Client) -> (r: Result<Vec<u8>, ClientError>)
        requires
            old(client).wf(),
        ensures
            final(client).wf(),
            final(client).account_view() == old(client).account_view(),
            final(client).transport_view().pending.len() == 0,
            final(client).transport_view().next_id == old(client).transport_view().next_id,
            ({
                let delivered = run_spec(
                    old(client).registry_view(),
                    old(client).transport_view().pending,
                );
                &&& final(client).registry_view() == delivered.remove(self.id_spec())
                &&& (match take_result_spec(delivered, self.id_spec()) {
                    Ok(b) => r matches Ok(v) && v@ == b,
                    Err(e) => r matches Err(e2) && e2 == e,
                })
            }),
    {
        client.transport.run(&mut client.registry);
        proof {
            lemma_run_spec_ids(
                old(client).registry_view(),
                old(client).transport_view().pending,
                old(client).transport_view().next_id,
            );
        }
        client.registry.take(self.request_id)
    }

    /// Abandons the request: discards its slot, delivered or not.
    pub fn cancel(&self, client: &mut Client)
        ensures
            old(client).wf() ==> final(client).wf(),
            final(client).account_view() == old(client).account_view(),
            final(client).transport_view() == old(client).transport_view(),
            final(client).registry_view() == old(client).registry_view().remove(self.id_spec()),
    {
        client.registry.cancel(self.request_id);
    }
}

} // verus!
