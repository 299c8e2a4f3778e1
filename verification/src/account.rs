//! The user's long-lived identity and its encrypted session packet.
//!
//! An `Account` holds the identity (two key pairs) plus a legacy-identity
//! list kept only for the serial form.  It serialises itself canonically,
//! derives the session locator from `(keyword, pin)`, and encrypts or
//! decrypts its serial form with a key derived from `(password, pin)`.

use vstd::prelude::*;
use vstd::string::StringSliceAdditionalSpecFns;
use crate::codec::{
    chunk_spec, lemma_read_chunk_at, lemma_read_list_at, list_spec, read_chunk, read_chunk_spec,
    read_list, read_list_spec, write_chunk, write_list,
};
use crate::crypto::{
    aes256_cbc_decrypt, aes256_cbc_encrypt, aes_decrypt_of, aes_encrypt_of, box_keypair_from_seed,
    box_keypair_of, honest_box_keys, init_crypto, kdf_derive, kdf_of, random_bytes, sha512_hash,
    sha512_of, sign_keypair_from_seed,
};
use crate::errors::ClientError;
use crate::name::Name;

verus! {

/// Iteration count of the password-based key derivation.
pub const KDF_ROUNDS: u32 = 10000;

/// Mathematical model of an identity: the four key halves.
pub ghost struct IdentityV {
    pub sign_pub: Seq<u8>,
    pub sign_sec: Seq<u8>,
    pub enc_pub: Seq<u8>,
    pub enc_sec: Seq<u8>,
}

impl IdentityV {
    /// Key halves have their fixed sizes.
    pub open spec fn wf(self) -> bool {
        &&& self.sign_pub.len() == 32
        &&& self.sign_sec.len() == 64
        &&& self.enc_pub.len() == 32
        &&& self.enc_sec.len() == 32
    }
}

/// The identity's encryption halves are one seed's key pair, as
/// `Identity::fresh` draws them; sealing to such keys never hits the
/// degenerate failure case of the sealing primitive.
pub open spec fn honest_enc_keys(v: IdentityV) -> bool {
    honest_box_keys(v.enc_pub, v.enc_sec)
}

/// The public name of an identity: the 64-byte hash over the concatenation
/// of its two public keys.
pub open spec fn identity_name_spec(v: IdentityV) -> Seq<u8> {
    sha512_of(v.sign_pub + v.enc_pub)
}

/// Serial form of an identity: its four key halves as chunks, in order.
pub open spec fn identity_bytes_spec(v: IdentityV) -> Seq<u8> {
    chunk_spec(v.sign_pub) + chunk_spec(v.sign_sec) + chunk_spec(v.enc_pub) + chunk_spec(v.enc_sec)
}

/// Serial form of the public halves only: the publishable record.
pub open spec fn public_identity_bytes_spec(v: IdentityV) -> Seq<u8> {
    chunk_spec(v.sign_pub) + chunk_spec(v.enc_pub)
}

/// Parsing an identity: four chunks with the fixed key sizes, nothing after.
pub open spec fn decode_identity_spec(data: Seq<u8>) -> Option<IdentityV> {
    match read_chunk_spec(data, 0) {
        None => None,
        Some((sign_pub, p1)) => match read_chunk_spec(data, p1) {
            None => None,
            Some((sign_sec, p2)) => match read_chunk_spec(data, p2) {
                None => None,
                Some((enc_pub, p3)) => match read_chunk_spec(data, p3) {
                    None => None,
                    Some((enc_sec, p4)) => {
                        let v = IdentityV { sign_pub, sign_sec, enc_pub, enc_sec };
                        if p4 == data.len() && v.wf() {
                            Some(v)
                        } else {
                            None
                        }
                    },
                },
            },
        },
    }
}

/// The user's long-term asymmetric key material: a signing key pair and a
/// sealed-box encryption key pair.  Secret halves never leave the process.
pub struct Identity {
    sign_pub: Vec<u8>,
    sign_sec: Vec<u8>,
    enc_pub: Vec<u8>,
    enc_sec: Vec<u8>,
}

impl View for Identity {
    type V = IdentityV;

    closed spec fn view(&self) -> IdentityV {
        IdentityV {
            sign_pub: self.sign_pub@,
            sign_sec: self.sign_sec@,
            enc_pub: self.enc_pub@,
            enc_sec: self.enc_sec@,
        }
    }
}

impl Identity {
    pub open spec fn wf(&self) -> bool {
        self@.wf()
    }

    /// Two independent key pairs from a cryptographically secure source.
    pub fn fresh() -> (r: Identity)
        ensures
            r.wf(),
            honest_enc_keys(r@),
    {
        init_crypto();
        let sign_seed = random_bytes(32);
        let enc_seed = random_bytes(32);
        let (sign_pub, sign_sec) = sign_keypair_from_seed(sign_seed.as_slice());
        let (enc_pub, enc_sec) = box_keypair_from_seed(enc_seed.as_slice());
        let r = Identity { sign_pub, sign_sec, enc_pub, enc_sec };
        proof {
            assert(box_keypair_of(enc_seed@) == (r@.enc_pub, r@.enc_sec));
            assert(honest_box_keys(r@.enc_pub, r@.enc_sec));
        }
        r
    }

    pub fn sign_public_key(&self) -> (r: &Vec<u8>)
        ensures
            r@ == self@.sign_pub,
    {
        &self.sign_pub
    }

    pub fn encrypt_public_key(&self) -> (r: &Vec<u8>)
        ensures
            r@ == self@.enc_pub,
    {
        &self.enc_pub
    }

    pub fn encrypt_secret_key(&self) -> (r: &Vec<u8>)
        ensures
            r@ == self@.enc_sec,
    {
        &self.enc_sec
    }

    /// The public name: hash over the concatenation of the public keys.
    pub fn name(&self) -> (r: Name)
        ensures
            r@ == identity_name_spec(self@),
            r@.len() == 64,
    {
        let mut input: Vec<u8> = Vec::new();
        input.extend_from_slice(self.sign_pub.as_slice());
        input.extend_from_slice(self.enc_pub.as_slice());
        proof {
            assert(input@ =~= self@.sign_pub + self@.enc_pub);
        }
        let digest = sha512_hash(input.as_slice());
        Name::from_bytes(digest)
    }

    /// The identity's serial form.
    pub fn serialise(&self) -> (r: Vec<u8>)
        ensures
            r@ == identity_bytes_spec(self@),
    {
        let mut out: Vec<u8> = Vec::new();
        write_chunk(&mut out, self.sign_pub.as_slice());
        write_chunk(&mut out, self.sign_sec.as_slice());
        write_chunk(&mut out, self.enc_pub.as_slice());
        write_chunk(&mut out, self.enc_sec.as_slice());
        proof {
            assert(out@ =~= identity_bytes_spec(self@));
        }
        out
    }

    /// The serial form of the public halves only.
    pub fn serialise_public(&self) -> (r: Vec<u8>)
        ensures
            r@ == public_identity_bytes_spec(self@),
    {
        let mut out: Vec<u8> = Vec::new();
        write_chunk(&mut out, self.sign_pub.as_slice());
        write_chunk(&mut out, self.enc_pub.as_slice());
        proof {
            assert(out@ =~= public_identity_bytes_spec(self@));
        }
        out
    }

    /// Parses an identity from its serial form.
    pub fn deserialise(data: &[u8]) -> (r: Option<Identity>)
        ensures
            (match r {
                Some(id) => decode_identity_spec(data@) == Some(id@) && id.wf(),
                None => decode_identity_spec(data@) is None,
            }),
    {
        match read_chunk(data, 0) {
            None => None,
            Some((sign_pub, p1)) => match read_chunk(data, p1) {
                None => None,
                Some((sign_sec, p2)) => match read_chunk(data, p2) {
                    None => None,
                    Some((enc_pub, p3)) => match read_chunk(data, p3) {
                        None => None,
                        Some((enc_sec, p4)) => {
                            if p4 == data.len() && sign_pub.len() == 32 && sign_sec.len() == 64
                                && enc_pub.len() == 32 && enc_sec.len() == 32 {
                                Some(Identity { sign_pub, sign_sec, enc_pub, enc_sec })
                            } else {
                                None
                            }
                        },
                    },
                },
            },
        }
    }
}

impl Clone for Identity {
    fn clone(&self) -> (r: Self)
        ensures
            r@ == self@,
    {
        Identity {
            sign_pub: self.sign_pub.clone(),
            sign_sec: self.sign_sec.clone(),
            enc_pub: self.enc_pub.clone(),
            enc_sec: self.enc_sec.clone(),
        }
    }
}

/// Reading an identity back from where its serial form starts yields the
/// identity itself.
pub proof fn lemma_identity_roundtrip(v: IdentityV)
    requires
        v.wf(),
    ensures
        decode_identity_spec(identity_bytes_spec(v)) == Some(v),
{
    let data = identity_bytes_spec(v);
    let r1 = chunk_spec(v.sign_sec) + chunk_spec(v.enc_pub) + chunk_spec(v.enc_sec);
    let r2 = chunk_spec(v.enc_pub) + chunk_spec(v.enc_sec);
    let r3 = chunk_spec(v.enc_sec);
    assert(data.subrange(0, data.len() as int) =~= chunk_spec(v.sign_pub) + r1);
    lemma_read_chunk_at(data, 0, v.sign_pub, r1);
    let p1 = 0 + 8 + v.sign_pub.len() as int;
    assert(data.subrange(p1, data.len() as int) =~= chunk_spec(v.sign_sec) + r2);
    lemma_read_chunk_at(data, p1, v.sign_sec, r2);
    let p2 = p1 + 8 + v.sign_sec.len() as int;
    assert(data.subrange(p2, data.len() as int) =~= chunk_spec(v.enc_pub) + r3);
    lemma_read_chunk_at(data, p2, v.enc_pub, r3);
    let p3 = p2 + 8 + v.enc_pub.len() as int;
    assert(data.subrange(p3, data.len() as int) =~= chunk_spec(v.enc_sec) + Seq::<u8>::empty());
    lemma_read_chunk_at(data, p3, v.enc_sec, Seq::<u8>::empty());
    let p4 = p3 + 8 + v.enc_sec.len() as int;
    assert(p4 == data.len());
}

/// Mathematical model of an account.
pub ghost struct AccountV {
    pub maid: IdentityV,
    pub legacy: Seq<IdentityV>,
}

impl AccountV {
    pub open spec fn wf(self) -> bool {
        &&& self.maid.wf()
        &&& forall|i: int| 0 <= i < self.legacy.len() ==> (#[trigger] self.legacy[i]).wf()
    }
}

/// The views of a sequence of identities.
pub open spec fn identity_views(s: Seq<Identity>) -> Seq<IdentityV> {
    s.map_values(|x: Identity| x@)
}

/// The serial forms of a sequence of identities.
pub open spec fn identities_bytes_spec(ids: Seq<IdentityV>) -> Seq<Seq<u8>> {
    ids.map_values(|v: IdentityV| identity_bytes_spec(v))
}

/// Serial form of an account: the identity as one chunk, then the list of
/// legacy identities, each as one chunk.
pub open spec fn account_bytes_spec(a: AccountV) -> Seq<u8> {
    chunk_spec(identity_bytes_spec(a.maid)) + list_spec(identities_bytes_spec(a.legacy))
}

/// Parsing each list item as an identity; `None` if any item fails.
pub open spec fn decode_identities_spec(items: Seq<Seq<u8>>) -> Option<Seq<IdentityV>>
    decreases items.len(),
{
    if items.len() == 0 {
        Some(Seq::empty())
    } else {
        match decode_identity_spec(items[0]) {
            None => None,
            Some(v) => match decode_identities_spec(items.drop_first()) {
                None => None,
                Some(rest) => Some(seq![v] + rest),
            },
        }
    }
}

/// Parsing an account: one identity chunk, then the legacy list, nothing
/// after.
pub open spec fn decode_account_spec(data: Seq<u8>) -> Option<AccountV> {
    match read_chunk_spec(data, 0) {
        None => None,
        Some((maid_bytes, p1)) => match decode_identity_spec(maid_bytes) {
            None => None,
            Some(maid) => match read_list_spec(data, p1) {
                None => None,
                Some((items, p2)) => {
                    if p2 == data.len() {
                        match decode_identities_spec(items) {
                            None => None,
                            Some(legacy) => Some(AccountV { maid, legacy }),
                        }
                    } else {
                        None
                    }
                },
            },
        },
    }
}

/// The symmetric session key: first 32 bytes of the derived stream.
pub open spec fn session_key_spec(password: Seq<u8>, pin: u32) -> Seq<u8> {
    kdf_of(password, dec_ascii_spec(pin), KDF_ROUNDS).subrange(0, 32)
}

/// The symmetric session IV: last 16 bytes of the derived stream.
pub open spec fn session_iv_spec(password: Seq<u8>, pin: u32) -> Seq<u8> {
    kdf_of(password, dec_ascii_spec(pin), KDF_ROUNDS).subrange(32, 48)
}

/// The encrypted serial form of an account under `(password, pin)`.
pub open spec fn encrypt_account_spec(a: AccountV, password: Seq<u8>, pin: u32) -> Seq<u8> {
    aes_encrypt_of(
        session_key_spec(password, pin),
        session_iv_spec(password, pin),
        account_bytes_spec(a),
    )
}

/// The inverse: symmetric decryption, then parsing; `None` on either
/// failure.
pub open spec fn decrypt_account_spec(data: Seq<u8>, password: Seq<u8>, pin: u32) -> Option<
    AccountV,
> {
    match aes_decrypt_of(session_key_spec(password, pin), session_iv_spec(password, pin), data) {
        None => None,
        Some(plain) => decode_account_spec(plain),
    }
}

/// The decimal ASCII digits of `n`, most significant first.
pub open spec fn dec_ascii_spec(n: u32) -> Seq<u8>
    decreases n,
{
    if n < 10 {
        seq![(n + 48) as u8]
    } else {
        dec_ascii_spec(n / 10) + seq![((n % 10) + 48) as u8]
    }
}

/// The decimal ASCII form of `n`.
pub fn dec_ascii(n: u32) -> (r: Vec<u8>)
    ensures
        r@ == dec_ascii_spec(n),
    decreases n,
{
    if n < 10 {
        let mut v: Vec<u8> = Vec::new();
        v.push((n + 48) as u8);
        proof {
            assert(v@ =~= dec_ascii_spec(n));
        }
        v
    } else {
        let mut v = dec_ascii(n / 10);
        v.push(((n % 10) + 48) as u8);
        proof {
            assert(v@ =~= dec_ascii_spec(n));
        }
        v
    }
}

/// The session locator: the 64-byte hash of
/// `keyword_bytes || decimal_ascii(pin)`.  It depends on exactly those two
/// inputs and on nothing else.
pub open spec fn network_id_spec(keyword_bytes: Seq<u8>, pin: u32) -> Seq<u8> {
    sha512_of(keyword_bytes + dec_ascii_spec(pin))
}

/// The session locator is deterministic: equal inputs give equal locators.
pub proof fn lemma_network_id_deterministic(kw1: Seq<u8>, pin1: u32, kw2: Seq<u8>, pin2: u32)
    requires
        kw1 == kw2,
        pin1 == pin2,
    ensures
        network_id_spec(kw1, pin1) == network_id_spec(kw2, pin2),
{
}

/// Container of the identity; serialises and encrypts itself.
pub struct Account {
    maid: Identity,
    legacy: Vec<Identity>,
}

impl View for Account {
    type V = AccountV;

    closed spec fn view(&self) -> AccountV {
        AccountV { maid: self.maid@, legacy: identity_views(self.legacy@) }
    }
}

impl Account {
    pub open spec fn wf(&self) -> bool {
        self@.wf()
    }

    /// A fresh identity; `prev`, if supplied, is kept in the legacy list.
    pub fn new(prev: Option<Identity>) -> (r: Account)
        requires
            prev matches Some(id) ==> id.wf(),
        ensures
            r.wf(),
            honest_enc_keys(r@.maid),
            r@.legacy.len() == (if prev is Some { 1int } else { 0int }),
    {
        let maid = Identity::fresh();
        let mut legacy: Vec<Identity> = Vec::new();
        match prev {
            Some(id) => {
                legacy.push(id);
            },
            None => {},
        }
        let r = Account { maid, legacy };
        proof {
            assert(r@.wf());
        }
        r
    }

    pub fn get_maid(&self) -> (r: &Identity)
        ensures
            r@ == self@.maid,
    {
        &self.maid
    }

    /// The session locator for `(keyword, pin)`: a pure function of those
    /// two secrets alone.
    pub fn generate_network_id(keyword: &str, pin: u32) -> (r: Name)
        ensures
            r@ == network_id_spec(keyword.spec_bytes(), pin),
            r@.len() == 64,
    {
        let kw = keyword.as_bytes();
        let mut input: Vec<u8> = Vec::new();
        input.extend_from_slice(kw);
        let mut pin_bytes = dec_ascii(pin);
        input.append(&mut pin_bytes);
        proof {
            assert(input@ =~= keyword.spec_bytes() + dec_ascii_spec(pin));
        }
        let digest = sha512_hash(input.as_slice());
        Name::from_bytes(digest)
    }

    /// The account's serial form.
    pub fn serialise(&self) -> (r: Vec<u8>)
        ensures
            r@ == account_bytes_spec(self@),
    {
        let mut out: Vec<u8> = Vec::new();
        let maid_bytes = self.maid.serialise();
        write_chunk(&mut out, maid_bytes.as_slice());
        let mut items: Vec<Vec<u8>> = Vec::new();
        let ghost lv = identity_views(self.legacy@);
        for i in 0..self.legacy.len()
            invariant
                lv == identity_views(self.legacy@),
                items.deep_view() =~~= identities_bytes_spec(lv.take(i as int)),
        {
            let b = self.legacy[i].serialise();
            let ghost pre = items.deep_view();
            items.push(b);
            proof {
                assert(items.deep_view() =~~= pre.push(b@));
                assert(lv.take(i + 1).drop_last() =~= lv.take(i as int));
                assert(identities_bytes_spec(lv.take(i + 1))
                    =~~= identities_bytes_spec(lv.take(i as int)).push(identity_bytes_spec(lv[i as int])));
                assert(items.deep_view() =~~= identities_bytes_spec(lv.take(i + 1)));
            }
        }
        proof {
            assert(lv.take(self.legacy@.len() as int) =~= lv);
        }
        write_list(&mut out, &items);
        proof {
            assert(out@ =~= account_bytes_spec(self@));
        }
        out
    }

    /// Parses an account from its serial form.
    pub fn deserialise(data: &[u8]) -> (r: Option<Account>)
        ensures
            (match r {
                Some(acc) => decode_account_spec(data@) == Some(acc@) && acc.wf(),
                None => decode_account_spec(data@) is None,
            }),
    {
        match read_chunk(data, 0) {
            None => None,
            Some((maid_bytes, p1)) => match Identity::deserialise(maid_bytes.as_slice()) {
                None => None,
                Some(maid) => match read_list(data, p1) {
                    None => None,
                    Some((items, p2)) => {
                        if p2 != data.len() {
                            return None;
                        }
                        match decode_identity_vec(&items, 0) {
                            None => None,
                            Some(legacy) => {
                                let r = Account { maid, legacy };
                                proof {
                                    assert(items.deep_view().skip(0) =~~= items.deep_view());
                                }
                                Some(r)
                            },
                        }
                    },
                },
            },
        }
    }

    /// Serialises and encrypts the account; the result decrypts back to this
    /// very account under the same `(password, pin)`.
    pub fn encrypt(&self, password: &[u8], pin: u32) -> (r: Result<Vec<u8>, ClientError>)
        requires
            self.wf(),
        ensures
            r is Ok,
            r matches Ok(ct) ==> ct@ == encrypt_account_spec(self@, password@, pin),
            r matches Ok(ct) ==> decrypt_account_spec(ct@, password@, pin) == Some(self@),
    {
        // The legacy list lives in a Vec, so its length is machine-bounded,
        // which the serial-form round trip below needs.
        let legacy_count: usize = self.legacy.len();
        let stream = kdf_derive(password, dec_ascii(pin).as_slice(), KDF_ROUNDS);
        let key = vstd::slice::slice_subrange(stream.as_slice(), 0, 32);
        let iv = vstd::slice::slice_subrange(stream.as_slice(), 32, 48);
        let plain = self.serialise();
        let ct = aes256_cbc_encrypt(key, iv, plain.as_slice());
        proof {
            assert(self@.legacy.len() == legacy_count);
            lemma_account_roundtrip(self@);
        }
        Ok(ct)
    }

    /// Decrypts and parses a serialised account; a wrong password fails the
    /// cipher or the parse and yields `CryptoFailure`, never a malformed
    /// account.
    pub fn decrypt(data: &[u8], password: &[u8], pin: u32) -> (r: Result<Account, ClientError>)
        ensures
            (match decrypt_account_spec(data@, password@, pin) {
                Some(a) => r matches Ok(acc) && acc@ == a && acc.wf(),
                None => r matches Err(e) && e == ClientError::CryptoFailure,
            }),
    {
        let stream = kdf_derive(password, dec_ascii(pin).as_slice(), KDF_ROUNDS);
        let key = vstd::slice::slice_subrange(stream.as_slice(), 0, 32);
        let iv = vstd::slice::slice_subrange(stream.as_slice(), 32, 48);
        match aes256_cbc_decrypt(key, iv, data) {
            None => Err(ClientError::CryptoFailure),
            Some(plain) => match Account::deserialise(plain.as_slice()) {
                None => Err(ClientError::CryptoFailure),
                Some(acc) => Ok(acc),
            },
        }
    }
}

/// Parses the items of `v` from index `i` on as identities.
fn decode_identity_vec(v: &Vec<Vec<u8>>, i: usize) -> (r: Option<Vec<Identity>>)
    requires
        i <= v@.len(),
    ensures
        (match r {
            Some(ids) => decode_identities_spec(v.deep_view().skip(i as int)) == Some(
                identity_views(ids@),
            ) && forall|j: int| 0 <= j < ids@.len() ==> (#[trigger] ids@[j]).wf(),
            None => decode_identities_spec(v.deep_view().skip(i as int)) is None,
        }),
    decreases v@.len() - i,
{
    if i == v.len() {
        let ids: Vec<Identity> = Vec::new();
        proof {
            assert(v.deep_view().skip(i as int) =~~= Seq::<Seq<u8>>::empty());
            assert(identity_views(ids@) =~= Seq::<IdentityV>::empty());
        }
        Some(ids)
    } else {
        match Identity::deserialise(v[i].as_slice()) {
            None => {
                proof {
                    assert(v.deep_view()[i as int] =~= v@[i as int]@);
                    assert(v.deep_view().skip(i as int)[0] == v.deep_view()[i as int]);
                }
                None
            },
            Some(id) => match decode_identity_vec(v, i + 1) {
                None => {
                    proof {
                        assert(v.deep_view()[i as int] =~= v@[i as int]@);
                        assert(v.deep_view().skip(i as int)[0] == v.deep_view()[i as int]);
                        assert(v.deep_view().skip(i as int).drop_first() =~~= v.deep_view().skip(
                            i + 1,
                        ));
                    }
                    None
                },
                Some(rest) => {
                    let ghost id_v = id@;
                    let ghost rest_seq = rest@;
                    let ghost rest_view = identity_views(rest@);
                    let mut ids: Vec<Identity> = Vec::new();
                    ids.push(id);
                    let mut rest_vec = rest;
                    ids.append(&mut rest_vec);
                    proof {
                        let sv = v.deep_view().skip(i as int);
                        assert(v.deep_view()[i as int] =~= v@[i as int]@);
                        assert(sv[0] == v.deep_view()[i as int]);
                        assert(sv.drop_first() =~~= v.deep_view().skip(i + 1));
                        assert(decode_identities_spec(sv) == Some(seq![id_v] + rest_view));
                        assert(ids@ =~= seq![id] + rest_seq);
                        assert(identity_views(ids@) =~= seq![id_v] + rest_view);
                        assert forall|j: int| 0 <= j < ids@.len() implies (
                        #[trigger] ids@[j]).wf() by {
                            if j > 0 {
                                assert(ids@[j] == rest_seq[j - 1]);
                            }
                        }
                    }
                    Some(ids)
                },
            },
        }
    }
}

/// Parsing the serial forms of identities yields the identities themselves.
pub proof fn lemma_identities_roundtrip(ids: Seq<IdentityV>)
    requires
        forall|i: int| 0 <= i < ids.len() ==> (#[trigger] ids[i]).wf(),
    ensures
        decode_identities_spec(identities_bytes_spec(ids)) == Some(ids),
    decreases ids.len(),
{
    let items = identities_bytes_spec(ids);
    if ids.len() == 0 {
        assert(items =~~= Seq::<Seq<u8>>::empty());
    } else {
        lemma_identity_roundtrip(ids[0]);
        lemma_identities_roundtrip(ids.drop_first());
        assert(items.drop_first() =~~= identities_bytes_spec(ids.drop_first()));
        assert(seq![ids[0]] + ids.drop_first() =~= ids);
    }
}

/// Reading an account back from its serial form yields the account itself.
pub proof fn lemma_account_roundtrip(a: AccountV)
    requires
        a.wf(),
        a.legacy.len() <= u64::MAX,
    ensures
        decode_account_spec(account_bytes_spec(a)) == Some(a),
{
    vstd::bytes::lemma_auto_spec_u64_to_from_le_bytes();
    let data = account_bytes_spec(a);
    let maid_bytes = identity_bytes_spec(a.maid);
    let items = identities_bytes_spec(a.legacy);
    let rest = list_spec(items);
    assert(data.subrange(0, data.len() as int) =~= chunk_spec(maid_bytes) + rest);
    assert(chunk_spec(a.maid.sign_pub).len() == 40);
    assert(chunk_spec(a.maid.sign_sec).len() == 72);
    assert(chunk_spec(a.maid.enc_pub).len() == 40);
    assert(chunk_spec(a.maid.enc_sec).len() == 40);
    assert(maid_bytes.len() == 192);
    lemma_read_chunk_at(data, 0, maid_bytes, rest);
    lemma_identity_roundtrip(a.maid);
    let p1 = 0 + 8 + maid_bytes.len() as int;
    assert(data.subrange(p1, data.len() as int) =~= list_spec(items) + Seq::<u8>::empty());
    assert forall|i: int| 0 <= i < items.len() implies #[trigger] items[i].len() <= u64::MAX by {
        assert(items[i] == identity_bytes_spec(a.legacy[i]));
        assert(a.legacy[i].wf());
    }
    lemma_read_list_at(data, p1, items, Seq::<u8>::empty());
    lemma_identities_roundtrip(a.legacy);
    assert(p1 + list_spec(items).len() == data.len());
}

} // verus!
