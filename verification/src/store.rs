//! On-network record shapes and the content-addressed store.
//!
//! `ImmutableData` is a write-once blob named by the hash of its payload;
//! `StructuredData` is an owner-signed mutable record named by its
//! identifier whose value is an append-style version list.  The store keeps
//! serialised records as an append-only log of `(name, bytes)` pairs; a
//! lookup finds the newest record under a name.

use vstd::prelude::*;
use crate::codec::{
    chunk_spec, list_spec, read_chunk, read_chunk_spec, read_list, read_list_spec, write_chunk,
    write_list,
};
use crate::crypto::{sha512_hash, sha512_of};
use crate::name::{Name, NAME_BYTES};

verus! {

/// Type tag of immutable records.
pub const IMMUTABLE_DATA_TAG: u64 = 101;

/// Type tag of structured records.
pub const STRUCTURED_DATA_TAG: u64 = 100;

/// Write-once blob; its network name is the hash of its payload.
pub struct ImmutableData {
    value: Vec<u8>,
}

/// Serial form of an immutable record: its payload as one chunk.
pub open spec fn immutable_bytes_spec(value: Seq<u8>) -> Seq<u8> {
    chunk_spec(value)
}

/// Parsing an immutable record: one chunk, nothing after.
pub open spec fn decode_immutable_spec(data: Seq<u8>) -> Option<Seq<u8>> {
    match read_chunk_spec(data, 0) {
        None => None,
        Some((value, p)) => if p == data.len() {
            Some(value)
        } else {
            None
        },
    }
}

impl View for ImmutableData {
    type V = Seq<u8>;

    closed spec fn view(&self) -> Seq<u8> {
        self.value@
    }
}

impl ImmutableData {
    pub fn new(value: Vec<u8>) -> (r: ImmutableData)
        ensures
            r@ == value@,
    {
        ImmutableData { value }
    }

    pub fn value(&self) -> (r: &Vec<u8>)
        ensures
            r@ == self@,
    {
        &self.value
    }

    /// The network name: hash of the payload.
    pub fn name(&self) -> (r: Name)
        ensures
            r@ == sha512_of(self@),
            r.wf(),
    {
        Name::from_bytes(sha512_hash(self.value.as_slice()))
    }

    pub fn serialised_contents(&self) -> (r: Vec<u8>)
        ensures
            r@ == immutable_bytes_spec(self@),
    {
        let mut out: Vec<u8> = Vec::new();
        write_chunk(&mut out, self.value.as_slice());
        proof {
            assert(out@ =~= immutable_bytes_spec(self@));
        }
        out
    }

    /// Parses an immutable record from its serial form.
    pub fn deserialise(data: &[u8]) -> (r: Option<ImmutableData>)
        ensures
            (match r {
                Some(d) => decode_immutable_spec(data@) == Some(d@),
                None => decode_immutable_spec(data@) is None,
            }),
    {
        match read_chunk(data, 0) {
            None => None,
            Some((value, p)) => if p == data.len() {
                Some(ImmutableData { value })
            } else {
                None
            },
        }
    }
}

/// Mathematical model of a structured record.
pub ghost struct StructuredDataV {
    pub identifier: Seq<u8>,
    pub owner: Seq<u8>,
    pub value: Seq<Seq<u8>>,
}

impl StructuredDataV {
    pub open spec fn wf(self) -> bool {
        &&& self.identifier.len() == NAME_BYTES
        &&& self.owner.len() == NAME_BYTES
        &&& forall|i: int| 0 <= i < self.value.len() ==> (#[trigger] self.value[i]).len()
            == NAME_BYTES
    }
}

/// The views of a sequence of names.
pub open spec fn name_views(s: Seq<Name>) -> Seq<Seq<u8>> {
    s.map_values(|n: Name| n@)
}

/// Serial form of a structured record: identifier, owner, then the version
/// list.
pub open spec fn structured_bytes_spec(sd: StructuredDataV) -> Seq<u8> {
    chunk_spec(sd.identifier) + chunk_spec(sd.owner) + list_spec(sd.value)
}

/// Parsing a structured record: two name chunks and a name list, with the
/// name width checked everywhere, nothing after.
pub open spec fn decode_structured_spec(data: Seq<u8>) -> Option<StructuredDataV> {
    match read_chunk_spec(data, 0) {
        None => None,
        Some((identifier, p1)) => match read_chunk_spec(data, p1) {
            None => None,
            Some((owner, p2)) => match read_list_spec(data, p2) {
                None => None,
                Some((value, p3)) => {
                    let sd = StructuredDataV { identifier, owner, value };
                    if p3 == data.len() && sd.wf() {
                        Some(sd)
                    } else {
                        None
                    }
                },
            },
        },
    }
}

/// Owner-signed mutable record at its identifier; the value list is an
/// append-style version list whose last element is current.
pub struct StructuredData {
    identifier: Name,
    owner: Name,
    value: Vec<Name>,
}

impl View for StructuredData {
    type V = StructuredDataV;

    closed spec fn view(&self) -> StructuredDataV {
        StructuredDataV {
            identifier: self.identifier@,
            owner: self.owner@,
            value: name_views(self.value@),
        }
    }
}

impl StructuredData {
    pub open spec fn wf(&self) -> bool {
        self@.wf()
    }

    pub fn new(identifier: Name, owner: Name, value: Vec<Name>) -> (r: StructuredData)
        ensures
            r@ == (StructuredDataV {
                identifier: identifier@,
                owner: owner@,
                value: name_views(value@),
            }),
    {
        StructuredData { identifier, owner, value }
    }

    pub fn identifier(&self) -> (r: &Name)
        ensures
            r@ == self@.identifier,
    {
        &self.identifier
    }

    pub fn owner(&self) -> (r: &Name)
        ensures
            r@ == self@.owner,
    {
        &self.owner
    }

    pub fn value(&self) -> (r: &Vec<Name>)
        ensures
            name_views(r@) == self@.value,
    {
        &self.value
    }

    /// The current version: the last element of the version list.
    pub fn latest_version(&self) -> (r: Option<&Name>)
        ensures
            (match r {
                Some(n) => self@.value.len() > 0 && n@ == self@.value.last(),
                None => self@.value.len() == 0,
            }),
    {
        if self.value.len() == 0 {
            None
        } else {
            Some(&self.value[self.value.len() - 1])
        }
    }

    pub fn serialised_contents(&self) -> (r: Vec<u8>)
        ensures
            r@ == structured_bytes_spec(self@),
    {
        let mut out: Vec<u8> = Vec::new();
        write_chunk(&mut out, self.identifier.as_bytes().as_slice());
        write_chunk(&mut out, self.owner.as_bytes().as_slice());
        let mut items: Vec<Vec<u8>> = Vec::new();
        let ghost nv = name_views(self.value@);
        for i in 0..self.value.len()
            invariant
                nv == name_views(self.value@),
                items.deep_view() =~~= nv.take(i as int),
        {
            let b = crate::codec::copy_bytes(self.value[i].as_bytes());
            let ghost pre = items.deep_view();
            items.push(b);
            proof {
                assert(items.deep_view() =~~= pre.push(b@));
                assert(nv.take(i + 1).drop_last() =~= nv.take(i as int));
                assert(nv.take(i + 1).last() == nv[i as int]);
                assert(b@ == nv[i as int]);
                assert(items.deep_view() =~~= nv.take(i + 1));
            }
        }
        proof {
            assert(nv.take(self.value@.len() as int) =~= nv);
        }
        write_list(&mut out, &items);
        proof {
            assert(out@ =~= structured_bytes_spec(self@));
        }
        out
    }

    /// Parses a structured record from its serial form.
    pub fn deserialise(data: &[u8]) -> (r: Option<StructuredData>)
        ensures
            (match r {
                Some(sd) => decode_structured_spec(data@) == Some(sd@) && sd.wf(),
                None => decode_structured_spec(data@) is None,
            }),
    {
        match read_chunk(data, 0) {
            None => None,
            Some((id_bytes, p1)) => match read_chunk(data, p1) {
                None => None,
                Some((owner_bytes, p2)) => match read_list(data, p2) {
                    None => None,
                    Some((items, p3)) => {
                        if p3 != data.len() || id_bytes.len() != NAME_BYTES || owner_bytes.len()
                            != NAME_BYTES {
                            return None;
                        }
                        match names_from_items(&items, 0) {
                            None => {
                                proof {
                                    let bad = choose|j: int|
                                        0 <= j < items@.len() && (#[trigger] items.deep_view()[j]).len()
                                            != NAME_BYTES;
                                    assert(items.deep_view()[bad].len() != NAME_BYTES);
                                    assert(!(StructuredDataV {
                                        identifier: id_bytes@,
                                        owner: owner_bytes@,
                                        value: items.deep_view(),
                                    }).wf());
                                }
                                None
                            },
                            Some(value) => {
                                let r = StructuredData {
                                    identifier: Name::from_bytes(id_bytes),
                                    owner: Name::from_bytes(owner_bytes),
                                    value,
                                };
                                proof {
                                    assert(items.deep_view().skip(0) =~~= items.deep_view());
                                }
                                Some(r)
                            },
                        }
                    },
                },
            },
        }
    }
}

/// Turns the items of `v` from index `i` on into names, checking the width.
fn names_from_items(v: &Vec<Vec<u8>>, i: usize) -> (r: Option<Vec<Name>>)
    requires
        i <= v@.len(),
    ensures
        (match r {
            Some(names) => name_views(names@) == v.deep_view().skip(i as int) && forall|j: int|
                0 <= j < names@.len() ==> (#[trigger] names@[j])@.len() == NAME_BYTES,
            None => exists|j: int|
                i <= j < v@.len() && (#[trigger] v.deep_view()[j]).len() != NAME_BYTES,
        }),
    decreases v@.len() - i,
{
    if i == v.len() {
        let names: Vec<Name> = Vec::new();
        proof {
            assert(v.deep_view().skip(i as int) =~~= Seq::<Seq<u8>>::empty());
            assert(name_views(names@) =~= Seq::<Seq<u8>>::empty());
        }
        Some(names)
    } else {
        let item = crate::codec::copy_bytes(&v[i]);
        proof {
            assert(v.deep_view()[i as int] =~= v@[i as int]@);
        }
        if item.len() != NAME_BYTES {
            proof {
                assert(v.deep_view()[i as int].len() != NAME_BYTES);
            }
            return None;
        }
        let name = Name::from_bytes(item);
        match names_from_items(v, i + 1) {
            None => None,
            Some(rest) => {
                let ghost name_v = name@;
                let ghost rest_seq = rest@;
                let ghost rest_view = name_views(rest@);
                let mut names: Vec<Name> = Vec::new();
                names.push(name);
                let mut rest_vec = rest;
                names.append(&mut rest_vec);
                proof {
                    let dv = v.deep_view();
                    let sv = dv.skip(i as int);
                    assert(sv[0] == dv[i as int]);
                    assert(names@ =~= seq![name] + rest_seq);
                    assert(rest_view == dv.skip(i as int + 1));
                    assert(rest_view.len() == rest_seq.len());
                    assert(rest_seq.len() == dv.len() - (i as int + 1));
                    assert(names@.len() == dv.len() - i as int);
                    assert(sv.len() == dv.len() - i as int);
                    assert forall|j: int| 0 <= j < names@.len() implies #[trigger] name_views(
                        names@,
                    )[j] == sv[j] by {
                        assert(sv[j] == dv[i as int + j]);
                        if j > 0 {
                            assert(names@[j] == rest_seq[j - 1]);
                            assert(name_views(names@)[j] == rest_view[j - 1]);
                            assert(rest_view[j - 1] == dv[i as int + 1 + (j - 1)]);
                        } else {
                            assert(name_views(names@)[0] == name_v);
                            assert(name_v == dv[i as int]);
                        }
                    }
                    assert(name_views(names@) =~~= sv);
                    assert forall|j: int| 0 <= j < names@.len() implies (
                    #[trigger] names@[j])@.len() == NAME_BYTES by {
                        if j > 0 {
                            assert(names@[j] == rest_seq[j - 1]);
                        }
                    }
                }
                Some(names)
            },
        }
    }
}

/// Reading an immutable record back from its serial form yields its
/// payload.
pub proof fn lemma_immutable_roundtrip(value: Seq<u8>)
    requires
        value.len() <= u64::MAX,
    ensures
        decode_immutable_spec(immutable_bytes_spec(value)) == Some(value),
{
    let data = immutable_bytes_spec(value);
    assert(data.subrange(0, data.len() as int) =~= chunk_spec(value) + Seq::<u8>::empty());
    crate::codec::lemma_read_chunk_at(data, 0, value, Seq::<u8>::empty());
}

/// Reading a structured record back from its serial form yields the record
/// itself.
pub proof fn lemma_structured_roundtrip(sd: StructuredDataV)
    requires
        sd.wf(),
        sd.value.len() <= u64::MAX,
    ensures
        decode_structured_spec(structured_bytes_spec(sd)) == Some(sd),
{
    let data = structured_bytes_spec(sd);
    let rest1 = chunk_spec(sd.owner) + list_spec(sd.value);
    assert(data.subrange(0, data.len() as int) =~= chunk_spec(sd.identifier) + rest1);
    crate::codec::lemma_read_chunk_at(data, 0, sd.identifier, rest1);
    let p1 = 0 + 8 + sd.identifier.len() as int;
    assert(data.subrange(p1, data.len() as int) =~= chunk_spec(sd.owner) + list_spec(sd.value));
    crate::codec::lemma_read_chunk_at(data, p1, sd.owner, list_spec(sd.value));
    let p2 = p1 + 8 + sd.owner.len() as int;
    assert(data.subrange(p2, data.len() as int) =~= list_spec(sd.value) + Seq::<u8>::empty());
    assert forall|i: int| 0 <= i < sd.value.len() implies #[trigger] sd.value[i].len()
        <= u64::MAX by {
        assert(sd.value[i].len() == NAME_BYTES);
    }
    crate::codec::lemma_read_list_at(data, p2, sd.value, Seq::<u8>::empty());
    assert(p2 + list_spec(sd.value).len() == data.len());
}

/// Anything the transport accepts as a PUT payload: a type tag, a network
/// name, and a canonical serialisation.
pub enum Record {
    Immutable(ImmutableData),
    Structured(StructuredData),
}

/// The network name a record is stored under.
pub open spec fn record_name_spec(r: Record) -> Seq<u8> {
    match r {
        Record::Immutable(d) => sha512_of(d@),
        Record::Structured(sd) => sd@.identifier,
    }
}

/// A record's canonical serialisation.
pub open spec fn record_bytes_spec(r: Record) -> Seq<u8> {
    match r {
        Record::Immutable(d) => immutable_bytes_spec(d@),
        Record::Structured(sd) => structured_bytes_spec(sd@),
    }
}

impl Record {
    pub open spec fn wf(&self) -> bool {
        match *self {
            Record::Immutable(_) => true,
            Record::Structured(sd) => sd.wf(),
        }
    }

    /// The record kind's constant type tag.
    pub fn type_tag(&self) -> (r: u64)
        ensures
            r == (match *self {
                Record::Immutable(_) => IMMUTABLE_DATA_TAG,
                Record::Structured(_) => STRUCTURED_DATA_TAG,
            }),
    {
        match self {
            Record::Immutable(_) => IMMUTABLE_DATA_TAG,
            Record::Structured(_) => STRUCTURED_DATA_TAG,
        }
    }

    pub fn name(&self) -> (r: Name)
        ensures
            r@ == record_name_spec(*self),
    {
        match self {
            Record::Immutable(d) => d.name(),
            Record::Structured(sd) => sd.identifier().clone(),
        }
    }

    pub fn serialised_contents(&self) -> (r: Vec<u8>)
        ensures
            r@ == record_bytes_spec(*self),
    {
        match self {
            Record::Immutable(d) => d.serialised_contents(),
            Record::Structured(sd) => sd.serialised_contents(),
        }
    }
}

/// Shared content-addressed store: an append-only log of serialised
/// records; the newest record under a name is current.
pub struct Store {
    records: Vec<(Name, Vec<u8>)>,
}

/// The views of the `(name, bytes)` pairs.
pub open spec fn pair_views(s: Seq<(Name, Vec<u8>)>) -> Seq<(Seq<u8>, Seq<u8>)> {
    s.map_values(|p: (Name, Vec<u8>)| (p.0@, p.1@))
}

/// The newest record under `k`, scanning from the end of the log.
pub open spec fn store_get_spec(s: Seq<(Seq<u8>, Seq<u8>)>, k: Seq<u8>) -> Option<Seq<u8>>
    decreases s.len(),
{
    if s.len() == 0 {
        None
    } else if s.last().0 == k {
        Some(s.last().1)
    } else {
        store_get_spec(s.drop_last(), k)
    }
}

/// Storing a record appends it to the log.
pub open spec fn store_put_spec(s: Seq<(Seq<u8>, Seq<u8>)>, k: Seq<u8>, v: Seq<u8>) -> Seq<
    (Seq<u8>, Seq<u8>),
> {
    s.push((k, v))
}

/// After a put, the stored record is what a lookup under its name finds.
pub proof fn lemma_store_put_get(s: Seq<(Seq<u8>, Seq<u8>)>, k: Seq<u8>, v: Seq<u8>)
    ensures
        store_get_spec(store_put_spec(s, k, v), k) == Some(v),
{
}

/// A put under one name leaves lookups under every other name unchanged.
pub proof fn lemma_store_put_frame(s: Seq<(Seq<u8>, Seq<u8>)>, k: Seq<u8>, v: Seq<u8>, k2: Seq<u8>)
    requires
        k2 != k,
    ensures
        store_get_spec(store_put_spec(s, k, v), k2) == store_get_spec(s, k2),
{
    assert(store_put_spec(s, k, v).drop_last() =~= s);
}

impl View for Store {
    type V = Seq<(Seq<u8>, Seq<u8>)>;

    closed spec fn view(&self) -> Seq<(Seq<u8>, Seq<u8>)> {
        pair_views(self.records@)
    }
}

impl Store {
    pub fn new() -> (r: Store)
        ensures
            r@ == Seq::<(Seq<u8>, Seq<u8>)>::empty(),
    {
        let r = Store { records: Vec::new() };
        proof {
            assert(r@ =~= Seq::<(Seq<u8>, Seq<u8>)>::empty());
        }
        r
    }

    /// Stores `value` under `name`.
    pub fn put_record(&mut self, name: &Name, value: Vec<u8>)
        ensures
            final(self)@ == store_put_spec(old(self)@, name@, value@),
    {
        let ghost pre = self@;
        self.records.push((name.clone(), value));
        proof {
            assert(self@ =~= store_put_spec(pre, name@, value@));
        }
    }

    /// The newest record under `name`, if any.
    pub fn get_record(&self, name: &Name) -> (r: Option<Vec<u8>>)
        ensures
            (match r {
                Some(v) => store_get_spec(self@, name@) == Some(v@),
                None => store_get_spec(self@, name@) is None,
            }),
    {
        let mut i: usize = self.records.len();
        proof {
            assert(self@.take(self.records@.len() as int) =~= self@);
        }
        loop
            invariant
                i <= self.records@.len(),
                store_get_spec(self@, name@) == store_get_spec(self@.take(i as int), name@),
            decreases i,
        {
            if i == 0 {
                proof {
                    assert(self@.take(0) =~= Seq::<(Seq<u8>, Seq<u8>)>::empty());
                }
                return None;
            }
            i = i - 1;
            proof {
                assert(self@.take(i + 1).last() == self@[i as int]);
                assert(self@.take(i + 1).drop_last() =~= self@.take(i as int));
                assert(self@[i as int] == (self.records@[i as int].0@, self.records@[i as int].1@));
            }
            if self.records[i].0.equals(name) {
                let v = crate::codec::copy_bytes(&self.records[i].1);
                return Some(v);
            }
        }
    }
}

} // verus!
