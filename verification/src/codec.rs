//! Canonical self-describing binary encoding used for every on-network
//! payload and for the hybrid-encryption envelope.
//!
//! The scheme is a minimal tag-length-value form: a *chunk* is an 8-byte
//! little-endian length followed by that many bytes; a *list* is an 8-byte
//! little-endian count followed by that many chunks.

use vstd::prelude::*;
use vstd::bytes::*;
use vstd::slice::*;

verus! {

/// Encoding of one byte string: 8-byte little-endian length, then the bytes.
pub open spec fn chunk_spec(s: Seq<u8>) -> Seq<u8> {
    spec_u64_to_le_bytes(s.len() as u64) + s
}

/// Concatenation of the chunk encodings of `items`, in order.
pub open spec fn chunks_spec(items: Seq<Seq<u8>>) -> Seq<u8>
    decreases items.len(),
{
    if items.len() == 0 {
        Seq::empty()
    } else {
        chunk_spec(items[0]) + chunks_spec(items.drop_first())
    }
}

/// Encoding of a list: 8-byte little-endian count, then the chunks.
pub open spec fn list_spec(items: Seq<Seq<u8>>) -> Seq<u8> {
    spec_u64_to_le_bytes(items.len() as u64) + chunks_spec(items)
}

/// Every item's length fits the 8-byte length field.
pub open spec fn items_fit(items: Seq<Seq<u8>>) -> bool {
    forall|i: int| 0 <= i < items.len() ==> #[trigger] items[i].len() <= u64::MAX
}

/// What reading one chunk at `pos` yields: the bytes and the next position.
pub open spec fn read_chunk_spec(data: Seq<u8>, pos: int) -> Option<(Seq<u8>, int)> {
    if 0 <= pos && pos + 8 <= data.len() {
        let n = spec_u64_from_le_bytes(data.subrange(pos, pos + 8)) as int;
        if pos + 8 + n <= data.len() {
            Some((data.subrange(pos + 8, pos + 8 + n), pos + 8 + n))
        } else {
            None
        }
    } else {
        None
    }
}

/// What reading `count` consecutive chunks at `pos` yields.
pub open spec fn read_chunks_spec(data: Seq<u8>, pos: int, count: int) -> Option<
    (Seq<Seq<u8>>, int),
>
    decreases count,
{
    if count <= 0 {
        Some((Seq::empty(), pos))
    } else {
        match read_chunk_spec(data, pos) {
            None => None,
            Some((s, p2)) => match read_chunks_spec(data, p2, count - 1) {
                None => None,
                Some((items, p3)) => Some((seq![s] + items, p3)),
            },
        }
    }
}

/// What reading a count-prefixed list at `pos` yields.
pub open spec fn read_list_spec(data: Seq<u8>, pos: int) -> Option<(Seq<Seq<u8>>, int)> {
    if 0 <= pos && pos + 8 <= data.len() {
        let count = spec_u64_from_le_bytes(data.subrange(pos, pos + 8)) as int;
        read_chunks_spec(data, pos + 8, count)
    } else {
        None
    }
}

/// What reading an 8-byte little-endian integer at `pos` yields.
pub open spec fn read_u64_spec(data: Seq<u8>, pos: int) -> Option<(u64, int)> {
    if 0 <= pos && pos + 8 <= data.len() {
        Some((spec_u64_from_le_bytes(data.subrange(pos, pos + 8)), pos + 8))
    } else {
        None
    }
}

/// A fresh copy of the given bytes.
pub fn copy_bytes(v: &Vec<u8>) -> (r: Vec<u8>)
    ensures
        r@ == v@,
{
    slice_to_vec(v.as_slice())
}

/// Appends the chunk encoding of `data` to `out`.
pub fn write_chunk(out: &mut Vec<u8>, data: &[u8])
    ensures
        final(out)@ == old(out)@ + chunk_spec(data@),
{
    let mut len_bytes = u64_to_le_bytes(data.len() as u64);
    out.append(&mut len_bytes);
    out.extend_from_slice(data);
    proof {
        assert(out@ =~= old(out)@ + chunk_spec(data@));
    }
}

/// Appends the 8-byte little-endian form of `x` to `out`.
pub fn write_u64(out: &mut Vec<u8>, x: u64)
    ensures
        final(out)@ == old(out)@ + spec_u64_to_le_bytes(x),
{
    let mut bytes = u64_to_le_bytes(x);
    out.append(&mut bytes);
}

/// Reads an 8-byte little-endian integer at `pos`, as `read_u64_spec`
/// describes.
pub fn read_u64(data: &[u8], pos: usize) -> (r: Option<(u64, usize)>)
    ensures
        match r {
            Some((x, next)) => read_u64_spec(data@, pos as int) == Some((x, next as int)),
            None => read_u64_spec(data@, pos as int) is None,
        },
{
    if data.len() < 8 || pos > data.len() - 8 {
        return None;
    }
    let x = u64_from_le_bytes(slice_subrange(data, pos, pos + 8));
    Some((x, pos + 8))
}

/// Reads one chunk at `pos`, as `read_chunk_spec` describes.
pub fn read_chunk(data: &[u8], pos: usize) -> (r: Option<(Vec<u8>, usize)>)
    ensures
        match r {
            Some((v, next)) => read_chunk_spec(data@, pos as int) == Some((v@, next as int)),
            None => read_chunk_spec(data@, pos as int) is None,
        },
{
    match read_u64(data, pos) {
        None => None,
        Some((n64, p2)) => {
            if n64 > (data.len() - p2) as u64 {
                return None;
            }
            let n = n64 as usize;
            let v = slice_to_vec(slice_subrange(data, p2, p2 + n));
            Some((v, p2 + n))
        },
    }
}

/// Appends the list encoding of `items` to `out`.
pub fn write_list(out: &mut Vec<u8>, items: &Vec<Vec<u8>>)
    ensures
        final(out)@ == old(out)@ + list_spec(items.deep_view()),
{
    write_u64(out, items.len() as u64);
    let ghost base = out@;
    proof {
        assert(items.deep_view().take(0) =~~= Seq::<Seq<u8>>::empty());
    }
    for i in 0..items.len()
        invariant
            out@ == base + chunks_spec(items.deep_view().take(i as int)),
    {
        write_chunk(out, items[i].as_slice());
        proof {
            lemma_chunks_snoc(items.deep_view().take(i + 1));
            assert(items.deep_view().take(i + 1).drop_last() =~~= items.deep_view().take(i as int));
            assert(items.deep_view().take(i + 1).last() == items.deep_view()[i as int]);
            assert(out@ =~= base + chunks_spec(items.deep_view().take(i + 1)));
        }
    }
    proof {
        assert(items.deep_view().take(items.len() as int) =~~= items.deep_view());
        assert(out@ =~= old(out)@ + list_spec(items.deep_view()));
    }
}

/// Reads a count-prefixed list at `pos`, as `read_list_spec` describes.
pub fn read_list(data: &[u8], pos: usize) -> (r: Option<(Vec<Vec<u8>>, usize)>)
    ensures
        match r {
            Some((items, next)) => read_list_spec(data@, pos as int) == Some(
                (items.deep_view(), next as int),
            ),
            None => read_list_spec(data@, pos as int) is None,
        },
{
    match read_u64(data, pos) {
        None => None,
        Some((count, p0)) => {
            let mut items: Vec<Vec<u8>> = Vec::new();
            let mut cur: usize = p0;
            let mut i: u64 = 0;
            proof {
                assert(items.deep_view() =~~= Seq::<Seq<u8>>::empty());
                match read_chunks_spec(data@, p0 as int, count as int) {
                    None => {},
                    Some((more, p)) => {
                        assert(Seq::<Seq<u8>>::empty() + more =~~= more);
                    },
                }
            }
            loop
                invariant
                    i <= count,
                    pos + 8 <= data@.len(),
                    p0 == pos + 8,
                    count == spec_u64_from_le_bytes(data@.subrange(pos as int, pos as int + 8)),
                    cur <= data@.len(),
                    items.deep_view().len() == i,
                    read_chunks_spec(data@, p0 as int, count as int) == (match read_chunks_spec(
                        data@,
                        cur as int,
                        count - i,
                    ) {
                        None => None::<(Seq<Seq<u8>>, int)>,
                        Some((more, p)) => Some((items.deep_view() + more, p)),
                    }),
                decreases count - i,
            {
                if i == count {
                    proof {
                        assert(read_chunks_spec(data@, cur as int, 0) == Some(
                            (Seq::<Seq<u8>>::empty(), cur as int),
                        ));
                        assert(items.deep_view() + Seq::<Seq<u8>>::empty() =~~= items.deep_view());
                    }
                    return Some((items, cur));
                }
                let ghost k = count - i;
                match read_chunk(data, cur) {
                    None => {
                        proof {
                            assert(read_chunks_spec(data@, cur as int, k as int) is None);
                        }
                        return None;
                    },
                    Some((v, next)) => {
                        let ghost pre_items = items.deep_view();
                        let ghost cur0 = cur as int;
                        items.push(v);
                        cur = next;
                        i = i + 1;
                        proof {
                            assert(items.deep_view() =~~= pre_items + seq![v@]);
                            assert(read_chunks_spec(data@, cur0, k as int) == (
                            match read_chunks_spec(data@, cur as int, k - 1) {
                                None => None::<(Seq<Seq<u8>>, int)>,
                                Some((more2, p2)) => Some((seq![v@] + more2, p2)),
                            }));
                            match read_chunks_spec(data@, cur as int, k - 1) {
                                None => {},
                                Some((more2, p2)) => {
                                    assert(pre_items + (seq![v@] + more2) =~~= (pre_items + seq![
                                        v@,
                                    ]) + more2);
                                },
                            }
                        }
                    },
                }
            }
        },
    }
}

/// Reading a chunk from a position where a chunk encoding starts yields
/// exactly the encoded bytes and leaves exactly the trailing bytes.
pub proof fn lemma_read_chunk_at(data: Seq<u8>, pos: int, s: Seq<u8>, rest: Seq<u8>)
    requires
        0 <= pos <= data.len(),
        data.subrange(pos, data.len() as int) == chunk_spec(s) + rest,
        s.len() <= u64::MAX,
    ensures
        read_chunk_spec(data, pos) == Some((s, pos + 8 + s.len())),
        data.subrange(pos + 8 + s.len(), data.len() as int) == rest,
{
    lemma_auto_spec_u64_to_from_le_bytes();
    let tail = data.subrange(pos, data.len() as int);
    let enc = chunk_spec(s) + rest;
    let lenb = spec_u64_to_le_bytes(s.len() as u64);
    assert(lenb.len() == 8);
    assert(tail.len() == 8 + s.len() + rest.len());
    assert forall|i: int| 0 <= i < tail.len() implies tail[i] == enc[i] by {}
    assert forall|i: int| 0 <= i < 8 implies data[pos + i] == lenb[i] by {
        assert(tail[i] == enc[i]);
        assert(enc[i] == chunk_spec(s)[i]);
    }
    assert(data.subrange(pos, pos + 8) =~= lenb);
    assert(spec_u64_from_le_bytes(data.subrange(pos, pos + 8)) == s.len());
    assert forall|i: int| 0 <= i < s.len() implies data[pos + 8 + i] == s[i] by {
        assert(tail[8 + i] == enc[8 + i]);
        assert(enc[8 + i] == chunk_spec(s)[8 + i]);
    }
    assert(data.subrange(pos + 8, pos + 8 + s.len()) =~= s);
    assert forall|i: int| 0 <= i < rest.len() implies data[pos + 8 + s.len() + i] == rest[i] by {
        assert(tail[8 + s.len() + i] == enc[8 + s.len() + i]);
    }
    assert(data.subrange(pos + 8 + s.len(), data.len() as int) =~= rest);
}

/// Reading an 8-byte integer from a position where its encoding starts
/// yields exactly that integer and leaves exactly the trailing bytes.
pub proof fn lemma_read_u64_at(data: Seq<u8>, pos: int, x: u64, rest: Seq<u8>)
    requires
        0 <= pos <= data.len(),
        data.subrange(pos, data.len() as int) == spec_u64_to_le_bytes(x) + rest,
    ensures
        read_u64_spec(data, pos) == Some((x, pos + 8)),
        data.subrange(pos + 8, data.len() as int) == rest,
{
    lemma_auto_spec_u64_to_from_le_bytes();
    let tail = data.subrange(pos, data.len() as int);
    let enc = spec_u64_to_le_bytes(x) + rest;
    assert(spec_u64_to_le_bytes(x).len() == 8);
    assert(tail.len() == 8 + rest.len());
    assert forall|i: int| 0 <= i < tail.len() implies tail[i] == enc[i] by {}
    assert forall|i: int| 0 <= i < 8 implies data[pos + i] == spec_u64_to_le_bytes(x)[i] by {
        assert(tail[i] == enc[i]);
    }
    assert(data.subrange(pos, pos + 8) =~= spec_u64_to_le_bytes(x));
    assert(spec_u64_from_le_bytes(data.subrange(pos, pos + 8)) == x);
    assert forall|i: int| 0 <= i < rest.len() implies data[pos + 8 + i] == rest[i] by {
        assert(tail[8 + i] == enc[8 + i]);
    }
    assert(data.subrange(pos + 8, data.len() as int) =~= rest);
}

/// Splitting off the last item of a non-empty chunk sequence.
pub proof fn lemma_chunks_snoc(items: Seq<Seq<u8>>)
    requires
        items.len() > 0,
    ensures
        chunks_spec(items) == chunks_spec(items.drop_last()) + chunk_spec(items.last()),
    decreases items.len(),
{
    if items.len() == 1 {
        assert(items.drop_first() =~~= Seq::<Seq<u8>>::empty());
        assert(items.drop_last() =~~= Seq::<Seq<u8>>::empty());
        assert(chunks_spec(items.drop_first()).len() == 0);
        assert(chunks_spec(items) =~= chunk_spec(items[0]));
        assert(chunks_spec(items.drop_last()) + chunk_spec(items.last()) =~= chunk_spec(items[0]));
    } else {
        lemma_chunks_snoc(items.drop_first());
        assert(items.drop_first().drop_last() =~= items.drop_last().drop_first());
        assert(items.drop_first().last() == items.last());
        assert(items.drop_last()[0] == items[0]);
        assert(chunks_spec(items) == chunk_spec(items[0]) + chunks_spec(items.drop_first()));
        assert(chunk_spec(items[0]) + (chunks_spec(items.drop_first().drop_last()) + chunk_spec(
            items.last(),
        )) =~= (chunk_spec(items[0]) + chunks_spec(items.drop_last().drop_first())) + chunk_spec(
            items.last(),
        ));
    }
}

/// Reading `items.len()` chunks from where their concatenation starts yields
/// exactly `items` and leaves exactly the trailing bytes.
pub proof fn lemma_read_chunks_at(data: Seq<u8>, pos: int, items: Seq<Seq<u8>>, rest: Seq<u8>)
    requires
        0 <= pos <= data.len(),
        data.subrange(pos, data.len() as int) == chunks_spec(items) + rest,
        items_fit(items),
    ensures
        read_chunks_spec(data, pos, items.len() as int) == Some(
            (items, pos + chunks_spec(items).len()),
        ),
        pos + chunks_spec(items).len() <= data.len(),
        data.subrange(pos + chunks_spec(items).len(), data.len() as int) == rest,
    decreases items.len(),
{
    if items.len() == 0 {
        assert(chunks_spec(items) =~= Seq::<u8>::empty());
        assert(data.subrange(pos, data.len() as int) =~= rest);
    } else {
        let s = items[0];
        let others = items.drop_first();
        assert(chunks_spec(items) == chunk_spec(s) + chunks_spec(others));
        assert(data.subrange(pos, data.len() as int) =~= chunk_spec(s) + (chunks_spec(others)
            + rest));
        lemma_read_chunk_at(data, pos, s, chunks_spec(others) + rest);
        let p2 = pos + 8 + s.len();
        lemma_read_chunks_at(data, p2, others, rest);
        assert(seq![s] + others =~= items);
        assert(chunks_spec(items).len() == 8 + s.len() + chunks_spec(others).len());
    }
}

/// Reading a list from where a list encoding starts yields exactly the
/// encoded items and leaves exactly the trailing bytes.
pub proof fn lemma_read_list_at(data: Seq<u8>, pos: int, items: Seq<Seq<u8>>, rest: Seq<u8>)
    requires
        0 <= pos <= data.len(),
        data.subrange(pos, data.len() as int) == list_spec(items) + rest,
        items.len() <= u64::MAX,
        items_fit(items),
    ensures
        read_list_spec(data, pos) == Some((items, pos + list_spec(items).len())),
        pos + list_spec(items).len() <= data.len(),
        data.subrange(pos + list_spec(items).len(), data.len() as int) == rest,
{
    lemma_auto_spec_u64_to_from_le_bytes();
    let tail = data.subrange(pos, data.len() as int);
    let enc = list_spec(items) + rest;
    let cntb = spec_u64_to_le_bytes(items.len() as u64);
    assert(cntb.len() == 8);
    assert(tail.len() == 8 + chunks_spec(items).len() + rest.len());
    assert forall|i: int| 0 <= i < tail.len() implies tail[i] == enc[i] by {}
    assert forall|i: int| 0 <= i < 8 implies data[pos + i] == cntb[i] by {
        assert(tail[i] == enc[i]);
        assert(enc[i] == list_spec(items)[i]);
    }
    assert(data.subrange(pos, pos + 8) =~= cntb);
    assert(spec_u64_from_le_bytes(data.subrange(pos, pos + 8)) == items.len());
    let body = chunks_spec(items) + rest;
    assert forall|i: int| 0 <= i < body.len() implies data[pos + 8 + i] == body[i] by {
        assert(tail[8 + i] == enc[8 + i]);
        if i < chunks_spec(items).len() {
            assert(enc[8 + i] == list_spec(items)[8 + i]);
        }
    }
    assert(data.subrange(pos + 8, data.len() as int) =~= body);
    lemma_read_chunks_at(data, pos + 8, items, rest);
}

} // verus!
