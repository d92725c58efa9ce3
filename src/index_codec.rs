//! Byte framing of the workspace index for durable storage: per database,
//! its id, the number of linked views, then each view id; every string is
//! its UTF-8 bytes after a big-endian 32-bit length.
use vstd::prelude::*;
use vstd::slice::slice_to_vec;
use vstd::utf8::encode_utf8;

verus! {

/// Big-endian bytes of a 32-bit integer.
pub open spec fn be32(x: u32) -> Seq<u8> {
    seq![(x >> 24u32) as u8, (x >> 16u32) as u8, (x >> 8u32) as u8, x as u8]
}

/// A string's UTF-8 bytes after their length.
pub open spec fn frame(s: Seq<char>) -> Seq<u8> {
    be32(encode_utf8(s).len() as u32) + encode_utf8(s)
}

/// The frames of a list of ids, in order.
pub open spec fn encode_ids(ids: Seq<Seq<char>>) -> Seq<u8>
    decreases ids.len(),
{
    if ids.len() == 0 {
        Seq::empty()
    } else {
        encode_ids(ids.drop_last()) + frame(ids.last())
    }
}

/// One database of the index: its id, the number of its views, its views.
pub open spec fn encode_entry(e: (Seq<char>, Seq<Seq<char>>)) -> Seq<u8> {
    frame(e.0) + be32(e.1.len() as u32) + encode_ids(e.1)
}

/// The databases of the index, in order.
pub open spec fn encode_entries(es: Seq<(Seq<char>, Seq<Seq<char>>)>) -> Seq<u8>
    decreases es.len(),
{
    if es.len() == 0 {
        Seq::empty()
    } else {
        encode_entries(es.drop_last()) + encode_entry(es.last())
    }
}

/// Every length to be written fits in 32 bits.
pub open spec fn fits(es: Seq<(Seq<char>, Seq<Seq<char>>)>) -> bool {
    forall|i: int|
        0 <= i < es.len() ==> {
            &&& encode_utf8((#[trigger] es[i]).0).len() <= u32::MAX
            &&& es[i].1.len() <= u32::MAX
            &&& forall|j: int| 0 <= j < es[i].1.len() ==> encode_utf8(#[trigger] es[i].1[j]).len() <= u32::MAX
        }
}

fn push_be32(out: &mut Vec<u8>, x: u32)
    ensures
        final(out)@ == old(out)@ + be32(x),
{
    out.push((x >> 24u32) as u8);
    out.push((x >> 16u32) as u8);
    out.push((x >> 8u32) as u8);
    out.push(x as u8);
    proof {
        assert(final(out)@ =~= old(out)@ + be32(x));
    }
}

/// Appends the frame of `s`; `false`, writing nothing, when it is too long.
fn push_frame(out: &mut Vec<u8>, s: &String) -> (ok: bool)
    ensures
        ok == (encode_utf8(s@).len() <= u32::MAX),
        ok ==> final(out)@ == old(out)@ + frame(s@),
        !ok ==> final(out)@ == old(out)@,
{
    let b = s.as_str().as_bytes();
    if b.len() > 0xffff_ffffusize {
        return false;
    }
    push_be32(out, b.len() as u32);
    let bytes = slice_to_vec(b);
    let ghost start = out@;
    let mut i: usize = 0;
    while i < bytes.len()
        invariant
            0 <= i <= bytes@.len(),
            out@ == start + bytes@.take(i as int),
        decreases bytes@.len() - i,
    {
        out.push(bytes[i]);
        proof {
            assert(bytes@.take(i + 1) =~= bytes@.take(i as int).push(bytes@[i as int]));
        }
        i = i + 1;
    }
    proof {
        assert(bytes@.take(i as int) =~= bytes@);
        assert(final(out)@ =~= old(out)@ + frame(s@));
    }
    true
}

/// The encoding of one index entry: `None` when a length does not fit.
pub fn encode_index_entry(out: &mut Vec<u8>, id: &String, views: &Vec<String>) -> (ok: bool)
    ensures
        ok == fits(seq![(id@, crate::body::strs(views@))]),
        ok ==> final(out)@ == old(out)@ + encode_entry((id@, crate::body::strs(views@))),
{
    let ghost e = (id@, crate::body::strs(views@));
    let ghost start = out@;
    if !push_frame(out, id) {
        proof {
            assert(seq![e][0] == e);
        }
        return false;
    }
    if views.len() > 0xffff_ffffusize {
        proof {
            assert(seq![e][0] == e);
        }
        return false;
    }
    push_be32(out, views.len() as u32);
    let ghost head = out@;
    let mut i: usize = 0;
    proof {
        assert(crate::body::strs(views@).take(0) =~= Seq::<Seq<char>>::empty());
        assert(out@ =~= head + encode_ids(crate::body::strs(views@).take(0)));
    }
    while i < views.len()
        invariant
            0 <= i <= views@.len(),
            e == (id@, crate::body::strs(views@)),
            out@ == head + encode_ids(crate::body::strs(views@).take(i as int)),
            forall|j: int| 0 <= j < i ==> encode_utf8((#[trigger] views@[j])@).len() <= u32::MAX,
        decreases views@.len() - i,
    {
        let ghost ids = crate::body::strs(views@).take(i + 1);
        if !push_frame(out, &views[i]) {
            proof {
                assert(seq![e][0] == e);
                assert(e.1[i as int] == views@[i as int]@);
            }
            return false;
        }
        proof {
            assert(ids.drop_last() =~= crate::body::strs(views@).take(i as int));
            assert(ids.last() == views@[i as int]@);
            assert(out@ =~= head + encode_ids(ids));
        }
        i = i + 1;
    }
    proof {
        assert(crate::body::strs(views@).take(i as int) =~= crate::body::strs(views@));
        assert(seq![e][0] == e);
        assert(fits(seq![e])) by {
            assert forall|j: int| 0 <= j < e.1.len() implies encode_utf8(#[trigger] e.1[j]).len() <= u32::MAX by {
                assert(e.1[j] == views@[j]@);
            }
        }
        assert(out@ =~= start + encode_entry(e));
    }
    true
}

} // verus!
