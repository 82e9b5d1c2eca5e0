//! A stable order by descending key.

use vstd::prelude::*;

verus! {

/// Item `a` goes before item `b`: a larger key, or an equal key and an
/// earlier position.
pub open spec fn comes_before(keys: Seq<u128>, a: int, b: int) -> bool {
    keys[a] > keys[b] || (keys[a] == keys[b] && a < b)
}

/// `order` lists the positions of `keys` from the largest key down, equal
/// keys in the order they came in.
pub open spec fn is_stable_descending(keys: Seq<u128>, order: Seq<usize>) -> bool {
    &&& order.len() == keys.len()
    &&& forall|p: int| 0 <= p < order.len() ==> #[trigger] order[p] < keys.len()
    &&& forall|p: int, q: int|
        0 <= p < q < order.len() ==> comes_before(keys, #[trigger] order[p] as int, #[trigger] order[q] as int)
}

/// The positions of `keys` from the largest key down, equal keys kept in
/// the order they came in.
pub fn stable_descending_order(keys: &Vec<u128>) -> (r: Vec<usize>)
    ensures
        is_stable_descending(keys@, r@),
{
    let mut out: Vec<usize> = Vec::new();
    let mut i: usize = 0;
    while i < keys.len()
        invariant
            i <= keys@.len(),
            out@.len() == i,
            forall|p: int| 0 <= p < out@.len() ==> #[trigger] out@[p] < i,
            forall|p: int, q: int|
                0 <= p < q < out@.len() ==> comes_before(keys@, #[trigger] out@[p] as int, #[trigger] out@[q] as int),
        decreases keys@.len() - i,
    {
        let key = keys[i];
        let mut pos: usize = 0;
        while pos < out.len() && keys[out[pos]] >= key
            invariant
                pos <= out@.len(),
                out@.len() == i,
                i < keys@.len(),
                key == keys@[i as int],
                forall|p: int| 0 <= p < out@.len() ==> #[trigger] out@[p] < i,
                forall|p: int| 0 <= p < pos ==> keys@[#[trigger] out@[p] as int] >= key,
            decreases out@.len() - pos,
        {
            pos = pos + 1;
        }
        let ghost before = out@;
        proof {
            assert forall|q: int| pos <= q < before.len() implies keys@[#[trigger] before[q] as int] < key by {
                if q > pos {
                    assert(comes_before(keys@, before[pos as int] as int, before[q] as int));
                }
            }
        }
        out.insert(pos, i);
        assert(forall|p: int| 0 <= p < pos ==> out@[p] == before[p]);
        assert(forall|p: int| pos < p < out@.len() ==> out@[p] == before[p - 1]);
        assert(out@[pos as int] == i);
        assert forall|p: int, q: int|
            0 <= p < q < out@.len() implies comes_before(keys@, #[trigger] out@[p] as int, #[trigger] out@[q] as int) by {
            if q < pos {
            } else if q == pos {
                assert(keys@[before[p] as int] >= key);
            } else if p < pos {
                assert(out@[q] == before[q - 1]);
            } else if p == pos {
                assert(keys@[before[q - 1] as int] < key);
            } else {
                assert(out@[p] == before[p - 1] && out@[q] == before[q - 1]);
            }
        }
        i = i + 1;
    }
    out
}

} // verus!
