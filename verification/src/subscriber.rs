use vstd::prelude::*;
use crate::message::{lemma_count_wire_injective, CountMsg, Message};

verus! {

/// The wire bytes of a run of messages, in delivery order.
pub open spec fn wires_of<T: Message>(ms: Seq<T>) -> Seq<u8>
    decreases ms.len(),
{
    if ms.len() == 0 {
        Seq::empty()
    } else {
        wires_of(ms.drop_last()) + ms.last().wire()
    }
}

/// Delivery preserves the peer's write order: the run's bytes start with the
/// first delivered value's wire form, followed by the rest of the run.
pub proof fn lemma_fifo_front<T: Message>(ms: Seq<T>)
    requires
        ms.len() > 0,
    ensures
        wires_of(ms) == ms[0].wire() + wires_of(ms.drop_first()),
    decreases ms.len(),
{
    if ms.len() == 1 {
        assert(ms.drop_last() =~= Seq::<T>::empty());
        assert(ms.drop_first() =~= Seq::<T>::empty());
        assert(wires_of(ms) =~= ms[0].wire() + wires_of(ms.drop_first()));
    } else {
        lemma_fifo_front(ms.drop_last());
        assert(ms.drop_last()[0] == ms[0]);
        assert(ms.drop_last().drop_first() =~= ms.drop_first().drop_last());
        assert(ms.drop_first().last() == ms.last());
        assert(wires_of(ms) =~= ms[0].wire() + wires_of(ms.drop_first()));
    }
}

/// The decode loop's pure core: decodes instances out of buffered stream
/// bytes, one after another from `start`, until the remaining bytes do not
/// form one more instance. The values come back in the peer's write order;
/// their wire forms are exactly the bytes consumed, and the final position,
/// where no further instance stands, says where decoding stopped.
pub fn decode_available<T: Message>(buf: &[u8], start: usize) -> (r: (Vec<T>, usize))
    requires
        start <= buf@.len(),
    ensures
        start <= r.1 <= buf@.len(),
        wires_of(r.0@) == buf@.subrange(start as int, r.1 as int),
        T::spec_decode(buf@, r.1 as int) is None,
{
    let mut out: Vec<T> = Vec::new();
    let mut pos: usize = start;
    let mut done: bool = false;
    while !done
        invariant
            start <= pos <= buf@.len(),
            wires_of(out@) == buf@.subrange(start as int, pos as int),
            done ==> T::spec_decode(buf@, pos as int) is None,
        decreases buf@.len() - pos + (if done { 0int } else { 1int }),
    {
        match T::decode_msg(buf, pos) {
            Ok(p) => {
                let ghost prev = out@;
                let next = p.1;
                out.push(p.0);
                proof {
                    assert(out@.drop_last() =~= prev);
                    assert(out@.last() == out@[out@.len() - 1]);
                    assert(wires_of(out@) =~= buf@.subrange(start as int, next as int));
                }
                pos = next;
            },
            Err(_) => {
                proof {
                    assert(T::spec_decode(buf@, pos as int) is None);
                }
                done = true;
            },
        }
    }
    (out, pos)
}

proof fn lemma_count_wires_len(ms: Seq<CountMsg>)
    ensures
        wires_of(ms).len() == 4 * ms.len(),
    decreases ms.len(),
{
    if ms.len() > 0 {
        lemma_count_wires_len(ms.drop_last());
    }
}

/// A run of counts is determined by its wire bytes: two runs with the same
/// stream bytes are the same run, so the consumer's decoded run is exactly
/// the run the peer wrote, value for value and in order.
pub proof fn lemma_count_run_unique(xs: Seq<CountMsg>, ys: Seq<CountMsg>)
    requires
        wires_of(xs) == wires_of(ys),
    ensures
        xs == ys,
    decreases xs.len(),
{
    lemma_count_wires_len(xs);
    lemma_count_wires_len(ys);
    if xs.len() == 0 {
        assert(xs =~= ys);
    } else {
        lemma_fifo_front(xs);
        lemma_fifo_front(ys);
        assert(wires_of(xs).subrange(0, 4) =~= xs[0].wire());
        assert(wires_of(ys).subrange(0, 4) =~= ys[0].wire());
        assert(xs[0].wire() == ys[0].wire());
        lemma_count_wire_injective(xs[0], ys[0]);
        assert(xs[0] == ys[0]);
        assert(xs.len() == ys.len());
        assert(wires_of(xs.drop_first()) =~= wires_of(xs).subrange(4, wires_of(xs).len() as int));
        assert(wires_of(ys.drop_first()) =~= wires_of(ys).subrange(4, wires_of(ys).len() as int));
        lemma_count_run_unique(xs.drop_first(), ys.drop_first());
        assert forall|i: int| 0 <= i < xs.len() implies xs[i] == ys[i] by {
            if i > 0 {
                assert(xs.drop_first()[i - 1] == xs[i]);
                assert(ys.drop_first()[i - 1] == ys[i]);
            }
        }
        assert(xs =~= ys);
    }
}

} // verus!
