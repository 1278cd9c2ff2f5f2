use vstd::prelude::*;
use crate::message::Message;

verus! {

/// The addresses a fan-out set holds, as character sequences.
pub open spec fn peer_views(ps: Seq<String>) -> Seq<Seq<char>> {
    Seq::new(ps.len(), |i: int| ps[i]@)
}

/// The peers of `ps` whose outcome flag in `ok` is set, in order.
pub open spec fn surviving(ps: Seq<Seq<char>>, ok: Seq<bool>) -> Seq<Seq<char>>
    decreases ps.len(),
{
    if ps.len() == 0 {
        Seq::empty()
    } else if ok[ps.len() - 1] {
        surviving(ps.drop_last(), ok.drop_last()).push(ps.last())
    } else {
        surviving(ps.drop_last(), ok.drop_last())
    }
}

fn filter_delivered(ps: &Vec<String>, ok: &Vec<bool>) -> (r: Vec<String>)
    requires
        ok@.len() == ps@.len(),
    ensures
        peer_views(r@) == surviving(peer_views(ps@), ok@),
{
    let mut kept: Vec<String> = Vec::new();
    let n = ps.len();
    proof {
        assert(peer_views(ps@).subrange(0, 0) =~= Seq::<Seq<char>>::empty());
        assert(ok@.subrange(0, 0) =~= Seq::<bool>::empty());
        assert(peer_views(kept@) =~= surviving(
            peer_views(ps@).subrange(0, 0),
            ok@.subrange(0, 0),
        ));
    }
    let mut i: usize = 0;
    while i < n
        invariant
            i <= n,
            n == ps@.len(),
            ok@.len() == n,
            peer_views(kept@) == surviving(peer_views(ps@).subrange(0, i as int), ok@.subrange(0, i as int)),
        decreases n - i,
    {
        let ghost pvs = peer_views(ps@).subrange(0, i as int + 1);
        let ghost oks = ok@.subrange(0, i as int + 1);
        proof {
            assert(pvs.drop_last() =~= peer_views(ps@).subrange(0, i as int));
            assert(oks.drop_last() =~= ok@.subrange(0, i as int));
            assert(pvs.last() == ps@[i as int]@);
            assert(oks.last() == ok@[i as int]);
        }
        if ok[i] {
            let ghost before = kept@;
            kept.push(ps[i].clone());
            proof {
                assert(peer_views(kept@) =~= peer_views(before).push(ps@[i as int]@));
            }
        }
        i = i + 1;
    }
    proof {
        assert(peer_views(ps@).subrange(0, n as int) =~= peer_views(ps@));
        assert(ok@.subrange(0, n as int) =~= ok@);
    }
    kept
}

fn filter_removed(ps: &Vec<String>, address: &String) -> (r: Vec<String>)
    ensures
        peer_views(r@) == peer_views(ps@).filter(|a: Seq<char>| a != address@),
{
    let mut kept: Vec<String> = Vec::new();
    let n = ps.len();
    proof {
        reveal(Seq::filter);
        assert(peer_views(ps@).subrange(0, 0) =~= Seq::<Seq<char>>::empty());
        assert(peer_views(kept@) =~= peer_views(ps@).subrange(0, 0).filter(
            |a: Seq<char>| a != address@,
        ));
    }
    let mut i: usize = 0;
    while i < n
        invariant
            i <= n,
            n == ps@.len(),
            peer_views(kept@) == peer_views(ps@).subrange(0, i as int).filter(
                |a: Seq<char>| a != address@,
            ),
        decreases n - i,
    {
        let ghost pred = |a: Seq<char>| a != address@;
        let ghost pvs = peer_views(ps@).subrange(0, i as int + 1);
        proof {
            assert(pvs.drop_last() =~= peer_views(ps@).subrange(0, i as int));
            assert(pvs.last() == ps@[i as int]@);
        }
        let same = ps[i].eq(address);
        if !same {
            let ghost before = kept@;
            kept.push(ps[i].clone());
            proof {
                reveal(Seq::filter);
                assert(peer_views(kept@) =~= peer_views(before).push(ps@[i as int]@));
                assert(pred(pvs.last()));
                assert(pvs.filter(pred) =~= pvs.drop_last().filter(pred).push(pvs.last()));
            }
        } else {
            proof {
                reveal(Seq::filter);
                assert(!pred(pvs.last()));
                assert(pvs.filter(pred) =~= pvs.drop_last().filter(pred));
            }
        }
        i = i + 1;
    }
    proof {
        assert(peer_views(ps@).subrange(0, n as int) =~= peer_views(ps@));
    }
    kept
}

/// Whether any address of `ps` reads `a`.
pub open spec fn has_peer(ps: Seq<Seq<char>>, a: Seq<char>) -> bool {
    exists|i: int| 0 <= i < ps.len() && ps[i] == a
}

/// Membership test against a list of addresses.
fn contains_peer(ps: &Vec<String>, a: &String) -> (r: bool)
    ensures
        r == has_peer(peer_views(ps@), a@),
{
    let n = ps.len();
    let mut i: usize = 0;
    while i < n
        invariant
            i <= n,
            n == ps@.len(),
            forall|j: int| 0 <= j < i ==> peer_views(ps@)[j] != a@,
        decreases n - i,
    {
        let same = ps[i].eq(a);
        if same {
            proof {
                assert(peer_views(ps@)[i as int] == a@);
            }
            return true;
        }
        i = i + 1;
    }
    false
}

/// The addresses of `ps` that are present in `other`, in order.
fn peers_present(ps: &Vec<String>, other: &Vec<String>) -> (r: Vec<String>)
    ensures
        peer_views(r@) == peer_views(ps@).filter(
            |a: Seq<char>| has_peer(peer_views(other@), a),
        ),
{
    let ghost pred = |a: Seq<char>| has_peer(peer_views(other@), a);
    let mut kept: Vec<String> = Vec::new();
    let n = ps.len();
    proof {
        reveal(Seq::filter);
        assert(peer_views(ps@).subrange(0, 0) =~= Seq::<Seq<char>>::empty());
        assert(peer_views(kept@) =~= peer_views(ps@).subrange(0, 0).filter(pred));
    }
    let mut i: usize = 0;
    while i < n
        invariant
            i <= n,
            n == ps@.len(),
            pred == (|a: Seq<char>| has_peer(peer_views(other@), a)),
            peer_views(kept@) == peer_views(ps@).subrange(0, i as int).filter(pred),
        decreases n - i,
    {
        let ghost pvs = peer_views(ps@).subrange(0, i as int + 1);
        proof {
            assert(pvs.drop_last() =~= peer_views(ps@).subrange(0, i as int));
            assert(pvs.last() == ps@[i as int]@);
        }
        let present = contains_peer(other, &ps[i]);
        if present {
            let ghost before = kept@;
            kept.push(ps[i].clone());
            proof {
                reveal(Seq::filter);
                assert(peer_views(kept@) =~= peer_views(before).push(ps@[i as int]@));
                assert(pvs.filter(pred) =~= pvs.drop_last().filter(pred).push(pvs.last()));
            }
        } else {
            proof {
                reveal(Seq::filter);
                assert(pvs.filter(pred) =~= pvs.drop_last().filter(pred));
            }
        }
        i = i + 1;
    }
    proof {
        assert(peer_views(ps@).subrange(0, n as int) =~= peer_views(ps@));
    }
    kept
}

/// The addresses of `ps` that are absent from `other`, in order.
fn peers_absent(ps: &Vec<String>, other: &Vec<String>) -> (r: Vec<String>)
    ensures
        peer_views(r@) == peer_views(ps@).filter(
            |a: Seq<char>| !has_peer(peer_views(other@), a),
        ),
{
    let ghost pred = |a: Seq<char>| !has_peer(peer_views(other@), a);
    let mut kept: Vec<String> = Vec::new();
    let n = ps.len();
    proof {
        reveal(Seq::filter);
        assert(peer_views(ps@).subrange(0, 0) =~= Seq::<Seq<char>>::empty());
        assert(peer_views(kept@) =~= peer_views(ps@).subrange(0, 0).filter(pred));
    }
    let mut i: usize = 0;
    while i < n
        invariant
            i <= n,
            n == ps@.len(),
            pred == (|a: Seq<char>| !has_peer(peer_views(other@), a)),
            peer_views(kept@) == peer_views(ps@).subrange(0, i as int).filter(pred),
        decreases n - i,
    {
        let ghost pvs = peer_views(ps@).subrange(0, i as int + 1);
        proof {
            assert(pvs.drop_last() =~= peer_views(ps@).subrange(0, i as int));
            assert(pvs.last() == ps@[i as int]@);
        }
        let present = contains_peer(other, &ps[i]);
        if !present {
            let ghost before = kept@;
            kept.push(ps[i].clone());
            proof {
                reveal(Seq::filter);
                assert(peer_views(kept@) =~= peer_views(before).push(ps@[i as int]@));
                assert(pvs.filter(pred) =~= pvs.drop_last().filter(pred).push(pvs.last()));
            }
        } else {
            proof {
                reveal(Seq::filter);
                assert(pvs.filter(pred) =~= pvs.drop_last().filter(pred));
            }
        }
        i = i + 1;
    }
    proof {
        assert(peer_views(ps@).subrange(0, n as int) =~= peer_views(ps@));
    }
    kept
}

/// The fan-out side of one topic: the live peer set, in the order writes go
/// out. A peer is live exactly when its handshake completed and it has not
/// since failed a write or been removed. The sockets themselves live with
/// the caller, one per address, in the same order.
pub struct PublisherStream {
    pub topic: String,
    pub peers: Vec<String>,
}

impl View for PublisherStream {
    type V = Seq<Seq<char>>;

    open spec fn view(&self) -> Seq<Seq<char>> {
        peer_views(self.peers@)
    }
}

impl PublisherStream {
    /// A stream for `topic` with no peers yet.
    pub fn new(topic: String) -> (r: PublisherStream)
        ensures
            r@ == Seq::<Seq<char>>::empty(),
            r.topic@ == topic@,
    {
        let r = PublisherStream { topic, peers: Vec::new() };
        proof {
            assert(r@ =~= Seq::<Seq<char>>::empty());
        }
        r
    }

    /// How many peers are live.
    pub fn peer_count(&self) -> (n: usize)
        ensures
            n == self@.len(),
    {
        self.peers.len()
    }

    /// The live peer at one fan-out position.
    pub fn peer_at(&self, i: usize) -> (r: &str)
        requires
            i < self@.len(),
        ensures
            r@ == self@[i as int],
    {
        self.peers[i].as_str()
    }

    /// Records a peer whose handshake completed: it joins the fan-out set.
    /// An address evicted earlier may join again; attempts are independent.
    pub fn add_peer(&mut self, address: String)
        ensures
            final(self)@ == old(self)@.push(address@),
            final(self).topic == old(self).topic,
    {
        let ghost before = self@;
        let ghost a = address@;
        self.peers.push(address);
        proof {
            assert(self@ =~= before.push(a));
        }
    }

    /// Serializes a value once; the caller writes these same bytes to every
    /// live peer and then reports the outcomes to `retain_delivered`.
    pub fn serialize<T: Message>(&self, value: &T) -> (r: Vec<u8>)
        ensures
            r@ == value.wire(),
    {
        let mut out: Vec<u8> = Vec::new();
        value.encode_msg(&mut out);
        proof {
            assert(out@ =~= value.wire());
        }
        out
    }

    /// Applies one fan-out round's write outcomes, flag `i` for peer `i`:
    /// every peer whose write failed leaves the set, every other stays, in
    /// order. This is the sole eviction on failure; there is no retry.
    pub fn retain_delivered(&mut self, ok: &Vec<bool>)
        requires
            ok@.len() == old(self)@.len(),
        ensures
            final(self)@ == surviving(old(self)@, ok@),
            final(self).topic == old(self).topic,
    {
        let kept = filter_delivered(&self.peers, ok);
        self.peers = kept;
    }

    /// Reconciles the live set with one directory report: `reported` is the
    /// full list of subscribed peer addresses as the directory now sees
    /// them. Live peers it no longer lists are dropped at once; the
    /// addresses it lists that are not yet live come back, in the reported
    /// order, for the caller to handshake with and then `add_peer`.
    pub fn directory_update(&mut self, reported: &Vec<String>) -> (to_add: Vec<String>)
        ensures
            peer_views(to_add@) == peer_views(reported@).filter(
                (|a: Seq<char>| !has_peer(old(self)@, a)),
            ),
            final(self)@ == old(self)@.filter(
                (|a: Seq<char>| has_peer(peer_views(reported@), a)),
            ),
            final(self).topic == old(self).topic,
    {
        let to_add = peers_absent(reported, &self.peers);
        let kept = peers_present(&self.peers, reported);
        self.peers = kept;
        to_add
    }

    /// Drops every connection to `address`; absence is not an error.
    pub fn remove_peer(&mut self, address: &String)
        ensures
            final(self)@ == old(self)@.filter(|a: Seq<char>| a != address@),
            final(self).topic == old(self).topic,
    {
        let kept = filter_removed(&self.peers, address);
        self.peers = kept;
    }
}

} // verus!
