use crate::piece::{all_piece_types, PieceType};
use rand::seq::SliceRandom;
use vstd::prelude::*;
use vstd::seq_lib::*;

verus! {

/// Whether `s` holds every piece type exactly once, in some order.
pub open spec fn is_full_bag(s: Seq<PieceType>) -> bool {
    s.to_multiset() == all_piece_types().to_multiset()
}

/// The pieces handed out by drawing from `s` until it is empty: the last one first.
pub open spec fn draws(s: Seq<PieceType>) -> Seq<PieceType>
    decreases s.len(),
{
    if s.len() == 0 {
        Seq::empty()
    } else {
        seq![s.last()] + draws(s.drop_last())
    }
}

/// `p` is what a draw from a bag holding `before` hands out, leaving `after`:
/// the last piece, or, from an empty bag, the last of a fresh full bag.
pub open spec fn drawn_from(before: Seq<PieceType>, after: Seq<PieceType>, p: PieceType) -> bool {
    if before.len() > 0 {
        p == before.last() && after == before.drop_last()
    } else {
        exists|s: Seq<PieceType>| is_full_bag(s) && p == s.last() && after == s.drop_last()
    }
}

/// Relies on rand's `SliceRandom::shuffle` over `thread_rng`: it only swaps
/// elements, so the result is a permutation of the input.
#[verifier::external_body]
fn shuffle_pieces(pieces: &mut Vec<PieceType>)
    ensures
        final(pieces)@.to_multiset() == old(pieces)@.to_multiset(),
{
    pieces.shuffle(&mut rand::thread_rng());
}

/// The seven-piece randomizer: a shuffled permutation of all piece types,
/// handed out one at a time and refilled when exhausted.
#[derive(Clone, Debug)]
pub struct Bag {
    items: Vec<PieceType>,
}

impl View for Bag {
    type V = Seq<PieceType>;

    closed spec fn view(&self) -> Seq<PieceType> {
        self.items@
    }
}

impl Bag {
    pub fn new() -> (r: Bag)
        ensures
            r@ == Seq::<PieceType>::empty(),
    {
        Bag { items: Vec::new() }
    }

    /// Number of pieces left before the next refill.
    pub fn len(&self) -> (r: usize)
        ensures
            r == self@.len(),
    {
        self.items.len()
    }

    /// Replaces the contents with `order`, a permutation of all piece types;
    /// pieces are then drawn from its end.
    pub fn refill_with(&mut self, order: Vec<PieceType>)
        requires
            is_full_bag(order@),
        ensures
            final(self)@ == order@,
    {
        self.items = order;
    }

    /// Replaces the contents with a fresh random permutation of all piece types.
    pub fn refill(&mut self)
        ensures
            is_full_bag(final(self)@),
    {
        let all = PieceType::all();
        let mut pieces: Vec<PieceType> = Vec::new();
        let mut i: usize = 0;
        while i < 7
            invariant
                all@ == all_piece_types(),
                i <= 7,
                pieces@ == all@.take(i as int),
            decreases 7 - i,
        {
            pieces.push(all[i]);
            i = i + 1;
            assert(pieces@ =~= all@.take(i as int));
        }
        assert(all@.take(7) =~= all@);
        shuffle_pieces(&mut pieces);
        self.refill_with(pieces);
    }

    /// Takes the next piece, refilling the bag first when it is empty.
    pub fn draw(&mut self) -> (r: PieceType)
        ensures
            drawn_from(old(self)@, final(self)@, r),
    {
        if self.items.len() == 0 {
            self.refill();
            let ghost full = self@;
            proof {
                broadcast use group_to_multiset_ensures;

                assert(full.to_multiset().len() == all_piece_types().to_multiset().len());
                assert(full.len() == 7);
            }
            let r = self.items.pop().unwrap();
            assert(is_full_bag(full) && r == full.last() && self@ == full.drop_last());
            r
        } else {
            self.items.pop().unwrap()
        }
    }
}

/// Seven draws from a freshly filled bag, with no refill in between, hand out
/// every piece type exactly once.
pub proof fn lemma_full_bag_draws_each_type_once(s: Seq<PieceType>)
    requires
        is_full_bag(s),
    ensures
        draws(s).len() == 7,
        draws(s).no_duplicates(),
        forall|p: PieceType| draws(s).contains(p),
{
    broadcast use group_to_multiset_ensures;

    lemma_draws_same_pieces(s);
    let all = all_piece_types();
    assert(draws(s).to_multiset().len() == all.to_multiset().len());
    assert(all.no_duplicates());
    all.lemma_multiset_has_no_duplicates();
    assert forall|p: PieceType| all.contains(p) by {
        match p {
            PieceType::I => assert(all[0] == p),
            PieceType::O => assert(all[1] == p),
            PieceType::T => assert(all[2] == p),
            PieceType::S => assert(all[3] == p),
            PieceType::Z => assert(all[4] == p),
            PieceType::J => assert(all[5] == p),
            PieceType::L => assert(all[6] == p),
        }
    }
    assert forall|p: PieceType| draws(s).to_multiset().contains(p) implies draws(
        s,
    ).to_multiset().count(p) == 1 by {
        assert(all.to_multiset().contains(p));
    }
    draws(s).lemma_multiset_has_no_duplicates_conv();
    assert forall|p: PieceType| draws(s).contains(p) by {
        assert(all.to_multiset().count(p) > 0);
    }
}

/// Drawing a bag empty hands out exactly its pieces.
pub proof fn lemma_draws_same_pieces(s: Seq<PieceType>)
    ensures
        draws(s).to_multiset() == s.to_multiset(),
    decreases s.len(),
{
    broadcast use group_to_multiset_ensures;

    if s.len() > 0 {
        let rest = s.drop_last();
        lemma_draws_same_pieces(rest);
        lemma_multiset_commutative(seq![s.last()], draws(rest));
        assert(seq![s.last()].to_multiset() =~= Seq::<PieceType>::empty().push(s.last()).to_multiset()) by {
            assert(seq![s.last()] =~= Seq::<PieceType>::empty().push(s.last()));
        }
        assert(rest.push(s.last()) =~= s);
        assert(draws(s).to_multiset() =~= s.to_multiset());
    }
}

} // verus!
