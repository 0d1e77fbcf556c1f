//! Episodic Blackjack, simplified for tabular Monte-Carlo control.
//!
//! Cards are drawn uniformly from the values 1 through 10, so a face card
//! has probability one tenth rather than the four thirteenths of a real
//! deck; this follows the classic simplification. An ace counts as 11 when
//! it can without busting (the "usable ace"), reverting to 1 when a later
//! draw would otherwise bust. Both the player and the dealer are dealt two
//! cards on reset. Actions: `0` hits, `1` sticks. After a stick the dealer
//! draws up to 17 and the hands are compared; rewards are terminal-only and
//! one of minus one, zero, plus one, in millionths.

use vstd::prelude::*;

verus! {

use crate::codec::{encode_state, state_key};
use crate::errors::RlError;
use crate::math::UNIT;
use crate::random::random_in_range;

/// One playing card. Only the value matters to the rules; aces are held at
/// face value 1 and counted as 11 through the hand's running sum.
pub struct Card {
    value: u32,
    suit: String,
}

/// The dealer's hand: a running sum over drawn cards, aces counted as 11
/// when dealt onto ten or less.
pub struct Dealer {
    hand: Vec<Card>,
    sum: u32,
}

/// The player's hand: a running sum, plus the usable-ace flag that is true
/// exactly while an ace is counted as 11.
pub struct Player {
    hand: Vec<Card>,
    usable_ace: bool,
    sum: u32,
}

/// A hand that draws cards and can bust.
pub trait BlackJackPlayer: Sized {
    /// The hand's well-formedness.
    spec fn wf(&self) -> bool;

    /// The hand's effective sum.
    spec fn sum_spec(&self) -> int;

    /// How one draw of a card with face value `v` changes the hand.
    spec fn draw_rel(&self, post: Self, v: int) -> bool;

    /// Draws one card, uniformly from face values 1 through 10.
    fn draw_card(&mut self)
        requires
            old(self).wf(),
            old(self).sum_spec() <= 21,
        ensures
            final(self).wf(),
            exists|v: int| 1 <= v <= 10 && old(self).draw_rel(*final(self), v),
    ;

    /// The hand's effective sum.
    fn get_sum(&self) -> (r: u32)
        ensures
            r as int == self.sum_spec(),
    ;

    /// Whether the hand went over 21.
    fn did_bust(&self) -> (r: bool)
        ensures
            r == (self.sum_spec() > 21),
    {
        self.get_sum() > 21
    }
}

/// Draws a card: a uniform face value from 1 through 10.
fn random_card() -> (c: Card)
    ensures
        1 <= c.value <= 10,
{
    let value = random_in_range(1, 11) as u32;
    let suit = "hearts".to_owned();
    Card { value, suit }
}

/// The sum of the face values of a hand.
pub open spec fn raw_sum(hand: Seq<Card>) -> int
    decreases hand.len(),
{
    if hand.len() == 0 {
        0
    } else {
        raw_sum(hand.drop_last()) + hand.last().spec_value()
    }
}

impl Card {
    /// The card's face value.
    pub closed spec fn spec_value(&self) -> int {
        self.value as int
    }
}

impl Dealer {
    pub fn new() -> (d: Dealer)
        ensures
            d.wf(),
            d.sum_spec() == 0,
            d.hand_len() == 0,
    {
        Dealer { hand: Vec::new(), sum: 0 }
    }

    /// How many cards the dealer holds.
    pub closed spec fn hand_len(&self) -> int {
        self.hand@.len() as int
    }
}

impl BlackJackPlayer for Dealer {
    /// Cards are face values; the sum counts each card at face value or,
    /// for an ace dealt onto ten or less, at 11.
    closed spec fn wf(&self) -> bool {
        &&& forall|i: int|
            0 <= i < self.hand@.len() ==> 1 <= #[trigger] self.hand@[i].spec_value() <= 10
        &&& raw_sum(self.hand@) <= self.sum <= raw_sum(self.hand@) + 10 * self.hand@.len()
    }

    closed spec fn sum_spec(&self) -> int {
        self.sum as int
    }

    closed spec fn draw_rel(&self, post: Self, v: int) -> bool {
        &&& post.hand@.drop_last() == self.hand@
        &&& post.hand@.len() == self.hand@.len() + 1
        &&& post.hand@.last().spec_value() == v
        &&& if v == 1 && self.sum <= 10 {
            post.sum == self.sum + 11
        } else {
            post.sum == self.sum + v
        }
    }

    fn draw_card(&mut self) {
        let mut card = random_card();
        if card.value == 1 && self.sum <= 10 {
            card.value = 11;
        }
        let ghost v: int = if card.value == 11 { 1 } else { card.value as int };
        let ghost pre = *self;
        self.sum = self.sum + card.value;
        let face = if card.value == 11 { 1 } else { card.value };
        self.hand.push(Card { value: face, suit: card.suit });
        proof {
            assert(self.hand@.drop_last() =~= pre.hand@);
            assert(pre.draw_rel(*self, v));
            assert(raw_sum(self.hand@) == raw_sum(pre.hand@) + v);
            assert(forall|i: int|
                0 <= i < pre.hand@.len() ==> #[trigger] self.hand@[i].spec_value() == pre.hand@[
                i].spec_value());
        }
    }

    fn get_sum(&self) -> (r: u32) {
        self.sum
    }
}

impl Player {
    pub fn new() -> (p: Player)
        ensures
            p.wf(),
            p.sum_spec() == 0,
            !p.usable_ace_spec(),
            p.hand_len() == 0,
    {
        Player { hand: Vec::new(), usable_ace: false, sum: 0 }
    }

    /// Whether an ace is currently counted as 11.
    pub closed spec fn usable_ace_spec(&self) -> bool {
        self.usable_ace
    }

    /// How many cards the player holds.
    pub closed spec fn hand_len(&self) -> int {
        self.hand@.len() as int
    }

    /// Whether the player currently holds a usable ace.
    pub fn has_usable_ace(&self) -> (r: bool)
        ensures
            r == self.usable_ace_spec(),
    {
        self.usable_ace
    }
}

impl BlackJackPlayer for Player {
    /// The running sum counts each card at face value, plus ten exactly
    /// when the usable-ace flag is up; the flag is up only while an ace is
    /// held and the sum has not passed 21.
    closed spec fn wf(&self) -> bool {
        &&& forall|i: int|
            0 <= i < self.hand@.len() ==> 1 <= #[trigger] self.hand@[i].spec_value() <= 10
        &&& self.sum == raw_sum(self.hand@) + (if self.usable_ace {
            10int
        } else {
            0int
        })
        &&& self.usable_ace ==> {
            &&& 11 <= self.sum <= 21
            &&& exists|i: int| 0 <= i < self.hand@.len() && #[trigger] self.hand@[i].spec_value() == 1
        }
        &&& self.sum <= 31
    }

    closed spec fn sum_spec(&self) -> int {
        self.sum as int
    }

    closed spec fn draw_rel(&self, post: Self, v: int) -> bool {
        &&& post.hand@.drop_last() == self.hand@
        &&& post.hand@.len() == self.hand@.len() + 1
        &&& post.hand@.last().spec_value() == v
        &&& if v == 1 && self.sum <= 10 {
            post.sum == self.sum + 11 && post.usable_ace
        } else if self.usable_ace && self.sum + v > 21 {
            post.sum == self.sum + v - 10 && !post.usable_ace
        } else {
            post.sum == self.sum + v && post.usable_ace == self.usable_ace
        }
    }

    fn draw_card(&mut self) {
        let mut card = random_card();
        let ghost pre = *self;
        let ghost v: int = card.value as int;
        if card.value == 1 && self.sum <= 10 {
            card.value = 11;
            self.usable_ace = true;
        }
        if self.sum + card.value > 21 && self.usable_ace {
            self.sum = self.sum - 10;
            self.usable_ace = false;
        }
        self.sum = self.sum + card.value;
        let face = if card.value == 11 { 1 } else { card.value };
        self.hand.push(Card { value: face, suit: card.suit });
        proof {
            assert(self.hand@.drop_last() =~= pre.hand@);
            assert(pre.draw_rel(*self, v));
            assert(raw_sum(self.hand@) == raw_sum(pre.hand@) + v);
            assert(forall|i: int|
                0 <= i < pre.hand@.len() ==> #[trigger] self.hand@[i].spec_value() == pre.hand@[
                i].spec_value());
        }
    }

    fn get_sum(&self) -> (r: u32) {
        self.sum
    }
}

/// The game: the two hands, whose turn it is, and how many steps the
/// episode has taken.
pub struct Blackjack {
    pub dealer: Dealer,
    pub player: Player,
    pub is_player_turn: bool,
    pub step_count: usize,
}

/// The terminal reward, in millionths: minus one when the player busts,
/// plus one when the dealer busts, otherwise the sign of the comparison.
pub open spec fn outcome_spec(p: int, d: int) -> int {
    if p > 21 {
        -(UNIT as int)
    } else if d > 21 {
        UNIT as int
    } else if p > d {
        UNIT as int
    } else if p < d {
        -(UNIT as int)
    } else {
        0
    }
}

/// How far the episode can still run: zero when terminal, one during the
/// dealer's turn, and otherwise a bound that every player move strictly
/// lowers. It bounds the number of remaining steps of any episode.
pub open spec fn episode_measure(b: &Blackjack) -> int {
    if b.spec_is_terminal() {
        0
    } else if !b.is_player_turn {
        1
    } else {
        2 + 2 * (22 - b.player.sum_spec()) + (if b.player.usable_ace_spec() {
            19int
        } else {
            0int
        })
    }
}

/// Hand sums never go negative.
pub proof fn lemma_sums_nonneg(b: &Blackjack)
    ensures
        b.player.sum_spec() >= 0,
        b.dealer.sum_spec() >= 0,
{
}

/// The episode measure of a well-formed game is at most 65.
pub proof fn lemma_measure_bounds(b: &Blackjack)
    ensures
        0 <= episode_measure(b) <= 65,
{
}

/// The state key enumerated at `idx` by [`Blackjack::all_possible_states`].
pub open spec fn enumerated_state(idx: int) -> Seq<char> {
    state_key((12 + idx / 20) as nat, (2 + (idx % 20) / 2) as nat, idx % 2 == 1)
}

proof fn lemma_enumerated_index(i: int, j: int, a: int)
    requires
        12 <= i < 22,
        2 <= j < 12,
        0 <= a < 2,
    ensures
        enumerated_state((i - 12) * 20 + (j - 2) * 2 + a) == state_key(
            i as nat,
            j as nat,
            a == 1,
        ),
{
    let t = (i - 12) * 20 + (j - 2) * 2 + a;
    assert(t / 20 == i - 12 && t % 20 == (j - 2) * 2 + a) by (nonlinear_arith)
        requires
            t == (i - 12) * 20 + (j - 2) * 2 + a,
            2 <= j < 12,
            0 <= a < 2,
            12 <= i < 22,
    ;
    assert((t % 20) / 2 == j - 2 && (t % 20) % 2 == a) by (nonlinear_arith)
        requires
            t % 20 == (j - 2) * 2 + a,
            2 <= j < 12,
            0 <= a < 2,
    ;
    assert(t % 2 == a) by (nonlinear_arith)
        requires
            t == (i - 12) * 20 + (j - 2) * 2 + a,
            0 <= a < 2,
    ;
}

impl Blackjack {
    /// Fresh episode state: empty hands, the player to move, no steps
    /// taken.
    pub open spec fn wf(&self) -> bool {
        &&& self.player.wf()
        &&& self.dealer.wf()
        &&& self.dealer.sum_spec() <= 27
        &&& self.is_player_turn ==> self.dealer.sum_spec() <= 21
    }

    /// The episode is over: the player busted, the dealer busted, or the
    /// dealer has finished drawing.
    pub open spec fn spec_is_terminal(&self) -> bool {
        self.player.sum_spec() > 21 || self.dealer.sum_spec() > 21 || (!self.is_player_turn
            && self.dealer.sum_spec() >= 17)
    }

    pub fn new() -> (b: Blackjack)
        ensures
            b.wf(),
            b.player.sum_spec() == 0,
            b.dealer.sum_spec() == 0,
            !b.player.usable_ace_spec(),
            b.player.hand_len() == 0,
            b.dealer.hand_len() == 0,
            b.is_player_turn,
            b.step_count == 0,
            !b.spec_is_terminal(),
    {
        Blackjack {
            dealer: Dealer::new(),
            player: Player::new(),
            is_player_turn: true,
            step_count: 0,
        }
    }

    /// Starts a fresh episode: deals two cards to the player and two to
    /// the dealer, the classic two-and-two formulation, and hands the turn
    /// to the player.
    pub fn reset(&mut self)
        ensures
            final(self).wf(),
            final(self).is_player_turn,
            final(self).step_count == 0,
            !final(self).spec_is_terminal(),
            final(self).player.hand_len() == 2,
            final(self).dealer.hand_len() == 2,
            4 <= final(self).player.sum_spec() <= 21,
            4 <= final(self).dealer.sum_spec() <= 21,
            exists|p0: Player, pmid: Player, v1: int, v2: int|
                {
                    &&& p0.sum_spec() == 0
                    &&& !p0.usable_ace_spec()
                    &&& p0.hand_len() == 0
                    &&& 1 <= v1 <= 10
                    &&& 1 <= v2 <= 10
                    &&& #[trigger] p0.draw_rel(pmid, v1)
                    &&& #[trigger] pmid.draw_rel(final(self).player, v2)
                },
            exists|d0: Dealer, dmid: Dealer, w1: int, w2: int|
                {
                    &&& d0.sum_spec() == 0
                    &&& d0.hand_len() == 0
                    &&& 1 <= w1 <= 10
                    &&& 1 <= w2 <= 10
                    &&& #[trigger] d0.draw_rel(dmid, w1)
                    &&& #[trigger] dmid.draw_rel(final(self).dealer, w2)
                },
    {
        self.dealer = Dealer::new();
        self.player = Player::new();
        let ghost p0 = self.player;
        let ghost d0 = self.dealer;
        self.player.draw_card();
        proof {
            let v = choose|v: int| 1 <= v <= 10 && #[trigger] p0.draw_rel(self.player, v);
            assert(self.player.sum_spec() <= 11);
        }
        let ghost p1 = self.player;
        self.dealer.draw_card();
        proof {
            let v = choose|v: int| 1 <= v <= 10 && #[trigger] d0.draw_rel(self.dealer, v);
            assert(self.dealer.sum_spec() <= 11);
        }
        let ghost d1 = self.dealer;
        self.player.draw_card();
        proof {
            let v = choose|v: int| 1 <= v <= 10 && p1.draw_rel(self.player, v);
            assert(self.player.sum_spec() <= 21);
        }
        self.dealer.draw_card();
        proof {
            let v = choose|v: int| 1 <= v <= 10 && d1.draw_rel(self.dealer, v);
            assert(self.dealer.sum_spec() <= 21);
        }
        self.is_player_turn = true;
        self.step_count = 0;
        proof {
            let v1 = choose|v: int| 1 <= v <= 10 && #[trigger] p0.draw_rel(p1, v);
            let v2 = choose|v: int| 1 <= v <= 10 && #[trigger] p1.draw_rel(self.player, v);
            let w1 = choose|v: int| 1 <= v <= 10 && #[trigger] d0.draw_rel(d1, v);
            let w2 = choose|v: int| 1 <= v <= 10 && #[trigger] d1.draw_rel(self.dealer, v);
            assert(self.player.hand_len() == 2);
            assert(self.dealer.hand_len() == 2);
            assert(self.player.sum_spec() >= 4);
            assert(self.dealer.sum_spec() >= 4);
        }
    }

    /// Advances one timestep. A hit draws the player a card; a stick hands
    /// the turn to the dealer; on the dealer's turn the dealer draws up to
    /// 17. The reward is zero until the episode ends and the terminal
    /// outcome when it does. An action outside the action set is refused.
    pub fn step(&mut self, action: usize) -> (r: Result<i64, RlError>)
        requires
            old(self).wf(),
            !old(self).spec_is_terminal(),
            old(self).step_count < usize::MAX,
        ensures
            final(self).wf(),
            r is Err <==> action >= 2,
            r is Err ==> r == Err::<i64, RlError>(RlError::InvalidAction) && *final(self) == *old(
                self,
            ),
            r is Ok ==> final(self).step_count == old(self).step_count + 1,
            r matches Ok(rw) ==> rw == if final(self).spec_is_terminal() {
                outcome_spec(final(self).player.sum_spec(), final(self).dealer.sum_spec())
            } else {
                0
            },
            r matches Ok(rw) ==> (final(self).spec_is_terminal() ==> rw == -(UNIT as int) || rw
                == 0 || rw == UNIT as int),
            r matches Ok(rw) ==> (!final(self).spec_is_terminal() ==> rw == 0),
            r is Ok && old(self).is_player_turn && action == 0 ==> {
                &&& exists|v: int|
                    1 <= v <= 10 && old(self).player.draw_rel(final(self).player, v)
                &&& final(self).dealer == old(self).dealer
                &&& final(self).is_player_turn
            },
            r is Ok && old(self).is_player_turn && action == 1 ==> {
                &&& final(self).player == old(self).player
                &&& final(self).dealer == old(self).dealer
                &&& !final(self).is_player_turn
            },
            r is Ok && !old(self).is_player_turn ==> {
                &&& final(self).player == old(self).player
                &&& !final(self).is_player_turn
                &&& final(self).dealer.sum_spec() >= 17
                &&& final(self).spec_is_terminal()
            },
            r is Ok ==> episode_measure(final(self)) < episode_measure(old(self)),
    {
        if action >= 2 {
            return Err(RlError::InvalidAction);
        }
        self.step_count = self.step_count + 1;
        if self.is_player_turn {
            if action == 0 {
                self.player.draw_card();
            } else {
                self.is_player_turn = false;
            }
        } else {
            let ghost snap = *self;
            while self.dealer.get_sum() < 17
                invariant
                    self.player == snap.player,
                    self.is_player_turn == snap.is_player_turn,
                    self.step_count == snap.step_count,
                    self.dealer.wf(),
                    self.dealer.sum_spec() <= 27,
                decreases 27 - self.dealer.sum_spec(),
            {
                let ghost pre_dealer = self.dealer;
                self.dealer.draw_card();
                proof {
                    let v = choose|v: int|
                        1 <= v <= 10 && #[trigger] pre_dealer.draw_rel(self.dealer, v);
                    assert(self.dealer.sum_spec() > pre_dealer.sum_spec());
                }
            }
        }
        let rw: i64 = if self.is_terminal() {
            if self.player.did_bust() {
                -UNIT
            } else if self.dealer.did_bust() {
                UNIT
            } else if self.player.get_sum() > self.dealer.get_sum() {
                UNIT
            } else if self.player.get_sum() < self.dealer.get_sum() {
                -UNIT
            } else {
                0
            }
        } else {
            0
        };
        proof {
            let pre = *old(self);
            if pre.is_player_turn && action == 0 {
                let v = choose|v: int| 1 <= v <= 10 && #[trigger] pre.player.draw_rel(self.player, v);
                assert(episode_measure(self) < episode_measure(&pre));
            }
        }
        Ok(rw)
    }

    /// The current state key: player sum, dealer sum and the usable-ace
    /// flag, encoded as text.
    pub fn get_state(&self) -> (r: String)
        requires
            self.wf(),
        ensures
            r@ == state_key(
                self.player.sum_spec() as nat,
                self.dealer.sum_spec() as nat,
                self.player.usable_ace_spec(),
            ),
    {
        let p = self.player.get_sum();
        let d = self.dealer.get_sum();
        let u = self.player.has_usable_ace();
        encode_state(p as usize, d as usize, u)
    }

    /// The action indices: hit is `0`, stick is `1`.
    pub fn get_actions(&self) -> (r: Vec<usize>)
        ensures
            r@ == seq![0usize, 1usize],
    {
        let mut v: Vec<usize> = Vec::new();
        v.push(0);
        v.push(1);
        proof {
            assert(v@ =~= seq![0usize, 1usize]);
        }
        v
    }

    /// Whether the episode is over.
    pub fn is_terminal(&self) -> (r: bool)
        ensures
            r == self.spec_is_terminal(),
    {
        self.player.did_bust() || self.dealer.did_bust() || (!self.is_player_turn
            && self.dealer.get_sum() >= 17)
    }

    pub fn get_number_of_possible_actions(&self) -> (r: usize)
        ensures
            r == 2,
    {
        2
    }

    /// The size of the enumerated state space: ten player sums, ten dealer
    /// sums, two flag values.
    pub fn get_number_of_possible_states(&self) -> (r: usize)
        ensures
            r == 200,
    {
        200
    }

    pub fn get_total_number_of_actions_taken(&self) -> (r: usize)
        ensures
            r == self.step_count,
    {
        self.step_count
    }

    /// Every state key of the learning-relevant projection: player sums 12
    /// through 21, dealer sums 2 through 11, both flag values, in
    /// lexicographic order.
    pub fn all_possible_states(&self) -> (r: Vec<String>)
        ensures
            r@.len() == 200,
            forall|t: int| 0 <= t < 200 ==> #[trigger] r@[t]@ == enumerated_state(t),
    {
        let mut states: Vec<String> = Vec::new();
        let mut i: usize = 12;
        while i < 22
            invariant
                12 <= i <= 22,
                states@.len() == (i - 12) * 20,
                forall|t: int| 0 <= t < states@.len() ==> #[trigger] states@[t]@
                    == enumerated_state(t),
            decreases 22 - i,
        {
            let mut j: usize = 2;
            while j < 12
                invariant
                    12 <= i < 22,
                    2 <= j <= 12,
                    states@.len() == (i - 12) * 20 + (j - 2) * 2,
                    forall|t: int| 0 <= t < states@.len() ==> #[trigger] states@[t]@
                        == enumerated_state(t),
                decreases 12 - j,
            {
                let ghost pre = states@;
                let s0 = encode_state(i, j, false);
                states.push(s0);
                let s1 = encode_state(i, j, true);
                states.push(s1);
                proof {
                    lemma_enumerated_index(i as int, j as int, 0);
                    lemma_enumerated_index(i as int, j as int, 1);
                    assert(forall|t: int|
                        0 <= t < pre.len() ==> #[trigger] states@[t]@ == pre[t]@);
                }
                j = j + 1;
            }
            i = i + 1;
        }
        states
    }
}

} // verus!
