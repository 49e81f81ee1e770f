//! The draw at the start of a turn: a player out of cards in the deck shuffles
//! the grave back into it, then draws the top card.
use vstd::prelude::*;
use rand::seq::SliceRandom;
use crate::rules::{draw_from, draw_outcome};
use crate::types::{
    cards_view, events_view, Card, CardView, Event, EventView, Player, PlayerEvent, PlayerEventView,
    PlayerView,
};
use crate::units::lemma_events_push;

verus! {

/// Calls `rand::seq::SliceRandom::shuffle` on `cards` with the generator of
/// `rand::thread_rng()`. Claimed: the same cards come back, each as often as before
/// (so the length is kept); the order is left to chance and nothing is said of it.
#[verifier::external_body]
fn shuffle_cards(cards: &mut Vec<Card>)
    ensures
        final(cards)@.len() == old(cards)@.len(),
        cards_view(final(cards)@).to_multiset() == cards_view(old(cards)@).to_multiset(),
{
    cards.shuffle(&mut rand::thread_rng());
}

/// A player whose deck is empty but whose grave is not moves the grave into the
/// deck and shuffles it, reporting a shuffle; any other player is left as is.
pub fn refill_deck(player: &mut Player, pi: usize, events: &mut Vec<Event>)
    ensures
        old(player)@.decks.len() == 0 && old(player)@.graves.len() > 0 ==> {
            &&& final(player)@ == (PlayerView {
                decks: final(player)@.decks,
                graves: Seq::empty(),
                ..old(player)@
            })
            &&& final(player)@.decks.to_multiset() == old(player)@.graves.to_multiset()
            &&& final(player)@.decks.len() == old(player)@.graves.len()
            &&& events_view(final(events)@) == events_view(old(events)@).push(
                EventView::Player(pi, PlayerEventView::Shuffle),
            )
        },
        !(old(player)@.decks.len() == 0 && old(player)@.graves.len() > 0) ==> {
            &&& final(player)@ == old(player)@
            &&& final(events)@ == old(events)@
        },
{
    if player.decks.is_empty() && !player.graves.is_empty() {
        let ghost graves = player.graves@;
        player.decks.append(&mut player.graves);
        assert(player.decks@ =~= graves);
        shuffle_cards(&mut player.decks);
        proof {
            lemma_events_push(events@, Event::Player(pi, PlayerEvent::Shuffle));
        }
        events.push(Event::Player(pi, PlayerEvent::Shuffle));
        assert(player@.graves =~= Seq::<CardView>::empty());
    }
}

/// A player with a deck draws its last card into the hand, reporting the draw;
/// a player without one is left as is.
pub fn draw_card(player: &mut Player, pi: usize, events: &mut Vec<Event>)
    ensures
        old(player)@.decks.len() > 0 ==> {
            &&& final(player)@ == draw_from(old(player)@, old(player)@.decks)
            &&& events_view(final(events)@) == events_view(old(events)@).push(
                EventView::Player(pi, PlayerEventView::DrawCard),
            )
        },
        old(player)@.decks.len() == 0 ==> {
            &&& final(player)@ == old(player)@
            &&& final(events)@ == old(events)@
        },
{
    if !player.decks.is_empty() {
        let card = player.decks.pop().unwrap();
        player.hands.push(card);
        proof {
            lemma_events_push(events@, Event::Player(pi, PlayerEvent::DrawCard));
        }
        events.push(Event::Player(pi, PlayerEvent::DrawCard));
        assert(player@.decks =~= old(player)@.decks.drop_last());
        assert(player@.hands =~= old(player)@.hands.push(old(player)@.decks.last()));
    }
}

/// The draw at the start of player `pi`'s turn: refill the deck from the grave
/// if the deck is empty, then draw.
pub fn start_turn(player: &mut Player, pi: usize, events: &mut Vec<Event>)
    ensures
        events_view(final(events)@).len() >= events_view(old(events)@).len(),
        events_view(final(events)@).take(events_view(old(events)@).len() as int) == events_view(
            old(events)@,
        ),
        draw_outcome(
            old(player)@,
            pi,
            final(player)@,
            events_view(final(events)@).skip(events_view(old(events)@).len() as int),
        ),
{
    let ghost e0 = events_view(events@);
    let ghost p0 = player@;
    refill_deck(player, pi, events);
    let ghost p1 = player@;
    draw_card(player, pi, events);
    let ghost e2 = events_view(events@);
    assert(e2.take(e0.len() as int) =~= e0);
    proof {
        if p0.decks.len() > 0 {
            assert(e2.skip(e0.len() as int) =~= seq![
                EventView::Player(pi, PlayerEventView::DrawCard),
            ]);
        } else if p0.graves.len() > 0 {
            assert(p1.decks.len() > 0);
            assert(e2.skip(e0.len() as int) =~= seq![
                EventView::Player(pi, PlayerEventView::Shuffle),
                EventView::Player(pi, PlayerEventView::DrawCard),
            ]);
            let emptied = PlayerView { graves: Seq::empty(), ..p0 };
            assert(p1 == PlayerView { decks: p1.decks, ..emptied });
            assert(player@ == draw_from(emptied, p1.decks));
            assert(p1.decks.to_multiset() == p0.graves.to_multiset());
        } else {
            assert(e2.skip(e0.len() as int) =~= Seq::<EventView>::empty());
        }
    }
}

} // verus!
