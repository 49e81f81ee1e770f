//! A whole turn: the current player's move, the handover, the units' actions of
//! the player whose turn begins, and that player's draw.
use vstd::prelude::*;
use crate::deck::start_turn;
use crate::rules::{
    lemma_unit_turn_advances, play, turn_defined, turn_done, unit_phase, unit_turn,
};
use crate::types::{cards_view, events_view, Action, Event, EventView, Game, Player, PlayerEvent};
use crate::units::{lemma_events_push, lemma_units_push, unit_turn_of};

verus! {

/// Player `pi` makes its move: a skip, or playing card `k` of the hand, which
/// puts a copy of the card's unit on the board and the card into the grave.
pub fn play_action(player: &mut Player, pi: usize, action: &Action, events: &mut Vec<Event>)
    requires
        play(old(player)@, pi, *action) is Some,
    ensures
        ({
            let (p, ev) = play(old(player)@, pi, *action).unwrap();
            &&& final(player)@ == p
            &&& events_view(final(events)@) == events_view(old(events)@) + ev
        }),
{
    match action {
        Action::Skip => {
            proof {
                lemma_events_push(events@, Event::Player(pi, PlayerEvent::Skip));
            }
            events.push(Event::Player(pi, PlayerEvent::Skip));
        },
        Action::Hand(index) => {
            let ghost hands = player.hands@;
            let ghost units = player.units@;
            let ghost graves = player.graves@;
            let card = player.hands.remove(*index);
            let shown = card.clone();
            proof {
                lemma_events_push(events@, Event::Player(pi, PlayerEvent::UseCard(*index, shown)));
                lemma_units_push(units, card.unit);
            }
            events.push(Event::Player(pi, PlayerEvent::UseCard(*index, shown)));
            player.units.push(card.unit.clone());
            player.graves.push(card);
            assert(cards_view(hands.remove(*index as int)) =~= cards_view(hands).remove(
                *index as int,
            ));
            assert(cards_view(graves.push(card)) =~= cards_view(graves).push(card@));
        },
    }
    assert(events_view(events@) =~= events_view(old(events)@) + play(
        old(player)@,
        pi,
        *action,
    ).unwrap().1);
}


/// The units of player `pi` act in order against player `oi`, until the last
/// unit has acted or the opponent has died.
pub fn unit_phase_of(
    player: &mut Player,
    opponent: &mut Player,
    pi: usize,
    oi: usize,
    events: &mut Vec<Event>,
)
    requires
        unit_phase(old(player)@, old(opponent)@, pi, oi, 0) is Some,
    ensures
        ({
            let r = unit_phase(old(player)@, old(opponent)@, pi, oi, 0).unwrap();
            &&& final(player)@ == r.player
            &&& final(opponent)@ == r.opponent
            &&& events_view(final(events)@) == events_view(old(events)@) + r.events
        }),
{
    let ghost whole = unit_phase(player@, opponent@, pi, oi, 0).unwrap();
    let ghost e0 = events_view(events@);
    let ghost mut done: Seq<EventView> = Seq::empty();
    let mut i: usize = 0;
    while i < player.units.len()
        invariant
            whole == unit_phase(old(player)@, old(opponent)@, pi, oi, 0).unwrap(),
            e0 == events_view(old(events)@),
            unit_phase(player@, opponent@, pi, oi, i as int) is Some,
            whole.player == unit_phase(player@, opponent@, pi, oi, i as int).unwrap().player,
            whole.opponent == unit_phase(player@, opponent@, pi, oi, i as int).unwrap().opponent,
            whole.events == done + unit_phase(player@, opponent@, pi, oi, i as int).unwrap().events,
            events_view(events@) == e0 + done,
        decreases player.units.len() - i,
    {
        let ghost p = player@;
        let ghost o = opponent@;
        let ghost step = unit_turn(p, o, pi, oi, i as int).unwrap();
        let (j, over) = unit_turn_of(player, opponent, pi, oi, i, events);
        proof {
            done = done + step.0.events;
        }
        assert(events_view(events@) =~= e0 + done);
        if over {
            assert(unit_phase(p, o, pi, oi, i as int) == Some(step.0));
            assert(whole.events =~= done);
            return ;
        }
        proof {
            lemma_unit_turn_advances(p, o, pi, oi, i as int);
            assert(whole.events =~= done + unit_phase(
                player@,
                opponent@,
                pi,
                oi,
                j + 1,
            ).unwrap().events);
        }
        assert(j < player.units.len());
        i = j + 1;
    }
    assert(whole.events =~= done);
}

/// Plays one turn: the current player makes its move, the turn passes to the
/// other player, whose units act against the player who just moved, and who then
/// draws a card. Returns the events of the turn in order.
pub fn run_action(game: &mut Game, action: &Action) -> (events: Vec<Event>)
    requires
        turn_defined(old(game)@, *action),
    ensures
        turn_done(old(game)@, *action, final(game)@, events_view(events@)),
{
    let mut events: Vec<Event> = Vec::new();
    assert(events_view(events@) =~= Seq::<EventView>::empty());
    if game.current_player_index == 0 {
        play_action(&mut game.player1, 0, action, &mut events);
    } else {
        play_action(&mut game.player2, 1, action, &mut events);
    }
    game.current_player_index = (game.current_player_index + 1) % 2;
    if game.current_player_index == 0 {
        unit_phase_of(&mut game.player1, &mut game.player2, 0, 1, &mut events);
        start_turn(&mut game.player1, 0, &mut events);
    } else {
        unit_phase_of(&mut game.player2, &mut game.player1, 1, 0, &mut events);
        start_turn(&mut game.player2, 1, &mut events);
    }
    events
}

} // verus!
