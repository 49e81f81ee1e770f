//! What every turn keeps, proved over the rules.
use vstd::prelude::*;
use vstd::multiset::Multiset;
use crate::rules::{
    act, after_blow, blow_events, blow_fits, draw_from, draw_outcome, held, is_weakest,
    lemma_unit_turn_advances, play, seat, side, status_events, strike_player, survives, sweep,
    target_index, turn, turn_defined, turn_done, unit_event, unit_phase, unit_turn, weakest,
    with_side,
};
use crate::types::{
    Action, CardView, EventView, GameView, PlayerEventView, PlayerView, UnitEventView, UnitType,
    UnitView,
};

verus! {

broadcast use {vstd::seq_lib::group_to_multiset_ensures, vstd::multiset::group_multiset_axioms};

/// A reported blow never claims negative damage.
pub open spec fn honest_report(e: EventView) -> bool {
    match e {
        EventView::Unit(_, _, UnitEventView::AttackUnit(_, d)) => d >= 0,
        EventView::Unit(_, _, UnitEventView::AttackPlayer(d)) => d >= 0,
        _ => true,
    }
}

/// No reported blow claims negative damage.
pub open spec fn honest_reports(s: Seq<EventView>) -> bool {
    forall|k: int| 0 <= k < s.len() ==> honest_report(#[trigger] s[k])
}

/// The report of a player's death.
pub open spec fn is_death(e: EventView) -> bool {
    e matches EventView::Player(_, PlayerEventView::Die)
}

/// No player's death is reported.
pub open spec fn no_deaths(s: Seq<EventView>) -> bool {
    forall|k: int| 0 <= k < s.len() ==> !is_death(#[trigger] s[k])
}

/// Every death reported is that of player `x`.
pub open spec fn deaths_only_of(s: Seq<EventView>, x: usize) -> bool {
    forall|k: int|
        0 <= k < s.len() && is_death(#[trigger] s[k]) ==> s[k] == EventView::Player(
            x,
            PlayerEventView::Die,
        )
}

/// The damage a blow on a player claims; 0 for any other event.
pub open spec fn player_blow(e: EventView) -> int {
    match e {
        EventView::Unit(_, _, UnitEventView::AttackPlayer(d)) => d as int,
        _ => 0,
    }
}

/// The total damage that the events report dealt to a player.
pub open spec fn player_damage(s: Seq<EventView>) -> int
    decreases s.len(),
{
    if s.len() == 0 {
        0
    } else {
        player_damage(s.drop_last()) + player_blow(s.last())
    }
}

/// No event reports a blow on a player.
pub open spec fn no_player_blows(s: Seq<EventView>) -> bool {
    forall|k: int| 0 <= k < s.len() ==> player_blow(#[trigger] s[k]) == 0
}

proof fn lemma_player_damage_concat(a: Seq<EventView>, b: Seq<EventView>)
    ensures
        player_damage(a + b) == player_damage(a) + player_damage(b),
    decreases b.len(),
{
    if b.len() == 0 {
        assert(a + b =~= a);
    } else {
        lemma_player_damage_concat(a, b.drop_last());
        assert((a + b).drop_last() =~= a + b.drop_last());
        assert((a + b).last() == b.last());
    }
}

proof fn lemma_no_player_blows(s: Seq<EventView>)
    requires
        no_player_blows(s),
    ensures
        player_damage(s) == 0,
    decreases s.len(),
{
    if s.len() > 0 {
        assert(player_blow(s[s.len() - 1]) == 0);
        lemma_no_player_blows(s.drop_last());
    }
}

proof fn lemma_no_player_blows_concat(a: Seq<EventView>, b: Seq<EventView>)
    requires
        no_player_blows(a),
        no_player_blows(b),
    ensures
        no_player_blows(a + b),
{
    assert forall|k: int| 0 <= k < (a + b).len() implies player_blow(#[trigger] (a + b)[k]) == 0 by {
        if k < a.len() {
            assert((a + b)[k] == a[k]);
        } else {
            assert((a + b)[k] == b[k - a.len()]);
        }
    }
}

/// Hands, graves and decks are the same.
pub open spec fn same_piles(a: PlayerView, b: PlayerView) -> bool {
    a.hands == b.hands && a.graves == b.graves && a.decks == b.decks
}

/// All the cards a player holds, wherever they lie, each as often as it occurs.
pub open spec fn all_cards(p: PlayerView) -> Multiset<CardView> {
    p.hands.to_multiset().add(p.graves.to_multiset()).add(p.decks.to_multiset())
}

proof fn lemma_honest_concat(a: Seq<EventView>, b: Seq<EventView>)
    requires
        honest_reports(a),
        honest_reports(b),
    ensures
        honest_reports(a + b),
{
    assert forall|k: int| 0 <= k < (a + b).len() implies honest_report(#[trigger] (a + b)[k]) by {
        if k < a.len() {
            assert((a + b)[k] == a[k]);
        } else {
            assert((a + b)[k] == b[k - a.len()]);
        }
    }
}

/// A reported death, if any, is the last event.
pub open spec fn death_last(s: Seq<EventView>) -> bool {
    forall|k: int| 0 <= k < s.len() && is_death(#[trigger] s[k]) ==> k == s.len() - 1
}

/// Every event is a player's event.
pub open spec fn player_events_only(s: Seq<EventView>) -> bool {
    forall|k: int| 0 <= k < s.len() ==> (#[trigger] s[k]) is Player
}

proof fn lemma_death_last_concat(a: Seq<EventView>, b: Seq<EventView>)
    requires
        no_deaths(a),
        death_last(b),
    ensures
        death_last(a + b),
{
    assert forall|k: int| 0 <= k < (a + b).len() && is_death(#[trigger] (a + b)[k]) implies k == (a
        + b).len() - 1 by {
        if k < a.len() {
            assert((a + b)[k] == a[k]);
        } else {
            assert((a + b)[k] == b[k - a.len()]);
        }
    }
}

proof fn lemma_deaths_concat(a: Seq<EventView>, b: Seq<EventView>, x: usize)
    ensures
        no_deaths(a) && no_deaths(b) ==> no_deaths(a + b),
        deaths_only_of(a, x) && deaths_only_of(b, x) ==> deaths_only_of(a + b, x),
{
    assert forall|k: int| 0 <= k < (a + b).len() implies (a + b)[k] == (if k < a.len() {
        a[k]
    } else {
        b[k - a.len()]
    }) by {}
    if no_deaths(a) && no_deaths(b) {
        assert forall|k: int| 0 <= k < (a + b).len() implies !is_death(#[trigger] (a + b)[k]) by {
            if k < a.len() {
                assert(!is_death(a[k]));
            } else {
                assert(!is_death(b[k - a.len()]));
            }
        }
    }
    if deaths_only_of(a, x) && deaths_only_of(b, x) {
        assert forall|k: int|
            0 <= k < (a + b).len() && is_death(#[trigger] (a + b)[k]) implies (a + b)[k]
            == EventView::Player(x, PlayerEventView::Die) by {
            if k < a.len() {
                assert(is_death(a[k]));
            } else {
                assert(is_death(b[k - a.len()]));
            }
        }
    }
}

proof fn lemma_sweep_keeps(attack: i32, units: Seq<UnitView>, pi: usize, i: int, oi: usize, t: int)
    requires
        sweep(attack, units, pi, i, oi, t) is Some,
    ensures
        honest_reports(sweep(attack, units, pi, i, oi, t).unwrap().1),
        no_deaths(sweep(attack, units, pi, i, oi, t).unwrap().1),
        no_player_blows(sweep(attack, units, pi, i, oi, t).unwrap().1),
        sweep(attack, units, pi, i, oi, t).unwrap().0.len() <= units.len(),
    decreases units.len() - t,
{
    if t < 0 || t >= units.len() {
    } else {
        let next = if survives(attack, units[t]) {
            t + 1
        } else {
            t
        };
        lemma_sweep_keeps(attack, after_blow(units, t, attack), pi, i, oi, next);
        lemma_blow_honest(pi, i, oi, t, attack, units[t]);
        lemma_honest_concat(
            blow_events(pi, i, oi, t, attack, units[t]),
            sweep(attack, after_blow(units, t, attack), pi, i, oi, next).unwrap().1,
        );
        lemma_deaths_concat(
            blow_events(pi, i, oi, t, attack, units[t]),
            sweep(attack, after_blow(units, t, attack), pi, i, oi, next).unwrap().1,
            oi,
        );
        lemma_no_player_blows_concat(
            blow_events(pi, i, oi, t, attack, units[t]),
            sweep(attack, after_blow(units, t, attack), pi, i, oi, next).unwrap().1,
        );
    }
}

/// What one unit's turn keeps: the acting player's hp and card piles, the
/// opponent's card piles; the opponent's hp does not grow, the acting side's
/// board does not shrink and the opponent's does not grow; blows are reported
/// with non-negative damage.
proof fn lemma_unit_turn_keeps(p: PlayerView, o: PlayerView, pi: usize, oi: usize, i: int)
    requires
        0 <= i < p.units.len(),
        unit_turn(p, o, pi, oi, i) is Some,
    ensures
        ({
            let r = unit_turn(p, o, pi, oi, i).unwrap().0;
            &&& r.player.hp == p.hp
            &&& r.opponent.hp <= o.hp
            &&& same_piles(r.player, p)
            &&& same_piles(r.opponent, o)
            &&& r.player.units.len() >= p.units.len()
            &&& r.opponent.units.len() <= o.units.len()
            &&& honest_reports(r.events)
            &&& deaths_only_of(r.events, oi)
            &&& r.over ==> r.opponent.hp <= 0
            &&& !r.over ==> no_deaths(r.events)
            &&& death_last(r.events)
            &&& r.opponent.hp == o.hp - player_damage(r.events)
            &&& r.player.attack == p.attack && r.player.defence == p.defence
            &&& r.opponent.attack == o.attack && r.opponent.defence == o.defence
        }),
{
    let u = p.units[i];
    if held(u) {
        let ev = status_events(pi, i, u);
        assert forall|k: int| 0 <= k < ev.len() implies honest_report(#[trigger] ev[k]) && !is_death(
            ev[k],
        ) && player_blow(ev[k]) == 0 by {
            assert(ev[k] == unit_event(pi, i, UnitEventView::Stun) || ev[k]
                == unit_event(pi, i, UnitEventView::Sleep));
        }
        lemma_no_player_blows(ev);
    } else {
        let r = act(p, o, pi, oi, i).unwrap();
        match u.unit_type {
            UnitType::Healer => {
                assert(honest_report(r.events[0]));
                assert(!is_death(r.events[0]));
                assert(player_blow(r.events[0]) == 0);
                lemma_no_player_blows(r.events);
            },
            UnitType::Summoner => {
                assert(honest_report(r.events[0]));
                assert(!is_death(r.events[0]));
                assert(player_blow(r.events[0]) == 0);
                lemma_no_player_blows(r.events);
            },
            UnitType::Mage => {
                if o.units.len() > 0 {
                    lemma_sweep_keeps(u.attack, o.units, pi, i, oi, 0);
                    lemma_no_player_blows(r.events);
                } else {
                    lemma_strike_player_honest(p, o, pi, oi, i);
                }
            },
            _ => {
                if o.units.len() > 0 {
                    lemma_weakest_exists(o.units);
                    let t = target_index(u.unit_type, o.units);
                    lemma_blow_honest(pi, i, oi, t, u.attack, o.units[t]);
                    lemma_no_player_blows(r.events);
                } else {
                    lemma_strike_player_honest(p, o, pi, oi, i);
                }
            },
        }
        assert(honest_reports(r.events));
    }
}

/// A non-empty board has a first weakest unit.
pub proof fn lemma_weakest_exists(units: Seq<UnitView>)
    requires
        units.len() > 0,
    ensures
        is_weakest(units, weakest(units)),
    decreases units.len(),
{
    let n = units.len() - 1;
    let t: int = if n == 0 {
        0
    } else {
        let front = units.drop_last();
        lemma_weakest_exists(front);
        let w = weakest(front);
        assert(forall|j: int| 0 <= j < n ==> front[j] == units[j]);
        if units[n].hp < units[w].hp {
            n
        } else {
            w
        }
    };
    assert(is_weakest(units, t));
}

proof fn lemma_strike_player_honest(p: PlayerView, o: PlayerView, pi: usize, oi: usize, i: int)
    requires
        strike_player(p, o, pi, oi, i) is Some,
    ensures
        ({
            let r = strike_player(p, o, pi, oi, i).unwrap();
            &&& honest_reports(r.events)
            &&& deaths_only_of(r.events, oi)
            &&& r.over ==> r.opponent.hp <= 0
            &&& !r.over ==> no_deaths(r.events)
            &&& death_last(r.events)
            &&& r.opponent.hp == o.hp - player_damage(r.events)
        }),
{
    let r = strike_player(p, o, pi, oi, i).unwrap();
    let ev = r.events;
    assert(honest_report(ev[0]));
    let head = seq![ev[0]];
    let tail = ev.subrange(1, ev.len() as int);
    assert(ev =~= head + tail);
    assert forall|k: int| 0 <= k < tail.len() implies player_blow(#[trigger] tail[k]) == 0 by {
        assert(tail[k] == EventView::Player(oi, PlayerEventView::Die));
    }
    lemma_no_player_blows(tail);
    lemma_player_damage_concat(head, tail);
    assert(head.drop_last() =~= Seq::<EventView>::empty());
    assert(player_damage(head.drop_last()) == 0);
    assert(head.last() == ev[0]);
    assert(player_damage(head) == player_blow(ev[0]));
    assert forall|k: int| 0 <= k < ev.len() implies honest_report(#[trigger] ev[k]) && (is_death(
        ev[k],
    ) ==> ev[k] == EventView::Player(oi, PlayerEventView::Die)) && (!r.over ==> !is_death(ev[k])) by {
        if k > 0 {
            assert(ev[k] == EventView::Player(oi, PlayerEventView::Die));
        }
    }
}

proof fn lemma_blow_honest(pi: usize, i: int, oi: usize, t: int, attack: i32, target: UnitView)
    requires
        blow_fits(attack, target),
    ensures
        honest_reports(blow_events(pi, i, oi, t, attack, target)),
        no_deaths(blow_events(pi, i, oi, t, attack, target)),
        no_player_blows(blow_events(pi, i, oi, t, attack, target)),
{
    let ev = blow_events(pi, i, oi, t, attack, target);
    assert(honest_report(ev[0]));
    assert forall|k: int| 0 <= k < ev.len() implies honest_report(#[trigger] ev[k]) && !is_death(
        ev[k],
    ) && player_blow(ev[k]) == 0 by {
        if k > 0 {
            assert(ev[k] == unit_event(oi, t, UnitEventView::Die));
        }
    }
}

/// What the units' phase keeps, from unit `i` on (see `lemma_unit_turn_keeps`).
proof fn lemma_unit_phase_keeps(p: PlayerView, o: PlayerView, pi: usize, oi: usize, i: int)
    requires
        unit_phase(p, o, pi, oi, i) is Some,
    ensures
        ({
            let r = unit_phase(p, o, pi, oi, i).unwrap();
            &&& r.player.hp == p.hp
            &&& r.opponent.hp <= o.hp
            &&& same_piles(r.player, p)
            &&& same_piles(r.opponent, o)
            &&& r.player.units.len() >= p.units.len()
            &&& r.opponent.units.len() <= o.units.len()
            &&& honest_reports(r.events)
            &&& deaths_only_of(r.events, oi)
            &&& r.over ==> r.opponent.hp <= 0
            &&& !r.over ==> no_deaths(r.events)
            &&& death_last(r.events)
            &&& r.opponent.hp == o.hp - player_damage(r.events)
            &&& r.player.attack == p.attack && r.player.defence == p.defence
            &&& r.opponent.attack == o.attack && r.opponent.defence == o.defence
        }),
    decreases p.units.len() - i,
{
    if i < 0 || i >= p.units.len() {
    } else {
        let step = unit_turn(p, o, pi, oi, i).unwrap();
        lemma_unit_turn_keeps(p, o, pi, oi, i);
        if !step.0.over {
            lemma_unit_turn_advances(p, o, pi, oi, i);
            lemma_unit_phase_keeps(step.0.player, step.0.opponent, pi, oi, step.1 + 1);
            lemma_honest_concat(
                step.0.events,
                unit_phase(step.0.player, step.0.opponent, pi, oi, step.1 + 1).unwrap().events,
            );
            lemma_deaths_concat(
                step.0.events,
                unit_phase(step.0.player, step.0.opponent, pi, oi, step.1 + 1).unwrap().events,
                oi,
            );
            lemma_player_damage_concat(
                step.0.events,
                unit_phase(step.0.player, step.0.opponent, pi, oi, step.1 + 1).unwrap().events,
            );
        }
    }
}


/// Playing a move keeps the cards a player holds.
proof fn lemma_play_keeps_cards(p: PlayerView, pi: usize, action: Action)
    requires
        play(p, pi, action) is Some,
    ensures
        all_cards(play(p, pi, action).unwrap().0) == all_cards(p),
        play(p, pi, action).unwrap().0.hp == p.hp,
        play(p, pi, action).unwrap().0.units.len() <= p.units.len() + 1,
{
    match action {
        Action::Skip => {},
        Action::Hand(k) => {
            let c = p.hands[k as int];
            let q = play(p, pi, action).unwrap().0;
            assert(q.hands.to_multiset() == p.hands.to_multiset().remove(c));
            assert(q.graves.to_multiset() == p.graves.to_multiset().insert(c));
            assert(p.hands.to_multiset().count(c) > 0);
            assert(all_cards(q) =~= all_cards(p));
        },
    }
}

/// Drawing `deck.last()` into the hand keeps the cards, counting the deck.
proof fn lemma_draw_from_keeps(p: PlayerView, deck: Seq<CardView>)
    requires
        deck.len() > 0,
    ensures
        all_cards(draw_from(p, deck)) == p.hands.to_multiset().add(p.graves.to_multiset()).add(
            deck.to_multiset(),
        ),
{
    assert(deck =~= deck.drop_last().push(deck.last()));
    let q = draw_from(p, deck);
    assert(deck.to_multiset() == deck.drop_last().to_multiset().insert(deck.last()));
    assert(all_cards(q) =~= p.hands.to_multiset().add(p.graves.to_multiset()).add(
        deck.to_multiset(),
    ));
}

/// The draw keeps the cards a player holds, its hp and its board.
proof fn lemma_draw_keeps(before: PlayerView, pi: usize, after: PlayerView, events: Seq<EventView>)
    requires
        draw_outcome(before, pi, after, events),
    ensures
        all_cards(after) == all_cards(before),
        after.hp == before.hp,
        after.units == before.units,
        honest_reports(events),
        no_deaths(events),
        player_damage(events) == 0,
        player_events_only(events),
        after.attack == before.attack && after.defence == before.defence,
{
    if before.decks.len() > 0 {
        lemma_draw_from_keeps(before, before.decks);
        assert(honest_report(events[0]));
        assert(!is_death(events[0]));
        assert(player_blow(events[0]) == 0);
        lemma_no_player_blows(events);
    } else if before.graves.len() > 0 {
        let order = choose|order: Seq<CardView>|
            {
                &&& #[trigger] order.to_multiset() == before.graves.to_multiset()
                &&& after == draw_from(PlayerView { graves: Seq::empty(), ..before }, order)
            };
        assert(order.to_multiset().len() == before.graves.len());
        let emptied = PlayerView { graves: Seq::empty(), ..before };
        lemma_draw_from_keeps(emptied, order);
        assert(Seq::<CardView>::empty().to_multiset() =~= Multiset::empty());
        assert(before.decks.to_multiset() =~= Multiset::empty());
        assert(all_cards(after) =~= all_cards(before));
        assert(honest_report(events[0]));
        assert(honest_report(events[1]));
        assert(!is_death(events[0]));
        assert(!is_death(events[1]));
        assert(player_blow(events[0]) == 0);
        assert(player_blow(events[1]) == 0);
        lemma_no_player_blows(events);
    } else {
    }
}

proof fn lemma_sides(g: GameView, s: usize, p: PlayerView)
    requires
        s < 2,
    ensures
        side(with_side(g, s, p), s) == p,
        side(with_side(g, s, p), (1 - s) as usize) == side(g, (1 - s) as usize),
        with_side(g, s, p).current_player_index == g.current_player_index,
{
}

/// After a turn it is the other player's turn: the turn counter becomes 1 after
/// 0 and 0 after 1.
pub proof fn law_turn_passes(g: GameView, action: Action, after: GameView, events: Seq<EventView>)
    requires
        turn_defined(g, action),
        turn_done(g, action, after, events),
    ensures
        after.current_player_index == (g.current_player_index + 1) % 2,
{
    let a = seat(g.current_player_index);
    let moved = play(side(g, a), a, action).unwrap();
    let g1 = with_side(g, a, moved.0);
    let next = ((g.current_player_index + 1) % 2) as usize;
    let b = seat(next);
    let ob = (1 - b) as usize;
    let r = unit_phase(side(g1, b), side(g1, ob), b, ob, 0).unwrap();
    lemma_sides(GameView { current_player_index: next, ..g1 }, b, r.player);
    lemma_sides(
        with_side(GameView { current_player_index: next, ..g1 }, b, r.player),
        ob,
        r.opponent,
    );
}


/// What a whole turn keeps, seat by seat: `b` is the seat of the player whose
/// turn begins, the other seat is that of its opponent.
proof fn lemma_turn_keeps(g: GameView, action: Action, after: GameView, events: Seq<EventView>)
    requires
        turn_defined(g, action),
        turn_done(g, action, after, events),
    ensures
        ({
            let b = seat(after.current_player_index);
            let ob = (1 - b) as usize;
            &&& b == after.current_player_index
            &&& all_cards(side(after, b)) == all_cards(side(g, b))
            &&& all_cards(side(after, ob)) == all_cards(side(g, ob))
            &&& side(after, b).hp == side(g, b).hp
            &&& side(after, ob).hp <= side(g, ob).hp
            &&& side(after, b).units.len() >= side(g, b).units.len()
            &&& side(after, ob).units.len() <= side(g, ob).units.len() + 1
            &&& honest_reports(events)
            &&& deaths_only_of(events, ob)
            &&& !no_deaths(events) ==> side(after, ob).hp <= 0
        }),
{
    let a = seat(g.current_player_index);
    let moved = play(side(g, a), a, action).unwrap();
    let g1 = with_side(g, a, moved.0);
    let next = ((g.current_player_index + 1) % 2) as usize;
    let b = seat(next);
    let ob = (1 - b) as usize;
    let r = unit_phase(side(g1, b), side(g1, ob), b, ob, 0).unwrap();
    let bt = turn(g, action).unwrap();
    lemma_sides(g, a, moved.0);
    lemma_sides(GameView { current_player_index: next, ..g1 }, b, r.player);
    lemma_sides(
        with_side(GameView { current_player_index: next, ..g1 }, b, r.player),
        ob,
        r.opponent,
    );
    lemma_play_keeps_cards(side(g, a), a, action);
    lemma_unit_phase_keeps(side(g1, b), side(g1, ob), b, ob, 0);
    assert(side(bt.game, b) == r.player);
    assert(side(bt.game, ob) == r.opponent);
    let drawn = events.skip(bt.events.len() as int);
    lemma_draw_keeps(r.player, b, side(after, b), drawn);
    // the seat that moved is `a`; the other seat only went through the phase
    if a == b {
        assert(side(g1, ob) == side(g, ob));
    } else {
        assert(a == ob);
        assert(side(g1, b) == side(g, b));
    }
    assert(all_cards(side(g1, b)) == all_cards(side(g, b)));
    assert(all_cards(side(g1, ob)) == all_cards(side(g, ob)));
    lemma_honest_reports_move(side(g, a), a, action);
    lemma_honest_concat(moved.1, r.events);
    assert(events =~= bt.events + drawn);
    lemma_honest_concat(bt.events, drawn);
    lemma_deaths_concat(moved.1, r.events, ob);
    lemma_deaths_concat(bt.events, drawn, ob);
}

proof fn lemma_honest_reports_move(p: PlayerView, pi: usize, action: Action)
    requires
        play(p, pi, action) is Some,
    ensures
        honest_reports(play(p, pi, action).unwrap().1),
        no_deaths(play(p, pi, action).unwrap().1),
        player_damage(play(p, pi, action).unwrap().1) == 0,
{
    assert(honest_report(play(p, pi, action).unwrap().1[0]));
    assert(!is_death(play(p, pi, action).unwrap().1[0]));
    assert(player_blow(play(p, pi, action).unwrap().1[0]) == 0);
    lemma_no_player_blows(play(p, pi, action).unwrap().1);
}

/// No card is created or lost in a turn: each player holds the same cards as
/// before, counting hand, grave and deck together.
pub proof fn law_cards_kept(g: GameView, action: Action, after: GameView, events: Seq<EventView>)
    requires
        turn_defined(g, action),
        turn_done(g, action, after, events),
    ensures
        all_cards(after.player1) == all_cards(g.player1),
        all_cards(after.player2) == all_cards(g.player2),
{
    lemma_turn_keeps(g, action, after, events);
}

/// Every blow of a turn is reported with a damage of 0 or more.
pub proof fn law_damage_not_negative(
    g: GameView,
    action: Action,
    after: GameView,
    events: Seq<EventView>,
)
    requires
        turn_defined(g, action),
        turn_done(g, action, after, events),
    ensures
        honest_reports(events),
{
    lemma_turn_keeps(g, action, after, events);
}

/// The player whose turn begins keeps its hp through the turn; its opponent
/// never gains hp.
pub proof fn law_hp_only_falls(g: GameView, action: Action, after: GameView, events: Seq<EventView>)
    requires
        turn_defined(g, action),
        turn_done(g, action, after, events),
    ensures
        side(after, after.current_player_index).hp == side(g, after.current_player_index).hp,
        side(after, (1 - after.current_player_index) as usize).hp <= side(
            g,
            (1 - after.current_player_index) as usize,
        ).hp,
{
    lemma_turn_keeps(g, action, after, events);
}

/// The player whose turn begins loses no unit during the turn; its opponent ends
/// with at most one unit more than it had (the one it may have played).
pub proof fn law_boards(g: GameView, action: Action, after: GameView, events: Seq<EventView>)
    requires
        turn_defined(g, action),
        turn_done(g, action, after, events),
    ensures
        side(after, after.current_player_index).units.len() >= side(
            g,
            after.current_player_index,
        ).units.len(),
        side(after, (1 - after.current_player_index) as usize).units.len() <= side(
            g,
            (1 - after.current_player_index) as usize,
        ).units.len() + 1,
{
    lemma_turn_keeps(g, action, after, events);
}

/// A turn first reports the move of the player who made it.
pub proof fn law_move_reported_first(
    g: GameView,
    action: Action,
    after: GameView,
    events: Seq<EventView>,
)
    requires
        turn_defined(g, action),
        turn_done(g, action, after, events),
    ensures
        events.len() > 0,
        events[0] == (match action {
            Action::Skip => EventView::Player(seat(g.current_player_index), PlayerEventView::Skip),
            Action::Hand(k) => EventView::Player(
                seat(g.current_player_index),
                PlayerEventView::UseCard(k, side(g, seat(g.current_player_index)).hands[k as int]),
            ),
        }),
{
    let bt = turn(g, action).unwrap();
    assert(events.take(bt.events.len() as int)[0] == events[0]);
}


/// A player's death is reported only for the opponent of the player whose turn
/// begins, and only when that opponent ends the turn with hp 0 or below.
pub proof fn law_death_only_when_dead(
    g: GameView,
    action: Action,
    after: GameView,
    events: Seq<EventView>,
)
    requires
        turn_defined(g, action),
        turn_done(g, action, after, events),
    ensures
        forall|k: int|
            0 <= k < events.len() && is_death(#[trigger] events[k]) ==> {
                let x = (1 - after.current_player_index) as usize;
                &&& events[k] == EventView::Player(x, PlayerEventView::Die)
                &&& side(after, x).hp <= 0
            },
{
    lemma_turn_keeps(g, action, after, events);
}


/// When the first or the second player moves (turn index 0 or 1): the mover keeps
/// its deck, attack and defence; its hand and grave change only by the card it
/// plays; its hp falls by exactly the damage that the turn reports dealt to a
/// player. The other player keeps its hp, attack and defence.
pub proof fn law_mover_takes_reported_damage(
    g: GameView,
    action: Action,
    after: GameView,
    events: Seq<EventView>,
)
    requires
        turn_defined(g, action),
        turn_done(g, action, after, events),
        g.current_player_index < 2,
    ensures
        ({
            let p = g.current_player_index;
            let q = (1 - p) as usize;
            let mover = side(g, p);
            let moved = side(after, p);
            let other = side(g, q);
            let other_after = side(after, q);
            &&& moved.decks == mover.decks
            &&& moved.attack == mover.attack
            &&& moved.defence == mover.defence
            &&& match action {
                Action::Skip => moved.hands == mover.hands && moved.graves == mover.graves,
                Action::Hand(k) => moved.hands == mover.hands.remove(k as int) && moved.graves
                    == mover.graves.push(mover.hands[k as int]),
            }
            &&& moved.hp == mover.hp - player_damage(events)
            &&& other_after.hp == other.hp
            &&& other_after.attack == other.attack
            &&& other_after.defence == other.defence
            &&& honest_reports(events)
        }),
{
    let a = seat(g.current_player_index);
    let moved = play(side(g, a), a, action).unwrap();
    let g1 = with_side(g, a, moved.0);
    let next = ((g.current_player_index + 1) % 2) as usize;
    let b = seat(next);
    let ob = (1 - b) as usize;
    let r = unit_phase(side(g1, b), side(g1, ob), b, ob, 0).unwrap();
    let bt = turn(g, action).unwrap();
    assert(a == g.current_player_index && ob == a && b == (1 - a) as usize);
    lemma_sides(g, a, moved.0);
    lemma_sides(GameView { current_player_index: next, ..g1 }, b, r.player);
    lemma_sides(
        with_side(GameView { current_player_index: next, ..g1 }, b, r.player),
        ob,
        r.opponent,
    );
    lemma_unit_phase_keeps(side(g1, b), side(g1, ob), b, ob, 0);
    lemma_honest_reports_move(side(g, a), a, action);
    assert(side(bt.game, b) == r.player);
    assert(side(bt.game, ob) == r.opponent);
    let drawn = events.skip(bt.events.len() as int);
    lemma_draw_keeps(r.player, b, side(after, b), drawn);
    assert(events =~= bt.events + drawn);
    lemma_player_damage_concat(moved.1, r.events);
    lemma_player_damage_concat(bt.events, drawn);
    lemma_turn_keeps(g, action, after, events);
}


/// Once a player's death is reported, the units stop: every later event of the
/// turn is a player's event (the draw).
pub proof fn law_units_stop_at_death(
    g: GameView,
    action: Action,
    after: GameView,
    events: Seq<EventView>,
)
    requires
        turn_defined(g, action),
        turn_done(g, action, after, events),
    ensures
        forall|k: int, m: int|
            0 <= k < m < events.len() && is_death(#[trigger] events[k]) ==> (#[trigger] events[m]) is Player,
{
    let a = seat(g.current_player_index);
    let moved = play(side(g, a), a, action).unwrap();
    let g1 = with_side(g, a, moved.0);
    let next = ((g.current_player_index + 1) % 2) as usize;
    let b = seat(next);
    let ob = (1 - b) as usize;
    let r = unit_phase(side(g1, b), side(g1, ob), b, ob, 0).unwrap();
    let bt = turn(g, action).unwrap();
    lemma_unit_phase_keeps(side(g1, b), side(g1, ob), b, ob, 0);
    lemma_honest_reports_move(side(g, a), a, action);
    lemma_sides(GameView { current_player_index: next, ..g1 }, b, r.player);
    lemma_sides(
        with_side(GameView { current_player_index: next, ..g1 }, b, r.player),
        ob,
        r.opponent,
    );
    let drawn = events.skip(bt.events.len() as int);
    lemma_draw_keeps(r.player, b, side(after, b), drawn);
    assert(events =~= moved.1 + r.events + drawn);
    let n1 = moved.1.len();
    let n2 = r.events.len();
    assert forall|k: int, m: int|
        0 <= k < m < events.len() && is_death(#[trigger] events[k]) implies (#[trigger] events[m]) is Player by {
        if k < n1 {
            assert(events[k] == moved.1[k]);
        } else if k < n1 + n2 {
            assert(events[k] == r.events[k - n1]);
            assert(k == n1 + n2 - 1);
            assert(events[m] == drawn[m - n1 - n2]);
        } else {
            assert(events[k] == drawn[k - n1 - n2]);
        }
    }
}

} // verus!
