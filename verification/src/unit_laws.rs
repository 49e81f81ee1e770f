//! What each kind of unit does on its turn, stated in terms of the units'
//! stats before the turn, and what the starting table holds.
use vstd::prelude::*;
use crate::rules::{draw_outcome, lemma_unit_turn_advances, play, sweep, unit_phase, unit_turn};
use crate::setup::starting_game;
use crate::types::{
    Action, CardView, EventView, PlayerEventView, PlayerView, UnitEventView, UnitType, UnitView,
};
use crate::units::lemma_weakest_unique;

verus! {

/// A unit that is stunned or asleep does not act: it reports a stun (if stunned)
/// and then a sleep (if asleep), the opponent and every other unit are left as
/// they were, and of the unit itself only its positive stun, sleep and charm
/// counts go down by one.
pub proof fn law_held_unit_does_not_act(p: PlayerView, o: PlayerView, pi: usize, oi: usize, i: int)
    requires
        0 <= i < p.units.len(),
        p.units[i].stun > 0 || p.units[i].sleep > 0,
    ensures
        unit_turn(p, o, pi, oi, i) is Some,
        ({
            let (r, j) = unit_turn(p, o, pi, oi, i).unwrap();
            let u = p.units[i];
            let v = r.player.units[i];
            let stun_ev = EventView::Unit(pi, i as usize, UnitEventView::Stun);
            let sleep_ev = EventView::Unit(pi, i as usize, UnitEventView::Sleep);
            &&& j == i
            &&& !r.over
            &&& r.opponent == o
            &&& r.player.hp == p.hp
            &&& r.player.units.len() == p.units.len()
            &&& forall|k: int| 0 <= k < p.units.len() && k != i ==> r.player.units[k] == p.units[k]
            &&& v.name == u.name && v.hp == u.hp && v.attack == u.attack && v.defence == u.defence
            &&& v.unit_type == u.unit_type
            &&& v.stun == (if u.stun > 0 { u.stun - 1 } else { u.stun as int })
            &&& v.sleep == (if u.sleep > 0 { u.sleep - 1 } else { u.sleep as int })
            &&& v.charm == (if u.charm > 0 { u.charm - 1 } else { u.charm as int })
            &&& r.events == (if u.stun > 0 && u.sleep > 0 {
                seq![stun_ev, sleep_ev]
            } else if u.stun > 0 {
                seq![stun_ev]
            } else {
                seq![sleep_ev]
            })
        }),
{
    let (r, j) = unit_turn(p, o, pi, oi, i).unwrap();
    assert(r.player.units =~= p.units.update(i, r.player.units[i]));
}

/// A healer that acts adds its attack, if positive, to the hp of the unit at the
/// front of its own side; no other unit's hp changes, the opponent is untouched,
/// and the heal is reported with the healer's attack.
pub proof fn law_healer_heals_front(p: PlayerView, o: PlayerView, pi: usize, oi: usize, i: int)
    requires
        0 <= i < p.units.len(),
        p.units[i].unit_type == UnitType::Healer,
        p.units[i].stun <= 0 && p.units[i].sleep <= 0,
        unit_turn(p, o, pi, oi, i) is Some,
    ensures
        ({
            let (r, j) = unit_turn(p, o, pi, oi, i).unwrap();
            let a = p.units[i].attack;
            let gain: int = if a > 0 {
                a as int
            } else {
                0
            };
            &&& j == i
            &&& !r.over
            &&& r.opponent == o
            &&& r.player.units.len() == p.units.len()
            &&& r.player.units[0].hp == p.units[0].hp + gain
            &&& forall|k: int| 0 < k < p.units.len() ==> r.player.units[k].hp == p.units[k].hp
            &&& r.events == seq![EventView::Unit(pi, i as usize, UnitEventView::Heal(0, a))]
        }),
{
}

/// A summoner that acts calls to the front of its own side a creature named
/// "SummonerCreature" whose hp and attack are the summoner's attack, with no
/// defence, stun, sleep or charm, of kind attacker; every unit moves one place
/// back, the opponent is untouched, and the summon is reported with the creature.
pub proof fn law_summoner_calls_creature(p: PlayerView, o: PlayerView, pi: usize, oi: usize, i: int)
    requires
        0 <= i < p.units.len(),
        p.units[i].unit_type == UnitType::Summoner,
        p.units[i].stun <= 0 && p.units[i].sleep <= 0,
    ensures
        unit_turn(p, o, pi, oi, i) is Some,
        ({
            let (r, j) = unit_turn(p, o, pi, oi, i).unwrap();
            let a = p.units[i].attack;
            let c = r.player.units[0];
            &&& j == i + 1
            &&& !r.over
            &&& r.opponent == o
            &&& r.player.units.len() == p.units.len() + 1
            &&& c.name == "SummonerCreature"@
            &&& c.hp == a && c.attack == a && c.defence == 0
            &&& c.stun == 0 && c.sleep == 0 && c.charm == 0
            &&& c.unit_type == UnitType::Attacker
            &&& forall|k: int| 0 <= k < p.units.len() && k != i ==> r.player.units[k + 1] == p.units[k]
            &&& r.player.units[i + 1].hp == p.units[i].hp
            &&& r.events == seq![EventView::Unit(pi, i as usize, UnitEventView::Summon(c))]
        }),
{
}

/// An attacker, archer or assassin that acts against a side with units strikes
/// unit `t`: the front unit for an attacker, the back unit for an archer, the
/// first unit with the lowest hp for an assassin. The blow deals attack minus the
/// target's defence, never below 0, and is reported so; the target loses that
/// much hp, or leaves the board (reported as dead) when its hp falls to 0 or
/// below; nothing else of the opponent changes.
pub proof fn law_strike_on_unit(
    p: PlayerView,
    o: PlayerView,
    pi: usize,
    oi: usize,
    i: int,
    t: int,
)
    requires
        0 <= i < p.units.len(),
        p.units[i].stun <= 0 && p.units[i].sleep <= 0,
        0 <= t < o.units.len(),
        p.units[i].unit_type == UnitType::Attacker ==> t == 0,
        p.units[i].unit_type == UnitType::Archer ==> t == o.units.len() - 1,
        p.units[i].unit_type == UnitType::Assassin ==> {
            &&& forall|k: int| 0 <= k < o.units.len() ==> o.units[t].hp <= #[trigger] o.units[k].hp
            &&& forall|k: int| 0 <= k < t ==> o.units[t].hp < #[trigger] o.units[k].hp
        },
        p.units[i].unit_type == UnitType::Attacker || p.units[i].unit_type == UnitType::Archer
            || p.units[i].unit_type == UnitType::Assassin,
        unit_turn(p, o, pi, oi, i) is Some,
    ensures
        ({
            let (r, j) = unit_turn(p, o, pi, oi, i).unwrap();
            let target = o.units[t];
            let a = p.units[i].attack;
            let dmg: int = if a - target.defence > 0 {
                a - target.defence
            } else {
                0
            };
            let hp = target.hp - dmg;
            let hit = EventView::Unit(pi, i as usize, UnitEventView::AttackUnit(t as usize, dmg as i32));
            &&& j == i
            &&& !r.over
            &&& r.opponent.hp == o.hp
            &&& r.opponent.hands == o.hands && r.opponent.graves == o.graves && r.opponent.decks == o.decks
            &&& r.player.units.len() == p.units.len()
            &&& hp > 0 ==> {
                &&& r.opponent.units == o.units.update(t, UnitView { hp: hp as i32, ..target })
                &&& r.events == seq![hit]
            }
            &&& hp <= 0 ==> {
                &&& r.opponent.units == o.units.remove(t)
                &&& r.events == seq![hit, EventView::Unit(oi, t as usize, UnitEventView::Die)]
            }
        }),
{
    if p.units[i].unit_type == UnitType::Assassin {
        lemma_weakest_unique(o.units, t);
    }
    let (r, j) = unit_turn(p, o, pi, oi, i).unwrap();
    assert(r.events =~= (if target_hp_after(p, o, i, t) > 0 {
        seq![EventView::Unit(pi, i as usize, UnitEventView::AttackUnit(t as usize, blow_of(p, o, i, t) as i32))]
    } else {
        seq![
            EventView::Unit(pi, i as usize, UnitEventView::AttackUnit(t as usize, blow_of(p, o, i, t) as i32)),
            EventView::Unit(oi, t as usize, UnitEventView::Die),
        ]
    }));
}

spec fn blow_of(p: PlayerView, o: PlayerView, i: int, t: int) -> int {
    let a = p.units[i].attack;
    let d = o.units[t].defence;
    if a - d > 0 {
        a - d
    } else {
        0
    }
}

spec fn target_hp_after(p: PlayerView, o: PlayerView, i: int, t: int) -> int {
    o.units[t].hp - blow_of(p, o, i, t)
}

/// An attacker, archer, assassin or mage that acts against a side without units
/// strikes the opponent player: the blow deals attack minus the player's defence,
/// never below 0, and is reported so; the player loses that much hp and, when its
/// hp falls to 0 or below, is reported dead and the units' phase ends.
pub proof fn law_strike_on_player(p: PlayerView, o: PlayerView, pi: usize, oi: usize, i: int)
    requires
        0 <= i < p.units.len(),
        p.units[i].stun <= 0 && p.units[i].sleep <= 0,
        o.units.len() == 0,
        p.units[i].unit_type != UnitType::Healer && p.units[i].unit_type != UnitType::Summoner,
        unit_turn(p, o, pi, oi, i) is Some,
    ensures
        ({
            let (r, j) = unit_turn(p, o, pi, oi, i).unwrap();
            let a = p.units[i].attack;
            let dmg: int = if a - o.defence > 0 {
                a - o.defence
            } else {
                0
            };
            let hp = o.hp - dmg;
            let hit = EventView::Unit(pi, i as usize, UnitEventView::AttackPlayer(dmg as i32));
            &&& j == i
            &&& r.opponent == PlayerView { hp: hp as i32, ..o }
            &&& r.player.units.len() == p.units.len()
            &&& r.over == (hp <= 0)
            &&& hp <= 0 ==> r.events == seq![hit, EventView::Player(oi, PlayerEventView::Die)]
            &&& hp > 0 ==> r.events == seq![hit]
        }),
{
    let (r, j) = unit_turn(p, o, pi, oi, i).unwrap();
    let a = p.units[i].attack;
    let dmg: int = if a - o.defence > 0 {
        a - o.defence
    } else {
        0
    };
    let hit = EventView::Unit(pi, i as usize, UnitEventView::AttackPlayer(dmg as i32));
    if o.hp - dmg <= 0 {
        assert(r.events =~= seq![hit, EventView::Player(oi, PlayerEventView::Die)]);
    } else {
        assert(r.events =~= seq![hit]);
    }
}

/// The units left after every unit of `s`, front to back, takes a blow of
/// `attack`: each loses attack minus its defence (never below 0) and stays only
/// if its hp is still above 0.
pub open spec fn swept(attack: i32, s: Seq<UnitView>) -> Seq<UnitView>
    decreases s.len(),
{
    if s.len() == 0 {
        s
    } else {
        let u = s[0];
        let dmg: int = if attack - u.defence > 0 {
            attack - u.defence
        } else {
            0
        };
        let rest = swept(attack, s.drop_first());
        if u.hp - dmg > 0 {
            seq![UnitView { hp: (u.hp - dmg) as i32, ..u }] + rest
        } else {
            rest
        }
    }
}

/// What the blows of `swept` report when the first unit of `s` stands at index
/// `pos`: for each unit in turn, a blow on its current index with attack minus its
/// defence (never below 0), followed by its death when its hp falls to 0 or below
/// (the units behind it then move one place up).
pub open spec fn swept_events(
    attack: i32,
    s: Seq<UnitView>,
    pos: int,
    pi: usize,
    i: int,
    oi: usize,
) -> Seq<EventView>
    decreases s.len(),
{
    if s.len() == 0 {
        Seq::empty()
    } else {
        let u = s[0];
        let dmg: int = if attack - u.defence > 0 {
            attack - u.defence
        } else {
            0
        };
        let hit = EventView::Unit(pi, i as usize, UnitEventView::AttackUnit(pos as usize, dmg as i32));
        if u.hp - dmg > 0 {
            seq![hit] + swept_events(attack, s.drop_first(), pos + 1, pi, i, oi)
        } else {
            seq![hit, EventView::Unit(oi, pos as usize, UnitEventView::Die)] + swept_events(
                attack,
                s.drop_first(),
                pos,
                pi,
                i,
                oi,
            )
        }
    }
}

proof fn lemma_sweep_is_swept(attack: i32, units: Seq<UnitView>, pi: usize, i: int, oi: usize, t: int)
    requires
        0 <= t <= units.len(),
        sweep(attack, units, pi, i, oi, t) is Some,
    ensures
        sweep(attack, units, pi, i, oi, t).unwrap().0 == units.take(t) + swept(attack, units.skip(t)),
        sweep(attack, units, pi, i, oi, t).unwrap().1 == swept_events(
            attack,
            units.skip(t),
            t,
            pi,
            i,
            oi,
        ),
    decreases units.len() - t,
{
    if t == units.len() {
        assert(units.skip(t) =~= Seq::<UnitView>::empty());
        assert(units.take(t) + Seq::<UnitView>::empty() =~= units);
    } else {
        let u = units[t];
        let dmg: int = if attack - u.defence > 0 {
            attack - u.defence
        } else {
            0
        };
        assert(units.skip(t).drop_first() =~= units.skip(t + 1));
        assert(units.skip(t)[0] == u);
        if u.hp - dmg > 0 {
            let after = units.update(t, UnitView { hp: (u.hp - dmg) as i32, ..u });
            lemma_sweep_is_swept(attack, after, pi, i, oi, t + 1);
            assert(after.take(t + 1) =~= units.take(t).push(after[t]));
            assert(after.skip(t + 1) =~= units.skip(t + 1));
            assert(units.take(t) + swept(attack, units.skip(t)) =~= after.take(t + 1) + swept(
                attack,
                after.skip(t + 1),
            ));
        } else {
            let after = units.remove(t);
            lemma_sweep_is_swept(attack, after, pi, i, oi, t);
            assert(after.take(t) =~= units.take(t));
            assert(after.skip(t) =~= units.skip(t + 1));
        }
    }
}

/// A mage that acts against a side with units strikes every one of them, front to
/// back: each loses attack minus its defence (never below 0), and those whose hp
/// falls to 0 or below leave the board; nothing else of the opponent changes.
pub proof fn law_mage_strikes_all(p: PlayerView, o: PlayerView, pi: usize, oi: usize, i: int)
    requires
        0 <= i < p.units.len(),
        p.units[i].unit_type == UnitType::Mage,
        p.units[i].stun <= 0 && p.units[i].sleep <= 0,
        o.units.len() > 0,
        unit_turn(p, o, pi, oi, i) is Some,
    ensures
        ({
            let (r, j) = unit_turn(p, o, pi, oi, i).unwrap();
            &&& j == i
            &&& !r.over
            &&& r.opponent == PlayerView { units: swept(p.units[i].attack, o.units), ..o }
            &&& r.player.units.len() == p.units.len()
            &&& r.events == swept_events(p.units[i].attack, o.units, 0, pi, i, oi)
        }),
{
    lemma_sweep_is_swept(p.units[i].attack, o.units, pi, i, oi, 0);
    assert(o.units.skip(0) =~= o.units);
    assert(o.units.take(0) + swept(p.units[i].attack, o.units.skip(0)) =~= swept(
        p.units[i].attack,
        o.units,
    )) by {
        assert(o.units.skip(0) =~= o.units);
    }
}

/// A unit that acts, and does not end the units' phase by killing the opponent,
/// ends its turn with its charm count down by one if it was positive, keeping
/// its hp unless it healed itself.
pub proof fn law_acting_unit_rests(p: PlayerView, o: PlayerView, pi: usize, oi: usize, i: int)
    requires
        0 <= i < p.units.len(),
        p.units[i].stun <= 0 && p.units[i].sleep <= 0,
        unit_turn(p, o, pi, oi, i) is Some,
        !unit_turn(p, o, pi, oi, i).unwrap().0.over,
    ensures
        ({
            let (r, j) = unit_turn(p, o, pi, oi, i).unwrap();
            let u = p.units[i];
            let v = r.player.units[j];
            &&& v.charm == (if u.charm > 0 { u.charm - 1 } else { u.charm as int })
            &&& v.stun == u.stun && v.sleep == u.sleep
            &&& v.attack == u.attack && v.defence == u.defence && v.unit_type == u.unit_type
            &&& (u.unit_type != UnitType::Healer || i != 0) ==> v.hp == u.hp
        }),
{
}

/// The starting table: the first player to move, and for each player 100 hp,
/// nothing on the board or in the grave, three attackers (hp 100, attack 20) in
/// hand, and a deck of an attacker (100/20), a healer (50/20), an archer (75/20),
/// an assassin (25/40), a summoner (50/10) and a mage (25/5), the mage last; every
/// card's unit has no defence, stun, sleep or charm.
pub proof fn law_starting_table()
    ensures
        ({
            let g = starting_game();
            &&& g.current_player_index == 0
            &&& forall|s: int|
                #![trigger starting_seat(g, s)]
                0 <= s < 2 ==> {
                    let p = starting_seat(g, s);
                    &&& p.hp == 100 && p.attack == 0 && p.defence == 0
                    &&& p.units.len() == 0 && p.graves.len() == 0
                    &&& p.hands.len() == 3 && p.decks.len() == 6
                    &&& forall|k: int|
                        0 <= k < 3 ==> {
                            let u = #[trigger] p.hands[k].unit;
                            &&& u.name == "Attacker"@ && u.hp == 100 && u.attack == 20
                            &&& u.unit_type == UnitType::Attacker
                            &&& u.defence == 0 && u.sleep == 0 && u.stun == 0 && u.charm == 0
                        }
                    &&& forall|k: int|
                        0 <= k < 6 ==> {
                            let u = #[trigger] p.decks[k].unit;
                            &&& u.defence == 0 && u.sleep == 0 && u.stun == 0 && u.charm == 0
                        }
                    &&& p.decks[0].unit.name == "Attacker"@ && p.decks[0].unit.hp == 100
                        && p.decks[0].unit.attack == 20 && p.decks[0].unit.unit_type
                        == UnitType::Attacker
                    &&& p.decks[1].unit.name == "Healer"@ && p.decks[1].unit.hp == 50
                        && p.decks[1].unit.attack == 20 && p.decks[1].unit.unit_type
                        == UnitType::Healer
                    &&& p.decks[2].unit.name == "Archer"@ && p.decks[2].unit.hp == 75
                        && p.decks[2].unit.attack == 20 && p.decks[2].unit.unit_type
                        == UnitType::Archer
                    &&& p.decks[3].unit.name == "Assassin"@ && p.decks[3].unit.hp == 25
                        && p.decks[3].unit.attack == 40 && p.decks[3].unit.unit_type
                        == UnitType::Assassin
                    &&& p.decks[4].unit.name == "Summoner"@ && p.decks[4].unit.hp == 50
                        && p.decks[4].unit.attack == 10 && p.decks[4].unit.unit_type
                        == UnitType::Summoner
                    &&& p.decks[5].unit.name == "Mage"@ && p.decks[5].unit.hp == 25
                        && p.decks[5].unit.attack == 5 && p.decks[5].unit.unit_type
                        == UnitType::Mage
                }
        }),
{
    let g = starting_game();
    assert forall|s: int| 0 <= s < 2 implies {
        let p = #[trigger] starting_seat(g, s);
        &&& forall|k: int|
            0 <= k < 6 ==> {
                let u = #[trigger] p.decks[k].unit;
                &&& u.defence == 0 && u.sleep == 0 && u.stun == 0 && u.charm == 0
            }
    } by {
        let p = starting_seat(g, s);
        assert forall|k: int| 0 <= k < 6 implies {
            let u = #[trigger] p.decks[k].unit;
            &&& u.defence == 0 && u.sleep == 0 && u.stun == 0 && u.charm == 0
        } by {
            assert(k == 0 || k == 1 || k == 2 || k == 3 || k == 4 || k == 5);
        }
    }
}

/// The player at seat `s` (0 for the first player, 1 for the second).
pub open spec fn starting_seat(g: crate::types::GameView, s: int) -> PlayerView {
    if s == 0 {
        g.player1
    } else {
        g.player2
    }
}


/// The move: a skip changes nothing and is reported; playing card `k` takes it
/// from the hand, puts its unit at the back of the board and the card on the
/// grave, and is reported with the card; nothing else of the player changes.
pub proof fn law_play(p: PlayerView, pi: usize, action: Action)
    ensures
        match action {
            Action::Skip => play(p, pi, action) == Some(
                (p, seq![EventView::Player(pi, PlayerEventView::Skip)]),
            ),
            Action::Hand(k) => if k < p.hands.len() {
                let c = p.hands[k as int];
                let (q, ev) = play(p, pi, action).unwrap();
                &&& q.hands.len() + 1 == p.hands.len()
                &&& forall|m: int| 0 <= m < k ==> q.hands[m] == p.hands[m]
                &&& forall|m: int| k <= m < q.hands.len() ==> q.hands[m] == p.hands[m + 1]
                &&& q.units.len() == p.units.len() + 1
                &&& q.units.last() == c.unit
                &&& forall|m: int| 0 <= m < p.units.len() ==> q.units[m] == p.units[m]
                &&& q.graves.len() == p.graves.len() + 1
                &&& q.graves.last() == c
                &&& forall|m: int| 0 <= m < p.graves.len() ==> q.graves[m] == p.graves[m]
                &&& q.decks == p.decks && q.hp == p.hp && q.attack == p.attack
                    && q.defence == p.defence
                &&& ev == seq![EventView::Player(pi, PlayerEventView::UseCard(k, c))]
            } else {
                play(p, pi, action) is None
            },
        },
{
}

/// The draw: a player with a deck takes its last card into the hand; one with an
/// empty deck but a grave first turns the grave into a deck holding the same cards
/// (reporting a shuffle) and takes its last card; one with neither takes nothing.
/// Only hand, deck and grave change, and each draw is reported.
pub proof fn law_draw(before: PlayerView, pi: usize, after: PlayerView, events: Seq<EventView>)
    requires
        draw_outcome(before, pi, after, events),
    ensures
        after.units == before.units && after.hp == before.hp && after.attack == before.attack
            && after.defence == before.defence,
        before.decks.len() > 0 ==> {
            &&& after.hands == before.hands.push(before.decks[before.decks.len() - 1])
            &&& after.decks == before.decks.subrange(0, before.decks.len() - 1)
            &&& after.graves == before.graves
            &&& events == seq![EventView::Player(pi, PlayerEventView::DrawCard)]
        },
        before.decks.len() == 0 && before.graves.len() > 0 ==> {
            &&& after.graves.len() == 0
            &&& after.hands.len() == before.hands.len() + 1
            &&& after.hands.subrange(0, before.hands.len() as int) == before.hands
            &&& after.decks.push(after.hands.last()).to_multiset() == before.graves.to_multiset()
            &&& events == seq![
                EventView::Player(pi, PlayerEventView::Shuffle),
                EventView::Player(pi, PlayerEventView::DrawCard),
            ]
        },
        before.decks.len() == 0 && before.graves.len() == 0 ==> after == before && events.len()
            == 0,
{
    broadcast use vstd::seq_lib::group_to_multiset_ensures;

    if before.decks.len() > 0 {
        assert(after.hands.subrange(0, before.hands.len() as int) =~= before.hands);
    } else if before.graves.len() > 0 {
        let order = choose|order: Seq<CardView>|
            {
                &&& #[trigger] order.to_multiset() == before.graves.to_multiset()
                &&& after == crate::rules::draw_from(
                    PlayerView { graves: Seq::empty(), ..before },
                    order,
                )
            };
        assert(order.to_multiset().len() == before.graves.len());
        assert(order.drop_last().push(order.last()) =~= order);
        assert(after.hands.subrange(0, before.hands.len() as int) =~= before.hands);
    }
}


/// Event `e` is one of unit `u` of player `pi`.
pub open spec fn event_of(e: EventView, pi: usize, u: int) -> bool {
    e matches EventView::Unit(x, y, _) && x == pi && y == u
}

/// Some event of `s` is one of unit `u` of player `pi`.
pub open spec fn reports_unit(s: Seq<EventView>, pi: usize, u: int) -> bool {
    exists|k: int| 0 <= k < s.len() && #[trigger] event_of(s[k], pi, u)
}

/// No unit of the board is a summoner.
pub open spec fn no_summoner(units: Seq<UnitView>) -> bool {
    forall|k: int| 0 <= k < units.len() ==> (#[trigger] units[k]).unit_type != UnitType::Summoner
}

proof fn lemma_unit_turn_reports(p: PlayerView, o: PlayerView, pi: usize, oi: usize, i: int)
    requires
        0 <= i < p.units.len(),
        p.units.len() <= usize::MAX,
        p.units[i].unit_type != UnitType::Summoner,
        unit_turn(p, o, pi, oi, i) is Some,
    ensures
        ({
            let (r, j) = unit_turn(p, o, pi, oi, i).unwrap();
            &&& j == i
            &&& r.events.len() > 0
            &&& event_of(r.events[0], pi, i)
            &&& r.player.units.len() == p.units.len()
            &&& forall|k: int|
                0 <= k < p.units.len() ==> (#[trigger] r.player.units[k]).unit_type
                    == p.units[k].unit_type
        }),
{
    let u = p.units[i];
    let (r, j) = unit_turn(p, o, pi, oi, i).unwrap();
    if u.stun <= 0 && u.sleep <= 0 && u.unit_type == UnitType::Mage && o.units.len() > 0 {
        law_mage_strikes_all(p, o, pi, oi, i);
        let a = u.attack;
        let s = o.units;
        let dmg: int = if a - s[0].defence > 0 {
            a - s[0].defence
        } else {
            0
        };
        assert(r.events[0] == EventView::Unit(
            pi,
            i as usize,
            UnitEventView::AttackUnit(0usize, dmg as i32),
        ));
    }
    if u.stun <= 0 && u.sleep <= 0 && u.unit_type != UnitType::Mage && u.unit_type
        != UnitType::Healer && o.units.len() > 0 {
        let t = crate::rules::target_index(u.unit_type, o.units);
        crate::laws::lemma_weakest_exists(o.units);
        law_strike_on_unit(p, o, pi, oi, i, t);
    }
}

proof fn lemma_phase_reports_every_unit(p: PlayerView, o: PlayerView, pi: usize, oi: usize, i: int)
    requires
        0 <= i,
        p.units.len() <= usize::MAX,
        no_summoner(p.units),
        unit_phase(p, o, pi, oi, i) is Some,
        !unit_phase(p, o, pi, oi, i).unwrap().over,
    ensures
        forall|u: int|
            i <= u < p.units.len() ==> reports_unit(
                unit_phase(p, o, pi, oi, i).unwrap().events,
                pi,
                u,
            ),
    decreases p.units.len() - i,
{
    if i < p.units.len() {
        let (r, j) = unit_turn(p, o, pi, oi, i).unwrap();
        lemma_unit_turn_reports(p, o, pi, oi, i);
        lemma_unit_turn_advances(p, o, pi, oi, i);
        assert(no_summoner(r.player.units)) by {
            assert forall|k: int| 0 <= k < r.player.units.len() implies (
            #[trigger] r.player.units[k]).unit_type != UnitType::Summoner by {
                assert(r.player.units[k].unit_type == p.units[k].unit_type);
            }
        }
        lemma_phase_reports_every_unit(r.player, r.opponent, pi, oi, j + 1);
        let rest = unit_phase(r.player, r.opponent, pi, oi, j + 1).unwrap().events;
        let all = unit_phase(p, o, pi, oi, i).unwrap().events;
        assert(all == r.events + rest);
        assert forall|u: int| i <= u < p.units.len() implies reports_unit(all, pi, u) by {
            if u == i {
                assert(all[0] == r.events[0]);
                assert(event_of(all[0], pi, u));
            } else {
                assert(reports_unit(rest, pi, u));
                let k = choose|k: int| 0 <= k < rest.len() && #[trigger] event_of(rest[k], pi, u);
                assert(all[r.events.len() + k] == rest[k]);
                assert(event_of(all[r.events.len() + k], pi, u));
            }
        }
    }
}

/// When the player whose turn begins has no summoner and no player dies in the
/// units' phase, every one of its units takes its turn: each reports at least one
/// event under its own index.
pub proof fn law_every_unit_takes_its_turn(p: PlayerView, o: PlayerView, pi: usize, oi: usize)
    requires
        p.units.len() <= usize::MAX,
        no_summoner(p.units),
        unit_phase(p, o, pi, oi, 0) is Some,
        !unit_phase(p, o, pi, oi, 0).unwrap().over,
    ensures
        forall|u: int|
            0 <= u < p.units.len() ==> reports_unit(
                unit_phase(p, o, pi, oi, 0).unwrap().events,
                pi,
                u,
            ),
{
    lemma_phase_reports_every_unit(p, o, pi, oi, 0);
}

} // verus!
