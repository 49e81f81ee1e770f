//! What units do on their turn: strike, heal, summon, and rest.
use vstd::prelude::*;
use crate::rules::{
    act, after_blow, blow_events, blow_fits, creature, damage, fits_i32, heal, is_weakest,
    lemma_unit_turn_advances, rested, status_events, strike_player, summon, survives, sweep,
    unit_turn, weakest, Round,
};
use crate::types::{
    events_view, units_view, Event, EventView, Player, PlayerEvent, PlayerView, Unit, UnitEvent,
    UnitType, UnitView,
};

verus! {

/// Appending one event appends its view.
pub proof fn lemma_events_push(s: Seq<Event>, e: Event)
    ensures
        events_view(s.push(e)) == events_view(s).push(e@),
{
    assert(events_view(s.push(e)) =~= events_view(s).push(e@));
}

/// Replacing a unit replaces its view.
pub proof fn lemma_units_update(s: Seq<Unit>, i: int, u: Unit)
    requires
        0 <= i < s.len(),
    ensures
        units_view(s.update(i, u)) == units_view(s).update(i, u@),
{
    assert(units_view(s.update(i, u)) =~= units_view(s).update(i, u@));
}

/// Removing a unit removes its view.
pub proof fn lemma_units_remove(s: Seq<Unit>, i: int)
    requires
        0 <= i < s.len(),
    ensures
        units_view(s.remove(i)) == units_view(s).remove(i),
{
    assert(units_view(s.remove(i)) =~= units_view(s).remove(i));
}

/// Inserting a unit inserts its view.
pub proof fn lemma_units_insert(s: Seq<Unit>, i: int, u: Unit)
    requires
        0 <= i <= s.len(),
    ensures
        units_view(s.insert(i, u)) == units_view(s).insert(i, u@),
{
    assert(units_view(s.insert(i, u)) =~= units_view(s).insert(i, u@));
}

/// Pushing a unit pushes its view.
pub proof fn lemma_units_push(s: Seq<Unit>, u: Unit)
    ensures
        units_view(s.push(u)) == units_view(s).push(u@),
{
    assert(units_view(s.push(u)) =~= units_view(s).push(u@));
}

/// The damage of `attack` against `defence`, where their difference is an `i32`.
fn damage_of(attack: i32, defence: i32) -> (d: i32)
    requires
        fits_i32(attack - defence),
    ensures
        d == damage(attack, defence),
        d >= 0,
{
    let diff = attack - defence;
    if diff > 0 {
        diff
    } else {
        0
    }
}

/// Unit `i` of player `pi`, with attack `attack`, strikes the opponent player `oi`;
/// returns whether the opponent died.
pub fn strike_opponent(
    player: &Player,
    opponent: &mut Player,
    pi: usize,
    oi: usize,
    i: usize,
    events: &mut Vec<Event>,
) -> (over: bool)
    requires
        i < player.units.len(),
        strike_player(player@, old(opponent)@, pi, oi, i as int) is Some,
    ensures
        ({
            let r = strike_player(player@, old(opponent)@, pi, oi, i as int).unwrap();
            &&& final(opponent)@ == r.opponent
            &&& events_view(final(events)@) == events_view(old(events)@) + r.events
            &&& over == r.over
        }),
{
    let attack = player.units[i].attack;
    let d = damage_of(attack, opponent.defence);
    opponent.hp = opponent.hp - d;
    proof {
        lemma_events_push(events@, Event::Unit(pi, i, UnitEvent::AttackPlayer(d)));
    }
    events.push(Event::Unit(pi, i, UnitEvent::AttackPlayer(d)));
    if opponent.hp <= 0 {
        proof {
            lemma_events_push(events@, Event::Player(oi, PlayerEvent::Die));
        }
        events.push(Event::Player(oi, PlayerEvent::Die));
        assert(events_view(events@) =~= events_view(old(events)@) + strike_player(
            player@,
            old(opponent)@,
            pi,
            oi,
            i as int,
        ).unwrap().events);
        true
    } else {
        assert(events_view(events@) =~= events_view(old(events)@) + strike_player(
            player@,
            old(opponent)@,
            pi,
            oi,
            i as int,
        ).unwrap().events);
        false
    }
}

/// Unit `i` of player `pi`, with attack `attack`, strikes unit `t` of player `oi`;
/// returns whether that unit died.
pub fn strike_at(
    attack: i32,
    opponent: &mut Player,
    pi: usize,
    oi: usize,
    i: usize,
    t: usize,
    events: &mut Vec<Event>,
) -> (died: bool)
    requires
        t < old(opponent).units.len(),
        blow_fits(attack, old(opponent)@.units[t as int]),
    ensures
        final(opponent)@ == (PlayerView {
            units: after_blow(old(opponent)@.units, t as int, attack),
            ..old(opponent)@
        }),
        events_view(final(events)@) == events_view(old(events)@) + blow_events(
            pi,
            i as int,
            oi,
            t as int,
            attack,
            old(opponent)@.units[t as int],
        ),
        died == !survives(attack, old(opponent)@.units[t as int]),
{
    let ghost target = opponent@.units[t as int];
    let d = damage_of(attack, opponent.units[t].defence);
    let hp = opponent.units[t].hp - d;
    opponent.units[t].hp = hp;
    proof {
        lemma_events_push(events@, Event::Unit(pi, i, UnitEvent::AttackUnit(t, d)));
    }
    events.push(Event::Unit(pi, i, UnitEvent::AttackUnit(t, d)));
    if hp <= 0 {
        let ghost before = opponent.units@;
        proof {
            lemma_units_remove(before, t as int);
            lemma_events_push(events@, Event::Unit(oi, t, UnitEvent::Die));
        }
        let _gone = opponent.units.remove(t);
        events.push(Event::Unit(oi, t, UnitEvent::Die));
        assert(units_view(before).remove(t as int) =~= old(opponent)@.units.remove(t as int));
        assert(opponent@.units =~= after_blow(old(opponent)@.units, t as int, attack));
        assert(events_view(events@) =~= events_view(old(events)@) + blow_events(
            pi,
            i as int,
            oi,
            t as int,
            attack,
            target,
        ));
        true
    } else {
        assert(opponent@.units =~= after_blow(old(opponent)@.units, t as int, attack));
        assert(events_view(events@) =~= events_view(old(events)@) + blow_events(
            pi,
            i as int,
            oi,
            t as int,
            attack,
            target,
        ));
        false
    }
}


/// There is only one first weakest unit.
pub proof fn lemma_weakest_unique(units: Seq<UnitView>, t: int)
    requires
        is_weakest(units, t),
    ensures
        weakest(units) == t,
{
    let c = weakest(units);
    assert(is_weakest(units, c));
    if c < t {
        assert(units[t].hp < units[c].hp);
        assert(units[c].hp <= units[t].hp);
    } else if t < c {
        assert(units[c].hp < units[t].hp);
        assert(units[t].hp <= units[c].hp);
    }
}

/// The index of the first unit with the lowest hp.
pub fn weakest_index(units: &Vec<Unit>) -> (t: usize)
    requires
        units.len() > 0,
    ensures
        is_weakest(units_view(units@), t as int),
        t as int == weakest(units_view(units@)),
{
    let ghost v = units_view(units@);
    let mut index: usize = 0;
    let mut min = units[0].hp;
    let mut k: usize = 0;
    while k < units.len()
        invariant
            v == units_view(units@),
            0 <= index < units.len(),
            k <= units.len(),
            index <= k,
            min == v[index as int].hp,
            forall|j: int| 0 <= j < k ==> min <= #[trigger] v[j].hp,
            forall|j: int| 0 <= j < index ==> min < #[trigger] v[j].hp,
        decreases units.len() - k,
    {
        if units[k].hp < min {
            min = units[k].hp;
            index = k;
        }
        k += 1;
    }
    proof {
        lemma_weakest_unique(v, index as int);
    }
    index
}


/// Unit `i` of player `pi`, with attack `attack`, strikes every unit of player `oi`
/// front to back.
pub fn sweep_units(
    attack: i32,
    opponent: &mut Player,
    pi: usize,
    oi: usize,
    i: usize,
    events: &mut Vec<Event>,
)
    requires
        sweep(attack, old(opponent)@.units, pi, i as int, oi, 0) is Some,
    ensures
        ({
            let s = sweep(attack, old(opponent)@.units, pi, i as int, oi, 0).unwrap();
            &&& final(opponent)@ == (PlayerView { units: s.0, ..old(opponent)@ })
            &&& events_view(final(events)@) == events_view(old(events)@) + s.1
        }),
{
    let ghost start = opponent@;
    let ghost start_events = events_view(events@);
    let ghost whole = sweep(attack, start.units, pi, i as int, oi, 0).unwrap();
    let ghost mut done: Seq<EventView> = Seq::empty();
    let mut t: usize = 0;
    while t < opponent.units.len()
        invariant
            sweep(attack, opponent@.units, pi, i as int, oi, t as int) is Some,
            whole.0 == sweep(attack, opponent@.units, pi, i as int, oi, t as int).unwrap().0,
            whole.1 == done + sweep(attack, opponent@.units, pi, i as int, oi, t as int).unwrap().1,
            opponent@ == (PlayerView { units: opponent@.units, ..start }),
            events_view(events@) == start_events + done,
        decreases opponent.units.len() - t,
    {
        let ghost before = opponent@;
        let ghost blow = blow_events(pi, i as int, oi, t as int, attack, before.units[t as int]);
        let died = strike_at(attack, opponent, pi, oi, i, t, events);
        proof {
            done = done + blow;
            assert(whole.1 =~= done + sweep(
                attack,
                opponent@.units,
                pi,
                i as int,
                oi,
                if died { t as int } else { t + 1 },
            ).unwrap().1);
        }
        if !died {
            t += 1;
        }
    }
    assert(whole.1 =~= done);
}

/// Unit `i` of player `pi` heals the front unit of its side.
pub fn heal_front(player: &mut Player, pi: usize, i: usize, events: &mut Vec<Event>)
    requires
        i < old(player).units.len(),
        heal(old(player)@, old(player)@, pi, i as int) is Some,
    ensures
        ({
            let r = heal(old(player)@, old(player)@, pi, i as int).unwrap();
            &&& final(player)@ == r.player
            &&& events_view(final(events)@) == events_view(old(events)@) + r.events
        }),
{
    let attack = player.units[i].attack;
    let gain = if attack > 0 {
        attack
    } else {
        0
    };
    let ghost before = player.units@;
    player.units[0].hp = player.units[0].hp + gain;
    proof {
        lemma_units_update(before, 0, player.units@[0]);
        lemma_events_push(events@, Event::Unit(pi, i, UnitEvent::Heal(0, attack)));
    }
    events.push(Event::Unit(pi, i, UnitEvent::Heal(0, attack)));
    assert(player@.units =~= heal(old(player)@, old(player)@, pi, i as int).unwrap().player.units);
    assert(events_view(events@) =~= events_view(old(events)@) + heal(
        old(player)@,
        old(player)@,
        pi,
        i as int,
    ).unwrap().events);
}

/// Unit `i` of player `pi` summons a creature to the front of its side.
pub fn summon_creature(player: &mut Player, pi: usize, i: usize, events: &mut Vec<Event>)
    requires
        i < old(player).units.len(),
    ensures
        ({
            let r = summon(old(player)@, old(player)@, pi, i as int);
            &&& final(player)@ == r.player
            &&& events_view(final(events)@) == events_view(old(events)@) + r.events
        }),
{
    let attack = player.units[i].attack;
    let u = Unit {
        name: "SummonerCreature".to_string(),
        hp: attack,
        attack: attack,
        defence: 0,
        sleep: 0,
        stun: 0,
        charm: 0,
        unit_type: UnitType::Attacker,
    };
    assert(u@ == creature(attack));
    let ghost before = player.units@;
    proof {
        lemma_units_insert(before, 0, u);
        lemma_events_push(events@, Event::Unit(pi, i, UnitEvent::Summon(u)));
    }
    player.units.insert(0, u.clone());
    events.push(Event::Unit(pi, i, UnitEvent::Summon(u)));
    assert(events_view(events@) =~= events_view(old(events)@) + summon(
        old(player)@,
        old(player)@,
        pi,
        i as int,
    ).events);
}


/// The turn of unit `i` of player `pi` against player `oi`: a stunned or sleeping
/// unit reports so and does not act; then the unit acts, and its stun, sleep and
/// charm counts go down. Returns the index at which the unit stands afterwards
/// and whether the opponent died.
pub fn unit_turn_of(
    player: &mut Player,
    opponent: &mut Player,
    pi: usize,
    oi: usize,
    i: usize,
    events: &mut Vec<Event>,
) -> (res: (usize, bool))
    requires
        i < old(player).units.len(),
        unit_turn(old(player)@, old(opponent)@, pi, oi, i as int) is Some,
    ensures
        ({
            let (r, j) = unit_turn(old(player)@, old(opponent)@, pi, oi, i as int).unwrap();
            &&& final(player)@ == r.player
            &&& final(opponent)@ == r.opponent
            &&& events_view(final(events)@) == events_view(old(events)@) + r.events
            &&& res.0 as int == j
            &&& res.1 == r.over
        }),
{
    let ghost p0 = player@;
    let ghost o0 = opponent@;
    let ghost e0 = events_view(events@);
    let mut skip = false;
    if player.units[i].stun > 0 {
        skip = true;
        proof {
            lemma_events_push(events@, Event::Unit(pi, i, UnitEvent::Stun));
        }
        events.push(Event::Unit(pi, i, UnitEvent::Stun));
    }
    if player.units[i].sleep > 0 {
        skip = true;
        proof {
            lemma_events_push(events@, Event::Unit(pi, i, UnitEvent::Sleep));
        }
        events.push(Event::Unit(pi, i, UnitEvent::Sleep));
    }
    assert(events_view(events@) =~= e0 + status_events(pi, i as int, p0.units[i as int]));
    let mut j = i;
    if !skip {
        let kind = player.units[i].unit_type;
        let attack = player.units[i].attack;
        match kind {
            UnitType::Healer => {
                heal_front(player, pi, i, events);
            },
            UnitType::Summoner => {
                summon_creature(player, pi, i, events);
                j = i + 1;
            },
            UnitType::Mage => {
                if opponent.units.is_empty() {
                    let over = strike_opponent(player, opponent, pi, oi, i, events);
                    if over {
                        return (i, true);
                    }
                } else {
                    sweep_units(attack, opponent, pi, oi, i, events);
                }
            },
            _ => {
                if opponent.units.is_empty() {
                    let over = strike_opponent(player, opponent, pi, oi, i, events);
                    if over {
                        return (i, true);
                    }
                } else {
                    let t = match kind {
                        UnitType::Archer => opponent.units.len() - 1,
                        UnitType::Assassin => weakest_index(&opponent.units),
                        _ => 0,
                    };
                    strike_at(attack, opponent, pi, oi, i, t, events);
                }
            },
        }
    }
    let ghost mid = player.units@;
    let ghost r = if skip {
        Round { player: p0, opponent: o0, events: status_events(pi, i as int, p0.units[i as int]), over: false }
    } else {
        act(p0, o0, pi, oi, i as int).unwrap()
    };
    assert(player@ == r.player);
    assert(opponent@ == r.opponent);
    assert(events_view(events@) =~= e0 + r.events);
    proof {
        lemma_unit_turn_advances(p0, o0, pi, oi, i as int);
    }
    assert(j < player.units.len());
    if player.units[j].stun > 0 {
        player.units[j].stun = player.units[j].stun - 1;
    }
    if player.units[j].sleep > 0 {
        player.units[j].sleep = player.units[j].sleep - 1;
    }
    if player.units[j].charm > 0 {
        player.units[j].charm = player.units[j].charm - 1;
    }
    proof {
        lemma_units_update(mid, j as int, player.units@[j as int]);
    }
    assert(player@.units =~= r.player.units.update(j as int, rested(r.player.units[j as int])));
    (j, false)
}

} // verus!
