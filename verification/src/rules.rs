//! The rules of a turn, as mathematical functions on views.
//!
//! Every rule that does integer arithmetic on `i32` values yields `None` where
//! that arithmetic would leave the range of `i32`, or where an index is out of
//! range: those are the inputs on which a turn cannot be played.
use vstd::prelude::*;
use crate::types::{
    Action, CardView, EventView, GameView, PlayerEventView, PlayerView, UnitEventView, UnitType,
    UnitView,
};

verus! {

/// `x` is a value of `i32`.
pub open spec fn fits_i32(x: int) -> bool {
    i32::MIN <= x <= i32::MAX
}

/// The damage that `attack` deals against `defence`: their difference, never below 0.
pub open spec fn damage(attack: i32, defence: i32) -> int {
    if attack - defence > 0 {
        attack - defence
    } else {
        0
    }
}

/// A unit's share of a turn (or of several units' shares): both sides afterwards,
/// the events reported, and whether the opponent died, which ends the units' actions.
pub struct Round {
    pub player: PlayerView,
    pub opponent: PlayerView,
    pub events: Seq<EventView>,
    pub over: bool,
}

/// Event `e` of unit `u` of player `p`.
pub open spec fn unit_event(p: usize, u: int, e: UnitEventView) -> EventView {
    EventView::Unit(p, u as usize, e)
}

// ---------------------------------------------------------------------------
// Blows
// ---------------------------------------------------------------------------

/// Striking the opponent player with unit `i`: the opponent loses the damage,
/// and dies when its hp falls to 0 or below.
pub open spec fn strike_player(p: PlayerView, o: PlayerView, pi: usize, oi: usize, i: int) -> Option<
    Round,
> {
    let u = p.units[i];
    if !fits_i32(u.attack - o.defence) {
        None
    } else {
        let d = damage(u.attack, o.defence);
        let hp = o.hp - d;
        if !fits_i32(hp) {
            None
        } else {
            Some(
                Round {
                    player: p,
                    opponent: PlayerView { hp: hp as i32, ..o },
                    events: seq![unit_event(pi, i, UnitEventView::AttackPlayer(d as i32))] + (if hp
                        <= 0 {
                        seq![EventView::Player(oi, PlayerEventView::Die)]
                    } else {
                        Seq::empty()
                    }),
                    over: hp <= 0,
                },
            )
        }
    }
}

/// The arithmetic of a blow of `attack` on `target` stays within `i32`.
pub open spec fn blow_fits(attack: i32, target: UnitView) -> bool {
    fits_i32(attack - target.defence) && fits_i32(target.hp - damage(attack, target.defence))
}

/// `target` still has hp above 0 after a blow of `attack`.
pub open spec fn survives(attack: i32, target: UnitView) -> bool {
    target.hp - damage(attack, target.defence) > 0
}

/// `target` after a blow of `attack`.
pub open spec fn wounded(attack: i32, target: UnitView) -> UnitView {
    UnitView { hp: (target.hp - damage(attack, target.defence)) as i32, ..target }
}

/// The units after unit `t` takes a blow of `attack`: it is wounded if it survives,
/// and leaves the board otherwise.
pub open spec fn after_blow(units: Seq<UnitView>, t: int, attack: i32) -> Seq<UnitView> {
    if survives(attack, units[t]) {
        units.update(t, wounded(attack, units[t]))
    } else {
        units.remove(t)
    }
}

/// What a blow of unit `i` of player `pi` on unit `t` of player `oi` reports.
pub open spec fn blow_events(pi: usize, i: int, oi: usize, t: int, attack: i32, target: UnitView) -> Seq<
    EventView,
> {
    seq![unit_event(pi, i, UnitEventView::AttackUnit(t as usize, damage(attack, target.defence) as i32))]
        + (if survives(attack, target) {
        Seq::empty()
    } else {
        seq![unit_event(oi, t, UnitEventView::Die)]
    })
}

/// Striking unit `t` of the opponent with unit `i`.
pub open spec fn strike_unit(p: PlayerView, o: PlayerView, pi: usize, oi: usize, i: int, t: int) -> Option<
    Round,
> {
    let attack = p.units[i].attack;
    if !blow_fits(attack, o.units[t]) {
        None
    } else {
        Some(
            Round {
                player: p,
                opponent: PlayerView { units: after_blow(o.units, t, attack), ..o },
                events: blow_events(pi, i, oi, t, attack, o.units[t]),
                over: false,
            },
        )
    }
}

/// A blow of `attack` on every unit from `t` on, front to back; units that die
/// leave the board at once.
pub open spec fn sweep(attack: i32, units: Seq<UnitView>, pi: usize, i: int, oi: usize, t: int) -> Option<
    (Seq<UnitView>, Seq<EventView>),
>
    decreases units.len() - t,
{
    if t < 0 || t >= units.len() {
        Some((units, Seq::empty()))
    } else if !blow_fits(attack, units[t]) {
        None
    } else {
        let next = if survives(attack, units[t]) {
            t + 1
        } else {
            t
        };
        match sweep(attack, after_blow(units, t, attack), pi, i, oi, next) {
            None => None,
            Some(rest) => Some((rest.0, blow_events(pi, i, oi, t, attack, units[t]) + rest.1)),
        }
    }
}

/// Unit `t` has the lowest hp, and no unit before it has as low an hp.
pub open spec fn is_weakest(units: Seq<UnitView>, t: int) -> bool {
    &&& 0 <= t < units.len()
    &&& forall|j: int| 0 <= j < units.len() ==> units[t].hp <= #[trigger] units[j].hp
    &&& forall|j: int| 0 <= j < t ==> units[t].hp < #[trigger] units[j].hp
}

/// The first unit with the lowest hp.
pub open spec fn weakest(units: Seq<UnitView>) -> int {
    choose|t: int| is_weakest(units, t)
}

/// The opponent unit that a unit of kind `kind` strikes: the front one for an
/// attacker, the back one for an archer, the weakest for an assassin.
pub open spec fn target_index(kind: UnitType, units: Seq<UnitView>) -> int {
    match kind {
        UnitType::Archer => units.len() - 1,
        UnitType::Assassin => weakest(units),
        _ => 0,
    }
}

// ---------------------------------------------------------------------------
// Healing and summoning
// ---------------------------------------------------------------------------

/// Unit `i` heals the front unit of its own side by its attack, if positive.
pub open spec fn heal(p: PlayerView, o: PlayerView, pi: usize, i: int) -> Option<Round> {
    let attack = p.units[i].attack;
    let front = p.units[0];
    let gain: int = if attack > 0 {
        attack as int
    } else {
        0
    };
    if !fits_i32(front.hp + gain) {
        None
    } else {
        Some(
            Round {
                player: PlayerView {
                    units: p.units.update(0, UnitView { hp: (front.hp + gain) as i32, ..front }),
                    ..p
                },
                opponent: o,
                events: seq![unit_event(pi, i, UnitEventView::Heal(0, attack))],
                over: false,
            },
        )
    }
}

/// The creature that a summoner with attack `attack` calls.
pub open spec fn creature(attack: i32) -> UnitView {
    UnitView {
        name: "SummonerCreature"@,
        hp: attack,
        attack: attack,
        defence: 0,
        sleep: 0,
        stun: 0,
        charm: 0,
        unit_type: UnitType::Attacker,
    }
}

/// Unit `i` summons a creature to the front of its own side.
pub open spec fn summon(p: PlayerView, o: PlayerView, pi: usize, i: int) -> Round {
    let c = creature(p.units[i].attack);
    Round {
        player: PlayerView { units: p.units.insert(0, c), ..p },
        opponent: o,
        events: seq![unit_event(pi, i, UnitEventView::Summon(c))],
        over: false,
    }
}

// ---------------------------------------------------------------------------
// A unit's turn and the units' phase
// ---------------------------------------------------------------------------

/// The action of unit `i` of player `p` (index `pi`) against `o` (index `oi`).
pub open spec fn act(p: PlayerView, o: PlayerView, pi: usize, oi: usize, i: int) -> Option<Round> {
    let u = p.units[i];
    match u.unit_type {
        UnitType::Healer => heal(p, o, pi, i),
        UnitType::Summoner => Some(summon(p, o, pi, i)),
        UnitType::Mage => {
            if o.units.len() == 0 {
                strike_player(p, o, pi, oi, i)
            } else {
                match sweep(u.attack, o.units, pi, i, oi, 0) {
                    None => None,
                    Some(s) => Some(
                        Round {
                            player: p,
                            opponent: PlayerView { units: s.0, ..o },
                            events: s.1,
                            over: false,
                        },
                    ),
                }
            }
        },
        _ => {
            if o.units.len() == 0 {
                strike_player(p, o, pi, oi, i)
            } else {
                strike_unit(p, o, pi, oi, i, target_index(u.unit_type, o.units))
            }
        },
    }
}

/// A stunned or sleeping unit does not act.
pub open spec fn held(u: UnitView) -> bool {
    u.stun > 0 || u.sleep > 0
}

/// What a held unit reports: stun first, then sleep.
pub open spec fn status_events(pi: usize, i: int, u: UnitView) -> Seq<EventView> {
    (if u.stun > 0 {
        seq![unit_event(pi, i, UnitEventView::Stun)]
    } else {
        Seq::empty()
    }) + (if u.sleep > 0 {
        seq![unit_event(pi, i, UnitEventView::Sleep)]
    } else {
        Seq::empty()
    })
}

/// `u` at the end of its turn: each positive stun, sleep and charm count goes down by one.
pub open spec fn rested(u: UnitView) -> UnitView {
    UnitView {
        stun: if u.stun > 0 {
            (u.stun - 1) as i32
        } else {
            u.stun
        },
        sleep: if u.sleep > 0 {
            (u.sleep - 1) as i32
        } else {
            u.sleep
        },
        charm: if u.charm > 0 {
            (u.charm - 1) as i32
        } else {
            u.charm
        },
        ..u
    }
}

/// The turn of unit `i`, with the index at which that unit stands afterwards
/// (one further back after it summoned a creature to the front).
pub open spec fn unit_turn(p: PlayerView, o: PlayerView, pi: usize, oi: usize, i: int) -> Option<
    (Round, int),
> {
    let u = p.units[i];
    if held(u) {
        Some(
            (
                Round {
                    player: PlayerView { units: p.units.update(i, rested(u)), ..p },
                    opponent: o,
                    events: status_events(pi, i, u),
                    over: false,
                },
                i,
            ),
        )
    } else {
        match act(p, o, pi, oi, i) {
            None => None,
            Some(r) => if r.over {
                Some((r, i))
            } else {
                let j = if u.unit_type == UnitType::Summoner {
                    i + 1
                } else {
                    i
                };
                Some(
                    (
                        Round {
                            player: PlayerView {
                                units: r.player.units.update(j, rested(r.player.units[j])),
                                ..r.player
                            },
                            ..r
                        },
                        j,
                    ),
                )
            },
        }
    }
}

/// A unit's turn leaves as many units behind it as before, unless the opponent died.
pub proof fn lemma_unit_turn_advances(p: PlayerView, o: PlayerView, pi: usize, oi: usize, i: int)
    requires
        0 <= i < p.units.len(),
        unit_turn(p, o, pi, oi, i) is Some,
        !unit_turn(p, o, pi, oi, i).unwrap().0.over,
    ensures
        ({
            let (r, j) = unit_turn(p, o, pi, oi, i).unwrap();
            &&& r.player.units.len() - j == p.units.len() - i
            &&& i <= j < r.player.units.len()
        }),
{
}

/// The units of player `p` act in order from unit `i` on, until the opponent dies.
pub open spec fn unit_phase(p: PlayerView, o: PlayerView, pi: usize, oi: usize, i: int) -> Option<
    Round,
>
    decreases p.units.len() - i,
{
    if i < 0 || i >= p.units.len() {
        Some(Round { player: p, opponent: o, events: Seq::empty(), over: false })
    } else {
        match unit_turn(p, o, pi, oi, i) {
            None => None,
            Some(step) => if step.0.over {
                Some(step.0)
            } else {
                proof {
                    lemma_unit_turn_advances(p, o, pi, oi, i);
                }
                match unit_phase(step.0.player, step.0.opponent, pi, oi, step.1 + 1) {
                    None => None,
                    Some(rest) => Some(Round { events: step.0.events + rest.events, ..rest }),
                }
            },
        }
    }
}

// ---------------------------------------------------------------------------
// The turn
// ---------------------------------------------------------------------------

/// The side at which the player with index `idx` sits: 0 is the first player, any other the second.
pub open spec fn seat(idx: usize) -> usize {
    if idx == 0 {
        0
    } else {
        1
    }
}

/// The player at seat `s`.
pub open spec fn side(g: GameView, s: usize) -> PlayerView {
    if s == 0 {
        g.player1
    } else {
        g.player2
    }
}

/// `g` with the player at seat `s` replaced by `p`.
pub open spec fn with_side(g: GameView, s: usize, p: PlayerView) -> GameView {
    if s == 0 {
        GameView { player1: p, ..g }
    } else {
        GameView { player2: p, ..g }
    }
}

/// The acting player's move: skip, or play card `k` of the hand, which puts its
/// unit on the board and the card in the grave.
pub open spec fn play(p: PlayerView, pi: usize, action: Action) -> Option<(PlayerView, Seq<EventView>)> {
    match action {
        Action::Skip => Some((p, seq![EventView::Player(pi, PlayerEventView::Skip)])),
        Action::Hand(k) => if k < p.hands.len() {
            let c = p.hands[k as int];
            Some(
                (
                    PlayerView {
                        hands: p.hands.remove(k as int),
                        units: p.units.push(c.unit),
                        graves: p.graves.push(c),
                        ..p
                    },
                    seq![EventView::Player(pi, PlayerEventView::UseCard(k, c))],
                ),
            )
        } else {
            None
        },
    }
}

/// A turn up to the draw: the table and the events.
pub struct Board {
    pub game: GameView,
    pub events: Seq<EventView>,
}

/// A turn without its draw: the current player moves, the turn passes, and the
/// units of the player whose turn begins act against the other player.
pub open spec fn turn(g: GameView, action: Action) -> Option<Board> {
    let a = seat(g.current_player_index);
    match play(side(g, a), a, action) {
        None => None,
        Some(moved) => if g.current_player_index == usize::MAX {
            None
        } else {
            let g1 = with_side(g, a, moved.0);
            let next = ((g.current_player_index + 1) % 2) as usize;
            let b = seat(next);
            let ob = (1 - b) as usize;
            match unit_phase(side(g1, b), side(g1, ob), b, ob, 0) {
                None => None,
                Some(r) => Some(
                    Board {
                        game: with_side(
                            with_side(GameView { current_player_index: next, ..g1 }, b, r.player),
                            ob,
                            r.opponent,
                        ),
                        events: moved.1 + r.events,
                    },
                ),
            }
        },
    }
}

/// The turn can be played: the card played is in the hand, the turn counter can
/// advance, and no `i32` arithmetic of the units leaves its range.
pub open spec fn turn_defined(g: GameView, action: Action) -> bool {
    turn(g, action) is Some
}

/// `p` after drawing the last card of `deck`, which becomes its deck.
pub open spec fn draw_from(p: PlayerView, deck: Seq<CardView>) -> PlayerView {
    PlayerView { decks: deck.drop_last(), hands: p.hands.push(deck.last()), ..p }
}

/// The draw at the start of a turn takes player `before` (index `pi`) to `after`
/// reporting `events`: a player with a deck draws its last card; one without a
/// deck but with a grave shuffles the grave into the deck, in some order, and draws;
/// one with neither draws nothing.
pub open spec fn draw_outcome(before: PlayerView, pi: usize, after: PlayerView, events: Seq<EventView>) -> bool {
    if before.decks.len() > 0 {
        &&& after == draw_from(before, before.decks)
        &&& events == seq![EventView::Player(pi, PlayerEventView::DrawCard)]
    } else if before.graves.len() > 0 {
        &&& exists|order: Seq<CardView>|
            {
                &&& #[trigger] order.to_multiset() == before.graves.to_multiset()
                &&& after == draw_from(PlayerView { graves: Seq::empty(), ..before }, order)
            }
        &&& events == seq![
            EventView::Player(pi, PlayerEventView::Shuffle),
            EventView::Player(pi, PlayerEventView::DrawCard),
        ]
    } else {
        &&& after == before
        &&& events == Seq::<EventView>::empty()
    }
}

/// A whole turn takes `g` to `after` reporting `events`: the turn as `turn` says,
/// then the draw of the player whose turn begins.
pub open spec fn turn_done(g: GameView, action: Action, after: GameView, events: Seq<EventView>) -> bool {
    let b = turn(g, action).unwrap();
    let s = seat(b.game.current_player_index);
    let o = (1 - s) as usize;
    &&& after.current_player_index == b.game.current_player_index
    &&& side(after, o) == side(b.game, o)
    &&& events.len() >= b.events.len()
    &&& events.take(b.events.len() as int) == b.events
    &&& draw_outcome(side(b.game, s), s, side(after, s), events.skip(b.events.len() as int))
}

} // verus!
