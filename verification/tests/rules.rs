use card_game::deck::refill_deck;
use card_game::{
    new_game, run_action, Action, Card, Event, Game, Player, PlayerEvent, Unit, UnitEvent,
    UnitType,
};

fn unit(hp: i32, attack: i32, unit_type: UnitType) -> Unit {
    Unit {
        hp,
        attack,
        unit_type,
        ..Default::default()
    }
}

fn card(name: &str) -> Card {
    Card {
        unit: Unit {
            name: name.to_string(),
            ..Default::default()
        },
    }
}

/// A game where player 2 is about to skip, so player 1's units act against player 2.
fn game_with(p1: Player, p2: Player) -> Game {
    Game {
        player1: p1,
        player2: p2,
        current_player_index: 1,
    }
}

fn names(cards: &Vec<Card>) -> Vec<String> {
    let mut v: Vec<String> = cards.iter().map(|c| c.unit.name.clone()).collect();
    v.sort();
    v
}

#[test]
fn defaults_are_empty() {
    let g = Game::default();
    assert_eq!(g.current_player_index, 0);
    assert_eq!(g.player1.hp, 0);
    assert!(g.player2.units.is_empty());
    assert_eq!(UnitType::default(), UnitType::Attacker);
    assert_eq!(Action::default(), Action::Skip);
    let u = Unit::default();
    assert_eq!(u.name, "");
    assert_eq!((u.hp, u.attack, u.defence, u.sleep, u.stun, u.charm), (0, 0, 0, 0, 0, 0));
}

#[test]
fn new_game_deals_the_starting_cards() {
    let g = new_game();
    assert_eq!(g.current_player_index, 0);
    for p in [&g.player1, &g.player2] {
        assert_eq!(p.hp, 100);
        assert_eq!(p.hands.len(), 3);
        assert!(p.hands.iter().all(|c| c.unit.name == "Attacker"
            && c.unit.hp == 100
            && c.unit.attack == 20
            && c.unit.unit_type == UnitType::Attacker));
        let deck: Vec<(&str, i32, i32, UnitType)> = p
            .decks
            .iter()
            .map(|c| (c.unit.name.as_str(), c.unit.hp, c.unit.attack, c.unit.unit_type.clone()))
            .collect();
        assert_eq!(
            deck,
            vec![
                ("Attacker", 100, 20, UnitType::Attacker),
                ("Healer", 50, 20, UnitType::Healer),
                ("Archer", 75, 20, UnitType::Archer),
                ("Assassin", 25, 40, UnitType::Assassin),
                ("Summoner", 50, 10, UnitType::Summoner),
                ("Mage", 25, 5, UnitType::Mage),
            ]
        );
        assert!(p.graves.is_empty() && p.units.is_empty());
    }
}

#[test]
fn first_turn_of_new_game() {
    let mut g = new_game();
    let events = run_action(&mut g, &Action::Hand(0));
    assert_eq!(g.current_player_index, 1);
    assert_eq!(g.player1.hands.len(), 2);
    assert_eq!(g.player1.units.len(), 1);
    assert_eq!(g.player1.graves.len(), 1);
    // player 2 draws the mage from the top of its deck
    assert_eq!(g.player2.hands.len(), 4);
    assert_eq!(g.player2.hands[3].unit.name, "Mage");
    assert_eq!(g.player2.decks.len(), 5);
    assert_eq!(events.len(), 2);
    assert_eq!(
        events[0],
        Event::Player(0, PlayerEvent::UseCard(0, g.player1.graves[0].clone()))
    );
    assert_eq!(events[1], Event::Player(1, PlayerEvent::DrawCard));
}

#[test]
fn damage_is_attack_minus_defence_never_negative() {
    let p1 = Player {
        units: vec![unit(10, 3, UnitType::Attacker)],
        hp: 100,
        ..Default::default()
    };
    let p2 = Player {
        hp: 100,
        defence: 8,
        ..Default::default()
    };
    let mut g = game_with(p1, p2);
    let events = run_action(&mut g, &Action::Skip);
    assert_eq!(g.player2.hp, 100);
    assert_eq!(events[1], Event::Unit(0, 0, UnitEvent::AttackPlayer(0)));
}

#[test]
fn attacker_kills_player_and_stops_the_units() {
    let p1 = Player {
        units: vec![
            unit(10, 30, UnitType::Attacker),
            unit(10, 30, UnitType::Attacker),
        ],
        hp: 100,
        ..Default::default()
    };
    let p2 = Player {
        hp: 20,
        ..Default::default()
    };
    let mut g = game_with(p1, p2);
    let events = run_action(&mut g, &Action::Skip);
    assert_eq!(g.player2.hp, -10);
    assert_eq!(
        events,
        vec![
            Event::Player(1, PlayerEvent::Skip),
            Event::Unit(0, 0, UnitEvent::AttackPlayer(30)),
            Event::Player(1, PlayerEvent::Die),
        ]
    );
}

#[test]
fn archer_strikes_the_last_unit() {
    let p1 = Player {
        units: vec![unit(10, 4, UnitType::Archer)],
        ..Default::default()
    };
    let p2 = Player {
        units: vec![unit(10, 0, UnitType::Attacker), unit(10, 0, UnitType::Attacker)],
        ..Default::default()
    };
    let mut g = game_with(p1, p2);
    let events = run_action(&mut g, &Action::Skip);
    assert_eq!(g.player2.units[0].hp, 10);
    assert_eq!(g.player2.units[1].hp, 6);
    assert_eq!(events[1], Event::Unit(0, 0, UnitEvent::AttackUnit(1, 4)));
}

#[test]
fn assassin_strikes_the_first_weakest_unit() {
    let p1 = Player {
        units: vec![unit(10, 5, UnitType::Assassin)],
        ..Default::default()
    };
    let p2 = Player {
        units: vec![
            unit(9, 0, UnitType::Attacker),
            unit(3, 0, UnitType::Attacker),
            unit(7, 0, UnitType::Attacker),
            unit(3, 0, UnitType::Attacker),
        ],
        ..Default::default()
    };
    let mut g = game_with(p1, p2);
    let events = run_action(&mut g, &Action::Skip);
    assert_eq!(g.player2.units.len(), 3);
    assert_eq!(
        g.player2.units.iter().map(|u| u.hp).collect::<Vec<_>>(),
        vec![9, 7, 3]
    );
    assert_eq!(events[1], Event::Unit(0, 0, UnitEvent::AttackUnit(1, 5)));
    assert_eq!(events[2], Event::Unit(1, 1, UnitEvent::Die));
}

#[test]
fn mage_strikes_every_unit() {
    let p1 = Player {
        units: vec![unit(10, 5, UnitType::Mage)],
        ..Default::default()
    };
    let p2 = Player {
        units: vec![
            unit(4, 0, UnitType::Attacker),
            unit(9, 0, UnitType::Attacker),
            unit(5, 0, UnitType::Attacker),
        ],
        ..Default::default()
    };
    let mut g = game_with(p1, p2);
    let events = run_action(&mut g, &Action::Skip);
    assert_eq!(g.player2.units.len(), 1);
    assert_eq!(g.player2.units[0].hp, 4);
    assert_eq!(
        events,
        vec![
            Event::Player(1, PlayerEvent::Skip),
            Event::Unit(0, 0, UnitEvent::AttackUnit(0, 5)),
            Event::Unit(1, 0, UnitEvent::Die),
            Event::Unit(0, 0, UnitEvent::AttackUnit(0, 5)),
            Event::Unit(0, 0, UnitEvent::AttackUnit(1, 5)),
            Event::Unit(1, 1, UnitEvent::Die),
        ]
    );
}

#[test]
fn healer_heals_the_front_unit_and_reports_its_attack() {
    let p1 = Player {
        units: vec![unit(10, 0, UnitType::Attacker), unit(5, -3, UnitType::Healer)],
        ..Default::default()
    };
    let p2 = Player {
        hp: 100,
        ..Default::default()
    };
    let mut g = game_with(p1, p2);
    let events = run_action(&mut g, &Action::Skip);
    // a negative attack heals nothing but is reported as it is
    assert_eq!(g.player1.units[0].hp, 10);
    assert_eq!(events[2], Event::Unit(0, 1, UnitEvent::Heal(0, -3)));
}

#[test]
fn summoner_calls_a_creature_to_the_front() {
    let p1 = Player {
        units: vec![unit(10, 7, UnitType::Summoner)],
        ..Default::default()
    };
    let p2 = Player {
        hp: 100,
        ..Default::default()
    };
    let mut g = game_with(p1, p2);
    let events = run_action(&mut g, &Action::Skip);
    assert_eq!(g.player1.units.len(), 2);
    let c = &g.player1.units[0];
    assert_eq!(c.name, "SummonerCreature");
    assert_eq!((c.hp, c.attack, c.defence), (7, 7, 0));
    assert_eq!(c.unit_type, UnitType::Attacker);
    assert_eq!(g.player1.units[1].unit_type, UnitType::Summoner);
    assert_eq!(events.len(), 2);
    assert_eq!(events[1], Event::Unit(0, 0, UnitEvent::Summon(c.clone())));
    // the creature does not act in the turn it is summoned
    assert_eq!(g.player2.hp, 100);
}

#[test]
fn stunned_and_sleeping_units_do_not_act_and_recover() {
    let p1 = Player {
        units: vec![Unit {
            hp: 10,
            attack: 10,
            stun: 2,
            sleep: 1,
            charm: 1,
            ..Default::default()
        }],
        ..Default::default()
    };
    let p2 = Player {
        hp: 100,
        ..Default::default()
    };
    let mut g = game_with(p1, p2);
    let events = run_action(&mut g, &Action::Skip);
    assert_eq!(g.player2.hp, 100);
    assert_eq!(
        events,
        vec![
            Event::Player(1, PlayerEvent::Skip),
            Event::Unit(0, 0, UnitEvent::Stun),
            Event::Unit(0, 0, UnitEvent::Sleep),
        ]
    );
    let u = &g.player1.units[0];
    assert_eq!((u.stun, u.sleep, u.charm), (1, 0, 0));
}

#[test]
fn second_player_moves_when_index_is_odd() {
    let mut g = Game {
        current_player_index: 1,
        player2: Player {
            hands: vec![card("x")],
            ..Default::default()
        },
        ..Default::default()
    };
    let events = run_action(&mut g, &Action::Hand(0));
    assert_eq!(g.current_player_index, 0);
    assert!(g.player2.hands.is_empty());
    assert_eq!(g.player2.units.len(), 1);
    assert_eq!(events[0], Event::Player(1, PlayerEvent::UseCard(0, card("x"))));
}

#[test]
fn shuffle_keeps_the_cards() {
    let p1 = Player {
        graves: vec![card("a"), card("b"), card("c"), card("d")],
        ..Default::default()
    };
    let mut g = game_with(p1, Player::default());
    let events = run_action(&mut g, &Action::Skip);
    assert!(g.player1.graves.is_empty());
    assert_eq!(g.player1.decks.len(), 3);
    assert_eq!(g.player1.hands.len(), 1);
    let mut all = g.player1.decks.clone();
    all.push(g.player1.hands[0].clone());
    assert_eq!(names(&all), vec!["a", "b", "c", "d"]);
    assert_eq!(
        events,
        vec![
            Event::Player(1, PlayerEvent::Skip),
            Event::Player(0, PlayerEvent::Shuffle),
            Event::Player(0, PlayerEvent::DrawCard),
        ]
    );
}

#[test]
fn turns_keep_cards_and_pass_the_turn() {
    let mut g = new_game();
    for round in 0..12 {
        let before = g.clone();
        let mover = if g.current_player_index == 0 { &before.player1 } else { &before.player2 };
        let action = if mover.hands.is_empty() { Action::Skip } else { Action::Hand(0) };
        let events = run_action(&mut g, &action);
        assert_eq!(g.current_player_index, (before.current_player_index + 1) % 2);
        for (a, b) in [(&before.player1, &g.player1), (&before.player2, &g.player2)] {
            let mut x = a.hands.clone();
            x.extend(a.graves.clone());
            x.extend(a.decks.clone());
            let mut y = b.hands.clone();
            y.extend(b.graves.clone());
            y.extend(b.decks.clone());
            assert_eq!(names(&x), names(&y), "round {}", round);
        }
        for e in &events {
            match e {
                Event::Unit(_, _, UnitEvent::AttackUnit(_, d)) => assert!(*d >= 0),
                Event::Unit(_, _, UnitEvent::AttackPlayer(d)) => assert!(*d >= 0),
                _ => {}
            }
        }
        let (starter_before, starter_after, other_before, other_after) = if g.current_player_index == 0 {
            (&before.player1, &g.player1, &before.player2, &g.player2)
        } else {
            (&before.player2, &g.player2, &before.player1, &g.player1)
        };
        assert_eq!(starter_after.hp, starter_before.hp);
        assert!(other_after.hp <= other_before.hp);
        assert!(starter_after.units.len() >= starter_before.units.len());
        assert!(other_after.units.len() <= other_before.units.len() + 1);
        match action {
            Action::Skip => assert_eq!(events[0], Event::Player(if before.current_player_index == 0 { 0 } else { 1 }, PlayerEvent::Skip)),
            Action::Hand(k) => assert_eq!(events[0], Event::Player(if before.current_player_index == 0 { 0 } else { 1 }, PlayerEvent::UseCard(k, mover.hands[k].clone()))),
        }
        if g.player1.hp <= 0 || g.player2.hp <= 0 {
            break;
        }
    }
}

#[test]
fn empty_player_draws_nothing() {
    let mut g = game_with(Player::default(), Player::default());
    let events = run_action(&mut g, &Action::Skip);
    assert_eq!(events, vec![Event::Player(1, PlayerEvent::Skip)]);
    assert!(g.player1.hands.is_empty());
}

#[test]
fn refill_shuffles_the_grave_into_the_deck() {
    let labels: Vec<String> = (0..10).map(|i| format!("c{}", i)).collect();
    let mut reordered = false;
    for _ in 0..20 {
        let mut p = Player {
            graves: labels.iter().map(|l| card(l)).collect(),
            ..Default::default()
        };
        let mut events = Vec::new();
        refill_deck(&mut p, 0, &mut events);
        assert!(p.graves.is_empty());
        assert_eq!(events, vec![Event::Player(0, PlayerEvent::Shuffle)]);
        let order: Vec<String> = p.decks.iter().map(|c| c.unit.name.clone()).collect();
        assert_eq!(names(&p.decks), {
            let mut s = labels.clone();
            s.sort();
            s
        });
        if order != labels {
            reordered = true;
        }
    }
    // twenty shuffles of ten distinct cards all keeping the order is beyond chance
    assert!(reordered);
}

#[test]
fn refill_leaves_a_player_with_a_deck_alone() {
    let mut p = Player {
        decks: vec![card("d")],
        graves: vec![card("g")],
        ..Default::default()
    };
    let mut events = Vec::new();
    refill_deck(&mut p, 1, &mut events);
    assert!(events.is_empty());
    assert_eq!(p.decks, vec![card("d")]);
    assert_eq!(p.graves, vec![card("g")]);
}

#[test]
fn mover_loses_exactly_the_reported_player_damage() {
    let p1 = Player {
        units: vec![
            unit(10, 12, UnitType::Attacker),
            unit(10, 9, UnitType::Archer),
            unit(10, 7, UnitType::Mage),
        ],
        hp: 50,
        attack: 3,
        defence: 1,
        ..Default::default()
    };
    let p2 = Player {
        hands: vec![card("x")],
        decks: vec![card("y")],
        hp: 100,
        attack: 4,
        defence: 5,
        ..Default::default()
    };
    let mut g = game_with(p1, p2);
    let events = run_action(&mut g, &Action::Hand(0));
    let reported: i32 = events
        .iter()
        .map(|e| match e {
            Event::Unit(_, _, UnitEvent::AttackPlayer(d)) => *d,
            _ => 0,
        })
        .sum();
    // the played card's unit takes the attacker's blow and dies; archer and mage hit the player
    assert_eq!(reported, (9 - 5) + (7 - 5));
    assert_eq!(g.player2.hp, 100 - reported);
    assert_eq!(g.player2.decks, vec![card("y")]);
    assert!(g.player2.hands.is_empty());
    assert_eq!(g.player2.graves, vec![card("x")]);
    assert_eq!((g.player2.attack, g.player2.defence), (4, 5));
    assert_eq!((g.player1.hp, g.player1.attack, g.player1.defence), (50, 3, 1));
}

#[test]
fn skipping_mover_loses_the_sum_of_blows() {
    let p1 = Player {
        units: vec![unit(10, 12, UnitType::Attacker), unit(10, 9, UnitType::Archer)],
        hp: 50,
        ..Default::default()
    };
    let p2 = Player {
        hp: 100,
        defence: 5,
        ..Default::default()
    };
    let mut g = game_with(p1, p2);
    let events = run_action(&mut g, &Action::Skip);
    assert_eq!(events[1], Event::Unit(0, 0, UnitEvent::AttackPlayer(7)));
    assert_eq!(events[2], Event::Unit(0, 1, UnitEvent::AttackPlayer(4)));
    assert_eq!(g.player2.hp, 100 - 7 - 4);
}
