use card_game::{run_action, Action, Card, Event, Game, Player, PlayerEvent, Unit, UnitEvent, UnitType};

#[test]
fn it_works() {
    assert_eq!(2 + 2, 4);
}

#[test]
fn player1_skip_turn() {
    let mut game = Game {
        current_player_index: 0,
        ..Default::default()
    };
    run_action(&mut game, &Action::Skip);
    assert_eq!(game.current_player_index, 1);
}

#[test]
fn player1_summon_unit() {
    let mut game = Game {
        player1: Player {
            hands: vec![Card {
                unit: Unit {
                    hp: 50,
                    attack: 10,
                    defence: 5,
                    unit_type: UnitType::Attacker,
                    ..Default::default()
                },
            }],
            ..Default::default()
        },
        current_player_index: 0,
        ..Default::default()
    };
    run_action(&mut game, &Action::Hand(0));
    assert_eq!(game.current_player_index, 1);
    assert_eq!(game.player1.units.len(), 1);
}

#[test]
fn player1_draw_card() {
    let mut game = Game {
        player1: Player {
            decks: vec![Card {
                unit: Default::default(),
            }],
            hp: 100,
            ..Default::default()
        },
        current_player_index: 1,
        ..Default::default()
    };

    assert_eq!(game.player1.decks.len(), 1);
    assert_eq!(game.player1.hands.len(), 0);
    assert_eq!(game.player1.graves.len(), 0);
    run_action(&mut game, &Action::Skip);
    assert_eq!(game.current_player_index, 0);
    assert_eq!(game.player1.decks.len(), 0);
    assert_eq!(game.player1.hands.len(), 1);
    assert_eq!(game.player1.graves.len(), 0);
}

#[test]
fn player1_shuffle_and_draw_card() {
    let mut game = Game {
        player1: Player {
            graves: vec![Card {
                unit: Default::default(),
            }],
            hp: 100,
            ..Default::default()
        },
        current_player_index: 1,
        ..Default::default()
    };

    assert_eq!(game.player1.decks.len(), 0);
    assert_eq!(game.player1.hands.len(), 0);
    assert_eq!(game.player1.graves.len(), 1);
    run_action(&mut game, &Action::Skip);
    assert_eq!(game.current_player_index, 0);
    assert_eq!(game.player1.decks.len(), 0);
    assert_eq!(game.player1.hands.len(), 1);
    assert_eq!(game.player1.graves.len(), 0);
}
#[test]
fn player1_unit_attack() {
    let mut game = Game {
        player1: Player {
            units: vec![Unit {
                hp: 50,
                attack: 10,
                unit_type: UnitType::Attacker,
                ..Default::default()
            }],
            hp: 100,
            ..Default::default()
        },
        player2: Player {
            hp: 100,
            defence: 5,
            ..Default::default()
        },
        current_player_index: 1,
    };

    run_action(&mut game, &Action::Skip);
    assert_eq!(game.current_player_index, 0);
    // damage = attacker attack - player defence
    assert_eq!(game.player2.hp, 100 - (10 - 5));
}

#[test]
fn player1_unit_heal() {
    let mut game = Game {
        player1: Player {
            units: vec![Unit {
                hp: 50,
                attack: 10,
                unit_type: UnitType::Healer,
                ..Default::default()
            }],
            hp: 100,
            ..Default::default()
        },
        player2: Player {
            hp: 100,
            defence: 5,
            ..Default::default()
        },
        current_player_index: 1,
    };

    run_action(&mut game, &Action::Skip);
    assert_eq!(game.current_player_index, 0);
    assert_eq!(game.player1.units.len(), 1);
    assert_eq!(game.player1.units[0].hp, 50 + 10);
}

#[test]
fn player2_unit_die() {
    let mut game = Game {
        player1: Player {
            units: vec![Unit {
                hp: 10,
                attack: 10,
                unit_type: UnitType::Attacker,
                ..Default::default()
            }],
            hp: 100,
            ..Default::default()
        },
        player2: Player {
            units: vec![Unit {
                hp: 10,
                attack: 10,
                unit_type: UnitType::Attacker,
                ..Default::default()
            }],
            hp: 100,
            defence: 5,
            ..Default::default()
        },
        current_player_index: 1,
    };

    run_action(&mut game, &Action::Skip);
    assert_eq!(game.current_player_index, 0);
    // damage = attacker attack - player defence
    assert_eq!(game.player2.units.len(), 0);
}
#[test]
fn player2_unit_die_and_attack_next() {
    let mut game = Game {
        player1: Player {
            units: vec![
                Unit {
                    hp: 10,
                    attack: 10,
                    unit_type: UnitType::Attacker,
                    ..Default::default()
                },
                Unit {
                    hp: 10,
                    attack: 10,
                    unit_type: UnitType::Attacker,
                    ..Default::default()
                },
            ],
            hp: 100,
            ..Default::default()
        },
        player2: Player {
            units: vec![
                Unit {
                    hp: 10,
                    attack: 10,
                    unit_type: UnitType::Attacker,
                    ..Default::default()
                },
                Unit {
                    hp: 10,
                    attack: 10,
                    unit_type: UnitType::Attacker,
                    ..Default::default()
                },
            ],
            hp: 100,
            defence: 5,
            ..Default::default()
        },
        current_player_index: 1,
    };

    run_action(&mut game, &Action::Skip);
    assert_eq!(game.current_player_index, 0);
    // damage = attacker attack - player defence
    assert_eq!(game.player2.units.len(), 0);
}
#[test]
fn event_skip_and_4_attack_and_2_die() {
    let mut game = Game {
        player1: Player {
            units: vec![
                Unit {
                    hp: 10,
                    attack: 5,
                    unit_type: UnitType::Attacker,
                    ..Default::default()
                },
                Unit {
                    hp: 10,
                    attack: 5,
                    unit_type: UnitType::Attacker,
                    ..Default::default()
                },
                Unit {
                    hp: 10,
                    attack: 5,
                    unit_type: UnitType::Attacker,
                    ..Default::default()
                },
                Unit {
                    hp: 10,
                    attack: 5,
                    unit_type: UnitType::Attacker,
                    ..Default::default()
                },
            ],
            hp: 100,
            ..Default::default()
        },
        player2: Player {
            units: vec![
                Unit {
                    hp: 10,
                    attack: 10,
                    unit_type: UnitType::Attacker,
                    ..Default::default()
                },
                Unit {
                    hp: 10,
                    attack: 10,
                    unit_type: UnitType::Attacker,
                    ..Default::default()
                },
            ],
            hp: 100,
            defence: 5,
            ..Default::default()
        },
        current_player_index: 1,
    };

    let events = run_action(&mut game, &Action::Skip);
    assert_eq!(game.current_player_index, 0);
    // damage = attacker attack - player defence
    assert_eq!(game.player2.units.len(), 0);
    assert_eq!(events.len(), 7);
    assert_eq!(events[0], Event::Player(1, PlayerEvent::Skip));
    assert_eq!(events[1], Event::Unit(0, 0, UnitEvent::AttackUnit(0, 5)));
    assert_eq!(events[2], Event::Unit(0, 1, UnitEvent::AttackUnit(0, 5)));
    assert_eq!(events[3], Event::Unit(1, 0, UnitEvent::Die));
    assert_eq!(events[4], Event::Unit(0, 2, UnitEvent::AttackUnit(0, 5)));
    assert_eq!(events[5], Event::Unit(0, 3, UnitEvent::AttackUnit(0, 5)));
    assert_eq!(events[6], Event::Unit(1, 0, UnitEvent::Die));
}
