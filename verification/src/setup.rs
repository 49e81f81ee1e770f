//! The starting table.
use vstd::prelude::*;
use crate::types::{Card, CardView, Game, GameView, Player, PlayerView, Unit, UnitType, UnitView};

verus! {

/// A card whose unit is named `name`, with hp `hp`, attack `attack`, kind `kind`,
/// and no defence, sleep, stun or charm.
pub open spec fn stock_card(name: Seq<char>, hp: i32, attack: i32, kind: UnitType) -> CardView {
    CardView {
        unit: UnitView {
            name: name,
            hp: hp,
            attack: attack,
            defence: 0,
            sleep: 0,
            stun: 0,
            charm: 0,
            unit_type: kind,
        },
    }
}

pub open spec fn attacker_card() -> CardView {
    stock_card("Attacker"@, 100, 20, UnitType::Attacker)
}

pub open spec fn healer_card() -> CardView {
    stock_card("Healer"@, 50, 20, UnitType::Healer)
}

pub open spec fn archer_card() -> CardView {
    stock_card("Archer"@, 75, 20, UnitType::Archer)
}

pub open spec fn assassin_card() -> CardView {
    stock_card("Assassin"@, 25, 40, UnitType::Assassin)
}

pub open spec fn summoner_card() -> CardView {
    stock_card("Summoner"@, 50, 10, UnitType::Summoner)
}

pub open spec fn mage_card() -> CardView {
    stock_card("Mage"@, 25, 5, UnitType::Mage)
}

/// Each player starts with 100 hp, three attackers in hand, and a deck of one
/// card of each kind, the mage on top (last).
pub open spec fn starting_player() -> PlayerView {
    PlayerView {
        hands: seq![attacker_card(), attacker_card(), attacker_card()],
        graves: Seq::empty(),
        decks: seq![
            attacker_card(),
            healer_card(),
            archer_card(),
            assassin_card(),
            summoner_card(),
            mage_card(),
        ],
        units: Seq::empty(),
        hp: 100,
        attack: 0,
        defence: 0,
    }
}

/// The starting table: two identical starting players, the first to move.
pub open spec fn starting_game() -> GameView {
    GameView { player1: starting_player(), player2: starting_player(), current_player_index: 0 }
}

fn make_card(name: &str, hp: i32, attack: i32, kind: UnitType) -> (c: Card)
    ensures
        c@ == stock_card(name@, hp, attack, kind),
{
    Card {
        unit: Unit {
            name: name.to_string(),
            hp: hp,
            attack: attack,
            defence: 0,
            unit_type: kind,
            ..Default::default()
        },
    }
}

fn starting_hand_and_deck() -> (p: Player)
    ensures
        p@ == starting_player(),
{
    let attacker = make_card("Attacker", 100, 20, UnitType::Attacker);
    let healer = make_card("Healer", 50, 20, UnitType::Healer);
    let archer = make_card("Archer", 75, 20, UnitType::Archer);
    let assassin = make_card("Assassin", 25, 40, UnitType::Assassin);
    let summoner = make_card("Summoner", 50, 10, UnitType::Summoner);
    let mage = make_card("Mage", 25, 5, UnitType::Mage);
    let p = Player {
        hands: vec![attacker.clone(), attacker.clone(), attacker.clone()],
        decks: vec![attacker, healer, archer, assassin, summoner, mage],
        hp: 100,
        ..Default::default()
    };
    assert(p@.hands =~= starting_player().hands);
    assert(p@.decks =~= starting_player().decks);
    p
}

/// The starting table of a new game.
pub fn new_game() -> (g: Game)
    ensures
        g@ == starting_game(),
{
    let player1 = starting_hand_and_deck();
    let player2 = starting_hand_and_deck();
    Game { player1: player1, player2: player2, current_player_index: 0 }
}

} // verus!
