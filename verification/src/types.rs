//! The game's data: players, units, cards, actions and the events a turn reports,
//! each with the mathematical view that the contracts speak of.
use vstd::prelude::*;

verus! {

/// The whole table: both players and whose turn it is.
#[derive(Debug, Clone)]
pub struct Game {
    pub player1: Player,
    pub player2: Player,
    pub current_player_index: usize,
}

/// One side of the table.
#[derive(Debug, Clone)]
pub struct Player {
    pub hands: Vec<Card>,
    pub graves: Vec<Card>,
    pub decks: Vec<Card>,
    pub units: Vec<Unit>,
    pub hp: i32,
    pub attack: i32,
    pub defence: i32,
}

/// A unit on the board.
#[derive(Debug, PartialEq)]
pub struct Unit {
    pub name: String,
    pub hp: i32,
    pub attack: i32,
    pub defence: i32,
    pub sleep: i32,
    pub stun: i32,
    pub charm: i32,
    pub unit_type: UnitType,
}

/// What a unit does on its turn.
#[derive(Debug, Clone, Copy, PartialEq)]
pub enum UnitType {
    Attacker,
    Healer,
    Archer,
    Assassin,
    Summoner,
    Mage,
}

/// A card summons the unit it carries.
#[derive(Debug, PartialEq)]
pub struct Card {
    pub unit: Unit,
}

/// What the current player does before handing the turn over.
#[derive(Debug, Clone, Copy, PartialEq)]
pub enum Action {
    Skip,
    Hand(usize),
}

/// Something that happened during a turn, reported in order.
#[derive(Debug, Clone, PartialEq)]
pub enum Event {
    /// (player index, unit index, what the unit did or suffered)
    Unit(usize, usize, UnitEvent),
    /// (player index, what the player did or suffered)
    Player(usize, PlayerEvent),
}

#[derive(Debug, Clone, PartialEq)]
pub enum UnitEvent {
    Die,
    Sleep,
    Stun,
    AttackUnit(usize, i32),
    AttackPlayer(i32),
    Heal(usize, i32),
    Summon(Unit),
}

#[derive(Debug, Clone, PartialEq)]
pub enum PlayerEvent {
    UseCard(usize, Card),
    Skip,
    Die,
    Shuffle,
    DrawCard,
}

// ---------------------------------------------------------------------------
// Views
// ---------------------------------------------------------------------------

/// A unit as a mathematical value: its name as characters.
pub struct UnitView {
    pub name: Seq<char>,
    pub hp: i32,
    pub attack: i32,
    pub defence: i32,
    pub sleep: i32,
    pub stun: i32,
    pub charm: i32,
    pub unit_type: UnitType,
}

pub struct CardView {
    pub unit: UnitView,
}

pub struct PlayerView {
    pub hands: Seq<CardView>,
    pub graves: Seq<CardView>,
    pub decks: Seq<CardView>,
    pub units: Seq<UnitView>,
    pub hp: i32,
    pub attack: i32,
    pub defence: i32,
}

pub struct GameView {
    pub player1: PlayerView,
    pub player2: PlayerView,
    pub current_player_index: usize,
}

pub enum UnitEventView {
    Die,
    Sleep,
    Stun,
    AttackUnit(usize, i32),
    AttackPlayer(i32),
    Heal(usize, i32),
    Summon(UnitView),
}

pub enum PlayerEventView {
    UseCard(usize, CardView),
    Skip,
    Die,
    Shuffle,
    DrawCard,
}

pub enum EventView {
    Unit(usize, usize, UnitEventView),
    Player(usize, PlayerEventView),
}

impl View for Unit {
    type V = UnitView;

    open spec fn view(&self) -> UnitView {
        UnitView {
            name: self.name@,
            hp: self.hp,
            attack: self.attack,
            defence: self.defence,
            sleep: self.sleep,
            stun: self.stun,
            charm: self.charm,
            unit_type: self.unit_type,
        }
    }
}

impl View for Card {
    type V = CardView;

    open spec fn view(&self) -> CardView {
        CardView { unit: self.unit@ }
    }
}

/// The views of a sequence of units, in order.
pub open spec fn units_view(s: Seq<Unit>) -> Seq<UnitView> {
    s.map_values(|u: Unit| u@)
}

/// The views of a sequence of cards, in order.
pub open spec fn cards_view(s: Seq<Card>) -> Seq<CardView> {
    s.map_values(|c: Card| c@)
}

impl View for Player {
    type V = PlayerView;

    open spec fn view(&self) -> PlayerView {
        PlayerView {
            hands: cards_view(self.hands@),
            graves: cards_view(self.graves@),
            decks: cards_view(self.decks@),
            units: units_view(self.units@),
            hp: self.hp,
            attack: self.attack,
            defence: self.defence,
        }
    }
}

impl View for Game {
    type V = GameView;

    open spec fn view(&self) -> GameView {
        GameView {
            player1: self.player1@,
            player2: self.player2@,
            current_player_index: self.current_player_index,
        }
    }
}

impl View for UnitEvent {
    type V = UnitEventView;

    open spec fn view(&self) -> UnitEventView {
        match self {
            UnitEvent::Die => UnitEventView::Die,
            UnitEvent::Sleep => UnitEventView::Sleep,
            UnitEvent::Stun => UnitEventView::Stun,
            UnitEvent::AttackUnit(t, d) => UnitEventView::AttackUnit(*t, *d),
            UnitEvent::AttackPlayer(d) => UnitEventView::AttackPlayer(*d),
            UnitEvent::Heal(t, a) => UnitEventView::Heal(*t, *a),
            UnitEvent::Summon(u) => UnitEventView::Summon(u@),
        }
    }
}

impl View for PlayerEvent {
    type V = PlayerEventView;

    open spec fn view(&self) -> PlayerEventView {
        match self {
            PlayerEvent::UseCard(i, c) => PlayerEventView::UseCard(*i, c@),
            PlayerEvent::Skip => PlayerEventView::Skip,
            PlayerEvent::Die => PlayerEventView::Die,
            PlayerEvent::Shuffle => PlayerEventView::Shuffle,
            PlayerEvent::DrawCard => PlayerEventView::DrawCard,
        }
    }
}

impl View for Event {
    type V = EventView;

    open spec fn view(&self) -> EventView {
        match self {
            Event::Unit(p, u, e) => EventView::Unit(*p, *u, e@),
            Event::Player(p, e) => EventView::Player(*p, e@),
        }
    }
}

/// The views of a sequence of events, in order.
pub open spec fn events_view(s: Seq<Event>) -> Seq<EventView> {
    s.map_values(|e: Event| e@)
}

// ---------------------------------------------------------------------------
// Clone and Default
// ---------------------------------------------------------------------------

impl Clone for Unit {
    fn clone(&self) -> (res: Self)
        ensures
            res == *self,
    {
        Unit {
            name: self.name.clone(),
            hp: self.hp,
            attack: self.attack,
            defence: self.defence,
            sleep: self.sleep,
            stun: self.stun,
            charm: self.charm,
            unit_type: self.unit_type,
        }
    }
}

impl Clone for Card {
    fn clone(&self) -> (res: Self)
        ensures
            res == *self,
    {
        Card { unit: self.unit.clone() }
    }
}

impl Default for UnitType {
    fn default() -> (r: Self)
        ensures
            r == UnitType::Attacker,
    {
        UnitType::Attacker
    }
}

impl Default for Action {
    fn default() -> (r: Self)
        ensures
            r == Action::Skip,
    {
        Action::Skip
    }
}

impl Default for Unit {
    fn default() -> (r: Self)
        ensures
            r@ == (UnitView {
                name: Seq::empty(),
                hp: 0,
                attack: 0,
                defence: 0,
                sleep: 0,
                stun: 0,
                charm: 0,
                unit_type: UnitType::Attacker,
            }),
    {
        Unit {
            name: String::new(),
            hp: 0,
            attack: 0,
            defence: 0,
            sleep: 0,
            stun: 0,
            charm: 0,
            unit_type: UnitType::Attacker,
        }
    }
}

impl Default for Card {
    fn default() -> (r: Self)
        ensures
            r@.unit.name == Seq::<char>::empty(),
            r@.unit.hp == 0 && r@.unit.attack == 0 && r@.unit.defence == 0,
            r@.unit.sleep == 0 && r@.unit.stun == 0 && r@.unit.charm == 0,
            r@.unit.unit_type == UnitType::Attacker,
    {
        Card { unit: Unit::default() }
    }
}

/// The view of a player with nothing in hand, deck, grave or board and all stats 0.
pub open spec fn empty_player() -> PlayerView {
    PlayerView {
        hands: Seq::empty(),
        graves: Seq::empty(),
        decks: Seq::empty(),
        units: Seq::empty(),
        hp: 0,
        attack: 0,
        defence: 0,
    }
}

impl Default for Player {
    fn default() -> (r: Self)
        ensures
            r@ == empty_player(),
    {
        let r = Player {
            hands: Vec::new(),
            graves: Vec::new(),
            decks: Vec::new(),
            units: Vec::new(),
            hp: 0,
            attack: 0,
            defence: 0,
        };
        assert(r@.hands =~= Seq::empty());
        assert(r@.graves =~= Seq::empty());
        assert(r@.decks =~= Seq::empty());
        assert(r@.units =~= Seq::empty());
        r
    }
}

impl Default for Game {
    fn default() -> (r: Self)
        ensures
            r@.player1 == empty_player(),
            r@.player2 == empty_player(),
            r@.current_player_index == 0,
    {
        Game { player1: Player::default(), player2: Player::default(), current_player_index: 0 }
    }
}

} // verus!
