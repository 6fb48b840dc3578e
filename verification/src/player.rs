//! Players and the turn order.

use vstd::prelude::*;
use crate::cost::ManaColor;
use crate::mana_pool::{Mana, ManaPool};

verus! {

/// A player's place in the turn order, counted from zero.
#[derive(Clone, Copy, Debug, PartialEq, Eq, Structural, Hash)]
pub struct PlayerId(pub u32);

impl PlayerId {
    /// The place as a number.
    pub fn to_u32(&self) -> (place: u32)
        ensures
            place == self.0,
    {
        self.0
    }
}

/// A player.
#[derive(Debug)]
pub struct Player {
    pub id: PlayerId,
    pub name: String,
    pub has_lost: bool,
    pub lands_played_this_turn: u32,
    pub life: i64,
    pub mana_pool: ManaPool,
}

/// The mana every player starts with: green, red, green.
pub open spec fn starting_mana() -> Seq<Option<Mana>> {
    seq![
        Some(Mana { color: ManaColor::Green }),
        Some(Mana { color: ManaColor::Red }),
        Some(Mana { color: ManaColor::Green }),
    ]
}

impl Player {
    /// A player at 20 life who has not lost, has played no land and holds
    /// the starting mana.
    pub fn new(id: PlayerId, name: String) -> (player: Self)
        ensures
            player.id == id,
            player.name == name,
            !player.has_lost,
            player.lands_played_this_turn == 0,
            player.life == 20,
            player.mana_pool@ == starting_mana(),
    {
        let mut mana_pool = ManaPool::new();
        mana_pool.add(Mana { color: ManaColor::Green });
        mana_pool.add(Mana { color: ManaColor::Red });
        mana_pool.add(Mana { color: ManaColor::Green });
        Player { id, name, has_lost: false, lands_played_this_turn: 0, life: 20, mana_pool }
    }
}

/// The decimal digit for `d`, a number below ten.
pub open spec fn digit(d: nat) -> char {
    if d == 0 {
        '0'
    } else if d == 1 {
        '1'
    } else if d == 2 {
        '2'
    } else if d == 3 {
        '3'
    } else if d == 4 {
        '4'
    } else if d == 5 {
        '5'
    } else if d == 6 {
        '6'
    } else if d == 7 {
        '7'
    } else if d == 8 {
        '8'
    } else {
        '9'
    }
}

/// `n` written in decimal, without leading zeros.
pub open spec fn decimal(n: nat) -> Seq<char>
    decreases n,
{
    if n < 10 {
        seq![digit(n)]
    } else {
        decimal(n / 10).push(digit(n % 10))
    }
}

/// The display name of the player with the number `number`: the word
/// "Player", a space, and the number in decimal.
pub open spec fn label_of(number: nat) -> Seq<char> {
    "Player "@ + decimal(number)
}

/// `format!("Player {}", number)`: the word "Player", a space, and
/// `number` as `Display` writes an integer, in decimal without leading
/// zeros.
#[verifier::external_body]
fn player_label(number: u64) -> (label: String)
    ensures
        label@ == label_of(number as nat),
{
    format!("Player {}", number)
}

/// Whether `player` is as a player is at the start of a game, at the place
/// `place` of the turn order: named by its place counted from one, at 20
/// life, not having lost, with no land played and the starting mana.
pub open spec fn fresh_player(player: Player, place: int) -> bool {
    &&& player.id == PlayerId(place as u32)
    &&& player.name@ == label_of((place + 1) as nat)
    &&& !player.has_lost
    &&& player.lands_played_this_turn == 0
    &&& player.life == 20
    &&& player.mana_pool@ == starting_mana()
}

/// The players of a game, in turn order.
#[derive(Debug)]
pub struct Players {
    pub inner: Vec<Player>,
}

impl Players {
    /// Every player stands at the place that its id names.
    pub open spec fn wf(&self) -> bool {
        &&& self.inner@.len() <= u32::MAX
        &&& forall|i: int| 0 <= i < self.inner@.len() ==> (#[trigger] self.inner@[i]).id == PlayerId(i as u32)
    }

    /// The place of the player who acts after the player at `place`.
    pub open spec fn after(&self, place: int) -> int {
        if place + 1 == self.inner@.len() {
            0
        } else {
            place + 1
        }
    }

    /// `num_players` fresh players, with ids in turn order from zero, each
    /// named by its place counted from one.
    pub fn new(num_players: u32) -> (players: Self)
        ensures
            players.wf(),
            players.inner@.len() == num_players,
            forall|i: int| 0 <= i < num_players ==> fresh_player(#[trigger] players.inner@[i], i),
    {
        let mut inner: Vec<Player> = Vec::new();
        let mut i: u32 = 0;
        while i < num_players
            invariant
                i <= num_players,
                inner@.len() == i,
                forall|j: int| 0 <= j < i ==> fresh_player(#[trigger] inner@[j], j),
            decreases num_players - i,
        {
            let number: u64 = i as u64 + 1;
            inner.push(Player::new(PlayerId(i), player_label(number)));
            i += 1;
        }
        Players { inner }
    }

    /// The number of players.
    pub fn len(&self) -> (n: usize)
        ensures
            n == self.inner@.len(),
    {
        self.inner.len()
    }

    /// The player at the place that `id` names, if there is one.
    pub fn get(&self, id: PlayerId) -> (player: Option<&Player>)
        ensures
            (id.0 as int) < self.inner@.len() ==> player == Some(&self.inner@[id.0 as int]),
            (id.0 as int) >= self.inner@.len() ==> player.is_none(),
    {
        let index: usize = id.0 as usize;
        if index < self.inner.len() {
            Some(&self.inner[index])
        } else {
            None
        }
    }

    /// The player at the place that `id` names, if there is one, to change.
    pub fn get_mut(&mut self, id: PlayerId) -> (player: Option<&mut Player>)
        ensures
            (id.0 as int) >= old(self).inner@.len() ==> player.is_none() && *final(self) == *old(self),
            (id.0 as int) < old(self).inner@.len() ==> {
                &&& player.is_some()
                &&& *player.unwrap() == old(self).inner@[id.0 as int]
                &&& final(self).inner@ == old(self).inner@.update(id.0 as int, *final(player.unwrap()))
            },
    {
        let index: usize = id.0 as usize;
        if index < self.inner.len() {
            Some(&mut self.inner[index])
        } else {
            None
        }
    }

    /// The ids of the players, in turn order.
    pub fn iter(&self) -> (ids: Vec<PlayerId>)
        ensures
            ids@.len() == self.inner@.len(),
            forall|i: int| 0 <= i < ids@.len() ==> ids@[i] == self.inner@[i].id,
    {
        let mut ids: Vec<PlayerId> = Vec::new();
        let mut i: usize = 0;
        while i < self.inner.len()
            invariant
                i <= self.inner.len(),
                ids@.len() == i,
                forall|j: int| 0 <= j < ids@.len() ==> ids@[j] == self.inner@[j].id,
            decreases self.inner.len() - i,
        {
            ids.push(self.inner[i].id);
            i += 1;
        }
        ids
    }

    /// The player who acts after `id`; after the last player, the first.
    pub fn player_after(&self, id: PlayerId) -> (next: PlayerId)
        requires
            self.wf(),
            (id.0 as int) < self.inner@.len(),
        ensures
            next == PlayerId(self.after(id.0 as int) as u32),
            (next.0 as int) < self.inner@.len(),
    {
        let index: usize = id.0 as usize;
        let next_index: usize = if index + 1 == self.inner.len() { 0 } else { index + 1 };
        self.inner[next_index].id
    }
}

} // verus!
