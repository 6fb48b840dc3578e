//! The turn structure: steps, turns, and who gets priority when.

use vstd::prelude::*;
use crate::action::PlayerActionCategory;
use crate::entity::EntityId;
use crate::game::combat;
use crate::game::state_based_actions::{orphaned, players_evolved, settled_view};
use crate::game::{Game, GameOutcome, GameState, Step};
use crate::player::{Player, PlayerId};
use crate::store::{get_object, list_damage, list_until_eot, remove_damage, Facets};
use crate::zone::{lemma_pruned_same, lemma_pruned_twice, zones_pruned};
use crate::types::has_type;
use crate::zone::ZoneId;

verus! {

/// How many of the first `upto` of `players` are not marked as having
/// lost.
pub open spec fn standing(players: Seq<Player>, upto: int) -> int
    decreases upto,
{
    if upto <= 0 {
        0
    } else if players[upto - 1].has_lost {
        standing(players, upto - 1)
    } else {
        standing(players, upto - 1) + 1
    }
}

/// The last of the first `upto` of `players` who is not marked as having
/// lost; the first player where there is none.
pub open spec fn last_standing(players: Seq<Player>, upto: int) -> PlayerId
    decreases upto,
{
    if upto <= 0 {
        PlayerId(0)
    } else if players[upto - 1].has_lost {
        last_standing(players, upto - 1)
    } else {
        players[upto - 1].id
    }
}

/// How the game has ended, if it has: the one player who has not lost has
/// won; where every player has lost, the game is a draw; with two or more
/// players still in it the game goes on.
pub open spec fn verdict(players: Seq<Player>) -> Option<GameOutcome> {
    let left = standing(players, players.len() as int);
    if left == 0 {
        Some(GameOutcome::Draw)
    } else if left == 1 {
        Some(GameOutcome::Win { winner: last_standing(players, players.len() as int) })
    } else {
        None
    }
}

/// Whether the player at `place` is the only one of `players` who is not
/// marked as having lost.
pub open spec fn sole_survivor(players: Seq<Player>, place: int) -> bool {
    &&& 0 <= place < players.len()
    &&& !players[place].has_lost
    &&& forall|other: int| 0 <= other < players.len() && other != place ==> (#[trigger] players[other]).has_lost
}

/// Whether each of the first `upto` of `players` has lost, the one at
/// `except` aside.
pub open spec fn others_lost(players: Seq<Player>, upto: int, except: int) -> bool {
    forall|k: int| 0 <= k < upto && k != except ==> (#[trigger] players[k]).has_lost
}

/// Where all of the first `upto` players but the one at `except` have
/// lost, the count of those who have not is nought if that one has lost
/// too or is not among them, and one if not, and that one is then the last
/// standing.
pub proof fn lemma_one_standing(players: Seq<Player>, upto: int, except: int)
    requires
        0 <= upto <= players.len(),
        others_lost(players, upto, except),
    ensures
        standing(players, upto) == (if 0 <= except < upto && !players[except].has_lost {
            1int
        } else {
            0int
        }),
        0 <= except < upto && !players[except].has_lost ==> last_standing(players, upto) == players[except].id,
    decreases upto,
{
    if upto > 0 {
        assert(others_lost(players, upto - 1, except));
        lemma_one_standing(players, upto - 1, except);
        if except != upto - 1 {
            assert(players[upto - 1].has_lost);
        }
    }
}

/// The count of the players who have not lost is at least the number of
/// those among the two at `first` and `second` who have not.
pub proof fn lemma_two_standing(players: Seq<Player>, upto: int, first: int, second: int)
    requires
        0 <= upto <= players.len(),
        first != second,
    ensures
        standing(players, upto) >= (if 0 <= first < upto && !players[first].has_lost {
            1int
        } else {
            0int
        }) + (if 0 <= second < upto && !players[second].has_lost {
            1int
        } else {
            0int
        }),
    decreases upto,
{
    if upto > 0 {
        lemma_two_standing(players, upto - 1, first, second);
    }
}

/// How a game ends: as a draw where every player has lost; with the win of
/// the one player who has not, where there is just one; and not at all
/// where two have not lost.
pub proof fn lemma_verdict(players: Seq<Player>, first: int, second: int)
    requires
        first != second,
    ensures
        others_lost(players, players.len() as int, -1) ==> verdict(players) == Some(GameOutcome::Draw),
        sole_survivor(players, first) ==> verdict(players) == Some(
            GameOutcome::Win { winner: players[first].id },
        ),
        0 <= first < players.len() && 0 <= second < players.len() && !players[first].has_lost
            && !players[second].has_lost ==> verdict(players).is_none(),
{
    let n = players.len() as int;
    if others_lost(players, n, -1) {
        lemma_one_standing(players, n, -1);
    }
    if sole_survivor(players, first) {
        assert(others_lost(players, n, first));
        lemma_one_standing(players, n, first);
    }
    lemma_two_standing(players, n, first, second);
}

/// What the game waits for once `player` has been offered priority, the
/// state-based actions having left the players as `players`: a game that is
/// over stays over; a game that the state-based actions have concluded is
/// complete with their verdict, and nobody gets priority; otherwise
/// `player` has priority.
pub open spec fn granted(state: GameState, players: Seq<Player>, player: PlayerId) -> GameState {
    match state {
        GameState::Complete(_) => state,
        _ => match verdict(players) {
            Some(outcome) => GameState::Complete(outcome),
            None => GameState::Player { player, action: PlayerActionCategory::Priority },
        },
    }
}

/// The step that follows `step` within a turn; none after the cleanup
/// step.
pub open spec fn following(step: Step) -> Option<Step> {
    match step {
        Step::Untap => Some(Step::Upkeep),
        Step::Upkeep => Some(Step::Draw),
        Step::Draw => Some(Step::Main1),
        Step::Main1 => Some(Step::BeginCombat),
        Step::BeginCombat => Some(Step::DeclareAttackers),
        Step::DeclareAttackers => Some(Step::DeclareBlockers),
        Step::DeclareBlockers => Some(Step::CombatDamage),
        Step::CombatDamage => Some(Step::EndCombat),
        Step::EndCombat => Some(Step::Main2),
        Step::Main2 => Some(Step::End),
        Step::End => Some(Step::Cleanup),
        Step::Cleanup => None,
    }
}

/// The place of `step` in the order of a turn.
pub open spec fn step_place(step: Step) -> int {
    match step {
        Step::Untap => 0,
        Step::Upkeep => 1,
        Step::Draw => 2,
        Step::Main1 => 3,
        Step::BeginCombat => 4,
        Step::DeclareAttackers => 5,
        Step::DeclareBlockers => 6,
        Step::CombatDamage => 7,
        Step::EndCombat => 8,
        Step::Main2 => 9,
        Step::End => 10,
        Step::Cleanup => 11,
    }
}

/// The steps of a turn follow each other in order, none left out, and only
/// the cleanup step has none after it.
pub proof fn lemma_steps_in_order(step: Step)
    ensures
        following(step).is_none() <==> step == Step::Cleanup,
        following(step) matches Some(next) ==> step_place(next) == step_place(step) + 1,
{
}

/// Whether entering `step` opens a round of priority, which clears the
/// record of who has passed.
pub open spec fn opens_round(step: Step) -> bool {
    match step {
        Step::BeginCombat | Step::DeclareAttackers | Step::DeclareBlockers | Step::CombatDamage | Step::EndCombat => false,
        _ => true,
    }
}

/// Who has passed once `step` has been entered, where `passed` had passed
/// before: nobody where the step opens a round or the turn has ended on
/// the way.
pub open spec fn passes_after(passed: Seq<PlayerId>, step: Step, turn_over: bool) -> Seq<PlayerId> {
    if turn_over || opens_round(step) {
        Seq::<PlayerId>::empty()
    } else {
        passed
    }
}

/// Whether entering `step` asks a player for a declaration and so hands
/// out no priority.
pub open spec fn asks_declaration(step: Step) -> bool {
    step == Step::DeclareAttackers || step == Step::DeclareBlockers
}

/// `view` after the turn-based part of the cleanup step: what lasted until
/// end of turn is gone, effect or object, and no damage is marked.
pub open spec fn cleaned(view: Map<EntityId, Facets>) -> Map<EntityId, Facets> {
    Map::new(
        |id: EntityId| view.dom().contains(id) && view[id].until_eot.is_none(),
        |id: EntityId| (Facets { damage: None, ..view[id] }),
    )
}

/// The place of `step` in the mutual recursion of the step functions.
pub open spec fn entry_rank(step: Step) -> int {
    match step {
        Step::Cleanup => 4,
        Step::Untap => 1,
        _ => 0,
    }
}

/// The place of leaving `step` in the mutual recursion of the step
/// functions.
pub open spec fn leave_rank(step: Step) -> int {
    match step {
        Step::Cleanup => 3,
        Step::End => 5,
        _ => 2,
    }
}

impl Game {
    /// The player who acts after `player`.
    pub open spec fn next_player(&self, player: PlayerId) -> PlayerId {
        PlayerId(self.players.after(player.0 as int) as u32)
    }

    /// Whether the stack is empty.
    pub open spec fn stack_empty(&self) -> bool {
        self.zones.members(ZoneId::Stack).len() == 0
    }

    /// Whether `self` is `before` once `step` has been entered.
    ///
    /// The step is `step`, but the upkeep where `step` is the untap step.
    /// Where `turn_over` is set the turn has ended on the way: the next
    /// player is the active player, the step is the upkeep, no player has
    /// played a land, and the turn number is one higher if the first player
    /// is active again. A step that asks for a declaration waits for it;
    /// any other offers the active player priority after the state-based
    /// actions have settled. Where `clean` is set the cleanup has been made
    /// before that. The zones list what they listed, less the entities that
    /// are gone.
    pub open spec fn advanced(&self, before: &Game, step: Step, turn_over: bool, clean: bool) -> bool {
        let active = if turn_over {
            before.next_player(before.active_player)
        } else {
            before.active_player
        };
        &&& self.object_db == before.object_db
        &&& self.next_timestamp == before.next_timestamp
        &&& zones_pruned(before.zones, self.zones, self.view().dom())
        &&& self.step == (if turn_over || step == Step::Untap {
            Step::Upkeep
        } else {
            step
        })
        &&& self.active_player == active
        &&& self.turn_number == (if turn_over && active.0 == 0 {
            before.turn_number + 1
        } else {
            before.turn_number as int
        })
        &&& self.state == (if turn_over {
            granted(before.state, self.players.inner@, active)
        } else {
            match step {
                Step::DeclareAttackers => GameState::Player {
                    player: active,
                    action: PlayerActionCategory::ChooseAttackers,
                },
                Step::DeclareBlockers => GameState::Player {
                    player: before.next_player(active),
                    action: PlayerActionCategory::ChooseBlockers,
                },
                _ => granted(before.state, self.players.inner@, active),
            }
        })
        &&& players_evolved(
            before.players.inner@,
            self.players.inner@,
            turn_over || !asks_declaration(step),
            turn_over,
        )
        &&& if !turn_over && asks_declaration(step) {
            self.view() == before.view()
        } else {
            settled_view(
                if clean {
                    cleaned(before.view())
                } else {
                    before.view()
                },
                self.view(),
            )
        }
    }

    /// Whether `self` is `before` once its current step has ended: the
    /// following step has been entered, or after the cleanup step the next
    /// turn.
    pub open spec fn step_ended(&self, before: &Game) -> bool {
        match following(before.step) {
            Some(next) => self.advanced(before, next, next == Step::Cleanup, next == Step::Cleanup),
            None => self.advanced(before, Step::Untap, true, false),
        }
    }

    /// Settles the state-based actions, then gives `player` priority unless
    /// the game is over or the state-based actions have concluded it: where
    /// they leave one player who has not lost, that player has won, and
    /// where they leave none, the game is a draw.
    pub fn give_priority(&mut self, player: PlayerId)
        requires
            old(self).wf(),
            (player.0 as int) < old(self).players.inner@.len(),
        ensures
            final(self).wf(),
            final(self).state == granted(old(self).state, final(self).players.inner@, player),
            !(old(self).state is Complete) ==> forall|i: int| #[trigger]
                sole_survivor(final(self).players.inner@, i) ==> final(self).state == GameState::Complete(
                    GameOutcome::Win { winner: final(self).players.inner@[i].id },
                ),
            settled_view(old(self).view(), final(self).view()),
            players_evolved(old(self).players.inner@, final(self).players.inner@, true, false),
            zones_pruned(old(self).zones, final(self).zones, final(self).view().dom()),
            final(self).object_db == old(self).object_db,
            final(self).next_timestamp == old(self).next_timestamp,
            final(self).turn_number == old(self).turn_number,
            final(self).active_player == old(self).active_player,
            final(self).step == old(self).step,
            final(self).players_that_have_passed == old(self).players_that_have_passed,
    {
        self.apply_state_based_actions();
        match self.state {
            GameState::Complete(_) => {
                return ;
            },
            _ => {},
        }
        let mut left: usize = 0;
        let mut winner = PlayerId(0);
        let mut i: usize = 0;
        while i < self.players.inner.len()
            invariant
                i <= self.players.inner@.len(),
                left == standing(self.players.inner@, i as int),
                left <= i,
                winner == last_standing(self.players.inner@, i as int),
            decreases self.players.inner@.len() - i,
        {
            if !self.players.inner[i].has_lost {
                left += 1;
                winner = self.players.inner[i].id;
            }
            i += 1;
        }
        proof {
            assert forall|i: int| #[trigger] sole_survivor(self.players.inner@, i) implies verdict(
                self.players.inner@,
            ) == Some(GameOutcome::Win { winner: self.players.inner@[i].id }) by {
                lemma_verdict(self.players.inner@, i, i + 1);
            }
        }
        if left == 0 {
            self.state = GameState::Complete(GameOutcome::Draw);
        } else if left == 1 {
            self.state = GameState::Complete(GameOutcome::Win { winner });
        } else {
            self.state = GameState::Player { player, action: PlayerActionCategory::Priority };
        }
    }

    /// Forgets who has passed, then gives `player` priority as
    /// `give_priority` does: the way to go on after anything has happened
    /// that every player may answer.
    pub fn start_priority_round(&mut self, player: PlayerId)
        requires
            old(self).wf(),
            (player.0 as int) < old(self).players.inner@.len(),
        ensures
            final(self).wf(),
            final(self).state == granted(old(self).state, final(self).players.inner@, player),
            !(old(self).state is Complete) ==> forall|i: int| #[trigger]
                sole_survivor(final(self).players.inner@, i) ==> final(self).state == GameState::Complete(
                    GameOutcome::Win { winner: final(self).players.inner@[i].id },
                ),
            settled_view(old(self).view(), final(self).view()),
            players_evolved(old(self).players.inner@, final(self).players.inner@, true, false),
            zones_pruned(old(self).zones, final(self).zones, final(self).view().dom()),
            final(self).object_db == old(self).object_db,
            final(self).next_timestamp == old(self).next_timestamp,
            final(self).turn_number == old(self).turn_number,
            final(self).active_player == old(self).active_player,
            final(self).step == old(self).step,
            final(self).players_that_have_passed@ == Seq::<PlayerId>::empty(),
    {
        self.players_that_have_passed.clear();
        self.give_priority(player);
    }

    /// The step that follows the current one, if the turn has one more.
    pub fn next_step(&self) -> (next: Option<Step>)
        ensures
            next == following(self.step),
    {
        match self.step {
            Step::Untap => Some(Step::Upkeep),
            Step::Upkeep => Some(Step::Draw),
            Step::Draw => Some(Step::Main1),
            Step::Main1 => Some(Step::BeginCombat),
            Step::BeginCombat => Some(Step::DeclareAttackers),
            Step::DeclareAttackers => Some(Step::DeclareBlockers),
            Step::DeclareBlockers => Some(Step::CombatDamage),
            Step::CombatDamage => Some(Step::EndCombat),
            Step::EndCombat => Some(Step::Main2),
            Step::Main2 => Some(Step::End),
            Step::End => Some(Step::Cleanup),
            Step::Cleanup => None,
        }
    }

    /// The turn-based part of the cleanup step: takes the damage off every
    /// entity and despawns every entity that lasts until end of turn, an
    /// object among them leaving the list of its zone.
    pub fn clean_up(&mut self)
        requires
            old(self).wf(),
        ensures
            final(self).wf(),
            final(self).view() == cleaned(old(self).view()),
            zones_pruned(old(self).zones, final(self).zones, final(self).view().dom()),
            final(self).same_course(old(self)),
    {
        let ghost before = self.view();
        let damaged = list_damage(&self.world);
        let mut i: usize = 0;
        while i < damaged.len()
            invariant
                i <= damaged.len(),
                crate::store::lists(damaged@, before, |f: Facets| f.damage),
                self.zones == old(self).zones,
                self.same_course(old(self)),
                self.view().dom() == before.dom(),
                forall|id: EntityId| #[trigger]
                    before.dom().contains(id) ==> self.view()[id] == (if exists|j: int|
                        0 <= j < i && (#[trigger] damaged@[j]).0 == id {
                        Facets { damage: None, ..before[id] }
                    } else {
                        before[id]
                    }),
            decreases damaged.len() - i,
        {
            remove_damage(&mut self.world, damaged[i].0);
            proof {
                let now = self.view();
                let entity = damaged@[i as int].0;
                assert(now.dom() =~= before.dom());
                assert forall|id: EntityId| #[trigger] before.dom().contains(id) implies now[id] == (
                if exists|j: int| 0 <= j < i + 1 && (#[trigger] damaged@[j]).0 == id {
                    Facets { damage: None, ..before[id] }
                } else {
                    before[id]
                }) by {
                    if id == entity {
                        assert(damaged@[i as int].0 == id);
                    } else {
                        if exists|j: int| 0 <= j < i + 1 && (#[trigger] damaged@[j]).0 == id {
                            let j = choose|j: int| 0 <= j < i + 1 && (#[trigger] damaged@[j]).0 == id;
                            assert(j < i);
                        }
                    }
                }
            }
            i += 1;
        }
        let ghost undamaged = self.view();
        proof {
            assert forall|id: EntityId| #[trigger] before.dom().contains(id) implies undamaged[id] == (
            Facets { damage: None, ..before[id] }) by {
                if before[id].damage.is_some() {
                    let j = choose|j: int| 0 <= j < damaged@.len() && (#[trigger] damaged@[j]).0 == id;
                    assert(damaged@[j].0 == id);
                }
            }
        }
        proof {
            assert(crate::game::zones_index(self.zones, undamaged)) by {
                assert forall|zone: ZoneId, id: EntityId| self.zones.has(zone) implies (
                #[trigger] self.zones.members(zone).contains(id) <==> crate::game::in_zone(undamaged, id, zone)) by {
                    assert(old(self).zones.members(zone).contains(id) <==> crate::game::in_zone(before, id, zone));
                }
            }
            assert forall|zone: ZoneId, id: EntityId|
                self.zones.has(zone) && #[trigger] self.zones.members(zone).contains(id) implies undamaged.dom().contains(
                id,
            ) by {
                assert(crate::game::in_zone(undamaged, id, zone));
            }
            lemma_pruned_same(self.zones, undamaged.dom());
        }
        let ending = list_until_eot(&self.world);
        let mut k: usize = 0;
        while k < ending.len()
            invariant
                k <= ending.len(),
                crate::store::lists(ending@, undamaged, |f: Facets| f.until_eot),
                self.wf(),
                zones_pruned(old(self).zones, self.zones, self.view().dom()),
                self.same_course(old(self)),
                undamaged.dom() == before.dom(),
                self.view() == undamaged.remove_keys(
                    Set::new(|id: EntityId| exists|j: int| 0 <= j < k && (#[trigger] ending@[j]).0 == id),
                ),
            decreases ending.len() - k,
        {
            let ghost earlier = *self;
            self.despawn(ending[k].0);
            proof {
                lemma_pruned_twice(
                    old(self).zones,
                    earlier.zones,
                    self.zones,
                    earlier.view().dom(),
                    self.view().dom(),
                );
                let entity = ending@[k as int].0;
                let done = Set::new(|id: EntityId| exists|j: int| 0 <= j < k && (#[trigger] ending@[j]).0 == id);
                let more = Set::new(|id: EntityId| exists|j: int| 0 <= j < k + 1 && (#[trigger] ending@[j]).0 == id);
                assert(more =~= done.insert(entity)) by {
                    assert forall|id: EntityId| more.contains(id) <==> done.insert(entity).contains(id) by {
                        if more.contains(id) {
                            let j = choose|j: int| 0 <= j < k + 1 && (#[trigger] ending@[j]).0 == id;
                            if j < k {
                                assert(done.contains(id));
                            }
                        }
                        if done.contains(id) {
                            let j = choose|j: int| 0 <= j < k && (#[trigger] ending@[j]).0 == id;
                            assert(ending@[j].0 == id);
                        }
                        assert(ending@[k as int].0 == entity);
                    }
                }
                assert(self.view() =~= undamaged.remove_keys(more));
            }
            k += 1;
        }
        proof {
            let after = self.view();
            let gone = Set::new(|id: EntityId| exists|j: int| 0 <= j < k && (#[trigger] ending@[j]).0 == id);
            assert forall|id: EntityId| gone.contains(id) <==> (before.dom().contains(id) && before[id].until_eot.is_some()) by {
                if gone.contains(id) {
                    let j = choose|j: int| 0 <= j < k && (#[trigger] ending@[j]).0 == id;
                    assert(undamaged.dom().contains(ending@[j].0));
                }
                if before.dom().contains(id) && before[id].until_eot.is_some() {
                    assert(undamaged.dom().contains(id));
                    let j = choose|j: int| 0 <= j < ending@.len() && (#[trigger] ending@[j]).0 == id;
                    assert(ending@[j].0 == id);
                }
            }
            assert(after =~= cleaned(before));
        }
    }
}

impl Game {
    /// Enters `step` and does what the step begins with. The cleanup step
    /// ends by itself, and with it the turn.
    pub fn enter_step(&mut self, step: Step)
        requires
            old(self).wf(),
            old(self).stack_empty(),
            old(self).turn_number < u64::MAX,
        ensures
            final(self).wf(),
            final(self).advanced(old(self), step, step == Step::Cleanup, step == Step::Cleanup),
            final(self).players_that_have_passed@ == passes_after(
                old(self).players_that_have_passed@,
                step,
                step == Step::Cleanup,
            ),
        decreases entry_rank(step),
    {
        self.step = step;
        proof {
            assert forall|zone: ZoneId, id: EntityId|
                self.zones.has(zone) && #[trigger] self.zones.members(zone).contains(id) implies self.view().dom().contains(
                id,
            ) by {
                assert(crate::game::in_zone(self.view(), id, zone));
            }
            lemma_pruned_same(self.zones, self.view().dom());
        }
        match step {
            Step::Untap => {
                self.enter_step(Step::Upkeep);
            },
            Step::Upkeep | Step::Draw | Step::Main1 | Step::Main2 | Step::End => {
                let active = self.active_player;
                self.start_priority_round(active);
            },
            Step::BeginCombat => combat::enter_begin_combat(self),
            Step::DeclareAttackers => combat::enter_declare_attackers(self),
            Step::DeclareBlockers => combat::enter_declare_blockers(self),
            Step::CombatDamage => combat::enter_combat_damage(self),
            Step::EndCombat => combat::enter_end_combat(self),
            Step::Cleanup => {
                self.clean_up();
                let ghost clean = *self;
                self.apply_state_based_actions();
                let ghost settled = *self;
                proof {
                    lemma_pruned_twice(
                        old(self).zones,
                        clean.zones,
                        settled.zones,
                        clean.view().dom(),
                        settled.view().dom(),
                    );
                    assert(settled.zones.members(ZoneId::Stack) == crate::zone::kept(
                        old(self).zones.members(ZoneId::Stack),
                        settled.view().dom(),
                        0,
                    ));
                }
                self.end_current_step();
                proof {
                    lemma_pruned_twice(
                        old(self).zones,
                        settled.zones,
                        self.zones,
                        settled.view().dom(),
                        self.view().dom(),
                    );
                    assert(forall|id: EntityId| !orphaned(settled.view(), id));
                    crate::game::state_based_actions::lemma_purged_is_calm(settled.view());
                    assert(self.view() == settled.view());
                    lemma_players_evolve_twice(
                        old(self).players.inner@,
                        settled.players.inner@,
                        self.players.inner@,
                        true,
                    );
                }
            },
        }
    }

    /// Ends the current step: enters the following one, or after the
    /// cleanup step ends the turn. The stack has to be empty.
    pub fn end_current_step(&mut self)
        requires
            old(self).wf(),
            old(self).stack_empty(),
            old(self).turn_number < u64::MAX,
        ensures
            final(self).wf(),
            final(self).step_ended(old(self)),
            final(self).players_that_have_passed@ == (match following(old(self).step) {
                Some(next) => passes_after(old(self).players_that_have_passed@, next, next == Step::Cleanup),
                None => Seq::<PlayerId>::empty(),
            }),
        decreases leave_rank(old(self).step),
    {
        match self.next_step() {
            Some(next_step) => {
                self.enter_step(next_step);
            },
            None => {
                self.end_current_turn();
            },
        }
    }

    /// Ends the current turn: no player has played a land any more, the
    /// next player becomes the active player and begins a turn, and the
    /// turn number goes up where that player is the first. The stack has to
    /// be empty.
    pub fn end_current_turn(&mut self)
        requires
            old(self).wf(),
            old(self).stack_empty(),
            old(self).turn_number < u64::MAX,
        ensures
            final(self).wf(),
            final(self).advanced(old(self), Step::Untap, true, false),
            final(self).players_that_have_passed@ == Seq::<PlayerId>::empty(),
        decreases 2int,
    {
        let next_player = self.players.player_after(self.active_player);
        let is_new_turn_cycle = next_player.to_u32() == 0;
        let mut i: usize = 0;
        while i < self.players.inner.len()
            invariant
                i <= self.players.inner@.len(),
                self.players.inner@.len() == old(self).players.inner@.len(),
                self.world == old(self).world,
                self.zones == old(self).zones,
                self.same_turn(old(self)),
                forall|j: int| 0 <= j < i ==> #[trigger] self.players.inner@[j] == (crate::player::Player {
                    lands_played_this_turn: 0,
                    ..old(self).players.inner@[j]
                }),
                forall|j: int| i <= j < self.players.inner@.len() ==> #[trigger] self.players.inner@[j] == old(self).players.inner@[j],
            decreases self.players.inner@.len() - i,
        {
            self.players.inner[i].lands_played_this_turn = 0;
            i += 1;
        }
        let ghost rested = *self;
        assert(rested.wf());
        self.active_player = next_player;
        self.enter_step(Step::Untap);
        if is_new_turn_cycle {
            self.turn_number += 1;
        }
        proof {
            assert(players_evolved(old(self).players.inner@, rested.players.inner@, false, true));
            lemma_players_evolve_twice(
                old(self).players.inner@,
                rested.players.inner@,
                self.players.inner@,
                false,
            );
        }
    }
}

/// Where a step ends with an empty stack, the game stands in the step that
/// follows in the order of a turn. A turn that comes to its cleanup step
/// ends there, and the next begins at its upkeep, the untap step passing by
/// itself. The active player changes exactly where the turn ends, to the
/// next in turn order, and the turn number goes up by one exactly where
/// that player is the first: once for each lap of the players.
pub proof fn lemma_step_ends(before: &Game, after: &Game)
    requires
        before.wf(),
        after.step_ended(before),
    ensures
        ({
            let turn_ends = before.step == Step::End || before.step == Step::Cleanup;
            let next = before.next_player(before.active_player);
            &&& after.step == (if turn_ends {
                Step::Upkeep
            } else {
                following(before.step).unwrap()
            })
            &&& after.active_player == (if turn_ends {
                next
            } else {
                before.active_player
            })
            &&& after.turn_number == before.turn_number + (if turn_ends && next.0 == 0 {
                1int
            } else {
                0int
            })
            &&& next.0 == 0 <==> before.active_player.0 + 1 == before.players.inner@.len()
        }),
{
}

/// The turns that have begun before the current one: a full lap of the
/// players for each turn number that has passed, and one for each player
/// before the active player.
pub open spec fn turns_begun(game: &Game) -> int {
    (game.turn_number - 1) * game.players.inner@.len() + game.active_player.0
}

/// The steps that have begun before the current one, twelve to a turn.
pub open spec fn steps_begun(game: &Game) -> int {
    turns_begun(game) * 12 + step_place(game.step)
}

/// Where a step ends with an empty stack, the game moves on in the order
/// of the steps and never back: by one step; by two from a cleanup step,
/// over the untap step to the upkeep of the next turn; by three from an end
/// step, over the
/// cleanup and the untap step that pass by themselves. One more turn has
/// begun exactly where the turn has ended, so the turn number, which
/// counts laps of the players, goes up once in a lap.
pub proof fn lemma_steps_advance(before: &Game, after: &Game)
    requires
        before.wf(),
        before.turn_number >= 1,
        after.step_ended(before),
    ensures
        turns_begun(after) == turns_begun(before) + (if before.step == Step::End || before.step
            == Step::Cleanup {
            1int
        } else {
            0int
        }),
        steps_begun(after) == steps_begun(before) + (if before.step == Step::End {
            3int
        } else if before.step == Step::Cleanup {
            2int
        } else {
            1int
        }),
{
    lemma_step_ends(before, after);
    let n = before.players.inner@.len() as int;
    let t = before.turn_number as int;
    assert((t - 1) * n + n == t * n) by (nonlinear_arith);
    assert(after.players.inner@.len() == n);
}

/// Where the player with priority passes, the stack is empty and the next
/// player has passed already, the game stands in the step that follows,
/// with nobody recorded as having passed. Within a turn, that is from any
/// step before the end step, the active player and the turn number stay;
/// the game then waits for the active player to declare attackers, or for
/// the next player to declare blockers, or it offers the active player
/// priority, which the active player has unless the state-based actions
/// have concluded the game.
pub proof fn lemma_all_passed(before: &Game, after: &Game, player: PlayerId)
    requires
        before.wf(),
        before.priority_holder() == Some(player),
        before.stack_empty(),
        with_pass(before.players_that_have_passed@, player).contains(before.next_player(player)),
        before.step != Step::End,
        before.step != Step::Cleanup,
        after.priority_passed(before, player),
    ensures
        following(before.step) == Some(after.step) || (before.step == Step::Untap && after.step
            == Step::Upkeep),
        after.active_player == before.active_player,
        after.turn_number == before.turn_number,
        after.players_that_have_passed@.len() == 0,
        after.state == (match after.step {
            Step::DeclareAttackers => GameState::Player {
                player: before.active_player,
                action: PlayerActionCategory::ChooseAttackers,
            },
            Step::DeclareBlockers => GameState::Player {
                player: before.next_player(before.active_player),
                action: PlayerActionCategory::ChooseBlockers,
            },
            _ => match verdict(after.players.inner@) {
                Some(outcome) => GameState::Complete(outcome),
                None => GameState::Player {
                    player: before.active_player,
                    action: PlayerActionCategory::Priority,
                },
            },
        }),
        fit(before.players.inner@) ==> verdict(after.players.inner@).is_none(),
{
    if fit(before.players.inner@) {
        lemma_fit_play_on(before.players.inner@, after.players.inner@, false);
    }
}

/// Where a turn ends, the next player in turn order is the active player
/// and stands in the upkeep of a new turn; the turn number is one higher
/// if that player is the first in turn order and the same if not; no
/// player has played a land; nobody is recorded as having passed; and the
/// new active player has priority, unless the game was over or the
/// state-based actions have concluded it.
pub proof fn lemma_turn_ends(before: &Game, after: &Game)
    requires
        before.wf(),
        after.advanced(before, Step::Untap, true, false),
    ensures
        after.active_player == before.next_player(before.active_player),
        after.step == Step::Upkeep,
        after.turn_number == before.turn_number + (if after.active_player.0 == 0 {
            1int
        } else {
            0int
        }),
        after.active_player.0 == 0 <==> before.active_player.0 + 1 == before.players.inner@.len(),
        forall|i: int| 0 <= i < after.players.inner@.len() ==> (#[trigger] after.players.inner@[i]).lands_played_this_turn == 0,
        !(before.state is Complete) && verdict(after.players.inner@).is_none()
            ==> after.priority_holder() == Some(after.active_player),
        !(before.state is Complete) && fit(before.players.inner@) ==> after.priority_holder() == Some(
            after.active_player,
        ),
{
    if fit(before.players.inner@) {
        lemma_fit_play_on(before.players.inner@, after.players.inner@, true);
    }
}

/// Whether every one of `players` is in the game and above no life, so
/// that the state-based actions mark none of them.
pub open spec fn fit(players: Seq<Player>) -> bool {
    forall|i: int| 0 <= i < players.len() ==> !(#[trigger] players[i]).has_lost && players[i].life > 0
}

/// Two or more players who are fit play on: the state-based actions mark
/// none of them, and the game has no verdict.
pub proof fn lemma_fit_play_on(before: Seq<Player>, after: Seq<Player>, reset: bool)
    requires
        before.len() >= 2,
        fit(before),
        players_evolved(before, after, true, reset) || players_evolved(before, after, false, reset),
    ensures
        fit(after),
        verdict(after).is_none(),
{
    assert forall|i: int| 0 <= i < after.len() implies !(#[trigger] after[i]).has_lost && after[i].life > 0 by {
        assert(!before[i].has_lost && before[i].life > 0);
    }
    assert(!after[0].has_lost && !after[1].has_lost);
    lemma_two_standing(after, after.len() as int, 0, 1);
}

/// What the cleanup step leaves of the store: every effect that lasted
/// until end of turn is gone; no damage is marked; an entity that is gone
/// without having been such an effect was tied to an entity that is gone
/// too; and every entity that is left has all it had but the damage.
pub proof fn lemma_cleanup(before: Map<EntityId, Facets>, after: Map<EntityId, Facets>)
    requires
        settled_view(cleaned(before), after),
    ensures
        forall|id: EntityId| #[trigger]
            before.dom().contains(id) && before[id].until_eot.is_some() ==> !after.dom().contains(id),
        forall|id: EntityId| #[trigger] after.dom().contains(id) ==> before.dom().contains(id) && after[id] == (Facets {
            damage: None,
            ..before[id]
        }),
        forall|id: EntityId| #[trigger]
            before.dom().contains(id) && !after.dom().contains(id) && before[id].until_eot.is_none() ==> before[id].attached_to.is_some()
                && !after.dom().contains(before[id].attached_to.unwrap().target),
{
    let mid = cleaned(before);
    assert forall|id: EntityId| #[trigger]
        before.dom().contains(id) && !after.dom().contains(id) && before[id].until_eot.is_none() implies before[id].attached_to.is_some()
        && !after.dom().contains(before[id].attached_to.unwrap().target) by {
        assert(mid.dom().contains(id));
        assert(crate::game::state_based_actions::doomed(mid, id));
        let steps = choose|steps: nat| crate::game::state_based_actions::doomed_within(mid, id, steps);
        let target = mid[id].attached_to.unwrap().target;
        if mid.dom().contains(target) {
            assert(crate::game::state_based_actions::doomed_within(mid, target, (steps - 1) as nat));
        }
    }
}

/// In a game of two players, where one passes priority with nobody having
/// passed and the other passes next, the stack being empty, the step ends
/// with the second pass; the first pass changes neither the step nor the
/// turn.
pub proof fn lemma_both_pass(before: &Game, between: &Game, after: &Game, player: PlayerId)
    requires
        before.wf(),
        between.wf(),
        before.players.inner@.len() == 2,
        before.priority_holder() == Some(player),
        before.players_that_have_passed@.len() == 0,
        before.stack_empty(),
        between.priority_passed(before, player),
        after.priority_passed(between, before.next_player(player)),
        verdict(between.players.inner@).is_none(),
    ensures
        between.step == before.step,
        between.turn_number == before.turn_number,
        between.active_player == before.active_player,
        between.priority_holder() == Some(before.next_player(player)),
        after.step_ended(between),
{
    let other = before.next_player(player);
    assert(other != player);
    assert(between.next_player(other) == player);
    let passed = with_pass(before.players_that_have_passed@, player);
    assert(passed == seq![player]);
    assert(!passed.contains(other));
    assert(passed[0] == player);
    assert(with_pass(passed, other).contains(player)) by {
        assert(with_pass(passed, other)[0] == player);
    }
}

/// Two changes of the players in a row make one: a check followed by a
/// check and a reset, or a reset followed by a check, is a check and a
/// reset.
pub proof fn lemma_players_evolve_twice(first: Seq<crate::player::Player>, second: Seq<crate::player::Player>, third: Seq<crate::player::Player>, check_first: bool)
    requires
        players_evolved(first, second, check_first, !check_first),
        players_evolved(second, third, true, check_first),
    ensures
        players_evolved(first, third, true, true),
{
    assert forall|i: int| 0 <= i < first.len() implies #[trigger] third[i] == (crate::player::Player {
        has_lost: first[i].has_lost || first[i].life <= 0,
        lands_played_this_turn: 0,
        ..first[i]
    }) by {
        let a = first[i];
        let b = second[i];
        let c = third[i];
        assert(b == (crate::player::Player {
            has_lost: a.has_lost || (check_first && a.life <= 0),
            lands_played_this_turn: if !check_first { 0 } else { a.lands_played_this_turn },
            ..a
        }));
    }
}

/// Whether `types` holds a type of permanents: artifact, creature,
/// enchantment, land or planeswalker.
pub open spec fn makes_permanent(types: Seq<crate::types::CardType>) -> bool {
    ||| types.contains(crate::types::CardType::Artifact)
    ||| types.contains(crate::types::CardType::Creature)
    ||| types.contains(crate::types::CardType::Enchantment)
    ||| types.contains(crate::types::CardType::Land)
    ||| types.contains(crate::types::CardType::Planeswalker)
}

/// Whether `types` holds a type of permanents.
pub fn is_permanent_spell(types: &Vec<crate::types::CardType>) -> (permanent: bool)
    ensures
        permanent == makes_permanent(types@),
{
    let artifact = has_type(types, crate::types::CardType::Artifact);
    let creature = has_type(types, crate::types::CardType::Creature);
    let enchantment = has_type(types, crate::types::CardType::Enchantment);
    let land = has_type(types, crate::types::CardType::Land);
    let planeswalker = has_type(types, crate::types::CardType::Planeswalker);
    artifact || creature || enchantment || land || planeswalker
}

/// The zone that an object with these characteristics goes to when it
/// resolves: a spell of a type of permanents becomes a permanent; any other
/// spell goes to its owner's graveyard.
pub open spec fn resolution_zone(object: crate::components::Object) -> ZoneId {
    if makes_permanent(object.types@) {
        ZoneId::Battlefield
    } else {
        ZoneId::Graveyard(object.owner)
    }
}

/// Whether `moved` is `before` with `top` moved from the stack to `zone`,
/// and `after` is `moved` with the entities that are not in `alive` taken
/// out.
pub open spec fn moved_then_pruned(
    before: crate::zone::Zones,
    moved: crate::zone::Zones,
    after: crate::zone::Zones,
    top: EntityId,
    zone: ZoneId,
    alive: Set<EntityId>,
) -> bool {
    crate::game::zones_moved(before, moved, top, ZoneId::Stack, zone) && zones_pruned(moved, after, alive)
}

/// `passed` with `player` added, if it was not there.
pub open spec fn with_pass(passed: Seq<PlayerId>, player: PlayerId) -> Seq<PlayerId> {
    if passed.contains(player) {
        passed
    } else {
        passed.push(player)
    }
}

/// Whether `wanted` is one of `players`.
pub fn holds_player(players: &Vec<PlayerId>, wanted: PlayerId) -> (found: bool)
    ensures
        found == players@.contains(wanted),
{
    let mut i: usize = 0;
    while i < players.len()
        invariant
            i <= players.len(),
            forall|j: int| 0 <= j < i ==> players@[j] != wanted,
        decreases players.len() - i,
    {
        if players[i] == wanted {
            return true;
        }
        i += 1;
    }
    false
}

impl Game {
    /// Whether `self` is `before` once the top of its stack has resolved:
    /// the last member of the stack has moved to the zone that
    /// `resolution_zone` names, if that zone exists; then a round of
    /// priority has begun with the active player, the state-based actions
    /// having taken the doomed entities out of the store and the zones.
    pub open spec fn resolved(&self, before: &Game) -> bool {
        let top = before.zones.members(ZoneId::Stack).last();
        let zone = resolution_zone(before.object(top).unwrap());
        &&& if before.zones.has(zone) {
            &&& settled_view(crate::game::moved_view(before.view(), top, zone), self.view())
            &&& exists|moved: crate::zone::Zones| #[trigger]
                moved_then_pruned(before.zones, moved, self.zones, top, zone, self.view().dom())
        } else {
            &&& settled_view(before.view(), self.view())
            &&& zones_pruned(before.zones, self.zones, self.view().dom())
        }
        &&& self.state == granted(before.state, self.players.inner@, before.active_player)
        &&& self.players_that_have_passed@ == Seq::<PlayerId>::empty()
        &&& players_evolved(before.players.inner@, self.players.inner@, true, false)
        &&& self.object_db == before.object_db
        &&& self.next_timestamp == before.next_timestamp
        &&& self.turn_number == before.turn_number
        &&& self.active_player == before.active_player
        &&& self.step == before.step
    }

    /// Resolves the top of the stack, if the stack has one.
    pub fn resolve_one_from_stack(&mut self)
        requires
            old(self).wf(),
        ensures
            final(self).wf(),
            old(self).stack_empty() ==> *final(self) == *old(self),
            !old(self).stack_empty() ==> final(self).resolved(old(self)),
    {
        let top = match self.zones.get(ZoneId::Stack) {
            Some(stack) => {
                let members = stack.members();
                if members.len() == 0 {
                    return ;
                }
                members[members.len() - 1]
            },
            None => {
                return ;
            },
        };
        proof {
            let stack = self.zones.members(ZoneId::Stack);
            assert(stack[stack.len() - 1] == top);
            assert(stack.contains(top));
            assert(crate::game::in_zone(self.view(), top, ZoneId::Stack));
        }
        let object = match get_object(&self.world, top) {
            Some(object) => object,
            None => {
                return ;
            },
        };
        if is_permanent_spell(&object.types) {
            self.move_object_to_zone(top, ZoneId::Battlefield);
        } else {
            let owner = object.owner;
            self.move_object_to_zone(top, ZoneId::Graveyard(owner));
        }
        let ghost moved = *self;
        let active = self.active_player;
        self.start_priority_round(active);
        proof {
            let zone = resolution_zone(old(self).object(top).unwrap());
            if old(self).zones.has(zone) {
                assert(moved_then_pruned(old(self).zones, moved.zones, self.zones, top, zone, self.view().dom()));
            }
        }
    }

    /// Whether `self` is `before` once `player` has passed priority.
    ///
    /// A player who does not hold priority changes nothing. Otherwise the
    /// pass is recorded. Where the next player has passed already, all
    /// have: the record is cleared, and the step ends if the stack is
    /// empty, else the top of the stack resolves. Where not, the next
    /// player gets priority.
    pub open spec fn priority_passed(&self, before: &Game, player: PlayerId) -> bool {
        let next = before.next_player(player);
        if before.priority_holder() != Some(player) {
            *self == *before
        } else if with_pass(before.players_that_have_passed@, player).contains(next) {
            if before.stack_empty() {
                &&& self.step_ended(before)
                &&& self.players_that_have_passed@ == Seq::<PlayerId>::empty()
            } else {
                self.resolved(before)
            }
        } else {
            &&& self.state == granted(before.state, self.players.inner@, next)
            &&& self.players_that_have_passed@ == with_pass(before.players_that_have_passed@, player)
            &&& settled_view(before.view(), self.view())
            &&& players_evolved(before.players.inner@, self.players.inner@, true, false)
            &&& zones_pruned(before.zones, self.zones, self.view().dom())
            &&& self.object_db == before.object_db
            &&& self.next_timestamp == before.next_timestamp
            &&& self.turn_number == before.turn_number
            &&& self.active_player == before.active_player
            &&& self.step == before.step
        }
    }

    /// Passes priority for `player`.
    pub fn pass_priority(&mut self, player: PlayerId)
        requires
            old(self).wf(),
            old(self).turn_number < u64::MAX,
        ensures
            final(self).wf(),
            final(self).priority_passed(old(self), player),
    {
        if self.priority_player() != Some(player) {
            return ;
        }
        if !holds_player(&self.players_that_have_passed, player) {
            self.players_that_have_passed.push(player);
        }
        let next_player = self.players.player_after(player);
        if holds_player(&self.players_that_have_passed, next_player) {
            self.players_that_have_passed.clear();
            let stack_is_empty = match self.zones.get(ZoneId::Stack) {
                Some(stack) => stack.is_empty(),
                None => true,
            };
            if stack_is_empty {
                self.end_current_step();
            } else {
                self.resolve_one_from_stack();
            }
        } else {
            self.give_priority(next_player);
        }
    }
}

} // verus!
