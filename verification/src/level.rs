//! The level container: the decoded object sequence, the player, and the
//! ordered checkpoint list (index 0 is the level start; later entries come
//! from checkpoint markers in file order), with the active checkpoint cycled
//! modulo the list length.

use vstd::prelude::*;
use crate::codec::{spec_unwrap_container, unwrap_container};
use crate::decode::{load_gd_level_string, spec_load_level, LevelError};
use crate::fx::{COORD_LIMIT, DT_LIMIT};
use crate::hitbox::HitboxTable;
use crate::object::Object;
use crate::player::{spec_update, Player};

verus! {

/// What loading a packaged file yields: the container unwrapped, then the
/// payload decoded against the hitbox table.
pub open spec fn spec_from_gmd(data: Seq<u8>, table: Seq<(i32, crate::geometry::AxisBoundingBox)>)
    -> Result<(Seq<Object>, Seq<(i64, i64)>), LevelError> {
    match spec_unwrap_container(data) {
        Result::Err(e) => Err(e),
        Result::Ok(t) => match spec_load_level(t, table) {
            Option::None => Err(LevelError::GrammarParse),
            Option::Some(st) => Ok(st),
        },
    }
}

/// A decoded level: its immutable object sequence, the player, and the
/// checkpoint start positions. The checkpoint list is never empty.
pub struct Level {
    pub player: Player,
    pub objects: Vec<Object>,
    pub start_positions: Vec<(i64, i64)>,
    pub start_pos_index: usize,
}

/// Validity of a checkpoint position: inside the engine's coordinate range.
pub open spec fn checkpoint_wf(p: (i64, i64)) -> bool {
    &&& -COORD_LIMIT <= p.0 <= COORD_LIMIT
    &&& -COORD_LIMIT <= p.1 <= COORD_LIMIT
}

/// The next checkpoint index: advance by one, wrapping to the start.
pub open spec fn spec_next_index(i: int, len: int) -> int {
    (i + 1) % len
}

/// The checkpoint index after `k` advances from `i`.
pub open spec fn spec_cycle_index(i: int, len: int, k: nat) -> int
    decreases k,
{
    if k == 0 {
        i
    } else {
        spec_cycle_index(spec_next_index(i, len), len, (k - 1) as nat)
    }
}

/// Advancing `k` times lands on `(i + k) % len`.
proof fn lemma_cycle_index_adds(i: int, len: int, k: nat)
    requires
        0 <= i < len,
    ensures
        spec_cycle_index(i, len, k) == (i + k) % len,
    decreases k,
{
    if k == 0 {
        vstd::arithmetic::div_mod::lemma_small_mod(i as nat, len as nat);
    } else {
        let j = spec_next_index(i, len);
        vstd::arithmetic::div_mod::lemma_mod_bound(i + 1, len);
        lemma_cycle_index_adds(j, len, (k - 1) as nat);
        vstd::arithmetic::div_mod::lemma_mod_twice(i + 1, len);
        vstd::arithmetic::div_mod::lemma_add_mod_noop((i + 1) % len, k - 1, len);
        vstd::arithmetic::div_mod::lemma_add_mod_noop(i + 1, k - 1, len);
    }
}

/// Advancing the checkpoint index as many times as there are checkpoints
/// returns it to its starting value.
pub proof fn lemma_cycle_returns(i: int, len: int)
    requires
        0 <= i < len,
    ensures
        spec_cycle_index(i, len, len as nat) == i,
{
    lemma_cycle_index_adds(i, len, len as nat);
    vstd::arithmetic::div_mod::lemma_mod_add_multiples_vanish(i, len);
    vstd::arithmetic::div_mod::lemma_small_mod(i as nat, len as nat);
}

impl Level {
    /// Validity: a valid player, valid objects, and a nonempty checkpoint
    /// list with the active index inside it.
    pub open spec fn wf(self) -> bool {
        &&& self.player.wf()
        &&& forall|i: int|
            0 <= i < self.objects@.len() ==> (#[trigger] self.objects@[i]).wf()
        &&& self.start_positions@.len() >= 1
        &&& self.start_pos_index < self.start_positions@.len()
        &&& forall|i: int|
            0 <= i < self.start_positions@.len() ==> checkpoint_wf(
                #[trigger] self.start_positions@[i],
            )
    }

    /// Builds a level from decoded parts, with a fresh player and the level
    /// start as the active checkpoint.
    pub fn from_parts(objects: Vec<Object>, start_positions: Vec<(i64, i64)>) -> (r: Self)
        requires
            forall|i: int| 0 <= i < objects@.len() ==> (#[trigger] objects@[i]).wf(),
            start_positions@.len() >= 1,
            forall|i: int|
                0 <= i < start_positions@.len() ==> checkpoint_wf(#[trigger] start_positions@[i]),
        ensures
            r.player == Player::spec_new(),
            r.objects@ == objects@,
            r.start_positions@ == start_positions@,
            r.start_pos_index == 0,
            r.wf(),
    {
        Level { player: Player::new(), objects, start_positions, start_pos_index: 0 }
    }

    /// Loads a packaged level file: unwraps the container, decodes the
    /// payload against the hitbox table, and assembles a fresh level. Any
    /// stage's failure aborts the load with that stage's error.
    pub fn from_gmd(data: &Vec<u8>, hitboxes: &HitboxTable) -> (r: Result<Level, LevelError>)
        requires
            hitboxes.wf(),
        ensures
            r matches Ok(lv) ==> {
                &&& spec_from_gmd(data@, hitboxes@) == Ok::<_, LevelError>(
                    (lv.objects@, lv.start_positions@),
                )
                &&& lv.player == Player::spec_new()
                &&& lv.start_pos_index == 0
                &&& lv.wf()
            },
            r matches Err(e) ==> spec_from_gmd(data@, hitboxes@) == Err::<
                (Seq<Object>, Seq<(i64, i64)>),
                _,
            >(e),
    {
        let payload = match unwrap_container(data) {
            Ok(p) => p,
            Err(e) => {
                return Err(e);
            },
        };
        match load_gd_level_string(&payload, hitboxes) {
            Ok((objects, start_positions)) => Ok(Level::from_parts(objects, start_positions)),
            Err(e) => Err(e),
        }
    }

    /// Restores the player's kinematic defaults and teleports it to the
    /// active checkpoint.
    pub fn reset(&mut self)
        requires
            old(self).wf(),
        ensures
            *final(self) == (Level {
                player: Player {
                    dead: false,
                    y_vel: 0,
                    mode: crate::object::PlayerMode::Cube,
                    is_upside_down: false,
                    x: old(self).start_positions@[old(self).start_pos_index as int].0,
                    y: old(self).start_positions@[old(self).start_pos_index as int].1,
                    ..old(self).player
                },
                ..*old(self)
            }),
            final(self).wf(),
    {
        self.player.reset();
        let start_pos = self.start_positions[self.start_pos_index];
        self.player.x = start_pos.0;
        self.player.y = start_pos.1;
    }

    /// Advances the player by `dt` seconds against this level's objects.
    pub fn update(&mut self, dt: i64)
        requires
            old(self).wf(),
            0 <= dt <= DT_LIMIT,
        ensures
            *final(self) == (Level {
                player: spec_update(old(self).player, dt, old(self).objects@),
                ..*old(self)
            }),
            final(self).wf(),
    {
        self.player.update(dt, &self.objects);
    }

    /// Advances the active checkpoint index, wrapping past the last
    /// checkpoint to the level start.
    pub fn next_start_pos(&mut self)
        requires
            old(self).wf(),
        ensures
            *final(self) == (Level {
                start_pos_index: spec_next_index(
                    old(self).start_pos_index as int,
                    old(self).start_positions@.len() as int,
                ) as usize,
                ..*old(self)
            }),
            final(self).wf(),
    {
        let n = self.start_positions.len();
        let i = self.start_pos_index;
        proof {
            if i < n - 1 {
                vstd::arithmetic::div_mod::lemma_small_mod((i + 1) as nat, n as nat);
            } else {
                vstd::arithmetic::div_mod::lemma_mod_self_0(n as int);
            }
        }
        self.start_pos_index = if i >= n - 1 {
            0
        } else {
            i + 1
        };
    }
}

} // verus!
