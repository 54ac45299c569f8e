use std::collections::VecDeque;

use vstd::prelude::*;

use crate::enemy::{dies_on_contact, kind_dies_on_contact, Enemy};
use crate::flags::{
    first_true, kept, lemma_first_true, lemma_first_true_at, lemma_true_indices_push, retain_flagged,
    true_indices,
};
use crate::player::{lemma_damaged_n_floor, Player};

verus! {

/// The last stage: after it the game keeps replaying it.
pub const MAX_STAGE: u32 = 10;

/// The combat state of a run: the stage, the enemies on screen, the enemies
/// of the wave still to enter (front first), the player's shots, the kill
/// count and whether the stage-clear transition is running. Enemy bodies `E`
/// and shots `B` are the caller's (positions, sprites), never read here.
pub struct PlayingState<E, B> {
    pub stage: u32,
    pub enemies: Vec<Enemy<E>>,
    pub pending_enemies: VecDeque<Enemy<E>>,
    pub bullets: Vec<B>,
    pub kills: u32,
    pub waiting_next_stage: bool,
}

/// One flag per enemy: whether it still has hit points.
pub open spec fn alive_flags<E>(s: Seq<Enemy<E>>) -> Seq<bool> {
    s.map_values(|e: Enemy<E>| e.hp > 0)
}

/// The stage that follows `stage`: the next one, or the same once the last
/// stage is reached.
pub open spec fn next_stage(stage: u32) -> u32 {
    if stage < MAX_STAGE { (stage + 1) as u32 } else { stage }
}

/// The caller's overlap table (one row per shot, one flag per enemy) as
/// flag sequences.
pub open spec fn rows_of(v: Seq<Vec<bool>>) -> Seq<Seq<bool>> {
    v.map_values(|r: Vec<bool>| r@)
}

/// For each shot that overlaps an enemy, in shot order, the enemy it hits:
/// the first one in its row.
pub open spec fn hit_targets(rows: Seq<Seq<bool>>) -> Seq<int>
    decreases rows.len(),
{
    if rows.len() == 0 {
        Seq::empty()
    } else {
        let rest = hit_targets(rows.drop_last());
        let r = rows.last();
        if first_true(r) < r.len() {
            rest.push(first_true(r))
        } else {
            rest
        }
    }
}

/// How many shots hit enemy `e`.
pub open spec fn hits_on(rows: Seq<Seq<bool>>, e: int) -> int
    decreases rows.len(),
{
    if rows.len() == 0 {
        0
    } else {
        let r = rows.last();
        hits_on(rows.drop_last(), e) + (if first_true(r) == e && e < r.len() { 1int } else { 0int })
    }
}

/// The enemies after the shots: each one with its hit points lowered by the
/// number of shots that hit it.
pub open spec fn after_shots<E>(enemies: Seq<Enemy<E>>, rows: Seq<Seq<bool>>) -> Seq<Enemy<E>> {
    Seq::new(
        enemies.len(),
        |e: int| Enemy { hp: (enemies[e].hp - hits_on(rows, e)) as i32, ..enemies[e] },
    )
}

/// One flag per shot: whether it overlaps no enemy (and so flies on).
pub open spec fn missed_flags(rows: Seq<Seq<bool>>) -> Seq<bool> {
    rows.map_values(|r: Seq<bool>| first_true(r) >= r.len())
}

/// How many enemies went from at least one hit point in `before` to none in
/// `after` (the two sequences being the same enemies, position by position).
pub open spec fn crossings<E>(before: Seq<Enemy<E>>, after: Seq<Enemy<E>>) -> nat
    decreases before.len(),
{
    if before.len() == 0 {
        0
    } else {
        let i = before.len() - 1;
        crossings(before.drop_last(), after.drop_last()) + (if before[i].hp >= 1 && after[i].hp <= 0 {
            1nat
        } else {
            0nat
        })
    }
}

/// `1` when hit points go from at least one to none, else `0`.
pub open spec fn crossed(hp_before: int, hp_after: int) -> int {
    if hp_before >= 1 && hp_after <= 0 { 1 } else { 0 }
}

impl<E, B> PlayingState<E, B> {
    /// The stage is one of the game's stages.
    pub open spec fn wf(&self) -> bool {
        1 <= self.stage <= MAX_STAGE
    }

    /// A run at stage 1 with no kills, nothing on screen, and `wave` waiting
    /// to enter.
    pub fn new(wave: VecDeque<Enemy<E>>) -> (s: Self)
        ensures
            s.stage == 1,
            s.kills == 0,
            !s.waiting_next_stage,
            s.enemies@.len() == 0,
            s.pending_enemies@ == wave@,
            s.bullets@.len() == 0,
            s.wf(),
    {
        PlayingState {
            stage: 1,
            enemies: Vec::new(),
            pending_enemies: wave,
            bullets: Vec::new(),
            kills: 0,
            waiting_next_stage: false,
        }
    }

    /// Whether enemies of the wave are still waiting to enter.
    pub fn has_pending(&self) -> (r: bool)
        ensures
            r == (self.pending_enemies@.len() > 0),
    {
        self.pending_enemies.len() > 0
    }

    /// The next waiting enemy enters the screen: it leaves the front of the
    /// wave and joins the end of the enemies on screen. Does nothing when no
    /// enemy is waiting.
    pub fn spawn_next(&mut self)
        ensures
            old(self).pending_enemies@.len() == 0 ==> final(self).enemies@ == old(self).enemies@
                && final(self).pending_enemies@ == old(self).pending_enemies@,
            old(self).pending_enemies@.len() > 0 ==> final(self).enemies@ == old(self).enemies@.push(
                old(self).pending_enemies@[0],
            ) && final(self).pending_enemies@ == old(self).pending_enemies@.drop_first(),
            final(self).enemies@ + final(self).pending_enemies@ == old(self).enemies@ + old(
                self,
            ).pending_enemies@,
            final(self).stage == old(self).stage,
            final(self).kills == old(self).kills,
            final(self).bullets@ == old(self).bullets@,
            final(self).waiting_next_stage == old(self).waiting_next_stage,
    {
        let front = self.pending_enemies.pop_front();
        match front {
            Some(enemy) => {
                self.enemies.push(enemy);
            },
            None => {},
        }
        proof {
            let o = old(self);
            if o.pending_enemies@.len() > 0 {
                assert(o.enemies@.push(o.pending_enemies@[0]) + o.pending_enemies@.drop_first()
                    =~= o.enemies@ + o.pending_enemies@);
            }
        }
    }

    /// Enemies with no hit points left are removed; the others stay, in order.
    pub fn cleanup_dead_entities(&mut self)
        ensures
            final(self).enemies@ == kept(old(self).enemies@, alive_flags(old(self).enemies@)),
            final(self).enemies@ == old(self).enemies@.filter(|e: Enemy<E>| e.hp > 0),
            forall|i: int|
                0 <= i < final(self).enemies@.len() ==> #[trigger] final(self).enemies@[i].hp > 0,
            final(self).pending_enemies@ == old(self).pending_enemies@,
            final(self).stage == old(self).stage,
            final(self).kills == old(self).kills,
            final(self).bullets@ == old(self).bullets@,
            final(self).waiting_next_stage == old(self).waiting_next_stage,
    {
        let n = self.enemies.len();
        let mut flags: Vec<bool> = Vec::new();
        let mut i: usize = 0;
        while i < n
            invariant
                n == self.enemies@.len(),
                i <= n,
                flags@ == alive_flags(self.enemies@).take(i as int),
            decreases n - i,
        {
            flags.push(self.enemies[i].hp > 0);
            i = i + 1;
            proof {
                assert(flags@ =~= alive_flags(self.enemies@).take(i as int));
            }
        }
        proof {
            assert(flags@ =~= alive_flags(self.enemies@));
        }
        let mut enemies: Vec<Enemy<E>> = Vec::new();
        std::mem::swap(&mut enemies, &mut self.enemies);
        self.enemies = retain_flagged(enemies, &flags);
        proof {
            lemma_kept_alive(old(self).enemies@);
            lemma_cleanup_is_filter(old(self).enemies@);
        }
    }

    /// The player rams the enemies whose flag in `touching` is set (one flag
    /// per enemy on screen, from the caller's hitboxes). Each contact costs the
    /// player one hit point, and a normal or red enemy is destroyed by it (its
    /// hit points drop to zero); the mini-boss and the boss are unharmed.
    /// Returns the positions of the enemies in contact, in order, for the
    /// caller's hit feedback and sound.
    pub fn handle_player_enemy_collision<P>(&mut self, player: &mut Player<P>, touching: &Vec<bool>) -> (hits: Vec<usize>)
        requires
            touching@.len() == old(self).enemies@.len(),
            old(player).hp > i32::MIN,
        ensures
            hits@.len() == true_indices(touching@).len(),
            forall|k: int| 0 <= k < hits@.len() ==> hits@[k] as int == #[trigger] true_indices(touching@)[k],
            final(self).enemies@.len() == old(self).enemies@.len(),
            forall|i: int|
                0 <= i < old(self).enemies@.len() ==> {
                    let o = #[trigger] old(self).enemies@[i];
                    let f = final(self).enemies@[i];
                    &&& f.kind == o.kind
                    &&& f.wobble_count == o.wobble_count
                    &&& f.body == o.body
                    &&& f.hp == (if touching@[i] && kind_dies_on_contact(o.kind) { 0 } else { o.hp })
                },
            *final(player) == old(player).damaged_n(true_indices(touching@).len()),
            final(self).pending_enemies@ == old(self).pending_enemies@,
            final(self).stage == old(self).stage,
            final(self).kills == old(self).kills,
            final(self).bullets@ == old(self).bullets@,
            final(self).waiting_next_stage == old(self).waiting_next_stage,
    {
        let n = self.enemies.len();
        let mut hits: Vec<usize> = Vec::new();
        let ghost p0 = *old(player);
        let ghost e0 = old(self).enemies@;
        let mut i: usize = 0;
        while i < n
            invariant
                n == e0.len(),
                n == touching@.len(),
                i <= n,
                self.enemies@.len() == n,
                p0.hp > i32::MIN,
                hits@.len() == true_indices(touching@.take(i as int)).len(),
                forall|k: int|
                    0 <= k < hits@.len() ==> hits@[k] as int == #[trigger] true_indices(
                        touching@.take(i as int),
                    )[k],
                *player == p0.damaged_n(true_indices(touching@.take(i as int)).len()),
                forall|k: int|
                    0 <= k < n ==> {
                        let o = #[trigger] e0[k];
                        let f = self.enemies@[k];
                        &&& f.kind == o.kind
                        &&& f.wobble_count == o.wobble_count
                        &&& f.body == o.body
                        &&& f.hp == (if k < i && touching@[k] && kind_dies_on_contact(o.kind) {
                            0
                        } else {
                            o.hp
                        })
                    },
                self.pending_enemies@ == old(self).pending_enemies@,
                self.stage == old(self).stage,
                self.kills == old(self).kills,
                self.bullets@ == old(self).bullets@,
                self.waiting_next_stage == old(self).waiting_next_stage,
            decreases n - i,
        {
            let ghost before = true_indices(touching@.take(i as int));
            proof {
                assert(touching@.take(i + 1) =~= touching@.take(i as int).push(touching@[i as int]));
                lemma_true_indices_push(touching@.take(i as int), touching@[i as int]);
            }
            if touching[i] {
                if dies_on_contact(self.enemies[i].kind) {
                    self.enemies[i].hp = 0;
                }
                proof {
                    lemma_damaged_n_floor(p0, before.len());
                }
                player.damage();
                hits.push(i);
                proof {
                    assert(hits@.len() == before.len() + 1);
                }
            }
            i = i + 1;
        }
        proof {
            assert(touching@.take(n as int) =~= touching@);
        }
        hits
    }


    /// The player's shots meet the enemies. `overlaps` has one row per shot
    /// and one flag per enemy on screen (from the caller's hitboxes). Taking
    /// the shots in order, each one hits the first enemy it overlaps: that
    /// enemy loses one hit point, a kill is counted when its hit points reach
    /// exactly zero, and the shot is removed. Shots that overlap nothing fly
    /// on, in order. Returns the enemy hit by each removed shot, in shot
    /// order, for the caller's explosions and sounds.
    pub fn handle_player_bullet_enemy_collision(&mut self, overlaps: &Vec<Vec<bool>>) -> (targets: Vec<usize>)
        requires
            overlaps@.len() == old(self).bullets@.len(),
            forall|b: int| 0 <= b < overlaps@.len() ==> (#[trigger] overlaps@[b])@.len() == old(self).enemies@.len(),
            forall|e: int|
                0 <= e < old(self).enemies@.len() ==> (#[trigger] old(self).enemies@[e]).hp - hits_on(
                    rows_of(overlaps@),
                    e,
                ) >= i32::MIN,
            old(self).kills + crossings(old(self).enemies@, after_shots(old(self).enemies@, rows_of(overlaps@)))
                <= u32::MAX,
        ensures
            targets@.len() == hit_targets(rows_of(overlaps@)).len(),
            forall|k: int|
                0 <= k < targets@.len() ==> targets@[k] as int == #[trigger] hit_targets(rows_of(overlaps@))[k],
            final(self).enemies@.len() == old(self).enemies@.len(),
            forall|e: int|
                0 <= e < old(self).enemies@.len() ==> {
                    let o = #[trigger] old(self).enemies@[e];
                    let f = final(self).enemies@[e];
                    &&& f.kind == o.kind
                    &&& f.wobble_count == o.wobble_count
                    &&& f.body == o.body
                    &&& f.hp == o.hp - hits_on(rows_of(overlaps@), e)
                },
            final(self).enemies@ == after_shots(old(self).enemies@, rows_of(overlaps@)),
            final(self).kills == old(self).kills + crossings(old(self).enemies@, final(self).enemies@),
            final(self).kills == old(self).kills + Seq::new(old(self).enemies@.len(), |i: int| i).filter(
                |i: int| old(self).enemies@[i].hp >= 1 && final(self).enemies@[i].hp <= 0,
            ).len(),
            final(self).bullets@ == kept(old(self).bullets@, missed_flags(rows_of(overlaps@))),
            final(self).pending_enemies@ == old(self).pending_enemies@,
            final(self).stage == old(self).stage,
            final(self).waiting_next_stage == old(self).waiting_next_stage,
    {
        let nb = self.bullets.len();
        let ne = self.enemies.len();
        let ghost rows = rows_of(overlaps@);
        let ghost e0 = old(self).enemies@;
        let ghost k0 = old(self).kills;
        let mut targets: Vec<usize> = Vec::new();
        let mut keep: Vec<bool> = Vec::new();
        proof {
            lemma_crossings_same(e0);
        }
        let mut bi: usize = 0;
        while bi < nb
            invariant
                nb == overlaps@.len(),
                nb == self.bullets@.len(),
                ne == e0.len(),
                ne == self.enemies@.len(),
                rows == rows_of(overlaps@),
                forall|b: int| 0 <= b < nb ==> (#[trigger] overlaps@[b])@.len() == ne,
                k0 + crossings(e0, after_shots(e0, rows)) <= u32::MAX,
                forall|e: int| 0 <= e < ne ==> (#[trigger] e0[e]).hp - hits_on(rows, e) >= i32::MIN,
                bi <= nb,
                targets@.len() == hit_targets(rows.take(bi as int)).len(),
                forall|k: int|
                    0 <= k < targets@.len() ==> targets@[k] as int == #[trigger] hit_targets(
                        rows.take(bi as int),
                    )[k],
                forall|e: int|
                    0 <= e < ne ==> {
                        let o = #[trigger] e0[e];
                        let f = self.enemies@[e];
                        &&& f.kind == o.kind
                        &&& f.wobble_count == o.wobble_count
                        &&& f.body == o.body
                        &&& f.hp == o.hp - hits_on(rows.take(bi as int), e)
                    },
                self.kills == k0 + crossings(e0, self.enemies@),
                keep@ == missed_flags(rows).take(bi as int),
                self.bullets@ == old(self).bullets@,
                self.pending_enemies@ == old(self).pending_enemies@,
                self.stage == old(self).stage,
                self.waiting_next_stage == old(self).waiting_next_stage,
            decreases nb - bi,
        {
            let ghost prefix = rows.take(bi as int);
            let ghost row = rows[bi as int];
            let row_vec = &overlaps[bi];
            assert(row == row_vec@);
            let mut j: usize = 0;
            while j < ne && !row_vec[j]
                invariant
                    ne == row_vec@.len(),
                    j <= ne,
                    forall|k: int| 0 <= k < j ==> !row_vec@[k],
                decreases ne - j,
            {
                j = j + 1;
            }
            proof {
                lemma_first_true_at(row, j as int);
                assert(rows.take(bi + 1) =~= prefix.push(row));
                assert(prefix.push(row).drop_last() =~= prefix);
                assert(missed_flags(rows).take(bi + 1) =~= missed_flags(rows).take(bi as int).push(
                    first_true(row) >= row.len(),
                ));
                assert forall|e: int| #![trigger e0[e]] 0 <= e < ne implies hits_on(rows.take(bi + 1), e)
                    == hits_on(prefix, e) + (if j == e && e < row.len() { 1int } else { 0int }) by {}
                lemma_hits_on_prefix(rows, bi + 1, j as int);
                lemma_hits_on_bound(prefix, j as int);
            }
            if j < ne {
                let ghost cur = self.enemies@;
                let hp = self.enemies[j].hp;
                assert(e0[j as int].hp - hits_on(rows, j as int) >= i32::MIN);
                assert(hp == e0[j as int].hp - hits_on(prefix, j as int));
                self.enemies[j].hp = hp - 1;
                proof {
                    lemma_crossings_update(e0, cur, j as int, self.enemies@[j as int]);
                    assert(self.enemies@ == cur.update(j as int, self.enemies@[j as int]));
                    let fin = after_shots(e0, rows);
                    assert forall|e: int| 0 <= e < ne implies self.enemies@[e].hp >= #[trigger] fin[e].hp by {
                        lemma_hits_on_prefix(rows, bi + 1, e);
                    }
                    lemma_crossings_mono(e0, self.enemies@, fin);
                }
                if self.enemies[j].hp == 0 {
                    self.kills = self.kills + 1;
                }
                targets.push(j);
                keep.push(false);
            } else {
                keep.push(true);
            }
            bi = bi + 1;
        }
        proof {
            assert(rows.take(nb as int) =~= rows);
            assert(missed_flags(rows).take(nb as int) =~= missed_flags(rows));
            assert(self.enemies@ =~= after_shots(e0, rows));
            lemma_crossings_count(e0, self.enemies@);
        }
        let mut bullets: Vec<B> = Vec::new();
        std::mem::swap(&mut bullets, &mut self.bullets);
        self.bullets = retain_flagged(bullets, &keep);
        targets
    }

    /// Whether the shots described by `overlaps` can be applied without the
    /// hit points of an enemy going below `i32::MIN` or the kill count above
    /// `u32::MAX`: exactly the condition under which
    /// `handle_player_bullet_enemy_collision` may be called.
    pub fn shots_fit(&self, overlaps: &Vec<Vec<bool>>) -> (r: bool)
        requires
            forall|b: int| 0 <= b < overlaps@.len() ==> (#[trigger] overlaps@[b])@.len() == self.enemies@.len(),
        ensures
            r == ((forall|e: int|
                0 <= e < self.enemies@.len() ==> (#[trigger] self.enemies@[e]).hp - hits_on(rows_of(overlaps@), e)
                    >= i32::MIN) && self.kills + crossings(self.enemies@, after_shots(self.enemies@, rows_of(overlaps@)))
                <= u32::MAX),
    {
        let nb = overlaps.len();
        let ne = self.enemies.len();
        let ghost rows = rows_of(overlaps@);
        let ghost e0 = self.enemies@;
        let mut counts: Vec<u64> = Vec::new();
        let mut e: usize = 0;
        while e < ne
            invariant
                ne == e0.len(),
                e <= ne,
                counts@.len() == e,
                forall|k: int| 0 <= k < e ==> counts@[k] == 0,
            decreases ne - e,
        {
            counts.push(0);
            e = e + 1;
        }
        let mut bi: usize = 0;
        while bi < nb
            invariant
                nb == overlaps@.len(),
                ne == e0.len(),
                e0 == self.enemies@,
                rows == rows_of(overlaps@),
                forall|b: int| 0 <= b < nb ==> (#[trigger] overlaps@[b])@.len() == ne,
                bi <= nb,
                counts@.len() == ne,
                forall|k: int| 0 <= k < ne ==> #[trigger] counts@[k] == hits_on(rows.take(bi as int), k),
                forall|k: int| 0 <= k < ne ==> #[trigger] counts@[k] <= bi,
            decreases nb - bi,
        {
            let ghost prefix = rows.take(bi as int);
            let ghost row = rows[bi as int];
            let row_vec = &overlaps[bi];
            assert(row == row_vec@);
            let mut j: usize = 0;
            while j < ne && !row_vec[j]
                invariant
                    ne == row_vec@.len(),
                    j <= ne,
                    forall|k: int| 0 <= k < j ==> !row_vec@[k],
                decreases ne - j,
            {
                j = j + 1;
            }
            proof {
                lemma_first_true_at(row, j as int);
                assert(rows.take(bi + 1) =~= prefix.push(row));
                assert(prefix.push(row).drop_last() =~= prefix);
            }
            if j < ne {
                let c = counts[j];
                counts.set(j, c + 1);
            }
            bi = bi + 1;
        }
        proof {
            assert(rows.take(nb as int) =~= rows);
        }
        let ghost fin = after_shots(e0, rows);
        let mut crossed_count: u64 = 0;
        let mut k: usize = 0;
        while k < ne
            invariant
                ne == e0.len(),
                e0 == self.enemies@,
                fin == after_shots(e0, rows),
                rows == rows_of(overlaps@),
                counts@.len() == ne,
                forall|i: int| 0 <= i < ne ==> #[trigger] counts@[i] == hits_on(rows, i),
                forall|i: int| 0 <= i < ne ==> #[trigger] counts@[i] <= nb,
                k <= ne,
                forall|i: int| 0 <= i < k ==> (#[trigger] e0[i]).hp - hits_on(rows, i) >= i32::MIN,
                crossed_count == crossings(e0.take(k as int), fin.take(k as int)),
                crossed_count <= k,
            decreases ne - k,
        {
            let hp = self.enemies[k].hp as i128;
            let left = hp - counts[k] as i128;
            if left < i32::MIN as i128 {
                proof {
                    assert(self.enemies@[k as int].hp - hits_on(rows_of(overlaps@), k as int) < i32::MIN);
                }
                return false;
            }
            proof {
                assert(e0.take(k + 1).drop_last() =~= e0.take(k as int));
                assert(fin.take(k + 1).drop_last() =~= fin.take(k as int));
                assert(fin[k as int].hp == left);
            }
            if hp >= 1 && left <= 0 {
                crossed_count = crossed_count + 1;
            }
            k = k + 1;
        }
        proof {
            assert(e0.take(ne as int) =~= e0);
            assert(fin.take(ne as int) =~= fin);
        }
        (self.kills as u128) + (crossed_count as u128) <= u32::MAX as u128
    }

    /// Starts the stage-clear transition when the screen and the wave are both
    /// empty and no transition is running. Returns whether it started.
    pub fn begin_transition_if_cleared(&mut self) -> (started: bool)
        ensures
            started == (old(self).enemies@.len() == 0 && old(self).pending_enemies@.len() == 0
                && !old(self).waiting_next_stage),
            final(self).waiting_next_stage == (old(self).waiting_next_stage || started),
            final(self).stage == old(self).stage,
            final(self).kills == old(self).kills,
            final(self).enemies@ == old(self).enemies@,
            final(self).pending_enemies@ == old(self).pending_enemies@,
            final(self).bullets@ == old(self).bullets@,
    {
        if self.enemies.len() == 0 && self.pending_enemies.len() == 0 && !self.waiting_next_stage {
            self.waiting_next_stage = true;
            true
        } else {
            false
        }
    }

    /// Ends the stage-clear transition and moves to the next stage, or stays
    /// on the last stage. Returns `true` when the last stage had already been
    /// reached.
    pub fn advance_stage(&mut self) -> (at_last: bool)
        ensures
            at_last == (old(self).stage >= MAX_STAGE),
            final(self).stage == next_stage(old(self).stage),
            final(self).stage == (if old(self).stage < 10 { old(self).stage + 1 } else { old(self).stage as int }),
            !final(self).waiting_next_stage,
            final(self).kills == old(self).kills,
            final(self).enemies@ == old(self).enemies@,
            final(self).pending_enemies@ == old(self).pending_enemies@,
            final(self).bullets@ == old(self).bullets@,
            old(self).wf() ==> final(self).wf(),
            final(self).stage >= old(self).stage,
    {
        self.waiting_next_stage = false;
        if self.stage < MAX_STAGE {
            self.stage = self.stage + 1;
            false
        } else {
            true
        }
    }

    /// Clears the screen of enemies and lines up `wave` to enter.
    pub fn load_wave(&mut self, wave: VecDeque<Enemy<E>>)
        ensures
            final(self).enemies@.len() == 0,
            final(self).pending_enemies@ == wave@,
            final(self).stage == old(self).stage,
            final(self).kills == old(self).kills,
            final(self).bullets@ == old(self).bullets@,
            final(self).waiting_next_stage == old(self).waiting_next_stage,
    {
        self.enemies.clear();
        self.pending_enemies = wave;
    }
}


/// Enemy shots meet the player. `hits` has one flag per enemy shot (from the
/// caller's hitboxes); each shot that hits costs the player one hit point
/// (the caller then spends the shot). Returns, per shot, whether it hit and
/// left the player with no hit points, which is when the game reports the
/// player dead.
pub fn handle_enemy_bullet_player_collision<P>(player: &mut Player<P>, hits: &Vec<bool>) -> (deaths: Vec<bool>)
    requires
        old(player).hp > i32::MIN,
    ensures
        deaths@.len() == hits@.len(),
        forall|i: int|
            0 <= i < hits@.len() ==> #[trigger] deaths@[i] == (hits@[i] && old(player).damaged_n(
                true_indices(hits@.take(i + 1)).len(),
            ).hp <= 0),
        *final(player) == old(player).damaged_n(true_indices(hits@).len()),
{
    let n = hits.len();
    let ghost p0 = *old(player);
    let mut deaths: Vec<bool> = Vec::new();
    let mut i: usize = 0;
    while i < n
        invariant
            n == hits@.len(),
            i <= n,
            p0.hp > i32::MIN,
            *player == p0.damaged_n(true_indices(hits@.take(i as int)).len()),
            deaths@.len() == i,
            forall|k: int|
                0 <= k < i ==> #[trigger] deaths@[k] == (hits@[k] && p0.damaged_n(
                    true_indices(hits@.take(k + 1)).len(),
                ).hp <= 0),
        decreases n - i,
    {
        let ghost before = true_indices(hits@.take(i as int));
        proof {
            assert(hits@.take(i + 1) =~= hits@.take(i as int).push(hits@[i as int]));
            lemma_true_indices_push(hits@.take(i as int), hits@[i as int]);
            lemma_damaged_n_floor(p0, before.len());
        }
        if hits[i] {
            let dead = player.damage();
            deaths.push(dead);
        } else {
            deaths.push(false);
        }
        i = i + 1;
    }
    proof {
        assert(hits@.take(n as int) =~= hits@);
    }
    deaths
}

/// Every shot is accounted for: it either flies on or hits exactly one
/// enemy, and each enemy it hits is one it overlaps.
pub proof fn lemma_shots_accounted<B>(bullets: Seq<B>, rows: Seq<Seq<bool>>)
    requires
        bullets.len() == rows.len(),
    ensures
        kept(bullets, missed_flags(rows)).len() + hit_targets(rows).len() == rows.len(),
        forall|k: int| 0 <= k < hit_targets(rows).len() ==> exists|b: int| 0 <= b < rows.len()
            && 0 <= #[trigger] hit_targets(rows)[k] < rows[b].len() && rows[b][hit_targets(rows)[k]],
    decreases rows.len(),
{
    if rows.len() > 0 {
        let n = rows.len() - 1;
        assert(missed_flags(rows).drop_last() =~= missed_flags(rows.drop_last()));
        lemma_shots_accounted(bullets.drop_last(), rows.drop_last());
        lemma_first_true(rows[n]);
        assert forall|k: int| 0 <= k < hit_targets(rows).len() implies exists|b: int| 0 <= b < rows.len()
            && 0 <= #[trigger] hit_targets(rows)[k] < rows[b].len() && rows[b][hit_targets(rows)[k]] by {
            if k < hit_targets(rows.drop_last()).len() {
                let b = choose|b: int| 0 <= b < rows.drop_last().len() && 0 <= #[trigger] hit_targets(rows.drop_last())[k]
                    < rows.drop_last()[b].len() && rows.drop_last()[b][hit_targets(rows.drop_last())[k]];
                assert(rows.drop_last()[b] == rows[b]);
            } else {
                assert(rows[n][hit_targets(rows)[k]]);
            }
        }
    }
}

/// The stage reached after `n` stage-clear transitions from `stage`.
pub open spec fn stage_after(stage: u32, n: nat) -> u32
    decreases n,
{
    if n == 0 { stage } else { next_stage(stage_after(stage, (n - 1) as nat)) }
}

/// Stages advance one at a time up to the last stage and then stay there:
/// after `n` transitions from a valid stage the game is at
/// `min(stage + n, MAX_STAGE)`.
pub proof fn lemma_stage_after(stage: u32, n: nat)
    requires
        1 <= stage <= MAX_STAGE,
    ensures
        stage_after(stage, n) == (if stage + n < MAX_STAGE { stage + n } else { MAX_STAGE as int }),
        1 <= stage_after(stage, n) <= MAX_STAGE,
        stage_after(stage, n) >= stage,
    decreases n,
{
    if n > 0 {
        lemma_stage_after(stage, (n - 1) as nat);
    }
}

/// Row `b` of the overlap table is the caller's row `b`.
pub proof fn lemma_rows_of(v: Seq<Vec<bool>>)
    ensures
        rows_of(v).len() == v.len(),
        forall|b: int| 0 <= b < v.len() ==> #[trigger] rows_of(v)[b] == v[b]@,
{
}

/// A shot flies on exactly when its row overlaps no enemy; otherwise its
/// target is an enemy it overlaps, and it overlaps none before that one.
pub proof fn lemma_missed_flags(rows: Seq<Seq<bool>>)
    ensures
        missed_flags(rows).len() == rows.len(),
        forall|b: int|
            0 <= b < rows.len() ==> (#[trigger] missed_flags(rows)[b] <==> forall|j: int|
                0 <= j < rows[b].len() ==> !rows[b][j]),
        forall|b: int|
            0 <= b < rows.len() && !#[trigger] missed_flags(rows)[b] ==> 0 <= first_true(rows[b]) < rows[b].len()
                && rows[b][first_true(rows[b])],
{
    assert forall|b: int| 0 <= b < rows.len() implies (#[trigger] missed_flags(rows)[b] <==> forall|j: int|
        0 <= j < rows[b].len() ==> !rows[b][j]) by {
        lemma_first_true(rows[b]);
    }
    assert forall|b: int| 0 <= b < rows.len() && !#[trigger] missed_flags(rows)[b] implies 0 <= first_true(rows[b])
        < rows[b].len() && rows[b][first_true(rows[b])] by {
        lemma_first_true(rows[b]);
    }
}

/// The targets are, for the shots that overlap an enemy taken in order, the
/// first enemy each overlaps.
pub proof fn lemma_hit_targets_is_filter(rows: Seq<Seq<bool>>, m: int)
    requires
        0 <= m <= rows.len(),
    ensures
        hit_targets(rows.take(m)) == Seq::new(m as nat, |b: int| b).filter(
            |b: int| first_true(rows[b]) < rows[b].len(),
        ).map_values(|b: int| first_true(rows[b])),
        rows.take(rows.len() as int) == rows,
    decreases m,
{
    assert(rows.take(rows.len() as int) =~= rows);
    let pred = |b: int| first_true(rows[b]) < rows[b].len();
    let ids = Seq::new(m as nat, |b: int| b);
    reveal(Seq::filter);
    if m > 0 {
        lemma_hit_targets_is_filter(rows, m - 1);
        assert(rows.take(m).drop_last() =~= rows.take(m - 1));
        assert(ids.drop_last() =~= Seq::new((m - 1) as nat, |b: int| b));
        assert(ids.last() == m - 1);
        let prev = ids.drop_last().filter(pred);
        assert(ids.filter(pred) == (if pred(ids.last()) { prev.push(ids.last()) } else { prev }));
        if pred(m - 1) {
            assert(prev.push(m - 1).map_values(|b: int| first_true(rows[b])) =~= prev.map_values(
                |b: int| first_true(rows[b]),
            ).push(first_true(rows[m - 1])));
        }
    } else {
        assert(ids.filter(pred) =~= Seq::<int>::empty());
        assert(hit_targets(rows.take(m)) =~= Seq::<int>::empty());
        assert(ids.filter(pred).map_values(|b: int| first_true(rows[b])) =~= Seq::<int>::empty());
    }
}

/// The hits on enemy `e` are the shots whose first overlapped enemy is `e`.
pub proof fn lemma_hits_on_count(rows: Seq<Seq<bool>>, e: int, m: int)
    requires
        0 <= m <= rows.len(),
    ensures
        hits_on(rows.take(m), e) == Seq::new(m as nat, |b: int| b).filter(
            |b: int| first_true(rows[b]) == e && e < rows[b].len(),
        ).len(),
        rows.take(rows.len() as int) == rows,
    decreases m,
{
    assert(rows.take(rows.len() as int) =~= rows);
    let pred = |b: int| first_true(rows[b]) == e && e < rows[b].len();
    let ids = Seq::new(m as nat, |b: int| b);
    reveal(Seq::filter);
    if m > 0 {
        lemma_hits_on_count(rows, e, m - 1);
        assert(rows.take(m).drop_last() =~= rows.take(m - 1));
        assert(ids.drop_last() =~= Seq::new((m - 1) as nat, |b: int| b));
        assert(ids.last() == m - 1);
        assert(ids.filter(pred) == (if pred(ids.last()) {
            ids.drop_last().filter(pred).push(ids.last())
        } else {
            ids.drop_last().filter(pred)
        }));
    } else {
        assert(ids.filter(pred) =~= Seq::<int>::empty());
        assert(rows.take(m) =~= Seq::<Seq<bool>>::empty());
    }
}

/// After the shots every enemy keeps its kind, wobble counter and body, and
/// has lost one hit point per shot that hit it.
pub proof fn lemma_after_shots<E>(enemies: Seq<Enemy<E>>, rows: Seq<Seq<bool>>)
    requires
        forall|e: int| 0 <= e < enemies.len() ==> (#[trigger] enemies[e]).hp - hits_on(rows, e) >= i32::MIN,
    ensures
        after_shots(enemies, rows).len() == enemies.len(),
        forall|e: int|
            0 <= e < enemies.len() ==> {
                let a = #[trigger] after_shots(enemies, rows)[e];
                &&& a.hp == enemies[e].hp - hits_on(rows, e)
                &&& a.kind == enemies[e].kind
                &&& a.wobble_count == enemies[e].wobble_count
                &&& a.body == enemies[e].body
            },
{
    assert forall|e: int| 0 <= e < enemies.len() implies {
        let a = #[trigger] after_shots(enemies, rows)[e];
        &&& a.hp == enemies[e].hp - hits_on(rows, e)
        &&& a.kind == enemies[e].kind
        &&& a.wobble_count == enemies[e].wobble_count
        &&& a.body == enemies[e].body
    } by {
        lemma_hits_on_bound(rows, e);
    }
}

/// A shot hits each enemy at most once, so no enemy takes more hits than
/// there are shots.
pub proof fn lemma_hits_on_bound(rows: Seq<Seq<bool>>, e: int)
    ensures
        0 <= hits_on(rows, e) <= rows.len(),
    decreases rows.len(),
{
    if rows.len() > 0 {
        lemma_hits_on_bound(rows.drop_last(), e);
    }
}

/// A prefix of the shots hits an enemy at most as often as all of them.
pub proof fn lemma_hits_on_prefix(rows: Seq<Seq<bool>>, i: int, e: int)
    requires
        0 <= i <= rows.len(),
    ensures
        hits_on(rows.take(i), e) <= hits_on(rows, e),
    decreases rows.len(),
{
    if i < rows.len() {
        assert(rows.take(i) =~= rows.drop_last().take(i));
        lemma_hits_on_prefix(rows.drop_last(), i, e);
    } else {
        assert(rows.take(i) =~= rows);
    }
}

/// Fewer hit points everywhere means at least as many crossings.
pub proof fn lemma_crossings_mono<E>(before: Seq<Enemy<E>>, a1: Seq<Enemy<E>>, a2: Seq<Enemy<E>>)
    requires
        before.len() == a1.len(),
        before.len() == a2.len(),
        forall|e: int| 0 <= e < before.len() ==> a1[e].hp >= #[trigger] a2[e].hp,
    ensures
        crossings(before, a1) <= crossings(before, a2),
    decreases before.len(),
{
    if before.len() > 0 {
        let n = before.len() - 1;
        assert(a2[n].hp <= a1[n].hp);
        assert forall|e: int| 0 <= e < n implies a1.drop_last()[e].hp >= #[trigger] a2.drop_last()[e].hp by {
            assert(a2.drop_last()[e] == a2[e]);
            assert(a1.drop_last()[e] == a1[e]);
        }
        lemma_crossings_mono(before.drop_last(), a1.drop_last(), a2.drop_last());
    }
}

/// Clean-up keeps exactly the enemies with hit points left, in their order:
/// it is the filter of the enemies by `hp > 0`.
pub proof fn lemma_cleanup_is_filter<E>(s: Seq<Enemy<E>>)
    ensures
        kept(s, alive_flags(s)) == s.filter(|e: Enemy<E>| e.hp > 0),
        kept(s, alive_flags(s)).len() <= s.len(),
        forall|i: int| 0 <= i < s.len() && s[i].hp > 0 ==> kept(s, alive_flags(s)).contains(#[trigger] s[i]),
    decreases s.len(),
{
    let pred = |e: Enemy<E>| e.hp > 0;
    if s.len() > 0 {
        let t = s.drop_last();
        assert(alive_flags(s).drop_last() =~= alive_flags(t));
        assert(alive_flags(s)[s.len() - 1] == (s.last().hp > 0));
        lemma_cleanup_is_filter(t);
        reveal(Seq::filter);
        assert(s.filter(pred) == (if pred(s.last()) {
            t.filter(pred).push(s.last())
        } else {
            t.filter(pred)
        }));
        assert forall|i: int| 0 <= i < s.len() && s[i].hp > 0 implies kept(s, alive_flags(s)).contains(
            #[trigger] s[i],
        ) by {
            if i < s.len() - 1 {
                assert(t[i] == s[i]);
                assert(0 <= i < t.len() && t[i].hp > 0);
                let k = choose|k: int| 0 <= k < kept(t, alive_flags(t)).len() && kept(t, alive_flags(t))[k] == t[i];
                assert(kept(s, alive_flags(s))[k] == s[i]);
            } else {
                let out = kept(s, alive_flags(s));
                assert(out[out.len() - 1] == s[i]);
            }
        }
    } else {
        reveal(Seq::filter);
        assert(kept(s, alive_flags(s)) =~= s.filter(pred));
    }
}

/// A kill is counted for an enemy exactly when its hit points go from at
/// least one to none: an enemy still alive afterwards, or already dead
/// before, never counts.
pub proof fn lemma_crossed(hp_before: int, hp_after: int)
    ensures
        hp_after >= 1 ==> crossed(hp_before, hp_after) == 0,
        hp_before <= 0 ==> crossed(hp_before, hp_after) == 0,
        hp_before >= 1 && hp_after <= 0 ==> crossed(hp_before, hp_after) == 1,
{
}

/// The number of crossings is the number of positions whose enemy goes from
/// at least one hit point in `before` to none in `after`.
pub proof fn lemma_crossings_count<E>(before: Seq<Enemy<E>>, after: Seq<Enemy<E>>)
    requires
        before.len() == after.len(),
    ensures
        crossings(before, after) == Seq::new(before.len(), |i: int| i).filter(
            |i: int| before[i].hp >= 1 && after[i].hp <= 0,
        ).len(),
{
    lemma_crossings_count_upto(before, after, before.len() as int);
    assert(before.take(before.len() as int) =~= before);
    assert(after.take(before.len() as int) =~= after);
}

/// `lemma_crossings_count` on the first `m` enemies.
pub proof fn lemma_crossings_count_upto<E>(before: Seq<Enemy<E>>, after: Seq<Enemy<E>>, m: int)
    requires
        before.len() == after.len(),
        0 <= m <= before.len(),
    ensures
        crossings(before.take(m), after.take(m)) == Seq::new(m as nat, |i: int| i).filter(
            |i: int| before[i].hp >= 1 && after[i].hp <= 0,
        ).len(),
    decreases m,
{
    let pred = |i: int| before[i].hp >= 1 && after[i].hp <= 0;
    let ids = Seq::new(m as nat, |i: int| i);
    if m > 0 {
        lemma_crossings_count_upto(before, after, m - 1);
        assert(before.take(m).drop_last() =~= before.take(m - 1));
        assert(after.take(m).drop_last() =~= after.take(m - 1));
        assert(ids.drop_last() =~= Seq::new((m - 1) as nat, |i: int| i));
        assert(ids.last() == m - 1);
        reveal(Seq::filter);
        assert(ids.filter(pred) == (if pred(ids.last()) {
            ids.drop_last().filter(pred).push(ids.last())
        } else {
            ids.drop_last().filter(pred)
        }));
    } else {
        reveal(Seq::filter);
        assert(ids.filter(pred) =~= Seq::<int>::empty());
        assert(before.take(m) =~= Seq::<Enemy<E>>::empty());
    }
}

/// Counting crossings after one enemy's hit points change.
pub proof fn lemma_crossings_update<E>(before: Seq<Enemy<E>>, after: Seq<Enemy<E>>, j: int, x: Enemy<E>)
    requires
        before.len() == after.len(),
        0 <= j < before.len(),
    ensures
        crossings(before, after.update(j, x)) + crossed(before[j].hp as int, after[j].hp as int)
            == crossings(before, after) + crossed(before[j].hp as int, x.hp as int),
    decreases before.len(),
{
    let n = before.len() - 1;
    if j < n {
        assert(after.update(j, x).drop_last() =~= after.drop_last().update(j, x));
        lemma_crossings_update(before.drop_last(), after.drop_last(), j, x);
    } else {
        assert(after.update(j, x).drop_last() =~= after.drop_last());
    }
}

/// No enemy crosses when nothing changed.
pub proof fn lemma_crossings_same<E>(s: Seq<Enemy<E>>)
    ensures
        crossings(s, s) == 0,
    decreases s.len(),
{
    if s.len() > 0 {
        lemma_crossings_same(s.drop_last());
    }
}

/// Every enemy kept by the clean-up has hit points left.
pub proof fn lemma_kept_alive<E>(s: Seq<Enemy<E>>)
    ensures
        forall|i: int|
            0 <= i < kept(s, alive_flags(s)).len() ==> #[trigger] kept(s, alive_flags(s))[i].hp > 0,
    decreases s.len(),
{
    if s.len() > 0 {
        let t = s.drop_last();
        assert(alive_flags(s).drop_last() =~= alive_flags(t));
        lemma_kept_alive(t);
    }
}

} // verus!
