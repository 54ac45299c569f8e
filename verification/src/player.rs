use vstd::prelude::*;

verus! {

/// Hit points the ship starts with.
pub const START_HP: i32 = 4;

/// Number of frames of the animation of a heart that was just lost.
pub const HEART_ANIM_FRAMES: usize = 8;

/// The player's ship: hit points and the state of the HUD animation of the
/// last heart lost. `body` holds what the caller keeps for it (position,
/// sprite, timers, thruster particles), which the rules here never read.
pub struct Player<B> {
    pub hp: i32,
    pub max_hp: i32,
    pub heart_anim_frame: usize,
    /// Index of the heart being animated, or `-1` when none is.
    pub heart_anim_index: i32,
    pub body: B,
}

/// Hit points after one more hit: one fewer, never below zero.
pub open spec fn hp_after_hit(hp: int) -> int {
    if hp - 1 > 0 { hp - 1 } else { 0 }
}

/// Hit points after `n` more hits.
pub open spec fn hp_after_hits(hp: int, n: nat) -> int
    decreases n,
{
    if n == 0 { hp } else { hp_after_hit(hp_after_hits(hp, (n - 1) as nat)) }
}

impl<B> Player<B> {
    /// Hit points within `[0, max_hp]`, the animation frame within the
    /// animation, and the animated heart either none or one of the hearts.
    pub open spec fn wf(&self) -> bool {
        &&& 1 <= self.max_hp
        &&& 0 <= self.hp <= self.max_hp
        &&& self.heart_anim_frame < HEART_ANIM_FRAMES
        &&& -1 <= self.heart_anim_index < self.max_hp
    }

    /// The state after one hit: one hit point fewer (never below zero), and
    /// the heart just lost animated from its first frame.
    pub open spec fn damaged(self) -> Self {
        let hp = hp_after_hit(self.hp as int) as i32;
        Player { hp, heart_anim_index: hp, heart_anim_frame: 0, ..self }
    }

    /// The state after `n` hits.
    pub open spec fn damaged_n(self, n: nat) -> Self
        decreases n,
    {
        if n == 0 { self } else { self.damaged_n((n - 1) as nat).damaged() }
    }

    /// The state after a restart: full hit points and no heart animated.
    pub open spec fn restarted(self) -> Self {
        Player { hp: self.max_hp, heart_anim_frame: 0, heart_anim_index: -1i32, ..self }
    }

    /// A ship at full health (four hit points), with no heart animated.
    pub fn new(body: B) -> (p: Self)
        ensures
            p.hp == START_HP,
            p.max_hp == START_HP,
            p.hp == 4,
            p.max_hp == 4,
            p.heart_anim_frame == 0,
            p.heart_anim_index == -1,
            p.body == body,
            p.wf(),
    {
        Player { hp: START_HP, max_hp: START_HP, heart_anim_frame: 0, heart_anim_index: -1, body }
    }

    /// Takes one hit. Returns `true` when the ship has no hit points left.
    pub fn damage(&mut self) -> (dead: bool)
        requires
            old(self).hp > i32::MIN,
        ensures
            *final(self) == old(self).damaged(),
            final(self).hp == hp_after_hit(old(self).hp as int),
            dead == (final(self).hp <= 0),
            final(self).heart_anim_frame == 0,
            final(self).heart_anim_index == final(self).hp,
            old(self).hp >= 1 ==> final(self).hp == old(self).hp - 1,
            old(self).hp <= 0 ==> final(self).hp == 0,
            final(self).max_hp == old(self).max_hp,
            final(self).body == old(self).body,
            old(self).wf() ==> final(self).wf(),
    {
        let hp = self.hp - 1;
        self.hp = if hp > 0 { hp } else { 0 };
        self.heart_anim_index = self.hp;
        self.heart_anim_frame = 0;
        self.hp <= 0
    }

    /// Restores full hit points and stops the heart animation.
    pub fn reset(&mut self)
        ensures
            *final(self) == old(self).restarted(),
            final(self).hp == old(self).max_hp,
            final(self).max_hp == old(self).max_hp,
            final(self).heart_anim_frame == 0,
            final(self).heart_anim_index == -1,
            final(self).body == old(self).body,
            old(self).wf() ==> final(self).wf(),
    {
        self.heart_anim_frame = 0;
        self.heart_anim_index = -1;
        self.hp = self.max_hp;
    }

    /// Whether a lost heart is being animated.
    pub fn heart_anim_active(&self) -> (r: bool)
        ensures
            r == (self.heart_anim_index >= 0),
    {
        self.heart_anim_index >= 0
    }

    /// One frame of the lost-heart animation has elapsed: moves to the next
    /// frame, and after the last frame stops the animation. Does nothing when
    /// no heart is animated.
    pub fn advance_heart_frame(&mut self)
        requires
            old(self).heart_anim_index >= 0 ==> old(self).heart_anim_frame < usize::MAX,
        ensures
            final(self).hp == old(self).hp,
            final(self).max_hp == old(self).max_hp,
            final(self).body == old(self).body,
            old(self).heart_anim_index < 0 ==> *final(self) == *old(self),
            old(self).heart_anim_index >= 0 && old(self).heart_anim_frame + 1 < HEART_ANIM_FRAMES
                ==> final(self).heart_anim_frame == old(self).heart_anim_frame + 1
                && final(self).heart_anim_index == old(self).heart_anim_index,
            old(self).heart_anim_index >= 0 && old(self).heart_anim_frame + 1 >= HEART_ANIM_FRAMES
                ==> final(self).heart_anim_frame == 0 && final(self).heart_anim_index == -1,
            old(self).heart_anim_index >= 0 && old(self).heart_anim_frame + 1 < 8
                ==> final(self).heart_anim_frame == old(self).heart_anim_frame + 1
                && final(self).heart_anim_index == old(self).heart_anim_index,
            old(self).heart_anim_index >= 0 && old(self).heart_anim_frame + 1 >= 8
                ==> final(self).heart_anim_frame == 0 && final(self).heart_anim_index == -1,
            old(self).wf() ==> final(self).wf(),
    {
        if self.heart_anim_index >= 0 {
            self.heart_anim_frame = self.heart_anim_frame + 1;
            if self.heart_anim_frame >= HEART_ANIM_FRAMES {
                self.heart_anim_frame = 0;
                self.heart_anim_index = -1;
            }
        }
    }
}

/// After `n` hits the ship has `max(hp - n, 0)` hit points, keeps its
/// maximum and its body, and stays well formed.
pub proof fn lemma_damaged_n<B>(p: Player<B>, n: nat)
    requires
        p.wf(),
    ensures
        p.damaged_n(n).hp == (if p.hp - n > 0 { p.hp - n } else { 0 }),
        p.damaged_n(n).hp == hp_after_hits(p.hp as int, n),
        p.damaged_n(n).max_hp == p.max_hp,
        p.damaged_n(n).body == p.body,
        p.damaged_n(n).wf(),
        n > 0 ==> p.damaged_n(n).heart_anim_index == p.damaged_n(n).hp,
        n == 0 ==> p.damaged_n(n) == p,
    decreases n,
{
    if n > 0 {
        lemma_damaged_n(p, (n - 1) as nat);
    }
}

/// Any number of hits leaves the body and the maximum untouched, and at
/// least one hit leaves the hit points at zero or above.
pub proof fn lemma_damaged_n_floor<B>(p: Player<B>, n: nat)
    ensures
        n > 0 ==> p.damaged_n(n).hp >= 0,
        n == 0 ==> p.damaged_n(n) == p,
        p.damaged_n(n).max_hp == p.max_hp,
        p.damaged_n(n).body == p.body,
        p.damaged_n(n + 1) == p.damaged_n(n).damaged(),
    decreases n,
{
    if n > 0 {
        lemma_damaged_n_floor(p, (n - 1) as nat);
    }
}

/// A hit takes exactly one hit point (none below zero) and starts the
/// animation of the heart just lost from its first frame, whatever the
/// animation was doing; so after any positive number of hits the animation
/// is on its first frame, on the heart of the last hit point lost.
pub proof fn lemma_hit_restarts_heart<B>(p: Player<B>, n: nat)
    requires
        n > 0,
    ensures
        p.damaged().heart_anim_frame == 0,
        p.damaged().heart_anim_index == p.damaged().hp,
        p.hp >= 1 ==> p.damaged().hp == p.hp - 1,
        p.hp <= 0 ==> p.damaged().hp == 0,
        p.damaged().max_hp == p.max_hp,
        p.damaged().body == p.body,
        p.damaged_n(n).heart_anim_frame == 0,
        p.damaged_n(n).heart_anim_index == p.damaged_n(n).hp,
{
    let q = p.damaged_n((n - 1) as nat);
    assert(p.damaged_n(n) == q.damaged());
}

/// From full health, the ship survives `max_hp - 1` hits and has no hit
/// points left after `max_hp` hits.
pub proof fn lemma_dies_after_max_hp_hits<B>(p: Player<B>, n: nat)
    requires
        p.wf(),
        p.hp == p.max_hp,
    ensures
        p.damaged_n(n).hp <= 0 <==> n >= p.max_hp,
{
    lemma_damaged_n(p, n);
}

/// A restart after any sequence of hits gives back a ship at full health
/// with no heart animated.
pub proof fn lemma_restart_heals<B>(p: Player<B>, n: nat)
    requires
        p.wf(),
    ensures
        p.restarted().hp == p.max_hp,
        p.restarted().max_hp == p.max_hp,
        p.restarted().heart_anim_frame == 0,
        p.restarted().heart_anim_index == -1,
        p.restarted().body == p.body,
        p.damaged_n(n).restarted().hp == p.max_hp,
        p.damaged_n(n).restarted().heart_anim_index == -1,
        p.damaged_n(n).restarted().wf(),
{
    lemma_damaged_n(p, n);
}

} // verus!
