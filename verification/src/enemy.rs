use vstd::prelude::*;

use crate::rng::random_below;

verus! {

/// Number of frames between two changes of a falling enemy's horizontal target.
pub const WOBBLE_PERIOD: u32 = 40;

/// The four kinds of enemy that a wave can hold.
#[derive(Clone, Copy, PartialEq, Eq, Structural, Debug)]
pub enum EnemyKind {
    Normal,
    Red,
    MiniBoss,
    Boss,
}

/// How an enemy moves each frame.
#[derive(Clone, Copy, PartialEq, Eq, Structural, Debug)]
pub enum Movement {
    /// Slow horizontal sweep that bounces off the side walls (the boss).
    Sweep,
    /// Steers towards the player and accelerates (the mini-boss).
    Chase,
    /// Falls down the screen, wobbling towards a random horizontal target.
    Fall,
}

/// Starting hit points of an enemy of the given kind.
pub open spec fn kind_hp(kind: EnemyKind) -> i32 {
    match kind {
        EnemyKind::Normal => 1,
        EnemyKind::Red => 2,
        EnemyKind::MiniBoss => 8,
        EnemyKind::Boss => 30,
    }
}

/// Starting hit points of an enemy of the given kind.
pub fn hp_for_kind(kind: EnemyKind) -> (hp: i32)
    ensures
        hp == kind_hp(kind),
{
    match kind {
        EnemyKind::Normal => 1,
        EnemyKind::Red => 2,
        EnemyKind::MiniBoss => 8,
        EnemyKind::Boss => 30,
    }
}

/// The movement pattern that the enemy's kind selects.
pub open spec fn kind_movement(kind: EnemyKind) -> Movement {
    match kind {
        EnemyKind::Boss => Movement::Sweep,
        EnemyKind::MiniBoss => Movement::Chase,
        _ => Movement::Fall,
    }
}

/// The movement pattern that the enemy's kind selects.
pub fn movement_for_kind(kind: EnemyKind) -> (m: Movement)
    ensures
        m == kind_movement(kind),
{
    match kind {
        EnemyKind::Boss => Movement::Sweep,
        EnemyKind::MiniBoss => Movement::Chase,
        _ => Movement::Fall,
    }
}

/// Small enemies (normal and red) are destroyed when they ram the player;
/// the mini-boss and the boss survive the contact.
pub open spec fn kind_dies_on_contact(kind: EnemyKind) -> bool {
    kind == EnemyKind::Normal || kind == EnemyKind::Red
}

/// Whether an enemy of this kind is destroyed when it rams the player.
pub fn dies_on_contact(kind: EnemyKind) -> (r: bool)
    ensures
        r == kind_dies_on_contact(kind),
{
    match kind {
        EnemyKind::Normal | EnemyKind::Red => true,
        _ => false,
    }
}

/// Whether an enemy of this kind that leaves the bottom of the screen is sent
/// back to the top: every kind but the mini-boss and the boss.
pub fn recycles_offscreen(kind: EnemyKind) -> (r: bool)
    ensures
        r == (kind != EnemyKind::MiniBoss && kind != EnemyKind::Boss),
{
    match kind {
        EnemyKind::MiniBoss | EnemyKind::Boss => false,
        _ => true,
    }
}


/// Layout of an enemy's sprite sheet, in texture pixels: the size of one
/// animation frame and of the whole sheet (frames side by side).
#[derive(Clone, Copy, PartialEq, Eq, Structural, Debug)]
pub struct SpriteSheet {
    pub frame_w: u32,
    pub frame_h: u32,
    pub sheet_w: u32,
    pub sheet_h: u32,
}

/// The texture and sprite-sheet layout used to draw an enemy.
pub struct EnemyVisual<T> {
    pub texture: T,
    pub sheet: SpriteSheet,
}

/// The sheet layout of a kind: the boss has four 32x32 frames, the other
/// kinds two 16x16 frames.
pub open spec fn kind_sheet(kind: EnemyKind) -> SpriteSheet {
    match kind {
        EnemyKind::Boss => SpriteSheet { frame_w: 32, frame_h: 32, sheet_w: 128, sheet_h: 32 },
        _ => SpriteSheet { frame_w: 16, frame_h: 16, sheet_w: 32, sheet_h: 16 },
    }
}

/// The kind table: normal 1 hit point, red 2, mini-boss 8, boss 30; the
/// boss sweeps, the mini-boss chases, normal and red enemies fall; only the
/// normal and red enemies die when they ram the player, and hit points grow
/// with the kind's rank.
pub proof fn lemma_kind_rules(kind: EnemyKind)
    ensures
        kind == EnemyKind::Normal ==> kind_hp(kind) == 1,
        kind == EnemyKind::Red ==> kind_hp(kind) == 2,
        kind == EnemyKind::MiniBoss ==> kind_hp(kind) == 8,
        kind == EnemyKind::Boss ==> kind_hp(kind) == 30,
        kind_hp(kind) >= 1,
        kind_hp(EnemyKind::Normal) < kind_hp(EnemyKind::Red) < kind_hp(EnemyKind::MiniBoss) < kind_hp(
            EnemyKind::Boss,
        ),
        (kind_movement(kind) == Movement::Sweep) == (kind == EnemyKind::Boss),
        (kind_movement(kind) == Movement::Chase) == (kind == EnemyKind::MiniBoss),
        (kind_movement(kind) == Movement::Fall) == (kind == EnemyKind::Normal || kind == EnemyKind::Red),
        kind_dies_on_contact(kind) == (kind != EnemyKind::MiniBoss && kind != EnemyKind::Boss),
{
}

/// Only the boss has the large sheet (four 32x32 frames); the normal, red
/// and mini-boss enemies share the small one (two 16x16 frames); sheets are
/// one frame high.
pub proof fn lemma_kind_sheet(kind: EnemyKind)
    ensures
        kind == EnemyKind::Boss ==> kind_sheet(kind) == (SpriteSheet { frame_w: 32, frame_h: 32, sheet_w: 128, sheet_h: 32 }),
        kind != EnemyKind::Boss ==> kind_sheet(kind) == (SpriteSheet { frame_w: 16, frame_h: 16, sheet_w: 32, sheet_h: 16 }),
        kind_sheet(kind).sheet_h == kind_sheet(kind).frame_h,
{
}

/// Picks the texture of the enemy's kind among the four given, with the
/// sheet layout of that kind.
pub fn visual_por_kind<T>(
    kind: EnemyKind,
    normal_texture: T,
    red_texture: T,
    miniboss_texture: T,
    boss_texture: T,
) -> (v: EnemyVisual<T>)
    ensures
        v.texture == (match kind {
            EnemyKind::Normal => normal_texture,
            EnemyKind::Red => red_texture,
            EnemyKind::MiniBoss => miniboss_texture,
            EnemyKind::Boss => boss_texture,
        }),
        v.sheet == kind_sheet(kind),
        kind == EnemyKind::Boss ==> v.sheet.frame_w == 32 && v.sheet.frame_h == 32 && v.sheet.sheet_w == 128
            && v.sheet.sheet_h == 32,
        kind != EnemyKind::Boss ==> v.sheet.frame_w == 16 && v.sheet.frame_h == 16 && v.sheet.sheet_w == 32
            && v.sheet.sheet_h == 16,
{
    let small = SpriteSheet { frame_w: 16, frame_h: 16, sheet_w: 32, sheet_h: 16 };
    match kind {
        EnemyKind::Normal => EnemyVisual { texture: normal_texture, sheet: small },
        EnemyKind::Red => EnemyVisual { texture: red_texture, sheet: small },
        EnemyKind::MiniBoss => EnemyVisual { texture: miniboss_texture, sheet: small },
        EnemyKind::Boss => EnemyVisual {
            texture: boss_texture,
            sheet: SpriteSheet { frame_w: 32, frame_h: 32, sheet_w: 128, sheet_h: 32 },
        },
    }
}

/// An enemy: its kind, its hit points and its wobble counter. `body` holds
/// what the caller keeps for it (position, speed, sprite), which the rules
/// here never read.
pub struct Enemy<E> {
    pub kind: EnemyKind,
    pub hp: i32,
    pub wobble_count: u32,
    pub body: E,
}

impl<E> Enemy<E> {
    /// The wobble counter is below its period.
    pub open spec fn wf(&self) -> bool {
        self.wobble_count < WOBBLE_PERIOD
    }

    /// A new enemy of the given kind, at full hit points for its kind, with
    /// its wobble counter started at a random point of its period.
    pub fn new(kind: EnemyKind, body: E) -> (e: Self)
        ensures
            e.kind == kind,
            e.hp == kind_hp(kind),
            e.wobble_count < WOBBLE_PERIOD,
            e.wobble_count < 40,
            e.body == body,
            e.wf(),
    {
        let wobble_count = random_below(WOBBLE_PERIOD);
        Self::with_wobble(kind, wobble_count, body)
    }

    /// A new enemy of the given kind, at full hit points for its kind, with
    /// its wobble counter at `wobble_count`.
    pub fn with_wobble(kind: EnemyKind, wobble_count: u32, body: E) -> (e: Self)
        ensures
            e.kind == kind,
            e.hp == kind_hp(kind),
            e.wobble_count == wobble_count,
            e.body == body,
    {
        let hp = hp_for_kind(kind);
        Enemy { kind, hp, wobble_count, body }
    }

    /// One frame of the wobble counter of a falling enemy. Returns `true` when
    /// the counter completes its period and starts over, which is when the
    /// enemy picks a new horizontal target.
    pub fn tick_wobble(&mut self) -> (retarget: bool)
        requires
            old(self).wobble_count < u32::MAX,
        ensures
            retarget == (old(self).wobble_count + 1 >= WOBBLE_PERIOD),
            retarget == (old(self).wobble_count + 1 >= 40),
            final(self).wobble_count == (if retarget { 0 } else { old(self).wobble_count + 1 }),
            final(self).kind == old(self).kind,
            final(self).hp == old(self).hp,
            final(self).body == old(self).body,
            old(self).wf() ==> final(self).wf(),
    {
        self.wobble_count = self.wobble_count + 1;
        if self.wobble_count >= WOBBLE_PERIOD {
            self.wobble_count = 0;
            true
        } else {
            false
        }
    }
}

} // verus!
