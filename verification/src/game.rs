use vstd::prelude::*;

verus! {

/// An attempt at a level: up to five shots, recorded in the order they
/// were taken.
pub struct Attempt<M> {
    pub first: Option<M>,
    pub second: Option<M>,
    pub third: Option<M>,
    pub fourth: Option<M>,
    pub fifth: Option<M>,
}

/// Which shot the player is on: shots are numbered from 1; once the
/// number reaches 6 the attempt is over.
pub struct Donde {
    pub shot: u8,
}

/// The slot of an attempt that holds shot number `shot`.
pub open spec fn slot_of<M>(a: Attempt<M>, shot: u8) -> Option<M> {
    if shot == 1 {
        a.first
    } else if shot == 2 {
        a.second
    } else if shot == 3 {
        a.third
    } else if shot == 4 {
        a.fourth
    } else if shot == 5 {
        a.fifth
    } else {
        None
    }
}

/// The attempt with shot number `shot` recorded as `m` (an attempt has no
/// slot for numbers other than 1 to 5).
pub open spec fn with_shot<M>(a: Attempt<M>, shot: u8, m: M) -> Attempt<M> {
    if shot == 1 {
        Attempt { first: Some(m), ..a }
    } else if shot == 2 {
        Attempt { second: Some(m), ..a }
    } else if shot == 3 {
        Attempt { third: Some(m), ..a }
    } else if shot == 4 {
        Attempt { fourth: Some(m), ..a }
    } else if shot == 5 {
        Attempt { fifth: Some(m), ..a }
    } else {
        a
    }
}

/// What the replay of a recorded attempt does in one step.
pub enum Replay<'a, M> {
    /// Fire this recorded shot.
    Shoot(&'a M),
    /// This shot was not recorded.
    Skip,
    /// The attempt is over: leave.
    Exit,
    /// Past the end of the attempt.
    Idle,
}

impl<M> Attempt<M> {
    /// An attempt with no shot yet.
    pub fn new() -> (a: Attempt<M>)
        ensures
            forall|s: u8| slot_of(a, s) is None,
    {
        Attempt { first: None, second: None, third: None, fourth: None, fifth: None }
    }

    /// The recorded shot of number `shot`, if any.
    pub fn shot(&self, shot: u8) -> (r: Option<&M>)
        ensures
            r == match slot_of(*self, shot) {
                Some(m) => Some(&m),
                None => None,
            },
            shot == 1 ==> r == match self.first {
                Some(m) => Some(&m),
                None => None,
            },
            shot == 2 ==> r == match self.second {
                Some(m) => Some(&m),
                None => None,
            },
            shot == 3 ==> r == match self.third {
                Some(m) => Some(&m),
                None => None,
            },
            shot == 4 ==> r == match self.fourth {
                Some(m) => Some(&m),
                None => None,
            },
            shot == 5 ==> r == match self.fifth {
                Some(m) => Some(&m),
                None => None,
            },
            shot == 0 || shot > 5 ==> r is None,
    {
        let slot = if shot == 1 {
            &self.first
        } else if shot == 2 {
            &self.second
        } else if shot == 3 {
            &self.third
        } else if shot == 4 {
            &self.fourth
        } else if shot == 5 {
            &self.fifth
        } else {
            return None;
        };
        match slot {
            Some(m) => Some(m),
            None => None,
        }
    }
}

impl Donde {
    /// The first shot of an attempt.
    pub fn new() -> (d: Donde)
        ensures
            d.shot == 1,
    {
        Donde { shot: 1 }
    }

    /// Whether the attempt is over (the player has taken its five shots).
    pub fn attempt_over(&self) -> (r: bool)
        ensures
            r == (self.shot == 6),
    {
        self.shot == 6
    }

    /// Records the shot just taken in the slot of the current shot number
    /// (nothing is stored past the fifth) and moves on to the next number.
    pub fn take_shot<M>(&mut self, attempt: &mut Attempt<M>, m: M)
        requires
            old(self).shot < 255,
        ensures
            final(self).shot == old(self).shot + 1,
            *final(attempt) == with_shot(*old(attempt), old(self).shot, m),
            old(self).shot == 1 ==> final(attempt).first == Some(m),
            old(self).shot != 1 ==> final(attempt).first == old(attempt).first,
            old(self).shot == 2 ==> final(attempt).second == Some(m),
            old(self).shot != 2 ==> final(attempt).second == old(attempt).second,
            old(self).shot == 3 ==> final(attempt).third == Some(m),
            old(self).shot != 3 ==> final(attempt).third == old(attempt).third,
            old(self).shot == 4 ==> final(attempt).fourth == Some(m),
            old(self).shot != 4 ==> final(attempt).fourth == old(attempt).fourth,
            old(self).shot == 5 ==> final(attempt).fifth == Some(m),
            old(self).shot != 5 ==> final(attempt).fifth == old(attempt).fifth,
    {
        if self.shot == 1 {
            attempt.first = Some(m);
        } else if self.shot == 2 {
            attempt.second = Some(m);
        } else if self.shot == 3 {
            attempt.third = Some(m);
        } else if self.shot == 4 {
            attempt.fourth = Some(m);
        } else if self.shot == 5 {
            attempt.fifth = Some(m);
        }
        self.shot = self.shot + 1;
    }

    /// One step of replaying a recorded attempt: fires the shot of the
    /// current number when it was recorded, leaves at number 6, and moves
    /// on to the next number.
    pub fn replay_step<'a, M>(&mut self, attempt: &'a Attempt<M>) -> (r: Replay<'a, M>)
        requires
            old(self).shot < 255,
        ensures
            final(self).shot == old(self).shot + 1,
            1 <= old(self).shot <= 5 ==> (match slot_of(*attempt, old(self).shot) {
                Some(m) => r == Replay::Shoot(&m),
                None => r is Skip,
            }),
            old(self).shot == 6 ==> r is Exit,
            (old(self).shot == 0 || old(self).shot > 6) ==> r is Idle,
    {
        let shot = self.shot;
        self.shot = shot + 1;
        if shot == 6 {
            Replay::Exit
        } else if 1 <= shot && shot <= 5 {
            match attempt.shot(shot) {
                Some(m) => Replay::Shoot(m),
                None => Replay::Skip,
            }
        } else {
            Replay::Idle
        }
    }
}

/// Whether the mouse button has been released (`Yes`) or the player is
/// dragging to aim (`No`).
pub enum BoolReleased {
    Yes,
    No,
}

/// The aiming state, held as a resource of the game.
pub struct IsReleased {
    pub b: BoolReleased,
}

/// Where the player pressed the button and where it released it.
#[derive(Clone, Copy)]
pub struct MouseResource<P> {
    pub first: P,
    pub second: P,
}

/// One frame of aiming, taken while nothing on the field moves: a press
/// while released starts aiming at the cursor; the next frame releases and,
/// if the cursor is in the window, ends the aim there and returns the shot
/// (from the press to the release) to fire.
pub fn aim<P: Copy>(
    release: &mut IsReleased,
    resource: &mut MouseResource<P>,
    pressed: bool,
    cursor: Option<P>,
) -> (shot: Option<MouseResource<P>>)
    requires
        old(release).b is Yes && pressed ==> cursor is Some,
    ensures
        old(release).b is Yes && pressed ==> final(release).b is No && shot is None && *final(resource)
            == (MouseResource { first: cursor->0, second: old(resource).second }),
        old(release).b is Yes && !pressed ==> final(release).b is Yes && shot is None && *final(resource)
            == *old(resource),
        old(release).b is No ==> final(release).b is Yes && match cursor {
            Some(c) => *final(resource) == (MouseResource { first: old(resource).first, second: c })
                && shot == Some(MouseResource { first: old(resource).first, second: c }),
            None => *final(resource) == *old(resource) && shot is None,
        },
{
    match release.b {
        BoolReleased::Yes => {
            if pressed {
                match cursor {
                    Some(c) => {
                        resource.first = c;
                        release.b = BoolReleased::No;
                    },
                    None => {},
                }
            }
            None
        },
        BoolReleased::No => {
            release.b = BoolReleased::Yes;
            match cursor {
                Some(c) => {
                    resource.second = c;
                    Some(MouseResource { first: resource.first, second: c })
                },
                None => None,
            }
        },
    }
}

/// The health a hit takes away.
pub const HIT_DAMAGE: u32 = 20;

/// A player takes a hit: it loses `HIT_DAMAGE` health when it has that
/// much; returns whether the player is dead (health zero) afterwards.
pub fn take_hit(health: &mut u32) -> (killed: bool)
    ensures
        *old(health) >= HIT_DAMAGE ==> *final(health) == *old(health) - HIT_DAMAGE,
        *old(health) < HIT_DAMAGE ==> *final(health) == *old(health),
        killed == (*final(health) == 0),
{
    if *health >= HIT_DAMAGE {
        *health = *health - HIT_DAMAGE;
    }
    *health == 0
}

/// Shot number `n` (1 to 5) lives in the `n`-th field of an attempt, and
/// there is no slot for any other number.
pub proof fn law_shot_slots<M>(a: Attempt<M>, shot: u8)
    ensures
        slot_of(a, 1) == a.first,
        slot_of(a, 2) == a.second,
        slot_of(a, 3) == a.third,
        slot_of(a, 4) == a.fourth,
        slot_of(a, 5) == a.fifth,
        shot == 0 || shot > 5 ==> slot_of(a, shot) is None,
{
}

/// A shot recorded at number `shot` (1 to 5) is the shot that the replay
/// finds at that number, and recording it leaves the other numbers as
/// they were.
pub proof fn law_recorded_shot_is_replayed<M>(a: Attempt<M>, shot: u8, m: M)
    requires
        1 <= shot <= 5,
    ensures
        slot_of(with_shot(a, shot, m), shot) == Some(m),
        forall|other: u8| other != shot ==> slot_of(with_shot(a, shot, m), other) == slot_of(a, other),
{
}

} // verus!
