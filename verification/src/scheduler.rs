//! The periodic scheduler: seeding once at startup, then reports whenever
//! the interval timer completes.

use crate::attribute::Tag;
use crate::error::{DuplicateAttributeError, MissingAttributeError};
use crate::plugins::{init_spec, InitPlugin, ListPlugin, LIST_INTERVAL};
use crate::systems::{add_npcs_spec, is_listing, npc_kinds, player_kinds};
use crate::timer::IntervalTimer;
use crate::world::World;
use vstd::prelude::*;

verus! {

/// The systems that the scheduler runs.
#[derive(Clone, Copy, Debug, PartialEq, Eq, Structural)]
pub enum System {
    /// Creates the non-player characters.
    AddNpcs,
    /// Creates the players.
    AddPlayers,
    /// Lists the non-player characters.
    ListNpcs,
    /// Lists the players.
    ListPlayers,
}

/// Where the scheduler stands.
#[derive(Clone, Copy, Debug, PartialEq, Eq, Structural)]
pub enum Phase {
    /// Nothing has run yet.
    Startup,
    /// The population has been created; reports are made at each
    /// completed interval.
    Running,
    /// Seeding failed. Nothing runs any more.
    Failed,
}

/// The systems that have run to completion after seeding and `intervals`
/// completed intervals: the two seeding systems, then for each interval
/// the two listing systems.
pub open spec fn running_history(intervals: nat) -> Seq<System>
    decreases intervals,
{
    if intervals == 0 {
        seq![System::AddNpcs, System::AddPlayers]
    } else {
        running_history((intervals - 1) as nat).push(System::ListNpcs).push(System::ListPlayers)
    }
}

/// Runs the pipeline in its fixed order.
pub struct Scheduler {
    phase: Phase,
    timer: IntervalTimer,
    intervals: Ghost<nat>,
    history: Ghost<Seq<System>>,
}

impl Scheduler {
    /// Where the scheduler stands.
    pub closed spec fn phase_spec(&self) -> Phase {
        self.phase
    }

    /// The interval timer. It belongs to the scheduler alone.
    pub closed spec fn timer_spec(&self) -> IntervalTimer {
        self.timer
    }

    /// The systems that have run to completion so far, in the order in
    /// which they ran.
    pub closed spec fn history(&self) -> Seq<System> {
        self.history@
    }

    /// The number of intervals that have been completed and reported.
    pub closed spec fn intervals(&self) -> nat {
        self.intervals@
    }

    /// The timer's completion flag is down between two ticks, and the
    /// history is one that the pipeline allows: empty before startup; after
    /// a successful startup the two seeding systems and then the two
    /// listing systems once for each completed interval; after a failed
    /// startup at most the first seeding system. This holds of every
    /// scheduler that a program can have.
    #[verifier::type_invariant]
    pub closed spec fn wf(&self) -> bool {
        &&& self.timer.wf()
        &&& !self.timer.just_finished_spec()
        &&& match self.phase {
            Phase::Startup => self.history@ == Seq::<System>::empty(),
            Phase::Running => self.history@ == running_history(self.intervals@),
            Phase::Failed => self.history@ == Seq::<System>::empty() || self.history@
                == seq![System::AddNpcs],
        }
    }

    /// What a well-formed scheduler has run, by its phase.
    pub proof fn lemma_history(&self)
        requires
            self.wf(),
        ensures
            self.timer_spec().wf(),
            !self.timer_spec().just_finished_spec(),
            self.phase_spec() == Phase::Startup ==> self.history() == Seq::<System>::empty(),
            self.phase_spec() == Phase::Running ==> self.history() == running_history(
                self.intervals(),
            ),
            self.phase_spec() == Phase::Failed ==> self.history() == Seq::<System>::empty()
                || self.history() == seq![System::AddNpcs],
    {
    }

    /// A scheduler that reports every `period` time units, before startup.
    pub fn with_period(period: u64) -> (scheduler: Self)
        requires
            period > 0,
        ensures
            scheduler.phase_spec() == Phase::Startup,
            scheduler.timer_spec().period_spec() == period,
            scheduler.timer_spec().elapsed_spec() == 0,
            scheduler.history() == Seq::<System>::empty(),
    {
        let timer = IntervalTimer::new(period);
        proof {
            use_type_invariant(&timer);
        }
        Scheduler {
            phase: Phase::Startup,
            timer,
            intervals: Ghost(0),
            history: Ghost(Seq::empty()),
        }
    }

    /// A scheduler that reports every [`LIST_INTERVAL`] nanoseconds,
    /// before startup.
    pub fn new() -> (scheduler: Self)
        ensures
            scheduler.phase_spec() == Phase::Startup,
            scheduler.timer_spec().period_spec() == LIST_INTERVAL,
            scheduler.timer_spec().elapsed_spec() == 0,
            scheduler.history() == Seq::<System>::empty(),
    {
        let timer = ListPlugin.timer();
        proof {
            use_type_invariant(&timer);
        }
        Scheduler {
            phase: Phase::Startup,
            timer,
            intervals: Ghost(0),
            history: Ghost(Seq::empty()),
        }
    }

    /// Where the scheduler stands.
    pub fn phase(&self) -> (phase: Phase)
        ensures
            phase == self.phase_spec(),
    {
        self.phase
    }

    /// A copy of the interval timer, to look at.
    pub fn timer(&self) -> (timer: IntervalTimer)
        ensures
            timer == self.timer_spec(),
    {
        self.timer
    }

    /// Runs the startup stage, once: creates the non-player characters,
    /// then the players.
    ///
    /// Before startup, the stage runs and the scheduler goes on to
    /// [`Phase::Running`] if seeding went through, and to [`Phase::Failed`]
    /// with the error if it did not. In a complete world, such as an empty
    /// one, seeding goes through. In any other phase nothing happens.
    pub fn startup(&mut self, world: &mut World) -> (result: Result<(), DuplicateAttributeError>)
        ensures
            final(self).timer_spec() == old(self).timer_spec(),
            old(self).phase_spec() != Phase::Startup ==> {
                &&& result is Ok
                &&& final(self).phase_spec() == old(self).phase_spec()
                &&& final(self).history() == old(self).history()
                &&& final(self).intervals() == old(self).intervals()
                &&& final(world).registry@ == old(world).registry@
                &&& final(world).store@ == old(world).store@
            },
            old(self).phase_spec() == Phase::Startup ==> {
                let outcome = init_spec(old(world).registry@, old(world).store@);
                &&& final(world).registry@ == outcome.0
                &&& final(world).store@ == outcome.1
                &&& match result {
                    Ok(()) => {
                        &&& outcome.2 is None
                        &&& final(self).phase_spec() == Phase::Running
                        &&& final(self).intervals() == 0
                        &&& final(self).history() == seq![System::AddNpcs, System::AddPlayers]
                    },
                    Err(error) => {
                        &&& outcome.2 == Some(error)
                        &&& final(self).phase_spec() == Phase::Failed
                        &&& final(self).history() == (if add_npcs_spec(
                            old(world).registry@,
                            old(world).store@,
                        ).2 is Some {
                            Seq::<System>::empty()
                        } else {
                            seq![System::AddNpcs]
                        })
                    },
                }
                &&& old(world).is_complete() ==> result is Ok && final(world).is_complete()
            },
    {
        proof {
            use_type_invariant(&*self);
        }
        match self.phase {
            Phase::Startup => {},
            _ => {
                return Ok(());
            },
        }
        let ghost npcs_failed = add_npcs_spec(world.registry@, world.store@).2 is Some;
        match InitPlugin.run(world) {
            Ok(()) => {
                let ghost history = seq![System::AddNpcs, System::AddPlayers];
                *self = Scheduler {
                    phase: Phase::Running,
                    timer: self.timer,
                    intervals: Ghost(0),
                    history: Ghost(history),
                };
                Ok(())
            },
            Err(error) => {
                let ghost history = if npcs_failed {
                    Seq::<System>::empty()
                } else {
                    seq![System::AddNpcs]
                };
                *self = Scheduler {
                    phase: Phase::Failed,
                    timer: self.timer,
                    intervals: Ghost(0),
                    history: Ghost(history),
                };
                Err(error)
            },
        }
    }

    /// One tick: advances the interval timer by the time that has elapsed
    /// since the tick before and, if the timer completed its period on this
    /// tick, lists the non-player characters and then the players.
    ///
    /// The reports come back in the order in which they are to be shown:
    /// none if the interval is not over, else the report on the non-player
    /// characters followed by the report on the players. A report that
    /// fails stands as its error in its place; it does not keep the other
    /// from being made, and later ticks go on as before. The world is only
    /// read. The timer keeps what is left over after a completed period,
    /// and its completion flag is down again when the tick returns.
    ///
    /// Outside [`Phase::Running`], that is before seeding has completed or
    /// after it has failed, a tick does nothing.
    pub fn tick(&mut self, world: &World, elapsed: u64) -> (reports: Vec<
        Result<String, MissingAttributeError>,
    >)
        ensures
            final(self).phase_spec() == old(self).phase_spec(),
            final(self).timer_spec().period_spec() == old(self).timer_spec().period_spec(),
            old(self).phase_spec() != Phase::Running ==> {
                &&& reports@.len() == 0
                &&& final(self).timer_spec() == old(self).timer_spec()
                &&& final(self).history() == old(self).history()
                &&& final(self).intervals() == old(self).intervals()
            },
            old(self).phase_spec() == Phase::Running ==> {
                let timer = old(self).timer_spec();
                let completed = timer.elapsed_spec() + elapsed >= timer.period_spec();
                &&& final(self).timer_spec().elapsed_spec() == (timer.elapsed_spec() + elapsed) % (
                timer.period_spec() as int)
                &&& !completed ==> {
                    &&& reports@.len() == 0
                    &&& final(self).history() == old(self).history()
                    &&& final(self).intervals() == old(self).intervals()
                }
                &&& completed ==> {
                    &&& reports@.len() == 2
                    &&& is_listing(
                        world.registry@,
                        world.store@,
                        Tag::NonPlayer,
                        npc_kinds(),
                        "NPCs"@,
                        reports@[0],
                    )
                    &&& is_listing(
                        world.registry@,
                        world.store@,
                        Tag::Player,
                        player_kinds(),
                        "PLAYERS"@,
                        reports@[1],
                    )
                    &&& (world.is_complete() ==> reports@[0] is Ok && reports@[1] is Ok)
                    &&& final(self).history() == old(self).history().push(System::ListNpcs).push(
                        System::ListPlayers,
                    )
                    &&& final(self).intervals() == old(self).intervals() + 1
                }
            },
    {
        proof {
            use_type_invariant(&*self);
        }
        match self.phase {
            Phase::Running => {},
            _ => {
                return Vec::new();
            },
        }
        let mut timer = self.timer;
        if timer.advance(elapsed) {
            let reports = ListPlugin.run(world);
            timer.acknowledge();
            proof {
                use_type_invariant(&timer);
            }
            *self = Scheduler {
                phase: Phase::Running,
                timer,
                intervals: Ghost(self.intervals@ + 1),
                history: Ghost(self.history@.push(System::ListNpcs).push(System::ListPlayers)),
            };
            reports
        } else {
            proof {
                use_type_invariant(&timer);
            }
            *self = Scheduler {
                phase: Phase::Running,
                timer,
                intervals: Ghost(self.intervals@),
                history: Ghost(self.history@),
            };
            Vec::new()
        }
    }

    /// The players are never listed before the non-player characters of
    /// the same interval: in the history of a well-formed scheduler, a
    /// listing of the players comes directly behind a listing of the
    /// non-player characters, and each listing of the non-player
    /// characters is directly followed by one of the players.
    pub proof fn lemma_players_listed_after_npcs(&self)
        requires
            self.wf(),
        ensures
            forall|i: int|
                0 <= i < self.history().len() && #[trigger] self.history()[i]
                    == System::ListPlayers ==> i > 0 && self.history()[i - 1] == System::ListNpcs,
            forall|i: int|
                0 <= i < self.history().len() && #[trigger] self.history()[i] == System::ListNpcs
                    ==> i + 1 < self.history().len() && self.history()[i + 1]
                    == System::ListPlayers,
    {
        if self.phase == Phase::Running {
            lemma_running_history(self.intervals@);
        }
    }

    /// Nothing is listed before both seeding systems have completed: if
    /// the history of a well-formed scheduler holds a listing, it starts
    /// with the creation of the non-player characters followed by the
    /// creation of the players, and the listing comes behind them.
    pub proof fn lemma_listing_follows_seeding(&self)
        requires
            self.wf(),
        ensures
            forall|i: int|
                0 <= i < self.history().len() && (#[trigger] self.history()[i] == System::ListNpcs
                    || self.history()[i] == System::ListPlayers) ==> i >= 2 && self.history()[0]
                    == System::AddNpcs && self.history()[1] == System::AddPlayers,
    {
        if self.phase == Phase::Running {
            lemma_running_history(self.intervals@);
        }
    }
}

/// The shape of the history after seeding and any number of completed
/// intervals: the two seeding systems in order, then the listing systems
/// in alternation, the non-player characters first.
pub proof fn lemma_running_history(intervals: nat)
    ensures
        running_history(intervals).len() == 2 + 2 * intervals,
        running_history(intervals)[0] == System::AddNpcs,
        running_history(intervals)[1] == System::AddPlayers,
        forall|i: int|
            2 <= i < running_history(intervals).len() ==> #[trigger] running_history(intervals)[i]
                == (if i % 2 == 0 {
                System::ListNpcs
            } else {
                System::ListPlayers
            }),
    decreases intervals,
{
    if intervals > 0 {
        lemma_running_history((intervals - 1) as nat);
    }
}

} // verus!
