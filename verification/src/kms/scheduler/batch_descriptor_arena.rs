//! Descriptor sets for one batch of paint work.
//!
//! Sets come from pools of a fixed size. When the active pool is used up another
//! one is made; the sets of earlier pools stay valid until the batch is retired,
//! and then all pools go at once. The graphics driver makes the pools and hands
//! out the sets; this module decides what to ask it for.

use vstd::prelude::*;

verus! {

pub const SETS_PER_POOL: u32 = 256;

pub const SAMPLERS_PER_POOL: u32 = 1024;

pub const UNIFORMS_PER_POOL: u32 = 256;

pub const STORAGE_PER_POOL: u32 = 64;

/// What to ask the driver for.
#[derive(Clone, Copy, Debug, PartialEq, Eq, Structural)]
pub enum ArenaAction {
    /// Make a pool.
    Grow,
    /// Take a set from the pool with this index, which is the newest.
    Allocate { pool: usize },
    /// The set that was taken is the result.
    Done,
    /// Give up and report what the driver said.
    Fail,
}

/// What the driver said to a request for a set.
#[derive(Clone, Copy, Debug, PartialEq, Eq, Structural)]
pub enum SetOutcome {
    Allocated,
    /// The pool is out of memory, or fragmented.
    PoolExhausted,
    Failed,
}

/// Where an allocation stands.
#[derive(Clone, Copy, Debug, PartialEq, Eq, Structural)]
pub enum ArenaPhase {
    Idle,
    /// A pool is being made; `retry` if for a second try.
    Growing { retry: bool },
    /// A set is being taken; `retry` if this is the second try.
    Allocating { retry: bool },
}

/// The books of the arena.
#[derive(Clone, Copy, Debug)]
pub struct BatchDescriptorArena {
    /// How many pools there are.
    pub pools: usize,
    /// About how many sets are left in the newest pool. The driver may run out
    /// of one kind of descriptor before.
    pub sets_remaining_in_active: u32,
    pub phase: ArenaPhase,
}

impl BatchDescriptorArena {
    /// Sets are only left where there is a pool, and a set is only being taken
    /// while some are left.
    pub open spec fn wf(self) -> bool {
        &&& self.sets_remaining_in_active <= SETS_PER_POOL
        &&& self.sets_remaining_in_active > 0 ==> self.pools > 0
        &&& self.phase is Allocating ==> self.sets_remaining_in_active > 0
    }

    /// What to ask for to allocate a set, and the books from then on: the newest
    /// pool, or if nothing is left in it a new one.
    pub open spec fn started(self) -> (ArenaAction, BatchDescriptorArena) {
        if self.sets_remaining_in_active == 0 {
            (
                ArenaAction::Grow,
                BatchDescriptorArena { phase: ArenaPhase::Growing { retry: false }, ..self },
            )
        } else {
            (
                ArenaAction::Allocate { pool: (self.pools - 1) as usize },
                BatchDescriptorArena { phase: ArenaPhase::Allocating { retry: false }, ..self },
            )
        }
    }

    /// The same once the driver has made a pool, or failed to.
    pub open spec fn grown(self, made: bool) -> (ArenaAction, BatchDescriptorArena) {
        if made {
            (
                ArenaAction::Allocate { pool: self.pools },
                BatchDescriptorArena {
                    pools: (self.pools + 1) as usize,
                    sets_remaining_in_active: SETS_PER_POOL,
                    phase: ArenaPhase::Allocating { retry: self.phase->Growing_retry },
                },
            )
        } else {
            (ArenaAction::Fail, BatchDescriptorArena { phase: ArenaPhase::Idle, ..self })
        }
    }

    /// The same once the driver has answered the request for a set.
    pub open spec fn answered(self, outcome: SetOutcome) -> (ArenaAction, BatchDescriptorArena) {
        match outcome {
            SetOutcome::Allocated => (
                ArenaAction::Done,
                BatchDescriptorArena {
                    sets_remaining_in_active: (self.sets_remaining_in_active - 1) as u32,
                    phase: ArenaPhase::Idle,
                    ..self
                },
            ),
            SetOutcome::PoolExhausted if !self.phase->Allocating_retry => (
                ArenaAction::Grow,
                BatchDescriptorArena {
                    sets_remaining_in_active: 0,
                    phase: ArenaPhase::Growing { retry: true },
                    ..self
                },
            ),
            _ => (ArenaAction::Fail, BatchDescriptorArena { phase: ArenaPhase::Idle, ..self }),
        }
    }

    pub fn new() -> (r: Self)
        ensures
            r == (BatchDescriptorArena {
                pools: 0,
                sets_remaining_in_active: 0,
                phase: ArenaPhase::Idle,
            }),
            r.wf(),
    {
        BatchDescriptorArena { pools: 0, sets_remaining_in_active: 0, phase: ArenaPhase::Idle }
    }

    /// Starts to allocate a set: from the newest pool, or if nothing is left in
    /// it from a new one.
    pub fn allocate_set(&mut self) -> (action: ArenaAction)
        requires
            old(self).wf(),
        ensures
            final(self).wf(),
            (action, *final(self)) == old(self).started(),
    {
        if self.sets_remaining_in_active == 0 {
            self.phase = ArenaPhase::Growing { retry: false };
            ArenaAction::Grow
        } else {
            self.phase = ArenaPhase::Allocating { retry: false };
            ArenaAction::Allocate { pool: self.pools - 1 }
        }
    }

    /// The driver made a pool, or failed to.
    pub fn grow(&mut self, made: bool) -> (action: ArenaAction)
        requires
            old(self).wf(),
            old(self).phase is Growing,
            old(self).pools < usize::MAX,
        ensures
            final(self).wf(),
            (action, *final(self)) == old(self).grown(made),
    {
        let retry = match self.phase {
            ArenaPhase::Growing { retry } => retry,
            _ => false,
        };
        if made {
            self.pools = self.pools + 1;
            self.sets_remaining_in_active = SETS_PER_POOL;
            self.phase = ArenaPhase::Allocating { retry };
            ArenaAction::Allocate { pool: self.pools - 1 }
        } else {
            self.phase = ArenaPhase::Idle;
            ArenaAction::Fail
        }
    }

    /// The driver handed out a set, or did not. A pool that is full before its
    /// count says so is given up for a new one, once.
    pub fn on_set(&mut self, outcome: SetOutcome) -> (action: ArenaAction)
        requires
            old(self).wf(),
            old(self).phase is Allocating,
        ensures
            final(self).wf(),
            (action, *final(self)) == old(self).answered(outcome),
    {
        let retry = match self.phase {
            ArenaPhase::Allocating { retry } => retry,
            _ => true,
        };
        match outcome {
            SetOutcome::Allocated => {
                self.sets_remaining_in_active = self.sets_remaining_in_active - 1;
                self.phase = ArenaPhase::Idle;
                ArenaAction::Done
            },
            SetOutcome::PoolExhausted => {
                if retry {
                    self.phase = ArenaPhase::Idle;
                    ArenaAction::Fail
                } else {
                    self.sets_remaining_in_active = 0;
                    self.phase = ArenaPhase::Growing { retry: true };
                    ArenaAction::Grow
                }
            },
            SetOutcome::Failed => {
                self.phase = ArenaPhase::Idle;
                ArenaAction::Fail
            },
        }
    }
}

/// How many more times the driver can be asked before an allocation is over.
pub open spec fn questions_left(phase: ArenaPhase) -> nat {
    match phase {
        ArenaPhase::Idle => 0,
        ArenaPhase::Allocating { retry: true } => 1,
        ArenaPhase::Growing { retry: true } => 2,
        ArenaPhase::Allocating { retry: false } => 3,
        ArenaPhase::Growing { retry: false } => 4,
    }
}

/// Whether the driver has to be asked before the allocation can go on.
pub open spec fn asks(action: ArenaAction) -> bool {
    action is Grow || action is Allocate
}

/// An allocation asks the driver at most four times: every answer leaves fewer
/// questions, and it is over just when nothing more is asked.
pub proof fn lemma_allocation_ends(arena: BatchDescriptorArena, made: bool, outcome: SetOutcome)
    requires
        arena.wf(),
    ensures
        asks(arena.started().0),
        questions_left(arena.started().1.phase) <= 4,
        arena.phase is Growing ==> {
            let (action, after) = arena.grown(made);
            &&& questions_left(after.phase) < questions_left(arena.phase)
            &&& asks(action) <==> !(after.phase is Idle)
        },
        arena.phase is Allocating ==> {
            let (action, after) = arena.answered(outcome);
            &&& questions_left(after.phase) < questions_left(arena.phase)
            &&& asks(action) <==> !(after.phase is Idle)
        },
{
}

/// Pools are never given back, and a set is only ever asked of the newest.
pub proof fn lemma_newest_pool_is_asked(
    arena: BatchDescriptorArena,
    made: bool,
    outcome: SetOutcome,
)
    requires
        arena.wf(),
        arena.pools < usize::MAX,
    ensures
        arena.started().1.pools == arena.pools,
        arena.answered(outcome).1.pools == arena.pools,
        arena.grown(made).1.pools == arena.pools + if made {
            1int
        } else {
            0
        },
        arena.started().0 matches ArenaAction::Allocate { pool } ==> pool == arena.pools - 1,
        arena.grown(made).0 matches ArenaAction::Allocate { pool } ==> pool == arena.grown(
            made,
        ).1.pools - 1,
        !(arena.answered(outcome).0 is Allocate),
{
}

/// A pool has 256 sets. Each one handed out leaves one fewer; the next pool is made
/// when none is left, or once when the driver finds the newest pool used up. A driver
/// that fails, or finds a pool used up that was just made for a second try, ends the
/// allocation and takes no set.
pub proof fn lemma_pools_are_used_up(arena: BatchDescriptorArena, retry: bool)
    requires
        arena.wf(),
        arena.pools < usize::MAX,
    ensures
        arena.started().0 is Grow <==> arena.sets_remaining_in_active == 0,
        arena.started().1.sets_remaining_in_active == arena.sets_remaining_in_active,
        arena.phase == (ArenaPhase::Growing { retry }) ==> {
            let (action, after) = arena.grown(true);
            &&& action is Allocate
            &&& after.sets_remaining_in_active == 256
            &&& after.phase == (ArenaPhase::Allocating { retry })
            &&& arena.grown(false).0 is Fail
            &&& arena.grown(false).1.sets_remaining_in_active == arena.sets_remaining_in_active
        },
        arena.phase == (ArenaPhase::Allocating { retry }) ==> {
            let (done, after) = arena.answered(SetOutcome::Allocated);
            let (full, next) = arena.answered(SetOutcome::PoolExhausted);
            let (failed, kept) = arena.answered(SetOutcome::Failed);
            &&& done is Done && after.phase is Idle
            &&& after.sets_remaining_in_active + 1 == arena.sets_remaining_in_active
            &&& full is Grow <==> !retry
            &&& full is Fail <==> retry
            &&& !retry ==> next.sets_remaining_in_active == 0 && next.phase
                == (ArenaPhase::Growing { retry: true })
            &&& retry ==> next.sets_remaining_in_active == arena.sets_remaining_in_active
                && next.phase is Idle
            &&& failed is Fail && kept.phase is Idle
            &&& kept.sets_remaining_in_active == arena.sets_remaining_in_active
        },
{
}

} // verus!
