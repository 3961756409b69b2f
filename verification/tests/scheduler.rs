use yserver::kms::scheduler::batch_descriptor_arena::{
    ArenaAction, ArenaPhase, BatchDescriptorArena, SetOutcome, SAMPLERS_PER_POOL, SETS_PER_POOL,
    STORAGE_PER_POOL, UNIFORMS_PER_POOL,
};
use yserver::kms::scheduler::paint_batch::PaintBatch;

#[test]
fn new_batch_has_empty_output_set() {
    let b = PaintBatch::new(42);
    assert_eq!(b.frame_id, 42);
    assert!(b.dirty_outputs.is_empty());
}

#[test]
fn pools_have_their_sizes() {
    assert_eq!(SETS_PER_POOL, 256);
    assert_eq!(SAMPLERS_PER_POOL, 1024);
    assert_eq!(UNIFORMS_PER_POOL, 256);
    assert_eq!(STORAGE_PER_POOL, 64);
}

#[test]
fn first_set_comes_from_a_new_pool() {
    let mut arena = BatchDescriptorArena::new();
    assert_eq!(arena.allocate_set(), ArenaAction::Grow);
    assert_eq!(arena.grow(true), ArenaAction::Allocate { pool: 0 });
    assert_eq!(arena.on_set(SetOutcome::Allocated), ArenaAction::Done);
    assert_eq!(arena.pools, 1);
    assert_eq!(arena.sets_remaining_in_active, 255);
    assert_eq!(arena.allocate_set(), ArenaAction::Allocate { pool: 0 });
}

#[test]
fn a_used_up_pool_makes_another() {
    let mut arena = BatchDescriptorArena::new();
    for i in 0..256u32 {
        if arena.allocate_set() == ArenaAction::Grow {
            assert_eq!(i, 0);
            arena.grow(true);
        }
        assert_eq!(arena.on_set(SetOutcome::Allocated), ArenaAction::Done);
    }
    assert_eq!(arena.sets_remaining_in_active, 0);
    assert_eq!(arena.allocate_set(), ArenaAction::Grow);
    assert_eq!(arena.grow(true), ArenaAction::Allocate { pool: 1 });
}

#[test]
fn a_full_pool_is_retried_once() {
    let mut arena = BatchDescriptorArena::new();
    arena.allocate_set();
    arena.grow(true);
    arena.on_set(SetOutcome::Allocated);
    assert_eq!(arena.allocate_set(), ArenaAction::Allocate { pool: 0 });
    assert_eq!(arena.on_set(SetOutcome::PoolExhausted), ArenaAction::Grow);
    assert_eq!(arena.sets_remaining_in_active, 0);
    assert_eq!(arena.grow(true), ArenaAction::Allocate { pool: 1 });
    assert_eq!(arena.on_set(SetOutcome::PoolExhausted), ArenaAction::Fail);
    assert_eq!(arena.phase, ArenaPhase::Idle);
    assert_eq!(arena.pools, 2);
    assert_eq!(arena.sets_remaining_in_active, 256);
}

#[test]
fn other_failures_are_reported() {
    let mut arena = BatchDescriptorArena::new();
    assert_eq!(arena.allocate_set(), ArenaAction::Grow);
    assert_eq!(arena.grow(false), ArenaAction::Fail);
    assert_eq!(arena.pools, 0);
    arena.allocate_set();
    arena.grow(true);
    assert_eq!(arena.on_set(SetOutcome::Failed), ArenaAction::Fail);
    assert_eq!(arena.sets_remaining_in_active, 256);
}
