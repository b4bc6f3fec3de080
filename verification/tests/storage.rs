use chain_storage::error::StorageError;
use chain_storage::rows::EntityKind;
use chain_storage::rows::Row;
use chain_storage::store::ChainStore;
use chain_storage::store::Mutation;
use chain_storage::store::NewBlock;
use chain_storage::store::NewInput;
use chain_storage::store::NewKernel;
use chain_storage::store::NewOutput;

fn h(tag: u8) -> Vec<u8> {
    let mut v = vec![0u8; 32];
    v[0] = tag;
    v
}

fn out(tag: u8) -> NewOutput {
    NewOutput {
        payload: vec![tag, 1, 2],
        hash: h(tag),
        witness_hash: h(tag.wrapping_add(100)),
    }
}

fn inp(tag: u8) -> NewInput {
    NewInput {
        payload: vec![tag, 9],
        hash: h(tag),
    }
}

fn kern(tag: u8) -> NewKernel {
    NewKernel {
        payload: vec![tag],
        hash: h(tag),
    }
}

#[test]
fn insert_block_assigns_positions_in_order() {
    let mut s = ChainStore::new();
    s.insert_block_rows(&h(200), 1, &vec![out(10), out(11)], &vec![], &vec![kern(30)])
        .unwrap();
    assert_eq!(s.highest_position(EntityKind::Output), Some(1));
    assert_eq!(s.highest_position(EntityKind::Input), None);
    assert_eq!(s.highest_position(EntityKind::Kernel), Some(0));
    let (outs, ins, kerns) = s.fetch_by_block(&h(200));
    assert_eq!(outs.len(), 2);
    assert_eq!(outs[0].mmr_position, 0);
    assert_eq!(outs[1].mmr_position, 1);
    assert_eq!(outs[0].hash, h(10));
    assert_eq!(outs[1].hash, h(11));
    assert_eq!(ins.len(), 0);
    assert_eq!(kerns.len(), 1);
    assert_eq!(kerns[0].mmr_position, 0);
}

#[test]
fn frontier_advances_by_exact_row_count() {
    let mut s = ChainStore::new();
    s.insert_block_rows(&h(200), 1, &vec![out(10), out(11)], &vec![], &vec![])
        .unwrap();
    s.insert_block_rows(&h(201), 2, &vec![out(12), out(13), out(14)], &vec![], &vec![])
        .unwrap();
    assert_eq!(s.highest_position(EntityKind::Output), Some(4));
    for pos in 0..5u32 {
        match s.fetch_by_position(EntityKind::Output, pos) {
            Some(Row::Output(r)) => assert_eq!(r.mmr_position, pos),
            _ => panic!("missing output at position {}", pos),
        }
    }
    assert!(s.fetch_by_position(EntityKind::Output, 5).is_none());
}

#[test]
fn fetch_by_hash_finds_each_kind() {
    let mut s = ChainStore::new();
    s.insert_block_rows(&h(200), 1, &vec![out(10)], &vec![inp(20)], &vec![kern(30)])
        .unwrap();
    assert!(matches!(
        s.fetch_by_hash(EntityKind::Output, &h(10)),
        Some(Row::Output(_))
    ));
    assert!(matches!(
        s.fetch_by_hash(EntityKind::Input, &h(20)),
        Some(Row::Input(_))
    ));
    assert!(matches!(
        s.fetch_by_hash(EntityKind::Kernel, &h(30)),
        Some(Row::Kernel(_))
    ));
    assert!(s.fetch_by_hash(EntityKind::Output, &h(20)).is_none());
}

#[test]
fn prune_clears_payload_keeps_hashes() {
    let mut s = ChainStore::new();
    s.insert_block_rows(&h(200), 1, &vec![out(10), out(11)], &vec![], &vec![])
        .unwrap();
    s.prune_output(&h(10)).unwrap();
    match s.fetch_by_position(EntityKind::Output, 0) {
        Some(Row::Output(r)) => {
            assert!(r.output.is_none());
            assert_eq!(r.hash, h(10));
            assert_eq!(r.witness_hash, h(110));
            assert_eq!(r.header_hash, h(200));
            assert_eq!(r.mined_height, 1);
        }
        _ => panic!("pruned row must still resolve by position"),
    }
    match s.fetch_by_position(EntityKind::Output, 1) {
        Some(Row::Output(r)) => assert_eq!(r.output, Some(vec![11, 1, 2])),
        _ => panic!("untouched row must keep its payload"),
    }
}

#[test]
fn prune_twice_is_a_no_op() {
    let mut s = ChainStore::new();
    s.insert_block_rows(&h(200), 1, &vec![out(10)], &vec![], &vec![])
        .unwrap();
    assert_eq!(s.prune_output(&h(10)), Ok(()));
    let first = match s.fetch_by_position(EntityKind::Output, 0) {
        Some(Row::Output(r)) => r,
        _ => panic!("row missing after first prune"),
    };
    assert_eq!(s.prune_output(&h(10)), Ok(()));
    let second = match s.fetch_by_position(EntityKind::Output, 0) {
        Some(Row::Output(r)) => r,
        _ => panic!("row missing after second prune"),
    };
    assert_eq!(first.output, None);
    assert_eq!(second.output, None);
    assert_eq!(first.header_hash, second.header_hash);
    assert_eq!(first.mmr_position, second.mmr_position);
    assert_eq!(first.hash, second.hash);
    assert_eq!(first.witness_hash, second.witness_hash);
    assert_eq!(first.mined_height, second.mined_height);
}

#[test]
fn prune_unknown_hash_is_not_found() {
    let mut s = ChainStore::new();
    s.insert_block_rows(&h(200), 1, &vec![out(10)], &vec![], &vec![])
        .unwrap();
    assert_eq!(s.prune_output(&h(99)), Err(StorageError::NotFound));
}

#[test]
fn duplicate_insert_is_position_conflict() {
    let mut s = ChainStore::new();
    s.insert_block_rows(&h(200), 1, &vec![out(10)], &vec![], &vec![])
        .unwrap();
    let r = s.insert_block_rows(&h(201), 2, &vec![out(10)], &vec![], &vec![]);
    assert_eq!(r, Err(StorageError::PositionConflict));
    assert_eq!(s.highest_position(EntityKind::Output), Some(0));
    assert!(s.fetch_by_hash(EntityKind::Output, &h(10)).is_some());
    let (outs, _, _) = s.fetch_by_block(&h(201));
    assert_eq!(outs.len(), 0);
}

#[test]
fn duplicate_within_batch_is_position_conflict() {
    let mut s = ChainStore::new();
    let r = s.insert_block_rows(&h(200), 1, &vec![out(10), out(10)], &vec![], &vec![]);
    assert_eq!(r, Err(StorageError::PositionConflict));
    assert_eq!(s.highest_position(EntityKind::Output), None);
}

#[test]
fn rewind_removes_all_rows_of_later_blocks() {
    let mut s = ChainStore::new();
    s.insert_block_rows(&h(200), 1, &vec![out(10), out(11)], &vec![], &vec![kern(30)])
        .unwrap();
    s.insert_block_rows(&h(201), 2, &vec![out(12)], &vec![inp(20)], &vec![kern(31)])
        .unwrap();
    s.rewind_to_height(1);
    assert_eq!(s.highest_position(EntityKind::Output), Some(1));
    assert_eq!(s.highest_position(EntityKind::Input), None);
    assert_eq!(s.highest_position(EntityKind::Kernel), Some(0));
    assert!(s.fetch_by_hash(EntityKind::Output, &h(12)).is_none());
    assert!(s.fetch_by_hash(EntityKind::Input, &h(20)).is_none());
    assert!(s.fetch_by_hash(EntityKind::Kernel, &h(31)).is_none());
    let (outs, ins, kerns) = s.fetch_by_block(&h(201));
    assert_eq!(outs.len(), 0);
    assert_eq!(ins.len(), 0);
    assert_eq!(kerns.len(), 0);
    assert!(s.fetch_by_hash(EntityKind::Output, &h(10)).is_some());
}

#[test]
fn rewind_at_or_above_tip_changes_nothing() {
    let mut s = ChainStore::new();
    s.insert_block_rows(&h(200), 1, &vec![out(10)], &vec![], &vec![kern(30)])
        .unwrap();
    s.rewind_to_height(5);
    assert_eq!(s.highest_position(EntityKind::Output), Some(0));
    assert_eq!(s.highest_position(EntityKind::Kernel), Some(0));
    assert!(s.fetch_by_hash(EntityKind::Output, &h(10)).is_some());
}

#[test]
fn reorg_replays_winning_blocks() {
    let mut s = ChainStore::new();
    s.insert_block_rows(&h(200), 1, &vec![out(10), out(11)], &vec![], &vec![])
        .unwrap();
    s.insert_block_rows(&h(201), 2, &vec![out(12)], &vec![], &vec![])
        .unwrap();
    let winning = vec![NewBlock {
        header_hash: h(203),
        height: 2,
        outputs: vec![out(40)],
        inputs: vec![inp(41)],
        kernels: vec![kern(42)],
    }];
    s.reorg(1, &winning).unwrap();
    assert_eq!(s.highest_position(EntityKind::Output), Some(2));
    assert!(s.fetch_by_hash(EntityKind::Output, &h(12)).is_none());
    assert!(s.fetch_by_hash(EntityKind::Output, &h(40)).is_some());
    let (outs, ins, kerns) = s.fetch_by_block(&h(203));
    assert_eq!(outs.len(), 1);
    assert_eq!(ins.len(), 1);
    assert_eq!(kerns.len(), 1);
}

#[test]
fn interrupted_reorg_leaves_state_untouched() {
    let mut s = ChainStore::new();
    s.insert_block_rows(&h(200), 1, &vec![out(10), out(11)], &vec![], &vec![])
        .unwrap();
    s.insert_block_rows(&h(201), 2, &vec![out(12)], &vec![], &vec![])
        .unwrap();
    let winning = vec![
        NewBlock {
            header_hash: h(203),
            height: 2,
            outputs: vec![out(50)],
            inputs: vec![],
            kernels: vec![],
        },
        NewBlock {
            header_hash: h(204),
            height: 3,
            // duplicates an output kept below the ancestor: the reorg fails
            // mid-sequence and must roll back entirely
            outputs: vec![out(10)],
            inputs: vec![],
            kernels: vec![],
        },
    ];
    assert_eq!(s.reorg(1, &winning), Err(StorageError::PositionConflict));
    assert_eq!(s.highest_position(EntityKind::Output), Some(2));
    assert!(s.fetch_by_hash(EntityKind::Output, &h(12)).is_some());
    assert!(s.fetch_by_hash(EntityKind::Output, &h(50)).is_none());
    let (outs, _, _) = s.fetch_by_block(&h(203));
    assert_eq!(outs.len(), 0);
}

#[test]
fn storage_error_variants_are_distinct() {
    let all = [
        StorageError::NotFound,
        StorageError::PositionConflict,
        StorageError::CorruptRecord,
        StorageError::Conflict,
        StorageError::IoFailure,
    ];
    for i in 0..all.len() {
        for j in 0..all.len() {
            if i != j {
                assert_ne!(all[i], all[j]);
            }
        }
    }
}

#[test]
fn run_applies_a_whole_batch() {
    let mut s = ChainStore::new();
    let batch = vec![
        Mutation::InsertBlock(NewBlock {
            header_hash: h(200),
            height: 1,
            outputs: vec![out(10), out(11)],
            inputs: vec![],
            kernels: vec![kern(30)],
        }),
        Mutation::PruneOutput(h(10)),
        Mutation::InsertBlock(NewBlock {
            header_hash: h(201),
            height: 2,
            outputs: vec![out(12)],
            inputs: vec![inp(20)],
            kernels: vec![],
        }),
    ];
    assert_eq!(s.run(&batch), Ok(()));
    assert_eq!(s.highest_position(EntityKind::Output), Some(2));
    assert_eq!(s.highest_position(EntityKind::Input), Some(0));
    match s.fetch_by_hash(EntityKind::Output, &h(10)) {
        Some(Row::Output(r)) => assert!(r.output.is_none()),
        _ => panic!("pruned row must still resolve"),
    }
    assert!(s.fetch_by_hash(EntityKind::Output, &h(12)).is_some());
}

#[test]
fn run_failure_rolls_back_the_whole_batch() {
    let mut s = ChainStore::new();
    let batch = vec![
        Mutation::InsertBlock(NewBlock {
            header_hash: h(200),
            height: 1,
            outputs: vec![out(10)],
            inputs: vec![],
            kernels: vec![],
        }),
        Mutation::PruneOutput(h(99)),
    ];
    assert_eq!(s.run(&batch), Err(StorageError::NotFound));
    assert_eq!(s.highest_position(EntityKind::Output), None);
    assert!(s.fetch_by_hash(EntityKind::Output, &h(10)).is_none());
}

#[test]
fn run_rewinds_and_replays_in_one_commit() {
    let mut s = ChainStore::new();
    s.insert_block_rows(&h(200), 1, &vec![out(10)], &vec![], &vec![])
        .unwrap();
    s.insert_block_rows(&h(201), 2, &vec![out(12)], &vec![], &vec![])
        .unwrap();
    let batch = vec![
        Mutation::RewindToHeight(1),
        Mutation::InsertBlock(NewBlock {
            header_hash: h(202),
            height: 2,
            outputs: vec![out(40)],
            inputs: vec![],
            kernels: vec![],
        }),
    ];
    assert_eq!(s.run(&batch), Ok(()));
    assert!(s.fetch_by_hash(EntityKind::Output, &h(12)).is_none());
    assert!(s.fetch_by_hash(EntityKind::Output, &h(40)).is_some());
    assert_eq!(s.highest_position(EntityKind::Output), Some(1));
}

#[test]
fn run_rejects_block_below_tip() {
    let mut s = ChainStore::new();
    s.insert_block_rows(&h(200), 5, &vec![out(10)], &vec![], &vec![])
        .unwrap();
    let batch = vec![Mutation::InsertBlock(NewBlock {
        header_hash: h(201),
        height: 5,
        outputs: vec![out(11)],
        inputs: vec![],
        kernels: vec![],
    })];
    assert_eq!(s.run(&batch), Err(StorageError::PositionConflict));
    assert_eq!(s.highest_position(EntityKind::Output), Some(0));
}

#[test]
fn position_index_resolves_to_primary_rows() {
    let mut s = ChainStore::new();
    s.insert_block_rows(&h(200), 1, &vec![out(10), out(11)], &vec![], &vec![])
        .unwrap();
    s.insert_block_rows(&h(201), 2, &vec![out(12)], &vec![], &vec![])
        .unwrap();
    // walking the position index and resolving through the primary table
    // yields the primary rows in position order
    for pos in 0..3u32 {
        let by_pos = match s.fetch_by_position(EntityKind::Output, pos) {
            Some(Row::Output(r)) => r,
            _ => panic!("missing output at position {}", pos),
        };
        let by_hash = match s.fetch_by_hash(EntityKind::Output, &by_pos.hash) {
            Some(Row::Output(r)) => r,
            _ => panic!("hash of position {} must resolve", pos),
        };
        assert_eq!(by_hash.mmr_position, pos);
        assert_eq!(by_hash.hash, by_pos.hash);
        assert_eq!(by_hash.header_hash, by_pos.header_hash);
    }
}
