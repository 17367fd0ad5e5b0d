use protocol::block_dag::{BlockDAG, DagError};
use protocol::block_storage::BlockStorage;
use protocol::index_set::index_set_to_vec;
use protocol::tip_selection::TipSelection;
use protocol::types::{Block, NetworkBlock, GENESIS_ID};
use std::collections::HashMap;

fn network_block(id: u64, parents: Vec<u64>, issuer: u64) -> Block {
    Block::NetworkBlock(id, NetworkBlock { parents, issuer_id: issuer })
}

fn sorted(mut v: Vec<u64>) -> Vec<u64> {
    v.sort();
    v
}

#[test]
fn storage_get_after_insert() {
    let mut s = BlockStorage::new();
    assert!(s.get(5).is_none());
    let (b, is_new) = s.insert(network_block(5, vec![0], 1));
    assert!(is_new);
    assert_eq!(b.id(), 5);
    let got = s.get(5).unwrap();
    assert_eq!(got.id(), 5);
    assert_eq!(got.parents(), vec![0]);
    assert!(s.contains(5));
    assert!(!s.contains(6));
}

#[test]
fn storage_first_write_wins() {
    let mut s = BlockStorage::new();
    s.insert(network_block(5, vec![0], 1));
    let (b, is_new) = s.insert(network_block(5, vec![1, 2], 2));
    assert!(!is_new);
    assert_eq!(b.parents(), vec![0]);
    assert_eq!(s.get(5).unwrap().parents(), vec![0]);
}

#[test]
fn storage_address_before_block() {
    let mut s = BlockStorage::new();
    assert!(s.address(7));
    assert!(!s.address(7));
    assert!(!s.contains(7));
    assert!(s.get(7).is_none());
    let (_, is_new) = s.insert(network_block(7, vec![], 3));
    assert!(!is_new);
    assert!(s.contains(7));
}

#[test]
fn storage_start_and_shutdown() {
    let mut s = BlockStorage::new();
    let (g, is_new) = s.start();
    assert!(is_new);
    assert!(matches!(g, Block::GenesisBlock(GENESIS_ID)));
    assert!(matches!(s.get(GENESIS_ID), Some(Block::GenesisBlock(0))));
    s.shutdown();
    assert!(!s.contains(GENESIS_ID));
    assert!(s.address(GENESIS_ID));
}

#[test]
fn dag_blocks_become_available_after_their_parents() {
    let mut dag = BlockDAG::new();
    let (_, newly) = dag.insert_block(Block::GenesisBlock(0));
    assert_eq!(newly, vec![0]);
    let (_, newly) = dag.insert_block(network_block(2, vec![1], 7));
    assert!(newly.is_empty());
    assert!(dag.contains(2));
    assert!(!dag.is_available(2));
    assert!(!dag.contains(1));
    let (_, newly) = dag.insert_block(network_block(3, vec![2, 0], 7));
    assert!(newly.is_empty());
    let (_, newly) = dag.insert_block(network_block(1, vec![0], 7));
    assert_eq!(newly, vec![1, 2, 3]);
    assert!(dag.is_available(1) && dag.is_available(2) && dag.is_available(3));
}

#[test]
fn dag_insert_twice_changes_nothing() {
    let mut dag = BlockDAG::new();
    dag.insert_block(Block::GenesisBlock(0));
    dag.insert_block(network_block(1, vec![0], 7));
    let (b, newly) = dag.insert_block(network_block(1, vec![9], 8));
    assert!(newly.is_empty());
    assert_eq!(b.parents(), vec![0]);
    assert_eq!(dag.get(1).unwrap().parents(), vec![0]);
}

#[test]
fn dag_availability_does_not_depend_on_arrival_order() {
    let blocks = || {
        vec![
            Block::GenesisBlock(0),
            network_block(1, vec![0], 1),
            network_block(2, vec![0], 2),
            network_block(3, vec![1, 2], 1),
            network_block(4, vec![3, 9], 2),
        ]
    };
    let mut a = BlockDAG::new();
    for b in blocks() {
        a.insert_block(b);
    }
    let mut b = BlockDAG::new();
    for blk in blocks().into_iter().rev() {
        b.insert_block(blk);
    }
    for id in 0..10u64 {
        assert_eq!(a.is_available(id), b.is_available(id), "block {}", id);
    }
    assert!(a.is_available(3));
    assert!(!a.is_available(4));
}

fn sample_dag() -> BlockDAG {
    let mut dag = BlockDAG::new();
    dag.insert_block(Block::GenesisBlock(0));
    dag.insert_block(network_block(1, vec![0], 1));
    dag.insert_block(network_block(2, vec![0], 2));
    dag.insert_block(network_block(3, vec![1, 2], 1));
    dag
}

#[test]
fn dag_past_cone_walks_breadth_first() {
    let dag = sample_dag();
    let visit: HashMap<u64, bool> = (0..4u64).map(|b| (b, true)).collect();
    let cone = dag.past_cone(3, &visit).unwrap();
    assert_eq!(index_set_to_vec(&cone), vec![3, 1, 2, 0]);
}

#[test]
fn dag_past_cone_stops_at_unvisited_blocks() {
    let dag = sample_dag();
    let mut visit: HashMap<u64, bool> = (0..4u64).map(|b| (b, true)).collect();
    visit.insert(1, false);
    visit.insert(0, false);
    let cone = dag.past_cone(3, &visit).unwrap();
    assert_eq!(index_set_to_vec(&cone), vec![3, 2]);
    visit.insert(3, false);
    let cone = dag.past_cone(3, &visit).unwrap();
    assert!(index_set_to_vec(&cone).is_empty());
}

#[test]
fn dag_past_cone_errors() {
    let mut dag = sample_dag();
    let mut visit: HashMap<u64, bool> = (0..4u64).map(|b| (b, true)).collect();
    assert_eq!(dag.past_cone(42, &visit).err(), Some(DagError::BlockNotFound));
    visit.remove(&3);
    assert_eq!(dag.past_cone(3, &visit).err(), Some(DagError::MetadataNotFound));
    visit.insert(3, true);
    visit.remove(&0);
    assert_eq!(dag.past_cone(3, &visit).err(), Some(DagError::MetadataNotFound));
    dag.insert_block(network_block(5, vec![4], 1));
    visit.insert(0, true);
    visit.insert(5, true);
    assert_eq!(dag.past_cone(5, &visit).err(), Some(DagError::BlockNotFound));
}

#[test]
fn tips_follow_processed_blocks() {
    let dag = sample_dag();
    let mut tips = TipSelection::new();
    tips.init(0);
    assert_eq!(tips.get(), vec![0]);
    tips.process_block(&dag, 1).unwrap();
    assert_eq!(tips.get(), vec![1]);
    tips.process_block(&dag, 2).unwrap();
    assert_eq!(sorted(tips.get()), vec![1, 2]);
    tips.process_block(&dag, 3).unwrap();
    assert_eq!(tips.get(), vec![3]);
}

#[test]
fn tips_unchanged_on_failure() {
    let mut dag = sample_dag();
    let mut tips = TipSelection::new();
    tips.init(0);
    tips.process_block(&dag, 1).unwrap();
    assert_eq!(tips.process_block(&dag, 8), Err(DagError::MetadataNotFound));
    dag.insert_block(network_block(6, vec![1, 4], 3));
    assert_eq!(tips.process_block(&dag, 6), Err(DagError::BlockNotFound));
    assert_eq!(tips.get(), vec![1]);
}
