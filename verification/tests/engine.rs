//! The synchronization engine's decisions on synthetic chains.

use lightnode::sync::{
    duration_print, initial_download_state, plan_epoch, probe_epoch_step, scan_batch, BatchScan,
    DownloadStep, EpochProbe, EpochState, HeaderInfo, SlotCheck, SyncError,
};
use lightnode::types::HeaderHash;

fn hash(fill: u8) -> HeaderHash {
    HeaderHash::from_bytes([fill; 32])
}

fn info(hash_fill: u8, previous_fill: u8, epoch: u32, slotid: u32) -> HeaderInfo {
    HeaderInfo { hash: hash(hash_fill), previous: hash(previous_fill), epoch, slotid }
}

#[test]
fn epoch_boundary_scan() {
    let epochs = vec![5, 5, 6, 6, 6];
    assert_eq!(
        scan_batch(&epochs, 5),
        BatchScan::Window { start: 0, end: 1, boundary_found: true }
    );
}

#[test]
fn scan_whole_epoch_batch() {
    let epochs = vec![5, 5, 5];
    assert_eq!(
        scan_batch(&epochs, 5),
        BatchScan::Window { start: 0, end: 2, boundary_found: false }
    );
}

#[test]
fn scan_skips_stale_prefix() {
    let epochs = vec![4, 4, 5, 6];
    assert_eq!(
        scan_batch(&epochs, 5),
        BatchScan::Window { start: 2, end: 2, boundary_found: true }
    );
}

#[test]
fn scan_stale_batch() {
    assert_eq!(scan_batch(&vec![3, 4], 5), BatchScan::Stale);
}

#[test]
fn scan_epoch_missing() {
    assert_eq!(scan_batch(&vec![4, 6], 5), BatchScan::NoneInEpoch);
}

#[test]
fn scan_empty_batch() {
    assert_eq!(scan_batch(&vec![], 5), BatchScan::Empty);
}

#[test]
fn slot_contiguity_gap_is_a_warning() {
    let mut st = EpochState::begin(0, hash(0));
    let blocks = vec![info(1, 0, 0, 0), info(2, 1, 0, 1), info(3, 2, 0, 3)];
    let checks = st.process_blocks(&blocks).unwrap();
    assert_eq!(
        checks,
        vec![
            SlotCheck::Contiguous,
            SlotCheck::Contiguous,
            SlotCheck::Gap { found: 3, expected: 2 },
        ]
    );
    assert_eq!(st.expected_slotid, 4);
    assert_eq!(st.previous_hash, hash(3));
}

#[test]
fn chain_property_on_accepted_blocks() {
    let mut st = EpochState::begin(0, hash(0));
    let blocks = vec![info(1, 0, 0, 0), info(2, 1, 0, 1), info(3, 2, 0, 2)];
    assert!(st.process_blocks(&blocks).is_ok());
    assert_eq!(st.previous_hash, hash(3));
}

#[test]
fn continuity_violation_is_fatal() {
    let mut st = EpochState::begin(0, hash(0));
    let blocks = vec![info(1, 0, 0, 0), info(2, 9, 0, 1)];
    match st.process_blocks(&blocks) {
        Err(SyncError::Continuity { expected, found }) => {
            assert_eq!(expected, hash(1));
            assert_eq!(found, hash(9));
        }
        other => panic!("expected a continuity violation, got {:?}", other),
    }
    // a refused batch leaves the state untouched
    assert_eq!(st.previous_hash, hash(0));
    assert_eq!(st.expected_slotid, 0);
}

#[test]
fn cross_epoch_block_is_fatal() {
    let mut st = EpochState::begin(5, hash(0));
    let blocks = vec![info(1, 0, 6, 0)];
    assert_eq!(
        st.process_blocks(&blocks),
        Err(SyncError::WrongEpoch { wanted: 5, got: 6 })
    );
}

#[test]
fn one_epoch_download_walkthrough() {
    let tip = hash(0xee);
    let mut st = EpochState::begin(5, hash(0));
    match st.first_request(&tip) {
        DownloadStep::FetchHeaders { from, to } => {
            assert_eq!(from, hash(0));
            assert_eq!(to, tip);
        }
        other => panic!("expected a header request, got {:?}", other),
    }
    // the batch holds the end of epoch 5: blocks 1 and 2, then epoch 6 begins
    let headers = vec![info(1, 0, 5, 0), info(2, 1, 5, 1), info(3, 2, 6, 0)];
    match st.on_headers(&headers, &tip) {
        Ok(DownloadStep::FetchBlocks { from, to }) => {
            assert_eq!(from, hash(1));
            assert_eq!(to, hash(2));
        }
        other => panic!("expected a block request, got {:?}", other),
    }
    let blocks = vec![info(1, 0, 5, 0), info(2, 1, 5, 1)];
    assert!(st.process_blocks(&blocks).is_ok());
    match st.after_blocks(&tip) {
        DownloadStep::Commit { epoch_id, boundary } => {
            assert_eq!(epoch_id, 5);
            assert_eq!(boundary, hash(2));
        }
        other => panic!("expected a commit, got {:?}", other),
    }
}

#[test]
fn stale_batch_advances_the_cursor() {
    let tip = hash(0xee);
    let mut st = EpochState::begin(5, hash(0));
    let headers = vec![info(1, 0, 4, 90), info(2, 1, 4, 91)];
    match st.on_headers(&headers, &tip) {
        Ok(DownloadStep::FetchHeaders { from, to }) => {
            assert_eq!(from, hash(2));
            assert_eq!(to, tip);
        }
        other => panic!("expected a retry, got {:?}", other),
    }
    assert_eq!(st.start_hash, hash(2));
}

#[test]
fn window_continuity_is_checked_on_headers() {
    let tip = hash(0xee);
    let mut st = EpochState::begin(5, hash(0));
    let headers = vec![info(1, 9, 5, 0)];
    match st.on_headers(&headers, &tip) {
        Err(SyncError::Continuity { expected, found }) => {
            assert_eq!(expected, hash(0));
            assert_eq!(found, hash(9));
        }
        other => panic!("expected a continuity violation, got {:?}", other),
    }
}

#[test]
fn empty_batch_is_refused() {
    let tip = hash(0xee);
    let mut st = EpochState::begin(5, hash(0));
    assert_eq!(st.on_headers(&vec![], &tip), Err(SyncError::EmptyBatch));
}

#[test]
fn probing_stored_epochs() {
    assert_eq!(probe_epoch_step(7, 0, true), EpochProbe::Found { epoch: 7 });
    assert_eq!(probe_epoch_step(7, 0, false), EpochProbe::Descend { next: 6 });
    assert_eq!(probe_epoch_step(0, 0, false), EpochProbe::NotFound);
}

#[test]
fn choosing_where_to_start() {
    let (e, h) = initial_download_state(Some((4, hash(9))), 0, hash(1));
    assert_eq!(e, 5);
    assert_eq!(h, hash(9));
    let (e, h) = initial_download_state(None, 0, hash(1));
    assert_eq!(e, 0);
    assert_eq!(h, hash(1));
}

#[test]
fn planning_the_epoch_loop() {
    assert_eq!(plan_epoch(3, hash(7), 5), Some((3, hash(7))));
    assert_eq!(plan_epoch(5, hash(7), 5), None);
    assert_eq!(plan_epoch(6, hash(7), 5), None);
}

#[test]
fn printing_elapsed_time() {
    assert_eq!(duration_print(12, 5), "12.005 seconds");
    assert_eq!(duration_print(0, 0), "0.000 seconds");
    assert_eq!(duration_print(3, 250), "3.250 seconds");
    assert_eq!(duration_print(100, 37), "100.037 seconds");
}

#[test]
fn accepting_blocks_one_at_a_time() {
    let mut st = EpochState::begin(0, hash(0));
    assert_eq!(st.accept_block(&info(1, 0, 0, 0)), Ok(SlotCheck::Contiguous));
    assert_eq!(
        st.accept_block(&info(2, 1, 0, 5)),
        Ok(SlotCheck::Gap { found: 5, expected: 1 })
    );
    assert_eq!(st.expected_slotid, 6);
    assert_eq!(
        st.accept_block(&info(3, 9, 0, 6)),
        Err(SyncError::Continuity { expected: hash(2), found: hash(9) })
    );
}
