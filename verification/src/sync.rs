//! The decision logic of the chain synchronization engine.
//!
//! The engine brings a local archive up to the remote tip one epoch at a
//! time.  Everything that decides — scanning a header batch for the target
//! epoch, validating hash continuity, checking slot order, choosing the
//! next request — lives here as pure functions over plain values, so that
//! every decision is verified.  The surrounding program performs the
//! requests and storage work the returned steps ask for, computes each
//! header's digest with its hashing collaborator, and feeds the results
//! back in.

use vstd::prelude::*;

verus! {

use crate::types::HeaderHash;
use crate::block::{BlockHeader, BlockHeaderModel};

/// An epoch number.
pub type EpochId = u32;

/// The model of what the engine reads of one header or block.
pub struct HeaderInfoModel {
    pub hash: Seq<u8>,
    pub previous: Seq<u8>,
    pub epoch: u32,
    pub slotid: u32,
}

/// What the engine reads of one header or block: its own digest as the
/// hashing collaborator computed it, the digest of its predecessor, and
/// its slot.
#[derive(Debug, PartialEq, Eq)]
pub struct HeaderInfo {
    pub hash: HeaderHash,
    pub previous: HeaderHash,
    pub epoch: u32,
    pub slotid: u32,
}

impl View for HeaderInfo {
    type V = HeaderInfoModel;

    open spec fn view(&self) -> HeaderInfoModel {
        HeaderInfoModel {
            hash: self.hash@,
            previous: self.previous@,
            epoch: self.epoch,
            slotid: self.slotid,
        }
    }
}

impl HeaderInfo {
    /// Reads the engine's view of a decoded header, given the digest the
    /// hashing collaborator computed for it.  A genesis header has no slot
    /// of its own; it stands at the opening of its epoch.
    pub fn from_header(h: &BlockHeader, hash: HeaderHash) -> (r: HeaderInfo)
        ensures
            r@.hash == hash@,
            r@.previous == h@.previous_header(),
            match h@ {
                BlockHeaderModel::MainBlockHeader(m) => r@.epoch == m.consensus.slot_id.epoch
                    && r@.slotid == m.consensus.slot_id.slotid,
                BlockHeaderModel::GenesisBlockHeader(g) => r@.epoch == g.consensus.epoch
                    && r@.slotid == 0,
            },
    {
        let previous = h.get_previous_header();
        match h {
            BlockHeader::MainBlockHeader(m) => HeaderInfo {
                hash,
                previous,
                epoch: m.consensus.slot_id.epoch,
                slotid: m.consensus.slot_id.slotid,
            },
            BlockHeader::GenesisBlockHeader(g) => HeaderInfo {
                hash,
                previous,
                epoch: g.consensus.epoch,
                slotid: 0,
            },
        }
    }
}

/// The models of a sequence of header infos.
pub open spec fn infos_view(s: Seq<HeaderInfo>) -> Seq<HeaderInfoModel> {
    Seq::new(s.len(), |i: int| s[i]@)
}

/// The epochs of a sequence of header infos, in order.
pub open spec fn epochs_of(hs: Seq<HeaderInfoModel>) -> Seq<u32> {
    Seq::new(hs.len(), |i: int| hs[i].epoch)
}

/// The chain-of-custody invariant: every block names the digest of the
/// block accepted just before it, the first one naming `prev`.
pub open spec fn chain_ok(prev: Seq<u8>, blocks: Seq<HeaderInfoModel>) -> bool {
    forall|i: int|
        0 <= i < blocks.len() ==> #[trigger] blocks[i].previous == if i == 0 {
            prev
        } else {
            blocks[i - 1].hash
        }
}

/// The chain property of an accepted batch: every block after the first
/// names the digest of the block just before it, and the first names the
/// digest the batch was accepted against.
pub proof fn lemma_chain_links(prev: Seq<u8>, blocks: Seq<HeaderInfoModel>, i: int)
    requires
        chain_ok(prev, blocks),
        0 <= i < blocks.len(),
    ensures
        i > 0 ==> blocks[i].previous == blocks[i - 1].hash,
        i == 0 ==> blocks[i].previous == prev,
{
}

/// A contiguous run of target-epoch entries: `s` is the first index whose
/// epoch equals the target, the run reaches exactly to `e`.
pub open spec fn is_window(epochs: Seq<u32>, target: u32, s: int, e: int) -> bool {
    &&& 0 <= s <= e < epochs.len()
    &&& forall|i: int| s <= i <= e ==> #[trigger] epochs[i] == target
    &&& forall|i: int| 0 <= i < s ==> #[trigger] epochs[i] != target
    &&& (e + 1 == epochs.len() || epochs[e + 1] != target)
}

/// A batch has at most one target-epoch window.
pub proof fn lemma_window_unique(epochs: Seq<u32>, target: u32, s1: int, e1: int, s2: int, e2: int)
    requires
        is_window(epochs, target, s1, e1),
        is_window(epochs, target, s2, e2),
    ensures
        s1 == s2,
        e1 == e2,
{
    assert(epochs[s1] == target);
    assert(epochs[s2] == target);
    if e1 < e2 {
        assert(epochs[e1 + 1] == target);
        assert(e1 + 1 < epochs.len());
    }
    if e2 < e1 {
        assert(epochs[e2 + 1] == target);
    }
}

/// What a scan of a header batch found for the target epoch.
#[derive(Debug, Clone, Copy, PartialEq, Eq, Structural)]
pub enum BatchScan {
    /// The batch held nothing.
    Empty,
    /// Every header is older than the target epoch: the cursor can skip
    /// forward and the request be retried.
    Stale,
    /// No header has the target epoch, yet not all are older than it.
    NoneInEpoch,
    /// The run of target-epoch headers, and whether a later header shows
    /// that the epoch ends inside the batch.
    Window { start: usize, end: usize, boundary_found: bool },
}

/// Scans the epochs of a header batch, oldest first, for the run that
/// belongs to the target epoch.
pub fn scan_batch(epochs: &Vec<u32>, target: EpochId) -> (r: BatchScan)
    ensures
        (r == BatchScan::Empty) <==> epochs@.len() == 0,
        (r == BatchScan::Stale) <==> (epochs@.len() > 0 && (forall|i: int|
            0 <= i < epochs@.len() ==> #[trigger] epochs@[i] < target)),
        (r matches BatchScan::Window { start, end, boundary_found } ==> is_window(
            epochs@,
            target,
            start as int,
            end as int,
        ) && (boundary_found <==> end + 1 < epochs@.len())),
        (exists|i: int| 0 <= i < epochs@.len() && #[trigger] epochs@[i] == target) ==> r matches
            BatchScan::Window { start, end, boundary_found },
        (r == BatchScan::NoneInEpoch) ==> (epochs@.len() > 0 && (forall|i: int|
            0 <= i < epochs@.len() ==> #[trigger] epochs@[i] != target) && !(forall|i: int|
            0 <= i < epochs@.len() ==> #[trigger] epochs@[i] < target)),
{
    if epochs.len() == 0 {
        return BatchScan::Empty;
    }
    let mut start: usize = 0;
    let mut all_less: bool = true;
    while start < epochs.len() && epochs[start] != target
        invariant
            0 <= start <= epochs@.len(),
            forall|i: int| 0 <= i < start ==> #[trigger] epochs@[i] != target,
            all_less <==> (forall|i: int| 0 <= i < start ==> #[trigger] epochs@[i] < target),
        decreases epochs@.len() - start,
    {
        if epochs[start] >= target {
            all_less = false;
        }
        start = start + 1;
    }
    if start == epochs.len() {
        if all_less {
            return BatchScan::Stale;
        }
        return BatchScan::NoneInEpoch;
    }
    let n = epochs.len();
    let mut end: usize = start;
    while end + 1 < n && epochs[end + 1] == target
        invariant
            n == epochs@.len(),
            start <= end < epochs@.len(),
            forall|i: int| start <= i <= end ==> #[trigger] epochs@[i] == target,
        decreases epochs@.len() - end,
    {
        end = end + 1;
    }
    BatchScan::Window { start, end, boundary_found: end + 1 < n }
}

/// Why a synchronization step had to stop.
#[derive(Debug, PartialEq, Eq)]
pub enum SyncError {
    /// The peer answered a header request with nothing.
    EmptyBatch,
    /// The batch held no header of the target epoch, although it was not
    /// wholly older than it.
    MissingEpoch,
    /// A header or block named a predecessor other than the last accepted
    /// one: a chain-continuity violation.
    Continuity { expected: HeaderHash, found: HeaderHash },
    /// A block belonged to another epoch than the one being downloaded.
    WrongEpoch { wanted: EpochId, got: EpochId },
}

/// What the surrounding program must do next.
#[derive(Debug, PartialEq, Eq)]
pub enum DownloadStep {
    /// Ask the peer for the headers between the two digests.
    FetchHeaders { from: HeaderHash, to: HeaderHash },
    /// Ask the peer for the raw blocks in the inclusive digest range.
    FetchBlocks { from: HeaderHash, to: HeaderHash },
    /// The epoch is complete: commit the open pack atomically, tag it with
    /// the epoch, and start the next epoch from the boundary digest.
    Commit { epoch_id: EpochId, boundary: HeaderHash },
}

/// The model of the state of one epoch download.
pub struct EpochStateModel {
    pub epoch_id: EpochId,
    pub start_hash: Seq<u8>,
    pub previous_hash: Seq<u8>,
    pub expected_slotid: u64,
    pub boundary: Option<Seq<u8>>,
}

/// The state of one epoch download: the header cursor, the digest of the
/// last accepted block, the slot expected next, and the boundary digest
/// once the end of the epoch has been seen.
#[derive(Debug, PartialEq, Eq)]
pub struct EpochState {
    pub epoch_id: EpochId,
    pub start_hash: HeaderHash,
    pub previous_hash: HeaderHash,
    pub expected_slotid: u64,
    pub boundary: Option<HeaderHash>,
}

impl View for EpochState {
    type V = EpochStateModel;

    open spec fn view(&self) -> EpochStateModel {
        EpochStateModel {
            epoch_id: self.epoch_id,
            start_hash: self.start_hash@,
            previous_hash: self.previous_hash@,
            expected_slotid: self.expected_slotid,
            boundary: match &self.boundary {
                None => None,
                Some(h) => Some(h@),
            },
        }
    }
}

/// How one accepted block related to the slot expected for it.
#[derive(Debug, Clone, Copy, PartialEq, Eq, Structural)]
pub enum SlotCheck {
    /// The block sat in the expected slot.
    Contiguous,
    /// The block skipped ahead: slots were missed.  This is a warning, not
    /// a failure; the expectation resynchronizes to the found slot.
    Gap { found: u32, expected: u64 },
}

impl EpochState {
    /// Opens the download of one epoch.  The start digest names the last
    /// block already committed before this epoch.
    pub fn begin(epoch_id: EpochId, start_hash: HeaderHash) -> (r: EpochState)
        ensures
            r@ == (EpochStateModel {
                epoch_id,
                start_hash: start_hash@,
                previous_hash: start_hash@,
                expected_slotid: 0,
                boundary: None,
            }),
    {
        let previous_hash = start_hash.clone();
        EpochState { epoch_id, start_hash, previous_hash, expected_slotid: 0, boundary: None }
    }

    /// The first request of an epoch download.
    pub fn first_request(&self, tip: &HeaderHash) -> (r: DownloadStep)
        ensures
            r matches DownloadStep::FetchHeaders { from, to } && from@ == self@.start_hash && to@
                == tip@,
    {
        DownloadStep::FetchHeaders { from: self.start_hash.clone(), to: tip.clone() }
    }

    /// Decides on a batch of headers, oldest first: skip a wholly stale
    /// batch, refuse a broken or empty one, and otherwise request the
    /// blocks of the target-epoch run, remembering the boundary when the
    /// batch shows the epoch end.
    #[verifier::loop_isolation(false)]
    pub fn on_headers(&mut self, headers: &Vec<HeaderInfo>, tip: &HeaderHash) -> (r: Result<
        DownloadStep,
        SyncError,
    >)
        ensures
            ({
                let hs = infos_view(headers@);
                let target = old(self)@.epoch_id;
                &&& r is Err ==> final(self)@ == old(self)@
                &&& (r == Err::<DownloadStep, SyncError>(SyncError::EmptyBatch) <==> hs.len() == 0)
                &&& (r == Err::<DownloadStep, SyncError>(SyncError::MissingEpoch) <==> (hs.len()
                    > 0 && (forall|i: int| 0 <= i < hs.len() ==> #[trigger] hs[i].epoch != target)
                    && !(forall|i: int| 0 <= i < hs.len() ==> #[trigger] hs[i].epoch < target)))
                &&& (hs.len() > 0 && (forall|i: int|
                    0 <= i < hs.len() ==> #[trigger] hs[i].epoch < target) ==> ({
                    &&& r matches Ok(step)
                    &&& step matches DownloadStep::FetchHeaders { from, to }
                    &&& from@ == hs.last().hash
                    &&& to@ == tip@
                    &&& final(self)@ == (EpochStateModel {
                        start_hash: hs.last().hash,
                        ..old(self)@
                    })
                }))
                &&& (forall|s: int, e: int|
                    #[trigger] is_window(epochs_of(hs), target, s, e) && hs[s].previous == old(
                        self,
                    )@.previous_hash ==> ({
                        &&& r matches Ok(step)
                        &&& step matches DownloadStep::FetchBlocks { from, to }
                        &&& from@ == hs[s].hash
                        &&& to@ == hs[e].hash
                        &&& final(self)@ == (EpochStateModel {
                            boundary: if e + 1 < hs.len() {
                                Some(hs[e].hash)
                            } else {
                                old(self)@.boundary
                            },
                            ..old(self)@
                        })
                    }))
                &&& (forall|s: int, e: int|
                    #[trigger] is_window(epochs_of(hs), target, s, e) && hs[s].previous != old(
                        self,
                    )@.previous_hash ==> ({
                        &&& r matches Err(err)
                        &&& err matches SyncError::Continuity { expected, found }
                        &&& expected@ == old(self)@.previous_hash
                        &&& found@ == hs[s].previous
                    }))
            }),
    {
        let mut epochs: Vec<u32> = Vec::new();
        let mut i: usize = 0;
        while i < headers.len()
            invariant
                i <= headers@.len(),
                epochs@.len() == i,
                forall|j: int| 0 <= j < i ==> #[trigger] epochs@[j] == headers@[j]@.epoch,
            decreases headers@.len() - i,
        {
            epochs.push(headers[i].epoch);
            i = i + 1;
        }
        proof {
            assert(epochs@ =~= epochs_of(infos_view(headers@)));
            let ghost hs0 = infos_view(headers@);
            assert forall|i: int|
                0 <= i < hs0.len() implies #[trigger] hs0[i].epoch == epochs_of(hs0)[i] by {}
        }
        let ghost hs = infos_view(headers@);
        let ghost eps = epochs_of(hs);
        let ghost target = self@.epoch_id;
        match scan_batch(&epochs, self.epoch_id) {
            BatchScan::Empty => Err(SyncError::EmptyBatch),
            BatchScan::Stale => {
                proof {
                    assert forall|s: int, e: int| !is_window(eps, target, s, e) by {
                        if is_window(eps, target, s, e) {
                            assert(eps[s] == target);
                            assert(eps[s] < target);
                        }
                    }
                    assert forall|i: int|
                        0 <= i < hs.len() implies #[trigger] hs[i].epoch < target by {
                        assert(eps[i] < target);
                    }
                }
                let last = headers.len() - 1;
                self.start_hash = headers[last].hash.clone();
                Ok(
                    DownloadStep::FetchHeaders {
                        from: self.start_hash.clone(),
                        to: tip.clone(),
                    },
                )
            },
            BatchScan::NoneInEpoch => {
                proof {
                    assert forall|s: int, e: int| !is_window(eps, target, s, e) by {
                        if is_window(eps, target, s, e) {
                            assert(eps[s] == target);
                        }
                    }
                    assert forall|i: int|
                        0 <= i < hs.len() implies #[trigger] hs[i].epoch != target by {
                        assert(eps[i] != target);
                    }
                    assert(!(forall|i: int|
                        0 <= i < hs.len() ==> #[trigger] hs[i].epoch < target)) by {
                        if forall|i: int| 0 <= i < hs.len() ==> #[trigger] hs[i].epoch < target {
                            assert forall|i: int|
                                0 <= i < eps.len() implies #[trigger] eps[i] < target by {
                                assert(hs[i].epoch < target);
                            }
                        }
                    }
                }
                Err(SyncError::MissingEpoch)
            },
            BatchScan::Window { start, end, boundary_found } => {
                proof {
                    assert forall|s: int, e: int|
                        is_window(eps, target, s, e) implies s == start as int && e
                        == end as int by {
                        lemma_window_unique(eps, target, s, e, start as int, end as int);
                    }
                    assert(is_window(eps, target, start as int, end as int));
                    assert(eps[start as int] == target);
                    assert(hs[start as int].epoch == target);
                }
                if !headers[start].previous.is_equal(&self.previous_hash) {
                    return Err(
                        SyncError::Continuity {
                            expected: self.previous_hash.clone(),
                            found: headers[start].previous.clone(),
                        },
                    );
                }
                if boundary_found {
                    self.boundary = Some(headers[end].hash.clone());
                }
                Ok(
                    DownloadStep::FetchBlocks {
                        from: headers[start].hash.clone(),
                        to: headers[end].hash.clone(),
                    },
                )
            },
        }
    }

    /// Accepts one decoded block: it must belong to the target epoch and
    /// continue the chain from the last accepted digest; a slot gap is
    /// only a warning and resynchronizes the expected slot.
    pub fn accept_block(&mut self, b: &HeaderInfo) -> (r: Result<SlotCheck, SyncError>)
        ensures
            b@.epoch != old(self)@.epoch_id ==> ({
                &&& final(self)@ == old(self)@
                &&& r == Err::<SlotCheck, SyncError>(
                    SyncError::WrongEpoch { wanted: old(self)@.epoch_id, got: b@.epoch },
                )
            }),
            b@.epoch == old(self)@.epoch_id && b@.previous != old(self)@.previous_hash ==> ({
                &&& final(self)@ == old(self)@
                &&& r matches Err(err)
                &&& err matches SyncError::Continuity { expected, found }
                &&& expected@ == old(self)@.previous_hash
                &&& found@ == b@.previous
            }),
            b@.epoch == old(self)@.epoch_id && b@.previous == old(self)@.previous_hash ==> ({
                &&& r matches Ok(sc)
                &&& (sc == SlotCheck::Contiguous <==> b@.slotid as u64 == old(
                    self,
                )@.expected_slotid)
                &&& (sc matches SlotCheck::Gap { found, expected } ==> found == b@.slotid
                    && expected == old(self)@.expected_slotid)
                &&& final(self)@ == (EpochStateModel {
                    previous_hash: b@.hash,
                    expected_slotid: (b@.slotid + 1) as u64,
                    ..old(self)@
                })
            }),
    {
        if b.epoch != self.epoch_id {
            return Err(SyncError::WrongEpoch { wanted: self.epoch_id, got: b.epoch });
        }
        if !b.previous.is_equal(&self.previous_hash) {
            return Err(
                SyncError::Continuity {
                    expected: self.previous_hash.clone(),
                    found: b.previous.clone(),
                },
            );
        }
        let check = if (b.slotid as u64) == self.expected_slotid {
            SlotCheck::Contiguous
        } else {
            SlotCheck::Gap { found: b.slotid, expected: self.expected_slotid }
        };
        self.expected_slotid = (b.slotid as u64) + 1;
        self.previous_hash = b.hash.clone();
        Ok(check)
    }

    /// Accepts a batch of decoded blocks, oldest first.  The batch is
    /// accepted exactly when every block belongs to the target epoch and
    /// the digests chain from the last accepted one; on refusal the state
    /// is unchanged and no block of the batch counts as accepted.
    #[verifier::loop_isolation(false)]
    pub fn process_blocks(&mut self, blocks: &Vec<HeaderInfo>) -> (r: Result<
        Vec<SlotCheck>,
        SyncError,
    >)
        ensures
            ({
                let hs = infos_view(blocks@);
                let target = old(self)@.epoch_id;
                &&& (r is Ok <==> (chain_ok(old(self)@.previous_hash, hs) && (forall|i: int|
                    0 <= i < hs.len() ==> #[trigger] hs[i].epoch == target)))
                &&& r is Err ==> final(self)@ == old(self)@
                &&& (r matches Ok(checks) ==> ({
                    &&& checks@.len() == hs.len()
                    &&& forall|i: int|
                        0 <= i < hs.len() ==> ((#[trigger] checks@[i]) == SlotCheck::Contiguous
                            <==> hs[i].slotid as u64 == (if i == 0 {
                            old(self)@.expected_slotid
                        } else {
                            (hs[i - 1].slotid + 1) as u64
                        }))
                    &&& forall|i: int|
                        0 <= i < hs.len() ==> ((#[trigger] checks@[i]) matches SlotCheck::Gap {
                            found,
                            expected,
                        } ==> found == hs[i].slotid && expected == (if i == 0 {
                            old(self)@.expected_slotid
                        } else {
                            (hs[i - 1].slotid + 1) as u64
                        }))
                    &&& final(self)@ == (EpochStateModel {
                        previous_hash: if hs.len() > 0 {
                            hs.last().hash
                        } else {
                            old(self)@.previous_hash
                        },
                        expected_slotid: if hs.len() > 0 {
                            (hs.last().slotid + 1) as u64
                        } else {
                            old(self)@.expected_slotid
                        },
                        ..old(self)@
                    })
                }))
            }),
    {
        let ghost hs = infos_view(blocks@);
        let mut checks: Vec<SlotCheck> = Vec::new();
        let mut previous = self.previous_hash.clone();
        let mut expected: u64 = self.expected_slotid;
        let mut i: usize = 0;
        while i < blocks.len()
            invariant
                i <= blocks@.len(),
                hs == infos_view(blocks@),
                checks@.len() == i,
                previous@ == if i == 0 {
                    self@.previous_hash
                } else {
                    hs[i - 1].hash
                },
                expected == if i == 0 {
                    self@.expected_slotid
                } else {
                    (hs[i - 1].slotid + 1) as u64
                },
                forall|j: int|
                    0 <= j < i ==> #[trigger] hs[j].previous == if j == 0 {
                        self@.previous_hash
                    } else {
                        hs[j - 1].hash
                    },
                forall|j: int| 0 <= j < i ==> #[trigger] hs[j].epoch == self@.epoch_id,
                forall|j: int|
                    0 <= j < i ==> ((#[trigger] checks@[j]) == SlotCheck::Contiguous <==> hs[
                    j].slotid as u64 == (if j == 0 {
                        self@.expected_slotid
                    } else {
                        (hs[j - 1].slotid + 1) as u64
                    })),
                forall|j: int|
                    0 <= j < i ==> ((#[trigger] checks@[j]) matches SlotCheck::Gap {
                        found,
                        expected,
                    } ==> found == hs[j].slotid && expected == (if j == 0 {
                        self@.expected_slotid
                    } else {
                        (hs[j - 1].slotid + 1) as u64
                    })),
            decreases blocks@.len() - i,
        {
            let b = &blocks[i];
            if b.epoch != self.epoch_id {
                proof {
                    assert(hs[i as int].epoch != self@.epoch_id);
                }
                return Err(SyncError::WrongEpoch { wanted: self.epoch_id, got: b.epoch });
            }
            if !b.previous.is_equal(&previous) {
                proof {
                    assert(hs[i as int].previous != (if i == 0 {
                        self@.previous_hash
                    } else {
                        hs[i as int - 1].hash
                    }));
                    assert(!chain_ok(self@.previous_hash, hs));
                }
                return Err(
                    SyncError::Continuity { expected: previous, found: b.previous.clone() },
                );
            }
            let check = if (b.slotid as u64) == expected {
                SlotCheck::Contiguous
            } else {
                SlotCheck::Gap { found: b.slotid, expected }
            };
            checks.push(check);
            expected = (b.slotid as u64) + 1;
            previous = b.hash.clone();
            i = i + 1;
        }
        if blocks.len() > 0 {
            self.previous_hash = previous;
            self.expected_slotid = expected;
        }
        Ok(checks)
    }

    /// Decides what follows a batch of accepted blocks: commit the epoch
    /// if its boundary has been seen, else scan on from the last accepted
    /// block.
    pub fn after_blocks(&mut self, tip: &HeaderHash) -> (r: DownloadStep)
        ensures
            final(self)@ == (EpochStateModel { start_hash: old(self)@.previous_hash, ..old(self)@ }),
            match old(self)@.boundary {
                Some(b) => r matches DownloadStep::Commit { epoch_id, boundary } && epoch_id == old(
                    self,
                )@.epoch_id && boundary@ == b,
                None => r matches DownloadStep::FetchHeaders { from, to } && from@ == old(
                    self,
                )@.previous_hash && to@ == tip@,
            },
    {
        self.start_hash = self.previous_hash.clone();
        match &self.boundary {
            Some(b) => DownloadStep::Commit { epoch_id: self.epoch_id, boundary: b.clone() },
            None => DownloadStep::FetchHeaders {
                from: self.previous_hash.clone(),
                to: tip.clone(),
            },
        }
    }
}

/// What a probe of the stored epoch tags decided.
#[derive(Debug, PartialEq, Eq)]
pub enum EpochProbe {
    /// A committed pack exists for this epoch.
    Found { epoch: EpochId },
    /// Nothing here; probe the epoch below next.
    Descend { next: EpochId },
    /// No committed epoch exists at or above the minimum.
    NotFound,
}

/// One step of the downward search for the newest committed epoch: given
/// whether the tag of `epoch_id` resolved, either stop at it, step down,
/// or give up at the minimum.
pub fn probe_epoch_step(epoch_id: EpochId, minimum: EpochId, tag_present: bool) -> (r: EpochProbe)
    ensures
        tag_present ==> r == (EpochProbe::Found { epoch: epoch_id }),
        !tag_present && epoch_id > minimum ==> r == (EpochProbe::Descend {
            next: (epoch_id - 1) as u32,
        }),
        !tag_present && epoch_id <= minimum ==> r == EpochProbe::NotFound,
{
    if tag_present {
        EpochProbe::Found { epoch: epoch_id }
    } else if epoch_id > minimum {
        EpochProbe::Descend { next: epoch_id - 1 }
    } else {
        EpochProbe::NotFound
    }
}

/// The driver loop's decision: an epoch is downloaded exactly when it lies
/// strictly below the tip's epoch; each round downloads `epoch_id` starting
/// from `start_hash`, and the boundary it commits at becomes the next
/// round's start.
pub fn plan_epoch(epoch_id: EpochId, start_hash: HeaderHash, tip_epoch: EpochId) -> (r: Option<
    (EpochId, HeaderHash),
>)
    ensures
        epoch_id < tip_epoch ==> ({
            &&& r matches Some(p)
            &&& p.0 == epoch_id
            &&& p.1@ == start_hash@
        }),
        epoch_id >= tip_epoch ==> r is None,
{
    if epoch_id < tip_epoch {
        Some((epoch_id, start_hash))
    } else {
        None
    }
}

/// Where a sync run starts: just after the newest committed epoch, resuming
/// from the last block of its pack, or at the configured genesis when
/// nothing is committed yet.
pub fn initial_download_state(
    found: Option<(EpochId, HeaderHash)>,
    genesis_epoch: EpochId,
    genesis_hash: HeaderHash,
) -> (r: (EpochId, HeaderHash))
    requires
        found matches Some(p) ==> p.0 < 0xffffffffu32,
    ensures
        found matches Some(p) ==> r.0 == p.0 + 1 && r.1@ == p.1@,
        found is None ==> r.0 == genesis_epoch && r.1@ == genesis_hash@,
{
    match found {
        Some((epoch, hash)) => (epoch + 1, hash),
        None => (genesis_epoch, genesis_hash),
    }
}

/// The digit character of a value below ten.
pub open spec fn digit_char(d: u64) -> char {
    if d == 0 {
        '0'
    } else if d == 1 {
        '1'
    } else if d == 2 {
        '2'
    } else if d == 3 {
        '3'
    } else if d == 4 {
        '4'
    } else if d == 5 {
        '5'
    } else if d == 6 {
        '6'
    } else if d == 7 {
        '7'
    } else if d == 8 {
        '8'
    } else {
        '9'
    }
}

/// The decimal digits of a number, most significant first.
pub open spec fn dec_digits(n: u64) -> Seq<char>
    decreases n,
{
    if n < 10 {
        seq![digit_char(n)]
    } else {
        dec_digits(n / 10) + seq![digit_char(n % 10)]
    }
}

fn append_digit(out: &mut String, d: u64)
    requires
        d < 10,
    ensures
        final(out)@ == old(out)@ + seq![digit_char(d)],
{
    if d == 0 {
        proof {
            reveal_strlit("0");
        }
        out.append("0");
    } else if d == 1 {
        proof {
            reveal_strlit("1");
        }
        out.append("1");
    } else if d == 2 {
        proof {
            reveal_strlit("2");
        }
        out.append("2");
    } else if d == 3 {
        proof {
            reveal_strlit("3");
        }
        out.append("3");
    } else if d == 4 {
        proof {
            reveal_strlit("4");
        }
        out.append("4");
    } else if d == 5 {
        proof {
            reveal_strlit("5");
        }
        out.append("5");
    } else if d == 6 {
        proof {
            reveal_strlit("6");
        }
        out.append("6");
    } else if d == 7 {
        proof {
            reveal_strlit("7");
        }
        out.append("7");
    } else if d == 8 {
        proof {
            reveal_strlit("8");
        }
        out.append("8");
    } else {
        proof {
            reveal_strlit("9");
        }
        out.append("9");
    }
    proof {
        assert(out@ =~= old(out)@ + seq![digit_char(d)]);
    }
}

/// Appends the decimal digits of a number.
fn append_decimal(out: &mut String, n: u64)
    ensures
        final(out)@ == old(out)@ + dec_digits(n),
    decreases n,
{
    if n < 10 {
        append_digit(out, n);
    } else {
        append_decimal(out, n / 10);
        append_digit(out, n % 10);
        proof {
            assert(out@ =~= old(out)@ + dec_digits(n));
        }
    }
}

/// The digits of the millisecond part, padded to three places.
pub open spec fn millis_digits(m: u64) -> Seq<char> {
    if m < 10 {
        seq!['0', '0'] + dec_digits(m)
    } else if m < 100 {
        seq!['0'] + dec_digits(m)
    } else {
        dec_digits(m)
    }
}

/// Renders an elapsed time, given as whole seconds and the milliseconds
/// below them, for progress reporting.
pub fn duration_print(secs: u64, millis: u32) -> (r: String)
    requires
        millis < 1000,
    ensures
        r@ == dec_digits(secs) + seq!['.'] + millis_digits(millis as u64) + " seconds"@,
{
    let mut out = String::new();
    append_decimal(&mut out, secs);
    proof {
        reveal_strlit(".");
    }
    out.append(".");
    proof {
        assert(out@ =~= dec_digits(secs) + seq!['.']);
        reveal_strlit("0");
    }
    if millis < 10 {
        out.append("0");
        out.append("0");
    } else if millis < 100 {
        out.append("0");
    }
    append_decimal(&mut out, millis as u64);
    out.append(" seconds");
    proof {
        assert(out@ =~= dec_digits(secs) + seq!['.'] + millis_digits(millis as u64) + " seconds"@);
    }
    out
}

} // verus!
