use vstd::prelude::*;

verus! {

/// The peer to download from: the one advertising the most blocks, the first
/// such in the order the peers were asked. `None` when there is no peer.
pub fn select_longest_peer(lengths: &Vec<u64>) -> (r: Option<usize>)
    ensures
        r is None <==> lengths@.len() == 0,
        r matches Some(i) ==> i < lengths@.len()
            && (forall|j: int| 0 <= j < lengths@.len() ==> lengths@[j] <= lengths@[i as int])
            && (forall|j: int| 0 <= j < i ==> lengths@[j] < lengths@[i as int]),
{
    if lengths.len() == 0 {
        return None;
    }
    let mut best: usize = 0;
    let mut i: usize = 1;
    while i < lengths.len()
        invariant
            1 <= i <= lengths@.len(),
            best < i,
            forall|j: int| 0 <= j < i ==> lengths@[j] <= lengths@[best as int],
            forall|j: int| 0 <= j < best ==> lengths@[j] < lengths@[best as int],
        decreases lengths@.len() - i,
    {
        if lengths[i] > lengths[best] {
            best = i;
        }
        i = i + 1;
    }
    Some(best)
}

} // verus!

verus! {

/// Where a node's synchronisation with its peers stands.
#[derive(Clone, Copy, Debug, PartialEq, Eq, Structural)]
pub enum SyncPhase {
    Idle,
    Discovering,
    Selecting,
    Downloading,
    Rebuilding,
}

/// What the outside world reported since the last step.
#[derive(Clone, Debug)]
pub enum SyncEvent {
    /// Synchronisation was asked for.
    Start,
    /// This many seed peers answered.
    PeersConnected(usize),
    /// Each connected peer's advertised chain length, in the order they were asked.
    LengthsReported(Vec<u64>),
    /// The selected peer's blocks arrived.
    ChainReceived,
    /// The downloaded chain was adopted (`true`) or refused (`false`).
    Adopted(bool),
}

/// What the node should do next.
#[derive(Clone, Copy, Debug, PartialEq, Eq, Structural)]
pub enum SyncAction {
    ConnectToSeeds,
    /// No peer is reachable: carry on alone from the local chain.
    RunAsSeed,
    QueryLengths,
    /// Download the whole chain of the peer at this index, which advertised `length` blocks.
    Download { peer: usize, length: u64 },
    /// Run the downloaded blocks through acceptance and rebuild the unspent set.
    Adopt,
    /// Synchronisation finished with the adopted chain.
    Done,
    /// The attempt failed; the local chain stays as it was.
    Abandon,
    /// The event does not belong to this phase; nothing to do.
    Ignore,
}

/// One step of the synchronisation sequence
/// Idle, Discovering, Selecting, Downloading, Rebuilding, and back to Idle.
pub fn sync_step(phase: SyncPhase, event: &SyncEvent) -> (r: (SyncPhase, SyncAction))
    ensures
        phase == SyncPhase::Idle && *event is Start ==> r == (
        SyncPhase::Discovering,
        SyncAction::ConnectToSeeds,
        ),
        phase == SyncPhase::Discovering ==> (*event matches SyncEvent::PeersConnected(n) ==> r == (if n
            == 0 {
            (SyncPhase::Idle, SyncAction::RunAsSeed)
        } else {
            (SyncPhase::Selecting, SyncAction::QueryLengths)
        })),
        phase == SyncPhase::Selecting ==> (*event matches SyncEvent::LengthsReported(v) ==> (if v@.len()
            == 0 {
            r == (SyncPhase::Idle, SyncAction::RunAsSeed)
        } else {
            r.0 == SyncPhase::Downloading && (r.1 matches SyncAction::Download { peer, length }
                && peer < v@.len() && length == v@[peer as int] && (forall|j: int|
                0 <= j < v@.len() ==> v@[j] <= length) && (forall|j: int|
                0 <= j < peer ==> v@[j] < length))
        })),
        phase == SyncPhase::Downloading && *event is ChainReceived ==> r == (
        SyncPhase::Rebuilding,
        SyncAction::Adopt,
        ),
        phase == SyncPhase::Rebuilding ==> (*event matches SyncEvent::Adopted(ok) ==> r == (if ok {
            (SyncPhase::Idle, SyncAction::Done)
        } else {
            (SyncPhase::Idle, SyncAction::Abandon)
        })),
        !(phase == SyncPhase::Idle && *event is Start) && !(phase == SyncPhase::Discovering
            && *event is PeersConnected) && !(phase == SyncPhase::Selecting
            && *event is LengthsReported) && !(phase == SyncPhase::Downloading
            && *event is ChainReceived) && !(phase == SyncPhase::Rebuilding
            && *event is Adopted) ==> r == (phase, SyncAction::Ignore),
{
    match (phase, event) {
        (SyncPhase::Idle, SyncEvent::Start) => (SyncPhase::Discovering, SyncAction::ConnectToSeeds),
        (SyncPhase::Discovering, SyncEvent::PeersConnected(n)) => {
            if *n == 0 {
                (SyncPhase::Idle, SyncAction::RunAsSeed)
            } else {
                (SyncPhase::Selecting, SyncAction::QueryLengths)
            }
        },
        (SyncPhase::Selecting, SyncEvent::LengthsReported(v)) => {
            match select_longest_peer(v) {
                None => (SyncPhase::Idle, SyncAction::RunAsSeed),
                Some(i) => (SyncPhase::Downloading, SyncAction::Download { peer: i, length: v[i] }),
            }
        },
        (SyncPhase::Downloading, SyncEvent::ChainReceived) => (
            SyncPhase::Rebuilding,
            SyncAction::Adopt,
        ),
        (SyncPhase::Rebuilding, SyncEvent::Adopted(ok)) => {
            if *ok {
                (SyncPhase::Idle, SyncAction::Done)
            } else {
                (SyncPhase::Idle, SyncAction::Abandon)
            }
        },
        _ => (phase, SyncAction::Ignore),
    }
}

} // verus!
