//! The per-connection phase machine: which netplay message is valid in which
//! phase, and what receiving a valid one does. Receipt of an invalid or
//! malformed message is a protocol error surfaced to the session layer (the
//! sender's contribution is dropped, the phase unchanged); it is never an
//! indexing failure or a panic.

use vstd::prelude::*;

use crate::netplay_packets::{signals_contain, NetplayPacket, NetplayPacketData, NetplaySignal};
use crate::structures::{FileHash, PackageCategory, PackageId};

verus! {

/// The phases a connection to one remote peer moves through, in order, with
/// `Closed` terminal: there is no reconnect.
#[derive(Clone, Copy, PartialEq, Eq, Structural, Debug)]
pub enum ConnectionPhase {
    /// Waiting for the handshake to complete.
    Connecting,
    /// Exchanging `PlayerSetup` and syncing packages.
    SettingUp,
    /// The peer requests no further packages; waiting for its `Ready`.
    ReadyPending,
    /// Every participant is ready: per-frame `Buffer` messages flow.
    Steady,
    /// The peer disconnected; terminal.
    Closed,
}

/// Why a received message was rejected.
#[derive(Clone, Copy, PartialEq, Eq, Structural, Debug)]
pub enum ProtocolError {
    /// The message kind is not valid in the connection's current phase.
    UnexpectedMessage,
    /// A `PlayerSetup` named a regular-card index outside its own card list.
    RegularCardOutOfRange,
}

/// The transition table's validity half: which message kinds a peer may send
/// in each phase. `Heartbeat` is valid whenever the connection is open.
pub open spec fn message_allowed(phase: ConnectionPhase, data: NetplayPacketData) -> bool {
    match phase {
        ConnectionPhase::Connecting => {
            ||| data is Heartbeat
            ||| data is Hello
            ||| data is HelloAck
        },
        ConnectionPhase::SettingUp => {
            ||| data is Heartbeat
            ||| data is PlayerSetup
            ||| data is PackageList
            ||| data is MissingPackages
            ||| data is ReadyForPackages
            ||| data is PackageZip
            ||| data is Ready
        },
        ConnectionPhase::ReadyPending => {
            ||| data is Heartbeat
            ||| data is Ready
        },
        ConnectionPhase::Steady => {
            ||| data is Heartbeat
            ||| data is Buffer
        },
        ConnectionPhase::Closed => false,
    }
}

/// Whether a `PlayerSetup`'s regular-card index, if any, points inside its
/// own card list. Every other message kind is trivially well formed.
pub open spec fn setup_well_formed(data: NetplayPacketData) -> bool {
    data matches NetplayPacketData::PlayerSetup { cards, regular_card, .. } ==> (
    regular_card matches Some(i) ==> (i as int) < cards@.len())
}

/// The transition table's movement half: the phase after accepting a valid
/// message. The handshake completes on `Hello` or `HelloAck`;
/// `ReadyForPackages` ends the package loop; `Ready` enters the steady state;
/// a steady-state frame whose signals carry `Disconnect` closes the
/// connection, whatever inputs the frame holds.
pub open spec fn phase_after(phase: ConnectionPhase, data: NetplayPacketData) -> ConnectionPhase {
    match phase {
        ConnectionPhase::Connecting => {
            if data is Hello || data is HelloAck {
                ConnectionPhase::SettingUp
            } else {
                phase
            }
        },
        ConnectionPhase::SettingUp => {
            if data is ReadyForPackages {
                ConnectionPhase::ReadyPending
            } else if data is Ready {
                ConnectionPhase::Steady
            } else {
                phase
            }
        },
        ConnectionPhase::ReadyPending => {
            if data is Ready {
                ConnectionPhase::Steady
            } else {
                phase
            }
        },
        ConnectionPhase::Steady => {
            if data matches NetplayPacketData::Buffer { data: frame, .. }
                && frame.signals@.contains(NetplaySignal::Disconnect) {
                ConnectionPhase::Closed
            } else {
                phase
            }
        },
        ConnectionPhase::Closed => phase,
    }
}

/// The whole step: an invalid-in-phase message is rejected as unexpected, a
/// malformed `PlayerSetup` as out of range; a valid message moves the phase.
pub open spec fn step(phase: ConnectionPhase, data: NetplayPacketData) -> Result<
    ConnectionPhase,
    ProtocolError,
> {
    if !message_allowed(phase, data) {
        Err(ProtocolError::UnexpectedMessage)
    } else if !setup_well_formed(data) {
        Err(ProtocolError::RegularCardOutOfRange)
    } else {
        Ok(phase_after(phase, data))
    }
}

/// Receive one packet in the given phase: `Ok` carries the next phase, `Err`
/// the protocol error to surface while the phase stays put.
pub fn handle_packet(phase: ConnectionPhase, packet: &NetplayPacket) -> (r: Result<
    ConnectionPhase,
    ProtocolError,
>)
    ensures
        r == step(phase, packet.data),
{
    match phase {
        ConnectionPhase::Connecting => {
            match &packet.data {
                NetplayPacketData::Heartbeat => Ok(ConnectionPhase::Connecting),
                NetplayPacketData::Hello => Ok(ConnectionPhase::SettingUp),
                NetplayPacketData::HelloAck => Ok(ConnectionPhase::SettingUp),
                _ => Err(ProtocolError::UnexpectedMessage),
            }
        },
        ConnectionPhase::SettingUp => {
            match &packet.data {
                NetplayPacketData::Heartbeat => Ok(ConnectionPhase::SettingUp),
                NetplayPacketData::PlayerSetup { cards, regular_card, .. } => {
                    match regular_card {
                        Some(i) => {
                            if *i < cards.len() {
                                Ok(ConnectionPhase::SettingUp)
                            } else {
                                Err(ProtocolError::RegularCardOutOfRange)
                            }
                        },
                        None => Ok(ConnectionPhase::SettingUp),
                    }
                },
                NetplayPacketData::PackageList { .. } => Ok(ConnectionPhase::SettingUp),
                NetplayPacketData::MissingPackages { .. } => Ok(ConnectionPhase::SettingUp),
                NetplayPacketData::PackageZip { .. } => Ok(ConnectionPhase::SettingUp),
                NetplayPacketData::ReadyForPackages => Ok(ConnectionPhase::ReadyPending),
                NetplayPacketData::Ready => Ok(ConnectionPhase::Steady),
                _ => Err(ProtocolError::UnexpectedMessage),
            }
        },
        ConnectionPhase::ReadyPending => {
            match &packet.data {
                NetplayPacketData::Heartbeat => Ok(ConnectionPhase::ReadyPending),
                NetplayPacketData::Ready => Ok(ConnectionPhase::Steady),
                _ => Err(ProtocolError::UnexpectedMessage),
            }
        },
        ConnectionPhase::Steady => {
            match &packet.data {
                NetplayPacketData::Heartbeat => Ok(ConnectionPhase::Steady),
                NetplayPacketData::Buffer { data, .. } => {
                    if signals_contain(&data.signals, NetplaySignal::Disconnect) {
                        Ok(ConnectionPhase::Closed)
                    } else {
                        Ok(ConnectionPhase::Steady)
                    }
                },
                _ => Err(ProtocolError::UnexpectedMessage),
            }
        },
        ConnectionPhase::Closed => Err(ProtocolError::UnexpectedMessage),
    }
}

/// Whether a content hash with bytes `h` appears among `known`.
pub open spec fn hash_known(h: Seq<u8>, known: Seq<FileHash>) -> bool {
    exists|j: int| 0 <= j < known.len() && known[j].bytes@ == h
}

/// The content hashes an advertised package list names, in order, as byte
/// sequences.
pub open spec fn advertised_hashes(packages: Seq<(PackageCategory, PackageId, FileHash)>) -> Seq<
    Seq<u8>,
> {
    packages.map_values(|p: (PackageCategory, PackageId, FileHash)| p.2.bytes@)
}

/// The advertised hashes whose content the receiver lacks, in advertised
/// order: what a `MissingPackages` reply should name.
pub open spec fn unknown_of(
    packages: Seq<(PackageCategory, PackageId, FileHash)>,
    installed: Seq<FileHash>,
) -> Seq<Seq<u8>> {
    advertised_hashes(packages).filter(|h: Seq<u8>| !hash_known(h, installed))
}

/// The byte sequences a list of hashes holds, in order.
pub open spec fn hash_bytes(list: Seq<FileHash>) -> Seq<Seq<u8>> {
    list.map_values(|h: FileHash| h.bytes@)
}

/// Whether two content hashes hold the same bytes.
fn hash_eq(a: &FileHash, b: &FileHash) -> (r: bool)
    ensures
        r == (a.bytes@ == b.bytes@),
{
    let r = a.bytes == b.bytes;
    proof {
        if r {
            assert(a.bytes@ =~= b.bytes@);
        }
    }
    r
}

/// Whether the receiver already holds content with hash `h`.
fn holds_hash(h: &FileHash, known: &Vec<FileHash>) -> (r: bool)
    ensures
        r == hash_known(h.bytes@, known@),
{
    let mut j: usize = 0;
    while j < known.len()
        invariant
            j <= known@.len(),
            forall|k: int| 0 <= k < j ==> known@[k].bytes@ != h.bytes@,
        decreases known@.len() - j,
    {
        if hash_eq(&known[j], h) {
            return true;
        }
        j = j + 1;
    }
    false
}

/// Diff an advertised `PackageList` against the receiver's installed content:
/// the hashes to name in a `MissingPackages` reply are exactly the advertised
/// hashes the receiver lacks, in advertised order.
pub fn unknown_hashes(
    packages: &Vec<(PackageCategory, PackageId, FileHash)>,
    installed: &Vec<FileHash>,
) -> (r: Vec<FileHash>)
    ensures
        hash_bytes(r@) == unknown_of(packages@, installed@),
{
    let mut r: Vec<FileHash> = Vec::new();
    proof {
        assert(packages@.take(0) =~= Seq::<(PackageCategory, PackageId, FileHash)>::empty());
        assert(advertised_hashes(packages@.take(0)) =~= Seq::<Seq<u8>>::empty());
        assert(unknown_of(packages@.take(0), installed@) =~= Seq::<Seq<u8>>::empty());
        assert(hash_bytes(r@) =~= Seq::<Seq<u8>>::empty());
    }
    let mut i: usize = 0;
    while i < packages.len()
        invariant
            i <= packages@.len(),
            hash_bytes(r@) == unknown_of(packages@.take(i as int), installed@),
        decreases packages@.len() - i,
    {
        let hash = &packages[i].2;
        proof {
            reveal_with_fuel(Seq::<Seq<u8>>::filter, 2);
            assert(advertised_hashes(packages@.take(i + 1)).drop_last() =~= advertised_hashes(
                packages@.take(i as int),
            ));
            assert(advertised_hashes(packages@.take(i + 1)).last() == packages@[
                i as int
            ].2.bytes@);
            assert(unknown_of(packages@.take(i + 1), installed@) == if !hash_known(
                packages@[i as int].2.bytes@,
                installed@,
            ) {
                unknown_of(packages@.take(i as int), installed@).push(packages@[i as int].2.bytes@)
            } else {
                unknown_of(packages@.take(i as int), installed@)
            });
        }
        if !holds_hash(hash, installed) {
            let ghost before = r@;
            let copied = FileHash { bytes: copy_bytes(&hash.bytes) };
            r.push(copied);
            proof {
                assert(hash_bytes(r@) =~= hash_bytes(before).push(copied.bytes@));
            }
        }
        i = i + 1;
    }
    proof {
        assert(packages@.take(packages@.len() as int) =~= packages@);
    }
    r
}

/// A byte-for-byte copy of a hash's bytes.
fn copy_bytes(bytes: &Vec<u8>) -> (r: Vec<u8>)
    ensures
        r@ == bytes@,
{
    let mut r: Vec<u8> = Vec::new();
    let mut i: usize = 0;
    while i < bytes.len()
        invariant
            i <= bytes@.len(),
            r@ == bytes@.take(i as int),
        decreases bytes@.len() - i,
    {
        r.push(bytes[i]);
        proof {
            assert(r@ =~= bytes@.take(i + 1));
        }
        i = i + 1;
    }
    proof {
        assert(r@ =~= bytes@);
    }
    r
}

/// Validate a received `MissingPackages` list against what this peer actually
/// advertised: a request naming a hash never advertised is a protocol error
/// for the session layer to surface, never an indexing failure.
pub fn all_hashes_known(list: &Vec<FileHash>, advertised: &Vec<FileHash>) -> (r: bool)
    ensures
        r == forall|i: int|
            0 <= i < list@.len() ==> hash_known((#[trigger] list@[i]).bytes@, advertised@),
{
    let mut i: usize = 0;
    while i < list.len()
        invariant
            i <= list@.len(),
            forall|k: int| 0 <= k < i ==> hash_known((#[trigger] list@[k]).bytes@, advertised@),
        decreases list@.len() - i,
    {
        if !holds_hash(&list[i], advertised) {
            return false;
        }
        i = i + 1;
    }
    true
}

/// In the steady state, a frame whose signals carry `Disconnect` always
/// drives the connection to `Closed`, whatever inputs the frame holds.
pub proof fn lemma_disconnect_closes(data: NetplayPacketData)
    requires
        data matches NetplayPacketData::Buffer { data: frame, .. } && frame.signals@.contains(
            NetplaySignal::Disconnect,
        ),
    ensures
        step(ConnectionPhase::Steady, data) == Ok::<ConnectionPhase, ProtocolError>(
            ConnectionPhase::Closed,
        ),
{
}

} // verus!
