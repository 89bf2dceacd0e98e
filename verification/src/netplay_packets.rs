//! The netplay message set: out-of-band signals, the per-frame input snapshot,
//! and the tagged packet union covering handshake, setup, package sync and the
//! steady state. Adding, removing or reordering packet variants is a protocol
//! change that both peers must agree on before a connection is accepted.

use vstd::prelude::*;

use crate::structures::{FileHash, Input, InstalledBlock, InstalledSwitchDrive, PackageCategory,
    PackageId};

verus! {

/// An out-of-band, session-level control signal riding alongside the inputs of
/// a frame. Signals carry intent about the session, not frame-by-frame control
/// state; carrying them inside a frame keeps them ordered relative to inputs.
#[derive(Clone, Copy, PartialEq, Eq, Structural, Debug)]
pub enum NetplaySignal {
    AttemptingFlee,
    CompletedFlee,
    Disconnect,
}

/// One logical frame of a peer's input: the controls held that frame and the
/// signals active that frame. Both collections are unordered: two items are
/// equal exactly when their input sets and their signal sets are equal,
/// whatever order the vectors list them in.
#[derive(Clone, Debug)]
pub struct NetplayBufferItem {
    pub pressed: Vec<Input>,
    pub signals: Vec<NetplaySignal>,
}

/// The mathematical value of a frame: the set of held inputs and the set of
/// active signals.
pub type FrameSets = (Set<Input>, Set<NetplaySignal>);

impl View for NetplayBufferItem {
    type V = FrameSets;

    open spec fn view(&self) -> FrameSets {
        (self.pressed@.to_set(), self.signals@.to_set())
    }
}

/// The value of the default frame: nothing held, nothing signalled.
pub open spec fn empty_frame() -> FrameSets {
    (Set::<Input>::empty(), Set::<NetplaySignal>::empty())
}

/// Whether a vector of inputs lists `x`.
fn pressed_contains(v: &Vec<Input>, x: Input) -> (r: bool)
    ensures
        r == v@.contains(x),
{
    let mut i: usize = 0;
    while i < v.len()
        invariant
            i <= v@.len(),
            forall|j: int| 0 <= j < i ==> v@[j] != x,
        decreases v@.len() - i,
    {
        if v[i] == x {
            return true;
        }
        i = i + 1;
    }
    false
}

/// Whether a vector of signals lists `x`.
pub fn signals_contain(v: &Vec<NetplaySignal>, x: NetplaySignal) -> (r: bool)
    ensures
        r == v@.contains(x),
{
    let mut i: usize = 0;
    while i < v.len()
        invariant
            i <= v@.len(),
            forall|j: int| 0 <= j < i ==> v@[j] != x,
        decreases v@.len() - i,
    {
        if v[i] == x {
            return true;
        }
        i = i + 1;
    }
    false
}

/// Whether every input listed in `a` is also listed in `b`.
fn pressed_subset(a: &Vec<Input>, b: &Vec<Input>) -> (r: bool)
    ensures
        r == forall|x: Input| a@.contains(x) ==> b@.contains(x),
{
    let mut i: usize = 0;
    while i < a.len()
        invariant
            i <= a@.len(),
            forall|j: int| 0 <= j < i ==> b@.contains(a@[j]),
        decreases a@.len() - i,
    {
        if !pressed_contains(b, a[i]) {
            assert(a@.contains(a@[i as int]));
            return false;
        }
        i = i + 1;
    }
    assert forall|x: Input| a@.contains(x) implies b@.contains(x) by {
        let j = choose|j: int| 0 <= j < a@.len() && a@[j] == x;
        assert(b@.contains(a@[j]));
    }
    true
}

/// Whether every signal listed in `a` is also listed in `b`.
fn signals_subset(a: &Vec<NetplaySignal>, b: &Vec<NetplaySignal>) -> (r: bool)
    ensures
        r == forall|x: NetplaySignal| a@.contains(x) ==> b@.contains(x),
{
    let mut i: usize = 0;
    while i < a.len()
        invariant
            i <= a@.len(),
            forall|j: int| 0 <= j < i ==> b@.contains(a@[j]),
        decreases a@.len() - i,
    {
        if !signals_contain(b, a[i]) {
            assert(a@.contains(a@[i as int]));
            return false;
        }
        i = i + 1;
    }
    assert forall|x: NetplaySignal| a@.contains(x) implies b@.contains(x) by {
        let j = choose|j: int| 0 <= j < a@.len() && a@[j] == x;
        assert(b@.contains(a@[j]));
    }
    true
}

impl PartialEq for NetplayBufferItem {
    /// Order-independent equality: the frames hold the same input set and the
    /// same signal set, regardless of how the vectors order them.
    fn eq(&self, other: &Self) -> (r: bool) {
        let r = pressed_subset(&self.pressed, &other.pressed)
            && pressed_subset(&other.pressed, &self.pressed)
            && signals_subset(&self.signals, &other.signals)
            && signals_subset(&other.signals, &self.signals);
        proof {
            if r {
                assert(self.pressed@.to_set() =~= other.pressed@.to_set());
                assert(self.signals@.to_set() =~= other.signals@.to_set());
            } else {
                if self.pressed@.to_set() == other.pressed@.to_set()
                    && self.signals@.to_set() == other.signals@.to_set() {
                    assert forall|x: Input| self.pressed@.contains(x)
                        implies other.pressed@.contains(x) by {
                        assert(self.pressed@.to_set().contains(x));
                    }
                    assert forall|x: Input| other.pressed@.contains(x)
                        implies self.pressed@.contains(x) by {
                        assert(other.pressed@.to_set().contains(x));
                    }
                    assert forall|x: NetplaySignal| self.signals@.contains(x)
                        implies other.signals@.contains(x) by {
                        assert(self.signals@.to_set().contains(x));
                    }
                    assert forall|x: NetplaySignal| other.signals@.contains(x)
                        implies self.signals@.contains(x) by {
                        assert(other.signals@.to_set().contains(x));
                    }
                }
            }
        }
        r
    }
}

impl Eq for NetplayBufferItem {
}

impl vstd::std_specs::cmp::PartialEqSpecImpl for NetplayBufferItem {
    open spec fn obeys_eq_spec() -> bool {
        true
    }

    open spec fn eq_spec(&self, other: &Self) -> bool {
        self@ == other@
    }
}

impl Default for NetplayBufferItem {
    /// The default frame: no held inputs, no signals.
    fn default() -> (r: Self)
        ensures
            r@ == empty_frame(),
            r.pressed@ == Seq::<Input>::empty(),
            r.signals@ == Seq::<NetplaySignal>::empty(),
    {
        let r = NetplayBufferItem { pressed: Vec::new(), signals: Vec::new() };
        proof {
            assert(r.pressed@.to_set() =~= Set::<Input>::empty());
            assert(r.signals@.to_set() =~= Set::<NetplaySignal>::empty());
        }
        r
    }
}

impl NetplayBufferItem {
    /// A copy of this frame that lists the same inputs and signals in the
    /// same order.
    pub fn duplicate(&self) -> (r: Self)
        ensures
            r.pressed@ == self.pressed@,
            r.signals@ == self.signals@,
            r@ == self@,
    {
        let mut pressed: Vec<Input> = Vec::new();
        let mut i: usize = 0;
        while i < self.pressed.len()
            invariant
                i <= self.pressed@.len(),
                pressed@ == self.pressed@.take(i as int),
            decreases self.pressed@.len() - i,
        {
            pressed.push(self.pressed[i]);
            proof {
                assert(pressed@ =~= self.pressed@.take(i + 1));
            }
            i = i + 1;
        }
        let mut signals: Vec<NetplaySignal> = Vec::new();
        let mut j: usize = 0;
        while j < self.signals.len()
            invariant
                j <= self.signals@.len(),
                signals@ == self.signals@.take(j as int),
            decreases self.signals@.len() - j,
        {
            signals.push(self.signals[j]);
            proof {
                assert(signals@ =~= self.signals@.take(j + 1));
            }
            j = j + 1;
        }
        proof {
            assert(pressed@ =~= self.pressed@);
            assert(signals@ =~= self.signals@);
        }
        NetplayBufferItem { pressed, signals }
    }
}

/// One message on the wire. `index` names the participant slot the message
/// concerns (sender or addressed target, depending on the variant); it is not
/// a sequence number.
#[derive(Clone, Debug)]
pub struct NetplayPacket {
    pub index: usize,
    pub data: NetplayPacketData,
}

/// The closed, versioned message union, grouped by connection phase:
/// handshake (`Heartbeat`, `Hello`, `HelloAck`), setup (`PlayerSetup`),
/// package sync (`PackageList`, `MissingPackages`, `ReadyForPackages`,
/// `PackageZip`), and the steady state (`Ready`, `Buffer`).
#[derive(Clone, Debug)]
pub enum NetplayPacketData {
    Heartbeat,
    Hello,
    HelloAck,
    PlayerSetup {
        player_package: PackageId,
        script_enabled: bool,
        /// Available augment cards: package id and code.
        cards: Vec<(PackageId, String)>,
        /// Index into `cards` of the regular card, if any. An out-of-range
        /// index is a protocol error, never an indexing failure.
        regular_card: Option<usize>,
        recipes: Vec<PackageId>,
        blocks: Vec<InstalledBlock>,
        drives: Vec<InstalledSwitchDrive>,
    },
    PackageList {
        /// Every package the sender already holds: category, id, content hash.
        packages: Vec<(PackageCategory, PackageId, FileHash)>,
    },
    MissingPackages {
        recipient_index: usize,
        list: Vec<FileHash>,
    },
    ReadyForPackages,
    PackageZip {
        data: Vec<u8>,
    },
    Ready,
    Buffer {
        /// The sender's input frame for its current locally-simulated frame.
        data: NetplayBufferItem,
        /// Per-participant signed delay-adjustment hints, in frames.
        lead: Vec<i16>,
    },
}

impl NetplayPacket {
    /// A zero-input steady-state frame whose only signal is `Disconnect`, at
    /// the given participant index: the orderly way for a peer to leave, kept
    /// in order relative to its input frames.
    pub fn new_disconnect_signal(index: usize) -> (r: NetplayPacket)
        ensures
            r.index == index,
            r.data matches NetplayPacketData::Buffer { data, lead }
                && data.pressed@ == Seq::<Input>::empty()
                && data.signals@ == seq![NetplaySignal::Disconnect]
                && data@ == (Set::<Input>::empty(), set![NetplaySignal::Disconnect])
                && lead@ == Seq::<i16>::empty(),
    {
        let pressed: Vec<Input> = Vec::new();
        let mut signals: Vec<NetplaySignal> = Vec::new();
        signals.push(NetplaySignal::Disconnect);
        proof {
            assert(signals@ =~= seq![NetplaySignal::Disconnect]);
            assert(pressed@.to_set() =~= Set::<Input>::empty());
            assert(signals@.contains(NetplaySignal::Disconnect)) by {
                assert(signals@[0] == NetplaySignal::Disconnect);
            }
            assert(signals@.to_set() =~= set![NetplaySignal::Disconnect]) by {
                assert forall|x: NetplaySignal| signals@.contains(x)
                    implies x == NetplaySignal::Disconnect by {
                    let j = choose|j: int| 0 <= j < signals@.len() && signals@[j] == x;
                }
            }
        }
        NetplayPacket {
            index,
            data: NetplayPacketData::Buffer {
                data: NetplayBufferItem { pressed, signals },
                lead: Vec::new(),
            },
        }
    }
}

} // verus!
