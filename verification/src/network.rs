//! Wi-Fi Direct displays: which devices are displays, which of them is meant, and when a
//! connection to one is up.
use crate::number;
use crate::text;
use vstd::prelude::*;

verus! {

/// The address that the source is given.
pub const LOCAL_ADDRESS: &'static str = "192.168.49.10";

/// The address of the display.
pub const TV_ADDRESS: &'static str = "192.168.49.1";

/// A display that was found.
#[derive(Debug, PartialEq, Eq)]
pub struct Peer {
    pub name: String,
    pub mac: String,
    pub device: String,
    pub peer: String,
}

/// A display that was found.
pub ghost struct PeerModel {
    pub name: Seq<char>,
    pub mac: Seq<char>,
    pub device: Seq<char>,
    pub peer: Seq<char>,
}

impl View for Peer {
    type V = PeerModel;

    open spec fn view(&self) -> PeerModel {
        PeerModel {
            name: self.name@,
            mac: self.mac@,
            device: self.device@,
            peer: self.peer@,
        }
    }
}

impl Peer {
    /// A copy.
    pub fn copied(&self) -> (r: Peer)
        ensures
            r@ == self@,
    {
        Peer {
            name: self.name.clone(),
            mac: self.mac.clone(),
            device: self.device.clone(),
            peer: self.peer.clone(),
        }
    }
}

/// Why there is no connection.
#[derive(Debug, PartialEq, Eq)]
pub enum NetworkError<T> {
    /// No device for Wi-Fi Direct.
    NoDevice,
    /// The user gave up.
    Cancelled,
    /// The device has a connection.
    DeviceBusy(T),
    /// Another connection is up.
    ConnectionBusy(T),
    /// The connection failed, in this state.
    ActivationFailed(u32),
    /// The connection did not come up in time.
    ActivationTimeout,
    /// None or several displays match.
    NotOneMatch(usize),
    /// The display gave out other addresses, which are shown as a list.
    ForeignAddresses(T),
    /// A reply to another task.
    Unexpected,
}

impl NetworkError<String> {
    /// The error with its text as a sequence.
    pub open spec fn view(self) -> NetworkError<Seq<char>> {
        match self {
            NetworkError::NoDevice => NetworkError::NoDevice,
            NetworkError::Cancelled => NetworkError::Cancelled,
            NetworkError::DeviceBusy(s) => NetworkError::DeviceBusy(s@),
            NetworkError::ConnectionBusy(s) => NetworkError::ConnectionBusy(s@),
            NetworkError::ActivationFailed(n) => NetworkError::ActivationFailed(n),
            NetworkError::ActivationTimeout => NetworkError::ActivationTimeout,
            NetworkError::NotOneMatch(n) => NetworkError::NotOneMatch(n),
            NetworkError::ForeignAddresses(s) => NetworkError::ForeignAddresses(s@),
            NetworkError::Unexpected => NetworkError::Unexpected,
        }
    }

    /// The message shown to the user.
    pub fn text(&self) -> (r: String)
        ensures
            r@ == error_text(self@),
    {
        match self {
            NetworkError::NoDevice => {
                "NetworkManager has no Wi-Fi Direct device. Check the Wi-Fi adapter and wpa_supplicant.".to_owned()
            },
            NetworkError::Cancelled => "Operation cancelled".to_owned(),
            NetworkError::DeviceBusy(s) => {
                "Wi-Fi Direct device already has an active connection (".to_owned().concat(
                    s.as_str(),
                ).concat("); stop that session before mirroring.")
            },
            NetworkError::ConnectionBusy(s) => {
                "An existing Wi-Fi Direct connection (".to_owned().concat(s.as_str()).concat(
                    ") is still active; stop that session before mirroring.",
                )
            },
            NetworkError::ActivationFailed(n) => {
                "Wi-Fi Direct activation failed (active connection state ".to_owned().concat(
                    number::decimal_text(*n as u64).as_str(),
                ).concat(")")
            },
            NetworkError::ActivationTimeout => {
                "Timed out waiting for Wi-Fi Direct activation and 192.168.49.10/24".to_owned()
            },
            NetworkError::NotOneMatch(n) => "Found ".to_owned().concat(
                number::decimal_text(*n as u64).as_str(),
            ).concat(" matching Miracast displays; use discover and --tv NAME_OR_MAC."),
            NetworkError::ForeignAddresses(s) => {
                "Wi-Fi Direct DHCP assigned ".to_owned().concat(s.as_str()).concat(
                    ", but the current firewall permits 192.168.49.10. The firewall was not changed.",
                )
            },
            NetworkError::Unexpected => "Reply to another network task".to_owned(),
        }
    }
}

/// The text of each error.
pub open spec fn error_text(e: NetworkError<Seq<char>>) -> Seq<char> {
    match e {
        NetworkError::NoDevice => {
            "NetworkManager has no Wi-Fi Direct device. Check the Wi-Fi adapter and wpa_supplicant."@
        },
        NetworkError::Cancelled => "Operation cancelled"@,
        NetworkError::DeviceBusy(s) => "Wi-Fi Direct device already has an active connection ("@ + s
            + "); stop that session before mirroring."@,
        NetworkError::ConnectionBusy(s) => "An existing Wi-Fi Direct connection ("@ + s
            + ") is still active; stop that session before mirroring."@,
        NetworkError::ActivationFailed(n) => {
            "Wi-Fi Direct activation failed (active connection state "@ + number::decimal(n as int)
                + ")"@
        },
        NetworkError::ActivationTimeout => {
            "Timed out waiting for Wi-Fi Direct activation and 192.168.49.10/24"@
        },
        NetworkError::NotOneMatch(n) => "Found "@ + number::decimal(n as int)
            + " matching Miracast displays; use discover and --tv NAME_OR_MAC."@,
        NetworkError::ForeignAddresses(s) => "Wi-Fi Direct DHCP assigned "@ + s
            + ", but the current firewall permits 192.168.49.10. The firewall was not changed."@,
        NetworkError::Unexpected => "Reply to another network task"@,
    }
}

/// Fails when the user has given up.
pub fn cancelled(stop: bool) -> (r: Result<(), NetworkError<String>>)
    ensures
        r is Ok <==> !stop,
        r is Err ==> r->Err_0@ is Cancelled,
{
    if stop {
        Err(NetworkError::Cancelled)
    } else {
        Ok(())
    }
}

// ---------------------------------------------------------------------------
// Displays
// ---------------------------------------------------------------------------

/// Whether the elements from `offset` say that the device is a display: its role, in the
/// first element of device information that is long enough, is other than that of a
/// source. Elements that do not fit say nothing.
pub open spec fn display_from(data: Seq<u8>, offset: int) -> bool
    decreases data.len() - offset,
{
    let size = data[offset + 1] * 256 + data[offset + 2];
    if offset < 0 || offset + 3 > data.len() || size > data.len() - offset - 3 {
        false
    } else if data[offset] == 0 && size >= 6 {
        data[offset + 4] as int % 4 != 0
    } else {
        display_from(data, offset + 3 + size)
    }
}

/// Whether Wi-Fi Display elements are those of a display.
pub fn is_display(data: &[u8]) -> (r: bool)
    ensures
        r == display_from(data@, 0),
{
    let mut offset: usize = 0;
    while data.len() - offset >= 3
        invariant
            offset <= data@.len(),
            display_from(data@, 0) == display_from(data@, offset as int),
        decreases data@.len() - offset,
    {
        let tag: u8 = data[offset];
        let size: usize = data[offset + 1] as usize * 256 + data[offset + 2] as usize;
        if size > data.len() - offset - 3 {
            return false;
        }
        if tag == 0 && size >= 6 {
            return data[offset + 4] % 4 != 0;
        }
        offset = offset + 3 + size;
    }
    false
}

/// The elements of this source: session available, port 7236, 200 Mbit/s, and the second
/// version of the protocol.
pub open spec fn source_elements() -> Seq<u8> {
    seq![0u8, 0, 6, 0, 0x90, 0x1c, 0x44, 0, 0xc8, 0x0b, 0, 2, 0, 0]
}

/// The elements of this source.
pub fn wfd_source_r2() -> (r: Vec<u8>)
    ensures
        r@ == source_elements(),
{
    let v: Vec<u8> = vec![0, 0, 6, 0, 0x90, 0x1c, 0x44, 0, 0xc8, 0x0b, 0, 2, 0, 0];
    proof {
        assert(v@ =~= source_elements());
    }
    v
}

/// Only a device of this kind takes part in Wi-Fi Direct.
pub fn is_p2p_device(kind: u32) -> (r: bool)
    ensures
        r == (kind == 30),
{
    kind == 30
}

/// How long to look for displays: at least one second, at most ten minutes.
pub fn scan_seconds(timeout_secs: u64) -> (r: i32)
    ensures
        r == if timeout_secs < 1 {
            1int
        } else if timeout_secs > 600 {
            600int
        } else {
            timeout_secs as int
        },
{
    if timeout_secs < 1 {
        1
    } else if timeout_secs > 600 {
        600
    } else {
        timeout_secs as i32
    }
}

/// There has to be a device for Wi-Fi Direct.
pub fn check_devices(count: usize) -> (r: Result<(), NetworkError<String>>)
    ensures
        r is Ok <==> count > 0,
        r is Err ==> r->Err_0@ is NoDevice,
{
    if count == 0 {
        Err(NetworkError::NoDevice)
    } else {
        Ok(())
    }
}

/// In the order of their characters, a prefix before what it starts.
pub open spec fn precedes(a: Seq<char>, b: Seq<char>) -> bool
    decreases a.len(),
{
    if b.len() == 0 {
        false
    } else if a.len() == 0 {
        true
    } else if a[0] == b[0] {
        precedes(a.skip(1), b.skip(1))
    } else {
        a[0] < b[0]
    }
}

/// By name, then by address.
pub open spec fn listed_before(a: PeerModel, b: PeerModel) -> bool {
    precedes(a.name, b.name) || (a.name == b.name && precedes(a.mac, b.mac))
}

/// Peers as models.
pub open spec fn peer_views(v: Seq<Peer>) -> Seq<PeerModel> {
    Seq::new(v.len(), |i: int| v[i]@)
}

/// Each display once, by its address, in the order of the list.
pub open spec fn is_list(v: Seq<PeerModel>) -> bool {
    &&& forall|i: int, j: int| 0 <= i < j < v.len() ==> #[trigger] v[i].mac != #[trigger] v[j].mac
    &&& forall|i: int, j: int|
        0 <= i < j < v.len() ==> listed_before(#[trigger] v[i], #[trigger] v[j])
}

/// Whether a list is another one with a display added, which takes the place of one of the
/// same address.
pub open spec fn is_added(before: Seq<PeerModel>, peer: PeerModel, after: Seq<PeerModel>) -> bool {
    &&& is_list(after)
    &&& forall|p: PeerModel|
        #![auto]
        after.contains(p) <==> p == peer || (before.contains(p) && p.mac != peer.mac)
}

/// The list with a display added.
pub open spec fn added(before: Seq<PeerModel>, peer: PeerModel) -> Seq<PeerModel> {
    choose|after: Seq<PeerModel>| is_added(before, peer, after)
}

/// In the order of their characters.
fn comes_before(a: &[char], b: &[char]) -> (r: bool)
    ensures
        r == precedes(a@, b@),
{
    let mut i: usize = 0;
    proof {
        assert(a@.skip(0) =~= a@);
        assert(b@.skip(0) =~= b@);
    }
    while i < a.len() && i < b.len() && a[i] == b[i]
        invariant
            i <= a@.len(),
            i <= b@.len(),
            precedes(a@, b@) == precedes(a@.skip(i as int), b@.skip(i as int)),
        decreases a@.len() - i,
    {
        proof {
            assert(a@.skip(i as int).skip(1) =~= a@.skip(i + 1));
            assert(b@.skip(i as int).skip(1) =~= b@.skip(i + 1));
        }
        i = i + 1;
    }
    if i == b.len() {
        false
    } else if i == a.len() {
        true
    } else {
        a[i] < b[i]
    }
}

/// By name, then by address.
fn goes_before(a: &Peer, b: &Peer) -> (r: bool)
    ensures
        r == listed_before(a@, b@),
{
    let x = text::chars_of(a.name.as_str());
    let y = text::chars_of(b.name.as_str());
    if comes_before(x.as_slice(), y.as_slice()) {
        return true;
    }
    if !text::same_chars(x.as_slice(), y.as_slice()) {
        return false;
    }
    let p = text::chars_of(a.mac.as_str());
    let q = text::chars_of(b.mac.as_str());
    comes_before(p.as_slice(), q.as_slice())
}

/// One of two different texts goes before the other.
proof fn lemma_total(a: Seq<char>, b: Seq<char>)
    ensures
        a == b || precedes(a, b) || precedes(b, a),
        !(precedes(a, b) && precedes(b, a)),
        !precedes(a, a),
    decreases a.len(),
{
    if a.len() > 0 && b.len() > 0 && a[0] == b[0] {
        lemma_total(a.skip(1), b.skip(1));
        lemma_total(a.skip(1), a.skip(1));
        if a.skip(1) == b.skip(1) {
            assert(a =~= seq![a[0]] + a.skip(1));
            assert(b =~= seq![b[0]] + b.skip(1));
        }
    } else if a.len() > 0 {
        lemma_total(a.skip(1), a.skip(1));
        if b.len() == 0 {
        }
    } else if b.len() == 0 {
        assert(a =~= b);
    }
}

/// The order of texts is transitive.
proof fn lemma_transitive(a: Seq<char>, b: Seq<char>, c: Seq<char>)
    requires
        precedes(a, b),
        precedes(b, c),
    ensures
        precedes(a, c),
    decreases a.len(),
{
    if a.len() > 0 && b.len() > 0 && c.len() > 0 && a[0] == b[0] && b[0] == c[0] {
        lemma_transitive(a.skip(1), b.skip(1), c.skip(1));
    }
}

/// The order of the list is transitive.
proof fn lemma_list_transitive(a: PeerModel, b: PeerModel, c: PeerModel)
    requires
        listed_before(a, b),
        listed_before(b, c),
    ensures
        listed_before(a, c),
{
    if precedes(a.name, b.name) && precedes(b.name, c.name) {
        lemma_transitive(a.name, b.name, c.name);
    } else if a.name == b.name && b.name == c.name {
        lemma_transitive(a.mac, b.mac, c.mac);
    }
}

/// Removing one keeps a list.
proof fn lemma_list_remove(v: Seq<PeerModel>, k: int)
    requires
        is_list(v),
        0 <= k < v.len(),
    ensures
        is_list(v.remove(k)),
        forall|p: PeerModel|
            #![auto]
            v.remove(k).contains(p) <==> v.contains(p) && p != v[k],
{
    let w = v.remove(k);
    assert forall|i: int, j: int| 0 <= i < j < w.len() implies #[trigger] w[i].mac
        != #[trigger] w[j].mac by {
        let a = if i < k {
            i
        } else {
            i + 1
        };
        let b = if j < k {
            j
        } else {
            j + 1
        };
        assert(w[i] == v[a] && w[j] == v[b]);
        assert(v[a].mac != v[b].mac);
    }
    assert forall|i: int, j: int| 0 <= i < j < w.len() implies listed_before(
        #[trigger] w[i],
        #[trigger] w[j],
    ) by {
        let a = if i < k {
            i
        } else {
            i + 1
        };
        let b = if j < k {
            j
        } else {
            j + 1
        };
        assert(w[i] == v[a] && w[j] == v[b]);
        assert(listed_before(v[a], v[b]));
    }
    assert forall|p: PeerModel| #![auto] w.contains(p) <==> v.contains(p) && p != v[k] by {
        if w.contains(p) {
            let i = choose|i: int| 0 <= i < w.len() && w[i] == p;
            let a = if i < k {
                i
            } else {
                i + 1
            };
            assert(v[a] == p);
            if a < k {
                assert(v[a].mac != v[k].mac);
            } else {
                assert(v[k].mac != v[a].mac);
            }
        }
        if v.contains(p) && p != v[k] {
            let a = choose|a: int| 0 <= a < v.len() && v[a] == p;
            if a < k {
                assert(w[a] == p);
            } else {
                assert(w[a - 1] == p);
            }
        }
    }
}

/// The displays that were found so far.
pub struct Discovery {
    peers: Vec<Peer>,
}

impl View for Discovery {
    type V = Seq<PeerModel>;

    closed spec fn view(&self) -> Seq<PeerModel> {
        peer_views(self.peers@)
    }
}

impl Discovery {
    /// No displays.
    pub fn new() -> (r: Discovery)
        ensures
            r@ == Seq::<PeerModel>::empty(),
            is_list(r@),
    {
        let r = Discovery { peers: Vec::new() };
        proof {
            assert(r@ =~= Seq::<PeerModel>::empty());
        }
        r
    }

    /// A display was found. One of the same address makes room for it.
    pub fn add(&mut self, peer: Peer)
        requires
            is_list(old(self)@),
        ensures
            final(self)@ == added(old(self)@, peer@),
            is_added(old(self)@, peer@, final(self)@),
    {
        let ghost start = self@;
        let mut i: usize = 0;
        while i < self.peers.len() && !text::same(
            self.peers[i].mac.as_str(),
            peer.mac.as_str(),
        )
            invariant
                i <= self.peers@.len(),
                self@ == start,
                forall|k: int| 0 <= k < i ==> (#[trigger] self@[k]).mac != peer@.mac,
            decreases self.peers@.len() - i,
        {
            proof {
                assert(self@[i as int] == self.peers@[i as int]@);
            }
            i = i + 1;
        }
        if i < self.peers.len() {
            proof {
                assert(start[i as int] == self.peers@[i as int]@);
                lemma_list_remove(start, i as int);
            }
            self.peers.remove(i);
            proof {
                assert(self@ =~= start.remove(i as int));
            }
        }
        let ghost rest = self@;
        proof {
            assert forall|p: PeerModel| #![auto] rest.contains(p) <==> start.contains(p) && p.mac
                != peer@.mac by {
                if start.contains(p) && p.mac != peer@.mac && i < start.len() {
                    assert(p != start[i as int]);
                }
                if rest.contains(p) && p.mac == peer@.mac {
                    let k = choose|k: int| 0 <= k < start.len() && start[k] == p;
                    if i < start.len() {
                        if k < i {
                            assert(start[k].mac != start[i as int].mac);
                        } else if k > i {
                            assert(start[i as int].mac != start[k].mac);
                        }
                    } else {
                        assert(start[k].mac != peer@.mac);
                    }
                }
            }
            assert forall|k: int| 0 <= k < rest.len() implies (#[trigger] rest[k]).mac
                != peer@.mac by {
                assert(rest.contains(rest[k]));
            }
        }
        let mut at: usize = 0;
        while at < self.peers.len() && goes_before(&self.peers[at], &peer)
            invariant
                at <= self.peers@.len(),
                self@ == rest,
                forall|k: int| 0 <= k < at ==> listed_before(#[trigger] rest[k], peer@),
            decreases self.peers@.len() - at,
        {
            proof {
                assert(rest[at as int] == self.peers@[at as int]@);
            }
            at = at + 1;
        }
        let ghost placed = peer@;
        proof {
            if at < self.peers@.len() {
                assert(rest[at as int] == self.peers@[at as int]@);
                lemma_total(rest[at as int].name, placed.name);
                lemma_total(rest[at as int].mac, placed.mac);
                assert(listed_before(placed, rest[at as int]));
            }
            lemma_insert(rest, at as int, placed);
        }
        self.peers.insert(at, peer);
        proof {
            assert(self@ =~= rest.insert(at as int, placed));
            assert forall|p: PeerModel| #![auto] self@.contains(p) <==> p == placed || (
            old(self)@.contains(p) && p.mac != placed.mac) by {
                assert(rest.contains(p) <==> start.contains(p) && p.mac != placed.mac);
                assert(rest.insert(at as int, placed).contains(p) <==> p == placed
                    || rest.contains(p));
            }
            lemma_added(old(self)@, placed, self@);
        }
    }

    /// The list of the displays.
    pub fn listed(&self) -> (r: Vec<Peer>)
        ensures
            peer_views(r@) == self@,
    {
        let mut v: Vec<Peer> = Vec::new();
        let mut i: usize = 0;
        while i < self.peers.len()
            invariant
                i <= self.peers@.len(),
                v@.len() == i,
                forall|k: int| 0 <= k < i ==> (#[trigger] v@[k])@ == self.peers@[k]@,
            decreases self.peers@.len() - i,
        {
            v.push(self.peers[i].copied());
            i = i + 1;
        }
        proof {
            assert(peer_views(v@) =~= self@);
        }
        v
    }
}

/// A list that a display was added to is the list with it.
proof fn lemma_added(before: Seq<PeerModel>, peer: PeerModel, after: Seq<PeerModel>)
    requires
        is_added(before, peer, after),
    ensures
        added(before, peer) == after,
{
    let chosen = added(before, peer);
    assert(is_added(before, peer, chosen));
    assert forall|p: PeerModel| #![auto] chosen.contains(p) <==> after.contains(p) by {
        assert(chosen.contains(p) <==> p == peer || (before.contains(p) && p.mac != peer.mac));
        assert(after.contains(p) <==> p == peer || (before.contains(p) && p.mac != peer.mac));
    }
    law_lists_are_unique(chosen, after);
}

/// Where a display belongs in a list.
spec fn place(v: Seq<PeerModel>, peer: PeerModel, from: int) -> int
    decreases v.len() - from,
{
    if from < 0 || from >= v.len() || !listed_before(v[from], peer) {
        from
    } else {
        place(v, peer, from + 1)
    }
}

/// Before the place of a display are those that go before it.
proof fn lemma_place(v: Seq<PeerModel>, peer: PeerModel, from: int)
    requires
        0 <= from <= v.len(),
    ensures
        from <= place(v, peer, from) <= v.len(),
        forall|k: int| from <= k < place(v, peer, from) ==> listed_before(#[trigger] v[k], peer),
        place(v, peer, from) < v.len() ==> !listed_before(v[place(v, peer, from)], peer),
    decreases v.len() - from,
{
    if from < v.len() && listed_before(v[from], peer) {
        lemma_place(v, peer, from + 1);
    }
}

/// A display can be added to every list: the list with it is one, has the display, and
/// otherwise what it had before.
pub proof fn law_displays_can_be_added(before: Seq<PeerModel>, peer: PeerModel)
    requires
        is_list(before),
    ensures
        is_added(before, peer, added(before, peer)),
{
    let rest = if exists|k: int| 0 <= k < before.len() && (#[trigger] before[k]).mac == peer.mac {
        let k = choose|k: int| 0 <= k < before.len() && (#[trigger] before[k]).mac == peer.mac;
        before.remove(k)
    } else {
        before
    };
    assert(is_list(rest) && forall|p: PeerModel|
        #![auto]
        rest.contains(p) <==> before.contains(p) && p.mac != peer.mac) by {
        if exists|k: int| 0 <= k < before.len() && (#[trigger] before[k]).mac == peer.mac {
            let k = choose|k: int| 0 <= k < before.len() && (#[trigger] before[k]).mac == peer.mac;
            lemma_list_remove(before, k);
            assert forall|p: PeerModel| #![auto] rest.contains(p) <==> before.contains(p) && p.mac
                != peer.mac by {
                assert(rest.contains(p) <==> before.contains(p) && p != before[k]);
                if before.contains(p) && p.mac == peer.mac {
                    let i = choose|i: int| 0 <= i < before.len() && before[i] == p;
                    if i < k {
                        assert(before[i].mac != before[k].mac);
                    } else if i > k {
                        assert(before[k].mac != before[i].mac);
                    }
                }
            }
        } else {
            assert forall|p: PeerModel| #![auto] rest.contains(p) <==> before.contains(p) && p.mac
                != peer.mac by {
                if before.contains(p) {
                    let i = choose|i: int| 0 <= i < before.len() && before[i] == p;
                    assert(before[i].mac != peer.mac);
                }
            }
        }
    }
    assert forall|k: int| 0 <= k < rest.len() implies (#[trigger] rest[k]).mac != peer.mac by {
        assert(rest.contains(rest[k]));
    }
    lemma_place(rest, peer, 0);
    let at = place(rest, peer, 0);
    if at < rest.len() {
        lemma_total(rest[at].name, peer.name);
        lemma_total(rest[at].mac, peer.mac);
    }
    lemma_insert(rest, at, peer);
    let after = rest.insert(at, peer);
    assert forall|p: PeerModel| #![auto] after.contains(p) <==> p == peer || (before.contains(p)
        && p.mac != peer.mac) by {
        assert(rest.insert(at, peer).contains(p) <==> p == peer || rest.contains(p));
        assert(rest.contains(p) <==> before.contains(p) && p.mac != peer.mac);
    }
    assert(is_added(before, peer, after));
}

/// Putting one where it belongs keeps a list.
proof fn lemma_insert(v: Seq<PeerModel>, at: int, p: PeerModel)
    requires
        is_list(v),
        0 <= at <= v.len(),
        forall|k: int| 0 <= k < at ==> listed_before(#[trigger] v[k], p),
        at < v.len() ==> listed_before(p, v[at]),
        forall|k: int| 0 <= k < v.len() ==> (#[trigger] v[k]).mac != p.mac,
    ensures
        is_list(v.insert(at, p)),
        forall|q: PeerModel|
            #![trigger v.insert(at, p).contains(q)]
            v.insert(at, p).contains(q) <==> q == p || v.contains(q),
{
    let w = v.insert(at, p);
    assert forall|i: int, j: int| 0 <= i < j < w.len() implies #[trigger] w[i].mac
        != #[trigger] w[j].mac by {
        let a = if i < at {
            i
        } else {
            i - 1
        };
        let b = if j < at {
            j
        } else {
            j - 1
        };
        if i != at && j != at {
            assert(w[i] == v[a] && w[j] == v[b]);
            assert(v[a].mac != v[b].mac);
        } else if i == at {
            assert(w[j] == v[b]);
        } else {
            assert(w[i] == v[a]);
        }
    }
    assert forall|i: int, j: int| 0 <= i < j < w.len() implies listed_before(
        #[trigger] w[i],
        #[trigger] w[j],
    ) by {
        if j < at {
            assert(w[i] == v[i] && w[j] == v[j]);
            assert(listed_before(v[i], v[j]));
        } else if j == at {
            assert(w[i] == v[i]);
            assert(listed_before(v[i], p));
        } else if i < at {
            assert(w[i] == v[i] && w[j] == v[j - 1]);
            assert(listed_before(v[i], v[j - 1]));
        } else if i == at {
            assert(w[j] == v[j - 1]);
            if j - 1 > at {
                assert(listed_before(v[at], v[j - 1]));
                lemma_list_transitive(p, v[at], v[j - 1]);
            }
        } else {
            assert(w[i] == v[i - 1] && w[j] == v[j - 1]);
            assert(listed_before(v[i - 1], v[j - 1]));
        }
    }
    assert forall|q: PeerModel| #![auto] w.contains(q) <==> q == p || v.contains(q) by {
        if w.contains(q) {
            let i = choose|i: int| 0 <= i < w.len() && w[i] == q;
            if i < at {
                assert(v[i] == q);
            } else if i > at {
                assert(v[i - 1] == q);
            }
        }
        if v.contains(q) {
            let k = choose|k: int| 0 <= k < v.len() && v[k] == q;
            if k < at {
                assert(w[k] == q);
            } else {
                assert(w[k + 1] == q);
            }
        }
        if q == p {
            assert(w[at] == q);
        }
    }
}

// ---------------------------------------------------------------------------
// The display that is meant
// ---------------------------------------------------------------------------

/// The text that `str::to_lowercase` gives.
pub uninterp spec fn unicode_lowercase(s: Seq<char>) -> Seq<char>;

/// `str::to_lowercase`: the text in lower case, by the rules of Unicode.
#[verifier::external_body]
fn lowered(s: &str) -> (r: String)
    ensures
        r@ == unicode_lowercase(s@),
{
    s.to_lowercase()
}

/// Whether a display is meant: its name in lower case holds the target, or the target is
/// its address, in upper or lower case.
pub open spec fn is_meant(lower_name: Seq<char>, mac: Seq<char>, target: Seq<char>) -> bool {
    text::contains(lower_name, target) || text::lowercase(mac) == text::lowercase(target)
}

/// The places of the displays that are meant, among the first `n`.
pub open spec fn meant(
    lower_names: Seq<Seq<char>>,
    macs: Seq<Seq<char>>,
    target: Seq<char>,
    n: int,
) -> Seq<int>
    decreases n,
{
    if n <= 0 {
        Seq::empty()
    } else {
        let before = meant(lower_names, macs, target, n - 1);
        if is_meant(lower_names[n - 1], macs[n - 1], target) {
            before.push(n - 1)
        } else {
            before
        }
    }
}

/// The names of displays in lower case.
pub open spec fn lower_names(v: Seq<Peer>) -> Seq<Seq<char>> {
    Seq::new(v.len(), |i: int| unicode_lowercase(v[i].name@))
}

/// The addresses of displays.
pub open spec fn macs(v: Seq<Peer>) -> Seq<Seq<char>> {
    Seq::new(v.len(), |i: int| v[i].mac@)
}

/// Texts as sequences.
pub open spec fn text_views(v: Seq<String>) -> Seq<Seq<char>> {
    Seq::new(v.len(), |i: int| v[i]@)
}

/// The place of the one display that is meant, given its name and the target in lower
/// case.
pub fn select_lowered(names: &Vec<String>, devices: &[Peer], target: &str) -> (r: Result<
    usize,
    NetworkError<String>,
>)
    requires
        names@.len() == devices@.len(),
    ensures
        ({
            let found = meant(
                text_views(names@),
                macs(devices@),
                target@,
                devices@.len() as int,
            );
            if found.len() == 1 {
                r is Ok && r->Ok_0 == found[0] && r->Ok_0 < devices@.len()
            } else {
                r is Err && r->Err_0@ == NetworkError::<Seq<char>>::NotOneMatch(
                    found.len() as usize,
                ) && found.len() <= usize::MAX
            }
        }),
{
    let wanted = text::chars_of(target);
    let ghost all = text_views(names@);
    let ghost addresses = macs(devices@);
    let mut count: usize = 0;
    let mut last: usize = 0;
    let mut i: usize = 0;
    while i < devices.len()
        invariant
            i <= devices@.len(),
            names@.len() == devices@.len(),
            wanted@ == target@,
            all == text_views(names@),
            addresses == macs(devices@),
            count <= i,
            count == meant(all, addresses, target@, i as int).len(),
            count > 0 ==> last < devices@.len() && last == meant(
                all,
                addresses,
                target@,
                i as int,
            ).last(),
        decreases devices@.len() - i,
    {
        proof {
            assert(all[i as int] == names@[i as int]@);
            assert(addresses[i as int] == devices@[i as int].mac@);
        }
        let name = text::chars_of(names[i].as_str());
        let mac = text::chars_of(devices[i].mac.as_str());
        if text::has(name.as_slice(), target) || text::same_ignoring_case(
            mac.as_slice(),
            wanted.as_slice(),
        ) {
            count = count + 1;
            last = i;
        }
        i = i + 1;
    }
    if count == 1 {
        Ok(last)
    } else {
        Err(NetworkError::NotOneMatch(count))
    }
}

/// The one display that is meant by a part of its name or by its address.
pub fn select_tv<'a>(devices: &'a [Peer], target: &str) -> (r: Result<
    &'a Peer,
    NetworkError<String>,
>)
    ensures
        ({
            let found = meant(
                lower_names(devices@),
                macs(devices@),
                unicode_lowercase(target@),
                devices@.len() as int,
            );
            if found.len() == 1 {
                r is Ok && *r->Ok_0 == devices@[found[0]]
            } else {
                r is Err && r->Err_0@ == NetworkError::<Seq<char>>::NotOneMatch(
                    found.len() as usize,
                )
            }
        }),
{
    let wanted = lowered(target);
    let mut names: Vec<String> = Vec::new();
    let mut i: usize = 0;
    while i < devices.len()
        invariant
            i <= devices@.len(),
            names@.len() == i,
            forall|k: int|
                0 <= k < i ==> (#[trigger] names@[k])@ == unicode_lowercase(devices@[k].name@),
        decreases devices@.len() - i,
    {
        names.push(lowered(devices[i].name.as_str()));
        i = i + 1;
    }
    proof {
        assert(text_views(names@) =~= lower_names(devices@));
    }
    let at: usize = select_lowered(&names, devices, wanted.as_str())?;
    Ok(&devices[at])
}

// ---------------------------------------------------------------------------
// The connection
// ---------------------------------------------------------------------------

/// A setting of the connection.
#[derive(Debug, PartialEq, Eq)]
pub enum Setting {
    Text(String),
    Flag(bool),
    Bytes(Vec<u8>),
}

/// A setting of the connection.
pub ghost enum SettingModel {
    Text(Seq<char>),
    Flag(bool),
    Bytes(Seq<u8>),
}

impl View for Setting {
    type V = SettingModel;

    open spec fn view(&self) -> SettingModel {
        match self {
            Setting::Text(s) => SettingModel::Text(s@),
            Setting::Flag(b) => SettingModel::Flag(*b),
            Setting::Bytes(v) => SettingModel::Bytes(v@),
        }
    }
}

/// Settings with their texts as sequences.
pub open spec fn setting_views(v: Seq<(&'static str, &'static str, Setting)>) -> Seq<
    (Seq<char>, Seq<char>, SettingModel),
> {
    Seq::new(v.len(), |i: int| (v[i].0@, v[i].1@, v[i].2@))
}

/// The settings of a connection to a display: addresses as the display gives them, and
/// never the default route.
pub open spec fn settings_of(mac: Seq<char>, process: u32) -> Seq<
    (Seq<char>, Seq<char>, SettingModel),
> {
    seq![
        (
            "connection"@,
            "id"@,
            SettingModel::Text("remote-screen-"@ + number::decimal(process as int)),
        ),
        ("connection"@, "type"@, SettingModel::Text("wifi-p2p"@)),
        ("connection"@, "autoconnect"@, SettingModel::Flag(false)),
        ("wifi-p2p"@, "peer"@, SettingModel::Text(mac)),
        ("wifi-p2p"@, "wfd-ies"@, SettingModel::Bytes(source_elements())),
        ("ipv4"@, "method"@, SettingModel::Text("auto"@)),
        ("ipv4"@, "never-default"@, SettingModel::Flag(true)),
        ("ipv6"@, "method"@, SettingModel::Text("auto"@)),
        ("ipv6"@, "never-default"@, SettingModel::Flag(true)),
        ("ipv6"@, "may-fail"@, SettingModel::Flag(true)),
    ]
}

/// The settings of a connection to a display: section, name and value.
pub fn connection_settings(mac: &str, process: u32) -> (r: Vec<
    (&'static str, &'static str, Setting),
>)
    ensures
        setting_views(r@) == settings_of(mac@, process),
{
    let mut id = "remote-screen-".to_owned();
    id.append(number::decimal_text(process as u64).as_str());
    let mut v: Vec<(&'static str, &'static str, Setting)> = Vec::new();
    v.push(("connection", "id", Setting::Text(id)));
    v.push(("connection", "type", Setting::Text("wifi-p2p".to_owned())));
    v.push(("connection", "autoconnect", Setting::Flag(false)));
    v.push(("wifi-p2p", "peer", Setting::Text(mac.to_owned())));
    v.push(("wifi-p2p", "wfd-ies", Setting::Bytes(wfd_source_r2())));
    v.push(("ipv4", "method", Setting::Text("auto".to_owned())));
    v.push(("ipv4", "never-default", Setting::Flag(true)));
    v.push(("ipv6", "method", Setting::Text("auto".to_owned())));
    v.push(("ipv6", "never-default", Setting::Flag(true)));
    v.push(("ipv6", "may-fail", Setting::Flag(true)));
    proof {
        assert(setting_views(v@) =~= settings_of(mac@, process));
    }
    v
}

/// The device has to be without a connection.
pub fn check_device_idle(active: &str) -> (r: Result<(), NetworkError<String>>)
    ensures
        r is Ok <==> active@ == "/"@,
        r is Err ==> r->Err_0@ == NetworkError::<Seq<char>>::DeviceBusy(active@),
{
    if text::same(active, "/") {
        Ok(())
    } else {
        Err(NetworkError::DeviceBusy(active.to_owned()))
    }
}

/// No connection of Wi-Fi Direct may be up: only one that is deactivated is ignored.
pub fn check_connection_idle(path: &str, kind: &str, state: u32) -> (r: Result<
    (),
    NetworkError<String>,
>)
    ensures
        r is Ok <==> !(kind@ == "wifi-p2p"@ && state != 4),
        r is Err ==> r->Err_0@ == NetworkError::<Seq<char>>::ConnectionBusy(path@),
{
    if text::same(kind, "wifi-p2p") && state != 4 {
        Err(NetworkError::ConnectionBusy(path.to_owned()))
    } else {
        Ok(())
    }
}

/// What the addresses of a device mean for the connection.
#[derive(Clone, Copy, Debug, PartialEq, Eq, Structural)]
pub enum Addresses {
    /// None yet.
    Missing,
    /// The one that the firewall permits is there.
    Local,
    /// Only others.
    Foreign,
}

/// Whether the local address is among those of a device.
pub open spec fn has_local(addresses: Seq<Option<String>>) -> bool {
    exists|i: int|
        0 <= i < addresses.len() && (#[trigger] addresses[i]) is Some && addresses[i]->Some_0@
            == "192.168.49.10"@
}

/// What the addresses of a device mean, as far as they are texts.
pub fn judge_addresses(addresses: &[Option<String>]) -> (r: Addresses)
    ensures
        r == if has_local(addresses@) {
            Addresses::Local
        } else if addresses@.len() > 0 {
            Addresses::Foreign
        } else {
            Addresses::Missing
        },
{
    let mut i: usize = 0;
    while i < addresses.len()
        invariant
            i <= addresses@.len(),
            forall|k: int|
                0 <= k < i ==> !((#[trigger] addresses@[k]) is Some && addresses@[k]->Some_0@
                    == "192.168.49.10"@),
        decreases addresses@.len() - i,
    {
        match &addresses[i] {
            Some(address) => {
                if text::same(address.as_str(), "192.168.49.10") {
                    return Addresses::Local;
                }
            },
            None => {},
        }
        i = i + 1;
    }
    if addresses.len() > 0 {
        Addresses::Foreign
    } else {
        Addresses::Missing
    }
}

/// Whether to wait on for a connection that is not up: not where it failed, and not beyond
/// the time limit.
pub fn check_activation(state: u32, now_ms: u64, deadline_ms: u64) -> (r: Result<
    (),
    NetworkError<String>,
>)
    ensures
        if state == 3 || state == 4 {
            r is Err && r->Err_0@ == NetworkError::<Seq<char>>::ActivationFailed(state)
        } else if now_ms >= deadline_ms {
            r is Err && r->Err_0@ is ActivationTimeout
        } else {
            r is Ok
        },
{
    if state == 3 || state == 4 {
        Err(NetworkError::ActivationFailed(state))
    } else if now_ms >= deadline_ms {
        Err(NetworkError::ActivationTimeout)
    } else {
        Ok(())
    }
}

/// Only an active connection has addresses to look at.
pub fn is_active(state: u32) -> (r: bool)
    ensures
        r == (state == 2),
{
    state == 2
}

// ---------------------------------------------------------------------------
// Laws
// ---------------------------------------------------------------------------

/// A source is not taken for a display.
pub proof fn law_a_source_is_no_display()
    ensures
        !display_from(source_elements(), 0),
{
}

/// Elements that are cut off say nothing.
pub proof fn law_cut_elements_are_no_display(data: Seq<u8>)
    requires
        data.len() < 9,
    ensures
        !display_from(data, 0),
{
    lemma_short_is_no_display(data, 0);
}

proof fn lemma_short_is_no_display(data: Seq<u8>, offset: int)
    requires
        data.len() < 9,
        0 <= offset,
    ensures
        !display_from(data, offset),
    decreases data.len() - offset,
{
    let size = data[offset + 1] * 256 + data[offset + 2];
    if offset + 3 <= data.len() && size <= data.len() - offset - 3 {
        lemma_short_is_no_display(data, offset + 3 + size);
    }
}

/// Two lists of the same displays are the same list.
pub proof fn law_lists_are_unique(a: Seq<PeerModel>, b: Seq<PeerModel>)
    requires
        is_list(a),
        is_list(b),
        forall|p: PeerModel| #![auto] a.contains(p) <==> b.contains(p),
    ensures
        a == b,
    decreases a.len(),
{
    if a.len() == 0 {
        if b.len() > 0 {
            assert(b.contains(b[0]));
            assert(a.contains(b[0]));
        }
        assert(a =~= b);
    } else {
        assert(a.contains(a[0]));
        assert(b.len() > 0);
        assert(b.contains(b[0]));
        assert(a[0] == b[0]) by {
            let i = choose|i: int| 0 <= i < b.len() && b[i] == a[0];
            let j = choose|j: int| 0 <= j < a.len() && a[j] == b[0];
            if i > 0 && j > 0 {
                assert(listed_before(b[0], b[i]));
                assert(listed_before(a[0], a[j]));
                lemma_total(a[0].name, b[0].name);
                lemma_total(a[0].mac, b[0].mac);
            }
        }
        lemma_list_remove(a, 0);
        lemma_list_remove(b, 0);
        assert forall|p: PeerModel| #![auto] a.remove(0).contains(p) <==> b.remove(0).contains(
            p,
        ) by {
            assert(a.remove(0).contains(p) <==> a.contains(p) && p != a[0]);
            assert(b.remove(0).contains(p) <==> b.contains(p) && p != b[0]);
            assert(a.contains(p) <==> b.contains(p));
        }
        law_lists_are_unique(a.remove(0), b.remove(0));
        assert(a =~= seq![a[0]] + a.remove(0));
        assert(b =~= seq![b[0]] + b.remove(0));
    }
}

/// An element of a device: its kind and what it holds.
pub ghost struct Element {
    pub kind: u8,
    pub content: Seq<u8>,
}

/// Elements as they are written: kind, length in two bytes, and content.
pub open spec fn written(elements: Seq<Element>) -> Seq<u8>
    decreases elements.len(),
{
    if elements.len() == 0 {
        Seq::empty()
    } else {
        let e = elements[0];
        let n = e.content.len() as int;
        seq![e.kind, (n / 256) as u8, (n % 256) as u8] + e.content + written(elements.drop_first())
    }
}

/// Elements that are no device information are passed over.
proof fn lemma_passed_over(data: Seq<u8>, offset: int, others: Seq<Element>)
    requires
        0 <= offset,
        offset + written(others).len() <= data.len(),
        data.subrange(offset, offset + written(others).len()) == written(others),
        forall|i: int|
            0 <= i < others.len() ==> (#[trigger] others[i]).content.len() < 65536 && (others[i].kind
                != 0 || others[i].content.len() < 6),
    ensures
        display_from(data, offset) == display_from(data, offset + written(others).len()),
    decreases others.len(),
{
    if others.len() > 0 {
        let bytes = written(others);
        let e = others[0];
        let n = e.content.len() as int;
        let rest = others.drop_first();
        assert(others[0] == e);
        assert forall|i: int| 0 <= i < 3 implies #[trigger] data[offset + i] == bytes[i] by {
            assert(data.subrange(offset, offset + bytes.len())[i] == bytes[i]);
        }
        assert(data[offset + 0] == e.kind);
        assert(data[offset + 1] == (n / 256) as u8 && data[offset + 2] == (n % 256) as u8);
        assert(data[offset + 1] * 256 + data[offset + 2] == n);
        let next = offset + 3 + n;
        assert(bytes.skip(3 + n) =~= written(rest));
        assert(data.subrange(next, next + written(rest).len()) =~= data.subrange(
            offset,
            offset + bytes.len(),
        ).skip(3 + n));
        assert forall|i: int| 0 <= i < rest.len() implies (#[trigger] rest[i]).content.len() < 65536
            && (rest[i].kind != 0 || rest[i].content.len() < 6) by {
            assert(rest[i] == others[i + 1]);
        }
        lemma_passed_over(data, next, rest);
    }
}

/// A device is a display by the role in its first device information, the two lowest bits of the
/// second byte: a primary or a secondary sink, or a source that is a sink as well. Whatever other
/// elements stand before it, and whatever follows, says nothing.
pub proof fn law_displays_are_told_by_their_role(
    others: Seq<Element>,
    information: Seq<u8>,
    rest: Seq<u8>,
)
    requires
        forall|i: int|
            0 <= i < others.len() ==> (#[trigger] others[i]).content.len() < 65536 && (others[i].kind
                != 0 || others[i].content.len() < 6),
        6 <= information.len() < 65536,
    ensures
        ({
            let n = information.len() as int;
            let data = written(others) + (seq![0u8, (n / 256) as u8, (n % 256) as u8] + information)
                + rest;
            let role = information[1] as int % 4;
            display_from(data, 0) <==> role == 1 || role == 2 || role == 3
        }),
{
    let n = information.len() as int;
    let head = seq![0u8, (n / 256) as u8, (n % 256) as u8];
    let data = written(others) + (head + information) + rest;
    let at = written(others).len() as int;
    assert(data.subrange(0, at) =~= written(others));
    lemma_passed_over(data, 0, others);
    assert(data[at] == 0 && data[at + 1] == (n / 256) as u8 && data[at + 2] == (n % 256) as u8);
    assert(data[at + 1] * 256 + data[at + 2] == n);
    assert(data[at + 4] == information[1]);
}

/// Without device information nothing is a display.
pub proof fn law_without_information_is_no_display(others: Seq<Element>)
    requires
        forall|i: int|
            0 <= i < others.len() ==> (#[trigger] others[i]).content.len() < 65536 && (others[i].kind
                != 0 || others[i].content.len() < 6),
    ensures
        !display_from(written(others), 0),
{
    let data = written(others);
    assert(data.subrange(0, data.len() as int) =~= data);
    lemma_passed_over(data, 0, others);
}

/// The elements of this source are one of device information and one of its extension: a source
/// that is available for a session, on port 7236, with 200 Mbit/s, of the second version.
pub proof fn law_the_source_tells_what_it_is()
    ensures
        source_elements().len() == 14,
        source_elements()[0] == 0 && source_elements()[1] == 0 && source_elements()[2] == 6,
        source_elements()[5] * 256 + source_elements()[6] == 7236,
        source_elements()[7] * 256 + source_elements()[8] == 200,
        source_elements()[4] as int % 4 == 0,
        source_elements()[4] as int / 16 % 4 == 1,
        source_elements()[9] == 11 && source_elements()[10] == 0 && source_elements()[11] == 2,
{
}

/// Names go by their first difference, and one that another starts with goes before it.
pub proof fn law_names_go_by_their_first_difference(
    common: Seq<char>,
    x: char,
    a: Seq<char>,
    y: char,
    b: Seq<char>,
)
    ensures
        x < y ==> precedes(common + seq![x] + a, common + seq![y] + b),
        y < x ==> !precedes(common + seq![x] + a, common + seq![y] + b),
        precedes(common, common + seq![y] + b),
        !precedes(common + seq![x] + a, common),
        !precedes(common, common),
    decreases common.len(),
{
    let s = common + seq![x] + a;
    let t = common + seq![y] + b;
    if common.len() > 0 {
        let rest = common.skip(1);
        law_names_go_by_their_first_difference(rest, x, a, y, b);
        assert(s.skip(1) =~= rest + seq![x] + a);
        assert(t.skip(1) =~= rest + seq![y] + b);
        assert(s[0] == common[0] && t[0] == common[0]);
    } else {
        assert(s[0] == x && t[0] == y);
    }
}

/// Displays are listed by their name, and those of one name by their address.
pub proof fn law_displays_are_listed_by_name(list: Seq<PeerModel>, i: int, j: int)
    requires
        is_list(list),
        0 <= i < j < list.len(),
    ensures
        list[i].mac != list[j].mac,
        precedes(list[i].name, list[j].name) || (list[i].name == list[j].name && precedes(
            list[i].mac,
            list[j].mac,
        )),
{
}

/// One display is selected exactly where it is the only one that is meant: the only one whose
/// name holds the target or whose address is the target in either case.
pub proof fn law_the_only_match_is_selected(
    names: Seq<Seq<char>>,
    macs: Seq<Seq<char>>,
    target: Seq<char>,
    i: int,
)
    requires
        0 <= i < names.len(),
        names.len() == macs.len(),
        forall|j: int|
            0 <= j < names.len() ==> ((text::contains(#[trigger] names[j], target)
                || text::lowercase(macs[j]) == text::lowercase(target)) <==> j == i),
    ensures
        meant(names, macs, target, names.len() as int) == seq![i],
{
    lemma_meant(names, macs, target, i, names.len() as int);
}

/// Where none or more than one is meant, none is selected.
pub proof fn law_no_or_several_matches_are_refused(
    names: Seq<Seq<char>>,
    macs: Seq<Seq<char>>,
    target: Seq<char>,
    i: int,
    j: int,
)
    requires
        names.len() == macs.len(),
    ensures
        (forall|k: int|
            0 <= k < names.len() ==> !text::contains(#[trigger] names[k], target)
                && text::lowercase(macs[k]) != text::lowercase(target)) ==> meant(
            names,
            macs,
            target,
            names.len() as int,
        ).len() == 0,
        0 <= i < j < names.len() && (text::contains(names[i], target) || text::lowercase(macs[i])
            == text::lowercase(target)) && (text::contains(names[j], target) || text::lowercase(
            macs[j],
        ) == text::lowercase(target)) ==> meant(names, macs, target, names.len() as int).len() >= 2,
{
    if forall|k: int|
        0 <= k < names.len() ==> !text::contains(#[trigger] names[k], target) && text::lowercase(
            macs[k],
        ) != text::lowercase(target) {
        lemma_none_meant(names, macs, target, names.len() as int);
    }
    if 0 <= i < j < names.len() && is_meant(names[i], macs[i], target) && is_meant(
        names[j],
        macs[j],
        target,
    ) {
        lemma_meant_grows(names, macs, target, i + 1, j);
        lemma_meant_grows(names, macs, target, j + 1, names.len() as int);
    }
}

proof fn lemma_none_meant(names: Seq<Seq<char>>, macs: Seq<Seq<char>>, target: Seq<char>, n: int)
    requires
        n <= names.len(),
        forall|k: int|
            0 <= k < names.len() ==> !text::contains(#[trigger] names[k], target)
                && text::lowercase(macs[k]) != text::lowercase(target),
    ensures
        meant(names, macs, target, n).len() == 0,
    decreases n,
{
    if n > 0 {
        lemma_none_meant(names, macs, target, n - 1);
        assert(!text::contains(names[n - 1], target));
    }
}

proof fn lemma_meant_grows(
    names: Seq<Seq<char>>,
    macs: Seq<Seq<char>>,
    target: Seq<char>,
    m: int,
    n: int,
)
    requires
        0 <= m <= n,
    ensures
        meant(names, macs, target, m).len() <= meant(names, macs, target, n).len(),
    decreases n - m,
{
    if m < n {
        lemma_meant_grows(names, macs, target, m, n - 1);
    }
}

proof fn lemma_meant(
    names: Seq<Seq<char>>,
    macs: Seq<Seq<char>>,
    target: Seq<char>,
    i: int,
    n: int,
)
    requires
        0 <= n <= names.len(),
        names.len() == macs.len(),
        forall|j: int|
            0 <= j < names.len() ==> ((text::contains(#[trigger] names[j], target)
                || text::lowercase(macs[j]) == text::lowercase(target)) <==> j == i),
    ensures
        meant(names, macs, target, n) == if i < n {
            seq![i]
        } else {
            Seq::empty()
        } || i < 0,
    decreases n,
{
    if n > 0 {
        lemma_meant(names, macs, target, i, n - 1);
        assert(is_meant(names[n - 1], macs[n - 1], target) <==> n - 1 == i);
        if i == n - 1 {
            assert(meant(names, macs, target, n) =~= seq![i]);
        }
    }
}

/// The settings of every connection: one of Wi-Fi Direct to the display that is meant, with the
/// elements of this source, which does not come up by itself, takes its addresses from the
/// display, and never takes over the default route.
pub proof fn law_connections_leave_the_default_route(mac: Seq<char>, process: u32)
    ensures
        ({
            let all = settings_of(mac, process);
            &&& all.contains(("connection"@, "type"@, SettingModel::Text("wifi-p2p"@)))
            &&& all.contains(("connection"@, "autoconnect"@, SettingModel::Flag(false)))
            &&& all.contains(
                (
                    "connection"@,
                    "id"@,
                    SettingModel::Text("remote-screen-"@ + number::decimal(process as int)),
                ),
            )
            &&& all.contains(("wifi-p2p"@, "peer"@, SettingModel::Text(mac)))
            &&& all.contains(("wifi-p2p"@, "wfd-ies"@, SettingModel::Bytes(source_elements())))
            &&& all.contains(("ipv4"@, "method"@, SettingModel::Text("auto"@)))
            &&& all.contains(("ipv6"@, "method"@, SettingModel::Text("auto"@)))
            &&& all.contains(("ipv4"@, "never-default"@, SettingModel::Flag(true)))
            &&& all.contains(("ipv6"@, "never-default"@, SettingModel::Flag(true)))
            &&& all.contains(("ipv6"@, "may-fail"@, SettingModel::Flag(true)))
            &&& all.len() == 10
        }),
{
    let all = settings_of(mac, process);
    assert(all[0] == all[0] && all[1] == all[1] && all[2] == all[2] && all[3] == all[3] && all[4]
        == all[4]);
    assert(all[5] == all[5] && all[6] == all[6] && all[7] == all[7] && all[8] == all[8] && all[9]
        == all[9]);
}

} // verus!
