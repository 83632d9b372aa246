//! The privileged pairing service: how it finds a display, connects to it with a saved
//! pairing or a new one, and cleans up.
use crate::credentials;
use crate::credentials::CredentialError;
use crate::fields::Fields;
use crate::number;
use crate::pairing;
use crate::text;
use vstd::prelude::*;

verus! {

/// Why the service does not connect.
#[derive(Clone, Copy, Debug, PartialEq, Eq, Structural)]
pub enum HelperError {
    /// Something is wrong with the address or the saved pairing.
    Credential(CredentialError),
    /// A time limit outside of one second to ten minutes.
    InvalidTimeout,
    /// A request that is too long or has no end.
    InvalidRequestLine,
    /// Not started by root.
    NotRoot,
    /// The display was not found.
    NotDiscovered,
    /// Another group is there.
    GroupExists,
    /// No pairing, and no leave to make one.
    PairingForbidden,
    /// A group without an interface.
    NoInterface,
    /// The display is not the owner.
    NotOwner,
    /// A group without a path.
    NoGroup,
    /// A group of another display.
    OtherGroup,
    /// A new pairing without its key.
    NotExportable,
    /// No pairing of the group.
    NotRetained,
    /// Other addresses than those that were asked for.
    WrongAddress,
    /// An interface of another name.
    InvalidInterfaceName,
    /// The connection was not up in time.
    DeadlineExceeded,
    /// An answer to another question.
    Unexpected,
}

impl HelperError {
    /// The message that is reported.
    pub fn text(self) -> (r: &'static str)
        ensures
            r@ == self.message(),
    {
        match self {
            HelperError::Credential(e) => e.text(),
            HelperError::InvalidTimeout => "timeout must be 1..600 seconds",
            HelperError::InvalidRequestLine => "request too large or incomplete",
            HelperError::NotRoot => "helper requires root socket activation",
            HelperError::NotDiscovered => "target peer not discovered on wlo1",
            HelperError::GroupExists => "an active P2P group already exists",
            HelperError::PairingForbidden => "no saved pairing; automatic pairing is disabled",
            HelperError::NoInterface => "group event has no interface",
            HelperError::NotOwner => "TV did not become group owner",
            HelperError::NoGroup => "group object missing",
            HelperError::OtherGroup => "connected group does not belong to target peer",
            HelperError::NotExportable => "target pairing has no exportable credentials",
            HelperError::NotRetained => "target persistent credentials were not retained",
            HelperError::WrongAddress => {
                "supplicant did not confirm expected local address, mask and GO address"
            },
            HelperError::InvalidInterfaceName => "invalid P2P interface name",
            HelperError::DeadlineExceeded => {
                "connection deadline exceeded; saved pairing was retained"
            },
            HelperError::Unexpected => "unexpected supplicant answer",
        }
    }

    /// The text of each error.
    pub open spec fn message(self) -> Seq<char> {
        match self {
            HelperError::Credential(e) => e.message(),
            HelperError::InvalidTimeout => "timeout must be 1..600 seconds"@,
            HelperError::InvalidRequestLine => "request too large or incomplete"@,
            HelperError::NotRoot => "helper requires root socket activation"@,
            HelperError::NotDiscovered => "target peer not discovered on wlo1"@,
            HelperError::GroupExists => "an active P2P group already exists"@,
            HelperError::PairingForbidden => "no saved pairing; automatic pairing is disabled"@,
            HelperError::NoInterface => "group event has no interface"@,
            HelperError::NotOwner => "TV did not become group owner"@,
            HelperError::NoGroup => "group object missing"@,
            HelperError::OtherGroup => "connected group does not belong to target peer"@,
            HelperError::NotExportable => "target pairing has no exportable credentials"@,
            HelperError::NotRetained => "target persistent credentials were not retained"@,
            HelperError::WrongAddress => {
                "supplicant did not confirm expected local address, mask and GO address"@
            },
            HelperError::InvalidInterfaceName => "invalid P2P interface name"@,
            HelperError::DeadlineExceeded => {
                "connection deadline exceeded; saved pairing was retained"@
            },
            HelperError::Unexpected => "unexpected supplicant answer"@,
        }
    }
}

// ---------------------------------------------------------------------------
// Requests
// ---------------------------------------------------------------------------

/// What is asked of the service.
#[derive(Clone, Copy, Debug, PartialEq, Eq, Structural)]
pub enum Operation {
    Connect,
    Inspect,
}

/// A request to the service.
#[derive(Debug, PartialEq, Eq)]
pub struct Request {
    pub peer: String,
    pub timeout_secs: u64,
    pub allow_pairing: bool,
    pub operation: Operation,
}

/// A request that may be served: with an address, and a time limit of one second to ten
/// minutes.
pub fn validate(request: Request) -> (r: Result<Request, HelperError>)
    ensures
        if !credentials::is_mac(request.peer@) {
            r is Err && r->Err_0 == HelperError::Credential(CredentialError::InvalidMac)
        } else if !(1 <= request.timeout_secs <= 600) {
            r is Err && r->Err_0 == HelperError::InvalidTimeout
        } else {
            &&& r is Ok
            &&& r->Ok_0.peer@ == text::lowercase(request.peer@)
            &&& r->Ok_0.timeout_secs == request.timeout_secs
            &&& r->Ok_0.allow_pairing == request.allow_pairing
            &&& r->Ok_0.operation == request.operation
        },
{
    let peer = match credentials::mac(request.peer.as_str()) {
        Ok(peer) => peer,
        Err(e) => {
            return Err(HelperError::Credential(e));
        },
    };
    if request.timeout_secs < 1 || request.timeout_secs > 600 {
        return Err(HelperError::InvalidTimeout);
    }
    Ok(
        Request {
            peer,
            timeout_secs: request.timeout_secs,
            allow_pairing: request.allow_pairing,
            operation: request.operation,
        },
    )
}

/// A request is one line of at most 1024 bytes.
pub fn check_line(line: &[u8]) -> (r: Result<(), HelperError>)
    ensures
        r is Ok <==> line@.len() <= 1024 && line@.len() > 0 && line@.last() == 10,
        r is Err ==> r->Err_0 == HelperError::InvalidRequestLine,
{
    if line.len() > 1024 || line.len() == 0 || line[line.len() - 1] != 10 {
        Err(HelperError::InvalidRequestLine)
    } else {
        Ok(())
    }
}

/// The service runs as root.
pub fn check_root(user: u32) -> (r: Result<(), HelperError>)
    ensures
        r is Ok <==> user == 0,
        r is Err ==> r->Err_0 == HelperError::NotRoot,
{
    if user == 0 {
        Ok(())
    } else {
        Err(HelperError::NotRoot)
    }
}

/// At the time limit: a connection that is up stays, anything else ends.
pub fn check_deadline(ready: bool) -> (r: Result<(), HelperError>)
    ensures
        r is Ok <==> ready,
        r is Err ==> r->Err_0 == HelperError::DeadlineExceeded,
{
    if ready {
        Ok(())
    } else {
        Err(HelperError::DeadlineExceeded)
    }
}

// ---------------------------------------------------------------------------
// Groups
// ---------------------------------------------------------------------------

/// A saved group: its path and its properties.
pub open spec fn group_views(v: Seq<(String, Fields)>) -> Seq<
    (Seq<char>, Map<Seq<char>, Seq<char>>),
> {
    Seq::new(v.len(), |i: int| (v[i].0@, v[i].1@))
}

/// The number at the end of the path of a group; zero where there is none.
pub open spec fn number_of(path: Seq<char>) -> int {
    match number::number(text::split(path, '/').last(), 10, u64::MAX as int) {
        Some(n) => n,
        None => 0,
    }
}

/// The number at the end of the path of a group.
pub fn group_number(path: &str) -> (r: u64)
    ensures
        r == number_of(path@),
{
    let chars = text::chars_of(path);
    let parts = text::split_at_char(chars.as_slice(), '/');
    let last = parts[parts.len() - 1].as_slice();
    proof {
        assert(text::views(parts@).last() == last@);
    }
    match number::parse(last, 10, u64::MAX) {
        Ok(n) => n,
        Err(_) => 0,
    }
}

/// Whether a group is the one that was saved: of the same network name and address.
pub open spec fn is_saved(
    props: Map<Seq<char>, Seq<char>>,
    saved: Option<Map<Seq<char>, Seq<char>>>,
) -> bool {
    match saved {
        None => false,
        Some(s) => credentials::have_same_ssid(props, s) && props.contains_key("bssid"@)
            == s.contains_key("bssid"@) && (props.contains_key("bssid"@) ==> props["bssid"@]
            == s["bssid"@]),
    }
}

/// Whether the group at `j` is to be preferred to the one at `i`: the one that was saved,
/// then the newest by its number, and of equals the later one.
pub open spec fn preferred(
    groups: Seq<(Seq<char>, Map<Seq<char>, Seq<char>>)>,
    saved: Option<Map<Seq<char>, Seq<char>>>,
    i: int,
    j: int,
) -> bool {
    let a = is_saved(groups[i].1, saved);
    let b = is_saved(groups[j].1, saved);
    if a == b {
        number_of(groups[j].0) >= number_of(groups[i].0)
    } else {
        b
    }
}

/// The group that is preferred among the first `n`.
pub open spec fn best_group(
    groups: Seq<(Seq<char>, Map<Seq<char>, Seq<char>>)>,
    saved: Option<Map<Seq<char>, Seq<char>>>,
    n: int,
) -> int
    decreases n,
{
    if n <= 1 {
        0
    } else {
        let before = best_group(groups, saved, n - 1);
        if preferred(groups, saved, before, n - 1) {
            n - 1
        } else {
            before
        }
    }
}

/// The properties of a saved pairing, if there is one.
pub open spec fn saved_view(saved: Option<Fields>) -> Option<Map<Seq<char>, Seq<char>>> {
    match saved {
        Some(s) => Some(s@),
        None => None,
    }
}

/// Whether a group is the one that was saved.
fn check_saved(props: &Fields, saved: &Option<Fields>) -> (r: bool)
    ensures
        r == is_saved(props@, saved_view(*saved)),
{
    match saved {
        None => false,
        Some(s) => {
            if !credentials::same_ssid(props, s) {
                return false;
            }
            match (props.get("bssid"), s.get("bssid")) {
                (Some(a), Some(b)) => text::same(a, b),
                (None, None) => true,
                _ => false,
            }
        },
    }
}

/// The group with which to connect: the one that was saved, else the newest.
pub fn choose_group(groups: &[(String, Fields)], saved: &Option<Fields>) -> (r: Option<usize>)
    ensures
        if groups@.len() == 0 {
            r is None
        } else {
            r is Some && r->Some_0 == best_group(
                group_views(groups@),
                saved_view(*saved),
                groups@.len() as int,
            ) && r->Some_0 < groups@.len()
        },
{
    if groups.len() == 0 {
        return None;
    }
    let ghost all = group_views(groups@);
    let mut best: usize = 0;
    let mut i: usize = 1;
    while i < groups.len()
        invariant
            1 <= i <= groups@.len(),
            all == group_views(groups@),
            best < i,
            best == best_group(all, saved_view(*saved), i as int),
        decreases groups@.len() - i,
    {
        proof {
            assert(all[i as int] == (groups@[i as int].0@, groups@[i as int].1@));
            assert(all[best as int] == (groups@[best as int].0@, groups@[best as int].1@));
        }
        let a = check_saved(&groups[best].1, saved);
        let b = check_saved(&groups[i].1, saved);
        let newer = group_number(groups[i].0.as_str()) >= group_number(groups[best].0.as_str());
        if (a == b && newer) || (a != b && b) {
            best = i;
        }
        i = i + 1;
    }
    Some(best)
}

/// The newest group of a network name, among the first `n`; of equals the later one.
pub open spec fn newest_of(
    groups: Seq<(Seq<char>, Map<Seq<char>, Seq<char>>)>,
    ssid: Seq<u8>,
    n: int,
) -> Option<int>
    decreases n,
{
    if n <= 0 {
        None
    } else {
        let before = newest_of(groups, ssid, n - 1);
        if credentials::network_of(groups[n - 1].1) != Some(ssid) {
            before
        } else {
            match before {
                Some(i) => if number_of(groups[n - 1].0) >= number_of(groups[i].0) {
                    Some(n - 1)
                } else {
                    before
                },
                None => Some(n - 1),
            }
        }
    }
}

/// The newest group of a network name.
pub fn choose_newest(groups: &[(String, Fields)], ssid: &[u8]) -> (r: Option<usize>)
    ensures
        match newest_of(group_views(groups@), ssid@, groups@.len() as int) {
            Some(i) => r is Some && r->Some_0 == i && i < groups@.len(),
            None => r is None,
        },
{
    let ghost all = group_views(groups@);
    let mut best: Option<usize> = None;
    let mut i: usize = 0;
    while i < groups.len()
        invariant
            i <= groups@.len(),
            all == group_views(groups@),
            match newest_of(all, ssid@, i as int) {
                Some(k) => best is Some && best->Some_0 == k && k < i,
                None => best is None,
            },
        decreases groups@.len() - i,
    {
        proof {
            assert(all[i as int] == (groups@[i as int].0@, groups@[i as int].1@));
        }
        let same = match credentials::network_name(&groups[i].1) {
            Some(name) => credentials::same_bytes(name.as_slice(), ssid),
            None => false,
        };
        if same {
            match best {
                Some(k) => {
                    proof {
                        assert(all[k as int] == (groups@[k as int].0@, groups@[k as int].1@));
                    }
                    if group_number(groups[i].0.as_str()) >= group_number(groups[k].0.as_str()) {
                        best = Some(i);
                    }
                },
                None => {
                    best = Some(i);
                },
            }
        }
        i = i + 1;
    }
    best
}

/// What is known of a group that was started.
#[derive(Debug, PartialEq, Eq)]
pub struct GroupInfo {
    pub interface: Option<String>,
    pub role: Option<String>,
    pub group: Option<String>,
    pub owner_address: Option<Vec<u8>>,
    pub local_address: Option<Vec<u8>>,
    pub mask: Option<Vec<u8>>,
}

/// A text that may be there.
pub open spec fn text_view(s: Option<String>) -> Option<Seq<char>> {
    match s {
        Some(t) => Some(t@),
        None => None,
    }
}

/// Bytes that may be there.
pub open spec fn bytes_view(b: Option<Vec<u8>>) -> Option<Seq<u8>> {
    match b {
        Some(v) => Some(v@),
        None => None,
    }
}

/// The addresses that are asked for: 192.168.49.1 for the display, 192.168.49.10 for the
/// source and a mask of 255.255.255.0.
pub open spec fn addresses_confirmed(info: GroupInfo) -> bool {
    &&& bytes_view(info.owner_address) == Some(seq![192u8, 168, 49, 1])
    &&& bytes_view(info.local_address) == Some(seq![192u8, 168, 49, 10])
    &&& bytes_view(info.mask) == Some(seq![255u8, 255, 255, 0])
}

/// Whether an address of four bytes is there.
fn is_address(value: &Option<Vec<u8>>, a: u8, b: u8, c: u8, d: u8) -> (r: bool)
    ensures
        r == (bytes_view(*value) == Some(seq![a, b, c, d])),
{
    match value {
        None => false,
        Some(v) => {
            if v.len() == 4 && v[0] == a && v[1] == b && v[2] == c && v[3] == d {
                proof {
                    assert(v@ =~= seq![a, b, c, d]);
                }
                true
            } else {
                proof {
                    if v@ == seq![a, b, c, d] {
                        assert(v@.len() == 4);
                        assert(v@[0] == a && v@[1] == b && v@[2] == c && v@[3] == d);
                    }
                }
                false
            }
        },
    }
}

/// Whether exactly the addresses that are asked for were agreed.
pub fn verified_ip(info: &GroupInfo) -> (r: bool)
    ensures
        r == addresses_confirmed(*info),
{
    is_address(&info.owner_address, 192, 168, 49, 1) && is_address(
        &info.local_address,
        192,
        168,
        49,
        10,
    ) && is_address(&info.mask, 255, 255, 255, 0)
}

/// The name of an interface that may be given an address.
pub open spec fn is_configurable(name: Seq<char>) -> bool {
    &&& text::starts_with(name, "p2p-"@)
    &&& name.len() < 16
    &&& forall|i: int| 0 <= i < name.len() ==> pairing::is_name_char(#[trigger] name[i])
}

/// Whether an interface may be given an address.
pub fn check_configurable(name: &str) -> (r: Result<(), HelperError>)
    ensures
        r is Ok <==> is_configurable(name@),
        r is Err ==> r->Err_0 == HelperError::InvalidInterfaceName,
{
    let chars = text::chars_of(name);
    if !text::has_prefix(chars.as_slice(), "p2p-") || chars.len()
        >= pairing::interface_name_size() {
        return Err(HelperError::InvalidInterfaceName);
    }
    let mut i: usize = 0;
    while i < chars.len()
        invariant
            i <= chars@.len(),
            chars@ == name@,
            forall|k: int| 0 <= k < i ==> pairing::is_name_char(#[trigger] chars@[k]),
        decreases chars@.len() - i,
    {
        if !pairing::name_char(chars[i]) {
            return Err(HelperError::InvalidInterfaceName);
        }
        i = i + 1;
    }
    Ok(())
}

// ---------------------------------------------------------------------------
// Laws
// ---------------------------------------------------------------------------

/// The number of a group is the one behind the last slash of its path, and zero where something
/// else stands there.
pub proof fn law_groups_are_numbered(parent: Seq<char>, n: int, name: Seq<char>)
    requires
        0 <= n <= u64::MAX,
        text::is_without(name, '/'),
    ensures
        number_of(parent + seq!['/'] + number::decimal(n)) == n,
        name.len() == 0 || (exists|i: int|
            0 <= i < name.len() && number::digit_value(#[trigger] name[i]) >= 10 && name[i] != '+')
            ==> number_of(parent + seq!['/'] + name) == 0,
{
    number::lemma_decimal(n);
    let digits = number::decimal(n);
    assert forall|i: int| 0 <= i < digits.len() implies #[trigger] digits[i] != '/' by {
        assert(number::digit_value(digits[i]) < 10);
    }
    lemma_last_part(parent, digits);
    lemma_last_part(parent, name);
    number::law_decimal_reads_back(n, u64::MAX as int);
    if exists|i: int|
        0 <= i < name.len() && number::digit_value(#[trigger] name[i]) >= 10 && name[i] != '+' {
        let i = choose|i: int|
            0 <= i < name.len() && number::digit_value(#[trigger] name[i]) >= 10 && name[i] != '+';
        let rest = number::unsigned_part(name);
        if name[0] == '+' {
            assert(rest[i - 1] == name[i]);
        } else {
            assert(rest[i] == name[i]);
        }
    }
}

/// The part behind the last slash.
proof fn lemma_last_part(parent: Seq<char>, name: Seq<char>)
    requires
        text::is_without(name, '/'),
    ensures
        text::split(parent + seq!['/'] + name, '/').last() == name,
    decreases parent.len(),
{
    let s = parent + seq!['/'] + name;
    text::lemma_find(parent, '/');
    text::lemma_not_found(name, '/');
    let j = text::find(parent, '/');
    if j == parent.len() {
        assert(parent.take(j) =~= parent);
        text::lemma_find_behind(parent, '/', name);
        assert(s.skip(j + 1) =~= name);
        assert(text::split(name, '/') == seq![name]);
        assert(text::split(s, '/') == seq![s.take(j)] + seq![name]);
    } else {
        let rest = parent.skip(j + 1);
        assert(s =~= parent.take(j) + seq!['/'] + (rest + seq!['/'] + name));
        text::lemma_find_behind(parent.take(j), '/', rest + seq!['/'] + name);
        assert(s.skip(j + 1) =~= rest + seq!['/'] + name);
        lemma_last_part(rest, name);
        text::law_parts_join_to_the_text(rest + seq!['/'] + name, '/');
        assert(text::split(s, '/').last() == text::split(rest + seq!['/'] + name, '/').last());
    }
}

/// The group that is chosen: one that was saved where there is one, by its network name and
/// address, and among those, or among all where none was, the one with the highest number, the
/// later one of equals.
pub proof fn law_the_saved_and_newest_group_is_chosen(
    groups: Seq<(Seq<char>, Map<Seq<char>, Seq<char>>)>,
    saved: Option<Map<Seq<char>, Seq<char>>>,
    k: int,
)
    requires
        0 <= k < groups.len(),
    ensures
        ({
            let best = best_group(groups, saved, groups.len() as int);
            let same = |i: int|
                saved is Some && credentials::have_same_ssid(groups[i].1, saved->Some_0)
                    && groups[i].1.contains_key("bssid"@) == saved->Some_0.contains_key("bssid"@) && (
                groups[i].1.contains_key("bssid"@) ==> groups[i].1["bssid"@]
                    == saved->Some_0["bssid"@]);
            &&& 0 <= best < groups.len()
            &&& same(k) ==> same(best)
            &&& same(k) == same(best) ==> number_of(groups[k].0) <= number_of(groups[best].0)
            &&& same(k) == same(best) && number_of(groups[k].0) == number_of(groups[best].0) ==> k
                <= best
        }),
{
    lemma_best(groups, saved, groups.len() as int, k);
}

proof fn lemma_best(
    groups: Seq<(Seq<char>, Map<Seq<char>, Seq<char>>)>,
    saved: Option<Map<Seq<char>, Seq<char>>>,
    n: int,
    k: int,
)
    requires
        0 <= k < n <= groups.len(),
    ensures
        ({
            let best = best_group(groups, saved, n);
            &&& 0 <= best < n
            &&& is_saved(groups[k].1, saved) ==> is_saved(groups[best].1, saved)
            &&& is_saved(groups[k].1, saved) == is_saved(groups[best].1, saved) ==> number_of(
                groups[k].0,
            ) <= number_of(groups[best].0)
            &&& is_saved(groups[k].1, saved) == is_saved(groups[best].1, saved) && number_of(
                groups[k].0,
            ) == number_of(groups[best].0) ==> k <= best
        }),
    decreases n,
{
    if n > 1 {
        if k < n - 1 {
            lemma_best(groups, saved, n - 1, k);
        } else {
            lemma_best(groups, saved, n - 1, 0);
        }
    }
}

/// The newest group of a network name is one of that name, with the highest number, the later one
/// of equals; there is none exactly where no group has the name.
pub proof fn law_the_newest_group_of_a_name(
    groups: Seq<(Seq<char>, Map<Seq<char>, Seq<char>>)>,
    ssid: Seq<u8>,
    k: int,
)
    requires
        0 <= k < groups.len(),
    ensures
        ({
            let newest = newest_of(groups, ssid, groups.len() as int);
            &&& newest matches Some(i) ==> 0 <= i < groups.len() && credentials::network_of(groups[i].1)
                == Some(ssid)
            &&& credentials::network_of(groups[k].1) == Some(ssid) ==> {
                &&& newest is Some
                &&& number_of(groups[k].0) <= number_of(groups[newest->Some_0].0)
                &&& number_of(groups[k].0) == number_of(groups[newest->Some_0].0) ==> k
                    <= newest->Some_0
            }
        }),
{
    lemma_newest(groups, ssid, groups.len() as int, k);
}

proof fn lemma_newest(
    groups: Seq<(Seq<char>, Map<Seq<char>, Seq<char>>)>,
    ssid: Seq<u8>,
    n: int,
    k: int,
)
    requires
        0 <= n <= groups.len(),
        0 <= k,
    ensures
        ({
            let newest = newest_of(groups, ssid, n);
            &&& newest matches Some(i) ==> 0 <= i < n && credentials::network_of(groups[i].1) == Some(
                ssid,
            )
            &&& k < n && credentials::network_of(groups[k].1) == Some(ssid) ==> {
                &&& newest is Some
                &&& number_of(groups[k].0) <= number_of(groups[newest->Some_0].0)
                &&& number_of(groups[k].0) == number_of(groups[newest->Some_0].0) ==> k
                    <= newest->Some_0
            }
        }),
    decreases n,
{
    if n > 0 {
        lemma_newest(groups, ssid, n - 1, k);
    }
}

/// A connection is confirmed exactly with 192.168.49.1 for the display, 192.168.49.10 for this
/// side and the mask of 24 bits.
pub proof fn law_confirmed_addresses(info: GroupInfo)
    requires
        addresses_confirmed(info),
    ensures
        ({
            let owner = info.owner_address->Some_0@;
            let local = info.local_address->Some_0@;
            let mask = info.mask->Some_0@;
            &&& owner.len() == 4 && local.len() == 4 && mask.len() == 4
            &&& owner[0] == 192 && owner[1] == 168 && owner[2] == 49 && owner[3] == 1
            &&& local[0] == owner[0] && local[1] == owner[1] && local[2] == owner[2] && local[3] == 10
            &&& mask[0] == 255 && mask[1] == 255 && mask[2] == 255 && mask[3] == 0
        }),
{
}

/// Only an interface of Wi-Fi Direct is given an address: its name starts with `p2p-`, is
/// shorter than sixteen characters and holds letters, digits and hyphens alone.
pub proof fn law_configurable_interfaces(rest: Seq<char>)
    ensures
        is_configurable("p2p-"@ + rest) <==> rest.len() < 12 && forall|i: int|
            0 <= i < rest.len() ==> {
                let c = #[trigger] rest[i];
                '0' <= c <= '9' || 'A' <= c <= 'Z' || 'a' <= c <= 'z' || c == '-'
            },
        rest.len() > 0 && is_configurable("p2p-"@ + rest) ==> pairing::is_p2p_interface(
            "p2p-"@ + rest,
        ),
        is_configurable(rest) ==> rest.len() >= 4 && rest.take(4) == "p2p-"@,
{
    reveal_strlit("p2p-");
    let name = "p2p-"@ + rest;
    assert(name.take(4) =~= "p2p-"@);
    if is_configurable(name) {
        assert forall|i: int| 0 <= i < rest.len() implies {
            let c = #[trigger] rest[i];
            '0' <= c <= '9' || 'A' <= c <= 'Z' || 'a' <= c <= 'z' || c == '-'
        } by {
            assert(pairing::is_name_char(name[i + 4]));
        }
    }
    if rest.len() < 12 && forall|i: int|
        0 <= i < rest.len() ==> {
            let c = #[trigger] rest[i];
            '0' <= c <= '9' || 'A' <= c <= 'Z' || 'a' <= c <= 'z' || c == '-'
        } {
        assert forall|i: int| 0 <= i < name.len() implies pairing::is_name_char(#[trigger] name[i]) by {
            if i >= 4 {
                assert(name[i] == rest[i - 4]);
            } else {
                assert(name[i] == 'p' || name[i] == '2' || name[i] == '-');
            }
        }
    }
}

} // verus!
