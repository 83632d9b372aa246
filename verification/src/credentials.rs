//! The saved pairing with a display: its address, its network name and its key.
use crate::fields::Fields;
use crate::json;
use crate::number;
use crate::text;
use vstd::prelude::*;

verus! {

/// Why a pairing cannot be used.
#[derive(Clone, Copy, Debug, PartialEq, Eq, Structural)]
pub enum CredentialError {
    /// An address of another form, of a group or of nobody.
    InvalidMac,
    /// No network name, or none that can be read.
    InvalidSsid,
    /// No address.
    NoPeer,
    /// A pairing in which the display is not the owner.
    NotAClient,
    /// No key.
    NoKey,
    /// A passphrase of another length.
    InvalidPassphrase,
    /// A key of another form.
    InvalidRawKey,
    /// A management frame policy that is none.
    InvalidPolicy,
    /// A file that others could have written.
    UnsafeFile,
    /// A file of another form.
    InvalidFile,
    /// A file of another display.
    OtherPeer,
    /// The pairing could not be written.
    CannotSave,
    /// A directory that others could have made.
    UnsafeDirectory,
}

impl CredentialError {
    /// The message that is reported. None of them holds any part of a pairing.
    pub fn text(self) -> (r: &'static str)
        ensures
            r@ == self.message(),
    {
        match self {
            CredentialError::InvalidMac => "invalid peer MAC",
            CredentialError::InvalidSsid => "saved pairing has invalid SSID",
            CredentialError::NoPeer => "saved pairing has no peer address",
            CredentialError::NotAClient => "saved pairing is not a client group",
            CredentialError::NoKey => "saved pairing has no key",
            CredentialError::InvalidPassphrase => "saved pairing has invalid passphrase",
            CredentialError::InvalidRawKey => "saved pairing has invalid raw key",
            CredentialError::InvalidPolicy => "saved pairing has invalid management-frame policy",
            CredentialError::UnsafeFile => "unsafe saved pairing",
            CredentialError::InvalidFile => "invalid saved pairing",
            CredentialError::OtherPeer => "saved pairing belongs to another peer",
            CredentialError::CannotSave => "cannot save pairing",
            CredentialError::UnsafeDirectory => "unsafe pairing directory",
        }
    }

    /// The text of each error.
    pub open spec fn message(self) -> Seq<char> {
        match self {
            CredentialError::InvalidMac => "invalid peer MAC"@,
            CredentialError::InvalidSsid => "saved pairing has invalid SSID"@,
            CredentialError::NoPeer => "saved pairing has no peer address"@,
            CredentialError::NotAClient => "saved pairing is not a client group"@,
            CredentialError::NoKey => "saved pairing has no key"@,
            CredentialError::InvalidPassphrase => "saved pairing has invalid passphrase"@,
            CredentialError::InvalidRawKey => "saved pairing has invalid raw key"@,
            CredentialError::InvalidPolicy => "saved pairing has invalid management-frame policy"@,
            CredentialError::UnsafeFile => "unsafe saved pairing"@,
            CredentialError::InvalidFile => "invalid saved pairing"@,
            CredentialError::OtherPeer => "saved pairing belongs to another peer"@,
            CredentialError::CannotSave => "cannot save pairing"@,
            CredentialError::UnsafeDirectory => "unsafe pairing directory"@,
        }
    }
}

// ---------------------------------------------------------------------------
// Addresses
// ---------------------------------------------------------------------------

/// Six hexadecimal numbers of two digits with colons between them.
pub open spec fn has_mac_form(s: Seq<char>) -> bool {
    &&& s.len() == 17
    &&& forall|i: int|
        0 <= i < 17 ==> if i % 3 == 2 {
            #[trigger] s[i] == ':'
        } else {
            number::digit_value(s[i]) < 16
        }
}

/// The address of one device: not of a group, which is the lowest bit of its first byte,
/// and not of nobody.
pub open spec fn is_mac(s: Seq<char>) -> bool {
    &&& has_mac_form(s)
    &&& s != "00:00:00:00:00:00"@
    &&& number::digit_value(s[1]) % 2 == 0
}

/// Whether a text has the form of an address.
fn check_mac_form(s: &[char]) -> (r: bool)
    ensures
        r == has_mac_form(s@),
{
    if s.len() != 17 {
        return false;
    }
    let mut i: usize = 0;
    while i < 17
        invariant
            s@.len() == 17,
            i <= 17,
            forall|k: int|
                0 <= k < i ==> if k % 3 == 2 {
                    #[trigger] s@[k] == ':'
                } else {
                    number::digit_value(s@[k]) < 16
                },
        decreases 17 - i,
    {
        if i % 3 == 2 {
            if s[i] != ':' {
                return false;
            }
        } else if number::digit(s[i]) >= 16 {
            return false;
        }
        i = i + 1;
    }
    true
}

/// The address in lower case, where it is one.
pub fn mac(input: &str) -> (r: Result<String, CredentialError>)
    ensures
        if is_mac(input@) {
            r is Ok && r->Ok_0@ == text::lowercase(input@)
        } else {
            r == Err::<String, CredentialError>(CredentialError::InvalidMac)
        },
{
    let chars = text::chars_of(input);
    if !check_mac_form(chars.as_slice()) {
        return Err(CredentialError::InvalidMac);
    }
    if text::is(chars.as_slice(), "00:00:00:00:00:00") || number::digit(chars[1]) % 2 != 0 {
        return Err(CredentialError::InvalidMac);
    }
    Ok(text::text_of(text::to_lowercase(chars.as_slice()).as_slice()))
}

/// A text without its colons.
pub open spec fn without_colons(s: Seq<char>) -> Seq<char>
    decreases s.len(),
{
    if s.len() == 0 {
        Seq::empty()
    } else if s.last() == ':' {
        without_colons(s.drop_last())
    } else {
        without_colons(s.drop_last()).push(s.last())
    }
}

/// The name of the file of a pairing.
pub open spec fn file_name_of(mac: Seq<char>) -> Seq<char> {
    without_colons(mac) + ".json"@
}

/// A text without its colons.
fn strip_colons(s: &[char]) -> (r: String)
    ensures
        r@ == without_colons(s@),
{
    let mut out = String::new();
    let mut i: usize = 0;
    proof {
        assert(s@.take(0) =~= Seq::<char>::empty());
    }
    while i < s.len()
        invariant
            i <= s@.len(),
            out@ == without_colons(s@.take(i as int)),
        decreases s@.len() - i,
    {
        proof {
            assert(s@.take(i + 1).drop_last() =~= s@.take(i as int));
        }
        if s[i] != ':' {
            out.push(s[i]);
        }
        i = i + 1;
    }
    proof {
        assert(s@.take(i as int) =~= s@);
    }
    out
}

/// The name of the file of the pairing with a display.
pub fn file_name(peer: &str) -> (r: Result<String, CredentialError>)
    ensures
        if is_mac(peer@) {
            r is Ok && r->Ok_0@ == file_name_of(text::lowercase(peer@))
        } else {
            r == Err::<String, CredentialError>(CredentialError::InvalidMac)
        },
{
    let address = mac(peer)?;
    let chars = text::chars_of(address.as_str());
    let mut name = strip_colons(chars.as_slice());
    name.append(".json");
    Ok(name)
}

/// The name under which the file of a pairing is written before it takes its place.
pub open spec fn temporary_name_of(mac: Seq<char>, process: int) -> Seq<char> {
    "."@ + without_colons(mac) + "."@ + number::decimal(process) + ".tmp"@
}

/// The name under which the file of a pairing is written before it takes its place.
pub fn temporary_name(peer: &str, process: u32) -> (r: Result<String, CredentialError>)
    ensures
        if is_mac(peer@) {
            r is Ok && r->Ok_0@ == temporary_name_of(text::lowercase(peer@), process as int)
        } else {
            r == Err::<String, CredentialError>(CredentialError::InvalidMac)
        },
{
    let address = mac(peer)?;
    let chars = text::chars_of(address.as_str());
    let mut name = ".".to_owned();
    name.append(strip_colons(chars.as_slice()).as_str());
    name.append(".");
    name.append(number::decimal_text(process as u64).as_str());
    name.append(".tmp");
    Ok(name)
}

/// Whether bytes, written in hexadecimal with colons between them, are an address.
pub open spec fn address_text(bytes: Seq<u8>) -> Seq<char>
    decreases bytes.len(),
{
    if bytes.len() == 0 {
        Seq::empty()
    } else if bytes.len() == 1 {
        number::hexadecimal(bytes[0] as int, 2)
    } else {
        address_text(bytes.drop_last()) + ":"@ + number::hexadecimal(bytes.last() as int, 2)
    }
}

/// The address of a device in text.
pub fn write_address(bytes: &[u8]) -> (r: String)
    ensures
        r@ == address_text(bytes@),
{
    let mut out = String::new();
    let mut i: usize = 0;
    proof {
        assert(bytes@.take(0) =~= Seq::<u8>::empty());
    }
    while i < bytes.len()
        invariant
            i <= bytes@.len(),
            out@ == address_text(bytes@.take(i as int)),
        decreases bytes@.len() - i,
    {
        let ghost before = out@;
        proof {
            assert(bytes@.take(i + 1).drop_last() =~= bytes@.take(i as int));
        }
        if i > 0 {
            out.append(":");
        } else {
            proof {
                assert(Seq::<char>::empty() + number::hexadecimal(bytes@[0] as int, 2)
                    =~= number::hexadecimal(bytes@[0] as int, 2));
            }
        }
        out.append(number::hexadecimal_text(bytes[i] as u64, 2).as_str());
        i = i + 1;
    }
    proof {
        assert(bytes@.take(i as int) =~= bytes@);
    }
    out
}

// ---------------------------------------------------------------------------
// Values of the configuration
// ---------------------------------------------------------------------------

/// What stands between quotes.
pub open spec fn quoted(s: Seq<char>) -> Option<Seq<char>> {
    if s.len() >= 2 && s[0] == '"' && s.last() == '"' {
        Some(s.subrange(1, s.len() - 1))
    } else {
        None
    }
}

/// Only hexadecimal digits, two for every byte.
pub open spec fn is_hex(s: Seq<char>) -> bool {
    s.len() % 2 == 0 && number::all_digits(s, 16)
}

/// The bytes that hexadecimal digits write.
pub open spec fn hex_bytes(s: Seq<char>) -> Seq<u8> {
    Seq::new(
        s.len() / 2,
        |i: int| (number::digit_value(s[i * 2]) * 16 + number::digit_value(s[i * 2 + 1])) as u8,
    )
}

/// The bytes of a network name: a quoted text or hexadecimal digits, for one to 32 bytes.
pub open spec fn ssid_of(value: Seq<char>) -> Option<Seq<u8>> {
    let bytes = match quoted(value) {
        Some(inner) => Some(vstd::utf8::encode_utf8(inner)),
        None => if is_hex(value) {
            Some(hex_bytes(value))
        } else {
            None
        },
    };
    match bytes {
        Some(b) => if 1 <= b.len() <= 32 {
            Some(b)
        } else {
            None
        },
        None => None,
    }
}

/// The bytes of a text.
fn bytes_of(s: &[char]) -> (r: Vec<u8>)
    ensures
        r@ == vstd::utf8::encode_utf8(s@),
{
    let t = text::text_of(s);
    let mut v: Vec<u8> = Vec::new();
    v.extend_from_slice(t.as_str().as_bytes());
    proof {
        assert(v@ =~= vstd::utf8::encode_utf8(s@));
    }
    v
}

/// What stands between quotes.
fn unquoted(s: &[char]) -> (r: Option<&[char]>)
    ensures
        match quoted(s@) {
            Some(inner) => r is Some && r->Some_0@ == inner,
            None => r is None,
        },
{
    if s.len() >= 2 && s[0] == '"' && s[s.len() - 1] == '"' {
        Some(&s[1..s.len() - 1])
    } else {
        None
    }
}

/// Only hexadecimal digits, two for every byte.
fn check_hex(s: &[char]) -> (r: bool)
    ensures
        r == is_hex(s@),
{
    if s.len() % 2 != 0 {
        return false;
    }
    let mut i: usize = 0;
    while i < s.len()
        invariant
            i <= s@.len(),
            s@.len() % 2 == 0,
            forall|k: int| 0 <= k < i ==> number::digit_value(#[trigger] s@[k]) < 16,
        decreases s@.len() - i,
    {
        if number::digit(s[i]) >= 16 {
            return false;
        }
        i = i + 1;
    }
    true
}

/// The bytes that hexadecimal digits write.
fn read_hex(s: &[char]) -> (r: Vec<u8>)
    requires
        is_hex(s@),
    ensures
        r@ == hex_bytes(s@),
{
    let mut v: Vec<u8> = Vec::new();
    let size: usize = s.len();
    let count: usize = size / 2;
    let mut i: usize = 0;
    while i < count
        invariant
            i <= count,
            size == s@.len(),
            count == size / 2,
            is_hex(s@),
            v@ == hex_bytes(s@).take(i as int),
        decreases count - i,
    {
        let high: u64 = number::digit(s[i * 2]);
        let low: u64 = number::digit(s[i * 2 + 1]);
        proof {
            assert(number::digit_value(s@[i * 2]) < 16);
            assert(number::digit_value(s@[i * 2 + 1]) < 16);
        }
        v.push((high * 16 + low) as u8);
        i = i + 1;
        proof {
            assert(hex_bytes(s@).take(i as int) =~= hex_bytes(s@).take(i - 1).push(
                hex_bytes(s@)[i - 1],
            ));
        }
    }
    proof {
        assert(hex_bytes(s@).take(i as int) =~= hex_bytes(s@));
    }
    v
}

/// The bytes of a network name, as the configuration writes it.
pub fn ssid_bytes(value: &str) -> (r: Option<Vec<u8>>)
    ensures
        match ssid_of(value@) {
            Some(bytes) => r is Some && r->Some_0@ == bytes,
            None => r is None,
        },
{
    let chars = text::chars_of(value);
    let bytes = match unquoted(chars.as_slice()) {
        Some(inner) => bytes_of(inner),
        None => {
            if !check_hex(chars.as_slice()) {
                return None;
            }
            read_hex(chars.as_slice())
        },
    };
    if bytes.len() < 1 || bytes.len() > 32 {
        return None;
    }
    Some(bytes)
}

// ---------------------------------------------------------------------------
// A pairing
// ---------------------------------------------------------------------------

/// Whether a pairing is one with this display, in which the display is the owner.
pub open spec fn is_pairing_with(props: Map<Seq<char>, Seq<char>>, peer: Seq<char>) -> bool {
    &&& props.contains_key("bssid"@)
    &&& is_mac(props["bssid"@])
    &&& text::lowercase(props["bssid"@]) == peer
    &&& props.contains_key("mode"@) ==> props["mode"@] == "0"@
}

/// Whether a pairing is one with this display, in which the display is the owner.
pub fn matches_peer(props: &Fields, peer: &str) -> (r: bool)
    ensures
        r == is_pairing_with(props@, peer@),
{
    let bssid = match props.get("bssid") {
        None => {
            return false;
        },
        Some(bssid) => bssid,
    };
    let address = match mac(bssid) {
        Err(_) => {
            return false;
        },
        Ok(address) => address,
    };
    if !text::same(address.as_str(), peer) {
        return false;
    }
    match props.get("mode") {
        None => true,
        Some(mode) => text::same(mode, "0"),
    }
}

/// The network name of a pairing.
pub open spec fn network_of(props: Map<Seq<char>, Seq<char>>) -> Option<Seq<u8>> {
    if props.contains_key("ssid"@) {
        ssid_of(props["ssid"@])
    } else {
        None
    }
}

/// The network name of a pairing.
pub fn network_name(props: &Fields) -> (r: Option<Vec<u8>>)
    ensures
        match network_of(props@) {
            Some(bytes) => r is Some && r->Some_0@ == bytes,
            None => r is None,
        },
{
    match props.get("ssid") {
        None => None,
        Some(value) => ssid_bytes(value),
    }
}

/// Whether two byte strings are equal.
pub(crate) fn same_bytes(a: &[u8], b: &[u8]) -> (r: bool)
    ensures
        r == (a@ == b@),
{
    if a.len() != b.len() {
        return false;
    }
    let mut i: usize = 0;
    while i < a.len()
        invariant
            a@.len() == b@.len(),
            i <= a@.len(),
            forall|k: int| 0 <= k < i ==> a@[k] == b@[k],
        decreases a@.len() - i,
    {
        if a[i] != b[i] {
            return false;
        }
        i = i + 1;
    }
    proof {
        assert(a@ =~= b@);
    }
    true
}

/// Whether two pairings have the same network name, however it is written.
pub open spec fn have_same_ssid(
    a: Map<Seq<char>, Seq<char>>,
    b: Map<Seq<char>, Seq<char>>,
) -> bool {
    network_of(a) is Some && network_of(a) == network_of(b)
}

/// Whether two pairings have the same network name, however it is written.
pub fn same_ssid(a: &Fields, b: &Fields) -> (r: bool)
    ensures
        r == have_same_ssid(a@, b@),
{
    match (network_name(a), network_name(b)) {
        (Some(x), Some(y)) => same_bytes(x.as_slice(), y.as_slice()),
        _ => false,
    }
}

// ---------------------------------------------------------------------------
// Restoring a pairing
// ---------------------------------------------------------------------------

/// A value of a pairing that is restored.
#[derive(Debug, PartialEq, Eq)]
pub enum Property {
    Bytes(Vec<u8>),
    Text(String),
    Number(u32),
}

/// A value of a pairing that is restored.
pub ghost enum PropertyModel {
    Bytes(Seq<u8>),
    Text(Seq<char>),
    Number(u32),
}

impl View for Property {
    type V = PropertyModel;

    open spec fn view(&self) -> PropertyModel {
        match self {
            Property::Bytes(b) => PropertyModel::Bytes(b@),
            Property::Text(s) => PropertyModel::Text(s@),
            Property::Number(n) => PropertyModel::Number(*n),
        }
    }
}

/// Values with their names as sequences.
pub open spec fn property_views(v: Seq<(&'static str, Property)>) -> Seq<
    (Seq<char>, PropertyModel),
> {
    Seq::new(v.len(), |i: int| (v[i].0@, v[i].1@))
}

/// The key of a pairing: a quoted passphrase of eight to 63 bytes without a zero, or 64
/// hexadecimal digits.
pub open spec fn key_of(psk: Seq<char>) -> Result<PropertyModel, CredentialError> {
    match quoted(psk) {
        Some(passphrase) => {
            let bytes = vstd::utf8::encode_utf8(passphrase);
            if 8 <= bytes.len() <= 63 && !bytes.contains(0u8) {
                Ok(PropertyModel::Text(passphrase))
            } else {
                Err(CredentialError::InvalidPassphrase)
            }
        },
        None => if psk.len() == 64 && is_hex(psk) {
            Ok(PropertyModel::Bytes(hex_bytes(psk)))
        } else {
            Err(CredentialError::InvalidRawKey)
        },
    }
}

/// The management frame policy of a pairing, where it is written out; three stands for the
/// default.
pub open spec fn policy_of(props: Map<Seq<char>, Seq<char>>) -> Result<
    Option<u32>,
    CredentialError,
> {
    if !props.contains_key("ieee80211w"@) {
        Ok(None)
    } else {
        match number::number(props["ieee80211w"@], 10, 0xffff_ffff) {
            None => Err(CredentialError::InvalidPolicy),
            Some(n) => if n > 3 {
                Err(CredentialError::InvalidPolicy)
            } else if n == 3 {
                Ok(None)
            } else {
                Ok(Some(n as u32))
            },
        }
    }
}

/// A value that is taken over as it is, where the pairing has it.
pub open spec fn with_field(
    list: Seq<(Seq<char>, PropertyModel)>,
    props: Map<Seq<char>, Seq<char>>,
    name: Seq<char>,
) -> Seq<(Seq<char>, PropertyModel)> {
    if props.contains_key(name) {
        list.push((name, PropertyModel::Text(props[name])))
    } else {
        list
    }
}

/// The values with which a pairing is restored: only what a client needs.
pub open spec fn restored(props: Map<Seq<char>, Seq<char>>) -> Result<
    Seq<(Seq<char>, PropertyModel)>,
    CredentialError,
> {
    if network_of(props) is None {
        Err(CredentialError::InvalidSsid)
    } else if !props.contains_key("bssid"@) {
        Err(CredentialError::NoPeer)
    } else if !is_mac(props["bssid"@]) {
        Err(CredentialError::InvalidMac)
    } else if props.contains_key("mode"@) && props["mode"@] != "0"@ {
        Err(CredentialError::NotAClient)
    } else if !props.contains_key("psk"@) {
        Err(CredentialError::NoKey)
    } else {
        match key_of(props["psk"@]) {
            Err(e) => Err(e),
            Ok(key) => match policy_of(props) {
                Err(e) => Err(e),
                Ok(policy) => {
                    let base = seq![
                        ("ssid"@, PropertyModel::Bytes(network_of(props)->Some_0)),
                        ("psk"@, key),
                        ("bssid"@, PropertyModel::Text(text::lowercase(props["bssid"@]))),
                        ("mode"@, PropertyModel::Number(0)),
                        ("disabled"@, PropertyModel::Number(2)),
                    ];
                    let all = with_field(
                        with_field(
                            with_field(
                                with_field(
                                    with_field(base, props, "key_mgmt"@),
                                    props,
                                    "proto"@,
                                ),
                                props,
                                "pairwise"@,
                            ),
                            props,
                            "group"@,
                        ),
                        props,
                        "auth_alg"@,
                    );
                    Ok(
                        match policy {
                            Some(n) => all.push(("ieee80211w"@, PropertyModel::Number(n))),
                            None => all,
                        },
                    )
                },
            },
        }
    }
}

/// Whether a byte string holds a zero.
fn has_zero(bytes: &[u8]) -> (r: bool)
    ensures
        r == bytes@.contains(0u8),
{
    let mut i: usize = 0;
    while i < bytes.len()
        invariant
            i <= bytes@.len(),
            forall|k: int| 0 <= k < i ==> bytes@[k] != 0,
        decreases bytes@.len() - i,
    {
        if bytes[i] == 0 {
            proof {
                assert(bytes@[i as int] == 0);
            }
            return true;
        }
        i = i + 1;
    }
    false
}

/// The key of a pairing.
fn read_key(psk: &str) -> (r: Result<Property, CredentialError>)
    ensures
        match key_of(psk@) {
            Ok(key) => r is Ok && r->Ok_0@ == key,
            Err(e) => r == Err::<Property, CredentialError>(e),
        },
{
    let chars = text::chars_of(psk);
    match unquoted(chars.as_slice()) {
        Some(passphrase) => {
            let bytes = bytes_of(passphrase);
            if bytes.len() < 8 || bytes.len() > 63 || has_zero(bytes.as_slice()) {
                return Err(CredentialError::InvalidPassphrase);
            }
            Ok(Property::Text(text::text_of(passphrase)))
        },
        None => {
            if chars.len() != 64 || !check_hex(chars.as_slice()) {
                return Err(CredentialError::InvalidRawKey);
            }
            Ok(Property::Bytes(read_hex(chars.as_slice())))
        },
    }
}

/// The management frame policy of a pairing.
fn read_policy(props: &Fields) -> (r: Result<Option<u32>, CredentialError>)
    ensures
        r == policy_of(props@),
{
    match props.get("ieee80211w") {
        None => Ok(None),
        Some(value) => {
            let chars = text::chars_of(value);
            match number::parse_u32(chars.as_slice()) {
                Err(_) => Err(CredentialError::InvalidPolicy),
                Ok(n) => if n > 3 {
                    Err(CredentialError::InvalidPolicy)
                } else if n == 3 {
                    Ok(None)
                } else {
                    Ok(Some(n))
                },
            }
        },
    }
}

/// One value behind others.
proof fn lemma_properties_push(v: Seq<(&'static str, Property)>, p: (&'static str, Property))
    ensures
        property_views(v.push(p)) == property_views(v).push((p.0@, p.1@)),
{
    assert(property_views(v.push(p)) =~= property_views(v).push((p.0@, p.1@)));
}

/// Takes over a value as it is, where the pairing has it.
fn push_field(list: &mut Vec<(&'static str, Property)>, props: &Fields, name: &'static str)
    ensures
        property_views(final(list)@) == with_field(property_views(old(list)@), props@, name@),
{
    match props.get(name) {
        None => {},
        Some(value) => {
            let property = Property::Text(value.to_owned());
            proof {
                lemma_properties_push(list@, (name, property));
            }
            list.push((name, property));
        },
    }
}

/// The values with which a pairing is restored. The saved texts are those of the
/// configuration file; the values have the types that are asked for when a group is added.
pub fn restore_properties(props: &Fields) -> (r: Result<
    Vec<(&'static str, Property)>,
    CredentialError,
>)
    ensures
        match restored(props@) {
            Ok(list) => r is Ok && property_views(r->Ok_0@) == list,
            Err(e) => r == Err::<Vec<(&'static str, Property)>, CredentialError>(e),
        },
{
    let ssid = match network_name(props) {
        None => {
            return Err(CredentialError::InvalidSsid);
        },
        Some(ssid) => ssid,
    };
    let bssid = match props.get("bssid") {
        None => {
            return Err(CredentialError::NoPeer);
        },
        Some(bssid) => mac(bssid)?,
    };
    match props.get("mode") {
        None => {},
        Some(mode) => {
            if !text::same(mode, "0") {
                return Err(CredentialError::NotAClient);
            }
        },
    }
    let key = match props.get("psk") {
        None => {
            return Err(CredentialError::NoKey);
        },
        Some(psk) => read_key(psk)?,
    };
    let policy = read_policy(props)?;
    let mut list: Vec<(&'static str, Property)> = Vec::new();
    let ghost key_model = key@;
    let ghost ssid_model = ssid@;
    let ghost bssid_model = bssid@;
    list.push(("ssid", Property::Bytes(ssid)));
    list.push(("psk", key));
    list.push(("bssid", Property::Text(bssid)));
    list.push(("mode", Property::Number(0)));
    list.push(("disabled", Property::Number(2)));
    proof {
        assert(property_views(list@) =~= seq![
            ("ssid"@, PropertyModel::Bytes(ssid_model)),
            ("psk"@, key_model),
            ("bssid"@, PropertyModel::Text(bssid_model)),
            ("mode"@, PropertyModel::Number(0)),
            ("disabled"@, PropertyModel::Number(2)),
        ]);
    }
    push_field(&mut list, props, "key_mgmt");
    push_field(&mut list, props, "proto");
    push_field(&mut list, props, "pairwise");
    push_field(&mut list, props, "group");
    push_field(&mut list, props, "auth_alg");
    match policy {
        None => {},
        Some(n) => {
            let property = Property::Number(n);
            proof {
                lemma_properties_push(list@, ("ieee80211w", property));
            }
            list.push(("ieee80211w", property));
        },
    }
    Ok(list)
}

// ---------------------------------------------------------------------------
// Files
// ---------------------------------------------------------------------------

/// What is known of a file.
#[derive(Clone, Copy, Debug, PartialEq, Eq, Structural)]
pub struct FileFacts {
    pub regular: bool,
    pub owner: u32,
    pub mode: u32,
    pub length: u64,
}

/// Only a file of root that nobody else can read or write, and of at most 64 KiB.
pub open spec fn is_safe(file: FileFacts) -> bool {
    file.regular && file.owner == 0 && file.mode as int % 64 == 0 && file.length <= 65536
}

/// Whether a saved pairing may be read.
pub fn check_file(file: &FileFacts) -> (r: Result<(), CredentialError>)
    ensures
        r is Ok <==> is_safe(*file),
        r is Err ==> r->Err_0 == CredentialError::UnsafeFile,
{
    if file.regular && file.owner == 0 && file.mode % 64 == 0 && file.length <= 65536 {
        Ok(())
    } else {
        Err(CredentialError::UnsafeFile)
    }
}

/// Whether pairings may be kept in a directory: one of the user under which the service
/// runs.
pub fn check_directory(directory: bool, owner: u32, user: u32) -> (r: Result<(), CredentialError>)
    ensures
        r is Ok <==> directory && owner == user,
        r is Err ==> r->Err_0 == CredentialError::UnsafeDirectory,
{
    if directory && owner == user {
        Ok(())
    } else {
        Err(CredentialError::UnsafeDirectory)
    }
}

/// The pairing in the bytes of a file, where it is one with this display.
pub open spec fn pairing_in(bytes: Seq<u8>, peer: Seq<char>) -> Result<
    Map<Seq<char>, Seq<char>>,
    CredentialError,
> {
    match json::json_texts(bytes) {
        None => Err(CredentialError::InvalidFile),
        Some(props) => if is_pairing_with(props, peer) {
            Ok(props)
        } else {
            Err(CredentialError::OtherPeer)
        },
    }
}

/// The pairing in the bytes of a file, where it is one with this display.
pub fn read_pairing(bytes: &[u8], peer: &str) -> (r: Result<Fields, CredentialError>)
    ensures
        match pairing_in(bytes@, peer@) {
            Ok(props) => r is Ok && r->Ok_0@ == props,
            Err(e) => r is Err && r->Err_0 == e,
        },
{
    match json::read_texts(bytes) {
        Err(_) => Err(CredentialError::InvalidFile),
        Ok(pairs) => {
            let props = Fields::from_pairs(pairs);
            match_pairing(props, peer)
        },
    }
}

/// A pairing that has to be one with this display.
pub fn match_pairing(props: Fields, peer: &str) -> (r: Result<Fields, CredentialError>)
    ensures
        if is_pairing_with(props@, peer@) {
            r is Ok && r->Ok_0@ == props@
        } else {
            r is Err && r->Err_0 == CredentialError::OtherPeer
        },
{
    if matches_peer(&props, peer) {
        Ok(props)
    } else {
        Err(CredentialError::OtherPeer)
    }
}

/// Whether the bytes of a file are those of a pairing.
pub open spec fn holds_pairing(bytes: Seq<u8>, props: Map<Seq<char>, Seq<char>>) -> bool {
    json::json_texts(bytes) == Some(props)
}

/// The bytes of a file for a pairing.
pub fn write_pairing(props: &Fields) -> (r: Result<Vec<u8>, CredentialError>)
    ensures
        r is Ok,
        holds_pairing(r->Ok_0@, props@),
{
    let pairs = props.to_pairs();
    let numbers: Vec<(String, u64)> = Vec::new();
    let flags: Vec<(String, bool)> = Vec::new();
    match json::write_object(&pairs, &numbers, &flags) {
        Ok(bytes) => Ok(bytes),
        Err(_) => Err(CredentialError::CannotSave),
    }
}

// ---------------------------------------------------------------------------
// Laws
// ---------------------------------------------------------------------------

/// A pairing that was written is read back for its display, and for no other.
pub proof fn law_saved_pairings_read_back(
    bytes: Seq<u8>,
    props: Map<Seq<char>, Seq<char>>,
    peer: Seq<char>,
)
    requires
        holds_pairing(bytes, props),
    ensures
        is_pairing_with(props, peer) ==> pairing_in(bytes, peer) == Ok::<
            Map<Seq<char>, Seq<char>>,
            CredentialError,
        >(props),
        !is_pairing_with(props, peer) ==> pairing_in(bytes, peer) == Err::<
            Map<Seq<char>, Seq<char>>,
            CredentialError,
        >(CredentialError::OtherPeer),
{
}

/// Lower case keeps the value of hexadecimal digits.
proof fn lemma_lower_digit(c: char)
    ensures
        number::digit_value(text::lower(c)) == number::digit_value(c),
        text::lower(text::lower(c)) == text::lower(c),
        text::lower(c) == ':' <==> c == ':',
        text::lower(c) == '0' <==> c == '0',
{
}

/// An address in lower case is the same address, and stays as it is.
pub proof fn law_addresses_are_canonical(s: Seq<char>)
    requires
        is_mac(s),
    ensures
        is_mac(text::lowercase(s)),
        text::lowercase(text::lowercase(s)) == text::lowercase(s),
{
    let t = text::lowercase(s);
    assert forall|i: int| 0 <= i < 17 implies if i % 3 == 2 {
        #[trigger] t[i] == ':'
    } else {
        number::digit_value(t[i]) < 16
    } by {
        lemma_lower_digit(s[i]);
        assert(t[i] == text::lower(s[i]));
    }
    lemma_lower_digit(s[1]);
    assert(t[1] == text::lower(s[1]));
    reveal_strlit("00:00:00:00:00:00");
    if t == "00:00:00:00:00:00"@ {
        assert forall|i: int| 0 <= i < 17 implies s[i] == "00:00:00:00:00:00"@[i] by {
            lemma_lower_digit(s[i]);
            assert(t[i] == text::lower(s[i]));
        }
        assert(s =~= "00:00:00:00:00:00"@);
    }
    assert forall|i: int| 0 <= i < 17 implies text::lowercase(t)[i] == t[i] by {
        lemma_lower_digit(s[i]);
        assert(t[i] == text::lower(s[i]));
    }
    assert(text::lowercase(t) =~= t);
}

/// The name of a file holds no path: only letters and digits in front of its ending.
pub proof fn law_file_names_hold_no_path(s: Seq<char>)
    requires
        has_mac_form(s),
    ensures
        forall|i: int|
            0 <= i < without_colons(s).len() ==> number::digit_value(
                #[trigger] without_colons(s)[i],
            ) < 16,
{
    lemma_only_digits(s);
}

proof fn lemma_only_digits(s: Seq<char>)
    requires
        forall|i: int|
            0 <= i < s.len() ==> #[trigger] s[i] == ':' || number::digit_value(s[i]) < 16,
    ensures
        forall|i: int|
            0 <= i < without_colons(s).len() ==> number::digit_value(
                #[trigger] without_colons(s)[i],
            ) < 16,
    decreases s.len(),
{
    if s.len() > 0 {
        let front = s.drop_last();
        assert forall|i: int| 0 <= i < front.len() implies #[trigger] front[i] == ':'
            || number::digit_value(front[i]) < 16 by {
            assert(front[i] == s[i]);
        }
        lemma_only_digits(front);
        let all = without_colons(s);
        let before = without_colons(front);
        assert(s.last() == s[s.len() - 1]);
        assert forall|i: int| 0 <= i < all.len() implies number::digit_value(#[trigger] all[i])
            < 16 by {
            if i < before.len() {
                assert(all[i] == before[i]);
            }
        }
    }
}

/// Having the same network name goes both ways.
pub proof fn law_same_name_is_symmetric(
    a: Map<Seq<char>, Seq<char>>,
    b: Map<Seq<char>, Seq<char>>,
)
    ensures
        have_same_ssid(a, b) == have_same_ssid(b, a),
{
}

/// A pairing that can be restored is one with its display, and what is restored names the
/// display, a network name of one to 32 bytes and no more than eleven values.
pub proof fn law_restored_pairings_name_their_display(props: Map<Seq<char>, Seq<char>>)
    requires
        restored(props) is Ok,
    ensures
        is_pairing_with(props, text::lowercase(props["bssid"@])),
        restored(props)->Ok_0[2] == (
            "bssid"@,
            PropertyModel::Text(text::lowercase(props["bssid"@])),
        ),
        1 <= network_of(props)->Some_0.len() <= 32,
        5 <= restored(props)->Ok_0.len() <= 11,
{
}

/// Whether `digits` write `bytes` in hexadecimal, two digits for each of them.
pub open spec fn writes_bytes(digits: Seq<char>, bytes: Seq<u8>) -> bool {
    &&& digits.len() == 2 * bytes.len()
    &&& forall|i: int|
        0 <= i < bytes.len() ==> number::digit_value(digits[2 * i]) == (#[trigger] bytes[i]) as int
            / 16 && number::digit_value(digits[2 * i + 1]) == bytes[i] as int % 16
}

/// Hexadecimal digits read back.
proof fn lemma_hex(digits: Seq<char>, bytes: Seq<u8>)
    requires
        writes_bytes(digits, bytes),
    ensures
        is_hex(digits),
        hex_bytes(digits) == bytes,
        bytes.len() > 0 ==> quoted(digits) is None,
{
    assert forall|i: int| 0 <= i < digits.len() implies number::digit_value(#[trigger] digits[i])
        < 16 by {
        let k = i / 2;
        assert(bytes[k] as int / 16 < 16);
        assert(i == 2 * k || i == 2 * k + 1);
    }
    assert forall|i: int| 0 <= i < bytes.len() implies hex_bytes(digits)[i] == #[trigger] bytes[i] by {
        assert(digits[i * 2] == digits[2 * i] && digits[i * 2 + 1] == digits[2 * i + 1]);
    }
    assert(hex_bytes(digits) =~= bytes);
    if bytes.len() > 0 {
        assert(number::digit_value(digits[0]) < 16);
    }
}

/// A network name reads back, from a text between quotes as well as from hexadecimal digits in
/// either case, where it has one to 32 bytes; a longer one or none at all is no name.
pub proof fn law_network_names_read_back(name: Seq<char>, digits: Seq<char>, bytes: Seq<u8>)
    requires
        writes_bytes(digits, bytes),
    ensures
        ({
            let inner = vstd::utf8::encode_utf8(name);
            let between = seq!['"'] + name + seq!['"'];
            &&& 1 <= inner.len() <= 32 ==> ssid_of(between) == Some(inner)
            &&& inner.len() == 0 || inner.len() > 32 ==> ssid_of(between) is None
            &&& 1 <= bytes.len() <= 32 ==> ssid_of(digits) == Some(bytes)
            &&& bytes.len() == 0 || bytes.len() > 32 ==> ssid_of(digits) is None
        }),
{
    let between = seq!['"'] + name + seq!['"'];
    assert(between.subrange(1, between.len() - 1) =~= name);
    lemma_hex(digits, bytes);
}

/// The key of a pairing reads back: a passphrase between quotes of eight to 63 bytes without a
/// zero as it is, and 64 hexadecimal digits as 32 bytes. Nothing else is a key.
pub proof fn law_keys_read_back(passphrase: Seq<char>, digits: Seq<char>, bytes: Seq<u8>)
    requires
        writes_bytes(digits, bytes),
        bytes.len() > 0,
    ensures
        ({
            let inner = vstd::utf8::encode_utf8(passphrase);
            let key = key_of(seq!['"'] + passphrase + seq!['"']);
            &&& 8 <= inner.len() <= 63 && !inner.contains(0u8) ==> key == Ok::<
                PropertyModel,
                CredentialError,
            >(PropertyModel::Text(passphrase))
            &&& inner.len() < 8 || inner.len() > 63 || inner.contains(0u8) ==> key == Err::<
                PropertyModel,
                CredentialError,
            >(CredentialError::InvalidPassphrase)
            &&& bytes.len() == 32 ==> key_of(digits) == Ok::<PropertyModel, CredentialError>(
                PropertyModel::Bytes(bytes),
            )
            &&& bytes.len() != 32 ==> key_of(digits) == Err::<PropertyModel, CredentialError>(
                CredentialError::InvalidRawKey,
            )
        }),
{
    let between = seq!['"'] + passphrase + seq!['"'];
    assert(between.subrange(1, between.len() - 1) =~= passphrase);
    lemma_hex(digits, bytes);
}

/// The policy for management frames: what is written up to two is taken over, three and nothing
/// stand for the default, and nothing above is one.
pub proof fn law_policies_read_back(props: Map<Seq<char>, Seq<char>>, n: int)
    requires
        0 <= n <= 0xffff_ffff,
    ensures
        ({
            let policy = policy_of(props.insert("ieee80211w"@, number::decimal(n)));
            &&& n <= 2 ==> policy == Ok::<Option<u32>, CredentialError>(Some(n as u32))
            &&& n == 3 ==> policy == Ok::<Option<u32>, CredentialError>(None)
            &&& n >= 4 ==> policy == Err::<Option<u32>, CredentialError>(
                CredentialError::InvalidPolicy,
            )
        }),
        policy_of(props.remove("ieee80211w"@)) == Ok::<Option<u32>, CredentialError>(None),
{
    number::law_decimal_reads_back(n, 0xffff_ffff);
}

/// What is restored of a pairing: its network name, its key, the address of the display in lower
/// case, the part of a client, out of use until it is asked for, and what the pairing says of its
/// protection, and nothing else.
pub proof fn law_restored_values(props: Map<Seq<char>, Seq<char>>, k: int)
    requires
        restored(props) is Ok,
    ensures
        ({
            let list = restored(props)->Ok_0;
            &&& network_of(props) is Some && list.contains(
                ("ssid"@, PropertyModel::Bytes(network_of(props)->Some_0)),
            )
            &&& key_of(props["psk"@]) is Ok && list.contains(("psk"@, key_of(props["psk"@])->Ok_0))
            &&& list.contains(("bssid"@, PropertyModel::Text(text::lowercase(props["bssid"@]))))
            &&& list.contains(("mode"@, PropertyModel::Number(0)))
            &&& list.contains(("disabled"@, PropertyModel::Number(2)))
            &&& props.contains_key("key_mgmt"@) ==> list.contains(
                ("key_mgmt"@, PropertyModel::Text(props["key_mgmt"@])),
            )
            &&& props.contains_key("proto"@) ==> list.contains(
                ("proto"@, PropertyModel::Text(props["proto"@])),
            )
            &&& props.contains_key("pairwise"@) ==> list.contains(
                ("pairwise"@, PropertyModel::Text(props["pairwise"@])),
            )
            &&& props.contains_key("group"@) ==> list.contains(
                ("group"@, PropertyModel::Text(props["group"@])),
            )
            &&& props.contains_key("auth_alg"@) ==> list.contains(
                ("auth_alg"@, PropertyModel::Text(props["auth_alg"@])),
            )
            &&& policy_of(props) matches Ok(Some(n)) ==> list.contains(
                ("ieee80211w"@, PropertyModel::Number(n)),
            )
            &&& 5 <= k < list.len() && list[k].1 !is Number ==> {
                let name = list[k].0;
                &&& name == "key_mgmt"@ || name == "proto"@ || name == "pairwise"@ || name
                    == "group"@ || name == "auth_alg"@
                &&& props.contains_key(name) && list[k].1 == PropertyModel::Text(props[name])
            }
        }),
{
    let list = restored(props)->Ok_0;
    let base = seq![
        ("ssid"@, PropertyModel::Bytes(network_of(props)->Some_0)),
        ("psk"@, key_of(props["psk"@])->Ok_0),
        ("bssid"@, PropertyModel::Text(text::lowercase(props["bssid"@]))),
        ("mode"@, PropertyModel::Number(0)),
        ("disabled"@, PropertyModel::Number(2)),
    ];
    let a = with_field(base, props, "key_mgmt"@);
    let b = with_field(a, props, "proto"@);
    let c = with_field(b, props, "pairwise"@);
    let d = with_field(c, props, "group"@);
    let e = with_field(d, props, "auth_alg"@);
    assert(list[0] == base[0] && list[1] == base[1] && list[2] == base[2] && list[3] == base[3]
        && list[4] == base[4]);
    if props.contains_key("key_mgmt"@) {
        assert(list[a.len() - 1] == a.last());
    }
    if props.contains_key("proto"@) {
        assert(list[b.len() - 1] == b.last());
    }
    if props.contains_key("pairwise"@) {
        assert(list[c.len() - 1] == c.last());
    }
    if props.contains_key("group"@) {
        assert(list[d.len() - 1] == d.last());
    }
    if props.contains_key("auth_alg"@) {
        assert(list[e.len() - 1] == e.last());
    }
    if policy_of(props) matches Ok(Some(_)) {
        assert(list[list.len() - 1] == list.last());
    }
}

/// Why a pairing is not restored: what is wrong with it first, of the name, the display, its
/// part, the key and the policy.
pub proof fn law_pairings_that_are_not_restored(props: Map<Seq<char>, Seq<char>>)
    ensures
        ({
            let named = props.contains_key("ssid"@) && ssid_of(props["ssid"@]) is Some;
            let display = props.contains_key("bssid"@);
            let address = is_mac(props["bssid"@]);
            let client = !props.contains_key("mode"@) || props["mode"@] == "0"@;
            let keyed = props.contains_key("psk"@);
            let why = restored(props)->Err_0;
            &&& restored(props) is Ok <==> named && display && address && client && keyed && key_of(
                props["psk"@],
            ) is Ok && policy_of(props) is Ok
            &&& !named ==> why == CredentialError::InvalidSsid
            &&& named && !display ==> why == CredentialError::NoPeer
            &&& named && display && !address ==> why == CredentialError::InvalidMac
            &&& named && display && address && !client ==> why == CredentialError::NotAClient
            &&& named && display && address && client && !keyed ==> why == CredentialError::NoKey
        }),
{
}

/// The address of a device: six bytes in hexadecimal with colons between them, unless all of them
/// are zero or the lowest bit of the first is set, which is the address of a group.
pub proof fn law_addresses_of_devices(s: Seq<char>, bytes: Seq<u8>)
    requires
        s.len() == 17,
        bytes.len() == 6,
        forall|k: int|
            0 <= k < 6 ==> number::digit_value(s[3 * k]) == (#[trigger] bytes[k]) as int / 16
                && number::digit_value(s[3 * k + 1]) == bytes[k] as int % 16,
        s[2] == ':' && s[5] == ':' && s[8] == ':' && s[11] == ':' && s[14] == ':',
    ensures
        is_mac(s) <==> bytes[0] % 2 == 0 && exists|k: int| 0 <= k < 6 && #[trigger] bytes[k] != 0,
{
    assert forall|i: int| 0 <= i < 17 implies if i % 3 == 2 {
        #[trigger] s[i] == ':'
    } else {
        number::digit_value(s[i]) < 16
    } by {
        let k = i / 3;
        assert(bytes[k] as int / 16 < 16);
        assert(i == 3 * k || i == 3 * k + 1 || i == 3 * k + 2);
    }
    assert(has_mac_form(s));
    let first: int = 0;
    assert(s[3 * first + 1] == s[1]);
    assert(number::digit_value(s[1]) == bytes[0] as int % 16);
    reveal_strlit("00:00:00:00:00:00");
    let zero = "00:00:00:00:00:00"@;
    if s == zero {
        assert forall|k: int| 0 <= k < 6 implies #[trigger] bytes[k] == 0 by {
            assert(s[3 * k] == '0' && s[3 * k + 1] == '0');
        }
    } else if forall|k: int| 0 <= k < 6 ==> #[trigger] bytes[k] == 0 {
        assert forall|i: int| 0 <= i < 17 implies #[trigger] s[i] == zero[i] by {
            let k = i / 3;
            assert(bytes[k] == 0);
            if i % 3 == 2 {
                assert(s[i] == ':');
            } else {
                assert(i == 3 * k || i == 3 * k + 1);
                assert(number::digit_value(s[i]) == 0);
            }
        }
        assert(s =~= zero);
    }
}

/// A text that is no address in form is none.
pub proof fn law_other_texts_are_no_addresses(s: Seq<char>, i: int)
    requires
        0 <= i < s.len(),
        i % 3 == 2 ==> s[i] != ':',
        i % 3 != 2 ==> number::digit_value(s[i]) >= 16,
    ensures
        !is_mac(s),
{
    if is_mac(s) {
        assert(s[i] == s[i]);
    }
}

/// The address that is written for six bytes is the one of these bytes.
pub proof fn law_written_addresses_read_back(bytes: Seq<u8>)
    requires
        bytes.len() == 6,
        bytes[0] % 2 == 0,
        bytes[0] != 0,
    ensures
        is_mac(address_text(bytes)),
        address_text(bytes).len() == 17,
        forall|k: int|
            0 <= k < 6 ==> number::digit_value(address_text(bytes)[3 * k]) == (#[trigger] bytes[k]) as int
                / 16 && number::digit_value(address_text(bytes)[3 * k + 1]) == bytes[k] as int % 16,
        text::lowercase(address_text(bytes)) == address_text(bytes),
{
    lemma_address(bytes);
    let s = address_text(bytes);
    assert(bytes[0] >= 0 && bytes[1] >= 0 && bytes[2] >= 0 && bytes[3] >= 0 && bytes[4] >= 0);
    law_addresses_of_devices(s, bytes);
    assert forall|i: int| 0 <= i < s.len() implies text::lower(#[trigger] s[i]) == s[i] by {
        let k = i / 3;
        assert(bytes[k] >= 0);
        assert(i == 3 * k || i == 3 * k + 1 || i == 3 * k + 2);
    }
    assert(text::lowercase(s) =~= s);
}

/// The characters of an address.
proof fn lemma_address(bytes: Seq<u8>)
    requires
        bytes.len() > 0,
    ensures
        address_text(bytes).len() == 3 * bytes.len() - 1,
        forall|k: int|
            0 <= k < bytes.len() ==> {
                let s = address_text(bytes);
                &&& number::digit_value(s[3 * k]) == (#[trigger] bytes[k]) as int / 16
                &&& number::digit_value(s[3 * k + 1]) == bytes[k] as int % 16
                &&& text::lower(s[3 * k]) == s[3 * k]
                &&& text::lower(s[3 * k + 1]) == s[3 * k + 1]
                &&& k < bytes.len() - 1 ==> s[3 * k + 2] == ':'
            },
    decreases bytes.len(),
{
    reveal_strlit(":");
    let last = bytes.last();
    let two = number::hexadecimal(last as int, 2);
    assert(number::hexadecimal(last as int / 256, 0) =~= Seq::<char>::empty());
    assert(number::hexadecimal(last as int / 16, 1) =~= seq![
        number::digit_char(last as int / 16 % 16),
    ]);
    assert(two =~= seq![
        number::digit_char(last as int / 16),
        number::digit_char(last as int % 16),
    ]);
    lemma_digit_char(last as int / 16);
    lemma_digit_char(last as int % 16);
    let s = address_text(bytes);
    if bytes.len() > 1 {
        let front = bytes.drop_last();
        lemma_address(front);
        let before = address_text(front);
        assert(s =~= before + ":"@ + two);
        assert forall|k: int| 0 <= k < bytes.len() implies {
            &&& number::digit_value(s[3 * k]) == (#[trigger] bytes[k]) as int / 16
            &&& number::digit_value(s[3 * k + 1]) == bytes[k] as int % 16
            &&& text::lower(s[3 * k]) == s[3 * k]
            &&& text::lower(s[3 * k + 1]) == s[3 * k + 1]
            &&& k < bytes.len() - 1 ==> s[3 * k + 2] == ':'
        } by {
            if k < front.len() {
                assert(front[k] == bytes[k]);
                assert(s[3 * k] == before[3 * k] && s[3 * k + 1] == before[3 * k + 1]);
                if k < front.len() - 1 {
                    assert(s[3 * k + 2] == before[3 * k + 2]);
                }
            } else {
                assert(s[3 * k] == two[0] && s[3 * k + 1] == two[1]);
            }
        }
    } else {
        assert(bytes[0] == last);
        assert(s =~= two);
    }
}

/// A digit reads back.
proof fn lemma_digit_char(d: int)
    requires
        0 <= d < 16,
    ensures
        number::digit_value(number::digit_char(d)) == d,
        text::lower(number::digit_char(d)) == number::digit_char(d),
        number::digit_char(d) != ':',
{
}

/// Only what nobody but root can read or write is read: no bit for the group or for others is
/// set in its mode.
pub proof fn law_safe_files(file: FileFacts)
    ensures
        is_safe(file) <==> {
            &&& file.regular
            &&& file.owner == 0
            &&& file.mode & 0o077 == 0
            &&& file.length <= 64 * 1024
        },
{
    let mode = file.mode;
    assert(mode & 0o077 == mode % 64) by (bit_vector);
}

/// A pairing is one with the display whose address it holds, in either case, and with no other,
/// where the display owns the group: the mode is zero or not given.
pub proof fn law_pairings_are_with_their_display(
    props: Map<Seq<char>, Seq<char>>,
    address: Seq<char>,
    peer: Seq<char>,
    mode: Seq<char>,
)
    requires
        is_mac(address),
        !props.contains_key("mode"@),
    ensures
        ({
            let pairing = props.insert("bssid"@, address);
            &&& is_pairing_with(pairing, peer) <==> peer == text::lowercase(address)
            &&& is_pairing_with(pairing.insert("mode"@, "0"@), text::lowercase(address))
            &&& mode != "0"@ ==> !is_pairing_with(
                pairing.insert("mode"@, mode),
                text::lowercase(address),
            )
            &&& !is_pairing_with(pairing.remove("bssid"@), peer)
        }),
{
    reveal_strlit("mode");
    reveal_strlit("bssid");
    assert("mode"@.len() == 4 && "bssid"@.len() == 5);
}

} // verus!
