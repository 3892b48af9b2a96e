//! Devices found on the network: addresses, names, and the bookkeeping that
//! keeps each device listed once.
use vstd::prelude::*;
use crate::text::{
    before_first, chars_of, decimal, find_char, push_decimal, trim_end_char, trim_end_matches,
    trim_end_matching, same_text, holds_text, strictly_ascending, views, sorted_unique, split,
    all_digits, digits_value,
};
use crate::protocol::{host_port, host_port_text};
use vstd::arithmetic::power2::pow2;

verus! {

/// An IPv4 address by its four octets, most significant first.
#[derive(Debug, Clone, Copy, PartialEq, Eq, Structural)]
pub struct Ipv4Address {
    pub a: u8,
    pub b: u8,
    pub c: u8,
    pub d: u8,
}

/// An IP address of either family; an IPv6 address by its 128-bit value.
#[derive(Debug, Clone, Copy, PartialEq, Eq, Structural)]
pub enum IpAddress {
    V4(Ipv4Address),
    V6(u128),
}

/// Whether an address lies in one of the private IPv4 ranges
/// `10.0.0.0/8`, `172.16.0.0/12` or `192.168.0.0/16`.
pub open spec fn private_ip(ip: IpAddress) -> bool {
    match ip {
        IpAddress::V4(v4) => v4.a == 10 || (v4.a == 192 && v4.b == 168) || (v4.a == 172 && 16
            <= v4.b <= 31),
        IpAddress::V6(_) => false,
    }
}

/// Whether `ip` is a private IPv4 address.
pub fn is_private_ip(ip: &IpAddress) -> (r: bool)
    ensures
        r == private_ip(*ip),
{
    match ip {
        IpAddress::V4(v4) => {
            if v4.a == 10 {
                return true;
            }
            if v4.a == 192 && v4.b == 168 {
                return true;
            }
            if v4.a == 172 && 16 <= v4.b && v4.b <= 31 {
                return true;
            }
            false
        },
        IpAddress::V6(_) => false,
    }
}

/// The dotted-decimal form of an IPv4 address, as `Ipv4Addr` displays it.
pub open spec fn dotted(v4: Ipv4Address) -> Seq<char> {
    decimal(v4.a as nat) + "."@ + decimal(v4.b as nat) + "."@ + decimal(v4.c as nat) + "."@
        + decimal(v4.d as nat)
}

impl Ipv4Address {
    /// The address with the given 32-bit value.
    pub open spec fn from_bits_spec(x: u32) -> Ipv4Address {
        Ipv4Address {
            a: (x / 16777216) as u8,
            b: (x / 65536 % 256) as u8,
            c: (x / 256 % 256) as u8,
            d: (x % 256) as u8,
        }
    }

    /// The address with the given 32-bit value.
    pub fn from_bits(x: u32) -> (r: Ipv4Address)
        ensures
            r == Self::from_bits_spec(x),
    {
        Ipv4Address {
            a: (x / 16777216) as u8,
            b: (x / 65536 % 256) as u8,
            c: (x / 256 % 256) as u8,
            d: (x % 256) as u8,
        }
    }

    /// Whether the address is in `127.0.0.0/8`.
    pub fn is_loopback(&self) -> (r: bool)
        ensures
            r == (self.a == 127),
    {
        self.a == 127
    }

    /// The dotted-decimal text of the address.
    pub fn to_text(&self) -> (r: String)
        ensures
            r@ == dotted(*self),
    {
        let mut r = String::new();
        push_decimal(&mut r, self.a as u64);
        r.append(".");
        push_decimal(&mut r, self.b as u64);
        r.append(".");
        push_decimal(&mut r, self.c as u64);
        r.append(".");
        push_decimal(&mut r, self.d as u64);
        assert(r@ =~= dotted(*self));
        r
    }
}

/// The texts of the private addresses among `addrs`, in order.
pub open spec fn private_texts(addrs: Seq<IpAddress>) -> Seq<Seq<char>>
    decreases addrs.len(),
{
    if addrs.len() == 0 {
        Seq::empty()
    } else {
        let rest = private_texts(addrs.drop_last());
        match addrs.last() {
            IpAddress::V4(v4) => if private_ip(addrs.last()) {
                rest.push(dotted(v4))
            } else {
                rest
            },
            IpAddress::V6(_) => rest,
        }
    }
}

/// Whether `t` is the text of a private IPv4 address among `addrs`.
pub open spec fn text_of_private_address(addrs: Seq<IpAddress>, t: Seq<char>) -> bool {
    exists|i: int|
        0 <= i < addrs.len() && (#[trigger] addrs[i]) is V4 && private_ip(addrs[i]) && t == dotted(
            addrs[i]->V4_0,
        )
}

/// Every private IPv4 address among `addrs` has its text among the private
/// texts, and every private text is that of a private IPv4 address of `addrs`.
pub proof fn law_private_texts_members(addrs: Seq<IpAddress>)
    ensures
        forall|i: int|
            0 <= i < addrs.len() && (#[trigger] addrs[i]) is V4 && private_ip(addrs[i])
                ==> private_texts(addrs).contains(dotted(addrs[i]->V4_0)),
        forall|k: int|
            0 <= k < private_texts(addrs).len() ==> text_of_private_address(
                addrs,
                #[trigger] private_texts(addrs)[k],
            ),
    decreases addrs.len(),
{
    if addrs.len() > 0 {
        let init = addrs.drop_last();
        let n = addrs.len() - 1;
        law_private_texts_members(init);
        let rest = private_texts(init);
        let all = private_texts(addrs);
        let last = addrs[n];
        assert(last == addrs.last());
        let kept = last is V4 && private_ip(last);
        if kept {
            assert(all == rest.push(dotted(last->V4_0)));
        } else {
            assert(all == rest);
        }
        assert forall|i: int|
            0 <= i < addrs.len() && (#[trigger] addrs[i]) is V4 && private_ip(addrs[i])
                implies all.contains(dotted(addrs[i]->V4_0)) by {
            if i < n {
                assert(init[i] == addrs[i]);
                assert(rest.contains(dotted(addrs[i]->V4_0)));
                let j = choose|j: int| 0 <= j < rest.len() && rest[j] == dotted(addrs[i]->V4_0);
                assert(all[j] == rest[j]);
            } else {
                assert(all[all.len() - 1] == dotted(addrs[i]->V4_0));
            }
        }
        assert forall|k: int| 0 <= k < all.len() implies text_of_private_address(
            addrs,
            #[trigger] all[k],
        ) by {
            if k < rest.len() {
                assert(all[k] == rest[k]);
                assert(text_of_private_address(init, rest[k]));
                let i = choose|i: int|
                    0 <= i < init.len() && (#[trigger] init[i]) is V4 && private_ip(init[i])
                        && rest[k] == dotted(init[i]->V4_0);
                assert(addrs[i] == init[i]);
            } else {
                assert(all[k] == dotted(last->V4_0));
                assert(addrs[n] == last);
            }
        }
    }
}

/// The private addresses among those a host name resolved to, as text.
pub fn private_addresses(addrs: &Vec<IpAddress>) -> (r: Vec<String>)
    ensures
        r@.map_values(|s: String| s@) == private_texts(addrs@),
        forall|i: int|
            0 <= i < addrs@.len() && (#[trigger] addrs@[i]) is V4 && private_ip(addrs@[i])
                ==> holds_text(r@, dotted(addrs@[i]->V4_0)),
        forall|k: int| 0 <= k < r@.len() ==> text_of_private_address(addrs@, (#[trigger] r@[k])@),
{
    let mut r: Vec<String> = Vec::new();
    let mut i: usize = 0;
    while i < addrs.len()
        invariant
            i <= addrs@.len(),
            r@.map_values(|s: String| s@) == private_texts(addrs@.take(i as int)),
        decreases addrs@.len() - i,
    {
        let ghost before = r@.map_values(|s: String| s@);
        assert(addrs@.take(i + 1).drop_last() =~= addrs@.take(i as int));
        assert(addrs@.take(i + 1).last() == addrs@[i as int]);
        let ip = &addrs[i];
        if is_private_ip(ip) {
            match ip {
                IpAddress::V4(v4) => {
                    r.push(v4.to_text());
                    assert(r@.map_values(|s: String| s@) =~= before.push(dotted(*v4)));
                },
                IpAddress::V6(_) => {},
            }
        }
        i = i + 1;
    }
    assert(addrs@.take(i as int) =~= addrs@);
    proof {
        let texts = r@.map_values(|s: String| s@);
        law_private_texts_members(addrs@);
        assert forall|i: int|
            0 <= i < addrs@.len() && (#[trigger] addrs@[i]) is V4 && private_ip(addrs@[i])
                implies holds_text(r@, dotted(addrs@[i]->V4_0)) by {
            let j = choose|j: int| 0 <= j < texts.len() && texts[j] == dotted(addrs@[i]->V4_0);
            assert(r@[j]@ == texts[j]);
        }
        assert forall|k: int| 0 <= k < r@.len() implies text_of_private_address(
            addrs@,
            (#[trigger] r@[k])@,
        ) by {
            assert(texts[k] == r@[k]@);
            assert(text_of_private_address(addrs@, private_texts(addrs@)[k]));
        }
    }
    r
}

/// The address a resolved service is listed under: the first IPv4 address
/// outside the loopback range, else the first address of any family.
pub open spec fn chosen_address(v4: Seq<Ipv4Address>, any: Seq<Seq<char>>) -> Option<Seq<char>> {
    if exists|i: int| 0 <= i < v4.len() && v4[i].a != 127 {
        let i = choose|i: int|
            0 <= i < v4.len() && v4[i].a != 127 && forall|j: int| 0 <= j < i ==> v4[j].a == 127;
        Some(dotted(v4[i]))
    } else if any.len() > 0 {
        Some(any[0])
    } else {
        None
    }
}

/// Chooses the address of a resolved service.
pub fn choose_address(v4: &Vec<Ipv4Address>, any: &Vec<String>) -> (r: Option<String>)
    ensures
        r matches Some(s) ==> chosen_address(v4@, any@.map_values(|x: String| x@)) == Some(s@),
        r is None ==> chosen_address(v4@, any@.map_values(|x: String| x@)) is None,
        forall|i: int|
            0 <= i < v4@.len() && (#[trigger] v4@[i]).a != 127 && (forall|j: int|
                0 <= j < i ==> v4@[j].a == 127) ==> r is Some && r->0@ == dotted(v4@[i]),
        (forall|j: int| 0 <= j < v4@.len() ==> v4@[j].a == 127) ==> (r is Some <==> any@.len() > 0),
        (forall|j: int| 0 <= j < v4@.len() ==> v4@[j].a == 127) && any@.len() > 0 ==> r is Some
            && r->0@ == any@[0]@,
{
    let mut i: usize = 0;
    while i < v4.len()
        invariant
            i <= v4@.len(),
            forall|j: int| 0 <= j < i ==> v4@[j].a == 127,
        decreases v4@.len() - i,
    {
        if !v4[i].is_loopback() {
            proof {
                let k = choose|k: int|
                    0 <= k < v4@.len() && v4@[k].a != 127 && forall|j: int| 0 <= j < k ==> v4@[j].a == 127;
                if k < i {
                } else if k > i {
                    assert(v4@[i as int].a != 127);
                }
                assert(k == i);
                assert forall|m: int|
                    0 <= m < v4@.len() && (#[trigger] v4@[m]).a != 127 && (forall|j: int|
                        0 <= j < m ==> v4@[j].a == 127) implies m == i by {
                    if m > i {
                        assert(v4@[i as int].a == 127);
                    }
                }
            }
            return Some(v4[i].to_text());
        }
        i = i + 1;
    }
    if any.len() > 0 {
        assert(any@.map_values(|x: String| x@)[0] == any@[0]@);
        Some(any[0].clone())
    } else {
        None
    }
}

/// The address listed for a service with an IPv4 address outside the loopback
/// range is the first such address, whatever follows it.
pub proof fn law_chosen_address_first(v4: Seq<Ipv4Address>, any: Seq<Seq<char>>, i: int)
    requires
        0 <= i < v4.len(),
        v4[i].a != 127,
        forall|j: int| 0 <= j < i ==> v4[j].a == 127,
    ensures
        chosen_address(v4, any) == Some(dotted(v4[i])),
{
    let k = choose|k: int|
        0 <= k < v4.len() && v4[k].a != 127 && forall|j: int| 0 <= j < k ==> v4[j].a == 127;
    assert(0 <= k < v4.len() && v4[k].a != 127 && forall|j: int| 0 <= j < k ==> v4[j].a == 127);
    if k < i {
        assert(v4[k].a == 127);
    } else if k > i {
        assert(v4[i].a == 127);
    }
}

/// A service whose IPv4 addresses are all loopback addresses is listed under
/// its first address of any family, and not at all when it has none.
pub proof fn law_chosen_address_fallback(v4: Seq<Ipv4Address>, any: Seq<Seq<char>>)
    requires
        forall|j: int| 0 <= j < v4.len() ==> v4[j].a == 127,
    ensures
        chosen_address(v4, any) == if any.len() > 0 {
            Some(any[0])
        } else {
            None
        },
{
}

/// The instance name in a full mDNS service name: everything before the
/// first `.`.
pub fn extract_instance_name(fullname: &str) -> (r: &str)
    ensures
        r@ == before_first(fullname@, '.'),
        r@ == fullname@.take(r@.len() as int),
        forall|j: int| 0 <= j < r@.len() ==> r@[j] != '.',
        r@.len() < fullname@.len() ==> fullname@[r@.len() as int] == '.',
{
    let v = chars_of(fullname);
    let k = find_char(&v, '.');
    let r = fullname.substring_char(0, k);
    assert(r@ =~= fullname@.take(k as int));
    r
}

/// A host name as announced, without trailing dots and then without a
/// trailing `.local`.
pub open spec fn plain_hostname(h: Seq<char>) -> Seq<char> {
    trim_end_matches(trim_end_matches(h, seq!['.']), ".local"@)
}

/// Strips the trailing dots and the `.local` domain from a host name.
pub fn clean_hostname(h: &str) -> (r: String)
    ensures
        r@ == plain_hostname(h@),
{
    let t = trim_end_char(h, '.');
    proof {
        reveal_strlit(".local");
    }
    trim_end_matching(t.as_str(), ".local")
}

/// A host name with its trailing dots removed, as shown in logs.
pub fn host_without_dots(h: &str) -> (r: String)
    ensures
        r@ == trim_end_matches(h@, seq!['.']),
{
    trim_end_char(h, '.')
}

/// The label a service type is reported under: the type without its
/// trailing `.local.` domain.
pub fn service_type_label(t: &str) -> (r: String)
    ensures
        r@ == trim_end_matches(t@, ".local."@),
{
    proof {
        reveal_strlit(".local.");
    }
    trim_end_matching(t, ".local.")
}


// ---------------------------------------------------------------------------
// Devices and the lists that hold them
// ---------------------------------------------------------------------------

/// A device running the daemon, as discovery found it.
#[derive(Debug, Clone)]
pub struct DiscoveredDevice {
    pub name: String,
    pub hostname: String,
    pub ip: String,
    pub port: u16,
    pub display_name: Option<String>,
    pub avatar_data: Option<Vec<u8>>,
}

/// Copies a byte buffer.
pub fn copy_bytes(v: &Vec<u8>) -> (r: Vec<u8>)
    ensures
        r@ == v@,
{
    let mut r: Vec<u8> = Vec::new();
    let mut i: usize = 0;
    while i < v.len()
        invariant
            i <= v@.len(),
            r@ == v@.take(i as int),
        decreases v@.len() - i,
    {
        r.push(v[i]);
        assert(r@ =~= v@.take(i + 1));
        i = i + 1;
    }
    assert(v@.take(i as int) =~= v@);
    r
}

/// Copies an optional text.
pub fn copy_text(s: &Option<String>) -> (r: Option<String>)
    ensures
        r matches Some(x) ==> s matches Some(y) && x@ == y@,
        r is None <==> s is None,
{
    match s {
        Some(x) => Some(x.clone()),
        None => None,
    }
}

impl DiscoveredDevice {
    /// The host name and address by which a device is told apart.
    pub open spec fn key(self) -> (Seq<char>, Seq<char>) {
        (self.hostname@, self.ip@)
    }

    /// The device a static peer stands for, named after the host name its
    /// `INFO` answer gave, at the address and port it answered from.
    pub fn from_peer(hostname: String, ip: String, port: u16) -> (r: DiscoveredDevice)
        ensures
            r.name@ == hostname@,
            r.hostname == hostname,
            r.ip == ip,
            r.port == port,
            r.display_name is None,
            r.avatar_data is None,
    {
        DiscoveredDevice {
            name: hostname.clone(),
            hostname,
            ip,
            port,
            display_name: None,
            avatar_data: None,
        }
    }

    /// A copy of the device.
    pub fn duplicate(&self) -> (r: DiscoveredDevice)
        ensures
            r.name@ == self.name@,
            r.hostname@ == self.hostname@,
            r.ip@ == self.ip@,
            r.port == self.port,
            r.display_name is Some <==> self.display_name is Some,
            r.display_name matches Some(x) ==> x@ == self.display_name->0@,
            r.avatar_data is Some <==> self.avatar_data is Some,
            r.avatar_data matches Some(x) ==> x@ == self.avatar_data->0@,
    {
        DiscoveredDevice {
            name: self.name.clone(),
            hostname: self.hostname.clone(),
            ip: self.ip.clone(),
            port: self.port,
            display_name: copy_text(&self.display_name),
            avatar_data: match &self.avatar_data {
                Some(v) => Some(copy_bytes(v)),
                None => None,
            },
        }
    }
}

/// No two devices share host name and address.
pub open spec fn distinct_devices(s: Seq<DiscoveredDevice>) -> bool {
    forall|i: int, j: int| 0 <= i < s.len() && 0 <= j < s.len() && i != j ==> #[trigger] s[i].key() != #[trigger] s[j].key()
}

/// Whether a device with this host name and address is in `s`.
pub open spec fn lists_device(s: Seq<DiscoveredDevice>, hostname: Seq<char>, ip: Seq<char>) -> bool {
    exists|i: int| 0 <= i < s.len() && #[trigger] s[i].key() == (hostname, ip)
}

/// The devices found so far, each host name and address listed once.
pub struct DeviceList {
    devices: Vec<DiscoveredDevice>,
}

impl DeviceList {
    #[verifier::type_invariant]
    spec fn inv(self) -> bool {
        distinct_devices(self.devices@)
    }

    /// The listed devices, in the order they were found.
    pub closed spec fn devices_spec(self) -> Seq<DiscoveredDevice> {
        self.devices@
    }

    /// An empty list.
    pub fn new() -> (r: Self)
        ensures
            r.devices_spec().len() == 0,
    {
        DeviceList { devices: Vec::new() }
    }

    /// The listed devices.
    pub fn devices(&self) -> (r: &Vec<DiscoveredDevice>)
        ensures
            r@ == self.devices_spec(),
            distinct_devices(r@),
    {
        proof {
            use_type_invariant(self);
        }
        &self.devices
    }

    /// The number of listed devices.
    pub fn len(&self) -> (r: usize)
        ensures
            r == self.devices_spec().len(),
    {
        self.devices.len()
    }

    /// Whether no device is listed.
    pub fn is_empty(&self) -> (r: bool)
        ensures
            r == (self.devices_spec().len() == 0),
    {
        self.devices.len() == 0
    }

    /// Whether a device with this host name and address is listed.
    pub fn contains(&self, hostname: &str, ip: &str) -> (r: bool)
        ensures
            r == lists_device(self.devices_spec(), hostname@, ip@),
    {
        let mut i: usize = 0;
        while i < self.devices.len()
            invariant
                i <= self.devices@.len(),
                forall|j: int| 0 <= j < i ==> #[trigger] self.devices@[j].key() != (hostname@, ip@),
            decreases self.devices@.len() - i,
        {
            let d = &self.devices[i];
            if same_text(d.hostname.as_str(), hostname) && same_text(d.ip.as_str(), ip) {
                assert(self.devices@[i as int].key() == (hostname@, ip@));
                return true;
            }
            i = i + 1;
        }
        false
    }

    /// Adds a device unless one with the same host name and address is
    /// already listed; tells whether it was added.
    pub fn add(&mut self, device: DiscoveredDevice) -> (added: bool)
        ensures
            added == !lists_device(old(self).devices_spec(), device.hostname@, device.ip@),
            added ==> final(self).devices_spec() == old(self).devices_spec().push(device),
            !added ==> final(self).devices_spec() == old(self).devices_spec(),
            lists_device(final(self).devices_spec(), device.hostname@, device.ip@),
            distinct_devices(final(self).devices_spec()),
    {
        proof {
            use_type_invariant(&*self);
        }
        if self.contains(device.hostname.as_str(), device.ip.as_str()) {
            return false;
        }
        let ghost before = self.devices@;
        let ghost k = device.key();
        let mut devices: Vec<DiscoveredDevice> = Vec::new();
        std::mem::swap(&mut devices, &mut self.devices);
        devices.push(device);
        proof {
            let after = devices@;
            assert(after[before.len() as int] == device);
            assert forall|i: int, j: int| 0 <= i < after.len() && 0 <= j < after.len() && i != j implies #[trigger] after[i].key() != #[trigger] after[j].key() by {
                if i < before.len() && j < before.len() {
                    assert(after[i] == before[i]);
                    assert(after[j] == before[j]);
                } else if i < before.len() {
                    assert(after[i] == before[i]);
                } else {
                    assert(after[j] == before[j]);
                }
            }
            assert(after[before.len() as int].key() == k);
        }
        self.devices = devices;
        true
    }
}

impl DeviceList {
    /// What to do with a resolved service: drop it when it has no address,
    /// else test its chosen address.
    pub fn examine(&self, service: &ResolvedService) -> (r: ServiceCheck)
        ensures
            check_view(r) == service_address(*service),
    {
        let ip = choose_address(&service.ipv4, &service.addresses);
        assert(service.addresses@.map_values(|x: String| x@) == views(service.addresses@));
        match ip {
            Some(ip) => ServiceCheck::CheckAddress(ip),
            None => ServiceCheck::Skip,
        }
    }

    /// The device to add for a resolved service, given whether its chosen
    /// address belongs to this machine: none when it has no address, the
    /// address is local, or a device with its host name and address is
    /// already listed.
    pub fn accepted_device(&self, service: &ResolvedService, address_is_local: bool) -> (r: Option<
        DiscoveredDevice,
    >)
        ensures
            r is Some <==> (service_address(*service) matches Some(ip) && !address_is_local
                && !lists_device(self.devices_spec(), plain_hostname(service.hostname@), ip)),
            r matches Some(d) ==> describes(d, *service),
    {
        if address_is_local {
            return None;
        }
        match device_from_service(service) {
            Some(d) => {
                if self.contains(d.hostname.as_str(), d.ip.as_str()) {
                    None
                } else {
                    Some(d)
                }
            },
            None => None,
        }
    }
}

/// A service that mDNS resolved, by the values discovery reads from it.
pub struct ResolvedService {
    /// The full service instance name, such as `Rustle._rustle._tcp.local.`.
    pub fullname: String,
    /// The announced host name, such as `laptop.local.`.
    pub hostname: String,
    pub port: u16,
    /// The service's IPv4 addresses.
    pub ipv4: Vec<Ipv4Address>,
    /// All of the service's addresses as text.
    pub addresses: Vec<String>,
}

/// The key under which a one-off scan remembers a service: the announced
/// host name, `:`, the port.
pub fn service_key(service: &ResolvedService) -> (r: String)
    ensures
        r@ == host_port_text(service.hostname@, service.port),
{
    host_port(service.hostname.as_str(), service.port)
}

/// The address chosen for a resolved service.
pub open spec fn service_address(service: ResolvedService) -> Option<Seq<char>> {
    chosen_address(service.ipv4@, views(service.addresses@))
}

/// Whether `d` is the device a resolved service stands for: named after the
/// service instance, under the announced host name without `.local`, at the
/// chosen address and the service's port, without display name or picture.
pub open spec fn describes(d: DiscoveredDevice, service: ResolvedService) -> bool {
    &&& service_address(service) == Some(d.ip@)
    &&& d.name@ == before_first(service.fullname@, '.')
    &&& d.hostname@ == plain_hostname(service.hostname@)
    &&& d.port == service.port
    &&& d.display_name is None
    &&& d.avatar_data is None
}

/// What discovery does next with a resolved service: drop it, or test
/// whether the chosen address belongs to this machine.
pub enum ServiceCheck {
    Skip,
    CheckAddress(String),
}

/// The mathematical form of [`ServiceCheck`].
pub open spec fn check_view(c: ServiceCheck) -> Option<Seq<char>> {
    match c {
        ServiceCheck::Skip => None,
        ServiceCheck::CheckAddress(a) => Some(a@),
    }
}

/// The device a resolved service stands for, when it has an address.
pub fn device_from_service(service: &ResolvedService) -> (r: Option<DiscoveredDevice>)
    ensures
        r is Some <==> service_address(*service) is Some,
        r matches Some(d) ==> describes(d, *service),
{
    let ip = choose_address(&service.ipv4, &service.addresses);
    assert(service.addresses@.map_values(|x: String| x@) == views(service.addresses@));
    match ip {
        Some(ip) => {
            let name = extract_instance_name(service.fullname.as_str()).to_owned();
            Some(DiscoveredDevice {
                name,
                hostname: clean_hostname(service.hostname.as_str()),
                ip,
                port: service.port,
                display_name: None,
                avatar_data: None,
            })
        },
        None => None,
    }
}

/// The keys and devices of a scan, side by side.
struct ScanTable {
    keys: Vec<String>,
    devices: Vec<DiscoveredDevice>,
}

/// The devices a one-off scan found, each under the key of the service it
/// came from, no key twice.
pub struct ScanResults {
    table: ScanTable,
}

impl ScanResults {
    #[verifier::type_invariant]
    spec fn inv(self) -> bool {
        &&& self.table.keys@.len() == self.table.devices@.len()
        &&& forall|i: int, j: int|
            0 <= i < j < self.table.keys@.len() ==> #[trigger] self.table.keys@[i]@
                != #[trigger] self.table.keys@[j]@
    }

    /// The keys seen so far, in order.
    pub closed spec fn keys_spec(self) -> Seq<Seq<char>> {
        views(self.table.keys@)
    }

    /// The devices found so far, in order.
    pub closed spec fn devices_spec(self) -> Seq<DiscoveredDevice> {
        self.table.devices@
    }

    /// Nothing found yet.
    pub fn new() -> (r: Self)
        ensures
            r.keys_spec().len() == 0,
            r.devices_spec().len() == 0,
    {
        ScanResults { table: ScanTable { keys: Vec::new(), devices: Vec::new() } }
    }

    /// Whether a service with this key was already taken.
    pub fn knows(&self, key: &str) -> (r: bool)
        ensures
            r == self.keys_spec().contains(key@),
    {
        let keys = &self.table.keys;
        let mut i: usize = 0;
        while i < keys.len()
            invariant
                keys@ == self.table.keys@,
                i <= keys@.len(),
                forall|j: int| 0 <= j < i ==> #[trigger] keys@[j]@ != key@,
            decreases keys@.len() - i,
        {
            if same_text(keys[i].as_str(), key) {
                assert(views(keys@)[i as int] == key@);
                return true;
            }
            i = i + 1;
        }
        assert forall|j: int| 0 <= j < views(keys@).len() implies #[trigger] views(keys@)[j] != key@ by {
            assert(views(keys@)[j] == keys@[j]@);
        }
        false
    }

    /// What to do with a resolved service: drop it when its key was already
    /// taken or it has no address, else test its chosen address.
    pub fn examine(&self, service: &ResolvedService) -> (r: ServiceCheck)
        ensures
            check_view(r) == if self.keys_spec().contains(host_port_text(service.hostname@, service.port)) {
                None
            } else {
                service_address(*service)
            },
    {
        let key = service_key(service);
        if self.knows(key.as_str()) {
            return ServiceCheck::Skip;
        }
        let ip = choose_address(&service.ipv4, &service.addresses);
        assert(service.addresses@.map_values(|x: String| x@) == views(service.addresses@));
        match ip {
            Some(ip) => ServiceCheck::CheckAddress(ip),
            None => ServiceCheck::Skip,
        }
    }

    /// The device to take for a resolved service, given whether its chosen
    /// address belongs to this machine: none when its key was already taken,
    /// it has no address, or the address is local.
    pub fn accepted_device(&self, service: &ResolvedService, address_is_local: bool) -> (r: Option<
        DiscoveredDevice,
    >)
        ensures
            r is Some <==> !self.keys_spec().contains(host_port_text(service.hostname@, service.port))
                && service_address(*service) is Some && !address_is_local,
            r matches Some(d) ==> describes(d, *service),
    {
        let key = service_key(service);
        if self.knows(key.as_str()) || address_is_local {
            return None;
        }
        device_from_service(service)
    }

    /// Takes the device of a service seen for the first time.
    pub fn insert(&mut self, key: String, device: DiscoveredDevice)
        requires
            !old(self).keys_spec().contains(key@),
        ensures
            final(self).keys_spec() == old(self).keys_spec().push(key@),
            final(self).devices_spec() == old(self).devices_spec().push(device),
    {
        proof {
            use_type_invariant(&*self);
        }
        let mut table = ScanTable { keys: Vec::new(), devices: Vec::new() };
        std::mem::swap(&mut table, &mut self.table);
        let ghost before = table.keys@;
        let ghost kv = key@;
        table.keys.push(key);
        table.devices.push(device);
        proof {
            let after = table.keys@;
            assert forall|i: int, j: int| 0 <= i < j < after.len() implies #[trigger] after[i]@
                != #[trigger] after[j]@ by {
                if j == before.len() {
                    assert(views(before)[i] == before[i]@);
                    assert(after[i] == before[i]);
                } else {
                    assert(after[i] == before[i]);
                    assert(after[j] == before[j]);
                }
            }
            assert(views(after) =~= views(before).push(kv));
        }
        self.table = table;
    }

    /// The number of devices found.
    pub fn len(&self) -> (r: usize)
        ensures
            r == self.devices_spec().len(),
    {
        self.table.devices.len()
    }

    /// The devices found, in the order they were found.
    pub fn into_devices(self) -> (r: Vec<DiscoveredDevice>)
        ensures
            r@ == self.devices_spec(),
    {
        let ScanResults { table } = self;
        table.devices
    }
}

/// The service types a browse has reported, each once.
pub struct SeenServiceTypes {
    types: Vec<String>,
}

impl SeenServiceTypes {
    /// The types seen so far.
    pub closed spec fn types_spec(self) -> Seq<Seq<char>> {
        views(self.types@)
    }

    /// None seen yet.
    pub fn new() -> (r: Self)
        ensures
            r.types_spec().len() == 0,
    {
        SeenServiceTypes { types: Vec::new() }
    }

    /// Records a reported type; tells whether it is new.
    pub fn insert(&mut self, service_type: &str) -> (is_new: bool)
        ensures
            is_new == !old(self).types_spec().contains(service_type@),
            is_new ==> final(self).types_spec() == old(self).types_spec().push(service_type@),
            !is_new ==> final(self).types_spec() == old(self).types_spec(),
    {
        let mut i: usize = 0;
        while i < self.types.len()
            invariant
                i <= self.types@.len(),
                forall|j: int| 0 <= j < i ==> #[trigger] self.types@[j]@ != service_type@,
            decreases self.types@.len() - i,
        {
            if same_text(self.types[i].as_str(), service_type) {
                assert(views(self.types@)[i as int] == service_type@);
                return false;
            }
            i = i + 1;
        }
        assert forall|j: int| 0 <= j < views(self.types@).len() implies #[trigger] views(self.types@)[j] != service_type@ by {
            assert(views(self.types@)[j] == self.types@[j]@);
        }
        let ghost before = self.types@;
        self.types.push(service_type.to_owned());
        assert(views(self.types@) =~= views(before).push(service_type@));
        true
    }
}


// ---------------------------------------------------------------------------
// Scanning configured peers and subnets
// ---------------------------------------------------------------------------

/// A decimal field of `ipnet`'s parser: one to `max_digits` ASCII digits
/// whose value is below `bound`.
pub open spec fn decimal_field(s: Seq<char>, max_digits: nat, bound: nat) -> Option<nat> {
    if 1 <= s.len() <= max_digits && all_digits(s) && digits_value(s) < bound {
        Some(digits_value(s))
    } else {
        None
    }
}

/// What `ipnet` reads from a text as an `Ipv4Net`: four octets of one to
/// three digits below 256 separated by `.`, then `/` and a prefix length of
/// one or two digits below 33, and nothing else (leading zeros allowed). The
/// result is the address as a 32-bit value, most significant octet first, and
/// the prefix length.
pub open spec fn ipv4_net_text(text: Seq<char>) -> Option<(u32, u8)> {
    let halves = split(text, '/');
    if halves.len() != 2 {
        None
    } else {
        let octets = split(halves[0], '.');
        if octets.len() != 4 {
            None
        } else {
            match (
                decimal_field(octets[0], 3, 256),
                decimal_field(octets[1], 3, 256),
                decimal_field(octets[2], 3, 256),
                decimal_field(octets[3], 3, 256),
                decimal_field(halves[1], 2, 33),
            ) {
                (Some(a), Some(b), Some(c), Some(d), Some(p)) => Some(
                    ((a * 16777216 + b * 65536 + c * 256 + d) as u32, p as u8),
                ),
                _ => None,
            }
        }
    }
}

/// Parses a subnet with `str::parse::<ipnet::Ipv4Net>` (its `FromStr`,
/// which reads the address, `/` and the prefix length up to the end of the
/// text) and converts the result to the address value and prefix length.
#[verifier::external_body]
fn parse_ipv4_net(text: &str) -> (r: Option<(u32, u8)>)
    ensures
        r == ipv4_net_text(text@),
{
    match text.parse::<ipnet::Ipv4Net>() {
        Ok(net) => Some((u32::from(net.addr()), net.prefix_len())),
        Err(_) => None,
    }
}

/// The first and last host address of the network of `addr` with prefix
/// length `prefix`, as `Ipv4Net::hosts` yields them: the network spans the
/// block of `2^(32 - prefix)` addresses holding `addr`; below a prefix
/// length of 31 its first (network) and last (broadcast) addresses are left
/// out.
pub open spec fn host_bounds(addr: u32, prefix: u8) -> (int, int) {
    let size = pow2((32 - prefix) as nat) as int;
    let network = (addr as int) - (addr as int) % size;
    let broadcast = network + size - 1;
    if prefix < 31 {
        (network + 1, broadcast - 1)
    } else {
        (network, broadcast)
    }
}

/// The host addresses of a network, in ascending order.
pub open spec fn host_values(addr: u32, prefix: u8) -> Seq<u32> {
    let (first, last) = host_bounds(addr, prefix);
    Seq::new((last - first + 1) as nat, |i: int| (first + i) as u32)
}

/// Lists the hosts of a network through `Ipv4Net::new` and `Ipv4Net::hosts`,
/// whose iterator runs from the first host to the last one inclusive.
#[verifier::external_body]
fn network_hosts(addr: u32, prefix: u8) -> (r: Vec<u32>)
    requires
        prefix <= 32,
    ensures
        r@ == host_values(addr, prefix),
{
    match ipnet::Ipv4Net::new(addr.into(), prefix) {
        Ok(net) => net.hosts().map(u32::from).collect(),
        Err(_) => Vec::new(),
    }
}

/// The texts of the hosts of a configured subnet; none when the entry is not
/// an IPv4 network.
pub open spec fn subnet_texts(subnet: Seq<char>) -> Seq<Seq<char>> {
    match ipv4_net_text(subnet) {
        Some(p) => host_values(p.0, p.1).map_values(
            |h: u32| dotted(Ipv4Address::from_bits_spec(h)),
        ),
        None => Seq::empty(),
    }
}

/// The host texts of all configured subnets, in order.
pub open spec fn all_subnet_texts(subnets: Seq<Seq<char>>) -> Seq<Seq<char>>
    decreases subnets.len(),
{
    if subnets.len() == 0 {
        Seq::empty()
    } else {
        all_subnet_texts(subnets.drop_last()) + subnet_texts(subnets.last())
    }
}

/// Everything a scan round probes before sorting: the static peers, then the
/// hosts of each subnet.
pub open spec fn scan_candidates(
    static_peers: Option<Seq<Seq<char>>>,
    subnets: Option<Seq<Seq<char>>>,
) -> Seq<Seq<char>> {
    let peers = match static_peers {
        Some(p) => p,
        None => Seq::empty(),
    };
    let hosts = match subnets {
        Some(n) => all_subnet_texts(n),
        None => Seq::empty(),
    };
    peers + hosts
}

/// A host text is among the hosts of the configured subnets exactly when it is
/// a host of one of them, at whatever position that entry stands.
pub proof fn law_all_subnet_texts_members(subnets: Seq<Seq<char>>, x: Seq<char>)
    ensures
        all_subnet_texts(subnets).contains(x) <==> exists|k: int|
            0 <= k < subnets.len() && #[trigger] subnet_texts(subnets[k]).contains(x),
    decreases subnets.len(),
{
    if subnets.len() > 0 {
        let init = subnets.drop_last();
        let n = subnets.len() - 1;
        law_all_subnet_texts_members(init, x);
        let a = all_subnet_texts(init);
        let b = subnet_texts(subnets[n]);
        assert(all_subnet_texts(subnets) == a + b);
        if (a + b).contains(x) {
            let p = choose|p: int| 0 <= p < (a + b).len() && (a + b)[p] == x;
            if p < a.len() {
                assert(a[p] == x);
                assert(a.contains(x));
                let k = choose|k: int| 0 <= k < init.len() && #[trigger] subnet_texts(init[k]).contains(x);
                assert(init[k] == subnets[k]);
                assert(subnet_texts(subnets[k]).contains(x));
            } else {
                assert(b[p - a.len()] == x);
                assert(subnet_texts(subnets[n]).contains(x));
            }
        }
        if exists|k: int| 0 <= k < subnets.len() && #[trigger] subnet_texts(subnets[k]).contains(x) {
            let k = choose|k: int| 0 <= k < subnets.len() && #[trigger] subnet_texts(subnets[k]).contains(x);
            if k < n {
                assert(init[k] == subnets[k]);
                assert(subnet_texts(init[k]).contains(x));
                assert(a.contains(x));
                let p = choose|p: int| 0 <= p < a.len() && a[p] == x;
                assert((a + b)[p] == x);
            } else {
                assert(b.contains(x));
                let p = choose|p: int| 0 <= p < b.len() && b[p] == x;
                assert((a + b)[a.len() + p] == x);
            }
        }
    }
}

/// A text is among the candidates of a scan round exactly when it is one of
/// the static peers or a host of one of the configured subnets.
pub proof fn law_scan_candidates_members(
    static_peers: Option<Seq<Seq<char>>>,
    subnets: Option<Seq<Seq<char>>>,
    x: Seq<char>,
)
    ensures
        scan_candidates(static_peers, subnets).contains(x) <==> (static_peers matches Some(p)
            && p.contains(x)) || (subnets matches Some(n) && exists|k: int|
            0 <= k < n.len() && #[trigger] subnet_texts(n[k]).contains(x)),
{
    let peers = match static_peers {
        Some(p) => p,
        None => Seq::empty(),
    };
    let hosts = match subnets {
        Some(n) => all_subnet_texts(n),
        None => Seq::<Seq<char>>::empty(),
    };
    if let Some(n) = subnets {
        law_all_subnet_texts_members(n, x);
    }
    let all = scan_candidates(static_peers, subnets);
    assert(all == peers + hosts);
    if all.contains(x) {
        let p = choose|p: int| 0 <= p < all.len() && all[p] == x;
        if p < peers.len() {
            assert(peers[p] == x);
        } else {
            assert(hosts[p - peers.len()] == x);
        }
    }
    if peers.contains(x) {
        let p = choose|p: int| 0 <= p < peers.len() && peers[p] == x;
        assert(all[p] == x);
    }
    if hosts.contains(x) {
        let p = choose|p: int| 0 <= p < hosts.len() && hosts[p] == x;
        assert(all[peers.len() + p] == x);
    }
}

/// The views of an optional list of texts.
pub open spec fn opt_views(v: Option<Vec<String>>) -> Option<Seq<Seq<char>>> {
    match v {
        Some(x) => Some(views(x@)),
        None => None,
    }
}

/// Appends the host texts of one subnet entry.
fn push_subnet_hosts(all: &mut Vec<String>, subnet: &str)
    ensures
        views(final(all)@) == views(old(all)@) + subnet_texts(subnet@),
{
    match parse_ipv4_net(subnet) {
        Some((addr, prefix)) => {
            let hosts = network_hosts(addr, prefix);
            let ghost start = views(all@);
            let ghost texts = subnet_texts(subnet@);
            let mut j: usize = 0;
            while j < hosts.len()
                invariant
                    j <= hosts@.len(),
                    hosts@ == host_values(addr, prefix),
                    texts == hosts@.map_values(|h: u32| dotted(Ipv4Address::from_bits_spec(h))),
                    views(all@) == start + texts.take(j as int),
                decreases hosts@.len() - j,
            {
                let text = Ipv4Address::from_bits(hosts[j]).to_text();
                let ghost before = views(all@);
                all.push(text);
                assert(views(all@) =~= before.push(texts[j as int]));
                assert(texts.take(j + 1) =~= texts.take(j as int).push(texts[j as int]));
                j = j + 1;
            }
            assert(texts.take(j as int) =~= texts);
        },
        None => {
            assert(views(all@) + subnet_texts(subnet@) =~= views(all@));
        },
    }
}

pub proof fn lemma_holds_text_views(v: Seq<String>, x: Seq<char>)
    ensures
        holds_text(v, x) <==> views(v).contains(x),
{
    if holds_text(v, x) {
        let i = choose|i: int| 0 <= i < v.len() && #[trigger] v[i]@ == x;
        assert(views(v)[i] == x);
    }
    if views(v).contains(x) {
        let i = choose|i: int| 0 <= i < views(v).len() && views(v)[i] == x;
        assert(v[i]@ == x);
    }
}

/// The addresses a scan round probes: the static peers and the hosts of the
/// configured subnets, sorted, each once.
pub fn scan_targets(static_peers: &Option<Vec<String>>, subnets: &Option<Vec<String>>) -> (r: Vec<
    String,
>)
    ensures
        strictly_ascending(views(r@)),
        forall|x: Seq<char>|
            holds_text(r@, x) <==> scan_candidates(
                opt_views(*static_peers),
                opt_views(*subnets),
            ).contains(x),
        forall|x: Seq<char>|
            #[trigger] holds_text(r@, x) <==> (*static_peers matches Some(p) && holds_text(p@, x)) || (
            *subnets matches Some(n) && exists|k: int|
                0 <= k < n@.len() && #[trigger] subnet_texts(n@[k]@).contains(x)),
{
    let mut all: Vec<String> = Vec::new();
    let ghost peers: Seq<Seq<char>> = match static_peers {
        Some(p) => views(p@),
        None => Seq::empty(),
    };
    if let Some(peer_list) = static_peers {
        let mut i: usize = 0;
        while i < peer_list.len()
            invariant
                i <= peer_list@.len(),
                peers == views(peer_list@),
                views(all@) == peers.take(i as int),
            decreases peer_list@.len() - i,
        {
            let ghost before = views(all@);
            all.push(peer_list[i].clone());
            assert(views(all@) =~= before.push(peers[i as int]));
            assert(peers.take(i + 1) =~= peers.take(i as int).push(peers[i as int]));
            i = i + 1;
        }
        assert(peers.take(i as int) =~= peers);
    } else {
        assert(views(all@) =~= peers);
    }
    let ghost hosts: Seq<Seq<char>> = match subnets {
        Some(n) => all_subnet_texts(views(n@)),
        None => Seq::empty(),
    };
    if let Some(subnet_list) = subnets {
        let mut k: usize = 0;
        let ghost names = views(subnet_list@);
        assert(names.take(0) =~= Seq::<Seq<char>>::empty());
        assert(peers + all_subnet_texts(names.take(0)) =~= peers);
        while k < subnet_list.len()
            invariant
                k <= subnet_list@.len(),
                names == views(subnet_list@),
                views(all@) == peers + all_subnet_texts(names.take(k as int)),
            decreases subnet_list@.len() - k,
        {
            let ghost before = views(all@);
            push_subnet_hosts(&mut all, subnet_list[k].as_str());
            assert(names.take(k + 1).drop_last() =~= names.take(k as int));
            assert(names.take(k + 1).last() == subnet_list@[k as int]@);
            assert(views(all@) =~= peers + all_subnet_texts(names.take(k + 1)));
            k = k + 1;
        }
        assert(names.take(k as int) =~= names);
    } else {
        assert(views(all@) =~= peers + hosts);
    }
    assert(views(all@) == scan_candidates(opt_views(*static_peers), opt_views(*subnets)));
    let ghost collected = all@;
    let r = sorted_unique(all);
    proof {
        assert forall|x: Seq<char>| holds_text(r@, x) <==> scan_candidates(
            opt_views(*static_peers),
            opt_views(*subnets),
        ).contains(x) by {
            lemma_holds_text_views(collected, x);
        }
        assert forall|x: Seq<char>|
            #[trigger] holds_text(r@, x) <==> (*static_peers matches Some(p) && holds_text(p@, x)) || (
            *subnets matches Some(n) && exists|k: int|
                0 <= k < n@.len() && #[trigger] subnet_texts(n@[k]@).contains(x)) by {
            law_scan_candidates_members(opt_views(*static_peers), opt_views(*subnets), x);
            if let Some(p) = *static_peers {
                lemma_holds_text_views(p@, x);
            }
            if let Some(n) = *subnets {
                let names = views(n@);
                if exists|k: int| 0 <= k < names.len() && #[trigger] subnet_texts(names[k]).contains(x) {
                    let k = choose|k: int| 0 <= k < names.len() && #[trigger] subnet_texts(names[k]).contains(x);
                    assert(names[k] == n@[k]@);
                    assert(subnet_texts(n@[k]@).contains(x));
                }
                if exists|k: int| 0 <= k < n@.len() && #[trigger] subnet_texts(n@[k]@).contains(x) {
                    let k = choose|k: int| 0 <= k < n@.len() && #[trigger] subnet_texts(n@[k]@).contains(x);
                    assert(names[k] == n@[k]@);
                    assert(subnet_texts(names[k]).contains(x));
                }
            }
        }
    }
    r
}

} // verus!
