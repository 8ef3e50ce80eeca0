//! Address management for the container network: a subnet, its gateway (the
//! first host address) and the address handed to each container.
use crate::text::str_eq;
use ipnet::Ipv4Net;
use vstd::prelude::*;

verus! {

/// What `<Ipv4Net as FromStr>::from_str` gives for `s`, as (address, prefix length).
pub uninterp spec fn spec_parse_ipv4_net(s: Seq<char>) -> Option<(u32, u8)>;

/// `str::parse::<Ipv4Net>`: reads `a.b.c.d/p`. The address is kept as
/// written (host bits included). The grammar of ipnet's parser is not stated
/// here; the result is named by `spec_parse_ipv4_net`. ipnet's parser only
/// accepts prefix lengths up to 32.
#[verifier::external_body]
fn parse_ipv4_net(s: &str) -> (r: Option<(u32, u8)>)
    ensures
        r == spec_parse_ipv4_net(s@),
        r matches Some((_, p)) ==> p <= 32,
{
    s.parse::<Ipv4Net>().ok().map(|n| (u32::from(n.addr()), n.prefix_len()))
}

/// The network mask of a prefix length (ipnet's `netmask`): the top `p` bits.
pub open spec fn netmask(p: u8) -> u32 {
    if p == 0 {
        0
    } else {
        0xffff_ffffu32 << ((32 - p) as u32)
    }
}

/// The host mask of a prefix length (ipnet's `hostmask`): the low `32 - p` bits.
pub open spec fn hostmask(p: u8) -> u32 {
    if p >= 32 {
        0
    } else {
        0xffff_ffffu32 >> (p as u32)
    }
}

/// `Ipv4Net::network`: the address with its host bits cleared.
#[verifier::external_body]
fn ipv4_network(addr: u32, prefix: u8) -> (r: u32)
    requires
        prefix <= 32,
    ensures
        r == addr & netmask(prefix),
{
    u32::from(Ipv4Net::new(addr.into(), prefix).unwrap().network())
}

/// `Ipv4Net::broadcast`: the address with its host bits set.
#[verifier::external_body]
fn ipv4_broadcast(addr: u32, prefix: u8) -> (r: u32)
    requires
        prefix <= 32,
    ensures
        r == addr | hostmask(prefix),
{
    u32::from(Ipv4Net::new(addr.into(), prefix).unwrap().broadcast())
}

/// First address of the range that `Ipv4Net::hosts` walks: the network
/// address, plus one when the prefix is shorter than 31 (saturating).
pub open spec fn first_host(addr: u32, prefix: u8) -> int {
    let n = addr & netmask(prefix);
    if prefix < 31 && n < 0xffff_ffffu32 {
        n + 1
    } else {
        n as int
    }
}

/// Last address of the range that `Ipv4Net::hosts` walks: the broadcast
/// address, minus one when the prefix is shorter than 31 (saturating).
pub open spec fn last_host(addr: u32, prefix: u8) -> int {
    let b = addr | hostmask(prefix);
    if prefix < 31 && b > 0 {
        b - 1
    } else {
        b as int
    }
}

/// Bounds of the host range of `addr/prefix`, the range `Ipv4Net::hosts`
/// walks from the first to the last address (empty when first > last).
fn host_bounds(addr: u32, prefix: u8) -> (r: (u32, u32))
    requires
        prefix <= 32,
    ensures
        r.0 == first_host(addr, prefix),
        r.1 == last_host(addr, prefix),
{
    let mut start = ipv4_network(addr, prefix);
    let mut end = ipv4_broadcast(addr, prefix);
    if prefix < 31 {
        start = start.saturating_add(1);
        end = end.saturating_sub(1);
    }
    (start, end)
}

#[derive(Debug)]
pub enum IpamError {
    SubnetExhausted,
    AlreadyAllocated(u32),
    ContainerNotFound(String),
    Io(String),
    SerializationError(String),
}

pub enum IpamErrorView {
    SubnetExhausted,
    AlreadyAllocated(u32),
    ContainerNotFound(Seq<char>),
    Io(Seq<char>),
    SerializationError(Seq<char>),
}

impl View for IpamError {
    type V = IpamErrorView;

    open spec fn view(&self) -> IpamErrorView {
        match self {
            IpamError::SubnetExhausted => IpamErrorView::SubnetExhausted,
            IpamError::AlreadyAllocated(ip) => IpamErrorView::AlreadyAllocated(*ip),
            IpamError::ContainerNotFound(s) => IpamErrorView::ContainerNotFound(s@),
            IpamError::Io(s) => IpamErrorView::Io(s@),
            IpamError::SerializationError(s) => IpamErrorView::SerializationError(s@),
        }
    }
}

pub open spec fn result_view(r: Result<u32, IpamError>) -> Result<u32, IpamErrorView> {
    match r {
        Ok(ip) => Ok(ip),
        Err(e) => Err(e@),
    }
}

/// The state of the address manager: the subnet `subnet_addr/prefix`, its
/// gateway, and the address of each container.
pub struct IpamView {
    pub subnet_addr: u32,
    pub prefix: u8,
    pub gateway: u32,
    pub allocations: Map<Seq<char>, u32>,
}

/// The address manager (see [`IpamView`]).
pub struct Ipam {
    subnet_addr: u32,
    prefix: u8,
    gateway: u32,
    allocations: Vec<(String, u32)>,
}

/// The map that a list of (container, address) pairs stands for.
pub open spec fn alloc_map(s: Seq<(String, u32)>) -> Map<Seq<char>, u32>
    decreases s.len(),
{
    if s.len() == 0 {
        Map::empty()
    } else {
        alloc_map(s.drop_last()).insert(s.last().0@, s.last().1)
    }
}

/// No container occurs twice in the list.
pub open spec fn unique_keys(s: Seq<(String, u32)>) -> bool {
    forall|i: int, j: int| 0 <= i < s.len() && 0 <= j < s.len() && i != j ==> s[i].0@ != s[j].0@
}

impl View for Ipam {
    type V = IpamView;

    closed spec fn view(&self) -> IpamView {
        IpamView {
            subnet_addr: self.subnet_addr,
            prefix: self.prefix,
            gateway: self.gateway,
            allocations: alloc_map(self.allocations@),
        }
    }
}

impl Ipam {
    /// The prefix length is at most 32 and no container occurs twice.
    pub closed spec fn wf(&self) -> bool {
        &&& self.prefix <= 32
        &&& unique_keys(self.allocations@)
    }
}

/// Addresses handed out in `v`.
pub open spec fn used(v: IpamView) -> Set<u32> {
    v.allocations.values()
}

/// The least address in `lo..=hi` that is not in `taken`.
pub open spec fn first_free(lo: int, hi: int, taken: Set<u32>) -> Option<u32>
    decreases hi - lo + 1,
{
    if lo > hi || lo < 0 || hi > 0xffff_ffff {
        None
    } else if !taken.contains(lo as u32) {
        Some(lo as u32)
    } else {
        first_free(lo + 1, hi, taken)
    }
}

/// What `new` makes of a subnet in CIDR notation.
pub open spec fn spec_new(cidr: Seq<char>) -> Result<IpamView, IpamErrorView> {
    match spec_parse_ipv4_net(cidr) {
        None => Err(IpamErrorView::Io("Invalid CIDR block"@)),
        Some((a, p)) => if first_host(a, p) <= last_host(a, p) {
            Ok(
                IpamView {
                    subnet_addr: a,
                    prefix: p,
                    gateway: first_host(a, p) as u32,
                    allocations: Map::empty(),
                },
            )
        } else {
            Err(IpamErrorView::SubnetExhausted)
        },
    }
}

/// What `allocate` does: a container that has an address keeps it; another
/// gets the least host address after the first that no container holds.
pub open spec fn spec_allocate(v: IpamView, id: Seq<char>) -> (IpamView, Result<
    u32,
    IpamErrorView,
>) {
    if v.allocations.dom().contains(id) {
        (v, Ok(v.allocations[id]))
    } else {
        match first_free(
            first_host(v.subnet_addr, v.prefix) + 1,
            last_host(v.subnet_addr, v.prefix),
            used(v),
        ) {
            Some(ip) => (IpamView { allocations: v.allocations.insert(id, ip), ..v }, Ok(ip)),
            None => (v, Err(IpamErrorView::SubnetExhausted)),
        }
    }
}

/// What `release` does: the container's address is handed back, or the
/// container is not known.
pub open spec fn spec_release(v: IpamView, id: Seq<char>) -> (IpamView, Result<
    u32,
    IpamErrorView,
>) {
    if v.allocations.dom().contains(id) {
        (IpamView { allocations: v.allocations.remove(id), ..v }, Ok(v.allocations[id]))
    } else {
        (v, Err(IpamErrorView::ContainerNotFound(id)))
    }
}

proof fn lemma_alloc_map_dom(s: Seq<(String, u32)>, k: Seq<char>)
    ensures
        alloc_map(s).dom().contains(k) <==> exists|i: int| 0 <= i < s.len() && s[i].0@ == k,
    decreases s.len(),
{
    if s.len() > 0 {
        lemma_alloc_map_dom(s.drop_last(), k);
        if alloc_map(s).dom().contains(k) && k != s.last().0@ {
            let i = choose|i: int| 0 <= i < s.drop_last().len() && s.drop_last()[i].0@ == k;
            assert(s[i].0@ == k);
        }
        if exists|i: int| 0 <= i < s.len() && s[i].0@ == k {
            let i = choose|i: int| 0 <= i < s.len() && s[i].0@ == k;
            if i < s.len() - 1 {
                assert(s.drop_last()[i].0@ == k);
            }
        }
    }
}

proof fn lemma_alloc_map_get(s: Seq<(String, u32)>, i: int)
    requires
        unique_keys(s),
        0 <= i < s.len(),
    ensures
        alloc_map(s).dom().contains(s[i].0@),
        alloc_map(s)[s[i].0@] == s[i].1,
    decreases s.len(),
{
    if i < s.len() - 1 {
        assert(unique_keys(s.drop_last()));
        lemma_alloc_map_get(s.drop_last(), i);
        assert(s.drop_last()[i] == s[i]);
        assert(s[i].0@ != s.last().0@);
    }
}

proof fn lemma_alloc_map_remove(s: Seq<(String, u32)>, i: int)
    requires
        unique_keys(s),
        0 <= i < s.len(),
    ensures
        alloc_map(s.remove(i)) =~= alloc_map(s).remove(s[i].0@),
        unique_keys(s.remove(i)),
    decreases s.len(),
{
    let r = s.remove(i);
    assert(unique_keys(r)) by {
        assert forall|a: int, b: int| 0 <= a < r.len() && 0 <= b < r.len() && a != b implies r[a].0@
            != r[b].0@ by {
            let a2 = if a < i {
                a
            } else {
                a + 1
            };
            let b2 = if b < i {
                b
            } else {
                b + 1
            };
            assert(r[a] == s[a2]);
            assert(r[b] == s[b2]);
        }
    }
    if i == s.len() - 1 {
        assert(r =~= s.drop_last());
        assert forall|k: Seq<char>| #[trigger] alloc_map(s.drop_last()).dom().contains(k) implies k
            != s[i].0@ by {
            lemma_alloc_map_dom(s.drop_last(), k);
            let j = choose|j: int| 0 <= j < s.drop_last().len() && s.drop_last()[j].0@ == k;
            assert(s[j].0@ == k);
        }
        assert(!alloc_map(s.drop_last()).dom().contains(s[i].0@));
    } else {
        let d = s.drop_last();
        assert(unique_keys(d));
        lemma_alloc_map_remove(d, i);
        assert(r.drop_last() =~= d.remove(i));
        assert(r.last() == s.last());
        assert(s[i] == d[i]);
        assert(s[i].0@ != s.last().0@);
    }
}

proof fn lemma_alloc_map_values(s: Seq<(String, u32)>, ip: u32)
    requires
        unique_keys(s),
    ensures
        alloc_map(s).values().contains(ip) <==> exists|i: int| 0 <= i < s.len() && s[i].1 == ip,
{
    let m = alloc_map(s);
    if m.values().contains(ip) {
        let k = choose|k: Seq<char>| #[trigger] m.dom().contains(k) && m[k] == ip;
        lemma_alloc_map_dom(s, k);
        let i = choose|i: int| 0 <= i < s.len() && s[i].0@ == k;
        lemma_alloc_map_get(s, i);
    }
    if exists|i: int| 0 <= i < s.len() && s[i].1 == ip {
        let i = choose|i: int| 0 <= i < s.len() && s[i].1 == ip;
        lemma_alloc_map_get(s, i);
        assert(m.dom().contains(s[i].0@) && m[s[i].0@] == ip);
    }
}

proof fn lemma_alloc_map_push(s: Seq<(String, u32)>, k: String, ip: u32)
    requires
        unique_keys(s),
        !alloc_map(s).dom().contains(k@),
    ensures
        unique_keys(s.push((k, ip))),
        alloc_map(s.push((k, ip))) == alloc_map(s).insert(k@, ip),
{
    let t = s.push((k, ip));
    assert(t.drop_last() =~= s);
    assert forall|a: int, b: int| 0 <= a < t.len() && 0 <= b < t.len() && a != b implies t[a].0@
        != t[b].0@ by {
        if a == s.len() {
            lemma_alloc_map_get(s, b);
        } else if b == s.len() {
            lemma_alloc_map_get(s, a);
        }
    }
}

proof fn lemma_first_free(lo: int, hi: int, taken: Set<u32>)
    ensures
        match first_free(lo, hi, taken) {
            Some(x) => {
                &&& lo <= x <= hi
                &&& !taken.contains(x)
                &&& forall|y: int| lo <= y < x ==> taken.contains(#[trigger] (y as u32))
            },
            None => (0 <= lo && hi <= 0xffff_ffff) ==> forall|y: int|
                lo <= y <= hi ==> taken.contains(#[trigger] (y as u32)),
        },
    decreases hi - lo + 1,
{
    if !(lo > hi || lo < 0 || hi > 0xffff_ffff) && taken.contains(lo as u32) {
        lemma_first_free(lo + 1, hi, taken);
    }
}

/// What `restore` makes of saved state: the state, when the prefix length
/// is at most 32 and no container occurs twice.
pub open spec fn spec_restore(subnet_addr: u32, prefix: u8, gateway: u32, allocations: Seq<
    (String, u32),
>) -> Option<IpamView> {
    if prefix <= 32 && unique_keys(allocations) {
        Some(IpamView { subnet_addr, prefix, gateway, allocations: alloc_map(allocations) })
    } else {
        None
    }
}

/// Saved state gives back the state it was saved from: restoring a
/// manager's subnet, gateway and (container, address) pairs, as
/// `allocations` lists them, yields the same manager.
pub proof fn law_saved_state_restores(v: IpamView, saved: Seq<(String, u32)>)
    requires
        v.prefix <= 32,
        unique_keys(saved),
        alloc_map(saved) == v.allocations,
    ensures
        spec_restore(v.subnet_addr, v.prefix, v.gateway, saved) == Some(v),
{
}

/// Whether the list holds the pair (container `k`, address `ip`).
pub open spec fn holds_pair(s: Seq<(String, u32)>, k: Seq<char>, ip: u32) -> bool {
    exists|i: int| 0 <= i < s.len() && s[i].0@ == k && s[i].1 == ip
}

/// The order in which (container, address) pairs are saved does not
/// matter: two lists without a repeated container that hold the same pairs
/// stand for the same allocations.
pub proof fn law_restore_ignores_order(a: Seq<(String, u32)>, b: Seq<(String, u32)>)
    requires
        unique_keys(a),
        unique_keys(b),
        forall|k: Seq<char>, ip: u32| #[trigger] holds_pair(a, k, ip) == holds_pair(b, k, ip),
    ensures
        alloc_map(a) == alloc_map(b),
{
    assert forall|k: Seq<char>| #[trigger] alloc_map(a).dom().contains(k) implies alloc_map(
        b,
    ).dom().contains(k) && alloc_map(a)[k] == alloc_map(b)[k] by {
        lemma_alloc_map_dom(a, k);
        let i = choose|i: int| 0 <= i < a.len() && a[i].0@ == k;
        lemma_alloc_map_get(a, i);
        assert(holds_pair(a, k, a[i].1));
        assert(holds_pair(b, k, a[i].1));
        let j = choose|j: int| 0 <= j < b.len() && b[j].0@ == k && b[j].1 == a[i].1;
        lemma_alloc_map_get(b, j);
    }
    assert forall|k: Seq<char>| #[trigger] alloc_map(b).dom().contains(k) implies alloc_map(
        a,
    ).dom().contains(k) by {
        lemma_alloc_map_dom(b, k);
        let j = choose|j: int| 0 <= j < b.len() && b[j].0@ == k;
        assert(holds_pair(b, k, b[j].1));
        assert(holds_pair(a, k, b[j].1));
        let i = choose|i: int| 0 <= i < a.len() && a[i].0@ == k && a[i].1 == b[j].1;
        lemma_alloc_map_get(a, i);
    }
    assert(alloc_map(a) =~= alloc_map(b));
}

/// No two containers hold the same address.
pub open spec fn distinct_addresses(m: Map<Seq<char>, u32>) -> bool {
    forall|a: Seq<char>, b: Seq<char>|
        m.dom().contains(a) && m.dom().contains(b) && a != b ==> m[a] != m[b]
}

/// Every address handed out lies in the subnet's host range, after its first
/// host address (the gateway of a new manager).
pub open spec fn addresses_in_hosts(v: IpamView) -> bool {
    forall|k: Seq<char>|
        v.allocations.dom().contains(k) ==> first_host(v.subnet_addr, v.prefix)
            < #[trigger] v.allocations[k] <= last_host(v.subnet_addr, v.prefix)
}

/// A new manager's gateway is the subnet's first host address, and no
/// container has an address.
pub proof fn law_new_gateway_is_first_host(cidr: Seq<char>)
    ensures
        spec_new(cidr) matches Ok(v) ==> {
            &&& v.gateway == first_host(v.subnet_addr, v.prefix)
            &&& v.allocations.dom().len() == 0
            &&& addresses_in_hosts(v)
            &&& distinct_addresses(v.allocations)
        },
{
}

/// Allocating again for a container that got an address gives the same
/// address and changes nothing.
pub proof fn law_allocate_idempotent(v: IpamView, id: Seq<char>)
    ensures
        spec_allocate(v, id).1 is Ok ==> spec_allocate(spec_allocate(v, id).0, id) == (
            spec_allocate(v, id).0,
            spec_allocate(v, id).1,
        ),
{
}

/// A container without an address gets the lowest address after the first
/// host that no container holds; the subnet is exhausted only when every
/// such address is held.
pub proof fn law_allocate_lowest_free(v: IpamView, id: Seq<char>)
    requires
        !v.allocations.dom().contains(id),
    ensures
        spec_allocate(v, id).1 matches Ok(ip) ==> {
            &&& first_host(v.subnet_addr, v.prefix) < ip <= last_host(v.subnet_addr, v.prefix)
            &&& !used(v).contains(ip)
            &&& forall|y: int|
                first_host(v.subnet_addr, v.prefix) < y < ip ==> used(v).contains(#[trigger] (y as u32))
            &&& spec_allocate(v, id).0.allocations == v.allocations.insert(id, ip)
        },
        spec_allocate(v, id).1 is Err ==> {
            &&& spec_allocate(v, id).1 == Err::<u32, _>(IpamErrorView::SubnetExhausted)
            &&& spec_allocate(v, id).0 == v
            &&& forall|y: int|
                first_host(v.subnet_addr, v.prefix) < y <= last_host(v.subnet_addr, v.prefix)
                    ==> used(v).contains(#[trigger] (y as u32))
        },
{
    lemma_first_free(
        first_host(v.subnet_addr, v.prefix) + 1,
        last_host(v.subnet_addr, v.prefix),
        used(v),
    );
    assert(first_host(v.subnet_addr, v.prefix) >= 0);
    assert(last_host(v.subnet_addr, v.prefix) <= 0xffff_ffff);
}

/// Releasing a container right after it got its first address gives that
/// address back and restores the state as it was.
pub proof fn law_release_undoes_allocate(v: IpamView, id: Seq<char>)
    requires
        !v.allocations.dom().contains(id),
        spec_allocate(v, id).1 is Ok,
    ensures
        spec_release(spec_allocate(v, id).0, id) == (v, spec_allocate(v, id).1),
{
    let ip = spec_allocate(v, id).1->Ok_0;
    assert(v.allocations.insert(id, ip).remove(id) =~= v.allocations);
}

/// A released address is the next one handed out to a new container.
pub proof fn law_released_address_is_reused(v: IpamView, a: Seq<char>, b: Seq<char>)
    requires
        !v.allocations.dom().contains(a),
        !v.allocations.dom().contains(b),
        spec_allocate(v, a).1 is Ok,
    ensures
        spec_allocate(spec_release(spec_allocate(v, a).0, a).0, b).1 == spec_allocate(v, a).1,
{
    law_release_undoes_allocate(v, a);
}

/// Releasing a container that has no address fails with
/// `ContainerNotFound` and changes nothing.
pub proof fn law_release_unknown(v: IpamView, id: Seq<char>)
    requires
        !v.allocations.dom().contains(id),
    ensures
        spec_release(v, id) == (v, Err::<u32, _>(IpamErrorView::ContainerNotFound(id))),
{
}

/// Allocation and release keep addresses distinct between containers and
/// inside the host range.
pub proof fn law_invariants_kept(v: IpamView, id: Seq<char>)
    requires
        distinct_addresses(v.allocations),
        addresses_in_hosts(v),
    ensures
        distinct_addresses(spec_allocate(v, id).0.allocations),
        addresses_in_hosts(spec_allocate(v, id).0),
        distinct_addresses(spec_release(v, id).0.allocations),
        addresses_in_hosts(spec_release(v, id).0),
{
    if !v.allocations.dom().contains(id) {
        law_allocate_lowest_free(v, id);
        if spec_allocate(v, id).1 is Ok {
            let ip = spec_allocate(v, id).1->Ok_0;
            let m = v.allocations.insert(id, ip);
            assert forall|a: Seq<char>, b: Seq<char>|
                m.dom().contains(a) && m.dom().contains(b) && a != b implies m[a] != m[b] by {
                if a == id {
                    assert(v.allocations.values().contains(m[b]) || b == id);
                } else if b == id {
                    assert(v.allocations.values().contains(m[a]));
                }
            }
        }
    }
}

impl Ipam {
    /// A new address manager for the subnet `subnet_cidr` (such as
    /// `"172.19.0.0/16"`): the gateway is the subnet's first host address and
    /// no container has an address yet. A subnet that is not valid CIDR
    /// notation gives `Io("Invalid CIDR block")`; one without host addresses
    /// gives `SubnetExhausted`.
    pub fn new(subnet_cidr: &str) -> (r: Result<Ipam, IpamError>)
        ensures
            match r {
                Ok(ipam) => ipam.wf() && spec_new(subnet_cidr@) == Ok::<_, IpamErrorView>(ipam@),
                Err(e) => spec_new(subnet_cidr@) == Err::<IpamView, _>(e@),
            },
    {
        match parse_ipv4_net(subnet_cidr) {
            None => Err(IpamError::Io(crate::text::string_from("Invalid CIDR block"))),
            Some((addr, prefix)) => Ipam::from_subnet(addr, prefix),
        }
    }

    /// A new address manager for the subnet `subnet_addr/prefix`: the gateway
    /// is the subnet's first host address and no container has an address;
    /// `SubnetExhausted` when the subnet has no host address.
    pub fn from_subnet(subnet_addr: u32, prefix: u8) -> (r: Result<Ipam, IpamError>)
        requires
            prefix <= 32,
        ensures
            match r {
                Ok(ipam) => {
                    &&& ipam.wf()
                    &&& first_host(subnet_addr, prefix) <= last_host(subnet_addr, prefix)
                    &&& ipam@ == (IpamView {
                        subnet_addr,
                        prefix,
                        gateway: first_host(subnet_addr, prefix) as u32,
                        allocations: Map::empty(),
                    })
                },
                Err(e) => first_host(subnet_addr, prefix) > last_host(subnet_addr, prefix) && e
                    is SubnetExhausted,
            },
    {
        let (first, last) = host_bounds(subnet_addr, prefix);
        if first <= last {
            let ipam = Ipam { subnet_addr, prefix, gateway: first, allocations: Vec::new() };
            assert(ipam@.allocations =~= Map::<Seq<char>, u32>::empty());
            Ok(ipam)
        } else {
            Err(IpamError::SubnetExhausted)
        }
    }

    /// An address manager restored from saved state. `None` when the prefix
    /// length is over 32 or a container occurs twice in `allocations`.
    pub fn restore(subnet_addr: u32, prefix: u8, gateway: u32, allocations: Vec<(String, u32)>) -> (r:
        Option<Ipam>)
        ensures
            match r {
                Some(ipam) => ipam.wf() && spec_restore(subnet_addr, prefix, gateway, allocations@)
                    == Some(ipam@),
                None => spec_restore(subnet_addr, prefix, gateway, allocations@) is None,
            },
    {
        if prefix > 32 {
            return None;
        }
        let n = allocations.len();
        let mut i: usize = 0;
        while i < n
            invariant
                n == allocations@.len(),
                i <= n,
                forall|a: int, b: int| 0 <= a < i && 0 <= b < n && a != b ==> allocations@[a].0@
                    != allocations@[b].0@,
            decreases n - i,
        {
            let mut j: usize = 0;
            while j < n
                invariant
                    n == allocations@.len(),
                    i < n,
                    j <= n,
                    forall|a: int, b: int| 0 <= a < i && 0 <= b < n && a != b ==> allocations@[a].0@
                        != allocations@[b].0@,
                    forall|b: int| 0 <= b < j && b != i ==> allocations@[i as int].0@
                        != allocations@[b].0@,
                decreases n - j,
            {
                if j != i && str_eq(allocations[i].0.as_str(), allocations[j].0.as_str()) {
                    return None;
                }
                j += 1;
            }
            i += 1;
        }
        Some(Ipam { subnet_addr, prefix, gateway, allocations })
    }

    /// The gateway address.
    pub fn gateway(&self) -> (r: u32)
        ensures
            r == self@.gateway,
    {
        self.gateway
    }

    /// The prefix length of the subnet.
    pub fn subnet(&self) -> (r: u8)
        ensures
            r == self@.prefix,
    {
        self.prefix
    }

    /// The subnet's address, as it was given.
    pub fn subnet_addr(&self) -> (r: u32)
        ensures
            r == self@.subnet_addr,
    {
        self.subnet_addr
    }

    /// The (container, address) pairs, one per container.
    pub fn allocations(&self) -> (r: Vec<(String, u32)>)
        requires
            self.wf(),
        ensures
            unique_keys(r@),
            alloc_map(r@) == self@.allocations,
    {
        let n = self.allocations.len();
        let mut out: Vec<(String, u32)> = Vec::new();
        let mut i: usize = 0;
        while i < n
            invariant
                n == self.allocations@.len(),
                i <= n,
                out@ =~= self.allocations@.take(i as int),
            decreases n - i,
        {
            out.push((self.allocations[i].0.clone(), self.allocations[i].1));
            i += 1;
        }
        assert(out@ =~= self.allocations@);
        out
    }

    fn find(&self, id: &str) -> (r: Option<usize>)
        requires
            self.wf(),
        ensures
            match r {
                Some(i) => i < self.allocations@.len() && self.allocations@[i as int].0@ == id@,
                None => !self@.allocations.dom().contains(id@),
            },
    {
        let n = self.allocations.len();
        let mut i: usize = 0;
        while i < n
            invariant
                self.wf(),
                n == self.allocations@.len(),
                i <= n,
                forall|j: int| 0 <= j < i ==> self.allocations@[j].0@ != id@,
            decreases n - i,
        {
            if str_eq(self.allocations[i].0.as_str(), id) {
                return Some(i);
            }
            i += 1;
        }
        proof {
            lemma_alloc_map_dom(self.allocations@, id@);
        }
        None
    }

    fn is_used(&self, ip: u32) -> (r: bool)
        requires
            self.wf(),
        ensures
            r == used(self@).contains(ip),
    {
        let n = self.allocations.len();
        let mut i: usize = 0;
        while i < n
            invariant
                self.wf(),
                n == self.allocations@.len(),
                i <= n,
                forall|j: int| 0 <= j < i ==> self.allocations@[j].1 != ip,
            decreases n - i,
        {
            if self.allocations[i].1 == ip {
                proof {
                    lemma_alloc_map_values(self.allocations@, ip);
                }
                return true;
            }
            i += 1;
        }
        proof {
            lemma_alloc_map_values(self.allocations@, ip);
        }
        false
    }

    /// Gives `container_id` an address: the one it has, or else the least
    /// host address after the first that no container holds
    /// (`SubnetExhausted` when there is none).
    pub fn allocate(&mut self, container_id: &str) -> (r: Result<u32, IpamError>)
        requires
            old(self).wf(),
        ensures
            final(self).wf(),
            (final(self)@, result_view(r)) == spec_allocate(old(self)@, container_id@),
    {
        if let Some(i) = self.find(container_id) {
            proof {
                lemma_alloc_map_get(self.allocations@, i as int);
            }
            return Ok(self.allocations[i].1);
        }
        let (first, last) = host_bounds(self.subnet_addr, self.prefix);
        let ghost taken = used(self@);
        let mut x: u64 = first as u64 + 1;
        while x <= last as u64
            invariant
                self.wf(),
                *self == *old(self),
                !self@.allocations.dom().contains(container_id@),
                taken == used(self@),
                first == first_host(self@.subnet_addr, self@.prefix),
                last == last_host(self@.subnet_addr, self@.prefix),
                first + 1 <= x,
                x <= last + 1 || x == first + 1,
                first_free(first + 1, last as int, taken) == first_free(x as int, last as int, taken),
            decreases last as u64 + 1 - x,
        {
            if !self.is_used(x as u32) {
                let ip = x as u32;
                let ghost before = self.allocations@;
                proof {
                    lemma_alloc_map_dom(before, container_id@);
                }
                let key = crate::text::string_from(container_id);
                self.allocations.push((key, ip));
                proof {
                    lemma_alloc_map_push(before, key, ip);
                }
                return Ok(ip);
            }
            x += 1;
        }
        Err(IpamError::SubnetExhausted)
    }

    /// Takes back the address of `container_id` and returns it;
    /// `ContainerNotFound` when the container has none.
    pub fn release(&mut self, container_id: &str) -> (r: Result<u32, IpamError>)
        requires
            old(self).wf(),
        ensures
            final(self).wf(),
            (final(self)@, result_view(r)) == spec_release(old(self)@, container_id@),
    {
        match self.find(container_id) {
            Some(i) => {
                let ghost before = self.allocations@;
                proof {
                    lemma_alloc_map_get(before, i as int);
                    lemma_alloc_map_remove(before, i as int);
                }
                let (_, ip) = self.allocations.remove(i);
                assert(self.allocations@ == before.remove(i as int));
                Ok(ip)
            },
            None => Err(IpamError::ContainerNotFound(crate::text::string_from(container_id))),
        }
    }
}

} // verus!
