//! The lease manager: the pool of offered and committed addresses inside
//! the configured range, with time-based reclamation.
//!
//! The manager's state is modelled by two maps from the numeric value of
//! an address to the holder's MAC and the instant the binding was written:
//! one for tentative offers, one for committed leases. The two key sets
//! are disjoint, and every key lies inside the configured range.

use crate::address::{
    ip_next, ip_num, lemma_ip_num_injective, IPAddress, MACAddress,
};
use crate::config::Configuration;
use vstd::prelude::*;

verus! {

/// One address binding: the address, its holder, and the instant it was
/// offered or committed, in seconds of the server's clock.
#[verifier::ext_equal]
pub struct Binding {
    pub ip: IPAddress,
    pub mac: MACAddress,
    pub at: u64,
}

/// The lease manager. Bindings are held in vectors with pairwise distinct
/// addresses; `entries` reads a vector as a map.
pub struct Leases {
    pub leases: Vec<Binding>,
    pub offers: Vec<Binding>,
    pub next_available_ip: Option<IPAddress>,
    pub start: IPAddress,
    pub end: IPAddress,
    pub offer_time: u64,
    pub address_time: u32,
    pub renewal_time: u32,
    pub rebinding_time: u32,
}

/// The bindings of a vector, read as a map from the numeric address value
/// to the holder's MAC octets and the timestamp.
pub open spec fn entries(s: Seq<Binding>) -> Map<int, (Seq<u8>, u64)>
    decreases s.len(),
{
    if s.len() == 0 {
        Map::empty()
    } else {
        entries(s.drop_last()).insert(
            ip_num(s.last().ip@),
            (s.last().mac@, s.last().at),
        )
    }
}

/// No two bindings of the vector share an address.
pub open spec fn unique_ips(s: Seq<Binding>) -> bool {
    forall|i: int, j: int|
        0 <= i < j < s.len() ==> ip_num((#[trigger] s[i]).ip@) != ip_num((#[trigger] s[j]).ip@)
}

/// The bindings that are still live at `now`: those written at `at` with
/// `at + ttl > now`.
pub open spec fn keep_live(m: Map<int, (Seq<u8>, u64)>, ttl: int, now: u64) -> Map<
    int,
    (Seq<u8>, u64),
> {
    Map::new(|k: int| m.dom().contains(k) && m[k].1 + ttl > now, |k: int| m[k])
}

/// Whether the commit of `ip` to `mac` is allowed: the address lies in the
/// configured range, an existing offer for it belongs to the same MAC, and
/// failing any offer an existing lease for it belongs to the same MAC.
pub open spec fn accept_ok_maps(
    leases: Map<int, (Seq<u8>, u64)>,
    offers: Map<int, (Seq<u8>, u64)>,
    startn: int,
    endn: int,
    k: int,
    m: Seq<u8>,
) -> bool {
    &&& startn <= k <= endn
    &&& if offers.dom().contains(k) {
        offers[k].0 == m
    } else {
        leases.dom().contains(k) ==> leases[k].0 == m
    }
}

/// Measure for the scan over the address range.
pub open spec fn ff_measure(endn: int, from: int) -> int {
    if from <= endn {
        endn + 1 - from
    } else {
        0
    }
}

/// The first address at or after `from`, walking with the increment
/// operator, that is bound in neither map; `None` once the scan passes
/// `endn`.
pub open spec fn first_free(
    leases: Map<int, (Seq<u8>, u64)>,
    offers: Map<int, (Seq<u8>, u64)>,
    endn: int,
    from: int,
) -> Option<int>
    decreases ff_measure(endn, from),
{
    if from > endn {
        None
    } else if !leases.dom().contains(from) && !offers.dom().contains(from) {
        Some(from)
    } else {
        first_free(leases, offers, endn, ip_next(from))
    }
}

impl Leases {
    pub open spec fn leases_map(self) -> Map<int, (Seq<u8>, u64)> {
        entries(self.leases@)
    }

    pub open spec fn offers_map(self) -> Map<int, (Seq<u8>, u64)> {
        entries(self.offers@)
    }

    pub open spec fn start_n(self) -> int {
        ip_num(self.start@)
    }

    pub open spec fn end_n(self) -> int {
        ip_num(self.end@)
    }

    /// Where an allocation scan begins: at the hint when one is held, else
    /// at the start of the range.
    pub open spec fn scan_start(self) -> int {
        match self.next_available_ip {
            Some(h) => ip_num(h@),
            None => self.start_n(),
        }
    }

    /// The address the next allocation will hand out, if any.
    pub open spec fn alloc_find(self) -> Option<int> {
        first_free(self.leases_map(), self.offers_map(), self.end_n(), self.scan_start())
    }

    pub open spec fn accept_ok(self, k: int, m: Seq<u8>) -> bool {
        accept_ok_maps(
            self.leases_map(),
            self.offers_map(),
            self.start_n(),
            self.end_n(),
            k,
            m,
        )
    }

    /// The invariant of every reachable manager state: distinct addresses
    /// within each vector, disjoint key sets across the two maps, every
    /// binding inside the configured range, a hint that never points
    /// outside the range, and headroom at the top of the address space for
    /// the increment operator.
    pub open spec fn wf(self) -> bool {
        &&& unique_ips(self.leases@)
        &&& unique_ips(self.offers@)
        &&& self.leases_map().dom().disjoint(self.offers_map().dom())
        &&& forall|j: int|
            0 <= j < self.leases@.len() ==> self.start_n() <= ip_num(
                (#[trigger] self.leases@[j]).ip@,
            ) <= self.end_n()
        &&& forall|j: int|
            0 <= j < self.offers@.len() ==> self.start_n() <= ip_num(
                (#[trigger] self.offers@[j]).ip@,
            ) <= self.end_n()
        &&& match self.next_available_ip {
            Some(h) => self.start_n() <= ip_num(h@) <= self.end_n(),
            None => true,
        }
        &&& self.end_n() <= 0xFFFFFFFD
    }

    /// The configured fields of two manager states agree.
    pub open spec fn same_config(self, other: Leases) -> bool {
        &&& self.start == other.start
        &&& self.end == other.end
        &&& self.offer_time == other.offer_time
        &&& self.address_time == other.address_time
        &&& self.renewal_time == other.renewal_time
        &&& self.rebinding_time == other.rebinding_time
    }
}

/// A key is bound exactly when some vector entry carries its address.
pub proof fn lemma_entries_contains(s: Seq<Binding>, k: int)
    ensures
        entries(s).dom().contains(k) <==> exists|i: int|
            0 <= i < s.len() && ip_num((#[trigger] s[i]).ip@) == k,
    decreases s.len(),
{
    if s.len() > 0 {
        lemma_entries_contains(s.drop_last(), k);
        if entries(s).dom().contains(k) {
            if k == ip_num(s.last().ip@) {
                assert(ip_num(s[s.len() - 1].ip@) == k);
            } else {
                let i = choose|i: int|
                    0 <= i < s.drop_last().len() && ip_num(
                        (#[trigger] s.drop_last()[i]).ip@,
                    ) == k;
                assert(ip_num(s[i].ip@) == k);
            }
        }
        if exists|i: int| 0 <= i < s.len() && ip_num((#[trigger] s[i]).ip@) == k {
            let i = choose|i: int| 0 <= i < s.len() && ip_num((#[trigger] s[i]).ip@) == k;
            if i < s.len() - 1 {
                assert(ip_num(s.drop_last()[i].ip@) == k);
            }
        }
    }
}

/// Dropping the last binding keeps the addresses distinct.
proof fn lemma_unique_drop_last(s: Seq<Binding>)
    requires
        unique_ips(s),
        s.len() > 0,
    ensures
        unique_ips(s.drop_last()),
{
    assert forall|i: int, j: int| 0 <= i < j < s.drop_last().len() implies ip_num(
        (#[trigger] s.drop_last()[i]).ip@,
    ) != ip_num((#[trigger] s.drop_last()[j]).ip@) by {
        assert(s.drop_last()[i] == s[i]);
        assert(s.drop_last()[j] == s[j]);
    }
}

/// With distinct addresses, the map holds each entry of the vector.
pub proof fn lemma_entries_at(s: Seq<Binding>, i: int)
    requires
        unique_ips(s),
        0 <= i < s.len(),
    ensures
        entries(s).dom().contains(ip_num(s[i].ip@)),
        entries(s)[ip_num(s[i].ip@)] == (s[i].mac@, s[i].at),
    decreases s.len(),
{
    if i < s.len() - 1 {
        lemma_unique_drop_last(s);
        lemma_entries_at(s.drop_last(), i);
        assert(s.drop_last()[i] == s[i]);
        assert(ip_num(s[i].ip@) != ip_num(s.last().ip@));
    }
}

/// Appending a binding inserts it into the map.
pub proof fn lemma_entries_push(s: Seq<Binding>, b: Binding)
    ensures
        entries(s.push(b)) == entries(s).insert(ip_num(b.ip@), (b.mac@, b.at)),
{
    assert(s.push(b).drop_last() =~= s);
    assert(s.push(b).last() == b);
}

/// Rewriting the binding at `i` with the same address overwrites its map
/// entry.
pub proof fn lemma_entries_update(s: Seq<Binding>, i: int, b: Binding)
    requires
        unique_ips(s),
        0 <= i < s.len(),
        ip_num(b.ip@) == ip_num(s[i].ip@),
    ensures
        entries(s.update(i, b)) == entries(s).insert(ip_num(b.ip@), (b.mac@, b.at)),
    decreases s.len(),
{
    let t = s.update(i, b);
    if i == s.len() - 1 {
        assert(t.drop_last() =~= s.drop_last());
        assert(t.last() == b);
        assert(entries(s.drop_last()).insert(ip_num(b.ip@), (b.mac@, b.at)) =~= entries(
            s,
        ).insert(ip_num(b.ip@), (b.mac@, b.at)));
    } else {
        lemma_unique_drop_last(s);
        assert(s.drop_last()[i] == s[i]);
        lemma_entries_update(s.drop_last(), i, b);
        assert(t.drop_last() =~= s.drop_last().update(i, b));
        assert(t.last() == s.last());
        assert(ip_num(b.ip@) != ip_num(s.last().ip@));
        assert(entries(s.drop_last()).insert(ip_num(b.ip@), (b.mac@, b.at)).insert(
            ip_num(s.last().ip@),
            (s.last().mac@, s.last().at),
        ) =~= entries(s).insert(ip_num(b.ip@), (b.mac@, b.at)));
    }
}

/// Removing the binding at `i` removes its map entry.
pub proof fn lemma_entries_remove(s: Seq<Binding>, i: int)
    requires
        unique_ips(s),
        0 <= i < s.len(),
    ensures
        entries(s.remove(i)) == entries(s).remove(ip_num(s[i].ip@)),
    decreases s.len(),
{
    let k = ip_num(s[i].ip@);
    if i == s.len() - 1 {
        assert(s.remove(i) =~= s.drop_last());
        lemma_unique_drop_last(s);
        lemma_entries_contains(s.drop_last(), k);
        assert forall|l: int| 0 <= l < s.drop_last().len() implies ip_num(
            (#[trigger] s.drop_last()[l]).ip@,
        ) != k by {
            assert(s.drop_last()[l] == s[l]);
        }
        assert(!entries(s.drop_last()).dom().contains(k));
        assert(entries(s.drop_last()) =~= entries(s).remove(k));
    } else {
        lemma_unique_drop_last(s);
        assert(s.drop_last()[i] == s[i]);
        lemma_entries_remove(s.drop_last(), i);
        assert(s.remove(i).drop_last() =~= s.drop_last().remove(i));
        assert(s.remove(i).last() == s.last());
        assert(k != ip_num(s.last().ip@));
        assert(entries(s.drop_last()).remove(k).insert(
            ip_num(s.last().ip@),
            (s.last().mac@, s.last().at),
        ) =~= entries(s).remove(k));
    }
}

/// Index of the binding that holds `ip`, if any.
fn find_ip(v: &Vec<Binding>, ip: &IPAddress) -> (r: Option<usize>)
    ensures
        r matches Some(i) ==> i < v@.len() && ip_num(v@[i as int].ip@) == ip_num(ip@),
        r is None ==> !entries(v@).dom().contains(ip_num(ip@)),
{
    let mut i: usize = 0;
    while i < v.len()
        invariant
            i <= v@.len(),
            forall|j: int| 0 <= j < i ==> ip_num((#[trigger] v@[j]).ip@) != ip_num(ip@),
        decreases v@.len() - i,
    {
        if v[i].ip == *ip {
            return Some(i);
        }
        proof {
            lemma_ip_num_injective_contra(v@[i as int].ip@, ip@);
        }
        i = i + 1;
    }
    proof {
        lemma_entries_contains(v@, ip_num(ip@));
    }
    None
}

/// Distinct addresses have distinct numeric values, stated for use after
/// an inequality test.
proof fn lemma_ip_num_injective_contra(s1: Seq<u8>, s2: Seq<u8>)
    requires
        s1.len() == 4,
        s2.len() == 4,
        !(s1 =~= s2),
    ensures
        ip_num(s1) != ip_num(s2),
{
    if ip_num(s1) == ip_num(s2) {
        lemma_ip_num_injective(s1, s2);
    }
}

/// Two MAC addresses whose octets are not extensionally equal have
/// different views.
proof fn lemma_mac_view_neq(a: MACAddress, b: MACAddress)
    requires
        !(a.0@ =~= b.0@),
    ensures
        a@ != b@,
{
    if a@ == b@ {
        assert(a.0@ =~= b.0@);
    }
}

/// Whether some binding of the vector holds `ip`.
fn contains_ip(v: &Vec<Binding>, ip: &IPAddress) -> (r: bool)
    ensures
        r == entries(v@).dom().contains(ip_num(ip@)),
{
    match find_ip(v, ip) {
        Some(i) => {
            proof {
                lemma_entries_contains(v@, ip_num(ip@));
            }
            true
        },
        None => false,
    }
}

/// Filtering a map never adds a key.
proof fn lemma_keep_live_dom(m: Map<int, (Seq<u8>, u64)>, ttl: int, now: u64)
    ensures
        forall|k: int|
            keep_live(m, ttl, now).dom().contains(k) ==> #[trigger] m.dom().contains(k),
{
}

/// The bindings of `v` that are still live at `now`, in order.
fn keep_live_entries(v: &Vec<Binding>, ttl: u64, now: u64) -> (r: Vec<Binding>)
    requires
        unique_ips(v@),
    ensures
        entries(r@) == keep_live(entries(v@), ttl as int, now),
        unique_ips(r@),
        forall|j: int|
            0 <= j < r@.len() ==> exists|l: int|
                0 <= l < v@.len() && (#[trigger] r@[j]) == v@[l],
{
    let mut r: Vec<Binding> = Vec::new();
    let mut i: usize = 0;
    proof {
        assert(v@.subrange(0, 0) =~= Seq::<Binding>::empty());
        assert(entries(r@) =~= keep_live(entries(v@.subrange(0, 0)), ttl as int, now));
    }
    while i < v.len()
        invariant
            i <= v@.len(),
            unique_ips(v@),
            unique_ips(r@),
            entries(r@) == keep_live(entries(v@.subrange(0, i as int)), ttl as int, now),
            forall|j: int|
                0 <= j < r@.len() ==> exists|l: int|
                    0 <= l < v@.len() && (#[trigger] r@[j]) == v@[l],
        decreases v@.len() - i,
    {
        let b_at = v[i].at;
        let ghost k = ip_num(v@[i as int].ip@);
        let ghost val = (v@[i as int].mac@, v@[i as int].at);
        let ghost pre_sub = v@.subrange(0, i as int);
        proof {
            assert(v@.subrange(0, i + 1) =~= pre_sub.push(v@[i as int]));
            lemma_entries_push(pre_sub, v@[i as int]);
            // An address never repeats, so this key is new to the prefix.
            lemma_entries_contains(pre_sub, k);
            assert forall|l: int| 0 <= l < pre_sub.len() implies ip_num(
                (#[trigger] pre_sub[l]).ip@,
            ) != k by {
                assert(pre_sub[l] == v@[l]);
            }
            assert(!entries(pre_sub).dom().contains(k));
        }
        let live = b_at > now || now - b_at < ttl;
        if live {
            let ghost pre_r = r@;
            let b = Binding { ip: v[i].ip, mac: v[i].mac, at: v[i].at };
            r.push(b);
            proof {
                assert(b == v@[i as int]);
                lemma_entries_push(pre_r, b);
                assert(entries(r@) =~= keep_live(
                    entries(v@.subrange(0, i + 1)),
                    ttl as int,
                    now,
                ));
                lemma_entries_contains(pre_r, k);
                lemma_keep_live_dom(entries(pre_sub), ttl as int, now);
                assert forall|a: int, bb: int| 0 <= a < bb < r@.len() implies ip_num(
                    (#[trigger] r@[a]).ip@,
                ) != ip_num((#[trigger] r@[bb]).ip@) by {
                    if bb == r@.len() - 1 {
                        if ip_num(r@[a].ip@) == k {
                            assert(entries(pre_r).dom().contains(k)) by {
                                lemma_entries_contains(pre_r, k);
                            }
                            assert(keep_live(
                                entries(pre_sub),
                                ttl as int,
                                now,
                            ).dom().contains(k));
                            assert(false);
                        }
                    }
                }
            }
        } else {
            proof {
                assert(entries(r@) =~= keep_live(
                    entries(v@.subrange(0, i + 1)),
                    ttl as int,
                    now,
                ));
            }
        }
        i = i + 1;
    }
    proof {
        assert(v@.subrange(0, v@.len() as int) =~= v@);
    }
    r
}

impl Leases {
    /// A fresh manager over the configured range, with no bindings and
    /// the scan hint at the start of the range.
    pub fn new(configuration: &Configuration) -> (r: Self)
        requires
            ip_num(configuration.lease_final_ip@) <= 0xFFFFFFFD,
        ensures
            r.wf(),
            r.leases_map() == Map::<int, (Seq<u8>, u64)>::empty(),
            r.offers_map() == Map::<int, (Seq<u8>, u64)>::empty(),
            r.start == configuration.lease_start_ip,
            r.end == configuration.lease_final_ip,
            r.offer_time == configuration.offer_time,
            r.address_time == configuration.address_time,
            r.renewal_time == configuration.renewal_time,
            r.rebinding_time == configuration.rebinding_time,
            r.next_available_ip == (if ip_num(configuration.lease_start_ip@) <= ip_num(
                configuration.lease_final_ip@,
            ) {
                Some(configuration.lease_start_ip)
            } else {
                None::<IPAddress>
            }),
    {
        let start = configuration.lease_start_ip();
        let end = configuration.lease_final_ip();
        let next_available_ip = if start.le(&end) {
            Some(start)
        } else {
            None
        };
        Leases {
            leases: Vec::new(),
            offers: Vec::new(),
            next_available_ip,
            start,
            end,
            offer_time: configuration.offer_time(),
            address_time: configuration.address_time(),
            renewal_time: configuration.renewal_time(),
            rebinding_time: configuration.rebinding_time(),
        }
    }

    pub fn address_time(&self) -> (r: u32)
        ensures
            r == self.address_time,
    {
        self.address_time
    }

    pub fn renewal_time(&self) -> (r: u32)
        ensures
            r == self.renewal_time,
    {
        self.renewal_time
    }

    pub fn rebinding_time(&self) -> (r: u32)
        ensures
            r == self.rebinding_time,
    {
        self.rebinding_time
    }

    /// Drop every offer and lease whose holding time has passed: an offer
    /// written at `at` survives only while `at + offer_time > now`, a
    /// lease only while `at + address_time > now`.
    pub fn clean_leases(&mut self, now: u64)
        requires
            old(self).wf(),
        ensures
            final(self).wf(),
            final(self).leases_map() == keep_live(
                old(self).leases_map(),
                old(self).address_time as int,
                now,
            ),
            final(self).offers_map() == keep_live(
                old(self).offers_map(),
                old(self).offer_time as int,
                now,
            ),
            final(self).next_available_ip == old(self).next_available_ip,
            final(self).same_config(*old(self)),
    {
        let kept_offers = keep_live_entries(&self.offers, self.offer_time, now);
        let kept_leases = keep_live_entries(&self.leases, self.address_time as u64, now);
        self.offers = kept_offers;
        self.leases = kept_leases;
        proof {
            lemma_keep_live_dom(old(self).leases_map(), old(self).address_time as int, now);
            lemma_keep_live_dom(old(self).offers_map(), old(self).offer_time as int, now);
        }
    }

    /// Hand out the first unbound address found from the scan start, as
    /// `alloc_find` describes it, record a tentative offer for it, and
    /// advance the hint past it. `None` once the scan passes the end of
    /// the range, leaving the bindings unchanged.
    pub fn allocate(&mut self, mac_address: MACAddress, now: u64) -> (r: Option<IPAddress>)
        requires
            old(self).wf(),
        ensures
            final(self).wf(),
            final(self).leases@ == old(self).leases@,
            final(self).same_config(*old(self)),
            match old(self).alloc_find() {
                Some(k) => {
                    &&& r matches Some(ip) && ip_num(ip@) == k
                    &&& old(self).start_n() <= k <= old(self).end_n()
                    &&& final(self).offers_map() == old(self).offers_map().insert(
                        k,
                        (mac_address@, now),
                    )
                    &&& match final(self).next_available_ip {
                        Some(h) => ip_next(k) <= old(self).end_n() && ip_num(h@) == ip_next(k),
                        None => ip_next(k) > old(self).end_n(),
                    }
                },
                None => {
                    &&& r is None
                    &&& final(self).offers@ == old(self).offers@
                    &&& final(self).next_available_ip is None
                },
            },
    {
        let mut cursor = match self.next_available_ip {
            Some(ip) => ip,
            None => self.start,
        };
        loop
            invariant
                *self == *old(self),
                old(self).wf(),
                old(self).start_n() <= ip_num(cursor@),
                first_free(
                    old(self).leases_map(),
                    old(self).offers_map(),
                    old(self).end_n(),
                    ip_num(cursor@),
                ) == old(self).alloc_find(),
            ensures
                *self == *old(self),
                ip_num(cursor@) <= old(self).end_n(),
                old(self).start_n() <= ip_num(cursor@),
                !old(self).leases_map().dom().contains(ip_num(cursor@)),
                !old(self).offers_map().dom().contains(ip_num(cursor@)),
                old(self).alloc_find() == Some(ip_num(cursor@)),
            decreases ff_measure(old(self).end_n(), ip_num(cursor@)),
        {
            if !cursor.le(&self.end) {
                self.next_available_ip = None;
                return None;
            }
            if !contains_ip(&self.leases, &cursor) && !contains_ip(&self.offers, &cursor) {
                break;
            }
            cursor.increament();
        }
        let ghost k = ip_num(cursor@);
        let ghost pre_offers = self.offers@;
        self.offers.push(Binding { ip: cursor, mac: mac_address, at: now });
        proof {
            lemma_entries_push(pre_offers, Binding { ip: cursor, mac: mac_address, at: now });
            lemma_entries_contains(pre_offers, k);
            assert forall|a: int, b: int| 0 <= a < b < self.offers@.len() implies ip_num(
                (#[trigger] self.offers@[a]).ip@,
            ) != ip_num((#[trigger] self.offers@[b]).ip@) by {
                if b == self.offers@.len() - 1 {
                    if ip_num(self.offers@[a].ip@) == k {
                        assert(pre_offers[a] == self.offers@[a]);
                        assert(entries(pre_offers).dom().contains(k));
                        assert(false);
                    }
                } else {
                    assert(pre_offers[a] == self.offers@[a]);
                    assert(pre_offers[b] == self.offers@[b]);
                }
            }
        }
        let mut next = cursor;
        next.increament();
        if next.le(&self.end) {
            self.next_available_ip = Some(next);
        } else {
            self.next_available_ip = None;
        }
        Some(cursor)
    }

    /// Commit `ip_address` to `mac_address`, as `accept_ok` allows it:
    /// the offer for the address is consumed and the lease written at
    /// `now`. Repeating the call with the same arguments succeeds again
    /// and only refreshes the timestamp. On refusal nothing changes.
    pub fn accept_offer(&mut self, ip_address: IPAddress, mac_address: MACAddress, now: u64) -> (r:
        bool)
        requires
            old(self).wf(),
        ensures
            final(self).wf(),
            r == old(self).accept_ok(ip_num(ip_address@), mac_address@),
            r ==> final(self).leases_map() == old(self).leases_map().insert(
                ip_num(ip_address@),
                (mac_address@, now),
            ),
            r ==> final(self).offers_map() == old(self).offers_map().remove(ip_num(ip_address@)),
            r ==> final(self).next_available_ip == old(self).next_available_ip,
            r ==> final(self).same_config(*old(self)),
            !r ==> *final(self) == *old(self),
    {
        let ghost k = ip_num(ip_address@);

        // Verify the address lies in the configured range
        if !(self.start.le(&ip_address) && ip_address.le(&self.end)) {
            return false;
        }

        // Check offers, then leases, for a binding held by another MAC
        match find_ip(&self.offers, &ip_address) {
            Some(i) => {
                proof {
                    lemma_entries_at(self.offers@, i as int);
                    lemma_ip_num_injective(self.offers@[i as int].ip@, ip_address@);
                }
                if !(self.offers[i].mac == mac_address) {
                    proof {
                        lemma_mac_view_neq(self.offers@[i as int].mac, mac_address);
                    }
                    return false;
                }
            },
            None => {
                match find_ip(&self.leases, &ip_address) {
                    Some(i) => {
                        proof {
                            lemma_entries_at(self.leases@, i as int);
                            lemma_ip_num_injective(self.leases@[i as int].ip@, ip_address@);
                        }
                        if !(self.leases[i].mac == mac_address) {
                            proof {
                                lemma_mac_view_neq(self.leases@[i as int].mac, mac_address);
                            }
                            return false;
                        }
                    },
                    None => {},
                }
            },
        }

        // Consume any offer for the address
        let ghost pre_offers = self.offers@;
        match find_ip(&self.offers, &ip_address) {
            Some(i) => {
                proof {
                    lemma_ip_num_injective(self.offers@[i as int].ip@, ip_address@);
                    lemma_entries_remove(self.offers@, i as int);
                }
                self.offers.remove(i);
            },
            None => {
                proof {
                    assert(entries(pre_offers).remove(k) =~= entries(pre_offers));
                }
            },
        }

        // Write the lease
        let ghost pre_leases = self.leases@;
        let b = Binding { ip: ip_address, mac: mac_address, at: now };
        match find_ip(&self.leases, &ip_address) {
            Some(i) => {
                proof {
                    lemma_ip_num_injective(self.leases@[i as int].ip@, ip_address@);
                    lemma_entries_update(self.leases@, i as int, b);
                }
                self.leases.set(i, b);
                proof {
                    assert forall|a: int, c: int| 0 <= a < c < self.leases@.len() implies ip_num(
                        (#[trigger] self.leases@[a]).ip@,
                    ) != ip_num((#[trigger] self.leases@[c]).ip@) by {
                        assert(self.leases@ == pre_leases.update(i as int, b));
                        if a != i && c != i {
                            assert(self.leases@[a] == pre_leases[a]);
                            assert(self.leases@[c] == pre_leases[c]);
                        }
                    }
                }
            },
            None => {
                proof {
                    lemma_entries_push(pre_leases, b);
                    lemma_entries_contains(pre_leases, k);
                }
                self.leases.push(b);
                proof {
                    assert forall|a: int, c: int| 0 <= a < c < self.leases@.len() implies ip_num(
                        (#[trigger] self.leases@[a]).ip@,
                    ) != ip_num((#[trigger] self.leases@[c]).ip@) by {
                        if c == self.leases@.len() - 1 {
                            if ip_num(self.leases@[a].ip@) == k {
                                assert(pre_leases[a] == self.leases@[a]);
                                assert(entries(pre_leases).dom().contains(k));
                                assert(false);
                            }
                        } else {
                            assert(pre_leases[a] == self.leases@[a]);
                            assert(pre_leases[c] == self.leases@[c]);
                        }
                    }
                }
            },
        }
        true
    }

    /// Whether `ip_address` is currently leased to exactly `mac_address`.
    pub fn leased_to(&self, ip_address: &IPAddress, mac_address: &MACAddress) -> (r: bool)
        requires
            self.wf(),
        ensures
            r == (self.leases_map().dom().contains(ip_num(ip_address@))
                && self.leases_map()[ip_num(ip_address@)].0 == mac_address@),
    {
        match find_ip(&self.leases, ip_address) {
            Some(i) => {
                proof {
                    lemma_entries_at(self.leases@, i as int);
                    lemma_ip_num_injective(self.leases@[i as int].ip@, ip_address@);
                }
                if self.leases[i].mac == *mac_address {
                    true
                } else {
                    proof {
                        lemma_mac_view_neq(self.leases@[i as int].mac, *mac_address);
                    }
                    false
                }
            },
            None => false,
        }
    }

    /// Find the committed address held by `mac_address`, if any.
    pub fn get_ip_address(&self, mac_address: MACAddress) -> (r: Option<IPAddress>)
        requires
            self.wf(),
        ensures
            r matches Some(ip) ==> self.leases_map().dom().contains(ip_num(ip@))
                && self.leases_map()[ip_num(ip@)].0 == mac_address@,
            r matches Some(ip) ==> exists|i: int|
                0 <= i < self.leases@.len() && (#[trigger] self.leases@[i]).ip == ip
                    && self.leases@[i].mac@ == mac_address@ && (forall|j: int|
                    0 <= j < i ==> (#[trigger] self.leases@[j]).mac@ != mac_address@),
            r is None ==> forall|k: int|
                self.leases_map().dom().contains(k) ==> (#[trigger] self.leases_map()[k]).0
                    != mac_address@,
    {
        let mut i: usize = 0;
        while i < self.leases.len()
            invariant
                self.wf(),
                i <= self.leases@.len(),
                forall|j: int| 0 <= j < i ==> (#[trigger] self.leases@[j]).mac@ != mac_address@,
            decreases self.leases@.len() - i,
        {
            if self.leases[i].mac == mac_address {
                proof {
                    lemma_entries_at(self.leases@, i as int);
                    assert(self.leases@[i as int].ip == self.leases@[i as int].ip
                        && self.leases@[i as int].mac@ == mac_address@ && (forall|j: int|
                        0 <= j < i ==> (#[trigger] self.leases@[j]).mac@ != mac_address@));
                }
                return Some(self.leases[i].ip);
            }
            proof {
                lemma_mac_view_neq(self.leases@[i as int].mac, mac_address);
            }
            i = i + 1;
        }
        proof {
            assert forall|k: int| self.leases_map().dom().contains(k) implies (
            #[trigger] self.leases_map()[k]).0 != mac_address@ by {
                lemma_entries_contains(self.leases@, k);
                let j = choose|j: int|
                    0 <= j < self.leases@.len() && ip_num((#[trigger] self.leases@[j]).ip@) == k;
                lemma_entries_at(self.leases@, j);
            }
        }
        None
    }

    /// Remove the lease on `ip_address`, but only when it is held by
    /// exactly `mac_address`; otherwise nothing changes.
    pub fn release(&mut self, ip_address: IPAddress, mac_address: MACAddress)
        requires
            old(self).wf(),
        ensures
            final(self).wf(),
            final(self).offers@ == old(self).offers@,
            final(self).next_available_ip == old(self).next_available_ip,
            final(self).same_config(*old(self)),
            final(self).leases_map() == (if old(self).leases_map().dom().contains(
                ip_num(ip_address@),
            ) && old(self).leases_map()[ip_num(ip_address@)].0 == mac_address@ {
                old(self).leases_map().remove(ip_num(ip_address@))
            } else {
                old(self).leases_map()
            }),
    {
        let ghost k = ip_num(ip_address@);
        match find_ip(&self.leases, &ip_address) {
            Some(i) => {
                proof {
                    lemma_entries_at(self.leases@, i as int);
                    lemma_ip_num_injective(self.leases@[i as int].ip@, ip_address@);
                }
                if self.leases[i].mac == mac_address {
                    let ghost pre = self.leases@;
                    proof {
                        lemma_entries_remove(self.leases@, i as int);
                    }
                    self.leases.remove(i);
                    proof {
                        assert forall|a: int, c: int|
                            0 <= a < c < self.leases@.len() implies ip_num(
                            (#[trigger] self.leases@[a]).ip@,
                        ) != ip_num((#[trigger] self.leases@[c]).ip@) by {
                            assert(self.leases@ == pre.remove(i as int));
                            if a < i {
                                assert(self.leases@[a] == pre[a]);
                            } else {
                                assert(self.leases@[a] == pre[a + 1]);
                            }
                            if c < i {
                                assert(self.leases@[c] == pre[c]);
                            } else {
                                assert(self.leases@[c] == pre[c + 1]);
                            }
                        }
                        assert forall|j: int| 0 <= j < self.leases@.len() implies self.start_n()
                            <= ip_num((#[trigger] self.leases@[j]).ip@) <= self.end_n() by {
                            if j < i {
                                assert(self.leases@[j] == pre[j]);
                            } else {
                                assert(self.leases@[j] == pre[j + 1]);
                            }
                        }
                    }
                } else {
                    proof {
                        lemma_mac_view_neq(self.leases@[i as int].mac, mac_address);
                    }
                }
            },
            None => {},
        }
    }

    /// The committed bindings, as owned pairs for status reporting.
    pub fn current_leases(&self) -> (r: Vec<(IPAddress, MACAddress)>)
        ensures
            r@.len() == self.leases@.len(),
            forall|j: int|
                0 <= j < r@.len() ==> (#[trigger] r@[j]).0 == self.leases@[j].ip && r@[j].1
                    == self.leases@[j].mac,
    {
        let mut r: Vec<(IPAddress, MACAddress)> = Vec::new();
        let mut i: usize = 0;
        while i < self.leases.len()
            invariant
                i <= self.leases@.len(),
                r@.len() == i,
                forall|j: int|
                    0 <= j < i ==> (#[trigger] r@[j]).0 == self.leases@[j].ip && r@[j].1
                        == self.leases@[j].mac,
            decreases self.leases@.len() - i,
        {
            r.push((self.leases[i].ip, self.leases[i].mac));
            i = i + 1;
        }
        r
    }
}

/// In every reachable manager state the leased and the offered addresses
/// are disjoint: no address is both tentatively offered and committed.
pub proof fn lemma_leases_offers_disjoint(l: Leases, k: int)
    requires
        l.wf(),
    ensures
        !(l.leases_map().dom().contains(k) && l.offers_map().dom().contains(k)),
{
}

/// Every address bound in either map lies inside the configured range.
pub proof fn lemma_bindings_in_range(l: Leases, k: int)
    requires
        l.wf(),
        l.leases_map().dom().contains(k) || l.offers_map().dom().contains(k),
    ensures
        l.start_n() <= k <= l.end_n(),
{
    if l.leases_map().dom().contains(k) {
        lemma_entries_contains(l.leases@, k);
        let j = choose|j: int|
            0 <= j < l.leases@.len() && ip_num((#[trigger] l.leases@[j]).ip@) == k;
        assert(l.start_n() <= ip_num(l.leases@[j].ip@) <= l.end_n());
    } else {
        lemma_entries_contains(l.offers@, k);
        let j = choose|j: int|
            0 <= j < l.offers@.len() && ip_num((#[trigger] l.offers@[j]).ip@) == k;
        assert(l.start_n() <= ip_num(l.offers@[j].ip@) <= l.end_n());
    }
}

/// After reclamation at `now`, every surviving binding is still live: none
/// has its write instant plus its holding time in the past.
pub proof fn lemma_clean_no_expired(m: Map<int, (Seq<u8>, u64)>, ttl: int, now: u64, k: int)
    requires
        keep_live(m, ttl, now).dom().contains(k),
    ensures
        keep_live(m, ttl, now)[k].1 + ttl > now,
{
}

/// Committing an address to the same MAC twice: the second call is
/// allowed exactly as the first was, and the bindings it leaves differ
/// from the first call's only in the refreshed timestamp.
pub proof fn lemma_accept_offer_idempotent(
    leases: Map<int, (Seq<u8>, u64)>,
    offers: Map<int, (Seq<u8>, u64)>,
    startn: int,
    endn: int,
    k: int,
    m: Seq<u8>,
    t1: u64,
    t2: u64,
)
    requires
        accept_ok_maps(leases, offers, startn, endn, k, m),
    ensures
        accept_ok_maps(leases.insert(k, (m, t1)), offers.remove(k), startn, endn, k, m),
        leases.insert(k, (m, t1)).insert(k, (m, t2)) == leases.insert(k, (m, t2)),
        offers.remove(k).remove(k) == offers.remove(k),
{
    assert(leases.insert(k, (m, t1)).insert(k, (m, t2)) =~= leases.insert(k, (m, t2)));
    assert(offers.remove(k).remove(k) =~= offers.remove(k));
}

/// A released address is bound in neither map, so an allocation scan that
/// reaches it hands exactly it out.
pub proof fn lemma_released_ip_reallocatable(
    leases: Map<int, (Seq<u8>, u64)>,
    offers: Map<int, (Seq<u8>, u64)>,
    endn: int,
    k: int,
)
    requires
        !leases.dom().contains(k),
        !offers.dom().contains(k),
        k <= endn,
    ensures
        first_free(leases, offers, endn, k) == Some(k),
{
}

} // verus!
