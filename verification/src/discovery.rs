//! Hosts found on the local network: what is known of one, and how the
//! findings of several scans become one list.

use vstd::prelude::*;
use vstd::multiset::Multiset;
use vstd::seq_lib::{to_multiset_build, to_multiset_insert};
use vstd::string::StringExecFns;
use crate::text::{
    after_last, before_first, begins_with, chars_of, decimal, decimal_text, find_first, first_of,
    first_word, first_word_of, lines, lines_of, parse_u32, parsed_u32, starts_with, texts,
    text_after_last, text_before_first, text_of,
};

verus! {

/// A host that a scan has found.
#[derive(Clone, Debug, PartialEq, Eq)]
pub struct HostInfo {
    ip: String,
    hostname: Option<String>,
    source: String,
}

/// The mathematical content of a [`HostInfo`].
pub struct HostInfoView {
    pub ip: Seq<char>,
    pub hostname: Option<Seq<char>>,
    pub source: Seq<char>,
}

impl View for HostInfo {
    type V = HostInfoView;

    closed spec fn view(&self) -> HostInfoView {
        HostInfoView { ip: self.ip@, hostname: text_of(self.hostname), source: self.source@ }
    }
}

fn copy_of_text(text: &Option<String>) -> (out: Option<String>)
    ensures
        text_of(out) == text_of(*text),
{
    match text {
        Some(t) => Some(t.clone()),
        None => None,
    }
}

impl HostInfo {
    /// A host with the address `ip`, found by the scan `source`.
    pub fn new(ip: String, hostname: Option<String>, source: String) -> (host: HostInfo)
        ensures
            host@ == (HostInfoView { ip: ip@, hostname: text_of(hostname), source: source@ }),
    {
        HostInfo { ip, hostname, source }
    }

    /// The host's address.
    pub fn ip(&self) -> (ip: &String)
        ensures
            ip@ == self@.ip,
    {
        &self.ip
    }

    /// The host's name, where the scan learned one.
    pub fn hostname(&self) -> (hostname: &Option<String>)
        ensures
            text_of(*hostname) == self@.hostname,
    {
        &self.hostname
    }

    /// The scan that found the host.
    pub fn source(&self) -> (source: &String)
        ensures
            source@ == self@.source,
    {
        &self.source
    }

    fn copy(&self) -> (host: HostInfo)
        ensures
            host@ == self@,
    {
        HostInfo {
            ip: self.ip.clone(),
            hostname: copy_of_text(&self.hostname),
            source: self.source.clone(),
        }
    }
}

/// The contents of a list of hosts.
pub open spec fn views(hosts: Seq<HostInfo>) -> Seq<HostInfoView> {
    hosts.map_values(|h: HostInfo| h@)
}

/// The number by which the merged list is ordered: what stands behind the
/// last dot of the address, read as a decimal number, and 0 where that is no
/// number.
pub open spec fn last_octet(ip: Seq<char>) -> u32 {
    match parsed_u32(after_last(ip, '.')) {
        Some(n) => n,
        None => 0,
    }
}

/// Whether one of `hosts` has the address `ip`.
pub open spec fn knows(hosts: Seq<HostInfoView>, ip: Seq<char>) -> bool {
    exists|i: int| 0 <= i < hosts.len() && (#[trigger] hosts[i]).ip == ip
}

/// The place of a host with the address `ip`, where there is one.
pub open spec fn place_of(hosts: Seq<HostInfoView>, ip: Seq<char>) -> int {
    choose|i: int| 0 <= i < hosts.len() && (#[trigger] hosts[i]).ip == ip
}

/// No address occurs twice.
pub open spec fn ips_distinct(hosts: Seq<HostInfoView>) -> bool {
    forall|i: int, j: int|
        0 <= i < j < hosts.len() ==> (#[trigger] hosts[i]).ip != (#[trigger] hosts[j]).ip
}

/// `hosts` with `host` added, unless its address is known already.
pub open spec fn with_new(hosts: Seq<HostInfoView>, host: HostInfoView) -> Seq<HostInfoView> {
    if knows(hosts, host.ip) {
        hosts
    } else {
        hosts.push(host)
    }
}

/// `hosts` with `host` in the place of the host that had its address, or
/// added where there was none.
pub open spec fn with_latest(hosts: Seq<HostInfoView>, host: HostInfoView) -> Seq<HostInfoView> {
    if knows(hosts, host.ip) {
        hosts.update(place_of(hosts, host.ip), host)
    } else {
        hosts.push(host)
    }
}

/// `hosts` with each of `more` added in turn, the known ones passed over.
pub open spec fn absorb_new(hosts: Seq<HostInfoView>, more: Seq<HostInfoView>) -> Seq<HostInfoView>
    decreases more.len(),
{
    if more.len() == 0 {
        hosts
    } else {
        with_new(absorb_new(hosts, more.drop_last()), more.last())
    }
}

/// `hosts` with each of `more` added in turn, a later one replacing an
/// earlier one of the same address.
pub open spec fn absorb_latest(hosts: Seq<HostInfoView>, more: Seq<HostInfoView>) -> Seq<
    HostInfoView,
>
    decreases more.len(),
{
    if more.len() == 0 {
        hosts
    } else {
        with_latest(absorb_latest(hosts, more.drop_last()), more.last())
    }
}

/// The hosts of three scans as one list without repeated addresses. What
/// the name service found comes first, a later finding replacing an earlier
/// one; what the neighbour table and then the port scan found is added only
/// where the address is new.
pub open spec fn merged(
    mdns: Seq<HostInfoView>,
    arp: Seq<HostInfoView>,
    tcp: Seq<HostInfoView>,
) -> Seq<HostInfoView> {
    absorb_new(absorb_new(absorb_latest(Seq::empty(), mdns), arp), tcp)
}

/// `hosts` with `host` added in one of the two ways.
pub open spec fn added(hosts: Seq<HostInfoView>, host: HostInfoView, replace: bool) -> Seq<
    HostInfoView,
> {
    if replace {
        with_latest(hosts, host)
    } else {
        with_new(hosts, host)
    }
}

/// `hosts` with each of `more` added in one of the two ways.
pub open spec fn absorbed(hosts: Seq<HostInfoView>, more: Seq<HostInfoView>, replace: bool) -> Seq<
    HostInfoView,
> {
    if replace {
        absorb_latest(hosts, more)
    } else {
        absorb_new(hosts, more)
    }
}

/// Adding a host leaves no address twice, makes the host's address known and
/// forgets none; and the list then holds only what it held and the host.
pub proof fn lemma_added(hosts: Seq<HostInfoView>, host: HostInfoView, replace: bool)
    requires
        ips_distinct(hosts),
    ensures
        ips_distinct(added(hosts, host, replace)),
        knows(added(hosts, host, replace), host.ip),
        forall|ip: Seq<char>| #[trigger]
            knows(hosts, ip) ==> knows(added(hosts, host, replace), ip),
        forall|i: int|
            0 <= i < added(hosts, host, replace).len() ==> hosts.contains(
                #[trigger] added(hosts, host, replace)[i],
            ) || added(hosts, host, replace)[i] == host,
{
    let after = added(hosts, host, replace);
    if knows(hosts, host.ip) {
        let at = place_of(hosts, host.ip);
        assert(after[at].ip == host.ip);
        assert forall|a: int, b: int| 0 <= a < b < after.len() implies (#[trigger] after[a]).ip != (
        #[trigger] after[b]).ip by {
            assert(hosts[a].ip != hosts[b].ip);
        }
        assert forall|ip: Seq<char>| #[trigger] knows(hosts, ip) implies knows(after, ip) by {
            let k = place_of(hosts, ip);
            assert(after[k].ip == ip);
        }
        assert forall|i: int| 0 <= i < after.len() implies hosts.contains(#[trigger] after[i])
            || after[i] == host by {
            if after[i] != host {
                assert(hosts[i] == after[i]);
            }
        }
    } else {
        assert(after == hosts.push(host));
        assert(after[hosts.len() as int].ip == host.ip);
        assert forall|a: int, b: int| 0 <= a < b < after.len() implies (#[trigger] after[a]).ip != (
        #[trigger] after[b]).ip by {
            if b < hosts.len() {
                assert(hosts[a].ip != hosts[b].ip);
            } else {
                assert(hosts[a].ip != host.ip);
            }
        }
        assert forall|ip: Seq<char>| #[trigger] knows(hosts, ip) implies knows(after, ip) by {
            let k = place_of(hosts, ip);
            assert(after[k].ip == ip);
        }
        assert forall|i: int| 0 <= i < after.len() implies hosts.contains(#[trigger] after[i])
            || after[i] == host by {
            if i < hosts.len() {
                assert(hosts[i] == after[i]);
            }
        }
    }
}

/// Adding a list of hosts leaves no address twice, makes the address of
/// each known and forgets none; and the list then holds only what it held
/// and what was added.
pub proof fn lemma_absorbed(hosts: Seq<HostInfoView>, more: Seq<HostInfoView>, replace: bool)
    requires
        ips_distinct(hosts),
    ensures
        ips_distinct(absorbed(hosts, more, replace)),
        forall|i: int|
            0 <= i < more.len() ==> knows(absorbed(hosts, more, replace), (#[trigger] more[i]).ip),
        forall|ip: Seq<char>| #[trigger]
            knows(hosts, ip) ==> knows(absorbed(hosts, more, replace), ip),
        forall|i: int|
            0 <= i < absorbed(hosts, more, replace).len() ==> hosts.contains(
                #[trigger] absorbed(hosts, more, replace)[i],
            ) || more.contains(absorbed(hosts, more, replace)[i]),
    decreases more.len(),
{
    if more.len() > 0 {
        let head = more.drop_last();
        let middle = absorbed(hosts, head, replace);
        let after = absorbed(hosts, more, replace);
        assert(after == added(middle, more.last(), replace));
        lemma_absorbed(hosts, head, replace);
        lemma_added(middle, more.last(), replace);
        assert forall|i: int| 0 <= i < more.len() implies knows(after, (#[trigger] more[i]).ip) by {
            if i < head.len() {
                assert(head[i] == more[i]);
                assert(knows(middle, head[i].ip));
            }
        }
        assert forall|ip: Seq<char>| #[trigger] knows(hosts, ip) implies knows(after, ip) by {
            assert(knows(middle, ip));
        }
        assert forall|i: int| 0 <= i < after.len() implies hosts.contains(#[trigger] after[i])
            || more.contains(after[i]) by {
            if after[i] == more.last() {
                assert(more[more.len() - 1] == after[i]);
            } else {
                assert(middle.contains(after[i]));
                let k = choose|k: int| 0 <= k < middle.len() && middle[k] == after[i];
                if !hosts.contains(middle[k]) {
                    assert(head.contains(middle[k]));
                    let j = choose|j: int| 0 <= j < head.len() && head[j] == middle[k];
                    assert(more[j] == after[i]);
                }
            }
        }
    }
}

/// The merged list holds no address twice, knows every address that one of
/// the scans found, and holds nothing that no scan found.
pub proof fn lemma_merged(mdns: Seq<HostInfoView>, arp: Seq<HostInfoView>, tcp: Seq<HostInfoView>)
    ensures
        ips_distinct(merged(mdns, arp, tcp)),
        forall|i: int| 0 <= i < mdns.len() ==> knows(merged(mdns, arp, tcp), (#[trigger] mdns[i]).ip),
        forall|i: int| 0 <= i < arp.len() ==> knows(merged(mdns, arp, tcp), (#[trigger] arp[i]).ip),
        forall|i: int| 0 <= i < tcp.len() ==> knows(merged(mdns, arp, tcp), (#[trigger] tcp[i]).ip),
        forall|i: int|
            0 <= i < merged(mdns, arp, tcp).len() ==> {
                let host = #[trigger] merged(mdns, arp, tcp)[i];
                mdns.contains(host) || arp.contains(host) || tcp.contains(host)
            },
{
    let none = Seq::<HostInfoView>::empty();
    let first = absorb_latest(none, mdns);
    let second = absorb_new(first, arp);
    let third = absorb_new(second, tcp);
    lemma_absorbed(none, mdns, true);
    lemma_absorbed(first, arp, false);
    lemma_absorbed(second, tcp, false);
    assert(first == absorbed(none, mdns, true));
    assert(second == absorbed(first, arp, false));
    assert(third == absorbed(second, tcp, false));
    assert forall|i: int| 0 <= i < mdns.len() implies knows(third, (#[trigger] mdns[i]).ip) by {
        assert(knows(first, mdns[i].ip));
        assert(knows(second, mdns[i].ip));
    }
    assert forall|i: int| 0 <= i < arp.len() implies knows(third, (#[trigger] arp[i]).ip) by {
        assert(knows(second, arp[i].ip));
    }
    assert forall|i: int| 0 <= i < third.len() implies {
        let host = #[trigger] third[i];
        mdns.contains(host) || arp.contains(host) || tcp.contains(host)
    } by {
        let host = third[i];
        if !tcp.contains(host) {
            assert(second.contains(host));
            let k = choose|k: int| 0 <= k < second.len() && second[k] == host;
            if !arp.contains(second[k]) {
                assert(first.contains(second[k]));
                let j = choose|j: int| 0 <= j < first.len() && first[j] == host;
                assert(none.contains(first[j]) || mdns.contains(first[j]));
                assert(!none.contains(first[j]));
            }
        }
    }
}

/// Whether `hosts` stand in the order of their last octets.
pub open spec fn ordered_by_last_octet(hosts: Seq<HostInfoView>) -> bool {
    forall|i: int, j: int|
        0 <= i <= j < hosts.len() ==> last_octet((#[trigger] hosts[i]).ip) <= last_octet(
            (#[trigger] hosts[j]).ip,
        )
}

/// The number behind the last dot of `ip`, or 0.
pub fn last_octet_of(ip: &str) -> (n: u32)
    ensures
        n == last_octet(ip@),
{
    let tail = text_after_last(ip, '.');
    match parse_u32(tail.as_str()) {
        Some(n) => n,
        None => 0,
    }
}

/// Hosts by address: no address twice, in the order in which the addresses
/// were first seen.
pub struct HostTable {
    hosts: Vec<HostInfo>,
}

impl View for HostTable {
    type V = Seq<HostInfoView>;

    closed spec fn view(&self) -> Seq<HostInfoView> {
        views(self.hosts@)
    }
}

impl HostTable {
    #[verifier::type_invariant]
    spec fn well_formed(self) -> bool {
        ips_distinct(views(self.hosts@))
    }

    /// A table without hosts.
    pub fn new() -> (table: HostTable)
        ensures
            table@ == Seq::<HostInfoView>::empty(),
    {
        let table = HostTable { hosts: Vec::new() };
        assert(table@ =~= Seq::<HostInfoView>::empty());
        table
    }

    /// How many hosts the table holds.
    pub fn len(&self) -> (n: usize)
        ensures
            n == self@.len(),
            ips_distinct(self@),
    {
        proof {
            use_type_invariant(self);
        }
        self.hosts.len()
    }

    fn find(&self, ip: &String) -> (r: Option<usize>)
        ensures
            ips_distinct(self@),
            match r {
                Some(i) => knows(self@, ip@) && i == place_of(self@, ip@) && i < self@.len(),
                None => !knows(self@, ip@),
            },
    {
        proof {
            use_type_invariant(self);
        }
        let mut i: usize = 0;
        while i < self.hosts.len()
            invariant
                i <= self.hosts.len(),
                ips_distinct(self@),
                forall|k: int| 0 <= k < i ==> (#[trigger] self@[k]).ip != ip@,
            decreases self.hosts.len() - i,
        {
            if self.hosts[i].ip == *ip {
                assert(self@[i as int].ip == ip@);
                return Some(i);
            }
            i += 1;
        }
        None
    }

    /// Whether the table holds a host with the address `ip`.
    pub fn contains_key(&self, ip: &String) -> (known: bool)
        ensures
            known == knows(self@, ip@),
    {
        self.find(ip).is_some()
    }

    /// The host with the address `ip`.
    pub fn get(&self, ip: &String) -> (found: Option<&HostInfo>)
        ensures
            match found {
                Some(host) => knows(self@, ip@) && host@ == self@[place_of(self@, ip@)],
                None => !knows(self@, ip@),
            },
    {
        match self.find(ip) {
            Some(i) => Some(&self.hosts[i]),
            None => None,
        }
    }

    /// Adds `host` unless a host with its address is there already.
    pub fn insert_new(&mut self, host: HostInfo)
        ensures
            final(self)@ == with_new(old(self)@, host@),
    {
        let ghost before = self@;
        match self.find(&host.ip) {
            Some(_) => {},
            None => {
                let mut hosts: Vec<HostInfo> = Vec::new();
                std::mem::swap(&mut hosts, &mut self.hosts);
                hosts.push(host);
                assert(views(hosts@) =~= before.push(host@));
                assert forall|a: int, b: int| 0 <= a < b < hosts@.len() implies (#[trigger] views(
                    hosts@,
                )[a]).ip != (#[trigger] views(hosts@)[b]).ip by {
                    if b < before.len() {
                        assert(before[a].ip != before[b].ip);
                    } else {
                        assert(before[a].ip != host@.ip);
                    }
                }
                self.hosts = hosts;
            },
        }
    }

    /// Adds `host`, in the place of the host with its address where there is
    /// one.
    pub fn insert(&mut self, host: HostInfo)
        ensures
            final(self)@ == with_latest(old(self)@, host@),
    {
        let ghost before = self@;
        let ghost added = host@;
        let found = self.find(&host.ip);
        let mut hosts: Vec<HostInfo> = Vec::new();
        std::mem::swap(&mut hosts, &mut self.hosts);
        match found {
            Some(i) => {
                hosts.set(i, host);
                assert(views(hosts@) =~= before.update(i as int, added));
                assert forall|a: int, b: int| 0 <= a < b < hosts@.len() implies (#[trigger] views(
                    hosts@,
                )[a]).ip != (#[trigger] views(hosts@)[b]).ip by {
                    assert(before[a].ip != before[b].ip);
                }
            },
            None => {
                hosts.push(host);
                assert(views(hosts@) =~= before.push(added));
                assert forall|a: int, b: int| 0 <= a < b < hosts@.len() implies (#[trigger] views(
                    hosts@,
                )[a]).ip != (#[trigger] views(hosts@)[b]).ip by {
                    if b < before.len() {
                        assert(before[a].ip != before[b].ip);
                    } else {
                        assert(before[a].ip != added.ip);
                    }
                }
            },
        }
        self.hosts = hosts;
    }

    /// Adds each of `more` in turn, the known addresses passed over.
    pub fn extend_new(&mut self, more: &Vec<HostInfo>)
        ensures
            final(self)@ == absorb_new(old(self)@, views(more@)),
    {
        let mut i: usize = 0;
        assert(views(more@).take(0) =~= Seq::<HostInfoView>::empty());
        while i < more.len()
            invariant
                i <= more.len(),
                self@ == absorb_new(old(self)@, views(more@).take(i as int)),
            decreases more.len() - i,
        {
            self.insert_new(more[i].copy());
            proof {
                let next = views(more@).take(i + 1);
                assert(next.drop_last() =~= views(more@).take(i as int));
                assert(next.last() == more@[i as int]@);
            }
            i += 1;
        }
        assert(views(more@).take(i as int) =~= views(more@));
    }

    /// Adds each of `more` in turn, a later host replacing an earlier one of
    /// the same address.
    pub fn extend_latest(&mut self, more: &Vec<HostInfo>)
        ensures
            final(self)@ == absorb_latest(old(self)@, views(more@)),
    {
        let mut i: usize = 0;
        assert(views(more@).take(0) =~= Seq::<HostInfoView>::empty());
        while i < more.len()
            invariant
                i <= more.len(),
                self@ == absorb_latest(old(self)@, views(more@).take(i as int)),
            decreases more.len() - i,
        {
            self.insert(more[i].copy());
            proof {
                let next = views(more@).take(i + 1);
                assert(next.drop_last() =~= views(more@).take(i as int));
                assert(next.last() == more@[i as int]@);
            }
            i += 1;
        }
        assert(views(more@).take(i as int) =~= views(more@));
    }

    /// The hosts of the table, in its order.
    pub fn into_values(self) -> (hosts: Vec<HostInfo>)
        ensures
            views(hosts@) == self@,
            ips_distinct(views(hosts@)),
    {
        proof {
            use_type_invariant(&self);
        }
        self.hosts
    }
}

proof fn lemma_nothing_in_none(hosts: Seq<HostInfoView>)
    requires
        hosts.len() == 0,
    ensures
        hosts.to_multiset() == Multiset::<HostInfoView>::empty(),
{
    hosts.to_multiset_ensures();
    assert forall|h: HostInfoView| hosts.to_multiset().count(h) == 0 by {
        assert(!hosts.contains(h));
    }
    assert(hosts.to_multiset() =~= Multiset::<HostInfoView>::empty());
}

/// Orders `hosts` by their last octets. Hosts with equal last octets keep
/// the order they came in.
pub fn sort_by_last_octet(hosts: Vec<HostInfo>) -> (out: Vec<HostInfo>)
    ensures
        views(out@).to_multiset() == views(hosts@).to_multiset(),
        ordered_by_last_octet(views(out@)),
{
    let mut rest = hosts;
    let mut out: Vec<HostInfo> = Vec::new();
    let mut keys: Vec<u32> = Vec::new();
    proof {
        lemma_nothing_in_none(views(out@));
        assert(views(out@).to_multiset().add(views(rest@).to_multiset()) =~= views(
            hosts@,
        ).to_multiset());
    }
    while rest.len() > 0
        invariant
            keys@.len() == out@.len(),
            forall|k: int| 0 <= k < out@.len() ==> #[trigger] keys@[k] == last_octet(
                views(out@)[k].ip,
            ),
            forall|a: int, b: int| 0 <= a <= b < keys@.len() ==> keys@[a] <= keys@[b],
            views(out@).to_multiset().add(views(rest@).to_multiset()) == views(
                hosts@,
            ).to_multiset(),
        decreases rest.len(),
    {
        let ghost rest_before = views(rest@);
        let ghost out_before = views(out@);
        let ghost keys_before = keys@;
        let host = rest.pop().unwrap();
        let key = last_octet_of(host.ip.as_str());
        let mut at: usize = 0;
        while at < keys.len() && keys[at] < key
            invariant
                at <= keys.len(),
                forall|k: int| 0 <= k < at ==> keys@[k] < key,
            decreases keys.len() - at,
        {
            at += 1;
        }
        out.insert(at, host);
        keys.insert(at, key);
        proof {
            assert(rest_before =~= views(rest@).push(host@));
            to_multiset_build(views(rest@), host@);
            assert(views(out@) =~= out_before.insert(at as int, host@));
            to_multiset_insert(out_before, at as int, host@);
            assert(views(out@).to_multiset().add(views(rest@).to_multiset()) =~= out_before.to_multiset().add(
                rest_before.to_multiset(),
            ));
            assert forall|k: int| 0 <= k < out@.len() implies #[trigger] keys@[k] == last_octet(
                views(out@)[k].ip,
            ) by {
                if k < at {
                    assert(keys@[k] == keys_before[k]);
                } else if k > at {
                    assert(keys@[k] == keys_before[k - 1]);
                }
            }
            assert forall|a: int, b: int| 0 <= a <= b < keys@.len() implies keys@[a] <= keys@[b] by {
                let a0 = if a < at { a } else { a - 1 };
                let b0 = if b < at { b } else { b - 1 };
                if a != at && b != at {
                    assert(keys_before[a0] <= keys_before[b0]);
                } else if a == at && b != at {
                    assert(keys_before[at as int] <= keys_before[b0]);
                }
            }
        }
    }
    proof {
        lemma_nothing_in_none(views(rest@));
        assert(views(out@).to_multiset().add(views(rest@).to_multiset()) =~= views(
            out@,
        ).to_multiset());
        assert forall|i: int, j: int| 0 <= i <= j < out@.len() implies last_octet(
            (#[trigger] views(out@)[i]).ip,
        ) <= last_octet((#[trigger] views(out@)[j]).ip) by {
            assert(keys@[i] <= keys@[j]);
        }
    }
    out
}


/// A list in another order still holds no address twice.
pub proof fn lemma_reordered_is_distinct(hosts: Seq<HostInfoView>, reordered: Seq<HostInfoView>)
    requires
        ips_distinct(hosts),
        hosts.to_multiset() == reordered.to_multiset(),
    ensures
        ips_distinct(reordered),
{
    assert forall|i: int, j: int| 0 <= i < hosts.len() && 0 <= j < hosts.len() && i != j implies hosts[i]
        != hosts[j] by {
        if i < j {
            assert(hosts[i].ip != hosts[j].ip);
        } else {
            assert(hosts[j].ip != hosts[i].ip);
        }
    }
    hosts.lemma_multiset_has_no_duplicates();
    reordered.lemma_multiset_has_no_duplicates_conv();
    hosts.to_multiset_ensures();
    reordered.to_multiset_ensures();
    assert forall|i: int, j: int| 0 <= i < j < reordered.len() implies (#[trigger] reordered[i]).ip
        != (#[trigger] reordered[j]).ip by {
        assert(reordered.contains(reordered[i]));
        assert(reordered.contains(reordered[j]));
        assert(reordered.to_multiset().count(reordered[i]) > 0);
        assert(reordered.to_multiset().count(reordered[j]) > 0);
        assert(hosts.to_multiset().count(reordered[i]) > 0);
        assert(hosts.to_multiset().count(reordered[j]) > 0);
        assert(hosts.contains(reordered[i]));
        assert(hosts.contains(reordered[j]));
        let p = choose|p: int| 0 <= p < hosts.len() && hosts[p] == reordered[i];
        let q = choose|q: int| 0 <= q < hosts.len() && hosts[q] == reordered[j];
        assert(reordered[i] != reordered[j]);
        if p < q {
            assert(hosts[p].ip != hosts[q].ip);
        } else {
            assert(hosts[q].ip != hosts[p].ip);
        }
    }
}

/// The findings of the three scans as one list: no address twice, ordered by
/// last octet.
pub fn merge_hosts(mdns: &Vec<HostInfo>, arp: &Vec<HostInfo>, tcp: &Vec<HostInfo>) -> (out: Vec<
    HostInfo,
>)
    ensures
        views(out@).to_multiset() == merged(views(mdns@), views(arp@), views(tcp@)).to_multiset(),
        ordered_by_last_octet(views(out@)),
        ips_distinct(views(out@)),
{
    let mut table = HostTable::new();
    table.extend_latest(mdns);
    table.extend_new(arp);
    table.extend_new(tcp);
    let unordered = table.into_values();
    let out = sort_by_last_octet(unordered);
    proof {
        lemma_reordered_is_distinct(views(unordered@), views(out@));
    }
    out
}


/// Whether `ip` begins like an address of a local network: with `192.`,
/// `10.` or `172.`.
pub open spec fn in_local_range(ip: Seq<char>) -> bool {
    begins_with(ip, "192."@) || begins_with(ip, "10."@) || begins_with(ip, "172."@)
}

/// What one line of the neighbour table says, if anything: the address that
/// stands between the first `(` and the first `)`, where it is in the local
/// range, and the name in front, which is the line's first word unless the
/// line begins with `?`.
pub open spec fn arp_candidate(line: Seq<char>) -> Option<(Seq<char>, Option<Seq<char>>)> {
    let open = first_of(line, '(');
    let close = first_of(line, ')');
    if 0 <= open < close < line.len() {
        let ip = line.subrange(open + 1, close);
        if in_local_range(ip) {
            Some(
                (
                    ip,
                    if line[0] == '?' {
                        None
                    } else {
                        first_word(line)
                    },
                ),
            )
        } else {
            None
        }
    } else {
        None
    }
}

/// The contents of a candidate.
pub open spec fn candidate_view(c: Option<(String, Option<String>)>) -> Option<
    (Seq<char>, Option<Seq<char>>),
> {
    match c {
        Some((ip, hostname)) => Some((ip@, text_of(hostname))),
        None => None,
    }
}

/// Reads one line of the neighbour table. A line whose first `)` does not
/// stand behind its first `(` says nothing.
pub fn parse_arp_line(line: &str) -> (found: Option<(String, Option<String>)>)
    ensures
        candidate_view(found) == arp_candidate(line@),
{
    let chars = chars_of(line);
    let open = find_first(&chars, '(');
    let close = find_first(&chars, ')');
    if !(open < close && close < chars.len()) {
        return None;
    }
    let ip = line.substring_char(open + 1, close).to_owned();
    let ip_chars = chars_of(ip.as_str());
    let local = starts_with(&ip_chars, &chars_of("192.")) || starts_with(&ip_chars, &chars_of("10."))
        || starts_with(&ip_chars, &chars_of("172."));
    if !local {
        return None;
    }
    let hostname = if chars[0] == '?' {
        None
    } else {
        first_word_of(line)
    };
    Some((ip, hostname))
}

/// What the lines `lines` say, in their order.
pub open spec fn arp_candidates(lines: Seq<Seq<char>>) -> Seq<(Seq<char>, Option<Seq<char>>)>
    decreases lines.len(),
{
    if lines.len() == 0 {
        Seq::empty()
    } else {
        match arp_candidate(lines.last()) {
            Some(c) => arp_candidates(lines.drop_last()).push(c),
            None => arp_candidates(lines.drop_last()),
        }
    }
}

/// The contents of a list of candidates.
pub open spec fn candidate_views(list: Seq<(String, Option<String>)>) -> Seq<
    (Seq<char>, Option<Seq<char>>),
> {
    list.map_values(|c: (String, Option<String>)| (c.0@, text_of(c.1)))
}

/// Reads the neighbour table as `arp -a` prints it: the addresses to probe,
/// each with the name that the table gives it.
pub fn parse_arp_table(output: &str) -> (found: Vec<(String, Option<String>)>)
    ensures
        candidate_views(found@) == arp_candidates(lines_of(output@)),
{
    let all = lines(output);
    let mut found: Vec<(String, Option<String>)> = Vec::new();
    let mut i: usize = 0;
    assert(candidate_views(found@) =~= Seq::empty());
    assert(texts(all@).take(0) =~= Seq::<Seq<char>>::empty());
    while i < all.len()
        invariant
            i <= all.len(),
            candidate_views(found@) == arp_candidates(texts(all@).take(i as int)),
        decreases all.len() - i,
    {
        let ghost before = candidate_views(found@);
        let candidate = parse_arp_line(all[i].as_str());
        proof {
            let next = texts(all@).take(i + 1);
            assert(next.drop_last() =~= texts(all@).take(i as int));
            assert(next.last() == all@[i as int]@);
        }
        match candidate {
            Some(c) => {
                found.push(c);
                assert(candidate_views(found@) =~= before.push((c.0@, text_of(c.1))));
            },
            None => {},
        }
        i += 1;
    }
    assert(texts(all@).take(i as int) =~= texts(all@));
    found
}

/// The host that a neighbour which answered the ping is recorded as.
pub fn arp_host(ip: String, hostname: Option<String>) -> (host: HostInfo)
    ensures
        host@ == (HostInfoView { ip: ip@, hostname: text_of(hostname), source: "ARP"@ }),
{
    HostInfo::new(ip, hostname, "ARP".to_owned())
}

/// `prefix`, a dot and `n` in base ten.
pub open spec fn dotted(prefix: Seq<char>, n: nat) -> Seq<char> {
    prefix + seq!['.'] + decimal(n)
}

/// The first three numbers of an address, with dots between them.
pub open spec fn subnet_of(a: u8, b: u8, c: u8) -> Seq<char> {
    dotted(dotted(decimal(a as nat), b as nat), c as nat)
}

fn add_number(prefix: String, n: u8) -> (out: String)
    ensures
        out@ == dotted(prefix@, n as nat),
{
    proof {
        reveal_strlit(".");
    }
    let mut out = prefix;
    out.append(".");
    let number = decimal_text(n as u32);
    out.append(number.as_str());
    assert(out@ =~= dotted(prefix@, n as nat));
    out
}

/// The subnet of the address `a.b.c.d`: `a.b.c`.
pub fn subnet_prefix(a: u8, b: u8, c: u8) -> (out: String)
    ensures
        out@ == subnet_of(a, b, c),
{
    add_number(add_number(decimal_text(a as u32), b), c)
}

/// The addresses `subnet.1` to `subnet.n` that `known` does not hold, in
/// rising order.
pub open spec fn candidates_upto(subnet: Seq<char>, known: Seq<HostInfoView>, n: nat) -> Seq<
    Seq<char>,
>
    decreases n,
{
    if n == 0 {
        Seq::empty()
    } else {
        let rest = candidates_upto(subnet, known, (n - 1) as nat);
        if knows(known, dotted(subnet, n)) {
            rest
        } else {
            rest.push(dotted(subnet, n))
        }
    }
}

/// The addresses of `subnet` that a port scan has to try: `subnet.1` to
/// `subnet.254` without those that `known` holds.
pub fn subnet_candidates(subnet: &str, known: &HostTable) -> (out: Vec<String>)
    ensures
        texts(out@) == candidates_upto(subnet@, known@, 254),
{
    let mut out: Vec<String> = Vec::new();
    let mut n: u8 = 0;
    assert(texts(out@) =~= Seq::<Seq<char>>::empty());
    while n < 254
        invariant
            n <= 254,
            texts(out@) == candidates_upto(subnet@, known@, n as nat),
        decreases 254 - n,
    {
        n += 1;
        let ip = add_number(subnet.to_owned(), n);
        if !known.contains_key(&ip) {
            let ghost before = texts(out@);
            out.push(ip);
            assert(texts(out@) =~= before.push(ip@));
        }
    }
    out
}

/// The ports that tell a host when one of them takes a connection, in the
/// order in which they are tried.
pub open spec fn probe_ports() -> Seq<u16> {
    seq![445u16, 139u16, 135u16, 3389u16, 22u16, 80u16, 443u16, 5985u16, 8080u16, 3306u16, 5432u16]
}

/// The ports to try on each address.
pub fn common_ports() -> (ports: Vec<u16>)
    ensures
        ports@ == probe_ports(),
{
    let mut ports: Vec<u16> = Vec::new();
    ports.push(445);
    ports.push(139);
    ports.push(135);
    ports.push(3389);
    ports.push(22);
    ports.push(80);
    ports.push(443);
    ports.push(5985);
    ports.push(8080);
    ports.push(3306);
    ports.push(5432);
    assert(ports@ =~= probe_ports());
    ports
}

/// What a probe of `ip` comes to: a host found by `TCP` where one of the
/// ports took a connection, else one found by `Ping` where the ping was
/// answered, else nothing.
pub open spec fn probe_result(ip: Seq<char>, port_open: bool, pinged: bool) -> Option<
    HostInfoView,
> {
    if port_open {
        Some(HostInfoView { ip, hostname: None, source: "TCP"@ })
    } else if pinged {
        Some(HostInfoView { ip, hostname: None, source: "Ping"@ })
    } else {
        None
    }
}

/// The contents of a verdict.
pub open spec fn verdict_view(host: Option<HostInfo>) -> Option<HostInfoView> {
    match host {
        Some(h) => Some(h@),
        None => None,
    }
}

/// Records what a probe of `ip` has come to.
pub fn probe_verdict(ip: String, port_open: bool, pinged: bool) -> (host: Option<HostInfo>)
    ensures
        verdict_view(host) == probe_result(ip@, port_open, pinged),
{
    if port_open {
        Some(HostInfo::new(ip, None, "TCP".to_owned()))
    } else if pinged {
        Some(HostInfo::new(ip, None, "Ping".to_owned()))
    } else {
        None
    }
}

/// The service types that the name service is asked for, in order.
pub open spec fn browsed_services() -> Seq<Seq<char>> {
    seq![
        "_http._tcp.local."@,
        "_https._tcp.local."@,
        "_ssh._tcp.local."@,
        "_smb._tcp.local."@,
        "_workstation._tcp.local."@,
        "_device-info._tcp.local."@,
        "_googlecast._tcp.local."@,
        "_airplay._tcp.local."@,
        "_raop._tcp.local."@,
        "_printer._tcp.local."@,
        "_ipp._tcp.local."@,
    ]
}

/// The contents of a list of static texts.
pub open spec fn names(list: Seq<&'static str>) -> Seq<Seq<char>> {
    list.map_values(|t: &'static str| t@)
}

/// The service types to browse.
pub fn service_types() -> (types: Vec<&'static str>)
    ensures
        names(types@) == browsed_services(),
{
    let mut types: Vec<&'static str> = Vec::new();
    types.push("_http._tcp.local.");
    types.push("_https._tcp.local.");
    types.push("_ssh._tcp.local.");
    types.push("_smb._tcp.local.");
    types.push("_workstation._tcp.local.");
    types.push("_device-info._tcp.local.");
    types.push("_googlecast._tcp.local.");
    types.push("_airplay._tcp.local.");
    types.push("_raop._tcp.local.");
    types.push("_printer._tcp.local.");
    types.push("_ipp._tcp.local.");
    assert(names(types@) =~= browsed_services());
    types
}

/// The host that a resolved service at `ip` is recorded as: its name is
/// what stands before the first dot of the service's full name.
pub fn mdns_host(ip: String, fullname: &str) -> (host: HostInfo)
    ensures
        host@ == (HostInfoView {
            ip: ip@,
            hostname: Some(before_first(fullname@, '.')),
            source: "mDNS"@,
        }),
{
    HostInfo::new(ip, Some(text_before_first(fullname, '.')), "mDNS".to_owned())
}

} // verus!
