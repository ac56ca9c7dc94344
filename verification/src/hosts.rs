//! The table of hosts seen on the link: each protocol address once, in the
//! order of first sighting, with the hardware address once it is known.

use vstd::prelude::*;
use vstd::string::StringSliceAdditionalSpecFns;
use crate::addr::{HwAddr, ProtoAddr};
use crate::text::{index_of, parse_index, same_text};

verus! {

/// One row of the table. `mac` is `None` while the host has only been asked
/// for and has not answered yet.
#[derive(Clone, Copy, Debug, PartialEq, Eq)]
pub struct HostEntry {
    pub addr: ProtoAddr,
    pub mac: Option<HwAddr>,
}

/// Whether `addr` has a row in `hosts`.
pub open spec fn known(hosts: Seq<HostEntry>, addr: ProtoAddr) -> bool {
    exists|i: int| 0 <= i < hosts.len() && (#[trigger] hosts[i]).addr == addr
}

/// The row of `addr`, where it has one.
pub open spec fn position(hosts: Seq<HostEntry>, addr: ProtoAddr) -> int {
    choose|i: int| 0 <= i < hosts.len() && (#[trigger] hosts[i]).addr == addr
}

/// No address has two rows.
pub open spec fn distinct(hosts: Seq<HostEntry>) -> bool {
    forall|i: int, j: int|
        0 <= i < j < hosts.len() ==> (#[trigger] hosts[i]).addr != (#[trigger] hosts[j]).addr
}

/// The table read as a map from address to what is known of its hardware
/// address.
pub open spec fn macs(hosts: Seq<HostEntry>) -> Map<ProtoAddr, Option<HwAddr>> {
    Map::new(|a: ProtoAddr| known(hosts, a), |a: ProtoAddr| hosts[position(hosts, a)].mac)
}

/// The addresses in the order of their rows.
pub open spec fn addresses(hosts: Seq<HostEntry>) -> Seq<ProtoAddr> {
    Seq::new(hosts.len(), |i: int| hosts[i].addr)
}

/// `hosts` after `addr` was seen without a hardware address: a new last row
/// for a new address, no change for a known one.
pub open spec fn with_host(hosts: Seq<HostEntry>, addr: ProtoAddr) -> Seq<HostEntry> {
    if known(hosts, addr) {
        hosts
    } else {
        hosts.push(HostEntry { addr, mac: None })
    }
}

/// `hosts` after `addr` was seen with the hardware address `mac`: the row of
/// a known address is overwritten in place, a new address gets a new last row.
pub open spec fn with_mac(hosts: Seq<HostEntry>, addr: ProtoAddr, mac: HwAddr) -> Seq<HostEntry> {
    if known(hosts, addr) {
        hosts.update(position(hosts, addr), HostEntry { addr, mac: Some(mac) })
    } else {
        hosts.push(HostEntry { addr, mac: Some(mac) })
    }
}

/// In a table without double rows, the row of an address is the only index
/// that holds it.
pub proof fn lemma_position_unique(hosts: Seq<HostEntry>, i: int)
    requires
        distinct(hosts),
        0 <= i < hosts.len(),
    ensures
        known(hosts, hosts[i].addr),
        position(hosts, hosts[i].addr) == i,
{
    let p = position(hosts, hosts[i].addr);
    assert(0 <= p < hosts.len() && hosts[p].addr == hosts[i].addr);
    if p < i {
        assert(hosts[p].addr != hosts[i].addr);
    } else if i < p {
        assert(hosts[i].addr != hosts[p].addr);
    }
}

/// Seeing an address without a hardware address keeps the table free of
/// double rows and, read as a map, adds at most the one unresolved key.
pub proof fn lemma_with_host(hosts: Seq<HostEntry>, addr: ProtoAddr)
    requires
        distinct(hosts),
    ensures
        distinct(with_host(hosts, addr)),
        known(with_host(hosts, addr), addr),
        forall|a: ProtoAddr| known(with_host(hosts, addr), a) <==> a == addr || known(hosts, a),
        known(hosts, addr) ==> macs(with_host(hosts, addr)) == macs(hosts),
        !known(hosts, addr) ==> macs(with_host(hosts, addr)) == macs(hosts).insert(addr, None),
{
    let after = with_host(hosts, addr);
    if !known(hosts, addr) {
        let n = hosts.len() as int;
        assert(after[n].addr == addr);
        assert forall|i: int, j: int| 0 <= i < j < after.len() implies (#[trigger] after[i]).addr
            != (#[trigger] after[j]).addr by {
            if j < n {
                assert(hosts[i].addr != hosts[j].addr);
            } else {
                assert(after[i] == hosts[i]);
            }
        }
        assert forall|a: ProtoAddr| known(after, a) <==> a == addr || known(hosts, a) by {
            if known(after, a) {
                let i = position(after, a);
                if i < n {
                    assert(hosts[i].addr == a);
                }
            }
            if known(hosts, a) {
                let i = position(hosts, a);
                assert(after[i].addr == a);
            }
        }
        assert forall|a: ProtoAddr| known(after, a) implies #[trigger] macs(after)[a] == macs(
            hosts,
        ).insert(addr, None)[a] by {
            let i = position(after, a);
            lemma_position_unique(after, i);
            if a != addr {
                let k = position(hosts, a);
                assert(after[k].addr == a);
                lemma_position_unique(after, k);
            } else {
                lemma_position_unique(after, n);
            }
        }
        assert(macs(after) =~= macs(hosts).insert(addr, None));
    }
}

/// Seeing an address with its hardware address keeps the table free of
/// double rows and, read as a map, sets that one key.
pub proof fn lemma_with_mac(hosts: Seq<HostEntry>, addr: ProtoAddr, mac: HwAddr)
    requires
        distinct(hosts),
    ensures
        distinct(with_mac(hosts, addr, mac)),
        known(with_mac(hosts, addr, mac), addr),
        forall|a: ProtoAddr| known(with_mac(hosts, addr, mac), a) <==> a == addr || known(hosts, a),
        macs(with_mac(hosts, addr, mac)) == macs(hosts).insert(addr, Some(mac)),
        known(hosts, addr) ==> addresses(with_mac(hosts, addr, mac)) == addresses(hosts),
{
    let after = with_mac(hosts, addr, mac);
    let n = hosts.len() as int;
    let at = if known(hosts, addr) { position(hosts, addr) } else { n };
    assert(after[at].addr == addr);
    assert forall|i: int, j: int| 0 <= i < j < after.len() implies (#[trigger] after[i]).addr
        != (#[trigger] after[j]).addr by {
        if j < n {
            assert(hosts[i].addr != hosts[j].addr);
        } else {
            assert(after[i].addr == hosts[i].addr);
        }
    }
    assert forall|a: ProtoAddr| known(after, a) <==> a == addr || known(hosts, a) by {
        if known(after, a) {
            let i = position(after, a);
            if i < n {
                assert(hosts[i].addr == a);
            }
        }
        if known(hosts, a) {
            let i = position(hosts, a);
            assert(after[i].addr == a);
        }
    }
    assert forall|a: ProtoAddr| known(after, a) implies #[trigger] macs(after)[a] == macs(
        hosts,
    ).insert(addr, Some(mac))[a] by {
        if a != addr {
            let k = position(hosts, a);
            assert(after[k].addr == a);
            lemma_position_unique(after, k);
        } else {
            lemma_position_unique(after, at);
        }
    }
    assert(macs(after) =~= macs(hosts).insert(addr, Some(mac)));
    if known(hosts, addr) {
        assert(addresses(after) =~= addresses(hosts));
    }
}

/// The table of hosts. Its view is the sequence of its rows; no address has
/// two of them.
pub struct NetHosts {
    entries: Vec<HostEntry>,
}

impl View for NetHosts {
    type V = Seq<HostEntry>;

    closed spec fn view(&self) -> Seq<HostEntry> {
        self.entries@
    }
}

impl NetHosts {
    #[verifier::type_invariant]
    closed spec fn unique_rows(&self) -> bool {
        distinct(self.entries@)
    }

    /// The empty table.
    pub fn new() -> (table: NetHosts)
        ensures
            table@ == Seq::<HostEntry>::empty(),
    {
        NetHosts { entries: Vec::new() }
    }

    /// The number of rows.
    pub fn len(&self) -> (n: usize)
        ensures
            n == self@.len(),
            distinct(self@),
    {
        proof {
            use_type_invariant(self);
        }
        self.entries.len()
    }

    fn find(&self, addr: ProtoAddr) -> (at: Option<usize>)
        ensures
            at matches Some(i) ==> i < self@.len() && self@[i as int].addr == addr && known(
                self@,
                addr,
            ) && position(self@, addr) == i,
            at is None ==> !known(self@, addr),
    {
        let mut i: usize = 0;
        while i < self.entries.len()
            invariant
                i <= self.entries.len(),
                forall|k: int| 0 <= k < i ==> (#[trigger] self.entries@[k]).addr != addr,
            decreases self.entries.len() - i,
        {
            if self.entries[i].addr == addr {
                proof {
                    use_type_invariant(self);
                    lemma_position_unique(self.entries@, i as int);
                }
                return Some(i);
            }
            i += 1;
        }
        None
    }

    /// Whether `addr` has a row.
    pub fn contains(&self, addr: ProtoAddr) -> (b: bool)
        ensures
            b == known(self@, addr),
            distinct(self@),
    {
        proof {
            use_type_invariant(self);
        }
        self.find(addr).is_some()
    }

    /// What is known of `addr`: `None` without a row, `Some(None)` for a
    /// host that has not answered yet, `Some(Some(mac))` once it has.
    pub fn mac(&self, addr: ProtoAddr) -> (m: Option<Option<HwAddr>>)
        ensures
            m is Some == known(self@, addr),
            m matches Some(known_mac) ==> known_mac == macs(self@)[addr],
    {
        match self.find(addr) {
            Some(i) => Some(self.entries[i].mac),
            None => None,
        }
    }

    /// The address in row `index`, counting from 0 in the order of first
    /// sighting.
    pub fn get(&self, index: usize) -> (addr: Option<ProtoAddr>)
        ensures
            index < self@.len() ==> addr == Some(self@[index as int].addr),
            index >= self@.len() ==> addr is None,
    {
        if index < self.entries.len() {
            Some(self.entries[index].addr)
        } else {
            None
        }
    }

    /// All addresses in the order of first sighting.
    pub fn hosts(&self) -> (list: Vec<ProtoAddr>)
        ensures
            list@ == addresses(self@),
    {
        let mut list: Vec<ProtoAddr> = Vec::new();
        let mut i: usize = 0;
        while i < self.entries.len()
            invariant
                i <= self.entries.len(),
                list@ == addresses(self.entries@.take(i as int)),
            decreases self.entries.len() - i,
        {
            list.push(self.entries[i].addr);
            i += 1;
            assert(list@ =~= addresses(self.entries@.take(i as int)));
        }
        assert(self.entries@.take(i as int) =~= self.entries@);
        list
    }

    /// All rows in the order of first sighting.
    pub fn entries(&self) -> (rows: Vec<HostEntry>)
        ensures
            rows@ == self@,
    {
        self.entries.clone()
    }

    /// Records that `addr` exists. A known address keeps its row as it is.
    pub fn insert(&mut self, addr: ProtoAddr)
        ensures
            final(self)@ == with_host(old(self)@, addr),
            distinct(old(self)@),
            distinct(final(self)@),
    {
        proof {
            use_type_invariant(&*self);
            lemma_with_host(self.entries@, addr);
        }
        if self.find(addr).is_none() {
            let mut rows: Vec<HostEntry> = Vec::new();
            core::mem::swap(&mut rows, &mut self.entries);
            rows.push(HostEntry { addr, mac: None });
            core::mem::swap(&mut rows, &mut self.entries);
        }
    }

    /// Records that `addr` is at `mac`, whatever was known of it before.
    pub fn set_host(&mut self, addr: ProtoAddr, mac: HwAddr)
        ensures
            final(self)@ == with_mac(old(self)@, addr, mac),
            distinct(old(self)@),
            distinct(final(self)@),
    {
        proof {
            use_type_invariant(&*self);
            lemma_with_mac(self.entries@, addr, mac);
        }
        let found = self.find(addr);
        let mut rows: Vec<HostEntry> = Vec::new();
        core::mem::swap(&mut rows, &mut self.entries);
        match found {
            Some(i) => {
                rows.set(i, HostEntry { addr, mac: Some(mac) });
            },
            None => {
                rows.push(HostEntry { addr, mac: Some(mac) });
            },
        }
        core::mem::swap(&mut rows, &mut self.entries);
    }
}

/// One line of a listing of the table.
#[derive(Clone, Copy, Debug, PartialEq, Eq)]
pub enum ListLine {
    /// The row `index` of the table.
    Host { index: usize, addr: ProtoAddr, mac: Option<HwAddr> },
    /// The table has no row `index`.
    OutOfRange { index: usize },
    /// The word at place `word` of what was asked spells no index.
    Invalid { word: usize },
}

/// The line that shows row `index` of `hosts`.
pub open spec fn row_line(hosts: Seq<HostEntry>, index: int) -> ListLine {
    ListLine::Host { index: index as usize, addr: hosts[index].addr, mac: hosts[index].mac }
}

/// The rows of `hosts`, each under its own number; with `resolved_only`,
/// those without a hardware address are left out.
pub open spec fn rows_of(hosts: Seq<HostEntry>, resolved_only: bool) -> Seq<ListLine>
    decreases hosts.len(),
{
    if hosts.len() == 0 {
        Seq::empty()
    } else {
        let before = rows_of(hosts.drop_last(), resolved_only);
        if resolved_only && hosts.last().mac is None {
            before
        } else {
            before.push(row_line(hosts, hosts.len() - 1))
        }
    }
}

/// The line that answers one word: the row whose number it spells, or why
/// there is none.
pub open spec fn line_for(hosts: Seq<HostEntry>, word: Seq<u8>, place: int) -> ListLine {
    match index_of(word) {
        Some(index) => if index < hosts.len() {
            row_line(hosts, index as int)
        } else {
            ListLine::OutOfRange { index }
        },
        None => ListLine::Invalid { word: place as usize },
    }
}

/// What a listing shows. Asked nothing, it shows the hosts whose hardware
/// address is known; asked `all`, every host; asked anything else, one line
/// for each word.
pub open spec fn listing(hosts: Seq<HostEntry>, words: Seq<&str>) -> Seq<ListLine> {
    if words.len() == 0 {
        rows_of(hosts, true)
    } else if words[0]@ == "all"@ {
        rows_of(hosts, false)
    } else {
        Seq::new(words.len(), |k: int| line_for(hosts, words[k].spec_bytes(), k))
    }
}

impl NetHosts {
    fn rows(&self, resolved_only: bool) -> (lines: Vec<ListLine>)
        ensures
            lines@ == rows_of(self@, resolved_only),
    {
        let mut lines: Vec<ListLine> = Vec::new();
        let mut i: usize = 0;
        while i < self.entries.len()
            invariant
                i <= self.entries@.len(),
                lines@ == rows_of(self.entries@.take(i as int), resolved_only),
            decreases self.entries@.len() - i,
        {
            let entry = self.entries[i];
            assert(self.entries@.take(i + 1).drop_last() =~= self.entries@.take(i as int));
            if !(resolved_only && entry.mac.is_none()) {
                lines.push(ListLine::Host { index: i, addr: entry.addr, mac: entry.mac });
            }
            i += 1;
        }
        assert(self.entries@.take(i as int) =~= self.entries@);
        lines
    }

    /// The lines of a listing of the table, as `words` ask for it.
    pub fn list(&self, words: &[&str]) -> (lines: Vec<ListLine>)
        ensures
            lines@ == listing(self@, words@),
    {
        if words.len() == 0 {
            return self.rows(true);
        }
        if same_text(words[0], "all") {
            return self.rows(false);
        }
        let mut lines: Vec<ListLine> = Vec::new();
        let mut k: usize = 0;
        while k < words.len()
            invariant
                k <= words@.len(),
                lines@.len() == k,
                forall|j: int|
                    0 <= j < k ==> lines@[j] == line_for(self@, words@[j].spec_bytes(), j),
            decreases words@.len() - k,
        {
            let line = match parse_index(words[k].as_bytes()) {
                Some(index) => {
                    if index < self.entries.len() {
                        let entry = self.entries[index];
                        ListLine::Host { index, addr: entry.addr, mac: entry.mac }
                    } else {
                        ListLine::OutOfRange { index }
                    }
                },
                None => ListLine::Invalid { word: k },
            };
            lines.push(line);
            k += 1;
        }
        assert(lines@ =~= listing(self@, words@));
        lines
    }
}

} // verus!
