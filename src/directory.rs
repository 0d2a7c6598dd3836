//! The client directory: records keyed by MAC address, kept in insertion
//! order, bounded by a capacity.
use vstd::prelude::*;
use crate::address::{Ipv4, MacAddress};
use crate::quorum::{EvictionQuorum, ballots_for};

verus! {

/// One registered client.
#[derive(Debug)]
pub struct ClientRecord {
    pub mac: MacAddress,
    pub username: String,
    pub ip: Ipv4,
    pub port: u16,
    /// When set, the record is left out of lookups by user name.
    pub get_only_by_mac: bool,
}

impl ClientRecord {
    /// A copy of the record.
    pub fn duplicate(&self) -> (r: ClientRecord)
        ensures
            r == *self,
    {
        ClientRecord {
            mac: self.mac,
            username: self.username.clone(),
            ip: self.ip,
            port: self.port,
            get_only_by_mac: self.get_only_by_mac,
        }
    }
}

/// The directory was full when a sign-up came.
#[derive(Debug, PartialEq, Eq, Structural)]
pub struct CapacityExceeded;

/// A new capacity would be below the number of records held.
#[derive(Debug, PartialEq, Eq, Structural)]
pub struct CapacityBelowSize;

/// The records of `s` whose MAC address is not `m`.
pub open spec fn without_mac(s: Seq<ClientRecord>, m: Seq<u8>) -> Seq<ClientRecord> {
    s.filter(|r: ClientRecord| r.mac@ != m)
}

/// The records of `s` whose IPv4 address is not `ip`.
pub open spec fn without_ip(s: Seq<ClientRecord>, ip: u32) -> Seq<ClientRecord> {
    s.filter(|r: ClientRecord| r.ip.bits != ip)
}

/// The records of `s` whose address has fewer than `threshold` ballots in `q`.
pub open spec fn below_votes(s: Seq<ClientRecord>, q: Seq<(u32, u32)>, threshold: int) -> Seq<
    ClientRecord,
> {
    s.filter(|r: ClientRecord| ballots_for(q, r.ip.bits).len() < threshold)
}

/// Whether some record of `s` has the IPv4 address `ip`.
pub open spec fn holds_ip(s: Seq<ClientRecord>, ip: u32) -> bool {
    exists|i: int| 0 <= i < s.len() && s[i].ip.bits == ip
}

/// The records of `s` that a lookup by user name `name` may find, in order.
pub open spec fn username_matches(s: Seq<ClientRecord>, name: Seq<char>) -> Seq<ClientRecord> {
    s.filter(|r: ClientRecord| !r.get_only_by_mac && r.username@ == name)
}

/// At most `n` items of `s` from position `start` on; empty past the end.
pub open spec fn window<T>(s: Seq<T>, start: int, n: int) -> Seq<T> {
    if start >= s.len() {
        Seq::empty()
    } else if start + n <= s.len() {
        s.subrange(start, start + n)
    } else {
        s.subrange(start, s.len() as int)
    }
}

/// The items of `s` from `start` up to `end`, `end` clamped to the length.
pub open spec fn index_range<T>(s: Seq<T>, start: int, end: int) -> Seq<T> {
    let e = if end < s.len() {
        end
    } else {
        s.len() as int
    };
    if start >= e {
        Seq::empty()
    } else {
        s.subrange(start, e)
    }
}

/// No two records of `s` share a MAC address.
pub open spec fn macs_distinct(s: Seq<ClientRecord>) -> bool {
    forall|i: int, j: int| 0 <= i < s.len() && 0 <= j < s.len() && i != j ==> s[i].mac@ != s[j].mac@
}

proof fn lemma_filter_keeps_distinct(s: Seq<ClientRecord>, p: spec_fn(ClientRecord) -> bool)
    requires
        macs_distinct(s),
    ensures
        macs_distinct(s.filter(p)),
        s.filter(p).len() <= s.len(),
    decreases s.len(),
{
    broadcast use vstd::seq_lib::group_filter_ensures;

    reveal(Seq::filter);
    if s.len() > 0 {
        let d = s.drop_last();
        assert(macs_distinct(d));
        lemma_filter_keeps_distinct(d, p);
        if p(s.last()) {
            let f = d.filter(p);
            assert forall|i: int| 0 <= i < f.len() implies f[i].mac@ != s.last().mac@ by {
                assert(f.contains(f[i]));
                d.lemma_filter_contains_rev(p, f[i]);
                let k = choose|k: int| 0 <= k < d.len() && d[k] == f[i];
                assert(s[k] == d[k]);
            }
        }
    }
}

proof fn lemma_without_absent_mac(s: Seq<ClientRecord>, m: Seq<u8>)
    requires
        forall|i: int| 0 <= i < s.len() ==> s[i].mac@ != m,
    ensures
        without_mac(s, m) == s,
    decreases s.len(),
{
    reveal(Seq::filter);
    if s.len() > 0 {
        lemma_without_absent_mac(s.drop_last(), m);
        assert(s.drop_last().push(s.last()) =~= s);
    }
}

/// A second sign-up with the MAC address of the first replaces the first
/// record: what remains is what the second alone would have left, and the
/// directory does not grow.
pub proof fn lemma_sign_up_replaces(
    s: Seq<ClientRecord>,
    first: ClientRecord,
    second: ClientRecord,
)
    requires
        first.mac@ == second.mac@,
    ensures
        without_mac(without_mac(s, first.mac@).push(first), second.mac@).push(second)
            == without_mac(s, second.mac@).push(second),
        without_mac(without_mac(s, first.mac@).push(first), second.mac@).push(second).len()
            == without_mac(s, first.mac@).push(first).len(),
{
    broadcast use vstd::seq_lib::group_filter_ensures;

    reveal(Seq::filter);
    let m = first.mac@;
    let f = without_mac(s, m);
    let once = f.push(first);
    assert(once.drop_last() =~= f);
    assert(without_mac(once, m) == without_mac(f, m));
    assert forall|i: int| 0 <= i < f.len() implies f[i].mac@ != m by {
        assert(f.contains(f[i]));
    }
    lemma_without_absent_mac(f, m);
}

/// However it was reached, a directory never holds more records than its
/// capacity, and no two of its records share a MAC address.
pub proof fn lemma_directory_invariants(d: &ClientDirectory)
    requires
        d.wf(),
    ensures
        d@.len() <= d.spec_capacity(),
        macs_distinct(d@),
{
}

/// Consecutive pages of one size are disjoint and contiguous: together they
/// are the page of twice the size, and one page from the start as long as the
/// whole sequence is all of it.
pub proof fn lemma_pages_are_contiguous<T>(m: Seq<T>, k: int, n: int)
    requires
        0 <= k,
        0 <= n,
    ensures
        window(m, k, n) + window(m, k + n, n) == window(m, k, 2 * n),
        window(m, 0, m.len() as int) == m,
{
    assert(window(m, 0, m.len() as int) =~= m);
    assert(window(m, k, n) + window(m, k + n, n) =~= window(m, k, 2 * n));
}

/// A record hidden from lookups by user name is in no such result, while
/// an index lookup over the whole directory shows it and it is the only
/// record with its MAC address, so a lookup by MAC address finds it.
pub proof fn lemma_hidden_record_visibility(d: &ClientDirectory, name: Seq<char>, i: int)
    requires
        d.wf(),
        0 <= i < d@.len(),
        d@[i].get_only_by_mac,
    ensures
        !username_matches(d@, name).contains(d@[i]),
        index_range(d@, 0, d@.len() as int).contains(d@[i]),
        forall|j: int| 0 <= j < d@.len() && d@[j].mac@ == d@[i].mac@ ==> j == i,
{
    broadcast use vstd::seq_lib::group_filter_ensures;

    let s = d@;
    if username_matches(s, name).contains(s[i]) {
        let j = choose|j: int|
            0 <= j < username_matches(s, name).len() && username_matches(s, name)[j] == s[i];
        assert(!username_matches(s, name)[j].get_only_by_mac);
    }
    assert(index_range(s, 0, s.len() as int) =~= s);
    assert(index_range(s, 0, s.len() as int)[i] == s[i]);
}

/// The registry of clients.
pub struct ClientDirectory {
    entries: Vec<ClientRecord>,
    capacity: u16,
}

impl View for ClientDirectory {
    type V = Seq<ClientRecord>;

    closed spec fn view(&self) -> Seq<ClientRecord> {
        self.entries@
    }
}

impl ClientDirectory {
    /// The largest number of records the directory may hold.
    pub closed spec fn spec_capacity(&self) -> u16 {
        self.capacity
    }

    /// Keys are unique and the size is within the capacity.
    pub closed spec fn wf(&self) -> bool {
        &&& self.entries@.len() <= self.capacity
        &&& macs_distinct(self.entries@)
    }

    /// An empty directory.
    pub fn new(capacity: u16) -> (r: ClientDirectory)
        ensures
            r.wf(),
            r@ == Seq::<ClientRecord>::empty(),
            r.spec_capacity() == capacity,
    {
        ClientDirectory { entries: Vec::new(), capacity }
    }

    /// The number of records held.
    pub fn len(&self) -> (r: usize)
        ensures
            r == self@.len(),
    {
        self.entries.len()
    }

    pub fn capacity(&self) -> (r: u16)
        ensures
            r == self.spec_capacity(),
    {
        self.capacity
    }

    /// Records a sign-up. A full directory refuses it, even for a MAC
    /// address it already holds; otherwise a record with the same MAC address
    /// is replaced and the new one goes last.
    pub fn insert(&mut self, record: ClientRecord) -> (r: Result<(), CapacityExceeded>)
        requires
            old(self).wf(),
        ensures
            final(self).wf(),
            final(self).spec_capacity() == old(self).spec_capacity(),
            old(self)@.len() >= old(self).spec_capacity() ==> r is Err && final(self)@ == old(self)@,
            old(self)@.len() < old(self).spec_capacity() ==> r is Ok && final(self)@ == without_mac(
                old(self)@,
                record.mac@,
            ).push(record),
    {
        if self.entries.len() >= self.capacity as usize {
            return Err(CapacityExceeded);
        }
        let mut kept: Vec<ClientRecord> = Vec::new();
        let mut i: usize = 0;
        while i < self.entries.len()
            invariant
                0 <= i <= self.entries@.len(),
                kept@ == without_mac(self.entries@.take(i as int), record.mac@),
            decreases self.entries@.len() - i,
        {
            proof {
                reveal(Seq::filter);
                assert(self.entries@.take(i as int + 1).drop_last() =~= self.entries@.take(
                    i as int,
                ));
            }
            if !self.entries[i].mac.same_as(&record.mac) {
                kept.push(self.entries[i].duplicate());
            }
            i = i + 1;
        }
        proof {
            assert(self.entries@.take(self.entries@.len() as int) =~= self.entries@);
            lemma_filter_keeps_distinct(self.entries@, |r: ClientRecord| r.mac@ != record.mac@);
            broadcast use vstd::seq_lib::group_filter_ensures;

        }
        let ghost f = kept@;
        kept.push(record);
        proof {
            assert forall|i: int| 0 <= i < f.len() implies f[i].mac@ != record.mac@ by {
                assert(f.contains(f[i]));
            }
        }
        self.entries = kept;
        Ok(())
    }

    /// The record with MAC address `mac`, whatever its visibility.
    pub fn lookup_by_mac(&self, mac: &MacAddress) -> (r: Option<&ClientRecord>)
        requires
            self.wf(),
        ensures
            match r {
                Some(rec) => rec.mac@ == mac@ && exists|i: int| 0 <= i < self@.len() && self@[i] == *rec,
                None => forall|i: int| 0 <= i < self@.len() ==> self@[i].mac@ != mac@,
            },
    {
        let mut i: usize = 0;
        while i < self.entries.len()
            invariant
                0 <= i <= self.entries@.len(),
                forall|j: int| 0 <= j < i ==> self.entries@[j].mac@ != mac@,
            decreases self.entries@.len() - i,
        {
            if self.entries[i].mac.same_as(mac) {
                assert(self@[i as int] == self.entries@[i as int]);
                return Some(&self.entries[i]);
            }
            i = i + 1;
        }
        None
    }

    /// At most `page` of the visible records named `name` (compared exactly,
    /// case included), from the `start`-th such record on, in insertion order.
    pub fn lookup_by_username(&self, name: &str, start: usize, page: usize) -> (r: Vec<ClientRecord>)
        ensures
            r@ == window(username_matches(self@, name@), start as int, page as int),
    {
        let target: String = name.to_owned();
        let mut out: Vec<ClientRecord> = Vec::new();
        let mut count: usize = 0;
        let mut i: usize = 0;
        while i < self.entries.len()
            invariant
                0 <= i <= self.entries@.len(),
                target@ == name@,
                count == username_matches(self.entries@.take(i as int), name@).len(),
                count <= i,
                out@ == window(
                    username_matches(self.entries@.take(i as int), name@),
                    start as int,
                    page as int,
                ),
            decreases self.entries@.len() - i,
        {
            let ghost before = username_matches(self.entries@.take(i as int), name@);
            let e = &self.entries[i];
            proof {
                reveal(Seq::filter);
                let t = self.entries@.take(i as int + 1);
                assert(t.drop_last() =~= self.entries@.take(i as int));
                assert(t.last() == *e);
                assert(username_matches(t, name@) == if !e.get_only_by_mac && e.username@
                    == name@ {
                    before.push(*e)
                } else {
                    before
                });
            }
            if !e.get_only_by_mac && e.username == target {
                assert(username_matches(self.entries@.take(i as int + 1), name@) == before.push(
                    *e,
                ));
                if count >= start && count - start < page {
                    out.push(e.duplicate());
                    assert(out@ =~= window(before.push(*e), start as int, page as int));
                } else {
                    assert(window(before, start as int, page as int) =~= window(
                        before.push(*e),
                        start as int,
                        page as int,
                    ));
                }
                count = count + 1;
            }
            i = i + 1;
        }
        assert(self.entries@.take(self.entries@.len() as int) =~= self.entries@);
        out
    }

    /// The records at positions `start` up to `end` of the insertion order,
    /// hidden ones included; `end` is clamped to the size.
    pub fn lookup_by_index(&self, start: usize, end: usize) -> (r: Vec<ClientRecord>)
        ensures
            r@ == index_range(self@, start as int, end as int),
    {
        let e = if end < self.entries.len() {
            end
        } else {
            self.entries.len()
        };
        let mut out: Vec<ClientRecord> = Vec::new();
        if start >= e {
            return out;
        }
        let mut i: usize = start;
        while i < e
            invariant
                start <= i <= e,
                e <= self.entries@.len(),
                out@ == self.entries@.subrange(start as int, i as int),
            decreases e - i,
        {
            out.push(self.entries[i].duplicate());
            assert(out@ =~= self.entries@.subrange(start as int, i as int + 1));
            i = i + 1;
        }
        out
    }

    /// Whether some record has IPv4 address `ip`.
    pub fn holds(&self, ip: Ipv4) -> (r: bool)
        ensures
            r == holds_ip(self@, ip.bits),
    {
        let mut i: usize = 0;
        while i < self.entries.len()
            invariant
                0 <= i <= self.entries@.len(),
                forall|j: int| 0 <= j < i ==> self.entries@[j].ip.bits != ip.bits,
            decreases self.entries@.len() - i,
        {
            if self.entries[i].ip.bits == ip.bits {
                assert(self@[i as int].ip.bits == ip.bits);
                return true;
            }
            i = i + 1;
        }
        false
    }

    /// Removes every record with IPv4 address `ip`; tells whether there was one.
    pub fn remove(&mut self, ip: Ipv4) -> (r: bool)
        requires
            old(self).wf(),
        ensures
            final(self).wf(),
            final(self).spec_capacity() == old(self).spec_capacity(),
            final(self)@ == without_ip(old(self)@, ip.bits),
            r == holds_ip(old(self)@, ip.bits),
    {
        let mut kept: Vec<ClientRecord> = Vec::new();
        let mut found = false;
        let mut i: usize = 0;
        while i < self.entries.len()
            invariant
                0 <= i <= self.entries@.len(),
                kept@ == without_ip(self.entries@.take(i as int), ip.bits),
                found == exists|j: int| 0 <= j < i && self.entries@[j].ip.bits == ip.bits,
            decreases self.entries@.len() - i,
        {
            proof {
                reveal(Seq::filter);
                assert(self.entries@.take(i as int + 1).drop_last() =~= self.entries@.take(
                    i as int,
                ));
            }
            if self.entries[i].ip.bits != ip.bits {
                kept.push(self.entries[i].duplicate());
            } else {
                found = true;
            }
            i = i + 1;
        }
        proof {
            assert(self.entries@.take(self.entries@.len() as int) =~= self.entries@);
            lemma_filter_keeps_distinct(self.entries@, |r: ClientRecord| r.ip.bits != ip.bits);
        }
        self.entries = kept;
        found
    }

    /// Keeps, in order, the records whose address has fewer than
    /// `threshold` votes in `quorum`.
    pub fn keep_below_votes(&mut self, quorum: &EvictionQuorum, threshold: u8)
        requires
            old(self).wf(),
        ensures
            final(self).wf(),
            final(self).spec_capacity() == old(self).spec_capacity(),
            final(self)@ == below_votes(old(self)@, quorum@, threshold as int),
    {
        let mut kept: Vec<ClientRecord> = Vec::new();
        let mut i: usize = 0;
        while i < self.entries.len()
            invariant
                0 <= i <= self.entries@.len(),
                kept@ == below_votes(self.entries@.take(i as int), quorum@, threshold as int),
            decreases self.entries@.len() - i,
        {
            proof {
                reveal(Seq::filter);
                assert(self.entries@.take(i as int + 1).drop_last() =~= self.entries@.take(
                    i as int,
                ));
            }
            if quorum.count(self.entries[i].ip) < threshold as usize {
                kept.push(self.entries[i].duplicate());
            }
            i = i + 1;
        }
        proof {
            assert(self.entries@.take(self.entries@.len() as int) =~= self.entries@);
            lemma_filter_keeps_distinct(
                self.entries@,
                |r: ClientRecord| ballots_for(quorum@, r.ip.bits).len() < threshold as int,
            );
        }
        self.entries = kept;
    }

    /// Sets the capacity, unless it is below the number of records held.
    pub fn set_capacity(&mut self, capacity: u16) -> (r: Result<(), CapacityBelowSize>)
        requires
            old(self).wf(),
        ensures
            final(self).wf(),
            final(self)@ == old(self)@,
            (capacity as int) < old(self)@.len() ==> r is Err && final(self).spec_capacity()
                == old(self).spec_capacity(),
            (capacity as int) >= old(self)@.len() ==> r is Ok && final(self).spec_capacity()
                == capacity,
    {
        if (capacity as usize) < self.entries.len() {
            return Err(CapacityBelowSize);
        }
        self.capacity = capacity;
        Ok(())
    }
}

} // verus!
