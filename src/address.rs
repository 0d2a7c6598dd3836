//! Hardware and IPv4 addresses, and their textual forms.
use vstd::prelude::*;
use vstd::utf8::encode_utf8;

verus! {

broadcast use vstd::array::group_array_axioms;

/// A six-octet hardware address.
#[derive(Clone, Copy, Debug)]
pub struct MacAddress {
    pub octets: [u8; 6],
}

impl View for MacAddress {
    type V = Seq<u8>;

    open spec fn view(&self) -> Seq<u8> {
        self.octets@
    }
}

impl MacAddress {
    /// Whether both addresses hold the same octets.
    pub fn same_as(&self, other: &MacAddress) -> (r: bool)
        ensures
            r == (self@ == other@),
    {
        let mut i: usize = 0;
        while i < 6
            invariant
                0 <= i <= 6,
                self@.len() == 6,
                other@.len() == 6,
                forall|j: int| 0 <= j < i ==> self@[j] == other@[j],
            decreases 6 - i,
        {
            if self.octets[i] != other.octets[i] {
                return false;
            }
            i = i + 1;
        }
        assert(self@ =~= other@);
        true
    }
}

/// An IPv4 address, held as its 32-bit value (first octet most significant).
#[derive(Clone, Copy, Debug, PartialEq, Eq, Structural)]
pub struct Ipv4 {
    pub bits: u32,
}

/// The value of an IPv4 address from its four octets.
pub open spec fn ipv4_bits(a: int, b: int, c: int, d: int) -> int {
    ((a * 256 + b) * 256 + c) * 256 + d
}

impl Ipv4 {
    /// The address with the given octets, first octet first.
    pub fn from_octets(a: u8, b: u8, c: u8, d: u8) -> (r: Ipv4)
        ensures
            r.bits == ipv4_bits(a as int, b as int, c as int, d as int),
    {
        proof {
            lemma_ipv4_bits_fit(a as int, b as int, c as int, d as int);
        }
        Ipv4 { bits: ((((a as u32) * 256 + b as u32) * 256 + c as u32) * 256 + d as u32) }
    }
}

proof fn lemma_ipv4_bits_fit(a: int, b: int, c: int, d: int)
    requires
        0 <= a < 256,
        0 <= b < 256,
        0 <= c < 256,
        0 <= d < 256,
    ensures
        0 <= a * 256 + b < 65536,
        0 <= (a * 256 + b) * 256 + c < 16777216,
        0 <= ipv4_bits(a, b, c, d) <= u32::MAX,
{
    assert(0 <= a * 256 + b < 65536) by (nonlinear_arith)
        requires 0 <= a < 256, 0 <= b < 256;
    let ab = a * 256 + b;
    assert(0 <= ab * 256 + c < 16777216) by (nonlinear_arith)
        requires 0 <= ab < 65536, 0 <= c < 256;
    let abc = ab * 256 + c;
    assert(0 <= abc * 256 + d <= u32::MAX) by (nonlinear_arith)
        requires 0 <= abc < 16777216, 0 <= d < 256;
}

/// The value of a hexadecimal digit, in either case.
pub open spec fn hex_digit(c: u8) -> Option<u8> {
    if 48 <= c <= 57 {
        Some((c - 48) as u8)
    } else if 97 <= c <= 102 {
        Some((c - 87) as u8)
    } else if 65 <= c <= 70 {
        Some((c - 55) as u8)
    } else {
        None
    }
}

/// `hh:hh:hh:hh:hh:hh`: six pairs of hexadecimal digits separated by colons.
pub open spec fn is_mac_text(b: Seq<u8>) -> bool {
    &&& b.len() == 17
    &&& forall|i: int|
        0 <= i < 17 ==> if i % 3 == 2 {
            b[i] == 58
        } else {
            hex_digit(b[i]) is Some
        }
}

/// The `k`-th octet written in a MAC text.
pub open spec fn mac_octet(b: Seq<u8>, k: int) -> int {
    hex_digit(b[3 * k])->0 * 16 + hex_digit(b[3 * k + 1])->0
}

/// The MAC address that a text denotes, if any.
pub open spec fn mac_of_text(t: Seq<char>) -> Option<Seq<u8>> {
    let b = encode_utf8(t);
    if is_mac_text(b) {
        Some(Seq::new(6, |k: int| mac_octet(b, k) as u8))
    } else {
        None
    }
}

fn hex_value(c: u8) -> (r: Option<u8>)
    ensures
        r == hex_digit(c),
{
    if 48 <= c && c <= 57 {
        Some(c - 48)
    } else if 97 <= c && c <= 102 {
        Some(c - 87)
    } else if 65 <= c && c <= 70 {
        Some(c - 55)
    } else {
        None
    }
}

/// Reads a MAC address written as `hh:hh:hh:hh:hh:hh`.
pub fn parse_mac(text: &str) -> (r: Option<MacAddress>)
    ensures
        r matches Some(m) ==> mac_of_text(text@) == Some(m@),
        r is None ==> mac_of_text(text@) is None,
{
    let b = text.as_bytes();
    proof {
        assert(b@ == encode_utf8(text@));
    }
    if b.len() != 17 {
        return None;
    }
    let mut octets: [u8; 6] = [0u8; 6];
    let mut k: usize = 0;
    while k < 6
        invariant
            0 <= k <= 6,
            b@.len() == 17,
            b@ == encode_utf8(text@),
            octets@.len() == 6,
            forall|i: int|
                0 <= i < 3 * k && i < 17 ==> if i % 3 == 2 {
                    b@[i] == 58
                } else {
                    hex_digit(b@[i]) is Some
                },
            forall|j: int| 0 <= j < k ==> octets@[j] == mac_octet(b@, j) as u8,
        decreases 6 - k,
    {
        let hi = hex_value(b[3 * k]);
        let lo = hex_value(b[3 * k + 1]);
        if hi.is_none() || lo.is_none() {
            assert(!is_mac_text(b@)) by {
                if hi.is_none() {
                    assert((3 * k as int) % 3 == 0);
                } else {
                    assert((3 * k as int + 1) % 3 == 1);
                }
            }
            return None;
        }
        if k < 5 && b[3 * k + 2] != 58 {
            assert((3 * k as int + 2) % 3 == 2);
            return None;
        }
        let h = hi.unwrap();
        let l = lo.unwrap();
        octets[k] = h * 16 + l;
        proof {
            assert forall|i: int| 0 <= i < 3 * (k + 1) && i < 17 implies if i % 3 == 2 {
                b@[i] == 58
            } else {
                hex_digit(b@[i]) is Some
            } by {
                if i >= 3 * k {
                    assert(i == 3 * k || i == 3 * k + 1 || i == 3 * k + 2);
                }
            }
        }
        k = k + 1;
    }
    let m = MacAddress { octets };
    assert(is_mac_text(b@));
    assert(m@ =~= Seq::new(6, |j: int| mac_octet(b@, j) as u8));
    Some(m)
}

/// The decimal digits of `n`, without leading zeros.
pub open spec fn decimal(n: nat) -> Seq<u8>
    decreases n,
{
    if n < 10 {
        seq![(48 + n) as u8]
    } else {
        decimal(n / 10).push((48 + n % 10) as u8)
    }
}

/// `a.b.c.d` in decimal.
pub open spec fn ipv4_text(a: nat, b: nat, c: nat, d: nat) -> Seq<u8> {
    decimal(a) + seq![46u8] + decimal(b) + seq![46u8] + decimal(c) + seq![46u8] + decimal(d)
}

/// `t` writes the octets `a`, `b`, `c`, `d` in dotted-decimal form.
pub open spec fn writes_ipv4(t: Seq<u8>, a: nat, b: nat, c: nat, d: nat) -> bool {
    a <= 255 && b <= 255 && c <= 255 && d <= 255 && t == ipv4_text(a, b, c, d)
}

/// The IPv4 address (as its 32-bit value) that a text writes as four
/// decimal octets, each at most 255 and without leading zeros, separated by
/// dots.
pub open spec fn ipv4_of_text(t: Seq<char>) -> Option<u32> {
    let b = encode_utf8(t);
    if exists|a: nat, x: nat, c: nat, d: nat| writes_ipv4(b, a, x, c, d) {
        let (a, x, c, d) = choose|a: nat, x: nat, c: nat, d: nat| writes_ipv4(b, a, x, c, d);
        Some(ipv4_bits(a as int, x as int, c as int, d as int) as u32)
    } else {
        None
    }
}

/// The state of a left-to-right scan of a dotted-decimal text: the octets
/// completed so far, the octet being read, how many digits it has, and
/// whether the text is still well formed.
type Ipv4Scan = (Seq<u32>, u32, nat, bool);

spec fn ipv4_step(st: Ipv4Scan, c: u8) -> Ipv4Scan {
    let (done, cur, digits, ok) = st;
    if !ok {
        st
    } else if 48 <= c <= 57 {
        let v = cur as int * 10 + (c - 48);
        if (digits > 0 && cur == 0) || v > 255 {
            (done, cur, digits, false)
        } else {
            (done, v as u32, digits + 1, true)
        }
    } else if c == 46 && digits > 0 && done.len() < 3 {
        (done.push(cur), 0, 0, true)
    } else {
        (done, cur, digits, false)
    }
}

spec fn scan_from(st: Ipv4Scan, b: Seq<u8>) -> Ipv4Scan
    decreases b.len(),
{
    if b.len() == 0 {
        st
    } else {
        ipv4_step(scan_from(st, b.drop_last()), b.last())
    }
}

spec fn ipv4_scan(b: Seq<u8>) -> Ipv4Scan {
    scan_from((Seq::empty(), 0, 0, true), b)
}

/// The text of completed octets, each followed by a dot.
spec fn octets_text(s: Seq<u32>) -> Seq<u8>
    decreases s.len(),
{
    if s.len() == 0 {
        Seq::empty()
    } else {
        octets_text(s.drop_last()) + decimal(s.last() as nat) + seq![46u8]
    }
}

proof fn lemma_scan_concat(st: Ipv4Scan, x: Seq<u8>, y: Seq<u8>)
    ensures
        scan_from(st, x + y) == scan_from(scan_from(st, x), y),
    decreases y.len(),
{
    if y.len() == 0 {
        assert(x + y =~= x);
    } else {
        assert((x + y).drop_last() =~= x + y.drop_last());
        assert((x + y).last() == y.last());
        lemma_scan_concat(st, x, y.drop_last());
    }
}

proof fn lemma_div_ten(q: int, r: int)
    requires
        q >= 0,
        0 <= r < 10,
    ensures
        (q * 10 + r) / 10 == q,
        (q * 10 + r) % 10 == r,
{
    vstd::arithmetic::div_mod::lemma_fundamental_div_mod_converse(q * 10 + r, 10, q, r);
}

proof fn lemma_scan_decimal(done: Seq<u32>, n: nat)
    requires
        n <= 255,
    ensures
        scan_from((done, 0, 0, true), decimal(n)) == (done, n as u32, decimal(n).len(), true),
        decimal(n).len() >= 1,
    decreases n,
{
    let st: Ipv4Scan = (done, 0, 0, true);
    if n >= 10 {
        lemma_div_ten(n as int / 10, n as int % 10);
        lemma_scan_decimal(done, n / 10);
        let d = decimal(n);
        assert(d.drop_last() =~= decimal(n / 10));
        assert(d.last() == (48 + n % 10) as u8);
        assert(n / 10 >= 1);
        assert(scan_from(st, d) == ipv4_step(scan_from(st, decimal(n / 10)), d.last()));
    } else {
        let d = decimal(n);
        assert(d.drop_last() =~= Seq::<u8>::empty());
        assert(scan_from(st, Seq::<u8>::empty()) == st);
        assert(scan_from(st, d) == ipv4_step(st, d.last()));
    }
}

proof fn lemma_scan_dot(done: Seq<u32>, cur: u32, digits: nat)
    requires
        digits > 0,
        done.len() < 3,
    ensures
        scan_from((done, cur, digits, true), seq![46u8]) == (done.push(cur), 0u32, 0nat, true),
{
    let st: Ipv4Scan = (done, cur, digits, true);
    let dot = seq![46u8];
    assert(dot.drop_last() =~= Seq::<u8>::empty());
    assert(scan_from(st, Seq::<u8>::empty()) == st);
    assert(scan_from(st, dot) == ipv4_step(st, dot.last()));
}

/// Every dotted-decimal text is scanned to its octets.
proof fn lemma_scan_complete(a: nat, b: nat, c: nat, d: nat)
    requires
        a <= 255,
        b <= 255,
        c <= 255,
        d <= 255,
    ensures
        ipv4_scan(ipv4_text(a, b, c, d)) == (
            seq![a as u32, b as u32, c as u32],
            d as u32,
            decimal(d).len(),
            true,
        ),
{
    let init: Ipv4Scan = (Seq::empty(), 0, 0, true);
    let dot = seq![46u8];
    let t1 = decimal(a);
    let t2 = t1 + dot;
    let t3 = t2 + decimal(b);
    let t4 = t3 + dot;
    let t5 = t4 + decimal(c);
    let t6 = t5 + dot;
    let e = Seq::<u32>::empty();
    lemma_scan_decimal(e, a);
    assert(t1 =~= Seq::<u8>::empty() + t1);
    lemma_scan_concat(init, Seq::<u8>::empty(), t1);
    lemma_scan_concat(init, t1, dot);
    lemma_scan_dot(e, a as u32, decimal(a).len());
    let s1 = e.push(a as u32);
    lemma_scan_concat(init, t2, decimal(b));
    lemma_scan_decimal(s1, b);
    lemma_scan_concat(init, t3, dot);
    lemma_scan_dot(s1, b as u32, decimal(b).len());
    let s2 = s1.push(b as u32);
    lemma_scan_concat(init, t4, decimal(c));
    lemma_scan_decimal(s2, c);
    lemma_scan_concat(init, t5, dot);
    lemma_scan_dot(s2, c as u32, decimal(c).len());
    let s3 = s2.push(c as u32);
    lemma_scan_concat(init, t6, decimal(d));
    lemma_scan_decimal(s3, d);
    assert(s3 =~= seq![a as u32, b as u32, c as u32]);
}

/// What a well-formed scan has read is its octets written out.
proof fn lemma_scan_sound(p: Seq<u8>)
    ensures
        ({
            let (done, cur, digits, ok) = ipv4_scan(p);
            ok ==> {
                &&& done.len() <= 3
                &&& cur <= 255
                &&& forall|i: int| 0 <= i < done.len() ==> done[i] <= 255
                &&& digits == 0 ==> cur == 0 && p == octets_text(done)
                &&& digits > 0 ==> p == octets_text(done) + decimal(cur as nat)
            }
        }),
    decreases p.len(),
{
    if p.len() > 0 {
        let q = p.drop_last();
        let c = p.last();
        lemma_scan_sound(q);
        let (done, cur, digits, ok) = ipv4_scan(q);
        assert(q.push(c) =~= p);
        if ok && 48 <= c <= 57 && !((digits > 0 && cur == 0) || cur as int * 10 + (c - 48) > 255) {
            let v = cur as int * 10 + (c - 48);
            if digits > 0 {
                lemma_div_ten(cur as int, c - 48);
                assert(decimal(v as nat).drop_last() == decimal(cur as nat));
                assert(octets_text(done) + decimal(v as nat) =~= (octets_text(done) + decimal(
                    cur as nat,
                )).push(c));
            } else {
                assert(decimal(v as nat) =~= seq![c]);
                assert(octets_text(done) + decimal(v as nat) =~= octets_text(done).push(c));
            }
        } else if ok && c == 46 && digits > 0 && done.len() < 3 {
            let nd = done.push(cur);
            assert(nd.drop_last() =~= done);
            assert(octets_text(nd) =~= (octets_text(done) + decimal(cur as nat)).push(c));
        }
    }
}

/// Reads an IPv4 address in dotted-decimal form (`10.0.0.5`).
pub fn parse_ipv4(text: &str) -> (r: Option<Ipv4>)
    ensures
        r matches Some(ip) ==> ipv4_of_text(text@) == Some(ip.bits),
        r is None ==> ipv4_of_text(text@) is None,
{
    let b = text.as_bytes();
    let mut done: Vec<u32> = Vec::new();
    let mut cur: u32 = 0;
    let mut digits: usize = 0;
    let mut ok = true;
    let mut i: usize = 0;
    while i < b.len()
        invariant
            0 <= i <= b@.len(),
            b@ == encode_utf8(text@),
            digits <= i,
            ipv4_scan(b@.take(i as int)) == (done@, cur, digits as nat, ok),
        decreases b@.len() - i,
    {
        let c = b[i];
        proof {
            assert(b@.take(i as int + 1).drop_last() =~= b@.take(i as int));
            lemma_scan_sound(b@.take(i as int));
        }
        if ok {
            if 48 <= c && c <= 57 {
                let v = cur * 10 + (c - 48) as u32;
                if (digits > 0 && cur == 0) || v > 255 {
                    ok = false;
                } else {
                    cur = v;
                    digits = digits + 1;
                }
            } else if c == 46 && digits > 0 && done.len() < 3 {
                done.push(cur);
                cur = 0;
                digits = 0;
            } else {
                ok = false;
            }
        }
        i = i + 1;
    }
    assert(b@.take(b@.len() as int) =~= b@);
    proof {
        lemma_scan_sound(b@);
        if exists|a: nat, x: nat, c: nat, d: nat| writes_ipv4(b@, a, x, c, d) {
            let (a, x, c, d) = choose|a: nat, x: nat, c: nat, d: nat| writes_ipv4(b@, a, x, c, d);
            lemma_scan_complete(a, x, c, d);
        }
    }
    if ok && digits > 0 && done.len() == 3 {
        proof {
            let (a, x, c, d) = (done@[0] as nat, done@[1] as nat, done@[2] as nat, cur as nat);
            let ds = done@;
            let dot = seq![46u8];
            let e = Seq::<u32>::empty();
            assert(ds.drop_last().drop_last().drop_last() =~= e);
            assert(octets_text(e) == Seq::<u8>::empty());
            assert(octets_text(ds.drop_last().drop_last()) == octets_text(e) + decimal(a) + dot);
            assert(octets_text(ds.drop_last()) == octets_text(ds.drop_last().drop_last())
                + decimal(x) + dot);
            assert(octets_text(ds) == octets_text(ds.drop_last()) + decimal(c) + dot);
            assert(octets_text(ds) + decimal(d) =~= ipv4_text(a, x, c, d));
            assert(writes_ipv4(b@, a, x, c, d));
        }
        Some(Ipv4::from_octets(done[0] as u8, done[1] as u8, done[2] as u8, cur as u8))
    } else {
        None
    }
}

} // verus!
