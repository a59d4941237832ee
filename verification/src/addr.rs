use vstd::prelude::*;

verus! {

/// An IPv4 socket address. `ip` holds the address with its first octet in
/// the most significant byte: `a.b.c.d` is `a * 2^24 + b * 2^16 + c * 2^8 + d`.
#[derive(Clone, Copy, Debug, PartialEq, Eq, Structural)]
pub struct SockAddr {
    pub ip: u32,
    pub port: u16,
}

/// The ASCII code of `.`.
pub const DOT: u8 = 46;

/// The ASCII code of `:`.
pub const COLON: u8 = 58;

/// An ASCII decimal digit.
pub open spec fn is_digit(c: u8) -> bool {
    48 <= c <= 57
}

/// Only ASCII decimal digits.
pub open spec fn all_digits(s: Seq<u8>) -> bool {
    forall|i: int| 0 <= i < s.len() ==> is_digit(#[trigger] s[i])
}

/// The number that a string of decimal digits denotes.
pub open spec fn digits_value(s: Seq<u8>) -> nat
    decreases s.len(),
{
    if s.len() == 0 {
        0
    } else {
        digits_value(s.drop_last()) * 10 + (s.last() - 48) as nat
    }
}

/// The decimal text of `n`, without leading zeros (`"0"` for zero).
pub open spec fn dec_text(n: nat) -> Seq<u8>
    decreases n,
{
    if n < 10 {
        seq![(n + 48) as u8]
    } else {
        dec_text(n / 10).push((n % 10 + 48) as u8)
    }
}

/// The four octets of an IPv4 address, first octet first.
pub open spec fn octet(ip: u32, i: int) -> nat {
    if i == 0 {
        (ip / 16777216) as nat
    } else if i == 1 {
        ((ip / 65536) % 256) as nat
    } else if i == 2 {
        ((ip / 256) % 256) as nat
    } else {
        (ip % 256) as nat
    }
}

/// The dotted-decimal text of an IPv4 address, as `Display` of
/// `std::net::Ipv4Addr` and lwIP's `ipaddr_ntoa` write it.
pub open spec fn ipv4_text(ip: u32) -> Seq<u8> {
    dec_text(octet(ip, 0)) + seq![DOT] + dec_text(octet(ip, 1)) + seq![DOT] + dec_text(octet(ip, 2))
        + seq![DOT] + dec_text(octet(ip, 3))
}

/// A field that the dotted-decimal grammar accepts as an octet: one to three
/// digits, no leading zero, at most 255.
pub open spec fn canonical_octet(f: Seq<u8>) -> bool {
    &&& 1 <= f.len() <= 3
    &&& all_digits(f)
    &&& f.len() > 1 ==> f[0] != 48
    &&& digits_value(f) <= 255
}

/// The text of a socket address as `std::net::SocketAddrV4::from_str` accepts
/// it: the dotted-decimal address, a colon, and one or more decimal digits
/// (leading zeros allowed) whose value is the port.
pub open spec fn sock_addr_text(s: Seq<u8>, a: SockAddr) -> bool {
    exists|k: int|
        #![trigger s.take(k)]
        0 <= k < s.len() && s.take(k) == ipv4_text(a.ip) && s[k] == COLON && port_text(
            s.skip(k + 1),
            a.port,
        )
}

/// One or more decimal digits whose value is `port`.
pub open spec fn port_text(p: Seq<u8>, port: u16) -> bool {
    p.len() > 0 && all_digits(p) && digits_value(p) == port
}

// ---------------------------------------------------------------------------
// Lemmas on decimal text

/// The decimal text of a number is one or more digits, without a leading
/// zero, whose value is the number, and as long as the number has digits.
pub proof fn lemma_dec_text_shape(n: nat)
    ensures
        1 <= dec_text(n).len(),
        all_digits(dec_text(n)),
        digits_value(dec_text(n)) == n,
        dec_text(n).len() > 1 ==> dec_text(n)[0] != 48,
        n < 10 ==> dec_text(n).len() == 1,
        10 <= n < 100 ==> dec_text(n).len() == 2,
        100 <= n < 1000 ==> dec_text(n).len() == 3,
        n >= 10 ==> dec_text(n).len() >= 2,
    decreases n,
{
    if n >= 10 {
        lemma_dec_text_shape(n / 10);
        let t = dec_text(n);
        assert(t.drop_last() == dec_text(n / 10));
        assert(n % 10 < 10);
        assert(t.last() == (n % 10 + 48) as u8);
        assert(t.last() - 48 == n % 10);
        assert((n / 10) * 10 + n % 10 == n);
        assert(digits_value(t) == digits_value(t.drop_last()) * 10 + (t.last() - 48) as nat);
        assert(digits_value(t) == n);
        assert forall|i: int| 0 <= i < t.len() implies is_digit(#[trigger] t[i]) by {
            if i < t.len() - 1 {
                assert(t[i] == dec_text(n / 10)[i]);
            }
        }
        if dec_text(n / 10).len() == 1 {
            assert(n / 10 < 10);
        }
        assert(t[0] == dec_text(n / 10)[0]);
    } else {
        let t = dec_text(n);
        assert(t.drop_last() =~= Seq::<u8>::empty());
        assert(digits_value(t.drop_last()) == 0);
    }
}

/// A canonical octet field is the decimal text of its value.
pub proof fn lemma_canonical_octet(f: Seq<u8>)
    requires
        canonical_octet(f),
    ensures
        f == dec_text(digits_value(f)),
{
    let v: nat = digits_value(f);
    reveal_with_fuel(digits_value, 4);
    reveal_with_fuel(dec_text, 4);
    if f.len() == 1 {
        assert(f =~= dec_text(v));
    } else if f.len() == 2 {
        assert(f.drop_last().drop_last().len() == 0);
        assert(f =~= dec_text(v));
    } else {
        assert(f.drop_last().drop_last().drop_last().len() == 0);
        assert(f =~= dec_text(v));
    }
}

/// Decimal text of an octet value is a canonical octet.
pub proof fn lemma_octet_canonical(n: nat)
    requires
        n <= 255,
    ensures
        canonical_octet(dec_text(n)),
{
    lemma_dec_text_shape(n);
}


/// The octets of `a * 2^24 + b * 2^16 + c * 2^8 + d` are `a`, `b`, `c`, `d`.
pub proof fn lemma_octets_of(ip: u32, a: nat, b: nat, c: nat, d: nat)
    requires
        a <= 255,
        b <= 255,
        c <= 255,
        d <= 255,
        ip == a * 16777216 + b * 65536 + c * 256 + d,
    ensures
        octet(ip, 0) == a,
        octet(ip, 1) == b,
        octet(ip, 2) == c,
        octet(ip, 3) == d,
{
    assert(ip / 16777216 == a) by (nonlinear_arith)
        requires
            a <= 255,
            b <= 255,
            c <= 255,
            d <= 255,
            ip == a * 16777216 + b * 65536 + c * 256 + d,
    ;
    assert(ip / 65536 == a * 256 + b) by (nonlinear_arith)
        requires
            a <= 255,
            b <= 255,
            c <= 255,
            d <= 255,
            ip == a * 16777216 + b * 65536 + c * 256 + d,
    ;
    assert(ip / 256 == a * 65536 + b * 256 + c) by (nonlinear_arith)
        requires
            a <= 255,
            b <= 255,
            c <= 255,
            d <= 255,
            ip == a * 16777216 + b * 65536 + c * 256 + d,
    ;
    assert((a * 256 + b) % 256 == b) by (nonlinear_arith)
        requires
            b <= 255,
    ;
    assert((a * 65536 + b * 256 + c) % 256 == c) by (nonlinear_arith)
        requires
            c <= 255,
    ;
    assert(ip % 256 == d) by (nonlinear_arith)
        requires
            d <= 255,
            ip == a * 16777216 + b * 65536 + c * 256 + d,
    ;
}

/// An address is the sum of its octets weighted by their places.
pub proof fn lemma_octets_sum(ip: u32)
    ensures
        ip == octet(ip, 0) * 16777216 + octet(ip, 1) * 65536 + octet(ip, 2) * 256 + octet(ip, 3),
        octet(ip, 0) <= 255,
        octet(ip, 1) <= 255,
        octet(ip, 2) <= 255,
        octet(ip, 3) <= 255,
{
    let x: int = ip as int;
    assert(x == (x / 16777216) * 16777216 + ((x / 65536) % 256) * 65536 + ((x / 256) % 256) * 256 + x
        % 256) by (nonlinear_arith)
        requires
            0 <= x,
    {
        assert(x == (x / 256) * 256 + x % 256);
        assert(x / 256 == (x / 65536) * 256 + (x / 256) % 256);
        assert(x / 65536 == (x / 16777216) * 256 + (x / 65536) % 256);
    }
    assert(x / 16777216 <= 255) by (nonlinear_arith)
        requires
            0 <= x < 4294967296,
    ;
}

/// Where the dots and fields of an address's text lie.
pub proof fn lemma_text_fields(ip: u32)
    ensures
        ({
            let t = ipv4_text(ip);
            let d0 = dec_text(octet(ip, 0));
            let d1 = dec_text(octet(ip, 1));
            let d2 = dec_text(octet(ip, 2));
            let d3 = dec_text(octet(ip, 3));
            let p0: int = d0.len() as int;
            let p1: int = p0 + 1 + d1.len();
            let p2: int = p1 + 1 + d2.len();
            &&& t.len() == p2 + 1 + d3.len()
            &&& t[p0] == DOT && t[p1] == DOT && t[p2] == DOT
            &&& t.subrange(0, p0) == d0
            &&& t.subrange(p0 + 1, p1) == d1
            &&& t.subrange(p1 + 1, p2) == d2
            &&& t.subrange(p2 + 1, t.len() as int) == d3
            &&& forall|i: int| 0 <= i < t.len() ==> #[trigger] t[i] != COLON
            &&& forall|i: int|
                0 <= i < t.len() && i != p0 && i != p1 && i != p2 ==> is_digit(#[trigger] t[i])
            &&& canonical_octet(d0) && canonical_octet(d1) && canonical_octet(d2) && canonical_octet(d3)
            &&& 1 <= d0.len() && 1 <= d1.len() && 1 <= d2.len() && 1 <= d3.len()
        }),
{
    lemma_octets_sum(ip);
    let t = ipv4_text(ip);
    let d0 = dec_text(octet(ip, 0));
    let d1 = dec_text(octet(ip, 1));
    let d2 = dec_text(octet(ip, 2));
    let d3 = dec_text(octet(ip, 3));
    lemma_dec_text_shape(octet(ip, 0));
    lemma_dec_text_shape(octet(ip, 1));
    lemma_dec_text_shape(octet(ip, 2));
    lemma_dec_text_shape(octet(ip, 3));
    lemma_octet_canonical(octet(ip, 0));
    lemma_octet_canonical(octet(ip, 1));
    lemma_octet_canonical(octet(ip, 2));
    lemma_octet_canonical(octet(ip, 3));
    let p0: int = d0.len() as int;
    let p1: int = p0 + 1 + d1.len();
    let p2: int = p1 + 1 + d2.len();
    assert(t.subrange(0, p0) =~= d0);
    assert(t.subrange(p0 + 1, p1) =~= d1);
    assert(t.subrange(p1 + 1, p2) =~= d2);
    assert(t.subrange(p2 + 1, t.len() as int) =~= d3);
    assert forall|i: int|
        0 <= i < t.len() && i != p0 && i != p1 && i != p2 implies is_digit(#[trigger] t[i]) by {
        if i < p0 {
            assert(t[i] == d0[i]);
        } else if i < p1 {
            assert(t[i] == d1[i - p0 - 1]);
        } else if i < p2 {
            assert(t[i] == d2[i - p1 - 1]);
        } else {
            assert(t[i] == d3[i - p2 - 1]);
        }
    }
    assert forall|i: int| 0 <= i < t.len() implies #[trigger] t[i] != COLON by {
        if i != p0 && i != p1 && i != p2 {
            assert(is_digit(t[i]));
        }
    }
}


/// `end` is the first index at or after `start` that holds `sep`, or the
/// length of `s` where there is none.
pub open spec fn sep_scan(s: Seq<u8>, start: int, end: int, sep: u8) -> bool {
    &&& 0 <= start <= end <= s.len()
    &&& forall|i: int| start <= i < end ==> s[i] != sep
    &&& end < s.len() ==> s[end] == sep
}

proof fn lemma_sep_scan_unique(s: Seq<u8>, start: int, e: int, p: int, sep: u8)
    requires
        sep_scan(s, start, e, sep),
        start <= p < s.len(),
        s[p] == sep,
        forall|i: int| start <= i < p ==> s[i] != sep,
    ensures
        e == p,
{
    if e < p {
        assert(s[e] == sep);
    } else if e > p {
        assert(s[p] != sep);
    }
}

/// Scanning the text of an address for its dots finds them where they are,
/// and finds four canonical fields between them.
proof fn lemma_text_scan(s: Seq<u8>, ip: u32, e0: int, e1: int, e2: int, e3: int)
    requires
        s == ipv4_text(ip),
        sep_scan(s, 0, e0, DOT),
    ensures
        e0 < s.len() && canonical_octet(s.subrange(0, e0)),
        sep_scan(s, e0 + 1, e1, DOT) ==> e1 < s.len() && canonical_octet(s.subrange(e0 + 1, e1)),
        sep_scan(s, e0 + 1, e1, DOT) && sep_scan(s, e1 + 1, e2, DOT) ==> e2 < s.len()
            && canonical_octet(s.subrange(e1 + 1, e2)),
        sep_scan(s, e0 + 1, e1, DOT) && sep_scan(s, e1 + 1, e2, DOT) && sep_scan(
            s,
            e2 + 1,
            e3,
            DOT,
        ) ==> e3 == s.len() && canonical_octet(s.subrange(e2 + 1, e3)),
{
    lemma_text_fields(ip);
    let d0 = dec_text(octet(ip, 0));
    let d1 = dec_text(octet(ip, 1));
    let d2 = dec_text(octet(ip, 2));
    let p0: int = d0.len() as int;
    let p1: int = p0 + 1 + d1.len();
    let p2: int = p1 + 1 + d2.len();
    assert forall|i: int| 0 <= i < p0 implies s[i] != DOT by {
        assert(is_digit(s[i]));
    }
    lemma_sep_scan_unique(s, 0, e0, p0, DOT);
    if sep_scan(s, e0 + 1, e1, DOT) {
        assert forall|i: int| p0 + 1 <= i < p1 implies s[i] != DOT by {
            assert(is_digit(s[i]));
        }
        lemma_sep_scan_unique(s, p0 + 1, e1, p1, DOT);
        if sep_scan(s, e1 + 1, e2, DOT) {
            assert forall|i: int| p1 + 1 <= i < p2 implies s[i] != DOT by {
                assert(is_digit(s[i]));
            }
            lemma_sep_scan_unique(s, p1 + 1, e2, p2, DOT);
            if sep_scan(s, e2 + 1, e3, DOT) {
                if e3 < s.len() {
                    assert(is_digit(s[e3]));
                }
            }
        }
    }
}

/// When a scan of `s` fails, `s` is the text of no address.
proof fn lemma_not_text(s: Seq<u8>, e0: int, e1: int, e2: int, e3: int)
    requires
        sep_scan(s, 0, e0, DOT),
        !(e0 < s.len() && canonical_octet(s.subrange(0, e0))) || (sep_scan(s, e0 + 1, e1, DOT) && (
        !(e1 < s.len() && canonical_octet(s.subrange(e0 + 1, e1))) || (sep_scan(s, e1 + 1, e2, DOT) && (
        !(e2 < s.len() && canonical_octet(s.subrange(e1 + 1, e2))) || (sep_scan(s, e2 + 1, e3, DOT)
            && !(e3 == s.len() && canonical_octet(s.subrange(e2 + 1, e3)))))))),
    ensures
        forall|ip: u32| s != #[trigger] ipv4_text(ip),
{
    assert forall|ip: u32| s != #[trigger] ipv4_text(ip) by {
        if s == ipv4_text(ip) {
            lemma_text_scan(s, ip, e0, e1, e2, e3);
        }
    }
}

// ---------------------------------------------------------------------------
// Formatting

/// Appends the decimal text of `n` to `out`.
fn push_decimal(out: &mut Vec<u8>, n: u8)
    ensures
        final(out)@ == old(out)@ + dec_text(n as nat),
{
    proof {
        reveal_with_fuel(dec_text, 3);
    }
    if n >= 100 {
        out.push(n / 100 + 48);
        out.push((n / 10) % 10 + 48);
        out.push(n % 10 + 48);
        assert(dec_text(n as nat) =~= seq![(n / 100 + 48) as u8, ((n / 10) % 10 + 48) as u8, (n % 10 + 48) as u8]);
    } else if n >= 10 {
        out.push(n / 10 + 48);
        out.push(n % 10 + 48);
        assert(dec_text(n as nat) =~= seq![(n / 10 + 48) as u8, (n % 10 + 48) as u8]);
    } else {
        out.push(n + 48);
        assert(dec_text(n as nat) =~= seq![(n + 48) as u8]);
    }
}

/// The dotted-decimal text of an IPv4 address (`"10.0.0.1"`), as `Display`
/// of `Ipv4Addr` and lwIP's `ipaddr_ntoa` write it.
pub fn format_ipv4(ip: u32) -> (r: Vec<u8>)
    ensures
        r@ == ipv4_text(ip),
{
    let mut out: Vec<u8> = Vec::new();
    push_decimal(&mut out, (ip / 16777216) as u8);
    out.push(DOT);
    push_decimal(&mut out, ((ip / 65536) % 256) as u8);
    out.push(DOT);
    push_decimal(&mut out, ((ip / 256) % 256) as u8);
    out.push(DOT);
    push_decimal(&mut out, (ip % 256) as u8);
    proof {
        lemma_octets_sum(ip);
    }
    assert(out@ =~= ipv4_text(ip));
    out
}

// ---------------------------------------------------------------------------
// Parsing

/// The first index at or after `start` that holds `sep`, or the length of `s`.
fn find_byte(s: &[u8], start: usize, sep: u8) -> (end: usize)
    requires
        start <= s.len(),
    ensures
        sep_scan(s@, start as int, end as int, sep),
{
    let mut i: usize = start;
    while i < s.len()
        invariant
            start <= i <= s.len(),
            forall|j: int| start <= j < i ==> s@[j] != sep,
        decreases s.len() - i,
    {
        if s[i] == sep {
            return i;
        }
        i = i + 1;
    }
    i
}

/// The value of the octet field `s[start..end]`, if the dotted-decimal
/// grammar accepts it.
fn octet_value(s: &[u8], start: usize, end: usize) -> (r: Option<u8>)
    requires
        start <= end <= s.len(),
    ensures
        match r {
            Some(v) => canonical_octet(s@.subrange(start as int, end as int)) && v == digits_value(
                s@.subrange(start as int, end as int),
            ),
            None => !canonical_octet(s@.subrange(start as int, end as int)),
        },
{
    let ghost f = s@.subrange(start as int, end as int);
    if end - start < 1 || end - start > 3 {
        return None;
    }
    if end - start > 1 && s[start] == 48 {
        return None;
    }
    let mut v: u32 = 0;
    let mut i: usize = start;
    while i < end
        invariant
            start <= i <= end <= s.len(),
            end - start <= 3,
            f == s@.subrange(start as int, end as int),
            all_digits(s@.subrange(start as int, i as int)),
            v == digits_value(s@.subrange(start as int, i as int)),
            v < 1000,
            i - start == 0 ==> v == 0,
            i - start == 1 ==> v < 10,
            i - start == 2 ==> v < 100,
        decreases end - i,
    {
        let c: u8 = s[i];
        if c < 48 || c > 57 {
            assert(f[i - start] == c);
            return None;
        }
        proof {
            let p = s@.subrange(start as int, i as int + 1);
            assert(p.drop_last() =~= s@.subrange(start as int, i as int));
            assert(p.last() == c);
        }
        v = v * 10 + (c - 48) as u32;
        i = i + 1;
    }
    if v > 255 {
        return None;
    }
    Some(v as u8)
}

/// Parses dotted-decimal IPv4 text, as `Ipv4Addr::from_str` does: exactly
/// four fields separated by dots, each of one to three digits without a
/// leading zero and at most 255.
#[verifier::rlimit(40)]
pub fn parse_ipv4(s: &[u8]) -> (r: Option<u32>)
    ensures
        match r {
            Some(ip) => s@ == ipv4_text(ip),
            None => forall|ip: u32| s@ != #[trigger] ipv4_text(ip),
        },
{
    let e0: usize = find_byte(s, 0, DOT);
    let v0 = octet_value(s, 0, e0);
    if v0.is_none() || e0 >= s.len() {
        proof { lemma_not_text(s@, e0 as int, 0, 0, 0); }
        return None;
    }
    let e1: usize = find_byte(s, e0 + 1, DOT);
    let v1 = octet_value(s, e0 + 1, e1);
    if v1.is_none() || e1 >= s.len() {
        proof { lemma_not_text(s@, e0 as int, e1 as int, 0, 0); }
        return None;
    }
    let e2: usize = find_byte(s, e1 + 1, DOT);
    let v2 = octet_value(s, e1 + 1, e2);
    if v2.is_none() || e2 >= s.len() {
        proof { lemma_not_text(s@, e0 as int, e1 as int, e2 as int, 0); }
        return None;
    }
    let e3: usize = find_byte(s, e2 + 1, DOT);
    let v3 = octet_value(s, e2 + 1, e3);
    if v3.is_none() || e3 != s.len() {
        proof { lemma_not_text(s@, e0 as int, e1 as int, e2 as int, e3 as int); }
        return None;
    }
    let a: u32 = v0.unwrap() as u32;
    let b: u32 = v1.unwrap() as u32;
    let c: u32 = v2.unwrap() as u32;
    let d: u32 = v3.unwrap() as u32;
    let ip: u32 = a * 16777216 + b * 65536 + c * 256 + d;
    proof {
        lemma_octets_of(ip, a as nat, b as nat, c as nat, d as nat);
        lemma_canonical_octet(s@.subrange(0, e0 as int));
        lemma_canonical_octet(s@.subrange(e0 + 1, e1 as int));
        lemma_canonical_octet(s@.subrange(e1 + 1, e2 as int));
        lemma_canonical_octet(s@.subrange(e2 + 1, e3 as int));
        assert(s@ =~= ipv4_text(ip));
    }
    Some(ip)
}


/// Two addresses with the same text are the same address.
pub proof fn lemma_text_injective(x: u32, y: u32)
    requires
        ipv4_text(x) == ipv4_text(y),
    ensures
        x == y,
{
    let t = ipv4_text(x);
    lemma_text_fields(x);
    lemma_text_fields(y);
    lemma_octets_sum(x);
    lemma_octets_sum(y);
    let x0 = dec_text(octet(x, 0));
    let x1 = dec_text(octet(x, 1));
    let x2 = dec_text(octet(x, 2));
    let y0 = dec_text(octet(y, 0));
    let y1 = dec_text(octet(y, 1));
    let y2 = dec_text(octet(y, 2));
    let p0: int = x0.len() as int;
    let p1: int = p0 + 1 + x1.len();
    let p2: int = p1 + 1 + x2.len();
    let q0: int = y0.len() as int;
    let q1: int = q0 + 1 + y1.len();
    let q2: int = q1 + 1 + y2.len();
    assert forall|i: int| 0 <= i < p0 implies t[i] != DOT by {
        assert(is_digit(t[i]));
    }
    assert forall|i: int| 0 <= i < q0 implies t[i] != DOT by {
        assert(is_digit(t[i]));
    }
    assert(sep_scan(t, 0, p0, DOT));
    lemma_sep_scan_unique(t, 0, p0, q0, DOT);
    assert forall|i: int| p0 + 1 <= i < p1 implies t[i] != DOT by {
        assert(is_digit(t[i]));
    }
    assert forall|i: int| q0 + 1 <= i < q1 implies t[i] != DOT by {
        assert(is_digit(t[i]));
    }
    assert(sep_scan(t, p0 + 1, p1, DOT));
    lemma_sep_scan_unique(t, p0 + 1, p1, q1, DOT);
    assert forall|i: int| p1 + 1 <= i < p2 implies t[i] != DOT by {
        assert(is_digit(t[i]));
    }
    assert forall|i: int| q1 + 1 <= i < q2 implies t[i] != DOT by {
        assert(is_digit(t[i]));
    }
    assert(sep_scan(t, p1 + 1, p2, DOT));
    lemma_sep_scan_unique(t, p1 + 1, p2, q2, DOT);
    lemma_dec_text_shape(octet(x, 0));
    lemma_dec_text_shape(octet(x, 1));
    lemma_dec_text_shape(octet(x, 2));
    lemma_dec_text_shape(octet(x, 3));
    lemma_dec_text_shape(octet(y, 0));
    lemma_dec_text_shape(octet(y, 1));
    lemma_dec_text_shape(octet(y, 2));
    lemma_dec_text_shape(octet(y, 3));
}

/// The value of the port field `s[start..]`, if it is one or more decimal
/// digits whose value fits in 16 bits (leading zeros allowed).
fn parse_port(s: &[u8], start: usize) -> (r: Option<u16>)
    requires
        start <= s.len(),
    ensures
        match r {
            Some(p) => port_text(s@.skip(start as int), p),
            None => forall|p: u16| !port_text(s@.skip(start as int), p),
        },
{
    if start == s.len() {
        return None;
    }
    let mut v: u32 = 0;
    let mut i: usize = start;
    while i < s.len()
        invariant
            start <= i <= s.len(),
            all_digits(s@.subrange(start as int, i as int)),
            v == if digits_value(s@.subrange(start as int, i as int)) < 65536 {
                digits_value(s@.subrange(start as int, i as int))
            } else {
                65536
            },
        decreases s.len() - i,
    {
        let c: u8 = s[i];
        if c < 48 || c > 57 {
            proof {
                let q = s@.skip(start as int);
                assert(q[i - start] == c);
            }
            return None;
        }
        proof {
            let p = s@.subrange(start as int, i as int + 1);
            assert(p.drop_last() =~= s@.subrange(start as int, i as int));
            assert(p.last() == c);
        }
        let n: u32 = v * 10 + (c - 48) as u32;
        v = if n < 65536 { n } else { 65536 };
        i = i + 1;
    }
    assert(s@.subrange(start as int, s.len() as int) =~= s@.skip(start as int));
    if v >= 65536 {
        return None;
    }
    Some(v as u16)
}

/// Parses `"a.b.c.d:port"` as `SocketAddrV4::from_str` does: dotted-decimal
/// address text, a colon, and the port in decimal.
pub fn parse_socket_addr_v4(s: &[u8]) -> (r: Option<SockAddr>)
    ensures
        match r {
            Some(a) => sock_addr_text(s@, a),
            None => forall|a: SockAddr| !sock_addr_text(s@, a),
        },
{
    let k: usize = find_byte(s, 0, COLON);
    if k >= s.len() {
        proof {
            assert forall|a: SockAddr| !sock_addr_text(s@, a) by {
                if sock_addr_text(s@, a) {
                    let j: int = choose|j: int|
                        #![trigger s@.take(j)]
                        0 <= j < s@.len() && s@.take(j) == ipv4_text(a.ip) && s@[j] == COLON
                            && port_text(s@.skip(j + 1), a.port);
                    assert(s@[j] != COLON);
                }
            }
        }
        return None;
    }
    let head = &s[0..k];
    assert(head@ =~= s@.take(k as int));
    let ip = parse_ipv4(head);
    let port = parse_port(s, k + 1);
    proof {
        assert forall|a: SockAddr| #[trigger] sock_addr_text(s@, a) implies ip == Some(a.ip) && port
            == Some(a.port) by {
            let j: int = choose|j: int|
                #![trigger s@.take(j)]
                0 <= j < s@.len() && s@.take(j) == ipv4_text(a.ip) && s@[j] == COLON && port_text(
                    s@.skip(j + 1),
                    a.port,
                );
            lemma_text_fields(a.ip);
            if j < k {
                assert(s@[j] != COLON);
            }
            if k < j {
                assert(s@.take(j)[k as int] == s@[k as int]);
            }
            assert(j == k);
            match ip {
                Some(x) => {
                    lemma_text_injective(x, a.ip);
                },
                None => {},
            }
            match port {
                Some(p) => {},
                None => {},
            }
        }
    }
    match (ip, port) {
        (Some(ip), Some(port)) => {
            let a = SockAddr { ip, port };
            assert(s@.take(k as int) == ipv4_text(a.ip));
            Some(a)
        },
        _ => None,
    }
}


// ---------------------------------------------------------------------------
// Conversions between socket addresses and lwIP's addresses

/// An IP address (`std::net::IpAddr`): IPv4 as in [`SockAddr`], IPv6 as its
/// 128 bits with the first byte most significant.
#[derive(Clone, Copy, Debug, PartialEq, Eq, Structural)]
pub enum IpAddress {
    V4(u32),
    V6(u128),
}

/// lwIP's `ip_addr_t` in a dual-stack build: the address type and its value,
/// numbered as in [`IpAddress`] (the byte order of the stored fields is the
/// caller's concern).
#[derive(Clone, Copy, Debug, PartialEq, Eq, Structural)]
pub enum LwipIpAddr {
    V4(u32),
    V6(u128),
}

/// The socket address of an lwIP endpoint: the address is written out as
/// text (as lwIP's `ipaddr_ntoa` does) and read back as an IPv4 address (as
/// `Ipv4Addr::from_str` does). Only IPv4 endpoints have one; the text of an
/// IPv6 address does not parse as IPv4.
pub fn to_socket_addr(addr: &LwipIpAddr, port: u16) -> (r: SockAddr)
    requires
        addr is V4,
    ensures
        r == (SockAddr { ip: addr->V4_0, port }),
{
    match addr {
        LwipIpAddr::V4(ip) => {
            let text = format_ipv4(*ip);
            let parsed = parse_ipv4(text.as_slice());
            proof {
                if let Some(x) = parsed {
                    lemma_text_injective(x, *ip);
                }
            }
            SockAddr { ip: parsed.unwrap(), port }
        },
        LwipIpAddr::V6(_) => {
            proof {
                assert(false);
            }
            SockAddr { ip: 0, port }
        },
    }
}

/// The lwIP address of an IP address. An IPv4 address goes through its text
/// (as `Display` writes it and lwIP's `ipaddr_aton` reads it), which always
/// reads back; an IPv6 address is carried over as it is.
pub fn to_ip_addr_t(ip: &IpAddress) -> (r: Result<LwipIpAddr, &'static str>)
    ensures
        r == Ok::<LwipIpAddr, &'static str>(
            match *ip {
                IpAddress::V4(a) => LwipIpAddr::V4(a),
                IpAddress::V6(a) => LwipIpAddr::V6(a),
            },
        ),
{
    match ip {
        IpAddress::V4(a) => {
            let text = format_ipv4(*a);
            match parse_ipv4(text.as_slice()) {
                Some(x) => {
                    proof {
                        lemma_text_injective(x, *a);
                    }
                    Ok(LwipIpAddr::V4(x))
                },
                None => Err("ipaddr_aton failed"),
            }
        },
        IpAddress::V6(a) => Ok(LwipIpAddr::V6(*a)),
    }
}

// ---------------------------------------------------------------------------
// Laws

/// Reading back the text of an address gives the address.
pub proof fn law_parse_format(ip: u32, text: Seq<u8>, r: Option<u32>)
    requires
        text == ipv4_text(ip),
        match r {
            Some(x) => text == ipv4_text(x),
            None => forall|x: u32| text != #[trigger] ipv4_text(x),
        },
    ensures
        r == Some(ip),
{
    match r {
        Some(x) => lemma_text_injective(x, ip),
        None => {
            assert(text != ipv4_text(ip));
        },
    }
}

/// Writing out an address that was read from text gives back that text.
pub proof fn law_format_parse(text: Seq<u8>, ip: u32, formatted: Seq<u8>)
    requires
        text == ipv4_text(ip),
        formatted == ipv4_text(ip),
    ensures
        formatted == text,
{
}

/// An endpoint's socket address, turned into an lwIP address and back, is
/// the address it started as.
pub proof fn law_socket_addr_round_trip(a: SockAddr, lw: LwipIpAddr, back: SockAddr)
    requires
        lw == LwipIpAddr::V4(a.ip),
        back == (SockAddr { ip: lw->V4_0, port: a.port }),
    ensures
        back == a,
{
}


/// A text names at most one socket address.
pub proof fn law_sock_addr_text_unique(s: Seq<u8>, a: SockAddr, b: SockAddr)
    requires
        sock_addr_text(s, a),
        sock_addr_text(s, b),
    ensures
        a == b,
{
    let j: int = choose|j: int|
        #![trigger s.take(j)]
        0 <= j < s.len() && s.take(j) == ipv4_text(a.ip) && s[j] == COLON && port_text(
            s.skip(j + 1),
            a.port,
        );
    let k: int = choose|k: int|
        #![trigger s.take(k)]
        0 <= k < s.len() && s.take(k) == ipv4_text(b.ip) && s[k] == COLON && port_text(
            s.skip(k + 1),
            b.port,
        );
    lemma_text_fields(a.ip);
    lemma_text_fields(b.ip);
    if j < k {
        assert(s.take(k)[j] == s[j]);
    }
    if k < j {
        assert(s.take(j)[k] == s[k]);
    }
    assert(j == k);
    lemma_text_injective(a.ip, b.ip);
}

/// Decimal digits mean what they mean: appending the digit `c` to a string
/// of digits multiplies its value by ten and adds the digit's value, a
/// single digit's text is that digit, and the text of a number below ten,
/// a hundred or a thousand has one, two or three digits.
pub proof fn law_decimal(s: Seq<u8>, c: u8, n: nat)
    requires
        is_digit(c),
    ensures
        digits_value(s.push(c)) == digits_value(s) * 10 + (c - 48),
        n < 10 ==> dec_text(n) == seq![(n + 48) as u8],
        digits_value(dec_text(n)) == n,
        n < 10 ==> dec_text(n).len() == 1,
        10 <= n < 100 ==> dec_text(n).len() == 2,
        100 <= n < 1000 ==> dec_text(n).len() == 3,
{
    assert(s.push(c).drop_last() =~= s);
    lemma_dec_text_shape(n);
}

/// The four octets of an address are its base-256 digits, first octet most
/// significant.
pub proof fn law_octets(ip: u32)
    ensures
        ip == octet(ip, 0) * 16777216 + octet(ip, 1) * 65536 + octet(ip, 2) * 256 + octet(ip, 3),
        octet(ip, 0) <= 255 && octet(ip, 1) <= 255 && octet(ip, 2) <= 255 && octet(ip, 3) <= 255,
{
    lemma_octets_sum(ip);
}

/// The canonical text of a socket address (dotted-decimal address, a colon,
/// the port in decimal) names that address.
pub proof fn law_sock_addr_text_canonical(a: SockAddr)
    ensures
        sock_addr_text(ipv4_text(a.ip) + seq![COLON] + dec_text(a.port as nat), a),
{
    let t = ipv4_text(a.ip);
    let s = t + seq![COLON] + dec_text(a.port as nat);
    let k: int = t.len() as int;
    lemma_dec_text_shape(a.port as nat);
    assert(s.take(k) =~= t);
    assert(s.skip(k + 1) =~= dec_text(a.port as nat));
    assert(s[k] == COLON);
    assert(port_text(s.skip(k + 1), a.port));
}

} // verus!
