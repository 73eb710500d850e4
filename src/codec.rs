//! Decoding of the kernel's reversed hexadecimal `address:port` encoding.

use vstd::prelude::*;
use vstd::string::StringExecFns;
use vstd::string::StringSliceAdditionalSpecFns;

verus! {

/// An IPv4 socket address: the four octets in human order and a port.
#[derive(PartialEq, Eq, Structural, Clone, Copy, Debug)]
pub struct SocketAddress {
    pub a: u8,
    pub b: u8,
    pub c: u8,
    pub d: u8,
    pub port: u16,
}

pub open spec fn is_hex_byte(b: u8) -> bool {
    (48 <= b && b <= 57) || (65 <= b && b <= 70) || (97 <= b && b <= 102)
}

pub open spec fn all_hex(s: Seq<u8>) -> bool {
    forall|i: int| 0 <= i < s.len() ==> is_hex_byte(#[trigger] s[i])
}

/// Value of one hexadecimal digit.
pub open spec fn hex_val(b: u8) -> nat {
    if 48 <= b && b <= 57 {
        (b - 48) as nat
    } else if 65 <= b && b <= 70 {
        (b - 55) as nat
    } else {
        (b - 87) as nat
    }
}

/// Value of a big-endian hexadecimal numeral.
pub open spec fn hex_num(s: Seq<u8>) -> nat
    decreases s.len(),
{
    if s.len() == 0 {
        0
    } else {
        hex_num(s.drop_last()) * 16 + hex_val(s.last())
    }
}

/// The `k`-th two-digit group of a hexadecimal field, as a byte.
pub open spec fn hex_byte_at(s: Seq<u8>, k: int) -> u8 {
    hex_num(s.subrange(2 * k, 2 * k + 2)) as u8
}

/// The socket address denoted by an 8-digit address field, whose byte groups
/// come last octet first, and a 4-digit big-endian port field.
pub open spec fn decode_spec(addr: Seq<u8>, port: Seq<u8>) -> SocketAddress {
    SocketAddress {
        a: hex_byte_at(addr, 3),
        b: hex_byte_at(addr, 2),
        c: hex_byte_at(addr, 1),
        d: hex_byte_at(addr, 0),
        port: hex_num(port) as u16,
    }
}

/// Upper-case hexadecimal digit for a value below 16.
pub open spec fn hex_digit(n: nat) -> u8 {
    if n < 10 {
        (n + 48) as u8
    } else {
        (n + 55) as u8
    }
}

pub open spec fn hex_pair(v: u8) -> Seq<u8> {
    seq![hex_digit(v as nat / 16), hex_digit(v as nat % 16)]
}

/// The kernel's address field for a socket address.
pub open spec fn encode_addr(sa: SocketAddress) -> Seq<u8> {
    hex_pair(sa.d) + hex_pair(sa.c) + hex_pair(sa.b) + hex_pair(sa.a)
}

/// The kernel's port field for a port.
pub open spec fn encode_port(p: u16) -> Seq<u8> {
    hex_pair((p / 256) as u8) + hex_pair((p % 256) as u8)
}

pub open spec fn digit_char(n: nat) -> char {
    ((n % 10 + 48) as u8) as char
}

/// Decimal numeral of a natural number, without leading zeros.
pub open spec fn dec_chars(n: nat) -> Seq<char>
    decreases n,
{
    if n < 10 {
        seq![digit_char(n)]
    } else {
        dec_chars(n / 10).push(digit_char(n % 10))
    }
}

/// The text `a.b.c.d:port` of a socket address.
pub open spec fn addr_text(sa: SocketAddress) -> Seq<char> {
    dec_chars(sa.a as nat) + seq!['.'] + dec_chars(sa.b as nat) + seq!['.'] + dec_chars(
        sa.c as nat,
    ) + seq!['.'] + dec_chars(sa.d as nat) + seq![':'] + dec_chars(sa.port as nat)
}

pub open spec fn hex_cap(n: nat) -> nat
    decreases n,
{
    if n == 0 {
        1
    } else {
        hex_cap((n - 1) as nat) * 16
    }
}

fn hex_value(b: u8) -> (r: u8)
    requires
        is_hex_byte(b),
    ensures
        r as nat == hex_val(b),
        r < 16,
{
    if b <= 57 {
        b - 48
    } else if b <= 70 {
        b - 55
    } else {
        b - 87
    }
}

/// Value of the hexadecimal numeral `s[start..start + len]`.
fn hex_number(s: &[u8], start: usize, len: usize) -> (r: u32)
    requires
        start + len <= s@.len(),
        len <= 4,
        all_hex(s@.subrange(start as int, start + len)),
    ensures
        r as nat == hex_num(s@.subrange(start as int, start + len)),
        r < 65536,
{
    let _n = s.len();
    let end = start + len;
    assert(hex_cap(0) == 1);
    assert(hex_cap(1) == 16);
    assert(hex_cap(2) == 256);
    assert(hex_cap(3) == 4096);
    assert(hex_cap(4) == 65536);
    let mut acc: u32 = 0;
    let mut i: usize = start;
    while i < end
        invariant
            end == start + len,
            hex_cap(0) == 1 && hex_cap(1) == 16 && hex_cap(2) == 256 && hex_cap(3) == 4096,
            start <= i <= start + len,
            start + len <= s@.len(),
            len <= 4,
            all_hex(s@.subrange(start as int, start + len)),
            acc as nat == hex_num(s@.subrange(start as int, i as int)),
            (acc as nat) < hex_cap((i - start) as nat),
        decreases start + len - i,
    {
        assert(s@.subrange(start as int, start + len)[i - start] == s@[i as int]);
        let v = hex_value(s[i]);
        let ghost prev = s@.subrange(start as int, i as int);
        let ghost next = s@.subrange(start as int, i + 1);
        assert(next.drop_last() =~= prev);
        assert(next.last() == s@[i as int]);
        let ghost cap = hex_cap((i - start) as nat);
        assert(cap <= 4096) by {
            assert(i - start <= 3);
            if i - start == 2 {
            } else if i - start == 1 {
            }
        }
        assert((acc as nat) * 16 + (v as nat) < cap * 16) by (nonlinear_arith)
            requires
                (acc as nat) < cap,
                v < 16,
        ;
        acc = acc * 16 + v as u32;
        i = i + 1;
    }
    acc
}

/// Decodes the address field `addr[addr_at..addr_at + 8]` and the port field
/// `port[port_at..port_at + 4]`.
pub fn decode_address(addr: &[u8], addr_at: usize, port: &[u8], port_at: usize) -> (r:
    SocketAddress)
    requires
        addr_at + 8 <= addr@.len(),
        port_at + 4 <= port@.len(),
        all_hex(addr@.subrange(addr_at as int, addr_at + 8)),
        all_hex(port@.subrange(port_at as int, port_at + 4)),
    ensures
        r == decode_spec(
            addr@.subrange(addr_at as int, addr_at + 8),
            port@.subrange(port_at as int, port_at + 4),
        ),
{
    let _n = addr.len();
    let ghost f = addr@.subrange(addr_at as int, addr_at + 8);
    proof {
        lemma_sub_hex(addr@, addr_at as int, addr_at + 8, addr_at as int, addr_at + 2);
        lemma_sub_hex(addr@, addr_at as int, addr_at + 8, addr_at + 2, addr_at + 4);
        lemma_sub_hex(addr@, addr_at as int, addr_at + 8, addr_at + 4, addr_at + 6);
        lemma_sub_hex(addr@, addr_at as int, addr_at + 8, addr_at + 6, addr_at + 8);
    }
    let o0 = hex_number(addr, addr_at, 2);
    let o1 = hex_number(addr, addr_at + 2, 2);
    let o2 = hex_number(addr, addr_at + 4, 2);
    let o3 = hex_number(addr, addr_at + 6, 2);
    let p = hex_number(port, port_at, 4);
    proof {
        assert(f.subrange(0, 2) =~= addr@.subrange(addr_at as int, addr_at + 2));
        assert(f.subrange(2, 4) =~= addr@.subrange(addr_at + 2, addr_at + 4));
        assert(f.subrange(4, 6) =~= addr@.subrange(addr_at + 4, addr_at + 6));
        assert(f.subrange(6, 8) =~= addr@.subrange(addr_at + 6, addr_at + 8));
        lemma_pair_bound(addr@.subrange(addr_at as int, addr_at + 2));
        lemma_pair_bound(addr@.subrange(addr_at + 2, addr_at + 4));
        lemma_pair_bound(addr@.subrange(addr_at + 4, addr_at + 6));
        lemma_pair_bound(addr@.subrange(addr_at + 6, addr_at + 8));
    }
    SocketAddress { a: o3 as u8, b: o2 as u8, c: o1 as u8, d: o0 as u8, port: p as u16 }
}

proof fn lemma_sub_hex(s: Seq<u8>, lo: int, hi: int, a: int, b: int)
    requires
        0 <= lo <= a <= b <= hi <= s.len(),
        all_hex(s.subrange(lo, hi)),
    ensures
        all_hex(s.subrange(a, b)),
{
    assert forall|j: int| 0 <= j < b - a implies is_hex_byte(#[trigger] s.subrange(a, b)[j]) by {
        assert(s.subrange(lo, hi)[a - lo + j] == s[a + j]);
    }
}

proof fn lemma_pair_bound(s: Seq<u8>)
    requires
        s.len() == 2,
        all_hex(s),
    ensures
        hex_num(s) < 256,
{
    let t = s.drop_last();
    assert(is_hex_byte(s[0]) && is_hex_byte(s[1]));
    let x = hex_val(s[0]);
    let y = hex_val(s[1]);
    assert(t.last() == s[0]);
    assert(hex_num(t.drop_last()) == 0);
    assert(hex_num(t) == x);
    assert(hex_num(s) == x * 16 + y);
    assert(x * 16 + y < 256) by (nonlinear_arith)
        requires
            x < 16,
            y < 16,
    ;
}

/// The decimal digit `d`.
fn digit_text(d: u32) -> (r: &'static str)
    requires
        d < 10,
    ensures
        r@ == seq![digit_char(d as nat)],
{
    proof {
        reveal_strlit("0");
        reveal_strlit("1");
        reveal_strlit("2");
        reveal_strlit("3");
        reveal_strlit("4");
        reveal_strlit("5");
        reveal_strlit("6");
        reveal_strlit("7");
        reveal_strlit("8");
        reveal_strlit("9");
    }
    if d == 0 {
        "0"
    } else if d == 1 {
        "1"
    } else if d == 2 {
        "2"
    } else if d == 3 {
        "3"
    } else if d == 4 {
        "4"
    } else if d == 5 {
        "5"
    } else if d == 6 {
        "6"
    } else if d == 7 {
        "7"
    } else if d == 8 {
        "8"
    } else {
        "9"
    }
}

/// Appends the decimal numeral of `n` to `s`.
pub fn push_decimal(s: &mut String, n: u32)
    ensures
        final(s)@ == old(s)@ + dec_chars(n as nat),
    decreases n,
{
    if n >= 10 {
        push_decimal(s, n / 10);
    }
    s.append(digit_text(n % 10));
    assert(s@ =~= old(s)@ + dec_chars(n as nat));
}

impl SocketAddress {
    /// The text `a.b.c.d:port`.
    pub fn text(&self) -> (r: String)
        ensures
            r@ == addr_text(*self),
    {
        proof {
            reveal_strlit(".");
            reveal_strlit(":");
        }
        let mut s = String::new();
        push_decimal(&mut s, self.a as u32);
        s.append(".");
        push_decimal(&mut s, self.b as u32);
        s.append(".");
        push_decimal(&mut s, self.c as u32);
        s.append(".");
        push_decimal(&mut s, self.d as u32);
        s.append(":");
        push_decimal(&mut s, self.port as u32);
        assert(s@ =~= addr_text(*self));
        s
    }
}

/// Turns the kernel's 8-digit address field and 4-digit port field into the
/// text `a.b.c.d:port`. The address field holds the four octets last first.
pub fn hex_addr_to_ipv4_string(address: &str, port: &str) -> (r: String)
    requires
        address.spec_bytes().len() == 8,
        port.spec_bytes().len() == 4,
        all_hex(address.spec_bytes()),
        all_hex(port.spec_bytes()),
    ensures
        r@ == addr_text(decode_spec(address.spec_bytes(), port.spec_bytes())),
{
    let a = address.as_bytes();
    let p = port.as_bytes();
    assert(a@.subrange(0, 8) =~= a@);
    assert(p@.subrange(0, 4) =~= p@);
    decode_address(a, 0, p, 0).text()
}

proof fn lemma_digit_round_trip(n: nat)
    requires
        n < 16,
    ensures
        is_hex_byte(hex_digit(n)),
        hex_val(hex_digit(n)) == n,
{
}

proof fn lemma_pair_round_trip(v: u8)
    ensures
        all_hex(hex_pair(v)),
        hex_pair(v).len() == 2,
        hex_num(hex_pair(v)) == v,
{
    let s = hex_pair(v);
    lemma_digit_round_trip(v as nat / 16);
    lemma_digit_round_trip(v as nat % 16);
    assert(s.drop_last().drop_last().len() == 0);
    assert(s.drop_last().last() == s[0]);
    assert(hex_num(s.drop_last().drop_last()) == 0);
    assert(hex_num(s.drop_last()) == v as nat / 16);
}

proof fn lemma_hex_num_four(s: Seq<u8>)
    requires
        s.len() == 4,
    ensures
        hex_num(s) == hex_num(s.subrange(0, 2)) * 256 + hex_num(s.subrange(2, 4)),
{
    let s3 = s.drop_last();
    let s2 = s3.drop_last();
    assert(s2 =~= s.subrange(0, 2));
    let t = s.subrange(2, 4);
    assert(t.drop_last().drop_last().len() == 0);
    assert(t.drop_last().last() == s[2]);
    assert(t.last() == s[3]);
    assert(hex_num(t.drop_last().drop_last()) == 0);
    assert(hex_num(t.drop_last()) == hex_val(s[2]));
    assert(s3.last() == s[2]);
    assert(hex_num(t) == hex_val(s[2]) * 16 + hex_val(s[3]));
    assert(hex_num(s3) == hex_num(s2) * 16 + hex_val(s[2]));
    assert(hex_num(s) == hex_num(s3) * 16 + hex_val(s[3]));
}

/// Encoding a socket address in the kernel's reversed hexadecimal form and
/// decoding it gives back the same address and port, hence the same text.
pub proof fn lemma_address_round_trip(sa: SocketAddress)
    ensures
        encode_addr(sa).len() == 8,
        encode_port(sa.port).len() == 4,
        all_hex(encode_addr(sa)),
        all_hex(encode_port(sa.port)),
        decode_spec(encode_addr(sa), encode_port(sa.port)) == sa,
        addr_text(decode_spec(encode_addr(sa), encode_port(sa.port))) == addr_text(sa),
{
    lemma_pair_round_trip(sa.a);
    lemma_pair_round_trip(sa.b);
    lemma_pair_round_trip(sa.c);
    lemma_pair_round_trip(sa.d);
    let hi = (sa.port / 256) as u8;
    let lo = (sa.port % 256) as u8;
    lemma_pair_round_trip(hi);
    lemma_pair_round_trip(lo);
    let e = encode_addr(sa);
    assert(e.subrange(0, 2) =~= hex_pair(sa.d));
    assert(e.subrange(2, 4) =~= hex_pair(sa.c));
    assert(e.subrange(4, 6) =~= hex_pair(sa.b));
    assert(e.subrange(6, 8) =~= hex_pair(sa.a));
    let p = encode_port(sa.port);
    assert(p.subrange(0, 2) =~= hex_pair(hi));
    assert(p.subrange(2, 4) =~= hex_pair(lo));
    lemma_hex_num_four(p);
    assert forall|i: int| 0 <= i < 8 implies is_hex_byte(#[trigger] e[i]) by {
        if i < 2 {
            assert(e[i] == hex_pair(sa.d)[i]);
        } else if i < 4 {
            assert(e[i] == hex_pair(sa.c)[i - 2]);
        } else if i < 6 {
            assert(e[i] == hex_pair(sa.b)[i - 4]);
        } else {
            assert(e[i] == hex_pair(sa.a)[i - 6]);
        }
    }
    assert forall|i: int| 0 <= i < 4 implies is_hex_byte(#[trigger] p[i]) by {
        if i < 2 {
            assert(p[i] == hex_pair(hi)[i]);
        } else {
            assert(p[i] == hex_pair(lo)[i - 2]);
        }
    }
}

} // verus!
