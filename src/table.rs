//! The per-protocol connection table: its row grammar and the rows that
//! belong to a set of socket inodes.

use vstd::prelude::*;
use vstd::string::StringSliceAdditionalSpecFns;
use vstd::utf8::encode_utf8;
use crate::codec::{SocketAddress, all_hex, decode_address, decode_spec, is_hex_byte};

verus! {

/// One row of a connection table: its two addresses and its socket inode.
#[derive(PartialEq, Eq, Structural, Clone, Copy, Debug)]
pub struct TableRow {
    pub local: SocketAddress,
    pub remote: SocketAddress,
    pub inode: u64,
}

pub open spec fn is_ws(b: u8) -> bool {
    b == 32 || (9 <= b && b <= 13)
}

pub open spec fn is_digit(b: u8) -> bool {
    48 <= b && b <= 57
}

/// `0-9` or `A-F`.
pub open spec fn is_upper_hex(b: u8) -> bool {
    is_digit(b) || (65 <= b && b <= 70)
}

/// The bytes that the fields of a row may hold.
pub enum ByteClass {
    Digit,
    UpperHex,
    UpperHexOrColon,
}

pub open spec fn in_class(b: u8, c: ByteClass) -> bool {
    match c {
        ByteClass::Digit => is_digit(b),
        ByteClass::UpperHex => is_upper_hex(b),
        ByteClass::UpperHexOrColon => is_upper_hex(b) || b == 58,
    }
}

pub open spec fn all_in(f: Seq<u8>, c: ByteClass) -> bool {
    forall|i: int| 0 <= i < f.len() ==> in_class(#[trigger] f[i], c)
}

/// First position at or after `i` that holds no whitespace.
pub open spec fn skip_ws(s: Seq<u8>, i: int) -> int
    decreases s.len() - i,
{
    if 0 <= i < s.len() && is_ws(s[i]) {
        skip_ws(s, i + 1)
    } else {
        i
    }
}

/// First position at or after `i` that holds whitespace, or the end.
pub open spec fn tok_end(s: Seq<u8>, i: int) -> int
    decreases s.len() - i,
{
    if 0 <= i < s.len() && !is_ws(s[i]) {
        tok_end(s, i + 1)
    } else {
        i
    }
}

/// Where the `k`-th whitespace-separated field of `s` starts.
pub open spec fn field_start(s: Seq<u8>, k: nat) -> int
    decreases k,
{
    if k == 0 {
        skip_ws(s, 0)
    } else {
        skip_ws(s, tok_end(s, field_start(s, (k - 1) as nat)))
    }
}

/// The `k`-th whitespace-separated field of `s`; empty past the last one.
pub open spec fn field(s: Seq<u8>, k: nat) -> Seq<u8> {
    s.subrange(field_start(s, k), tok_end(s, field_start(s, k)))
}

/// Value of a decimal numeral.
pub open spec fn dec_num(s: Seq<u8>) -> nat
    decreases s.len(),
{
    if s.len() == 0 {
        0
    } else {
        dec_num(s.drop_last()) * 10 + (s.last() - 48) as nat
    }
}

/// Entry index: decimal digits and a colon.
pub open spec fn index_ok(f: Seq<u8>) -> bool {
    f.len() >= 1 && f.last() == 58 && all_in(f.drop_last(), ByteClass::Digit)
}

/// An IPv4 address pair: eight hex digits, a colon, four hex digits.
pub open spec fn addr_ok(f: Seq<u8>) -> bool {
    &&& f.len() == 13
    &&& f[8] == 58
    &&& all_in(f.subrange(0, 8), ByteClass::UpperHex)
    &&& all_in(f.subrange(9, 13), ByteClass::UpperHex)
}

pub open spec fn class_ok(f: Seq<u8>, c: ByteClass) -> bool {
    f.len() >= 1 && all_in(f, c)
}

/// The inode: decimal digits whose value fits in 64 bits.
pub open spec fn inode_ok(f: Seq<u8>) -> bool {
    class_ok(f, ByteClass::Digit) && dec_num(f) <= u64::MAX
}

/// A well-formed row: entry index, local and remote address pairs, a
/// two-digit state, two queue/timer pairs, three hex fields and the inode.
pub open spec fn row_ok(s: Seq<u8>) -> bool {
    &&& index_ok(field(s, 0))
    &&& addr_ok(field(s, 1))
    &&& addr_ok(field(s, 2))
    &&& field(s, 3).len() == 2 && all_in(field(s, 3), ByteClass::UpperHex)
    &&& class_ok(field(s, 4), ByteClass::UpperHexOrColon)
    &&& class_ok(field(s, 5), ByteClass::UpperHexOrColon)
    &&& class_ok(field(s, 6), ByteClass::UpperHex)
    &&& class_ok(field(s, 7), ByteClass::UpperHex)
    &&& class_ok(field(s, 8), ByteClass::UpperHex)
    &&& inode_ok(field(s, 9))
}

pub open spec fn addr_of(f: Seq<u8>) -> SocketAddress {
    decode_spec(f.subrange(0, 8), f.subrange(9, 13))
}

/// The row that a line of a connection table holds, if it is well formed.
pub open spec fn parse_row(s: Seq<u8>) -> Option<TableRow> {
    if row_ok(s) {
        Some(
            TableRow {
                local: addr_of(field(s, 1)),
                remote: addr_of(field(s, 2)),
                inode: dec_num(field(s, 9)) as u64,
            },
        )
    } else {
        None
    }
}

fn skip_ws_exec(s: &[u8], i: usize) -> (r: usize)
    requires
        i <= s@.len(),
    ensures
        r == skip_ws(s@, i as int),
        i <= r <= s@.len(),
{
    let mut j = i;
    while j < s.len() && (s[j] == 32 || (9 <= s[j] && s[j] <= 13))
        invariant
            i <= j <= s@.len(),
            skip_ws(s@, j as int) == skip_ws(s@, i as int),
        decreases s@.len() - j,
    {
        j = j + 1;
    }
    j
}

fn tok_end_exec(s: &[u8], i: usize) -> (r: usize)
    requires
        i <= s@.len(),
    ensures
        r == tok_end(s@, i as int),
        i <= r <= s@.len(),
{
    let mut j = i;
    while j < s.len() && !(s[j] == 32 || (9 <= s[j] && s[j] <= 13))
        invariant
            i <= j <= s@.len(),
            tok_end(s@, j as int) == tok_end(s@, i as int),
        decreases s@.len() - j,
    {
        j = j + 1;
    }
    j
}

/// Bounds of the field that follows position `pos`.
fn next_field(s: &[u8], pos: usize) -> (r: (usize, usize))
    requires
        pos <= s@.len(),
    ensures
        r.0 == skip_ws(s@, pos as int),
        r.1 == tok_end(s@, r.0 as int),
        pos <= r.0 <= r.1 <= s@.len(),
{
    let st = skip_ws_exec(s, pos);
    let en = tok_end_exec(s, st);
    (st, en)
}

fn in_class_exec(b: u8, c: &ByteClass) -> (r: bool)
    ensures
        r == in_class(b, *c),
{
    match c {
        ByteClass::Digit => 48 <= b && b <= 57,
        ByteClass::UpperHex => (48 <= b && b <= 57) || (65 <= b && b <= 70),
        ByteClass::UpperHexOrColon => (48 <= b && b <= 57) || (65 <= b && b <= 70) || b == 58,
    }
}

/// Whether every byte of `s[lo..hi]` is in class `c`.
pub(crate) fn all_in_exec(s: &[u8], lo: usize, hi: usize, c: ByteClass) -> (r: bool)
    requires
        lo <= hi <= s@.len(),
    ensures
        r == all_in(s@.subrange(lo as int, hi as int), c),
{
    let mut j = lo;
    while j < hi
        invariant
            lo <= j <= hi <= s@.len(),
            forall|t: int| lo <= t < j ==> in_class(#[trigger] s@[t], c),
        decreases hi - j,
    {
        if !in_class_exec(s[j], &c) {
            assert(s@.subrange(lo as int, hi as int)[j - lo] == s@[j as int]);
            return false;
        }
        j = j + 1;
    }
    assert forall|t: int| 0 <= t < hi - lo implies in_class(
        #[trigger] s@.subrange(lo as int, hi as int)[t],
        c,
    ) by {
        assert(s@.subrange(lo as int, hi as int)[t] == s@[lo + t]);
    }
    true
}

proof fn lemma_dec_mono(s: Seq<u8>, i: int, j: int)
    requires
        0 <= i <= j <= s.len(),
        all_in(s, ByteClass::Digit),
    ensures
        dec_num(s.subrange(0, i)) <= dec_num(s.subrange(0, j)),
    decreases j - i,
{
    if i < j {
        lemma_dec_mono(s, i, j - 1);
        assert(s.subrange(0, j).drop_last() =~= s.subrange(0, j - 1));
        assert(is_digit(s[j - 1]));
    }
}

/// Value of the decimal numeral `s[lo..hi]`, if it fits in 64 bits.
pub(crate) fn parse_decimal(s: &[u8], lo: usize, hi: usize) -> (r: Option<u64>)
    requires
        lo <= hi <= s@.len(),
        all_in(s@.subrange(lo as int, hi as int), ByteClass::Digit),
    ensures
        r == (if dec_num(s@.subrange(lo as int, hi as int)) <= u64::MAX {
            Some(dec_num(s@.subrange(lo as int, hi as int)) as u64)
        } else {
            None::<u64>
        }),
{
    let ghost f = s@.subrange(lo as int, hi as int);
    let mut acc: u64 = 0;
    let mut j = lo;
    while j < hi
        invariant
            lo <= j <= hi <= s@.len(),
            f == s@.subrange(lo as int, hi as int),
            all_in(f, ByteClass::Digit),
            acc as nat == dec_num(f.subrange(0, j - lo)),
        decreases hi - j,
    {
        assert(f[j - lo] == s@[j as int]);
        let d = (s[j] - 48) as u64;
        let ghost next = f.subrange(0, j - lo + 1);
        assert(next.drop_last() =~= f.subrange(0, j - lo));
        if acc > (u64::MAX - d) / 10 {
            proof {
                lemma_dec_mono(f, j - lo + 1, f.len() as int);
                assert(f.subrange(0, f.len() as int) =~= f);
            }
            return None;
        }
        acc = acc * 10 + d;
        j = j + 1;
    }
    assert(f.subrange(0, hi - lo) =~= f);
    Some(acc)
}

proof fn lemma_upper_hex(f: Seq<u8>)
    requires
        all_in(f, ByteClass::UpperHex),
    ensures
        all_hex(f),
{
    assert forall|i: int| 0 <= i < f.len() implies is_hex_byte(#[trigger] f[i]) by {
        assert(in_class(f[i], ByteClass::UpperHex));
    }
}

/// Whether `s[lo..hi]` is an address pair; if so, the address it denotes.
fn addr_field(s: &[u8], lo: usize, hi: usize) -> (r: Option<SocketAddress>)
    requires
        lo <= hi <= s@.len(),
    ensures
        r == (if addr_ok(s@.subrange(lo as int, hi as int)) {
            Some(addr_of(s@.subrange(lo as int, hi as int)))
        } else {
            None::<SocketAddress>
        }),
{
    let ghost f = s@.subrange(lo as int, hi as int);
    if hi - lo != 13 || s[lo + 8] != 58 {
        return None;
    }
    assert(f[8] == s@[lo + 8]);
    assert(f.subrange(0, 8) =~= s@.subrange(lo as int, lo + 8));
    assert(f.subrange(9, 13) =~= s@.subrange(lo + 9, lo + 13));
    if !all_in_exec(s, lo, lo + 8, ByteClass::UpperHex) || !all_in_exec(
        s,
        lo + 9,
        lo + 13,
        ByteClass::UpperHex,
    ) {
        return None;
    }
    proof {
        lemma_upper_hex(f.subrange(0, 8));
        lemma_upper_hex(f.subrange(9, 13));
    }
    Some(decode_address(s, lo, s, lo + 9))
}

/// Parses one line of a connection table; `None` where it is not a
/// well-formed row.
pub fn parse_table_line(line: &str) -> (r: Option<TableRow>)
    ensures
        r == parse_row(line.spec_bytes()),
{
    let s = line.as_bytes();
    let ghost b = s@;
    let (s0, e0) = next_field(s, 0);
    let (s1, e1) = next_field(s, e0);
    let (s2, e2) = next_field(s, e1);
    let (s3, e3) = next_field(s, e2);
    let (s4, e4) = next_field(s, e3);
    let (s5, e5) = next_field(s, e4);
    let (s6, e6) = next_field(s, e5);
    let (s7, e7) = next_field(s, e6);
    let (s8, e8) = next_field(s, e7);
    let (s9, e9) = next_field(s, e8);
    assert(field_start(b, 0) == s0);
    assert(field_start(b, 1) == s1);
    assert(field_start(b, 2) == s2);
    assert(field_start(b, 3) == s3);
    assert(field_start(b, 4) == s4);
    assert(field_start(b, 5) == s5);
    assert(field_start(b, 6) == s6);
    assert(field_start(b, 7) == s7);
    assert(field_start(b, 8) == s8);
    assert(field_start(b, 9) == s9);
    // entry index
    if e0 == s0 || s[e0 - 1] != 58 || !all_in_exec(s, s0, e0 - 1, ByteClass::Digit) {
        proof {
            if e0 > s0 {
                assert(field(b, 0).drop_last() =~= b.subrange(s0 as int, e0 - 1));
            }
        }
        return None;
    }
    assert(field(b, 0).drop_last() =~= b.subrange(s0 as int, e0 - 1));
    let local = addr_field(s, s1, e1);
    let remote = addr_field(s, s2, e2);
    let ok = e3 - s3 == 2 && all_in_exec(s, s3, e3, ByteClass::UpperHex) && e4 > s4
        && all_in_exec(s, s4, e4, ByteClass::UpperHexOrColon) && e5 > s5 && all_in_exec(
        s,
        s5,
        e5,
        ByteClass::UpperHexOrColon,
    ) && e6 > s6 && all_in_exec(s, s6, e6, ByteClass::UpperHex) && e7 > s7 && all_in_exec(
        s,
        s7,
        e7,
        ByteClass::UpperHex,
    ) && e8 > s8 && all_in_exec(s, s8, e8, ByteClass::UpperHex) && e9 > s9 && all_in_exec(
        s,
        s9,
        e9,
        ByteClass::Digit,
    );
    if !ok {
        return None;
    }
    match (local, remote) {
        (Some(l), Some(rm)) => match parse_decimal(s, s9, e9) {
            Some(inode) => Some(TableRow { local: l, remote: rm, inode }),
            None => None,
        },
        _ => None,
    }
}

/// The character views of a sequence of strings.
pub open spec fn lines_view(lines: Seq<String>) -> Seq<Seq<char>> {
    lines.map_values(|l: String| l@)
}

/// The address pair that one line contributes: one where it is a
/// well-formed row whose inode is among `inodes`, none otherwise.
pub open spec fn line_match(line: Seq<char>, inodes: Seq<u64>) -> Seq<(SocketAddress, SocketAddress)> {
    match parse_row(encode_utf8(line)) {
        Some(row) => if inodes.contains(row.inode) {
            seq![(row.local, row.remote)]
        } else {
            seq![]
        },
        None => seq![],
    }
}

/// The address pairs of all rows among `lines`, in order.
pub open spec fn rows_matches(lines: Seq<Seq<char>>, inodes: Seq<u64>) -> Seq<
    (SocketAddress, SocketAddress),
>
    decreases lines.len(),
{
    if lines.len() == 0 {
        seq![]
    } else {
        rows_matches(lines.drop_last(), inodes) + line_match(lines.last(), inodes)
    }
}

/// The address pairs of a whole table: its first line is a header.
pub open spec fn table_matches(lines: Seq<Seq<char>>, inodes: Seq<u64>) -> Seq<
    (SocketAddress, SocketAddress),
> {
    if lines.len() == 0 {
        seq![]
    } else {
        rows_matches(lines.drop_first(), inodes)
    }
}

/// Whether `x` is among `v`.
pub fn contains_inode(v: &Vec<u64>, x: u64) -> (r: bool)
    ensures
        r == v@.contains(x),
{
    let mut i: usize = 0;
    while i < v.len()
        invariant
            i <= v@.len(),
            forall|j: int| 0 <= j < i ==> v@[j] != x,
        decreases v@.len() - i,
    {
        if v[i] == x {
            return true;
        }
        i = i + 1;
    }
    false
}

/// A connection table read one line at a time. The first line is the
/// header; each later line that is a well-formed row whose inode is wanted
/// adds its address pair.
pub struct TableScan {
    pub matches: Vec<(SocketAddress, SocketAddress)>,
    pub header_seen: bool,
    /// The lines fed so far.
    pub lines: Ghost<Seq<Seq<char>>>,
}

impl TableScan {
    /// The scan holds the pairs of the lines fed so far, for `inodes`.
    pub open spec fn holds(&self, inodes: Seq<u64>) -> bool {
        &&& self.matches@ == table_matches(self.lines@, inodes)
        &&& self.header_seen == (self.lines@.len() > 0)
    }

    /// A scan that has seen no line.
    pub fn new(inodes: &Vec<u64>) -> (r: TableScan)
        ensures
            r.holds(inodes@),
            r.lines@ == Seq::<Seq<char>>::empty(),
    {
        TableScan { matches: Vec::new(), header_seen: false, lines: Ghost(Seq::empty()) }
    }

    /// Takes the next line of the table.
    pub fn feed(&mut self, line: &str, inodes: &Vec<u64>)
        requires
            old(self).holds(inodes@),
        ensures
            final(self).holds(inodes@),
            final(self).lines@ == old(self).lines@.push(line@),
    {
        let ghost prev = self.lines@;
        let ghost next = prev.push(line@);
        if !self.header_seen {
            self.header_seen = true;
            assert(next.drop_first() =~= Seq::<Seq<char>>::empty());
        } else {
            assert(next.drop_first() =~= prev.drop_first().push(line@));
            assert(next.drop_first().drop_last() =~= prev.drop_first());
            match parse_table_line(line) {
                Some(row) => {
                    if contains_inode(inodes, row.inode) {
                        self.matches.push((row.local, row.remote));
                    }
                },
                None => {},
            }
            assert(self.matches@ =~= table_matches(next, inodes@));
        }
        self.lines = Ghost(next);
    }
}

/// The local and remote addresses of the rows of a connection table whose
/// inode is among `inodes`, in table order. The first line is a header;
/// lines that are not well-formed rows are skipped.
pub fn get_ports_for_pid(lines: &Vec<String>, inodes: &Vec<u64>) -> (r: Vec<
    (SocketAddress, SocketAddress),
>)
    ensures
        r@ == table_matches(lines_view(lines@), inodes@),
{
    let ghost lv = lines_view(lines@);
    let mut scan = TableScan::new(inodes);
    let mut i: usize = 0;
    assert(lv.subrange(0, 0) =~= Seq::<Seq<char>>::empty());
    while i < lines.len()
        invariant
            i <= lines@.len(),
            lv == lines_view(lines@),
            scan.holds(inodes@),
            scan.lines@ == lv.subrange(0, i as int),
        decreases lines@.len() - i,
    {
        let line = lines[i].as_str();
        assert(lv[i as int] == line@);
        scan.feed(line, inodes);
        assert(scan.lines@ =~= lv.subrange(0, i + 1));
        i = i + 1;
    }
    assert(lv.subrange(0, lv.len() as int) =~= lv);
    scan.matches
}

/// A table that holds only its header line yields no address pair.
pub proof fn lemma_header_only_table(header: Seq<char>, inodes: Seq<u64>)
    ensures
        table_matches(seq![header], inodes) == Seq::<(SocketAddress, SocketAddress)>::empty(),
{
    assert(seq![header].drop_first() =~= Seq::<Seq<char>>::empty());
}

/// Below a header, one well-formed row yields its address pair exactly when
/// its inode is among `inodes`, and a line that is no well-formed row, before
/// or after it, changes nothing.
pub proof fn lemma_row_selection(
    header: Seq<char>,
    row: Seq<char>,
    garbled: Seq<char>,
    inodes: Seq<u64>,
)
    requires
        parse_row(encode_utf8(row)) is Some,
        parse_row(encode_utf8(garbled)) is None,
    ensures
        ({
            let r = parse_row(encode_utf8(row))->0;
            table_matches(seq![header, row], inodes) == if inodes.contains(r.inode) {
                seq![(r.local, r.remote)]
            } else {
                Seq::<(SocketAddress, SocketAddress)>::empty()
            }
        }),
        table_matches(seq![header, garbled, row], inodes) == table_matches(
            seq![header, row],
            inodes,
        ),
        table_matches(seq![header, row, garbled], inodes) == table_matches(
            seq![header, row],
            inodes,
        ),
{
    let e = Seq::<Seq<char>>::empty();
    assert(seq![header, row].drop_first() =~= seq![row]);
    assert(seq![row].drop_last() =~= e);
    assert(seq![header, garbled, row].drop_first() =~= seq![garbled, row]);
    assert(seq![garbled, row].drop_last() =~= seq![garbled]);
    assert(seq![garbled].drop_last() =~= e);
    assert(seq![header, row, garbled].drop_first() =~= seq![row, garbled]);
    assert(seq![row, garbled].drop_last() =~= seq![row]);
    assert(rows_matches(e, inodes) =~= Seq::<(SocketAddress, SocketAddress)>::empty());
    assert(seq![row].last() == row);
    assert(seq![garbled].last() == garbled);
    assert(seq![garbled, row].last() == row);
    assert(seq![row, garbled].last() == garbled);
    assert(rows_matches(seq![row], inodes) =~= line_match(row, inodes));
    assert(rows_matches(seq![garbled], inodes) =~= Seq::<(SocketAddress, SocketAddress)>::empty());
    assert(rows_matches(seq![garbled, row], inodes) =~= line_match(row, inodes));
    assert(rows_matches(seq![row, garbled], inodes) =~= line_match(row, inodes));
}

} // verus!
