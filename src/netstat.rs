//! Attributed connection records and the scan that joins each process's
//! socket inodes with the connection tables it can see.

use vstd::prelude::*;
use vstd::string::StringSliceAdditionalSpecFns;
use vstd::string::StringExecFns;
use vstd::utf8::{encode_utf8, is_char_boundary};
use crate::codec::{SocketAddress, dec_chars, push_decimal};
use crate::sockets::{get_socket_inodes, socket_inodes};
use crate::table::{
    ByteClass, TableScan, all_in_exec, class_ok, dec_num, lines_view, parse_decimal, table_matches,
};

verus! {

pub type PID = u32;

/// A transport protocol whose connection table can be scanned.
#[derive(PartialEq, Eq, Structural, Clone, Copy, Debug)]
pub enum Protocol {
    Tcp,
    Udp,
}

/// The name of a protocol, which is also the name of its table file.
pub open spec fn protocol_name(p: Protocol) -> Seq<char> {
    match p {
        Protocol::Tcp => seq!['t', 'c', 'p'],
        Protocol::Udp => seq!['u', 'd', 'p'],
    }
}

/// The protocol that a name denotes.
pub open spec fn protocol_of(s: Seq<u8>) -> Option<Protocol> {
    if s == seq![116u8, 99u8, 112u8] {
        Some(Protocol::Tcp)
    } else if s == seq![117u8, 100u8, 112u8] {
        Some(Protocol::Udp)
    } else {
        None
    }
}

impl Protocol {
    /// `tcp` or `udp`: the protocol's name and the name of its table file.
    pub fn name(&self) -> (r: &'static str)
        ensures
            r@ == protocol_name(*self),
    {
        proof {
            reveal_strlit("tcp");
            reveal_strlit("udp");
        }
        match self {
            Protocol::Tcp => "tcp",
            Protocol::Udp => "udp",
        }
    }

    /// The protocol named `s`; an error for any other name.
    pub fn parse(s: &str) -> (r: Result<Protocol, &'static str>)
        ensures
            r is Ok <==> protocol_of(s.spec_bytes()) is Some,
            r is Ok ==> r->Ok_0 == protocol_of(s.spec_bytes())->0,
    {
        let b = s.as_bytes();
        if b.len() == 3 && b[0] == 116 && b[1] == 99 && b[2] == 112 {
            assert(b@ =~= seq![116u8, 99u8, 112u8]);
            Ok(Protocol::Tcp)
        } else if b.len() == 3 && b[0] == 117 && b[1] == 100 && b[2] == 112 {
            assert(b@ =~= seq![117u8, 100u8, 112u8]);
            Ok(Protocol::Udp)
        } else {
            proof {
                if b@.len() == 3 {
                    assert(b@ != seq![116u8, 99u8, 112u8] || b@[0] == 116);
                }
            }
            Err("Invalid Connection Type")
        }
    }
}

/// A set of protocols to scan.
#[derive(PartialEq, Eq, Structural, Clone, Copy, Debug)]
pub struct ProtocolSet {
    pub tcp: bool,
    pub udp: bool,
}

impl ProtocolSet {
    /// The set that holds `p` alone.
    pub fn only(p: Protocol) -> (r: ProtocolSet)
        ensures
            r.tcp == (p == Protocol::Tcp),
            r.udp == (p == Protocol::Udp),
    {
        match p {
            Protocol::Tcp => ProtocolSet { tcp: true, udp: false },
            Protocol::Udp => ProtocolSet { tcp: false, udp: true },
        }
    }
}

/// One connection attributed to the process that owns it.
#[derive(Debug)]
pub struct NetStatEntry {
    pub exe: String,
    pub pid: PID,
    pub local_addr: SocketAddress,
    pub remote_addr: SocketAddress,
    pub proto: Protocol,
}

/// What a record holds, with the executable path as characters.
pub struct EntryView {
    pub exe: Seq<char>,
    pub pid: PID,
    pub local_addr: SocketAddress,
    pub remote_addr: SocketAddress,
    pub proto: Protocol,
}

impl View for NetStatEntry {
    type V = EntryView;

    open spec fn view(&self) -> EntryView {
        EntryView {
            exe: self.exe@,
            pid: self.pid,
            local_addr: self.local_addr,
            remote_addr: self.remote_addr,
            proto: self.proto,
        }
    }
}

pub open spec fn entries_view(v: Seq<NetStatEntry>) -> Seq<EntryView> {
    v.map_values(|e: NetStatEntry| e@)
}

/// What a scan could read of one process: its id, its executable path (empty
/// where unreadable), the targets of its descriptor links (`None` where the
/// descriptor directory could not be listed) and the lines of each protocol's
/// connection table (`None` where the table could not be opened).
pub struct ProcessModel {
    pub pid: PID,
    pub exe: Seq<char>,
    pub fd_links: Option<Seq<Seq<char>>>,
    pub tcp_table: Option<Seq<Seq<char>>>,
    pub udp_table: Option<Seq<Seq<char>>>,
}

pub open spec fn lines_opt(v: Option<Vec<String>>) -> Option<Seq<Seq<char>>> {
    match v {
        Some(l) => Some(lines_view(l@)),
        None => None,
    }
}

/// A process as read in full: see `ProcessModel`.
pub struct ProcessSnapshot {
    pub pid: PID,
    pub exe: String,
    pub fd_links: Option<Vec<String>>,
    pub tcp_table: Option<Vec<String>>,
    pub udp_table: Option<Vec<String>>,
}

impl View for ProcessSnapshot {
    type V = ProcessModel;

    open spec fn view(&self) -> ProcessModel {
        ProcessModel {
            pid: self.pid,
            exe: self.exe@,
            fd_links: lines_opt(self.fd_links),
            tcp_table: lines_opt(self.tcp_table),
            udp_table: lines_opt(self.udp_table),
        }
    }
}

pub open spec fn snapshots_view(v: Seq<ProcessSnapshot>) -> Seq<ProcessModel> {
    v.map_values(|p: ProcessSnapshot| p@)
}

pub open spec fn table_of(p: ProcessModel, proto: Protocol) -> Option<Seq<Seq<char>>> {
    match proto {
        Protocol::Tcp => p.tcp_table,
        Protocol::Udp => p.udp_table,
    }
}

pub open spec fn requested(protos: ProtocolSet, proto: Protocol) -> bool {
    match proto {
        Protocol::Tcp => protos.tcp,
        Protocol::Udp => protos.udp,
    }
}

/// The records of one process for one protocol, in table order.
pub open spec fn proto_records(p: ProcessModel, inodes: Seq<u64>, proto: Protocol) -> Seq<
    EntryView,
> {
    match table_of(p, proto) {
        None => seq![],
        Some(lines) => table_matches(lines, inodes).map_values(
            |m: (SocketAddress, SocketAddress)|
                EntryView { exe: p.exe, pid: p.pid, local_addr: m.0, remote_addr: m.1, proto },
        ),
    }
}

/// The records of one process: none where its descriptors could not be
/// listed; else those of TCP, then those of UDP, as requested.
pub open spec fn process_records(p: ProcessModel, protos: ProtocolSet) -> Seq<EntryView> {
    match p.fd_links {
        None => seq![],
        Some(links) => {
            let inodes = socket_inodes(links);
            (if protos.tcp {
                proto_records(p, inodes, Protocol::Tcp)
            } else {
                seq![]
            }) + (if protos.udp {
                proto_records(p, inodes, Protocol::Udp)
            } else {
                seq![]
            })
        },
    }
}

/// The records of a whole scan, process by process.
pub open spec fn scan_records(procs: Seq<ProcessModel>, protos: ProtocolSet) -> Seq<EntryView>
    decreases procs.len(),
{
    if procs.len() == 0 {
        seq![]
    } else {
        scan_records(procs.drop_last(), protos) + process_records(procs.last(), protos)
    }
}

pub open spec fn scan_lines(t: Option<TableScan>) -> Option<Seq<Seq<char>>> {
    match t {
        Some(s) => Some(s.lines@),
        None => None,
    }
}

/// The scan of one process, fed as its files are read: first its descriptor
/// links, then, table by table, the lines of each table that could be opened.
pub struct ProcessScan {
    pub pid: PID,
    pub exe: String,
    pub inodes: Option<Vec<u64>>,
    pub tcp: Option<TableScan>,
    pub udp: Option<TableScan>,
    /// The descriptor links it was made with.
    pub links: Ghost<Option<Seq<Seq<char>>>>,
}

impl ProcessScan {
    /// What has been read of the process so far.
    pub open spec fn model(&self) -> ProcessModel {
        ProcessModel {
            pid: self.pid,
            exe: self.exe@,
            fd_links: self.links@,
            tcp_table: scan_lines(self.tcp),
            udp_table: scan_lines(self.udp),
        }
    }

    pub open spec fn table_scan(&self, proto: Protocol) -> Option<TableScan> {
        match proto {
            Protocol::Tcp => self.tcp,
            Protocol::Udp => self.udp,
        }
    }

    pub open spec fn wf(&self) -> bool {
        &&& self.inodes is Some <==> self.links@ is Some
        &&& self.inodes is Some ==> self.inodes->0@ == socket_inodes(self.links@->0)
        &&& self.inodes is Some ==> (self.tcp is Some ==> self.tcp->0.holds(self.inodes->0@))
        &&& self.inodes is Some ==> (self.udp is Some ==> self.udp->0.holds(self.inodes->0@))
    }

    /// Starts the scan of process `pid` from its descriptor links, `None`
    /// where the descriptor directory could not be listed.
    pub fn new(pid: PID, exe: String, fd_links: &Option<Vec<String>>) -> (r: ProcessScan)
        ensures
            r.wf(),
            r.model() == (ProcessModel {
                pid,
                exe: exe@,
                fd_links: lines_opt(*fd_links),
                tcp_table: None,
                udp_table: None,
            }),
    {
        let inodes = match fd_links {
            Some(links) => Some(get_socket_inodes(links)),
            None => None,
        };
        ProcessScan { pid, exe, inodes, tcp: None, udp: None, links: Ghost(lines_opt(*fd_links)) }
    }

    /// Whether the table of `proto` is worth opening: it is requested and
    /// the process's descriptors could be listed.
    pub fn wants_table(&self, proto: Protocol, protos: &ProtocolSet) -> (r: bool)
        requires
            self.wf(),
        ensures
            r == (requested(*protos, proto) && self.model().fd_links is Some),
    {
        let on = match proto {
            Protocol::Tcp => protos.tcp,
            Protocol::Udp => protos.udp,
        };
        on && self.inodes.is_some()
    }

    /// Records that the table of `proto` was opened; its lines follow.
    pub fn open_table(&mut self, proto: Protocol)
        requires
            old(self).wf(),
        ensures
            final(self).wf(),
            final(self).model() == (ProcessModel {
                tcp_table: if proto == Protocol::Tcp {
                    Some(Seq::<Seq<char>>::empty())
                } else {
                    old(self).model().tcp_table
                },
                udp_table: if proto == Protocol::Udp {
                    Some(Seq::<Seq<char>>::empty())
                } else {
                    old(self).model().udp_table
                },
                ..old(self).model()
            }),
    {
        let t = match &self.inodes {
            Some(inodes) => TableScan::new(inodes),
            None => TableScan::new(&Vec::new()),
        };
        match proto {
            Protocol::Tcp => self.tcp = Some(t),
            Protocol::Udp => self.udp = Some(t),
        }
    }

    /// Takes the next line of the table of `proto`, which was opened.
    pub fn feed(&mut self, proto: Protocol, line: &str)
        requires
            old(self).wf(),
            old(self).table_scan(proto) is Some,
        ensures
            final(self).wf(),
            final(self).model() == (ProcessModel {
                tcp_table: if proto == Protocol::Tcp {
                    Some(old(self).model().tcp_table->0.push(line@))
                } else {
                    old(self).model().tcp_table
                },
                udp_table: if proto == Protocol::Udp {
                    Some(old(self).model().udp_table->0.push(line@))
                } else {
                    old(self).model().udp_table
                },
                ..old(self).model()
            }),
    {
        match &self.inodes {
            Some(inodes) => {
                match proto {
                    Protocol::Tcp => {
                        let mut t = self.tcp.take().unwrap();
                        t.feed(line, inodes);
                        self.tcp = Some(t);
                    },
                    Protocol::Udp => {
                        let mut t = self.udp.take().unwrap();
                        t.feed(line, inodes);
                        self.udp = Some(t);
                    },
                }
            },
            None => {
                let none: Vec<u64> = Vec::new();
                match proto {
                    Protocol::Tcp => {
                        let mut t = self.tcp.take().unwrap();
                        let ghost l = t.lines@;
                        t.lines = Ghost(l.push(line@));
                        self.tcp = Some(t);
                    },
                    Protocol::Udp => {
                        let mut t = self.udp.take().unwrap();
                        let ghost l = t.lines@;
                        t.lines = Ghost(l.push(line@));
                        self.udp = Some(t);
                    },
                }
            },
        }
    }

    /// Appends the records of one protocol, as `proto_records` states.
    fn push_proto_records(&self, out: &mut Vec<NetStatEntry>, proto: Protocol)
        requires
            self.wf(),
            self.inodes is Some,
        ensures
            entries_view(final(out)@) == entries_view(old(out)@) + proto_records(
                self.model(),
                self.inodes->0@,
                proto,
            ),
    {
        let table = match proto {
            Protocol::Tcp => &self.tcp,
            Protocol::Udp => &self.udp,
        };
        let ghost p = self.model();
        match table {
            None => {
                assert(entries_view(out@) =~= entries_view(old(out)@) + proto_records(
                    p,
                    self.inodes->0@,
                    proto,
                ));
            },
            Some(t) => {
                let matches = &t.matches;
                let ghost recs = proto_records(p, self.inodes->0@, proto);
                let mut i: usize = 0;
                while i < matches.len()
                    invariant
                        i <= matches@.len(),
                        recs == matches@.map_values(
                            |m: (SocketAddress, SocketAddress)|
                                EntryView {
                                    exe: p.exe,
                                    pid: p.pid,
                                    local_addr: m.0,
                                    remote_addr: m.1,
                                    proto,
                                },
                        ),
                        p.exe == self.exe@,
                        p.pid == self.pid,
                        entries_view(out@) == entries_view(old(out)@) + recs.subrange(0, i as int),
                    decreases matches@.len() - i,
                {
                    let (l, r) = matches[i];
                    let ghost before = out@;
                    out.push(
                        NetStatEntry {
                            exe: self.exe.clone(),
                            pid: self.pid,
                            local_addr: l,
                            remote_addr: r,
                            proto,
                        },
                    );
                    assert(entries_view(out@) =~= entries_view(before).push(recs[i as int]));
                    assert(recs.subrange(0, i + 1) =~= recs.subrange(0, i as int).push(
                        recs[i as int],
                    ));
                    i = i + 1;
                }
                assert(recs.subrange(0, i as int) =~= recs);
            },
        }
    }

    /// Appends the records of the process, as `process_records` states.
    pub fn finish(&self, out: &mut Vec<NetStatEntry>, protos: &ProtocolSet)
        requires
            self.wf(),
        ensures
            entries_view(final(out)@) == entries_view(old(out)@) + process_records(
                self.model(),
                *protos,
            ),
    {
        if self.inodes.is_none() {
            assert(entries_view(out@) =~= entries_view(old(out)@) + process_records(
                self.model(),
                *protos,
            ));
            return;
        }
        if protos.tcp {
            self.push_proto_records(out, Protocol::Tcp);
        }
        if protos.udp {
            self.push_proto_records(out, Protocol::Udp);
        }
        assert(entries_view(out@) =~= entries_view(old(out)@) + process_records(
            self.model(),
            *protos,
        ));
    }
}

/// Feeds every line of `lines` to the table of `proto`.
fn feed_all(scan: &mut ProcessScan, proto: Protocol, lines: &Vec<String>)
    requires
        old(scan).wf(),
        old(scan).table_scan(proto) is Some,
        table_of(old(scan).model(), proto) == Some(Seq::<Seq<char>>::empty()),
    ensures
        final(scan).wf(),
        table_of(final(scan).model(), proto) == Some(lines_view(lines@)),
        final(scan).model().pid == old(scan).model().pid,
        final(scan).model().exe == old(scan).model().exe,
        final(scan).model().fd_links == old(scan).model().fd_links,
        proto == Protocol::Tcp ==> final(scan).model().udp_table == old(scan).model().udp_table,
        proto == Protocol::Udp ==> final(scan).model().tcp_table == old(scan).model().tcp_table,
{
    let ghost lv = lines_view(lines@);
    let mut i: usize = 0;
    assert(lv.subrange(0, 0) =~= Seq::<Seq<char>>::empty());
    while i < lines.len()
        invariant
            i <= lines@.len(),
            lv == lines_view(lines@),
            scan.wf(),
            scan.table_scan(proto) is Some,
            table_of(scan.model(), proto) == Some(lv.subrange(0, i as int)),
            scan.model().pid == old(scan).model().pid,
            scan.model().exe == old(scan).model().exe,
            scan.model().fd_links == old(scan).model().fd_links,
            proto == Protocol::Tcp ==> scan.model().udp_table == old(scan).model().udp_table,
            proto == Protocol::Udp ==> scan.model().tcp_table == old(scan).model().tcp_table,
        decreases lines@.len() - i,
    {
        let line = lines[i].as_str();
        assert(lv[i as int] == line@);
        scan.feed(proto, line);
        assert(lv.subrange(0, i + 1) =~= lv.subrange(0, i as int).push(line@));
        i = i + 1;
    }
    assert(lv.subrange(0, lv.len() as int) =~= lv);
}

/// The records of one process read in full, as `process_records` states.
pub fn process_ports(out: &mut Vec<NetStatEntry>, p: &ProcessSnapshot, protos: &ProtocolSet)
    ensures
        entries_view(final(out)@) == entries_view(old(out)@) + process_records(p@, *protos),
{
    let mut scan = ProcessScan::new(p.pid, p.exe.clone(), &p.fd_links);
    if scan.wants_table(Protocol::Tcp, protos) {
        match &p.tcp_table {
            Some(lines) => {
                scan.open_table(Protocol::Tcp);
                feed_all(&mut scan, Protocol::Tcp, lines);
            },
            None => {},
        }
    }
    if scan.wants_table(Protocol::Udp, protos) {
        match &p.udp_table {
            Some(lines) => {
                scan.open_table(Protocol::Udp);
                feed_all(&mut scan, Protocol::Udp, lines);
            },
            None => {},
        }
    }
    proof {
        let m = scan.model();
        let q = p@;
        assert(process_records(m, *protos) =~= process_records(q, *protos));
    }
    scan.finish(out, protos);
}

/// Joins every process's socket inodes with the connection tables of the
/// requested protocols. Processes whose descriptors could not be listed and
/// tables that could not be opened contribute nothing; the rest of the scan
/// goes on.
pub fn get_ports(procs: &Vec<ProcessSnapshot>, protos: &ProtocolSet) -> (r: Vec<NetStatEntry>)
    ensures
        entries_view(r@) == scan_records(snapshots_view(procs@), *protos),
{
    let ghost sv = snapshots_view(procs@);
    let mut out: Vec<NetStatEntry> = Vec::new();
    let mut i: usize = 0;
    assert(entries_view(out@) =~= scan_records(sv.subrange(0, 0), *protos));
    while i < procs.len()
        invariant
            i <= procs@.len(),
            sv == snapshots_view(procs@),
            entries_view(out@) == scan_records(sv.subrange(0, i as int), *protos),
        decreases procs@.len() - i,
    {
        process_ports(&mut out, &procs[i], protos);
        assert(sv.subrange(0, i + 1).drop_last() =~= sv.subrange(0, i as int));
        assert(sv[i as int] == procs@[i as int]@);
        i = i + 1;
    }
    assert(sv.subrange(0, sv.len() as int) =~= sv);
    out
}

/// The process id that a process-table entry name denotes: decimal digits
/// whose value fits in 32 bits.
pub open spec fn pid_of(name: Seq<u8>) -> Option<PID> {
    if class_ok(name, ByteClass::Digit) && dec_num(name) <= u32::MAX {
        Some(dec_num(name) as PID)
    } else {
        None
    }
}

/// The process id named by a process-table entry; `None` for other entries.
pub fn parse_pid(name: &str) -> (r: Option<PID>)
    ensures
        r == pid_of(name.spec_bytes()),
{
    let b = name.as_bytes();
    let n = b.len();
    assert(b@.subrange(0, n as int) =~= b@);
    if n == 0 || !all_in_exec(b, 0, n, ByteClass::Digit) {
        return None;
    }
    match parse_decimal(b, 0, n) {
        Some(v) => if v <= 4294967295 {
            Some(v as PID)
        } else {
            None
        },
        None => None,
    }
}

/// Where the window of the last `limit` bytes starts.
pub open spec fn window_start(b: Seq<u8>, limit: int) -> int {
    if limit < b.len() {
        b.len() - limit
    } else {
        0
    }
}

/// First position at or after `i` that holds `/`, or the end.
pub open spec fn first_slash(b: Seq<u8>, i: int) -> int
    decreases b.len() - i,
{
    if 0 <= i < b.len() && b[i] != 47 {
        first_slash(b, i + 1)
    } else {
        i
    }
}

/// Where a truncated path starts: just after the first `/` in the window of
/// the last `limit` bytes, or at the window's start where it holds none.
pub open spec fn trunc_cut(b: Seq<u8>, limit: int) -> int {
    let w = window_start(b, limit);
    let p = first_slash(b, w);
    if p < b.len() && is_char_boundary(b, p + 1) {
        p + 1
    } else {
        w
    }
}

/// The trailing part of a path that fits in `limit` bytes, cut after a `/`
/// where the window holds one; the whole path where it is shorter.
pub fn truncate_path(s: &str, limit: usize) -> (r: String)
    requires
        is_char_boundary(s.spec_bytes(), window_start(s.spec_bytes(), limit as int)),
    ensures
        encode_utf8(r@) == s.spec_bytes().subrange(
            trunc_cut(s.spec_bytes(), limit as int),
            s.spec_bytes().len() as int,
        ),
{
    let b = s.as_bytes();
    let n = b.len();
    let w = if limit < n {
        n - limit
    } else {
        0
    };
    let mut j = w;
    while j < n && b[j] != 47
        invariant
            w <= j <= n,
            n == b@.len(),
            first_slash(b@, j as int) == first_slash(b@, w as int),
        decreases n - j,
    {
        j = j + 1;
    }
    let cut = if j < n && s.is_char_boundary(j + 1) {
        j + 1
    } else {
        w
    };
    let (_, tail) = s.split_at(cut);
    tail.to_owned()
}

/// Whether `truncate_path(s, limit)` may be called: its window starts on a
/// character boundary.
pub fn can_truncate_path(s: &str, limit: usize) -> (r: bool)
    ensures
        r == is_char_boundary(s.spec_bytes(), window_start(s.spec_bytes(), limit as int)),
{
    let n = s.as_bytes().len();
    let w = if limit < n {
        n - limit
    } else {
        0
    };
    s.is_char_boundary(w)
}

/// The Linux provider: reads the process table under `proc_path`.
pub struct LinuxNetStat {
    pub proc_path: String,
}

impl LinuxNetStat {
    pub fn new() -> (r: Self)
        ensures
            r.proc_path@ == seq!['/', 'p', 'r', 'o', 'c'],
    {
        proof {
            reveal_strlit("/proc");
        }
        LinuxNetStat { proc_path: String::from_str("/proc") }
    }

    /// The directory of process `pid`.
    pub fn pid_path(&self, pid: PID) -> (r: String)
        ensures
            r@ == self.proc_path@ + seq!['/'] + dec_chars(pid as nat),
    {
        proof {
            reveal_strlit("/");
        }
        let mut s = self.proc_path.clone();
        s.append("/");
        push_decimal(&mut s, pid);
        s
    }

    /// The descriptor directory of process `pid`.
    pub fn fd_path(&self, pid: PID) -> (r: String)
        ensures
            r@ == self.proc_path@ + seq!['/'] + dec_chars(pid as nat) + seq!['/', 'f', 'd'],
    {
        proof {
            reveal_strlit("/fd");
        }
        let mut s = self.pid_path(pid);
        s.append("/fd");
        s
    }

    /// The link to the executable of process `pid`.
    pub fn exe_path(&self, pid: PID) -> (r: String)
        ensures
            r@ == self.proc_path@ + seq!['/'] + dec_chars(pid as nat) + seq!['/', 'e', 'x', 'e'],
    {
        proof {
            reveal_strlit("/exe");
        }
        let mut s = self.pid_path(pid);
        s.append("/exe");
        s
    }

    /// The connection table of protocol `proto` as process `pid` sees it.
    pub fn table_path(&self, pid: PID, proto: Protocol) -> (r: String)
        ensures
            r@ == self.proc_path@ + seq!['/'] + dec_chars(pid as nat) + seq![
                '/',
                'n',
                'e',
                't',
                '/',
            ] + protocol_name(proto),
    {
        proof {
            reveal_strlit("/net/");
        }
        let mut s = self.pid_path(pid);
        s.append("/net/");
        s.append(proto.name());
        s
    }
}

proof fn lemma_scan_concat(a: Seq<ProcessModel>, b: Seq<ProcessModel>, protos: ProtocolSet)
    ensures
        scan_records(a + b, protos) == scan_records(a, protos) + scan_records(b, protos),
    decreases b.len(),
{
    if b.len() == 0 {
        assert(a + b =~= a);
        assert(scan_records(a, protos) + scan_records(b, protos) =~= scan_records(a, protos));
    } else {
        lemma_scan_concat(a, b.drop_last(), protos);
        assert((a + b).drop_last() =~= a + b.drop_last());
        assert((a + b).last() == b.last());
        assert(scan_records(a + b, protos) =~= scan_records(a, protos) + scan_records(b, protos));
    }
}

/// A process that contributes no record can be left out of the scan without
/// changing its result.
pub proof fn lemma_scan_without_silent_process(
    procs: Seq<ProcessModel>,
    protos: ProtocolSet,
    k: int,
)
    requires
        0 <= k < procs.len(),
        process_records(procs[k], protos) == Seq::<EntryView>::empty(),
    ensures
        scan_records(procs, protos) == scan_records(procs.remove(k), protos),
{
    let a = procs.subrange(0, k);
    let b = procs.subrange(k + 1, procs.len() as int);
    assert(procs =~= a + seq![procs[k]] + b);
    assert(procs.remove(k) =~= a + b);
    lemma_scan_concat(a + seq![procs[k]], b, protos);
    lemma_scan_concat(a, seq![procs[k]], protos);
    lemma_scan_concat(a, b, protos);
    assert(seq![procs[k]].drop_last() =~= Seq::<ProcessModel>::empty());
    assert(seq![procs[k]].last() == procs[k]);
    assert(scan_records(Seq::<ProcessModel>::empty(), protos) =~= Seq::<EntryView>::empty());
    assert(scan_records(seq![procs[k]], protos) =~= Seq::<EntryView>::empty());
    assert(scan_records(a, protos) + Seq::<EntryView>::empty() =~= scan_records(a, protos));
}

/// A process whose descriptor directory could not be listed is skipped: the
/// scan of the other processes goes on and yields what it yields without it.
pub proof fn lemma_unlistable_process_skipped(
    procs: Seq<ProcessModel>,
    protos: ProtocolSet,
    k: int,
)
    requires
        0 <= k < procs.len(),
        procs[k].fd_links is None,
    ensures
        scan_records(procs, protos) == scan_records(procs.remove(k), protos),
{
    lemma_scan_without_silent_process(procs, protos, k);
}

/// Where one process's tables of every requested protocol could not be
/// opened, the scan yields the same records as the scan without that process.
pub proof fn lemma_unopenable_tables_skipped(
    procs: Seq<ProcessModel>,
    protos: ProtocolSet,
    k: int,
)
    requires
        0 <= k < procs.len(),
        protos.tcp ==> procs[k].tcp_table is None,
        protos.udp ==> procs[k].udp_table is None,
    ensures
        scan_records(procs, protos) == scan_records(procs.remove(k), protos),
{
    assert(process_records(procs[k], protos) =~= Seq::<EntryView>::empty());
    lemma_scan_without_silent_process(procs, protos, k);
}

} // verus!
