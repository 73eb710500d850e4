use ports::codec::{decode_address, hex_addr_to_ipv4_string, push_decimal, SocketAddress};
use ports::netstat::{
    can_truncate_path, get_ports, parse_pid, process_ports, truncate_path, LinuxNetStat,
    NetStatEntry, ProcessScan, ProcessSnapshot, Protocol, ProtocolSet,
};
use ports::sockets::{get_socket_inodes, link_socket_inode};
use ports::table::{contains_inode, get_ports_for_pid, parse_table_line, TableScan};
use ports::tui::{Action, Key, Tui};

const HEADER: &str = "  sl  local_address rem_address   st tx_queue rx_queue tr tm->when retrnsmt   uid  timeout inode";
const ROW_77: &str = "   0: 0100007F:0016 0500000A:C738 01 00000000:00000000 00:00000000 00000000     0        0 77 1 0000000000000000 100 0 0 10 0\n";
const ROW_55_LISTEN: &str = "   1: 00000000:1F90 00000000:0000 0A 00000000:00000000 00:00000000 00000000  1000        0 55 1 0000000000000000 100 0 0 10 0\n";
const GARBLED: &str = "   2: 0100007F:00";

fn lines(v: &[&str]) -> Vec<String> {
    v.iter().map(|s| s.to_string()).collect()
}

fn addr(a: u8, b: u8, c: u8, d: u8, port: u16) -> SocketAddress {
    SocketAddress { a, b, c, d, port }
}

fn snapshot(
    pid: u32,
    exe: &str,
    links: Option<&[&str]>,
    tcp: Option<&[&str]>,
    udp: Option<&[&str]>,
) -> ProcessSnapshot {
    ProcessSnapshot {
        pid,
        exe: exe.to_string(),
        fd_links: links.map(lines),
        tcp_table: tcp.map(lines),
        udp_table: udp.map(lines),
    }
}

fn entry(pid: u32) -> NetStatEntry {
    NetStatEntry {
        exe: "/bin/x".to_string(),
        pid,
        local_addr: addr(127, 0, 0, 1, 80),
        remote_addr: addr(0, 0, 0, 0, 0),
        proto: Protocol::Tcp,
    }
}

fn entries(pids: &[u32]) -> Vec<NetStatEntry> {
    pids.iter().map(|p| entry(*p)).collect()
}

fn summary(v: &[NetStatEntry]) -> Vec<(String, u32, String, String, Protocol)> {
    v.iter()
        .map(|e| (e.exe.clone(), e.pid, e.local_addr.text(), e.remote_addr.text(), e.proto))
        .collect()
}

#[test]
fn test_hex_to_ip_string() {
    let hex_addr = "0100007F"; // 127.0.0.1
    let hex_port = "1F90"; // 8080
    assert_eq!(hex_addr_to_ipv4_string(hex_addr, hex_port), "127.0.0.1:8080");
}

#[test]
fn decodes_lowercase_and_large_values() {
    assert_eq!(hex_addr_to_ipv4_string("fffefdfc", "ffff"), "252.253.254.255:65535");
    assert_eq!(hex_addr_to_ipv4_string("00000000", "0000"), "0.0.0.0:0");
}

#[test]
fn address_round_trip_concrete() {
    // 10.0.0.5:51000 in the kernel's form.
    let a = "0500000A".as_bytes();
    let p = "C738".as_bytes();
    let sa = decode_address(a, 0, p, 0);
    assert_eq!(sa, addr(10, 0, 0, 5, 51000));
    assert_eq!(sa.text(), "10.0.0.5:51000");
}

#[test]
fn decimal_text() {
    let mut s = String::from("x");
    push_decimal(&mut s, 4294967295);
    assert_eq!(s, "x4294967295");
    let mut z = String::new();
    push_decimal(&mut z, 0);
    assert_eq!(z, "0");
}

#[test]
fn parses_well_formed_row() {
    let row = parse_table_line(ROW_77).expect("row");
    assert_eq!(row.local, addr(127, 0, 0, 1, 22));
    assert_eq!(row.remote, addr(10, 0, 0, 5, 51000));
    assert_eq!(row.inode, 77);
}

#[test]
fn rejects_malformed_rows() {
    assert!(parse_table_line(HEADER).is_none());
    assert!(parse_table_line(GARBLED).is_none());
    assert!(parse_table_line("").is_none());
    // an IPv6 address field is not an IPv4 pair
    assert!(parse_table_line("   0: 00000000000000000000000001000000:0016 00000000000000000000000000000000:0000 0A 00000000:00000000 00:00000000 00000000 0 0 9 1").is_none());
    // an inode that does not fit in 64 bits
    assert!(parse_table_line("   0: 0100007F:0016 0500000A:C738 01 00000000:00000000 00:00000000 00000000 0 0 99999999999999999999 1").is_none());
}

#[test]
fn header_only_table_yields_nothing() {
    assert!(get_ports_for_pid(&lines(&[HEADER]), &vec![77]).is_empty());
    assert!(get_ports_for_pid(&Vec::new(), &vec![77]).is_empty());
}

#[test]
fn matching_row_yields_one_pair() {
    let r = get_ports_for_pid(&lines(&[HEADER, ROW_77]), &vec![77]);
    assert_eq!(r, vec![(addr(127, 0, 0, 1, 22), addr(10, 0, 0, 5, 51000))]);
}

#[test]
fn absent_inode_yields_nothing() {
    assert!(get_ports_for_pid(&lines(&[HEADER, ROW_77]), &vec![78, 55]).is_empty());
}

#[test]
fn garbled_row_is_skipped() {
    let r = get_ports_for_pid(&lines(&[HEADER, GARBLED, ROW_77]), &vec![77]);
    assert_eq!(r.len(), 1);
    let r = get_ports_for_pid(&lines(&[HEADER, ROW_77, GARBLED]), &vec![77]);
    assert_eq!(r.len(), 1);
}

#[test]
fn header_line_is_never_a_row() {
    // a well-formed first line is still the header
    assert!(get_ports_for_pid(&lines(&[ROW_77]), &vec![77]).is_empty());
}

#[test]
fn inode_membership() {
    assert!(contains_inode(&vec![3, 77, 9], 77));
    assert!(!contains_inode(&vec![3, 9], 77));
    assert!(!contains_inode(&Vec::new(), 0));
}

#[test]
fn socket_links() {
    assert_eq!(link_socket_inode("socket:[12345]"), Some(12345));
    assert_eq!(link_socket_inode("socket:[]"), None);
    assert_eq!(link_socket_inode("pipe:[12345]"), None);
    assert_eq!(link_socket_inode("socket:[12a]"), None);
    assert_eq!(link_socket_inode("/dev/null"), None);
    assert_eq!(link_socket_inode("socket:[7] "), None);
    let v = get_socket_inodes(&lines(&["/dev/pts/0", "socket:[55]", "anon_inode:[eventfd]", "socket:[77]"]));
    assert_eq!(v, vec![55, 77]);
}

#[test]
fn end_to_end_scan() {
    let procs = vec![
        snapshot(1, "/usr/sbin/idle", Some(&["socket:[55]"]), Some(&[HEADER, ROW_77]), Some(&[HEADER])),
        snapshot(2, "/usr/sbin/sshd", Some(&["/dev/null", "socket:[77]"]), Some(&[HEADER, ROW_77]), Some(&[HEADER])),
    ];
    let tcp = get_ports(&procs, &ProtocolSet::only(Protocol::Tcp));
    assert_eq!(
        summary(&tcp),
        vec![(
            "/usr/sbin/sshd".to_string(),
            2,
            "127.0.0.1:22".to_string(),
            "10.0.0.5:51000".to_string(),
            Protocol::Tcp
        )]
    );
    let udp = get_ports(&procs, &ProtocolSet::only(Protocol::Udp));
    assert!(udp.is_empty());
}

#[test]
fn both_protocols_in_order() {
    let udp_row = "  3: 0100007F:0035 00000000:0000 07 00000000:00000000 00:00000000 00000000 0 0 77 2";
    let procs = vec![snapshot(9, "", Some(&["socket:[77]"]), Some(&[HEADER, ROW_77]), Some(&[HEADER, udp_row]))];
    let r = get_ports(&procs, &ProtocolSet { tcp: true, udp: true });
    assert_eq!(r.len(), 2);
    assert_eq!(r[0].proto, Protocol::Tcp);
    assert_eq!(r[1].proto, Protocol::Udp);
    assert_eq!(r[1].local_addr.text(), "127.0.0.1:53");
    assert_eq!(r[1].exe, "");
}

#[test]
fn unlistable_process_is_skipped() {
    let gone = snapshot(1, "/bin/gone", None, Some(&[HEADER, ROW_77]), None);
    let live = snapshot(2, "/bin/live", Some(&["socket:[77]"]), Some(&[HEADER, ROW_77]), None);
    let r = get_ports(&vec![gone, live], &ProtocolSet::only(Protocol::Tcp));
    assert_eq!(r.len(), 1);
    assert_eq!(r[0].pid, 2);
}

#[test]
fn unopenable_table_equals_removed_process() {
    let make = || {
        vec![
            snapshot(1, "/bin/a", Some(&["socket:[77]"]), Some(&[HEADER, ROW_77]), None),
            snapshot(2, "/bin/b", Some(&["socket:[77]"]), None, None),
            snapshot(3, "/bin/c", Some(&["socket:[55]"]), Some(&[HEADER, ROW_55_LISTEN]), None),
        ]
    };
    let protos = ProtocolSet::only(Protocol::Tcp);
    let all = get_ports(&make(), &protos);
    let mut without = make();
    without.remove(1);
    let fewer = get_ports(&without, &protos);
    assert_eq!(summary(&all), summary(&fewer));
    assert_eq!(all.len(), 2);
}

#[test]
fn process_ports_appends() {
    let mut out = entries(&[5]);
    process_ports(&mut out, &snapshot(2, "/b", Some(&["socket:[77]"]), Some(&[HEADER, ROW_77]), None), &ProtocolSet::only(Protocol::Tcp));
    assert_eq!(out.len(), 2);
    assert_eq!(out[0].pid, 5);
    assert_eq!(out[1].pid, 2);
}

#[test]
fn protocol_names() {
    assert_eq!(Protocol::parse("tcp"), Ok(Protocol::Tcp));
    assert_eq!(Protocol::parse("udp"), Ok(Protocol::Udp));
    assert_eq!(Protocol::parse("TCP"), Err("Invalid Connection Type"));
    assert_eq!(Protocol::parse("tcp6"), Err("Invalid Connection Type"));
    assert_eq!(Protocol::Tcp.name(), "tcp");
    assert_eq!(Protocol::Udp.name(), "udp");
}

#[test]
fn pids() {
    assert_eq!(parse_pid("1234"), Some(1234));
    assert_eq!(parse_pid("4294967295"), Some(4294967295));
    assert_eq!(parse_pid("4294967296"), None);
    assert_eq!(parse_pid("self"), None);
    assert_eq!(parse_pid(""), None);
    assert_eq!(parse_pid("+1"), None);
}

#[test]
fn truncates_paths() {
    let p = "/usr/lib/systemd/systemd-resolved";
    assert_eq!(truncate_path(p, 10), "d-resolved");
    assert_eq!(truncate_path(p, 32), "lib/systemd/systemd-resolved");
    assert_eq!(truncate_path(p, 100), "usr/lib/systemd/systemd-resolved");
    assert_eq!(truncate_path("abcdefghij", 4), "ghij");
    assert_eq!(truncate_path("", 32), "");
}

#[test]
fn linux_paths() {
    let n = LinuxNetStat::new();
    assert_eq!(n.proc_path, "/proc");
    assert_eq!(n.pid_path(42), "/proc/42");
    assert_eq!(n.fd_path(42), "/proc/42/fd");
    assert_eq!(n.exe_path(7), "/proc/7/exe");
    assert_eq!(n.table_path(7, Protocol::Udp), "/proc/7/net/udp");
}

#[test]
fn navigation_wraps() {
    let mut t = Tui::new(ProtocolSet::only(Protocol::Tcp));
    assert_eq!(t.handle_key(Key::Next), Action::Nothing);
    assert_eq!(t.selected, 0);
    t.apply_refresh(entries(&[1, 2, 3]));
    t.handle_key(Key::Prev);
    assert_eq!(t.selected, 2);
    t.handle_key(Key::Next);
    assert_eq!(t.selected, 0);
    t.handle_key(Key::Next);
    assert_eq!(t.selected, 1);
}

#[test]
fn refresh_clamps_selection() {
    let mut t = Tui::new(ProtocolSet::only(Protocol::Tcp));
    t.apply_refresh(entries(&[1, 2, 3, 4]));
    t.handle_key(Key::Prev);
    assert_eq!(t.selected, 3);
    t.apply_refresh(entries(&[1, 2]));
    assert_eq!(t.selected, 1);
    t.apply_refresh(entries(&[1]));
    assert_eq!(t.selected, 0);
    t.apply_refresh(Vec::new());
    assert_eq!(t.selected, 0);
    assert!(t.ports.is_empty());
}

#[test]
fn refresh_to_empty_clears_confirmation() {
    let mut t = Tui::new(ProtocolSet::only(Protocol::Tcp));
    t.apply_refresh(entries(&[1]));
    t.handle_key(Key::Enter);
    assert!(t.confirm);
    t.apply_refresh(Vec::new());
    assert!(!t.confirm);
}

#[test]
fn confirmation_gate_deny() {
    let mut t = Tui::new(ProtocolSet::only(Protocol::Tcp));
    t.apply_refresh(entries(&[10, 20, 30]));
    t.handle_key(Key::Next);
    assert_eq!(t.handle_key(Key::Enter), Action::Nothing);
    assert!(t.confirm);
    assert_eq!(t.pending_kill(), Some(20));
    assert_eq!(t.handle_key(Key::No), Action::Nothing);
    assert!(!t.confirm);
    assert_eq!(t.selected, 1);
    assert_eq!(t.ports.iter().map(|e| e.pid).collect::<Vec<_>>(), vec![10, 20, 30]);
    assert_eq!(t.pending_kill(), None);
}

#[test]
fn confirmation_gate_affirm() {
    let mut t = Tui::new(ProtocolSet::only(Protocol::Tcp));
    t.apply_refresh(entries(&[10, 20]));
    t.handle_key(Key::Enter);
    // navigation and refresh are blocked while confirming
    assert_eq!(t.handle_key(Key::Next), Action::Nothing);
    assert_eq!(t.handle_key(Key::Refresh), Action::Nothing);
    assert_eq!(t.selected, 0);
    assert_eq!(t.handle_key(Key::Yes), Action::Kill(10));
    assert!(!t.confirm);
    t.handle_key(Key::Enter);
    assert_eq!(t.handle_key(Key::Enter), Action::Kill(10));
}

#[test]
fn enter_on_empty_does_not_confirm() {
    let mut t = Tui::new(ProtocolSet::only(Protocol::Tcp));
    assert_eq!(t.handle_key(Key::Enter), Action::Nothing);
    assert!(!t.confirm);
    assert_eq!(t.handle_key(Key::Yes), Action::Nothing);
}

#[test]
fn quit_ends_session() {
    let mut t = Tui::new(ProtocolSet::only(Protocol::Tcp));
    t.apply_refresh(entries(&[1]));
    t.handle_key(Key::Enter);
    assert_eq!(t.handle_key(Key::Quit), Action::Nothing);
    assert!(t.exit);
    assert_eq!(t.handle_key(Key::Yes), Action::Nothing);
    assert_eq!(t.handle_key(Key::Refresh), Action::Nothing);
    assert_eq!(t.handle_key(Key::Other), Action::Nothing);
}

#[test]
fn table_scan_streams_lines() {
    let inodes = vec![77];
    let mut t = TableScan::new(&inodes);
    t.feed(ROW_77, &inodes);
    assert!(t.matches.is_empty());
    assert!(t.header_seen);
    t.feed(GARBLED, &inodes);
    t.feed(ROW_55_LISTEN, &inodes);
    t.feed(ROW_77, &inodes);
    assert_eq!(t.matches, vec![(addr(127, 0, 0, 1, 22), addr(10, 0, 0, 5, 51000))]);
}

#[test]
fn process_scan_streams_tables() {
    let links = Some(lines(&["socket:[77]", "socket:[55]"]));
    let protos = ProtocolSet { tcp: true, udp: false };
    let mut scan = ProcessScan::new(4, "/bin/s".to_string(), &links);
    assert!(scan.wants_table(Protocol::Tcp, &protos));
    assert!(!scan.wants_table(Protocol::Udp, &protos));
    scan.open_table(Protocol::Tcp);
    for l in [HEADER, ROW_55_LISTEN, GARBLED, ROW_77] {
        scan.feed(Protocol::Tcp, l);
    }
    let mut out = Vec::new();
    scan.finish(&mut out, &protos);
    assert_eq!(out.len(), 2);
    assert_eq!(out[0].local_addr.text(), "0.0.0.0:8080");
    assert_eq!(out[1].remote_addr.text(), "10.0.0.5:51000");
    assert!(out.iter().all(|e| e.pid == 4 && e.exe == "/bin/s"));
}

#[test]
fn process_scan_without_descriptors() {
    let protos = ProtocolSet { tcp: true, udp: true };
    let scan = ProcessScan::new(4, String::new(), &None);
    assert!(!scan.wants_table(Protocol::Tcp, &protos));
    let mut out = entries(&[1]);
    scan.finish(&mut out, &protos);
    assert_eq!(out.len(), 1);
}

#[test]
fn truncation_guard() {
    assert!(can_truncate_path("/usr/bin/x", 4));
    assert!(can_truncate_path("", 32));
    // the last two bytes start inside a three-byte character
    assert!(!can_truncate_path("/a/\u{20ac}", 2));
    assert!(can_truncate_path("/a/\u{20ac}", 3));
}
