//! Socket ownership: the socket inodes among a process's descriptor links.

use vstd::prelude::*;
use vstd::string::StringSliceAdditionalSpecFns;
use vstd::utf8::encode_utf8;
use crate::table::{ByteClass, class_ok, dec_num, lines_view, all_in_exec, parse_decimal};

verus! {

/// The bytes of `socket:[`.
pub open spec fn socket_prefix() -> Seq<u8> {
    seq![115u8, 111u8, 99u8, 107u8, 101u8, 116u8, 58u8, 91u8]
}

/// The inode of a descriptor link of the form `socket:[<decimal>]`, if the
/// link has that form and the number fits in 64 bits.
pub open spec fn socket_inode(s: Seq<u8>) -> Option<u64> {
    if s.len() >= 10 && s.subrange(0, 8) == socket_prefix() && s.last() == 93 && class_ok(
        s.subrange(8, s.len() - 1),
        ByteClass::Digit,
    ) && dec_num(s.subrange(8, s.len() - 1)) <= u64::MAX {
        Some(dec_num(s.subrange(8, s.len() - 1)) as u64)
    } else {
        None
    }
}

/// The socket inodes named by `links`, in order; other links are skipped.
pub open spec fn socket_inodes(links: Seq<Seq<char>>) -> Seq<u64>
    decreases links.len(),
{
    if links.len() == 0 {
        seq![]
    } else {
        socket_inodes(links.drop_last()) + match socket_inode(encode_utf8(links.last())) {
            Some(i) => seq![i],
            None => seq![],
        }
    }
}

/// The inode that one descriptor link names, if it names a socket.
pub fn link_socket_inode(link: &str) -> (r: Option<u64>)
    ensures
        r == socket_inode(link.spec_bytes()),
{
    let s = link.as_bytes();
    let n = s.len();
    if n < 10 || s[0] != 115 || s[1] != 111 || s[2] != 99 || s[3] != 107 || s[4] != 101 || s[5]
        != 116 || s[6] != 58 || s[7] != 91 || s[n - 1] != 93 {
        proof {
            if n >= 10 && s@.subrange(0, 8) == socket_prefix() {
                assert(s@.subrange(0, 8)[0] == s@[0]);
                assert(s@.subrange(0, 8)[1] == s@[1]);
                assert(s@.subrange(0, 8)[2] == s@[2]);
                assert(s@.subrange(0, 8)[3] == s@[3]);
                assert(s@.subrange(0, 8)[4] == s@[4]);
                assert(s@.subrange(0, 8)[5] == s@[5]);
                assert(s@.subrange(0, 8)[6] == s@[6]);
                assert(s@.subrange(0, 8)[7] == s@[7]);
            }
        }
        return None;
    }
    assert(s@.subrange(0, 8) =~= socket_prefix());
    if !all_in_exec(s, 8, n - 1, ByteClass::Digit) {
        return None;
    }
    parse_decimal(s, 8, n - 1)
}

/// Resolves the socket inodes of one process from the targets of its
/// descriptor links; links that are not sockets are skipped.
pub fn get_socket_inodes(links: &Vec<String>) -> (r: Vec<u64>)
    ensures
        r@ == socket_inodes(lines_view(links@)),
{
    let ghost lv = lines_view(links@);
    let mut out: Vec<u64> = Vec::new();
    let mut i: usize = 0;
    while i < links.len()
        invariant
            i <= links@.len(),
            lv == lines_view(links@),
            out@ == socket_inodes(lv.subrange(0, i as int)),
        decreases links@.len() - i,
    {
        let link = links[i].as_str();
        assert(lv[i as int] == link@);
        assert(lv.subrange(0, i + 1).drop_last() =~= lv.subrange(0, i as int));
        match link_socket_inode(link) {
            Some(inode) => out.push(inode),
            None => {},
        }
        assert(out@ =~= socket_inodes(lv.subrange(0, i + 1)));
        i = i + 1;
    }
    assert(lv.subrange(0, lv.len() as int) =~= lv);
    out
}

} // verus!
