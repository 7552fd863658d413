//! Network addresses as text.

use vstd::prelude::*;

use crate::text::{decimal_text, number, number_text};

verus! {

/// A host and a port, separated by a colon.
pub open spec fn host_port_text(host: Seq<char>, port: u16) -> Seq<char> {
    host + ":"@ + decimal_text(port as nat)
}

/// Writes a host and a port.
pub fn host_port(host: &str, port: u16) -> (r: String)
    ensures
        r@ == host_port_text(host@, port),
{
    let mut s = host.to_owned();
    s.append(":");
    s.append(number(port as u64, 10).as_str());
    s
}

/// The four numbers of an IPv4 address, separated by dots.
pub open spec fn ipv4_text(bytes: Seq<u8>) -> Seq<char> {
    decimal_text(bytes[0] as nat) + "."@ + decimal_text(bytes[1] as nat) + "."@ + decimal_text(
        bytes[2] as nat,
    ) + "."@ + decimal_text(bytes[3] as nat)
}

/// Writes an IPv4 address.
pub fn ipv4(bytes: &[u8]) -> (r: String)
    requires
        bytes@.len() == 4,
    ensures
        r@ == ipv4_text(bytes@),
{
    let mut s = number(bytes[0] as u64, 10);
    s.append(".");
    s.append(number(bytes[1] as u64, 10).as_str());
    s.append(".");
    s.append(number(bytes[2] as u64, 10).as_str());
    s.append(".");
    s.append(number(bytes[3] as u64, 10).as_str());
    s
}

/// The 16-bit groups of an IPv6 address.
pub open spec fn ipv6_groups(bytes: Seq<u8>) -> Seq<u16> {
    Seq::new(8, |i: int| (bytes[2 * i] * 256 + bytes[2 * i + 1]) as u16)
}

/// Whether the groups stand for an IPv4 address, that is `::ffff:0:0/96`.
pub open spec fn is_ipv4_mapped(groups: Seq<u16>) -> bool {
    &&& forall|i: int| 0 <= i < 5 ==> groups[i] == 0
    &&& groups[5] == 0xffff
}

/// Whether the `len` groups from `start` on are there and are all zero.
pub open spec fn zero_run(groups: Seq<u16>, start: int, len: int) -> bool {
    &&& 0 <= start
    &&& 0 <= len
    &&& start + len <= groups.len()
    &&& forall|i: int| start <= i < start + len ==> groups[i] == 0
}

/// Whether `(start, len)` is the longest run of zero groups, and the first of that length.
pub open spec fn longest_zero_run(groups: Seq<u16>, start: int, len: int) -> bool {
    &&& zero_run(groups, start, len)
    &&& forall|a: int, n: int| #[trigger]
        zero_run(groups, a, n) ==> n < len || (n == len && start <= a)
}

/// Groups in hexadecimal, separated by colons.
pub open spec fn groups_text(groups: Seq<u16>) -> Seq<char>
    decreases groups.len(),
{
    if groups.len() == 0 {
        Seq::empty()
    } else if groups.len() == 1 {
        number_text(groups[0] as nat, 16)
    } else {
        groups_text(groups.drop_last()) + ":"@ + number_text(groups.last() as nat, 16)
    }
}

/// Groups in which the run `(start, len)` is written as `::` when it is longer than one group.
pub open spec fn compressed_text(groups: Seq<u16>, start: int, len: int) -> Seq<char> {
    if len > 1 {
        groups_text(groups.take(start)) + "::"@ + groups_text(groups.skip(start + len))
    } else {
        groups_text(groups)
    }
}

/// An IPv6 address in its canonical form: an IPv4-mapped address ends in the IPv4 address, and
/// in any other the longest run of zero groups is compressed.
pub open spec fn ipv6_text(bytes: Seq<u8>) -> Seq<char> {
    let groups = ipv6_groups(bytes);
    if is_ipv4_mapped(groups) {
        "::ffff:"@ + ipv4_text(bytes.skip(12))
    } else {
        let (start, len): (int, int) = choose|start: int, len: int|
            longest_zero_run(groups, start, len);
        compressed_text(groups, start, len)
    }
}

/// No two runs are both the longest and the first of that length.
pub proof fn law_longest_zero_run_is_unique(groups: Seq<u16>, a: int, n: int, b: int, m: int)
    requires
        longest_zero_run(groups, a, n),
        longest_zero_run(groups, b, m),
    ensures
        a == b,
        n == m,
{
    assert(zero_run(groups, a, n));
    assert(zero_run(groups, b, m));
}

/// Finds the longest run of zero groups.
fn find_zero_run(groups: &Vec<u16>) -> (r: (usize, usize))
    ensures
        longest_zero_run(groups@, r.0 as int, r.1 as int),
{
    let mut best_start: usize = 0;
    let mut best_len: usize = 0;
    let mut len: usize = 0;
    let mut i: usize = 0;
    assert(zero_run(groups@, 0, 0));
    while i < groups.len()
        invariant
            len <= i <= groups@.len(),
            zero_run(groups@, i - len, len as int),
            i == len || groups@[i - len - 1] != 0,
            zero_run(groups@, best_start as int, best_len as int),
            best_start + best_len <= i,
            forall|a: int, n: int| #[trigger]
                zero_run(groups@, a, n) && a + n <= i ==> n < best_len || (n == best_len
                    && best_start <= a),
        decreases groups@.len() - i,
    {
        let ghost old_len = len;
        if groups[i] == 0 {
            len = len + 1;
        } else {
            len = 0;
        }
        let ghost (bs, bl) = (best_start as int, best_len as int);
        if len > best_len {
            best_len = len;
            best_start = i + 1 - len;
        }
        assert forall|a: int, n: int| #[trigger]
            zero_run(groups@, a, n) && a + n <= i + 1 implies n < best_len || (n == best_len
            && best_start <= a) by {
            if a + n == i + 1 && n > 0 {
                assert(groups@[i as int] == 0);
                if n > len {
                    assert(groups@[i - old_len - 1] == 0);
                }
                if n < len {
                } else {
                    assert(a == i + 1 - len);
                }
            } else if n > 0 {
                assert(n < bl || (n == bl && bs <= a));
            }
        }
        i = i + 1;
    }
    (best_start, best_len)
}

/// Writes the groups from `from` to `to`.
fn write_groups(groups: &Vec<u16>, from: usize, to: usize) -> (r: String)
    requires
        from <= to <= groups@.len(),
    ensures
        r@ == groups_text(groups@.subrange(from as int, to as int)),
{
    let mut s = String::new();
    let mut i: usize = from;
    while i < to
        invariant
            from <= i <= to <= groups@.len(),
            s@ == groups_text(groups@.subrange(from as int, i as int)),
        decreases to - i,
    {
        if i > from {
            s.append(":");
        }
        s.append(number(groups[i] as u64, 16).as_str());
        proof {
            let next = groups@.subrange(from as int, i + 1);
            assert(next.drop_last() =~= groups@.subrange(from as int, i as int));
            assert(next.last() == groups@[i as int]);
            if i == from {
                assert(s@ =~= groups_text(next));
            }
        }
        i = i + 1;
    }
    s
}

/// Writes an IPv6 address.
pub fn ipv6(bytes: &[u8]) -> (r: String)
    requires
        bytes@.len() == 16,
    ensures
        r@ == ipv6_text(bytes@),
{
    let mut groups: Vec<u16> = Vec::new();
    let mut i: usize = 0;
    while i < 8
        invariant
            i <= 8,
            bytes@.len() == 16,
            groups@ == ipv6_groups(bytes@).take(i as int),
        decreases 8 - i,
    {
        groups.push(bytes[2 * i] as u16 * 256 + bytes[2 * i + 1] as u16);
        i = i + 1;
    }
    assert(groups@ == ipv6_groups(bytes@));
    let mapped = groups[0] == 0 && groups[1] == 0 && groups[2] == 0 && groups[3] == 0 && groups[4]
        == 0 && groups[5] == 0xffff;
    assert(mapped == is_ipv4_mapped(groups@));
    if mapped {
        let mut s = "::ffff:".to_owned();
        let tail = vstd::slice::slice_subrange(bytes, 12, 16);
        assert(tail@ =~= bytes@.skip(12));
        s.append(ipv4(tail).as_str());
        s
    } else {
        let (start, len) = find_zero_run(&groups);
        proof {
            let (a, n): (int, int) = choose|start: int, len: int|
                longest_zero_run(groups@, start, len);
            law_longest_zero_run_is_unique(groups@, start as int, len as int, a, n);
        }
        if len > 1 {
            let mut s = write_groups(&groups, 0, start);
            s.append("::");
            s.append(write_groups(&groups, start + len, groups.len()).as_str());
            assert(groups@.subrange(0, start as int) =~= groups@.take(start as int));
            assert(groups@.subrange(start + len, groups@.len() as int) =~= groups@.skip(
                start + len,
            ));
            s
        } else {
            assert(groups@.subrange(0, groups@.len() as int) =~= groups@);
            write_groups(&groups, 0, groups.len())
        }
    }
}

} // verus!
