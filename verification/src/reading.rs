//! Reading back: what the numbers and addresses that the library writes say to a reader.

use vstd::prelude::*;

use crate::address::{
    compressed_text,
    groups_text,
    host_port_text,
    ipv4_text,
    ipv6_groups,
    ipv6_text,
    is_ipv4_mapped,
    longest_zero_run,
    zero_run,
};
use crate::text::{decimal_text, number_text, utf8_fault_text, Utf8Fault};

verus! {

/// The value of a digit in a radix of at most sixteen; negative for what is no such digit.
pub open spec fn digit_value(c: char) -> int {
    if '0' <= c <= '9' {
        c as int - '0' as int
    } else if 'a' <= c <= 'f' {
        c as int - 'a' as int + 10
    } else {
        -1
    }
}

/// Whether a text is a number in a radix: at least one digit, and no superfluous zero in front.
pub open spec fn is_numeral(text: Seq<char>, radix: int) -> bool {
    &&& text.len() > 0
    &&& forall|i: int| 0 <= i < text.len() ==> 0 <= digit_value(#[trigger] text[i]) < radix
    &&& text.len() > 1 ==> text[0] != '0'
}

/// The number that digits stand for.
pub open spec fn numeral_value(text: Seq<char>, radix: int) -> int
    decreases text.len(),
{
    if text.len() == 0 {
        0
    } else {
        numeral_value(text.drop_last(), radix) * radix + digit_value(text.last())
    }
}

/// A number is written as a numeral, and a reader of it finds the same number.
pub proof fn law_number_is_read_back(n: nat, radix: nat)
    requires
        2 <= radix <= 16,
    ensures
        is_numeral(number_text(n, radix), radix as int),
        numeral_value(number_text(n, radix), radix as int) == n,
    decreases n,
{
    let text = number_text(n, radix);
    let r = radix as int;
    if n < radix {
        assert(text.drop_last() =~= Seq::<char>::empty());
        assert(numeral_value(text.drop_last(), r) == 0);
        assert(0 * r == 0) by (nonlinear_arith);
    } else {
        vstd::arithmetic::div_mod::lemma_div_decreases(n as int, r);
        vstd::arithmetic::div_mod::lemma_fundamental_div_mod(n as int, r);
        vstd::arithmetic::div_mod::lemma_mod_bound(n as int, r);
        assert(n / radix > 0) by (nonlinear_arith)
            requires
                n >= radix,
                radix >= 2,
        ;
        law_number_is_read_back(n / radix, radix);
        let head = number_text(n / radix, radix);
        assert(text.drop_last() =~= head);
        assert(digit_value(text.last()) == n % radix);
        assert(numeral_value(head, r) * r == r * (n as int / r)) by (nonlinear_arith)
            requires
                numeral_value(head, r) == n as int / r,
        ;
        assert forall|i: int| 0 <= i < text.len() implies 0 <= digit_value(#[trigger] text[i])
            < r by {
            if i < head.len() {
                assert(text[i] == head[i]);
            }
        }
        assert(text[0] == head[0]);
        if head.len() == 1 && head[0] == '0' {
            assert(head.drop_last() =~= Seq::<char>::empty());
            assert(numeral_value(head.drop_last(), r) == 0);
            assert(0 * r == 0) by (nonlinear_arith);
        }
    }
}

/// The value of a numeral that does not start with a zero is positive.
proof fn lemma_numeral_is_positive(text: Seq<char>, radix: int)
    requires
        2 <= radix <= 16,
        is_numeral(text, radix),
        text[0] != '0',
    ensures
        numeral_value(text, radix) > 0,
    decreases text.len(),
{
    let head = text.drop_last();
    if text.len() == 1 {
        assert(head =~= Seq::<char>::empty());
        assert(0 * radix == 0) by (nonlinear_arith);
        assert(digit_value(text[0]) >= 0);
    } else {
        assert forall|i: int| 0 <= i < head.len() implies 0 <= digit_value(#[trigger] head[i])
            < radix by {
            assert(head[i] == text[i]);
        }
        lemma_numeral_is_positive(head, radix);
        assert(digit_value(text[text.len() - 1]) >= 0);
        assert(numeral_value(head, radix) * radix > 0) by (nonlinear_arith)
            requires
                numeral_value(head, radix) > 0,
                radix > 0,
        ;
    }
}

/// There is one numeral for each number.
pub proof fn law_numeral_is_unique(text: Seq<char>, radix: nat)
    requires
        2 <= radix <= 16,
        is_numeral(text, radix as int),
    ensures
        numeral_value(text, radix as int) >= 0,
        text == number_text(numeral_value(text, radix as int) as nat, radix),
    decreases text.len(),
{
    let r = radix as int;
    let head = text.drop_last();
    let d = digit_value(text.last());
    assert(0 <= digit_value(text[text.len() - 1]) < r);
    if text.len() == 1 {
        assert(head =~= Seq::<char>::empty());
        assert(numeral_value(head, r) == 0);
        assert(0 * r == 0) by (nonlinear_arith);
        assert(numeral_value(text, r) == d);
        assert(text =~= number_text(d as nat, radix));
    } else {
        assert forall|i: int| 0 <= i < head.len() implies 0 <= digit_value(#[trigger] head[i])
            < r by {
            assert(head[i] == text[i]);
        }
        assert(head[0] == text[0]);
        lemma_numeral_is_positive(head, r);
        law_numeral_is_unique(head, radix);
        let h = numeral_value(head, r);
        let n = h * r + d;
        assert(n >= r) by (nonlinear_arith)
            requires
                n == h * r + d,
                h > 0,
                d >= 0,
                r > 0,
        ;
        vstd::arithmetic::div_mod::lemma_fundamental_div_mod_converse(n, r, h, d);
        assert(text =~= head.push(text.last()));
        assert(text =~= number_text(n as nat, radix));
    }
}

/// The place of the last `c` in a text; negative where there is none.
pub open spec fn last_index(s: Seq<char>, c: char) -> int
    decreases s.len(),
{
    if s.len() == 0 {
        -1
    } else if s.last() == c {
        s.len() - 1
    } else {
        last_index(s.drop_last(), c)
    }
}

proof fn lemma_last_index(s: Seq<char>, c: char, i: int)
    requires
        0 <= i < s.len(),
        s[i] == c,
        forall|j: int| i < j < s.len() ==> #[trigger] s[j] != c,
    ensures
        last_index(s, c) == i,
    decreases s.len(),
{
    if i < s.len() - 1 {
        let t = s.drop_last();
        assert(s[s.len() - 1] != c);
        assert forall|j: int| i < j < t.len() implies #[trigger] t[j] != c by {
            assert(t[j] == s[j]);
        }
        lemma_last_index(t, c, i);
    }
}

proof fn lemma_no_last_index(s: Seq<char>, c: char)
    requires
        forall|j: int| 0 <= j < s.len() ==> #[trigger] s[j] != c,
    ensures
        last_index(s, c) == -1,
    decreases s.len(),
{
    if s.len() > 0 {
        let t = s.drop_last();
        assert(s[s.len() - 1] != c);
        assert forall|j: int| 0 <= j < t.len() implies #[trigger] t[j] != c by {
            assert(t[j] == s[j]);
        }
        lemma_no_last_index(t, c);
    }
}

/// A text, a separator, and a text without that separator, are told apart.
proof fn lemma_cut(a: Seq<char>, c: char, b: Seq<char>)
    requires
        forall|j: int| 0 <= j < b.len() ==> #[trigger] b[j] != c,
    ensures
        last_index(a + seq![c] + b, c) == a.len(),
        (a + seq![c] + b).take(a.len() as int) == a,
        (a + seq![c] + b).skip(a.len() as int + 1) == b,
{
    let s = a + seq![c] + b;
    assert forall|j: int| a.len() < j < s.len() implies #[trigger] s[j] != c by {
        assert(s[j] == b[j - a.len() - 1]);
    }
    lemma_last_index(s, c, a.len() as int);
    assert(s.take(a.len() as int) =~= a);
    assert(s.skip(a.len() as int + 1) =~= b);
}

/// A numeral has no separator in it.
proof fn lemma_numeral_has_no_separator(n: nat, radix: nat)
    requires
        2 <= radix <= 16,
    ensures
        forall|j: int| 0 <= j < number_text(n, radix).len() ==> #[trigger] number_text(n, radix)[j]
            != ':',
        forall|j: int| 0 <= j < number_text(n, radix).len() ==> #[trigger] number_text(n, radix)[j]
            != '.',
{
    law_number_is_read_back(n, radix);
    let t = number_text(n, radix);
    assert forall|j: int| 0 <= j < t.len() implies #[trigger] t[j] != ':' && t[j] != '.' by {
        assert(digit_value(t[j]) >= 0);
    }
}

/// The host in a text of the form `host:port`.
pub open spec fn host_of(text: Seq<char>) -> Seq<char> {
    text.take(last_index(text, ':'))
}

/// The digits of the port in a text of the form `host:port`.
pub open spec fn port_digits(text: Seq<char>) -> Seq<char> {
    text.skip(last_index(text, ':') + 1)
}

/// Whether a text of the form `host:port` names this host and this port.
pub open spec fn names(text: Seq<char>, host: Seq<char>, port: u16) -> bool {
    &&& 0 <= last_index(text, ':') < text.len()
    &&& host_of(text) == host
    &&& is_numeral(port_digits(text), 10)
    &&& numeral_value(port_digits(text), 10) == port
}

/// A reader of `host:port` finds the host and the port.
pub proof fn law_host_and_port_are_read_back(host: Seq<char>, port: u16)
    ensures
        names(host_port_text(host, port), host, port),
{
    reveal_strlit(":");
    assert(":"@ =~= seq![':']);
    lemma_numeral_has_no_separator(port as nat, 10);
    law_number_is_read_back(port as nat, 10);
    lemma_cut(host, ':', decimal_text(port as nat));
}

/// A text of the form `host:port` names one host and one port, and no other text names them.
pub proof fn law_host_and_port_have_one_text(text: Seq<char>, host: Seq<char>, port: u16)
    requires
        names(text, host, port),
    ensures
        text == host_port_text(host, port),
{
    reveal_strlit(":");
    let i = last_index(text, ':');
    lemma_at_last_index(text, ':');
    law_numeral_is_unique(port_digits(text), 10);
    assert(text =~= host + ":"@ + port_digits(text));
}

proof fn lemma_at_last_index(s: Seq<char>, c: char)
    ensures
        -1 <= last_index(s, c) < s.len(),
        last_index(s, c) >= 0 ==> s[last_index(s, c)] == c,
    decreases s.len(),
{
    if s.len() > 0 && s.last() != c {
        lemma_at_last_index(s.drop_last(), c);
    }
}

/// The parts of a text between the separators.
pub open spec fn parts(s: Seq<char>, c: char) -> Seq<Seq<char>>
    decreases s.len(),
{
    let i = last_index(s, c);
    if 0 <= i < s.len() {
        parts(s.take(i), c).push(s.skip(i + 1))
    } else {
        seq![s]
    }
}

proof fn lemma_parts(a: Seq<char>, c: char, b: Seq<char>)
    requires
        forall|j: int| 0 <= j < b.len() ==> #[trigger] b[j] != c,
    ensures
        parts(a + seq![c] + b, c) == parts(a, c).push(b),
{
    lemma_cut(a, c, b);
}

/// Whether a text is an IPv4 address: four numbers below 256, between dots.
pub open spec fn is_dotted(text: Seq<char>, bytes: Seq<u8>) -> bool {
    &&& parts(text, '.').len() == 4
    &&& forall|i: int|
        0 <= i < 4 ==> is_numeral(#[trigger] parts(text, '.')[i], 10) && numeral_value(
            parts(text, '.')[i],
            10,
        ) == bytes[i]
}

/// A reader of an IPv4 address finds its four bytes.
pub proof fn law_ipv4_is_read_back(bytes: Seq<u8>)
    requires
        bytes.len() == 4,
    ensures
        is_dotted(ipv4_text(bytes), bytes),
{
    reveal_strlit(".");
    assert("."@ =~= seq!['.']);
    let (d0, d1, d2, d3) = (
        decimal_text(bytes[0] as nat),
        decimal_text(bytes[1] as nat),
        decimal_text(bytes[2] as nat),
        decimal_text(bytes[3] as nat),
    );
    assert forall|i: int| 0 <= i < 4 implies is_numeral(decimal_text(#[trigger] bytes[i] as nat), 10)
        && numeral_value(decimal_text(bytes[i] as nat), 10) == bytes[i] by {
        law_number_is_read_back(bytes[i] as nat, 10);
    }
    lemma_numeral_has_no_separator(bytes[0] as nat, 10);
    lemma_numeral_has_no_separator(bytes[1] as nat, 10);
    lemma_numeral_has_no_separator(bytes[2] as nat, 10);
    lemma_numeral_has_no_separator(bytes[3] as nat, 10);
    lemma_no_last_index(d0, '.');
    assert(parts(d0, '.') == seq![d0]);
    let t1 = d0 + seq!['.'] + d1;
    let t2 = t1 + seq!['.'] + d2;
    let t3 = t2 + seq!['.'] + d3;
    lemma_parts(d0, '.', d1);
    lemma_parts(t1, '.', d2);
    lemma_parts(t2, '.', d3);
    assert(ipv4_text(bytes) == t3);
    let p = parts(t3, '.');
    assert(p =~= seq![d0, d1, d2, d3]);
    assert forall|i: int| 0 <= i < 4 implies is_numeral(#[trigger] p[i], 10) && numeral_value(
        p[i],
        10,
    ) == bytes[i] by {
        assert(p[i] == decimal_text(bytes[i] as nat));
    }
}

proof fn lemma_dotted_is_not_empty(bytes: Seq<u8>)
    requires
        bytes.len() == 4,
    ensures
        ipv4_text(bytes).len() > 0,
{
    law_number_is_read_back(bytes[0] as nat, 10);
}

/// Different IPv4 addresses have different texts.
pub proof fn law_ipv4_texts_differ(a: Seq<u8>, b: Seq<u8>)
    requires
        a.len() == 4,
        b.len() == 4,
        ipv4_text(a) == ipv4_text(b),
    ensures
        a == b,
{
    law_ipv4_is_read_back(a);
    law_ipv4_is_read_back(b);
    let p = parts(ipv4_text(a), '.');
    assert forall|i: int| 0 <= i < 4 implies a[i] == b[i] by {
        assert(numeral_value(p[i], 10) == a[i]);
        assert(numeral_value(p[i], 10) == b[i]);
    }
    assert(a =~= b);
}

/// The eight groups of an IPv6 address, two bytes each.
pub open spec fn group_values(bytes: Seq<u8>) -> Seq<int> {
    Seq::new(8, |i: int| bytes[2 * i] * 256 + bytes[2 * i + 1])
}

/// Whether two colons stand at `i`.
pub open spec fn is_gap(s: Seq<char>, i: int) -> bool {
    0 <= i && i + 1 < s.len() && s[i] == ':' && s[i + 1] == ':'
}

/// The groups in a text without a gap.
pub open spec fn groups_in(s: Seq<char>) -> Seq<int> {
    if s.len() == 0 {
        Seq::empty()
    } else {
        parts(s, ':').map_values(|p: Seq<char>| numeral_value(p, 16))
    }
}

/// Whether the groups in a text without a gap are numerals.
pub open spec fn groups_are_numerals(s: Seq<char>) -> bool {
    s.len() > 0 ==> forall|i: int|
        0 <= i < parts(s, ':').len() ==> is_numeral(#[trigger] parts(s, ':')[i], 16)
}

/// Whether a text is an IPv6 address with these groups, of which `len` groups from `start` on are
/// left out and have to be zero; none is left out where `len` is zero.
pub open spec fn is_hextets(text: Seq<char>, groups: Seq<int>, start: int, len: int) -> bool {
    if len == 0 {
        &&& forall|i: int| !is_gap(text, i)
        &&& groups_are_numerals(text)
        &&& groups_in(text) == groups
    } else {
        exists|i: int|
            {
                &&& #[trigger] is_gap(text, i)
                &&& forall|j: int| is_gap(text, j) ==> i == j
                &&& groups_are_numerals(text.take(i))
                &&& groups_are_numerals(text.skip(i + 2))
                &&& groups_in(text.take(i)).len() == start
                &&& groups == groups_in(text.take(i)) + Seq::new(len as nat, |k: int| 0int)
                    + groups_in(text.skip(i + 2))
            }
    }
}

/// Whether the bytes of the `len` groups from `start` on are zero.
pub open spec fn zero_groups(bytes: Seq<u8>, start: int, len: int) -> bool {
    forall|i: int| 2 * start <= i < 2 * (start + len) ==> bytes[i] == 0
}

/// Whether an address is one of IPv4 in the form that IPv6 has for it.
pub open spec fn carries_ipv4(bytes: Seq<u8>) -> bool {
    &&& forall|i: int| 0 <= i < 10 ==> bytes[i] == 0
    &&& bytes[10] == 255
    &&& bytes[11] == 255
}

proof fn lemma_groups_text(groups: Seq<u16>)
    requires
        groups.len() > 0,
    ensures
        ({
            let t = groups_text(groups);
            &&& t.len() > 0
            &&& t[0] != ':'
            &&& t.last() != ':'
            &&& forall|i: int| !is_gap(t, i)
            &&& forall|i: int| 0 <= i < t.len() ==> #[trigger] t[i] != '.'
            &&& parts(t, ':').len() == groups.len()
            &&& forall|i: int|
                0 <= i < groups.len() ==> #[trigger] parts(t, ':')[i] == number_text(
                    groups[i] as nat,
                    16,
                )
        }),
    decreases groups.len(),
{
    reveal_strlit(":");
    assert(":"@ =~= seq![':']);
    let t = groups_text(groups);
    let d = number_text(groups.last() as nat, 16);
    law_number_is_read_back(groups.last() as nat, 16);
    lemma_numeral_has_no_separator(groups.last() as nat, 16);
    if groups.len() == 1 {
        lemma_no_last_index(d, ':');
    } else {
        let rest = groups.drop_last();
        let a = groups_text(rest);
        lemma_groups_text(rest);
        assert(t == a + seq![':'] + d);
        lemma_parts(a, ':', d);
        assert forall|i: int| !is_gap(t, i) by {
            if is_gap(t, i) {
                if i + 1 < a.len() {
                    assert(is_gap(a, i));
                } else if i + 1 == a.len() {
                    assert(t[i] == a.last());
                } else if i == a.len() {
                    assert(t[i + 1] == d[0]);
                } else {
                    assert(t[i] == d[i - a.len() - 1]);
                }
            }
        }
        assert forall|i: int| 0 <= i < t.len() implies #[trigger] t[i] != '.' by {
            if i < a.len() {
                assert(t[i] == a[i]);
            } else if i > a.len() {
                assert(t[i] == d[i - a.len() - 1]);
            }
        }
        assert(t[0] == a[0]);
        assert(t.last() == d.last());
        assert forall|i: int| 0 <= i < groups.len() implies #[trigger] parts(t, ':')[i]
            == number_text(groups[i] as nat, 16) by {
            if i < rest.len() {
                assert(parts(a, ':')[i] == number_text(rest[i] as nat, 16));
            }
        }
    }
}

proof fn lemma_groups_in(groups: Seq<u16>)
    ensures
        groups_are_numerals(groups_text(groups)),
        groups_in(groups_text(groups)) == groups.map_values(|g: u16| g as int),
{
    let t = groups_text(groups);
    if groups.len() > 0 {
        lemma_groups_text(groups);
        assert forall|i: int| 0 <= i < groups.len() implies is_numeral(
            #[trigger] parts(t, ':')[i],
            16,
        ) && numeral_value(parts(t, ':')[i], 16) == groups[i] by {
            law_number_is_read_back(groups[i] as nat, 16);
        }
    }
    assert(groups_in(t) =~= groups.map_values(|g: u16| g as int));
}

proof fn lemma_compressed(groups: Seq<u16>, start: int, len: int)
    requires
        zero_run(groups, start, len),
        len > 1,
    ensures
        ({
            let text = compressed_text(groups, start, len);
            &&& is_hextets(text, groups.map_values(|g: u16| g as int), start, len)
            &&& forall|i: int| 0 <= i < text.len() ==> #[trigger] text[i] != '.'
        }),
{
    reveal_strlit("::");
    let values = groups.map_values(|g: u16| g as int);
    let before = groups.take(start);
    let after = groups.skip(start + len);
    let a = groups_text(before);
    let b = groups_text(after);
    let text = compressed_text(groups, start, len);
    lemma_groups_in(before);
    lemma_groups_in(after);
    if before.len() > 0 {
        lemma_groups_text(before);
    }
    if after.len() > 0 {
        lemma_groups_text(after);
    }
    let i = a.len() as int;
    assert(text == a + "::"@ + b);
    assert(is_gap(text, i));
    assert forall|j: int| is_gap(text, j) implies i == j by {
        if j + 1 < i {
            assert(text[j] == a[j] && text[j + 1] == a[j + 1]);
            assert(is_gap(a, j));
        } else if j + 1 == i {
            assert(text[j] == a.last());
        } else if j == i + 1 {
            assert(text[j + 1] == b[0]);
        } else if j > i + 1 {
            assert(text[j] == b[j - i - 2] && text[j + 1] == b[j - i - 1]);
            assert(is_gap(b, j - i - 2));
        }
    }
    assert(text.take(i) =~= a);
    assert(text.skip(i + 2) =~= b);
    assert(values =~= groups_in(a) + Seq::new(len as nat, |k: int| 0int) + groups_in(b));
    assert forall|j: int| 0 <= j < text.len() implies #[trigger] text[j] != '.' by {
        if j < i {
            assert(text[j] == a[j]);
        } else if j >= i + 2 {
            assert(text[j] == b[j - i - 2]);
        }
    }
}

/// There is a longest run of zero groups, and it is the first of that length.
proof fn lemma_longest_run_exists(groups: Seq<u16>, upto: int) -> (r: (int, int))
    requires
        0 <= upto <= groups.len(),
    ensures
        zero_run(groups, r.0, r.1),
        r.0 + r.1 <= upto,
        forall|a: int, n: int| #[trigger]
            zero_run(groups, a, n) && a + n <= upto ==> n < r.1 || (n == r.1 && r.0 <= a),
    decreases upto,
{
    if upto == 0 {
        assert(zero_run(groups, 0, 0));
        (0, 0)
    } else {
        let best = lemma_longest_run_exists(groups, upto - 1);
        if exists|a: int| #[trigger] zero_run(groups, a, upto - a) && upto - a > best.1 {
            let first = lemma_first_run(groups, upto, 0, best.1);
            assert forall|a: int, n: int| #[trigger]
                zero_run(groups, a, n) && a + n <= upto implies n < upto - first || (n == upto
                - first && first <= a) by {
                if a + n == upto {
                    assert(zero_run(groups, a, upto - a));
                }
            }
            (first, upto - first)
        } else {
            assert forall|a: int, n: int| #[trigger]
                zero_run(groups, a, n) && a + n <= upto implies n < best.1 || (n == best.1
                && best.0 <= a) by {
                if a + n == upto {
                    assert(zero_run(groups, a, upto - a));
                    if n == best.1 && a < best.0 {
                        assert(best.0 + best.1 > upto);
                    }
                }
            }
            best
        }
    }
}

/// The first place from which all groups up to `upto` are zero, from `from` on.
proof fn lemma_first_run(groups: Seq<u16>, upto: int, from: int, least: int) -> (r: int)
    requires
        0 <= from <= upto <= groups.len(),
        exists|a: int| from <= a && #[trigger] zero_run(groups, a, upto - a) && upto - a > least,
        least >= 0,
    ensures
        zero_run(groups, r, upto - r),
        upto - r > least,
        forall|a: int| from <= a && #[trigger] zero_run(groups, a, upto - a) ==> r <= a,
    decreases upto - from,
{
    if zero_run(groups, from, upto - from) {
        let a = choose|a: int|
            from <= a && #[trigger] zero_run(groups, a, upto - a) && upto - a > least;
        from
    } else {
        lemma_first_run(groups, upto, from + 1, least)
    }
}

/// A reader of an IPv6 address finds its sixteen bytes. An address of IPv4 ends in the dotted
/// form; in any other, each group is read as two bytes, and the groups that are left out are zero.
/// At least two groups are left out if any are. They are the longest run of zero groups: no run
/// of two or more zero groups is longer, and none of the same length comes before.
pub proof fn law_ipv6_is_read_back(bytes: Seq<u8>)
    requires
        bytes.len() == 16,
    ensures
        ({
            let text = ipv6_text(bytes);
            if carries_ipv4(bytes) {
                &&& text.len() > 7
                &&& text.take(7) == "::ffff:"@
                &&& is_dotted(text.skip(7), bytes.skip(12))
            } else {
                &&& forall|i: int| 0 <= i < text.len() ==> #[trigger] text[i] != '.'
                &&& exists|start: int, len: int|
                    {
                        &&& #[trigger] is_hextets(text, group_values(bytes), start, len)
                        &&& len == 0 || len >= 2
                        &&& forall|a: int, n: int| #[trigger]
                            zero_groups(bytes, a, n) && 2 <= n && 0 <= a && a + n <= 8 ==> n < len
                                || (n == len && start <= a)
                    }
            }
        }),
{
    reveal_strlit("::ffff:");
    let text = ipv6_text(bytes);
    let groups = ipv6_groups(bytes);
    let values = group_values(bytes);
    assert forall|i: int| 0 <= i < 8 implies groups[i] == values[i] && (groups[i] == 0 <==> (bytes[2
        * i] == 0 && bytes[2 * i + 1] == 0)) by {}
    assert(groups.map_values(|g: u16| g as int) =~= values);
    assert(carries_ipv4(bytes) == is_ipv4_mapped(groups)) by {
        if is_ipv4_mapped(groups) {
            assert forall|i: int| 0 <= i < 10 implies bytes[i] == 0 by {
                assert(groups[i / 2] == 0);
            }
        }
        if carries_ipv4(bytes) {
            assert forall|i: int| 0 <= i < 5 implies groups[i] == 0 by {
                assert(bytes[2 * i] == 0 && bytes[2 * i + 1] == 0);
            }
        }
    }
    if carries_ipv4(bytes) {
        assert(text.take(7) =~= "::ffff:"@);
        assert(text.skip(7) =~= ipv4_text(bytes.skip(12)));
        law_ipv4_is_read_back(bytes.skip(12));
        lemma_dotted_is_not_empty(bytes.skip(12));
    } else {
        let r = lemma_longest_run_exists(groups, 8);
        assert(longest_zero_run(groups, r.0, r.1));
        let (start, len): (int, int) = choose|start: int, len: int|
            longest_zero_run(groups, start, len);
        let shown = if len > 1 {
            len
        } else {
            0
        };
        if len > 1 {
            lemma_compressed(groups, start, len);
        } else {
            lemma_groups_text(groups);
            lemma_groups_in(groups);
        }
        assert(is_hextets(text, values, start, shown));
        assert forall|a: int, n: int| #[trigger]
            zero_groups(bytes, a, n) && 2 <= n && 0 <= a && a + n <= 8 implies n < shown || (n
            == shown && start <= a) by {
            assert forall|i: int| a <= i < a + n implies groups[i] == 0 by {
                assert(bytes[2 * i] == 0 && bytes[2 * i + 1] == 0);
            }
            assert(zero_run(groups, a, n));
        }
    }
}

/// Different IPv6 addresses have different texts.
pub proof fn law_ipv6_texts_differ(a: Seq<u8>, b: Seq<u8>)
    requires
        a.len() == 16,
        b.len() == 16,
        ipv6_text(a) == ipv6_text(b),
    ensures
        a == b,
{
    law_ipv6_is_read_back(a);
    law_ipv6_is_read_back(b);
    let text = ipv6_text(a);
    if carries_ipv4(a) || carries_ipv4(b) {
        let c = if carries_ipv4(a) {
            a
        } else {
            b
        };
        let dotted = text.skip(7);
        assert(is_dotted(dotted, c.skip(12)));
        lemma_at_last_index(dotted, '.');
        if last_index(dotted, '.') < 0 {
            assert(parts(dotted, '.').len() == 1);
        }
        let dot = 7 + last_index(dotted, '.');
        assert(text[dot] == dotted[dot - 7]);
        assert(carries_ipv4(a) && carries_ipv4(b));
        assert forall|i: int| 0 <= i < 16 implies a[i] == b[i] by {
            if i >= 12 {
                assert(numeral_value(parts(dotted, '.')[i - 12], 10) == a.skip(12)[i - 12]);
                assert(numeral_value(parts(dotted, '.')[i - 12], 10) == b.skip(12)[i - 12]);
            }
        }
        assert(a =~= b);
    } else {
        let (s, m): (int, int) = choose|start: int, len: int| #[trigger]
            is_hextets(text, group_values(a), start, len) && (len == 0 || len >= 2);
        let (t, n): (int, int) = choose|start: int, len: int| #[trigger]
            is_hextets(text, group_values(b), start, len) && (len == 0 || len >= 2);
        lemma_hextets_are_unique(text, group_values(a), s, m, group_values(b), t, n);
        assert forall|i: int| 0 <= i < 16 implies a[i] == b[i] by {
            assert(group_values(a)[i / 2] == group_values(b)[i / 2]);
        }
        assert(a =~= b);
    }
}

proof fn lemma_hextets_are_unique(
    text: Seq<char>,
    g: Seq<int>,
    s: int,
    m: int,
    h: Seq<int>,
    t: int,
    n: int,
)
    requires
        is_hextets(text, g, s, m),
        is_hextets(text, h, t, n),
        m == 0 || m >= 2,
        n == 0 || n >= 2,
        g.len() == 8,
        h.len() == 8,
    ensures
        g == h,
{
    if m == 0 {
        if n != 0 {
            assert(exists|i: int| #[trigger] is_gap(text, i));
        }
    } else {
        let i = choose|i: int|
            {
                &&& #[trigger] is_gap(text, i)
                &&& forall|j: int| is_gap(text, j) ==> i == j
                &&& groups_are_numerals(text.take(i))
                &&& groups_are_numerals(text.skip(i + 2))
                &&& groups_in(text.take(i)).len() == s
                &&& g == groups_in(text.take(i)) + Seq::new(m as nat, |k: int| 0int) + groups_in(
                    text.skip(i + 2),
                )
            };
        assert(n != 0);
        let k = choose|i: int|
            {
                &&& #[trigger] is_gap(text, i)
                &&& forall|j: int| is_gap(text, j) ==> i == j
                &&& groups_are_numerals(text.take(i))
                &&& groups_are_numerals(text.skip(i + 2))
                &&& groups_in(text.take(i)).len() == t
                &&& h == groups_in(text.take(i)) + Seq::new(n as nat, |k: int| 0int) + groups_in(
                    text.skip(i + 2),
                )
            };
        assert(i == k);
        assert(m == n);
    }
}

/// Whether a text is a label and a decimal number after it.
pub open spec fn tells(text: Seq<char>, label: Seq<char>, n: int) -> bool {
    &&& label.len() < text.len()
    &&& text.take(label.len() as int) == label
    &&& is_numeral(text.skip(label.len() as int), 10)
    &&& numeral_value(text.skip(label.len() as int), 10) == n
}

/// A reader of a label with a number after it finds both.
pub proof fn law_labelled_number_is_read_back(label: Seq<char>, n: nat)
    ensures
        tells(label + decimal_text(n), label, n as int),
{
    law_number_is_read_back(n, 10);
    let text = label + decimal_text(n);
    assert(text.take(label.len() as int) =~= label);
    assert(text.skip(label.len() as int) =~= decimal_text(n));
}

/// The description of a fault tells where it is, and how long it is unless the input stops there.
pub proof fn law_fault_is_told(fault: Utf8Fault)
    ensures
        match fault.error_len {
            None => tells(
                utf8_fault_text(fault),
                "incomplete utf-8 byte sequence from index "@,
                fault.valid_up_to as int,
            ),
            Some(len) => exists|count: Seq<char>|
                {
                    &&& #[trigger] is_numeral(count, 10)
                    &&& numeral_value(count, 10) == len
                    &&& tells(
                        utf8_fault_text(fault),
                        "invalid utf-8 sequence of "@ + count + " bytes from index "@,
                        fault.valid_up_to as int,
                    )
                },
        },
{
    let at = fault.valid_up_to as nat;
    match fault.error_len {
        None => {
            law_labelled_number_is_read_back("incomplete utf-8 byte sequence from index "@, at);
        },
        Some(len) => {
            let count = decimal_text(len as nat);
            law_number_is_read_back(len as nat, 10);
            law_labelled_number_is_read_back(
                "invalid utf-8 sequence of "@ + count + " bytes from index "@,
                at,
            );
            assert(is_numeral(count, 10));
        },
    }
}

} // verus!
