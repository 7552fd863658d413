//! Text: numbers in a radix, prefixes, comparison and filtering.

use vstd::prelude::*;
use vstd::utf8::*;

verus! {

/// `String::push` appends one character to the end of the text.
pub assume_specification[ String::push ](s: &mut String, ch: char)
    ensures
        final(s)@ == old(s)@.push(ch),
;

/// Where and how a byte sequence stops being UTF-8.
#[derive(Debug, Clone, Copy, PartialEq, Eq, Structural)]
pub struct Utf8Fault {
    /// The number of bytes before the fault.
    pub valid_up_to: usize,
    /// The number of bytes that cannot be decoded; `None` where the input stops too early.
    pub error_len: Option<usize>,
}

/// Whether `n` is the length of the longest stretch at the start of `bytes` that is UTF-8.
pub open spec fn is_valid_up_to(bytes: Seq<u8>, n: int) -> bool {
    &&& 0 <= n <= bytes.len()
    &&& valid_utf8(bytes.take(n))
    &&& forall|m: int| n < m <= bytes.len() ==> !valid_utf8(#[trigger] bytes.take(m))
}

/// The number of bytes at a fault that cannot be decoded, as `Utf8Error::error_len` counts them.
pub uninterp spec fn utf8_error_len(bytes: Seq<u8>) -> Option<usize>;

/// `String::from_utf8` succeeds exactly on well-formed UTF-8, and the text it returns is the one
/// that the bytes encode. Its error tells the longest stretch at the start that is well-formed,
/// and how many bytes after it cannot be decoded, which depends on the bytes alone. The error is
/// handed out as these two numbers.
#[verifier::external_body]
fn from_utf8(bytes: Vec<u8>) -> (r: Result<String, Utf8Fault>)
    ensures
        match r {
            Ok(s) => valid_utf8(bytes@) && s@ == decode_utf8(bytes@),
            Err(fault) => {
                &&& !valid_utf8(bytes@)
                &&& is_valid_up_to(bytes@, fault.valid_up_to as int)
                &&& fault.error_len == utf8_error_len(bytes@)
            },
        },
{
    String::from_utf8(bytes).map_err(
        |e|
            Utf8Fault {
                valid_up_to: e.utf8_error().valid_up_to(),
                error_len: e.utf8_error().error_len(),
            },
    )
}

/// The text that a byte sequence encodes in UTF-8, or where it stops being UTF-8.
pub open spec fn utf8_text(bytes: Seq<u8>) -> Result<Seq<char>, Utf8Fault> {
    if valid_utf8(bytes) {
        Ok(decode_utf8(bytes))
    } else {
        let n: int = choose|n: int| is_valid_up_to(bytes, n);
        Err(Utf8Fault { valid_up_to: n as usize, error_len: utf8_error_len(bytes) })
    }
}

/// Decodes UTF-8.
pub fn decode_text(bytes: Vec<u8>) -> (r: Result<String, Utf8Fault>)
    ensures
        match r {
            Ok(s) => utf8_text(bytes@) == Ok::<_, Utf8Fault>(s@),
            Err(fault) => utf8_text(bytes@) == Err::<Seq<char>, _>(fault),
        },
{
    let ghost input = bytes@;
    match from_utf8(bytes) {
        Ok(s) => Ok(s),
        Err(fault) => {
            proof {
                let n = choose|n: int| is_valid_up_to(input, n);
                assert(is_valid_up_to(input, fault.valid_up_to as int));
                assert(is_valid_up_to(input, n));
                if n < fault.valid_up_to {
                    assert(!valid_utf8(input.take(fault.valid_up_to as int)));
                } else if fault.valid_up_to < n {
                    assert(!valid_utf8(input.take(n)));
                }
            }
            Err(fault)
        },
    }
}

/// A fault in words.
pub open spec fn utf8_fault_text(fault: Utf8Fault) -> Seq<char> {
    let at = decimal_text(fault.valid_up_to as nat);
    match fault.error_len {
        Some(len) => "invalid utf-8 sequence of "@ + decimal_text(len as nat)
            + " bytes from index "@ + at,
        None => "incomplete utf-8 byte sequence from index "@ + at,
    }
}

impl Utf8Fault {
    /// The fault in words.
    pub fn message(&self) -> (r: String)
        ensures
            r@ == utf8_fault_text(*self),
    {
        let at = number(self.valid_up_to as u64, 10);
        match self.error_len {
            Some(len) => {
                let mut s = "invalid utf-8 sequence of ".to_owned();
                s.append(number(len as u64, 10).as_str());
                s.append(" bytes from index ");
                s.append(at.as_str());
                s
            },
            None => labelled("incomplete utf-8 byte sequence from index ", at.as_str()),
        }
    }
}

/// The digit `d` in a radix of at most sixteen, in lower case.
pub open spec fn digit_char(d: nat) -> char {
    if d < 10 {
        (48 + d) as char
    } else {
        (87 + d) as char
    }
}

/// The digits of `n` in `radix`, most significant first, without leading zeros.
pub open spec fn number_text(n: nat, radix: nat) -> Seq<char>
    recommends
        2 <= radix <= 16,
    decreases n,
{
    if radix < 2 || n < radix {
        seq![digit_char(n)]
    } else {
        proof {
            vstd::arithmetic::div_mod::lemma_div_decreases(n as int, radix as int);
        }
        number_text(n / radix, radix).push(digit_char(n % radix))
    }
}

/// The decimal digits of `n`.
pub open spec fn decimal_text(n: nat) -> Seq<char> {
    number_text(n, 10)
}

fn digit(d: u64) -> (c: char)
    requires
        d < 16,
    ensures
        c == digit_char(d as nat),
{
    let code: u8 = if d < 10 {
        48 + d as u8
    } else {
        87 + d as u8
    };
    code as char
}

/// Writes `n` in `radix`.
pub fn number(n: u64, radix: u64) -> (r: String)
    requires
        2 <= radix <= 16,
    ensures
        r@ == number_text(n as nat, radix as nat),
    decreases n,
{
    if n < radix {
        let mut s = String::new();
        s.push(digit(n));
        s
    } else {
        proof {
            vstd::arithmetic::div_mod::lemma_div_decreases(n as int, radix as int);
        }
        let mut s = number(n / radix, radix);
        s.push(digit(n % radix));
        s
    }
}

/// Whether `s` starts with `prefix`.
pub fn has_prefix(s: &str, prefix: &str) -> (r: bool)
    ensures
        r == prefix@.is_prefix_of(s@),
{
    let n: usize = prefix.unicode_len();
    if s.unicode_len() < n {
        return false;
    }
    let mut i: usize = 0;
    while i < n
        invariant
            i <= n,
            n == prefix@.len(),
            n <= s@.len(),
            forall|j: int| 0 <= j < i ==> s@[j] == prefix@[j],
        decreases n - i,
    {
        if s.get_char(i) != prefix.get_char(i) {
            assert(s@.subrange(0, n as int)[i as int] != prefix@[i as int]);
            return false;
        }
        i = i + 1;
    }
    true
}

/// `s` without the copies of `prefix` that it starts with.
pub open spec fn strip_repeated_text(s: Seq<char>, prefix: Seq<char>) -> Seq<char>
    decreases s.len(),
{
    if prefix.len() > 0 && prefix.is_prefix_of(s) {
        strip_repeated_text(s.skip(prefix.len() as int), prefix)
    } else {
        s
    }
}

/// Removes every copy of `prefix` that `s` starts with.
pub fn strip_repeated<'a>(s: &'a str, prefix: &str) -> (r: &'a str)
    ensures
        r@ == strip_repeated_text(s@, prefix@),
{
    let n: usize = prefix.unicode_len();
    if n == 0 {
        return s;
    }
    let mut rest: &'a str = s;
    while has_prefix(rest, prefix)
        invariant
            n == prefix@.len(),
            n > 0,
            strip_repeated_text(rest@, prefix@) == strip_repeated_text(s@, prefix@),
        decreases rest@.len(),
    {
        let ghost before = rest@;
        rest = rest.substring_char(n, rest.unicode_len());
        assert(rest@ == before.skip(n as int));
    }
    rest
}

/// Texts with the same UTF-8 encoding are the same text.
proof fn lemma_encode_injective(a: Seq<char>, b: Seq<char>)
    requires
        encode_utf8(a) == encode_utf8(b),
    ensures
        a == b,
{
    vstd::utf8::encode_utf8_decode_utf8(a);
    vstd::utf8::encode_utf8_decode_utf8(b);
}

/// Whether two texts are equal.
pub fn same_text(a: &str, b: &str) -> (r: bool)
    ensures
        r == (a@ == b@),
{
    let x: &[u8] = a.as_bytes();
    let y: &[u8] = b.as_bytes();
    if x.len() != y.len() {
        return false;
    }
    let mut i: usize = 0;
    while i < x.len()
        invariant
            i <= x@.len(),
            x@.len() == y@.len(),
            x@ == encode_utf8(a@),
            y@ == encode_utf8(b@),
            forall|j: int| 0 <= j < i ==> x@[j] == y@[j],
        decreases x@.len() - i,
    {
        if x[i] != y[i] {
            return false;
        }
        i = i + 1;
    }
    assert(x@ == y@);
    proof {
        lemma_encode_injective(a@, b@);
    }
    true
}

/// Removes every occurrence of `c` from `s`.
pub fn without_char(s: &str, c: char) -> (r: String)
    ensures
        r@ == s@.filter(|x: char| x != c),
{
    let ghost keep = |x: char| x != c;
    let mut out = String::new();
    assert(s@.take(0).filter(keep) =~= Seq::<char>::empty()) by {
        reveal(Seq::filter);
    }
    for x in it: s.chars()
        invariant
            it.seq() == s@,
            keep == (|x: char| x != c),
            out@ == s@.take(it.index()).filter(keep),
    {
        proof {
            reveal(Seq::filter);
            assert(s@.take(it.index() + 1).drop_last() =~= s@.take(it.index()));
            assert(s@.take(it.index() + 1).last() == x);
        }
        if x != c {
            out.push(x);
        }
    }
    assert(s@.take(s@.len() as int) =~= s@);
    out
}

/// A label and a text after it.
pub fn labelled(label: &str, text: &str) -> (r: String)
    ensures
        r@ == label@ + text@,
{
    let mut s = label.to_owned();
    s.append(text);
    s
}

/// Joins three texts into one.
pub fn concat3(a: &str, b: &str, c: &str) -> (r: String)
    ensures
        r@ == a@ + b@ + c@,
{
    let mut s = a.to_owned();
    s.append(b);
    s.append(c);
    s
}

/// `n` copies of a text, one after the other.
pub open spec fn copies(text: Seq<char>, n: nat) -> Seq<char>
    decreases n,
{
    if n == 0 {
        Seq::empty()
    } else {
        text + copies(text, (n - 1) as nat)
    }
}

/// Copies of the prefix are all that is stripped, and none is left at the start.
pub proof fn law_only_copies_are_stripped(s: Seq<char>, prefix: Seq<char>)
    requires
        prefix.len() > 0,
    ensures
        !prefix.is_prefix_of(strip_repeated_text(s, prefix)),
        exists|n: nat| s == #[trigger] copies(prefix, n) + strip_repeated_text(s, prefix),
    decreases s.len(),
{
    let r = strip_repeated_text(s, prefix);
    if prefix.is_prefix_of(s) {
        let rest = s.skip(prefix.len() as int);
        law_only_copies_are_stripped(rest, prefix);
        let n = choose|n: nat| rest == #[trigger] copies(prefix, n) + r;
        assert(s =~= prefix + rest);
        assert(copies(prefix, n + 1) == prefix + copies(prefix, n));
        assert(s =~= copies(prefix, n + 1) + r);
    } else {
        assert(s =~= copies(prefix, 0) + r);
    }
}

/// The encoding of two texts one after the other is their encodings one after the other.
pub proof fn law_encodings_are_joined(a: Seq<char>, b: Seq<char>)
    ensures
        encode_utf8(a + b) == encode_utf8(a) + encode_utf8(b),
    decreases a.len(),
{
    if a.len() == 0 {
        assert(a + b =~= b);
        assert(encode_utf8(a + b) =~= encode_utf8(a) + encode_utf8(b));
    } else {
        assert((a + b).drop_first() =~= a.drop_first() + b);
        assert((a + b)[0] == a[0]);
        law_encodings_are_joined(a.drop_first(), b);
        assert(encode_utf8(a + b) =~= encode_utf8(a) + encode_utf8(b));
    }
}

/// The encoding of a text is read as that text.
pub proof fn law_text_is_read_back(text: Seq<char>)
    ensures
        utf8_text(encode_utf8(text)) == Ok::<_, Utf8Fault>(text),
{
    encode_utf8_valid_utf8(text);
    encode_utf8_decode_utf8(text);
}

/// What is read as a text is the encoding of that text.
pub proof fn law_only_encodings_are_read(bytes: Seq<u8>, text: Seq<char>)
    requires
        utf8_text(bytes) == Ok::<_, Utf8Fault>(text),
    ensures
        encode_utf8(text) == bytes,
{
    decode_utf8_encode_utf8(bytes);
}

/// Bytes that are the encoding of no text are faulty, and the fault lies where the longest
/// stretch that is the encoding of a text ends.
pub proof fn law_fault_is_at_the_first_wrong_byte(bytes: Seq<u8>)
    requires
        bytes.len() <= usize::MAX,
        !valid_utf8(bytes),
    ensures
        utf8_text(bytes) matches Err(fault) && {
            let n = fault.valid_up_to as int;
            &&& 0 <= n < bytes.len()
            &&& valid_utf8(bytes.take(n))
            &&& forall|m: int| n < m <= bytes.len() ==> !valid_utf8(#[trigger] bytes.take(m))
        },
{
    lemma_valid_up_to_exists(bytes, bytes.len() as int);
    let n = choose|n: int| is_valid_up_to(bytes, n);
    assert(bytes.take(bytes.len() as int) =~= bytes);
}

proof fn lemma_valid_up_to_exists(bytes: Seq<u8>, n: int)
    requires
        0 <= n <= bytes.len(),
        forall|m: int| n < m <= bytes.len() ==> !valid_utf8(#[trigger] bytes.take(m)),
    ensures
        exists|k: int| is_valid_up_to(bytes, k),
    decreases n,
{
    if valid_utf8(bytes.take(n)) {
        assert(is_valid_up_to(bytes, n));
    } else {
        assert(bytes.take(0) =~= Seq::<u8>::empty());
        assert(n > 0);
        lemma_valid_up_to_exists(bytes, n - 1);
    }
}

/// Removing a character leaves none of it, and the rest as it was: removing it from two texts one
/// after the other is removing it from each, a text without it stays as it is, and a text of
/// nothing else is emptied.
pub proof fn law_removal_leaves_the_rest(a: Seq<char>, b: Seq<char>, c: char)
    ensures
        !a.filter(|x: char| x != c).contains(c),
        (a + b).filter(|x: char| x != c) == a.filter(|x: char| x != c) + b.filter(
            |x: char| x != c,
        ),
        !a.contains(c) ==> a.filter(|x: char| x != c) == a,
        (forall|i: int| 0 <= i < a.len() ==> a[i] == c) ==> a.filter(|x: char| x != c)
            == Seq::<char>::empty(),
    decreases a.len(),
{
    let keep = |x: char| x != c;
    Seq::filter_distributes_over_add(a, b, keep);
    reveal(Seq::filter);
    if a.len() > 0 {
        let head = a.drop_last();
        law_removal_leaves_the_rest(head, b, c);
        assert(a =~= head.push(a.last()));
        if !a.contains(c) {
            assert(a[a.len() - 1] != c);
            assert(!head.contains(c)) by {
                if head.contains(c) {
                    let i = choose|i: int| 0 <= i < head.len() && head[i] == c;
                    assert(a[i] == c);
                }
            }
        }
        if forall|i: int| 0 <= i < a.len() ==> a[i] == c {
            assert forall|i: int| 0 <= i < head.len() implies head[i] == c by {
                assert(a[i] == c);
            }
            assert(a.last() == c);
        }
        if a.filter(keep).contains(c) {
            let i = choose|i: int| 0 <= i < a.filter(keep).len() && a.filter(keep)[i] == c;
            if i < head.filter(keep).len() {
                assert(head.filter(keep)[i] == c);
            }
        }
    }
}

} // verus!
