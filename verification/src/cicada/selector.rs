//! Which agents a client may be given, as its username says.
//!
//! A username that starts with `agent_` names one agent. `all`, or no username at all, admits
//! every agent. A username that starts with `country_` goes on with two-letter country codes and
//! admits the agents in those countries.

use vstd::prelude::*;
use vstd::utf8::*;

use crate::payload::optional_text;
use crate::text::{
    decode_text,
    has_prefix,
    law_only_encodings_are_read,
    law_text_is_read_back,
    same_text,
    strip_repeated,
    strip_repeated_text,
    utf8_text,
};

verus! {

/// Which agents a client may be given.
#[derive(Debug, PartialEq, Eq)]
pub enum Selector {
    /// The agent with this identifier.
    Agent(String),
    /// Any agent.
    Any,
    /// Any agent in one of these countries.
    Countries(Vec<String>),
    /// The username has none of the known forms.
    Invalid,
}

/// What a [`Selector`] stands for.
pub enum SelectorView {
    Agent(Seq<char>),
    Any,
    Countries(Seq<Seq<char>>),
    Invalid,
}

/// The texts of a list of strings.
pub open spec fn texts(list: Seq<String>) -> Seq<Seq<char>> {
    list.map_values(|s: String| s@)
}

impl View for Selector {
    type V = SelectorView;

    open spec fn view(&self) -> SelectorView {
        match *self {
            Selector::Agent(id) => SelectorView::Agent(id@),
            Selector::Any => SelectorView::Any,
            Selector::Countries(codes) => SelectorView::Countries(texts(codes@)),
            Selector::Invalid => SelectorView::Invalid,
        }
    }
}

/// Whether `id` has the form of an agent identifier.
pub open spec fn is_agent_id(id: Seq<char>) -> bool {
    "agent_"@.is_prefix_of(id)
}

/// Whether `id` has the form of an agent identifier.
pub fn has_agent_prefix(id: &str) -> (r: bool)
    ensures
        r == is_agent_id(id@),
        r == "agent_"@.is_prefix_of(id@),
{
    has_prefix(id, "agent_")
}

/// The pairs of bytes that are UTF-8, in order. A last byte without a partner is left out.
pub open spec fn byte_pair_texts(bytes: Seq<u8>) -> Seq<Seq<char>>
    decreases bytes.len(),
{
    if bytes.len() < 2 {
        Seq::empty()
    } else {
        let rest = byte_pair_texts(bytes.skip(2));
        match utf8_text(bytes.take(2)) {
            Ok(code) => seq![code] + rest,
            Err(_) => rest,
        }
    }
}

/// The country codes in a username: what follows the prefix, cut into pairs of bytes.
pub open spec fn country_codes(username: Seq<char>) -> Seq<Seq<char>> {
    byte_pair_texts(encode_utf8(strip_repeated_text(username, "country_"@)))
}

/// The agents that a username asks for.
pub open spec fn selector_of(username: Option<Seq<char>>) -> SelectorView {
    match username {
        None => SelectorView::Any,
        Some(name) => if is_agent_id(name) {
            SelectorView::Agent(name)
        } else if name == "all"@ {
            SelectorView::Any
        } else if "country_"@.is_prefix_of(name) {
            SelectorView::Countries(country_codes(name))
        } else {
            SelectorView::Invalid
        },
    }
}

/// Reads the country codes in a username.
pub fn parse_country_codes(username: &str) -> (r: Vec<String>)
    ensures
        r@.len() == country_codes(username@).len(),
        texts(r@) == country_codes(username@),
{
    let rest = strip_repeated(username, "country_");
    let bytes: &[u8] = rest.as_bytes();
    let mut codes: Vec<String> = Vec::new();
    let mut i: usize = 0;
    assert(bytes@.skip(0) =~= bytes@);
    assert(texts(codes@) + byte_pair_texts(bytes@) =~= byte_pair_texts(bytes@));
    while bytes.len() - i >= 2
        invariant
            i <= bytes@.len(),
            texts(codes@) + byte_pair_texts(bytes@.skip(i as int)) == byte_pair_texts(bytes@),
        decreases bytes@.len() - i,
    {
        let pair = vec![bytes[i], bytes[i + 1]];
        let ghost before = texts(codes@);
        let ghost here = bytes@.skip(i as int);
        assert(pair@ =~= here.take(2));
        assert(here.skip(2) =~= bytes@.skip(i + 2));
        match decode_text(pair) {
            Ok(code) => {
                codes.push(code);
                assert(texts(codes@) =~= before.push(code@));
                assert(before.push(code@) + byte_pair_texts(here.skip(2)) =~= before + (seq![code@]
                    + byte_pair_texts(here.skip(2))));
            },
            Err(_) => {},
        }
        i = i + 2;
    }
    assert(texts(codes@) + byte_pair_texts(bytes@.skip(i as int)) =~= texts(codes@));
    codes
}

/// Reads which agents a username asks for.
pub fn parse_selector(username: &Option<String>) -> (r: Selector)
    ensures
        r@ == selector_of(optional_text(*username)),
        match *username {
            None => r is Any,
            Some(name) => if "agent_"@.is_prefix_of(name@) {
                r matches Selector::Agent(id) && id@ == name@
            } else if name@ == "all"@ {
                r is Any
            } else if "country_"@.is_prefix_of(name@) {
                r is Countries
            } else {
                r is Invalid
            },
        },
{
    match username {
        None => Selector::Any,
        Some(name) => {
            let name: &str = name.as_str();
            if has_agent_prefix(name) {
                Selector::Agent(name.to_owned())
            } else if same_text(name, "all") {
                Selector::Any
            } else if has_prefix(name, "country_") {
                Selector::Countries(parse_country_codes(name))
            } else {
                Selector::Invalid
            }
        },
    }
}

/// The bytes of an ASCII text, taken in pairs, are its characters, taken in pairs.
proof fn lemma_ascii_pairs(s: Seq<char>)
    requires
        is_ascii_chars(s),
    ensures
        byte_pair_texts(encode_utf8(s)).len() == s.len() / 2,
        forall|i: int|
            0 <= i < s.len() / 2 ==> #[trigger] byte_pair_texts(encode_utf8(s))[i] == s.subrange(
                2 * i,
                2 * i + 2,
            ),
    decreases s.len(),
{
    let bytes = encode_utf8(s);
    is_ascii_chars_encode_utf8(s);
    if s.len() >= 2 {
        let head = s.take(2);
        let tail = s.skip(2);
        assert(is_ascii_chars(head));
        assert(is_ascii_chars(tail));
        is_ascii_chars_encode_utf8(head);
        is_ascii_chars_encode_utf8(tail);
        assert(bytes.take(2) =~= encode_utf8(head)) by {
            assert forall|i: int| 0 <= i < 2 implies bytes.take(2)[i] == encode_utf8(head)[i] by {
                assert(head[i] == s[i]);
            }
        }
        assert(bytes.skip(2) =~= encode_utf8(tail)) by {
            assert forall|i: int| 0 <= i < tail.len() implies bytes.skip(2)[i] == encode_utf8(
                tail,
            )[i] by {
                assert(tail[i] == s[i + 2]);
            }
        }
        encode_utf8_valid_utf8(head);
        encode_utf8_decode_utf8(head);
        lemma_ascii_pairs(tail);
        let rest = byte_pair_texts(encode_utf8(tail));
        assert(byte_pair_texts(bytes) == seq![head] + rest);
        assert forall|i: int| 0 <= i < s.len() / 2 implies #[trigger] byte_pair_texts(bytes)[i]
            == s.subrange(2 * i, 2 * i + 2) by {
            if i > 0 {
                assert(rest[i - 1] == tail.subrange(2 * (i - 1), 2 * (i - 1) + 2));
                assert(tail.subrange(2 * (i - 1), 2 * (i - 1) + 2) =~= s.subrange(
                    2 * i,
                    2 * i + 2,
                ));
            } else {
                assert(s.subrange(0, 2) =~= head);
            }
        }
    }
}

/// In a username of ASCII characters, the country codes are what follows the prefix, cut every
/// two characters; a last character without a partner is ignored.
pub proof fn law_country_codes_are_pairs(codes: Seq<char>)
    requires
        is_ascii_chars(codes),
        !"country_"@.is_prefix_of(codes),
    ensures
        country_codes("country_"@ + codes).len() == codes.len() / 2,
        forall|i: int|
            0 <= i < codes.len() / 2 ==> #[trigger] country_codes("country_"@ + codes)[i]
                == codes.subrange(2 * i, 2 * i + 2),
{
    let prefix = "country_"@;
    reveal_strlit("country_");
    let name = prefix + codes;
    assert(name.subrange(0, prefix.len() as int) =~= prefix);
    assert(name.skip(prefix.len() as int) =~= codes);
    assert(strip_repeated_text(codes, prefix) == codes);
    lemma_ascii_pairs(codes);
}

/// The prefix may be repeated without changing the codes.
pub proof fn law_country_prefix_is_idempotent(name: Seq<char>)
    ensures
        country_codes("country_"@ + name) == country_codes(name),
{
    let prefix = "country_"@;
    reveal_strlit("country_");
    let longer = prefix + name;
    assert(longer.subrange(0, prefix.len() as int) =~= prefix);
    assert(longer.skip(prefix.len() as int) =~= name);
}

/// The identifier of an agent, used as a username, asks for that agent.
pub proof fn law_agent_id_names_the_agent(id: Seq<char>)
    requires
        is_agent_id(id),
    ensures
        selector_of(Some(id)) == SelectorView::Agent(id),
{
}

/// The agent identifiers are the texts that start with `agent_`, and no others.
pub proof fn law_agent_ids_have_the_prefix(id: Seq<char>, rest: Seq<char>)
    ensures
        is_agent_id("agent_"@ + rest),
        is_agent_id(id) <==> (id.len() >= 6 && id.take(6) == "agent_"@),
{
    reveal_strlit("agent_");
    let made = "agent_"@ + rest;
    assert(made.subrange(0, 6) =~= "agent_"@);
    if id.len() >= 6 {
        assert(id.subrange(0, 6) =~= id.take(6));
    }
}

/// The `k`-th pair of bytes.
pub open spec fn pair_at(bytes: Seq<u8>, k: int) -> Seq<u8> {
    bytes.subrange(2 * k, 2 * k + 2)
}

/// Whether some pair of bytes is the encoding of `code`.
pub open spec fn some_pair_is(bytes: Seq<u8>, code: Seq<char>) -> bool {
    exists|k: int|
        0 <= k && 2 * k + 2 <= bytes.len() && #[trigger] pair_at(bytes, k) == encode_utf8(code)
}

proof fn lemma_pairs(bytes: Seq<u8>, code: Seq<char>)
    ensures
        byte_pair_texts(bytes).contains(code) <==> some_pair_is(bytes, code),
    decreases bytes.len(),
{
    let all = byte_pair_texts(bytes);
    if bytes.len() >= 2 {
        let head = bytes.take(2);
        let tail = bytes.skip(2);
        let rest = byte_pair_texts(tail);
        lemma_pairs(tail, code);
        assert(pair_at(bytes, 0) =~= head);
        assert forall|k: int| 0 <= k && 2 * k + 2 <= tail.len() implies #[trigger] pair_at(tail, k)
            == pair_at(bytes, k + 1) by {
            assert(pair_at(tail, k) =~= pair_at(bytes, k + 1));
        }
        match utf8_text(head) {
            Ok(text) => {
                law_only_encodings_are_read(head, text);
                assert(all == seq![text] + rest);
                if all.contains(code) {
                    let i = choose|i: int| 0 <= i < all.len() && all[i] == code;
                    if i > 0 {
                        assert(rest[i - 1] == code);
                    } else {
                        assert(pair_at(bytes, 0) == encode_utf8(code));
                    }
                }
                if rest.contains(code) {
                    let i = choose|i: int| 0 <= i < rest.len() && rest[i] == code;
                    assert(all[i + 1] == code);
                }
                if head == encode_utf8(code) {
                    law_text_is_read_back(code);
                    assert(all[0] == code);
                }
            },
            Err(_) => {
                if head == encode_utf8(code) {
                    law_text_is_read_back(code);
                }
            },
        }
        if some_pair_is(tail, code) {
            let k = choose|k: int|
                0 <= k && 2 * k + 2 <= tail.len() && #[trigger] pair_at(tail, k) == encode_utf8(
                    code,
                );
            assert(pair_at(bytes, k + 1) == encode_utf8(code));
        }
        if some_pair_is(bytes, code) {
            let k = choose|k: int|
                0 <= k && 2 * k + 2 <= bytes.len() && #[trigger] pair_at(bytes, k) == encode_utf8(
                    code,
                );
            if k > 0 {
                assert(pair_at(tail, k - 1) == encode_utf8(code));
            }
        }
    }
}

/// A text is among the country codes of a username exactly where its encoding is one of the pairs
/// of bytes that follow the prefix, whichever that is.
pub proof fn law_every_pair_counts(name: Seq<char>, code: Seq<char>)
    requires
        !"country_"@.is_prefix_of(name),
    ensures
        country_codes("country_"@ + name).contains(code) <==> some_pair_is(
            encode_utf8(name),
            code,
        ),
{
    law_country_prefix_is_idempotent(name);
    assert(strip_repeated_text(name, "country_"@) == name);
    lemma_pairs(encode_utf8(name), code);
}

/// What a username asks for: an agent by its identifier, any agent, agents by country, or nothing
/// that there is.
pub proof fn law_usernames_are_of_four_forms(name: Seq<char>)
    ensures
        selector_of(None) == SelectorView::Any,
        selector_of(Some(name)) == SelectorView::Any <==> name == "all"@,
        selector_of(Some(name)) is Agent <==> "agent_"@.is_prefix_of(name),
        selector_of(Some(name)) is Countries <==> "country_"@.is_prefix_of(name),
        selector_of(Some(name)) is Invalid <==> name != "all"@ && !"agent_"@.is_prefix_of(name)
            && !"country_"@.is_prefix_of(name),
{
    reveal_strlit("agent_");
    reveal_strlit("all");
    reveal_strlit("country_");
    if "agent_"@.is_prefix_of(name) {
        assert(name.subrange(0, 6)[0] == name[0]);
    }
    if "country_"@.is_prefix_of(name) {
        assert(name.subrange(0, 8)[0] == name[0]);
    }
}

} // verus!
