//! What an agent does before it serves requests: its identity, the master's address, and the
//! introduction.

use vstd::prelude::*;
use vstd::utf8::*;

use crate::cicada::selector::is_agent_id;
use crate::payload::{optional_text, Payload, PayloadView};
use crate::text::{law_encodings_are_joined, law_removal_leaves_the_rest, without_char};

verus! {

/// How serious a log record is.
#[derive(Debug, Clone, Copy, PartialEq, Eq, Structural)]
pub enum LogLevel {
    Debug,
    Info,
    Error,
}

/// One line for the log.
#[derive(Debug, PartialEq, Eq)]
pub struct LogRecord {
    pub level: LogLevel,
    pub text: String,
}

impl View for LogRecord {
    type V = (LogLevel, Seq<char>);

    open spec fn view(&self) -> (LogLevel, Seq<char>) {
        (self.level, self.text@)
    }
}

/// A log record is seen whole.
pub proof fn law_record_is_seen_whole(record: LogRecord)
    ensures
        record@.0 == record.level,
        record@.1 == record.text@,
{
}

/// What the master's answer to the introduction is reported as.
pub open spec fn init_response_report(success: bool, message: Option<Seq<char>>) -> Seq<
    (LogLevel, Seq<char>),
> {
    let level = if success {
        LogLevel::Info
    } else {
        LogLevel::Error
    };
    let headline = if success {
        "[Init] Initialization succeeded"@
    } else {
        "[Init] ERROR: Initialization failed"@
    };
    let label = if success {
        "[Init] Server message: "@
    } else {
        "[Init] Server error: "@
    };
    match message {
        Some(m) => seq![(level, headline), (level, label + m)],
        None => seq![(level, headline)],
    }
}

/// Reports the master's answer to the introduction: a headline, and the master's message if it
/// sent one.
pub fn handle_init_response(success: bool, message: Option<String>) -> (r: Vec<LogRecord>)
    ensures
        r@.len() == init_response_report(success, optional_text(message)).len(),
        forall|i: int|
            0 <= i < r@.len() ==> (#[trigger] r@[i])@ == init_response_report(
                success,
                optional_text(message),
            )[i],
        r@.len() == if message is Some {
            2int
        } else {
            1
        },
        forall|i: int|
            0 <= i < r@.len() ==> (#[trigger] r@[i]).level == if success {
                LogLevel::Info
            } else {
                LogLevel::Error
            },
        r@[0].text@ == if success {
            "[Init] Initialization succeeded"@
        } else {
            "[Init] ERROR: Initialization failed"@
        },
        message matches Some(m) ==> r@[1].text@ == (if success {
            "[Init] Server message: "@
        } else {
            "[Init] Server error: "@
        }) + m@,
{
    let level = if success {
        LogLevel::Info
    } else {
        LogLevel::Error
    };
    let headline = if success {
        "[Init] Initialization succeeded"
    } else {
        "[Init] ERROR: Initialization failed"
    };
    let label = if success {
        "[Init] Server message: "
    } else {
        "[Init] Server error: "
    };
    let mut records: Vec<LogRecord> = Vec::new();
    records.push(LogRecord { level, text: headline.to_owned() });
    if let Some(m) = message {
        let mut text = label.to_owned();
        text.append(m.as_str());
        records.push(LogRecord { level, text });
    }
    records
}

/// Whatever the master says to the introduction is told to the reader of the log, at the end of
/// the last record; the level of every record tells success from failure.
pub proof fn law_master_message_is_reported(success: bool, message: Seq<char>)
    ensures
        ({
            let report = init_response_report(success, Some(message));
            let bare = init_response_report(success, None);
            &&& bare.len() == 1
            &&& report.len() == 2
            &&& report[0] == bare[0]
            &&& message.is_suffix_of(report[1].1)
            &&& report[1].1.len() > message.len()
            &&& forall|i: int|
                0 <= i < 2 ==> ((#[trigger] report[i]).0 == LogLevel::Info <==> success) && (
                report[i].0 == LogLevel::Error <==> !success)
            &&& init_response_report(true, None) != init_response_report(false, None)
        }),
{
    reveal_strlit("[Init] Server message: ");
    reveal_strlit("[Init] Server error: ");
    let report = init_response_report(success, Some(message));
    let n = report[1].1.len() - message.len();
    assert(report[1].1.subrange(n, report[1].1.len() as int) =~= message);
    assert(init_response_report(true, None)[0].0 != init_response_report(false, None)[0].0);
}

/// The master that an agent connects to unless it is told otherwise.
pub const DEFAULT_MASTER_URL: &'static str = "ws://127.0.0.1:3005";

/// What an agent's location service says about it.
#[derive(Debug, PartialEq, Eq)]
pub struct GeoData {
    pub ip: String,
    pub country_iso: String,
    pub region_name: String,
    pub city: String,
    pub asn: String,
    pub asn_org: String,
}

/// The introduction of an agent. The remote host is given as the region.
pub open spec fn introduction(agent_id: Seq<char>, geo: GeoData) -> PayloadView {
    PayloadView::InitRequest {
        agent_id,
        ip: geo.ip@,
        remote_host: geo.region_name@,
        country_code: geo.country_iso@,
        city: geo.city@,
        region: geo.region_name@,
        asn: geo.asn@,
        asn_org: geo.asn_org@,
    }
}

/// Introduces an agent.
pub fn handle_init_request(agent_id: &str, geo: GeoData) -> (r: Payload)
    ensures
        r@ == introduction(agent_id@, geo),
        match r {
            Payload::InitRequest {
                agent_id: id,
                ip,
                remote_host,
                country_code,
                city,
                region,
                asn,
                asn_org,
            } => {
                &&& id@ == agent_id@
                &&& ip@ == geo.ip@
                &&& remote_host@ == geo.region_name@
                &&& country_code@ == geo.country_iso@
                &&& city@ == geo.city@
                &&& region@ == geo.region_name@
                &&& asn@ == geo.asn@
                &&& asn_org@ == geo.asn_org@
            },
            _ => false,
        },
{
    Payload::InitRequest {
        agent_id: agent_id.to_owned(),
        ip: geo.ip,
        remote_host: geo.region_name.clone(),
        country_code: geo.country_iso,
        city: geo.city,
        region: geo.region_name,
        asn: geo.asn,
        asn_org: geo.asn_org,
    }
}

/// The number of bytes of the machine identifier that go into an agent identifier.
pub const MACHINE_ID_BYTES: usize = 12;

/// A machine identifier without its hyphens.
pub open spec fn compact_machine_id(machine_id: Seq<char>) -> Seq<char> {
    machine_id.filter(|c: char| c != '-')
}

/// Removes the hyphens from a machine identifier.
pub fn strip_hyphens(machine_id: &str) -> (r: String)
    ensures
        r@ == compact_machine_id(machine_id@),
        r@ == machine_id@.filter(|c: char| c != '-'),
        !r@.contains('-'),
{
    proof {
        law_removal_leaves_the_rest(machine_id@, Seq::empty(), '-');
    }
    without_char(machine_id, '-')
}

/// The compact form of a machine identifier has no hyphen, and keeps all other characters in
/// order: it is what the parts between the hyphens are, one after the other.
pub proof fn law_compact_form_has_no_hyphen(a: Seq<char>, b: Seq<char>)
    ensures
        !compact_machine_id(a).contains('-'),
        compact_machine_id(a + b) == compact_machine_id(a) + compact_machine_id(b),
        compact_machine_id(a + seq!['-'] + b) == compact_machine_id(a) + compact_machine_id(b),
        !a.contains('-') ==> compact_machine_id(a) == a,
{
    let hyphen = seq!['-'];
    law_removal_leaves_the_rest(a, b, '-');
    law_removal_leaves_the_rest(hyphen, b, '-');
    law_removal_leaves_the_rest(a, hyphen + b, '-');
    assert(a + hyphen + b =~= a + (hyphen + b));
    assert(Seq::<char>::empty() + compact_machine_id(b) =~= compact_machine_id(b));
}

/// Where a hyphen stands among the first twelve other characters of a machine identifier, the agent
/// identifier is `agent_` and these twelve, whatever follows: of a UUID, its first twelve
/// hexadecimal digits.
pub proof fn law_agent_id_of_a_hyphenated_machine_id(a: Seq<char>, b: Seq<char>, rest: Seq<char>)
    requires
        is_ascii_chars(a),
        is_ascii_chars(b),
        !a.contains('-'),
        !b.contains('-'),
        a.len() + b.len() == 12,
        is_ascii_chars(compact_machine_id(rest)),
    ensures
        agent_id_text(compact_machine_id(a + seq!['-'] + b + rest)) == "agent_"@ + a + b,
{
    let ab = a + seq!['-'] + b;
    law_compact_form_has_no_hyphen(ab, rest);
    law_compact_form_has_no_hyphen(a, b);
    law_compact_form_has_no_hyphen(b, a);
    let c = compact_machine_id(rest);
    let compact = a + b + c;
    assert(compact_machine_id(ab + rest) == compact);
    assert forall|i: int| 0 <= i < compact.len() implies '\0' <= #[trigger] compact[i]
        <= '\u{7f}' by {
        if i < a.len() {
            assert(compact[i] == a[i]);
        } else if i < a.len() + b.len() {
            assert(compact[i] == b[i - a.len()]);
        } else {
            assert(compact[i] == c[i - a.len() - b.len()]);
        }
    }
    assert(is_ascii_chars(compact));
    law_agent_id_holds_first_characters(compact);
    assert(compact.take(12) =~= a + b);
    assert("agent_"@ + (a + b) =~= "agent_"@ + a + b);
}

/// Where an agent identifier can be made, it is `agent_` and the text that the first twelve bytes
/// of the machine identifier encode.
pub proof fn law_agent_id_holds_first_bytes(compact: Seq<char>, head: Seq<char>, tail: Seq<char>)
    requires
        compact == head + tail,
        encode_utf8(head).len() == 12,
    ensures
        agent_id_text(compact) == "agent_"@ + head,
{
    law_encodings_are_joined(head, tail);
    assert(encode_utf8(compact).take(12) =~= encode_utf8(head));
    encode_utf8_decode_utf8(head);
}

/// The agent identifier for a machine identifier without hyphens.
pub open spec fn agent_id_text(compact: Seq<char>) -> Seq<char> {
    "agent_"@ + decode_utf8(encode_utf8(compact).take(MACHINE_ID_BYTES as int))
}

/// Makes the agent identifier from a machine identifier without hyphens, which has to have a
/// character boundary after its first bytes.
pub fn make_agent_id(compact: &str) -> (r: String)
    requires
        is_char_boundary(encode_utf8(compact@), MACHINE_ID_BYTES as int),
    ensures
        r@ == agent_id_text(compact@),
{
    let (head, _) = compact.split_at(MACHINE_ID_BYTES);
    assert(encode_utf8(head@) =~= encode_utf8(compact@).take(MACHINE_ID_BYTES as int));
    proof {
        encode_utf8_decode_utf8(head@);
    }
    let mut id = "agent_".to_owned();
    id.append(head);
    id
}

/// The identifier that an agent makes for itself has the form that the master asks for.
pub proof fn law_own_agent_id_is_accepted(compact: Seq<char>)
    ensures
        is_agent_id(agent_id_text(compact)),
{
    let id = agent_id_text(compact);
    assert(id.subrange(0, "agent_"@.len() as int) =~= "agent_"@);
}

/// On an ASCII machine identifier of enough characters, the agent identifier can be made, and
/// holds the first twelve of them.
pub proof fn law_agent_id_holds_first_characters(compact: Seq<char>)
    requires
        is_ascii_chars(compact),
        compact.len() >= MACHINE_ID_BYTES,
    ensures
        is_char_boundary(encode_utf8(compact), MACHINE_ID_BYTES as int),
        agent_id_text(compact) == "agent_"@ + compact.take(MACHINE_ID_BYTES as int),
{
    let n = MACHINE_ID_BYTES as int;
    let bytes = encode_utf8(compact);
    let head = compact.take(n);
    let tail = compact.skip(n);
    is_ascii_chars_encode_utf8(compact);
    assert(is_ascii_chars(head));
    is_ascii_chars_encode_utf8(head);
    assert(bytes.take(n) =~= encode_utf8(head)) by {
        assert forall|i: int| 0 <= i < n implies bytes.take(n)[i] == encode_utf8(head)[i] by {
            assert(head[i] == compact[i]);
        }
    }
    encode_utf8_decode_utf8(head);
    encode_utf8_valid_utf8(compact);
    if compact.len() == n {
        is_char_boundary_start_end_of_seq(bytes);
    } else {
        is_char_boundary_iff_not_is_continuation_byte(bytes, n);
        assert(compact[n] as u8 == bytes[n]);
    }
}

/// The address of the master among an agent's arguments, or the default.
pub open spec fn master_url_text(args: Seq<String>) -> Seq<char> {
    if args.len() > 1 {
        args[1]@
    } else {
        DEFAULT_MASTER_URL@
    }
}

/// The normal form of a URL, as `Url::parse` writes it; `None` where the text is no URL.
pub uninterp spec fn normal_url(text: Seq<char>) -> Option<Seq<char>>;

#[verifier::external_type_specification]
#[verifier::external_body]
pub struct ExUrlParseError(url::ParseError);

/// `Url::parse` reads an absolute URL, whose serialization is its normal form, or finds that the
/// text is none. Its result depends on the text alone.
#[verifier::external_body]
fn parse_url(text: &str) -> (r: Result<String, url::ParseError>)
    ensures
        match r {
            Ok(s) => normal_url(text@) == Some(s@),
            Err(_) => normal_url(text@) is None,
        },
{
    url::Url::parse(text).map(|u| u.into())
}

/// The address of the master is not a URL.
#[derive(Debug)]
pub struct BadMasterUrl {
    pub cause: url::ParseError,
}

/// Finds the address of the master: the first argument after the program's name, or the default.
pub fn master_url(args: &Vec<String>) -> (r: Result<String, BadMasterUrl>)
    ensures
        match r {
            Ok(s) => normal_url(master_url_text(args@)) == Some(s@),
            Err(_) => normal_url(master_url_text(args@)) is None,
        },
        args@.len() > 1 ==> match r {
            Ok(s) => normal_url(args@[1]@) == Some(s@),
            Err(_) => normal_url(args@[1]@) is None,
        },
        args@.len() <= 1 ==> match r {
            Ok(s) => normal_url("ws://127.0.0.1:3005"@) == Some(s@),
            Err(_) => normal_url("ws://127.0.0.1:3005"@) is None,
        },
{
    let text: &str = if args.len() > 1 {
        args[1].as_str()
    } else {
        DEFAULT_MASTER_URL
    };
    match parse_url(text) {
        Ok(s) => Ok(s),
        Err(cause) => Err(BadMasterUrl { cause }),
    }
}

/// The first argument after the program's name is the address of the master, whatever it says and
/// whatever follows it. Without one, the address does not depend on the arguments at all.
pub proof fn law_given_master_is_used(program: String, given: String, more: Seq<String>)
    ensures
        master_url_text(seq![program, given] + more) == given@,
        master_url_text(seq![program]) == "ws://127.0.0.1:3005"@,
        master_url_text(Seq::empty()) == "ws://127.0.0.1:3005"@,
{
}

} // verus!
