//! Transport frame conventions of the textual protocol.
//!
//! Three kinds of frame travel on a connection:
//! - a message frame: the textual form of a `MarketMessage`
//!   (`{"type":"quote",...}`), the main data stream;
//! - a heartbeat frame `{"type":"heartbeat"}`, sent by the server
//!   periodically, on which a client resets its connection timeout; the
//!   interval is configurable, [`DEFAULT_HEARTBEAT_INTERVAL_SECS`] by default;
//! - a resume frame `{"type":"resume","since_ts":T,"since_serial":S}`, sent
//!   by a client after reconnecting to ask for the stream after a cursor.
//!
//! Heartbeat and resume are transport control frames, not market messages;
//! the top-level `type` member tells them apart ([`is_control_frame`]).
//!
//! Resume semantics (cursor `(ts, serial)`): a client remembers the
//! `(ts, serial)` of the last message it received and sends it in a resume
//! frame after reconnecting. The server then sends every message with
//! `ts > since_ts`, and the ticks with `ts == since_ts` and
//! `serial > since_serial`. The server must send the stream in `(ts, serial)`
//! order, a message other than a tick counting as `(ts, 0)`; where it cannot
//! guarantee that order it resends the non-tick messages of `since_ts` too,
//! which is harmless since quotes and snapshots are overwritten and candles
//! are deduplicated by `ts`.
use vstd::prelude::*;
use vstd::string::StringExecFns;
use crate::message::{MarketMessage, message_kind};

verus! {

/// Default heartbeat interval in seconds; deployments may configure another.
pub const DEFAULT_HEARTBEAT_INTERVAL_SECS: u64 = 15;

/// The heartbeat frame.
pub open spec fn heartbeat_text() -> Seq<char> {
    "{\"type\":\"heartbeat\"}"@
}

/// The character of a decimal digit.
pub open spec fn digit_char(d: nat) -> char {
    if d == 0 {
        '0'
    } else if d == 1 {
        '1'
    } else if d == 2 {
        '2'
    } else if d == 3 {
        '3'
    } else if d == 4 {
        '4'
    } else if d == 5 {
        '5'
    } else if d == 6 {
        '6'
    } else if d == 7 {
        '7'
    } else if d == 8 {
        '8'
    } else {
        '9'
    }
}

/// The decimal digits of `n`, most significant first, without leading zeros.
pub open spec fn digits(n: nat) -> Seq<char>
    decreases n,
{
    if n < 10 {
        seq![digit_char(n)]
    } else {
        digits(n / 10) + seq![digit_char(n % 10)]
    }
}

/// The decimal form of an integer, with a leading `-` when it is negative.
pub open spec fn decimal(n: int) -> Seq<char> {
    if n < 0 {
        seq!['-'] + digits((-n) as nat)
    } else {
        digits(n as nat)
    }
}

/// The resume frame for the cursor `(since_ts, since_serial)`.
pub open spec fn resume_text(since_ts: i64, since_serial: i64) -> Seq<char> {
    "{\"type\":\"resume\",\"since_ts\":"@ + decimal(since_ts as int) + ",\"since_serial\":"@
        + decimal(since_serial as int) + "}"@
}

/// Builds the heartbeat frame `{"type":"heartbeat"}`.
pub fn heartbeat_json() -> (r: String)
    ensures
        r@ == heartbeat_text(),
{
    "{\"type\":\"heartbeat\"}".to_owned()
}

/// Builds the resume frame
/// `{"type":"resume","since_ts":<since_ts>,"since_serial":<since_serial>}`,
/// both numbers in decimal.
pub fn resume_json(since_ts: i64, since_serial: i64) -> (r: String)
    ensures
        r@ == resume_text(since_ts, since_serial),
{
    let mut s = "{\"type\":\"resume\",\"since_ts\":".to_owned();
    push_decimal(&mut s, since_ts);
    s.append(",\"since_serial\":");
    push_decimal(&mut s, since_serial);
    s.append("}");
    assert(s@ =~= resume_text(since_ts, since_serial));
    s
}

/// The one-character string of a decimal digit.
fn digit_str(d: u64) -> (r: &'static str)
    requires
        d < 10,
    ensures
        r@ == seq![digit_char(d as nat)],
{
    proof {
        reveal_strlit("0");
        reveal_strlit("1");
        reveal_strlit("2");
        reveal_strlit("3");
        reveal_strlit("4");
        reveal_strlit("5");
        reveal_strlit("6");
        reveal_strlit("7");
        reveal_strlit("8");
        reveal_strlit("9");
    }
    if d == 0 {
        "0"
    } else if d == 1 {
        "1"
    } else if d == 2 {
        "2"
    } else if d == 3 {
        "3"
    } else if d == 4 {
        "4"
    } else if d == 5 {
        "5"
    } else if d == 6 {
        "6"
    } else if d == 7 {
        "7"
    } else if d == 8 {
        "8"
    } else {
        "9"
    }
}

/// Appends the decimal digits of `n`.
fn push_digits(s: &mut String, n: u64)
    ensures
        final(s)@ == old(s)@ + digits(n as nat),
    decreases n,
{
    if n >= 10 {
        push_digits(s, n / 10);
        s.append(digit_str(n % 10));
        assert(s@ =~= old(s)@ + digits(n as nat));
    } else {
        s.append(digit_str(n));
    }
}

/// Appends the decimal form of `n`.
fn push_decimal(s: &mut String, n: i64)
    ensures
        final(s)@ == old(s)@ + decimal(n as int),
{
    proof {
        reveal_strlit("-");
    }
    if n < 0 {
        s.append("-");
        let m: u64 = (0i128 - n as i128) as u64;
        push_digits(s, m);
        assert(s@ =~= old(s)@ + decimal(n as int));
    } else {
        push_digits(s, n as u64);
    }
}

/// What serde_json reads as the top-level `type` member of `text`: the
/// characters of that member when `text` parses as a JSON value that has a
/// `type` member holding a string, `None` otherwise (text that is not JSON,
/// a value that is not an object, no `type` member, or a member that is not
/// a string).
pub uninterp spec fn json_type_member(text: Seq<char>) -> Option<Seq<char>>;

/// Calls `serde_json::from_str::<serde_json::Value>` on `text`, then
/// `Value::get("type")` and `Value::as_str` on what it returns, and copies
/// the string found. Claimed: the result is a function of `text` alone,
/// [`json_type_member`]. Claimed besides, of the two control frames this
/// module writes: `{"type":"heartbeat"}` is a JSON object whose `type`
/// member is the string `heartbeat`, and
/// `{"type":"resume","since_ts":T,"since_serial":S}`, with `T` and `S` the
/// decimal forms of two `i64`, is a JSON object whose `type` member is the
/// string `resume` (serde_json reads every `i64` written in decimal as a
/// number). Nothing more is claimed of [`json_type_member`].
#[verifier::external_body]
fn read_json_type_member(text: &str) -> (r: Option<String>)
    ensures
        match json_type_member(text@) {
            Some(t) => r matches Some(x) && x@ == t,
            None => r is None,
        },
        match r {
            Some(x) => text@ == heartbeat_text() ==> x@ == "heartbeat"@,
            None => text@ != heartbeat_text(),
        },
        match r {
            Some(x) => (exists|c: (i64, i64)| text@ == #[trigger] resume_text(c.0, c.1)) ==> x@ == "resume"@,
            None => !(exists|c: (i64, i64)| text@ == #[trigger] resume_text(c.0, c.1)),
        },
{
    match serde_json::from_str::<serde_json::Value>(text) {
        Ok(value) => match value.get("type") {
            Some(member) => match member.as_str() {
                Some(t) => Some(t.to_owned()),
                None => None,
            },
            None => None,
        },
        Err(_) => None,
    }
}

/// The control frame kind that a type label names: `heartbeat` and `resume`
/// name themselves, any other label (a market message type or an unknown
/// one) and a missing label name none.
pub open spec fn control_kind_of(type_member: Option<Seq<char>>) -> Option<Seq<char>> {
    match type_member {
        Some(t) => if t == "heartbeat"@ {
            Some("heartbeat"@)
        } else if t == "resume"@ {
            Some("resume"@)
        } else {
            None
        },
        None => None,
    }
}

/// Whether two strings hold the same characters, compared by their UTF-8
/// bytes.
fn same_text(a: &str, b: &str) -> (r: bool)
    ensures
        r == (a@ == b@),
{
    let x = a.as_bytes();
    let y = b.as_bytes();
    proof {
        vstd::utf8::encode_utf8_decode_utf8(a@);
        vstd::utf8::encode_utf8_decode_utf8(b@);
    }
    if x.len() != y.len() {
        assert(a@ != b@) by {
            if a@ == b@ {
                assert(vstd::utf8::encode_utf8(a@) == vstd::utf8::encode_utf8(b@));
            }
        }
        return false;
    }
    let mut i: usize = 0;
    while i < x.len()
        invariant
            x@ == vstd::utf8::encode_utf8(a@),
            y@ == vstd::utf8::encode_utf8(b@),
            x@.len() == y@.len(),
            i <= x@.len(),
            forall|j: int| 0 <= j < i ==> x@[j] == y@[j],
        decreases x@.len() - i,
    {
        if x[i] != y[i] {
            assert(x@[i as int] != y@[i as int]);
            assert(x@ != y@);
            assert(a@ != b@) by {
                if a@ == b@ {
                    assert(vstd::utf8::encode_utf8(a@) == vstd::utf8::encode_utf8(b@));
                }
            }
            return false;
        }
        i = i + 1;
    }
    assert(x@ =~= y@);
    true
}

/// Classifies a frame by its top-level type label: `Some("heartbeat")` or
/// `Some("resume")` for a control frame, `None` for a market message, an
/// unknown label or no label.
pub fn control_frame_kind(type_member: Option<&str>) -> (r: Option<&'static str>)
    ensures
        match control_kind_of(match type_member {
            Some(t) => Some(t@),
            None => None,
        }) {
            Some(k) => r matches Some(x) && x@ == k,
            None => r is None,
        },
{
    match type_member {
        Some(t) => {
            if same_text(t, "heartbeat") {
                Some("heartbeat")
            } else if same_text(t, "resume") {
                Some("resume")
            } else {
                None
            }
        },
        None => None,
    }
}

/// Recognises a control frame in JSON text: `Some("heartbeat")` or
/// `Some("resume")` when the text is a JSON object whose `type` member is
/// that label; `None` for a market message, an unknown type (left for the
/// message parser to refuse) and text that is not JSON. The frames that
/// [`heartbeat_json`] and [`resume_json`] write are recognised as
/// `heartbeat` and `resume`.
pub fn is_control_frame(json: &str) -> (r: Option<&'static str>)
    ensures
        match control_kind_of(json_type_member(json@)) {
            Some(k) => r matches Some(x) && x@ == k,
            None => r is None,
        },
        json@ == heartbeat_text() ==> (r matches Some(x) && x@ == "heartbeat"@),
        (exists|c: (i64, i64)| json@ == #[trigger] resume_text(c.0, c.1)) ==> (r matches Some(x) && x@ == "resume"@),
{
    proof {
        reveal_strlit("heartbeat");
        reveal_strlit("resume");
        assert("resume"@.len() != "heartbeat"@.len());
    }
    let member = read_json_type_member(json);
    match &member {
        Some(t) => control_frame_kind(Some(t.as_str())),
        None => control_frame_kind(None),
    }
}

/// A market message is never taken for a control frame: no type label of a
/// market message (`quote`, `tick`, `kline`, `quote_snapshot`) names a
/// control frame kind.
pub proof fn law_message_kinds_are_not_control_frames(m: MarketMessage)
    ensures
        control_kind_of(Some(message_kind(m))) is None,
{
    reveal_strlit("quote");
    reveal_strlit("tick");
    reveal_strlit("kline");
    reveal_strlit("quote_snapshot");
    reveal_strlit("heartbeat");
    reveal_strlit("resume");
    assert("quote"@ != "heartbeat"@ && "quote"@ != "resume"@) by {
        assert("quote"@[0] != "heartbeat"@[0]);
        assert("quote"@.len() != "resume"@.len());
    }
    assert("tick"@ != "heartbeat"@ && "tick"@ != "resume"@) by {
        assert("tick"@.len() != "heartbeat"@.len());
        assert("tick"@.len() != "resume"@.len());
    }
    assert("kline"@ != "heartbeat"@ && "kline"@ != "resume"@) by {
        assert("kline"@.len() != "heartbeat"@.len());
        assert("kline"@.len() != "resume"@.len());
    }
    assert("quote_snapshot"@ != "heartbeat"@ && "quote_snapshot"@ != "resume"@) by {
        assert("quote_snapshot"@.len() != "heartbeat"@.len());
        assert("quote_snapshot"@.len() != "resume"@.len());
    }
}

/// Whether `c` may occur in the decimal form of an integer.
pub open spec fn is_decimal_char(c: char) -> bool {
    c == '-' || ('0' <= c && c <= '9')
}

/// The digits of a number are digit characters, and there is at least one.
proof fn lemma_digits_chars(n: nat)
    ensures
        digits(n).len() >= 1,
        forall|i: int| 0 <= i < digits(n).len() ==> '0' <= #[trigger] digits(n)[i] && digits(n)[i] <= '9',
    decreases n,
{
    if n >= 10 {
        lemma_digits_chars(n / 10);
    }
}

/// The digits of a number of two or more digits are those of its tenth
/// followed by its last digit.
proof fn lemma_digits_split(n: nat)
    requires
        n >= 10,
    ensures
        digits(n).drop_last() == digits(n / 10),
        digits(n).last() == digit_char(n % 10),
        digits(n).len() >= 2,
{
    lemma_digits_chars(n / 10);
    assert(digits(n).drop_last() =~= digits(n / 10));
}

/// Different digit values have different characters.
proof fn lemma_digit_char_injective(a: nat, b: nat)
    requires
        a < 10,
        b < 10,
        digit_char(a) == digit_char(b),
    ensures
        a == b,
{
}

/// Different numbers have different digits.
#[verifier::spinoff_prover]
proof fn lemma_digits_injective(n: nat, m: nat)
    requires
        digits(n) == digits(m),
    ensures
        n == m,
    decreases n,
{
    if n < 10 && m < 10 {
        assert(digits(n)[0] == digit_char(n));
        assert(digits(m)[0] == digit_char(m));
        lemma_digit_char_injective(n, m);
    } else if n >= 10 && m >= 10 {
        lemma_digits_split(n);
        lemma_digits_split(m);
        lemma_digits_injective(n / 10, m / 10);
        lemma_digit_char_injective(n % 10, m % 10);
    } else if n < 10 {
        lemma_digits_split(m);
        assert(digits(n).len() == 1);
    } else {
        lemma_digits_split(n);
        assert(digits(m).len() == 1);
    }
}

/// The decimal form of an integer is made of decimal characters.
proof fn lemma_decimal_chars(n: int)
    ensures
        forall|i: int| 0 <= i < decimal(n).len() ==> is_decimal_char(#[trigger] decimal(n)[i]),
{
    if n < 0 {
        lemma_digits_chars((-n) as nat);
        assert forall|i: int| 0 <= i < decimal(n).len() implies is_decimal_char(#[trigger] decimal(n)[i]) by {
            if i > 0 {
                assert(decimal(n)[i] == digits((-n) as nat)[i - 1]);
            }
        }
    } else {
        lemma_digits_chars(n as nat);
    }
}

/// Different integers have different decimal forms.
proof fn lemma_decimal_injective(n: int, m: int)
    requires
        decimal(n) == decimal(m),
    ensures
        n == m,
{
    lemma_digits_chars((if n < 0 { -n } else { n }) as nat);
    lemma_digits_chars((if m < 0 { -m } else { m }) as nat);
    if n < 0 && m < 0 {
        assert(decimal(n).drop_first() =~= digits((-n) as nat));
        assert(decimal(m).drop_first() =~= digits((-m) as nat));
        lemma_digits_injective((-n) as nat, (-m) as nat);
    } else if n >= 0 && m >= 0 {
        lemma_digits_injective(n as nat, m as nat);
    } else if n < 0 {
        assert(decimal(n)[0] == '-');
        assert(decimal(m)[0] == digits(m as nat)[0]);
    } else {
        assert(decimal(m)[0] == '-');
        assert(decimal(n)[0] == digits(n as nat)[0]);
    }
}

/// A text made of decimal characters, followed by a text that starts with a
/// character that is not one, can be split in only one way.
#[verifier::spinoff_prover]
proof fn lemma_split_after_decimal(a1: Seq<char>, r1: Seq<char>, a2: Seq<char>, r2: Seq<char>)
    requires
        a1 + r1 == a2 + r2,
        forall|i: int| 0 <= i < a1.len() ==> is_decimal_char(#[trigger] a1[i]),
        forall|i: int| 0 <= i < a2.len() ==> is_decimal_char(#[trigger] a2[i]),
        r1.len() > 0,
        r2.len() > 0,
        !is_decimal_char(r1[0]),
        !is_decimal_char(r2[0]),
    ensures
        a1 == a2,
        r1 == r2,
{
    let t = a1 + r1;
    if a1.len() < a2.len() {
        assert(t[a1.len() as int] == r1[0]);
        assert((a2 + r2)[a1.len() as int] == a2[a1.len() as int]);
    } else if a2.len() < a1.len() {
        assert((a2 + r2)[a2.len() as int] == r2[0]);
        assert(t[a2.len() as int] == a1[a2.len() as int]);
    } else {
        assert(a1 =~= t.subrange(0, a1.len() as int));
        assert(a2 =~= (a2 + r2).subrange(0, a2.len() as int));
        assert(r1 =~= t.subrange(a1.len() as int, t.len() as int));
        assert(r2 =~= (a2 + r2).subrange(a2.len() as int, t.len() as int));
    }
}

/// A resume frame identifies its cursor: two cursors give the same resume
/// frame exactly when they are the same cursor.
#[verifier::spinoff_prover]
pub proof fn law_resume_frame_identifies_cursor(since_ts: i64, since_serial: i64, other_ts: i64, other_serial: i64)
    ensures
        (resume_text(since_ts, since_serial) == resume_text(other_ts, other_serial))
            <==> (since_ts == other_ts && since_serial == other_serial),
{
    if resume_text(since_ts, since_serial) == resume_text(other_ts, other_serial) {
        reveal_strlit(",\"since_serial\":");
        reveal_strlit("}");
        let p = "{\"type\":\"resume\",\"since_ts\":"@;
        let m = ",\"since_serial\":"@;
        let e = "}"@;
        let d1 = decimal(since_ts as int);
        let d2 = decimal(since_serial as int);
        let d3 = decimal(other_ts as int);
        let d4 = decimal(other_serial as int);
        lemma_decimal_chars(since_ts as int);
        lemma_decimal_chars(since_serial as int);
        lemma_decimal_chars(other_ts as int);
        lemma_decimal_chars(other_serial as int);
        let x = d1 + (m + (d2 + e));
        let y = d3 + (m + (d4 + e));
        assert(p + x =~= resume_text(since_ts, since_serial));
        assert(p + y =~= resume_text(other_ts, other_serial));
        assert(x =~= (p + x).subrange(p.len() as int, (p + x).len() as int));
        assert(y =~= (p + y).subrange(p.len() as int, (p + y).len() as int));
        assert((m + (d2 + e))[0] == ',');
        assert((m + (d4 + e))[0] == ',');
        lemma_split_after_decimal(d1, m + (d2 + e), d3, m + (d4 + e));
        assert(d2 + e =~= (m + (d2 + e)).subrange(m.len() as int, (m + (d2 + e)).len() as int));
        assert(d4 + e =~= (m + (d4 + e)).subrange(m.len() as int, (m + (d4 + e)).len() as int));
        lemma_split_after_decimal(d2, e, d4, e);
        lemma_decimal_injective(since_ts as int, other_ts as int);
        lemma_decimal_injective(since_serial as int, other_serial as int);
    }
}

} // verus!
