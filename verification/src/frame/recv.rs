//! Inbound replies and their decoder.
//!
//! A reply line is split into whitespace-separated words and dispatched on
//! its leading word. The whole grammar is written down as specification
//! functions over character sequences; the executable decoder is proved to
//! return exactly what the grammar says, for every input.

use vstd::prelude::*;

use crate::frame::FrameError;
use crate::frame::Mode;
use crate::frame::mode_token;
use crate::text::all_digits;
use crate::text::bytes_to_string;
use crate::text::dec_val;
use crate::text::is_ascii_digit;
use crate::text::is_digit_char;
use crate::text::lemma_dec_val_prefix;
use crate::text::lemma_tokens_append_word;
use crate::text::lemma_tokens_single_word;
use crate::text::no_space;
use crate::text::spec_tokens;
use crate::text::str_eq;
use crate::text::tokenize;

verus! {

/// A server reply, one variant per reply line the server can emit.
///
/// `Started` carries `None` for its mode when the server's mode token is
/// unrecognized — a forward-compatibility fallback, not an error. The two
/// event variants carry the whole remainder of their line, word by word, in
/// order.
#[derive(Debug, PartialEq)]
pub enum Recv {
    Connected(String),
    Started(Option<Mode>, u64),
    Pending(String),
    Okay,
    Pong,
    EventQuery(String, Vec<String>),
    EventSuggest(String, Vec<String>),
    Ended(String),
    Error(String),
}

/// Specification-level image of a reply.
pub enum ReplyView {
    Connected(Seq<char>),
    Started(Option<Mode>, u64),
    Pending(Seq<char>),
    Okay,
    Pong,
    EventQuery(Seq<char>, Seq<Seq<char>>),
    EventSuggest(Seq<char>, Seq<Seq<char>>),
    Ended(Seq<char>),
    Error(Seq<char>),
}

impl View for Recv {
    type V = ReplyView;

    open spec fn view(&self) -> ReplyView {
        match self {
            Recv::Connected(version) => ReplyView::Connected(version@),
            Recv::Started(mode, size) => ReplyView::Started(*mode, *size),
            Recv::Pending(id) => ReplyView::Pending(id@),
            Recv::Okay => ReplyView::Okay,
            Recv::Pong => ReplyView::Pong,
            Recv::EventQuery(id, keys) => ReplyView::EventQuery(id@, keys.deep_view()),
            Recv::EventSuggest(id, words) => ReplyView::EventSuggest(id@, words.deep_view()),
            Recv::Ended(reason) => ReplyView::Ended(reason@),
            Recv::Error(message) => ReplyView::Error(message@),
        }
    }
}

/// A well-formed version word: `v`, three single digits separated by dots,
/// then `>`.
pub open spec fn version_token_ok(t: Seq<char>) -> bool {
    t.len() == 7 && t[0] == 'v' && is_ascii_digit(t[1]) && t[2] == '.' && is_ascii_digit(t[3])
        && t[4] == '.' && is_ascii_digit(t[5]) && t[6] == '>'
}

/// The `X.Y.Z` digits of a well-formed version word, delimiters stripped.
pub open spec fn version_of_token(t: Seq<char>) -> Seq<char> {
    t.subrange(1, 6)
}

/// The mode named by a `STARTED` mode word, or `None` for an unrecognized
/// token.
pub open spec fn mode_of_token(t: Seq<char>) -> Option<Mode> {
    if t == "search"@ {
        Some(Mode::Search)
    } else if t == "ingest"@ {
        Some(Mode::Ingest)
    } else {
        None
    }
}

/// A well-formed buffer-size word: `buffer(`, one or more digits whose
/// value fits an unsigned 64-bit integer, then `)`.
pub open spec fn buffer_token_ok(t: Seq<char>) -> bool {
    t.len() >= 9 && t[0] == 'b' && t[1] == 'u' && t[2] == 'f' && t[3] == 'f' && t[4] == 'e'
        && t[5] == 'r' && t[6] == '(' && t[t.len() - 1] == ')' && all_digits(
        t.subrange(7, t.len() - 1),
    ) && dec_val(t.subrange(7, t.len() - 1)) <= u64::MAX
}

/// The size carried by a well-formed buffer-size word.
pub open spec fn buffer_size_of(t: Seq<char>) -> nat {
    dec_val(t.subrange(7, t.len() - 1))
}

/// The message of an `ERR` line: every word after the verb, each preceded
/// by one space — so the message keeps its leading space.
pub open spec fn spec_err_message(words: Seq<Seq<char>>) -> Seq<char>
    decreases words.len(),
{
    if words.len() == 0 {
        Seq::empty()
    } else {
        spec_err_message(words.drop_last()) + " "@ + words.last()
    }
}

/// What a word list decodes to: dispatch on the leading word, check the
/// shape the verb demands, and build the reply. `None` is a protocol
/// violation — including the empty line and any unrecognized verb.
pub open spec fn decode_tokens(toks: Seq<Seq<char>>) -> Option<ReplyView> {
    if toks.len() == 0 {
        None
    } else if toks[0] == "CONNECTED"@ {
        if toks.len() >= 3 && toks[1] == "<sonic-server"@ && version_token_ok(toks[2]) {
            Some(ReplyView::Connected(version_of_token(toks[2])))
        } else {
            None
        }
    } else if toks[0] == "STARTED"@ {
        if toks.len() >= 4 && buffer_token_ok(toks[3]) {
            Some(ReplyView::Started(mode_of_token(toks[1]), buffer_size_of(toks[3]) as u64))
        } else {
            None
        }
    } else if toks[0] == "PENDING"@ {
        if toks.len() >= 2 {
            Some(ReplyView::Pending(toks[1]))
        } else {
            None
        }
    } else if toks[0] == "EVENT"@ {
        if toks.len() >= 3 && toks[1] == "QUERY"@ {
            Some(ReplyView::EventQuery(toks[2], toks.skip(3)))
        } else if toks.len() >= 3 && toks[1] == "SUGGEST"@ {
            Some(ReplyView::EventSuggest(toks[2], toks.skip(3)))
        } else {
            None
        }
    } else if toks[0] == "OK"@ {
        Some(ReplyView::Okay)
    } else if toks[0] == "PONG"@ {
        Some(ReplyView::Pong)
    } else if toks[0] == "ENDED"@ {
        if toks.len() >= 2 {
            Some(ReplyView::Ended(toks[1]))
        } else {
            None
        }
    } else if toks[0] == "ERR"@ {
        Some(ReplyView::Error(spec_err_message(toks.skip(1))))
    } else {
        None
    }
}

/// What one line of characters decodes to.
pub open spec fn decode_chars(line: Seq<char>) -> Option<ReplyView> {
    decode_tokens(spec_tokens(line))
}

/// What one line of bytes decodes to: the line must be valid UTF-8, and its
/// characters must follow the reply grammar.
pub open spec fn decode_line(line: Seq<u8>) -> Option<ReplyView> {
    if vstd::utf8::valid_utf8(line) {
        decode_chars(vstd::utf8::decode_utf8(line))
    } else {
        None
    }
}

/// Checks a word against the version grammar.
fn version_token_check(t: &str) -> (r: bool)
    ensures
        r == version_token_ok(t@),
{
    let len = t.unicode_len();
    if len != 7 {
        return false;
    }
    t.get_char(0) == 'v' && is_digit_char(t.get_char(1)) && t.get_char(2) == '.' && is_digit_char(
        t.get_char(3),
    ) && t.get_char(4) == '.' && is_digit_char(t.get_char(5)) && t.get_char(6) == '>'
}

/// Parses a `buffer(<digits>)` word into the size it carries, or reports
/// that the word does not follow the grammar (bad shape, stray characters,
/// or a value too large for 64 bits).
fn parse_buffer_token(t: &str) -> (r: Option<u64>)
    ensures
        match r {
            Some(n) => buffer_token_ok(t@) && n as nat == buffer_size_of(t@),
            None => !buffer_token_ok(t@),
        },
{
    let len = t.unicode_len();
    if len < 9 {
        return None;
    }
    if t.get_char(0) != 'b' || t.get_char(1) != 'u' || t.get_char(2) != 'f' || t.get_char(3) != 'f'
        || t.get_char(4) != 'e' || t.get_char(5) != 'r' || t.get_char(6) != '(' || t.get_char(
        len - 1,
    ) != ')' {
        return None;
    }
    let ghost mid = t@.subrange(7, t@.len() - 1);
    let mut val: u64 = 0;
    let mut i: usize = 7;
    while i < len - 1
        invariant
            7 <= i <= len - 1,
            len == t@.len(),
            9 <= len,
            mid == t@.subrange(7, t@.len() - 1),
            val as nat == dec_val(mid.take(i - 7)),
            all_digits(mid.take(i - 7)),
        decreases len - i,
    {
        let c = t.get_char(i);
        if !is_digit_char(c) {
            proof {
                assert(mid[i - 7] == c);
                assert(!all_digits(mid));
            }
            return None;
        }
        let d: u64 = (c as u32 as u64) - 48;
        proof {
            assert(crate::text::digit_val(c) == d as nat);
            assert(mid.take(i - 7 + 1).drop_last() =~= mid.take(i - 7));
            assert(mid.take(i - 7 + 1).last() == mid[i - 7]);
            assert(mid[i - 7] == c);
        }
        let shifted = match val.checked_mul(10) {
            Some(v) => v,
            None => {
                proof {
                    assert(dec_val(mid.take(i - 7 + 1)) > u64::MAX);
                    lemma_dec_val_prefix(mid, i - 7 + 1);
                }
                return None;
            },
        };
        let next = match shifted.checked_add(d) {
            Some(v) => v,
            None => {
                proof {
                    assert(dec_val(mid.take(i - 7 + 1)) > u64::MAX);
                    lemma_dec_val_prefix(mid, i - 7 + 1);
                }
                return None;
            },
        };
        proof {
            assert(all_digits(mid.take(i - 7 + 1)));
        }
        val = next;
        i = i + 1;
    }
    proof {
        assert(mid.take(i - 7) =~= mid);
    }
    Some(val)
}

/// Maps a `STARTED` mode word to its mode.
fn mode_of(t: &str) -> (m: Option<Mode>)
    ensures
        m == mode_of_token(t@),
{
    if str_eq(t, "search") {
        Some(Mode::Search)
    } else if str_eq(t, "ingest") {
        Some(Mode::Ingest)
    } else {
        None
    }
}

/// Joins every word after the verb into the `ERR` message, one space
/// before each word.
fn err_message(toks: &Vec<String>) -> (msg: String)
    requires
        toks@.len() >= 1,
    ensures
        msg@ == spec_err_message(toks.deep_view().skip(1)),
{
    let mut msg = String::new();
    let mut k: usize = 1;
    while k < toks.len()
        invariant
            1 <= k <= toks@.len(),
            msg@ =~= spec_err_message(toks.deep_view().subrange(1, k as int)),
        decreases toks@.len() - k,
    {
        msg.append(" ");
        msg.append(toks[k].as_str());
        proof {
            let dv = toks.deep_view();
            assert(dv.subrange(1, k + 1 as int).drop_last() =~= dv.subrange(1, k as int));
            assert(dv.subrange(1, k + 1 as int).last() == dv[k as int]);
            assert(dv[k as int] == toks@[k as int]@);
            assert(msg@ =~= spec_err_message(dv.subrange(1, k + 1 as int)));
        }
        k = k + 1;
    }
    proof {
        assert(toks.deep_view().subrange(1, toks@.len() as int) =~= toks.deep_view().skip(1));
    }
    msg
}

/// Copies the words from `from` onward, in order.
fn tail_from(toks: &Vec<String>, from: usize) -> (out: Vec<String>)
    requires
        from <= toks@.len(),
    ensures
        out.deep_view() =~~= toks.deep_view().skip(from as int),
{
    let mut out: Vec<String> = Vec::new();
    let mut k: usize = from;
    while k < toks.len()
        invariant
            from <= k <= toks@.len(),
            out@.len() == k - from,
            forall|j: int| 0 <= j < out@.len() ==> #[trigger] out@[j]@ == toks@[from + j]@,
        decreases toks@.len() - k,
    {
        let w = toks[k].clone();
        proof {
            assert(w@ == toks@[k as int]@);
        }
        out.push(w);
        k = k + 1;
    }
    proof {
        let dv = toks.deep_view();
        assert forall|j: int| 0 <= j < out.deep_view().len() implies out.deep_view()[j]
            == dv.skip(from as int)[j] by {
            assert(out.deep_view()[j] == out@[j]@);
            assert(dv[from + j] == toks@[from + j]@);
        }
        assert(out.deep_view() =~~= dv.skip(from as int));
    }
    out
}

/// Decodes one line of characters, returning exactly what the grammar
/// assigns to it: a reply, or nothing for a protocol violation.
fn parse_line(line: &str) -> (r: Option<Recv>)
    ensures
        match r {
            Some(rep) => decode_chars(line@) == Some(rep@),
            None => decode_chars(line@) is None,
        },
{
    let toks = tokenize(line);
    let ghost tv = spec_tokens(line@);
    proof {
        assert(toks.deep_view() =~~= tv);
    }
    if toks.len() == 0 {
        return None;
    }
    proof {
        assert(toks.deep_view()[0] == toks@[0]@);
    }
    if str_eq(toks[0].as_str(), "CONNECTED") {
        if toks.len() >= 3 {
            proof {
                assert(toks.deep_view()[1] == toks@[1]@);
                assert(toks.deep_view()[2] == toks@[2]@);
            }
            if str_eq(toks[1].as_str(), "<sonic-server") && version_token_check(
                toks[2].as_str(),
            ) {
                let version = toks[2].as_str().substring_char(1, 6).to_owned();
                proof {
                    assert(version@ =~= version_of_token(tv[2]));
                }
                return Some(Recv::Connected(version));
            }
        }
        None
    } else if str_eq(toks[0].as_str(), "STARTED") {
        if toks.len() >= 4 {
            proof {
                assert(toks.deep_view()[1] == toks@[1]@);
                assert(toks.deep_view()[3] == toks@[3]@);
            }
            match parse_buffer_token(toks[3].as_str()) {
                Some(size) => {
                    let mode = mode_of(toks[1].as_str());
                    return Some(Recv::Started(mode, size));
                },
                None => {
                    return None;
                },
            }
        }
        None
    } else if str_eq(toks[0].as_str(), "PENDING") {
        if toks.len() >= 2 {
            proof {
                assert(toks.deep_view()[1] == toks@[1]@);
            }
            return Some(Recv::Pending(toks[1].clone()));
        }
        None
    } else if str_eq(toks[0].as_str(), "EVENT") {
        if toks.len() >= 3 {
            proof {
                assert(toks.deep_view()[1] == toks@[1]@);
                assert(toks.deep_view()[2] == toks@[2]@);
            }
            if str_eq(toks[1].as_str(), "QUERY") {
                let keys = tail_from(&toks, 3);
                return Some(Recv::EventQuery(toks[2].clone(), keys));
            }
            if str_eq(toks[1].as_str(), "SUGGEST") {
                let words = tail_from(&toks, 3);
                return Some(Recv::EventSuggest(toks[2].clone(), words));
            }
        }
        None
    } else if str_eq(toks[0].as_str(), "OK") {
        Some(Recv::Okay)
    } else if str_eq(toks[0].as_str(), "PONG") {
        Some(Recv::Pong)
    } else if str_eq(toks[0].as_str(), "ENDED") {
        if toks.len() >= 2 {
            proof {
                assert(toks.deep_view()[1] == toks@[1]@);
            }
            return Some(Recv::Ended(toks[1].clone()));
        }
        None
    } else if str_eq(toks[0].as_str(), "ERR") {
        Some(Recv::Error(err_message(&toks)))
    } else {
        None
    }
}

/// The grammar's own verbs and fixed words hold no whitespace, and the two
/// leading verbs differ.
proof fn lemma_verb_words()
    ensures
        no_space("CONNECTED"@),
        "CONNECTED"@.len() == 9,
        no_space("<sonic-server"@),
        "<sonic-server"@.len() == 13,
        no_space("STARTED"@),
        "STARTED"@.len() == 7,
        "STARTED"@ != "CONNECTED"@,
{
    reveal_strlit("CONNECTED");
    reveal_strlit("<sonic-server");
    reveal_strlit("STARTED");
}

/// The mode tokens round-trip: the token a mode renders as is decoded back
/// to exactly that mode.
pub proof fn lemma_mode_roundtrip(m: Mode)
    ensures
        mode_of_token(mode_token(m)) == Some(m),
{
    reveal_strlit("search");
    reveal_strlit("ingest");
    match m {
        Mode::Search => {
        },
        Mode::Ingest => {
            assert("ingest"@[0] != "search"@[0]);
            assert("ingest"@ != "search"@);
        },
    }
}

/// Every greeting line `CONNECTED <sonic-server <version>>` built around a
/// whitespace-free version word decodes to the version's digits when the
/// word is well-formed, and to a protocol violation — never a panic — when
/// it is malformed.
pub proof fn lemma_connected_decodes(ver: Seq<char>)
    requires
        ver.len() > 0,
        no_space(ver),
    ensures
        ({
            let line = "CONNECTED"@ + " "@ + "<sonic-server"@ + " "@ + ver;
            &&& version_token_ok(ver) ==> decode_chars(line) == Some(
                ReplyView::Connected(version_of_token(ver)),
            )
            &&& !version_token_ok(ver) ==> decode_chars(line) is None
        }),
{
    lemma_verb_words();
    let line = "CONNECTED"@ + " "@ + "<sonic-server"@ + " "@ + ver;
    lemma_tokens_single_word("CONNECTED"@);
    lemma_tokens_append_word("CONNECTED"@, "<sonic-server"@);
    lemma_tokens_append_word("CONNECTED"@ + " "@ + "<sonic-server"@, ver);
    let toks = spec_tokens(line);
    assert(toks =~~= seq!["CONNECTED"@, "<sonic-server"@, ver]);
    assert(toks.len() == 3 && toks[0] == "CONNECTED"@ && toks[1] == "<sonic-server"@ && toks[2]
        == ver);
}

/// A `buffer(<digits>)` word built from one or more digits whose value
/// fits 64 bits is well-formed and carries that value.
pub proof fn lemma_buffer_token(digits: Seq<char>)
    requires
        digits.len() > 0,
        all_digits(digits),
        dec_val(digits) <= u64::MAX,
    ensures
        ({
            let t = "buffer("@ + digits + ")"@;
            &&& buffer_token_ok(t)
            &&& buffer_size_of(t) == dec_val(digits)
            &&& t.len() > 0
            &&& no_space(t)
        }),
{
    reveal_strlit("buffer(");
    reveal_strlit(")");
    let t = "buffer("@ + digits + ")"@;
    assert(t.subrange(7, t.len() - 1) =~= digits);
    assert forall|i: int| 0 <= i < t.len() implies !crate::text::is_ascii_space(
        #[trigger] t[i],
    ) by {
        if 7 <= i < t.len() - 1 {
            assert(is_ascii_digit(digits[i - 7]));
        }
    }
}

/// Every `STARTED <mode> <proto> <size>` line built from whitespace-free
/// words decodes to `Started` — carrying the recognized mode, or `None`
/// for an unknown mode token, and the parenthesized size — when the size
/// word is well-formed, and to a protocol violation when it is not. The
/// protocol-version word is consumed but never validated.
pub proof fn lemma_started_decodes(mode: Seq<char>, proto: Seq<char>, size: Seq<char>)
    requires
        mode.len() > 0,
        no_space(mode),
        proto.len() > 0,
        no_space(proto),
        size.len() > 0,
        no_space(size),
    ensures
        ({
            let line = "STARTED"@ + " "@ + mode + " "@ + proto + " "@ + size;
            &&& buffer_token_ok(size) ==> decode_chars(line) == Some(
                ReplyView::Started(mode_of_token(mode), buffer_size_of(size) as u64),
            )
            &&& !buffer_token_ok(size) ==> decode_chars(line) is None
        }),
{
    lemma_verb_words();
    let line = "STARTED"@ + " "@ + mode + " "@ + proto + " "@ + size;
    lemma_tokens_single_word("STARTED"@);
    lemma_tokens_append_word("STARTED"@, mode);
    lemma_tokens_append_word("STARTED"@ + " "@ + mode, proto);
    lemma_tokens_append_word("STARTED"@ + " "@ + mode + " "@ + proto, size);
    let toks = spec_tokens(line);
    assert(toks =~~= seq!["STARTED"@, mode, proto, size]);
    assert(toks.len() == 4 && toks[0] == "STARTED"@ && toks[1] == mode && toks[3] == size);
}

/// Whether `s` holds a CR LF pair starting at position `j`.
pub open spec fn crlf_at(s: Seq<u8>, j: int) -> bool {
    0 <= j && j + 1 < s.len() && s[j] == 13 && s[j + 1] == 10
}

/// The position of the first CR LF pair of `s`, if any.
pub open spec fn spec_first_crlf(s: Seq<u8>) -> Option<int>
    decreases s.len(),
{
    if s.len() < 2 {
        None
    } else if s[0] == 13 && s[1] == 10 {
        Some(0)
    } else {
        match spec_first_crlf(s.drop_first()) {
            None => None,
            Some(i) => Some(i + 1),
        }
    }
}

/// `spec_first_crlf` finds a CR LF pair exactly when one exists, and finds
/// the first one.
pub proof fn lemma_first_crlf_spec(s: Seq<u8>)
    ensures
        match spec_first_crlf(s) {
            Some(i) => crlf_at(s, i) && (forall|j: int| 0 <= j < i ==> !crlf_at(s, j)),
            None => forall|j: int| !crlf_at(s, j),
        },
    decreases s.len(),
{
    if s.len() < 2 {
    } else if s[0] == 13 && s[1] == 10 {
    } else {
        lemma_first_crlf_spec(s.drop_first());
        match spec_first_crlf(s.drop_first()) {
            None => {
                assert forall|j: int| !crlf_at(s, j) by {
                    if 1 <= j {
                        assert(!crlf_at(s.drop_first(), j - 1));
                    }
                }
            },
            Some(i) => {
                assert(s.drop_first()[i] == s[i + 1]);
                assert(s.drop_first()[i + 1] == s[i + 2]);
                assert(crlf_at(s, i + 1));
                assert forall|j: int| 0 <= j < i + 1 implies !crlf_at(s, j) by {
                    if 1 <= j {
                        assert(!crlf_at(s.drop_first(), j - 1));
                    }
                }
            },
        }
    }
}

/// Scans for the first CR LF pair without reading past the end of the
/// slice: a CR as the very last byte is not a match. Returns the index of
/// the CR, or `Incomplete` when no full terminator is present yet.
pub fn get_line(src: &[u8]) -> (r: Result<usize, FrameError>)
    ensures
        match r {
            Ok(i) => spec_first_crlf(src@) == Some(i as int),
            Err(e) => e == FrameError::Incomplete && spec_first_crlf(src@) is None,
        },
{
    let len = src.len();
    let mut i: usize = 0;
    while len - i > 1
        invariant
            i <= len,
            len == src@.len(),
            forall|j: int| 0 <= j < i ==> !crlf_at(src@, j),
        decreases len - i,
    {
        if *vstd::slice::slice_index_get(src, i) == 13 && *vstd::slice::slice_index_get(
            src,
            i + 1,
        ) == 10 {
            proof {
                lemma_first_crlf_spec(src@);
                assert(crlf_at(src@, i as int));
            }
            return Ok(i);
        }
        i = i + 1;
    }
    proof {
        lemma_first_crlf_spec(src@);
        assert(forall|j: int| !crlf_at(src@, j));
    }
    Err(FrameError::Incomplete)
}

impl Recv {
    /// Decodes the first line of `src`. `Incomplete` when no full
    /// CRLF-terminated line is buffered yet; `Invalid` when the line is
    /// complete but violates the reply grammar; otherwise the reply the
    /// grammar assigns to the line.
    pub fn parse(src: &[u8]) -> (r: Result<Recv, FrameError>)
        ensures
            match r {
                Ok(rep) => spec_first_crlf(src@) matches Some(i) && decode_line(src@.take(i))
                    == Some(rep@),
                Err(e) => match spec_first_crlf(src@) {
                    None => e == FrameError::Incomplete,
                    Some(i) => e == FrameError::Invalid && decode_line(src@.take(i)) is None,
                },
            },
    {
        let end = match get_line(src) {
            Ok(i) => i,
            Err(e) => {
                return Err(e);
            },
        };
        proof {
            lemma_first_crlf_spec(src@);
        }
        let line_bytes = vstd::slice::slice_to_vec(vstd::slice::slice_subrange(src, 0, end));
        let line = match bytes_to_string(line_bytes) {
            Some(s) => s,
            None => {
                return Err(FrameError::Invalid);
            },
        };
        match parse_line(line.as_str()) {
            Some(rep) => Ok(rep),
            None => Err(FrameError::Invalid),
        }
    }

    /// Reports whether a full line is buffered: the number of bytes the
    /// first line occupies, CRLF included, or `Incomplete`.
    pub fn check(src: &[u8]) -> (r: Result<usize, FrameError>)
        ensures
            match r {
                Ok(n) => spec_first_crlf(src@) matches Some(i) && n == i + 2,
                Err(e) => e == FrameError::Incomplete && spec_first_crlf(src@) is None,
            },
    {
        let total = src.len();
        match get_line(src) {
            Ok(i) => {
                proof {
                    lemma_first_crlf_spec(src@);
                    assert(crlf_at(src@, i as int));
                    assert(i + 2 <= total);
                }
                Ok(i + 2)
            },
            Err(e) => Err(e),
        }
    }
}

} // verus!
