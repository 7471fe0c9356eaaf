//! Outbound commands and their encoder.
//!
//! Each command type carries its required fields plus optional trailing
//! fields; `to_string` renders the exact wire line, and the specification
//! functions beside it pin that line down character by character. Optional
//! fields appear strictly after the required ones and only when set.
//!
//! Free-text fields (query terms, pushed text, the suggest word) are
//! wrapped in double quotes on the wire, but the encoder does not escape
//! quotes or line terminators inside them: callers must not submit text
//! holding protocol-breaking sequences.

use vstd::prelude::*;

use crate::frame::Mode;
use crate::frame::mode_token;
use crate::text::dec_digits_of;
use crate::text::u64_to_string;

verus! {

/// Specification-level image of a `QUERY` command.
pub struct QueryView {
    pub collection: Seq<char>,
    pub bucket: Seq<char>,
    pub terms: Seq<char>,
    pub limit: Option<u64>,
    pub offset: Option<u64>,
}

/// A `QUERY` command: search `collection`/`bucket` for `terms`, with an
/// optional result limit and offset. The two trailing integers are
/// positional on the wire, so the offset can only be set once the limit is
/// set: a lone offset would be read by the server as a limit.
#[derive(Debug, PartialEq)]
pub struct Query {
    collection: String,
    bucket: String,
    terms: String,
    limit: Option<u64>,
    offset: Option<u64>,
}

impl View for Query {
    type V = QueryView;

    closed spec fn view(&self) -> QueryView {
        QueryView {
            collection: self.collection@,
            bucket: self.bucket@,
            terms: self.terms@,
            limit: self.limit,
            offset: self.offset,
        }
    }
}

impl Query {
    /// A query over `collection` and `bucket` for `terms`, with no limit
    /// and no offset set.
    pub fn new(collection: String, bucket: String, terms: String) -> (q: Query)
        ensures
            q@ == (QueryView {
                collection: collection@,
                bucket: bucket@,
                terms: terms@,
                limit: None,
                offset: None,
            }),
    {
        Query { collection, bucket, terms, limit: None, offset: None }
    }

    /// The same query with its result limit set.
    pub fn limit(self, limit: u64) -> (q: Query)
        ensures
            q@ == (QueryView { limit: Some(limit), ..self@ }),
    {
        Query { limit: Some(limit), ..self }
    }

    /// The same query with its result offset set — but only if a limit was
    /// set first; without a limit the query is returned unchanged, so an
    /// offset can never appear on the wire in the limit's position.
    pub fn offset(self, offset: u64) -> (q: Query)
        ensures
            self@.limit is Some ==> q@ == (QueryView { offset: Some(offset), ..self@ }),
            self@.limit is None ==> q@ == self@,
    {
        if self.limit.is_some() {
            Query { offset: Some(offset), ..self }
        } else {
            self
        }
    }

    /// The command's payload on the wire: collection, bucket, quoted terms,
    /// then the optional limit and offset.
    pub fn to_string(&self) -> (s: String)
        ensures
            s@ == spec_query_body(self@),
    {
        let mut s = String::new();
        s.append(self.collection.as_str());
        s.append(" ");
        s.append(self.bucket.as_str());
        s.append(" \"");
        s.append(self.terms.as_str());
        s.append("\"");
        if let Some(limit) = self.limit {
            s.append(" ");
            let num = u64_to_string(limit);
            s.append(num.as_str());
        }
        if let Some(offset) = self.offset {
            s.append(" ");
            let num = u64_to_string(offset);
            s.append(num.as_str());
        }
        proof {
            assert(s@ =~= spec_query_body(self@));
        }
        s
    }
}

/// An optional numeric trailing field: a space and the decimal digits when
/// present, nothing when absent.
pub open spec fn spec_opt_num(o: Option<u64>) -> Seq<char> {
    match o {
        Some(v) => " "@ + dec_digits_of(v as nat),
        None => Seq::<char>::empty(),
    }
}

/// An optional textual trailing field: a space and the text when present.
pub open spec fn spec_opt_text(o: Option<Seq<char>>) -> Seq<char> {
    match o {
        Some(t) => " "@ + t,
        None => Seq::<char>::empty(),
    }
}

/// The payload of a `QUERY` line.
pub open spec fn spec_query_body(q: QueryView) -> Seq<char> {
    q.collection + " "@ + q.bucket + " \""@ + q.terms + "\""@ + spec_opt_num(q.limit)
        + spec_opt_num(q.offset)
}

/// Specification-level image of a `PUSH` command.
pub struct PushView {
    pub collection: Seq<char>,
    pub bucket: Seq<char>,
    pub object: Seq<char>,
    pub text: Seq<char>,
    pub lang: Option<Seq<char>>,
}

/// A `PUSH` command: ingest `text` as `object` under `collection`/`bucket`,
/// with an optional language hint.
#[derive(Debug, PartialEq)]
pub struct Push {
    collection: String,
    bucket: String,
    object: String,
    text: String,
    lang: Option<String>,
}

impl View for Push {
    type V = PushView;

    closed spec fn view(&self) -> PushView {
        PushView {
            collection: self.collection@,
            bucket: self.bucket@,
            object: self.object@,
            text: self.text@,
            lang: match self.lang {
                Some(ref l) => Some(l@),
                None => None,
            },
        }
    }
}

impl Push {
    /// A push of `text` as `object` under `collection`/`bucket`, with no
    /// language hint set.
    pub fn new(collection: String, bucket: String, object: String, text: String) -> (p: Push)
        ensures
            p@ == (PushView {
                collection: collection@,
                bucket: bucket@,
                object: object@,
                text: text@,
                lang: None,
            }),
    {
        Push { collection, bucket, object, text, lang: None }
    }

    /// Sets the language hint.
    pub fn lang(&mut self, lang: String)
        ensures
            final(self)@ == (PushView { lang: Some(lang@), ..old(self)@ }),
    {
        self.lang = Some(lang);
    }

    /// The command's payload on the wire: collection, bucket, object,
    /// quoted text, then the optional language hint.
    pub fn to_string(&self) -> (s: String)
        ensures
            s@ == spec_push_body(self@),
    {
        let mut s = String::new();
        s.append(self.collection.as_str());
        s.append(" ");
        s.append(self.bucket.as_str());
        s.append(" ");
        s.append(self.object.as_str());
        s.append(" \"");
        s.append(self.text.as_str());
        s.append("\"");
        if let Some(ref lang) = self.lang {
            s.append(" ");
            s.append(lang.as_str());
        }
        proof {
            assert(s@ =~= spec_push_body(self@));
        }
        s
    }
}

/// The payload of a `PUSH` line.
pub open spec fn spec_push_body(p: PushView) -> Seq<char> {
    p.collection + " "@ + p.bucket + " "@ + p.object + " \""@ + p.text + "\""@ + spec_opt_text(
        p.lang,
    )
}

/// Specification-level image of a `COUNT` command.
pub struct CountView {
    pub collection: Seq<char>,
    pub bucket: Option<Seq<char>>,
    pub object: Option<Seq<char>>,
}

/// A `COUNT` command: count objects in `collection`, optionally narrowed to
/// a bucket and further to one object. The object can only be set once the
/// bucket is set.
#[derive(Debug, PartialEq)]
pub struct Count {
    collection: String,
    bucket: Option<String>,
    object: Option<String>,
}

impl View for Count {
    type V = CountView;

    closed spec fn view(&self) -> CountView {
        CountView {
            collection: self.collection@,
            bucket: match self.bucket {
                Some(ref b) => Some(b@),
                None => None,
            },
            object: match self.object {
                Some(ref o) => Some(o@),
                None => None,
            },
        }
    }
}

impl Count {
    /// A count over all of `collection`, with no bucket and no object set.
    pub fn new(collection: String) -> (c: Count)
        ensures
            c@ == (CountView { collection: collection@, bucket: None, object: None }),
    {
        Count { collection, bucket: None, object: None }
    }

    /// The same count narrowed to `bucket`.
    pub fn bucket(self, bucket: String) -> (c: Count)
        ensures
            c@ == (CountView { bucket: Some(bucket@), ..self@ }),
    {
        Count { bucket: Some(bucket), ..self }
    }

    /// The same count narrowed to `object` — but only if a bucket was set
    /// first; without a bucket the count is returned unchanged, so an
    /// object can never appear on the wire without its bucket.
    pub fn object(self, object: String) -> (c: Count)
        ensures
            self@.bucket is Some ==> c@ == (CountView { object: Some(object@), ..self@ }),
            self@.bucket is None ==> c@ == self@,
    {
        if self.bucket.is_some() {
            Count { object: Some(object), ..self }
        } else {
            self
        }
    }

    /// The command's payload on the wire: the collection, then the bucket
    /// and object when set.
    pub fn to_string(&self) -> (s: String)
        ensures
            s@ == spec_count_body(self@),
    {
        let mut s = String::new();
        s.append(self.collection.as_str());
        if let Some(ref bucket) = self.bucket {
            s.append(" ");
            s.append(bucket.as_str());
        }
        if let Some(ref object) = self.object {
            s.append(" ");
            s.append(object.as_str());
        }
        proof {
            assert(s@ =~= spec_count_body(self@));
        }
        s
    }
}

/// The payload of a `COUNT` line.
pub open spec fn spec_count_body(c: CountView) -> Seq<char> {
    c.collection + spec_opt_text(c.bucket) + spec_opt_text(c.object)
}

/// Specification-level image of a `SUGGEST` command.
pub struct SuggestView {
    pub collection: Seq<char>,
    pub bucket: Seq<char>,
    pub word: Seq<char>,
    pub limit: Option<u64>,
}

/// A `SUGGEST` command: complete `word` against `collection`/`bucket`, with
/// an optional result limit.
#[derive(Debug, PartialEq)]
pub struct Suggest {
    collection: String,
    bucket: String,
    word: String,
    limit: Option<u64>,
}

impl View for Suggest {
    type V = SuggestView;

    closed spec fn view(&self) -> SuggestView {
        SuggestView {
            collection: self.collection@,
            bucket: self.bucket@,
            word: self.word@,
            limit: self.limit,
        }
    }
}

impl Suggest {
    /// A suggestion request for `word` under `collection`/`bucket`, with no
    /// limit set.
    pub fn new(collection: String, bucket: String, word: String) -> (s: Suggest)
        ensures
            s@ == (SuggestView {
                collection: collection@,
                bucket: bucket@,
                word: word@,
                limit: None,
            }),
    {
        Suggest { collection, bucket, word, limit: None }
    }

    /// Sets the result limit.
    pub fn limit(&mut self, limit: u64)
        ensures
            final(self)@ == (SuggestView { limit: Some(limit), ..old(self)@ }),
    {
        self.limit = Some(limit);
    }

    /// The command's payload on the wire: collection, bucket, quoted word,
    /// then the optional limit.
    pub fn to_string(&self) -> (s: String)
        ensures
            s@ == spec_suggest_body(self@),
    {
        let mut s = String::new();
        s.append(self.collection.as_str());
        s.append(" ");
        s.append(self.bucket.as_str());
        s.append(" \"");
        s.append(self.word.as_str());
        s.append("\"");
        if let Some(limit) = self.limit {
            s.append(" ");
            let num = u64_to_string(limit);
            s.append(num.as_str());
        }
        proof {
            assert(s@ =~= spec_suggest_body(self@));
        }
        s
    }
}

/// The payload of a `SUGGEST` line.
pub open spec fn spec_suggest_body(s: SuggestView) -> Seq<char> {
    s.collection + " "@ + s.bucket + " \""@ + s.word + "\""@ + spec_opt_num(s.limit)
}

/// Specification-level image of an outbound command.
pub enum SendView {
    Start(Mode, Seq<char>),
    Query(QueryView),
    Push(PushView),
    Ping,
    Suggest(SuggestView),
    Count(CountView),
    Quit,
}

/// An outbound command, one variant per verb the client can send.
#[derive(Debug, PartialEq)]
pub enum Send {
    Start(Mode, String),
    Query(Query),
    Push(Push),
    Ping,
    Suggest(Suggest),
    Count(Count),
    Quit,
}

impl View for Send {
    type V = SendView;

    open spec fn view(&self) -> SendView {
        match self {
            Send::Start(mode, passwd) => SendView::Start(*mode, passwd@),
            Send::Query(q) => SendView::Query(q@),
            Send::Push(p) => SendView::Push(p@),
            Send::Ping => SendView::Ping,
            Send::Suggest(s) => SendView::Suggest(s@),
            Send::Count(c) => SendView::Count(c@),
            Send::Quit => SendView::Quit,
        }
    }
}

/// The exact wire line for a command, CRLF included.
pub open spec fn spec_encode(f: SendView) -> Seq<char> {
    match f {
        SendView::Start(mode, passwd) => "START "@ + mode_token(mode) + " "@ + passwd + "\r\n"@,
        SendView::Query(q) => "QUERY "@ + spec_query_body(q) + "\r\n"@,
        SendView::Push(p) => "PUSH "@ + spec_push_body(p) + "\r\n"@,
        SendView::Ping => "PING\r\n"@,
        SendView::Suggest(s) => "SUGGEST "@ + spec_suggest_body(s) + "\r\n"@,
        SendView::Count(c) => "COUNT "@ + spec_count_body(c) + "\r\n"@,
        SendView::Quit => "QUIT\r\n"@,
    }
}

impl Send {
    /// The full wire line for this command, terminated by CRLF.
    pub fn to_string(&self) -> (s: String)
        ensures
            s@ == spec_encode(self@),
    {
        match self {
            Send::Start(mode, passwd) => {
                let mut s = String::new();
                s.append("START ");
                let tok = mode.to_string();
                s.append(tok.as_str());
                s.append(" ");
                s.append(passwd.as_str());
                s.append("\r\n");
                proof {
                    assert(s@ =~= spec_encode(self@));
                }
                s
            },
            Send::Query(q) => {
                let mut s = String::new();
                s.append("QUERY ");
                let body = q.to_string();
                s.append(body.as_str());
                s.append("\r\n");
                proof {
                    assert(s@ =~= spec_encode(self@));
                }
                s
            },
            Send::Push(p) => {
                let mut s = String::new();
                s.append("PUSH ");
                let body = p.to_string();
                s.append(body.as_str());
                s.append("\r\n");
                proof {
                    assert(s@ =~= spec_encode(self@));
                }
                s
            },
            Send::Ping => "PING\r\n".to_owned(),
            Send::Suggest(sg) => {
                let mut s = String::new();
                s.append("SUGGEST ");
                let body = sg.to_string();
                s.append(body.as_str());
                s.append("\r\n");
                proof {
                    assert(s@ =~= spec_encode(self@));
                }
                s
            },
            Send::Count(c) => {
                let mut s = String::new();
                s.append("COUNT ");
                let body = c.to_string();
                s.append(body.as_str());
                s.append("\r\n");
                proof {
                    assert(s@ =~= spec_encode(self@));
                }
                s
            },
            Send::Quit => "QUIT\r\n".to_owned(),
        }
    }
}

} // verus!
