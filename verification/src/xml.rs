//! WebDAV multistatus documents: reading one with the `quick_xml` event reader and
//! writing one.
use vstd::prelude::*;
use quick_xml::events::Event;
use crate::proppatch::escaped;
use crate::text::{concat2, str_eq, to_owned};

verus! {

/// The WebDAV XML namespace.
pub const DAV_NS: &'static str = "DAV:";

/// The Subversion XML namespace.
pub const SVN_NS: &'static str = "http://subversion.tigris.org/xmlns/dav/";

// ─────────────────────────── the document ───────────────────────────

/// A property of a propstat element.
#[derive(Debug, Clone)]
pub struct Property {
    pub name: String,
    pub value: Option<String>,
    pub namespace: Option<String>,
}

/// A propstat element: properties and the status they share.
#[derive(Debug, Clone)]
pub struct PropStat {
    pub props: Vec<Property>,
    pub status: String,
}

/// A response element: a resource and its propstats.
#[derive(Debug, Clone)]
pub struct Response {
    pub href: String,
    pub propstats: Vec<PropStat>,
}

/// A multistatus document.
#[derive(Debug, Clone)]
pub struct Multistatus {
    pub responses: Vec<Response>,
}

/// What reading or writing a document can fail with.
#[derive(Debug, Clone)]
pub enum XmlError {
    Parse(String),
    Serialization(String),
    InvalidStructure(String),
}

/// A property as text.
pub struct PropertyView {
    pub name: Seq<char>,
    pub value: Option<Seq<char>>,
    pub namespace: Option<Seq<char>>,
}

/// A propstat as text.
pub struct PropStatView {
    pub props: Seq<PropertyView>,
    pub status: Seq<char>,
}

/// A response as text.
pub struct ResponseView {
    pub href: Seq<char>,
    pub propstats: Seq<PropStatView>,
}

/// The text of an optional string.
pub open spec fn opt_text(s: Option<String>) -> Option<Seq<char>> {
    match s {
        Some(t) => Some(t@),
        None => None,
    }
}

impl View for Property {
    type V = PropertyView;

    open spec fn view(&self) -> PropertyView {
        PropertyView { name: self.name@, value: opt_text(self.value), namespace: opt_text(self.namespace) }
    }
}

impl View for PropStat {
    type V = PropStatView;

    open spec fn view(&self) -> PropStatView {
        PropStatView { props: self.props@.map_values(|p: Property| p@), status: self.status@ }
    }
}

impl View for Response {
    type V = ResponseView;

    open spec fn view(&self) -> ResponseView {
        ResponseView { href: self.href@, propstats: self.propstats@.map_values(|p: PropStat| p@) }
    }
}

impl View for Multistatus {
    type V = Seq<ResponseView>;

    open spec fn view(&self) -> Seq<ResponseView> {
        self.responses@.map_values(|r: Response| r@)
    }
}

/// The message an error carries.
pub open spec fn error_text(e: XmlError) -> Seq<char> {
    match e {
        XmlError::Parse(m) => "Parse error: "@ + m@,
        XmlError::Serialization(m) => "Serialization error: "@ + m@,
        XmlError::InvalidStructure(m) => "Invalid XML structure: "@ + m@,
    }
}

impl XmlError {
    /// The message of the error, as its display shows it.
    pub fn message(&self) -> (s: String)
        ensures
            s@ == error_text(*self),
    {
        match self {
            XmlError::Parse(m) => concat2("Parse error: ", m.as_str()),
            XmlError::Serialization(m) => concat2("Serialization error: ", m.as_str()),
            XmlError::InvalidStructure(m) => concat2("Invalid XML structure: ", m.as_str()),
        }
    }
}

// ─────────────────────────── writing ───────────────────────────

/// `quick_xml::escape::escape`: the text with `<`, `>`, `&`, `'` and `"` replaced by
/// their entities, which is how `BytesText::new` and attribute values are written.
#[verifier::external_body]
fn xml_escape(s: &str) -> (r: String)
    ensures
        r@ == escaped(s@),
{
    quick_xml::escape::escape(s).into_owned()
}

/// The XML of a propstat: an empty prop element and the escaped status.
pub open spec fn propstat_xml(p: PropStatView) -> Seq<char> {
    "<D:propstat><D:prop></D:prop><D:status>"@ + escaped(p.status) + "</D:status></D:propstat>"@
}

/// The XML of the first `n` propstats.
pub open spec fn propstats_xml(ps: Seq<PropStatView>) -> Seq<char>
    decreases ps.len(),
{
    if ps.len() == 0 {
        Seq::empty()
    } else {
        propstats_xml(ps.drop_last()) + propstat_xml(ps.last())
    }
}

/// The XML of a response: the escaped href, then its propstats.
pub open spec fn response_xml(r: ResponseView) -> Seq<char> {
    "<D:response><D:href>"@ + escaped(r.href) + "</D:href>"@ + propstats_xml(r.propstats)
        + "</D:response>"@
}

/// The XML of a sequence of responses.
pub open spec fn responses_xml(rs: Seq<ResponseView>) -> Seq<char>
    decreases rs.len(),
{
    if rs.len() == 0 {
        Seq::empty()
    } else {
        responses_xml(rs.drop_last()) + response_xml(rs.last())
    }
}

/// The start tag of a multistatus document, with both namespaces declared.
pub open spec fn multistatus_open() -> Seq<char> {
    "<D:multistatus xmlns:D=\""@ + DAV_NS@ + "\" xmlns:svn=\""@ + SVN_NS@ + "\">"@
}

/// The XML of a multistatus document.
pub open spec fn multistatus_xml(rs: Seq<ResponseView>) -> Seq<char> {
    multistatus_open() + responses_xml(rs) + "</D:multistatus>"@
}

impl PropStat {
    /// An empty propstat.
    pub fn new() -> (p: PropStat)
        ensures
            p@ == (PropStatView { props: Seq::empty(), status: Seq::empty() }),
    {
        let p = PropStat { props: Vec::new(), status: String::new() };
        assert(p@.props =~= Seq::empty());
        assert(p@.status =~= Seq::empty());
        p
    }

    /// Appends the XML of the propstat to `out`.
    pub fn write_xml(&self, out: &mut String) -> (r: Result<(), XmlError>)
        ensures
            r is Ok,
            final(out)@ == old(out)@ + propstat_xml(self@),
    {
        out.append("<D:propstat>");
        out.append("<D:prop></D:prop>");
        out.append("<D:status>");
        let s = xml_escape(self.status.as_str());
        out.append(s.as_str());
        out.append("</D:status>");
        out.append("</D:propstat>");
        proof {
            reveal_strlit("<D:propstat><D:prop></D:prop><D:status>");
            reveal_strlit("<D:propstat>");
            reveal_strlit("<D:prop></D:prop>");
            reveal_strlit("<D:status>");
            reveal_strlit("</D:status></D:propstat>");
            reveal_strlit("</D:status>");
            reveal_strlit("</D:propstat>");
            assert(out@ =~= old(out)@ + propstat_xml(self@));
        }
        Ok(())
    }
}

impl Response {
    /// An empty response.
    pub fn new() -> (r: Response)
        ensures
            r@ == (ResponseView { href: Seq::empty(), propstats: Seq::empty() }),
    {
        let r = Response { href: String::new(), propstats: Vec::new() };
        assert(r@.href =~= Seq::empty());
        assert(r@.propstats =~= Seq::empty());
        r
    }

    /// Appends the XML of the response to `out`.
    pub fn write_xml(&self, out: &mut String) -> (r: Result<(), XmlError>)
        ensures
            r is Ok,
            final(out)@ == old(out)@ + response_xml(self@),
    {
        out.append("<D:response>");
        out.append("<D:href>");
        let h = xml_escape(self.href.as_str());
        out.append(h.as_str());
        out.append("</D:href>");
        let ghost head = out@;
        let mut i: usize = 0;
        while i < self.propstats.len()
            invariant
                i <= self.propstats@.len(),
                out@ == head + propstats_xml(self@.propstats.subrange(0, i as int)),
            decreases self.propstats@.len() - i,
        {
            let ghost before = out@;
            let _ = self.propstats[i].write_xml(out);
            proof {
                let t = self@.propstats.subrange(0, i + 1);
                assert(t.drop_last() =~= self@.propstats.subrange(0, i as int));
                assert(t.last() == self.propstats@[i as int]@);
                assert(out@ =~= before + propstat_xml(t.last()));
            }
            i = i + 1;
        }
        out.append("</D:response>");
        proof {
            assert(self@.propstats.subrange(0, self@.propstats.len() as int) =~= self@.propstats);
            reveal_strlit("<D:response><D:href>");
            reveal_strlit("<D:response>");
            reveal_strlit("<D:href>");
            reveal_strlit("</D:href>");
            reveal_strlit("</D:response>");
            assert(out@ =~= old(out)@ + response_xml(self@));
        }
        Ok(())
    }
}

impl Multistatus {
    /// An empty document.
    pub fn new() -> (m: Multistatus)
        ensures
            m@ == Seq::<ResponseView>::empty(),
    {
        let m = Multistatus { responses: Vec::new() };
        assert(m@ =~= Seq::<ResponseView>::empty());
        m
    }

    /// The XML of the document; writing to memory does not fail.
    pub fn to_xml(&self) -> (r: Result<String, XmlError>)
        ensures
            r matches Ok(x) && x@ == multistatus_xml(self@),
    {
        let mut out = to_owned("<D:multistatus xmlns:D=\"");
        out.append(DAV_NS);
        out.append("\" xmlns:svn=\"");
        out.append(SVN_NS);
        out.append("\">");
        let ghost head = out@;
        let mut i: usize = 0;
        while i < self.responses.len()
            invariant
                i <= self@.len(),
                self@.len() == self.responses@.len(),
                out@ == head + responses_xml(self@.subrange(0, i as int)),
            decreases self@.len() - i,
        {
            let ghost before = out@;
            let _ = self.responses[i].write_xml(&mut out);
            proof {
                let t = self@.subrange(0, i + 1);
                assert(t.drop_last() =~= self@.subrange(0, i as int));
                assert(t.last() == self.responses@[i as int]@);
                assert(out@ =~= before + response_xml(t.last()));
            }
            i = i + 1;
        }
        out.append("</D:multistatus>");
        proof {
            assert(self@.subrange(0, self@.len() as int) =~= self@);
            assert(out@ =~= multistatus_xml(self@));
        }
        Ok(out)
    }
}


// ─────────────────────────── reading ───────────────────────────

#[verifier::external_type_specification]
#[verifier::external_body]
#[verifier::reject_recursive_types(R)]
pub struct ExXmlReader<R>(quick_xml::Reader<R>);

/// An event of the reader, as far as reading a multistatus document tells events
/// apart: start and end tags by their qualified name, text as it stands in the
/// document (entities not yet replaced), the end of the input, and anything else.
#[derive(Debug, Clone)]
pub enum XmlEvent {
    Start(String),
    End(String),
    Text(String),
    Eof,
    Other,
}

/// What the event that comes next is read for: an href or status text that the
/// last start tag asked for, or nothing in particular.
#[derive(Debug, Clone, Copy, PartialEq, Eq, Structural)]
pub enum Awaiting {
    Nothing,
    Href,
    Status,
}

/// The message for text whose entities or character references do not resolve.
pub const ESCAPE_FAILURE: &'static str = "invalid entity or character reference in text";

/// The `i`-th event (counting from 0) that the `quick_xml` reader gives of the text,
/// read from a string with text trimming on: a function of the text alone.
pub uninterp spec fn xml_event(text: Seq<char>, i: nat) -> Result<XmlEvent, String>;

/// The events of a document, read one after the other.
pub struct XmlEvents<'a> {
    reader: quick_xml::Reader<&'a [u8]>,
    text: Ghost<Seq<char>>,
    read: Ghost<nat>,
}

impl<'a> XmlEvents<'a> {
    /// The document being read.
    pub closed spec fn text(&self) -> Seq<char> {
        self.text@
    }

    /// How many events have been read.
    pub closed spec fn read(&self) -> nat {
        self.read@
    }

    /// `quick_xml::Reader::from_str` with `Config::trim_text(true)`: whitespace around
    /// text is dropped, and text that is only whitespace yields no event.
    #[verifier::external_body]
    pub fn open(xml: &'a str) -> (r: XmlEvents<'a>)
        ensures
            r.text() == xml@,
            r.read() == 0,
    {
        let mut reader = quick_xml::Reader::from_str(xml);
        reader.config_mut().trim_text(true);
        XmlEvents { reader, text: Ghost(xml@), read: Ghost(0) }
    }

    /// `Reader::read_event_into`: the next event, tags by their qualified name and
    /// text as it stands in the document, or the reader's error as text.
    #[verifier::external_body]
    pub fn next(&mut self) -> (e: Result<XmlEvent, String>)
        ensures
            final(self).text() == old(self).text(),
            final(self).read() == old(self).read() + 1,
            e == xml_event(old(self).text(), old(self).read()),
    {
        let mut buf = Vec::new();
        self.read = Ghost(self.read@ + 1);
        match self.reader.read_event_into(&mut buf) {
            Ok(Event::Start(e)) => Ok(XmlEvent::Start(String::from_utf8_lossy(e.name().as_ref()).into_owned())),
            Ok(Event::End(e)) => Ok(XmlEvent::End(String::from_utf8_lossy(e.name().as_ref()).into_owned())),
            Ok(Event::Text(t)) => Ok(XmlEvent::Text(String::from_utf8_lossy(&t).into_owned())),
            Ok(Event::Eof) => Ok(XmlEvent::Eof),
            Ok(_) => Ok(XmlEvent::Other),
            Err(e) => Err(e.to_string()),
        }
    }
}

/// What `quick_xml::escape::unescape` makes of a text: `None` where an entity or a
/// character reference does not resolve.
pub uninterp spec fn xml_unescaped(s: Seq<char>) -> Option<Seq<char>>;

/// `quick_xml::escape::unescape`, which `BytesText::unescape` applies to the text of
/// a UTF-8 document: the result is named by `xml_unescaped`; a text without `&` comes
/// back as it is.
#[verifier::external_body]
fn xml_unescape(s: &str) -> (r: Option<String>)
    ensures
        opt_text(r) == xml_unescaped(s@),
        !s@.contains('&') ==> opt_text(r) == Some(s@),
{
    match quick_xml::escape::unescape(s) {
        Ok(c) => Some(c.into_owned()),
        Err(_) => None,
    }
}

/// What the parse has seen so far.
pub struct ParserView {
    pub responses: Seq<ResponseView>,
    pub response: Option<ResponseView>,
    pub propstat: Option<PropStatView>,
    pub in_prop: bool,
    pub awaiting: Awaiting,
}

/// The state before the first event.
pub open spec fn start_state() -> ParserView {
    ParserView {
        responses: Seq::empty(),
        response: None,
        propstat: None,
        in_prop: false,
        awaiting: Awaiting::Nothing,
    }
}

/// Whether a tag name is `D:<local>` or `<local>` for the given pair.
pub open spec fn named(n: Seq<char>, qualified: Seq<char>, local: Seq<char>) -> bool {
    n == qualified || n == local
}

/// The state after a start tag.
pub open spec fn on_start(p: ParserView, n: Seq<char>) -> ParserView {
    if named(n, "D:response"@, "response"@) {
        ParserView { response: Some(ResponseView { href: Seq::empty(), propstats: Seq::empty() }), ..p }
    } else if named(n, "D:propstat"@, "propstat"@) {
        ParserView { propstat: Some(PropStatView { props: Seq::empty(), status: Seq::empty() }), ..p }
    } else if named(n, "D:prop"@, "prop"@) {
        ParserView { in_prop: true, ..p }
    } else if named(n, "D:href"@, "href"@) {
        if p.response is Some { ParserView { awaiting: Awaiting::Href, ..p } } else { p }
    } else if named(n, "D:status"@, "status"@) {
        if p.propstat is Some { ParserView { awaiting: Awaiting::Status, ..p } } else { p }
    } else {
        p
    }
}

/// The state after an end tag: a closed response joins the document, a closed
/// propstat joins the open response.
pub open spec fn on_end(p: ParserView, n: Seq<char>) -> ParserView {
    if named(n, "D:response"@, "response"@) {
        match p.response {
            Some(r) => ParserView { responses: p.responses.push(r), response: None, ..p },
            None => p,
        }
    } else if named(n, "D:propstat"@, "propstat"@) {
        match (p.response, p.propstat) {
            (Some(r), Some(ps)) => ParserView {
                response: Some(ResponseView { propstats: r.propstats.push(ps), ..r }),
                propstat: None,
                ..p
            },
            _ => p,
        }
    } else if named(n, "D:prop"@, "prop"@) {
        ParserView { in_prop: false, ..p }
    } else {
        p
    }
}

/// One event: the next state, and the outcome where the event ends the parse (the
/// responses at the end of the input, the message of an error).
pub open spec fn step(p: ParserView, ev: Result<XmlEvent, String>) -> (ParserView, Option<Result<Seq<ResponseView>, Seq<char>>>) {
    let idle = ParserView { awaiting: Awaiting::Nothing, ..p };
    if p.awaiting == Awaiting::Href {
        match ev {
            Ok(XmlEvent::Text(t)) => match xml_unescaped(t@) {
                Some(u) => (ParserView {
                    response: match p.response {
                        Some(r) => Some(ResponseView { href: u, ..r }),
                        None => None,
                    },
                    ..idle
                }, None),
                None => (idle, Some(Err(ESCAPE_FAILURE@))),
            },
            _ => (idle, None),
        }
    } else if p.awaiting == Awaiting::Status {
        match ev {
            Ok(XmlEvent::Text(t)) => match xml_unescaped(t@) {
                Some(u) => (ParserView {
                    propstat: match p.propstat {
                        Some(ps) => Some(PropStatView { status: u, ..ps }),
                        None => None,
                    },
                    ..idle
                }, None),
                None => (idle, Some(Err(ESCAPE_FAILURE@))),
            },
            _ => (idle, None),
        }
    } else {
        match ev {
            Err(m) => (p, Some(Err(m@))),
            Ok(XmlEvent::Eof) => (p, Some(Ok(p.responses))),
            Ok(XmlEvent::Start(n)) => (on_start(p, n@), None),
            Ok(XmlEvent::End(n)) => (on_end(p, n@), None),
            Ok(_) => (p, None),
        }
    }
}

/// The outcome of a sequence of events: that of the first event that ends the
/// parse, else the responses gathered when the events run out.
pub open spec fn run(p: ParserView, evs: Seq<Result<XmlEvent, String>>) -> Result<Seq<ResponseView>, Seq<char>>
    decreases evs.len(),
{
    if evs.len() == 0 {
        Ok(p.responses)
    } else {
        match step(p, evs[0]).1 {
            Some(o) => o,
            None => run(step(p, evs[0]).0, evs.drop_first()),
        }
    }
}

/// The state after a sequence of events.
pub open spec fn after(p: ParserView, evs: Seq<Result<XmlEvent, String>>) -> ParserView
    decreases evs.len(),
{
    if evs.len() == 0 {
        p
    } else {
        after(step(p, evs[0]).0, evs.drop_first())
    }
}

/// Whether no event of the sequence ends the parse.
pub open spec fn live(p: ParserView, evs: Seq<Result<XmlEvent, String>>) -> bool
    decreases evs.len(),
{
    evs.len() == 0 || (step(p, evs[0]).1 is None && live(step(p, evs[0]).0, evs.drop_first()))
}

/// Whether a result is the outcome: the document with those responses, or a parse
/// error with that message.
pub open spec fn outcome_is(r: Result<Multistatus, XmlError>, o: Result<Seq<ResponseView>, Seq<char>>) -> bool {
    match o {
        Ok(v) => r matches Ok(m) && m@ == v,
        Err(e) => r matches Err(XmlError::Parse(m)) && m@ == e,
    }
}

/// One more event after a sequence that has not ended the parse.
proof fn lemma_run_push(p: ParserView, evs: Seq<Result<XmlEvent, String>>, e: Result<XmlEvent, String>)
    requires
        live(p, evs),
    ensures
        after(p, evs.push(e)) == step(after(p, evs), e).0,
        live(p, evs.push(e)) == (step(after(p, evs), e).1 is None),
        run(p, evs.push(e)) == match step(after(p, evs), e).1 {
            Some(o) => o,
            None => Ok(step(after(p, evs), e).0.responses),
        },
    decreases evs.len(),
{
    if evs.len() == 0 {
        reveal_with_fuel(after, 2);
        reveal_with_fuel(live, 2);
        reveal_with_fuel(run, 2);
        assert(evs.push(e).drop_first() =~= Seq::<Result<XmlEvent, String>>::empty());
        assert(evs.push(e)[0] == e);
    } else {
        assert(evs.push(e).drop_first() =~= evs.drop_first().push(e));
        assert(evs.push(e)[0] == evs[0]);
        lemma_run_push(step(p, evs[0]).0, evs.drop_first(), e);
    }
}

/// A sequence that has not ended the parse yields the responses gathered.
proof fn lemma_run_live(p: ParserView, evs: Seq<Result<XmlEvent, String>>)
    requires
        live(p, evs),
    ensures
        run(p, evs) == Ok::<Seq<ResponseView>, Seq<char>>(after(p, evs).responses),
    decreases evs.len(),
{
    if evs.len() > 0 {
        lemma_run_live(step(p, evs[0]).0, evs.drop_first());
    }
}

/// The parse of a multistatus document, one event at a time.
pub struct MultistatusParser {
    pub multistatus: Multistatus,
    pub response: Option<Response>,
    pub propstat: Option<PropStat>,
    pub in_prop: bool,
    pub awaiting: Awaiting,
}

impl View for MultistatusParser {
    type V = ParserView;

    open spec fn view(&self) -> ParserView {
        ParserView {
            responses: self.multistatus@,
            response: match self.response {
                Some(r) => Some(r@),
                None => None,
            },
            propstat: match self.propstat {
                Some(ps) => Some(ps@),
                None => None,
            },
            in_prop: self.in_prop,
            awaiting: self.awaiting,
        }
    }
}

impl MultistatusParser {
    /// A parse that has seen nothing.
    pub fn new() -> (p: MultistatusParser)
        ensures
            p@ == start_state(),
    {
        MultistatusParser {
            multistatus: Multistatus::new(),
            response: None,
            propstat: None,
            in_prop: false,
            awaiting: Awaiting::Nothing,
        }
    }

    fn start(&mut self, n: &str)
        requires
            old(self).awaiting == Awaiting::Nothing,
        ensures
            final(self)@ == on_start(old(self)@, n@),
    {
        if str_eq(n, "D:response") || str_eq(n, "response") {
            self.response = Some(Response::new());
        } else if str_eq(n, "D:propstat") || str_eq(n, "propstat") {
            self.propstat = Some(PropStat::new());
        } else if str_eq(n, "D:prop") || str_eq(n, "prop") {
            self.in_prop = true;
        } else if str_eq(n, "D:href") || str_eq(n, "href") {
            if self.response.is_some() {
                self.awaiting = Awaiting::Href;
            }
        } else if str_eq(n, "D:status") || str_eq(n, "status") {
            if self.propstat.is_some() {
                self.awaiting = Awaiting::Status;
            }
        }
    }

    fn end(&mut self, n: &str)
        ensures
            final(self)@ == on_end(old(self)@, n@),
    {
        if str_eq(n, "D:response") || str_eq(n, "response") {
            match self.response.take() {
                Some(r) => {
                    let ghost before = self.multistatus@;
                    self.multistatus.responses.push(r);
                    assert(self.multistatus@ =~= before.push(r@));
                },
                None => {},
            }
        } else if str_eq(n, "D:propstat") || str_eq(n, "propstat") {
            match self.response.take() {
                Some(mut r) => {
                    match self.propstat.take() {
                        Some(ps) => {
                            let ghost before = r@.propstats;
                            r.propstats.push(ps);
                            assert(r@.propstats =~= before.push(ps@));
                        },
                        None => {},
                    }
                    self.response = Some(r);
                },
                None => {},
            }
        } else if str_eq(n, "D:prop") || str_eq(n, "prop") {
            self.in_prop = false;
        }
    }

    /// Takes one event: `None` while the parse goes on, `Some(Ok(()))` at the end of
    /// the input, and the error where the event is one.
    pub fn feed(&mut self, ev: Result<XmlEvent, String>) -> (r: Option<Result<(), XmlError>>)
        ensures
            final(self)@ == step(old(self)@, ev).0,
            match step(old(self)@, ev).1 {
                None => r is None,
                Some(Ok(_)) => r == Some(Ok::<(), XmlError>(())),
                Some(Err(m)) => r matches Some(Err(XmlError::Parse(x))) && x@ == m,
            },
    {
        match self.awaiting {
            Awaiting::Href => {
                self.awaiting = Awaiting::Nothing;
                match ev {
                    Ok(XmlEvent::Text(t)) => match xml_unescape(t.as_str()) {
                        Some(u) => {
                            match self.response.take() {
                                Some(mut r) => {
                                    r.href = u;
                                    self.response = Some(r);
                                },
                                None => {},
                            }
                            None
                        },
                        None => Some(Err(XmlError::Parse(to_owned(ESCAPE_FAILURE)))),
                    },
                    _ => None,
                }
            },
            Awaiting::Status => {
                self.awaiting = Awaiting::Nothing;
                match ev {
                    Ok(XmlEvent::Text(t)) => match xml_unescape(t.as_str()) {
                        Some(u) => {
                            match self.propstat.take() {
                                Some(mut ps) => {
                                    ps.status = u;
                                    self.propstat = Some(ps);
                                },
                                None => {},
                            }
                            None
                        },
                        None => Some(Err(XmlError::Parse(to_owned(ESCAPE_FAILURE)))),
                    },
                    _ => None,
                }
            },
            Awaiting::Nothing => match ev {
                Err(m) => Some(Err(XmlError::Parse(m))),
                Ok(XmlEvent::Eof) => Some(Ok(())),
                Ok(XmlEvent::Start(n)) => {
                    self.start(n.as_str());
                    None
                },
                Ok(XmlEvent::End(n)) => {
                    self.end(n.as_str());
                    None
                },
                Ok(_) => None,
            },
        }
    }

    /// The document gathered so far.
    pub fn into_multistatus(self) -> (m: Multistatus)
        ensures
            m@ == self@.responses,
    {
        self.multistatus
    }
}

/// The outcome of a sequence of reader events, as `parse_multistatus` takes them:
/// exactly `run` from the start state.
pub fn multistatus_of_events(events: Vec<Result<XmlEvent, String>>) -> (r: Result<Multistatus, XmlError>)
    ensures
        outcome_is(r, run(start_state(), events@)),
{
    let ghost all = events@;
    let mut rest = events;
    let mut p = MultistatusParser::new();
    let ghost mut seen: Seq<Result<XmlEvent, String>> = Seq::empty();
    while rest.len() > 0
        invariant
            all == events@,
            seen + rest@ == all,
            live(start_state(), seen),
            after(start_state(), seen) == p@,
        decreases rest@.len(),
    {
        let ev = rest.remove(0);
        let ghost e = ev;
        proof {
            lemma_run_push(start_state(), seen, e);
        }
        let d = p.feed(ev);
        proof {
            assert(seen.push(e) + rest@ =~= all);
            seen = seen.push(e);
        }
        match d {
            Some(Ok(())) => {
                let m = p.into_multistatus();
                assert(outcome_is(Ok(m), run(start_state(), seen)));
                proof {
                    lemma_run_prefix(start_state(), seen, rest@);
                }
                return Ok(m);
            },
            Some(Err(x)) => {
                assert(outcome_is(Err(x), run(start_state(), seen)));
                proof {
                    lemma_run_prefix(start_state(), seen, rest@);
                }
                return Err(x);
            },
            None => {},
        }
    }
    proof {
        assert(seen =~= all);
        lemma_run_live(start_state(), seen);
    }
    Ok(p.into_multistatus())
}

/// Events after the one that ended the parse change nothing.
proof fn lemma_run_prefix(p: ParserView, evs: Seq<Result<XmlEvent, String>>, more: Seq<Result<XmlEvent, String>>)
    requires
        evs.len() > 0,
        !live(p, evs),
    ensures
        run(p, evs + more) == run(p, evs),
    decreases evs.len(),
{
    assert((evs + more)[0] == evs[0]);
    if step(p, evs[0]).1 is None {
        assert((evs + more).drop_first() =~= evs.drop_first() + more);
        lemma_run_prefix(step(p, evs[0]).0, evs.drop_first(), more);
    }
}

/// How many events `parse_multistatus` asks the reader for at most, for a document of
/// `n` bytes: each event but the end of the input takes at least one byte, and after
/// an ignored error or end at most one more event is read before the parse ends.
pub open spec fn event_limit(n: usize) -> nat {
    if n < 0x1000_0000 { (2 * n + 4) as nat } else { usize::MAX as nat }
}

/// The first `k` events the reader gives of a text.
pub open spec fn xml_events(text: Seq<char>, k: nat) -> Seq<Result<XmlEvent, String>> {
    Seq::new(k, |i: int| xml_event(text, i as nat))
}

/// Reads a multistatus document with the `quick_xml` reader, text trimmed: the
/// outcome is `run` from the start state on the reader's events of the document.
pub fn parse_multistatus(xml: &str) -> (r: Result<Multistatus, XmlError>)
    ensures
        outcome_is(r, run(start_state(), xml_events(xml@, event_limit(xml.len())))),
{
    let mut events = XmlEvents::open(xml);
    let mut p = MultistatusParser::new();
    let ghost mut seen: Seq<Result<XmlEvent, String>> = Seq::empty();
    let n: usize = xml.len();
    let limit: usize = if n < 0x1000_0000 { 2 * n + 4 } else { usize::MAX };
    assert(limit as nat == event_limit(xml.len()));
    let ghost all = xml_events(xml@, limit as nat);
    let mut count: usize = 0;
    while count < limit
        invariant
            count <= limit,
            limit as nat == event_limit(xml.len()),
            all == xml_events(xml@, limit as nat),
            events.text() == xml@,
            events.read() == count,
            seen == xml_events(xml@, count as nat),
            live(start_state(), seen),
            after(start_state(), seen) == p@,
        decreases limit - count,
    {
        let ev = events.next();
        let ghost e = ev;
        proof {
            lemma_run_push(start_state(), seen, e);
        }
        let d = p.feed(ev);
        proof {
            seen = seen.push(e);
            assert(seen =~= xml_events(xml@, (count + 1) as nat));
            assert(seen + all.subrange(count + 1, limit as int) =~= all);
        }
        match d {
            Some(Ok(())) => {
                let m = p.into_multistatus();
                assert(outcome_is(Ok(m), run(start_state(), seen)));
                proof {
                    lemma_run_prefix(start_state(), seen, all.subrange(count + 1, limit as int));
                }
                return Ok(m);
            },
            Some(Err(x)) => {
                assert(outcome_is(Err(x), run(start_state(), seen)));
                proof {
                    lemma_run_prefix(start_state(), seen, all.subrange(count + 1, limit as int));
                }
                return Err(x);
            },
            None => {},
        }
        count = count + 1;
    }
    proof {
        lemma_run_live(start_state(), seen);
        assert(seen =~= all);
    }
    let m = p.into_multistatus();
    assert(outcome_is(Ok(m), run(start_state(), seen)));
    Ok(m)
}

} // verus!
