//! The XML transport of the codec. The quick-xml crate parses and writes
//! the markup; everything it is trusted for is stated on the small wrappers
//! in this file, and all decisions about the events stay in verified code.
use crate::codec::{
    capture, fatal_field, read_from_events, read_model, read_warnings, spec_save_events,
    save_events, ValidationError, Warning,
};
use crate::descriptor::{wf, MapDescriptor};
use crate::events::{recognize, spec_recognize, tag_name, tag_text, EvSpec, Tag, XmlEvent};
use quick_xml::events::{BytesEnd, BytesStart, BytesText, Event};
use vstd::prelude::*;

verus! {

/// Why a read failed: the document was not well-formed markup, or a
/// validation rule rejected it.
#[derive(Debug)]
pub enum ReadError {
    Xml,
    Invalid(ValidationError),
}

/// One event as the transport reports it, reduced to plain values; tag
/// names stay as raw bytes until verified code decodes them.
pub enum RawEvent {
    Start(Vec<u8>),
    Empty(Vec<u8>),
    End,
    Text(String),
    Other,
    Eof,
}

/// The mathematical value of one reported event. `Error` stands for a call
/// on which the transport reports a failure instead of an event.
pub enum RawEvSpec {
    Start(Seq<u8>),
    Empty(Seq<u8>),
    End,
    Text(Seq<char>),
    Other,
    Eof,
    Error,
}

/// The event the transport reports for document `s` on its `i`-th call.
/// The reader walks an in-memory slice, so this is a function of the
/// document text and the call position alone.
pub uninterp spec fn doc_event_at(s: Seq<char>, i: int) -> RawEvSpec;

/// The document a reader was opened on.
pub uninterp spec fn reader_doc(r: quick_xml::Reader<&[u8]>) -> Seq<char>;

/// How many events a reader has already delivered.
pub uninterp spec fn reader_pos(r: quick_xml::Reader<&[u8]>) -> int;

pub open spec fn is_terminal(e: RawEvSpec) -> bool {
    e is Eof || e is Error
}

#[verifier::external_type_specification]
#[verifier::external_body]
#[verifier::reject_recursive_types(R)]
pub struct ExReader<R>(quick_xml::Reader<R>);

#[verifier::external_type_specification]
#[verifier::external_body]
#[verifier::reject_recursive_types(W)]
pub struct ExWriter<W>(quick_xml::Writer<W>);

/// Relies on quick_xml's `Reader::from_str`: a reader over the document,
/// positioned before its first event. The reader consumes at least one
/// byte of the slice for every event it delivers before reporting end of
/// file or an error, so a terminal call comes within the document's length
/// plus one, well under the stated bound.
#[verifier::external_body]
fn reader_from_str<'a>(s: &'a str) -> (r: quick_xml::Reader<&'a [u8]>)
    ensures
        reader_doc(r) == s@,
        reader_pos(r) == 0,
        exists|n: int|
            0 <= n <= 2 * reader_doc(r).len() + 2 && is_terminal(
                #[trigger] doc_event_at(reader_doc(r), n),
            ),
{
    quick_xml::Reader::from_str(s)
}

/// Relies on quick_xml's `Reader::read_event`: the document's next markup
/// event, which is a deterministic function of the document and of how many
/// events came before, named `doc_event_at`. Text is unescaped by
/// `BytesText::unescape`; a failure of the parse or of the unescape is the
/// `Error` outcome. A non-terminal event consumes input, so the reader
/// value advances past it.
#[verifier::external_body]
fn read_next<'a>(r: &mut quick_xml::Reader<&'a [u8]>) -> (res: Result<RawEvent, ()>)
    ensures
        reader_doc(*final(r)) == reader_doc(*old(r)),
        !is_terminal(doc_event_at(reader_doc(*old(r)), reader_pos(*old(r)))) ==> reader_pos(
            *final(r),
        ) == reader_pos(*old(r)) + 1,
        match doc_event_at(reader_doc(*old(r)), reader_pos(*old(r))) {
            RawEvSpec::Start(n) => res matches Ok(RawEvent::Start(v)) && v@ == n,
            RawEvSpec::Empty(n) => res matches Ok(RawEvent::Empty(v)) && v@ == n,
            RawEvSpec::End => res matches Ok(RawEvent::End),
            RawEvSpec::Text(t) => res matches Ok(RawEvent::Text(x)) && x@ == t,
            RawEvSpec::Other => res matches Ok(RawEvent::Other),
            RawEvSpec::Eof => res matches Ok(RawEvent::Eof),
            RawEvSpec::Error => res is Err,
        },
{
    match r.read_event() {
        Ok(Event::Start(e)) => Ok(RawEvent::Start(e.name().as_ref().to_vec())),
        Ok(Event::Empty(e)) => Ok(RawEvent::Empty(e.name().as_ref().to_vec())),
        Ok(Event::End(_)) => Ok(RawEvent::End),
        Ok(Event::Text(t)) => match t.unescape() {
            Ok(c) => Ok(RawEvent::Text(c.into_owned())),
            Err(_) => Err(()),
        },
        Ok(Event::Eof) => Ok(RawEvent::Eof),
        Ok(_) => Ok(RawEvent::Other),
        Err(_) => Err(()),
    }
}

/// Relies on std's `String::from_utf8`: `Some` exactly when the bytes are
/// valid UTF-8, and then the string is their decoding.
#[verifier::external_body]
fn string_from_utf8(v: Vec<u8>) -> (r: Option<String>)
    ensures
        r is Some <==> vstd::utf8::valid_utf8(v@),
        r matches Some(s) ==> s@ == vstd::utf8::decode_utf8(v@),
{
    String::from_utf8(v).ok()
}

/// The bytes a writer has accumulated.
pub uninterp spec fn writer_bytes(w: quick_xml::Writer<Vec<u8>>) -> Seq<u8>;

pub open spec fn ascii_seq(s: Seq<char>) -> bool {
    forall|i: int| 0 <= i < s.len() ==> #[trigger] (s[i] as u32) < 128
}

pub open spec fn ascii_bytes(s: Seq<char>) -> Seq<u8> {
    s.map_values(|c: char| c as u8)
}

/// The escaping quick_xml applies to text content: the five XML special
/// characters become entity references, everything else is untouched.
pub open spec fn escape_char(c: char) -> Seq<char> {
    if c == '<' {
        "&lt;"@
    } else if c == '>' {
        "&gt;"@
    } else if c == '&' {
        "&amp;"@
    } else if c == '\'' {
        "&apos;"@
    } else if c == '"' {
        "&quot;"@
    } else {
        seq![c]
    }
}

pub open spec fn escape_text(s: Seq<char>) -> Seq<char>
    decreases s.len(),
{
    if s.len() == 0 {
        Seq::empty()
    } else {
        escape_char(s[0]) + escape_text(s.drop_first())
    }
}

/// Relies on quick_xml's `Writer::new` over a fresh byte vector.
#[verifier::external_body]
fn new_writer() -> (w: quick_xml::Writer<Vec<u8>>)
    ensures
        writer_bytes(w) == Seq::<u8>::empty(),
{
    quick_xml::Writer::new(Vec::new())
}

/// Relies on quick_xml's `Writer::write_event` with a start tag: it appends
/// `<`, the name's bytes, `>`. Writing into a `Vec<u8>` cannot fail, so the
/// result is dropped.
#[verifier::external_body]
fn write_start(w: &mut quick_xml::Writer<Vec<u8>>, name: &str)
    requires
        ascii_seq(name@),
    ensures
        writer_bytes(*final(w)) == writer_bytes(*old(w)) + seq![60u8] + ascii_bytes(name@) + seq![
            62u8,
        ],
{
    let _ = w.write_event(Event::Start(BytesStart::new(name)));
}

/// Relies on quick_xml's `Writer::write_event` with an end tag: it appends
/// `</`, the name's bytes, `>`.
#[verifier::external_body]
fn write_end(w: &mut quick_xml::Writer<Vec<u8>>, name: &str)
    requires
        ascii_seq(name@),
    ensures
        writer_bytes(*final(w)) == writer_bytes(*old(w)) + seq![60u8, 47u8] + ascii_bytes(name@)
            + seq![62u8],
{
    let _ = w.write_event(Event::End(BytesEnd::new(name)));
}

/// Relies on quick_xml's `Writer::write_event` with text built by
/// `BytesText::new`, which escapes the five XML special characters; the
/// writer appends the UTF-8 bytes of the escaped text.
#[verifier::external_body]
fn write_text(w: &mut quick_xml::Writer<Vec<u8>>, t: &str)
    ensures
        writer_bytes(*final(w)) == writer_bytes(*old(w)) + vstd::utf8::encode_utf8(
            escape_text(t@),
        ),
{
    let _ = w.write_event(Event::Text(BytesText::new(t)));
}

/// Relies on quick_xml's `Writer::into_inner`: the accumulated bytes.
#[verifier::external_body]
fn writer_take(w: quick_xml::Writer<Vec<u8>>) -> (r: Vec<u8>)
    ensures
        r@ == writer_bytes(w),
{
    w.into_inner()
}

/// The bytes one event contributes to the document.
pub open spec fn event_bytes(e: EvSpec) -> Seq<u8> {
    match e {
        EvSpec::Start(Some(t)) => seq![60u8] + ascii_bytes(tag_text(t)) + seq![62u8],
        EvSpec::Text(txt) => vstd::utf8::encode_utf8(escape_text(txt)),
        EvSpec::End(Some(t)) => seq![60u8, 47u8] + ascii_bytes(tag_text(t)) + seq![62u8],
        EvSpec::Start(None) => Seq::empty(),
        EvSpec::End(None) => Seq::empty(),
    }
}

pub open spec fn events_bytes(evs: Seq<EvSpec>) -> Seq<u8>
    decreases evs.len(),
{
    if evs.len() == 0 {
        Seq::empty()
    } else {
        events_bytes(evs.drop_last()) + event_bytes(evs.last())
    }
}

/// The whole document a save writes for a descriptor.
pub open spec fn spec_xml_doc(m: crate::descriptor::DescModel) -> Seq<u8> {
    events_bytes(spec_save_events(m))
}

proof fn lemma_tag_ascii(t: Tag)
    ensures
        ascii_seq(tag_text(t)),
{
    reveal_strlit("customMapSource");
    reveal_strlit("name");
    reveal_strlit("minZoom");
    reveal_strlit("maxZoom");
    reveal_strlit("tileType");
    reveal_strlit("tileUpdate");
    reveal_strlit("url");
    reveal_strlit("serverParts");
    reveal_strlit("invertYCoordinate");
    reveal_strlit("coordinatesystem");
    reveal_strlit("lowerCorner");
    reveal_strlit("upperCorner");
    reveal_strlit("expireDays");
    reveal_strlit("backgroundColor");
}

/// Serializes the descriptor to its XML document, the template's tags in
/// their fixed order with the descriptor's texts substituted.
pub fn save_xml(d: &MapDescriptor) -> (r: Vec<u8>)
    requires
        wf(d@),
    ensures
        r@ == spec_xml_doc(d@),
{
    let events = save_events(d);
    let ghost evs = events.deep_view();
    let mut w = new_writer();
    let n = events.len();
    let mut i: usize = 0;
    proof {
        assert(evs.take(0) =~= Seq::<EvSpec>::empty());
    }
    while i < n
        invariant
            0 <= i <= n,
            n == events.len(),
            evs == events.deep_view(),
            evs.len() == n,
            writer_bytes(w) == events_bytes(evs.take(i as int)),
        decreases n - i,
    {
        let ghost pre = writer_bytes(w);
        proof {
            assert(evs.take(i + 1).drop_last() =~= evs.take(i as int));
            assert(evs.take(i + 1).last() == evs[i as int]);
            assert(evs[i as int] == events@[i as int].deep_view());
        }
        match &events[i] {
            XmlEvent::Start(ot) => {
                if let Some(t) = ot {
                    proof {
                        lemma_tag_ascii(*t);
                    }
                    let name = tag_name(*t);
                    write_start(&mut w, name.as_str());
                }
            },
            XmlEvent::Text(txt) => {
                write_text(&mut w, txt.as_str());
            },
            XmlEvent::End(ot) => {
                if let Some(t) = ot {
                    proof {
                        lemma_tag_ascii(*t);
                    }
                    let name = tag_name(*t);
                    write_end(&mut w, name.as_str());
                }
            },
        }
        i = i + 1;
        proof {
            assert(writer_bytes(w) == pre + event_bytes(evs[i - 1]));
        }
    }
    proof {
        assert(evs.take(n as int) =~= evs);
    }
    writer_take(w)
}

/// The recognized tag, if any, behind a raw tag name: decoded when the
/// bytes are UTF-8, looked up in the template's tag table.
pub open spec fn raw_tag(n: Seq<u8>) -> Option<Tag> {
    if vstd::utf8::valid_utf8(n) {
        spec_recognize(vstd::utf8::decode_utf8(n))
    } else {
        None
    }
}

/// The codec events one reported event contributes: tag names resolved, an
/// empty element expanded to a start and an end, structure-only events
/// dropped.
pub open spec fn cook_one(e: RawEvSpec) -> Seq<EvSpec> {
    match e {
        RawEvSpec::Start(n) => seq![EvSpec::Start(raw_tag(n))],
        RawEvSpec::Empty(n) => seq![EvSpec::Start(raw_tag(n)), EvSpec::End(raw_tag(n))],
        RawEvSpec::End => seq![EvSpec::End(None)],
        RawEvSpec::Text(t) => seq![EvSpec::Text(t)],
        RawEvSpec::Other => Seq::empty(),
        RawEvSpec::Eof => Seq::empty(),
        RawEvSpec::Error => Seq::empty(),
    }
}

/// The codec events of the document's first `n` reported events.
pub open spec fn cooked_events(doc: Seq<char>, n: int) -> Seq<EvSpec>
    decreases n,
{
    if n <= 0 {
        Seq::empty()
    } else {
        cooked_events(doc, n - 1) + cook_one(doc_event_at(doc, n - 1))
    }
}

/// The document's event stream reaches end of file at call `n`, without an
/// earlier terminal call.
pub open spec fn doc_scan_ends_at(doc: Seq<char>, n: int) -> bool {
    &&& 0 <= n
    &&& doc_event_at(doc, n) is Eof
    &&& forall|j: int| 0 <= j < n ==> !is_terminal(#[trigger] doc_event_at(doc, j))
}

/// The transport parses the document to completion: its event stream ends
/// in end-of-file, not in an error.
pub open spec fn doc_wellformed(doc: Seq<char>) -> bool {
    exists|n: int| #[trigger] doc_scan_ends_at(doc, n)
}

/// The codec events of a well-formed document.
pub open spec fn doc_events(doc: Seq<char>) -> Seq<EvSpec> {
    cooked_events(doc, choose|n: int| doc_scan_ends_at(doc, n))
}

proof fn lemma_scan_unique(doc: Seq<char>, n1: int, n2: int)
    requires
        doc_scan_ends_at(doc, n1),
        doc_scan_ends_at(doc, n2),
    ensures
        n1 == n2,
{
    if n1 < n2 {
        assert(!is_terminal(doc_event_at(doc, n1)));
    }
    if n2 < n1 {
        assert(!is_terminal(doc_event_at(doc, n2)));
    }
}

proof fn lemma_error_not_wellformed(doc: Seq<char>, p: int)
    requires
        0 <= p,
        doc_event_at(doc, p) is Error,
        forall|j: int| 0 <= j < p ==> !is_terminal(#[trigger] doc_event_at(doc, j)),
    ensures
        !doc_wellformed(doc),
{
    if doc_wellformed(doc) {
        let n = choose|n: int| doc_scan_ends_at(doc, n);
        if n < p {
            assert(!is_terminal(doc_event_at(doc, n)));
        } else {
            assert(!is_terminal(doc_event_at(doc, p)));
        }
    }
}

/// Parses a descriptor document and populates the descriptor, with `id` as
/// the resolved descriptor id. A document the transport parses to
/// completion is read exactly by the rules applied to its events: a fatal
/// rule leaves the descriptor untouched and cites its field, success
/// returns the recoverable-default warnings in rule order; a document it
/// does not parse is reported as malformed, the descriptor untouched.
#[verifier::loop_isolation(false)]
pub fn read_xml(d: &mut MapDescriptor, xml: &str, id: &str) -> (r: Result<Vec<Warning>, ReadError>)
    ensures
        !doc_wellformed(xml@) ==> (r matches Err(ReadError::Xml) && final(d)@ == old(d)@),
        doc_wellformed(xml@) ==> match fatal_field(capture(doc_events(xml@)).texts, id@) {
            None => r matches Ok(w) && final(d)@ == read_model(
                old(d)@,
                capture(doc_events(xml@)).texts,
                id@,
            ) && w@ == read_warnings(capture(doc_events(xml@)).texts),
            Some(f) => r matches Err(ReadError::Invalid(e)) && e.field == f && e.map_id@ == id@
                && final(d)@ == old(d)@,
        },
        r is Ok ==> final(d)@.map_id == id@,
        id@.len() == 0 ==> !(r is Ok),
{
    let ghost doc = xml@;
    let mut reader = reader_from_str(xml);
    proof {
        assert(exists|n: int|
            0 <= n <= 2 * doc.len() + 2 && is_terminal(#[trigger] doc_event_at(doc, n)));
    }
    let mut events: Vec<XmlEvent> = Vec::new();
    // every event before the terminal call consumes input, so the terminal
    // call comes within this many steps
    let limit: u128 = 2 * (xml.unicode_len() as u128) + 2;
    let mut steps: u128 = 0;
    let mut reached_eof: bool = false;
    while steps <= limit
        invariant
            0 <= steps <= limit + 1,
            reader_doc(reader) == doc,
            reader_pos(reader) == steps as int,
            forall|j: int| 0 <= j < steps as int ==> !is_terminal(#[trigger] doc_event_at(doc, j)),
            events.deep_view() == cooked_events(doc, steps as int),
            !reached_eof,
        decreases limit + 1 - steps,
    {
        let ghost pre = events.deep_view();
        let ghost ev = doc_event_at(doc, steps as int);
        match read_next(&mut reader) {
            Err(_) => {
                proof {
                    lemma_error_not_wellformed(doc, steps as int);
                }
                return Err(ReadError::Xml);
            },
            Ok(RawEvent::Eof) => {
                reached_eof = true;
                proof {
                    assert(doc_scan_ends_at(doc, steps as int));
                }
                break ;
            },
            Ok(RawEvent::Start(n)) => {
                let ghost nb = n@;
                let tag: Option<Tag> = match string_from_utf8(n) {
                    Some(name) => recognize(&name),
                    None => None,
                };
                proof {
                    assert(tag == raw_tag(nb));
                }
                events.push(XmlEvent::Start(tag));
                proof {
                    assert(events.deep_view() =~= pre + cook_one(ev));
                }
            },
            Ok(RawEvent::Empty(n)) => {
                let ghost nb = n@;
                let tag: Option<Tag> = match string_from_utf8(n) {
                    Some(name) => recognize(&name),
                    None => None,
                };
                proof {
                    assert(tag == raw_tag(nb));
                }
                events.push(XmlEvent::Start(tag));
                events.push(XmlEvent::End(tag));
                proof {
                    assert(events.deep_view() =~= pre + cook_one(ev));
                }
            },
            Ok(RawEvent::End) => {
                events.push(XmlEvent::End(None));
                proof {
                    assert(events.deep_view() =~= pre + cook_one(ev));
                }
            },
            Ok(RawEvent::Text(t)) => {
                events.push(XmlEvent::Text(t));
                proof {
                    assert(events.deep_view() =~= pre + cook_one(ev));
                }
            },
            Ok(RawEvent::Other) => {
                proof {
                    assert(events.deep_view() =~= pre + cook_one(ev));
                }
            },
        }
        steps = steps + 1;
    }
    if !reached_eof {
        // the loop ran past the bound without meeting the terminal call,
        // which the transport's contract rules out
        proof {
            let n = choose|n: int|
                0 <= n <= 2 * doc.len() + 2 && is_terminal(#[trigger] doc_event_at(doc, n));
            assert(is_terminal(doc_event_at(doc, n)));
            assert(steps as int == limit as int + 1);
            assert(limit as int == 2 * doc.len() + 2);
            assert(n < steps as int);
            assert(false);
        }
        return Err(ReadError::Xml);
    }
    proof {
        assert(doc_wellformed(doc));
        let n0 = choose|n: int| doc_scan_ends_at(doc, n);
        lemma_scan_unique(doc, n0, steps as int);
        assert(doc_events(doc) == events.deep_view());
    }
    match read_from_events(d, &events, id) {
        Ok(w) => Ok(w),
        Err(e) => Err(ReadError::Invalid(e)),
    }
}

} // verus!
