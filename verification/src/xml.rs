//! Reading the Miniserver's XML replies: attribute lookup in reply text,
//! and the start tags of a document as read by `quick_xml`.

use vstd::prelude::*;
use quick_xml::events::Event;
use quick_xml::Reader;
use crate::config::chars_equal;
use crate::text::{chars_of, occurs_at, string_of, sub_chars};

verus! {

#[verifier::external_type_specification]
#[verifier::external_body]
#[verifier::reject_recursive_types(R)]
pub struct ExReader<R>(Reader<R>);

/// A start (or empty-element) tag: its name and its attributes in order,
/// `None` standing for an attribute the reader found malformed. Names and
/// values are the raw bytes read as UTF-8 (invalid sequences replaced).
#[derive(Debug)]
pub struct XmlElement {
    pub tag: String,
    pub attrs: Vec<Option<(String, String)>>,
}

/// A tag, viewed.
pub ghost struct ElementModel {
    pub tag: Seq<char>,
    pub attrs: Seq<Option<(Seq<char>, Seq<char>)>>,
}

/// An attribute, viewed.
pub open spec fn attr_view(a: Option<(String, String)>) -> Option<(Seq<char>, Seq<char>)> {
    match a {
        Some(kv) => Some((kv.0@, kv.1@)),
        None => None,
    }
}

impl View for XmlElement {
    type V = ElementModel;

    open spec fn view(&self) -> ElementModel {
        ElementModel { tag: self.tag@, attrs: self.attrs@.map_values(|a: Option<(String, String)>| attr_view(a)) }
    }
}

/// Tags viewed.
pub open spec fn element_views(v: Seq<XmlElement>) -> Seq<ElementModel> {
    v.map_values(|e: XmlElement| e@)
}

/// What one read of the XML reader gave.
pub enum XmlEvent {
    /// A start tag or an empty-element tag.
    Element(XmlElement),
    /// The end of the document.
    Eof,
    /// A syntax error, with the reader's message.
    Failed(String),
    /// Any other event (text, end tag, comment, ...).
    Other,
}

/// An event, viewed.
pub ghost enum EventModel {
    Element(ElementModel),
    Eof,
    Failed(Seq<char>),
    Other,
}

impl View for XmlEvent {
    type V = EventModel;

    open spec fn view(&self) -> EventModel {
        match self {
            XmlEvent::Element(e) => EventModel::Element(e@),
            XmlEvent::Eof => EventModel::Eof,
            XmlEvent::Failed(m) => EventModel::Failed(m@),
            XmlEvent::Other => EventModel::Other,
        }
    }
}

/// The event a quick_xml reader created by `Reader::from_str(source)` gives
/// on its read number `index` (counting from 0), converted as `XmlEvent`.
pub uninterp spec fn xml_event(source: Seq<char>, index: nat) -> EventModel;

/// A quick_xml reader over a document, with the document and the number of
/// events read from it so far.
struct XmlCursor<'a> {
    reader: Reader<&'a [u8]>,
    source: Ghost<Seq<char>>,
    read: Ghost<nat>,
}

impl<'a> View for XmlCursor<'a> {
    type V = (Seq<char>, nat);

    closed spec fn view(&self) -> (Seq<char>, nat) {
        (self.source@, self.read@)
    }
}

/// quick_xml's `Reader::from_str`: a reader over `xml` that has read
/// nothing yet.
#[verifier::external_body]
fn xml_open<'a>(xml: &'a str) -> (c: XmlCursor<'a>)
    ensures
        c@ == (xml@, 0nat),
{
    XmlCursor { reader: Reader::from_str(xml), source: Ghost(xml@), read: Ghost(0) }
}

/// quick_xml's `Reader::read_event`, the event converted: start and empty
/// tags with their name and attributes, the end of input, errors with their
/// message, and everything else as `Other`. The event is the one `xml_event`
/// names for the document and the number of events read before.
#[verifier::external_body]
fn xml_next(c: &mut XmlCursor) -> (e: XmlEvent)
    ensures
        e@ == xml_event(old(c)@.0, old(c)@.1),
        final(c)@ == (old(c)@.0, old(c)@.1 + 1),
{
    match c.reader.read_event() {
        Ok(Event::Start(e)) | Ok(Event::Empty(e)) => XmlEvent::Element(XmlElement {
            tag: String::from_utf8_lossy(e.name().as_ref()).to_string(),
            attrs: e.attributes().map(|a| a.ok().map(|a| (
                String::from_utf8_lossy(a.key.as_ref()).to_string(),
                String::from_utf8_lossy(&a.value).to_string(),
            ))).collect(),
        }),
        Ok(Event::Eof) => XmlEvent::Eof,
        Err(e) => XmlEvent::Failed(e.to_string()),
        Ok(_) => XmlEvent::Other,
    }
}

/// The message for a document that yields more events than it has bytes.
pub open spec fn too_many_events() -> Seq<char> {
    "more XML events than input bytes"@
}

/// The start tags among the events of `source` from read number `k` on, at
/// most `fuel` further events allowed after the one at `k`: up to the end
/// of the document, or the message of the first error.
pub open spec fn tags_from(source: Seq<char>, k: nat, fuel: nat) -> Result<Seq<ElementModel>, Seq<char>>
    decreases fuel,
{
    match xml_event(source, k) {
        EventModel::Eof => Ok(Seq::empty()),
        EventModel::Failed(m) => Err(m),
        EventModel::Element(e) => if fuel == 0 {
            Err(too_many_events())
        } else {
            match tags_from(source, k + 1, (fuel - 1) as nat) {
                Ok(rest) => Ok(seq![e] + rest),
                Err(m) => Err(m),
            }
        },
        EventModel::Other => if fuel == 0 {
            Err(too_many_events())
        } else {
            tags_from(source, k + 1, (fuel - 1) as nat)
        },
    }
}

/// `done` followed by what `rest` gives.
pub open spec fn after_tags(done: Seq<ElementModel>, rest: Result<Seq<ElementModel>, Seq<char>>) -> Result<Seq<ElementModel>, Seq<char>> {
    match rest {
        Ok(r) => Ok(done + r),
        Err(m) => Err(m),
    }
}

/// A result of `start_tags`, viewed.
pub open spec fn tags_view(r: Result<Vec<XmlElement>, String>) -> Result<Seq<ElementModel>, Seq<char>> {
    match r {
        Ok(v) => Ok(element_views(v@)),
        Err(m) => Err(m@),
    }
}

/// The start tags of an XML document in order, or the reader's message for
/// the first syntax error. The limit of one event per input byte only bounds
/// the loop for the proof of termination: the reader consumes at least one
/// byte with every event before the end of input, so the limit is never
/// reached and its error is never returned for a real document.
pub fn start_tags(xml: &str) -> (r: Result<Vec<XmlElement>, String>)
    ensures
        tags_view(r) == tags_from(xml@, 0, xml.len() as nat),
{
    let mut cur = xml_open(xml);
    let mut out: Vec<XmlElement> = Vec::new();
    let mut fuel: usize = xml.len();
    loop
        invariant
            cur@.0 == xml@,
            after_tags(element_views(out@), tags_from(xml@, cur@.1, fuel as nat)) == tags_from(xml@, 0, xml.len() as nat),
        decreases fuel,
    {
        let ghost k = cur@.1;
        let ghost before = element_views(out@);
        match xml_next(&mut cur) {
            XmlEvent::Element(e) => {
                let ghost ev = e@;
                out.push(e);
                assert(element_views(out@) =~= before.push(ev));
                if fuel == 0 {
                    return Err("more XML events than input bytes".to_owned());
                }
                proof {
                    match tags_from(xml@, k + 1, (fuel - 1) as nat) {
                        Ok(rest) => {
                            assert(before + (seq![ev] + rest) =~= before.push(ev) + rest);
                        },
                        Err(m) => {},
                    }
                }
            },
            XmlEvent::Eof => {
                assert(before + Seq::<ElementModel>::empty() =~= before);
                return Ok(out);
            },
            XmlEvent::Failed(m) => {
                return Err(m);
            },
            XmlEvent::Other => {
                if fuel == 0 {
                    return Err("more XML events than input bytes".to_owned());
                }
            },
        }
        fuel = fuel - 1;
    }
}

/// The value of the first well-formed attribute named `name`; the empty
/// text when there is none.
pub open spec fn attr_value(attrs: Seq<Option<(Seq<char>, Seq<char>)>>, name: Seq<char>) -> Seq<char>
    decreases attrs.len(),
{
    if attrs.len() == 0 {
        Seq::empty()
    } else {
        match attrs[0] {
            Some(kv) => if kv.0 == name { kv.1 } else { attr_value(attrs.drop_first(), name) },
            None => attr_value(attrs.drop_first(), name),
        }
    }
}

/// Looks up an attribute of a tag (`""` when absent).
pub fn attr(e: &XmlElement, name: &str) -> (v: String)
    ensures
        v@ == attr_value(e@.attrs, name@),
{
    let n = e.attrs.len();
    let want = chars_of(name);
    let ghost attrs = e@.attrs;
    let mut i: usize = 0;
    assert(attrs.skip(0) == attrs);
    while i < n
        invariant
            n == e.attrs@.len(),
            attrs == e@.attrs,
            i <= n,
            want@ == name@,
            attr_value(attrs, name@) == attr_value(attrs.skip(i as int), name@),
        decreases n - i,
    {
        assert(attrs.skip(i as int).drop_first() == attrs.skip(i + 1));
        assert(attrs.skip(i as int)[0] == attr_view(e.attrs@[i as int]));
        match &e.attrs[i] {
            Some(kv) => {
                let k = chars_of(kv.0.as_str());
                if chars_equal(&k, &want) {
                    return kv.1.clone();
                }
            },
            None => {},
        }
        i = i + 1;
    }
    String::new()
}

/// The first position at or after `from` where `pat` occurs in `s`.
pub open spec fn find_from(s: Seq<char>, pat: Seq<char>, from: int) -> Option<int>
    decreases s.len() + 1 - from,
{
    if from < 0 || from + pat.len() > s.len() {
        None
    } else if occurs_at(s, pat, from) {
        Some(from)
    } else {
        find_from(s, pat, from + 1)
    }
}

/// Finds `find_from(s, pat, from)`.
pub fn find_chars_from(s: &Vec<char>, pat: &Vec<char>, from: usize) -> (r: Option<usize>)
    ensures
        match r {
            Some(i) => find_from(s@, pat@, from as int) == Some(i as int) && i + pat@.len() <= s@.len(),
            None => find_from(s@, pat@, from as int) is None,
        },
{
    let n = s.len();
    let m = pat.len();
    if m > n {
        return None;
    }
    if m == 0 {
        if from <= n {
            assert(s@.subrange(from as int, from as int) =~= pat@);
            return Some(from);
        }
        return None;
    }
    let mut i = from;
    while i <= n - m
        invariant
            n == s@.len(),
            m == pat@.len(),
            1 <= m <= n,
            from <= i,
            find_from(s@, pat@, from as int) == find_from(s@, pat@, i as int),
        decreases n - i,
    {
        let mut k: usize = 0;
        let mut ok = true;
        while k < m
            invariant
                n == s@.len(),
                m == pat@.len(),
                i + m <= n,
                k <= m,
                ok ==> forall|j: int| 0 <= j < k ==> s@[i + j] == pat@[j],
                !ok ==> !occurs_at(s@, pat@, i as int),
            decreases m - k,
        {
            if s[i + k] != pat[k] {
                assert(s@.subrange(i as int, i + m)[k as int] != pat@[k as int]);
                ok = false;
            }
            k = k + 1;
        }
        if ok {
            assert(s@.subrange(i as int, i + m) =~= pat@);
            return Some(i);
        }
        i = i + 1;
    }
    None
}

/// The value of the attribute `name` as a plain text search finds it: the
/// text between the first `name="` and the next `"`.
pub open spec fn xml_attr_value(xml: Seq<char>, name: Seq<char>) -> Option<Seq<char>> {
    let pat = name + "=\""@;
    match find_from(xml, pat, 0) {
        Some(i) => match find_from(xml, "\""@, i + pat.len()) {
            Some(j) => Some(xml.subrange(i + pat.len(), j)),
            None => None,
        },
        None => None,
    }
}

proof fn lemma_find_from_bounds(s: Seq<char>, pat: Seq<char>, from: int)
    ensures
        find_from(s, pat, from) matches Some(i) ==> from <= i && i + pat.len() <= s.len(),
    decreases s.len() + 1 - from,
{
    if from >= 0 && from + pat.len() <= s.len() && !occurs_at(s, pat, from) {
        lemma_find_from_bounds(s, pat, from + 1);
    }
}

/// Reads the attribute `name` from an XML reply by text search.
pub fn xml_attr(xml: &str, name: &str) -> (r: Option<String>)
    ensures
        match r {
            Some(v) => xml_attr_value(xml@, name@) == Some(v@),
            None => xml_attr_value(xml@, name@) is None,
        },
{
    let s = chars_of(xml);
    let slen = s.len();
    let mut pat = chars_of(name);
    crate::text::push_str(&mut pat, "=\"");
    let quote = chars_of("\"");
    match find_chars_from(&s, &pat, 0) {
        Some(i) => {
            let start = i + pat.len();
            match find_chars_from(&s, &quote, start) {
                Some(j) => {
                    proof {
                        lemma_find_from_bounds(s@, quote@, start as int);
                    }
                    let v = sub_chars(&s, start, j);
                    Some(string_of(&v))
                },
                None => None,
            }
        },
        None => None,
    }
}

} // verus!
