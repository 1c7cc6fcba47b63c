//! Text extraction from XML, for plain XML files and for the body of Word
//! documents. quick-xml tokenizes; what is kept of each event is decided
//! here.
use vstd::prelude::*;

use quick_xml::events::{BytesRef, Event};
use quick_xml::Reader;

use crate::text::{chars_of, push_char, push_str, string_from_range, tidy_lines, tidy_lines_of, trim, trim_range};

verus! {

/// One XML event, as far as text extraction reads it.
#[derive(Debug)]
pub enum XmlEvent {
    /// Start tag, by local name.
    Start(String),
    /// End tag, by local name.
    End(String),
    /// Empty-element tag, by local name.
    Empty(String),
    /// Character data, line endings normalized the XML 1.0 way.
    Text(String),
    /// Content of a CDATA section.
    CData(String),
    /// A general reference `&name;`, by its content between `&` and `;`.
    Reference(String),
    /// A character reference, resolved.
    CharRef(char),
    /// Anything else: comments, declarations, processing instructions.
    Other,
}

#[verifier::external_type_specification]
#[verifier::external_body]
#[verifier::reject_recursive_types(R)]
pub struct ExXmlReader<R>(Reader<R>);

/// What a quick-xml reader still hands out: the events before it reports
/// the end of the document or an error, and then `None` for the end of the
/// document or `Some(message)` for the error, as it displays it.
pub uninterp spec fn reader_events(reader: Reader<&[u8]>) -> (Seq<XmlEvent>, Option<Seq<char>>);

/// What quick-xml reads from a whole document: the events before its end or
/// its first error, and then `None` for the end of the document or
/// `Some(message)` for the error.
pub uninterp spec fn xml_events(xml: Seq<char>) -> (Seq<XmlEvent>, Option<Seq<char>>);

/// The message of quick-xml's error for a malformed character reference
/// (`#…` content), as the error displays it.
pub uninterp spec fn char_ref_error(content: Seq<char>) -> Seq<char>;

/// The value of one digit: decimal, or hexadecimal in either case.
pub open spec fn digit_value(c: char, hex: bool) -> Option<nat> {
    if '0' <= c && c <= '9' {
        Some((c as u32 - 0x30) as nat)
    } else if hex && 'a' <= c && c <= 'f' {
        Some((c as u32 - 0x61 + 10) as nat)
    } else if hex && 'A' <= c && c <= 'F' {
        Some((c as u32 - 0x41 + 10) as nat)
    } else {
        None
    }
}

/// The number the digits spell, or `None` when one is not a digit.
pub open spec fn digits_value(s: Seq<char>, hex: bool) -> Option<nat>
    decreases s.len(),
{
    if s.len() == 0 {
        Some(0)
    } else {
        match (digits_value(s.drop_last(), hex), digit_value(s.last(), hex)) {
            (Some(v), Some(d)) => Some(v * (if hex {
                16nat
            } else {
                10nat
            }) + d),
            _ => None,
        }
    }
}

/// The character a character reference (`#…` content) denotes: after the
/// `#`, decimal digits, or `x` and hexadecimal digits, at least one, no
/// sign, spelling a code that is not zero and is a Unicode scalar value.
pub open spec fn resolved_char(content: Seq<char>) -> Option<char> {
    let num = content.drop_first();
    let hex = num.len() > 0 && num[0] == 'x';
    let digits = if hex {
        num.drop_first()
    } else {
        num
    };
    if digits.len() == 0 {
        None
    } else {
        match digits_value(digits, hex) {
            Some(v) => if v != 0 && v < 0x110000 && !(0xD800 <= v && v < 0xE000) {
                Some(v as char)
            } else {
                None
            },
            None => None,
        }
    }
}

/// `quick_xml::Reader::from_str`: a reader over `xml`, which will hand out
/// the events `xml_events(xml)`.
#[verifier::external_body]
fn open_reader<'a>(xml: &'a str) -> (r: Reader<&'a [u8]>)
    ensures
        reader_events(r) == xml_events(xml@),
{
    Reader::from_str(xml)
}

/// `quick_xml::Reader::read_event`, one event converted to an [`XmlEvent`]
/// (`None` for the end of the document). While events remain, the next one
/// comes back and is consumed; once none remain, the result is the end of
/// the document or the message of the error that stopped the reader.
#[verifier::external_body]
fn next_event<'a>(reader: &mut Reader<&'a [u8]>) -> (r: Result<Option<XmlEvent>, String>)
    ensures
        reader_events(*old(reader)).0.len() > 0 ==> (r matches Ok(Some(e)) && e == reader_events(
            *old(reader),
        ).0[0]) && reader_events(*final(reader)).0 == reader_events(*old(reader)).0.drop_first()
            && reader_events(*final(reader)).1 == reader_events(*old(reader)).1,
        reader_events(*old(reader)).0.len() == 0 ==> match reader_events(*old(reader)).1 {
            None => r matches Ok(None),
            Some(m) => r matches Err(s) && s@ == m,
        },
{
    Ok(match reader.read_event().map_err(|e| e.to_string())? {
        Event::Start(e) => Some(XmlEvent::Start(e.local_name().into_inner().to_string())),
        Event::End(e) => Some(XmlEvent::End(e.local_name().into_inner().to_string())),
        Event::Empty(e) => Some(XmlEvent::Empty(e.local_name().into_inner().to_string())),
        Event::Text(t) => Some(XmlEvent::Text(t.xml10_content().into_owned())),
        Event::CData(c) => Some(XmlEvent::CData(c.into_inner().into_owned())),
        Event::GeneralRef(r) => Some(XmlEvent::Reference(r.to_string())),
        Event::Eof => None,
        _ => Some(XmlEvent::Other),
    })
}

/// `quick_xml::events::BytesRef::resolve_char_ref` on a reference's
/// content: `Ok(Some(c))` for a character reference to `c`, `Ok(None)` for
/// a content that does not start with `#`, the error's message for a
/// malformed character reference. Which references are well formed is what
/// quick-xml's `parse_number` accepts: [`resolved_char`].
#[verifier::external_body]
fn resolve_char_ref(content: &str) -> (r: Result<Option<char>, String>)
    ensures
        content@.len() == 0 || content@[0] != '#' ==> r matches Ok(None),
        content@.len() > 0 && content@[0] == '#' ==> match resolved_char(content@) {
            Some(c) => r matches Ok(Some(d)) && d == c,
            None => r matches Err(m) && m@ == char_ref_error(content@),
        },
{
    match BytesRef::new(content).resolve_char_ref() {
        Ok(c) => Ok(c),
        Err(e) => Err(e.to_string()),
    }
}

/// `content` is a character reference (starts with `#`).
pub open spec fn is_char_ref(content: Seq<char>) -> bool {
    content.len() > 0 && content[0] == '#'
}

/// Character references resolved in a sequence of events: `None` when one
/// of them is malformed.
pub open spec fn resolve_refs(events: Seq<XmlEvent>) -> Option<Seq<XmlEvent>>
    decreases events.len(),
{
    if events.len() == 0 {
        Some(Seq::empty())
    } else {
        match resolve_refs(events.drop_last()) {
            None => None,
            Some(done) => match events.last() {
                XmlEvent::Reference(content) => if is_char_ref(content@) {
                    match resolved_char(content@) {
                        Some(c) => Some(done.push(XmlEvent::CharRef(c))),
                        None => None,
                    }
                } else {
                    Some(done.push(events.last()))
                },
                _ => Some(done.push(events.last())),
            },
        }
    }
}

/// The content of the first character reference among the events that
/// names no character.
pub open spec fn first_bad_ref(events: Seq<XmlEvent>) -> Option<Seq<char>>
    decreases events.len(),
{
    if events.len() == 0 {
        None
    } else {
        match first_bad_ref(events.drop_last()) {
            Some(c) => Some(c),
            None => match events.last() {
                XmlEvent::Reference(content) => if is_char_ref(content@) && resolved_char(
                    content@,
                ) is None {
                    Some(content@)
                } else {
                    None
                },
                _ => None,
            },
        }
    }
}

/// The events of a whole XML document, character references resolved:
/// `None` when quick-xml stops at an error or a character reference is
/// malformed.
pub open spec fn xml_document(xml: Seq<char>) -> Option<Seq<XmlEvent>> {
    if xml_events(xml).1 is None {
        resolve_refs(xml_events(xml).0)
    } else {
        None
    }
}

/// Reads an XML document with quick-xml: the events it hands out before the
/// end of the document or its first error, as they come (references left
/// unresolved), and `None` when the document ended without an error, else
/// the error's message.
pub fn read_events(xml: &str) -> (r: (Vec<XmlEvent>, Option<String>))
    ensures
        r.0@ == xml_events(xml@).0,
        match xml_events(xml@).1 {
            None => r.1 is None,
            Some(m) => r.1 matches Some(s) && s@ == m,
        },
{
    let mut reader = open_reader(xml);
    let mut out: Vec<XmlEvent> = Vec::new();
    let ghost all = xml_events(xml@).0;
    let ghost ends_well = xml_events(xml@).1;
    proof {
        assert(all =~= out@ + reader_events(reader).0);
    }
    loop
        invariant
            all == xml_events(xml@).0,
            ends_well == xml_events(xml@).1,
            ends_well == reader_events(reader).1,
            all == out@ + reader_events(reader).0,
        decreases reader_events(reader).0.len(),
    {
        let ghost before = out@;
        let next = next_event(&mut reader);
        match next {
            Err(message) => {
                proof {
                    assert(out@ =~= all);
                }
                return (out, Some(message));
            },
            Ok(None) => {
                proof {
                    assert(out@ =~= all);
                }
                return (out, None);
            },
            Ok(Some(event)) => {
                out.push(event);
                proof {
                    assert(all =~= out@ + reader_events(reader).0);
                }
            },
        }
    }
}

/// A copy of an event.
fn copy_event(e: &XmlEvent) -> (r: XmlEvent)
    ensures
        r == *e,
{
    match e {
        XmlEvent::Start(n) => XmlEvent::Start(n.clone()),
        XmlEvent::End(n) => XmlEvent::End(n.clone()),
        XmlEvent::Empty(n) => XmlEvent::Empty(n.clone()),
        XmlEvent::Text(t) => XmlEvent::Text(t.clone()),
        XmlEvent::CData(c) => XmlEvent::CData(c.clone()),
        XmlEvent::Reference(c) => XmlEvent::Reference(c.clone()),
        XmlEvent::CharRef(c) => XmlEvent::CharRef(*c),
        XmlEvent::Other => XmlEvent::Other,
    }
}

/// Whether a reference's content starts with `#`.
fn is_char_ref_exec(content: &String) -> (r: bool)
    ensures
        r == is_char_ref(content@),
{
    let v = chars_of(content.as_str());
    v.len() > 0 && v[0] == '#'
}

/// The events with every character reference resolved; quick-xml's message
/// for the first one that names no character.
pub fn resolve_all(events: &Vec<XmlEvent>) -> (r: Result<Vec<XmlEvent>, String>)
    ensures
        match resolve_refs(events@) {
            Some(v) => r matches Ok(w) && w@ == v,
            None => r is Err,
        },
        r matches Err(m) ==> (first_bad_ref(events@) matches Some(c) && m@ == char_ref_error(c)),
        r is Ok ==> first_bad_ref(events@) is None,
{
    let mut out: Vec<XmlEvent> = Vec::new();
    let mut i: usize = 0;
    proof {
        assert(events@.subrange(0, 0) =~= Seq::<XmlEvent>::empty());
    }
    while i < events.len()
        invariant
            i <= events@.len(),
            resolve_refs(events@.subrange(0, i as int)) == Some(out@),
            first_bad_ref(events@.subrange(0, i as int)) is None,
        decreases events.len() - i,
    {
        let ghost pre = events@.subrange(0, i + 1);
        proof {
            assert(pre.drop_last() =~= events@.subrange(0, i as int));
            assert(pre.last() == events@[i as int]);
        }
        match &events[i] {
            XmlEvent::Reference(content) => {
                if is_char_ref_exec(content) {
                    match resolve_char_ref(content.as_str()) {
                        Ok(Some(c)) => {
                            out.push(XmlEvent::CharRef(c));
                        },
                        Ok(None) => {
                            // not reached: the content starts with `#`
                            proof {
                                assert(false);
                            }
                            return Err(String::new());
                        },
                        Err(detail) => {
                            proof {
                                assert(events@.subrange(0, pre.len() as int) =~= pre);
                                lemma_resolve_refs_none_prefix(events@, pre);
                            }
                            return Err(detail);
                        },
                    }
                } else {
                    out.push(XmlEvent::Reference(content.clone()));
                }
            },
            other => {
                out.push(copy_event(other));
            },
        }
        i = i + 1;
    }
    proof {
        assert(events@.subrange(0, events@.len() as int) =~= events@);
    }
    Ok(out)
}

/// A malformed reference in a prefix makes the whole resolution fail.
proof fn lemma_resolve_refs_none_prefix(all: Seq<XmlEvent>, prefix: Seq<XmlEvent>)
    requires
        prefix.len() <= all.len(),
        all.subrange(0, prefix.len() as int) == prefix,
        resolve_refs(prefix) is None,
        first_bad_ref(prefix) is Some,
    ensures
        resolve_refs(all) is None,
        first_bad_ref(all) == first_bad_ref(prefix),
    decreases all.len() - prefix.len(),
{
    if all.len() > prefix.len() {
        let shorter = all.drop_last();
        assert(shorter.subrange(0, prefix.len() as int) =~= prefix);
        lemma_resolve_refs_none_prefix(shorter, prefix);
    } else {
        assert(all =~= prefix);
    }
}

/// The character a predefined entity (`amp`, `lt`, `gt`, `quot`, `apos`)
/// stands for.
pub open spec fn entity_char(name: Seq<char>) -> Option<char> {
    if name == seq!['a', 'm', 'p'] {
        Some('&')
    } else if name == seq!['l', 't'] {
        Some('<')
    } else if name == seq!['g', 't'] {
        Some('>')
    } else if name == seq!['q', 'u', 'o', 't'] {
        Some('"')
    } else if name == seq!['a', 'p', 'o', 's'] {
        Some('\'')
    } else {
        None
    }
}

/// The text a reference adds: its character, the character of a predefined
/// entity, or nothing for entities that cannot be resolved.
pub open spec fn reference_text(e: XmlEvent) -> Seq<char> {
    match e {
        XmlEvent::CharRef(c) => seq![c],
        XmlEvent::Reference(name) => match entity_char(name@) {
            Some(c) => seq![c],
            None => Seq::empty(),
        },
        _ => Seq::empty(),
    }
}

/// Text an XML event contributes to a plain XML document's text: character
/// data, CDATA, references, and a newline for every closed element.
pub open spec fn xml_event_text(e: XmlEvent) -> Seq<char> {
    match e {
        XmlEvent::Text(t) => t@,
        XmlEvent::CData(c) => c@,
        XmlEvent::Reference(_) => reference_text(e),
        XmlEvent::CharRef(_) => reference_text(e),
        XmlEvent::End(_) => seq!['\n'],
        _ => Seq::empty(),
    }
}

/// All text of a plain XML document, before its lines are tidied.
pub open spec fn xml_raw_text(events: Seq<XmlEvent>) -> Seq<char>
    decreases events.len(),
{
    if events.len() == 0 {
        Seq::empty()
    } else {
        xml_raw_text(events.drop_last()) + xml_event_text(events.last())
    }
}

/// The text of a plain XML document: markup stripped, one line per closed
/// element, lines trimmed, blank lines dropped.
pub open spec fn xml_text(events: Seq<XmlEvent>) -> Seq<char> {
    tidy_lines(xml_raw_text(events))
}

fn entity_char_exec(name: &String) -> (r: Option<char>)
    ensures
        r == entity_char(name@),
{
    let v = chars_of(name.as_str());
    let n = v.len();
    if n == 3 && v[0] == 'a' && v[1] == 'm' && v[2] == 'p' {
        assert(v@ =~= seq!['a', 'm', 'p']);
        return Some('&');
    }
    if n == 2 && v[0] == 'l' && v[1] == 't' {
        assert(v@ =~= seq!['l', 't']);
        proof {
            lemma_not_seq3(v@, 'a', 'm', 'p');
        }
        return Some('<');
    }
    if n == 2 && v[0] == 'g' && v[1] == 't' {
        assert(v@ =~= seq!['g', 't']);
        proof {
            lemma_not_seq3(v@, 'a', 'm', 'p');
            lemma_not_seq2(v@, 'l', 't');
        }
        return Some('>');
    }
    if n == 4 && v[0] == 'q' && v[1] == 'u' && v[2] == 'o' && v[3] == 't' {
        assert(v@ =~= seq!['q', 'u', 'o', 't']);
        proof {
            lemma_not_seq3(v@, 'a', 'm', 'p');
            lemma_not_seq2(v@, 'l', 't');
            lemma_not_seq2(v@, 'g', 't');
        }
        return Some('"');
    }
    if n == 4 && v[0] == 'a' && v[1] == 'p' && v[2] == 'o' && v[3] == 's' {
        assert(v@ =~= seq!['a', 'p', 'o', 's']);
        proof {
            lemma_not_seq3(v@, 'a', 'm', 'p');
            lemma_not_seq2(v@, 'l', 't');
            lemma_not_seq2(v@, 'g', 't');
            lemma_not_seq4(v@, 'q', 'u', 'o', 't');
        }
        return Some('\'');
    }
    proof {
        lemma_not_seq3(v@, 'a', 'm', 'p');
        lemma_not_seq2(v@, 'l', 't');
        lemma_not_seq2(v@, 'g', 't');
        lemma_not_seq4(v@, 'q', 'u', 'o', 't');
        lemma_not_seq4(v@, 'a', 'p', 'o', 's');
    }
    None
}

proof fn lemma_not_seq2(v: Seq<char>, a: char, b: char)
    ensures
        v == seq![a, b] <==> (v.len() == 2 && v[0] == a && v[1] == b),
{
    if v.len() == 2 && v[0] == a && v[1] == b {
        assert(v =~= seq![a, b]);
    }
}

proof fn lemma_not_seq3(v: Seq<char>, a: char, b: char, c: char)
    ensures
        v == seq![a, b, c] <==> (v.len() == 3 && v[0] == a && v[1] == b && v[2] == c),
{
    if v.len() == 3 && v[0] == a && v[1] == b && v[2] == c {
        assert(v =~= seq![a, b, c]);
    }
}

proof fn lemma_not_seq4(v: Seq<char>, a: char, b: char, c: char, d: char)
    ensures
        v == seq![a, b, c, d] <==> (v.len() == 4 && v[0] == a && v[1] == b && v[2] == c && v[3]
            == d),
{
    if v.len() == 4 && v[0] == a && v[1] == b && v[2] == c && v[3] == d {
        assert(v =~= seq![a, b, c, d]);
    }
}

/// Appends the characters of `s` to `v`.
fn extend_chars(v: &mut Vec<char>, s: &String)
    ensures
        final(v)@ == old(v)@ + s@,
{
    let cs = chars_of(s.as_str());
    let mut i: usize = 0;
    while i < cs.len()
        invariant
            i <= cs@.len(),
            cs@ == s@,
            v@ == old(v)@ + cs@.subrange(0, i as int),
        decreases cs.len() - i,
    {
        v.push(cs[i]);
        proof {
            assert(cs@.subrange(0, i + 1) =~= cs@.subrange(0, i as int).push(cs@[i as int]));
        }
        i = i + 1;
    }
    proof {
        assert(cs@.subrange(0, cs@.len() as int) =~= cs@);
    }
}

/// Appends the text of a reference event to `v`.
fn push_reference(v: &mut Vec<char>, e: &XmlEvent)
    ensures
        final(v)@ == old(v)@ + reference_text(*e),
{
    match e {
        XmlEvent::CharRef(c) => {
            v.push(*c);
            assert(v@ =~= old(v)@ + seq![*c]);
        },
        XmlEvent::Reference(name) => match entity_char_exec(name) {
            Some(c) => {
                v.push(c);
                assert(v@ =~= old(v)@ + seq![c]);
            },
            None => {
                assert(v@ =~= old(v)@ + Seq::<char>::empty());
            },
        },
        _ => {
            assert(v@ =~= old(v)@ + Seq::<char>::empty());
        },
    }
}

/// The text of a plain XML document from its events: character data,
/// CDATA and references kept, markup and attributes dropped, every closed
/// element ending a line, then lines trimmed and blank ones dropped.
pub fn xml_text_of(events: &Vec<XmlEvent>) -> (r: String)
    ensures
        r@ == xml_text(events@),
{
    let mut raw: Vec<char> = Vec::new();
    let mut i: usize = 0;
    proof {
        assert(events@.subrange(0, 0) =~= Seq::<XmlEvent>::empty());
    }
    while i < events.len()
        invariant
            i <= events@.len(),
            raw@ == xml_raw_text(events@.subrange(0, i as int)),
        decreases events.len() - i,
    {
        let e = &events[i];
        proof {
            assert(events@.subrange(0, i + 1).drop_last() =~= events@.subrange(0, i as int));
            assert(events@.subrange(0, i + 1).last() == *e);
        }
        match e {
            XmlEvent::Text(t) => extend_chars(&mut raw, t),
            XmlEvent::CData(c) => extend_chars(&mut raw, c),
            XmlEvent::Reference(_) => push_reference(&mut raw, e),
            XmlEvent::CharRef(_) => push_reference(&mut raw, e),
            XmlEvent::End(_) => {
                let ghost before = raw@;
                raw.push('\n');
                assert(raw@ =~= before + seq!['\n']);
            },
            _ => {
                assert(raw@ =~= raw@ + Seq::<char>::empty());
            },
        }
        i = i + 1;
    }
    proof {
        assert(events@.subrange(0, events@.len() as int) =~= events@);
    }
    tidy_lines_of(&raw)
}

/// What reading a Word document body has gathered: its text so far, and
/// whether a text run (`w:t`) is open.
pub struct DocxState {
    pub text: Seq<char>,
    pub in_run: bool,
    /// The content of a character reference inside a run that named no
    /// character, once one has.
    pub failed: Option<Seq<char>>,
}

/// The name `t`.
pub open spec fn is_name_t(n: Seq<char>) -> bool {
    n == seq!['t']
}

/// How one event changes the state: `w:t` opens and closes runs, `w:p`
/// ends a paragraph with a blank line, `w:tab` and `w:br` give a tab and a
/// newline, and only text and references inside a run are kept; a
/// character reference is resolved only there, and one that names no
/// character stops the reading.
pub open spec fn docx_step(s: DocxState, e: XmlEvent) -> DocxState {
    if s.failed is Some {
        s
    } else {
        docx_step_open(s, e)
    }
}

/// [`docx_step`] before any failure.
pub open spec fn docx_step_open(s: DocxState, e: XmlEvent) -> DocxState {
    match e {
        XmlEvent::Start(n) => if is_name_t(n@) {
            DocxState { in_run: true, ..s }
        } else {
            s
        },
        XmlEvent::End(n) => if is_name_t(n@) {
            DocxState { in_run: false, ..s }
        } else if n@ == seq!['p'] {
            DocxState { text: s.text + seq!['\n', '\n'], ..s }
        } else {
            s
        },
        XmlEvent::Empty(n) => if n@ == seq!['t', 'a', 'b'] {
            DocxState { text: s.text.push('\t'), ..s }
        } else if n@ == seq!['b', 'r'] {
            DocxState { text: s.text.push('\n'), ..s }
        } else {
            s
        },
        XmlEvent::Text(t) => if s.in_run {
            DocxState { text: s.text + t@, ..s }
        } else {
            s
        },
        XmlEvent::Reference(content) => if !s.in_run {
            s
        } else if is_char_ref(content@) {
            match resolved_char(content@) {
                Some(c) => DocxState { text: s.text.push(c), ..s },
                None => DocxState { failed: Some(content@), ..s },
            }
        } else {
            DocxState { text: s.text + reference_text(e), ..s }
        },
        XmlEvent::CharRef(_) => if s.in_run {
            DocxState { text: s.text + reference_text(e), ..s }
        } else {
            s
        },
        _ => s,
    }
}

/// The state after a sequence of events, from no text and no open run.
pub open spec fn docx_state(events: Seq<XmlEvent>) -> DocxState
    decreases events.len(),
{
    if events.len() == 0 {
        DocxState { text: Seq::empty(), in_run: false, failed: None }
    } else {
        docx_step(docx_state(events.drop_last()), events.last())
    }
}

/// The visible text of a WordprocessingML body, trimmed.
pub open spec fn docx_text(events: Seq<XmlEvent>) -> Seq<char> {
    trim(docx_state(events).text)
}

/// The characters of a name.
fn name_is(n: &String, w: &str) -> (r: bool)
    ensures
        r == (n@ == w@),
{
    let a = chars_of(n.as_str());
    let b = chars_of(w);
    if a.len() != b.len() {
        return false;
    }
    let mut i: usize = 0;
    while i < a.len()
        invariant
            a@ == n@,
            b@ == w@,
            a@.len() == b@.len(),
            i <= a@.len(),
            forall|k: int| 0 <= k < i ==> a@[k] == b@[k],
        decreases a.len() - i,
    {
        if a[i] != b[i] {
            assert(a@[i as int] != b@[i as int]);
            return false;
        }
        i = i + 1;
    }
    assert(a@ =~= b@);
    true
}

/// Once a character reference has failed, it stays failed.
proof fn lemma_docx_failed_stays(events: Seq<XmlEvent>, i: int)
    requires
        0 <= i <= events.len(),
        docx_state(events.subrange(0, i)).failed is Some,
    ensures
        docx_state(events).failed == docx_state(events.subrange(0, i)).failed,
    decreases events.len() - i,
{
    if i < events.len() {
        let next = events.subrange(0, i + 1);
        assert(next.drop_last() =~= events.subrange(0, i));
        lemma_docx_failed_stays(events, i + 1);
    } else {
        assert(events.subrange(0, i) =~= events);
    }
}

/// The visible text of a Word document body from its events: the content of
/// `w:t` runs, a tab for `w:tab`, a line break for `w:br`, a blank line
/// after each paragraph, and the whole trimmed; the message of the error
/// when a character reference inside a run names no character.
pub fn docx_text_of(events: &Vec<XmlEvent>) -> (r: Result<String, String>)
    ensures
        r is Err <==> docx_state(events@).failed is Some,
        r matches Err(m) ==> (docx_state(events@).failed matches Some(c) && m@ == char_ref_error(c)),
        r matches Ok(t) ==> t@ == docx_text(events@),
{
    let mut text: Vec<char> = Vec::new();
    let mut in_run = false;
    let mut i: usize = 0;
    proof {
        assert(events@.subrange(0, 0) =~= Seq::<XmlEvent>::empty());
        reveal_strlit("t");
        reveal_strlit("p");
        reveal_strlit("tab");
        reveal_strlit("br");
    }
    while i < events.len()
        invariant
            i <= events@.len(),
            docx_state(events@.subrange(0, i as int)) == (DocxState { text: text@, in_run, failed: None }),
            "t"@ == seq!['t'],
            "p"@ == seq!['p'],
            "tab"@ == seq!['t', 'a', 'b'],
            "br"@ == seq!['b', 'r'],
        decreases events.len() - i,
    {
        let e = &events[i];
        proof {
            assert(events@.subrange(0, i + 1).drop_last() =~= events@.subrange(0, i as int));
            assert(events@.subrange(0, i + 1).last() == *e);
        }
        let ghost before = text@;
        match e {
            XmlEvent::Start(n) => {
                if name_is(n, "t") {
                    in_run = true;
                }
            },
            XmlEvent::End(n) => {
                if name_is(n, "t") {
                    in_run = false;
                } else if name_is(n, "p") {
                    text.push('\n');
                    text.push('\n');
                    assert(text@ =~= before + seq!['\n', '\n']);
                }
            },
            XmlEvent::Empty(n) => {
                if name_is(n, "tab") {
                    text.push('\t');
                } else if name_is(n, "br") {
                    text.push('\n');
                }
            },
            XmlEvent::Text(t) => {
                if in_run {
                    extend_chars(&mut text, t);
                }
            },
            XmlEvent::Reference(content) => {
                if in_run {
                    if is_char_ref_exec(content) {
                        match resolve_char_ref(content.as_str()) {
                            Ok(Some(c)) => {
                                text.push(c);
                            },
                            Ok(None) => {
                                // not reached: the content starts with `#`
                                proof {
                                    assert(false);
                                }
                                return Err(String::new());
                            },
                            Err(detail) => {
                                proof {
                                    lemma_docx_failed_stays(events@, i + 1);
                                }
                                return Err(detail);
                            },
                        }
                    } else {
                        push_reference(&mut text, e);
                    }
                }
            },
            XmlEvent::CharRef(_) => {
                if in_run {
                    push_reference(&mut text, e);
                }
            },
            _ => {},
        }
        i = i + 1;
    }
    proof {
        assert(events@.subrange(0, events@.len() as int) =~= events@);
    }
    let (lo, hi) = trim_range(&text, 0, text.len());
    proof {
        assert(text@.subrange(0, text@.len() as int) =~= text@);
    }
    Ok(string_from_range(&text, lo, hi))
}

} // verus!

verus! {

/// The raw text of events one after the other is their raw texts one after
/// the other.
pub proof fn lemma_xml_raw_text_concat(a: Seq<XmlEvent>, b: Seq<XmlEvent>)
    ensures
        xml_raw_text(a + b) == xml_raw_text(a) + xml_raw_text(b),
    decreases b.len(),
{
    if b.len() == 0 {
        assert(a + b =~= a);
        assert(xml_raw_text(a) + Seq::<char>::empty() =~= xml_raw_text(a));
    } else {
        lemma_xml_raw_text_concat(a, b.drop_last());
        assert((a + b).drop_last() =~= a + b.drop_last());
        assert((a + b).last() == b.last());
        assert(xml_raw_text(a) + xml_raw_text(b.drop_last()) + xml_event_text(b.last())
            =~= xml_raw_text(a) + (xml_raw_text(b.drop_last()) + xml_event_text(b.last())));
    }
}

/// Every closed element ends a line: whatever comes before and after an
/// end tag, the raw text holds a newline in its place, so the text of two
/// elements closed one after the other never runs together; character data
/// is kept as it is.
pub proof fn lemma_xml_end_breaks_line(a: Seq<XmlEvent>, name: String, b: Seq<XmlEvent>, t: String)
    ensures
        xml_raw_text(a + seq![XmlEvent::End(name)] + b) == xml_raw_text(a) + seq!['\n']
            + xml_raw_text(b),
        xml_raw_text(a.push(XmlEvent::Text(t))) == xml_raw_text(a) + t@,
{
    let e = seq![XmlEvent::End(name)];
    lemma_xml_raw_text_concat(a, e);
    lemma_xml_raw_text_concat(a + e, b);
    assert(e.drop_last() =~= Seq::<XmlEvent>::empty());
    assert(e.last() == XmlEvent::End(name));
    assert(xml_raw_text(Seq::<XmlEvent>::empty()) == Seq::<char>::empty());
    assert(xml_raw_text(e) =~= seq!['\n']);
    let at = a.push(XmlEvent::Text(t));
    assert(at.drop_last() =~= a);
    assert(at.last() == XmlEvent::Text(t));
}

/// Only text inside a `w:t` run is kept: once a run is closed, character
/// data adds nothing until the next run opens; inside an open run (and
/// with no failed reference) it is appended as it is; the run's own start
/// and end tags add nothing.
pub proof fn lemma_docx_keeps_only_run_text(events: Seq<XmlEvent>, t: String, x: String)
    requires
        t@ == seq!['t'],
    ensures
        docx_state(events.push(XmlEvent::End(t)).push(XmlEvent::Text(x))).text == docx_state(
            events,
        ).text,
        docx_state(events.push(XmlEvent::Start(t))).text == docx_state(events).text,
        docx_state(events.push(XmlEvent::End(t))).text == docx_state(events).text,
        docx_state(events).failed is None ==> docx_state(
            events.push(XmlEvent::Start(t)).push(XmlEvent::Text(x)),
        ).text == docx_state(events).text + x@,
        docx_state(seq![XmlEvent::Text(x)]).text.len() == 0,
{
    let e1 = events.push(XmlEvent::End(t));
    let e2 = e1.push(XmlEvent::Text(x));
    assert(e2.drop_last() =~= e1);
    assert(e1.drop_last() =~= events);
    let s1 = events.push(XmlEvent::Start(t));
    let s2 = s1.push(XmlEvent::Text(x));
    assert(s2.drop_last() =~= s1);
    assert(s1.drop_last() =~= events);
    let one = seq![XmlEvent::Text(x)];
    assert(one.drop_last() =~= Seq::<XmlEvent>::empty());
    assert(one.last() == XmlEvent::Text(x));
    assert(docx_state(Seq::<XmlEvent>::empty()).text.len() == 0);
    assert(!docx_state(Seq::<XmlEvent>::empty()).in_run);
}

} // verus!
