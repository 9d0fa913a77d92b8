//! Notebook cells and their XML form.
//!
//! A cell is either a **command** (sent over the connection when run) or a
//! **note** (never sent; it documents the commands around it). A notebook is
//! stored as `<notebook><cell kind="command">...</cell>...</notebook>`;
//! `quick_xml` writes and reads the XML, this module decides what is
//! written and what the events read back mean.
use vstd::prelude::*;

use quick_xml::events::attributes::AttrError;
use quick_xml::events::{BytesEnd, BytesRef, BytesStart, BytesText, Event};
use quick_xml::{Reader, Writer};

use crate::text::{chars_eq_str, chars_of, copy_string, push_char, trim, trim_chars, string_from_chars};

verus! {

#[derive(Debug, Clone, Copy, PartialEq, Eq, Structural)]
pub enum CellKind {
    Command,
    Note,
}

/// The value of a cell's `kind` attribute.
pub open spec fn kind_attr(kind: CellKind) -> Seq<char> {
    match kind {
        CellKind::Command => "command"@,
        CellKind::Note => "note"@,
    }
}

impl CellKind {
    pub fn as_xml_attr(self) -> (r: &'static str)
        ensures
            r@ == kind_attr(self),
    {
        match self {
            CellKind::Command => "command",
            CellKind::Note => "note",
        }
    }
}

/// One notebook cell.
#[derive(Debug, Clone)]
pub struct Cell {
    pub kind: CellKind,
    pub text: String,
}

/// A cell as plain values.
pub struct CellView {
    pub kind: CellKind,
    pub text: Seq<char>,
}

impl View for Cell {
    type V = CellView;

    open spec fn view(&self) -> CellView {
        CellView { kind: self.kind, text: self.text@ }
    }
}

pub open spec fn cells_view(cells: Seq<Cell>) -> Seq<CellView> {
    cells.map_values(|c: Cell| c@)
}

impl Cell {
    /// An empty command cell.
    pub fn command() -> (c: Self)
        ensures
            c.kind == CellKind::Command,
            c.text@ == Seq::<char>::empty(),
    {
        Cell { kind: CellKind::Command, text: String::new() }
    }
}

// ---------------------------------------------------------------------------
// Writing
// ---------------------------------------------------------------------------

/// One event handed to the XML writer.
#[derive(Debug)]
pub enum XmlWrite {
    /// `<name>`.
    Start(String),
    /// `<name key="value">`.
    StartWithAttribute { name: String, key: String, value: String },
    /// Text, escaped by the writer.
    Text(String),
    /// `</name>`.
    End(String),
}

pub enum XmlWriteView {
    Start(Seq<char>),
    StartWithAttribute { name: Seq<char>, key: Seq<char>, value: Seq<char> },
    Text(Seq<char>),
    End(Seq<char>),
}

impl View for XmlWrite {
    type V = XmlWriteView;

    open spec fn view(&self) -> XmlWriteView {
        match self {
            XmlWrite::Start(n) => XmlWriteView::Start(n@),
            XmlWrite::StartWithAttribute { name, key, value } => XmlWriteView::StartWithAttribute {
                name: name@,
                key: key@,
                value: value@,
            },
            XmlWrite::Text(t) => XmlWriteView::Text(t@),
            XmlWrite::End(n) => XmlWriteView::End(n@),
        }
    }
}

pub open spec fn writes_view(ws: Seq<XmlWrite>) -> Seq<XmlWriteView> {
    ws.map_values(|w: XmlWrite| w@)
}

/// The events that make up the notebook of `cells`, in order.
pub open spec fn document_writes(cells: Seq<CellView>) -> Seq<XmlWriteView>
    decreases cells.len(),
{
    if cells.len() == 0 {
        seq![XmlWriteView::Start("notebook"@), XmlWriteView::End("notebook"@)]
    } else {
        let before = document_writes(cells.drop_last());
        let c = cells.last();
        before.drop_last() + seq![
            XmlWriteView::StartWithAttribute { name: "cell"@, key: "kind"@, value: kind_attr(c.kind) },
            XmlWriteView::Text(c.text),
            XmlWriteView::End("cell"@),
            XmlWriteView::End("notebook"@),
        ]
    }
}

/// The saved notebook is one `notebook` element holding exactly one `cell`
/// element per cell, in the cells' order, every cell included whatever its
/// text: the k-th opens with `kind="command"` or `kind="note"` as the cell's
/// kind, holds the cell's text and closes.
pub proof fn lemma_document_layout(cells: Seq<CellView>)
    ensures
        document_writes(cells).len() == 3 * cells.len() + 2,
        document_writes(cells)[0] == XmlWriteView::Start("notebook"@),
        document_writes(cells)[3 * cells.len() + 1int] == XmlWriteView::End("notebook"@),
        forall|k: int|
            0 <= k < cells.len() ==> {
                &&& document_writes(cells)[3 * k + 1] == XmlWriteView::StartWithAttribute {
                    name: "cell"@,
                    key: "kind"@,
                    value: if (#[trigger] cells[k]).kind == CellKind::Note {
                        "note"@
                    } else {
                        "command"@
                    },
                }
                &&& document_writes(cells)[3 * k + 2] == XmlWriteView::Text(cells[k].text)
                &&& document_writes(cells)[3 * k + 3] == XmlWriteView::End("cell"@)
            },
    decreases cells.len(),
{
    if cells.len() > 0 {
        let prev = cells.drop_last();
        lemma_document_layout(prev);
        let dp = document_writes(prev);
        let d = document_writes(cells);
        let n = cells.len() as int;
        assert(dp.drop_last().len() == 3 * n - 2);
        assert forall|k: int| 0 <= k < n implies {
            &&& d[3 * k + 1] == XmlWriteView::StartWithAttribute {
                name: "cell"@,
                key: "kind"@,
                value: if (#[trigger] cells[k]).kind == CellKind::Note {
                    "note"@
                } else {
                    "command"@
                },
            }
            &&& d[3 * k + 2] == XmlWriteView::Text(cells[k].text)
            &&& d[3 * k + 3] == XmlWriteView::End("cell"@)
        } by {
            if k < n - 1 {
                assert(prev[k] == cells[k]);
                assert(d[3 * k + 1] == dp[3 * k + 1]);
                assert(d[3 * k + 2] == dp[3 * k + 2]);
                assert(d[3 * k + 3] == dp[3 * k + 3]);
            } else {
                assert(cells[k] == cells.last());
            }
        }
        assert(d[0] == dp[0]);
    }
}

/// The events written into `w` so far.
pub uninterp spec fn writer_events(w: Writer<Vec<u8>>) -> Seq<XmlWriteView>;

/// The text that `quick_xml`'s writer, indenting by two spaces, produces
/// for the events `events`.
pub uninterp spec fn xml_text(events: Seq<XmlWriteView>) -> Seq<char>;

#[verifier::external_type_specification]
#[verifier::external_body]
#[verifier::reject_recursive_types(W)]
pub struct ExXmlWriter<W>(Writer<W>);

/// Calls `Writer::new_with_indent` on an empty byte vector, indenting by two
/// spaces. Claims only that nothing has been written yet.
#[verifier::external_body]
fn new_xml_writer() -> (w: Writer<Vec<u8>>)
    ensures
        writer_events(w) == Seq::<XmlWriteView>::empty(),
{
    Writer::new_with_indent(Vec::new(), b' ', 2)
}

/// Calls `Writer::write_event` with the event `ev` stands for (text escaped
/// by `BytesText::new`). Claims that the write succeeds, as the writer's
/// source shows for a byte vector (its only failures are those of the
/// underlying `write_all`, and appending to a `Vec<u8>` does not fail), and
/// that the event is appended to what the writer holds.
#[verifier::external_body]
fn write_xml(w: &mut Writer<Vec<u8>>, ev: &XmlWrite) -> (r: Result<(), ()>)
    ensures
        r is Ok,
        writer_events(*final(w)) == writer_events(*old(w)).push(ev@),
{
    let event = match ev {
        XmlWrite::Start(name) => Event::Start(BytesStart::new(name.as_str())),
        XmlWrite::StartWithAttribute { name, key, value } => {
            let mut start = BytesStart::new(name.as_str());
            start.push_attribute((key.as_str(), value.as_str()));
            Event::Start(start)
        },
        XmlWrite::Text(t) => Event::Text(BytesText::new(t.as_str())),
        XmlWrite::End(name) => Event::End(BytesEnd::new(name.as_str())),
    };
    w.write_event(event).map_err(|_| ())
}

/// Calls `Writer::into_inner`. Claims that the bytes are the UTF-8 encoding
/// of the text the writer produces for the events written into it: the
/// writer's source only ever writes `str` contents (tags, escaped text) and
/// ASCII newlines and indentation.
#[verifier::external_body]
fn xml_writer_bytes(w: Writer<Vec<u8>>) -> (b: Vec<u8>)
    ensures
        b@ == vstd::utf8::encode_utf8(xml_text(writer_events(w))),
{
    w.into_inner()
}

/// Calls `String::from_utf8`. Claims what its documentation states: the
/// bytes are accepted exactly when they are valid UTF-8, as the text they
/// encode.
#[verifier::external_body]
fn utf8_string(bytes: Vec<u8>) -> (r: Option<String>)
    ensures
        r is Some <==> vstd::utf8::valid_utf8(bytes@),
        r matches Some(s) ==> s@ == vstd::utf8::decode_utf8(bytes@),
{
    String::from_utf8(bytes).ok()
}

/// The message shown when writing `w` fails.
pub open spec fn write_failure(w: XmlWriteView) -> Seq<char> {
    match w {
        XmlWriteView::Start(_) => "failed to write <notebook>"@,
        XmlWriteView::StartWithAttribute { .. } => "failed to write <cell>"@,
        XmlWriteView::Text(_) => "failed to write cell text"@,
        XmlWriteView::End(n) => if n == "cell"@ {
            "failed to write </cell>"@
        } else {
            "failed to write </notebook>"@
        },
    }
}

impl XmlWrite {
    fn failure_message(&self) -> (m: &'static str)
        ensures
            m@ == write_failure(self@),
    {
        match self {
            XmlWrite::Start(_) => "failed to write <notebook>",
            XmlWrite::StartWithAttribute { .. } => "failed to write <cell>",
            XmlWrite::Text(_) => "failed to write cell text",
            XmlWrite::End(n) => {
                let c = chars_of(n.as_str());
                if chars_eq_str(c.as_slice(), "cell") {
                    "failed to write </cell>"
                } else {
                    "failed to write </notebook>"
                }
            },
        }
    }
}

/// The events that make up the notebook of `cells`.
pub fn document(cells: &[Cell]) -> (ws: Vec<XmlWrite>)
    ensures
        writes_view(ws@) == document_writes(cells_view(cells@)),
{
    let mut ws: Vec<XmlWrite> = Vec::new();
    ws.push(XmlWrite::Start(String::from_str("notebook")));
    let mut i: usize = 0;
    proof {
        assert(cells_view(cells@.take(0)) =~= Seq::<CellView>::empty());
    }
    while i < cells.len()
        invariant
            i <= cells.len(),
            writes_view(ws@) == document_writes(cells_view(cells@.take(i as int))).drop_last(),
        decreases cells.len() - i,
    {
        let c = &cells[i];
        ws.push(
            XmlWrite::StartWithAttribute {
                name: String::from_str("cell"),
                key: String::from_str("kind"),
                value: String::from_str(c.kind.as_xml_attr()),
            },
        );
        ws.push(XmlWrite::Text(copy_string(&c.text)));
        ws.push(XmlWrite::End(String::from_str("cell")));
        proof {
            let cv = cells_view(cells@.take(i + 1));
            assert(cv.drop_last() =~= cells_view(cells@.take(i as int)));
            assert(cv.last() == cells@[i as int]@);
            let d = document_writes(cv);
            assert(d.drop_last() =~= writes_view(ws@));
        }
        i = i + 1;
    }
    ws.push(XmlWrite::End(String::from_str("notebook")));
    proof {
        assert(cells@.take(cells.len() as int) =~= cells@);
        lemma_document_ends(cells_view(cells@));
        let d = document_writes(cells_view(cells@));
        assert(writes_view(ws@) =~= d.drop_last().push(d.last()));
        assert(d.drop_last().push(d.last()) =~= d);
    }
    ws
}

proof fn lemma_document_ends(cells: Seq<CellView>)
    ensures
        document_writes(cells).len() >= 2,
        document_writes(cells).last() == XmlWriteView::End("notebook"@),
    decreases cells.len(),
{
    if cells.len() > 0 {
        lemma_document_ends(cells.drop_last());
    }
}

/// The cells as XML text: the text the writer produces for the notebook's
/// events. Writing to memory does not fail, so this always succeeds.
pub fn to_xml(cells: &[Cell]) -> (r: Result<String, String>)
    ensures
        r is Ok,
        r matches Ok(s) ==> s@ == xml_text(document_writes(cells_view(cells@))),
{
    let ws = document(cells);
    let mut w = new_xml_writer();
    let mut i: usize = 0;
    while i < ws.len()
        invariant
            i <= ws.len(),
            writer_events(w) == writes_view(ws@).take(i as int),
            writes_view(ws@) == document_writes(cells_view(cells@)),
        decreases ws.len() - i,
    {
        match write_xml(&mut w, &ws[i]) {
            Ok(()) => {},
            Err(()) => {
                proof {
                    assert(writes_view(ws@)[i as int] == ws@[i as int]@);
                }
                return Err(String::from_str(ws[i].failure_message()));
            },
        }
        proof {
            assert(writes_view(ws@).take(i + 1) =~= writes_view(ws@).take(i as int).push(
                ws@[i as int]@,
            ));
        }
        i = i + 1;
    }
    proof {
        assert(writes_view(ws@).take(ws.len() as int) =~= writes_view(ws@));
    }
    let bytes = xml_writer_bytes(w);
    proof {
        vstd::utf8::encode_utf8_valid_utf8(xml_text(writer_events(w)));
        vstd::utf8::encode_utf8_decode_utf8(xml_text(writer_events(w)));
    }
    match utf8_string(bytes) {
        Some(s) => Ok(s),
        None => Err(String::from_str("notebook XML was not valid UTF-8")),
    }
}

// ---------------------------------------------------------------------------
// Reading
// ---------------------------------------------------------------------------

/// One event read from XML, as far as a notebook cares.
#[derive(Debug)]
pub enum XmlEvent {
    /// A start tag: its local name, and each attribute's local name and raw
    /// value (`None` for a malformed attribute).
    Start(String, Vec<Result<(String, String), AttrError>>),
    /// An end tag: its local name.
    End(String),
    /// Character data, still escaped.
    Text(String),
    /// A reference `&name;`: its name.
    Reference(String),
    /// The content of a CDATA section.
    CData(String),
    /// Anything else (empty element, comment, declaration, ...).
    Other,
    /// End of the document.
    Eof,
}

pub enum XmlEventView {
    Start { name: Seq<char>, attributes: Seq<Option<(Seq<char>, Seq<char>)>> },
    End { name: Seq<char> },
    Text(Seq<char>),
    Reference(Seq<char>),
    CData(Seq<char>),
    Other,
    Eof,
}

pub open spec fn attribute_view(a: Result<(String, String), AttrError>) -> Option<(Seq<char>, Seq<char>)> {
    match a {
        Ok((k, v)) => Some((k@, v@)),
        Err(_) => None,
    }
}

impl View for XmlEvent {
    type V = XmlEventView;

    open spec fn view(&self) -> XmlEventView {
        match self {
            XmlEvent::Start(name, attributes) => XmlEventView::Start {
                name: name@,
                attributes: attributes@.map_values(|a: Result<(String, String), AttrError>| attribute_view(a)),
            },
            XmlEvent::End(name) => XmlEventView::End { name: name@ },
            XmlEvent::Text(t) => XmlEventView::Text(t@),
            XmlEvent::Reference(n) => XmlEventView::Reference(n@),
            XmlEvent::CData(t) => XmlEventView::CData(t@),
            XmlEvent::Other => XmlEventView::Other,
            XmlEvent::Eof => XmlEventView::Eof,
        }
    }
}

pub open spec fn events_view(evs: Seq<XmlEvent>) -> Seq<XmlEventView> {
    evs.map_values(|e: XmlEvent| e@)
}

/// The events `quick_xml`'s reader, with its default settings, yields for
/// the text `xml`, in order, up to and including the first end-of-file or
/// read error (`None`). What the reader would yield after a read error is
/// not part of it.
pub uninterp spec fn xml_events(xml: Seq<char>) -> Seq<Option<XmlEventView>>;

/// The events the reader `r` will still yield.
pub uninterp spec fn reader_events(r: Reader<&[u8]>) -> Seq<Option<XmlEventView>>;

/// A stream of reads that ends, with end-of-file or an error, at its last
/// element and not before.
pub open spec fn ends_once(evs: Seq<Option<XmlEventView>>) -> bool {
    &&& evs.len() > 0
    &&& (evs.last() is None || evs.last() == Some(XmlEventView::Eof))
    &&& forall|i: int| 0 <= i < evs.len() - 1 ==> (#[trigger] evs[i]) is Some && evs[i] != Some(
        XmlEventView::Eof,
    )
}

#[verifier::external_type_specification]
#[verifier::external_body]
#[verifier::reject_recursive_types(R)]
pub struct ExXmlReader<R>(Reader<R>);

#[verifier::external_type_specification]
#[verifier::external_body]
pub struct ExXmlError(quick_xml::Error);

#[verifier::external_type_specification]
#[verifier::external_body]
pub struct ExAttrError(AttrError);

/// Calls `Reader::from_str`. Claims that the reader will yield the events of
/// `xml` as named above, ending with end-of-file or a read error after
/// finitely many events. Reads after a read error are left unmodelled; no
/// caller makes one.
#[verifier::external_body]
fn new_xml_reader(xml: &str) -> (r: Reader<&[u8]>)
    ensures
        reader_events(r) == xml_events(xml@),
        ends_once(reader_events(r)),
{
    Reader::from_str(xml)
}

/// Calls `Reader::read_event` and converts the event to plain values.
/// Claims that it yields the next of the reader's events.
#[verifier::external_body]
fn read_xml_event(reader: &mut Reader<&[u8]>) -> (r: Result<XmlEvent, quick_xml::Error>)
    requires
        reader_events(*old(reader)).len() > 0,
    ensures
        reader_events(*final(reader)) == reader_events(*old(reader)).drop_first(),
        match reader_events(*old(reader))[0] {
            Some(ev) => r matches Ok(e) && e@ == ev,
            None => r is Err,
        },
{
    Ok(match reader.read_event()? {
        Event::Start(e) => XmlEvent::Start(
            e.local_name().as_ref().into(),
            e.attributes().map(|a| a.map(|a| (a.key.local_name().as_ref().into(), a.value.into()))).collect(),
        ),
        Event::End(e) => XmlEvent::End(e.local_name().as_ref().into()),
        Event::Text(e) => XmlEvent::Text(e.into_inner().into_owned()),
        Event::GeneralRef(e) => XmlEvent::Reference(e.into_inner().into_owned()),
        Event::CData(e) => XmlEvent::CData(e.into_inner().into_owned()),
        Event::Eof => XmlEvent::Eof,
        _ => XmlEvent::Other,
    })
}

/// The text an optional string holds.
pub open spec fn text_view(r: Option<String>) -> Option<Seq<char>> {
    match r {
        Some(s) => Some(s@),
        None => None,
    }
}

/// The text holds no reference (no `&`).
pub open spec fn no_reference(t: Seq<char>) -> bool {
    !t.contains('&')
}

/// The reference name is a character reference (starts with `#`).
pub open spec fn is_char_ref_name(name: Seq<char>) -> bool {
    name.len() > 0 && name[0] == '#'
}

/// `quick_xml::escape::unescape` on `raw`: the text with its references
/// replaced, or `None` when it holds a malformed or unknown one.
pub uninterp spec fn xml_unescape(raw: Seq<char>) -> Option<Seq<char>>;

/// The text a raw text event stands for: text without `&` is itself;
/// otherwise its references are replaced (`xml_unescape`).
pub open spec fn text_of(raw: Seq<char>) -> Option<Seq<char>> {
    if no_reference(raw) {
        Some(raw)
    } else {
        xml_unescape(raw)
    }
}

/// Calls `quick_xml::escape::unescape`. Claims that the result is the named
/// function of the text and, as its source shows, that text without `&`
/// comes back unchanged.
#[verifier::external_body]
fn unescape_text(raw: &str) -> (r: Option<String>)
    ensures
        text_view(r) == xml_unescape(raw@),
        no_reference(raw@) ==> text_view(r) == Some(raw@),
{
    quick_xml::escape::unescape(raw).ok().map(|s| s.into_owned())
}

/// The value of `c` as a digit in base `radix` (10 or 16; hexadecimal
/// digits in either case), if it is one.
pub open spec fn digit_in_radix(c: char, radix: int) -> Option<int> {
    if '0' <= c <= '9' {
        Some(c as int - '0' as int)
    } else if radix == 16 && 'a' <= c <= 'f' {
        Some(c as int - 'a' as int + 10)
    } else if radix == 16 && 'A' <= c <= 'F' {
        Some(c as int - 'A' as int + 10)
    } else {
        None
    }
}

/// The number the digits `ds` write in base `radix`, read most significant
/// first; `None` when one of them is no digit. (No digits read as 0.)
pub open spec fn radix_value(ds: Seq<char>, radix: int) -> Option<int>
    decreases ds.len(),
{
    if ds.len() == 0 {
        Some(0)
    } else {
        match (radix_value(ds.drop_last(), radix), digit_in_radix(ds.last(), radix)) {
            (Some(v), Some(d)) => Some(v * radix + d),
            _ => None,
        }
    }
}

/// A Unicode scalar value: what `char::from_u32` accepts.
pub open spec fn is_scalar(v: int) -> bool {
    0 <= v <= 0x10FFFF && !(0xD800 <= v <= 0xDFFF)
}

/// `BytesRef::resolve_char_ref` on a reference named `name`: a name not
/// starting with `#` is no character reference (`Ok(None)`); otherwise
/// what follows the `#` is a decimal number, or after an `x` a hexadecimal
/// one, with at least one digit and no sign, naming a nonzero Unicode
/// scalar value, which is the character; anything else is an error.
pub open spec fn char_ref(name: Seq<char>) -> Result<Option<char>, ()> {
    if !is_char_ref_name(name) {
        Ok(None)
    } else {
        let num = name.drop_first();
        let hex = num.len() > 0 && num[0] == 'x';
        let digits = if hex { num.drop_first() } else { num };
        let radix: int = if hex { 16 } else { 10 };
        match radix_value(digits, radix) {
            Some(v) => if digits.len() > 0 && v != 0 && is_scalar(v) {
                Ok(Some(v as char))
            } else {
                Err(())
            },
            None => Err(()),
        }
    }
}

/// Calls `BytesRef::resolve_char_ref`. Claims what its source shows
/// (`parse_number` and `from_str_radix` in quick-xml's `escape` module,
/// over `u32::from_str_radix` and `char::from_u32`): the result is
/// `char_ref` of the name.
#[verifier::external_body]
fn resolve_char_ref(name: &str) -> (r: Result<Option<char>, ()>)
    ensures
        r == char_ref(name@),
{
    BytesRef::new(name).resolve_char_ref().map_err(|_| ())
}

/// The five entities XML predefines.
pub open spec fn predefined_entity(name: Seq<char>) -> Option<Seq<char>> {
    if name == "lt"@ {
        Some("<"@)
    } else if name == "gt"@ {
        Some(">"@)
    } else if name == "amp"@ {
        Some("&"@)
    } else if name == "apos"@ {
        Some("'"@)
    } else if name == "quot"@ {
        Some("\""@)
    } else {
        None
    }
}

/// Calls `quick_xml::escape::resolve_predefined_entity` (without the
/// `escape-html` feature). Claims what its source shows: the five entities
/// XML predefines, and nothing else.
#[verifier::external_body]
fn resolve_entity(name: &str) -> (r: Option<&'static str>)
    ensures
        match predefined_entity(name@) {
            Some(t) => r matches Some(s) && s@ == t,
            None => r is None,
        },
{
    quick_xml::escape::resolve_predefined_entity(name)
}

/// Where decoding the events of a notebook stands.
pub enum Decoding {
    /// Still reading: the cells finished so far and the one being read.
    Reading { cells: Seq<CellView>, current: Option<CellView> },
    /// End of file reached.
    Finished(Seq<CellView>),
    /// Failed with this message.
    Failed(Seq<char>),
}

/// The kind a cell's attributes give it: `note` when the first well-formed
/// attribute named `kind` says so, `command` otherwise (an unknown or
/// missing kind falls back to a command).
pub open spec fn kind_of_attributes(attrs: Seq<Option<(Seq<char>, Seq<char>)>>) -> CellKind
    decreases attrs.len(),
{
    if attrs.len() == 0 {
        CellKind::Command
    } else {
        match attrs[0] {
            Some((k, v)) => if k == "kind"@ {
                if v == "note"@ {
                    CellKind::Note
                } else {
                    CellKind::Command
                }
            } else {
                kind_of_attributes(attrs.drop_first())
            },
            None => kind_of_attributes(attrs.drop_first()),
        }
    }
}

/// `d` with `more` appended to the cell being read, if any.
pub open spec fn add_text(d: Decoding, more: Seq<char>) -> Decoding {
    match d {
        Decoding::Reading { cells, current: Some(c) } => Decoding::Reading {
            cells,
            current: Some(CellView { kind: c.kind, text: c.text + more }),
        },
        _ => d,
    }
}

/// Whether a cell is being read.
pub open spec fn in_cell(d: Decoding) -> bool {
    d matches Decoding::Reading { current: Some(_), .. }
}

/// One step of decoding: a `cell` start tag opens a cell, text, references
/// and CDATA inside a cell add to its text, a `cell` end tag closes it;
/// everything else is skipped.
pub open spec fn decode_step(d: Decoding, ev: XmlEventView) -> Decoding {
    match d {
        Decoding::Reading { cells, current } => match ev {
            XmlEventView::Start { name, attributes } => if name == "cell"@ {
                Decoding::Reading {
                    cells,
                    current: Some(CellView { kind: kind_of_attributes(attributes), text: Seq::empty() }),
                }
            } else {
                d
            },
            XmlEventView::Text(raw) => if in_cell(d) {
                match text_of(raw) {
                    Some(t) => add_text(d, t),
                    None => Decoding::Failed("invalid text in notebook XML"@),
                }
            } else {
                d
            },
            XmlEventView::Reference(name) => if in_cell(d) {
                match char_ref(name) {
                    Err(_) => Decoding::Failed("invalid character reference in notebook XML"@),
                    Ok(Some(ch)) => add_text(d, seq![ch]),
                    Ok(None) => match predefined_entity(name) {
                        Some(t) => add_text(d, t),
                        None => Decoding::Failed(
                            "unsupported entity reference '&"@ + name + ";' in notebook XML"@,
                        ),
                    },
                }
            } else {
                d
            },
            XmlEventView::CData(t) => add_text(d, t),
            XmlEventView::End { name } => if name == "cell"@ {
                match current {
                    Some(c) => Decoding::Reading { cells: cells.push(c), current: None },
                    None => d,
                }
            } else {
                d
            },
            XmlEventView::Other => d,
            XmlEventView::Eof => Decoding::Finished(cells),
        },
        _ => d,
    }
}

/// Decoding after the events `evs`.
pub open spec fn decode_all(evs: Seq<XmlEventView>) -> Decoding
    decreases evs.len(),
{
    if evs.len() == 0 {
        Decoding::Reading { cells: Seq::empty(), current: None }
    } else {
        decode_step(decode_all(evs.drop_last()), evs.last())
    }
}

/// The cells the events `evs` describe, or why they describe none. Events
/// after the end of the file are ignored; running out of events counts as
/// the end.
pub open spec fn cells_of_events(evs: Seq<XmlEventView>) -> Result<Seq<CellView>, Seq<char>> {
    match decode_all(evs) {
        Decoding::Reading { cells, .. } => Ok(cells),
        Decoding::Finished(cells) => Ok(cells),
        Decoding::Failed(m) => Err(m),
    }
}

/// Reading the rest `rest` of a document, decoding having reached `d`:
/// stops at the first decoding failure, read error or end-of-file.
pub open spec fn read_xml(rest: Seq<Option<XmlEventView>>, d: Decoding) -> Result<Seq<CellView>, Seq<char>>
    decreases rest.len(),
{
    match d {
        Decoding::Failed(m) => Err(m),
        Decoding::Finished(cells) => Ok(cells),
        Decoding::Reading { cells, .. } => if rest.len() == 0 {
            Ok(cells)
        } else {
            match rest[0] {
                None => Err("malformed notebook XML"@),
                Some(ev) => if ev == XmlEventView::Eof {
                    Ok(cells)
                } else {
                    read_xml(rest.drop_first(), decode_step(d, ev))
                },
            }
        },
    }
}

/// The cells that reading the text `xml` gives, or why it gives none.
pub open spec fn cells_of_xml(xml: Seq<char>) -> Result<Seq<CellView>, Seq<char>> {
    read_xml(xml_events(xml), Decoding::Reading { cells: Seq::empty(), current: None })
}

/// The cells read so far and the one being read.
struct CellDecoder {
    cells: Vec<Cell>,
    current: Option<Cell>,
}

impl View for CellDecoder {
    type V = Decoding;

    closed spec fn view(&self) -> Decoding {
        Decoding::Reading {
            cells: cells_view(self.cells@),
            current: match self.current {
                Some(c) => Some(c@),
                None => None,
            },
        }
    }
}

fn text_pushed(s: &mut String, more: &str)
    ensures
        final(s)@ == old(s)@ + more@,
{
    s.append(more);
}

impl CellDecoder {
    fn new() -> (d: CellDecoder)
        ensures
            d@ == (Decoding::Reading { cells: Seq::empty(), current: None }),
    {
        let d = CellDecoder { cells: Vec::new(), current: None };
        proof {
            assert(cells_view(d.cells@) =~= Seq::<CellView>::empty());
        }
        d
    }

    fn add_text(&mut self, more: &str)
        ensures
            final(self)@ == add_text(old(self)@, more@),
    {
        match &mut self.current {
            Some(c) => {
                text_pushed(&mut c.text, more);
            },
            None => {},
        }
    }

    /// Decodes one event. `Ok(true)` at end of file, `Ok(false)` to go on.
    fn step(&mut self, ev: &XmlEvent) -> (r: Result<bool, String>)
        ensures
            match decode_step(old(self)@, ev@) {
                Decoding::Reading { .. } => r == Ok::<bool, String>(false) && final(self)@
                    == decode_step(old(self)@, ev@),
                Decoding::Finished(cells) => r == Ok::<bool, String>(true) && cells_view(
                    final(self).cells@,
                ) == cells,
                Decoding::Failed(m) => r matches Err(e) && e@ == m,
            },
    {
        match ev {
            XmlEvent::Start(name, attributes) => {
                let n = chars_of(name.as_str());
                if chars_eq_str(n.as_slice(), "cell") {
                    let kind = kind_from_attributes(attributes.as_slice());
                    self.current = Some(Cell { kind, text: String::new() });
                }
                Ok(false)
            },
            XmlEvent::Text(raw) => {
                if self.current.is_some() {
                    match unescape_text(raw.as_str()) {
                        Some(t) => {
                            self.add_text(t.as_str());
                            Ok(false)
                        },
                        None => Err(String::from_str("invalid text in notebook XML")),
                    }
                } else {
                    Ok(false)
                }
            },
            XmlEvent::Reference(name) => {
                if self.current.is_some() {
                    match resolve_char_ref(name.as_str()) {
                        Err(()) => Err(String::from_str("invalid character reference in notebook XML")),
                        Ok(Some(ch)) => {
                            let mut one = String::new();
                            push_char(&mut one, ch);
                            self.add_text(one.as_str());
                            Ok(false)
                        },
                        Ok(None) => match resolve_entity(name.as_str()) {
                            Some(t) => {
                                self.add_text(t);
                                Ok(false)
                            },
                            None => {
                                let mut m = String::from_str("unsupported entity reference '&");
                                m.append(name.as_str());
                                m.append(";' in notebook XML");
                                Err(m)
                            },
                        },
                    }
                } else {
                    Ok(false)
                }
            },
            XmlEvent::CData(t) => {
                self.add_text(t.as_str());
                Ok(false)
            },
            XmlEvent::End(name) => {
                let n = chars_of(name.as_str());
                if chars_eq_str(n.as_slice(), "cell") {
                    let taken = self.current.take();
                    match taken {
                        Some(c) => {
                            self.cells.push(c);
                            proof {
                                assert(cells_view(self.cells@) =~= cells_view(old(self).cells@).push(
                                    c@,
                                ));
                            }
                        },
                        None => {},
                    }
                }
                Ok(false)
            },
            XmlEvent::Other => Ok(false),
            XmlEvent::Eof => Ok(true),
        }
    }
}

/// The kind the attributes of a `cell` tag give it.
fn kind_from_attributes(attrs: &[Result<(String, String), AttrError>]) -> (k: CellKind)
    ensures
        k == kind_of_attributes(attrs@.map_values(|a: Result<(String, String), AttrError>| attribute_view(a))),
{
    let ghost all = attrs@.map_values(|a: Result<(String, String), AttrError>| attribute_view(a));
    let mut i: usize = 0;
    proof {
        assert(all.skip(0) =~= all);
    }
    while i < attrs.len()
        invariant
            i <= attrs.len(),
            all == attrs@.map_values(|a: Result<(String, String), AttrError>| attribute_view(a)),
            kind_of_attributes(all) == kind_of_attributes(all.skip(i as int)),
        decreases attrs.len() - i,
    {
        proof {
            assert(all.skip(i as int).drop_first() =~= all.skip(i + 1));
            assert(all.skip(i as int)[0] == attribute_view(attrs@[i as int]));
        }
        match &attrs[i] {
            Ok((k, v)) => {
                let kc = chars_of(k.as_str());
                if chars_eq_str(kc.as_slice(), "kind") {
                    let vc = chars_of(v.as_str());
                    return if chars_eq_str(vc.as_slice(), "note") {
                        CellKind::Note
                    } else {
                        CellKind::Command
                    };
                }
            },
            Err(_) => {},
        }
        i = i + 1;
    }
    proof {
        assert(all.skip(i as int).len() == 0);
    }
    CellKind::Command
}

/// The cells that the events `events` describe, or why they describe none.
pub fn cells_from_events(events: &[XmlEvent]) -> (r: Result<Vec<Cell>, String>)
    ensures
        match cells_of_events(events_view(events@)) {
            Ok(cells) => r matches Ok(v) && cells_view(v@) == cells,
            Err(m) => r matches Err(e) && e@ == m,
        },
{
    let mut d = CellDecoder::new();
    let mut i: usize = 0;
    while i < events.len()
        invariant
            i <= events.len(),
            d@ == decode_all(events_view(events@).take(i as int)),
        decreases events.len() - i,
    {
        proof {
            assert(events_view(events@).take(i + 1).drop_last() =~= events_view(events@).take(i as int));
        }
        match d.step(&events[i]) {
            Ok(false) => {},
            Ok(true) => {
                proof {
                    lemma_decode_sticks(events_view(events@), i as int + 1);
                }
                return Ok(d.cells);
            },
            Err(e) => {
                proof {
                    lemma_decode_sticks(events_view(events@), i as int + 1);
                }
                return Err(e);
            },
        }
        i = i + 1;
    }
    proof {
        assert(events_view(events@).take(events.len() as int) =~= events_view(events@));
    }
    Ok(d.cells)
}

/// Once decoding has finished or failed, later events change nothing.
proof fn lemma_decode_sticks(evs: Seq<XmlEventView>, k: int)
    requires
        0 <= k <= evs.len(),
        !(decode_all(evs.take(k)) is Reading),
    ensures
        decode_all(evs) == decode_all(evs.take(k)),
    decreases evs.len() - k,
{
    if k < evs.len() {
        assert(evs.take(k + 1).drop_last() =~= evs.take(k));
        lemma_decode_sticks(evs, k + 1);
    } else {
        assert(evs.take(k) =~= evs);
    }
}

/// Parse notebook XML. An unknown `kind` attribute (or a missing one)
/// falls back to a command cell.
pub fn from_xml(xml: &str) -> (r: Result<Vec<Cell>, String>)
    ensures
        match cells_of_xml(xml@) {
            Ok(cells) => r matches Ok(v) && cells_view(v@) == cells,
            Err(m) => r matches Err(e) && e@ == m,
        },
{
    let mut reader = new_xml_reader(xml);
    let mut d = CellDecoder::new();
    loop
        invariant
            cells_of_xml(xml@) == read_xml(reader_events(reader), d@),
            ends_once(reader_events(reader)),
        decreases reader_events(reader).len(),
    {
        let ghost rest = reader_events(reader);
        let ev = match read_xml_event(&mut reader) {
            Ok(ev) => ev,
            Err(_) => {
                return Err(String::from_str("malformed notebook XML"));
            },
        };
        proof {
            if rest.len() > 1 {
                assert forall|i: int| 0 <= i < rest.drop_first().len() - 1 implies (
                #[trigger] rest.drop_first()[i]) is Some && rest.drop_first()[i] != Some(
                    XmlEventView::Eof,
                ) by {
                    assert(rest.drop_first()[i] == rest[i + 1]);
                }
            }
        }
        let ghost before = d@;
        proof {
            assert(rest[0] == Some(ev@));
        }
        match d.step(&ev) {
            Ok(false) => {
                proof {
                    assert(rest.len() > 1);
                }
            },
            Ok(true) => {
                return Ok(d.cells);
            },
            Err(e) => {
                proof {
                    assert(ev@ != XmlEventView::Eof);
                    assert(read_xml(rest, before) == read_xml(rest.drop_first(), decode_step(before, ev@)));
                }
                return Err(e);
            },
        }
    }
}

/// The path typed for a notebook file, trimmed; an empty path is refused.
pub fn notebook_path(path: &str) -> (r: Result<String, String>)
    ensures
        match r {
            Ok(p) => trim(path@).len() > 0 && p@ == trim(path@),
            Err(m) => trim(path@).len() == 0 && m@ == "Enter a notebook file path"@,
        },
{
    let t = trim_chars(path);
    if t.len() == 0 {
        Err(String::from_str("Enter a notebook file path"))
    } else {
        Ok(string_from_chars(t.as_slice()))
    }
}

/// The tags and text the reader yields for `cells`, one start tag, text and
/// end tag per cell (the whitespace between tags left out).
pub open spec fn cell_tags(cells: Seq<CellView>) -> Seq<XmlEventView>
    decreases cells.len(),
{
    if cells.len() == 0 {
        Seq::empty()
    } else {
        let c = cells.last();
        cell_tags(cells.drop_last()) + seq![
            XmlEventView::Start { name: "cell"@, attributes: seq![Some(("kind"@, kind_attr(c.kind)))] },
            XmlEventView::Text(c.text),
            XmlEventView::End { name: "cell"@ },
        ]
    }
}

proof fn lemma_decode_cell_tags(cells: Seq<CellView>)
    requires
        forall|i: int| 0 <= i < cells.len() ==> text_of(#[trigger] cells[i].text) == Some(cells[i].text),
    ensures
        decode_all(seq![XmlEventView::Start { name: "notebook"@, attributes: Seq::empty() }] + cell_tags(cells))
            == (Decoding::Reading { cells, current: None }),
    decreases cells.len(),
{
    reveal_strlit("cell");
    reveal_strlit("notebook");
    reveal_strlit("kind");
    reveal_strlit("note");
    reveal_strlit("command");
    let head = seq![XmlEventView::Start { name: "notebook"@, attributes: Seq::empty() }];
    if cells.len() == 0 {
        assert(head + cell_tags(cells) =~= head);
        assert(head.drop_last() =~= Seq::<XmlEventView>::empty());
        assert(decode_all(head.drop_last()) == (Decoding::Reading { cells: Seq::empty(), current: None }));
        assert("notebook"@ != "cell"@) by {
            assert("notebook"@.len() == 8);
            assert("cell"@.len() == 4);
        }
        assert(cells =~= Seq::<CellView>::empty());
    } else {
        let rest = cells.drop_last();
        let c = cells.last();
        assert forall|i: int| 0 <= i < rest.len() implies text_of(#[trigger] rest[i].text) == Some(rest[i].text) by {
            assert(rest[i] == cells[i]);
        }
        lemma_decode_cell_tags(rest);
        assert(text_of(cells[cells.len() - 1].text) == Some(cells[cells.len() - 1].text));
        let s0 = head + cell_tags(rest);
        let e1 = XmlEventView::Start { name: "cell"@, attributes: seq![Some(("kind"@, kind_attr(c.kind)))] };
        let e2 = XmlEventView::Text(c.text);
        let e3 = XmlEventView::End { name: "cell"@ };
        let all = head + cell_tags(cells);
        assert(all =~= s0.push(e1).push(e2).push(e3));
        assert(all.drop_last() =~= s0.push(e1).push(e2));
        assert(all.drop_last().drop_last() =~= s0.push(e1));
        assert(all.drop_last().drop_last().drop_last() =~= s0);
        let attrs = seq![Some(("kind"@, kind_attr(c.kind)))];
        assert(attrs.drop_first() =~= Seq::<Option<(Seq<char>, Seq<char>)>>::empty());
        assert(kind_of_attributes(attrs) == c.kind) by {
            assert("command"@ != "note"@) by {
                assert("command"@.len() == 7);
                assert("note"@.len() == 4);
            }
        }
        assert(Seq::<char>::empty() + c.text =~= c.text);
        assert(rest.push(CellView { kind: c.kind, text: c.text }) =~= cells);
        let d0 = Decoding::Reading { cells: rest, current: None };
        assert(decode_all(s0) == d0);
        let d1 = Decoding::Reading { cells: rest, current: Some(CellView { kind: c.kind, text: Seq::empty() }) };
        assert(decode_step(d0, e1) == d1);
        assert(decode_all(s0.push(e1)) == d1) by {
            assert(s0.push(e1).drop_last() =~= s0);
        }
        let d2 = Decoding::Reading { cells: rest, current: Some(CellView { kind: c.kind, text: c.text }) };
        assert(decode_step(d1, e2) == d2);
        assert(decode_all(s0.push(e1).push(e2)) == d2) by {
            assert(s0.push(e1).push(e2).drop_last() =~= s0.push(e1));
        }
        assert(decode_step(d2, e3) == (Decoding::Reading { cells, current: None }));
        assert(decode_all(all) == decode_step(decode_all(all.drop_last()), e3));
    }
}

/// A notebook of cells whose texts read back unchanged decodes to those
/// cells: the kind of each comes back from its `kind` attribute, its text
/// from the text between its tags.
pub proof fn lemma_cells_decode_back(cells: Seq<CellView>)
    requires
        forall|i: int| 0 <= i < cells.len() ==> text_of(#[trigger] cells[i].text) == Some(cells[i].text),
    ensures
        cells_of_events(
            seq![XmlEventView::Start { name: "notebook"@, attributes: Seq::empty() }] + cell_tags(cells)
                + seq![XmlEventView::End { name: "notebook"@ }, XmlEventView::Eof],
        ) == Ok::<Seq<CellView>, Seq<char>>(cells),
{
    reveal_strlit("cell");
    reveal_strlit("notebook");
    lemma_decode_cell_tags(cells);
    let s0 = seq![XmlEventView::Start { name: "notebook"@, attributes: Seq::empty() }] + cell_tags(cells);
    let all = s0 + seq![XmlEventView::End { name: "notebook"@ }, XmlEventView::Eof];
    assert(all.drop_last() =~= s0.push(XmlEventView::End { name: "notebook"@ }));
    assert(all.drop_last().drop_last() =~= s0);
    assert("notebook"@ != "cell"@) by {
        assert("notebook"@.len() == 8);
        assert("cell"@.len() == 4);
    }
    let d0 = Decoding::Reading { cells, current: None };
    assert(decode_step(d0, XmlEventView::End { name: "notebook"@ }) == d0);
    assert(decode_all(s0.push(XmlEventView::End { name: "notebook"@ })) == d0) by {
        assert(s0.push(XmlEventView::End { name: "notebook"@ }).drop_last() =~= s0);
    }
    assert(decode_all(all) == decode_step(decode_all(all.drop_last()), XmlEventView::Eof));
}

} // verus!
