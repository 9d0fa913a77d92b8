use quick_xml::events::attributes::AttrError;
use rust_term_console::notebook::{
    cells_from_events, from_xml, notebook_path, to_xml, Cell, CellKind, XmlEvent,
};

#[test]
fn round_trips_command_and_note_cells() {
    let cells = vec![
        Cell { kind: CellKind::Note, text: "# Setup\nRun these in order.".to_string() },
        Cell { kind: CellKind::Command, text: "ls -la <root>".to_string() },
    ];
    let xml = to_xml(&cells).unwrap();
    let parsed = from_xml(&xml).unwrap();

    assert_eq!(parsed.len(), 2);
    assert_eq!(parsed[0].kind, CellKind::Note);
    assert_eq!(parsed[0].text, "# Setup\nRun these in order.");
    assert_eq!(parsed[1].kind, CellKind::Command);
    assert_eq!(parsed[1].text, "ls -la <root>");
}

#[test]
fn notebook_rejects_empty_path() {
    assert!(notebook_path("  ").is_err());
    assert_eq!(notebook_path("  ").unwrap_err(), "Enter a notebook file path");
}

#[test]
fn unknown_kind_attribute_falls_back_to_command() {
    let xml = r#"<notebook><cell kind="bogus">whoami</cell></notebook>"#;
    let cells = from_xml(xml).unwrap();
    assert_eq!(cells[0].kind, CellKind::Command);
}

#[test]
fn notebook_path_is_trimmed() {
    assert_eq!(notebook_path("  nb/x.xml \n").unwrap(), "nb/x.xml");
}

#[test]
fn to_xml_layout() {
    let cells = vec![Cell { kind: CellKind::Command, text: "a & b".to_string() }];
    let xml = to_xml(&cells).unwrap();
    assert_eq!(xml, "<notebook>\n  <cell kind=\"command\">a &amp; b</cell>\n</notebook>");
}

#[test]
fn empty_notebook_round_trips() {
    let xml = to_xml(&[]).unwrap();
    assert_eq!(from_xml(&xml).unwrap().len(), 0);
}

#[test]
fn missing_kind_is_command_and_references_resolve() {
    let xml = "<notebook><cell>x &lt;&#65;&#x42;&quot;<![CDATA[<raw>]]></cell><cell kind=\"note\">n</cell></notebook>";
    let cells = from_xml(xml).unwrap();
    assert_eq!(cells.len(), 2);
    assert_eq!(cells[0].kind, CellKind::Command);
    assert_eq!(cells[0].text, "x <AB\"<raw>");
    assert_eq!(cells[1].kind, CellKind::Note);
}

#[test]
fn unknown_entity_is_an_error() {
    let err = from_xml("<notebook><cell>&nbsp;</cell></notebook>").unwrap_err();
    assert_eq!(err, "unsupported entity reference '&nbsp;' in notebook XML");
}

#[test]
fn bad_char_reference_is_an_error() {
    let err = from_xml("<notebook><cell>&#xZZ;</cell></notebook>").unwrap_err();
    assert_eq!(err, "invalid character reference in notebook XML");
}

#[test]
fn malformed_xml_is_an_error() {
    let err = from_xml("<notebook><cell>x</notebook>").unwrap_err();
    assert_eq!(err, "malformed notebook XML");
}

#[test]
fn text_outside_cells_is_ignored() {
    let cells = from_xml("<notebook>stray &amp; text<cell>c</cell>tail</notebook>").unwrap();
    assert_eq!(cells.len(), 1);
    assert_eq!(cells[0].text, "c");
}

#[test]
fn events_decode_directly() {
    let events = vec![
        XmlEvent::Start(
            "cell".to_string(),
            vec![Err(AttrError::ExpectedEq(5)), Ok(("kind".to_string(), "note".to_string()))],
        ),
        XmlEvent::Text("hi".to_string()),
        XmlEvent::Reference("amp".to_string()),
        XmlEvent::End("cell".to_string()),
        XmlEvent::Eof,
        XmlEvent::Start("cell".to_string(), vec![]),
        XmlEvent::End("cell".to_string()),
    ];
    let cells = cells_from_events(&events).unwrap();
    assert_eq!(cells.len(), 1);
    assert_eq!(cells[0].kind, CellKind::Note);
    assert_eq!(cells[0].text, "hi&");
}

#[test]
fn command_cell_is_empty() {
    let c = Cell::command();
    assert_eq!(c.kind, CellKind::Command);
    assert!(c.text.is_empty());
    assert_eq!(CellKind::Note.as_xml_attr(), "note");
    assert_eq!(CellKind::Command.as_xml_attr(), "command");
}

#[test]
fn character_references_follow_their_rules() {
    let ok = from_xml("<notebook><cell>&#x1F600;&#x4a;&#0074;</cell></notebook>").unwrap();
    assert_eq!(ok[0].text, "\u{1F600}JJ");
    for bad in ["&#0;", "&#xD800;", "&#+65;", "&#X41;", "&#;", "&#x;", "&#x110000;", "&#99999999999;"] {
        let xml = format!("<notebook><cell>{bad}</cell></notebook>");
        assert_eq!(
            from_xml(&xml).unwrap_err(),
            "invalid character reference in notebook XML",
            "reference {bad}"
        );
    }
}
