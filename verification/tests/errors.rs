use ufed_report::error::{ErrorKind, EventKind, ParseError};
use ufed_report::models::project::Project;
use ufed_report::reader::EventReader;
use ufed_report::report::{find_project, parse_report};
use ufed_report::utils::AttrMap;
use ufed_report::xml::{tokenize, Token, XmlEvent};

#[test]
fn a_message_makes_an_error() {
    let e = ParseError::new("unexpected EOF when parsing text");
    assert_eq!(e.kind, ErrorKind::Other("unexpected EOF when parsing text".to_string()));
    assert_eq!(e.message(), "unexpected EOF when parsing text");
    assert_eq!(e.to_string(), "ParseError: unexpected EOF when parsing text");
}

#[test]
fn every_kind_has_its_message() {
    assert_eq!(ParseError::io("disk").kind, ErrorKind::Io("disk".to_string()));
    assert_eq!(ParseError::io("disk").message(), "disk");
    assert_eq!(ParseError::xml().message(), "malformed XML");
    assert_eq!(ParseError::malformed_attribute().message(), "malformed attribute");
    assert_eq!(ParseError::missing_attribute("model", "id").message(), "missing id");
    assert_eq!(
        ParseError::attribute_parse_error("source", "length", "abc").message(),
        "invalid value for length"
    );
    assert_eq!(
        ParseError::unexpected_event("model", EventKind::Comment, 7).to_string(),
        "ParseError: unexpected event when parsing model at position 7: Comment"
    );
    assert_eq!(
        ParseError::unexpected_event("field", EventKind::Start, 18446744073709551615).message(),
        "unexpected event when parsing field at position 18446744073709551615: Start"
    );
    assert_eq!(
        ParseError::premature_eof("field").to_string(),
        "ParseError: unexpected EOF when parsing field"
    );
    assert_eq!(
        ParseError::unexpected_event("model", EventKind::Comment, 7).kind,
        ErrorKind::UnexpectedEvent {
            element: "model".to_string(),
            observed: EventKind::Comment,
            offset: 7,
        }
    );
}

#[test]
fn every_kind_of_event_has_its_name() {
    let kinds = [
        (EventKind::Start, "Start"),
        (EventKind::Empty, "Empty"),
        (EventKind::End, "End"),
        (EventKind::Text, "Text"),
        (EventKind::CData, "CData"),
        (EventKind::Comment, "Comment"),
        (EventKind::Decl, "Decl"),
        (EventKind::PI, "PI"),
        (EventKind::DocType, "DocType"),
        (EventKind::Eof, "Eof"),
        (EventKind::Malformed, "Malformed"),
    ];
    for (kind, name) in kinds {
        assert_eq!(kind.name(), name);
    }
}

#[test]
fn a_later_attribute_replaces_an_earlier_one() {
    let mut map = AttrMap::new();
    assert_eq!(map.get("a"), None);
    map.insert("a".to_string(), "1".to_string());
    map.insert("b".to_string(), "2".to_string());
    map.insert("a".to_string(), "3".to_string());
    assert_eq!(map.get("a"), Some(&"3".to_string()));
    assert_eq!(map.get("b"), Some(&"2".to_string()));
    assert_eq!(map.require("e", "a"), Ok("3".to_string()));
    assert_eq!(map.require_u64("e", "a"), Ok(3));
    assert_eq!(map.require_u32("e", "b"), Ok(2));
    assert_eq!(
        map.require("e", "c").unwrap_err().kind,
        ErrorKind::MissingAttribute { element: "e".to_string(), name: "c".to_string() }
    );
}

#[test]
fn tokens_carry_events_and_offsets() {
    let xml = "<a k=\"v\">t<![CDATA[c]]><!--x--><?p?><b/></a>";
    let tokens = tokenize(xml.as_bytes());
    let kinds: Vec<EventKind> = tokens.iter().map(|t| t.event.kind()).collect();
    assert_eq!(
        kinds,
        vec![
            EventKind::Start,
            EventKind::Text,
            EventKind::CData,
            EventKind::Comment,
            EventKind::PI,
            EventKind::Empty,
            EventKind::End,
            EventKind::Eof,
        ]
    );
    let offsets: Vec<u64> = tokens.iter().map(|t| t.offset).collect();
    assert_eq!(offsets, vec![9, 10, 23, 31, 36, 40, 44, 44]);
    assert_eq!(tokens[1].event, XmlEvent::Text(b"t".to_vec()));
    assert_eq!(tokens[2].event, XmlEvent::CData(b"c".to_vec()));
    assert_eq!(tokens[6].event, XmlEvent::End(b"a".to_vec()));
    assert_eq!(tokenize(b""), vec![Token { event: XmlEvent::Eof, offset: 0 }]);
    let broken = tokenize(b"<a></b>");
    assert_eq!(broken.len(), 2);
    assert_eq!(broken[1].event, XmlEvent::Malformed);
    let decl = tokenize(b"<?xml version=\"1.0\"?><!DOCTYPE a>");
    assert_eq!(decl[0].event, XmlEvent::Decl);
    assert_eq!(decl[1].event, XmlEvent::DocType);
}

#[test]
fn the_cursor_stops_at_the_end() {
    let tokens = tokenize(b"<a/>");
    let mut reader = EventReader::new(&tokens);
    assert_eq!(reader.buffer_position(), 0);
    assert!(matches!(reader.read_event().map(|t| &t.event), Some(XmlEvent::Empty(_))));
    assert_eq!(reader.buffer_position(), 4);
    assert!(matches!(reader.read_event().map(|t| &t.event), Some(XmlEvent::Eof)));
    assert_eq!(reader.read_event(), None);
    assert_eq!(reader.read_event(), None);
    assert_eq!(reader.position, 2);
}

const REPORT: &str = r#"<?xml version="1.0" encoding="utf-8"?>
<project id="p" name="n" reportVersion="5" licenseID="l" containsGarbage="False" extractionType="Logical" NodeCount="1" ModelCount="2" xmlns="http://pa.cellebrite.com/report/2.0">
  <sourceExtractions>
    <extractionInfo id="0" name="Logical" isCustomName="False" type="Logical" deviceName="Report" fullName="Full" index="0" IsPartialData="False" />
  </sourceExtractions>
  <caseInformation>
    <field name="Ort" fieldType="None">Vienna</field>
  </caseInformation>
  <metadata section="Extraction Data">
    <item name="ExtractionType" sourceExtraction="0"><![CDATA[Logical]]></item>
  </metadata>
  <images>
    <image key="FileDump" path="a.tar" size="12" type="File" verify="No" extractionId="2" />
  </images>
  <taggedFiles>
    <file fs="f" fsid="s" path="/p" size="215418" id="i" extractionId="1" deleted="Intact" embedded="false" isrelated="False">
      <accessInfo><timestamp name="CreationTime">2020</timestamp></accessInfo>
      <metadata section="File"><item name="Local Path"><![CDATA[x]]></item></metadata>
    </file>
  </taggedFiles>
  <decodedData>
    <modelType type="Chat">
      <model type="Chat" id="m" deleted_state="Intact" decoding_confidence="High" isrelated="False" extractionId="1"></model>
    </modelType>
  </decodedData>
</project>"#;

#[test]
fn a_report_holds_its_first_project() {
    let project = parse_report(REPORT.as_bytes()).unwrap().unwrap();
    assert_eq!(project.id, "p");
    assert_eq!(project.report_version, "5");
    assert_eq!(project.xmlns, "http://pa.cellebrite.com/report/2.0");
    assert_eq!(project.source_extractions.infos[0].index, 0);
    assert_eq!(project.case_information.fields[0].text, "Vienna");
    assert_eq!(project.metadata[0].items[0].text, "Logical");
    assert_eq!(project.images.unwrap().images[0].size, 12);
    let files = project.tagged_files.unwrap().files;
    assert_eq!(files[0].size, 215418);
    assert_eq!(files[0].access_info.as_ref().unwrap().timestamps[0].text, "2020");
    assert_eq!(files[0].metadata[0].section, "File");
    assert_eq!(project.decoded_data.unwrap().model_types[0].models[0].id, "m");
    assert_eq!(parse_report(REPORT.as_bytes()), parse_report(REPORT.as_bytes()));
}

#[test]
fn a_report_without_project_holds_none() {
    assert_eq!(parse_report(b"<other></other>"), Ok(None));
    assert_eq!(parse_report(b""), Ok(None));
    assert_eq!(parse_report(b"<a></b>").unwrap_err().kind, ErrorKind::Xml);
    let tokens: Vec<Token> = vec![];
    let mut reader = EventReader::new(&tokens);
    assert_eq!(find_project(&mut reader), Ok(None));
}

#[test]
fn a_project_requires_its_sections() {
    let head = r#"<project id="p" name="n" reportVersion="5" licenseID="l" containsGarbage="False" extractionType="Logical" NodeCount="1" ModelCount="2" xmlns="x">"#;
    assert_eq!(
        parse_report(format!("{}</project>", head).as_bytes()).unwrap_err().kind,
        ErrorKind::Other("missing sourceExtractions".to_string())
    );
    assert_eq!(
        parse_report(format!("{}<sourceExtractions></sourceExtractions></project>", head).as_bytes())
            .unwrap_err()
            .kind,
        ErrorKind::Other("missing caseInformation".to_string())
    );
    assert_eq!(
        parse_report(b"<project><sourceExtractions></sourceExtractions></project>").unwrap_err().kind,
        ErrorKind::MissingAttribute { element: "project".to_string(), name: "id".to_string() }
    );
    assert_eq!(
        parse_report(format!("{}<images>", head).as_bytes()).unwrap_err().kind,
        ErrorKind::PrematureEof { element: "images".to_string() }
    );
    assert_eq!(
        parse_report(format!(r#"{}<images><image key="k" path="p" size="x"/></images>"#, head).as_bytes())
            .unwrap_err()
            .kind,
        ErrorKind::AttributeParseError {
            element: "image".to_string(),
            name: "size".to_string(),
            raw_value: "x".to_string(),
        }
    );
    assert_eq!(
        parse_report(format!(r#"{}<taggedFiles><file fs="f"></file></taggedFiles>"#, head).as_bytes())
            .unwrap_err()
            .kind,
        ErrorKind::MissingAttribute { element: "file".to_string(), name: "fsid".to_string() }
    );
    assert_eq!(
        parse_report(
            format!(r#"{}<sourceExtractions><extractionInfo id="4294967296"/></sourceExtractions>"#, head)
                .as_bytes()
        )
        .unwrap_err()
        .kind,
        ErrorKind::AttributeParseError {
            element: "extractionInfo".to_string(),
            name: "id".to_string(),
            raw_value: "4294967296".to_string(),
        }
    );
}

#[test]
fn every_cut_inside_the_project_names_the_innermost_open_element() {
    let tokens = tokenize(REPORT.as_bytes());
    let start = tokens
        .iter()
        .position(|t| matches!(&t.event, XmlEvent::Start(tag) if tag.name == b"project"))
        .unwrap();
    let tag = match &tokens[start].event {
        XmlEvent::Start(tag) => tag.clone(),
        _ => unreachable!(),
    };
    let mut whole = EventReader::new(&tokens);
    whole.position = start + 1;
    assert!(Project::parse_one(&tag, &mut whole).is_ok());
    let end = whole.position;
    let mut open: Vec<String> = vec!["project".to_string()];
    for k in start + 1..end {
        let mut reader = EventReader::new(&tokens[..k]);
        reader.position = start + 1;
        assert_eq!(
            Project::parse_one(&tag, &mut reader).unwrap_err().kind,
            ErrorKind::PrematureEof { element: open.last().unwrap().clone() },
            "cut before token {}",
            k
        );
        match &tokens[k].event {
            XmlEvent::Start(t) => open.push(String::from_utf8(t.name.clone()).unwrap()),
            XmlEvent::End(_) => {
                open.pop();
            }
            _ => {}
        }
    }
    let mut reader = EventReader::new(&tokens[..end]);
    reader.position = start + 1;
    assert!(Project::parse_one(&tag, &mut reader).is_ok());
    assert_eq!(reader.position, end);
}
