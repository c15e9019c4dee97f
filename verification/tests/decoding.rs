use ufed_report::error::{ErrorKind, EventKind, ParseError};
use ufed_report::models::{
    DataField, Field, Model, ModelField, MultiField, MultiModelField, Source, Value,
};
use ufed_report::reader::EventReader;
use ufed_report::utils::{attributes_to_map, read_text};
use ufed_report::xml::{tokenize, RawAttribute, StartTag, Token, XmlEvent};

/// Decodes the first element called `name` with `decode`, whether it opens or
/// closes itself.
fn first<T>(
    xml: &str,
    name: &str,
    decode: fn(&StartTag, &mut EventReader) -> Result<T, ParseError>,
) -> Result<T, ParseError> {
    let tokens = tokenize(xml.as_bytes());
    let mut reader = EventReader::new(&tokens);
    loop {
        match reader.read_event().map(|t| &t.event) {
            Some(XmlEvent::Start(e)) if e.name == name.as_bytes() => {
                return decode(e, &mut reader);
            }
            Some(XmlEvent::Eof) | None => panic!("no element {}", name),
            _ => {}
        }
    }
}

fn first_empty<T>(
    xml: &str,
    name: &str,
    decode: fn(&StartTag) -> Result<T, ParseError>,
) -> Result<T, ParseError> {
    let tokens = tokenize(xml.as_bytes());
    let mut reader = EventReader::new(&tokens);
    loop {
        match reader.read_event().map(|t| &t.event) {
            Some(XmlEvent::Empty(e)) if e.name == name.as_bytes() => {
                return decode(e);
            }
            Some(XmlEvent::Eof) | None => panic!("no element {}", name),
            _ => {}
        }
    }
}

fn kind<T: std::fmt::Debug>(r: Result<T, ParseError>) -> ErrorKind {
    r.unwrap_err().kind
}

fn missing(element: &str, name: &str) -> ErrorKind {
    ErrorKind::MissingAttribute { element: element.to_string(), name: name.to_string() }
}

fn premature(element: &str) -> ErrorKind {
    ErrorKind::PrematureEof { element: element.to_string() }
}

const MODEL: &str = r#"<model type="Chat" id="abc" deleted_state="Intact" decoding_confidence="High" isrelated="False" extractionId="1"><field name="UserMapping" type="Boolean"><value type="Boolean">False</value></field></model>"#;

#[test]
fn model_with_one_field() {
    let model = first(MODEL, "model", Model::parse_one).unwrap();
    assert_eq!(
        model,
        Model {
            dtype: "Chat".to_string(),
            id: "abc".to_string(),
            deleted_state: "Intact".to_string(),
            decoding_confidence: "High".to_string(),
            is_related: "False".to_string(),
            extraction_id: 1,
            fields: vec![Field {
                name: "UserMapping".to_string(),
                is_system: None,
                is_required: None,
                field_type: None,
                multiple_lines: None,
                dtype: Some("Boolean".to_string()),
                text: "".to_string(),
                value: Some(Value { dtype: "Boolean".to_string(), text: "False".to_string() }),
            }],
            multi_model_fields: vec![],
            model_fields: vec![],
            data_fields: vec![],
            multi_fields: vec![],
        }
    );
}

#[test]
fn data_field_with_one_source() {
    let xml = r#"<dataField name="Data" type="MemoryRange"><source length="11159817"/></dataField>"#;
    assert_eq!(
        first(xml, "dataField", DataField::parse_one),
        Ok(DataField {
            name: "Data".to_string(),
            dtype: "MemoryRange".to_string(),
            sources: vec![Source { length: 11159817 }],
        })
    );
}

#[test]
fn source_length_must_be_a_number() {
    assert_eq!(
        kind(first_empty(r#"<source length="abc"/>"#, "source", Source::parse_one)),
        ErrorKind::AttributeParseError {
            element: "source".to_string(),
            name: "length".to_string(),
            raw_value: "abc".to_string(),
        }
    );
}

#[test]
fn source_length_bounds() {
    let at = |v: &str| {
        first_empty(&format!(r#"<source length="{}"/>"#, v), "source", Source::parse_one)
    };
    assert_eq!(at("0"), Ok(Source { length: 0 }));
    assert_eq!(at("+7"), Ok(Source { length: 7 }));
    assert_eq!(at("007"), Ok(Source { length: 7 }));
    assert_eq!(at("18446744073709551615"), Ok(Source { length: u64::MAX }));
    assert!(matches!(kind(at("18446744073709551616")), ErrorKind::AttributeParseError { .. }));
    assert!(matches!(kind(at("-1")), ErrorKind::AttributeParseError { .. }));
    assert!(matches!(kind(at("")), ErrorKind::AttributeParseError { .. }));
    assert!(matches!(kind(at("+")), ErrorKind::AttributeParseError { .. }));
    assert!(matches!(kind(at(" 1")), ErrorKind::AttributeParseError { .. }));
}

#[test]
fn field_text_loses_all_white_space() {
    let xml = "<field name=\"n\"> a b\tc\n d\u{a0}e\u{2003}f </field>";
    let field = first(xml, "field", Field::parse_one).unwrap();
    assert_eq!(field.text, "abcdef");
    assert!(!field.text.chars().any(|c| c.is_whitespace()));
    assert_eq!(field.value, None);
}

#[test]
fn field_keeps_the_last_value_and_strips_its_own_text() {
    let xml = r#"<field name="n">x <value type="A">one</value> y<value type="B"> t wo </value><empty/></field>"#;
    let field = first(xml, "field", Field::parse_one).unwrap();
    assert_eq!(field.text, "xy");
    assert_eq!(field.value, Some(Value { dtype: "B".to_string(), text: " t wo ".to_string() }));
}

#[test]
fn leaf_text_trims_cdata_and_keeps_character_data() {
    let xml = r#"<value type="T"> a &lt; b <![CDATA[  c d  ]]> e &amp;&#65;</value>"#;
    let value = first(xml, "value", Value::parse_one).unwrap();
    assert_eq!(value.text, " a < b c d e &A");
}

#[test]
fn read_text_stops_behind_the_end_tag() {
    let tokens = tokenize(b"<a>one<![CDATA[ two ]]></a><b/>");
    let mut reader = EventReader::new(&tokens);
    reader.read_event();
    assert_eq!(read_text(&mut reader), Ok("onetwo".to_string()));
    assert_eq!(reader.position, 4);
    assert!(matches!(reader.read_event().map(|t| &t.event), Some(XmlEvent::Empty(_))));
}

#[test]
fn decoding_twice_gives_equal_trees() {
    let once = first(MODEL, "model", Model::parse_one);
    let twice = first(MODEL, "model", Model::parse_one);
    assert!(once.is_ok());
    assert_eq!(once, twice);
    assert_eq!(tokenize(MODEL.as_bytes()), tokenize(MODEL.as_bytes()));
}

#[test]
fn self_closing_slots_decode_like_empty_ones() {
    assert_eq!(
        first_empty(r#"<modelField name="X" type="Y"/>"#, "modelField", ModelField::parse_one_empty),
        first(r#"<modelField name="X" type="Y"></modelField>"#, "modelField", ModelField::parse_one)
    );
    assert_eq!(
        first_empty(r#"<modelField name="X" type="Y"/>"#, "modelField", ModelField::parse_one_empty),
        Ok(ModelField { name: "X".to_string(), dtype: "Y".to_string(), models: vec![] })
    );
    assert_eq!(
        first_empty(r#"<multiModelField name="X" type="Y"/>"#, "multiModelField", MultiModelField::parse_one_empty),
        first(r#"<multiModelField name="X" type="Y"></multiModelField>"#, "multiModelField", MultiModelField::parse_one)
    );
    assert_eq!(
        first_empty(r#"<multiField name="X" type="Y"/>"#, "multiField", MultiField::parse_one_empty),
        first(r#"<multiField name="X" type="Y"></multiField>"#, "multiField", MultiField::parse_one)
    );
    assert_eq!(
        first_empty(r#"<dataField name="X" type="Y"/>"#, "dataField", DataField::parse_one_empty),
        first(r#"<dataField name="X" type="Y"></dataField>"#, "dataField", DataField::parse_one)
    );
    assert_eq!(
        first_empty(r#"<field name="X" type="Y"/>"#, "field", Field::parse_one_empty),
        first(r#"<field name="X" type="Y"></field>"#, "field", Field::parse_one)
    );
}

#[test]
fn model_takes_self_closing_children() {
    let xml = r#"<model type="T" id="i" deleted_state="d" decoding_confidence="c" isrelated="r" extractionId="2">
        <modelField name="a" type="A"/><dataField name="b" type="B"/><field name="c"/>
        <multiField name="d" type="D"/><multiModelField name="e" type="E"/>
        <field name="f">x</field>
    </model>"#;
    let model = first(xml, "model", Model::parse_one).unwrap();
    assert_eq!(model.model_fields.len(), 1);
    assert_eq!(model.data_fields, vec![DataField { name: "b".to_string(), dtype: "B".to_string(), sources: vec![] }]);
    assert_eq!(model.fields.iter().map(|f| f.name.as_str()).collect::<Vec<_>>(), vec!["c", "f"]);
    assert_eq!(model.multi_fields, vec![MultiField { name: "d".to_string(), dtype: "D".to_string() }]);
    assert_eq!(model.multi_model_fields.len(), 1);
    assert_eq!(model.extraction_id, 2);
}

#[test]
fn models_nest_through_model_fields() {
    let inner = r#"<model type="In" id="2" deleted_state="d" decoding_confidence="c" isrelated="r" extractionId="3"></model>"#;
    let xml = format!(
        r#"<model type="Out" id="1" deleted_state="d" decoding_confidence="c" isrelated="r" extractionId="4"><modelField name="m" type="In">{}{}<empty/></modelField><multiModelField name="mm" type="In">{}</multiModelField></model>"#,
        inner, inner, inner
    );
    let model = first(&xml, "model", Model::parse_one).unwrap();
    assert_eq!(model.model_fields[0].models.len(), 2);
    assert_eq!(model.model_fields[0].models[1].dtype, "In");
    assert_eq!(model.model_fields[0].models[1].extraction_id, 3);
    assert_eq!(model.multi_model_fields[0].models.len(), 1);
}

#[test]
fn missing_attributes_are_named() {
    let model = |attrs: &str| first(&format!("<model {}></model>", attrs), "model", Model::parse_one);
    assert_eq!(
        kind(model(r#"id="i" deleted_state="d" decoding_confidence="c" isrelated="r" extractionId="1""#)),
        missing("model", "type")
    );
    assert_eq!(
        kind(model(r#"type="t" deleted_state="d" decoding_confidence="c" isrelated="r" extractionId="1""#)),
        missing("model", "id")
    );
    assert_eq!(
        kind(model(r#"type="t" id="i" decoding_confidence="c" isrelated="r" extractionId="1""#)),
        missing("model", "deleted_state")
    );
    assert_eq!(
        kind(model(r#"type="t" id="i" deleted_state="d" isrelated="r" extractionId="1""#)),
        missing("model", "decoding_confidence")
    );
    assert_eq!(
        kind(model(r#"type="t" id="i" deleted_state="d" decoding_confidence="c" extractionId="1""#)),
        missing("model", "isrelated")
    );
    assert_eq!(
        kind(model(r#"type="t" id="i" deleted_state="d" decoding_confidence="c" isrelated="r""#)),
        missing("model", "extractionId")
    );
    assert_eq!(kind(model(r#"extractionId="x""#)), missing("model", "type"));
    assert_eq!(
        kind(model(r#"type="t" id="i" deleted_state="d" decoding_confidence="c" isrelated="r" extractionId="x""#)),
        ErrorKind::AttributeParseError {
            element: "model".to_string(),
            name: "extractionId".to_string(),
            raw_value: "x".to_string(),
        }
    );
    assert_eq!(kind(first("<field></field>", "field", Field::parse_one)), missing("field", "name"));
    assert_eq!(kind(first("<value>x</value>", "value", Value::parse_one)), missing("value", "type"));
    assert_eq!(kind(first_empty("<source/>", "source", Source::parse_one)), missing("source", "length"));
    assert_eq!(
        kind(first(r#"<modelField type="t"></modelField>"#, "modelField", ModelField::parse_one)),
        missing("modelField", "name")
    );
    assert_eq!(
        kind(first(r#"<modelField name="n"></modelField>"#, "modelField", ModelField::parse_one)),
        missing("modelField", "type")
    );
    assert_eq!(
        kind(first_empty(r#"<multiModelField name="n"/>"#, "multiModelField", MultiModelField::parse_one_empty)),
        missing("multiModelField", "type")
    );
    assert_eq!(
        kind(first_empty(r#"<multiField type="t"/>"#, "multiField", MultiField::parse_one_empty)),
        missing("multiField", "name")
    );
    assert_eq!(
        kind(first(r#"<dataField name="n"></dataField>"#, "dataField", DataField::parse_one)),
        missing("dataField", "type")
    );
}

#[test]
fn truncated_input_names_the_open_element() {
    let attrs = r#"type="t" id="i" deleted_state="d" decoding_confidence="c" isrelated="r" extractionId="1""#;
    assert_eq!(kind(first(&format!("<model {}>", attrs), "model", Model::parse_one)), premature("model"));
    assert_eq!(
        kind(first(&format!(r#"<model {}><field name="f">"#, attrs), "model", Model::parse_one)),
        premature("field")
    );
    assert_eq!(
        kind(first(&format!(r#"<model {}><field name="f"><value type="v">x"#, attrs), "model", Model::parse_one)),
        premature("value")
    );
    assert_eq!(
        kind(first(&format!(r#"<model {}><modelField name="f" type="t"> "#, attrs), "model", Model::parse_one)),
        premature("modelField")
    );
    assert_eq!(
        kind(first(&format!(r#"<model {}><multiModelField name="f" type="t"><model {}>"#, attrs, attrs), "model", Model::parse_one)),
        premature("model")
    );
    assert_eq!(
        kind(first(&format!(r#"<model {}><multiModelField name="f" type="t">"#, attrs), "model", Model::parse_one)),
        premature("multiModelField")
    );
    assert_eq!(
        kind(first(r#"<multiField name="f" type="t">"#, "multiField", MultiField::parse_one)),
        premature("multiField")
    );
    assert_eq!(
        kind(first(r#"<dataField name="f" type="t"><source length="1"/>"#, "dataField", DataField::parse_one)),
        premature("dataField")
    );
    let tokens: Vec<Token> = vec![];
    let mut reader = EventReader::new(&tokens);
    let tag = StartTag { name: b"model".to_vec(), attributes: vec![] };
    assert_eq!(kind(Model::parse_one(&tag, &mut reader)), premature("model"));
    assert_eq!(kind(read_text(&mut reader)), premature("text"));
}

#[test]
fn unexpected_events_carry_kind_and_offset() {
    let attrs = r#"type="t" id="i" deleted_state="d" decoding_confidence="c" isrelated="r" extractionId="1""#;
    let xml = format!("<model {}><!-- no --></model>", attrs);
    assert_eq!(
        kind(first(&xml, "model", Model::parse_one)),
        ErrorKind::UnexpectedEvent {
            element: "model".to_string(),
            observed: EventKind::Comment,
            offset: (xml.find("-->").unwrap() + 3) as u64,
        }
    );
    let xml = format!("<model {}>text</model>", attrs);
    assert_eq!(
        kind(first(&xml, "model", Model::parse_one)),
        ErrorKind::UnexpectedEvent {
            element: "model".to_string(),
            observed: EventKind::Text,
            offset: xml.find("</model>").unwrap() as u64,
        }
    );
    let xml = format!("<model {}><other/></model>", attrs);
    assert_eq!(
        kind(first(&xml, "model", Model::parse_one)),
        ErrorKind::UnexpectedEvent {
            element: "model".to_string(),
            observed: EventKind::Empty,
            offset: (xml.find("<other/>").unwrap() + 8) as u64,
        }
    );
    let xml = r#"<dataField name="n" type="t"><source length="1"></source></dataField>"#;
    assert!(matches!(
        kind(first(xml, "dataField", DataField::parse_one)),
        ErrorKind::UnexpectedEvent { observed: EventKind::Start, .. }
    ));
    let xml = r#"<value type="t"><![CDATA[a]]><b/></value>"#;
    assert!(matches!(
        kind(first(xml, "value", Value::parse_one)),
        ErrorKind::UnexpectedEvent { observed: EventKind::Empty, .. }
    ));
    let tokens = vec![Token { event: XmlEvent::End(b"other".to_vec()), offset: 9 }];
    let mut reader = EventReader::new(&tokens);
    let tag = StartTag { name: b"multiField".to_vec(), attributes: vec![] };
    assert_eq!(
        kind(MultiField::parse_one(&tag, &mut reader)),
        ErrorKind::UnexpectedEvent {
            element: "multiField".to_string(),
            observed: EventKind::End,
            offset: 9,
        }
    );
}

#[test]
fn malformed_xml_is_reported() {
    let attrs = r#"type="t" id="i" deleted_state="d" decoding_confidence="c" isrelated="r" extractionId="1""#;
    assert_eq!(kind(first(&format!("<model {}></field>", attrs), "model", Model::parse_one)), ErrorKind::Xml);
    assert_eq!(kind(first(&format!("<model {}><field", attrs), "model", Model::parse_one)), ErrorKind::Xml);
    assert_eq!(kind(first(r#"<value type="t">a &unknown; b</value>"#, "value", Value::parse_one)), ErrorKind::Xml);
    assert_eq!(kind(first(&format!("<model {}> &bad; </model>", attrs), "model", Model::parse_one)), ErrorKind::Xml);
    let tokens = vec![
        Token { event: XmlEvent::CData(vec![0xff, 0xfe]), offset: 1 },
        Token { event: XmlEvent::End(b"value".to_vec()), offset: 2 },
    ];
    let mut reader = EventReader::new(&tokens);
    assert_eq!(kind(read_text(&mut reader)), ErrorKind::Xml);
}

#[test]
fn malformed_attributes_are_reported() {
    assert_eq!(
        kind(first_empty(r#"<source length=1/>"#, "source", Source::parse_one)),
        ErrorKind::MalformedAttribute
    );
    assert_eq!(
        kind(first_empty(r#"<source length="1" length="2"/>"#, "source", Source::parse_one)),
        ErrorKind::MalformedAttribute
    );
    assert_eq!(
        kind(first_empty(r#"<source length="&nope;"/>"#, "source", Source::parse_one)),
        ErrorKind::MalformedAttribute
    );
    assert_eq!(
        kind(first(r#"<value type="t" broken>x</value>"#, "value", Value::parse_one)),
        ErrorKind::MalformedAttribute
    );
    let tag = StartTag {
        name: b"source".to_vec(),
        attributes: vec![RawAttribute::Pair { key: vec![0xff], value: b"1".to_vec() }],
    };
    assert_eq!(kind(Source::parse_one(&tag)), ErrorKind::MalformedAttribute);
    let tag = StartTag {
        name: b"model".to_vec(),
        attributes: vec![RawAttribute::Malformed],
    };
    let tokens = tokenize(b"</model>");
    let mut reader = EventReader::new(&tokens);
    assert_eq!(kind(Model::parse_one(&tag, &mut reader)), ErrorKind::MalformedAttribute);
    assert_eq!(reader.position, 0);
}

#[test]
fn attributes_are_unescaped_and_keyed_by_name() {
    let tokens = tokenize(r#"<a x="1 &amp; 2" Y='&#x41;' z=""/>"#.as_bytes());
    let tag = match &tokens[0].event {
        XmlEvent::Empty(e) => e,
        other => panic!("{:?}", other),
    };
    let map = attributes_to_map(tag).unwrap();
    assert_eq!(map.keys(), vec!["x".to_string(), "Y".to_string(), "z".to_string()]);
    assert_eq!(map.get("x"), Some(&"1 & 2".to_string()));
    assert_eq!(map.get("Y"), Some(&"A".to_string()));
    assert_eq!(map.get("y"), None);
    assert_eq!(map.get("z"), Some(&"".to_string()));
    assert_eq!(map.find("x"), Some("1 & 2".to_string()));
    assert_eq!(map.find("w"), None);
}

#[test]
fn a_failing_child_ends_the_whole_decode() {
    let attrs = r#"type="t" id="i" deleted_state="d" decoding_confidence="c" isrelated="r" extractionId="1""#;
    let xml = format!(r#"<model {}><dataField name="n" type="t"><source length="x"/></dataField></model>"#, attrs);
    assert_eq!(
        kind(first(&xml, "model", Model::parse_one)),
        ErrorKind::AttributeParseError {
            element: "source".to_string(),
            name: "length".to_string(),
            raw_value: "x".to_string(),
        }
    );
    let xml = format!(r#"<model id="i"><field></field></model>"#);
    assert_eq!(kind(first(&xml, "model", Model::parse_one)), missing("field", "name"));
}
