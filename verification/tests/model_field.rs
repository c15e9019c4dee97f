use ufed_report::models::{Field, Model, ModelField, Value};
use ufed_report::reader::EventReader;
use ufed_report::utils::attributes_to_map;
use ufed_report::xml::{tokenize, XmlEvent};

fn test_model_field(xml_str: &str, expected: ModelField) -> Result<(), String> {
    let tokens = tokenize(xml_str.as_bytes());
    let mut reader = EventReader::new(&tokens);
    loop {
        match reader.read_event().map(|t| &t.event) {
            Some(XmlEvent::Start(e)) if e.name == b"modelField" => {
                let result = ModelField::parse_one(e, &mut reader);
                if let Ok(decoded) = result {
                    let known_keys: Vec<&str> = vec![
                        "name",
                        "type",
                    ];
                    for key in attributes_to_map(e).unwrap().keys() {
                        assert!(known_keys.contains(&key.as_ref()), "Unknown modelField attribute: {}", key);
                    }
                    assert_eq!(decoded, expected);
                    return Ok(());
                } else {
                    return Err(format!("ModelField::parse_one error {:#?}", result));
                }
            },
            Some(XmlEvent::Eof) | None => {
                return Err("eof".to_string());
            }
            _ => (),
        }
    }
}

#[test]
fn test_model_field_0() -> Result<(), String> {
    let xml_str = r#"
    <modelField name="From" type="Party">
        <model type="Party" id="2affbd71-3369-4375-8da7-67674563456" deleted_state="Unknown" decoding_confidence="High" isrelated="False" extractionId="1">
            <field name="UserMapping" type="Boolean">
                <value type="Boolean"><![CDATA[False]]></value>
            </field>
        </model>
    </modelField>
    "#;
    test_model_field(xml_str, ModelField {
        name: "From".to_string(),
        dtype: "Party".to_string(),
        models: vec![
            Model {
                dtype: "Party".to_string(),
                id: "2affbd71-3369-4375-8da7-67674563456".to_string(),
                deleted_state: "Unknown".to_string(),
                decoding_confidence: "High".to_string(),
                is_related: "False".to_string(),
                extraction_id: 1,
                fields: vec![Field {
                    name: "UserMapping".to_string(),
                    dtype: Some("Boolean".to_string()),
                    is_system: None,
                    is_required: None,
                    text: "".to_string(),
                    multiple_lines: None,
                    value: Some(Value {
                        dtype: "Boolean".to_string(),
                        text: "False".to_string(),
                    }),
                    field_type: None,
                }],
                model_fields: vec![],
                multi_model_fields: vec![],
                multi_fields: vec![],
                data_fields: vec![],
            }
        ]
    })
}
