use ufed_report::models::{DecodedData, Field, Model, ModelType, Value};
use ufed_report::reader::EventReader;
use ufed_report::utils::attributes_to_map;
use ufed_report::xml::{tokenize, XmlEvent};

fn test_decoded_data(xml_str: &str, expected: DecodedData) -> Result<(), String> {
    let tokens = tokenize(xml_str.as_bytes());
    let mut reader = EventReader::new(&tokens);
    loop {
        match reader.read_event().map(|t| &t.event) {
            Some(XmlEvent::Start(e)) if e.name == b"decodedData" => {
                let result = DecodedData::parse_one(&mut reader);
                if let Ok(decoded) = result {
                    let known_keys: Vec<&str> = vec![
                    ];
                    for key in attributes_to_map(e).unwrap().keys() {
                        assert!(known_keys.contains(&key.as_ref()), "Unknown decodedData attribute: {}", key);
                    }
                    assert_eq!(decoded, expected);
                    return Ok(());
                } else {
                    return Err(format!("DecodedData::parse_one error {:#?}", result));
                }
            },
            Some(XmlEvent::Eof) | None => {
                return Err("eof".to_string());
            }
            _ => (),
        }
    }
}

#[test]
fn test_decoded_data_0() -> Result<(), String> {
    let xml_str = r#"
    <decodedData>
        <modelType type="Chat">
            <model type="Chat" id="9423c49d-2696-4534-a54f-b5eec3e92e77" deleted_state="Intact" decoding_confidence="High" isrelated="False" extractionId="1">
                <field name="UserMapping" type="Boolean">
                    <value type="Boolean"><![CDATA[False]]></value>
                </field>
            </model>
        </modelType>
    </decodedData>
    "#;
    test_decoded_data(xml_str, DecodedData {
        model_types: vec![ModelType {
        dtype: "Chat".to_string(),
        models: vec![Model {
            dtype: "Chat".to_string(),
            id: "9423c49d-2696-4534-a54f-b5eec3e92e77".to_string(),
            deleted_state: "Intact".to_string(),
            decoding_confidence: "High".to_string(),
            is_related: "False".to_string(),
            extraction_id: 1,
            multi_model_fields: vec![],
            model_fields: vec![],
            multi_fields: vec![],
            data_fields: vec![],
            fields: vec![Field {
                name: "UserMapping".to_string(),
                dtype: Some("Boolean".to_string()),
                is_system: None,
                is_required: None,
                multiple_lines: None,
                text: "".to_string(),
                field_type: None,
                value: Some(Value {
                    dtype: "Boolean".to_string(),
                    text: "False".to_string(),
                })
            }]
        }]
    }],
    })
}
