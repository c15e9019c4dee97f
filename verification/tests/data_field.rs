use ufed_report::models::{DataField, Source};
use ufed_report::reader::EventReader;
use ufed_report::utils::attributes_to_map;
use ufed_report::xml::{tokenize, XmlEvent};

fn test_data_field(xml_str: &str, expected: DataField) -> Result<(), String> {
    let tokens = tokenize(xml_str.as_bytes());
    let mut reader = EventReader::new(&tokens);
    loop {
        match reader.read_event().map(|t| &t.event) {
            Some(XmlEvent::Start(e)) if e.name == b"dataField" => {
                let result = DataField::parse_one(e, &mut reader);
                if let Ok(df) = result {
                    let known_keys: Vec<&str> = vec![
                        "name",
                        "type",
                    ];
                    for key in attributes_to_map(e).unwrap().keys() {
                        assert!(known_keys.contains(&key.as_ref()), "Unknown dataField attribute: {}", key);
                    }
                    assert_eq!(df, expected);
                    return Ok(());
                } else {
                    return Err(format!("DataField::parse_one error {:#?}", result));
                }
            },
            Some(XmlEvent::Eof) | None => {
                return Err("eof".to_string());
            }
            _ => (),
        }
    }
}

#[test]
fn test_data_field_0() -> Result<(), String> {
    let xml_str = r#"
    <dataField name="Data" type="MemoryRange">
        <source length="11159817" />
    </dataField>
    "#;
    test_data_field(xml_str, DataField {
        name: "Data".to_string(),
        dtype: "MemoryRange".to_string(),
        sources: vec![Source { length: 11159817 }],
    })
}
