use ufed_report::models::{MultiField};
use ufed_report::reader::EventReader;
use ufed_report::utils::attributes_to_map;
use ufed_report::xml::{tokenize, XmlEvent};

fn test_multi_field(xml_str: &str, expected: MultiField) -> Result<(), String> {
    let tokens = tokenize(xml_str.as_bytes());
    let mut reader = EventReader::new(&tokens);
    loop {
        match reader.read_event().map(|t| &t.event) {
            Some(XmlEvent::Start(e)) if e.name == b"multiField" => {
                let result = MultiField::parse_one(e, &mut reader);
                if let Ok(decoded) = result {
                    let known_keys: Vec<&str> = vec![
                        "name",
                        "type",
                    ];
                    for key in attributes_to_map(e).unwrap().keys() {
                        assert!(known_keys.contains(&key.as_ref()), "Unknown multiField attribute: {}", key);
                    }
                    assert_eq!(decoded, expected);
                    return Ok(());
                } else {
                    return Err(format!("MultiField::parse_one error {:#?}", result));
                }
            },
            Some(XmlEvent::Empty(e))  => {
                let result = MultiField::parse_one_empty(e);
                if let Ok(decoded) = result {
                    let known_keys: Vec<&str> = vec![
                        "name",
                        "type",
                    ];
                    for key in attributes_to_map(e).unwrap().keys() {
                        assert!(known_keys.contains(&key.as_ref()), "Unknown multiField attribute: {}", key);
                    }
                    assert_eq!(decoded, expected);
                    return Ok(());
                } else {
                    return Err(format!("MultiField::parse_one error {:#?}", result));
                }
            }
            Some(XmlEvent::Eof) | None => {
                return Err("eof".to_string());
            }
            _ => (),
        }
    }
}

#[test]
fn test_multi_field_0() -> Result<(), String> {
    let xml_str = r#"
    <multiField name="IPAddresses" type="String" />
    "#;
    test_multi_field(xml_str, MultiField {
        name: "IPAddresses".to_string(),
        dtype: "String".to_string()
    })
}

#[test]
fn test_multi_field_1() -> Result<(), String> {
    let xml_str = r#"
    <multiField name="Notes" type="String">
        <empty />
    </multiField>
    "#;
    test_multi_field(xml_str, MultiField {
        name: "Notes".to_string(),
        dtype: "String".to_string()
    })
}
