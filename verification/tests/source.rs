use ufed_report::models::{Source};
use ufed_report::reader::EventReader;
use ufed_report::utils::attributes_to_map;
use ufed_report::xml::{tokenize, XmlEvent};

fn test_source(xml_str: &str, expected: Source) -> Result<(), String> {
    let tokens = tokenize(xml_str.as_bytes());
    let mut reader = EventReader::new(&tokens);
    loop {
        match reader.read_event().map(|t| &t.event) {
            Some(XmlEvent::Empty(e)) if e.name == b"source" => {
                let result = Source::parse_one(e);
                if let Ok(source) = result {
                    let known_keys = vec![
                        "length",
                    ];
                    for key in attributes_to_map(e).unwrap().keys() {
                        assert!(known_keys.contains(&key.as_ref()), "Unknown source attribute: {}", key);
                    }
                    assert_eq!(source, expected);
                    return Ok(());
                } else {
                    return Err(format!("Source::parse_one error {:#?}", result));
                }
            },
            Some(XmlEvent::Eof) | None => {
                return Err("eof".to_string());
            }
            _ => (),
        }
    }
}

#[test]
fn test_source_0() -> Result<(), String> {
    let xml_str = r#"
    <source length="11159817" />
    "#;
    test_source(xml_str, Source { length: 11159817 })
}
