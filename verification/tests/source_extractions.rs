use ufed_report::models::{ExtractionInfo, SourceExtractions};
use ufed_report::reader::EventReader;
use ufed_report::xml::{tokenize, XmlEvent};

#[test]
fn test_extraction_info() -> Result<(), String> {
    let xml_str = r#"
        <extractionInfo id="0" name="Logical" isCustomName="False" type="Logical" deviceName="Report" fullName="Cellebrite UFED Reports" index="0" IsPartialData="False" />
    "#;
    let tokens = tokenize(xml_str.as_bytes());
    let mut reader = EventReader::new(&tokens);
    loop {
        match reader.read_event().map(|t| &t.event) {
            Some(XmlEvent::Empty(e)) if e.name == b"extractionInfo" => {
                if let Ok(extraction_info) = ExtractionInfo::parse_one(e) {
                    assert_eq!(extraction_info, ExtractionInfo {
                        id: 0,
                        name: "Logical".to_string(),
                        is_custom_name: "False".to_string(),
                        dtype: "Logical".to_string(),
                        device_name: "Report".to_string(),
                        full_name: "Cellebrite UFED Reports".to_string(),
                        index: 0,
                        is_partial_data: "False".to_string(),
                    });
                    return Ok(());
                } else {
                    return Err("ExtractionInfo::parse_one error".to_string());
                }
            },
            Some(XmlEvent::Eof) | None => {
                return Err("eof".to_string());
            }
            _ => (),
        }
    }
}

#[test]
fn test_source_extractions() -> Result<(), String> {
    let xml_str = r#"
    <sourceExtractions>
        <extractionInfo id="0" name="Logical" isCustomName="False" type="Logical" deviceName="Report" fullName="Cellebrite UFED Reports" index="0" IsPartialData="False" />
    </sourceExtractions>
    "#;
            let tokens = tokenize(xml_str.as_bytes());
    let mut reader = EventReader::new(&tokens);
    loop {
        match reader.read_event().map(|t| &t.event) {
            Some(XmlEvent::Start(e)) if e.name == b"sourceExtractions" => {
                if let Ok(source_extraction) = SourceExtractions::parse_one(&mut reader) {
                    assert_eq!(source_extraction, SourceExtractions {
                        infos: vec![ExtractionInfo {
                            id: 0,
                            name: "Logical".to_string(),
                            is_custom_name: "False".to_string(),
                            dtype: "Logical".to_string(),
                            device_name: "Report".to_string(),
                            full_name: "Cellebrite UFED Reports".to_string(),
                            index: 0,
                            is_partial_data: "False".to_string(),
                        }]
                    });
                    return Ok(());
                } else {
                    return Err("sourceExtractions::parse_one error".to_string());
                }
            },
            Some(XmlEvent::Eof) | None => {
                return Err("eof".to_string());
            }
            _ => (),
        }
    }
}
