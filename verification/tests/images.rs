use ufed_report::models::{File, Image, Images};
use ufed_report::reader::EventReader;
use ufed_report::utils::attributes_to_map;
use ufed_report::xml::{tokenize, XmlEvent};

fn test_images(xml_str: &str, expected: Images) -> Result<(), String> {
    let tokens = tokenize(xml_str.as_bytes());
    let mut reader = EventReader::new(&tokens);
    loop {
        match reader.read_event().map(|t| &t.event) {
            Some(XmlEvent::Start(e)) if e.name == b"images" => {
                let result = Images::parse_one(&mut reader);
                if let Ok(images) = result {
                    let known_keys: Vec<&str> = vec![
                    ];
                    for key in attributes_to_map(e).unwrap().keys() {
                        assert!(known_keys.contains(&key.as_ref()), "Unknown images attribute: {}", key);
                    }
                    assert_eq!(images, expected);
                    return Ok(());
                } else {
                    return Err(format!("Images::parse_one error {:#?}", result));
                }
            },
            Some(XmlEvent::Eof) | None => {
                return Err("eof".to_string());
            }
            _ => (),
        }
    }
}

#[test]
fn test_images_0() -> Result<(), String> {
    let xml_str = r#"
    <images>
        <image key="FileDump" path="iPhoneBackup.tar" size="12345678" type="File" verify="NoSourceValues" extractionId="2" />
    </images>
    "#;
    test_images(xml_str, Images {
        images: vec![Image {
        key: "FileDump".to_string(),
        path: "iPhoneBackup.tar".to_string(),
        size: 12345678,
        dtype: "File".to_string(),
        verify: "NoSourceValues".to_string(),
        extraction_id: 2,
    }]
    })
}

fn test_image(xml_str: &str, expected: Image) -> Result<(), String> {
    let tokens = tokenize(xml_str.as_bytes());
    let mut reader = EventReader::new(&tokens);
    loop {
        match reader.read_event().map(|t| &t.event) {
            Some(XmlEvent::Empty(e)) if e.name == b"image" => {
                let result = Image::parse_one(e);
                if let Ok(image) = result {
                    let known_keys = vec![
                        "key",
                        "path",
                        "size",
                        "type",
                        "verify",
                        "extractionId",
                    ];
                    for key in attributes_to_map(e).unwrap().keys() {
                        assert!(known_keys.contains(&key.as_ref()), "Unknown image attribute: {}", key);
                    }
                    assert_eq!(image, expected);
                    return Ok(());
                } else {
                    return Err(format!("Image::parse_one error {:#?}", result));
                }
            },
            Some(XmlEvent::Eof) | None => {
                return Err("eof".to_string());
            }
            _ => (),
        }
    }
}

#[test]
fn test_image_0() -> Result<(), String> {
    let xml_str = r#"
    <image key="FileDump" path="iPhoneBackup.tar" size="12345678" type="File" verify="NoSourceValues" extractionId="2" />
    "#;
    test_image(xml_str, Image {
        key: "FileDump".to_string(),
        path: "iPhoneBackup.tar".to_string(),
        size: 12345678,
        dtype: "File".to_string(),
        verify: "NoSourceValues".to_string(),
        extraction_id: 2,
    })
}
