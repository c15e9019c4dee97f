use ufed_report::models::{AccessInfo, File, Image, Item, Metadata, Timestamp};
use ufed_report::reader::EventReader;
use ufed_report::utils::attributes_to_map;
use ufed_report::xml::{tokenize, XmlEvent};

fn test_file(xml_str: &str, expected: File) -> Result<(), String> {
    let tokens = tokenize(xml_str.as_bytes());
    let mut reader = EventReader::new(&tokens);
    loop {
        match reader.read_event().map(|t| &t.event) {
            Some(XmlEvent::Start(e)) if e.name == b"file" => {
                let result = File::parse_one(e, &mut reader);
                if let Ok(file) = result {
                    let known_keys: Vec<&str> = vec![
                        "fs",
                        "fsid",
                        "path",
                        "size",
                        "id",
                        "extractionId",
                        "deleted",
                        "embedded",
                        "isrelated",
                    ];
                    for key in attributes_to_map(e).unwrap().keys() {
                        assert!(known_keys.contains(&key.as_ref()), "Unknown file attribute: {}", key);
                    }
                    assert_eq!(file, expected);
                    return Ok(());
                } else {
                    return Err(format!("File::parse_one error {:#?}", result));
                }
            },
            Some(XmlEvent::Eof) | None => {
                return Err("eof".to_string());
            }
            _ => (),
        }
    }
}

#[test]
fn test_file_0() -> Result<(), String> {
    let xml_str = r#"
    <file fs="iPhone of Prof Moriarty" fsid="01234567-f1ea-421a-9ea3-0123456789ab" path="/another/path/on/the/mobile/phone/4454825783_dbcb233af5_b.jpg" size="215418" id="b231534c-b43b-477d-863e-412342341" extractionId="1" deleted="Intact" embedded="false" isrelated="False">
        <accessInfo>
            <timestamp name="CreationTime">2020-08-08T15:50:58.000+00:00</timestamp>
            <timestamp name="ModifyTime">2020-08-08T15:50:58.000+00:00</timestamp>
        </accessInfo>
        <metadata section="File">
            <item name="Local Path"><![CDATA[files\Image\4454825783_dbcb233af5_b.jpg]]></item>
        </metadata>
    </file>
    "#;
    test_file(xml_str, File {
        fs: "iPhone of Prof Moriarty".to_string(),
        fsid: "01234567-f1ea-421a-9ea3-0123456789ab".to_string(),
        path: "/another/path/on/the/mobile/phone/4454825783_dbcb233af5_b.jpg".to_string(),
        size: 215418,
        id: "b231534c-b43b-477d-863e-412342341".to_string(),
        extraction_id: 1,
        deleted: "Intact".to_string(),
        embedded: "false".to_string(),
        is_related: "False".to_string(),
        access_info: Some(AccessInfo { timestamps: vec![
            Timestamp {
                name: "CreationTime".to_string(),
                text: "2020-08-08T15:50:58.000+00:00".to_string(),
            },
            Timestamp {
                name: "ModifyTime".to_string(),
                text: "2020-08-08T15:50:58.000+00:00".to_string(),
            }
        ] }),
        metadata: vec![
            Metadata {
                section: "File".to_string(),
                items: vec![Item {
                    name: "Local Path".to_string(),
                    group: None,
                    id: None,
                    source_extraction: None,
                    text: r"files\Image\4454825783_dbcb233af5_b.jpg".to_string()
                }]
            }
        ],
    })
}
