use ufed_report::models::{CaseInformation, Field};
use ufed_report::reader::EventReader;
use ufed_report::xml::{tokenize, XmlEvent};

#[test]
fn test_case_information_0() -> Result<(), String> {
    let xml_str = r#"
    <caseInformation>
        <field name="Fall-Nummer" isSystem="True" isRequired="False" fieldType="CaseNumber" multipleLines="False">Case 001</field>
        <field name="Fallname" isSystem="True" isRequired="False" fieldType="CaseName" multipleLines="False">Super important case</field>
        <field name="Beweisnummer" isSystem="True" isRequired="False" fieldType="EvidenceNumber" multipleLines="False">001</field>
        <field name="Name d. Ermittlers" isSystem="False" isRequired="False" fieldType="None" multipleLines="False">Sherlock Holmes</field>
        <field name="Abteilung" isSystem="False" isRequired="False" fieldType="None" multipleLines="False">Department of Investigation</field>
        <field name="Ort" isSystem="False" isRequired="False" fieldType="None" multipleLines="False">Vienna</field>
        <field name="Beschuldigter" isSystem="False" isRequired="False" fieldType="None" multipleLines="False">Professor James Moriarty</field>
        <field name="PIN" isSystem="False" isRequired="False" fieldType="None" multipleLines="False">1337</field>
    </caseInformation>
    "#;
    let tokens = tokenize(xml_str.as_bytes());
    let mut reader = EventReader::new(&tokens);
    loop {
        match reader.read_event().map(|t| &t.event) {
            Some(XmlEvent::Start(e)) if e.name == b"caseInformation" => {
                let result = CaseInformation::parse_one(&mut reader);
                if let Ok(case_information) = result {
                    assert_eq!(case_information, CaseInformation {
                        fields: vec![
                            Field {
                                name: "Fall-Nummer".to_string(),
                                is_system: Some("True".to_string()),
                                is_required: Some("False".to_string()),
                                field_type: Some("CaseNumber".to_string()),
                                multiple_lines: Some("False".to_string()),
                                dtype: None,
                                text: "Case001".to_string(),
                                value: None,
                            },
                            Field {
                                name: "Fallname".to_string(),
                                is_system: Some("True".to_string()),
                                is_required: Some("False".to_string()),
                                field_type: Some("CaseName".to_string()),
                                multiple_lines: Some("False".to_string()),
                                dtype: None,
                                text: "Superimportantcase".to_string(),
                                value: None,
                            },
                            Field {
                                name: "Beweisnummer".to_string(),
                                is_system: Some("True".to_string()),
                                is_required: Some("False".to_string()),
                                field_type: Some("EvidenceNumber".to_string()),
                                multiple_lines: Some("False".to_string()),
                                dtype: None,
                                text: "001".to_string(),
                                value: None,
                            },
                            Field {
                                name: "Name d. Ermittlers".to_string(),
                                is_system: Some("False".to_string()),
                                is_required: Some("False".to_string()),
                                field_type: Some("None".to_string()),
                                multiple_lines: Some("False".to_string()),
                                dtype: None,
                                text: "SherlockHolmes".to_string(),
                                value: None,
                            },
                            Field {
                                name: "Abteilung".to_string(),
                                is_system: Some("False".to_string()),
                                is_required: Some("False".to_string()),
                                field_type: Some("None".to_string()),
                                multiple_lines: Some("False".to_string()),
                                dtype: None,
                                text: "DepartmentofInvestigation".to_string(),
                                value: None,
                            },
                            Field {
                                name: "Ort".to_string(),
                                is_system: Some("False".to_string()),
                                is_required: Some("False".to_string()),
                                field_type: Some("None".to_string()),
                                multiple_lines: Some("False".to_string()),
                                dtype: None,
                                text: "Vienna".to_string(),
                                value: None,
                            },
                            Field {
                                name: "Beschuldigter".to_string(),
                                is_system: Some("False".to_string()),
                                is_required: Some("False".to_string()),
                                field_type: Some("None".to_string()),
                                multiple_lines: Some("False".to_string()),
                                dtype: None,
                                text: "ProfessorJamesMoriarty".to_string(),
                                value: None,
                            },
                            Field {
                                name: "PIN".to_string(),
                                is_system: Some("False".to_string()),
                                is_required: Some("False".to_string()),
                                field_type: Some("None".to_string()),
                                multiple_lines: Some("False".to_string()),
                                dtype: None,
                                text: "1337".to_string(),
                                value: None,
                            }
                        ]
                    });
                    return Ok(());
                } else {
                    return Err(format!("CaseInformation::parse_one error {:#?}", result));
                }
            },
            Some(XmlEvent::Eof) | None => {
                return Err("eof".to_string());
            }
            _ => (),
        }
    }
}
