use ufed_report::error::{ErrorKind, ParseError};
use ufed_report::models::{
    ExtractionInfo, File, Image, Item, Metadata, ModelType, Project, Timestamp,
};
use ufed_report::reader::EventReader;
use ufed_report::xml::{tokenize, StartTag, XmlEvent};

/// The failure of the element `<element attrs..>body</element>` under `decode`, if it fails.
fn failure<T>(
    element: &str,
    attrs: &[(&str, &str)],
    body: &str,
    decode: fn(&StartTag, &mut EventReader) -> Result<T, ParseError>,
) -> Option<ErrorKind> {
    let list: Vec<String> = attrs.iter().map(|(k, v)| format!(r#"{}="{}""#, k, v)).collect();
    let xml = format!("<{} {}>{}</{}>", element, list.join(" "), body, element);
    let tokens = tokenize(xml.as_bytes());
    let mut reader = EventReader::new(&tokens);
    match reader.read_event().map(|t| &t.event) {
        Some(XmlEvent::Start(tag)) => decode(tag, &mut reader).err().map(|e| e.kind),
        other => panic!("no opening tag: {:?}", other),
    }
}

/// The failure of the element `<element attrs../>` under `decode`, if it fails.
fn failure_empty<T>(
    element: &str,
    attrs: &[(&str, &str)],
    decode: fn(&StartTag) -> Result<T, ParseError>,
) -> Option<ErrorKind> {
    let list: Vec<String> = attrs.iter().map(|(k, v)| format!(r#"{}="{}""#, k, v)).collect();
    let xml = format!("<{} {}/>", element, list.join(" "));
    let tokens = tokenize(xml.as_bytes());
    match &tokens[0].event {
        XmlEvent::Empty(tag) => decode(tag).err().map(|e| e.kind),
        other => panic!("no self-closing tag: {:?}", other),
    }
}

fn missing(element: &str, name: &str) -> Option<ErrorKind> {
    Some(ErrorKind::MissingAttribute { element: element.to_string(), name: name.to_string() })
}

fn no_number(element: &str, name: &str, raw: &str) -> Option<ErrorKind> {
    Some(ErrorKind::AttributeParseError {
        element: element.to_string(),
        name: name.to_string(),
        raw_value: raw.to_string(),
    })
}

/// `attrs` without the attribute at `i`.
fn without<'a>(attrs: &[(&'a str, &'a str)], i: usize) -> Vec<(&'a str, &'a str)> {
    attrs.iter().enumerate().filter(|(j, _)| *j != i).map(|(_, a)| *a).collect()
}

const IMAGE: [(&str, &str); 6] =
    [("key", "k"), ("path", "p"), ("size", "12"), ("type", "t"), ("verify", "v"), ("extractionId", "0")];

const EXTRACTION: [(&str, &str); 8] = [
    ("id", "0"),
    ("name", "n"),
    ("isCustomName", "False"),
    ("type", "Logical"),
    ("deviceName", "d"),
    ("fullName", "f"),
    ("index", "0"),
    ("IsPartialData", "False"),
];

const FILE: [(&str, &str); 9] = [
    ("fs", "f"),
    ("fsid", "i"),
    ("path", "/p"),
    ("size", "215418"),
    ("id", "x"),
    ("extractionId", "0"),
    ("deleted", "Intact"),
    ("embedded", "false"),
    ("isrelated", "False"),
];

const PROJECT: [(&str, &str); 9] = [
    ("id", "p"),
    ("name", "n"),
    ("reportVersion", "5"),
    ("licenseID", "l"),
    ("containsGarbage", "False"),
    ("extractionType", "Logical"),
    ("NodeCount", "1"),
    ("ModelCount", "2"),
    ("xmlns", "x"),
];

const SECTIONS: &str = "<sourceExtractions></sourceExtractions><caseInformation></caseInformation>";

#[test]
fn an_image_names_each_attribute_that_it_lacks() {
    assert_eq!(failure_empty("image", &IMAGE, Image::parse_one), None);
    for (i, (name, _)) in IMAGE.iter().enumerate() {
        assert_eq!(failure_empty("image", &without(&IMAGE, i), Image::parse_one), missing("image", name));
    }
    assert_eq!(failure_empty("image", &[], Image::parse_one), missing("image", "key"));
}

#[test]
fn an_extraction_names_each_attribute_that_it_lacks() {
    assert_eq!(failure_empty("extractionInfo", &EXTRACTION, ExtractionInfo::parse_one), None);
    for (i, (name, _)) in EXTRACTION.iter().enumerate() {
        assert_eq!(
            failure_empty("extractionInfo", &without(&EXTRACTION, i), ExtractionInfo::parse_one),
            missing("extractionInfo", name)
        );
    }
}

#[test]
fn a_file_names_each_attribute_that_it_lacks() {
    assert_eq!(failure("file", &FILE, "", File::parse_one), None);
    for (i, (name, _)) in FILE.iter().enumerate() {
        assert_eq!(failure("file", &without(&FILE, i), "", File::parse_one), missing("file", name));
    }
}

#[test]
fn a_project_names_each_attribute_that_it_lacks() {
    assert_eq!(failure("project", &PROJECT, SECTIONS, Project::parse_one), None);
    for (i, (name, _)) in PROJECT.iter().enumerate() {
        assert_eq!(
            failure("project", &without(&PROJECT, i), SECTIONS, Project::parse_one),
            missing("project", name)
        );
    }
    assert_eq!(
        failure("project", &without(&PROJECT, 8), "", Project::parse_one),
        missing("project", "xmlns")
    );
}

#[test]
fn the_small_sections_name_the_attribute_that_they_lack() {
    assert_eq!(failure("item", &[("name", "n")], "text", Item::parse_one), None);
    assert_eq!(failure("item", &[("id", "i")], "text", Item::parse_one), missing("item", "name"));
    assert_eq!(failure("timestamp", &[("name", "n")], "2020", Timestamp::parse_one), None);
    assert_eq!(
        failure("timestamp", &[("format", "f")], "2020", Timestamp::parse_one),
        missing("timestamp", "name")
    );
    assert_eq!(failure("metadata", &[("section", "s")], "", Metadata::parse_one), None);
    assert_eq!(failure("metadata", &[], "", Metadata::parse_one), missing("metadata", "section"));
    assert_eq!(failure("modelType", &[("type", "Chat")], "", ModelType::parse_one), None);
    assert_eq!(failure("modelType", &[], "", ModelType::parse_one), missing("modelType", "type"));
}

#[test]
fn the_first_fault_in_order_is_the_failure() {
    // `size` is asked for before `type`, `extractionId` after `verify`.
    let mut attrs = without(&IMAGE, 3);
    attrs[2] = ("size", "twelve");
    assert_eq!(failure_empty("image", &attrs, Image::parse_one), no_number("image", "size", "twelve"));
    let mut attrs = without(&IMAGE, 4);
    attrs[4] = ("extractionId", "-1");
    assert_eq!(failure_empty("image", &attrs, Image::parse_one), missing("image", "verify"));
    // An extraction asks for its `id` first.
    let mut attrs = without(&EXTRACTION, 1);
    attrs[0] = ("id", "4294967296");
    assert_eq!(
        failure_empty("extractionInfo", &attrs, ExtractionInfo::parse_one),
        no_number("extractionInfo", "id", "4294967296")
    );
    let mut attrs = EXTRACTION.to_vec();
    attrs[0] = ("id", "4294967295");
    assert_eq!(failure_empty("extractionInfo", &attrs, ExtractionInfo::parse_one), None);
    // A body that fails is reported before the attributes are looked at.
    assert_eq!(
        failure("file", &without(&FILE, 0), "<other/>", File::parse_one),
        Some(ErrorKind::UnexpectedEvent {
            element: "file".to_string(),
            observed: ufed_report::error::EventKind::Empty,
            offset: 123,
        })
    );
}
