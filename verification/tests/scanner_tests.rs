use glucose_export::models::{RunResult, ScanError};
use glucose_export::scanner::parse_xml;

fn scan(doc: &str) -> Result<RunResult, ScanError> {
    parse_xml(doc.as_bytes().to_vec())
}

fn scan_ok(doc: &str) -> RunResult {
    scan(doc).expect("document should scan")
}

const BG: &str = "HKQuantityTypeIdentifierBloodGlucose";

#[test]
fn empty_document_yields_nothing() {
    let run = scan_ok("<HealthData></HealthData>");
    assert_eq!(run.entries.len(), 0);
    assert_eq!(run.total_scanned, 0);
    assert_eq!(run.total_matching, 0);
}

#[test]
fn non_matching_type_is_counted_but_produces_no_entry() {
    let run = scan_ok("<HealthData><Record type=\"HKQuantityTypeIdentifierBodyMass\" value=\"82\"/></HealthData>");
    assert_eq!(run.total_scanned, 1);
    assert_eq!(run.total_matching, 0);
    assert_eq!(run.entries.len(), 0);
}

#[test]
fn record_without_type_is_counted_but_produces_no_entry() {
    let run = scan_ok("<HealthData><Record value=\"95\"/></HealthData>");
    assert_eq!(run.total_scanned, 1);
    assert_eq!(run.total_matching, 0);
}

#[test]
fn matching_record_is_extracted_in_full() {
    let doc = format!(
        "<HealthData><Record type=\"{BG}\" sourceName=\"Meter\" creationDate=\"2023-03-01 08:05:00 -0500\" startDate=\"2023-03-01 08:00:00 -0500\" endDate=\"2023-03-01 08:00:00 -0500\" value=\"95\" unit=\"mg/dL\"/></HealthData>"
    );
    let run = scan_ok(&doc);
    assert_eq!(run.total_scanned, 1);
    assert_eq!(run.total_matching, 1);
    assert_eq!(run.entries.len(), 1);
    let e = &run.entries[0];
    assert_eq!(e.source_name, "Meter");
    assert_eq!(e.creation_date, "2023-03-01 08:05:00 -0500");
    assert_eq!(e.start_date, "2023-03-01 08:00:00 -0500");
    assert_eq!(e.end_date, "2023-03-01 08:00:00 -0500");
    assert_eq!(e.time, "08:00am est");
    assert_eq!(e.value, "95");
    assert_eq!(e.unit, "mg/dL");
}

#[test]
fn self_closing_and_open_close_forms_are_treated_identically() {
    let self_closing = format!(
        "<HealthData><Record type=\"{BG}\" value=\"95\" unit=\"mg/dL\" startDate=\"2023-03-01 08:00:00 -0500\"/></HealthData>"
    );
    let open_close = format!(
        "<HealthData><Record type=\"{BG}\" value=\"95\" unit=\"mg/dL\" startDate=\"2023-03-01 08:00:00 -0500\"></Record></HealthData>"
    );
    let a = scan_ok(&self_closing);
    let b = scan_ok(&open_close);
    assert_eq!(a, b);
    assert_eq!(a.entries.len(), 1);
    assert_eq!(a.entries[0].value, "95");
    assert_eq!(a.entries[0].time, "08:00am est");
}

#[test]
fn missing_attributes_default_to_empty_text() {
    let doc = format!("<HealthData><Record type=\"{BG}\" value=\"101\"/></HealthData>");
    let run = scan_ok(&doc);
    let e = &run.entries[0];
    assert_eq!(e.source_name, "");
    assert_eq!(e.start_date, "");
    assert_eq!(e.time, "");
    assert_eq!(e.value, "101");
}

#[test]
fn unrecognized_attributes_are_ignored() {
    let doc = format!("<HealthData><Record type=\"{BG}\" device=\"x\" value=\"99\"/></HealthData>");
    let run = scan_ok(&doc);
    assert_eq!(run.entries[0].value, "99");
}

#[test]
fn entries_keep_document_order() {
    let doc = format!(
        "<HealthData><Record type=\"{BG}\" sourceName=\"first\"/><Record type=\"HKQuantityTypeIdentifierBodyMass\"/><Record type=\"{BG}\" sourceName=\"second\"/></HealthData>"
    );
    let run = scan_ok(&doc);
    assert_eq!(run.total_scanned, 3);
    assert_eq!(run.total_matching, 2);
    assert_eq!(run.entries[0].source_name, "first");
    assert_eq!(run.entries[1].source_name, "second");
}

#[test]
fn counters_satisfy_their_invariant() {
    let doc = format!(
        "<HealthData><Record/><Record type=\"{BG}\" value=\"90\"/><Other/><Record type=\"other\"/></HealthData>"
    );
    let run = scan_ok(&doc);
    assert_eq!(run.total_matching, run.entries.len());
    assert!(run.total_scanned >= run.total_matching);
    assert_eq!(run.total_scanned, 3);
}

#[test]
fn scanning_twice_reproduces_the_result() {
    let doc = format!(
        "<HealthData><Record type=\"{BG}\" sourceName=\"a\" value=\"90\" startDate=\"2023-01-15 09:30:00 +0000\"/></HealthData>"
    );
    let first = scan_ok(&doc);
    let second = scan_ok(&doc);
    assert_eq!(first, second);
}

#[test]
fn escaped_attribute_text_is_unescaped() {
    let doc = format!(
        "<HealthData><Record type=\"{BG}\" sourceName=\"A &amp; B\" value=\"9&#53;\" unit=\"mg&#x2F;dL\"/></HealthData>"
    );
    let run = scan_ok(&doc);
    let e = &run.entries[0];
    assert_eq!(e.source_name, "A & B");
    assert_eq!(e.value, "95");
    assert_eq!(e.unit, "mg/dL");
}

#[test]
fn escaped_type_attribute_still_matches() {
    let doc = "<HealthData><Record type=\"HKQuantityTypeIdentifier&#66;loodGlucose\" value=\"88\"/></HealthData>";
    let run = scan_ok(doc);
    assert_eq!(run.total_matching, 1);
    assert_eq!(run.entries[0].value, "88");
}

#[test]
fn unresolvable_escape_aborts_the_run() {
    let doc = format!("<HealthData><Record type=\"{BG}\" value=\"&bogus;\"/></HealthData>");
    assert!(matches!(scan(&doc), Err(ScanError::MalformedEscape(_))));
}

#[test]
fn malformed_start_timestamp_aborts_the_run() {
    let doc = format!("<HealthData><Record type=\"{BG}\" startDate=\"not-a-date\"/></HealthData>");
    assert!(matches!(scan(&doc), Err(ScanError::MalformedTimestamp(_))));
}

#[test]
fn bad_timestamp_on_non_matching_record_is_harmless() {
    let doc = "<HealthData><Record type=\"HKQuantityTypeIdentifierBodyMass\" startDate=\"not-a-date\"/></HealthData>";
    let run = scan_ok(doc);
    assert_eq!(run.total_scanned, 1);
    assert_eq!(run.total_matching, 0);
}

#[test]
fn structurally_broken_document_aborts_the_run() {
    let doc = "<HealthData><Record></HealthData>";
    assert!(matches!(scan(doc), Err(ScanError::MalformedXml(_))));
}

#[test]
fn text_and_other_elements_are_ignored() {
    let doc = format!(
        "<HealthData><!-- export --><ExportDate value=\"x\"/>some text<Record type=\"{BG}\" value=\"77\"/></HealthData>"
    );
    let run = scan_ok(&doc);
    assert_eq!(run.total_scanned, 1);
    assert_eq!(run.entries[0].value, "77");
}

#[test]
fn present_but_empty_value_attribute_stays_empty() {
    let doc = format!("<HealthData><Record type=\"{BG}\" value=\"\"/></HealthData>");
    let run = scan_ok(&doc);
    assert_eq!(run.entries[0].value, "");
}

#[test]
fn non_empty_value_text_never_extracts_to_empty() {
    let doc = format!("<HealthData><Record type=\"{BG}\" value=\"&#48;\"/></HealthData>");
    let run = scan_ok(&doc);
    assert_eq!(run.entries[0].value, "0");
    assert!(!run.entries[0].value.is_empty());
}

#[test]
fn later_duplicate_attribute_does_not_replace_the_first() {
    // The tokenizer rejects a duplicated attribute name, and the scanner
    // keeps the attributes that parsed before it.
    let doc = format!("<HealthData><Record type=\"{BG}\" value=\"90\" value=\"91\"/></HealthData>");
    let run = scan_ok(&doc);
    assert_eq!(run.entries[0].value, "90");
}
