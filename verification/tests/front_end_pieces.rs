use scan2blob::error::WuffError;
use scan2blob::gate::web::{GateWebAppArgs, GateWebAppArgsCgi, GateWebAppResponse};
use scan2blob::open_file::OpenFile;

#[test]
fn sequential_writes_advance_the_counter() {
    let mut f = OpenFile::new("scan.pdf".to_string(), Some(10));
    assert!(f.record_write(0, 4));
    assert!(f.record_write(4, 6));
    assert_eq!(f.bytes_written, 10);
    assert!(f.size_matches_at_close());
}

#[test]
fn random_access_writes_are_refused() {
    let mut f = OpenFile::new("scan.pdf".to_string(), None);
    assert!(f.record_write(0, 4));
    // A hole.
    assert!(!f.record_write(8, 4));
    // A rewind.
    assert!(!f.record_write(0, 4));
    // The counter is untouched by refused writes.
    assert_eq!(f.bytes_written, 4);
    assert!(f.record_write(4, 1));
    assert_eq!(f.bytes_written, 5);
}

#[test]
fn size_mismatch_is_detected_at_close() {
    let mut f = OpenFile::new("scan.pdf".to_string(), Some(10));
    assert!(f.record_write(0, 4));
    assert!(!f.size_matches_at_close());
    // Without an announced size every count is fine.
    let g = OpenFile::new("scan.pdf".to_string(), None);
    assert!(g.size_matches_at_close());
}

#[test]
fn form_buttons_map_to_gate_transitions() {
    let args = GateWebAppArgs::try_from_cgi(GateWebAppArgsCgi {
        open: "Unlocked".to_string(),
        name_hint: Some("jane".to_string()),
    })
    .unwrap();
    assert!(args.open);
    assert_eq!(args.name_hint, Some("jane".to_string()));
    let args = GateWebAppArgs::try_from_cgi(GateWebAppArgsCgi {
        open: "Locked".to_string(),
        name_hint: None,
    })
    .unwrap();
    assert!(!args.open);
    assert_eq!(args.name_hint, None);
    let bad = GateWebAppArgs::try_from_cgi(GateWebAppArgsCgi {
        open: "Ajar".to_string(),
        name_hint: None,
    });
    assert!(bad.is_err());
}

#[test]
fn blank_name_hints_count_as_absent() {
    let args = GateWebAppArgs::try_from_cgi(GateWebAppArgsCgi {
        open: "Unlocked".to_string(),
        name_hint: Some("   ".to_string()),
    })
    .unwrap();
    assert_eq!(args.name_hint, None);
    let args = GateWebAppArgs::try_from_cgi(GateWebAppArgsCgi {
        open: "Unlocked".to_string(),
        name_hint: Some("".to_string()),
    })
    .unwrap();
    assert_eq!(args.name_hint, None);
    let args = GateWebAppArgs::try_from_cgi(GateWebAppArgsCgi {
        open: "Unlocked".to_string(),
        name_hint: Some(" jane ".to_string()),
    })
    .unwrap();
    // Only hints that are nothing but whitespace are dropped.
    assert_eq!(args.name_hint, Some(" jane ".to_string()));
}

#[test]
fn html_escaping_covers_the_markup_characters() {
    let mut page = String::from("<p>");
    GateWebAppResponse::html_escape(&mut page, "a<b & \"c\" > d");
    assert_eq!(page, "<p>a&lt;b &amp; &quot;c&quot; &gt; d");
    let mut page = String::new();
    GateWebAppResponse::html_escape(&mut page, "plain");
    assert_eq!(page, "plain");
}

#[test]
fn errors_carry_their_message() {
    let e = WuffError::new("it broke");
    assert_eq!(e.message, "it broke");
    assert_eq!(e.to_message(), "it broke");
    let d = e.duplicate();
    assert_eq!(d.message, "it broke");
    let owned = WuffError::from_string("gone".to_string());
    assert_eq!(owned.message, "gone");
}
