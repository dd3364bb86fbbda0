use scan2blob::gate::{ConfigGate, Gate};
use scan2blob::mime_types::{default_mime_types, ConfigMimeType, ConfigMimeTypesEnriched};

fn default_table() -> ConfigMimeTypesEnriched {
    ConfigMimeTypesEnriched::try_from_config(&default_mime_types()).unwrap()
}

#[test]
fn default_table_resolves_common_extensions() {
    let table = default_table();
    let pdf = table.get("scan.pdf").unwrap();
    assert_eq!(pdf.suffix, ".pdf");
    assert_eq!(pdf.content_type, "application/pdf");
    let jpeg = table.get("photo.jpeg").unwrap();
    assert_eq!(jpeg.suffix, ".jpg");
    assert_eq!(jpeg.content_type, "image/jpeg");
    let tif = table.get("page.tif").unwrap();
    assert_eq!(tif.suffix, ".tiff");
    assert_eq!(tif.content_type, "image/tiff");
}

#[test]
fn extensions_are_lowercased_on_both_sides() {
    let table = default_table();
    let upper = table.get("SCAN.PDF").unwrap();
    assert_eq!(upper.suffix, ".pdf");
    let config = vec![(
        "RAW".to_string(),
        ConfigMimeType { override_suffix: None, content_type: "application/octet-stream".to_string() },
    )];
    let table = ConfigMimeTypesEnriched::try_from_config(&config).unwrap();
    let entry = table.get("img.raw").unwrap();
    assert_eq!(entry.suffix, ".raw");
}

#[test]
fn lookup_uses_the_last_dot() {
    let table = default_table();
    let entry = table.get("archive.backup.pdf").unwrap();
    assert_eq!(entry.suffix, ".pdf");
    assert!(table.get("archive.pdf.backup").is_none());
}

#[test]
fn filenames_without_extension_are_refused() {
    let table = default_table();
    assert!(table.get("README").is_none());
    assert!(table.get("").is_none());
    // A trailing dot means an empty extension, which the table cannot hold.
    assert!(table.get("file.").is_none());
}

#[test]
fn duplicate_extensions_after_lowercasing_are_refused() {
    let config = vec![
        (
            "pdf".to_string(),
            ConfigMimeType { override_suffix: None, content_type: "application/pdf".to_string() },
        ),
        (
            "PDF".to_string(),
            ConfigMimeType { override_suffix: None, content_type: "application/pdf".to_string() },
        ),
    ];
    let result = ConfigMimeTypesEnriched::try_from_config(&config);
    assert!(result.is_err());
    assert_eq!(result.err().unwrap().message, "duplicate mime types");
}

#[test]
fn admission_requires_an_open_gate_and_a_known_extension() {
    let table = default_table();
    let cfg = ConfigGate { default_open: false, timed_assertion_lifetime: 3600, name_hint_lifetime: 600 };
    let mut gate = Gate::new("scanner", &cfg);
    // Gate closed: refused, whatever the filename.
    assert!(gate.try_write_file(0, "scan.pdf", &table).is_none());
    gate.assert_gate_open_timed_with_name_hint(0, Some("jane".to_string()));
    // Unknown extension: refused even while open.
    assert!(gate.try_write_file(1000, "scan.xyz", &table).is_none());
    // Both checks pass: the ticket carries the live hint and the entry.
    let (hint, entry) = gate.try_write_file(1000, "scan.pdf", &table).unwrap();
    assert_eq!(hint, Some("jane".to_string()));
    assert_eq!(entry.suffix, ".pdf");
    assert_eq!(entry.content_type, "application/pdf");
    // After the hint expires the upload is admitted without one.
    let (hint, _entry) = gate.try_write_file(700_000, "scan.pdf", &table).unwrap();
    assert_eq!(hint, None);
}
