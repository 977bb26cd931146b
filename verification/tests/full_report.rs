use nvreport::report::{render_summary_item, report_lines};
use nvreport::xid::XidTable;

#[test]
fn summary_items_derive_pass_fail_from_count() {
    assert_eq!(render_summary_item("Segfaults", 0), "  \u{2705} Segfaults: OK");
    assert_eq!(
        render_summary_item("Segfaults", 3),
        "  \u{274c} Segfaults: 3 issue(s) found"
    );
}

#[test]
fn report_rolls_up_nvlink_totals() {
    let doc = "Link 0: Replay Errors: 3\nLink 0: Recovery Errors: 0\nLink 0: CRC Errors: 2\n";
    let lines = report_lines(doc, &XidTable::new(Vec::new()));
    assert_eq!(lines[1], "     NVIDIA Bug Report Log Summary");
    assert!(lines.contains(&"   Total Replay Errors: 3".to_string()));
    assert!(lines.contains(&"   Total Recovery Errors: 0".to_string()));
    assert!(lines.contains(&"   Total CRC Errors: 2".to_string()));
    assert!(lines.contains(&"  \u{274c} NVLink Errors: 5 issue(s) found".to_string()));
    assert!(lines.contains(&"  \u{2705} Segfaults: OK".to_string()));
}

#[test]
fn report_memory_section_counts_dimm_blocks() {
    let dimm_a = "Handle 0x0011, DMI type 17, 40 bytes\n\tSize: 32 GB\n\tSpeed: 2933 MT/s\n\n";
    let dimm_b = "Handle 0x0013, DMI type 17, 40 bytes\n\tSize: 16 GB\n\tSpeed: 2933 MT/s\n\n";
    let doc = format!("{}{}{}", dimm_a, dimm_a.replace("0x0011", "0x0012"), dimm_b);
    let lines = report_lines(&doc, &XidTable::new(Vec::new()));
    let mem = lines.iter().position(|l| l == "  Memory:").unwrap();
    assert_eq!(lines[mem + 2], "          2     Size: 32 GB | Speed: 2933 MT/s");
    assert_eq!(lines[mem + 3], "          1     Size: 16 GB | Speed: 2933 MT/s");
}

#[test]
fn clean_document_passes_every_check() {
    let lines = report_lines("an uneventful log\n", &XidTable::new(Vec::new()));
    let fails = lines.iter().filter(|l| l.starts_with("  \u{274c}")).count();
    assert_eq!(fails, 0);
    let oks = lines.iter().filter(|l| l.starts_with("  \u{2705}")).count();
    assert_eq!(oks, 15);
    assert_eq!(lines[lines.len() - 2], "     End of Report");
}
