use nvreport::extract::extract_field;
use nvreport::freq::count_occurrences;
use nvreport::gpu::gpu_summary;
use nvreport::summary::system_summary;

#[test]
fn count_occurrences_preserves_totals_and_order() {
    let items = vec![
        "alpha".to_string(),
        "beta".to_string(),
        "alpha".to_string(),
        "alpha".to_string(),
    ];
    let t = count_occurrences(&items);
    assert_eq!(t.entries.len(), 2);
    assert_eq!(t.entries[0], ("alpha".to_string(), 3));
    assert_eq!(t.entries[1], ("beta".to_string(), 1));
    let total: usize = t.entries.iter().map(|e| e.1).sum();
    assert_eq!(total, items.len());
}

#[test]
fn extract_field_returns_trimmed_remainder_after_first_colon() {
    let block = "Manufacturer: Example Corp.\nProduct Name:   Box 9000  \n";
    assert_eq!(extract_field(block, "Manufacturer:"), "Example Corp.");
    assert_eq!(extract_field(block, "Product Name:"), "Box 9000");
    assert_eq!(extract_field(block, "Serial Number:"), "");
    // the remainder keeps any later colons
    let block2 = "Boot Time: 12:30:00\n";
    assert_eq!(extract_field(block2, "Boot Time:"), "12:30:00");
}

#[test]
fn system_summary_lists_identity_fields() {
    let doc = "Date: Mon Jun 10\n\
               Driver Version: 535.104.05\n\
               System Information\n\
               \tManufacturer: Example Corp.\n\
               \tProduct Name: Box 9000\n\
               \tSerial Number: S123\n\
               \n";
    let lines = system_summary(doc);
    assert_eq!(lines[0], "Log from: Mon Jun 10");
    assert_eq!(lines[1], "NVIDIA Driver Version: 535.104.05");
    assert_eq!(lines[2], "Chassis: Example Corp. Box 9000 S123");
}

#[test]
fn memory_section_compresses_identical_modules_in_first_seen_order() {
    let dimm_a = "Handle 0x0011, DMI type 17, 40 bytes\n\tSize: 32 GB\n\tSpeed: 2933 MT/s\n\n";
    let dimm_b = "Handle 0x0013, DMI type 17, 40 bytes\n\tSize: 16 GB\n\tSpeed: 2933 MT/s\n\n";
    let doc = format!("{}{}{}", dimm_a, dimm_a.replace("0x0011", "0x0012"), dimm_b);
    let lines = system_summary(&doc);
    let mem = lines.iter().position(|l| l == "  Memory:").unwrap();
    assert_eq!(lines[mem + 2], "          2     Size: 32 GB | Speed: 2933 MT/s");
    assert_eq!(lines[mem + 3], "          1     Size: 16 GB | Speed: 2933 MT/s");
    assert_eq!(lines[mem + 4], "");
}

#[test]
fn empty_memory_slots_are_filtered_out() {
    let doc = "Handle 0x0014, DMI type 17, 40 bytes\n\tSize: No Module Installed\n\n";
    let lines = system_summary(doc);
    let mem = lines.iter().position(|l| l == "  Memory:").unwrap();
    // no module line follows the listing header, only the closing blank
    assert_eq!(lines[mem + 2], "");
}

#[test]
fn gpu_dispatch_prefers_management_utility_headers() {
    // both shapes present: only the management-utility path may report
    let doc = "GPU 00000000:19:00.0\n\
               \tGPU UUID : GPU-abc\n\
               \n\
               GPU 0: some model\n\
               Bus Location: 0000:1a:00.0\n\
               GPU UUID : GPU-xyz\n\
               \n";
    let lines = gpu_summary(doc);
    assert_eq!(lines[0], "Summary of PCI Addresses and GPUs");
    assert_eq!(lines[1], "00000000:19:00.0 GPU-abc");
    assert!(!lines.contains(&"0000:1a:00.0 GPU-xyz".to_string()));
}

#[test]
fn gpu_dispatch_falls_back_to_driver_blocks() {
    let doc = "GPU 0: some model\n\
               Bus Location: 0000:1a:00.0\n\
               GPU UUID : GPU-xyz\n\
               \n";
    let lines = gpu_summary(doc);
    assert_eq!(lines[1], "0000:1a:00.0 GPU-xyz");
}

#[test]
fn gpu_fallback_defaults_missing_fields() {
    let doc = "GPU 0: some model\n\n";
    let lines = gpu_summary(doc);
    assert_eq!(lines[1], "N/A N/A");
}

#[test]
fn gpu_models_are_counted() {
    let doc = "Model: Tesla V100\nModel: Tesla V100\nSubsystem: Vendor Thing\n";
    let lines = gpu_summary(doc);
    let gp = lines.iter().position(|l| l == "GPUs:").unwrap();
    assert_eq!(lines[gp + 1], "    2 Tesla V100");
    assert_eq!(lines[gp + 2], "    1     Subsystem: Vendor Thing");
}

#[test]
fn boot_line_follows_cmdline_marker() {
    let doc = "*** /proc/cmdline\n    BOOT_IMAGE=/vmlinuz quiet\n";
    let lines = system_summary(doc);
    assert!(lines.contains(&"  BOOT Line: BOOT_IMAGE=/vmlinuz quiet".to_string()));
}

#[test]
fn cpu_models_are_counted_per_thread() {
    let doc = "model name\t: Example CPU 8380\nmodel name\t: Example CPU 8380\n";
    let lines = system_summary(doc);
    assert!(lines.contains(&"  CPUs # threads: 2 of CPU: Example CPU 8380".to_string()));
}
