use nvreport::counters::{
    check_ecc_errors, check_gpu_power_performance, check_gpu_temperatures, check_nvlink_errors,
};
use nvreport::detect::{
    check_bad_cpu, check_cpu_throttle, check_fallen_off_bus, check_hardware_errors,
    check_power_state_refused, check_rminit_failed, check_segfaults, check_thermal_slowdown,
    check_version_conflicts,
};
use nvreport::pcie::check_pcie_link_status;
use nvreport::xid::{check_xid_errors, XidTable};

fn table(pairs: &[(&str, &str)]) -> XidTable {
    let mut v: Vec<(String, String)> = Vec::new();
    for (c, d) in pairs {
        v.push((c.to_string(), d.to_string()));
    }
    XidTable::new(v)
}

#[test]
fn zero_matches_give_count_zero_and_fixed_message() {
    let doc = "a quiet, healthy log\nnothing to see\n";
    let f = check_segfaults(doc);
    assert_eq!(f.count, 0);
    assert_eq!(f.lines, vec!["No segfaults found".to_string()]);
    let f = check_version_conflicts(doc);
    assert_eq!(f.count, 0);
    assert_eq!(f.lines, vec!["No version conflicts found".to_string()]);
    let f = check_cpu_throttle(doc);
    assert_eq!(f.count, 0);
    assert_eq!(f.lines, vec!["No CPU throttling".to_string()]);
    let f = check_hardware_errors(doc);
    assert_eq!(f.count, 0);
    assert_eq!(f.lines, vec!["No Hardware Errors found".to_string()]);
    let f = check_thermal_slowdown(doc);
    assert_eq!(f.count, 0);
    assert_eq!(f.lines, vec!["No thermal slowdown messages found".to_string()]);
    let f = check_fallen_off_bus(doc);
    assert_eq!(f.count, 0);
    let f = check_rminit_failed(doc);
    assert_eq!(f.count, 0);
    let f = check_power_state_refused(doc);
    assert_eq!(f.count, 0);
    let f = check_bad_cpu(doc);
    assert_eq!(f.count, 0);
    let f = check_xid_errors(doc, &table(&[]));
    assert_eq!(f.count, 0);
    assert_eq!(f.lines, vec!["No Xid errors found".to_string()]);
}

#[test]
fn bad_cpu_occurrences_are_counted_and_aggregated() {
    let doc = "something bad cpu here\nbad cpu\n";
    let f = check_bad_cpu(doc);
    assert_eq!(f.count, 2);
    assert_eq!(f.lines[0], "");
    assert_eq!(f.lines[1], "** Bad CPU Error: 2");
    assert_eq!(f.lines[3], "    (2x) bad cpu");
}

#[test]
fn thermal_slowdown_needs_active_suffix() {
    let active = "    GPU SW Thermal Slowdown    : Active";
    let idle = "    GPU SW Thermal Slowdown    : Not Active";
    let f = check_thermal_slowdown(&format!("{}\n{}\n", active, idle));
    assert_eq!(f.count, 1);
    assert_eq!(f.lines[1], "** Thermal Slow down: 1");
    assert_eq!(f.lines[2], format!("    ({}x) {}", 1, active.trim()));
}

#[test]
fn segfault_lines_are_reported_whole() {
    let doc = "app[11]: segfault at 0 ip 0\nall good\n";
    let f = check_segfaults(doc);
    assert_eq!(f.count, 1);
    assert_eq!(f.lines[2], "    (1x) app[11]: segfault at 0 ip 0");
}

#[test]
fn fallen_off_bus_match_starts_at_kernel_marker() {
    let doc = "Jun 10 host kernel: NVRM: GPU 0000:19:00.0: GPU has fallen off the bus.\n";
    let f = check_fallen_off_bus(doc);
    assert_eq!(f.count, 1);
    assert_eq!(
        f.lines[2],
        "    (1x) kernel: NVRM: GPU 0000:19:00.0: GPU has fallen off the bus."
    );
}

#[test]
fn nvlink_totals_sum_all_links() {
    let doc = "Link 0: Replay Errors: 3\nLink 0: Recovery Errors: 0\nLink 0: CRC Errors: 2\n";
    let f = check_nvlink_errors(doc);
    assert_eq!(f.count, 5);
    assert_eq!(f.lines[3], "** NVLink Errors Detected:");
    assert_eq!(f.lines[4], "   Total Replay Errors: 3");
    assert_eq!(f.lines[5], "   Total Recovery Errors: 0");
    assert_eq!(f.lines[6], "   Total CRC Errors: 2");
}

#[test]
fn nvlink_healthy_when_no_counters() {
    let f = check_nvlink_errors("no links here\n");
    assert_eq!(f.count, 0);
    assert_eq!(f.lines[3], "No NVLink errors detected - All links healthy");
}

#[test]
fn temperature_thresholds_are_exact() {
    let doc = "GPU Current Temp : 70 C\nGPU Current Temp : 80 C\nGPU Current Temp : 90 C\n";
    let f = check_gpu_temperatures(doc);
    assert_eq!(f.count, 1);
    assert_eq!(f.lines[4], "   Min: 70\u{b0}C, Max: 90\u{b0}C, Avg: 80\u{b0}C");
    assert_eq!(f.lines[5], "   ** WARNING: High temperature detected (>85\u{b0}C)!");

    let f = check_gpu_temperatures("GPU Current Temp : 70 C\nGPU Current Temp : 80 C\n");
    assert_eq!(f.count, 1);
    assert_eq!(f.lines[5], "   ** CAUTION: Elevated temperature (>75\u{b0}C)");

    let f = check_gpu_temperatures("GPU Current Temp : 60 C\nGPU Current Temp : 70 C\n");
    assert_eq!(f.count, 0);
    assert_eq!(f.lines[5], "   Temperatures are within normal range");

    let f = check_gpu_temperatures("no readings\n");
    assert_eq!(f.count, 0);
    assert_eq!(f.lines[3], "No temperature data found");
}

#[test]
fn ecc_counters_and_retired_pages_note() {
    let doc = "DRAM Correctable : 4\nDRAM Uncorrectable : 1\nRetired Pages\n";
    let f = check_ecc_errors(doc);
    assert_eq!(f.count, 5);
    assert_eq!(f.lines[3], "** ECC Errors Detected:");
    assert_eq!(f.lines[4], "   DRAM Correctable Errors: 4");
    assert_eq!(f.lines[5], "   DRAM Uncorrectable Errors: 1");
    assert_eq!(
        f.lines[6],
        "   ** CRITICAL: Uncorrectable errors indicate potential hardware failure!"
    );
    assert_eq!(f.lines[7], "\nRetired Pages information available in log");
}

#[test]
fn ecc_clean_document() {
    let f = check_ecc_errors("DRAM Correctable : 0\nDRAM Uncorrectable : 0\n");
    assert_eq!(f.count, 0);
    assert_eq!(f.lines[3], "No ECC memory errors detected");
}

#[test]
fn malformed_counter_values_are_skipped() {
    // the second value exceeds the 32-bit counter range and contributes nothing
    let doc = "DRAM Correctable : 7\nDRAM Correctable : 99999999999999999999\n";
    let f = check_ecc_errors(doc);
    assert_eq!(f.count, 7);
}

#[test]
fn xid_count_is_matched_lines_not_distinct_codes() {
    let l13 = "Jun 10 host kernel: NVRM: Xid (PCI: 0000:19:00): 13, Graphics Engine Exception";
    let l31 = "Jun 10 host kernel: NVRM: Xid (PCI: 0000:1a:00): 31, MMU Fault";
    let doc = format!("{}\n{}\n{}\n", l13, l13, l31);
    let t = table(&[("13", "Graphics Engine Exception"), ("99", "unused")]);
    let f = check_xid_errors(&doc, &t);
    assert_eq!(f.count, 3);
    assert_eq!(f.lines[1], "Summary of Xid errors: 3");
    assert_eq!(
        f.lines[3],
        "    (2x) kernel: NVRM: Xid (PCI: 0000:19:00): 13, Graphics Engine Exception"
    );
    assert_eq!(f.lines[4], "    (1x) kernel: NVRM: Xid (PCI: 0000:1a:00): 31, MMU Fault");
    assert_eq!(f.lines[6], "Summary of error descriptions:");
    // each distinct code exactly once, in first-seen order
    assert_eq!(f.lines[7], "   13 - Graphics Engine Exception");
    assert_eq!(f.lines[8], "   31 - No description found in CSV.");
    assert_eq!(f.lines.len(), 9);
}

#[test]
fn xid_lookup_resolves_exact_pair_or_fallback() {
    let t = table(&[("13", "Graphics Engine Exception"), ("31", "GPU memory page fault")]);
    assert_eq!(
        t.lookup(&"13".to_string()),
        Some("Graphics Engine Exception".to_string())
    );
    assert_eq!(t.lookup(&"31".to_string()), Some("GPU memory page fault".to_string()));
    assert_eq!(t.lookup(&"79".to_string()), None);
    // a repeated code keeps its last description, as repeated loads overwrite
    let t2 = table(&[("13", "old"), ("13", "new")]);
    assert_eq!(t2.lookup(&"13".to_string()), Some("new".to_string()));
}

#[test]
fn pcie_degraded_line_without_header_keeps_unknown_entry() {
    let doc = "\t\tLnkSta:\tSpeed 8GT/s (downgraded), Width x8 (downgraded)\n";
    let f = check_pcie_link_status(doc);
    assert_eq!(f.count, 1);
    assert_eq!(f.lines[3], "** PCIe Link Degradation Detected: 1 instances");
    assert_eq!(
        f.lines[7],
        "   Unknown - Unknown Device\n      Current: 8GT/s (downgraded), x8 (downgraded)"
    );
}

#[test]
fn pcie_entry_carries_device_and_expectation() {
    let doc = "0000:19:00.0 3D controller [0302]: NVIDIA Corporation Device [10de]\n\
               \t\tLnkCap:\tPort #0, Speed 16GT/s, Width x16, ASPM not supported\n\
               \t\tLnkSta:\tSpeed 8GT/s (downgraded), Width x8 (downgraded)\n";
    let f = check_pcie_link_status(doc);
    assert_eq!(f.count, 1);
    assert_eq!(
        f.lines[7],
        "   0000:19:00.0 - 3D controller\n      Current: 8GT/s (downgraded), x8 (downgraded) (Expected: 16GT/s x16)"
    );
}

#[test]
fn pcie_healthy_when_nothing_downgraded() {
    let doc = "\t\tLnkSta:\tSpeed 16GT/s, Width x16\n";
    let f = check_pcie_link_status(doc);
    assert_eq!(f.count, 0);
    assert_eq!(f.lines[3], "All PCIe links appear to be running at expected speeds");
}

#[test]
fn power_counts_only_persistence_disabled() {
    let doc = "GPU Power Readings\n\
               \tPower Draw : 100.50 W\n\
               Current Power Limit : 400.00 W\n\
               Persistence Mode : Disabled\n\
               Persistence Mode : Enabled\n\
               Persistence Mode : Disabled\n";
    let f = check_gpu_power_performance(doc);
    assert_eq!(f.count, 2);
    assert_eq!(f.lines[3], "Average GPU Power Draw: 100.50 W");
    assert_eq!(f.lines[4], "Average Power Limit: 400.00 W (25.1% utilized)");
    assert_eq!(
        f.lines[5],
        "\n** RECOMMENDATION: Persistence Mode is Disabled on 2 GPU(s)"
    );
}

#[test]
fn power_statistics_do_not_affect_count() {
    let doc = "GPU Power Readings\n\tPower Draw : 250.00 W\n";
    let f = check_gpu_power_performance(doc);
    assert_eq!(f.count, 0);
    assert_eq!(f.lines[3], "Average GPU Power Draw: 250.00 W");
    assert_eq!(f.lines.len(), 4);
}

#[test]
fn hardware_error_phrase_counted_per_occurrence_with_advice() {
    let doc = "x Hardware Error y Hardware Error z\n";
    let f = check_hardware_errors(doc);
    assert_eq!(f.count, 2);
    assert_eq!(f.lines[1], "** Hardware Errors: 2");
    assert!(f.lines[2].starts_with("  To find specific errors:"));
    assert_eq!(f.lines[3], "    (2x) Hardware Error");
}

#[test]
fn version_conflict_advice_is_attached() {
    let doc = "Please update with matching NVIDIA driver\n";
    let f = check_version_conflicts(doc);
    assert_eq!(f.count, 1);
    assert_eq!(f.lines[1], "** GPU Driver and Fabric Manager Conflicts: 1");
    assert!(f.lines[2].contains("SXM chassis"));
}

#[test]
fn carriage_returns_are_stripped_before_matching() {
    let doc = "GPU Current Temp : 90 C\r\nGPU Current Temp : 90 C\r\n";
    let f = check_gpu_temperatures(doc);
    assert_eq!(f.count, 2);
}
