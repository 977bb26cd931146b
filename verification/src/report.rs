//! The full report: banner, system summary, GPU inventory, every detector's
//! section in fixed order, and the final roll-up listing each detector with a
//! pass/fail marker derived from `count > 0`.

use vstd::prelude::*;
use crate::counters::{
    check_ecc_errors, check_gpu_power_performance, check_gpu_temperatures, check_nvlink_errors,
    clamp_usize, doc_persistence_count, doc_temps, ecc_report_lines, ecc_total, nvlink_report_lines,
    nvlink_total, power_report_lines, temp_issue_count, temp_report_lines,
};
use crate::detect::{
    bad_cpu_advice_text, banner, banner_lines, check_bad_cpu, check_cpu_throttle,
    check_fallen_off_bus, check_hardware_errors, check_power_state_refused, check_rminit_failed,
    check_segfaults, check_thermal_slowdown, check_version_conflicts, hardware_error_advice_text,
    pattern_report_lines, version_conflict_advice_text, Finding,
};
use crate::freq::string_views;
use crate::gpu::{gpu_summary, gpu_summary_lines};
use crate::pattern::{simple_doc_matches, SimplePattern};
use crate::pcie::{check_pcie_link_status, doc_pcie_details, pcie_report_lines};
use crate::summary::{sys_summary_lines, system_summary};
use crate::text::{append_str, dec_str, usize_to_string};
use crate::xid::{check_xid_errors, doc_xid_matches, xid_report_lines, XidTable};

verus! {

/// One roll-up line: a cross and the issue count when the detector found
/// anything, a check mark otherwise.
pub open spec fn summary_item_line(name: Seq<char>, count: nat) -> Seq<char> {
    if count > 0 {
        "  ❌ "@ + name + ": "@ + dec_str(count) + " issue(s) found"@
    } else {
        "  ✅ "@ + name + ": OK"@
    }
}

/// Render one roll-up line; failing means `count > 0`, nothing else.
pub fn render_summary_item(name: &str, count: usize) -> (r: String)
    ensures
        r@ == summary_item_line(name@, count as nat),
{
    if count > 0 {
        let mut l = "  ❌ ".to_owned();
        append_str(&mut l, name);
        append_str(&mut l, ": ");
        let num = usize_to_string(count);
        append_str(&mut l, num.as_str());
        append_str(&mut l, " issue(s) found");
        l
    } else {
        let mut l = "  ✅ ".to_owned();
        append_str(&mut l, name);
        append_str(&mut l, ": OK");
        l
    }
}

/// The whole rendered report of one document against one lookup table.
pub open spec fn report_lines_spec(doc: Seq<char>, t: Seq<(Seq<char>, Seq<char>)>) -> Seq<Seq<
    char,
>> {
    banner_lines("     NVIDIA Bug Report Log Summary"@) + sys_summary_lines(doc)
        + gpu_summary_lines(doc) + pattern_report_lines(
        simple_doc_matches(SimplePattern::VersionConflict, doc),
        "GPU Driver and Fabric Manager Conflicts"@,
        "No version conflicts found"@,
        Some(version_conflict_advice_text()),
    ) + xid_report_lines(doc_xid_matches(doc), t) + nvlink_report_lines(doc) + temp_report_lines(
        doc_temps(doc),
    ) + ecc_report_lines(doc) + pcie_report_lines(doc) + power_report_lines(doc)
        + pattern_report_lines(
        simple_doc_matches(SimplePattern::ThermalSlowdown, doc),
        "Thermal Slow down"@,
        "No thermal slowdown messages found"@,
        None,
    ) + pattern_report_lines(
        simple_doc_matches(SimplePattern::Segfault, doc),
        "Segfaults"@,
        "No segfaults found"@,
        None,
    ) + pattern_report_lines(
        simple_doc_matches(SimplePattern::CpuThrottle, doc),
        "CPU throttling"@,
        "No CPU throttling"@,
        None,
    ) + pattern_report_lines(
        simple_doc_matches(SimplePattern::HardwareError, doc),
        "Hardware Errors"@,
        "No Hardware Errors found"@,
        Some(hardware_error_advice_text()),
    ) + pattern_report_lines(
        simple_doc_matches(SimplePattern::FallenOffBus, doc),
        "Fallen off the bus Errors"@,
        "No 'fallen off the bus' errors"@,
        None,
    ) + pattern_report_lines(
        simple_doc_matches(SimplePattern::RmInit, doc),
        "GPU RmInitAdapter Failed"@,
        "No 'RmInit failures'"@,
        None,
    ) + pattern_report_lines(
        simple_doc_matches(SimplePattern::PowerStateRefused, doc),
        "Power State Change Refused"@,
        "No 'Refused to change power state' messages"@,
        None,
    ) + pattern_report_lines(
        simple_doc_matches(SimplePattern::BadCpu, doc),
        "Bad CPU Error"@,
        "No 'bad cpu' Errors found"@,
        Some(bad_cpu_advice_text()),
    ) + banner_lines("     FINAL SUMMARY"@) + seq![
        summary_item_line(
            "Driver/Fabric Manager Conflicts"@,
            simple_doc_matches(SimplePattern::VersionConflict, doc).len(),
        ),
        summary_item_line("Xid Errors"@, doc_xid_matches(doc).len()),
        summary_item_line("NVLink Errors"@, clamp_usize(nvlink_total(doc))),
        summary_item_line("GPU Temperature Issues"@, temp_issue_count(doc_temps(doc))),
        summary_item_line("ECC Memory Errors"@, clamp_usize(ecc_total(doc))),
        summary_item_line("PCIe Link Degradation"@, doc_pcie_details(doc).len()),
        summary_item_line("GPU Power/Performance Issues"@, doc_persistence_count(doc)),
        summary_item_line(
            "Thermal Slowdown"@,
            simple_doc_matches(SimplePattern::ThermalSlowdown, doc).len(),
        ),
        summary_item_line("Segfaults"@, simple_doc_matches(SimplePattern::Segfault, doc).len()),
        summary_item_line(
            "CPU Throttling"@,
            simple_doc_matches(SimplePattern::CpuThrottle, doc).len(),
        ),
        summary_item_line(
            "Hardware Errors"@,
            simple_doc_matches(SimplePattern::HardwareError, doc).len(),
        ),
        summary_item_line(
            "GPU Fallen Off Bus"@,
            simple_doc_matches(SimplePattern::FallenOffBus, doc).len(),
        ),
        summary_item_line("RmInit Failures"@, simple_doc_matches(SimplePattern::RmInit, doc).len()),
        summary_item_line(
            "Power State Refused"@,
            simple_doc_matches(SimplePattern::PowerStateRefused, doc).len(),
        ),
        summary_item_line("Bad CPU Errors"@, simple_doc_matches(SimplePattern::BadCpu, doc).len()),
    ] + banner_lines("     End of Report"@)
}

/// Move rendered lines onto the end of the report.
fn extend_lines(out: &mut Vec<String>, more: Vec<String>)
    ensures
        string_views(final(out)@) == string_views(old(out)@) + string_views(more@),
{
    let ghost m0 = more@;
    let mut m = more;
    out.append(&mut m);
    proof {
        assert(string_views(out@) =~= string_views(old(out)@) + string_views(m0));
    }
}

/// Render the whole report: banner, system summary, GPU inventory, every
/// detector's section in fixed order, and the roll-up.
#[verifier::rlimit(60)]
pub fn report_lines(log: &str, table: &XidTable) -> (r: Vec<String>)
    ensures
        string_views(r@) == report_lines_spec(log@, table@),
{
    let mut out = banner("     NVIDIA Bug Report Log Summary");
    extend_lines(&mut out, system_summary(log));
    extend_lines(&mut out, gpu_summary(log));
    let vc = check_version_conflicts(log);
    extend_lines(&mut out, vc.lines);
    let xid = check_xid_errors(log, table);
    extend_lines(&mut out, xid.lines);
    let nv = check_nvlink_errors(log);
    extend_lines(&mut out, nv.lines);
    let temp = check_gpu_temperatures(log);
    extend_lines(&mut out, temp.lines);
    let ecc = check_ecc_errors(log);
    extend_lines(&mut out, ecc.lines);
    let pcie = check_pcie_link_status(log);
    extend_lines(&mut out, pcie.lines);
    let power = check_gpu_power_performance(log);
    extend_lines(&mut out, power.lines);
    let thermal = check_thermal_slowdown(log);
    extend_lines(&mut out, thermal.lines);
    let seg = check_segfaults(log);
    extend_lines(&mut out, seg.lines);
    let cpu = check_cpu_throttle(log);
    extend_lines(&mut out, cpu.lines);
    let hw = check_hardware_errors(log);
    extend_lines(&mut out, hw.lines);
    let fb = check_fallen_off_bus(log);
    extend_lines(&mut out, fb.lines);
    let rm = check_rminit_failed(log);
    extend_lines(&mut out, rm.lines);
    let ps = check_power_state_refused(log);
    extend_lines(&mut out, ps.lines);
    let bc = check_bad_cpu(log);
    extend_lines(&mut out, bc.lines);
    extend_lines(&mut out, banner("     FINAL SUMMARY"));
    out.push(render_summary_item("Driver/Fabric Manager Conflicts", vc.count));
    out.push(render_summary_item("Xid Errors", xid.count));
    out.push(render_summary_item("NVLink Errors", nv.count));
    out.push(render_summary_item("GPU Temperature Issues", temp.count));
    out.push(render_summary_item("ECC Memory Errors", ecc.count));
    out.push(render_summary_item("PCIe Link Degradation", pcie.count));
    out.push(render_summary_item("GPU Power/Performance Issues", power.count));
    out.push(render_summary_item("Thermal Slowdown", thermal.count));
    out.push(render_summary_item("Segfaults", seg.count));
    out.push(render_summary_item("CPU Throttling", cpu.count));
    out.push(render_summary_item("Hardware Errors", hw.count));
    out.push(render_summary_item("GPU Fallen Off Bus", fb.count));
    out.push(render_summary_item("RmInit Failures", rm.count));
    out.push(render_summary_item("Power State Refused", ps.count));
    out.push(render_summary_item("Bad CPU Errors", bc.count));
    extend_lines(&mut out, banner("     End of Report"));
    proof {
        assert(string_views(out@) =~= report_lines_spec(log@, table@));
    }
    out
}

} // verus!
