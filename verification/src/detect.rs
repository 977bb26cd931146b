//! Issue detectors driven by the pattern catalog: each scans the document for
//! one category of problem and returns a finding count plus rendered detail
//! lines. Zero matches is a healthy outcome reported with a fixed message.

use vstd::prelude::*;
use crate::freq::{count_occurrences, freq_of, string_views};
use crate::pattern::{collect_simple, simple_doc_matches, SimplePattern};
use crate::text::{
    append_str, dec_str, split_lines, string_of, trim_x, trimmed, usize_to_string, views_of,
};

verus! {

/// The output of one issue detector: how many findings it made (zero means
/// healthy) and the rendered detail lines of its report section.
pub struct Finding {
    pub count: usize,
    pub lines: Vec<String>,
}

/// The three lines of a section banner.
pub open spec fn banner_lines(title: Seq<char>) -> Seq<Seq<char>> {
    seq![
        "\n=================================================="@,
        title,
        "==================================================\n"@,
    ]
}

/// Start a report section with its banner.
pub fn banner(title: &str) -> (r: Vec<String>)
    ensures
        string_views(r@) == banner_lines(title@),
{
    let mut r: Vec<String> = Vec::new();
    r.push("\n==================================================".to_owned());
    r.push(title.to_owned());
    r.push("==================================================\n".to_owned());
    proof {
        assert(string_views(r@) =~= banner_lines(title@));
    }
    r
}

/// Every match, trimmed.
pub open spec fn trim_all(ms: Seq<Seq<char>>) -> Seq<Seq<char>> {
    ms.map_values(|m: Seq<char>| trimmed(m))
}

/// One detail line per distinct match: `    (Nx) match`.
pub open spec fn freq_lines(t: Seq<(Seq<char>, nat)>) -> Seq<Seq<char>> {
    t.map_values(|e: (Seq<char>, nat)| "    ("@ + dec_str(e.1) + "x) "@ + e.0)
}

pub open spec fn opt_str_view(a: Option<&str>) -> Option<Seq<char>> {
    match a {
        Some(s) => Some(s@),
        None => None,
    }
}

/// The report section of a pattern detector: the fixed not-found message when
/// nothing matched, else a header with the match count, optional advice, and
/// the frequency listing of the trimmed matches in first-seen order.
pub open spec fn pattern_report_lines(
    ms: Seq<Seq<char>>,
    header: Seq<char>,
    not_found: Seq<char>,
    advice: Option<Seq<char>>,
) -> Seq<Seq<char>> {
    if ms.len() == 0 {
        seq![not_found]
    } else {
        seq![Seq::<char>::empty(), "** "@ + header + ": "@ + dec_str(ms.len() as nat)] + (
        match advice {
            Some(a) => seq![a],
            None => Seq::<Seq<char>>::empty(),
        }) + freq_lines(freq_of(trim_all(ms)))
    }
}

/// Turn a rule's matches into a finding: the count of matches and the
/// rendered section.
pub fn check_pattern_core(
    matches: &Vec<Vec<char>>,
    header: &str,
    not_found: &str,
    advice: Option<&str>,
) -> (f: Finding)
    ensures
        f.count as nat == views_of(matches@).len(),
        string_views(f.lines@) == pattern_report_lines(
            views_of(matches@),
            header@,
            not_found@,
            opt_str_view(advice),
        ),
{
    if matches.len() == 0 {
        let mut lines: Vec<String> = Vec::new();
        lines.push(not_found.to_owned());
        proof {
            assert(string_views(lines@) =~= seq![not_found@]);
        }
        return Finding { count: 0, lines };
    }
    let mut lines: Vec<String> = Vec::new();
    lines.push(String::new());
    let mut h = "** ".to_owned();
    append_str(&mut h, header);
    append_str(&mut h, ": ");
    let num = usize_to_string(matches.len());
    append_str(&mut h, num.as_str());
    lines.push(h);
    match advice {
        Some(a) => {
            lines.push(a.to_owned());
            proof {
                assert(string_views(lines@) =~= seq![
                    Seq::<char>::empty(),
                    "** "@ + header@ + ": "@ + dec_str(matches@.len() as nat),
                ] + seq![a@]);
            }
        },
        None => {
            proof {
                assert(string_views(lines@) =~= seq![
                    Seq::<char>::empty(),
                    "** "@ + header@ + ": "@ + dec_str(matches@.len() as nat),
                ] + Seq::<Seq<char>>::empty());
            }
        },
    }
    let ghost head = string_views(lines@);
    let mut trimmed_strs: Vec<String> = Vec::new();
    let mut i: usize = 0;
    proof {
        assert(string_views(trimmed_strs@) =~= trim_all(views_of(matches@.take(0))));
    }
    while i < matches.len()
        invariant
            0 <= i <= matches@.len(),
            string_views(trimmed_strs@) == trim_all(views_of(matches@.take(i as int))),
        decreases matches@.len() - i,
    {
        let t = trim_x(&matches[i]);
        let ghost prev = trimmed_strs@;
        trimmed_strs.push(string_of(&t));
        proof {
            assert(string_views(trimmed_strs@) =~= string_views(prev).push(t@));
            assert(views_of(matches@.take(i + 1)) =~= views_of(matches@.take(i as int)).push(
                matches@[i as int]@,
            ));
            assert(trim_all(views_of(matches@.take(i + 1))) =~= trim_all(
                views_of(matches@.take(i as int)),
            ).push(trimmed(matches@[i as int]@)));
            assert(string_views(trimmed_strs@) =~= trim_all(views_of(matches@.take(i + 1))));
        }
        i = i + 1;
    }
    proof {
        assert(matches@.take(matches@.len() as int) =~= matches@);
    }
    let table = count_occurrences(&trimmed_strs);
    let mut j: usize = 0;
    proof {
        assert(table@.take(0) =~= Seq::<(Seq<char>, nat)>::empty());
        assert(string_views(lines@) =~= head + freq_lines(table@.take(0)));
    }
    while j < table.entries.len()
        invariant
            0 <= j <= table.entries@.len(),
            table@.len() == table.entries@.len(),
            string_views(lines@) == head + freq_lines(table@.take(j as int)),
        decreases table.entries@.len() - j,
    {
        let mut ln = "    (".to_owned();
        let cnum = usize_to_string(table.entries[j].1);
        append_str(&mut ln, cnum.as_str());
        append_str(&mut ln, "x) ");
        append_str(&mut ln, table.entries[j].0.as_str());
        proof {
            assert(table@[j as int] == (table.entries@[j as int].0@, table.entries@[j as int].1
                as nat));
            assert(ln@ == "    ("@ + dec_str(table@[j as int].1) + "x) "@ + table@[j as int].0);
        }
        let ghost prev_lines = lines@;
        let ghost lnv = ln@;
        lines.push(ln);
        proof {
            assert(string_views(lines@) =~= string_views(prev_lines).push(lnv));
            assert(table@.take(j + 1) =~= table@.take(j as int).push(table@[j as int]));
            assert(freq_lines(table@.take(j + 1)) =~= freq_lines(table@.take(j as int)).push(
                "    ("@ + dec_str(table@[j as int].1) + "x) "@ + table@[j as int].0,
            ));
            assert(string_views(lines@) =~= head + freq_lines(table@.take(j + 1)));
        }
        j = j + 1;
    }
    proof {
        assert(table@.take(table@.len() as int) =~= table@);
        assert(string_views(lines@) =~= pattern_report_lines(
            views_of(matches@),
            header@,
            not_found@,
            opt_str_view(advice),
        ));
    }
    Finding { count: matches.len(), lines }
}

/// Run one simple rule over a raw document.
fn run_simple(log: &str, p: SimplePattern, header: &str, not_found: &str, advice: Option<&str>) -> (f:
    Finding)
    ensures
        f.count as nat == simple_doc_matches(p, log@).len(),
        string_views(f.lines@) == pattern_report_lines(
            simple_doc_matches(p, log@),
            header@,
            not_found@,
            opt_str_view(advice),
        ),
{
    let lines = split_lines(log);
    let ms = collect_simple(p, &lines);
    check_pattern_core(&ms, header, not_found, advice)
}

/// Count driver / fabric-manager version conflict messages.
pub fn check_version_conflicts(log: &str) -> (f: Finding)
    ensures
        f.count as nat == simple_doc_matches(SimplePattern::VersionConflict, log@).len(),
        string_views(f.lines@) == pattern_report_lines(
            simple_doc_matches(SimplePattern::VersionConflict, log@),
            "GPU Driver and Fabric Manager Conflicts"@,
            "No version conflicts found"@,
            Some(version_conflict_advice_text()),
        ),
        simple_doc_matches(SimplePattern::VersionConflict, log@).len() == 0 ==> f.count == 0
            && string_views(f.lines@) == seq!["No version conflicts found"@],
{
    run_simple(
        log,
        SimplePattern::VersionConflict,
        "GPU Driver and Fabric Manager Conflicts",
        "No version conflicts found",
        Some(version_conflict_advice()),
    )
}

/// The remediation advice shown with version conflicts.
pub open spec fn version_conflict_advice_text() -> Seq<char> {
    "     ** This is important for any SXM chassis **\n     Check with:\n        'nvidia-smi topo -m'\n         python -c \"import torch ; print('Is available: ', torch.cuda.is_available())\""@
}

pub fn version_conflict_advice() -> (r: &'static str)
    ensures
        r@ == version_conflict_advice_text(),
{
    "     ** This is important for any SXM chassis **\n     Check with:\n        'nvidia-smi topo -m'\n         python -c \"import torch ; print('Is available: ', torch.cuda.is_available())\""
}

/// Count active SW/HW thermal-slowdown report lines.
pub fn check_thermal_slowdown(log: &str) -> (f: Finding)
    ensures
        f.count as nat == simple_doc_matches(SimplePattern::ThermalSlowdown, log@).len(),
        string_views(f.lines@) == pattern_report_lines(
            simple_doc_matches(SimplePattern::ThermalSlowdown, log@),
            "Thermal Slow down"@,
            "No thermal slowdown messages found"@,
            None,
        ),
        simple_doc_matches(SimplePattern::ThermalSlowdown, log@).len() == 0 ==> f.count == 0
            && string_views(f.lines@) == seq!["No thermal slowdown messages found"@],
{
    run_simple(
        log,
        SimplePattern::ThermalSlowdown,
        "Thermal Slow down",
        "No thermal slowdown messages found",
        None,
    )
}

/// Count lines mentioning segfaults.
pub fn check_segfaults(log: &str) -> (f: Finding)
    ensures
        f.count as nat == simple_doc_matches(SimplePattern::Segfault, log@).len(),
        string_views(f.lines@) == pattern_report_lines(
            simple_doc_matches(SimplePattern::Segfault, log@),
            "Segfaults"@,
            "No segfaults found"@,
            None,
        ),
        simple_doc_matches(SimplePattern::Segfault, log@).len() == 0 ==> f.count == 0
            && string_views(f.lines@) == seq!["No segfaults found"@],
{
    run_simple(log, SimplePattern::Segfault, "Segfaults", "No segfaults found", None)
}

/// Count CPU clock throttling lines.
pub fn check_cpu_throttle(log: &str) -> (f: Finding)
    ensures
        f.count as nat == simple_doc_matches(SimplePattern::CpuThrottle, log@).len(),
        string_views(f.lines@) == pattern_report_lines(
            simple_doc_matches(SimplePattern::CpuThrottle, log@),
            "CPU throttling"@,
            "No CPU throttling"@,
            None,
        ),
        simple_doc_matches(SimplePattern::CpuThrottle, log@).len() == 0 ==> f.count == 0
            && string_views(f.lines@) == seq!["No CPU throttling"@],
{
    run_simple(log, SimplePattern::CpuThrottle, "CPU throttling", "No CPU throttling", None)
}

/// Count occurrences of the hardware-error phrase.
pub fn check_hardware_errors(log: &str) -> (f: Finding)
    ensures
        f.count as nat == simple_doc_matches(SimplePattern::HardwareError, log@).len(),
        string_views(f.lines@) == pattern_report_lines(
            simple_doc_matches(SimplePattern::HardwareError, log@),
            "Hardware Errors"@,
            "No Hardware Errors found"@,
            Some(hardware_error_advice_text()),
        ),
        simple_doc_matches(SimplePattern::HardwareError, log@).len() == 0 ==> f.count == 0
            && string_views(f.lines@) == seq!["No Hardware Errors found"@],
{
    run_simple(
        log,
        SimplePattern::HardwareError,
        "Hardware Errors",
        "No Hardware Errors found",
        Some(hardware_error_advice()),
    )
}

/// The advice shown with hardware errors.
pub open spec fn hardware_error_advice_text() -> Seq<char> {
    "  To find specific errors:\n      `grep -E 'Hardware Error' <logfile>` on Linux, or search in a text editor on Windows."@
}

pub fn hardware_error_advice() -> (r: &'static str)
    ensures
        r@ == hardware_error_advice_text(),
{
    "  To find specific errors:\n      `grep -E 'Hardware Error' <logfile>` on Linux, or search in a text editor on Windows."
}

/// Count kernel lines reporting a GPU fallen off the bus.
pub fn check_fallen_off_bus(log: &str) -> (f: Finding)
    ensures
        f.count as nat == simple_doc_matches(SimplePattern::FallenOffBus, log@).len(),
        string_views(f.lines@) == pattern_report_lines(
            simple_doc_matches(SimplePattern::FallenOffBus, log@),
            "Fallen off the bus Errors"@,
            "No 'fallen off the bus' errors"@,
            None,
        ),
        simple_doc_matches(SimplePattern::FallenOffBus, log@).len() == 0 ==> f.count == 0
            && string_views(f.lines@) == seq!["No 'fallen off the bus' errors"@],
{
    run_simple(
        log,
        SimplePattern::FallenOffBus,
        "Fallen off the bus Errors",
        "No 'fallen off the bus' errors",
        None,
    )
}

/// Count RmInitAdapter failure lines.
pub fn check_rminit_failed(log: &str) -> (f: Finding)
    ensures
        f.count as nat == simple_doc_matches(SimplePattern::RmInit, log@).len(),
        string_views(f.lines@) == pattern_report_lines(
            simple_doc_matches(SimplePattern::RmInit, log@),
            "GPU RmInitAdapter Failed"@,
            "No 'RmInit failures'"@,
            None,
        ),
        simple_doc_matches(SimplePattern::RmInit, log@).len() == 0 ==> f.count == 0
            && string_views(f.lines@) == seq!["No 'RmInit failures'"@],
{
    run_simple(log, SimplePattern::RmInit, "GPU RmInitAdapter Failed", "No 'RmInit failures'", None)
}

/// Count refused power-state change lines.
pub fn check_power_state_refused(log: &str) -> (f: Finding)
    ensures
        f.count as nat == simple_doc_matches(SimplePattern::PowerStateRefused, log@).len(),
        string_views(f.lines@) == pattern_report_lines(
            simple_doc_matches(SimplePattern::PowerStateRefused, log@),
            "Power State Change Refused"@,
            "No 'Refused to change power state' messages"@,
            None,
        ),
        simple_doc_matches(SimplePattern::PowerStateRefused, log@).len() == 0 ==> f.count == 0
            && string_views(f.lines@) == seq!["No 'Refused to change power state' messages"@],
{
    run_simple(
        log,
        SimplePattern::PowerStateRefused,
        "Power State Change Refused",
        "No 'Refused to change power state' messages",
        None,
    )
}

/// Count occurrences of the bad-cpu phrase.
pub fn check_bad_cpu(log: &str) -> (f: Finding)
    ensures
        f.count as nat == simple_doc_matches(SimplePattern::BadCpu, log@).len(),
        string_views(f.lines@) == pattern_report_lines(
            simple_doc_matches(SimplePattern::BadCpu, log@),
            "Bad CPU Error"@,
            "No 'bad cpu' Errors found"@,
            Some(bad_cpu_advice_text()),
        ),
        simple_doc_matches(SimplePattern::BadCpu, log@).len() == 0 ==> f.count == 0
            && string_views(f.lines@) == seq!["No 'bad cpu' Errors found"@],
{
    run_simple(
        log,
        SimplePattern::BadCpu,
        "Bad CPU Error",
        "No 'bad cpu' Errors found",
        Some(bad_cpu_advice()),
    )
}

/// The advice shown with bad-cpu errors.
pub open spec fn bad_cpu_advice_text() -> Seq<char> {
    "Commonly due to only 255 of 256+ threads seen.\nQuick fix: disable SMT in BIOS.\nReal fix depends on Motherboard/BIOS (e.g., enabling X2APIC and IOMMU)."@
}

pub fn bad_cpu_advice() -> (r: &'static str)
    ensures
        r@ == bad_cpu_advice_text(),
{
    "Commonly due to only 255 of 256+ threads seen.\nQuick fix: disable SMT in BIOS.\nReal fix depends on Motherboard/BIOS (e.g., enabling X2APIC and IOMMU)."
}

} // verus!
