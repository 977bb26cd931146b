//! Computed detectors over repeating numeric fields: NVLink error counters,
//! GPU temperatures and ECC memory counters. Values that do not parse (or
//! exceed the 32-bit counter range) contribute nothing, as malformed fields
//! are skipped rather than failing a detector.

use vstd::prelude::*;
use vstd::string::StrSliceExecFns;
use crate::detect::{banner, banner_lines, Finding};
use crate::freq::string_views;
use crate::text::{
    append_str, contains_pat, contains_pat_x, dec_str, digit_char, digit_char_x, digits_val,
    find_from, find_from_x, is_digit, lemma_find_from_bounds, lemma_run_end_range, lines_of, match_at,
    match_at_x, parse_digits_capped, push_char, run_end, scan_class, split_lines, u128_to_string,
    views_of, CharClass,
};

verus! {

/// The largest value a counter field may hold; larger numbers fail to parse
/// and are skipped.
pub open spec fn counter_cap() -> nat {
    2147483647
}

/// The repeating numeric counter fields the detectors accumulate.
#[derive(Clone, Copy)]
pub enum CounterKind {
    NvReplay,
    NvRecovery,
    NvCrc,
    EccCorrectable,
    EccUncorrectable,
}

/// A `label <spaces> : <spaces> <digits>` field: the digits' value, if the
/// label occurs and the digits parse within the counter range.
pub open spec fn labeled_counter(line: Seq<char>, tok: Seq<char>) -> Option<nat> {
    match find_from(line, tok, 0) {
        Some(i) => {
            let p = run_end(CharClass::Space, line, i + tok.len());
            if p < line.len() && line[p] == ':' {
                let d0 = run_end(CharClass::Space, line, p + 1);
                let d1 = run_end(CharClass::Digit, line, d0);
                if d1 > d0 && digits_val(line.subrange(d0, d1)) <= counter_cap() {
                    Some(digits_val(line.subrange(d0, d1)))
                } else {
                    None
                }
            } else {
                None
            }
        },
        None => None,
    }
}

/// A per-link `Link <n><mid><digits>` field: the digits' value, if the line
/// has that shape and the digits parse within the counter range.
pub open spec fn link_counter(line: Seq<char>, mid: Seq<char>) -> Option<nat> {
    match find_from(line, "Link "@, 0) {
        Some(i) => {
            let d1 = run_end(CharClass::Digit, line, i + "Link "@.len());
            if d1 > i + "Link "@.len() && match_at(line, mid, d1) {
                let e0 = d1 + mid.len();
                let e1 = run_end(CharClass::Digit, line, e0);
                if e1 > e0 && digits_val(line.subrange(e0, e1)) <= counter_cap() {
                    Some(digits_val(line.subrange(e0, e1)))
                } else {
                    None
                }
            } else {
                None
            }
        },
        None => None,
    }
}

/// What one line contributes to a counter.
pub open spec fn counter_value(kind: CounterKind, line: Seq<char>) -> Option<nat> {
    match kind {
        CounterKind::NvReplay => link_counter(line, ": Replay Errors: "@),
        CounterKind::NvRecovery => link_counter(line, ": Recovery Errors: "@),
        CounterKind::NvCrc => link_counter(line, ": CRC Errors: "@),
        CounterKind::EccCorrectable => labeled_counter(line, "DRAM Correctable"@),
        CounterKind::EccUncorrectable => labeled_counter(line, "DRAM Uncorrectable"@),
    }
}

fn labeled_counter_x(line: &Vec<char>, tok: &str) -> (r: Option<u64>)
    ensures
        r matches Some(v) ==> labeled_counter(line@, tok@) == Some(v as nat),
        r is None ==> labeled_counter(line@, tok@) is None,
{
    if let Some(i) = find_from_x(line, tok, 0) {
        let llen = line.len();
        proof {
            lemma_find_from_bounds(line@, tok@, 0);
        }
        let tl = tok.unicode_len();
        assert(i + tl <= llen);
        let p = scan_class(CharClass::Space, line, i + tl);
        if p < line.len() && line[p] == ':' {
            let d0 = scan_class(CharClass::Space, line, p + 1);
            let d1 = scan_class(CharClass::Digit, line, d0);
            if d1 > d0 {
                proof {
                    lemma_run_end_range(CharClass::Digit, line@, d0 as int);
                }
                parse_digits_capped(line, d0, d1, 2147483647)
            } else {
                None
            }
        } else {
            None
        }
    } else {
        None
    }
}

fn link_counter_x(line: &Vec<char>, mid: &str) -> (r: Option<u64>)
    ensures
        r matches Some(v) ==> link_counter(line@, mid@) == Some(v as nat),
        r is None ==> link_counter(line@, mid@) is None,
{
    if let Some(i) = find_from_x(line, "Link ", 0) {
        let llen = line.len();
        proof {
            lemma_find_from_bounds(line@, "Link "@, 0);
        }
        let tl = "Link ".unicode_len();
        assert(i + tl <= llen);
        let d1 = scan_class(CharClass::Digit, line, i + tl);
        if d1 > i + tl && match_at_x(line, mid, d1) {
            let ml = mid.unicode_len();
            assert(d1 + ml <= llen);
            let e0 = d1 + ml;
            let e1 = scan_class(CharClass::Digit, line, e0);
            if e1 > e0 {
                proof {
                    lemma_run_end_range(CharClass::Digit, line@, e0 as int);
                }
                parse_digits_capped(line, e0, e1, 2147483647)
            } else {
                None
            }
        } else {
            None
        }
    } else {
        None
    }
}

fn counter_value_x(kind: CounterKind, line: &Vec<char>) -> (r: Option<u64>)
    ensures
        r matches Some(v) ==> counter_value(kind, line@) == Some(v as nat) && v <= 2147483647,
        r is None ==> counter_value(kind, line@) is None,
{
    let r = match kind {
        CounterKind::NvReplay => link_counter_x(line, ": Replay Errors: "),
        CounterKind::NvRecovery => link_counter_x(line, ": Recovery Errors: "),
        CounterKind::NvCrc => link_counter_x(line, ": CRC Errors: "),
        CounterKind::EccCorrectable => labeled_counter_x(line, "DRAM Correctable"),
        CounterKind::EccUncorrectable => labeled_counter_x(line, "DRAM Uncorrectable"),
    };
    r
}

/// The sum of a counter over the first `n` lines.
pub open spec fn counter_sum(kind: CounterKind, lines: Seq<Seq<char>>, n: int) -> nat
    decreases n,
{
    if n <= 0 {
        0
    } else {
        counter_sum(kind, lines, n - 1) + (match counter_value(kind, lines[n - 1]) {
            Some(v) => v,
            None => 0,
        })
    }
}

/// The sum of a counter over a whole document.
pub open spec fn doc_counter_sum(kind: CounterKind, doc: Seq<char>) -> nat {
    counter_sum(kind, lines_of(doc), lines_of(doc).len() as int)
}

proof fn lemma_counter_sum_bound(kind: CounterKind, lines: Seq<Seq<char>>, n: int)
    requires
        n >= 0,
    ensures
        counter_sum(kind, lines, n) <= n * 2147483647,
    decreases n,
{
    if n > 0 {
        lemma_counter_sum_bound(kind, lines, n - 1);
        match counter_value(kind, lines[n - 1]) {
            Some(v) => {
                assert(v <= 2147483647);
            },
            None => {},
        }
    }
}

fn collect_counter_sum(kind: CounterKind, lines: &Vec<Vec<char>>) -> (r: u128)
    ensures
        r as nat == counter_sum(kind, views_of(lines@), views_of(lines@).len() as int),
{
    let mut acc: u128 = 0;
    let mut i: usize = 0;
    let _nl = lines.len();
    assert(lines@.len() <= usize::MAX);
    while i < lines.len()
        invariant
            0 <= i <= lines@.len(),
            lines@.len() <= usize::MAX,
            acc as nat == counter_sum(kind, views_of(lines@), i as int),
            acc <= (i as int) * 2147483647,
        decreases lines@.len() - i,
    {
        proof {
            assert(views_of(lines@)[i as int] == lines@[i as int]@);
        }
        if let Some(v) = counter_value_x(kind, &lines[i]) {
            acc = acc + v as u128;
        }
        i = i + 1;
    }
    acc
}

/// A count clamped to what fits the machine's count type.
pub open spec fn clamp_usize(n: nat) -> nat {
    if n <= usize::MAX as nat {
        n
    } else {
        usize::MAX as nat
    }
}

fn clamp_usize_x(n: u128) -> (r: usize)
    ensures
        r as nat == clamp_usize(n as nat),
{
    if n > usize::MAX as u128 {
        usize::MAX
    } else {
        n as usize
    }
}

/// The NVLink detector's total: replay, recovery and CRC error counters
/// summed across all links.
pub open spec fn nvlink_total(doc: Seq<char>) -> nat {
    doc_counter_sum(CounterKind::NvReplay, doc) + doc_counter_sum(CounterKind::NvRecovery, doc)
        + doc_counter_sum(CounterKind::NvCrc, doc)
}

/// The NVLink section: any nonzero sum is a problem, broken down by category.
pub open spec fn nvlink_report_lines(doc: Seq<char>) -> Seq<Seq<char>> {
    banner_lines("     NVLink Status Check"@) + (if nvlink_total(doc) > 0 {
        seq![
            "** NVLink Errors Detected:"@,
            "   Total Replay Errors: "@ + dec_str(doc_counter_sum(CounterKind::NvReplay, doc)),
            "   Total Recovery Errors: "@ + dec_str(doc_counter_sum(CounterKind::NvRecovery, doc)),
            "   Total CRC Errors: "@ + dec_str(doc_counter_sum(CounterKind::NvCrc, doc)),
            "   ** These errors may indicate NVLink connectivity issues."@,
        ]
    } else {
        seq!["No NVLink errors detected - All links healthy"@]
    })
}

/// Sum NVLink replay/recovery/CRC error counters across all links; any
/// nonzero total is reported as a problem with a per-category breakdown.
pub fn check_nvlink_errors(log: &str) -> (f: Finding)
    ensures
        f.count as nat == clamp_usize(nvlink_total(log@)),
        string_views(f.lines@) == nvlink_report_lines(log@),
        nvlink_total(log@) == 0 ==> f.count == 0,
{
    let lines = split_lines(log);
    let _nl = lines.len();
    assert(lines@.len() <= usize::MAX);
    let replay = collect_counter_sum(CounterKind::NvReplay, &lines);
    let recovery = collect_counter_sum(CounterKind::NvRecovery, &lines);
    let crc = collect_counter_sum(CounterKind::NvCrc, &lines);
    proof {
        lemma_counter_sum_bound(CounterKind::NvReplay, views_of(lines@), views_of(lines@).len() as int);
        lemma_counter_sum_bound(CounterKind::NvRecovery, views_of(lines@), views_of(lines@).len() as int);
        lemma_counter_sum_bound(CounterKind::NvCrc, views_of(lines@), views_of(lines@).len() as int);
    }
    let total = replay + recovery + crc;
    let mut out = banner("     NVLink Status Check");
    if total > 0 {
        let mut l1 = "   Total Replay Errors: ".to_owned();
        let n1 = u128_to_string(replay);
        append_str(&mut l1, n1.as_str());
        let mut l2 = "   Total Recovery Errors: ".to_owned();
        let n2 = u128_to_string(recovery);
        append_str(&mut l2, n2.as_str());
        let mut l3 = "   Total CRC Errors: ".to_owned();
        let n3 = u128_to_string(crc);
        append_str(&mut l3, n3.as_str());
        out.push("** NVLink Errors Detected:".to_owned());
        out.push(l1);
        out.push(l2);
        out.push(l3);
        out.push("   ** These errors may indicate NVLink connectivity issues.".to_owned());
        proof {
            assert(string_views(out@) =~= nvlink_report_lines(log@));
        }
    } else {
        out.push("No NVLink errors detected - All links healthy".to_owned());
        proof {
            assert(string_views(out@) =~= nvlink_report_lines(log@));
        }
    }
    Finding { count: clamp_usize_x(total), lines: out }
}

/// A `GPU Current Temp <spaces> : <spaces> <digits> <spaces> C` reading.
pub open spec fn temp_reading(line: Seq<char>) -> Option<nat> {
    match find_from(line, "GPU Current Temp"@, 0) {
        Some(i) => {
            let p = run_end(CharClass::Space, line, i + "GPU Current Temp"@.len());
            if p < line.len() && line[p] == ':' {
                let d0 = run_end(CharClass::Space, line, p + 1);
                let d1 = run_end(CharClass::Digit, line, d0);
                let c = run_end(CharClass::Space, line, d1);
                if d1 > d0 && c < line.len() && line[c] == 'C' && digits_val(
                    line.subrange(d0, d1),
                ) <= counter_cap() {
                    Some(digits_val(line.subrange(d0, d1)))
                } else {
                    None
                }
            } else {
                None
            }
        },
        None => None,
    }
}

fn temp_reading_x(line: &Vec<char>) -> (r: Option<u64>)
    ensures
        r matches Some(v) ==> temp_reading(line@) == Some(v as nat) && v <= 2147483647,
        r is None ==> temp_reading(line@) is None,
{
    if let Some(i) = find_from_x(line, "GPU Current Temp", 0) {
        let llen = line.len();
        proof {
            lemma_find_from_bounds(line@, "GPU Current Temp"@, 0);
        }
        let tl = "GPU Current Temp".unicode_len();
        assert(i + tl <= llen);
        let p = scan_class(CharClass::Space, line, i + tl);
        if p < line.len() && line[p] == ':' {
            let d0 = scan_class(CharClass::Space, line, p + 1);
            let d1 = scan_class(CharClass::Digit, line, d0);
            let c = scan_class(CharClass::Space, line, d1);
            if d1 > d0 && c < line.len() && line[c] == 'C' {
                proof {
                    lemma_run_end_range(CharClass::Digit, line@, d0 as int);
                }
                parse_digits_capped(line, d0, d1, 2147483647)
            } else {
                None
            }
        } else {
            None
        }
    } else {
        None
    }
}

/// The temperature readings found in the first `n` lines, in order.
pub open spec fn temps_upto(lines: Seq<Seq<char>>, n: int) -> Seq<nat>
    decreases n,
{
    if n <= 0 {
        Seq::empty()
    } else {
        match temp_reading(lines[n - 1]) {
            Some(v) => temps_upto(lines, n - 1).push(v),
            None => temps_upto(lines, n - 1),
        }
    }
}

/// All temperature readings of a document.
pub open spec fn doc_temps(doc: Seq<char>) -> Seq<nat> {
    temps_upto(lines_of(doc), lines_of(doc).len() as int)
}

proof fn lemma_temps_bound(lines: Seq<Seq<char>>, n: int)
    requires
        n >= 0,
    ensures
        temps_upto(lines, n).len() <= n,
        forall|k: int|
            0 <= k < temps_upto(lines, n).len() ==> #[trigger] temps_upto(lines, n)[k]
                <= 2147483647,
    decreases n,
{
    if n > 0 {
        lemma_temps_bound(lines, n - 1);
    }
}

fn collect_temps(lines: &Vec<Vec<char>>) -> (r: Vec<u64>)
    ensures
        r@.map_values(|v: u64| v as nat) == temps_upto(views_of(lines@), views_of(lines@).len() as int),
        forall|k: int| 0 <= k < r@.len() ==> r@[k] <= 2147483647,
{
    let mut r: Vec<u64> = Vec::new();
    let mut i: usize = 0;
    proof {
        assert(r@.map_values(|v: u64| v as nat) =~= temps_upto(views_of(lines@), 0));
    }
    while i < lines.len()
        invariant
            0 <= i <= lines@.len(),
            r@.map_values(|v: u64| v as nat) == temps_upto(views_of(lines@), i as int),
            forall|k: int| 0 <= k < r@.len() ==> r@[k] <= 2147483647,
        decreases lines@.len() - i,
    {
        proof {
            assert(views_of(lines@)[i as int] == lines@[i as int]@);
        }
        if let Some(v) = temp_reading_x(&lines[i]) {
            let ghost prev = r@;
            r.push(v);
            proof {
                assert(r@.map_values(|v: u64| v as nat) =~= prev.map_values(|v: u64| v as nat).push(
                    v as nat,
                ));
            }
        }
        i = i + 1;
    }
    r
}

/// The largest reading.
pub open spec fn max_of(s: Seq<nat>) -> nat
    recommends
        s.len() > 0,
    decreases s.len(),
{
    if s.len() <= 1 {
        if s.len() == 1 {
            s[0]
        } else {
            0
        }
    } else {
        let m = max_of(s.drop_last());
        if s.last() > m {
            s.last()
        } else {
            m
        }
    }
}

/// The smallest reading.
pub open spec fn min_of(s: Seq<nat>) -> nat
    recommends
        s.len() > 0,
    decreases s.len(),
{
    if s.len() <= 1 {
        if s.len() == 1 {
            s[0]
        } else {
            0
        }
    } else {
        let m = min_of(s.drop_last());
        if s.last() < m {
            s.last()
        } else {
            m
        }
    }
}

/// The sum of all readings.
pub open spec fn sum_of(s: Seq<nat>) -> nat
    decreases s.len(),
{
    if s.len() == 0 {
        0
    } else {
        sum_of(s.drop_last()) + s.last()
    }
}

/// How many readings exceed the threshold.
pub open spec fn count_gt(s: Seq<nat>, t: nat) -> nat
    decreases s.len(),
{
    if s.len() == 0 {
        0
    } else {
        count_gt(s.drop_last(), t) + (if s.last() > t {
            1nat
        } else {
            0nat
        })
    }
}

/// Temperature classification: above 85 every reading over 85 counts with
/// high-severity wording; else above 75 every reading over 75 counts with
/// caution wording; else the document is healthy. Thresholds are exact and
/// exclusive.
pub open spec fn temp_issue_count(ts: Seq<nat>) -> nat {
    if ts.len() == 0 {
        0
    } else if max_of(ts) > 85 {
        count_gt(ts, 85)
    } else if max_of(ts) > 75 {
        count_gt(ts, 75)
    } else {
        0
    }
}

/// The temperature section of the report.
pub open spec fn temp_report_lines(ts: Seq<nat>) -> Seq<Seq<char>> {
    banner_lines("     GPU Temperature Check"@) + (if ts.len() == 0 {
        seq!["No temperature data found"@]
    } else {
        seq![
            "GPU Temperatures:"@,
            "   Min: "@ + dec_str(min_of(ts)) + "°C, Max: "@ + dec_str(max_of(ts)) + "°C, Avg: "@
                + dec_str(sum_of(ts) / ts.len()) + "°C"@,
            (if max_of(ts) > 85 {
                "   ** WARNING: High temperature detected (>85°C)!"@
            } else if max_of(ts) > 75 {
                "   ** CAUTION: Elevated temperature (>75°C)"@
            } else {
                "   Temperatures are within normal range"@
            }),
        ]
    })
}

proof fn lemma_stats_bounds(s: Seq<nat>)
    requires
        forall|k: int| 0 <= k < s.len() ==> s[k] <= 2147483647,
    ensures
        max_of(s) <= 2147483647,
        min_of(s) <= 2147483647,
        sum_of(s) <= s.len() * 2147483647,
        count_gt(s, 85) <= s.len(),
        count_gt(s, 75) <= s.len(),
    decreases s.len(),
{
    if s.len() > 0 {
        assert(forall|k: int| 0 <= k < s.drop_last().len() ==> s.drop_last()[k] == s[k]);
        lemma_stats_bounds(s.drop_last());
        assert(s.last() <= 2147483647);
    }
}

/// Collect all current-temperature readings, report min/max/average, and
/// classify against the exact 85 and 75 degree thresholds.
pub fn check_gpu_temperatures(log: &str) -> (f: Finding)
    ensures
        f.count as nat == temp_issue_count(doc_temps(log@)),
        string_views(f.lines@) == temp_report_lines(doc_temps(log@)),
        doc_temps(log@).len() == 0 ==> f.count == 0,
{
    let lines = split_lines(log);
    let temps = collect_temps(&lines);
    let ghost ts = doc_temps(log@);
    proof {
        assert(temps@.map_values(|v: u64| v as nat) == ts);
        assert(temps@.len() == ts.len());
        lemma_stats_bounds(ts);
    }
    let mut out = banner("     GPU Temperature Check");
    if temps.len() == 0 {
        out.push("No temperature data found".to_owned());
        proof {
            assert(string_views(out@) =~= temp_report_lines(ts));
        }
        return Finding { count: 0, lines: out };
    }
    // min / max / sum
    let mut mx: u64 = temps[0];
    let mut mn: u64 = temps[0];
    let mut sum: u128 = temps[0] as u128;
    let mut i: usize = 1;
    proof {
        assert(ts[0] == temps@[0int] as nat);
        assert(ts.take(1) =~= seq![ts[0]]);
        assert(mx as nat == max_of(ts.take(1)));
        assert(mn as nat == min_of(ts.take(1)));
        assert(ts.take(1).drop_last() =~= Seq::<nat>::empty());
        assert(ts.take(1).last() == ts[0]);
        assert(sum as nat == ts[0]);
        assert(ts.take(1).len() == 1);
        assert(sum_of(ts.take(1).drop_last()) == 0);
        assert(sum_of(ts.take(1)) == sum_of(ts.take(1).drop_last()) + ts.take(1).last());
        assert(sum as nat == sum_of(ts.take(1)));
    }
    while i < temps.len()
        invariant
            1 <= i <= temps@.len(),
            temps@.map_values(|v: u64| v as nat) == ts,
            temps@.len() == ts.len(),
            forall|k: int| 0 <= k < ts.len() ==> ts[k] <= 2147483647,
            mx as nat == max_of(ts.take(i as int)),
            mn as nat == min_of(ts.take(i as int)),
            sum as nat == sum_of(ts.take(i as int)),
            mx <= 2147483647,
            sum <= (i as int) * 2147483647,
        decreases temps@.len() - i,
    {
        let v = temps[i];
        proof {
            assert(ts[i as int] == temps@[i as int] as nat);
            assert(ts.take(i + 1).drop_last() =~= ts.take(i as int));
            assert(ts.take(i + 1).last() == ts[i as int]);
        }
        if v > mx {
            mx = v;
        }
        if v < mn {
            mn = v;
        }
        sum = sum + v as u128;
        i = i + 1;
    }
    proof {
        assert(ts.take(ts.len() as int) =~= ts);
    }
    // count readings above the active threshold
    let threshold: u64 = if mx > 85 {
        85
    } else {
        75
    };
    let mut above: usize = 0;
    let mut j: usize = 0;
    proof {
        assert(ts.take(0) =~= Seq::<nat>::empty());
    }
    while j < temps.len()
        invariant
            0 <= j <= temps@.len(),
            temps@.map_values(|v: u64| v as nat) == ts,
            temps@.len() == ts.len(),
            above <= j,
            above as nat == count_gt(ts.take(j as int), threshold as nat),
        decreases temps@.len() - j,
    {
        proof {
            assert(ts[j as int] == temps@[j as int] as nat);
            assert(ts.take(j + 1).drop_last() =~= ts.take(j as int));
            assert(ts.take(j + 1).last() == ts[j as int]);
        }
        if temps[j] > threshold {
            above = above + 1;
        }
        j = j + 1;
    }
    proof {
        assert(ts.take(ts.len() as int) =~= ts);
    }
    // average
    let avg: u128 = sum / (temps.len() as u128);
    proof {
        assert(avg as nat == sum_of(ts) / ts.len());
        assert(avg <= sum);
    }
    let mut stat = "   Min: ".to_owned();
    let s1 = u128_to_string(mn as u128);
    append_str(&mut stat, s1.as_str());
    append_str(&mut stat, "°C, Max: ");
    let s2 = u128_to_string(mx as u128);
    append_str(&mut stat, s2.as_str());
    append_str(&mut stat, "°C, Avg: ");
    let s3 = u128_to_string(avg);
    append_str(&mut stat, s3.as_str());
    append_str(&mut stat, "°C");
    out.push("GPU Temperatures:".to_owned());
    out.push(stat);
    let issues: usize = if mx > 85 {
        out.push("   ** WARNING: High temperature detected (>85°C)!".to_owned());
        above
    } else if mx > 75 {
        out.push("   ** CAUTION: Elevated temperature (>75°C)".to_owned());
        above
    } else {
        out.push("   Temperatures are within normal range".to_owned());
        0
    };
    proof {
        assert(string_views(out@) =~= temp_report_lines(ts));
    }
    Finding { count: issues, lines: out }
}

/// Does any line mention retired pages?
pub open spec fn has_retired_pages(doc: Seq<char>) -> bool {
    exists|k: int|
        0 <= k < lines_of(doc).len() && contains_pat(#[trigger] lines_of(doc)[k], "Retired Pages"@)
}

/// The ECC detector's total: correctable plus uncorrectable DRAM counters.
pub open spec fn ecc_total(doc: Seq<char>) -> nat {
    doc_counter_sum(CounterKind::EccCorrectable, doc) + doc_counter_sum(
        CounterKind::EccUncorrectable,
        doc,
    )
}

/// The ECC section: totals by category, a critical note when any
/// uncorrectable error exists, and a note when retired pages are mentioned.
pub open spec fn ecc_report_lines(doc: Seq<char>) -> Seq<Seq<char>> {
    banner_lines("     ECC Memory Error Check"@) + (if ecc_total(doc) > 0 {
        seq![
            "** ECC Errors Detected:"@,
            "   DRAM Correctable Errors: "@ + dec_str(
                doc_counter_sum(CounterKind::EccCorrectable, doc),
            ),
            "   DRAM Uncorrectable Errors: "@ + dec_str(
                doc_counter_sum(CounterKind::EccUncorrectable, doc),
            ),
        ] + (if doc_counter_sum(CounterKind::EccUncorrectable, doc) > 0 {
            seq!["   ** CRITICAL: Uncorrectable errors indicate potential hardware failure!"@]
        } else {
            Seq::<Seq<char>>::empty()
        })
    } else {
        seq!["No ECC memory errors detected"@]
    }) + (if has_retired_pages(doc) {
        seq!["\nRetired Pages information available in log"@]
    } else {
        Seq::<Seq<char>>::empty()
    })
}

/// Sum correctable and uncorrectable DRAM ECC counters; any nonzero
/// uncorrectable count adds a critical remediation line, and a retired-pages
/// marker adds an informational note without affecting the count.
pub fn check_ecc_errors(log: &str) -> (f: Finding)
    ensures
        f.count as nat == clamp_usize(ecc_total(log@)),
        string_views(f.lines@) == ecc_report_lines(log@),
        ecc_total(log@) == 0 ==> f.count == 0,
{
    let lines = split_lines(log);
    let _nl = lines.len();
    assert(lines@.len() <= usize::MAX);
    let corr = collect_counter_sum(CounterKind::EccCorrectable, &lines);
    let uncorr = collect_counter_sum(CounterKind::EccUncorrectable, &lines);
    proof {
        lemma_counter_sum_bound(
            CounterKind::EccCorrectable,
            views_of(lines@),
            views_of(lines@).len() as int,
        );
        lemma_counter_sum_bound(
            CounterKind::EccUncorrectable,
            views_of(lines@),
            views_of(lines@).len() as int,
        );
    }
    let total = corr + uncorr;
    let mut out = banner("     ECC Memory Error Check");
    if total > 0 {
        let mut l1 = "   DRAM Correctable Errors: ".to_owned();
        let n1 = u128_to_string(corr);
        append_str(&mut l1, n1.as_str());
        let mut l2 = "   DRAM Uncorrectable Errors: ".to_owned();
        let n2 = u128_to_string(uncorr);
        append_str(&mut l2, n2.as_str());
        out.push("** ECC Errors Detected:".to_owned());
        out.push(l1);
        out.push(l2);
        if uncorr > 0 {
            out.push(
                "   ** CRITICAL: Uncorrectable errors indicate potential hardware failure!".to_owned(),
            );
        }
    } else {
        out.push("No ECC memory errors detected".to_owned());
    }
    // retired-pages marker anywhere in the document
    let mut seen = false;
    let mut k: usize = 0;
    while k < lines.len()
        invariant
            0 <= k <= lines@.len(),
            seen ==> has_retired_pages(log@),
            !seen ==> forall|m: int|
                0 <= m < k ==> !contains_pat(#[trigger] lines_of(log@)[m], "Retired Pages"@),
            views_of(lines@) == lines_of(log@),
        decreases lines@.len() - k,
    {
        if !seen {
            if contains_pat_x(&lines[k], "Retired Pages") {
                seen = true;
                proof {
                    assert(lines_of(log@)[k as int] == lines@[k as int]@);
                }
            } else {
                proof {
                    assert(lines_of(log@)[k as int] == lines@[k as int]@);
                }
            }
        }
        k = k + 1;
    }
    if seen {
        out.push("\nRetired Pages information available in log".to_owned());
    }
    proof {
        if !seen && has_retired_pages(log@) {
            let m = choose|m: int|
                0 <= m < lines_of(log@).len() && contains_pat(
                    #[trigger] lines_of(log@)[m],
                    "Retired Pages"@,
                );
            assert(false);
        }
        assert(string_views(out@) =~= ecc_report_lines(log@));
    }
    Finding { count: clamp_usize_x(total), lines: out }
}


/// The largest supported wattage, in milliwatts; larger readings fail to
/// parse and are skipped.
pub open spec fn max_milliwatts() -> nat {
    1000000000000000
}

/// Fractional digits scaled to milliwatts; digits beyond thousandths are
/// dropped.
pub open spec fn frac_to_milli(fr: Seq<char>) -> nat {
    if fr.len() == 0 {
        0
    } else if fr.len() == 1 {
        digits_val(fr) * 100
    } else if fr.len() == 2 {
        digits_val(fr) * 10
    } else {
        digits_val(fr.take(3))
    }
}

/// A token of digits and dots read as milliwatts: at most one dot and at
/// least one digit, or the token fails to parse.
pub open spec fn decimal_milli(s: Seq<char>) -> Option<nat> {
    let d = run_end(CharClass::Digit, s, 0);
    if d == s.len() {
        if s.len() > 0 && digits_val(s) * 1000 <= max_milliwatts() {
            Some(digits_val(s) * 1000)
        } else {
        None
        }
    } else if s[d] == '.' {
        let f = run_end(CharClass::Digit, s, d + 1);
        if f == s.len() && (d > 0 || f > d + 1) {
            let v = digits_val(s.take(d)) * 1000 + frac_to_milli(s.subrange(d + 1, f));
            if v <= max_milliwatts() {
                Some(v)
            } else {
                None
            }
        } else {
            None
        }
    } else {
        None
    }
}

proof fn lemma_digits3(s: Seq<char>)
    requires
        s.len() == 3,
        forall|k: int| 0 <= k < 3 ==> is_digit(s[k]),
    ensures
        digits_val(s) <= 999,
{
    assert(s.drop_last().drop_last() =~= s.take(1));
    assert(s.take(1).drop_last() =~= Seq::<char>::empty());
    assert(s.take(1).last() == s[0]);
    assert(is_digit(s[0]));
    assert(digits_val(Seq::<char>::empty()) == 0);
    assert(digits_val(s.take(1)) <= 9);
    assert(s.drop_last().last() == s[1]);
    assert(is_digit(s[1]));
    assert(digits_val(s.drop_last()) <= 99);
    assert(s.last() == s[2]);
    assert(is_digit(s[2]));
}

fn decimal_milli_x(s: &Vec<char>) -> (r: Option<u64>)
    ensures
        r matches Some(v) ==> decimal_milli(s@) == Some(v as nat) && v <= 1000000000000000,
        r is None ==> decimal_milli(s@) is None,
{
    let d = scan_class(CharClass::Digit, s, 0);
    proof {
        lemma_run_end_range(CharClass::Digit, s@, 0);
    }
    if d == s.len() {
        if s.len() > 0 {
            match parse_digits_capped(s, 0, d, 1000000000000) {
                Some(v) => {
                    proof {
                        assert(s@.subrange(0, d as int) =~= s@);
                    }
                    Some(v * 1000)
                },
                None => {
                    proof {
                        assert(s@.subrange(0, d as int) =~= s@);
                    }
                    None
                },
            }
        } else {
            None
        }
    } else if s[d] == '.' {
        let f = scan_class(CharClass::Digit, s, d + 1);
        proof {
            lemma_run_end_range(CharClass::Digit, s@, d + 1 as int);
        }
        if f == s.len() && (d > 0 || f > d + 1) {
            // fractional part, scaled to milliwatts
            let fr_len = f - (d + 1);
            let f3: u64 = if fr_len == 0 {
                0
            } else if fr_len == 1 {
                match parse_digits_capped(s, d + 1, f, 9) {
                    Some(v) => v * 100,
                    None => {
                        proof {
                            let fr = s@.subrange(d + 1 as int, f as int);
                            assert(fr.drop_last() =~= Seq::<char>::empty());
                            assert(fr.last() == fr[0]);
                            assert(fr[0] == s@[d + 1]);
                            assert(is_digit(fr[0]));
                            assert(digits_val(Seq::<char>::empty()) == 0);
                            assert(digits_val(fr) <= 9);
                        }
                        0
                    },
                }
            } else if fr_len == 2 {
                match parse_digits_capped(s, d + 1, f, 99) {
                    Some(v) => v * 10,
                    None => {
                        proof {
                            let fr = s@.subrange(d + 1 as int, f as int);
                            assert(fr.drop_last().drop_last() =~= Seq::<char>::empty());
                            assert(fr.drop_last().last() == fr[0]);
                            assert(fr[0] == s@[d + 1]);
                            assert(fr[1] == s@[d + 2]);
                            assert(is_digit(fr[0]));
                            assert(digits_val(Seq::<char>::empty()) == 0);
                            assert(digits_val(fr.drop_last()) <= 9);
                            assert(fr.last() == fr[1]);
                            assert(is_digit(fr[1]));
                            assert(digits_val(fr) <= 99);
                        }
                        0
                    },
                }
            } else {
                proof {
                    let fr3 = s@.subrange(d + 1 as int, d + 4 as int);
                    assert(forall|k: int| 0 <= k < 3 ==> is_digit(#[trigger] fr3[k]));
                    lemma_digits3(fr3);
                }
                match parse_digits_capped(s, d + 1, d + 4, 999) {
                    Some(v) => v,
                    None => 0,
                }
            };
            proof {
                let fr = s@.subrange(d + 1 as int, f as int);
                if fr.len() >= 3 {
                    assert(fr.take(3) =~= s@.subrange(d + 1 as int, d + 4 as int));
                }
                assert(f3 as nat == frac_to_milli(fr));
                assert(f3 <= 999);
            }
            match parse_digits_capped(s, 0, d, 1000000000000) {
                Some(iv) => {
                    let v = iv * 1000 + f3;
                    if v <= 1000000000000000 {
                        Some(v)
                    } else {
                        None
                    }
                },
                None => None,
            }
        } else {
            None
        }
    } else {
        None
    }
}

/// A `GPU Power Readings` header line with nothing but whitespace after it.
pub open spec fn power_header_line(line: Seq<char>) -> bool {
    match find_from(line, "GPU Power Readings"@, 0) {
        Some(i) => run_end(CharClass::Space, line, i + "GPU Power Readings"@.len()) == line.len(),
        None => false,
    }
}

/// A line holding only whitespace.
pub open spec fn blank_line(line: Seq<char>) -> bool {
    run_end(CharClass::Space, line, 0) == line.len()
}

/// First line at or after `j` with visible content.
pub open spec fn next_content(lines: Seq<Seq<char>>, j: int) -> Option<int>
    decreases lines.len() - j,
{
    if j < 0 || j >= lines.len() {
        None
    } else if !blank_line(lines[j]) {
        Some(j)
    } else {
        next_content(lines, j + 1)
    }
}

/// The watt reading after a label ending at `pos`:
/// `<spaces> : <spaces> <decimal> <spaces> W`.
pub open spec fn watts_after(line: Seq<char>, pos: int) -> Option<nat> {
    let p = run_end(CharClass::Space, line, pos);
    if p < line.len() && line[p] == ':' {
        let q0 = run_end(CharClass::Space, line, p + 1);
        let q1 = run_end(CharClass::DigitDot, line, q0);
        let w = run_end(CharClass::Space, line, q1);
        if q1 > q0 && w < line.len() && line[w] == 'W' {
            decimal_milli(line.subrange(q0, q1))
        } else {
            None
        }
    } else {
        None
    }
}

fn watts_after_x(line: &Vec<char>, pos: usize) -> (r: Option<u64>)
    requires
        pos <= line@.len(),
    ensures
        r matches Some(v) ==> watts_after(line@, pos as int) == Some(v as nat) && v
            <= 1000000000000000,
        r is None ==> watts_after(line@, pos as int) is None,
{
    let p = scan_class(CharClass::Space, line, pos);
    if p < line.len() && line[p] == ':' {
        let q0 = scan_class(CharClass::Space, line, p + 1);
        let q1 = scan_class(CharClass::DigitDot, line, q0);
        let w = scan_class(CharClass::Space, line, q1);
        if q1 > q0 && w < line.len() && line[w] == 'W' {
            let tok = crate::text::subrange_x(line, q0, q1);
            decimal_milli_x(&tok)
        } else {
            None
        }
    } else {
        None
    }
}

/// A power-draw content line: `Power Draw` after indentation, then a reading.
pub open spec fn draw_value(line: Seq<char>) -> Option<nat> {
    let s0 = run_end(CharClass::Space, line, 0);
    if match_at(line, "Power Draw"@, s0) {
        watts_after(line, s0 + "Power Draw"@.len())
    } else {
        None
    }
}

fn draw_value_x(line: &Vec<char>) -> (r: Option<u64>)
    ensures
        r matches Some(v) ==> draw_value(line@) == Some(v as nat) && v <= 1000000000000000,
        r is None ==> draw_value(line@) is None,
{
    let llen = line.len();
    let s0 = scan_class(CharClass::Space, line, 0);
    if match_at_x(line, "Power Draw", s0) {
        let tl = "Power Draw".unicode_len();
        assert(s0 + tl <= llen);
        watts_after_x(line, s0 + tl)
    } else {
        None
    }
}

/// A power-limit line: `Current Power Limit`, then a reading.
pub open spec fn limit_value(line: Seq<char>) -> Option<nat> {
    match find_from(line, "Current Power Limit"@, 0) {
        Some(i) => watts_after(line, i + "Current Power Limit"@.len()),
        None => None,
    }
}

fn limit_value_x(line: &Vec<char>) -> (r: Option<u64>)
    ensures
        r matches Some(v) ==> limit_value(line@) == Some(v as nat) && v <= 1000000000000000,
        r is None ==> limit_value(line@) is None,
{
    if let Some(i) = find_from_x(line, "Current Power Limit", 0) {
        let llen = line.len();
        proof {
            lemma_find_from_bounds(line@, "Current Power Limit"@, 0);
        }
        let tl = "Current Power Limit".unicode_len();
        assert(i + tl <= llen);
        watts_after_x(line, i + tl)
    } else {
        None
    }
}

/// A `Persistence Mode : <word>` line whose word is exactly `Disabled`.
pub open spec fn persistence_disabled(line: Seq<char>) -> bool {
    match find_from(line, "Persistence Mode"@, 0) {
        Some(i) => {
            let p = run_end(CharClass::Space, line, i + "Persistence Mode"@.len());
            if p < line.len() && line[p] == ':' {
                let q0 = run_end(CharClass::Space, line, p + 1);
                let q1 = run_end(CharClass::Word, line, q0);
                q1 > q0 && line.subrange(q0, q1) == "Disabled"@
            } else {
                false
            }
        },
        None => false,
    }
}

fn persistence_disabled_x(line: &Vec<char>) -> (r: bool)
    ensures
        r == persistence_disabled(line@),
{
    if let Some(i) = find_from_x(line, "Persistence Mode", 0) {
        let llen = line.len();
        proof {
            lemma_find_from_bounds(line@, "Persistence Mode"@, 0);
        }
        let tl = "Persistence Mode".unicode_len();
        assert(i + tl <= llen);
        let p = scan_class(CharClass::Space, line, i + tl);
        if p < line.len() && line[p] == ':' {
            let q0 = scan_class(CharClass::Space, line, p + 1);
            let q1 = scan_class(CharClass::Word, line, q0);
            let dl = "Disabled".unicode_len();
            proof {
                reveal_strlit("Disabled");
            }
            if q1 > q0 && q1 - q0 == dl && match_at_x(line, "Disabled", q0) {
                proof {
                    assert(line@.subrange(q0 as int, q1 as int) =~= "Disabled"@);
                }
                true
            } else {
                proof {
                    if q1 > q0 && line@.subrange(q0 as int, q1 as int) == "Disabled"@ {
                        assert(line@.subrange(q0 as int, q1 as int).len() == q1 - q0);
                        assert(forall|k: int|
                            0 <= k < dl ==> line@[q0 + k] == #[trigger] line@.subrange(
                                q0 as int,
                                q1 as int,
                            )[k]);
                        assert(match_at(line@, "Disabled"@, q0 as int));
                    }
                }
                false
            }
        } else {
            false
        }
    } else {
        false
    }
}

/// Power-draw readings taken from the first `n` lines: each header line pairs
/// with the next visible line when that line carries a reading.
pub open spec fn draws_upto(lines: Seq<Seq<char>>, n: int) -> Seq<nat>
    decreases n,
{
    if n <= 0 {
        Seq::empty()
    } else {
        let rest = draws_upto(lines, n - 1);
        if power_header_line(lines[n - 1]) {
            match next_content(lines, n) {
                Some(j) => match draw_value(lines[j]) {
                    Some(v) => rest.push(v),
                    None => rest,
                },
                None => rest,
            }
        } else {
            rest
        }
    }
}

pub open spec fn doc_draws(doc: Seq<char>) -> Seq<nat> {
    draws_upto(lines_of(doc), lines_of(doc).len() as int)
}

/// Power-limit readings of the first `n` lines.
pub open spec fn limits_upto(lines: Seq<Seq<char>>, n: int) -> Seq<nat>
    decreases n,
{
    if n <= 0 {
        Seq::empty()
    } else {
        match limit_value(lines[n - 1]) {
            Some(v) => limits_upto(lines, n - 1).push(v),
            None => limits_upto(lines, n - 1),
        }
    }
}

pub open spec fn doc_limits(doc: Seq<char>) -> Seq<nat> {
    limits_upto(lines_of(doc), lines_of(doc).len() as int)
}

/// How many of the first `n` lines report persistence mode disabled.
pub open spec fn persistence_count(lines: Seq<Seq<char>>, n: int) -> nat
    decreases n,
{
    if n <= 0 {
        0
    } else {
        persistence_count(lines, n - 1) + (if persistence_disabled(lines[n - 1]) {
            1nat
        } else {
            0nat
        })
    }
}

pub open spec fn doc_persistence_count(doc: Seq<char>) -> nat {
    persistence_count(lines_of(doc), lines_of(doc).len() as int)
}

/// Milliwatts rendered as watts with two decimals (truncated).
pub open spec fn milli_str(m: nat) -> Seq<char> {
    dec_str(m / 1000) + "."@ + seq![
        digit_char(((m % 1000) / 100) as int),
        digit_char((((m % 1000) / 10) % 10) as int),
    ]
}

fn milli_str_x(m: u128) -> (r: String)
    ensures
        r@ == milli_str(m as nat),
{
    let mut s = u128_to_string(m / 1000);
    proof {
        reveal_strlit(".");
    }
    append_str(&mut s, ".");
    push_char(&mut s, digit_char_x(((m % 1000) / 100) as u64));
    push_char(&mut s, digit_char_x((((m % 1000) / 10) % 10) as u64));
    proof {
        assert(s@ =~= milli_str(m as nat));
    }
    s
}

/// Utilization in tenths of a percent: draw over limit, zero when the limit
/// is zero.
pub open spec fn util_tenths(d: nat, l: nat) -> nat {
    if l == 0 {
        0
    } else {
        d * 1000 / l
    }
}

/// Tenths rendered with one decimal.
pub open spec fn tenth_str(t: nat) -> Seq<char> {
    dec_str(t / 10) + "."@ + seq![digit_char((t % 10) as int)]
}

fn tenth_str_x(t: u128) -> (r: String)
    ensures
        r@ == tenth_str(t as nat),
{
    let mut s = u128_to_string(t / 10);
    proof {
        reveal_strlit(".");
    }
    append_str(&mut s, ".");
    push_char(&mut s, digit_char_x((t % 10) as u64));
    proof {
        assert(s@ =~= tenth_str(t as nat));
    }
    s
}

/// The power section: average draw (and, with limits, average limit and
/// utilization) as information, and a recommendation when persistence mode is
/// disabled anywhere.
pub open spec fn power_report_lines(doc: Seq<char>) -> Seq<Seq<char>> {
    let ds = doc_draws(doc);
    let ls = doc_limits(doc);
    let pd = doc_persistence_count(doc);
    banner_lines("     GPU Power and Performance"@) + (if ds.len() > 0 {
        seq!["Average GPU Power Draw: "@ + milli_str(sum_of(ds) / ds.len()) + " W"@] + (if ls.len()
            > 0 {
            seq![
                "Average Power Limit: "@ + milli_str(sum_of(ls) / ls.len()) + " W ("@ + tenth_str(
                    util_tenths(sum_of(ds) / ds.len(), sum_of(ls) / ls.len()),
                ) + "% utilized)"@,
            ]
        } else {
            Seq::<Seq<char>>::empty()
        })
    } else {
        Seq::<Seq<char>>::empty()
    }) + (if pd > 0 {
        seq![
            "\n** RECOMMENDATION: Persistence Mode is Disabled on "@ + dec_str(pd) + " GPU(s)"@,
            "   Enable with: sudo nvidia-smi -pm 1"@,
            "   This improves performance and reduces driver load time."@,
        ]
    } else {
        Seq::<Seq<char>>::empty()
    })
}

proof fn lemma_watt_sum_bound(s: Seq<nat>)
    requires
        forall|k: int| 0 <= k < s.len() ==> s[k] <= 1000000000000000,
    ensures
        sum_of(s) <= s.len() * 1000000000000000,
    decreases s.len(),
{
    if s.len() > 0 {
        assert(forall|k: int| 0 <= k < s.drop_last().len() ==> s.drop_last()[k] == s[k]);
        lemma_watt_sum_bound(s.drop_last());
    }
}

fn collect_draws(lines: &Vec<Vec<char>>) -> (r: Vec<u64>)
    ensures
        r@.map_values(|v: u64| v as nat) == draws_upto(views_of(lines@), views_of(lines@).len() as int),
        forall|k: int| 0 <= k < r@.len() ==> r@[k] <= 1000000000000000,
{
    let mut r: Vec<u64> = Vec::new();
    let mut i: usize = 0;
    proof {
        assert(r@.map_values(|v: u64| v as nat) =~= draws_upto(views_of(lines@), 0));
    }
    while i < lines.len()
        invariant
            0 <= i <= lines@.len(),
            r@.map_values(|v: u64| v as nat) == draws_upto(views_of(lines@), i as int),
            forall|k: int| 0 <= k < r@.len() ==> r@[k] <= 1000000000000000,
        decreases lines@.len() - i,
    {
        let ghost lv = views_of(lines@);
        proof {
            assert(lv[i as int] == lines@[i as int]@);
        }
        let is_header = {
            if let Some(h) = find_from_x(&lines[i], "GPU Power Readings", 0) {
                let ll = lines[i].len();
                proof {
                    lemma_find_from_bounds(lines@[i as int]@, "GPU Power Readings"@, 0);
                }
                let tl = "GPU Power Readings".unicode_len();
                assert(h + tl <= ll);
                let e = scan_class(CharClass::Space, &lines[i], h + tl);
                e == lines[i].len()
            } else {
                false
            }
        };
        assert(is_header == power_header_line(lv[i as int]));
        if is_header {
            let mut j = i + 1;
            while j < lines.len() && scan_class(CharClass::Space, &lines[j], 0) == lines[j].len()
                invariant
                    i + 1 <= j <= lines@.len(),
                    lv == views_of(lines@),
                    next_content(lv, i + 1) == next_content(lv, j as int),
                decreases lines@.len() - j,
            {
                proof {
                    assert(lv[j as int] == lines@[j as int]@);
                    assert(blank_line(lv[j as int]));
                }
                j = j + 1;
            }
            if j < lines.len() {
                proof {
                    assert(lv[j as int] == lines@[j as int]@);
                    assert(!blank_line(lv[j as int]));
                    assert(next_content(lv, i + 1) == Some(j as int));
                }
                if let Some(v) = draw_value_x(&lines[j]) {
                    let ghost prev = r@;
                    r.push(v);
                    proof {
                        assert(r@.map_values(|v: u64| v as nat) =~= prev.map_values(
                            |v: u64| v as nat,
                        ).push(v as nat));
                    }
                }
            } else {
                proof {
                    assert(next_content(lv, i + 1) is None);
                }
            }
        }
        i = i + 1;
    }
    r
}

fn collect_limits(lines: &Vec<Vec<char>>) -> (r: Vec<u64>)
    ensures
        r@.map_values(|v: u64| v as nat) == limits_upto(views_of(lines@), views_of(lines@).len() as int),
        forall|k: int| 0 <= k < r@.len() ==> r@[k] <= 1000000000000000,
{
    let mut r: Vec<u64> = Vec::new();
    let mut i: usize = 0;
    proof {
        assert(r@.map_values(|v: u64| v as nat) =~= limits_upto(views_of(lines@), 0));
    }
    while i < lines.len()
        invariant
            0 <= i <= lines@.len(),
            r@.map_values(|v: u64| v as nat) == limits_upto(views_of(lines@), i as int),
            forall|k: int| 0 <= k < r@.len() ==> r@[k] <= 1000000000000000,
        decreases lines@.len() - i,
    {
        proof {
            assert(views_of(lines@)[i as int] == lines@[i as int]@);
        }
        if let Some(v) = limit_value_x(&lines[i]) {
            let ghost prev = r@;
            r.push(v);
            proof {
                assert(r@.map_values(|v: u64| v as nat) =~= prev.map_values(|v: u64| v as nat).push(
                    v as nat,
                ));
            }
        }
        i = i + 1;
    }
    r
}

/// Average in milliwatts of a list of readings, all within range.
fn average_milli(vals: &Vec<u64>) -> (r: u128)
    requires
        vals@.len() > 0,
        forall|k: int| 0 <= k < vals@.len() ==> vals@[k] <= 1000000000000000,
    ensures
        r as nat == sum_of(vals@.map_values(|v: u64| v as nat)) / vals@.len(),
        r as nat <= usize::MAX as nat * 1000000000000000,
{
    let ghost vs = vals@.map_values(|v: u64| v as nat);
    let mut sum: u128 = 0;
    let mut i: usize = 0;
    proof {
        assert(vs.take(0) =~= Seq::<nat>::empty());
    }
    while i < vals.len()
        invariant
            0 <= i <= vals@.len(),
            vs == vals@.map_values(|v: u64| v as nat),
            vs.len() == vals@.len(),
            forall|k: int| 0 <= k < vals@.len() ==> vals@[k] <= 1000000000000000,
            sum as nat == sum_of(vs.take(i as int)),
            sum <= (i as int) * 1000000000000000,
        decreases vals@.len() - i,
    {
        proof {
            assert(vs[i as int] == vals@[i as int] as nat);
            assert(vs.take(i + 1).drop_last() =~= vs.take(i as int));
            assert(vs.take(i + 1).last() == vs[i as int]);
        }
        sum = sum + vals[i] as u128;
        i = i + 1;
    }
    proof {
        assert(vs.take(vs.len() as int) =~= vs);
    }
    let nv = vals.len();
    let avg = sum / (nv as u128);
    proof {
        assert(avg <= sum);
        assert(sum <= (nv as int) * 1000000000000000);
    }
    avg
}

/// Collect power draw and limit readings (informational averages) and count
/// GPUs whose persistence mode is exactly `Disabled`; the finding count is
/// the persistence-disabled count alone.
pub fn check_gpu_power_performance(log: &str) -> (f: Finding)
    ensures
        f.count as nat == doc_persistence_count(log@),
        string_views(f.lines@) == power_report_lines(log@),
        doc_persistence_count(log@) == 0 ==> f.count == 0,
{
    let lines = split_lines(log);
    let _nl = lines.len();
    assert(lines@.len() <= usize::MAX);
    let draws = collect_draws(&lines);
    let limits = collect_limits(&lines);
    let ghost ds = doc_draws(log@);
    let ghost ls = doc_limits(log@);
    let mut out = banner("     GPU Power and Performance");
    if draws.len() > 0 {
        proof {
            assert(draws@.map_values(|v: u64| v as nat) == ds);
            assert(ds.len() == draws@.len());
        }
        let avg_draw = average_milli(&draws);
        let mut l1 = "Average GPU Power Draw: ".to_owned();
        let m1 = milli_str_x(avg_draw);
        append_str(&mut l1, m1.as_str());
        append_str(&mut l1, " W");
        out.push(l1);
        if limits.len() > 0 {
            proof {
                assert(limits@.map_values(|v: u64| v as nat) == ls);
                assert(ls.len() == limits@.len());
            }
            let avg_limit = average_milli(&limits);
            let util: u128 = if avg_limit == 0 {
                0
            } else {
                avg_draw * 1000 / avg_limit
            };
            proof {
                assert(util as nat == util_tenths(
                    sum_of(ds) / ds.len(),
                    sum_of(ls) / ls.len(),
                ));
            }
            let mut l2 = "Average Power Limit: ".to_owned();
            let m2 = milli_str_x(avg_limit);
            append_str(&mut l2, m2.as_str());
            append_str(&mut l2, " W (");
            let m3 = tenth_str_x(util);
            append_str(&mut l2, m3.as_str());
            append_str(&mut l2, "% utilized)");
            out.push(l2);
        }
    }
    // persistence-mode count
    let mut pd: usize = 0;
    let mut i: usize = 0;
    while i < lines.len()
        invariant
            0 <= i <= lines@.len(),
            pd <= i,
            pd as nat == persistence_count(views_of(lines@), i as int),
        decreases lines@.len() - i,
    {
        proof {
            assert(views_of(lines@)[i as int] == lines@[i as int]@);
        }
        if persistence_disabled_x(&lines[i]) {
            pd = pd + 1;
        }
        i = i + 1;
    }
    if pd > 0 {
        let mut l3 = "\n** RECOMMENDATION: Persistence Mode is Disabled on ".to_owned();
        let n3 = crate::text::usize_to_string(pd);
        append_str(&mut l3, n3.as_str());
        append_str(&mut l3, " GPU(s)");
        out.push(l3);
        out.push("   Enable with: sudo nvidia-smi -pm 1".to_owned());
        out.push("   This improves performance and reduces driver load time.".to_owned());
    }
    proof {
        assert(string_views(out@) =~= power_report_lines(log@));
    }
    Finding { count: pd, lines: out }
}

} // verus!

