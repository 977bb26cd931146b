//! The PCIe link degradation detector: every status line marked `downgraded`
//! yields one detail entry. The owning device and its declared capability are
//! found by bounded backward scans (50 and 20 lines); when they are not found
//! within the window the entry still appears, with `Unknown` device fields or
//! an omitted expectation.

use vstd::prelude::*;
use vstd::string::StrSliceExecFns;
use crate::detect::{banner, banner_lines, Finding};
use crate::freq::string_views;
use crate::text::{
    append_str, contains_pat, contains_pat_x, dec_str, find_from, find_from_x, is_digit, is_space,
    is_lower_hex, lemma_find_from_bounds, lines_of, match_at, match_at_x, run_end, scan_class,
    split_lines, string_of, subrange_x, trim_x, trimmed, usize_to_string, views_of, CharClass,
};

verus! {

/// The width/qualifier tail of a status line after its comma: `Width`, at
/// least one space, a width token, and an optional parenthesized qualifier.
pub open spec fn width_part(line: Seq<char>, c: int) -> Option<(Seq<char>, Seq<char>)>
    recommends
        0 <= c <= line.len(),
{
    let h = run_end(CharClass::Space, line, c);
    if match_at(line, "Width"@, h) {
        let h2 = h + "Width"@.len();
        let h3 = run_end(CharClass::Space, line, h2);
        if h3 > h2 {
            let w1 = run_end(CharClass::NonSpace, line, h3);
            if w1 > h3 {
                let g2 = run_end(CharClass::Space, line, w1);
                if g2 < line.len() && line[g2] == '(' {
                    let e2 = run_end(CharClass::NonRparen, line, g2 + 1);
                    if e2 < line.len() {
                        Some((line.subrange(h3, w1), line.subrange(g2, e2 + 1)))
                    } else {
                        Some((line.subrange(h3, w1), Seq::empty()))
                    }
                } else {
                    Some((line.subrange(h3, w1), Seq::empty()))
                }
            } else {
                None
            }
        } else {
            None
        }
    } else {
        None
    }
}

/// A parsed `LnkSta:` line: current speed, its qualifier, current width, its
/// qualifier. The speed token ends at whitespace or a comma; each qualifier
/// is a parenthesized group or empty.
pub open spec fn lnksta_parse(line: Seq<char>) -> Option<(Seq<char>, Seq<char>, Seq<char>, Seq<
    char,
>)> {
    match find_from(line, "LnkSta:"@, 0) {
        Some(t) => {
            let p = run_end(CharClass::Space, line, t + "LnkSta:"@.len());
            if match_at(line, "Speed"@, p) {
                let q = p + "Speed"@.len();
                let q0 = run_end(CharClass::Space, line, q);
                if q0 > q {
                    let s1 = run_end(CharClass::NonSpaceNonComma, line, q0);
                    if s1 > q0 {
                        let g = run_end(CharClass::Space, line, s1);
                        if g < line.len() && line[g] == '(' {
                            let e = run_end(CharClass::NonRparen, line, g + 1);
                            if e < line.len() && e + 1 < line.len() && line[e + 1] == ',' {
                                match width_part(line, e + 2) {
                                    Some(w) => Some(
                                        (
                                            line.subrange(q0, s1),
                                            line.subrange(g, e + 1),
                                            w.0,
                                            w.1,
                                        ),
                                    ),
                                    None => None,
                                }
                            } else {
                                None
                            }
                        } else if g < line.len() && line[g] == ',' {
                            match width_part(line, g + 1) {
                                Some(w) => Some(
                                    (line.subrange(q0, s1), Seq::empty(), w.0, w.1),
                                ),
                                None => None,
                            }
                        } else {
                            None
                        }
                    } else {
                        None
                    }
                } else {
                    None
                }
            } else {
                None
            }
        },
        None => None,
    }
}

fn width_part_x(line: &Vec<char>, c: usize) -> (r: Option<(Vec<char>, Vec<char>)>)
    requires
        c <= line@.len(),
    ensures
        r matches Some(w) ==> width_part(line@, c as int) == Some((w.0@, w.1@)),
        r is None ==> width_part(line@, c as int) is None,
{
    let llen = line.len();
    let h = scan_class(CharClass::Space, line, c);
    if match_at_x(line, "Width", h) {
        let wl = "Width".unicode_len();
        assert(h + wl <= llen);
        let h2 = h + wl;
        let h3 = scan_class(CharClass::Space, line, h2);
        if h3 > h2 {
            let w1 = scan_class(CharClass::NonSpace, line, h3);
            if w1 > h3 {
                let g2 = scan_class(CharClass::Space, line, w1);
                if g2 < line.len() && line[g2] == '(' {
                    let e2 = scan_class(CharClass::NonRparen, line, g2 + 1);
                    if e2 < line.len() {
                        Some((subrange_x(line, h3, w1), subrange_x(line, g2, e2 + 1)))
                    } else {
                        Some((subrange_x(line, h3, w1), Vec::new()))
                    }
                } else {
                    Some((subrange_x(line, h3, w1), Vec::new()))
                }
            } else {
                None
            }
        } else {
            None
        }
    } else {
        None
    }
}

fn lnksta_parse_x(line: &Vec<char>) -> (r: Option<(Vec<char>, Vec<char>, Vec<char>, Vec<char>)>)
    ensures
        r matches Some(s) ==> lnksta_parse(line@) == Some((s.0@, s.1@, s.2@, s.3@)),
        r is None ==> lnksta_parse(line@) is None,
{
    if let Some(t) = find_from_x(line, "LnkSta:", 0) {
        let llen = line.len();
        proof {
            lemma_find_from_bounds(line@, "LnkSta:"@, 0);
        }
        let tl = "LnkSta:".unicode_len();
        assert(t + tl <= llen);
        let p = scan_class(CharClass::Space, line, t + tl);
        if match_at_x(line, "Speed", p) {
            let sl = "Speed".unicode_len();
            assert(p + sl <= llen);
            let q = p + sl;
            let q0 = scan_class(CharClass::Space, line, q);
            if q0 > q {
                let s1 = scan_class(CharClass::NonSpaceNonComma, line, q0);
                if s1 > q0 {
                    let g = scan_class(CharClass::Space, line, s1);
                    if g < line.len() && line[g] == '(' {
                        let e = scan_class(CharClass::NonRparen, line, g + 1);
                        if e < line.len() && e + 1 < line.len() && line[e + 1] == ',' {
                            match width_part_x(line, e + 2) {
                                Some(w) => Some(
                                    (
                                        subrange_x(line, q0, s1),
                                        subrange_x(line, g, e + 1),
                                        w.0,
                                        w.1,
                                    ),
                                ),
                                None => None,
                            }
                        } else {
                            None
                        }
                    } else if g < line.len() && line[g] == ',' {
                        match width_part_x(line, g + 1) {
                            Some(w) => Some(
                                (subrange_x(line, q0, s1), Vec::new(), w.0, w.1),
                            ),
                            None => None,
                        }
                    } else {
                        None
                    }
                } else {
                    None
                }
            } else {
                None
            }
        } else {
            None
        }
    } else {
        None
    }
}

/// A 12-character PCI address `hhhh:hh:hh.d` at the start of the line.
pub open spec fn addr_shape(line: Seq<char>) -> bool {
    &&& line.len() >= 12
    &&& is_lower_hex(line[0])
    &&& is_lower_hex(line[1])
    &&& is_lower_hex(line[2])
    &&& is_lower_hex(line[3])
    &&& line[4] == ':'
    &&& is_lower_hex(line[5])
    &&& is_lower_hex(line[6])
    &&& line[7] == ':'
    &&& is_lower_hex(line[8])
    &&& is_lower_hex(line[9])
    &&& line[10] == '.'
    &&& is_digit(line[11])
}

/// A `[hhhh]` device-id group at index `c`.
pub open spec fn bracket_at(line: Seq<char>, c: int) -> bool {
    &&& 0 <= c
    &&& c + 6 <= line.len()
    &&& line[c] == '['
    &&& is_lower_hex(line[c + 1])
    &&& is_lower_hex(line[c + 2])
    &&& is_lower_hex(line[c + 3])
    &&& is_lower_hex(line[c + 4])
    &&& line[c + 5] == ']'
}

/// First device-id group at or after `c`.
pub open spec fn bracket_from(line: Seq<char>, c: int) -> Option<int>
    decreases line.len() - c,
{
    if c < 0 || c + 6 > line.len() {
        None
    } else if bracket_at(line, c) {
        Some(c)
    } else {
        bracket_from(line, c + 1)
    }
}

/// A PCI device header line: the address, then whitespace, then the device
/// description up to its first device-id group, trimmed.
pub open spec fn pci_device_parse(line: Seq<char>) -> Option<(Seq<char>, Seq<char>)> {
    if line.len() >= 13 && addr_shape(line) && is_space(line[12]) {
        match bracket_from(line, 14) {
            Some(b) => Some((line.take(12), trimmed(line.subrange(13, b)))),
            None => None,
        }
    } else {
        None
    }
}

fn is_lower_hex_x(c: char) -> (r: bool)
    ensures
        r == is_lower_hex(c),
{
    (48 <= c as u32 && c as u32 <= 57) || (97 <= c as u32 && c as u32 <= 102)
}

fn bracket_at_x(line: &Vec<char>, c: usize) -> (r: bool)
    ensures
        r == bracket_at(line@, c as int),
{
    if line.len() < 6 || c > line.len() - 6 {
        return false;
    }
    line[c] == '[' && is_lower_hex_x(line[c + 1]) && is_lower_hex_x(line[c + 2]) && is_lower_hex_x(
        line[c + 3],
    ) && is_lower_hex_x(line[c + 4]) && line[c + 5] == ']'
}

fn pci_device_parse_x(line: &Vec<char>) -> (r: Option<(String, String)>)
    ensures
        r matches Some(d) ==> pci_device_parse(line@) == Some((d.0@, d.1@)),
        r is None ==> pci_device_parse(line@) is None,
{
    if line.len() < 13 {
        return None;
    }
    let shape = is_lower_hex_x(line[0]) && is_lower_hex_x(line[1]) && is_lower_hex_x(line[2])
        && is_lower_hex_x(line[3]) && line[4] == ':' && is_lower_hex_x(line[5]) && is_lower_hex_x(
        line[6],
    ) && line[7] == ':' && is_lower_hex_x(line[8]) && is_lower_hex_x(line[9]) && line[10] == '.'
        && (48 <= line[11] as u32 && line[11] as u32 <= 57);
    if !(shape && (line[12] == ' ' || line[12] == '\t')) {
        return None;
    }
    assert(addr_shape(line@) && is_space(line@[12]));
    let llen = line.len();
    let mut c: usize = 14;
    while c <= llen - 6 && !bracket_at_x(line, c)
        invariant
            14 <= c,
            llen == line@.len(),
            llen >= 13,
            c <= line@.len() + 1,
            bracket_from(line@, 14) == bracket_from(line@, c as int),
        decreases line@.len() - c,
    {
        c = c + 1;
    }
    if c <= llen - 6 {
        assert(bracket_from(line@, 14) == Some(c as int));
        let addr = subrange_x(line, 0, 12);
        let raw = subrange_x(line, 13, c);
        let desc = trim_x(&raw);
        proof {
            assert(line@.subrange(0, 12) =~= line@.take(12));
        }
        Some((string_of(&addr), string_of(&desc)))
    } else {
        assert(bracket_from(line@, 14) is None);
        None
    }
}

/// A parsed `LnkCap:` line: the declared speed and width.
pub open spec fn lnkcap_parse(line: Seq<char>) -> Option<(Seq<char>, Seq<char>)> {
    match find_from(line, "LnkCap:"@, 0) {
        Some(t) => match find_from(line, "Speed"@, t + "LnkCap:"@.len()) {
            Some(s) => {
                let s2 = run_end(CharClass::Space, line, s + "Speed"@.len());
                if s2 > s + "Speed"@.len() {
                    let s3 = run_end(CharClass::NonSpaceNonComma, line, s2);
                    if s3 > s2 {
                        match find_from(line, "Width"@, s3) {
                            Some(w) => {
                                let w2 = run_end(CharClass::Space, line, w + "Width"@.len());
                                if w2 > w + "Width"@.len() {
                                    let w3 = run_end(CharClass::NonSpaceNonComma, line, w2);
                                    if w3 > w2 {
                                        Some((line.subrange(s2, s3), line.subrange(w2, w3)))
                                    } else {
                                        None
                                    }
                                } else {
                                    None
                                }
                            },
                            None => None,
                        }
                    } else {
                        None
                    }
                } else {
                    None
                }
            },
            None => None,
        },
        None => None,
    }
}

fn lnkcap_parse_x(line: &Vec<char>) -> (r: Option<(Vec<char>, Vec<char>)>)
    ensures
        r matches Some(d) ==> lnkcap_parse(line@) == Some((d.0@, d.1@)),
        r is None ==> lnkcap_parse(line@) is None,
{
    if let Some(t) = find_from_x(line, "LnkCap:", 0) {
        let llen = line.len();
        proof {
            lemma_find_from_bounds(line@, "LnkCap:"@, 0);
        }
        let tl = "LnkCap:".unicode_len();
        assert(t + tl <= llen);
        if let Some(s) = find_from_x(line, "Speed", t + tl) {
            proof {
                lemma_find_from_bounds(line@, "Speed"@, t + tl as int);
            }
            let sl = "Speed".unicode_len();
            assert(s + sl <= llen);
            let s2 = scan_class(CharClass::Space, line, s + sl);
            if s2 > s + sl {
                let s3 = scan_class(CharClass::NonSpaceNonComma, line, s2);
                if s3 > s2 {
                    if let Some(w) = find_from_x(line, "Width", s3) {
                        proof {
                            lemma_find_from_bounds(line@, "Width"@, s3 as int);
                        }
                        let wl = "Width".unicode_len();
                        assert(w + wl <= llen);
                        let w2 = scan_class(CharClass::Space, line, w + wl);
                        if w2 > w + wl {
                            let w3 = scan_class(CharClass::NonSpaceNonComma, line, w2);
                            if w3 > w2 {
                                Some((subrange_x(line, s2, s3), subrange_x(line, w2, w3)))
                            } else {
                                None
                            }
                        } else {
                            None
                        }
                    } else {
                        None
                    }
                } else {
                    None
                }
            } else {
                None
            }
        } else {
            None
        }
    } else {
        None
    }
}

/// A degraded-link status line: it carries the status marker, the word
/// `downgraded`, and a parsable current speed/width.
pub open spec fn degraded_line(line: Seq<char>) -> bool {
    contains_pat(line, "LnkSta:"@) && contains_pat(line, "downgraded"@) && lnksta_parse(
        line,
    ) is Some
}

/// Nearest line above `j` (inclusive), within `steps` lines, that parses as a
/// PCI device header.
pub open spec fn scan_back_device(lines: Seq<Seq<char>>, j: int, steps: int) -> Option<int>
    decreases steps,
{
    if steps <= 0 || j < 0 || j >= lines.len() {
        None
    } else if pci_device_parse(lines[j]) is Some {
        Some(j)
    } else {
        scan_back_device(lines, j - 1, steps - 1)
    }
}

/// Nearest line above `j` (inclusive), within `steps` lines, that parses as a
/// capability declaration.
pub open spec fn scan_back_cap(lines: Seq<Seq<char>>, j: int, steps: int) -> Option<int>
    decreases steps,
{
    if steps <= 0 || j < 0 || j >= lines.len() {
        None
    } else if lnkcap_parse(lines[j]) is Some {
        Some(j)
    } else {
        scan_back_cap(lines, j - 1, steps - 1)
    }
}

/// The device owning the degraded link at line `i`: the nearest header within
/// the preceding 50 lines, else the fixed `Unknown` fields.
pub open spec fn device_of(lines: Seq<Seq<char>>, i: int) -> (Seq<char>, Seq<char>) {
    match scan_back_device(lines, i - 1, 50) {
        Some(j) => pci_device_parse(lines[j])->Some_0,
        None => ("Unknown"@, "Unknown Device"@),
    }
}

/// The expectation tail of the entry at line `i`: the nearest capability
/// within the preceding 20 lines, else empty.
pub open spec fn expectation_of(lines: Seq<Seq<char>>, i: int) -> Seq<char> {
    match scan_back_cap(lines, i - 1, 20) {
        Some(j) => {
            let c = lnkcap_parse(lines[j])->Some_0;
            " (Expected: "@ + c.0 + " "@ + c.1 + ")"@
        },
        None => Seq::empty(),
    }
}

/// The rendered detail entry for the degraded line at `i`.
pub open spec fn detail_of(lines: Seq<Seq<char>>, i: int) -> Seq<char>
    recommends
        lnksta_parse(lines[i]) is Some,
{
    let st = lnksta_parse(lines[i])->Some_0;
    let dev = device_of(lines, i);
    "   "@ + dev.0 + " - "@ + dev.1 + "\n      Current: "@ + st.0 + " "@ + st.1 + ", "@ + st.2
        + " "@ + st.3 + expectation_of(lines, i)
}

/// The detail entries of the degraded lines among the first `n` lines.
pub open spec fn pcie_details_upto(lines: Seq<Seq<char>>, n: int) -> Seq<Seq<char>>
    decreases n,
{
    if n <= 0 {
        Seq::empty()
    } else if degraded_line(lines[n - 1]) {
        pcie_details_upto(lines, n - 1).push(detail_of(lines, n - 1))
    } else {
        pcie_details_upto(lines, n - 1)
    }
}

/// All degraded-link detail entries of a document.
pub open spec fn doc_pcie_details(doc: Seq<char>) -> Seq<Seq<char>> {
    pcie_details_upto(lines_of(doc), lines_of(doc).len() as int)
}

/// A degraded-link line with no device header within the preceding 50 lines
/// still produces its detail entry, with the device fields left `Unknown`; it
/// is never dropped.
pub proof fn lemma_degraded_without_device_kept(lines: Seq<Seq<char>>, i: int)
    requires
        0 <= i < lines.len(),
        degraded_line(lines[i]),
        scan_back_device(lines, i - 1, 50) is None,
    ensures
        pcie_details_upto(lines, i + 1).len() == pcie_details_upto(lines, i).len() + 1,
        device_of(lines, i).0 == "Unknown"@,
        device_of(lines, i).1 == "Unknown Device"@,
{
}

/// The PCIe section of the report.
pub open spec fn pcie_report_lines(doc: Seq<char>) -> Seq<Seq<char>> {
    let details = doc_pcie_details(doc);
    banner_lines("     PCIe Link Status Check"@) + (if details.len() > 0 {
        seq![
            "** PCIe Link Degradation Detected: "@ + dec_str(details.len() as nat)
                + " instances"@,
            "   Some PCIe links are running at reduced speed or width."@,
            "   This may impact GPU performance.\n"@,
            "Degraded Links:"@,
        ] + details
    } else {
        seq!["All PCIe links appear to be running at expected speeds"@]
    })
}

/// Scan every status line marked `downgraded`; each yields one detail entry
/// with the owning device found by a 50-line backward scan and the declared
/// capability by a 20-line backward scan, degrading to `Unknown` fields or an
/// omitted expectation rather than dropping the entry.
pub fn check_pcie_link_status(log: &str) -> (f: Finding)
    ensures
        f.count as nat == doc_pcie_details(log@).len(),
        string_views(f.lines@) == pcie_report_lines(log@),
        doc_pcie_details(log@).len() == 0 ==> f.count == 0,
{
    let lines = split_lines(log);
    let ghost lv = views_of(lines@);
    let mut details: Vec<String> = Vec::new();
    let mut i: usize = 0;
    proof {
        assert(string_views(details@) =~= pcie_details_upto(lv, 0));
    }
    while i < lines.len()
        invariant
            0 <= i <= lines@.len(),
            lv == views_of(lines@),
            string_views(details@) == pcie_details_upto(lv, i as int),
        decreases lines@.len() - i,
    {
        proof {
            assert(lv[i as int] == lines@[i as int]@);
        }
        let is_candidate = contains_pat_x(&lines[i], "LnkSta:") && contains_pat_x(
            &lines[i],
            "downgraded",
        );
        if is_candidate {
            if let Some(st) = lnksta_parse_x(&lines[i]) {
                assert(degraded_line(lv[i as int]));
                // backward scan for the owning device, 50 lines
                let mut dev: Option<(String, String)> = None;
                let mut j = i;
                let mut steps: usize = 0;
                while j > 0 && steps < 50 && dev.is_none()
                    invariant
                        0 <= j <= i < lines@.len(),
                        0 <= steps <= 50,
                        lv == views_of(lines@),
                        dev is None ==> scan_back_device(lv, i - 1, 50) == scan_back_device(
                            lv,
                            j - 1,
                            50 - steps,
                        ),
                        dev matches Some(d) ==> scan_back_device(lv, i - 1, 50) matches Some(sj)
                            && pci_device_parse(lv[sj]) == Some((d.0@, d.1@)),
                    decreases j,
                {
                    proof {
                        assert(lv[j - 1] == lines@[j - 1]@);
                    }
                    if let Some(d) = pci_device_parse_x(&lines[j - 1]) {
                        dev = Some(d);
                    }
                    j = j - 1;
                    steps = steps + 1;
                }
                // backward scan for the declared capability, 20 lines
                let mut cap: Option<(Vec<char>, Vec<char>)> = None;
                let mut j2 = i;
                let mut steps2: usize = 0;
                while j2 > 0 && steps2 < 20 && cap.is_none()
                    invariant
                        0 <= j2 <= i < lines@.len(),
                        0 <= steps2 <= 20,
                        lv == views_of(lines@),
                        cap is None ==> scan_back_cap(lv, i - 1, 20) == scan_back_cap(
                            lv,
                            j2 - 1,
                            20 - steps2,
                        ),
                        cap matches Some(d) ==> scan_back_cap(lv, i - 1, 20) matches Some(sj)
                            && lnkcap_parse(lv[sj]) == Some((d.0@, d.1@)),
                    decreases j2,
                {
                    proof {
                        assert(lv[j2 - 1] == lines@[j2 - 1]@);
                    }
                    if let Some(d) = lnkcap_parse_x(&lines[j2 - 1]) {
                        cap = Some(d);
                    }
                    j2 = j2 - 1;
                    steps2 = steps2 + 1;
                }
                // assemble the entry
                let mut ln = "   ".to_owned();
                match dev {
                    Some(d) => {
                        append_str(&mut ln, d.0.as_str());
                        append_str(&mut ln, " - ");
                        append_str(&mut ln, d.1.as_str());
                    },
                    None => {
                        append_str(&mut ln, "Unknown");
                        append_str(&mut ln, " - ");
                        append_str(&mut ln, "Unknown Device");
                        proof {
                            reveal_strlit("Unknown");
                            reveal_strlit("Unknown Device");
                        }
                    },
                }
                proof {
                    assert(ln@ == "   "@ + device_of(lv, i as int).0 + " - "@ + device_of(
                        lv,
                        i as int,
                    ).1);
                }
                append_str(&mut ln, "\n      Current: ");
                let (sp, sn, wd, wn) = st;
                let sps = string_of(&sp);
                append_str(&mut ln, sps.as_str());
                append_str(&mut ln, " ");
                let sns = string_of(&sn);
                append_str(&mut ln, sns.as_str());
                append_str(&mut ln, ", ");
                let wds = string_of(&wd);
                append_str(&mut ln, wds.as_str());
                append_str(&mut ln, " ");
                let wns = string_of(&wn);
                append_str(&mut ln, wns.as_str());
                match cap {
                    Some(cp) => {
                        append_str(&mut ln, " (Expected: ");
                        let cs = string_of(&cp.0);
                        append_str(&mut ln, cs.as_str());
                        append_str(&mut ln, " ");
                        let cw = string_of(&cp.1);
                        append_str(&mut ln, cw.as_str());
                        append_str(&mut ln, ")");
                    },
                    None => {},
                }
                proof {
                    assert(ln@ == detail_of(lv, i as int));
                }
                let ghost prev = details@;
                let ghost lnv = ln@;
                details.push(ln);
                proof {
                    assert(string_views(details@) =~= string_views(prev).push(lnv));
                    assert(string_views(details@) =~= pcie_details_upto(lv, i + 1));
                }
            } else {
                proof {
                    assert(!degraded_line(lv[i as int]));
                }
            }
        } else {
            proof {
                assert(!degraded_line(lv[i as int]));
            }
        }
        i = i + 1;
    }
    proof {
        assert(string_views(details@) == doc_pcie_details(log@));
    }
    let mut out = banner("     PCIe Link Status Check");
    if details.len() > 0 {
        let mut h = "** PCIe Link Degradation Detected: ".to_owned();
        let num = usize_to_string(details.len());
        append_str(&mut h, num.as_str());
        append_str(&mut h, " instances");
        out.push(h);
        out.push("   Some PCIe links are running at reduced speed or width.".to_owned());
        out.push("   This may impact GPU performance.\n".to_owned());
        out.push("Degraded Links:".to_owned());
        let ghost head = string_views(out@);
        let mut k: usize = 0;
        proof {
            assert(details@.take(0) =~= Seq::<String>::empty());
            assert(string_views(out@) =~= head + string_views(details@.take(0)));
        }
        while k < details.len()
            invariant
                0 <= k <= details@.len(),
                string_views(out@) == head + string_views(details@.take(k as int)),
            decreases details@.len() - k,
        {
            let ghost prev = out@;
            out.push(details[k].clone());
            proof {
                assert(string_views(out@) =~= string_views(prev).push(details@[k as int]@));
                assert(string_views(details@.take(k + 1)) =~= string_views(
                    details@.take(k as int),
                ).push(details@[k as int]@));
                assert(string_views(out@) =~= head + string_views(details@.take(k + 1)));
            }
            k = k + 1;
        }
        proof {
            assert(details@.take(details@.len() as int) =~= details@);
            assert(string_views(out@) =~= pcie_report_lines(log@));
        }
        Finding { count: details.len(), lines: out }
    } else {
        out.push("All PCIe links appear to be running at expected speeds".to_owned());
        proof {
            assert(string_views(out@) =~= pcie_report_lines(log@));
        }
        Finding { count: 0, lines: out }
    }
}

} // verus!
