//! The system summary section: report date, driver version, chassis and BIOS
//! identity from their blocks, CPU model counts, the boot line, and the
//! memory-module listing compressed through a frequency table.

use vstd::prelude::*;
use vstd::string::StrSliceExecFns;
use crate::extract::{
    block_of, block_of_x, cmdline_of, cmdline_of_x, collect_cpu_models, cpu_model_value, dmi_value,
    dmi_value_first, field_in_lines, field_in_lines_x, first_empty, first_match, prefix_value,
    prefix_value_first, values_upto,
};
use crate::freq::{count_occurrences, freq_of, string_views};
use crate::text::{
    append_str, contains_pat, contains_pat_x, dec_str, find_from, find_from_x,
    lemma_find_from_bounds, lines_of, split_lines, string_of, subrange_x, trim_x, trimmed,
    usize_to_string, views_of,
};

verus! {

/// Zero or one summary line from an optional extracted value.
pub open spec fn opt_line(prefix: Seq<char>, v: Option<Seq<char>>) -> Seq<Seq<char>> {
    match v {
        Some(x) => seq![prefix + x],
        None => Seq::empty(),
    }
}

/// A memory-module line worth keeping: one of the included fields, none of
/// the placeholder values of empty slots.
pub open spec fn dimm_keep(line: Seq<char>) -> bool {
    &&& (contains_pat(line, "Size:"@) || contains_pat(line, "Speed:"@) || contains_pat(
        line,
        "Manufacturer:"@,
    ) || contains_pat(line, "Part Number:"@))
    &&& !contains_pat(line, "Configured"@)
    &&& !contains_pat(line, "Logical"@)
    &&& !contains_pat(line, "Non-Volatile"@)
    &&& !contains_pat(line, "Cache"@)
    &&& !contains_pat(line, "None"@)
    &&& !contains_pat(line, "Unknown"@)
    &&& !contains_pat(line, "NO DIMM"@)
    &&& !contains_pat(line, "No Module"@)
}

fn dimm_keep_x(line: &Vec<char>) -> (r: bool)
    ensures
        r == dimm_keep(line@),
{
    (contains_pat_x(line, "Size:") || contains_pat_x(line, "Speed:") || contains_pat_x(
        line,
        "Manufacturer:",
    ) || contains_pat_x(line, "Part Number:")) && !contains_pat_x(line, "Configured")
        && !contains_pat_x(line, "Logical") && !contains_pat_x(line, "Non-Volatile")
        && !contains_pat_x(line, "Cache") && !contains_pat_x(line, "None") && !contains_pat_x(
        line,
        "Unknown",
    ) && !contains_pat_x(line, "NO DIMM") && !contains_pat_x(line, "No Module")
}

/// The kept lines of a block, trimmed, in order.
pub open spec fn kept(bl: Seq<Seq<char>>) -> Seq<Seq<char>>
    decreases bl.len(),
{
    if bl.len() == 0 {
        Seq::empty()
    } else {
        let p = kept(bl.drop_last());
        if dimm_keep(bl.last()) {
            p.push(trimmed(bl.last()))
        } else {
            p
        }
    }
}

/// Kept lines joined with ` | `.
pub open spec fn join_sep(ss: Seq<Seq<char>>) -> Seq<char>
    decreases ss.len(),
{
    if ss.len() == 0 {
        Seq::empty()
    } else if ss.len() == 1 {
        ss[0]
    } else {
        join_sep(ss.drop_last()) + " | "@ + ss.last()
    }
}

/// The start of a memory-module descriptor on a line: just after
/// `DMI type 17, `, which must follow a `Handle` on the same line.
pub open spec fn dimm_header_pos(line: Seq<char>) -> Option<int> {
    match find_from(line, "Handle"@, 0) {
        Some(hh) => match find_from(line, "DMI type 17, "@, hh + "Handle"@.len()) {
            Some(d) => Some(d + "DMI type 17, "@.len()),
            None => None,
        },
        None => None,
    }
}

/// The descriptor of the memory module announced on line `h`: the kept lines
/// of its block joined, or nothing when every line is filtered out (an empty
/// slot) or the block has no terminator.
pub open spec fn dimm_entry(lines: Seq<Seq<char>>, h: int) -> Option<Seq<char>>
    recommends
        0 <= h < lines.len(),
{
    match dimm_header_pos(lines[h]) {
        Some(p) => match first_empty(lines, h + 1) {
            Some(e) => {
                let bl = seq![lines[h].skip(p)] + lines.subrange(h + 1, e);
                let ks = kept(bl);
                if ks.len() == 0 {
                    None
                } else {
                    Some(join_sep(ks))
                }
            },
            None => None,
        },
        None => None,
    }
}

/// The module descriptors of the first `n` lines, in order.
pub open spec fn dimm_entries_upto(lines: Seq<Seq<char>>, n: int) -> Seq<Seq<char>>
    decreases n,
{
    if n <= 0 {
        Seq::empty()
    } else {
        match dimm_entry(lines, n - 1) {
            Some(v) => dimm_entries_upto(lines, n - 1).push(v),
            None => dimm_entries_upto(lines, n - 1),
        }
    }
}

fn dimm_entry_x(lines: &Vec<Vec<char>>, h: usize) -> (r: Option<String>)
    requires
        h < lines@.len(),
    ensures
        r matches Some(v) ==> dimm_entry(views_of(lines@), h as int) == Some(v@),
        r is None ==> dimm_entry(views_of(lines@), h as int) is None,
{
    let ghost lv = views_of(lines@);
    proof {
        assert(lv[h as int] == lines@[h as int]@);
    }
    let line = &lines[h];
    let hh = match find_from_x(line, "Handle", 0) {
        Some(hh) => hh,
        None => {
            return None;
        },
    };
    let ll = line.len();
    proof {
        lemma_find_from_bounds(line@, "Handle"@, 0);
    }
    let hl = "Handle".unicode_len();
    assert(hh + hl <= ll);
    let d = match find_from_x(line, "DMI type 17, ", hh + hl) {
        Some(d) => d,
        None => {
            return None;
        },
    };
    proof {
        lemma_find_from_bounds(line@, "DMI type 17, "@, hh + hl as int);
    }
    let dl = "DMI type 17, ".unicode_len();
    assert(d + dl <= ll);
    let p = d + dl;
    // block terminator
    let n = lines.len();
    let mut e = h + 1;
    while e < n && lines[e].len() > 0
        invariant
            h + 1 <= e <= n,
            n == lines@.len(),
            lv == views_of(lines@),
            first_empty(lv, h + 1) == first_empty(lv, e as int),
        decreases n - e,
    {
        proof {
            assert(lv[e as int] == lines@[e as int]@);
        }
        e = e + 1;
    }
    if e >= n {
        return None;
    }
    proof {
        assert(lv[e as int] == lines@[e as int]@);
        assert(first_empty(lv, h + 1) == Some(e as int));
    }
    // the block's lines: the descriptor remainder, then the lines to the blank
    let mut bl: Vec<Vec<char>> = Vec::new();
    bl.push(subrange_x(line, p, line.len()));
    proof {
        assert(line@.subrange(p as int, line@.len() as int) =~= line@.skip(p as int));
        assert(lv.subrange(h + 1, h + 1 as int) =~= Seq::<Seq<char>>::empty());
        assert(views_of(bl@) =~= seq![lv[h as int].skip(p as int)] + lv.subrange(h + 1, h + 1));
    }
    let mut k = h + 1;
    while k < e
        invariant
            h + 1 <= k <= e,
            e < lines@.len(),
            lv == views_of(lines@),
            p <= lv[h as int].len(),
            views_of(bl@) == seq![lv[h as int].skip(p as int)] + lv.subrange(h + 1, k as int),
        decreases e - k,
    {
        proof {
            assert(lv[k as int] == lines@[k as int]@);
        }
        let ghost prev = bl@;
        bl.push(subrange_x(&lines[k], 0, lines[k].len()));
        proof {
            assert(lines@[k as int]@.subrange(0, lines@[k as int]@.len() as int)
                =~= lv[k as int]);
            assert(views_of(bl@) =~= views_of(prev).push(lv[k as int]));
            assert(lv.subrange(h + 1, k + 1) =~= lv.subrange(h + 1, k as int).push(lv[k as int]));
            assert(views_of(bl@) =~= seq![lv[h as int].skip(p as int)] + lv.subrange(h + 1, k + 1));
        }
        k = k + 1;
    }
    let ghost blv = views_of(bl@);
    // filter and trim
    let mut ks: Vec<Vec<char>> = Vec::new();
    let mut m: usize = 0;
    proof {
        assert(blv.take(0) =~= Seq::<Seq<char>>::empty());
        assert(views_of(ks@) =~= kept(blv.take(0)));
    }
    while m < bl.len()
        invariant
            0 <= m <= bl@.len(),
            blv == views_of(bl@),
            views_of(ks@) == kept(blv.take(m as int)),
        decreases bl@.len() - m,
    {
        proof {
            assert(blv[m as int] == bl@[m as int]@);
            assert(blv.take(m + 1).drop_last() =~= blv.take(m as int));
            assert(blv.take(m + 1).last() == blv[m as int]);
        }
        if dimm_keep_x(&bl[m]) {
            let ghost prev = ks@;
            ks.push(trim_x(&bl[m]));
            proof {
                assert(views_of(ks@) =~= views_of(prev).push(trimmed(blv[m as int])));
            }
        }
        m = m + 1;
    }
    proof {
        assert(blv.take(blv.len() as int) =~= blv);
    }
    if ks.len() == 0 {
        return None;
    }
    // join with the separator
    let ghost ksv = views_of(ks@);
    let mut s = string_of(&ks[0]);
    let mut q: usize = 1;
    proof {
        assert(ksv.take(1) =~= seq![ksv[0]]);
        assert(s@ == join_sep(ksv.take(1)));
    }
    while q < ks.len()
        invariant
            1 <= q <= ks@.len(),
            ksv == views_of(ks@),
            s@ == join_sep(ksv.take(q as int)),
        decreases ks@.len() - q,
    {
        proof {
            assert(ksv[q as int] == ks@[q as int]@);
            assert(ksv.take(q + 1).drop_last() =~= ksv.take(q as int));
            assert(ksv.take(q + 1).last() == ksv[q as int]);
        }
        append_str(&mut s, " | ");
        let part = string_of(&ks[q]);
        append_str(&mut s, part.as_str());
        q = q + 1;
    }
    proof {
        assert(ksv.take(ksv.len() as int) =~= ksv);
    }
    Some(s)
}

/// `n` spaces.
pub open spec fn spaces(n: nat) -> Seq<char>
    decreases n,
{
    if n == 0 {
        Seq::empty()
    } else {
        spaces((n - 1) as nat).push(' ')
    }
}

/// Right-aligned in a field of width seven.
pub open spec fn pad7(s: Seq<char>) -> Seq<char> {
    if s.len() >= 7 {
        s
    } else {
        spaces((7 - s.len()) as nat) + s
    }
}

fn pad7_x(s: &String) -> (r: String)
    ensures
        r@ == pad7(s@),
{
    let n = s.as_str().unicode_len();
    if n >= 7 {
        proof {
            assert(s@.len() >= 7);
        }
        let mut r = String::new();
        append_str(&mut r, s.as_str());
        proof {
            assert(r@ =~= pad7(s@));
        }
        return r;
    }
    let mut r = String::new();
    let mut k: usize = 0;
    proof {
        assert(r@ =~= spaces(0));
    }
    while k < 7 - n
        invariant
            0 <= k <= 7 - n,
            n == s@.len(),
            n < 7,
            r@ == spaces(k as nat),
        decreases 7 - n - k,
    {
        crate::text::push_char(&mut r, ' ');
        k = k + 1;
    }
    append_str(&mut r, s.as_str());
    r
}

/// The CPU listing: one line per distinct model with its thread count.
pub open spec fn cpu_lines(t: Seq<(Seq<char>, nat)>) -> Seq<Seq<char>> {
    t.map_values(|e: (Seq<char>, nat)| "  CPUs # threads: "@ + dec_str(e.1) + " of CPU: "@ + e.0)
}

/// The memory listing: one line per distinct module descriptor with its count
/// right-aligned.
pub open spec fn dimm_lines(t: Seq<(Seq<char>, nat)>) -> Seq<Seq<char>> {
    t.map_values(|e: (Seq<char>, nat)| "    "@ + pad7(dec_str(e.1)) + "     "@ + e.0)
}

/// The system summary: identity fields when found, CPU model counts, the
/// boot line when found, and the memory listing, closed by a blank line.
pub open spec fn sys_summary_lines(doc: Seq<char>) -> Seq<Seq<char>> {
    let lines = lines_of(doc);
    opt_line("Log from: "@, first_match(lines, 0, |l: Seq<char>| prefix_value(l, "Date:"@)))
        + opt_line(
        "NVIDIA Driver Version: "@,
        first_match(lines, 0, |l: Seq<char>| prefix_value(l, "Driver Version:"@)),
    ) + opt_line("Chassis DMI: "@, first_match(lines, 0, |l: Seq<char>| dmi_value(l))) + (
    match block_of(lines, "System Information"@) {
        Some(ab) => seq![
            "Chassis: "@ + field_in_lines(lines, ab.0, ab.1, "Manufacturer:"@) + " "@
                + field_in_lines(lines, ab.0, ab.1, "Product Name:"@) + " "@ + field_in_lines(
                lines,
                ab.0,
                ab.1,
                "Serial Number:"@,
            ),
        ],
        None => Seq::<Seq<char>>::empty(),
    }) + (match block_of(lines, "Base Board Information"@) {
        Some(ab) => seq![
            "BaseBoard info: "@ + field_in_lines(lines, ab.0, ab.1, "Product Name:"@),
        ],
        None => Seq::<Seq<char>>::empty(),
    }) + (match block_of(lines, "BIOS Information"@) {
        Some(ab) => seq![
            "  BIOS: "@ + field_in_lines(lines, ab.0, ab.1, "Version:"@) + " "@ + field_in_lines(
                lines,
                ab.0,
                ab.1,
                "Release Date:"@,
            ),
        ],
        None => Seq::<Seq<char>>::empty(),
    }) + cpu_lines(
        freq_of(values_upto(lines, lines.len() as int, |l: Seq<char>| cpu_model_value(l))),
    ) + opt_line("  BOOT Line: "@, cmdline_of(lines)) + seq![
        "  Memory:"@,
        "      Count     DIMM Information"@,
    ] + dimm_lines(freq_of(dimm_entries_upto(lines, lines.len() as int))) + seq![
        Seq::<char>::empty(),
    ]
}

/// Render the system summary of a raw document.
#[verifier::rlimit(60)]
pub fn system_summary(log: &str) -> (r: Vec<String>)
    ensures
        string_views(r@) == sys_summary_lines(log@),
{
    let lines = split_lines(log);
    let ghost lv = views_of(lines@);
    let mut out: Vec<String> = Vec::new();
    // single-shot fields
    if let Some(v) = prefix_value_first(&lines, "Date:") {
        let mut l = "Log from: ".to_owned();
        append_str(&mut l, v.as_str());
        out.push(l);
    }
    if let Some(v) = prefix_value_first(&lines, "Driver Version:") {
        let mut l = "NVIDIA Driver Version: ".to_owned();
        append_str(&mut l, v.as_str());
        out.push(l);
    }
    if let Some(v) = dmi_value_first(&lines) {
        let mut l = "Chassis DMI: ".to_owned();
        append_str(&mut l, v.as_str());
        out.push(l);
    }
    let ghost part1 = opt_line(
        "Log from: "@,
        first_match(lv, 0, |l: Seq<char>| prefix_value(l, "Date:"@)),
    ) + opt_line(
        "NVIDIA Driver Version: "@,
        first_match(lv, 0, |l: Seq<char>| prefix_value(l, "Driver Version:"@)),
    ) + opt_line("Chassis DMI: "@, first_match(lv, 0, |l: Seq<char>| dmi_value(l)));
    proof {
        assert(string_views(out@) =~= part1);
    }
    // blocks
    if let Some((a, b)) = block_of_x(&lines, "System Information") {
        let mut l = "Chassis: ".to_owned();
        let m = field_in_lines_x(&lines, a, b, "Manufacturer:");
        append_str(&mut l, m.as_str());
        append_str(&mut l, " ");
        let pn = field_in_lines_x(&lines, a, b, "Product Name:");
        append_str(&mut l, pn.as_str());
        append_str(&mut l, " ");
        let sn = field_in_lines_x(&lines, a, b, "Serial Number:");
        append_str(&mut l, sn.as_str());
        out.push(l);
    }
    if let Some((a, b)) = block_of_x(&lines, "Base Board Information") {
        let mut l = "BaseBoard info: ".to_owned();
        let pn = field_in_lines_x(&lines, a, b, "Product Name:");
        append_str(&mut l, pn.as_str());
        out.push(l);
    }
    if let Some((a, b)) = block_of_x(&lines, "BIOS Information") {
        let mut l = "  BIOS: ".to_owned();
        let v = field_in_lines_x(&lines, a, b, "Version:");
        append_str(&mut l, v.as_str());
        append_str(&mut l, " ");
        let d = field_in_lines_x(&lines, a, b, "Release Date:");
        append_str(&mut l, d.as_str());
        out.push(l);
    }
    let ghost part2 = part1 + (match block_of(lv, "System Information"@) {
        Some(ab) => seq![
            "Chassis: "@ + field_in_lines(lv, ab.0, ab.1, "Manufacturer:"@) + " "@
                + field_in_lines(lv, ab.0, ab.1, "Product Name:"@) + " "@ + field_in_lines(
                lv,
                ab.0,
                ab.1,
                "Serial Number:"@,
            ),
        ],
        None => Seq::<Seq<char>>::empty(),
    }) + (match block_of(lv, "Base Board Information"@) {
        Some(ab) => seq!["BaseBoard info: "@ + field_in_lines(lv, ab.0, ab.1, "Product Name:"@)],
        None => Seq::<Seq<char>>::empty(),
    }) + (match block_of(lv, "BIOS Information"@) {
        Some(ab) => seq![
            "  BIOS: "@ + field_in_lines(lv, ab.0, ab.1, "Version:"@) + " "@ + field_in_lines(
                lv,
                ab.0,
                ab.1,
                "Release Date:"@,
            ),
        ],
        None => Seq::<Seq<char>>::empty(),
    });
    proof {
        assert(string_views(out@) =~= part2);
    }
    // CPU model counts
    let models = collect_cpu_models(&lines);
    let mtable = count_occurrences(&models);
    let mut j: usize = 0;
    proof {
        assert(mtable@.take(0) =~= Seq::<(Seq<char>, nat)>::empty());
        assert(string_views(out@) =~= part2 + cpu_lines(mtable@.take(0)));
    }
    while j < mtable.entries.len()
        invariant
            0 <= j <= mtable.entries@.len(),
            mtable@.len() == mtable.entries@.len(),
            string_views(out@) == part2 + cpu_lines(mtable@.take(j as int)),
        decreases mtable.entries@.len() - j,
    {
        let mut ln = "  CPUs # threads: ".to_owned();
        let cnum = usize_to_string(mtable.entries[j].1);
        append_str(&mut ln, cnum.as_str());
        append_str(&mut ln, " of CPU: ");
        append_str(&mut ln, mtable.entries[j].0.as_str());
        proof {
            assert(mtable@[j as int] == (mtable.entries@[j as int].0@, mtable.entries@[j as int].1
                as nat));
            assert(ln@ == "  CPUs # threads: "@ + dec_str(mtable@[j as int].1) + " of CPU: "@
                + mtable@[j as int].0);
        }
        let ghost prev = out@;
        let ghost lnv = ln@;
        out.push(ln);
        proof {
            assert(string_views(out@) =~= string_views(prev).push(lnv));
            assert(mtable@.take(j + 1) =~= mtable@.take(j as int).push(mtable@[j as int]));
            assert(cpu_lines(mtable@.take(j + 1)) =~= cpu_lines(mtable@.take(j as int)).push(lnv));
            assert(string_views(out@) =~= part2 + cpu_lines(mtable@.take(j + 1)));
        }
        j = j + 1;
    }
    proof {
        assert(mtable@.take(mtable@.len() as int) =~= mtable@);
    }
    let ghost part3 = part2 + cpu_lines(
        freq_of(values_upto(lv, lv.len() as int, |l: Seq<char>| cpu_model_value(l))),
    );
    proof {
        assert(string_views(out@) =~= part3);
    }
    // boot line
    if let Some(v) = cmdline_of_x(&lines) {
        let mut l = "  BOOT Line: ".to_owned();
        append_str(&mut l, v.as_str());
        out.push(l);
    }
    out.push("  Memory:".to_owned());
    out.push("      Count     DIMM Information".to_owned());
    let ghost part4 = part3 + opt_line("  BOOT Line: "@, cmdline_of(lv)) + seq![
        "  Memory:"@,
        "      Count     DIMM Information"@,
    ];
    proof {
        assert(string_views(out@) =~= part4);
    }
    // memory modules
    let mut entries: Vec<String> = Vec::new();
    let mut h: usize = 0;
    proof {
        assert(string_views(entries@) =~= dimm_entries_upto(lv, 0));
    }
    while h < lines.len()
        invariant
            0 <= h <= lines@.len(),
            lv == views_of(lines@),
            string_views(entries@) == dimm_entries_upto(lv, h as int),
        decreases lines@.len() - h,
    {
        if let Some(v) = dimm_entry_x(&lines, h) {
            let ghost prev = entries@;
            let ghost vv = v@;
            entries.push(v);
            proof {
                assert(string_views(entries@) =~= string_views(prev).push(vv));
                assert(string_views(entries@) =~= dimm_entries_upto(lv, h + 1));
            }
        } else {
            proof {
                assert(dimm_entries_upto(lv, h + 1) =~= dimm_entries_upto(lv, h as int));
            }
        }
        h = h + 1;
    }
    let dtable = count_occurrences(&entries);
    let mut j2: usize = 0;
    proof {
        assert(dtable@.take(0) =~= Seq::<(Seq<char>, nat)>::empty());
        assert(string_views(out@) =~= part4 + dimm_lines(dtable@.take(0)));
    }
    while j2 < dtable.entries.len()
        invariant
            0 <= j2 <= dtable.entries@.len(),
            dtable@.len() == dtable.entries@.len(),
            string_views(out@) == part4 + dimm_lines(dtable@.take(j2 as int)),
        decreases dtable.entries@.len() - j2,
    {
        let mut ln = "    ".to_owned();
        let cnum = usize_to_string(dtable.entries[j2].1);
        let padded = pad7_x(&cnum);
        append_str(&mut ln, padded.as_str());
        append_str(&mut ln, "     ");
        append_str(&mut ln, dtable.entries[j2].0.as_str());
        proof {
            assert(dtable@[j2 as int] == (dtable.entries@[j2 as int].0@,
            dtable.entries@[j2 as int].1 as nat));
            assert(ln@ == "    "@ + pad7(dec_str(dtable@[j2 as int].1)) + "     "@
                + dtable@[j2 as int].0);
        }
        let ghost prev = out@;
        let ghost lnv = ln@;
        out.push(ln);
        proof {
            assert(string_views(out@) =~= string_views(prev).push(lnv));
            assert(dtable@.take(j2 + 1) =~= dtable@.take(j2 as int).push(dtable@[j2 as int]));
            assert(dimm_lines(dtable@.take(j2 + 1)) =~= dimm_lines(dtable@.take(j2 as int)).push(
                lnv,
            ));
            assert(string_views(out@) =~= part4 + dimm_lines(dtable@.take(j2 + 1)));
        }
        j2 = j2 + 1;
    }
    proof {
        assert(dtable@.take(dtable@.len() as int) =~= dtable@);
    }
    out.push(String::new());
    proof {
        assert(string_views(out@) =~= sys_summary_lines(log@));
    }
    out
}

} // verus!
