//! The GPU inventory section, resolved from one of two known shapes: the
//! management-utility shape (one header line per bus address, UUID found by a
//! bounded forward scan) or, only when no such header exists, the
//! driver-internal shape (one contiguous block per GPU index). This is a
//! priority-ordered fallback, never a merge.

use vstd::prelude::*;
use vstd::string::StrSliceExecFns;
use crate::extract::{first_empty, first_match, values_upto};
use crate::freq::{count_occurrences, freq_of, string_views};
use crate::text::{
    append_str, chars_of, contains_pat, dec_str, find_from, find_from_x, lemma_find_from_bounds,
    lines_of, match_at, match_at_x, run_end, scan_class, split_lines, string_of, subrange_x,
    usize_to_string, views_of, CharClass,
};

verus! {

/// A management-utility GPU header: the whole line is `GPU ` followed by a
/// bus address (hex digits, colons and dots) and optional trailing spaces.
pub open spec fn smi_header(line: Seq<char>) -> Option<Seq<char>> {
    if match_at(line, "GPU "@, 0) {
        let a1 = run_end(CharClass::HexOrColonDot, line, "GPU "@.len() as int);
        if a1 > "GPU "@.len() && run_end(CharClass::Space, line, a1) == line.len() {
            Some(line.subrange("GPU "@.len() as int, a1))
        } else {
            None
        }
    } else {
        None
    }
}

fn smi_header_x(line: &Vec<char>) -> (r: Option<Vec<char>>)
    ensures
        r matches Some(v) ==> smi_header(line@) == Some(v@),
        r is None ==> smi_header(line@) is None,
{
    if match_at_x(line, "GPU ", 0) {
        let ll = line.len();
        let tl = "GPU ".unicode_len();
        assert(tl <= ll);
        let a1 = scan_class(CharClass::HexOrColonDot, line, tl);
        if a1 > tl && scan_class(CharClass::Space, line, a1) == line.len() {
            Some(subrange_x(line, tl, a1))
        } else {
            None
        }
    } else {
        None
    }
}

/// A `GPU UUID : <token>` field.
pub open spec fn uuid_value(line: Seq<char>) -> Option<Seq<char>> {
    match find_from(line, "GPU UUID"@, 0) {
        Some(i) => {
            let p = run_end(CharClass::Space, line, i + "GPU UUID"@.len());
            if p < line.len() && line[p] == ':' {
                let q0 = run_end(CharClass::Space, line, p + 1);
                let q1 = run_end(CharClass::NonSpace, line, q0);
                if q1 > q0 {
                    Some(line.subrange(q0, q1))
                } else {
                    None
                }
            } else {
                None
            }
        },
        None => None,
    }
}

fn uuid_value_x(line: &Vec<char>) -> (r: Option<Vec<char>>)
    ensures
        r matches Some(v) ==> uuid_value(line@) == Some(v@),
        r is None ==> uuid_value(line@) is None,
{
    if let Some(i) = find_from_x(line, "GPU UUID", 0) {
        let ll = line.len();
        proof {
            lemma_find_from_bounds(line@, "GPU UUID"@, 0);
        }
        let tl = "GPU UUID".unicode_len();
        assert(i + tl <= ll);
        let p = scan_class(CharClass::Space, line, i + tl);
        if p < line.len() && line[p] == ':' {
            let q0 = scan_class(CharClass::Space, line, p + 1);
            let q1 = scan_class(CharClass::NonSpace, line, q0);
            if q1 > q0 {
                Some(subrange_x(line, q0, q1))
            } else {
                None
            }
        } else {
            None
        }
    } else {
        None
    }
}

/// A `Bus Location: <token>` field.
pub open spec fn bus_value(line: Seq<char>) -> Option<Seq<char>> {
    match find_from(line, "Bus Location:"@, 0) {
        Some(i) => {
            let q0 = run_end(CharClass::Space, line, i + "Bus Location:"@.len());
            let q1 = run_end(CharClass::NonSpace, line, q0);
            if q1 > q0 {
                Some(line.subrange(q0, q1))
            } else {
                None
            }
        },
        None => None,
    }
}

fn bus_value_x(line: &Vec<char>) -> (r: Option<Vec<char>>)
    ensures
        r matches Some(v) ==> bus_value(line@) == Some(v@),
        r is None ==> bus_value(line@) is None,
{
    if let Some(i) = find_from_x(line, "Bus Location:", 0) {
        let ll = line.len();
        proof {
            lemma_find_from_bounds(line@, "Bus Location:"@, 0);
        }
        let tl = "Bus Location:".unicode_len();
        assert(i + tl <= ll);
        let q0 = scan_class(CharClass::Space, line, i + tl);
        let q1 = scan_class(CharClass::NonSpace, line, q0);
        if q1 > q0 {
            Some(subrange_x(line, q0, q1))
        } else {
            None
        }
    } else {
        None
    }
}

/// A `Model: <rest of line>` field, leading spaces dropped, nonempty.
pub open spec fn gpu_model_value(line: Seq<char>) -> Option<Seq<char>> {
    match find_from(line, "Model:"@, 0) {
        Some(i) => {
            let v0 = run_end(CharClass::Space, line, i + "Model:"@.len());
            if v0 < line.len() {
                Some(line.skip(v0))
            } else {
                None
            }
        },
        None => None,
    }
}

/// A `Subsystem: <rest of line>` field, leading spaces dropped, nonempty.
pub open spec fn subsystem_value(line: Seq<char>) -> Option<Seq<char>> {
    match find_from(line, "Subsystem:"@, 0) {
        Some(i) => {
            let v0 = run_end(CharClass::Space, line, i + "Subsystem:"@.len());
            if v0 < line.len() {
                Some(line.skip(v0))
            } else {
                None
            }
        },
        None => None,
    }
}

fn rest_value_x(line: &Vec<char>, tok: &str) -> (r: Option<Vec<char>>)
    ensures
        ({
            let s = match find_from(line@, tok@, 0) {
                Some(i) => {
                    let v0 = run_end(CharClass::Space, line@, i + tok@.len());
                    if v0 < line@.len() {
                        Some(line@.skip(v0))
                    } else {
                        None
                    }
                },
                None => None,
            };
            match r {
                Some(v) => s == Some(v@),
                None => s is None,
            }
        }),
{
    if let Some(i) = find_from_x(line, tok, 0) {
        let ll = line.len();
        proof {
            lemma_find_from_bounds(line@, tok@, 0);
        }
        let tl = tok.unicode_len();
        assert(i + tl <= ll);
        let v0 = scan_class(CharClass::Space, line, i + tl);
        if v0 < line.len() {
            let v = subrange_x(line, v0, line.len());
            proof {
                assert(line@.subrange(v0 as int, line@.len() as int) =~= line@.skip(v0 as int));
            }
            Some(v)
        } else {
            None
        }
    } else {
        None
    }
}

/// The header bus addresses of the first `n` lines.
pub open spec fn smi_headers_upto(lines: Seq<Seq<char>>, n: int) -> Seq<Seq<char>>
    decreases n,
{
    if n <= 0 {
        Seq::empty()
    } else {
        match smi_header(lines[n - 1]) {
            Some(v) => smi_headers_upto(lines, n - 1).push(v),
            None => smi_headers_upto(lines, n - 1),
        }
    }
}

/// First line at or after `j` containing the text.
pub open spec fn first_containing_seq(lines: Seq<Seq<char>>, j: int, pat: Seq<char>) -> Option<int>
    decreases lines.len() - j,
{
    if j < 0 || j >= lines.len() {
        None
    } else if contains_pat(lines[j], pat) {
        Some(j)
    } else {
        first_containing_seq(lines, j + 1, pat)
    }
}

/// First UUID field in the window `[j, b)`.
pub open spec fn first_uuid_in(lines: Seq<Seq<char>>, j: int, b: int) -> Option<Seq<char>>
    decreases b - j,
{
    if j < 0 || j >= b || j >= lines.len() {
        None
    } else {
        match uuid_value(lines[j]) {
            Some(v) => Some(v),
            None => first_uuid_in(lines, j + 1, b),
        }
    }
}

/// The inventory line of one management-utility header: its bus address and
/// the UUID found within 30 lines of the header's first mention, `N/A` when
/// the window has none.
pub open spec fn smi_line_for(lines: Seq<Seq<char>>, addr: Seq<char>) -> Seq<Seq<char>> {
    match first_containing_seq(lines, 0, "GPU "@ + addr) {
        Some(idx) => {
            let b = if idx + 30 <= lines.len() {
                idx + 30
            } else {
                lines.len() as int
            };
            match first_uuid_in(lines, idx, b) {
                Some(u) => seq![addr + " "@ + u],
                None => seq![addr + " N/A"@],
            }
        },
        None => Seq::empty(),
    }
}

/// The management-utility section: one line per header, in order.
pub open spec fn smi_section(lines: Seq<Seq<char>>, hs: Seq<Seq<char>>) -> Seq<Seq<char>>
    decreases hs.len(),
{
    if hs.len() == 0 {
        Seq::empty()
    } else {
        smi_section(lines, hs.drop_last()) + smi_line_for(lines, hs.last())
    }
}

/// The block entry of a driver-internal `GPU <n>:` header at line `h`: its
/// bus location and UUID, each `N/A` when absent, provided the block has its
/// blank-line terminator.
pub open spec fn gpu_block_entry(lines: Seq<Seq<char>>, h: int) -> Option<Seq<char>>
    recommends
        0 <= h < lines.len(),
{
    match gpu_block_header(lines[h]) {
        Some(p) => match first_empty(lines, h + 1) {
            Some(e) => {
                let bl = seq![lines[h].skip(p)] + lines.subrange(h + 1, e);
                let uuid = match first_match(bl, 0, |l: Seq<char>| uuid_value(l)) {
                    Some(u) => u,
                    None => "N/A"@,
                };
                let bus = match first_match(bl, 0, |l: Seq<char>| bus_value(l)) {
                    Some(b) => b,
                    None => "N/A"@,
                };
                Some(bus + " "@ + uuid)
            },
            None => None,
        },
        None => None,
    }
}

/// A driver-internal block header: `GPU `, an index, a colon; the block body
/// starts after the colon.
pub open spec fn gpu_block_header(line: Seq<char>) -> Option<int> {
    match find_from(line, "GPU "@, 0) {
        Some(i) => {
            let d1 = run_end(CharClass::Digit, line, i + "GPU "@.len());
            if d1 > i + "GPU "@.len() && d1 < line.len() && line[d1] == ':' {
                Some(d1 + 1)
            } else {
                None
            }
        },
        None => None,
    }
}

/// The driver-internal entries of the first `n` lines.
pub open spec fn gpu_block_entries_upto(lines: Seq<Seq<char>>, n: int) -> Seq<Seq<char>>
    decreases n,
{
    if n <= 0 {
        Seq::empty()
    } else {
        match gpu_block_entry(lines, n - 1) {
            Some(v) => gpu_block_entries_upto(lines, n - 1).push(v),
            None => gpu_block_entries_upto(lines, n - 1),
        }
    }
}

/// One listing line per distinct model.
pub open spec fn model_lines(t: Seq<(Seq<char>, nat)>) -> Seq<Seq<char>> {
    t.map_values(|e: (Seq<char>, nat)| "    "@ + dec_str(e.1) + " "@ + e.0)
}

/// One listing line per distinct subsystem.
pub open spec fn subsystem_lines(t: Seq<(Seq<char>, nat)>) -> Seq<Seq<char>> {
    t.map_values(|e: (Seq<char>, nat)| "    "@ + dec_str(e.1) + "     Subsystem: "@ + e.0)
}

/// The GPU inventory: management-utility headers take priority; only a
/// document with none at all falls back to driver-internal blocks. Model and
/// subsystem counts follow either way.
pub open spec fn gpu_summary_lines(doc: Seq<char>) -> Seq<Seq<char>> {
    let lines = lines_of(doc);
    let hs = smi_headers_upto(lines, lines.len() as int);
    seq!["Summary of PCI Addresses and GPUs"@] + (if hs.len() > 0 {
        smi_section(lines, hs)
    } else {
        gpu_block_entries_upto(lines, lines.len() as int)
    }) + seq![Seq::<char>::empty(), "GPUs:"@] + model_lines(
        freq_of(values_upto(lines, lines.len() as int, |l: Seq<char>| gpu_model_value(l))),
    ) + subsystem_lines(
        freq_of(values_upto(lines, lines.len() as int, |l: Seq<char>| subsystem_value(l))),
    ) + seq![Seq::<char>::empty()]
}

fn collect_values(lines: &Vec<Vec<char>>, which: bool) -> (r: Vec<String>)
    ensures
        which ==> string_views(r@) == values_upto(
            views_of(lines@),
            views_of(lines@).len() as int,
            |l: Seq<char>| gpu_model_value(l),
        ),
        !which ==> string_views(r@) == values_upto(
            views_of(lines@),
            views_of(lines@).len() as int,
            |l: Seq<char>| subsystem_value(l),
        ),
{
    let ghost lv = views_of(lines@);
    let ghost f = if which {
        |l: Seq<char>| gpu_model_value(l)
    } else {
        |l: Seq<char>| subsystem_value(l)
    };
    let mut r: Vec<String> = Vec::new();
    let mut j: usize = 0;
    proof {
        assert(string_views(r@) =~= values_upto(lv, 0, f));
    }
    while j < lines.len()
        invariant
            0 <= j <= lines@.len(),
            lv == views_of(lines@),
            string_views(r@) == values_upto(lv, j as int, f),
            which ==> f == (|l: Seq<char>| gpu_model_value(l)),
            !which ==> f == (|l: Seq<char>| subsystem_value(l)),
        decreases lines@.len() - j,
    {
        proof {
            assert(lv[j as int] == lines@[j as int]@);
        }
        let v = if which {
            rest_value_x(&lines[j], "Model:")
        } else {
            rest_value_x(&lines[j], "Subsystem:")
        };
        if let Some(vv) = v {
            let ghost prev = r@;
            r.push(string_of(&vv));
            proof {
                assert(f(lv[j as int]) == Some(vv@));
                assert(string_views(r@) =~= string_views(prev).push(vv@));
                assert(string_views(r@) =~= values_upto(lv, j + 1, f));
            }
        } else {
            proof {
                assert(f(lv[j as int]) is None);
                assert(values_upto(lv, j + 1, f) =~= values_upto(lv, j as int, f));
            }
        }
        j = j + 1;
    }
    r
}

fn gpu_block_entry_x(lines: &Vec<Vec<char>>, h: usize) -> (r: Option<String>)
    requires
        h < lines@.len(),
    ensures
        r matches Some(v) ==> gpu_block_entry(views_of(lines@), h as int) == Some(v@),
        r is None ==> gpu_block_entry(views_of(lines@), h as int) is None,
{
    let ghost lv = views_of(lines@);
    proof {
        assert(lv[h as int] == lines@[h as int]@);
    }
    let line = &lines[h];
    let i = match find_from_x(line, "GPU ", 0) {
        Some(i) => i,
        None => {
            return None;
        },
    };
    let ll = line.len();
    proof {
        lemma_find_from_bounds(line@, "GPU "@, 0);
    }
    let tl = "GPU ".unicode_len();
    assert(i + tl <= ll);
    let d1 = scan_class(CharClass::Digit, line, i + tl);
    if !(d1 > i + tl && d1 < line.len() && line[d1] == ':') {
        return None;
    }
    let p = d1 + 1;
    // block terminator
    let n = lines.len();
    let mut e = h + 1;
    while e < n && lines[e].len() > 0
        invariant
            h + 1 <= e <= n,
            n == lines@.len(),
            lv == views_of(lines@),
            first_empty(lv, h + 1) == first_empty(lv, e as int),
        decreases n - e,
    {
        proof {
            assert(lv[e as int] == lines@[e as int]@);
        }
        e = e + 1;
    }
    if e >= n {
        return None;
    }
    proof {
        assert(lv[e as int] == lines@[e as int]@);
        assert(first_empty(lv, h + 1) == Some(e as int));
    }
    // the block's lines
    let mut bl: Vec<Vec<char>> = Vec::new();
    bl.push(subrange_x(line, p, line.len()));
    proof {
        assert(line@.subrange(p as int, line@.len() as int) =~= line@.skip(p as int));
        assert(lv.subrange(h + 1, h + 1 as int) =~= Seq::<Seq<char>>::empty());
        assert(views_of(bl@) =~= seq![lv[h as int].skip(p as int)] + lv.subrange(h + 1, h + 1));
    }
    let mut k = h + 1;
    while k < e
        invariant
            h + 1 <= k <= e,
            e < lines@.len(),
            lv == views_of(lines@),
            p <= lv[h as int].len(),
            views_of(bl@) == seq![lv[h as int].skip(p as int)] + lv.subrange(h + 1, k as int),
        decreases e - k,
    {
        proof {
            assert(lv[k as int] == lines@[k as int]@);
        }
        let ghost prev = bl@;
        bl.push(subrange_x(&lines[k], 0, lines[k].len()));
        proof {
            assert(lines@[k as int]@.subrange(0, lines@[k as int]@.len() as int) =~= lv[k as int]);
            assert(views_of(bl@) =~= views_of(prev).push(lv[k as int]));
            assert(lv.subrange(h + 1, k + 1) =~= lv.subrange(h + 1, k as int).push(lv[k as int]));
            assert(views_of(bl@) =~= seq![lv[h as int].skip(p as int)] + lv.subrange(h + 1, k + 1));
        }
        k = k + 1;
    }
    let ghost blv = views_of(bl@);
    // first UUID and bus location in the block
    let ghost fu = |l: Seq<char>| uuid_value(l);
    let ghost fb = |l: Seq<char>| bus_value(l);
    let mut uuid: Option<Vec<char>> = None;
    let mut m: usize = 0;
    while m < bl.len() && uuid.is_none()
        invariant
            0 <= m <= bl@.len(),
            blv == views_of(bl@),
            fu == (|l: Seq<char>| uuid_value(l)),
            uuid is None ==> first_match(blv, 0, fu) == first_match(blv, m as int, fu),
            uuid matches Some(u) ==> first_match(blv, 0, fu) == Some(u@),
        decreases bl@.len() - m,
    {
        proof {
            assert(blv[m as int] == bl@[m as int]@);
        }
        if let Some(u) = uuid_value_x(&bl[m]) {
            uuid = Some(u);
        }
        m = m + 1;
    }
    let mut bus: Option<Vec<char>> = None;
    let mut m2: usize = 0;
    while m2 < bl.len() && bus.is_none()
        invariant
            0 <= m2 <= bl@.len(),
            blv == views_of(bl@),
            fb == (|l: Seq<char>| bus_value(l)),
            bus is None ==> first_match(blv, 0, fb) == first_match(blv, m2 as int, fb),
            bus matches Some(u) ==> first_match(blv, 0, fb) == Some(u@),
        decreases bl@.len() - m2,
    {
        proof {
            assert(blv[m2 as int] == bl@[m2 as int]@);
        }
        if let Some(u) = bus_value_x(&bl[m2]) {
            bus = Some(u);
        }
        m2 = m2 + 1;
    }
    let mut s = String::new();
    match bus {
        Some(b) => {
            let bs = string_of(&b);
            append_str(&mut s, bs.as_str());
        },
        None => {
            append_str(&mut s, "N/A");
            proof {
                reveal_strlit("N/A");
            }
        },
    }
    append_str(&mut s, " ");
    match uuid {
        Some(u) => {
            let us = string_of(&u);
            append_str(&mut s, us.as_str());
        },
        None => {
            append_str(&mut s, "N/A");
            proof {
                reveal_strlit("N/A");
            }
        },
    }
    proof {
        assert(s@ =~= gpu_block_entry(lv, h as int)->Some_0);
    }
    Some(s)
}

/// Render the GPU inventory of a raw document: probe for management-utility
/// headers first; only when none exist fall back to driver-internal blocks.
#[verifier::rlimit(60)]
pub fn gpu_summary(log: &str) -> (r: Vec<String>)
    ensures
        string_views(r@) == gpu_summary_lines(log@),
{
    let lines = split_lines(log);
    let ghost lv = views_of(lines@);
    let mut out: Vec<String> = Vec::new();
    out.push("Summary of PCI Addresses and GPUs".to_owned());
    let ghost part0 = seq!["Summary of PCI Addresses and GPUs"@];
    proof {
        assert(string_views(out@) =~= part0);
    }
    // probe for management-utility headers
    let mut headers: Vec<Vec<char>> = Vec::new();
    let mut j: usize = 0;
    proof {
        assert(views_of(headers@) =~= smi_headers_upto(lv, 0));
    }
    while j < lines.len()
        invariant
            0 <= j <= lines@.len(),
            lv == views_of(lines@),
            views_of(headers@) == smi_headers_upto(lv, j as int),
        decreases lines@.len() - j,
    {
        proof {
            assert(lv[j as int] == lines@[j as int]@);
        }
        if let Some(v) = smi_header_x(&lines[j]) {
            let ghost prev = headers@;
            let ghost vv = v@;
            headers.push(v);
            proof {
                assert(views_of(headers@) =~= views_of(prev).push(vv));
                assert(views_of(headers@) =~= smi_headers_upto(lv, j + 1));
            }
        } else {
            proof {
                assert(smi_headers_upto(lv, j + 1) =~= smi_headers_upto(lv, j as int));
            }
        }
        j = j + 1;
    }
    let ghost hs = smi_headers_upto(lv, lv.len() as int);
    proof {
        assert(views_of(headers@) == hs);
    }
    if headers.len() > 0 {
        // management-utility path
        let mut hi: usize = 0;
        proof {
            assert(hs.take(0) =~= Seq::<Seq<char>>::empty());
            assert(string_views(out@) =~= part0 + smi_section(lv, hs.take(0)));
        }
        while hi < headers.len()
            invariant
                0 <= hi <= headers@.len(),
                lv == views_of(lines@),
                views_of(headers@) == hs,
                headers@.len() == hs.len(),
                string_views(out@) == part0 + smi_section(lv, hs.take(hi as int)),
            decreases headers@.len() - hi,
        {
            proof {
                assert(hs[hi as int] == headers@[hi as int]@);
                assert(hs.take(hi + 1).drop_last() =~= hs.take(hi as int));
                assert(hs.take(hi + 1).last() == hs[hi as int]);
            }
            let addr = &headers[hi];
            // the search text `GPU <addr>`
            let mut pat: Vec<char> = chars_of("GPU ");
            let mut ai: usize = 0;
            while ai < addr.len()
                invariant
                    0 <= ai <= addr@.len(),
                    pat@ == "GPU "@ + addr@.take(ai as int),
                decreases addr@.len() - ai,
            {
                pat.push(addr[ai]);
                proof {
                    assert("GPU "@ + addr@.take(ai + 1) =~= ("GPU "@ + addr@.take(ai as int)).push(
                        addr@[ai as int],
                    ));
                }
                ai = ai + 1;
            }
            proof {
                assert(addr@.take(addr@.len() as int) =~= addr@);
                assert(pat@ == "GPU "@ + addr@);
            }
            // first line mentioning the header text
            let mut li: usize = 0;
            let mut found: Option<usize> = None;
            while li < lines.len() && found.is_none()
                invariant
                    0 <= li <= lines@.len(),
                    lv == views_of(lines@),
                    pat@ == "GPU "@ + addr@,
                    found is None ==> first_containing_seq(lv, 0, "GPU "@ + addr@)
                        == first_containing_seq(lv, li as int, "GPU "@ + addr@),
                    found matches Some(x) ==> first_containing_seq(lv, 0, "GPU "@ + addr@) == Some(
                        x as int,
                    ) && x < lines@.len(),
                decreases lines@.len() - li,
            {
                proof {
                    assert(lv[li as int] == lines@[li as int]@);
                }
                if crate::text::contains_vx(&lines[li], &pat) {
                    found = Some(li);
                }
                li = li + 1;
            }
            match found {
                Some(idx) => {
                    // bounded forward scan for the UUID
                    let b = if lines.len() >= 30 && idx <= lines.len() - 30 {
                        idx + 30
                    } else {
                        lines.len()
                    };
                    let mut ui = idx;
                    let mut uuid: Option<Vec<char>> = None;
                    while ui < b && uuid.is_none()
                        invariant
                            idx <= ui <= b <= lines@.len(),
                            lv == views_of(lines@),
                            uuid is None ==> first_uuid_in(lv, idx as int, b as int)
                                == first_uuid_in(lv, ui as int, b as int),
                            uuid matches Some(u) ==> first_uuid_in(lv, idx as int, b as int)
                                == Some(u@),
                        decreases b - ui,
                    {
                        proof {
                            assert(lv[ui as int] == lines@[ui as int]@);
                        }
                        if let Some(u) = uuid_value_x(&lines[ui]) {
                            uuid = Some(u);
                        }
                        ui = ui + 1;
                    }
                    let mut ln = string_of(addr);
                    match uuid {
                        Some(u) => {
                            append_str(&mut ln, " ");
                            let us = string_of(&u);
                            append_str(&mut ln, us.as_str());
                        },
                        None => {
                            append_str(&mut ln, " N/A");
                        },
                    }
                    proof {
                        assert(ln@ =~= smi_line_for(lv, hs[hi as int])[0]);
                        assert(smi_line_for(lv, hs[hi as int]) =~= seq![ln@]);
                    }
                    let ghost prev = out@;
                    let ghost lnv = ln@;
                    out.push(ln);
                    proof {
                        assert(string_views(out@) =~= string_views(prev).push(lnv));
                        assert(string_views(out@) =~= part0 + smi_section(lv, hs.take(hi + 1)));
                    }
                },
                None => {
                    proof {
                        assert(smi_line_for(lv, hs[hi as int]) =~= Seq::<Seq<char>>::empty());
                        assert(string_views(out@) =~= part0 + smi_section(lv, hs.take(hi + 1)));
                    }
                },
            }
            hi = hi + 1;
        }
        proof {
            assert(hs.take(hs.len() as int) =~= hs);
        }
    } else {
        // driver-internal fallback
        let mut h: usize = 0;
        proof {
            assert(string_views(out@) =~= part0 + gpu_block_entries_upto(lv, 0));
        }
        while h < lines.len()
            invariant
                0 <= h <= lines@.len(),
                lv == views_of(lines@),
                string_views(out@) == part0 + gpu_block_entries_upto(lv, h as int),
            decreases lines@.len() - h,
        {
            if let Some(v) = gpu_block_entry_x(&lines, h) {
                let ghost prev = out@;
                let ghost vv = v@;
                out.push(v);
                proof {
                    assert(string_views(out@) =~= string_views(prev).push(vv));
                    assert(string_views(out@) =~= part0 + gpu_block_entries_upto(lv, h + 1));
                }
            } else {
                proof {
                    assert(gpu_block_entries_upto(lv, h + 1) =~= gpu_block_entries_upto(
                        lv,
                        h as int,
                    ));
                }
            }
            h = h + 1;
        }
    }
    let ghost part1 = part0 + (if hs.len() > 0 {
        smi_section(lv, hs)
    } else {
        gpu_block_entries_upto(lv, lv.len() as int)
    });
    proof {
        assert(string_views(out@) =~= part1);
    }
    out.push(String::new());
    out.push("GPUs:".to_owned());
    let ghost part2 = part1 + seq![Seq::<char>::empty(), "GPUs:"@];
    proof {
        assert(string_views(out@) =~= part2);
    }
    // model counts
    let models = collect_values(&lines, true);
    let mtable = count_occurrences(&models);
    let mut q: usize = 0;
    proof {
        assert(mtable@.take(0) =~= Seq::<(Seq<char>, nat)>::empty());
        assert(string_views(out@) =~= part2 + model_lines(mtable@.take(0)));
    }
    while q < mtable.entries.len()
        invariant
            0 <= q <= mtable.entries@.len(),
            mtable@.len() == mtable.entries@.len(),
            string_views(out@) == part2 + model_lines(mtable@.take(q as int)),
        decreases mtable.entries@.len() - q,
    {
        let mut ln = "    ".to_owned();
        let cnum = usize_to_string(mtable.entries[q].1);
        append_str(&mut ln, cnum.as_str());
        append_str(&mut ln, " ");
        append_str(&mut ln, mtable.entries[q].0.as_str());
        proof {
            assert(mtable@[q as int] == (mtable.entries@[q as int].0@, mtable.entries@[q as int].1
                as nat));
            assert(ln@ == "    "@ + dec_str(mtable@[q as int].1) + " "@ + mtable@[q as int].0);
        }
        let ghost prev = out@;
        let ghost lnv = ln@;
        out.push(ln);
        proof {
            assert(string_views(out@) =~= string_views(prev).push(lnv));
            assert(mtable@.take(q + 1) =~= mtable@.take(q as int).push(mtable@[q as int]));
            assert(model_lines(mtable@.take(q + 1)) =~= model_lines(mtable@.take(q as int)).push(
                lnv,
            ));
            assert(string_views(out@) =~= part2 + model_lines(mtable@.take(q + 1)));
        }
        q = q + 1;
    }
    proof {
        assert(mtable@.take(mtable@.len() as int) =~= mtable@);
    }
    let ghost part3 = part2 + model_lines(
        freq_of(values_upto(lv, lv.len() as int, |l: Seq<char>| gpu_model_value(l))),
    );
    proof {
        assert(string_views(out@) =~= part3);
    }
    // subsystem counts
    let subs = collect_values(&lines, false);
    let stable = count_occurrences(&subs);
    let mut q2: usize = 0;
    proof {
        assert(stable@.take(0) =~= Seq::<(Seq<char>, nat)>::empty());
        assert(string_views(out@) =~= part3 + subsystem_lines(stable@.take(0)));
    }
    while q2 < stable.entries.len()
        invariant
            0 <= q2 <= stable.entries@.len(),
            stable@.len() == stable.entries@.len(),
            string_views(out@) == part3 + subsystem_lines(stable@.take(q2 as int)),
        decreases stable.entries@.len() - q2,
    {
        let mut ln = "    ".to_owned();
        let cnum = usize_to_string(stable.entries[q2].1);
        append_str(&mut ln, cnum.as_str());
        append_str(&mut ln, "     Subsystem: ");
        append_str(&mut ln, stable.entries[q2].0.as_str());
        proof {
            assert(stable@[q2 as int] == (stable.entries@[q2 as int].0@,
            stable.entries@[q2 as int].1 as nat));
            assert(ln@ == "    "@ + dec_str(stable@[q2 as int].1) + "     Subsystem: "@
                + stable@[q2 as int].0);
        }
        let ghost prev = out@;
        let ghost lnv = ln@;
        out.push(ln);
        proof {
            assert(string_views(out@) =~= string_views(prev).push(lnv));
            assert(stable@.take(q2 + 1) =~= stable@.take(q2 as int).push(stable@[q2 as int]));
            assert(subsystem_lines(stable@.take(q2 + 1)) =~= subsystem_lines(
                stable@.take(q2 as int),
            ).push(lnv));
            assert(string_views(out@) =~= part3 + subsystem_lines(stable@.take(q2 + 1)));
        }
        q2 = q2 + 1;
    }
    proof {
        assert(stable@.take(stable@.len() as int) =~= stable@);
    }
    out.push(String::new());
    proof {
        assert(string_views(out@) =~= gpu_summary_lines(log@));
    }
    out
}

} // verus!
