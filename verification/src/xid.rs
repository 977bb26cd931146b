//! The Xid error detector: kernel Xid lines are counted and aggregated, and
//! the distinct numeric codes are resolved against a lookup table loaded from
//! an external two-column source. A code missing from the table degrades to a
//! fixed fallback text, never an error.

use vstd::prelude::*;
use vstd::string::StrSliceExecFns;
use crate::detect::{freq_lines, trim_all, Finding};
use crate::freq::{count_occurrences, dedup_of, dedup_strings, freq_of, string_views};
use crate::text::{
    append_str, dec_str, find_from, find_from_x, lemma_find_from_bounds, lines_of, match_at,
    match_at_x, run_end, scan_class, split_lines, string_of, subrange_x, trim_x, trimmed,
    usize_to_string, views_of, CharClass,
};

verus! {

/// The code-to-description table, as (code, description) rows in file order.
/// A code repeated in the source keeps its last description.
pub struct XidTable {
    pub entries: Vec<(String, String)>,
}

impl View for XidTable {
    type V = Seq<(Seq<char>, Seq<char>)>;

    open spec fn view(&self) -> Seq<(Seq<char>, Seq<char>)> {
        self.entries@.map_values(|e: (String, String)| (e.0@, e.1@))
    }
}

/// The description paired with a code: the last row holding the code wins.
pub open spec fn lookup_spec(t: Seq<(Seq<char>, Seq<char>)>, code: Seq<char>) -> Option<Seq<char>>
    decreases t.len(),
{
    if t.len() == 0 {
        None
    } else if t.last().0 == code {
        Some(t.last().1)
    } else {
        lookup_spec(t.drop_last(), code)
    }
}

impl XidTable {
    /// Build the table from rows handed in by the loader.
    pub fn new(entries: Vec<(String, String)>) -> (t: XidTable)
        ensures
            t@ == entries@.map_values(|e: (String, String)| (e.0@, e.1@)),
    {
        XidTable { entries }
    }

    /// Resolve a code: its exact paired description when present, nothing
    /// when absent.
    pub fn lookup(&self, code: &String) -> (r: Option<String>)
        ensures
            r matches Some(d) ==> lookup_spec(self@, code@) == Some(d@),
            r is None ==> lookup_spec(self@, code@) is None,
    {
        let mut i = self.entries.len();
        proof {
            assert(self@.take(i as int) =~= self@);
        }
        while i > 0
            invariant
                0 <= i <= self.entries@.len(),
                self@.len() == self.entries@.len(),
                lookup_spec(self@, code@) == lookup_spec(self@.take(i as int), code@),
            decreases i,
        {
            i = i - 1;
            proof {
                assert(self@.take(i + 1).drop_last() =~= self@.take(i as int));
                assert(self@.take(i + 1).last() == self@[i as int]);
                assert(self@[i as int] == (self.entries@[i as int].0@, self.entries@[i as int].1@));
            }
            if self.entries[i].0 == *code {
                return Some(self.entries[i].1.clone());
            }
        }
        proof {
            assert(self@.take(0) =~= Seq::<(Seq<char>, Seq<char>)>::empty());
        }
        None
    }
}

/// A kernel Xid error line: the whole match (to the end of the line) and the
/// numeric code it carries.
pub open spec fn xid_match(line: Seq<char>) -> Option<(Seq<char>, Seq<char>)> {
    match find_from(line, "kernel: NVRM: Xid (PCI: "@, 0) {
        Some(a) => {
            let p0 = a + "kernel: NVRM: Xid (PCI: "@.len();
            let q = run_end(CharClass::NonRparen, line, p0);
            if q > p0 && match_at(line, "): "@, q) {
                let d0 = q + "): "@.len();
                let d1 = run_end(CharClass::Digit, line, d0);
                if d1 > d0 && match_at(line, ", "@, d1) && d1 + ", "@.len() < line.len() {
                    Some((line.skip(a), line.subrange(d0, d1)))
                } else {
                    None
                }
            } else {
                None
            }
        },
        None => None,
    }
}

fn xid_match_x(line: &Vec<char>) -> (r: Option<(Vec<char>, Vec<char>)>)
    ensures
        r matches Some(m) ==> xid_match(line@) == Some((m.0@, m.1@)),
        r is None ==> xid_match(line@) is None,
{
    if let Some(a) = find_from_x(line, "kernel: NVRM: Xid (PCI: ", 0) {
        let llen = line.len();
        proof {
            lemma_find_from_bounds(line@, "kernel: NVRM: Xid (PCI: "@, 0);
        }
        let tl = "kernel: NVRM: Xid (PCI: ".unicode_len();
        assert(a + tl <= llen);
        let p0 = a + tl;
        let q = scan_class(CharClass::NonRparen, line, p0);
        if q > p0 && match_at_x(line, "): ", q) {
            let ml = "): ".unicode_len();
            assert(q + ml <= llen);
            let d0 = q + ml;
            let d1 = scan_class(CharClass::Digit, line, d0);
            if d1 > d0 && match_at_x(line, ", ", d1) {
                let cl = ", ".unicode_len();
                assert(d1 + cl <= llen);
                if d1 + cl < llen {
                    let full = subrange_x(line, a, line.len());
                    let code = subrange_x(line, d0, d1);
                    proof {
                        assert(line@.subrange(a as int, line@.len() as int) =~= line@.skip(a as int));
                    }
                    Some((full, code))
                } else {
                    None
                }
            } else {
                None
            }
        } else {
            None
        }
    } else {
        None
    }
}

/// The Xid matches of the first `n` lines, in order.
pub open spec fn xid_matches_upto(lines: Seq<Seq<char>>, n: int) -> Seq<(Seq<char>, Seq<char>)>
    decreases n,
{
    if n <= 0 {
        Seq::empty()
    } else {
        match xid_match(lines[n - 1]) {
            Some(m) => xid_matches_upto(lines, n - 1).push(m),
            None => xid_matches_upto(lines, n - 1),
        }
    }
}

/// All Xid matches of a document.
pub open spec fn doc_xid_matches(doc: Seq<char>) -> Seq<(Seq<char>, Seq<char>)> {
    xid_matches_upto(lines_of(doc), lines_of(doc).len() as int)
}

/// The full matched texts.
pub open spec fn xid_fulls(ms: Seq<(Seq<char>, Seq<char>)>) -> Seq<Seq<char>> {
    ms.map_values(|m: (Seq<char>, Seq<char>)| m.0)
}

/// The numeric codes, with repetitions.
pub open spec fn xid_codes(ms: Seq<(Seq<char>, Seq<char>)>) -> Seq<Seq<char>> {
    ms.map_values(|m: (Seq<char>, Seq<char>)| m.1)
}

/// One resolution line per distinct code: the table's description, or the
/// fixed fallback when the table lacks the code.
pub open spec fn resolution_lines(
    cs: Seq<Seq<char>>,
    t: Seq<(Seq<char>, Seq<char>)>,
) -> Seq<Seq<char>> {
    cs.map_values(
        |c: Seq<char>|
            match lookup_spec(t, c) {
                Some(d) => "   "@ + c + " - "@ + d,
                None => "   "@ + c + " - No description found in CSV."@,
            },
    )
}

/// The Xid section: the count, a frequency listing of the trimmed matched
/// lines, and the distinct codes resolved against the table, each exactly
/// once, in first-seen order.
pub open spec fn xid_report_lines(
    ms: Seq<(Seq<char>, Seq<char>)>,
    t: Seq<(Seq<char>, Seq<char>)>,
) -> Seq<Seq<char>> {
    if ms.len() == 0 {
        seq!["No Xid errors found"@]
    } else {
        seq![
            Seq::<char>::empty(),
            "Summary of Xid errors: "@ + dec_str(ms.len() as nat),
            " Definitions: https://docs.nvidia.com/deploy/xid-errors/index.html"@,
        ] + freq_lines(freq_of(trim_all(xid_fulls(ms)))) + seq![
            Seq::<char>::empty(),
            "Summary of error descriptions:"@,
        ] + resolution_lines(dedup_of(xid_codes(ms)), t)
    }
}

/// Match every kernel Xid error line: the finding count is the number of
/// matched lines (not of distinct codes); the report aggregates repeated
/// lines and resolves each distinct code once.
pub fn check_xid_errors(log: &str, table: &XidTable) -> (f: Finding)
    ensures
        f.count as nat == doc_xid_matches(log@).len(),
        string_views(f.lines@) == xid_report_lines(doc_xid_matches(log@), table@),
        doc_xid_matches(log@).len() == 0 ==> f.count == 0 && string_views(f.lines@) == seq![
            "No Xid errors found"@,
        ],
{
    let lines = split_lines(log);
    let ghost ms = doc_xid_matches(log@);
    // collect matches
    let mut fulls: Vec<Vec<char>> = Vec::new();
    let mut codes: Vec<Vec<char>> = Vec::new();
    let mut i: usize = 0;
    proof {
        assert(views_of(fulls@) =~= xid_fulls(xid_matches_upto(views_of(lines@), 0)));
        assert(views_of(codes@) =~= xid_codes(xid_matches_upto(views_of(lines@), 0)));
    }
    while i < lines.len()
        invariant
            0 <= i <= lines@.len(),
            views_of(fulls@) == xid_fulls(xid_matches_upto(views_of(lines@), i as int)),
            views_of(codes@) == xid_codes(xid_matches_upto(views_of(lines@), i as int)),
            fulls@.len() == xid_matches_upto(views_of(lines@), i as int).len(),
        decreases lines@.len() - i,
    {
        proof {
            assert(views_of(lines@)[i as int] == lines@[i as int]@);
        }
        if let Some(m) = xid_match_x(&lines[i]) {
            let ghost pf = fulls@;
            let ghost pc = codes@;
            let (full, code) = m;
            fulls.push(full);
            codes.push(code);
            proof {
                let old_up = xid_matches_upto(views_of(lines@), i as int);
                let sm = xid_match(lines@[i as int]@)->Some_0;
                assert(xid_matches_upto(views_of(lines@), i + 1) =~= old_up.push(sm));
                assert(views_of(fulls@) =~= views_of(pf).push(sm.0));
                assert(views_of(codes@) =~= views_of(pc).push(sm.1));
                assert(xid_fulls(old_up.push(sm)) =~= xid_fulls(old_up).push(sm.0));
                assert(xid_codes(old_up.push(sm)) =~= xid_codes(old_up).push(sm.1));
            }
        } else {
            proof {
                assert(xid_matches_upto(views_of(lines@), i + 1) =~= xid_matches_upto(
                    views_of(lines@),
                    i as int,
                ));
            }
        }
        i = i + 1;
    }
    proof {
        assert(views_of(lines@) == lines_of(log@));
        assert(views_of(fulls@) == xid_fulls(ms));
        assert(views_of(codes@) == xid_codes(ms));
        assert(fulls@.len() == ms.len());
    }
    if fulls.len() == 0 {
        let mut out: Vec<String> = Vec::new();
        out.push("No Xid errors found".to_owned());
        proof {
            assert(string_views(out@) =~= seq!["No Xid errors found"@]);
        }
        return Finding { count: 0, lines: out };
    }
    let mut out: Vec<String> = Vec::new();
    out.push(String::new());
    let mut h = "Summary of Xid errors: ".to_owned();
    let num = usize_to_string(fulls.len());
    append_str(&mut h, num.as_str());
    out.push(h);
    out.push(" Definitions: https://docs.nvidia.com/deploy/xid-errors/index.html".to_owned());
    proof {
        assert(string_views(out@) =~= seq![
            Seq::<char>::empty(),
            "Summary of Xid errors: "@ + dec_str(ms.len() as nat),
            " Definitions: https://docs.nvidia.com/deploy/xid-errors/index.html"@,
        ]);
    }
    let ghost head = string_views(out@);
    // frequency listing of trimmed full matches
    let mut trimmed_strs: Vec<String> = Vec::new();
    let mut k: usize = 0;
    proof {
        assert(string_views(trimmed_strs@) =~= trim_all(views_of(fulls@.take(0))));
    }
    while k < fulls.len()
        invariant
            0 <= k <= fulls@.len(),
            string_views(trimmed_strs@) == trim_all(views_of(fulls@.take(k as int))),
        decreases fulls@.len() - k,
    {
        let t = trim_x(&fulls[k]);
        let ghost prev = trimmed_strs@;
        trimmed_strs.push(string_of(&t));
        proof {
            assert(string_views(trimmed_strs@) =~= string_views(prev).push(t@));
            assert(views_of(fulls@.take(k + 1)) =~= views_of(fulls@.take(k as int)).push(
                fulls@[k as int]@,
            ));
            assert(trim_all(views_of(fulls@.take(k + 1))) =~= trim_all(
                views_of(fulls@.take(k as int)),
            ).push(trimmed(fulls@[k as int]@)));
            assert(string_views(trimmed_strs@) =~= trim_all(views_of(fulls@.take(k + 1))));
        }
        k = k + 1;
    }
    proof {
        assert(fulls@.take(fulls@.len() as int) =~= fulls@);
    }
    let ftable = count_occurrences(&trimmed_strs);
    let mut j: usize = 0;
    proof {
        assert(ftable@.take(0) =~= Seq::<(Seq<char>, nat)>::empty());
        assert(string_views(out@) =~= head + freq_lines(ftable@.take(0)));
    }
    while j < ftable.entries.len()
        invariant
            0 <= j <= ftable.entries@.len(),
            ftable@.len() == ftable.entries@.len(),
            string_views(out@) == head + freq_lines(ftable@.take(j as int)),
        decreases ftable.entries@.len() - j,
    {
        let mut ln = "    (".to_owned();
        let cnum = usize_to_string(ftable.entries[j].1);
        append_str(&mut ln, cnum.as_str());
        append_str(&mut ln, "x) ");
        append_str(&mut ln, ftable.entries[j].0.as_str());
        proof {
            assert(ftable@[j as int] == (ftable.entries@[j as int].0@, ftable.entries@[j as int].1
                as nat));
            assert(ln@ == "    ("@ + dec_str(ftable@[j as int].1) + "x) "@ + ftable@[j as int].0);
        }
        let ghost prev_out = out@;
        let ghost lnv = ln@;
        out.push(ln);
        proof {
            assert(string_views(out@) =~= string_views(prev_out).push(lnv));
            assert(ftable@.take(j + 1) =~= ftable@.take(j as int).push(ftable@[j as int]));
            assert(freq_lines(ftable@.take(j + 1)) =~= freq_lines(ftable@.take(j as int)).push(
                "    ("@ + dec_str(ftable@[j as int].1) + "x) "@ + ftable@[j as int].0,
            ));
            assert(string_views(out@) =~= head + freq_lines(ftable@.take(j + 1)));
        }
        j = j + 1;
    }
    proof {
        assert(ftable@.take(ftable@.len() as int) =~= ftable@);
    }
    out.push(String::new());
    out.push("Summary of error descriptions:".to_owned());
    let ghost head2 = string_views(out@);
    proof {
        assert(head2 =~= head + freq_lines(freq_of(trim_all(xid_fulls(ms)))) + seq![
            Seq::<char>::empty(),
            "Summary of error descriptions:"@,
        ]);
    }
    // distinct codes, first-seen order, each resolved once
    let mut code_strs: Vec<String> = Vec::new();
    let mut c: usize = 0;
    proof {
        assert(string_views(code_strs@) =~= views_of(codes@.take(0)));
    }
    while c < codes.len()
        invariant
            0 <= c <= codes@.len(),
            string_views(code_strs@) == views_of(codes@.take(c as int)),
        decreases codes@.len() - c,
    {
        let ghost prev = code_strs@;
        code_strs.push(string_of(&codes[c]));
        proof {
            assert(string_views(code_strs@) =~= string_views(prev).push(codes@[c as int]@));
            assert(views_of(codes@.take(c + 1)) =~= views_of(codes@.take(c as int)).push(
                codes@[c as int]@,
            ));
        }
        c = c + 1;
    }
    proof {
        assert(codes@.take(codes@.len() as int) =~= codes@);
        assert(string_views(code_strs@) == xid_codes(ms));
    }
    let distinct = dedup_strings(&code_strs);
    let ghost dcs = dedup_of(xid_codes(ms));
    let mut d: usize = 0;
    proof {
        assert(string_views(distinct@) == dcs);
        assert(dcs.take(0) =~= Seq::<Seq<char>>::empty());
        assert(string_views(out@) =~= head2 + resolution_lines(dcs.take(0), table@));
    }
    while d < distinct.len()
        invariant
            0 <= d <= distinct@.len(),
            string_views(distinct@) == dcs,
            distinct@.len() == dcs.len(),
            string_views(out@) == head2 + resolution_lines(dcs.take(d as int), table@),
        decreases distinct@.len() - d,
    {
        proof {
            assert(dcs[d as int] == distinct@[d as int]@);
        }
        let mut ln = "   ".to_owned();
        append_str(&mut ln, distinct[d].as_str());
        match table.lookup(&distinct[d]) {
            Some(desc) => {
                append_str(&mut ln, " - ");
                append_str(&mut ln, desc.as_str());
                proof {
                    assert(ln@ == "   "@ + dcs[d as int] + " - "@ + lookup_spec(
                        table@,
                        dcs[d as int],
                    )->Some_0);
                }
            },
            None => {
                append_str(&mut ln, " - No description found in CSV.");
                proof {
                    assert(ln@ == "   "@ + dcs[d as int] + " - No description found in CSV."@);
                }
            },
        }
        let ghost prev_out = out@;
        let ghost lnv = ln@;
        out.push(ln);
        proof {
            assert(string_views(out@) =~= string_views(prev_out).push(lnv));
            assert(dcs.take(d + 1) =~= dcs.take(d as int).push(dcs[d as int]));
            assert(resolution_lines(dcs.take(d + 1), table@) =~= resolution_lines(
                dcs.take(d as int),
                table@,
            ).push(lnv));
            assert(string_views(out@) =~= head2 + resolution_lines(dcs.take(d + 1), table@));
        }
        d = d + 1;
    }
    proof {
        assert(dcs.take(dcs.len() as int) =~= dcs);
        assert(string_views(out@) =~= xid_report_lines(ms, table@));
    }
    Finding { count: fulls.len(), lines: out }
}

} // verus!
