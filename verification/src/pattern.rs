//! The catalog of line-oriented matching rules behind the simple issue
//! detectors: which lines of the document a rule matches and what text each
//! match contributes to the detector's detail listing.

use vstd::prelude::*;
use vstd::string::StrSliceExecFns;
use crate::text::{
    chars_of, contains_pat, contains_pat_x, count_from, count_occ_x, find_from, find_from_x,
    lemma_find_from_bounds, lines_of, match_at, match_at_x, subrange_x, views_of,
};

verus! {

/// Last index strictly below `hi` where `pat` occurs in `hay`.
pub open spec fn rfind_before(hay: Seq<char>, pat: Seq<char>, hi: int) -> Option<int>
    decreases hi,
{
    if hi <= 0 {
        None
    } else if match_at(hay, pat, hi - 1) {
        Some(hi - 1)
    } else {
        rfind_before(hay, pat, hi - 1)
    }
}

/// Last occurrence of `pat` anywhere in `hay`.
pub open spec fn rfind(hay: Seq<char>, pat: Seq<char>) -> Option<int> {
    rfind_before(hay, pat, hay.len() as int + 1)
}

proof fn lemma_rfind_high(hay: Seq<char>, pat: Seq<char>, h: int, target: int)
    requires
        0 <= target <= h,
        hay.len() - pat.len() + 1 <= target,
    ensures
        rfind_before(hay, pat, h) == rfind_before(hay, pat, target),
    decreases h,
{
    if h > target {
        assert(!match_at(hay, pat, h - 1));
        lemma_rfind_high(hay, pat, h - 1, target);
    }
}

pub proof fn lemma_rfind_before_bounds(hay: Seq<char>, pat: Seq<char>, hi: int)
    ensures
        rfind_before(hay, pat, hi) matches Some(j) ==> j < hi && match_at(hay, pat, j),
    decreases hi,
{
    if hi > 0 && !match_at(hay, pat, hi - 1) {
        lemma_rfind_before_bounds(hay, pat, hi - 1);
    }
}

/// Last occurrence of `pat` in `hay`, if any.
pub fn rfind_x(hay: &Vec<char>, pat: &str) -> (r: Option<usize>)
    requires
        pat@.len() > 0,
    ensures
        r matches Some(j) ==> rfind(hay@, pat@) == Some(j as int),
        r is None ==> rfind(hay@, pat@) is None,
{
    let plen = pat.unicode_len();
    let mut j: usize = if plen > hay.len() {
        0
    } else {
        hay.len() - plen + 1
    };
    proof {
        lemma_rfind_high(hay@, pat@, hay@.len() as int + 1, j as int);
    }
    while j > 0
        invariant
            j <= hay@.len() + 1,
            plen == pat@.len(),
            rfind(hay@, pat@) == rfind_before(hay@, pat@, j as int),
        decreases j,
    {
        j = j - 1;
        if match_at_x(hay, pat, j) {
            return Some(j);
        }
    }
    None
}

/// The matching rules of the pattern-count detectors. Three of them count
/// every occurrence of a fixed phrase; the others match whole lines.
#[derive(Clone, Copy)]
pub enum SimplePattern {
    /// Driver / fabric-manager version conflict phrase, counted per occurrence.
    VersionConflict,
    /// A line ending in `: Active` that reports SW or HW thermal slowdown.
    ThermalSlowdown,
    /// A line mentioning a segfault.
    Segfault,
    /// A line reporting CPU clock throttling.
    CpuThrottle,
    /// The phrase `Hardware Error`, counted per occurrence.
    HardwareError,
    /// A kernel line reporting that a GPU has fallen off the bus.
    FallenOffBus,
    /// A line reporting an RmInitAdapter / rm_init_adapter failure.
    RmInit,
    /// A kernel line reporting a refused power-state change.
    PowerStateRefused,
    /// The phrase `bad cpu`, counted per occurrence.
    BadCpu,
}

/// The text a thermal-slowdown line must end with.
pub open spec fn thermal_line_matches(line: Seq<char>) -> bool {
    let tail = ": Active"@;
    &&& line.len() >= tail.len()
    &&& match_at(line, tail, line.len() - tail.len())
    &&& (tok_ends_before(line, "SW Thermal Slowdown"@, line.len() - tail.len())
        || tok_ends_before(line, "HW Thermal Slowdown"@, line.len() - tail.len()))
}

/// The first occurrence of `tok` in `line` ends at or before `lim`.
pub open spec fn tok_ends_before(line: Seq<char>, tok: Seq<char>, lim: int) -> bool {
    match find_from(line, tok, 0) {
        Some(i) => i + tok.len() <= lim,
        None => false,
    }
}

/// What one line contributes to a simple detector's match list.
pub open spec fn simple_line_matches(p: SimplePattern, line: Seq<char>) -> Seq<Seq<char>> {
    match p {
        SimplePattern::VersionConflict => {
            let lit = "Please update with matching NVIDIA driver"@;
            Seq::new(count_from(line, lit, 0), |i: int| lit)
        },
        SimplePattern::ThermalSlowdown => if thermal_line_matches(line) {
            seq![line]
        } else {
            Seq::empty()
        },
        SimplePattern::Segfault => if contains_pat(line, "segfault"@) {
            seq![line]
        } else {
            Seq::empty()
        },
        SimplePattern::CpuThrottle => if contains_pat(line, "cpu clock throttled"@) {
            seq![line]
        } else {
            Seq::empty()
        },
        SimplePattern::HardwareError => {
            let lit = "Hardware Error"@;
            Seq::new(count_from(line, lit, 0), |i: int| lit)
        },
        SimplePattern::FallenOffBus => match find_from(line, "kernel: NVRM:"@, 0) {
            Some(i) => if find_from(
                line,
                "GPU has fallen off the bus"@,
                i + "kernel: NVRM:"@.len(),
            ) is Some {
                seq![line.skip(i)]
            } else {
                Seq::empty()
            },
            None => Seq::empty(),
        },
        SimplePattern::RmInit => if contains_pat(line, "RmInitAdapter failed"@) || contains_pat(
            line,
            "rm_init_adapter failed"@,
        ) {
            seq![line]
        } else {
            Seq::empty()
        },
        SimplePattern::PowerStateRefused => match find_from(line, "kernel: nvidia-gpu"@, 0) {
            Some(a) => {
                let lit = "Refused to change power state,"@;
                match rfind(line, lit) {
                    Some(b) => if b >= a + "kernel: nvidia-gpu"@.len() {
                        seq![line.subrange(a, b + lit.len())]
                    } else {
                        Seq::empty()
                    },
                    None => Seq::empty(),
                }
            },
            None => Seq::empty(),
        },
        SimplePattern::BadCpu => {
            let lit = "bad cpu"@;
            Seq::new(count_from(line, lit, 0), |i: int| lit)
        },
    }
}

/// Push `count` copies of the characters of `lit`.
fn push_copies(r: &mut Vec<Vec<char>>, lit: &str, count: usize)
    ensures
        views_of(final(r)@) == views_of(old(r)@) + Seq::new(count as nat, |i: int| lit@),
{
    let mut k: usize = 0;
    proof {
        assert(views_of(r@) =~= views_of(r@) + Seq::new(0nat, |i: int| lit@));
    }
    while k < count
        invariant
            0 <= k <= count,
            views_of(r@) == views_of(old(r)@) + Seq::new(k as nat, |i: int| lit@),
        decreases count - k,
    {
        let ghost prev = r@;
        r.push(chars_of(lit));
        proof {
            assert(views_of(r@) =~= views_of(prev).push(lit@));
            assert(views_of(prev).push(lit@) =~= views_of(old(r)@) + Seq::new(
                (k + 1) as nat,
                |i: int| lit@,
            ));
        }
        k = k + 1;
    }
}

/// The matches one line contributes, as executable text.
pub fn simple_line_match_x(p: SimplePattern, line: &Vec<char>) -> (r: Vec<Vec<char>>)
    ensures
        views_of(r@) == simple_line_matches(p, line@),
{
    let mut r: Vec<Vec<char>> = Vec::new();
    proof {
        assert(views_of(r@) =~= Seq::<Seq<char>>::empty());
    }
    match p {
        SimplePattern::VersionConflict => {
            proof {
                reveal_strlit("Please update with matching NVIDIA driver");
            }
            let c = count_occ_x(line, "Please update with matching NVIDIA driver");
            push_copies(&mut r, "Please update with matching NVIDIA driver", c);
            proof {
                assert(views_of(r@) =~= simple_line_matches(p, line@));
            }
        },
        SimplePattern::ThermalSlowdown => {
            let tail_len = ": Active".unicode_len();
            let matched = if line.len() >= tail_len && match_at_x(
                line,
                ": Active",
                line.len() - tail_len,
            ) {
                let lim = line.len() - tail_len;
                let sw = find_from_x(line, "SW Thermal Slowdown", 0);
                let hw = find_from_x(line, "HW Thermal Slowdown", 0);
                let sw_len = "SW Thermal Slowdown".unicode_len();
                let hw_len = "HW Thermal Slowdown".unicode_len();
                let sw_ok = match sw {
                    Some(i) => {
                        proof {
                            lemma_find_from_bounds(line@, "SW Thermal Slowdown"@, 0);
                        }
                        i + sw_len <= lim
                    },
                    None => false,
                };
                let hw_ok = match hw {
                    Some(i) => {
                        proof {
                            lemma_find_from_bounds(line@, "HW Thermal Slowdown"@, 0);
                        }
                        i + hw_len <= lim
                    },
                    None => false,
                };
                sw_ok || hw_ok
            } else {
                false
            };
            assert(matched == thermal_line_matches(line@));
            if matched {
                r.push(subrange_x(line, 0, line.len()));
                proof {
                    assert(line@.subrange(0, line@.len() as int) =~= line@);
                    assert(views_of(r@) =~= seq![line@]);
                }
            }
        },
        SimplePattern::Segfault => {
            if contains_pat_x(line, "segfault") {
                r.push(subrange_x(line, 0, line.len()));
                proof {
                    assert(line@.subrange(0, line@.len() as int) =~= line@);
                    assert(views_of(r@) =~= seq![line@]);
                }
            }
        },
        SimplePattern::CpuThrottle => {
            if contains_pat_x(line, "cpu clock throttled") {
                r.push(subrange_x(line, 0, line.len()));
                proof {
                    assert(line@.subrange(0, line@.len() as int) =~= line@);
                    assert(views_of(r@) =~= seq![line@]);
                }
            }
        },
        SimplePattern::HardwareError => {
            proof {
                reveal_strlit("Hardware Error");
            }
            let c = count_occ_x(line, "Hardware Error");
            push_copies(&mut r, "Hardware Error", c);
            proof {
                assert(views_of(r@) =~= simple_line_matches(p, line@));
            }
        },
        SimplePattern::FallenOffBus => {
            if let Some(i) = find_from_x(line, "kernel: NVRM:", 0) {
                let llen = line.len();
                proof {
                    lemma_find_from_bounds(line@, "kernel: NVRM:"@, 0);
                }
                let tok_len = "kernel: NVRM:".unicode_len();
                assert(i + tok_len <= llen);
                if find_from_x(line, "GPU has fallen off the bus", i + tok_len).is_some() {
                    r.push(subrange_x(line, i, line.len()));
                    proof {
                        assert(line@.subrange(i as int, line@.len() as int) =~= line@.skip(
                            i as int,
                        ));
                        assert(views_of(r@) =~= seq![line@.skip(i as int)]);
                    }
                }
            }
        },
        SimplePattern::RmInit => {
            if contains_pat_x(line, "RmInitAdapter failed") || contains_pat_x(
                line,
                "rm_init_adapter failed",
            ) {
                r.push(subrange_x(line, 0, line.len()));
                proof {
                    assert(line@.subrange(0, line@.len() as int) =~= line@);
                    assert(views_of(r@) =~= seq![line@]);
                }
            }
        },
        SimplePattern::PowerStateRefused => {
            if let Some(a) = find_from_x(line, "kernel: nvidia-gpu", 0) {
                let llen = line.len();
                proof {
                    lemma_find_from_bounds(line@, "kernel: nvidia-gpu"@, 0);
                }
                let tok_len = "kernel: nvidia-gpu".unicode_len();
                assert(a + tok_len <= llen);
                proof {
                    reveal_strlit("Refused to change power state,");
                }
                if let Some(b) = rfind_x(line, "Refused to change power state,") {
                    proof {
                        lemma_rfind_before_bounds(
                            line@,
                            "Refused to change power state,"@,
                            line@.len() as int + 1,
                        );
                    }
                    if b >= a + tok_len {
                        let lit_len = "Refused to change power state,".unicode_len();
                        r.push(subrange_x(line, a, b + lit_len));
                        proof {
                            assert(views_of(r@) =~= seq![
                                line@.subrange(a as int, b + lit_len as int),
                            ]);
                        }
                    }
                }
            }
        },
        SimplePattern::BadCpu => {
            proof {
                reveal_strlit("bad cpu");
            }
            let c = count_occ_x(line, "bad cpu");
            push_copies(&mut r, "bad cpu", c);
            proof {
                assert(views_of(r@) =~= simple_line_matches(p, line@));
            }
        },
    }
    r
}

/// All matches a simple rule finds in the first `n` lines, in order.
pub open spec fn simple_matches(p: SimplePattern, lines: Seq<Seq<char>>, n: int) -> Seq<Seq<char>>
    decreases n,
{
    if n <= 0 {
        Seq::empty()
    } else {
        simple_matches(p, lines, n - 1) + simple_line_matches(p, lines[n - 1])
    }
}

/// All matches a simple rule finds in a document.
pub open spec fn simple_doc_matches(p: SimplePattern, doc: Seq<char>) -> Seq<Seq<char>> {
    simple_matches(p, lines_of(doc), lines_of(doc).len() as int)
}

/// Collect a simple rule's matches over all lines.
pub fn collect_simple(p: SimplePattern, lines: &Vec<Vec<char>>) -> (r: Vec<Vec<char>>)
    ensures
        views_of(r@) == simple_matches(p, views_of(lines@), views_of(lines@).len() as int),
{
    let mut r: Vec<Vec<char>> = Vec::new();
    let mut i: usize = 0;
    proof {
        assert(views_of(r@) =~= simple_matches(p, views_of(lines@), 0));
    }
    while i < lines.len()
        invariant
            0 <= i <= lines@.len(),
            views_of(r@) == simple_matches(p, views_of(lines@), i as int),
        decreases lines@.len() - i,
    {
        let mut m = simple_line_match_x(p, &lines[i]);
        proof {
            assert(views_of(lines@)[i as int] == lines@[i as int]@);
        }
        let ghost old_r = r@;
        r.append(&mut m);
        proof {
            assert(views_of(r@) =~= simple_matches(p, views_of(lines@), i + 1));
        }
        i = i + 1;
    }
    r
}

} // verus!
