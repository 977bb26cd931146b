//! Field and block extraction for the system summary: single-line labeled
//! fields, bounded multi-line blocks terminated by a blank line, sub-field
//! lookup inside a block, and the memory-module listing with its inclusion
//! and exclusion filters.

use vstd::prelude::*;
use vstd::string::StrSliceExecFns;
use crate::freq::string_views;
use crate::pattern::{rfind, rfind_x};
use crate::text::{
    contains_pat, contains_pat_x, find_from, find_from_x, lemma_find_from_bounds, lemma_ltrim_skip,
    lemma_run_end_range, lemma_run_end_stop, lines_of, ltrim, match_at, match_at_x, run_end,
    scan_class, split_lines, string_of, subrange_x, trim_x, trimmed, views_of, CharClass,
};

verus! {

/// First line at or after `j`, before `b`, that contains the token.
pub open spec fn first_containing(lines: Seq<Seq<char>>, j: int, b: int, pat: Seq<char>) -> Option<
    int,
>
    decreases b - j,
{
    if j < 0 || j >= b || j >= lines.len() {
        None
    } else if contains_pat(lines[j], pat) {
        Some(j)
    } else {
        first_containing(lines, j + 1, b, pat)
    }
}

/// First empty line at or after `j` (the block terminator).
pub open spec fn first_empty(lines: Seq<Seq<char>>, j: int) -> Option<int>
    decreases lines.len() - j,
{
    if j < 0 || j >= lines.len() {
        None
    } else if lines[j].len() == 0 {
        Some(j)
    } else {
        first_empty(lines, j + 1)
    }
}

/// The sub-field lookup inside a span of lines: the first line containing the
/// label is split on its first colon and the remainder is trimmed; absence
/// gives the empty string, never an error.
pub open spec fn field_in_lines(lines: Seq<Seq<char>>, a: int, b: int, field: Seq<char>) -> Seq<
    char,
> {
    match first_containing(lines, a, b, field) {
        Some(j) => match find_from(lines[j], ":"@, 0) {
            Some(c) => trimmed(lines[j].skip(c + 1)),
            None => Seq::empty(),
        },
        None => Seq::empty(),
    }
}

/// Scan `lines[a..b]` for the field, as `field_in_lines` says.
pub fn field_in_lines_x(lines: &Vec<Vec<char>>, a: usize, b: usize, field: &str) -> (r: String)
    requires
        a <= b <= lines@.len(),
    ensures
        r@ == field_in_lines(views_of(lines@), a as int, b as int, field@),
{
    let ghost lv = views_of(lines@);
    let mut j = a;
    while j < b && !contains_pat_x(&lines[j], field)
        invariant
            a <= j,
            b <= lines@.len(),
            lv == views_of(lines@),
            j <= b,
            first_containing(lv, a as int, b as int, field@) == first_containing(
                lv,
                j as int,
                b as int,
                field@,
            ),
        decreases b - j,
    {
        proof {
            assert(lv[j as int] == lines@[j as int]@);
        }
        j = j + 1;
    }
    if j < b {
        proof {
            assert(lv[j as int] == lines@[j as int]@);
            assert(first_containing(lv, a as int, b as int, field@) == Some(j as int));
        }
        if let Some(c) = find_from_x(&lines[j], ":", 0) {
            let ll = lines[j].len();
            proof {
                lemma_find_from_bounds(lines@[j as int]@, ":"@, 0);
                reveal_strlit(":");
            }
            assert(c + 1 <= ll);
            let rest = subrange_x(&lines[j], c + 1, lines[j].len());
            proof {
                assert(lines@[j as int]@.subrange(c + 1 as int, lines@[j as int]@.len() as int)
                    =~= lines@[j as int]@.skip(c + 1));
            }
            let t = trim_x(&rest);
            string_of(&t)
        } else {
            String::new()
        }
    } else {
        String::new()
    }
}

/// The sub-field lookup over a whole block of text.
pub open spec fn extract_field_spec(block: Seq<char>, field: Seq<char>) -> Seq<char> {
    field_in_lines(lines_of(block), 0, lines_of(block).len() as int, field)
}

/// Scan a block line by line for the first line containing the label, split
/// it on the first colon and return the trimmed remainder; an absent field
/// gives the empty string, never an error.
pub fn extract_field(block: &str, field: &str) -> (r: String)
    ensures
        r@ == extract_field_spec(block@, field@),
{
    let lines = split_lines(block);
    field_in_lines_x(&lines, 0, lines.len(), field)
}

/// The span of the block introduced by a header token: the lines after the
/// first line containing the token, up to the next blank line. A block needs
/// its blank-line terminator; one never runs to the end of the document.
pub open spec fn block_of(lines: Seq<Seq<char>>, tok: Seq<char>) -> Option<(int, int)> {
    match first_containing(lines, 0, lines.len() as int, tok) {
        Some(h) => match first_empty(lines, h + 1) {
            Some(e) => Some((h + 1, e)),
            None => None,
        },
        None => None,
    }
}

/// Find a block's span.
pub fn block_of_x(lines: &Vec<Vec<char>>, tok: &str) -> (r: Option<(usize, usize)>)
    ensures
        r matches Some(p) ==> block_of(views_of(lines@), tok@) == Some((p.0 as int, p.1 as int))
            && p.0 <= p.1 <= lines@.len(),
        r is None ==> block_of(views_of(lines@), tok@) is None,
{
    let ghost lv = views_of(lines@);
    let n = lines.len();
    let mut j: usize = 0;
    while j < n && !contains_pat_x(&lines[j], tok)
        invariant
            0 <= j <= n,
            n == lines@.len(),
            lv == views_of(lines@),
            first_containing(lv, 0, n as int, tok@) == first_containing(lv, j as int, n as int, tok@),
        decreases n - j,
    {
        proof {
            assert(lv[j as int] == lines@[j as int]@);
        }
        j = j + 1;
    }
    if j >= n {
        return None;
    }
    proof {
        assert(lv[j as int] == lines@[j as int]@);
        assert(first_containing(lv, 0, n as int, tok@) == Some(j as int));
    }
    let mut e = j + 1;
    while e < n && lines[e].len() > 0
        invariant
            j + 1 <= e <= n,
            n == lines@.len(),
            lv == views_of(lines@),
            first_empty(lv, j + 1) == first_empty(lv, e as int),
        decreases n - e,
    {
        proof {
            assert(lv[e as int] == lines@[e as int]@);
        }
        e = e + 1;
    }
    if e < n {
        proof {
            assert(lv[e as int] == lines@[e as int]@);
            assert(first_empty(lv, j + 1) == Some(e as int));
        }
        Some((j + 1, e))
    } else {
        None
    }
}

/// A `^label<spaces>value` line: the value after the label and the spaces.
pub open spec fn prefix_value(line: Seq<char>, tok: Seq<char>) -> Option<Seq<char>> {
    if match_at(line, tok, 0) {
        Some(line.skip(run_end(CharClass::Space, line, tok.len() as int)))
    } else {
        None
    }
}

/// The first value a rule yields over the lines at or after `j`.
pub open spec fn first_match(
    lines: Seq<Seq<char>>,
    j: int,
    f: spec_fn(Seq<char>) -> Option<Seq<char>>,
) -> Option<Seq<char>>
    decreases lines.len() - j,
{
    if j < 0 || j >= lines.len() {
        None
    } else {
        match f(lines[j]) {
            Some(v) => Some(v),
            None => first_match(lines, j + 1, f),
        }
    }
}

/// All values a rule yields over the first `n` lines, in order.
pub open spec fn values_upto(
    lines: Seq<Seq<char>>,
    n: int,
    f: spec_fn(Seq<char>) -> Option<Seq<char>>,
) -> Seq<Seq<char>>
    decreases n,
{
    if n <= 0 {
        Seq::empty()
    } else {
        match f(lines[n - 1]) {
            Some(v) => values_upto(lines, n - 1, f).push(v),
            None => values_upto(lines, n - 1, f),
        }
    }
}

/// Extract a `^label<spaces>value` field, first match wins.
pub fn prefix_value_first(lines: &Vec<Vec<char>>, tok: &str) -> (r: Option<String>)
    ensures
        r matches Some(v) ==> first_match(
            views_of(lines@),
            0,
            |l: Seq<char>| prefix_value(l, tok@),
        ) == Some(v@),
        r is None ==> first_match(views_of(lines@), 0, |l: Seq<char>| prefix_value(l, tok@)) is None,
{
    let ghost lv = views_of(lines@);
    let ghost f = |l: Seq<char>| prefix_value(l, tok@);
    let mut j: usize = 0;
    while j < lines.len()
        invariant
            0 <= j <= lines@.len(),
            lv == views_of(lines@),
            first_match(lv, 0, f) == first_match(lv, j as int, f),
            f == (|l: Seq<char>| prefix_value(l, tok@)),
        decreases lines@.len() - j,
    {
        proof {
            assert(lv[j as int] == lines@[j as int]@);
        }
        if match_at_x(&lines[j], tok, 0) {
            let ll = lines[j].len();
            let tl = tok.unicode_len();
            assert(tl <= ll);
            let v0 = scan_class(CharClass::Space, &lines[j], tl);
            let v = subrange_x(&lines[j], v0, lines[j].len());
            proof {
                assert(lines@[j as int]@.subrange(v0 as int, lines@[j as int]@.len() as int)
                    =~= lines@[j as int]@.skip(v0 as int));
                assert(f(lv[j as int]) == Some(lines@[j as int]@.skip(v0 as int)));
            }
            return Some(string_of(&v));
        }
        proof {
            assert(f(lv[j as int]) is None);
        }
        j = j + 1;
    }
    None
}

/// The chassis identity on a `DMI:` line: from after the label to the last
/// comma of the line.
pub open spec fn dmi_value(line: Seq<char>) -> Option<Seq<char>> {
    match find_from(line, "DMI:"@, 0) {
        Some(i) => {
            let v0 = run_end(CharClass::Space, line, i + "DMI:"@.len());
            match rfind(line, ","@) {
                Some(c) => if c >= v0 {
                    Some(line.subrange(v0, c))
                } else {
                    None
                },
                None => None,
            }
        },
        None => None,
    }
}

/// Extract the chassis identity, first match wins.
pub fn dmi_value_first(lines: &Vec<Vec<char>>) -> (r: Option<String>)
    ensures
        r matches Some(v) ==> first_match(views_of(lines@), 0, |l: Seq<char>| dmi_value(l)) == Some(
            v@,
        ),
        r is None ==> first_match(views_of(lines@), 0, |l: Seq<char>| dmi_value(l)) is None,
{
    let ghost lv = views_of(lines@);
    let ghost f = |l: Seq<char>| dmi_value(l);
    let mut j: usize = 0;
    while j < lines.len()
        invariant
            0 <= j <= lines@.len(),
            lv == views_of(lines@),
            first_match(lv, 0, f) == first_match(lv, j as int, f),
            f == (|l: Seq<char>| dmi_value(l)),
        decreases lines@.len() - j,
    {
        proof {
            assert(lv[j as int] == lines@[j as int]@);
        }
        let line = &lines[j];
        let mut this: Option<String> = None;
        if let Some(i) = find_from_x(line, "DMI:", 0) {
            let ll = line.len();
            proof {
                lemma_find_from_bounds(line@, "DMI:"@, 0);
            }
            let tl = "DMI:".unicode_len();
            assert(i + tl <= ll);
            let v0 = scan_class(CharClass::Space, line, i + tl);
            proof {
                reveal_strlit(",");
            }
            if let Some(c) = rfind_x(line, ",") {
                proof {
                    crate::pattern::lemma_rfind_before_bounds(line@, ","@, line@.len() as int + 1);
                }
                if c >= v0 {
                    let v = subrange_x(line, v0, c);
                    this = Some(string_of(&v));
                }
            }
        }
        match this {
            Some(v) => {
                proof {
                    assert(f(lv[j as int]) == Some(v@));
                }
                return Some(v);
            },
            None => {
                proof {
                    assert(f(lv[j as int]) is None);
                }
            },
        }
        j = j + 1;
    }
    None
}

/// A CPU model line: `^model name <spaces> : <spaces> value`.
pub open spec fn cpu_model_value(line: Seq<char>) -> Option<Seq<char>> {
    if match_at(line, "model name"@, 0) {
        let p = run_end(CharClass::Space, line, "model name"@.len() as int);
        if p < line.len() && line[p] == ':' {
            Some(line.skip(run_end(CharClass::Space, line, p + 1)))
        } else {
            None
        }
    } else {
        None
    }
}

fn cpu_model_value_x(line: &Vec<char>) -> (r: Option<String>)
    ensures
        r matches Some(v) ==> cpu_model_value(line@) == Some(v@),
        r is None ==> cpu_model_value(line@) is None,
{
    if match_at_x(line, "model name", 0) {
        let ll = line.len();
        let tl = "model name".unicode_len();
        assert(tl <= ll);
        let p = scan_class(CharClass::Space, line, tl);
        if p < line.len() && line[p] == ':' {
            let v0 = scan_class(CharClass::Space, line, p + 1);
            let v = subrange_x(line, v0, line.len());
            proof {
                assert(line@.subrange(v0 as int, line@.len() as int) =~= line@.skip(v0 as int));
            }
            Some(string_of(&v))
        } else {
            None
        }
    } else {
        None
    }
}

/// Collect a rule's values over all lines, as owned strings.
pub fn collect_cpu_models(lines: &Vec<Vec<char>>) -> (r: Vec<String>)
    ensures
        string_views(r@) == values_upto(
            views_of(lines@),
            views_of(lines@).len() as int,
            |l: Seq<char>| cpu_model_value(l),
        ),
{
    let ghost lv = views_of(lines@);
    let ghost f = |l: Seq<char>| cpu_model_value(l);
    let mut r: Vec<String> = Vec::new();
    let mut j: usize = 0;
    proof {
        assert(string_views(r@) =~= values_upto(lv, 0, f));
    }
    while j < lines.len()
        invariant
            0 <= j <= lines@.len(),
            lv == views_of(lines@),
            string_views(r@) == values_upto(lv, j as int, f),
            f == (|l: Seq<char>| cpu_model_value(l)),
        decreases lines@.len() - j,
    {
        proof {
            assert(lv[j as int] == lines@[j as int]@);
        }
        if let Some(v) = cpu_model_value_x(&lines[j]) {
            let ghost prev = r@;
            r.push(v);
            proof {
                assert(f(lv[j as int]) is Some);
                assert(string_views(r@) =~= string_views(prev).push(f(lv[j as int])->Some_0));
                assert(string_views(r@) =~= values_upto(lv, j + 1, f));
            }
        } else {
            proof {
                assert(f(lv[j as int]) is None);
                assert(values_upto(lv, j + 1, f) =~= values_upto(lv, j as int, f));
            }
        }
        j = j + 1;
    }
    r
}

/// A line announcing the kernel command line: it holds the token with only
/// whitespace after it; the boot line itself is the next line, unindented.
pub open spec fn cmdline_header(line: Seq<char>) -> bool {
    match find_from(line, "cmdline"@, 0) {
        Some(i) => run_end(CharClass::Space, line, i + "cmdline"@.len()) == line.len(),
        None => false,
    }
}

/// First command-line header at or after `j`.
pub open spec fn first_cmdline(lines: Seq<Seq<char>>, j: int) -> Option<int>
    decreases lines.len() - j,
{
    if j < 0 || j >= lines.len() {
        None
    } else if cmdline_header(lines[j]) {
        Some(j)
    } else {
        first_cmdline(lines, j + 1)
    }
}

/// The boot command line: the line after the header, without its indentation.
pub open spec fn cmdline_of(lines: Seq<Seq<char>>) -> Option<Seq<char>> {
    match first_cmdline(lines, 0) {
        Some(h) => if h + 1 < lines.len() {
            Some(ltrim(lines[h + 1]))
        } else {
            None
        },
        None => None,
    }
}

pub fn cmdline_of_x(lines: &Vec<Vec<char>>) -> (r: Option<String>)
    ensures
        r matches Some(v) ==> cmdline_of(views_of(lines@)) == Some(v@),
        r is None ==> cmdline_of(views_of(lines@)) is None,
{
    let ghost lv = views_of(lines@);
    let mut j: usize = 0;
    while j < lines.len()
        invariant
            0 <= j <= lines@.len(),
            lv == views_of(lines@),
            first_cmdline(lv, 0) == first_cmdline(lv, j as int),
        decreases lines@.len() - j,
    {
        proof {
            assert(lv[j as int] == lines@[j as int]@);
        }
        let line = &lines[j];
        let mut is_header = false;
        if let Some(i) = find_from_x(line, "cmdline", 0) {
            let ll = line.len();
            proof {
                lemma_find_from_bounds(line@, "cmdline"@, 0);
            }
            let tl = "cmdline".unicode_len();
            assert(i + tl <= ll);
            let e = scan_class(CharClass::Space, line, i + tl);
            is_header = e == line.len();
        }
        assert(is_header == cmdline_header(lv[j as int]));
        if is_header {
            proof {
                assert(first_cmdline(lv, 0) == Some(j as int));
            }
            if j + 1 < lines.len() {
                let nxt = &lines[j + 1];
                let v0 = scan_class(CharClass::Space, nxt, 0);
                let v = subrange_x(nxt, v0, nxt.len());
                proof {
                    assert(lv[j + 1] == lines@[j + 1 as int]@);
                    lemma_run_end_range(CharClass::Space, nxt@, 0);
                    lemma_run_end_stop(CharClass::Space, nxt@, 0);
                    lemma_ltrim_skip(nxt@, v0 as int);
                    assert(nxt@.subrange(v0 as int, nxt@.len() as int) =~= nxt@.skip(v0 as int));
                }
                return Some(string_of(&v));
            } else {
                return None;
            }
        }
        j = j + 1;
    }
    None
}

} // verus!
