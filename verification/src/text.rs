//! Low-level text scanning over character sequences: substring search,
//! character-class runs, whitespace trimming, line splitting (with carriage
//! returns removed), digit parsing and decimal rendering.

use vstd::prelude::*;
use vstd::string::StrSliceExecFns;
use vstd::string::StringExecFns;

verus! {

/// Horizontal whitespace inside one line of the report.
pub open spec fn is_space(c: char) -> bool {
    c == ' ' || c == '\t'
}

pub open spec fn is_digit(c: char) -> bool {
    48 <= c as u32 && c as u32 <= 57
}

/// Lower-case hexadecimal digit, as PCI addresses are written.
pub open spec fn is_lower_hex(c: char) -> bool {
    is_digit(c) || (97 <= c as u32 && c as u32 <= 102)
}

/// Hexadecimal digit of either case, as bus addresses in GPU headers allow.
pub open spec fn is_hex(c: char) -> bool {
    is_lower_hex(c) || (65 <= c as u32 && c as u32 <= 70)
}

/// A character of an identifier-like token: letter, digit or underscore.
pub open spec fn is_word(c: char) -> bool {
    is_digit(c) || (97 <= c as u32 && c as u32 <= 122) || (65 <= c as u32 && c as u32 <= 90)
        || c == '_'
}

/// The character classes the scanners below recognize.
#[derive(Clone, Copy)]
pub enum CharClass {
    Space,
    Digit,
    LowerHex,
    HexOrColonDot,
    NonSpace,
    NonSpaceNonComma,
    NonRparen,
    Word,
    DigitDot,
}

pub open spec fn in_class(cl: CharClass, c: char) -> bool {
    match cl {
        CharClass::Space => is_space(c),
        CharClass::Digit => is_digit(c),
        CharClass::LowerHex => is_lower_hex(c),
        CharClass::HexOrColonDot => is_hex(c) || c == ':' || c == '.',
        CharClass::NonSpace => !is_space(c),
        CharClass::NonSpaceNonComma => !is_space(c) && c != ',',
        CharClass::NonRparen => c != ')',
        CharClass::Word => is_word(c),
        CharClass::DigitDot => is_digit(c) || c == '.',
    }
}

pub fn in_class_x(cl: CharClass, c: char) -> (r: bool)
    ensures
        r == in_class(cl, c),
{
    match cl {
        CharClass::Space => c == ' ' || c == '\t',
        CharClass::Digit => 48 <= c as u32 && c as u32 <= 57,
        CharClass::LowerHex => (48 <= c as u32 && c as u32 <= 57) || (97 <= c as u32 && c as u32
            <= 102),
        CharClass::HexOrColonDot => (48 <= c as u32 && c as u32 <= 57) || (97 <= c as u32 && c
            as u32 <= 102) || (65 <= c as u32 && c as u32 <= 70) || c == ':' || c == '.',
        CharClass::NonSpace => !(c == ' ' || c == '\t'),
        CharClass::NonSpaceNonComma => !(c == ' ' || c == '\t') && c != ',',
        CharClass::NonRparen => c != ')',
        CharClass::Word => (48 <= c as u32 && c as u32 <= 57) || (97 <= c as u32 && c as u32
            <= 122) || (65 <= c as u32 && c as u32 <= 90) || c == '_',
        CharClass::DigitDot => (48 <= c as u32 && c as u32 <= 57) || c == '.',
    }
}

/// First index at or after `i` whose character falls outside the class
/// (so `[i, run_end)` is the maximal run of class characters starting at `i`).
pub open spec fn run_end(cl: CharClass, s: Seq<char>, i: int) -> int
    decreases s.len() - i,
{
    if 0 <= i < s.len() && in_class(cl, s[i]) {
        run_end(cl, s, i + 1)
    } else {
        i
    }
}

pub proof fn lemma_run_end_bounds(cl: CharClass, s: Seq<char>, i: int)
    requires
        0 <= i <= s.len(),
    ensures
        i <= run_end(cl, s, i) <= s.len(),
    decreases s.len() - i,
{
    if 0 <= i < s.len() && in_class(cl, s[i]) {
        lemma_run_end_bounds(cl, s, i + 1);
    }
}

/// Every character inside a run is in the run's class.
pub proof fn lemma_run_end_range(cl: CharClass, s: Seq<char>, i: int)
    requires
        0 <= i <= s.len(),
    ensures
        forall|k: int| i <= k < run_end(cl, s, i) ==> in_class(cl, s[k]),
    decreases s.len() - i,
{
    if 0 <= i < s.len() && in_class(cl, s[i]) {
        lemma_run_end_range(cl, s, i + 1);
        lemma_run_end_bounds(cl, s, i + 1);
    }
}

/// Scan the maximal run of class characters starting at `from`.
pub fn scan_class(cl: CharClass, s: &Vec<char>, from: usize) -> (r: usize)
    requires
        from <= s@.len(),
    ensures
        r as int == run_end(cl, s@, from as int),
        from <= r <= s@.len(),
{
    let mut j = from;
    while j < s.len() && in_class_x(cl, s[j])
        invariant
            from <= j <= s@.len(),
            run_end(cl, s@, from as int) == run_end(cl, s@, j as int),
        decreases s@.len() - j,
    {
        j = j + 1;
    }
    j
}

/// `pat` occurs in `hay` starting exactly at index `i`.
pub open spec fn match_at(hay: Seq<char>, pat: Seq<char>, i: int) -> bool {
    &&& 0 <= i
    &&& i + pat.len() <= hay.len()
    &&& forall|k: int| 0 <= k < pat.len() ==> hay[i + k] == pat[k]
}

/// Index of the first occurrence of `pat` in `hay` at or after `from`.
pub open spec fn find_from(hay: Seq<char>, pat: Seq<char>, from: int) -> Option<int>
    decreases hay.len() - from + pat.len() + 1,
{
    if from < 0 || from + pat.len() > hay.len() {
        None
    } else if match_at(hay, pat, from) {
        Some(from)
    } else {
        find_from(hay, pat, from + 1)
    }
}

pub open spec fn contains_pat(hay: Seq<char>, pat: Seq<char>) -> bool {
    find_from(hay, pat, 0) is Some
}

pub proof fn lemma_find_from_bounds(hay: Seq<char>, pat: Seq<char>, from: int)
    ensures
        find_from(hay, pat, from) matches Some(j) ==> from <= j && match_at(hay, pat, j),
    decreases hay.len() - from + pat.len() + 1,
{
    if from < 0 || from + pat.len() > hay.len() {
    } else if match_at(hay, pat, from) {
    } else {
        lemma_find_from_bounds(hay, pat, from + 1);
    }
}

pub fn match_at_x(hay: &Vec<char>, pat: &str, i: usize) -> (r: bool)
    ensures
        r == match_at(hay@, pat@, i as int),
{
    let plen = pat.unicode_len();
    if plen > hay.len() || i > hay.len() - plen {
        return false;
    }
    let mut k: usize = 0;
    while k < plen
        invariant
            0 <= k <= plen,
            plen == pat@.len(),
            i + plen <= hay@.len(),
            hay@.len() <= usize::MAX,
            forall|kk: int| 0 <= kk < k ==> hay@[i + kk] == pat@[kk],
        decreases plen - k,
    {
        if hay[i + k] != pat.get_char(k) {
            assert(!match_at(hay@, pat@, i as int));
            return false;
        }
        k = k + 1;
    }
    true
}

/// First occurrence of `pat` in `hay` at or after `from`, if any.
pub fn find_from_x(hay: &Vec<char>, pat: &str, from: usize) -> (r: Option<usize>)
    ensures
        r matches Some(j) ==> find_from(hay@, pat@, from as int) == Some(j as int),
        r is None ==> find_from(hay@, pat@, from as int) is None,
{
    let plen = pat.unicode_len();
    if plen > hay.len() || from > hay.len() - plen {
        return None;
    }
    let mut j = from;
    while j <= hay.len() - plen
        invariant
            from <= j,
            plen <= hay@.len(),
            j <= hay@.len() - plen + 1,
            plen == pat@.len(),
            find_from(hay@, pat@, from as int) == find_from(hay@, pat@, j as int),
        decreases hay@.len() - j,
    {
        if match_at_x(hay, pat, j) {
            return Some(j);
        }
        j = j + 1;
    }
    None
}

pub fn contains_pat_x(hay: &Vec<char>, pat: &str) -> (r: bool)
    ensures
        r == contains_pat(hay@, pat@),
{
    find_from_x(hay, pat, 0).is_some()
}

/// How many indices at or after `from` start an occurrence of `pat`.
pub open spec fn count_from(hay: Seq<char>, pat: Seq<char>, from: int) -> nat
    decreases hay.len() - from + pat.len() + 1,
{
    if from < 0 || from + pat.len() > hay.len() {
        0
    } else if match_at(hay, pat, from) {
        1 + count_from(hay, pat, from + 1)
    } else {
        count_from(hay, pat, from + 1)
    }
}

/// Count every position where `pat` occurs in `hay`.
pub fn count_occ_x(hay: &Vec<char>, pat: &str) -> (r: usize)
    requires
        pat@.len() > 0,
    ensures
        r as nat == count_from(hay@, pat@, 0),
{
    let plen = pat.unicode_len();
    if plen > hay.len() {
        return 0;
    }
    let mut acc: usize = 0;
    let mut j: usize = 0;
    while j <= hay.len() - plen
        invariant
            0 <= j,
            acc <= j,
            plen <= hay@.len(),
            j <= hay@.len() - plen + 1,
            plen == pat@.len(),
            0 < plen,
            acc + count_from(hay@, pat@, j as int) == count_from(hay@, pat@, 0),
        decreases hay@.len() - j,
    {
        if match_at_x(hay, pat, j) {
            acc = acc + 1;
        }
        j = j + 1;
    }
    acc
}

/// The sequence without its leading whitespace.
pub open spec fn ltrim(s: Seq<char>) -> Seq<char>
    decreases s.len(),
{
    if s.len() > 0 && is_space(s[0]) {
        ltrim(s.drop_first())
    } else {
        s
    }
}

/// The sequence without its trailing whitespace.
pub open spec fn rtrim(s: Seq<char>) -> Seq<char>
    decreases s.len(),
{
    if s.len() > 0 && is_space(s.last()) {
        rtrim(s.drop_last())
    } else {
        s
    }
}

pub open spec fn trimmed(s: Seq<char>) -> Seq<char> {
    rtrim(ltrim(s))
}

pub proof fn lemma_ltrim_skip(s: Seq<char>, lo: int)
    requires
        0 <= lo <= s.len(),
        forall|k: int| 0 <= k < lo ==> is_space(s[k]),
        lo < s.len() ==> !is_space(s[lo]),
    ensures
        ltrim(s) == s.skip(lo),
    decreases lo,
{
    if lo == 0 {
        assert(s.skip(0) =~= s);
    } else {
        assert(is_space(s[0]));
        lemma_ltrim_skip(s.drop_first(), lo - 1);
        assert(s.drop_first().skip(lo - 1) =~= s.skip(lo));
    }
}

proof fn lemma_rtrim_take(s: Seq<char>, hi: int)
    requires
        0 <= hi <= s.len(),
        forall|k: int| hi <= k < s.len() ==> is_space(s[k]),
        hi > 0 ==> !is_space(s[hi - 1]),
    ensures
        rtrim(s) == s.take(hi),
    decreases s.len(),
{
    if s.len() == hi {
        assert(s.take(hi) =~= s);
    } else {
        assert(is_space(s.last()));
        lemma_rtrim_take(s.drop_last(), hi);
        assert(s.drop_last().take(hi) =~= s.take(hi));
    }
}

/// Copy of `s[a..b]`.
pub fn subrange_x(s: &Vec<char>, a: usize, b: usize) -> (r: Vec<char>)
    requires
        a <= b <= s@.len(),
    ensures
        r@ == s@.subrange(a as int, b as int),
{
    let mut r: Vec<char> = Vec::new();
    let mut j = a;
    while j < b
        invariant
            a <= j <= b <= s@.len(),
            r@ == s@.subrange(a as int, j as int),
        decreases b - j,
    {
        r.push(s[j]);
        assert(s@.subrange(a as int, j + 1 as int) =~= s@.subrange(a as int, j as int).push(
            s@[j as int],
        ));
        j = j + 1;
    }
    r
}

/// Copy of `s` without leading and trailing whitespace.
pub fn trim_x(s: &Vec<char>) -> (r: Vec<char>)
    ensures
        r@ == trimmed(s@),
{
    let mut lo: usize = 0;
    while lo < s.len() && in_class_x(CharClass::Space, s[lo])
        invariant
            0 <= lo <= s@.len(),
            forall|k: int| 0 <= k < lo ==> is_space(s@[k]),
        decreases s@.len() - lo,
    {
        lo = lo + 1;
    }
    proof {
        lemma_ltrim_skip(s@, lo as int);
    }
    let mut hi: usize = s.len();
    while hi > lo && in_class_x(CharClass::Space, s[hi - 1])
        invariant
            lo <= hi <= s@.len(),
            forall|k: int| hi <= k < s@.len() ==> is_space(s@[k]),
        decreases hi,
    {
        hi = hi - 1;
    }
    proof {
        if hi == lo {
            assert(forall|k: int| 0 <= k < s@.skip(lo as int).len() ==> is_space(
                #[trigger] s@.skip(lo as int)[k],
            ));
            lemma_rtrim_take(s@.skip(lo as int), 0);
        } else {
            assert(!is_space(s@[hi - 1]));
            assert(forall|k: int|
                hi - lo <= k < s@.skip(lo as int).len() ==> is_space(
                    #[trigger] s@.skip(lo as int)[k],
                ));
            assert(s@.skip(lo as int)[hi - lo - 1] == s@[hi - 1]);
            lemma_rtrim_take(s@.skip(lo as int), hi - lo);
        }
        assert(s@.skip(lo as int).take(hi - lo) =~= s@.subrange(lo as int, hi as int));
    }
    subrange_x(s, lo, hi)
}

/// The document with every carriage return removed.
pub open spec fn strip_cr(s: Seq<char>) -> Seq<char>
    decreases s.len(),
{
    if s.len() == 0 {
        Seq::empty()
    } else if s.last() == '\r' {
        strip_cr(s.drop_last())
    } else {
        strip_cr(s.drop_last()).push(s.last())
    }
}

/// Split on newline characters; a trailing newline yields a final empty line.
pub open spec fn split_nl(s: Seq<char>) -> Seq<Seq<char>>
    decreases s.len(),
{
    if s.len() == 0 {
        seq![Seq::<char>::empty()]
    } else if s.last() == '\n' {
        split_nl(s.drop_last()).push(Seq::<char>::empty())
    } else {
        let p = split_nl(s.drop_last());
        p.update(p.len() - 1, p.last().push(s.last()))
    }
}

pub proof fn lemma_split_nl_nonempty(s: Seq<char>)
    ensures
        split_nl(s).len() >= 1,
    decreases s.len(),
{
    if s.len() > 0 {
        lemma_split_nl_nonempty(s.drop_last());
    }
}

/// The document's lines: carriage returns removed, then split on newlines.
pub open spec fn lines_of(doc: Seq<char>) -> Seq<Seq<char>> {
    split_nl(strip_cr(doc))
}

/// The views of a sequence of character vectors.
pub open spec fn views_of(v: Seq<Vec<char>>) -> Seq<Seq<char>> {
    v.map_values(|l: Vec<char>| l@)
}

/// Split a raw document into lines, dropping carriage returns.
pub fn split_lines(doc: &str) -> (r: Vec<Vec<char>>)
    ensures
        views_of(r@) == lines_of(doc@),
        r@.len() >= 1,
{
    let n = doc.unicode_len();
    let mut done: Vec<Vec<char>> = Vec::new();
    let mut cur: Vec<char> = Vec::new();
    let mut i: usize = 0;
    proof {
        assert(doc@.take(0) =~= Seq::<char>::empty());
        assert(views_of(done@).push(cur@) =~= split_nl(strip_cr(doc@.take(0))));
    }
    while i < n
        invariant
            0 <= i <= n,
            n == doc@.len(),
            views_of(done@).push(cur@) == split_nl(strip_cr(doc@.take(i as int))),
        decreases n - i,
    {
        let c = doc.get_char(i);
        proof {
            assert(doc@.take(i + 1 as int).drop_last() =~= doc@.take(i as int));
            assert(doc@.take(i + 1 as int).last() == doc@[i as int]);
        }
        let ghost prev = strip_cr(doc@.take(i as int));
        if c == '\r' {
            // dropped
        } else if c == '\n' {
            proof {
                assert(strip_cr(doc@.take(i + 1 as int)) =~= prev.push('\n'));
                assert(prev.push('\n').drop_last() =~= prev);
                lemma_split_nl_nonempty(prev);
            }
            done.push(cur);
            cur = Vec::new();
            proof {
                assert(views_of(done@).push(cur@) =~= split_nl(strip_cr(doc@.take(i + 1 as int))));
            }
        } else {
            proof {
                assert(strip_cr(doc@.take(i + 1 as int)) =~= prev.push(c));
                assert(prev.push(c).drop_last() =~= prev);
                lemma_split_nl_nonempty(prev);
            }
            cur.push(c);
            proof {
                assert(views_of(done@).push(cur@) =~= split_nl(strip_cr(doc@.take(i + 1 as int))));
            }
        }
        i = i + 1;
    }
    proof {
        assert(doc@.take(n as int) =~= doc@);
    }
    done.push(cur);
    proof {
        assert(views_of(done@) =~= lines_of(doc@));
    }
    done
}

/// Numeric value of a run of decimal digits.
pub open spec fn digits_val(s: Seq<char>) -> nat
    decreases s.len(),
{
    if s.len() == 0 {
        0
    } else {
        digits_val(s.drop_last()) * 10 + (if is_digit(s.last()) {
            (s.last() as u32 - 48) as nat
        } else {
            0
        })
    }
}

proof fn lemma_digits_val_prefix(s: Seq<char>, m: int)
    requires
        0 <= m <= s.len(),
    ensures
        digits_val(s.take(m)) <= digits_val(s),
    decreases s.len(),
{
    if m == s.len() {
        assert(s.take(m) =~= s);
    } else {
        assert(s.drop_last().take(m) =~= s.take(m));
        lemma_digits_val_prefix(s.drop_last(), m);
    }
}

/// Parse the digit run `s[a..b]` as a number, unless it exceeds `cap`.
pub fn parse_digits_capped(s: &Vec<char>, a: usize, b: usize, cap: u64) -> (r: Option<u64>)
    requires
        a <= b <= s@.len(),
        cap >= 9,
        forall|k: int| a <= k < b ==> is_digit(s@[k]),
    ensures
        digits_val(s@.subrange(a as int, b as int)) <= cap ==> r == Some(
            digits_val(s@.subrange(a as int, b as int)) as u64,
        ),
        digits_val(s@.subrange(a as int, b as int)) > cap ==> r is None,
{
    let ghost whole = s@.subrange(a as int, b as int);
    let mut acc: u64 = 0;
    let mut j = a;
    while j < b
        invariant
            a <= j <= b <= s@.len(),
            forall|k: int| a <= k < b ==> is_digit(s@[k]),
            cap >= 9,
            acc <= cap,
            acc as nat == digits_val(s@.subrange(a as int, j as int)),
            whole == s@.subrange(a as int, b as int),
        decreases b - j,
    {
        let c = s[j];
        assert(is_digit(c));
        let c32: u32 = c as u32;
        let d: u64 = (c32 - 48) as u64;
        assert(d <= 9);
        assert(d as nat == (c as u32 - 48) as nat);
        proof {
            assert(s@.subrange(a as int, j + 1 as int).drop_last() =~= s@.subrange(
                a as int,
                j as int,
            ));
        }
        if acc > (cap - d) / 10 {
            proof {
                let partial = s@.subrange(a as int, j + 1 as int);
                assert(digits_val(partial) == acc * 10 + d);
                assert(acc * 10 + d > cap) by (nonlinear_arith)
                    requires
                        acc > (cap - d) / 10,
                        d <= 9,
                        cap >= d,
                ;
                assert(whole.take(j + 1 - a) =~= partial);
                lemma_digits_val_prefix(whole, j + 1 - a);
            }
            return None;
        }
        proof {
            assert(acc * 10 + d <= cap) by (nonlinear_arith)
                requires
                    acc <= (cap - d) / 10,
                    d <= 9,
                    cap >= d,
            ;
        }
        acc = acc * 10 + d;
        j = j + 1;
    }
    proof {
        assert(s@.subrange(a as int, b as int) =~= whole);
    }
    Some(acc)
}

/// The decimal rendering of a number.
pub open spec fn dec_str(n: nat) -> Seq<char>
    decreases n,
{
    if n < 10 {
        seq![digit_char(n as int)]
    } else {
        dec_str(n / 10).push(digit_char((n % 10) as int))
    }
}

pub open spec fn digit_char(d: int) -> char
    recommends
        0 <= d <= 9,
{
    if d == 0 {
        '0'
    } else if d == 1 {
        '1'
    } else if d == 2 {
        '2'
    } else if d == 3 {
        '3'
    } else if d == 4 {
        '4'
    } else if d == 5 {
        '5'
    } else if d == 6 {
        '6'
    } else if d == 7 {
        '7'
    } else if d == 8 {
        '8'
    } else {
        '9'
    }
}

pub fn digit_char_x(d: u64) -> (r: char)
    requires
        d <= 9,
    ensures
        r == digit_char(d as int),
{
    match d {
        0 => '0',
        1 => '1',
        2 => '2',
        3 => '3',
        4 => '4',
        5 => '5',
        6 => '6',
        7 => '7',
        8 => '8',
        _ => '9',
    }
}

/// Relies on `String::push` from std: appends exactly the given character.
#[verifier::external_body]
pub fn push_char(s: &mut String, c: char)
    ensures
        final(s)@ == old(s)@.push(c),
{
    s.push(c);
}

/// Render a number in decimal.
pub fn u64_to_string(n: u64) -> (r: String)
    ensures
        r@ == dec_str(n as nat),
    decreases n,
{
    if n < 10 {
        let mut s = String::new();
        push_char(&mut s, digit_char_x(n));
        proof {
            assert(s@ =~= dec_str(n as nat));
        }
        s
    } else {
        let mut s = u64_to_string(n / 10);
        push_char(&mut s, digit_char_x(n % 10));
        s
    }
}

/// Render a number in decimal.
pub fn u128_to_string(n: u128) -> (r: String)
    ensures
        r@ == dec_str(n as nat),
    decreases n,
{
    if n < 10 {
        let mut s = String::new();
        push_char(&mut s, digit_char_x((n % 10) as u64));
        proof {
            assert(s@ =~= dec_str(n as nat));
        }
        s
    } else {
        let mut s = u128_to_string(n / 10);
        push_char(&mut s, digit_char_x((n % 10) as u64));
        s
    }
}

pub fn usize_to_string(n: usize) -> (r: String)
    ensures
        r@ == dec_str(n as nat),
{
    u64_to_string(n as u64)
}

/// An owned string with the characters of `v`.
pub fn string_of(v: &Vec<char>) -> (r: String)
    ensures
        r@ == v@,
{
    let mut s = String::new();
    let mut i: usize = 0;
    while i < v.len()
        invariant
            0 <= i <= v@.len(),
            s@ == v@.take(i as int),
        decreases v@.len() - i,
    {
        push_char(&mut s, v[i]);
        proof {
            assert(v@.take(i + 1 as int) =~= v@.take(i as int).push(v@[i as int]));
        }
        i = i + 1;
    }
    proof {
        assert(v@.take(v@.len() as int) =~= v@);
    }
    s
}

/// The characters of a string slice.
pub fn chars_of(s: &str) -> (r: Vec<char>)
    ensures
        r@ == s@,
{
    let n = s.unicode_len();
    let mut r: Vec<char> = Vec::new();
    let mut i: usize = 0;
    while i < n
        invariant
            0 <= i <= n,
            n == s@.len(),
            r@ == s@.take(i as int),
        decreases n - i,
    {
        r.push(s.get_char(i));
        proof {
            assert(s@.take(i + 1 as int) =~= s@.take(i as int).push(s@[i as int]));
        }
        i = i + 1;
    }
    proof {
        assert(s@.take(n as int) =~= s@);
    }
    r
}

/// Append a string slice to an owned string.
pub fn append_str(s: &mut String, t: &str)
    ensures
        final(s)@ == old(s)@ + t@,
{
    s.append(t);
}

/// The character at a run's end is outside the class (or the run reaches the
/// end of the sequence).
pub proof fn lemma_run_end_stop(cl: CharClass, s: Seq<char>, i: int)
    requires
        0 <= i <= s.len(),
    ensures
        run_end(cl, s, i) == s.len() || !in_class(cl, s[run_end(cl, s, i)]),
    decreases s.len() - i,
{
    if 0 <= i < s.len() && in_class(cl, s[i]) {
        lemma_run_end_stop(cl, s, i + 1);
    }
}

/// As `match_at_x`, with the pattern as characters.
pub fn match_at_vx(hay: &Vec<char>, pat: &Vec<char>, i: usize) -> (r: bool)
    ensures
        r == match_at(hay@, pat@, i as int),
{
    let plen = pat.len();
    if plen > hay.len() || i > hay.len() - plen {
        return false;
    }
    let mut k: usize = 0;
    while k < plen
        invariant
            0 <= k <= plen,
            plen == pat@.len(),
            i + plen <= hay@.len(),
            hay@.len() <= usize::MAX,
            forall|kk: int| 0 <= kk < k ==> hay@[i + kk] == pat@[kk],
        decreases plen - k,
    {
        if hay[i + k] != pat[k] {
            assert(!match_at(hay@, pat@, i as int));
            return false;
        }
        k = k + 1;
    }
    true
}

/// As `find_from_x`, with the pattern as characters.
pub fn find_from_vx(hay: &Vec<char>, pat: &Vec<char>, from: usize) -> (r: Option<usize>)
    ensures
        r matches Some(j) ==> find_from(hay@, pat@, from as int) == Some(j as int),
        r is None ==> find_from(hay@, pat@, from as int) is None,
{
    let plen = pat.len();
    if plen > hay.len() || from > hay.len() - plen {
        return None;
    }
    let mut j = from;
    while j <= hay.len() - plen
        invariant
            from <= j,
            plen <= hay@.len(),
            j <= hay@.len() - plen + 1,
            plen == pat@.len(),
            find_from(hay@, pat@, from as int) == find_from(hay@, pat@, j as int),
        decreases hay@.len() - j,
    {
        if match_at_vx(hay, pat, j) {
            return Some(j);
        }
        j = j + 1;
    }
    None
}

pub fn contains_vx(hay: &Vec<char>, pat: &Vec<char>) -> (r: bool)
    ensures
        r == contains_pat(hay@, pat@),
{
    find_from_vx(hay, pat, 0).is_some()
}

} // verus!
