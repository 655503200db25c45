//! Line grammar of the changelog text form: the byte constants, the line
//! classifier, and the renderer. The inverse direction lives in `decode`.
//!
//! The text form is line oriented. A heading whose trailing text parses as
//! a version (or the literal `Unreleased`) opens a release; any other
//! heading inside a release opens a conventional grouping; comment lines
//! carry removed commit ids; starred lines carry generated statistics; a
//! `<details>` block carries the per-category commit listing. Every line
//! that fits no shape is kept as opaque text, so decoding never loses
//! input.

use vstd::prelude::*;
use crate::model::{
    Category, CategoryMessages, CategoryMessagesV, CategoryV, ChangeLog, ChangeLogV,
    CommitStatistics, Conventional, ConventionalV, Data, DataV, Date, Details, DetailsV, Message,
    MessageV, Section, SectionV, Segment, SegmentV, ThanksClippy, Version, VersionV,
};
use crate::text::{
    dec_spec, digit_run_end, hex_run_end, is_digit, is_hex, lemma_dec_digits,
    lemma_digit_run_end_bounds, lemma_hex_run_end_bounds, lemma_pad_digits, lemma_val_dec,
    lemma_val_pad, match_at, pad_spec, parse_dec, push_dec, push_pad, scan_hex, val_spec,
    check_match_at, bytes_eq,
};

verus! {

// --- byte constants -------------------------------------------------------

pub open spec fn c_comment_open() -> Seq<u8> {
    // "<!-- "
    seq![60u8, 33u8, 45u8, 45u8, 32u8]
}

pub open spec fn c_comment_close() -> Seq<u8> {
    // " -->"
    seq![32u8, 45u8, 45u8, 62u8]
}

pub open spec fn c_generated() -> Seq<u8> {
    // "generated"
    seq![103u8, 101u8, 110u8, 101u8, 114u8, 97u8, 116u8, 101u8, 100u8]
}

pub open spec fn c_unreleased() -> Seq<u8> {
    // "Unreleased"
    seq![85u8, 110u8, 114u8, 101u8, 108u8, 101u8, 97u8, 115u8, 101u8, 100u8]
}

pub open spec fn c_det_open() -> Seq<u8> {
    // "<details>"
    seq![60u8, 100u8, 101u8, 116u8, 97u8, 105u8, 108u8, 115u8, 62u8]
}

pub open spec fn c_det_close() -> Seq<u8> {
    // "</details>"
    seq![60u8, 47u8, 100u8, 101u8, 116u8, 97u8, 105u8, 108u8, 115u8, 62u8]
}

pub open spec fn c_dash() -> Seq<u8> {
    // "- "
    seq![45u8, 32u8]
}

pub open spec fn c_plus() -> Seq<u8> {
    // "+ "
    seq![43u8, 32u8]
}

pub open spec fn c_uncat() -> Seq<u8> {
    // "uncategorized"
    seq![117u8, 110u8, 99u8, 97u8, 116u8, 101u8, 103u8, 111u8, 114u8, 105u8, 122u8, 101u8, 100u8]
}

pub open spec fn c_clippy() -> Seq<u8> {
    // "* clippy helped "
    seq![42u8, 32u8, 99u8, 108u8, 105u8, 112u8, 112u8, 121u8, 32u8, 104u8, 101u8, 108u8, 112u8, 101u8, 100u8, 32u8]
}

pub open spec fn c_times() -> Seq<u8> {
    // " times"
    seq![32u8, 116u8, 105u8, 109u8, 101u8, 115u8]
}

pub open spec fn c_star() -> Seq<u8> {
    // "* "
    seq![42u8, 32u8]
}

pub open spec fn c_commits() -> Seq<u8> {
    // " commits over "
    seq![32u8, 99u8, 111u8, 109u8, 109u8, 105u8, 116u8, 115u8, 32u8, 111u8, 118u8, 101u8, 114u8, 32u8]
}

pub open spec fn c_days() -> Seq<u8> {
    // " days, "
    seq![32u8, 100u8, 97u8, 121u8, 115u8, 44u8, 32u8]
}

pub open spec fn c_conv() -> Seq<u8> {
    // " conventional, "
    seq![32u8, 99u8, 111u8, 110u8, 118u8, 101u8, 110u8, 116u8, 105u8, 111u8, 110u8, 97u8, 108u8, 44u8, 32u8]
}

pub open spec fn c_issues() -> Seq<u8> {
    // " issues"
    seq![32u8, 105u8, 115u8, 115u8, 117u8, 101u8, 115u8]
}

pub fn mk_comment_open() -> (v: Vec<u8>)
    ensures
        v@ == c_comment_open(),
{
    let v = vec![60u8, 33u8, 45u8, 45u8, 32u8];
    proof {
        assert(v@ =~= c_comment_open());
    }
    v
}

pub fn mk_comment_close() -> (v: Vec<u8>)
    ensures
        v@ == c_comment_close(),
{
    let v = vec![32u8, 45u8, 45u8, 62u8];
    proof {
        assert(v@ =~= c_comment_close());
    }
    v
}

pub fn mk_generated() -> (v: Vec<u8>)
    ensures
        v@ == c_generated(),
{
    let v = vec![103u8, 101u8, 110u8, 101u8, 114u8, 97u8, 116u8, 101u8, 100u8];
    proof {
        assert(v@ =~= c_generated());
    }
    v
}

pub fn mk_unreleased() -> (v: Vec<u8>)
    ensures
        v@ == c_unreleased(),
{
    let v = vec![85u8, 110u8, 114u8, 101u8, 108u8, 101u8, 97u8, 115u8, 101u8, 100u8];
    proof {
        assert(v@ =~= c_unreleased());
    }
    v
}

pub fn mk_det_open() -> (v: Vec<u8>)
    ensures
        v@ == c_det_open(),
{
    let v = vec![60u8, 100u8, 101u8, 116u8, 97u8, 105u8, 108u8, 115u8, 62u8];
    proof {
        assert(v@ =~= c_det_open());
    }
    v
}

pub fn mk_det_close() -> (v: Vec<u8>)
    ensures
        v@ == c_det_close(),
{
    let v = vec![60u8, 47u8, 100u8, 101u8, 116u8, 97u8, 105u8, 108u8, 115u8, 62u8];
    proof {
        assert(v@ =~= c_det_close());
    }
    v
}

pub fn mk_dash() -> (v: Vec<u8>)
    ensures
        v@ == c_dash(),
{
    let v = vec![45u8, 32u8];
    proof {
        assert(v@ =~= c_dash());
    }
    v
}

pub fn mk_plus() -> (v: Vec<u8>)
    ensures
        v@ == c_plus(),
{
    let v = vec![43u8, 32u8];
    proof {
        assert(v@ =~= c_plus());
    }
    v
}

pub fn mk_uncat() -> (v: Vec<u8>)
    ensures
        v@ == c_uncat(),
{
    let v = vec![117u8, 110u8, 99u8, 97u8, 116u8, 101u8, 103u8, 111u8, 114u8, 105u8, 122u8, 101u8, 100u8];
    proof {
        assert(v@ =~= c_uncat());
    }
    v
}

pub fn mk_clippy() -> (v: Vec<u8>)
    ensures
        v@ == c_clippy(),
{
    let v = vec![42u8, 32u8, 99u8, 108u8, 105u8, 112u8, 112u8, 121u8, 32u8, 104u8, 101u8, 108u8, 112u8, 101u8, 100u8, 32u8];
    proof {
        assert(v@ =~= c_clippy());
    }
    v
}

pub fn mk_times() -> (v: Vec<u8>)
    ensures
        v@ == c_times(),
{
    let v = vec![32u8, 116u8, 105u8, 109u8, 101u8, 115u8];
    proof {
        assert(v@ =~= c_times());
    }
    v
}

pub fn mk_star() -> (v: Vec<u8>)
    ensures
        v@ == c_star(),
{
    let v = vec![42u8, 32u8];
    proof {
        assert(v@ =~= c_star());
    }
    v
}

pub fn mk_commits() -> (v: Vec<u8>)
    ensures
        v@ == c_commits(),
{
    let v = vec![32u8, 99u8, 111u8, 109u8, 109u8, 105u8, 116u8, 115u8, 32u8, 111u8, 118u8, 101u8, 114u8, 32u8];
    proof {
        assert(v@ =~= c_commits());
    }
    v
}

pub fn mk_days() -> (v: Vec<u8>)
    ensures
        v@ == c_days(),
{
    let v = vec![32u8, 100u8, 97u8, 121u8, 115u8, 44u8, 32u8];
    proof {
        assert(v@ =~= c_days());
    }
    v
}

pub fn mk_conv() -> (v: Vec<u8>)
    ensures
        v@ == c_conv(),
{
    let v = vec![32u8, 99u8, 111u8, 110u8, 118u8, 101u8, 110u8, 116u8, 105u8, 111u8, 110u8, 97u8, 108u8, 44u8, 32u8];
    proof {
        assert(v@ =~= c_conv());
    }
    v
}

pub fn mk_issues() -> (v: Vec<u8>)
    ensures
        v@ == c_issues(),
{
    let v = vec![32u8, 105u8, 115u8, 115u8, 117u8, 101u8, 115u8];
    proof {
        assert(v@ =~= c_issues());
    }
    v
}

// --- small helpers --------------------------------------------------------

pub fn push_bytes(out: &mut Vec<u8>, p: &Vec<u8>)
    ensures
        final(out)@ == old(out)@ + p@,
{
    let mut k: usize = 0;
    while k < p.len()
        invariant
            0 <= k <= p@.len(),
            out@ == old(out)@ + p@.take(k as int),
        decreases p@.len() - k,
    {
        out.push(p[k]);
        proof {
            assert(old(out)@ + p@.take(k + 1) =~= (old(out)@ + p@.take(k as int)).push(p@[k as int]));
        }
        k = k + 1;
    }
    proof {
        assert(p@.take(p@.len() as int) =~= p@);
    }
}

/// Copy of `s[a..b]`.
pub fn subvec(s: &Vec<u8>, a: usize, b: usize) -> (r: Vec<u8>)
    requires
        a <= b <= s@.len(),
    ensures
        r@ == s@.subrange(a as int, b as int),
{
    let mut r: Vec<u8> = Vec::new();
    let mut k: usize = a;
    while k < b
        invariant
            a <= k <= b <= s@.len(),
            r@ == s@.subrange(a as int, k as int),
        decreases b - k,
    {
        r.push(s[k]);
        proof {
            assert(s@.subrange(a as int, k + 1) =~= s@.subrange(a as int, k as int).push(
                s@[k as int],
            ));
        }
        k = k + 1;
    }
    r
}

// --- line splitting -------------------------------------------------------

/// Index just past the newline that ends the line starting at `i` (or the
/// end of text for an unterminated final line).
pub open spec fn line_end(s: Seq<u8>, i: int) -> int
    decreases s.len() - i,
{
    if i < 0 || i >= s.len() {
        i
    } else if s[i] == 10 {
        i + 1
    } else {
        line_end(s, i + 1)
    }
}

pub proof fn lemma_line_end(s: Seq<u8>, i: int)
    requires
        0 <= i <= s.len(),
    ensures
        i <= line_end(s, i) <= s.len(),
        i < s.len() ==> i + 1 <= line_end(s, i),
        forall|k: int| i <= k < line_end(s, i) - 1 ==> s[k] != 10,
        line_end(s, i) > i ==> (s[line_end(s, i) - 1] == 10 || line_end(s, i) == s.len()),
    decreases s.len() - i,
{
    if 0 <= i < s.len() && s[i] != 10 {
        lemma_line_end(s, i + 1);
    }
}

/// Pins `line_end` once the first newline (or the end) is known.
pub proof fn lemma_line_end_at(s: Seq<u8>, i: int, j: int)
    requires
        0 <= i <= j <= s.len(),
        forall|k: int| i <= k < j ==> s[k] != 10,
        j == s.len() || s[j] == 10,
    ensures
        line_end(s, i) == if j == s.len() { j } else { j + 1 },
    decreases j - i,
{
    if i < j {
        lemma_line_end_at(s, i + 1, j);
    }
}

/// The text split into lines, each keeping its terminating newline (the
/// final line may lack one). Flattening the result gives back the text.
pub open spec fn lines_from(s: Seq<u8>, i: int) -> Seq<Seq<u8>>
    decreases s.len() - i,
    when 0 <= i <= s.len()
    via lines_from_dec
{
    if i >= s.len() {
        Seq::empty()
    } else {
        seq![s.subrange(i, line_end(s, i))] + lines_from(s, line_end(s, i))
    }
}

#[via_fn]
proof fn lines_from_dec(s: Seq<u8>, i: int) {
    if 0 <= i < s.len() {
        lemma_line_end(s, i);
    }
}

pub open spec fn spec_lines(s: Seq<u8>) -> Seq<Seq<u8>> {
    lines_from(s, 0)
}

/// Splits the text into newline-terminated chunks.
pub fn split_lines(s: &Vec<u8>) -> (r: Vec<Vec<u8>>)
    ensures
        r.deep_view() == spec_lines(s@),
{
    let mut r: Vec<Vec<u8>> = Vec::new();
    let mut i: usize = 0;
    while i < s.len()
        invariant
            0 <= i <= s@.len(),
            r.deep_view() + lines_from(s@, i as int) == lines_from(s@, 0),
        decreases s@.len() - i,
    {
        let mut j: usize = i;
        while j < s.len() && s[j] != 10
            invariant
                i <= j <= s@.len(),
                forall|k: int| i <= k < j ==> s@[k] != 10,
            decreases s@.len() - j,
        {
            j = j + 1;
        }
        let stop: usize = if j < s.len() { j + 1 } else { j };
        proof {
            lemma_line_end_at(s@, i as int, j as int);
        }
        let ghost e = line_end(s@, i as int);
        let line = subvec(s, i, stop);
        let ghost r0 = r.deep_view();
        r.push(line);
        proof {
            assert(r.deep_view() =~~= r0.push(line@));
            assert(lines_from(s@, i as int) == seq![s@.subrange(i as int, e)] + lines_from(s@, e));
            assert(r.deep_view() + lines_from(s@, e) =~= r0 + lines_from(s@, i as int));
        }
        i = stop;
    }
    proof {
        assert(lines_from(s@, s@.len() as int) =~= Seq::<Seq<u8>>::empty());
        assert(r.deep_view() =~= r.deep_view() + Seq::<Seq<u8>>::empty());
    }
    r
}

// --- line classification --------------------------------------------------

/// The line with its terminating newline removed.
pub open spec fn body_of(line: Seq<u8>) -> Seq<u8> {
    if line.len() > 0 && line.last() == 10 {
        line.drop_last()
    } else {
        line
    }
}

/// End of the `#` run starting at `i`.
pub open spec fn hash_run(s: Seq<u8>, i: int) -> int
    decreases s.len() - i,
{
    if 0 <= i < s.len() && s[i] == 35 {
        hash_run(s, i + 1)
    } else {
        i
    }
}

/// First space at or after `i` (or the end).
pub open spec fn find_space(s: Seq<u8>, i: int) -> int
    decreases s.len() - i,
{
    if 0 <= i < s.len() && s[i] != 32 {
        find_space(s, i + 1)
    } else {
        i
    }
}

/// Parses a release name: the literal `Unreleased` or `major.minor.patch`
/// with an optional `-prerelease` tail.
pub open spec fn parse_version(b: Seq<u8>) -> Option<VersionV> {
    if b == c_unreleased() {
        Some(VersionV::Unreleased)
    } else {
        let e1 = digit_run_end(b, 0);
        if !(0 < e1 < b.len() && b[e1] == 46 && val_spec(b.take(e1)) <= u64::MAX) {
            None
        } else {
            let e2 = digit_run_end(b, e1 + 1);
            if !(e1 + 1 < e2 < b.len() && b[e2] == 46 && val_spec(b.subrange(e1 + 1, e2))
                <= u64::MAX) {
                None
            } else {
                let e3 = digit_run_end(b, e2 + 1);
                if !(e2 + 1 < e3 <= b.len() && val_spec(b.subrange(e2 + 1, e3)) <= u64::MAX) {
                    None
                } else {
                    let major = val_spec(b.take(e1)) as u64;
                    let minor = val_spec(b.subrange(e1 + 1, e2)) as u64;
                    let patch = val_spec(b.subrange(e2 + 1, e3)) as u64;
                    if e3 == b.len() {
                        Some(
                            VersionV::Semantic {
                                major,
                                minor,
                                patch,
                                prerelease: Seq::empty(),
                            },
                        )
                    } else if b[e3] == 45 {
                        Some(
                            VersionV::Semantic { major, minor, patch, prerelease: b.skip(e3 + 1) },
                        )
                    } else {
                        None
                    }
                }
            }
        }
    }
}

/// Parses a `YYYY-MM-DD` date.
pub open spec fn parse_date(d: Seq<u8>) -> Option<Date> {
    if d.len() == 10 && d[4] == 45 && d[7] == 45 && digit_run_end(d, 0) == 4 && digit_run_end(d, 5)
        == 7 && digit_run_end(d, 8) == 10 {
        Some(
            Date {
                year: val_spec(d.take(4)) as u64,
                month: val_spec(d.subrange(5, 7)) as u64,
                day: val_spec(d.subrange(8, 10)) as u64,
            },
        )
    } else {
        None
    }
}

/// The shape of one line of text.
#[verifier::ext_equal]
pub enum LineK {
    Release { level: u64, name: VersionV, date: Option<Date> },
    ConvHead { kind: Seq<u8>, breaking: bool },
    IdComment { id: Seq<u8> },
    DetOpen,
    DetClose,
    Msg { id: Seq<u8>, title: Seq<u8> },
    ClippyL { count: u64 },
    StatsL { stats: CommitStatistics },
    CatL { cat: CategoryV },
    Plain,
}

/// A heading that is not a release opens a conventional grouping; a
/// trailing `!` marks it breaking, as in conventional-commit headers.
pub open spec fn conv_of(rest: Seq<u8>) -> LineK {
    if rest.len() > 0 && rest.last() == 33 {
        LineK::ConvHead { kind: rest.drop_last(), breaking: true }
    } else {
        LineK::ConvHead { kind: rest, breaking: false }
    }
}

pub open spec fn classify_heading(level: u64, rest: Seq<u8>) -> LineK {
    let sp = find_space(rest, 0);
    let vpart = rest.take(sp);
    match parse_version(vpart) {
        Some(name) => {
            if sp == rest.len() {
                LineK::Release { level, name, date: None }
            } else {
                let dp = rest.skip(sp + 1);
                if dp.len() == 12 && dp[0] == 40 && dp[11] == 41 && parse_date(
                    dp.subrange(1, 11),
                ) is Some {
                    LineK::Release { level, name, date: parse_date(dp.subrange(1, 11)) }
                } else {
                    conv_of(rest)
                }
            }
        },
        None => conv_of(rest),
    }
}

pub open spec fn classify_stats(b: Seq<u8>) -> LineK {
    let e1 = digit_run_end(b, 2);
    if !(2 < e1 && val_spec(b.subrange(2, e1)) <= u64::MAX && match_at(b, e1, c_commits())) {
        LineK::Plain
    } else {
        let s2 = e1 + 14;
        let e2 = digit_run_end(b, s2);
        if !(s2 < e2 && val_spec(b.subrange(s2, e2)) <= u64::MAX && match_at(b, e2, c_days())) {
            LineK::Plain
        } else {
            let s3 = e2 + 7;
            let e3 = digit_run_end(b, s3);
            if !(s3 < e3 && val_spec(b.subrange(s3, e3)) <= u64::MAX && match_at(
                b,
                e3,
                c_conv(),
            )) {
                LineK::Plain
            } else {
                let s4 = e3 + 15;
                let e4 = digit_run_end(b, s4);
                if !(s4 < e4 && val_spec(b.subrange(s4, e4)) <= u64::MAX && b.skip(e4)
                    == c_issues()) {
                    LineK::Plain
                } else {
                    LineK::StatsL {
                        stats: CommitStatistics {
                            count: val_spec(b.subrange(2, e1)) as u64,
                            duration_days: val_spec(b.subrange(s2, e2)) as u64,
                            conventional_count: val_spec(b.subrange(s3, e3)) as u64,
                            unique_issues_count: val_spec(b.subrange(s4, e4)) as u64,
                        },
                    }
                }
            }
        }
    }
}

/// Classifies one raw line. Classification is context free; the decoder's
/// state decides what an unfitting shape means (usually: opaque text).
pub open spec fn classify(line: Seq<u8>) -> LineK {
    let b = body_of(line);
    if b.len() > 0 && b[0] == 35 {
        let k = hash_run(b, 0);
        if k < b.len() && b[k] == 32 {
            classify_heading(k as u64, b.skip(k + 1))
        } else {
            LineK::Plain
        }
    } else if b.len() >= 9 && match_at(b, 0, c_comment_open()) && match_at(
        b,
        b.len() - 4,
        c_comment_close(),
    ) {
        LineK::IdComment { id: b.subrange(5, b.len() - 4) }
    } else if b == c_det_open() {
        LineK::DetOpen
    } else if b == c_det_close() {
        LineK::DetClose
    } else if match_at(b, 0, c_dash()) {
        let e = hex_run_end(b, 2);
        if 2 < e < b.len() && b[e] == 32 {
            LineK::Msg { id: b.subrange(2, e), title: b.skip(e + 1) }
        } else {
            LineK::Plain
        }
    } else if match_at(b, 0, c_plus()) {
        let rest = b.skip(2);
        if rest.len() > 0 && rest[0] == 35 {
            LineK::CatL { cat: CategoryV::Issue { reference: rest.skip(1) } }
        } else if rest == c_uncat() {
            LineK::CatL { cat: CategoryV::Uncategorized }
        } else {
            LineK::Plain
        }
    } else if match_at(b, 0, c_clippy()) {
        let e = digit_run_end(b, 16);
        if 16 < e && val_spec(b.subrange(16, e)) <= u64::MAX && b.skip(e) == c_times() {
            LineK::ClippyL { count: val_spec(b.subrange(16, e)) as u64 }
        } else {
            LineK::Plain
        }
    } else if match_at(b, 0, c_star()) {
        classify_stats(b)
    } else {
        LineK::Plain
    }
}

pub proof fn lemma_hash_run_at(s: Seq<u8>, i: int, j: int)
    requires
        0 <= i <= j <= s.len(),
        forall|k: int| i <= k < j ==> s[k] == 35,
        j == s.len() || s[j] != 35,
    ensures
        hash_run(s, i) == j,
    decreases j - i,
{
    if i < j {
        lemma_hash_run_at(s, i + 1, j);
    }
}

pub proof fn lemma_find_space_at(s: Seq<u8>, i: int, j: int)
    requires
        0 <= i <= j <= s.len(),
        forall|k: int| i <= k < j ==> s[k] != 32,
        j == s.len() || s[j] == 32,
    ensures
        find_space(s, i) == j,
    decreases j - i,
{
    if i < j {
        lemma_find_space_at(s, i + 1, j);
    }
}

fn scan_hashes(b: &Vec<u8>) -> (j: usize)
    ensures
        j == hash_run(b@, 0),
        0 <= j <= b@.len(),
{
    let mut j: usize = 0;
    while j < b.len() && b[j] == 35
        invariant
            0 <= j <= b@.len(),
            forall|k: int| 0 <= k < j ==> b@[k] == 35,
        decreases b@.len() - j,
    {
        j = j + 1;
    }
    proof {
        lemma_hash_run_at(b@, 0, j as int);
    }
    j
}

fn find_space_e(b: &Vec<u8>, i: usize) -> (j: usize)
    requires
        i <= b@.len(),
    ensures
        j == find_space(b@, i as int),
        i <= j <= b@.len(),
{
    let mut j: usize = i;
    while j < b.len() && b[j] != 32
        invariant
            i <= j <= b@.len(),
            forall|k: int| i <= k < j ==> b@[k] != 32,
        decreases b@.len() - j,
    {
        j = j + 1;
    }
    proof {
        lemma_find_space_at(b@, i as int, j as int);
    }
    j
}

/// Parses a release name from bytes.
pub fn parse_version_e(b: &Vec<u8>) -> (r: Option<Version>)
    ensures
        match r {
            Some(v) => parse_version(b@) == Some(v.deep_view()),
            None => parse_version(b@) is None,
        },
{
    let unrel = mk_unreleased();
    if bytes_eq(b, &unrel) {
        return Some(Version::Unreleased);
    }
    let r1 = parse_dec(b, 0);
    match r1 {
        None => None,
        Some((major, e1)) => {
            proof {
                assert(b@.take(e1 as int) =~= b@.subrange(0, e1 as int));
            }
            if e1 >= b.len() || b[e1] != 46 {
                return None;
            }
            let r2 = parse_dec(b, e1 + 1);
            match r2 {
                None => None,
                Some((minor, e2)) => {
                    if e2 >= b.len() || b[e2] != 46 {
                        return None;
                    }
                    let r3 = parse_dec(b, e2 + 1);
                    match r3 {
                        None => None,
                        Some((patch, e3)) => {
                            if e3 == b.len() {
                                let v = Version::Semantic {
                                    major,
                                    minor,
                                    patch,
                                    prerelease: Vec::new(),
                                };
                                proof {
                                    assert(v.deep_view() =~= parse_version(b@)->Some_0);
                                }
                                Some(v)
                            } else if b[e3] == 45 {
                                let pre = subvec(b, e3 + 1, b.len());
                                let v = Version::Semantic { major, minor, patch, prerelease: pre };
                                proof {
                                    assert(pre.deep_view() =~= b@.skip(e3 + 1));
                                    assert(v.deep_view() =~= parse_version(b@)->Some_0);
                                }
                                Some(v)
                            } else {
                                None
                            }
                        },
                    }
                },
            }
        },
    }
}

/// Parses a `YYYY-MM-DD` date from bytes.
pub fn parse_date_e(d: &Vec<u8>) -> (r: Option<Date>)
    ensures
        r == parse_date(d@),
{
    if d.len() != 10 || d[4] != 45 || d[7] != 45 {
        return None;
    }
    proof {
        lemma_digit_run_end_bounds(d@, 0);
        lemma_digit_run_end_bounds(d@, 5);
        lemma_digit_run_end_bounds(d@, 8);
        crate::text::lemma_val_bound(d@.subrange(0, digit_run_end(d@, 0)));
        crate::text::lemma_val_bound(d@.subrange(5, digit_run_end(d@, 5)));
        crate::text::lemma_val_bound(d@.subrange(8, digit_run_end(d@, 8)));
        assert(crate::text::pow10(0) == 1);
        assert(crate::text::pow10(1) == 10);
        assert(crate::text::pow10(2) == 100);
        assert(crate::text::pow10(3) == 1000);
        assert(crate::text::pow10(4) == 10000);
        assert(crate::text::pow10(5) == 100000);
        assert(crate::text::pow10(6) == 1000000);
        assert(crate::text::pow10(7) == 10000000);
        assert(crate::text::pow10(8) == 100000000);
        assert(crate::text::pow10(9) == 1000000000);
        assert(crate::text::pow10(10) == 10000000000);
    }
    let r1 = parse_dec(d, 0);
    match r1 {
        None => None,
        Some((y, j1)) => {
            if j1 != 4 {
                return None;
            }
            proof {
                assert(d@.take(4) =~= d@.subrange(0, 4));
            }
            let r2 = parse_dec(d, 5);
            match r2 {
                None => None,
                Some((mo, j2)) => {
                    if j2 != 7 {
                        return None;
                    }
                    let r3 = parse_dec(d, 8);
                    match r3 {
                        None => None,
                        Some((da, j3)) => {
                            if j3 != 10 {
                                return None;
                            }
                            Some(Date { year: y, month: mo, day: da })
                        },
                    }
                },
            }
        },
    }
}

/// The executable mirror of `LineK`.
pub enum LineKE {
    Release { level: u64, name: Version, date: Option<Date> },
    ConvHead { kind: Vec<u8>, breaking: bool },
    IdComment { id: Vec<u8> },
    DetOpen,
    DetClose,
    Msg { id: Vec<u8>, title: Vec<u8> },
    ClippyL { count: u64 },
    StatsL { stats: CommitStatistics },
    CatL { cat: Category },
    Plain,
}

impl DeepView for LineKE {
    type V = LineK;

    open spec fn deep_view(&self) -> LineK {
        match self {
            LineKE::Release { level, name, date } => LineK::Release {
                level: *level,
                name: name.deep_view(),
                date: *date,
            },
            LineKE::ConvHead { kind, breaking } => LineK::ConvHead {
                kind: kind.deep_view(),
                breaking: *breaking,
            },
            LineKE::IdComment { id } => LineK::IdComment { id: id.deep_view() },
            LineKE::DetOpen => LineK::DetOpen,
            LineKE::DetClose => LineK::DetClose,
            LineKE::Msg { id, title } => LineK::Msg {
                id: id.deep_view(),
                title: title.deep_view(),
            },
            LineKE::ClippyL { count } => LineK::ClippyL { count: *count },
            LineKE::StatsL { stats } => LineK::StatsL { stats: *stats },
            LineKE::CatL { cat } => LineK::CatL { cat: cat.deep_view() },
            LineKE::Plain => LineK::Plain,
        }
    }
}

fn conv_of_e(rest: Vec<u8>) -> (k: LineKE)
    ensures
        k.deep_view() == conv_of(rest@),
{
    let n = rest.len();
    if n > 0 && rest[n - 1] == 33 {
        let kind = subvec(&rest, 0, n - 1);
        proof {
            assert(kind.deep_view() =~= rest@.drop_last());
        }
        LineKE::ConvHead { kind, breaking: true }
    } else {
        proof {
            assert(rest.deep_view() =~= rest@);
        }
        LineKE::ConvHead { kind: rest, breaking: false }
    }
}

fn classify_heading_e(level: u64, rest: Vec<u8>) -> (k: LineKE)
    ensures
        k.deep_view() == classify_heading(level, rest@),
{
    let sp = find_space_e(&rest, 0);
    let vpart = subvec(&rest, 0, sp);
    proof {
        assert(vpart@ =~= rest@.take(sp as int));
    }
    match parse_version_e(&vpart) {
        Some(name) => {
            if sp == rest.len() {
                LineKE::Release { level, name, date: None }
            } else {
                let dplen = rest.len() - sp - 1;
                proof {
                    assert(rest@.skip(sp + 1).len() == dplen);
                }
                if dplen == 12 && rest[sp + 1] == 40 && rest[sp + 12] == 41 {
                    proof {
                        assert(rest@.skip(sp + 1)[0] == rest@[sp + 1]);
                        assert(rest@.skip(sp + 1)[11] == rest@[sp + 12]);
                    }
                    let dd = subvec(&rest, sp + 2, sp + 12);
                    proof {
                        assert(dd@ =~= rest@.skip(sp + 1).subrange(1, 11));
                    }
                    match parse_date_e(&dd) {
                        Some(date) => LineKE::Release { level, name, date: Some(date) },
                        None => conv_of_e(rest),
                    }
                } else {
                    conv_of_e(rest)
                }
            }
        },
        None => conv_of_e(rest),
    }
}

fn classify_stats_e(b: &Vec<u8>) -> (k: LineKE)
    requires
        match_at(b@, 0, c_star()),
    ensures
        k.deep_view() == classify_stats(b@),
{
    let nb: usize = b.len();
    let r1 = parse_dec(b, 2);
    let (v1, e1) = match r1 {
        None => { return LineKE::Plain; },
        Some(p) => p,
    };
    let commits = mk_commits();
    if !check_match_at(b, e1, &commits) {
        return LineKE::Plain;
    }
    proof {
        assert(e1 + c_commits().len() <= b@.len());
        assert(b@.len() == nb);
    }
    let s2 = e1 + 14;
    let r2 = parse_dec(b, s2);
    let (v2, e2) = match r2 {
        None => { return LineKE::Plain; },
        Some(p) => p,
    };
    let days = mk_days();
    if !check_match_at(b, e2, &days) {
        return LineKE::Plain;
    }
    proof {
        assert(e2 + c_days().len() <= b@.len());
        assert(b@.len() == nb);
    }
    let s3 = e2 + 7;
    let r3 = parse_dec(b, s3);
    let (v3, e3) = match r3 {
        None => { return LineKE::Plain; },
        Some(p) => p,
    };
    let conv = mk_conv();
    if !check_match_at(b, e3, &conv) {
        return LineKE::Plain;
    }
    proof {
        assert(e3 + c_conv().len() <= b@.len());
        assert(b@.len() == nb);
    }
    let s4 = e3 + 15;
    let r4 = parse_dec(b, s4);
    let (v4, e4) = match r4 {
        None => { return LineKE::Plain; },
        Some(p) => p,
    };
    let issues = mk_issues();
    if nb - e4 != 7 || !check_match_at(b, e4, &issues) {
        proof {
            if b@.skip(e4 as int) == c_issues() {
                assert(b@.skip(e4 as int).len() == 7);
                assert(b@.skip(e4 as int) =~= b@.subrange(e4 as int, e4 + 7));
            }
        }
        return LineKE::Plain;
    }
    proof {
        assert(b@.skip(e4 as int) =~= b@.subrange(e4 as int, e4 + 7));
    }
    LineKE::StatsL {
        stats: CommitStatistics {
            count: v1,
            duration_days: v2,
            conventional_count: v3,
            unique_issues_count: v4,
        },
    }
}

/// Classifies one raw line of input.
#[verifier::rlimit(80)]
pub fn classify_line(line: &Vec<u8>) -> (k: LineKE)
    ensures
        k.deep_view() == classify(line@),
{
    let n = line.len();
    let end: usize = if n > 0 && line[n - 1] == 10 {
        n - 1
    } else {
        n
    };
    let b = subvec(line, 0, end);
    proof {
        if n > 0 && line@.last() == 10 {
            assert(b@ =~= body_of(line@));
        } else {
            assert(b@ =~= body_of(line@));
        }
    }
    let blen = b.len();
    if blen > 0 && b[0] == 35 {
        let h = scan_hashes(&b);
        if h < blen && b[h] == 32 {
            let rest = subvec(&b, h + 1, blen);
            proof {
                assert(rest@ =~= b@.skip(h + 1));
            }
            classify_heading_e(h as u64, rest)
        } else {
            LineKE::Plain
        }
    } else {
        let copen = mk_comment_open();
        let cclose = mk_comment_close();
        if blen >= 9 && check_match_at(&b, 0, &copen) && check_match_at(&b, blen - 4, &cclose) {
            let id = subvec(&b, 5, blen - 4);
            proof {
                assert(id.deep_view() =~= b@.subrange(5, b@.len() - 4));
            }
            return LineKE::IdComment { id };
        }
        let dopen = mk_det_open();
        if bytes_eq(&b, &dopen) {
            return LineKE::DetOpen;
        }
        let dclose = mk_det_close();
        if bytes_eq(&b, &dclose) {
            return LineKE::DetClose;
        }
        let dash = mk_dash();
        if check_match_at(&b, 0, &dash) {
            let e = scan_hex(&b, 2);
            if 2 < e && e < blen && b[e] == 32 {
                let id = subvec(&b, 2, e);
                let title = subvec(&b, e + 1, blen);
                proof {
                    assert(id.deep_view() =~= b@.subrange(2, e as int));
                    assert(title.deep_view() =~= b@.skip(e + 1));
                }
                return LineKE::Msg { id, title };
            }
            return LineKE::Plain;
        }
        let plus = mk_plus();
        if check_match_at(&b, 0, &plus) {
            if blen > 2 && b[2] == 35 {
                let reference = subvec(&b, 3, blen);
                proof {
                    assert(b@.skip(2).len() > 0);
                    assert(b@.skip(2)[0] == b@[2]);
                    assert(reference.deep_view() =~= b@.skip(2).skip(1));
                }
                return LineKE::CatL { cat: Category::Issue { reference } };
            }
            let rest = subvec(&b, 2, blen);
            proof {
                assert(rest@ =~= b@.skip(2));
                if b@.skip(2).len() > 0 && b@.skip(2)[0] == 35 {
                    assert(blen > 2 && b@[2] == 35);
                }
            }
            let uncat = mk_uncat();
            if bytes_eq(&rest, &uncat) {
                return LineKE::CatL { cat: Category::Uncategorized };
            }
            return LineKE::Plain;
        }
        let clippy = mk_clippy();
        if check_match_at(&b, 0, &clippy) {
            let r = parse_dec(&b, 16);
            match r {
                Some((count, e)) => {
                    let times = mk_times();
                    if blen - e == 6 && check_match_at(&b, e, &times) {
                        proof {
                            assert(b@.skip(e as int) =~= b@.subrange(e as int, e + 6));
                        }
                        return LineKE::ClippyL { count };
                    }
                    proof {
                        if b@.skip(e as int) == c_times() {
                            assert(b@.skip(e as int).len() == 6);
                            assert(b@.skip(e as int) =~= b@.subrange(e as int, e + 6));
                        }
                    }
                    return LineKE::Plain;
                },
                None => {
                    return LineKE::Plain;
                },
            }
        }
        let star = mk_star();
        if check_match_at(&b, 0, &star) {
            return classify_stats_e(&b);
        }
        LineKE::Plain
    }
}

// --- rendering ------------------------------------------------------------

pub open spec fn enc_version(v: VersionV) -> Seq<u8> {
    match v {
        VersionV::Unreleased => c_unreleased(),
        VersionV::Semantic { major, minor, patch, prerelease } => dec_spec(major) + seq![46u8]
            + dec_spec(minor) + seq![46u8] + dec_spec(patch) + if prerelease.len() > 0 {
            seq![45u8] + prerelease
        } else {
            Seq::empty()
        },
    }
}

pub open spec fn enc_date(d: Date) -> Seq<u8> {
    pad_spec(d.year, 4) + seq![45u8] + pad_spec(d.month, 2) + seq![45u8] + pad_spec(d.day, 2)
}

pub open spec fn hashes(n: u64) -> Seq<u8> {
    Seq::new(n as nat, |i: int| 35u8)
}

pub open spec fn enc_heading(level: u64, name: VersionV, date: Option<Date>) -> Seq<u8> {
    hashes(level) + seq![32u8] + enc_version(name) + (match date {
        Some(d) => seq![32u8, 40u8] + enc_date(d) + seq![41u8],
        None => Seq::empty(),
    }) + seq![10u8]
}

pub open spec fn enc_id_line(id: Seq<u8>) -> Seq<u8> {
    c_comment_open() + id + c_comment_close() + seq![10u8]
}

pub open spec fn enc_ids(ids: Seq<Seq<u8>>) -> Seq<u8>
    decreases ids.len(),
{
    if ids.len() == 0 {
        Seq::empty()
    } else {
        enc_ids(ids.drop_last()) + enc_id_line(ids.last())
    }
}

pub open spec fn enc_msg_line(m: MessageV) -> Seq<u8> {
    c_dash() + m.id + seq![32u8] + m.title + seq![10u8]
}

pub open spec fn enc_msgs(ms: Seq<MessageV>) -> Seq<u8>
    decreases ms.len(),
{
    if ms.len() == 0 {
        Seq::empty()
    } else {
        enc_msgs(ms.drop_last()) + enc_msg_line(ms.last())
    }
}

pub open spec fn enc_conv(level: u64, c: ConventionalV) -> Seq<u8> {
    hashes((level + 1) as u64) + seq![32u8] + c.kind + (if c.is_breaking {
        seq![33u8]
    } else {
        Seq::empty()
    }) + seq![10u8] + enc_ids(c.removed) + enc_msgs(c.messages)
}

pub open spec fn enc_clippy(t: ThanksClippy) -> Seq<u8> {
    c_clippy() + dec_spec(t.count) + c_times() + seq![10u8]
}

pub open spec fn enc_stats(s: CommitStatistics) -> Seq<u8> {
    c_star() + dec_spec(s.count) + c_commits() + dec_spec(s.duration_days) + c_days() + dec_spec(
        s.conventional_count,
    ) + c_conv() + dec_spec(s.unique_issues_count) + c_issues() + seq![10u8]
}

pub open spec fn enc_cat_head(c: CategoryV) -> Seq<u8> {
    c_plus() + (match c {
        CategoryV::Uncategorized => c_uncat(),
        CategoryV::Issue { reference } => seq![35u8] + reference,
    }) + seq![10u8]
}

pub open spec fn enc_cat(cm: CategoryMessagesV) -> Seq<u8> {
    enc_cat_head(cm.category) + enc_msgs(cm.messages)
}

pub open spec fn enc_cats(cs: Seq<CategoryMessagesV>) -> Seq<u8>
    decreases cs.len(),
{
    if cs.len() == 0 {
        Seq::empty()
    } else {
        enc_cats(cs.drop_last()) + enc_cat(cs.last())
    }
}

pub open spec fn enc_details(d: DetailsV) -> Seq<u8> {
    c_det_open() + seq![10u8] + enc_cats(d.commits_by_category) + c_det_close() + seq![10u8]
}

pub open spec fn enc_seg(level: u64, g: SegmentV) -> Seq<u8> {
    match g {
        SegmentV::User { markdown } => markdown,
        SegmentV::Conventional(c) => enc_conv(level, c),
        SegmentV::Clippy(DataV::Generated(t)) => enc_clippy(t),
        SegmentV::Statistics(DataV::Generated(s)) => enc_stats(s),
        SegmentV::Details(DataV::Generated(d)) => enc_details(d),
    }
}

pub open spec fn enc_segs(level: u64, gs: Seq<SegmentV>) -> Seq<u8>
    decreases gs.len(),
{
    if gs.len() == 0 {
        Seq::empty()
    } else {
        enc_segs(level, gs.drop_last()) + enc_seg(level, gs.last())
    }
}

pub open spec fn enc_section(sec: SectionV) -> Seq<u8> {
    match sec {
        SectionV::Verbatim { text, generated } => (if generated {
            enc_id_line(c_generated())
        } else {
            Seq::empty()
        }) + text,
        SectionV::Release { heading_level, date, name, removed_messages, segments, unknown } => enc_heading(
            heading_level,
            name,
            date,
        ) + enc_ids(removed_messages) + enc_segs(heading_level, segments) + unknown,
    }
}

pub open spec fn enc_sections(ss: Seq<SectionV>) -> Seq<u8>
    decreases ss.len(),
{
    if ss.len() == 0 {
        Seq::empty()
    } else {
        enc_sections(ss.drop_last()) + enc_section(ss.last())
    }
}

/// The full rendering of a document.
pub open spec fn spec_encode(v: ChangeLogV) -> Seq<u8> {
    enc_sections(v.sections)
}

/// Heading levels a markdown renderer accepts.
pub open spec fn section_level_ok(sec: SectionV) -> bool {
    match sec {
        SectionV::Verbatim { .. } => true,
        SectionV::Release { heading_level, .. } => 1 <= heading_level <= 6,
    }
}

pub open spec fn levels_ok(v: ChangeLogV) -> bool {
    forall|i: int| 0 <= i < v.sections.len() ==> section_level_ok(#[trigger] v.sections[i])
}

fn push_hashes(out: &mut Vec<u8>, n: u64)
    ensures
        final(out)@ == old(out)@ + hashes(n),
{
    let mut k: u64 = 0;
    while k < n
        invariant
            0 <= k <= n,
            out@ == old(out)@ + hashes(k),
        decreases n - k,
    {
        out.push(35u8);
        proof {
            assert(old(out)@ + hashes((k + 1) as u64) =~= (old(out)@ + hashes(k)).push(35u8));
        }
        k = k + 1;
    }
}

fn enc_version_e(out: &mut Vec<u8>, v: &Version)
    ensures
        final(out)@ == old(out)@ + enc_version(v.deep_view()),
{
    match v {
        Version::Unreleased => {
            let u = mk_unreleased();
            push_bytes(out, &u);
        },
        Version::Semantic { major, minor, patch, prerelease } => {
            push_dec(out, *major);
            out.push(46u8);
            push_dec(out, *minor);
            out.push(46u8);
            push_dec(out, *patch);
            if prerelease.len() > 0 {
                out.push(45u8);
                push_bytes(out, prerelease);
            }
            proof {
                assert(prerelease.deep_view() =~= prerelease@);
                assert(out@ =~= old(out)@ + enc_version(v.deep_view()));
            }
        },
    }
}

fn enc_date_e(out: &mut Vec<u8>, d: &Date)
    ensures
        final(out)@ == old(out)@ + enc_date(*d),
{
    push_pad(out, d.year, 4);
    out.push(45u8);
    push_pad(out, d.month, 2);
    out.push(45u8);
    push_pad(out, d.day, 2);
    proof {
        assert(out@ =~= old(out)@ + enc_date(*d));
    }
}

fn enc_id_line_e(out: &mut Vec<u8>, id: &Vec<u8>)
    ensures
        final(out)@ == old(out)@ + enc_id_line(id@),
{
    let o = mk_comment_open();
    push_bytes(out, &o);
    push_bytes(out, id);
    let c = mk_comment_close();
    push_bytes(out, &c);
    out.push(10u8);
    proof {
        assert(out@ =~= old(out)@ + enc_id_line(id@));
    }
}

fn enc_ids_e(out: &mut Vec<u8>, ids: &Vec<Vec<u8>>)
    ensures
        final(out)@ == old(out)@ + enc_ids(ids.deep_view()),
{
    let mut i: usize = 0;
    proof {
        assert(enc_ids(ids.deep_view().take(0)) =~= Seq::<u8>::empty());
        assert(out@ =~= old(out)@ + enc_ids(ids.deep_view().take(0)));
    }
    while i < ids.len()
        invariant
            0 <= i <= ids@.len(),
            out@ == old(out)@ + enc_ids(ids.deep_view().take(i as int)),
        decreases ids@.len() - i,
    {
        enc_id_line_e(out, &ids[i]);
        proof {
            let dv = ids.deep_view();
            assert(dv.take(i + 1).drop_last() =~= dv.take(i as int));
            assert(dv.take(i + 1).last() =~= ids@[i as int]@);
            assert(enc_ids(dv.take(i + 1)) == enc_ids(dv.take(i as int)) + enc_id_line(
                dv.take(i + 1).last(),
            ));
        }
        i = i + 1;
    }
    proof {
        assert(ids.deep_view().take(ids@.len() as int) =~= ids.deep_view());
    }
}

fn enc_msg_line_e(out: &mut Vec<u8>, m: &Message)
    ensures
        final(out)@ == old(out)@ + enc_msg_line(m.deep_view()),
{
    let d = mk_dash();
    push_bytes(out, &d);
    push_bytes(out, &m.id);
    out.push(32u8);
    push_bytes(out, &m.title);
    out.push(10u8);
    proof {
        assert(m.id.deep_view() =~= m.id@);
        assert(m.title.deep_view() =~= m.title@);
        assert(out@ =~= old(out)@ + enc_msg_line(m.deep_view()));
    }
}

fn enc_msgs_e(out: &mut Vec<u8>, ms: &Vec<Message>)
    ensures
        final(out)@ == old(out)@ + enc_msgs(ms.deep_view()),
{
    let mut i: usize = 0;
    proof {
        assert(enc_msgs(ms.deep_view().take(0)) =~= Seq::<u8>::empty());
        assert(out@ =~= old(out)@ + enc_msgs(ms.deep_view().take(0)));
    }
    while i < ms.len()
        invariant
            0 <= i <= ms@.len(),
            out@ == old(out)@ + enc_msgs(ms.deep_view().take(i as int)),
        decreases ms@.len() - i,
    {
        enc_msg_line_e(out, &ms[i]);
        proof {
            let dv = ms.deep_view();
            assert(dv.take(i + 1).drop_last() =~= dv.take(i as int));
            assert(dv.take(i + 1).last() =~= ms@[i as int].deep_view());
            assert(enc_msgs(dv.take(i + 1)) == enc_msgs(dv.take(i as int)) + enc_msg_line(
                dv.take(i + 1).last(),
            ));
        }
        i = i + 1;
    }
    proof {
        assert(ms.deep_view().take(ms@.len() as int) =~= ms.deep_view());
    }
}

fn enc_clippy_e(out: &mut Vec<u8>, t: &ThanksClippy)
    ensures
        final(out)@ == old(out)@ + enc_clippy(*t),
{
    let c = mk_clippy();
    push_bytes(out, &c);
    push_dec(out, t.count);
    let s = mk_times();
    push_bytes(out, &s);
    out.push(10u8);
    proof {
        assert(out@ =~= old(out)@ + enc_clippy(*t));
    }
}

fn enc_stats_e(out: &mut Vec<u8>, s: &CommitStatistics)
    ensures
        final(out)@ == old(out)@ + enc_stats(*s),
{
    let star = mk_star();
    push_bytes(out, &star);
    push_dec(out, s.count);
    let c1 = mk_commits();
    push_bytes(out, &c1);
    push_dec(out, s.duration_days);
    let c2 = mk_days();
    push_bytes(out, &c2);
    push_dec(out, s.conventional_count);
    let c3 = mk_conv();
    push_bytes(out, &c3);
    push_dec(out, s.unique_issues_count);
    let c4 = mk_issues();
    push_bytes(out, &c4);
    out.push(10u8);
    proof {
        assert(out@ =~= old(out)@ + enc_stats(*s));
    }
}

fn enc_cat_e(out: &mut Vec<u8>, cm: &CategoryMessages)
    ensures
        final(out)@ == old(out)@ + enc_cat(cm.deep_view()),
{
    let p = mk_plus();
    push_bytes(out, &p);
    match &cm.category {
        Category::Uncategorized => {
            let u = mk_uncat();
            push_bytes(out, &u);
        },
        Category::Issue { reference } => {
            out.push(35u8);
            push_bytes(out, reference);
            proof {
                assert(reference.deep_view() =~= reference@);
            }
        },
    }
    out.push(10u8);
    enc_msgs_e(out, &cm.messages);
    proof {
        assert(out@ =~= old(out)@ + enc_cat(cm.deep_view()));
    }
}

fn enc_cats_e(out: &mut Vec<u8>, cs: &Vec<CategoryMessages>)
    ensures
        final(out)@ == old(out)@ + enc_cats(cs.deep_view()),
{
    let mut i: usize = 0;
    proof {
        assert(enc_cats(cs.deep_view().take(0)) =~= Seq::<u8>::empty());
        assert(out@ =~= old(out)@ + enc_cats(cs.deep_view().take(0)));
    }
    while i < cs.len()
        invariant
            0 <= i <= cs@.len(),
            out@ == old(out)@ + enc_cats(cs.deep_view().take(i as int)),
        decreases cs@.len() - i,
    {
        enc_cat_e(out, &cs[i]);
        proof {
            let dv = cs.deep_view();
            assert(dv.take(i + 1).drop_last() =~= dv.take(i as int));
            assert(dv.take(i + 1).last() =~= cs@[i as int].deep_view());
            assert(enc_cats(dv.take(i + 1)) == enc_cats(dv.take(i as int)) + enc_cat(
                dv.take(i + 1).last(),
            ));
        }
        i = i + 1;
    }
    proof {
        assert(cs.deep_view().take(cs@.len() as int) =~= cs.deep_view());
    }
}

fn enc_details_e(out: &mut Vec<u8>, d: &Details)
    ensures
        final(out)@ == old(out)@ + enc_details(d.deep_view()),
{
    let o = mk_det_open();
    push_bytes(out, &o);
    out.push(10u8);
    enc_cats_e(out, &d.commits_by_category);
    let c = mk_det_close();
    push_bytes(out, &c);
    out.push(10u8);
    proof {
        assert(out@ =~= old(out)@ + enc_details(d.deep_view()));
    }
}

fn enc_conv_e(out: &mut Vec<u8>, level: u64, c: &Conventional)
    requires
        level <= 6,
    ensures
        final(out)@ == old(out)@ + enc_conv(level, c.deep_view()),
{
    push_hashes(out, level + 1);
    out.push(32u8);
    push_bytes(out, &c.kind);
    if c.is_breaking {
        out.push(33u8);
    }
    out.push(10u8);
    enc_ids_e(out, &c.removed);
    enc_msgs_e(out, &c.messages);
    proof {
        assert(c.kind.deep_view() =~= c.kind@);
        assert(out@ =~= old(out)@ + enc_conv(level, c.deep_view()));
    }
}

fn enc_seg_e(out: &mut Vec<u8>, level: u64, g: &Segment)
    requires
        level <= 6,
    ensures
        final(out)@ == old(out)@ + enc_seg(level, g.deep_view()),
{
    match g {
        Segment::User { markdown } => {
            push_bytes(out, markdown);
            proof {
                assert(markdown.deep_view() =~= markdown@);
            }
        },
        Segment::Conventional(c) => {
            enc_conv_e(out, level, c);
        },
        Segment::Clippy(Data::Generated(t)) => {
            enc_clippy_e(out, t);
        },
        Segment::Statistics(Data::Generated(s)) => {
            enc_stats_e(out, s);
        },
        Segment::Details(Data::Generated(d)) => {
            enc_details_e(out, d);
        },
    }
}

#[verifier::rlimit(100)]
fn enc_section_e(out: &mut Vec<u8>, sec: &Section)
    requires
        section_level_ok(sec.deep_view()),
    ensures
        final(out)@ == old(out)@ + enc_section(sec.deep_view()),
{
    match sec {
        Section::Verbatim { text, generated } => {
            if *generated {
                let g = mk_generated();
                enc_id_line_e(out, &g);
            }
            push_bytes(out, text);
            proof {
                assert(text.deep_view() =~= text@);
                assert(out@ =~= old(out)@ + enc_section(sec.deep_view()));
            }
        },
        Section::Release { heading_level, date, name, removed_messages, segments, unknown } => {
            push_hashes(out, *heading_level);
            out.push(32u8);
            enc_version_e(out, name);
            match date {
                Some(d) => {
                    out.push(32u8);
                    out.push(40u8);
                    enc_date_e(out, d);
                    out.push(41u8);
                },
                None => {},
            }
            out.push(10u8);
            proof {
                assert(out@ =~= old(out)@ + enc_heading(
                    *heading_level,
                    name.deep_view(),
                    *date,
                ));
            }
            enc_ids_e(out, removed_messages);
            let mut i: usize = 0;
            let ghost mid = out@;
            proof {
                assert(enc_segs(*heading_level, segments.deep_view().take(0))
                    =~= Seq::<u8>::empty());
                assert(out@ =~= mid + enc_segs(*heading_level, segments.deep_view().take(0)));
            }
            while i < segments.len()
                invariant
                    0 <= i <= segments@.len(),
                    1 <= *heading_level <= 6,
                    out@ == mid + enc_segs(*heading_level, segments.deep_view().take(i as int)),
                decreases segments@.len() - i,
            {
                enc_seg_e(out, *heading_level, &segments[i]);
                proof {
                    let dv = segments.deep_view();
                    assert(dv.take(i + 1).drop_last() =~= dv.take(i as int));
                    assert(dv.take(i + 1).last() =~= segments@[i as int].deep_view());
                    assert(enc_segs(*heading_level, dv.take(i + 1)) == enc_segs(
                        *heading_level,
                        dv.take(i as int),
                    ) + enc_seg(*heading_level, dv.take(i + 1).last()));
                }
                i = i + 1;
            }
            proof {
                assert(segments.deep_view().take(segments@.len() as int)
                    =~= segments.deep_view());
            }
            push_bytes(out, unknown);
            proof {
                assert(unknown.deep_view() =~= unknown@);
                assert(out@ =~= old(out)@ + enc_section(sec.deep_view()));
            }
        },
    }
}

impl ChangeLog {
    /// Renders the document. The rendering is a pure function of the
    /// document's value, so two documents with equal views render to
    /// byte-identical text.
    pub fn write_to(&self, out: &mut Vec<u8>)
        requires
            levels_ok(self.deep_view()),
        ensures
            final(out)@ == old(out)@ + spec_encode(self.deep_view()),
    {
        let mut i: usize = 0;
        proof {
            assert(enc_sections(self.sections.deep_view().take(0)) =~= Seq::<u8>::empty());
            assert(out@ =~= old(out)@ + enc_sections(self.sections.deep_view().take(0)));
        }
        while i < self.sections.len()
            invariant
                0 <= i <= self.sections@.len(),
                levels_ok(self.deep_view()),
                out@ == old(out)@ + enc_sections(self.sections.deep_view().take(i as int)),
            decreases self.sections@.len() - i,
        {
            proof {
                assert(self.deep_view().sections[i as int] == self.sections@[i as int].deep_view());
            }
            enc_section_e(out, &self.sections[i]);
            proof {
                let dv = self.sections.deep_view();
                assert(dv.take(i + 1).drop_last() =~= dv.take(i as int));
                assert(dv.take(i + 1).last() =~= self.sections@[i as int].deep_view());
                assert(enc_sections(dv.take(i + 1)) == enc_sections(dv.take(i as int))
                    + enc_section(dv.take(i + 1).last()));
            }
            i = i + 1;
        }
        proof {
            assert(self.sections.deep_view().take(self.sections@.len() as int)
                =~= self.sections.deep_view());
        }
    }
}

} // verus!
