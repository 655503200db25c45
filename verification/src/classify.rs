//! The commit classifier: turns raw commits into structured records. A
//! header of the form `type(scope)!: subject` yields the conventional
//! kind; breaking changes come from the `!` marker or a `BREAKING CHANGE`
//! footer in the body; issue references are `#` followed by digits in the
//! commit title.

use vstd::prelude::*;
use crate::text::{digit_run_end, is_digit, lemma_digit_run_end_bounds, match_at, check_match_at};
use crate::codec::subvec;

verus! {

/// A commit as version control hands it over: plain values only.
#[derive(Clone, PartialEq, Eq, Debug)]
pub struct RawCommit {
    pub id: Vec<u8>,
    pub title: Vec<u8>,
    pub body: Vec<u8>,
    pub time: u64,
}

pub struct RawCommitV {
    pub id: Seq<u8>,
    pub title: Seq<u8>,
    pub body: Seq<u8>,
    pub time: u64,
}

impl DeepView for RawCommit {
    type V = RawCommitV;

    open spec fn deep_view(&self) -> RawCommitV {
        RawCommitV {
            id: self.id.deep_view(),
            title: self.title.deep_view(),
            body: self.body.deep_view(),
            time: self.time,
        }
    }
}

/// A classified commit record.
#[derive(Clone, PartialEq, Eq, Debug)]
pub struct Commit {
    pub id: Vec<u8>,
    pub title: Vec<u8>,
    pub time: u64,
    pub kind: Option<Vec<u8>>,
    pub is_breaking: bool,
    pub issue_refs: Vec<Vec<u8>>,
}

#[verifier::ext_equal]
pub struct CommitV {
    pub id: Seq<u8>,
    pub title: Seq<u8>,
    pub time: u64,
    pub kind: Option<Seq<u8>>,
    pub is_breaking: bool,
    pub issue_refs: Seq<Seq<u8>>,
}

impl DeepView for Commit {
    type V = CommitV;

    open spec fn deep_view(&self) -> CommitV {
        CommitV {
            id: self.id.deep_view(),
            title: self.title.deep_view(),
            time: self.time,
            kind: self.kind.deep_view(),
            is_breaking: self.is_breaking,
            issue_refs: self.issue_refs.deep_view(),
        }
    }
}

/// First `:` at or after `i`, or the end.
pub open spec fn find_colon(s: Seq<u8>, i: int) -> int
    decreases s.len() - i,
{
    if 0 <= i < s.len() && s[i] != 58 {
        find_colon(s, i + 1)
    } else {
        i
    }
}

proof fn lemma_find_colon_at(s: Seq<u8>, i: int, j: int)
    requires
        0 <= i <= j <= s.len(),
        forall|k: int| i <= k < j ==> s[k] != 58,
        j == s.len() || s[j] == 58,
    ensures
        find_colon(s, i) == j,
    decreases j - i,
{
    if i < j {
        lemma_find_colon_at(s, i + 1, j);
    }
}

/// First `(` at or after `i`, or the end.
pub open spec fn find_paren(s: Seq<u8>, i: int) -> int
    decreases s.len() - i,
{
    if 0 <= i < s.len() && s[i] != 40 {
        find_paren(s, i + 1)
    } else {
        i
    }
}

proof fn lemma_find_paren_at(s: Seq<u8>, i: int, j: int)
    requires
        0 <= i <= j <= s.len(),
        forall|k: int| i <= k < j ==> s[k] != 40,
        j == s.len() || s[j] == 40,
    ensures
        find_paren(s, i) == j,
    decreases j - i,
{
    if i < j {
        lemma_find_paren_at(s, i + 1, j);
    }
}

/// The conventional kind and breaking marker of a commit header, if the
/// header has the `type(scope)!: subject` shape.
pub open spec fn parse_header(title: Seq<u8>) -> Option<(Seq<u8>, bool)> {
    let c = find_colon(title, 0);
    if c >= title.len() || c == 0 {
        None
    } else {
        let pre = title.take(c);
        let bang = pre.last() == 33;
        let pre2 = if bang {
            pre.drop_last()
        } else {
            pre
        };
        let kind = pre2.take(find_paren(pre2, 0));
        if kind.len() == 0 {
            None
        } else {
            Some((kind, bang))
        }
    }
}

/// The text contains `pat` somewhere.
pub open spec fn contains_pat(s: Seq<u8>, pat: Seq<u8>) -> bool {
    exists|i: int| 0 <= i && match_at(s, i, pat)
}

/// `BREAKING CHANGE`
pub open spec fn c_breaking() -> Seq<u8> {
    seq![66u8, 82u8, 69u8, 65u8, 75u8, 73u8, 78u8, 71u8, 32u8, 67u8, 72u8, 65u8, 78u8, 71u8, 69u8]
}

fn mk_breaking() -> (v: Vec<u8>)
    ensures
        v@ == c_breaking(),
{
    let v = vec![66u8, 82u8, 69u8, 65u8, 75u8, 73u8, 78u8, 71u8, 32u8, 67u8, 72u8, 65u8, 78u8, 71u8, 69u8];
    proof {
        assert(v@ =~= c_breaking());
    }
    v
}

/// Finds whether `pat` occurs anywhere in `s`.
pub fn find_pat(s: &Vec<u8>, pat: &Vec<u8>) -> (r: bool)
    ensures
        r == contains_pat(s@, pat@),
{
    if pat.len() == 0 {
        proof {
            assert(match_at(s@, 0, pat@)) by {
                assert(s@.subrange(0, 0) =~= pat@);
            }
        }
        return true;
    }
    if pat.len() > s.len() {
        proof {
            if contains_pat(s@, pat@) {
                let i = choose|i: int| 0 <= i && match_at(s@, i, pat@);
            }
        }
        return false;
    }
    let mut i: usize = 0;
    while i <= s.len() - pat.len()
        invariant
            1 <= pat@.len() <= s@.len(),
            0 <= i <= s@.len() - pat@.len() + 1,
            forall|k: int| 0 <= k < i ==> !match_at(s@, k, pat@),
        decreases s@.len() - pat@.len() + 1 - i,
    {
        if check_match_at(s, i, pat) {
            return true;
        }
        i = i + 1;
    }
    proof {
        if contains_pat(s@, pat@) {
            let k = choose|k: int| 0 <= k && match_at(s@, k, pat@);
            assert(k + pat@.len() <= s@.len());
            assert(!match_at(s@, k, pat@));
        }
    }
    false
}

/// All `#`-digit references in the text, in order of appearance
/// (duplicates kept; counting and grouping deduplicate downstream).
pub open spec fn refs_from(s: Seq<u8>, i: int) -> Seq<Seq<u8>>
    decreases s.len() - i,
    when 0 <= i <= s.len()
    via refs_from_dec
{
    if i >= s.len() {
        Seq::empty()
    } else if s[i] == 35 && digit_run_end(s, i + 1) > i + 1 {
        seq![s.subrange(i + 1, digit_run_end(s, i + 1))] + refs_from(s, digit_run_end(s, i + 1))
    } else {
        refs_from(s, i + 1)
    }
}

#[via_fn]
proof fn refs_from_dec(s: Seq<u8>, i: int) {
    if 0 <= i < s.len() {
        lemma_digit_run_end_bounds(s, i + 1);
    }
}

/// Extracts the issue references of a text.
pub fn extract_refs(s: &Vec<u8>) -> (r: Vec<Vec<u8>>)
    ensures
        r.deep_view() == refs_from(s@, 0),
{
    let mut r: Vec<Vec<u8>> = Vec::new();
    let mut i: usize = 0;
    proof {
        assert(r.deep_view() + refs_from(s@, 0) =~= refs_from(s@, 0));
    }
    while i < s.len()
        invariant
            0 <= i <= s@.len(),
            r.deep_view() + refs_from(s@, i as int) == refs_from(s@, 0),
        decreases s@.len() - i,
    {
        proof {
            lemma_digit_run_end_bounds(s@, i + 1);
        }
        if s[i] == 35 {
            let mut j: usize = i + 1;
            while j < s.len() && 48 <= s[j] && s[j] <= 57
                invariant
                    i + 1 <= j <= s@.len(),
                    forall|k: int| i + 1 <= k < j ==> is_digit(s@[k]),
                decreases s@.len() - j,
            {
                j = j + 1;
            }
            proof {
                crate::text::lemma_digit_run_end_at(s@, i + 1, j as int);
            }
            if j > i + 1 {
                let refv = subvec(s, i + 1, j);
                let ghost r0 = r.deep_view();
                r.push(refv);
                proof {
                    assert(r.deep_view() =~~= r0.push(refv@));
                    assert(refs_from(s@, i as int) == seq![s@.subrange(i + 1, j as int)]
                        + refs_from(s@, j as int));
                    assert(r.deep_view() + refs_from(s@, j as int) =~= r0 + refs_from(
                        s@,
                        i as int,
                    ));
                }
                i = j;
            } else {
                proof {
                    assert(refs_from(s@, i as int) == refs_from(s@, i + 1));
                }
                i = i + 1;
            }
        } else {
            proof {
                assert(refs_from(s@, i as int) == refs_from(s@, i + 1));
            }
            i = i + 1;
        }
    }
    proof {
        assert(refs_from(s@, s@.len() as int) =~= Seq::<Seq<u8>>::empty());
        assert(r.deep_view() =~= r.deep_view() + Seq::<Seq<u8>>::empty());
    }
    r
}

/// What classification makes of a raw commit.
pub open spec fn spec_classify_commit(raw: RawCommitV) -> CommitV {
    let header = parse_header(raw.title);
    CommitV {
        id: raw.id,
        title: raw.title,
        time: raw.time,
        kind: match header {
            Some((k, _)) => Some(k),
            None => None,
        },
        is_breaking: (match header {
            Some((_, bang)) => bang,
            None => false,
        }) || contains_pat(raw.body, c_breaking()),
        issue_refs: refs_from(raw.title, 0),
    }
}

/// Classifies one raw commit. Unparseable headers yield no kind; such
/// commits are filed under the uncategorized listing and do not count as
/// conventional.
pub fn classify_commit(raw: RawCommit) -> (c: Commit)
    ensures
        c.deep_view() == spec_classify_commit(raw.deep_view()),
{
    let title = raw.title;
    let n = title.len();
    // find the colon ending the header prefix
    let mut ci: usize = 0;
    while ci < n && title[ci] != 58
        invariant
            0 <= ci <= title@.len(),
            n == title@.len(),
            forall|k: int| 0 <= k < ci ==> title@[k] != 58,
        decreases n - ci,
    {
        ci = ci + 1;
    }
    proof {
        lemma_find_colon_at(title@, 0, ci as int);
    }
    let mut kind: Option<Vec<u8>> = None;
    let mut bang = false;
    if ci < n && ci > 0 {
        let pre_end: usize = if title[ci - 1] == 33 {
            bang = true;
            ci - 1
        } else {
            ci
        };
        proof {
            let pre = title@.take(ci as int);
            if bang {
                assert(pre.drop_last() =~= title@.take(pre_end as int));
            }
        }
        // the kind stops at a scope parenthesis
        let mut pi: usize = 0;
        while pi < pre_end && title[pi] != 40
            invariant
                0 <= pi <= pre_end,
                pre_end <= title@.len(),
                forall|k: int| 0 <= k < pi ==> title@[k] != 40,
            decreases pre_end - pi,
        {
            pi = pi + 1;
        }
        proof {
            let pre2 = title@.take(pre_end as int);
            lemma_find_paren_at(pre2, 0, pi as int);
            assert(pre2.take(pi as int) =~= title@.take(pi as int));
        }
        if pi > 0 {
            let k = subvec(&title, 0, pi);
            proof {
                assert(k@ =~= title@.take(pi as int));
            }
            kind = Some(k);
            proof {
                let c = find_colon(title@, 0);
                let pre = title@.take(c);
                assert(pre.last() == title@[ci - 1]);
                let pre2 = title@.take(pre_end as int);
                assert(pre2.take(find_paren(pre2, 0)) =~= title@.take(pi as int));
                assert(parse_header(title@) == Some((title@.take(pi as int), bang)));
            }
        } else {
            bang = false;
            kind = None;
            proof {
                let c = find_colon(title@, 0);
                let pre = title@.take(c);
                let pre2 = title@.take(pre_end as int);
                assert(pre2.take(find_paren(pre2, 0)).len() == 0);
                assert(parse_header(title@) is None);
            }
        }
    }
    proof {
        if ci >= n || ci == 0 {
            assert(parse_header(title@) is None);
        }
    }
    let breaking_pat = mk_breaking();
    let body_breaking = find_pat(&raw.body, &breaking_pat);
    let refs = extract_refs(&title);
    let c = Commit {
        id: raw.id,
        title,
        time: raw.time,
        kind,
        is_breaking: bang || body_breaking,
        issue_refs: refs,
    };
    proof {
        assert(title.deep_view() =~= title@);
        assert(raw.deep_view().title == title@);
        assert(raw.body.deep_view() =~= raw.body@);
        assert(c.deep_view() =~~= spec_classify_commit(raw.deep_view()));
    }
    c
}

pub open spec fn segment_holds_id(seg: crate::model::SegmentV, id: Seq<u8>) -> bool {
    seg is Conventional && seg->Conventional_0.removed.contains(id)
}

pub open spec fn section_holds_id(sec: crate::model::SectionV, id: Seq<u8>) -> bool {
    sec is Release && (sec->Release_removed_messages.contains(id) || exists|k: int|
        0 <= k < sec->Release_segments.len() && segment_holds_id(
            #[trigger] sec->Release_segments[k],
            id,
        ))
}

/// Commit ids held in a release's exclusion sets must never be
/// re-surfaced: `id` is recorded as removed somewhere in the log.
pub open spec fn id_removed(log: crate::model::ChangeLogV, id: Seq<u8>) -> bool {
    exists|i: int|
        0 <= i < log.sections.len() && section_holds_id(#[trigger] log.sections[i], id)
}

} // verus!
