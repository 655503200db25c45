//! The changelog generator: computes the machine-generated segments from
//! this run's classified commits and merges them into the document —
//! replacing the generated segments of an existing release entry for the
//! same version, or turning the floating `Unreleased` entry into the new
//! release. Hand-authored segments, exclusion sets and opaque trailing
//! text are kept untouched, so a second run over the same input produces
//! an identical document.

use vstd::prelude::*;
use crate::model::{
    Category, CategoryMessages, CategoryMessagesV, CategoryV, ChangeLog, ChangeLogV,
    CommitStatistics, Conventional, ConventionalV, Data, DataV, Date, Details, DetailsV, Message,
    MessageV, Section, SectionV, Segment, SegmentV, ThanksClippy, Version, VersionV,
};
use crate::classify::{Commit, CommitV, id_removed, section_holds_id, segment_holds_id};
use crate::codec::subvec;
use crate::text::{bytes_eq, bytes_lt, lex_lt};

verus! {

pub open spec fn msg_of(c: CommitV) -> MessageV {
    MessageV { id: c.id, title: c.title }
}

// --- statistics -----------------------------------------------------------

pub open spec fn count_conventional(cs: Seq<CommitV>) -> int
    decreases cs.len(),
{
    if cs.len() == 0 {
        0
    } else {
        count_conventional(cs.drop_last()) + if cs.last().kind is Some {
            1int
        } else {
            0int
        }
    }
}

pub open spec fn min_time(cs: Seq<CommitV>) -> u64
    decreases cs.len(),
{
    if cs.len() == 0 {
        0
    } else if cs.len() == 1 {
        cs[0].time
    } else if cs.last().time < min_time(cs.drop_last()) {
        cs.last().time
    } else {
        min_time(cs.drop_last())
    }
}

pub open spec fn max_time(cs: Seq<CommitV>) -> u64
    decreases cs.len(),
{
    if cs.len() == 0 {
        0
    } else if cs.len() == 1 {
        cs[0].time
    } else if cs.last().time > max_time(cs.drop_last()) {
        cs.last().time
    } else {
        max_time(cs.drop_last())
    }
}

proof fn lemma_min_le_max(cs: Seq<CommitV>)
    ensures
        min_time(cs) <= max_time(cs),
    decreases cs.len(),
{
    if cs.len() > 1 {
        lemma_min_le_max(cs.drop_last());
    }
}

pub open spec fn all_refs(cs: Seq<CommitV>) -> Seq<Seq<u8>>
    decreases cs.len(),
{
    if cs.len() == 0 {
        Seq::empty()
    } else {
        all_refs(cs.drop_last()) + cs.last().issue_refs
    }
}

pub open spec fn distinct_count(s: Seq<Seq<u8>>) -> int
    decreases s.len(),
{
    if s.len() == 0 {
        0
    } else {
        distinct_count(s.drop_last()) + if s.drop_last().contains(s.last()) {
            0int
        } else {
            1int
        }
    }
}

proof fn lemma_distinct_bound(s: Seq<Seq<u8>>)
    ensures
        0 <= distinct_count(s) <= s.len(),
    decreases s.len(),
{
    if s.len() > 0 {
        lemma_distinct_bound(s.drop_last());
    }
}

/// The statistics block of a release: total commits, the span between the
/// oldest and newest commit in days, the conventional share, and the
/// distinct issue references.
pub open spec fn spec_statistics(cs: Seq<CommitV>) -> CommitStatistics {
    CommitStatistics {
        count: cs.len() as u64,
        duration_days: (((max_time(cs) - min_time(cs)) as u64) / 86400u64) as u64,
        conventional_count: count_conventional(cs) as u64,
        unique_issues_count: distinct_count(all_refs(cs)) as u64,
    }
}

fn copy_bytes(v: &Vec<u8>) -> (r: Vec<u8>)
    ensures
        r@ == v@,
{
    subvec(v, 0, v.len())
}

/// Collects every issue reference of this run, duplicates included.
fn flat_refs(commits: &Vec<Commit>) -> (r: Vec<Vec<u8>>)
    ensures
        r.deep_view() == all_refs(commits.deep_view()),
{
    let mut r: Vec<Vec<u8>> = Vec::new();
    let mut i: usize = 0;
    proof {
        assert(all_refs(commits.deep_view().take(0)) =~= Seq::<Seq<u8>>::empty());
        assert(r.deep_view() =~= all_refs(commits.deep_view().take(0)));
    }
    while i < commits.len()
        invariant
            0 <= i <= commits@.len(),
            r.deep_view() == all_refs(commits.deep_view().take(i as int)),
        decreases commits@.len() - i,
    {
        let refs = &commits[i].issue_refs;
        let mut j: usize = 0;
        let ghost r0 = r.deep_view();
        while j < refs.len()
            invariant
                0 <= j <= refs@.len(),
                refs@ == commits@[i as int].issue_refs@,
                i < commits@.len(),
                r.deep_view() == r0 + refs.deep_view().take(j as int),
            decreases refs@.len() - j,
        {
            let ghost r1 = r.deep_view();
            r.push(copy_bytes(&refs[j]));
            proof {
                assert(r.deep_view() =~~= r1.push(refs@[j as int]@));
                assert(refs.deep_view().take(j + 1) =~= refs.deep_view().take(j as int).push(
                    refs@[j as int].deep_view(),
                ));
                assert(r.deep_view() =~~= r0 + refs.deep_view().take(j + 1));
            }
            j = j + 1;
        }
        proof {
            let dv = commits.deep_view();
            assert(refs.deep_view().take(refs@.len() as int) =~= refs.deep_view());
            assert(dv.take(i + 1).drop_last() =~= dv.take(i as int));
            assert(dv.take(i + 1).last() == commits@[i as int].deep_view());
            assert(r.deep_view() =~= all_refs(dv.take(i + 1)));
        }
        i = i + 1;
    }
    proof {
        assert(commits.deep_view().take(commits@.len() as int) =~= commits.deep_view());
    }
    r
}

fn seq_contains(v: &Vec<Vec<u8>>, upto: usize, x: &Vec<u8>) -> (r: bool)
    requires
        upto <= v@.len(),
    ensures
        r == v.deep_view().take(upto as int).contains(x@),
{
    let mut j: usize = 0;
    while j < upto
        invariant
            0 <= j <= upto <= v@.len(),
            forall|k: int| 0 <= k < j ==> v.deep_view()[k] != x@,
        decreases upto - j,
    {
        if bytes_eq(&v[j], x) {
            proof {
                assert(v.deep_view().take(upto as int)[j as int] == x@);
            }
            return true;
        }
        proof {
            assert(v.deep_view()[j as int] =~= v@[j as int]@);
        }
        j = j + 1;
    }
    proof {
        if v.deep_view().take(upto as int).contains(x@) {
            let k = choose|k: int|
                0 <= k < upto && v.deep_view().take(upto as int)[k] == x@;
            assert(v.deep_view()[k] == x@);
        }
    }
    false
}

/// Computes the statistics of this run's commits.
pub fn compute_statistics(commits: &Vec<Commit>) -> (r: CommitStatistics)
    requires
        commits@.len() <= u64::MAX,
    ensures
        r == spec_statistics(commits.deep_view()),
{
    let n = commits.len();
    let mut mint: u64 = 0;
    let mut maxt: u64 = 0;
    let mut conv: u64 = 0;
    let mut i: usize = 0;
    while i < n
        invariant
            0 <= i <= n,
            n == commits@.len(),
            n <= u64::MAX,
            mint == min_time(commits.deep_view().take(i as int)),
            maxt == max_time(commits.deep_view().take(i as int)),
            conv == count_conventional(commits.deep_view().take(i as int)),
            conv <= i,
        decreases n - i,
    {
        let t = commits[i].time;
        proof {
            let dv = commits.deep_view();
            assert(dv.take(i + 1).drop_last() =~= dv.take(i as int));
            assert(dv.take(i + 1).last() == commits@[i as int].deep_view());
            if i == 0 {
                assert(dv.take(1).len() == 1);
                assert(dv.take(1)[0] == commits@[0].deep_view());
            }
        }
        if i == 0 {
            mint = t;
            maxt = t;
        } else {
            if t < mint {
                mint = t;
            }
            if t > maxt {
                maxt = t;
            }
        }
        if commits[i].kind.is_some() {
            conv = conv + 1;
        }
        i = i + 1;
    }
    proof {
        assert(commits.deep_view().take(n as int) =~= commits.deep_view());
        lemma_min_le_max(commits.deep_view());
    }
    let flat = flat_refs(commits);
    let mut uniq: u64 = 0;
    let mut j: usize = 0;
    proof {
        lemma_distinct_bound(flat.deep_view());
    }
    while j < flat.len()
        invariant
            0 <= j <= flat@.len(),
            uniq == distinct_count(flat.deep_view().take(j as int)),
            uniq <= j,
        decreases flat@.len() - j,
    {
        let seen = seq_contains(&flat, j, &flat[j]);
        proof {
            let dv = flat.deep_view();
            assert(dv.take(j + 1).drop_last() =~= dv.take(j as int));
            assert(dv.take(j + 1).last() =~= flat@[j as int]@);
            assert(dv.take(j + 1).last() == dv[j as int]);
        }
        if !seen {
            proof {
                lemma_distinct_bound(flat.deep_view().take(j + 1));
            }
            uniq = uniq + 1;
        }
        j = j + 1;
    }
    proof {
        assert(flat.deep_view().take(flat@.len() as int) =~= flat.deep_view());
    }
    CommitStatistics {
        count: n as u64,
        duration_days: (maxt - mint) / 86400,
        conventional_count: conv,
        unique_issues_count: uniq,
    }
}

// --- the details listing --------------------------------------------------

pub open spec fn msgs_uncat(cs: Seq<CommitV>) -> Seq<MessageV>
    decreases cs.len(),
{
    if cs.len() == 0 {
        Seq::empty()
    } else {
        msgs_uncat(cs.drop_last()) + if cs.last().issue_refs.len() == 0 {
            seq![msg_of(cs.last())]
        } else {
            Seq::empty()
        }
    }
}

pub open spec fn msgs_for(cs: Seq<CommitV>, r: Seq<u8>) -> Seq<MessageV>
    decreases cs.len(),
{
    if cs.len() == 0 {
        Seq::empty()
    } else {
        msgs_for(cs.drop_last(), r) + if cs.last().issue_refs.contains(r) {
            seq![msg_of(cs.last())]
        } else {
            Seq::empty()
        }
    }
}

/// Inserts into an ascending, duplicate-free list of references.
pub open spec fn insert_ref(rs: Seq<Seq<u8>>, r: Seq<u8>) -> Seq<Seq<u8>>
    decreases rs.len(),
{
    if rs.len() == 0 {
        seq![r]
    } else if rs.first() == r {
        rs
    } else if lex_lt(r, rs.first()) {
        seq![r] + rs
    } else {
        seq![rs.first()] + insert_ref(rs.drop_first(), r)
    }
}

pub open spec fn sorted_refs(rs: Seq<Seq<u8>>) -> Seq<Seq<u8>>
    decreases rs.len(),
{
    if rs.len() == 0 {
        Seq::empty()
    } else {
        insert_ref(sorted_refs(rs.drop_last()), rs.last())
    }
}

pub open spec fn cats_for(cs: Seq<CommitV>, rs: Seq<Seq<u8>>) -> Seq<CategoryMessagesV>
    decreases rs.len(),
{
    if rs.len() == 0 {
        Seq::empty()
    } else {
        seq![
            CategoryMessagesV {
                category: CategoryV::Issue { reference: rs.first() },
                messages: msgs_for(cs, rs.first()),
            },
        ] + cats_for(cs, rs.drop_first())
    }
}

/// The per-category listing: uncategorized commits first, then one
/// category per distinct issue reference in ascending lexical order,
/// messages in first-seen order — a fixed total order, so the rendered
/// output never depends on any map iteration order.
pub open spec fn spec_details(cs: Seq<CommitV>) -> DetailsV {
    let u = msgs_uncat(cs);
    DetailsV {
        commits_by_category: (if u.len() > 0 {
            seq![CategoryMessagesV { category: CategoryV::Uncategorized, messages: u }]
        } else {
            Seq::empty()
        }) + cats_for(cs, sorted_refs(all_refs(cs))),
    }
}

fn insert_ref_e(rs: Vec<Vec<u8>>, r: Vec<u8>) -> (out: Vec<Vec<u8>>)
    ensures
        out.deep_view() == insert_ref(rs.deep_view(), r@),
    decreases rs@.len(),
{
    if rs.len() == 0 {
        let mut out: Vec<Vec<u8>> = Vec::new();
        out.push(r);
        proof {
            assert(out.deep_view() =~~= insert_ref(rs.deep_view(), r@));
        }
        out
    } else if bytes_eq(&rs[0], &r) {
        proof {
            assert(rs.deep_view().first() =~= rs@[0]@);
            assert(rs.deep_view() == insert_ref(rs.deep_view(), r@));
        }
        rs
    } else if bytes_lt(&r, &rs[0]) {
        let ghost rs0 = rs.deep_view();
        let ghost f0 = rs@[0]@;
        let mut rs = rs;
        rs.insert(0, r);
        proof {
            assert(rs0.first() =~= f0);
            if rs0.first() == r@ {
                assert(false);
            }
            assert(rs.deep_view() =~~= seq![r@] + rs0);
        }
        rs
    } else {
        let ghost rs0 = rs.deep_view();
        let ghost f0 = rs@[0]@;
        let mut rs = rs;
        let first = rs.remove(0);
        proof {
            assert(rs.deep_view() =~~= rs0.drop_first());
            assert(first@ == f0);
            assert(rs0.first() =~= f0);
            if rs0.first() == r@ {
                assert(false);
            }
        }
        let rest = insert_ref_e(rs, r);
        let ghost restv = rest.deep_view();
        let mut out = rest;
        out.insert(0, first);
        proof {
            assert(out.deep_view() =~~= seq![first@] + restv);
            assert(out.deep_view() =~~= insert_ref(rs0, r@));
        }
        out
    }
}

fn msgs_uncat_e(commits: &Vec<Commit>) -> (r: Vec<Message>)
    ensures
        r.deep_view() == msgs_uncat(commits.deep_view()),
{
    let mut r: Vec<Message> = Vec::new();
    let mut i: usize = 0;
    proof {
        assert(r.deep_view() =~= msgs_uncat(commits.deep_view().take(0)));
    }
    while i < commits.len()
        invariant
            0 <= i <= commits@.len(),
            r.deep_view() == msgs_uncat(commits.deep_view().take(i as int)),
        decreases commits@.len() - i,
    {
        proof {
            let dv = commits.deep_view();
            assert(dv.take(i + 1).drop_last() =~= dv.take(i as int));
            assert(dv.take(i + 1).last() == commits@[i as int].deep_view());
        }
        if commits[i].issue_refs.len() == 0 {
            let ghost r0 = r.deep_view();
            let m = Message {
                id: copy_bytes(&commits[i].id),
                title: copy_bytes(&commits[i].title),
            };
            r.push(m);
            proof {
                assert(r.deep_view() =~~= r0.push(msg_of(commits@[i as int].deep_view())));
            }
        }
        i = i + 1;
    }
    proof {
        assert(commits.deep_view().take(commits@.len() as int) =~= commits.deep_view());
    }
    r
}

fn msgs_for_e(commits: &Vec<Commit>, r: &Vec<u8>) -> (out: Vec<Message>)
    ensures
        out.deep_view() == msgs_for(commits.deep_view(), r@),
{
    let mut out: Vec<Message> = Vec::new();
    let mut i: usize = 0;
    proof {
        assert(out.deep_view() =~= msgs_for(commits.deep_view().take(0), r@));
    }
    while i < commits.len()
        invariant
            0 <= i <= commits@.len(),
            out.deep_view() == msgs_for(commits.deep_view().take(i as int), r@),
        decreases commits@.len() - i,
    {
        proof {
            let dv = commits.deep_view();
            assert(dv.take(i + 1).drop_last() =~= dv.take(i as int));
            assert(dv.take(i + 1).last() == commits@[i as int].deep_view());
        }
        let refs = &commits[i].issue_refs;
        let has = seq_contains(refs, refs.len(), r);
        proof {
            assert(refs.deep_view().take(refs@.len() as int) =~= refs.deep_view());
        }
        if has {
            let ghost o0 = out.deep_view();
            let m = Message {
                id: copy_bytes(&commits[i].id),
                title: copy_bytes(&commits[i].title),
            };
            out.push(m);
            proof {
                assert(out.deep_view() =~~= o0.push(msg_of(commits@[i as int].deep_view())));
            }
        }
        i = i + 1;
    }
    proof {
        assert(commits.deep_view().take(commits@.len() as int) =~= commits.deep_view());
    }
    out
}

/// Builds the details listing of this run.
pub fn build_details(commits: &Vec<Commit>) -> (d: Details)
    ensures
        d.deep_view() == spec_details(commits.deep_view()),
{
    let u = msgs_uncat_e(commits);
    let flat = flat_refs(commits);
    let mut sorted: Vec<Vec<u8>> = Vec::new();
    let mut i: usize = 0;
    proof {
        assert(sorted.deep_view() =~= sorted_refs(flat.deep_view().take(0)));
    }
    while i < flat.len()
        invariant
            0 <= i <= flat@.len(),
            sorted.deep_view() == sorted_refs(flat.deep_view().take(i as int)),
        decreases flat@.len() - i,
    {
        proof {
            let dv = flat.deep_view();
            assert(dv.take(i + 1).drop_last() =~= dv.take(i as int));
            assert(dv.take(i + 1).last() =~= flat@[i as int]@);
        }
        sorted = insert_ref_e(sorted, copy_bytes(&flat[i]));
        i = i + 1;
    }
    proof {
        assert(flat.deep_view().take(flat@.len() as int) =~= flat.deep_view());
    }
    let mut cats: Vec<CategoryMessages> = Vec::new();
    let ghost base = if msgs_uncat(commits.deep_view()).len() > 0 {
        seq![
            CategoryMessagesV {
                category: CategoryV::Uncategorized,
                messages: msgs_uncat(commits.deep_view()),
            },
        ]
    } else {
        Seq::<CategoryMessagesV>::empty()
    };
    if u.len() > 0 {
        let cm = CategoryMessages { category: Category::Uncategorized, messages: u };
        cats.push(cm);
        proof {
            assert(cats.deep_view() =~~= base);
        }
    } else {
        proof {
            assert(cats.deep_view() =~~= base);
        }
    }
    let ghost sv = sorted.deep_view();
    let mut k: usize = 0;
    proof {
        assert(sv.skip(0) =~= sv);
    }
    while k < sorted.len()
        invariant
            0 <= k <= sorted@.len(),
            sv == sorted.deep_view(),
            cats.deep_view() + cats_for(commits.deep_view(), sv.skip(k as int)) == base + cats_for(
                commits.deep_view(),
                sv,
            ),
        decreases sorted@.len() - k,
    {
        let msgs = msgs_for_e(commits, &sorted[k]);
        let ghost c0 = cats.deep_view();
        let cm = CategoryMessages {
            category: Category::Issue { reference: copy_bytes(&sorted[k]) },
            messages: msgs,
        };
        cats.push(cm);
        proof {
            assert(sv.skip(k as int).first() =~= sorted@[k as int]@);
            assert(sv.skip(k as int).drop_first() =~= sv.skip(k + 1));
            assert(cats.deep_view() =~~= c0.push(
                CategoryMessagesV {
                    category: CategoryV::Issue { reference: sorted@[k as int]@ },
                    messages: msgs_for(commits.deep_view(), sorted@[k as int]@),
                },
            ));
            assert(cats.deep_view() + cats_for(commits.deep_view(), sv.skip(k + 1)) =~= base
                + cats_for(commits.deep_view(), sv));
        }
        k = k + 1;
    }
    proof {
        assert(sv.skip(sorted@.len() as int) =~= Seq::<Seq<u8>>::empty());
        assert(cats.deep_view() =~= cats.deep_view() + cats_for(
            commits.deep_view(),
            Seq::empty(),
        ));
    }
    let d = Details { commits_by_category: cats };
    proof {
        assert(d.deep_view() =~~= spec_details(commits.deep_view()));
    }
    d
}

// --- conventional groupings -----------------------------------------------

pub open spec fn c_feat() -> Seq<u8> {
    // "feat"
    seq![102u8, 101u8, 97u8, 116u8]
}

pub open spec fn c_fix() -> Seq<u8> {
    // "fix"
    seq![102u8, 105u8, 120u8]
}

pub open spec fn all_kinds(cs: Seq<CommitV>) -> Seq<Seq<u8>>
    decreases cs.len(),
{
    if cs.len() == 0 {
        Seq::empty()
    } else {
        all_kinds(cs.drop_last()) + match cs.last().kind {
            Some(k) => seq![k],
            None => Seq::empty(),
        }
    }
}

pub open spec fn any_breaking(cs: Seq<CommitV>, k: Seq<u8>) -> bool {
    exists|i: int| 0 <= i < cs.len() && (#[trigger] cs[i]).kind == Some(k) && cs[i].is_breaking
}

pub open spec fn msgs_kind(cs: Seq<CommitV>, k: Seq<u8>) -> Seq<MessageV>
    decreases cs.len(),
{
    if cs.len() == 0 {
        Seq::empty()
    } else {
        msgs_kind(cs.drop_last(), k) + if cs.last().kind == Some(k) {
            seq![msg_of(cs.last())]
        } else {
            Seq::empty()
        }
    }
}

pub open spec fn conv_of_kind(cs: Seq<CommitV>, k: Seq<u8>) -> ConventionalV {
    ConventionalV {
        kind: k,
        is_breaking: any_breaking(cs, k),
        removed: Seq::empty(),
        messages: msgs_kind(cs, k),
    }
}

/// The fixed rendering priority of a grouping: breaking changes first,
/// then features, then fixes, then the rest.
pub open spec fn pass_match(cs: Seq<CommitV>, k: Seq<u8>, pass: int) -> bool {
    let brk = any_breaking(cs, k);
    if pass == 0 {
        brk
    } else if pass == 1 {
        !brk && k == c_feat()
    } else if pass == 2 {
        !brk && k == c_fix()
    } else {
        !brk && k != c_feat() && k != c_fix()
    }
}

pub open spec fn convs_sel(cs: Seq<CommitV>, rs: Seq<Seq<u8>>, pass: int) -> Seq<SegmentV>
    decreases rs.len(),
{
    if rs.len() == 0 {
        Seq::empty()
    } else {
        (if pass_match(cs, rs.first(), pass) {
            seq![SegmentV::Conventional(conv_of_kind(cs, rs.first()))]
        } else {
            Seq::empty()
        }) + convs_sel(cs, rs.drop_first(), pass)
    }
}

/// One grouping per distinct conventional kind, in priority order; within
/// a priority class, kinds ascend lexically.
pub open spec fn conv_segs(cs: Seq<CommitV>) -> Seq<SegmentV> {
    let ks = sorted_refs(all_kinds(cs));
    convs_sel(cs, ks, 0) + convs_sel(cs, ks, 1) + convs_sel(cs, ks, 2) + convs_sel(cs, ks, 3)
}

/// Everything the generator writes into a release: the conventional
/// groupings, then statistics, then the details listing.
pub open spec fn gen_segs(cs: Seq<CommitV>) -> Seq<SegmentV> {
    conv_segs(cs) + seq![
        SegmentV::Statistics(DataV::Generated(spec_statistics(cs))),
        SegmentV::Details(DataV::Generated(spec_details(cs))),
    ]
}

fn all_kinds_e(commits: &Vec<Commit>) -> (r: Vec<Vec<u8>>)
    ensures
        r.deep_view() == all_kinds(commits.deep_view()),
{
    let mut r: Vec<Vec<u8>> = Vec::new();
    let mut i: usize = 0;
    proof {
        assert(r.deep_view() =~= all_kinds(commits.deep_view().take(0)));
    }
    while i < commits.len()
        invariant
            0 <= i <= commits@.len(),
            r.deep_view() == all_kinds(commits.deep_view().take(i as int)),
        decreases commits@.len() - i,
    {
        proof {
            let dv = commits.deep_view();
            assert(dv.take(i + 1).drop_last() =~= dv.take(i as int));
            assert(dv.take(i + 1).last() == commits@[i as int].deep_view());
        }
        match &commits[i].kind {
            Some(k) => {
                let ghost r0 = r.deep_view();
                r.push(copy_bytes(k));
                proof {
                    assert(r.deep_view() =~~= r0.push(k@));
                }
            },
            None => {},
        }
        i = i + 1;
    }
    proof {
        assert(commits.deep_view().take(commits@.len() as int) =~= commits.deep_view());
    }
    r
}

fn any_breaking_e(commits: &Vec<Commit>, k: &Vec<u8>) -> (r: bool)
    ensures
        r == any_breaking(commits.deep_view(), k@),
{
    let mut i: usize = 0;
    while i < commits.len()
        invariant
            0 <= i <= commits@.len(),
            forall|m: int|
                0 <= m < i ==> !((#[trigger] commits.deep_view()[m]).kind == Some(k@)
                    && commits.deep_view()[m].is_breaking),
        decreases commits@.len() - i,
    {
        let is_k = match &commits[i].kind {
            Some(kv) => bytes_eq(kv, k),
            None => false,
        };
        proof {
            let cv = commits.deep_view()[i as int];
            match commits@[i as int].kind {
                Some(kv) => {
                    assert(kv.deep_view() =~= kv@);
                    assert(is_k == (cv.kind == Some(k@)));
                },
                None => {
                    assert(cv.kind is None);
                },
            }
        }
        if is_k && commits[i].is_breaking {
            proof {
                assert((#[trigger] commits.deep_view()[i as int]).kind == Some(k@)
                    && commits.deep_view()[i as int].is_breaking);
            }
            return true;
        }
        i = i + 1;
    }
    proof {
        if any_breaking(commits.deep_view(), k@) {
            let m = choose|m: int|
                0 <= m < commits.deep_view().len() && (#[trigger] commits.deep_view()[m]).kind
                    == Some(k@) && commits.deep_view()[m].is_breaking;
        }
    }
    false
}

fn msgs_kind_e(commits: &Vec<Commit>, k: &Vec<u8>) -> (out: Vec<Message>)
    ensures
        out.deep_view() == msgs_kind(commits.deep_view(), k@),
{
    let mut out: Vec<Message> = Vec::new();
    let mut i: usize = 0;
    proof {
        assert(out.deep_view() =~= msgs_kind(commits.deep_view().take(0), k@));
    }
    while i < commits.len()
        invariant
            0 <= i <= commits@.len(),
            out.deep_view() == msgs_kind(commits.deep_view().take(i as int), k@),
        decreases commits@.len() - i,
    {
        proof {
            let dv = commits.deep_view();
            assert(dv.take(i + 1).drop_last() =~= dv.take(i as int));
            assert(dv.take(i + 1).last() == commits@[i as int].deep_view());
        }
        let is_k = match &commits[i].kind {
            Some(kv) => bytes_eq(kv, k),
            None => false,
        };
        proof {
            let cv = commits.deep_view()[i as int];
            match commits@[i as int].kind {
                Some(kv) => {
                    assert(kv.deep_view() =~= kv@);
                    assert(is_k == (cv.kind == Some(k@)));
                },
                None => {
                    assert(cv.kind is None);
                },
            }
        }
        if is_k {
            let ghost o0 = out.deep_view();
            let m = Message {
                id: copy_bytes(&commits[i].id),
                title: copy_bytes(&commits[i].title),
            };
            out.push(m);
            proof {
                assert(out.deep_view() =~~= o0.push(msg_of(commits@[i as int].deep_view())));
            }
        }
        i = i + 1;
    }
    proof {
        assert(commits.deep_view().take(commits@.len() as int) =~= commits.deep_view());
    }
    out
}

fn convs_pass(commits: &Vec<Commit>, ks: &Vec<Vec<u8>>, pass: u8, out: &mut Vec<Segment>)
    requires
        pass <= 3,
    ensures
        final(out).deep_view() == old(out).deep_view() + convs_sel(
            commits.deep_view(),
            ks.deep_view(),
            pass as int,
        ),
{
    let ghost kv = ks.deep_view();
    let mut i: usize = 0;
    proof {
        assert(kv.skip(0) =~= kv);
    }
    while i < ks.len()
        invariant
            0 <= i <= ks@.len(),
            kv == ks.deep_view(),
            pass <= 3,
            out.deep_view() + convs_sel(commits.deep_view(), kv.skip(i as int), pass as int)
                == old(out).deep_view() + convs_sel(commits.deep_view(), kv, pass as int),
        decreases ks@.len() - i,
    {
        let k = &ks[i];
        let brk = any_breaking_e(commits, k);
        let feat = mk_feat();
        let fix = mk_fix();
        let is_feat = bytes_eq(k, &feat);
        let is_fix = bytes_eq(k, &fix);
        let sel = if pass == 0 {
            brk
        } else if pass == 1 {
            !brk && is_feat
        } else if pass == 2 {
            !brk && is_fix
        } else {
            !brk && !is_feat && !is_fix
        };
        proof {
            assert(kv.skip(i as int).first() =~= ks@[i as int]@);
            assert(kv.skip(i as int).drop_first() =~= kv.skip(i + 1));
            assert(sel == pass_match(commits.deep_view(), ks@[i as int]@, pass as int));
        }
        if sel {
            let msgs = msgs_kind_e(commits, k);
            let ghost o0 = out.deep_view();
            let c = Conventional {
                kind: copy_bytes(k),
                is_breaking: brk,
                removed: Vec::new(),
                messages: msgs,
            };
            out.push(Segment::Conventional(c));
            proof {
                assert(out.deep_view() =~~= o0.push(
                    SegmentV::Conventional(conv_of_kind(commits.deep_view(), ks@[i as int]@)),
                ));
            }
        }
        i = i + 1;
    }
    proof {
        assert(kv.skip(ks@.len() as int) =~= Seq::<Seq<u8>>::empty());
        assert(out.deep_view() =~= out.deep_view() + convs_sel(
            commits.deep_view(),
            Seq::empty(),
            pass as int,
        ));
    }
}

fn mk_feat() -> (v: Vec<u8>)
    ensures
        v@ == c_feat(),
{
    let v = vec![102u8, 101u8, 97u8, 116u8];
    proof {
        assert(v@ =~= c_feat());
    }
    v
}

fn mk_fix() -> (v: Vec<u8>)
    ensures
        v@ == c_fix(),
{
    let v = vec![102u8, 105u8, 120u8];
    proof {
        assert(v@ =~= c_fix());
    }
    v
}

/// Builds every generated segment for a release from this run's commits.
pub fn build_segments(commits: &Vec<Commit>) -> (out: Vec<Segment>)
    requires
        commits@.len() <= u64::MAX,
    ensures
        out.deep_view() == gen_segs(commits.deep_view()),
{
    let kinds = all_kinds_e(commits);
    let mut sorted: Vec<Vec<u8>> = Vec::new();
    let mut i: usize = 0;
    proof {
        assert(sorted.deep_view() =~= sorted_refs(kinds.deep_view().take(0)));
    }
    while i < kinds.len()
        invariant
            0 <= i <= kinds@.len(),
            sorted.deep_view() == sorted_refs(kinds.deep_view().take(i as int)),
        decreases kinds@.len() - i,
    {
        proof {
            let dv = kinds.deep_view();
            assert(dv.take(i + 1).drop_last() =~= dv.take(i as int));
            assert(dv.take(i + 1).last() =~= kinds@[i as int]@);
        }
        sorted = insert_ref_e(sorted, copy_bytes(&kinds[i]));
        i = i + 1;
    }
    proof {
        assert(kinds.deep_view().take(kinds@.len() as int) =~= kinds.deep_view());
    }
    let mut out: Vec<Segment> = Vec::new();
    convs_pass(commits, &sorted, 0, &mut out);
    convs_pass(commits, &sorted, 1, &mut out);
    convs_pass(commits, &sorted, 2, &mut out);
    convs_pass(commits, &sorted, 3, &mut out);
    let stats = compute_statistics(commits);
    out.push(Segment::Statistics(Data::Generated(stats)));
    let det = build_details(commits);
    out.push(Segment::Details(Data::Generated(det)));
    proof {
        assert(out.deep_view() =~~= gen_segs(commits.deep_view()));
    }
    out
}

// --- merging into the document --------------------------------------------

/// The hand-authored segments of a release, in order.
pub open spec fn users_of(segs: Seq<SegmentV>) -> Seq<SegmentV>
    decreases segs.len(),
{
    if segs.len() == 0 {
        Seq::empty()
    } else {
        (if segs.first() is User {
            seq![segs.first()]
        } else {
            Seq::empty()
        }) + users_of(segs.drop_first())
    }
}

/// First release section named `name`, from `i` on; `-1` if none.
pub open spec fn find_release(ss: Seq<SectionV>, name: VersionV, i: int) -> int
    decreases ss.len() - i,
{
    if i < 0 || i >= ss.len() {
        -1
    } else {
        match ss[i] {
            SectionV::Release { name: n, .. } => if n == name {
                i
            } else {
                find_release(ss, name, i + 1)
            },
            _ => find_release(ss, name, i + 1),
        }
    }
}

/// Refreshes a release section: generated segments are recomputed, the
/// hand-authored segments, exclusion sets and trailing text are kept.
pub open spec fn refresh(sec: SectionV, name: VersionV, date: Option<Date>, segs: Seq<SegmentV>) -> SectionV {
    match sec {
        SectionV::Release { heading_level, removed_messages, segments, unknown, .. } => SectionV::Release {
            heading_level,
            date,
            name,
            removed_messages,
            segments: users_of(segments) + segs,
            unknown,
        },
        _ => sec,
    }
}

/// What one generator run does to the document.
pub open spec fn spec_generate(
    log: ChangeLogV,
    cs: Seq<CommitV>,
    name: VersionV,
    date: Option<Date>,
    level: u64,
) -> ChangeLogV {
    let segs = gen_segs(cs);
    let i = find_release(log.sections, name, 0);
    if i >= 0 {
        ChangeLogV { sections: log.sections.update(i, refresh(log.sections[i], name, date, segs)) }
    } else {
        let u = find_release(log.sections, VersionV::Unreleased, 0);
        if u >= 0 {
            ChangeLogV {
                sections: log.sections.update(u, refresh(log.sections[u], name, date, segs)),
            }
        } else {
            let pos: int = if log.sections.len() > 0 && log.sections[0] is Verbatim {
                1
            } else {
                0
            };
            ChangeLogV {
                sections: log.sections.insert(
                    pos,
                    SectionV::Release {
                        heading_level: level,
                        date,
                        name,
                        removed_messages: Seq::empty(),
                        segments: segs,
                        unknown: Seq::empty(),
                    },
                ),
            }
        }
    }
}

fn version_eq(a: &Version, b: &Version) -> (r: bool)
    ensures
        r == (a.deep_view() == b.deep_view()),
{
    match (a, b) {
        (Version::Unreleased, Version::Unreleased) => true,
        (
            Version::Semantic { major: ma, minor: ia, patch: pa, prerelease: ra },
            Version::Semantic { major: mb, minor: ib, patch: pb, prerelease: rb },
        ) => {
            let e = *ma == *mb && *ia == *ib && *pa == *pb && bytes_eq(ra, rb);
            proof {
                assert(ra.deep_view() =~= ra@);
                assert(rb.deep_view() =~= rb@);
                if e {
                    assert(a.deep_view() =~~= b.deep_view());
                }
            }
            e
        },
        _ => {
            proof {
                assert(a.deep_view() != b.deep_view());
            }
            false
        },
    }
}

fn find_release_e(sections: &Vec<Section>, name: &Version) -> (r: Option<usize>)
    ensures
        match r {
            Some(i) => i == find_release(sections.deep_view(), name.deep_view(), 0) && (i as int)
                < sections.deep_view().len() && sections.deep_view()[i as int] is Release,
            None => find_release(sections.deep_view(), name.deep_view(), 0) == -1,
        },
{
    let ghost dv = sections.deep_view();
    let ghost nv = name.deep_view();
    let mut i: usize = 0;
    while i < sections.len()
        invariant
            0 <= i <= sections@.len(),
            dv == sections.deep_view(),
            nv == name.deep_view(),
            find_release(dv, nv, 0) == find_release(dv, nv, i as int),
        decreases sections@.len() - i,
    {
        match &sections[i] {
            Section::Release { name: n, .. } => {
                if version_eq(n, name) {
                    proof {
                        assert(find_release(dv, nv, i as int) == i);
                    }
                    return Some(i);
                }
                proof {
                    assert(find_release(dv, nv, i as int) == find_release(dv, nv, i + 1));
                }
            },
            _ => {
                proof {
                    assert(find_release(dv, nv, i as int) == find_release(dv, nv, i + 1));
                }
            },
        }
        i = i + 1;
    }
    None
}

fn users_take(segs: Vec<Segment>) -> (us: Vec<Segment>)
    ensures
        us.deep_view() == users_of(segs.deep_view()),
{
    let ghost orig = segs.deep_view();
    let mut segs = segs;
    let mut us: Vec<Segment> = Vec::new();
    proof {
        assert(us.deep_view() + users_of(segs.deep_view()) =~= users_of(orig));
    }
    while segs.len() > 0
        invariant
            us.deep_view() + users_of(segs.deep_view()) == users_of(orig),
        decreases segs@.len(),
    {
        let ghost pre = segs.deep_view();
        let s = segs.remove(0);
        proof {
            assert(segs.deep_view() =~~= pre.drop_first());
            assert(s.deep_view() == pre.first());
        }
        match s {
            Segment::User { markdown } => {
                let ghost u0 = us.deep_view();
                us.push(Segment::User { markdown });
                proof {
                    assert(us.deep_view() =~~= u0.push(pre.first()));
                    assert(us.deep_view() + users_of(segs.deep_view()) =~= u0 + users_of(pre));
                }
            },
            _ => {
                proof {
                    assert(us.deep_view() + users_of(segs.deep_view()) =~= us.deep_view()
                        + users_of(pre));
                }
            },
        }
    }
    proof {
        assert(users_of(segs.deep_view()) =~= Seq::<SegmentV>::empty());
        assert(us.deep_view() =~= us.deep_view() + Seq::<SegmentV>::empty());
    }
    us
}

impl ChangeLog {
    /// One generator run: refreshes the release entry for `name` (or the
    /// floating `Unreleased` entry in its place, or a fresh entry after
    /// any leading front matter) with the segments generated from this
    /// run's commits. Everything hand-authored is kept; running twice
    /// with the same input yields the same document.
    pub fn generate(self, commits: &Vec<Commit>, name: Version, date: Option<Date>, level: u64) -> (out: ChangeLog)
        requires
            commits@.len() <= u64::MAX,
        ensures
            out.deep_view() == spec_generate(
                self.deep_view(),
                commits.deep_view(),
                name.deep_view(),
                date,
                level,
            ),
    {
        let ghost logv = self.deep_view();
        let segs = build_segments(commits);
        let found = find_release_e(&self.sections, &name);
        let unrel = Version::Unreleased;
        let target: Option<usize> = match found {
            Some(i) => Some(i),
            None => {
                match find_release_e(&self.sections, &unrel) {
                    Some(u) => Some(u),
                    None => None,
                }
            },
        };
        let mut sections = self.sections;
        match target {
            Some(i) => {
                let ghost pre = sections.deep_view();
                let old_sec = sections.remove(i);
                proof {
                    assert(old_sec.deep_view() == pre[i as int]);
                }
                match old_sec {
                    Section::Release {
                        heading_level,
                        removed_messages,
                        segments,
                        unknown,
                        ..
                    } => {
                        let mut newsegs = users_take(segments);
                        let mut segs = segs;
                        let ghost usr = newsegs.deep_view();
                        let mut k: usize = 0;
                        while segs.len() > 0
                            invariant
                                newsegs.deep_view() + segs.deep_view() == usr + gen_segs(
                                    commits.deep_view(),
                                ),
                            decreases segs@.len(),
                        {
                            let ghost sp = segs.deep_view();
                            let ghost np = newsegs.deep_view();
                            let s = segs.remove(0);
                            newsegs.push(s);
                            proof {
                                assert(segs.deep_view() =~~= sp.drop_first());
                                assert(newsegs.deep_view() =~~= np.push(sp.first()));
                                assert(newsegs.deep_view() + segs.deep_view() =~= np + sp);
                            }
                        }
                        proof {
                            assert(newsegs.deep_view() =~= newsegs.deep_view()
                                + Seq::<SegmentV>::empty());
                            assert(segs.deep_view() =~= Seq::<SegmentV>::empty());
                        }
                        let newsec = Section::Release {
                            heading_level,
                            date,
                            name,
                            removed_messages,
                            segments: newsegs,
                            unknown,
                        };
                        let ghost mid = sections.deep_view();
                        sections.insert(i, newsec);
                        proof {
                            assert(mid =~~= pre.remove(i as int));
                            assert(sections.deep_view() =~~= pre.update(
                                i as int,
                                newsec.deep_view(),
                            ));
                            assert(newsec.deep_view() =~~= refresh(
                                pre[i as int],
                                name.deep_view(),
                                date,
                                gen_segs(commits.deep_view()),
                            ));
                        }
                        let out = ChangeLog { sections };
                        proof {
                            assert(out.deep_view() =~~= spec_generate(
                                logv,
                                commits.deep_view(),
                                name.deep_view(),
                                date,
                                level,
                            ));
                        }
                        out
                    },
                    Section::Verbatim { .. } => {
                        proof {
                            assert(false);
                        }
                        ChangeLog { sections: Vec::new() }
                    },
                }
            },
            None => {
                let pos: usize = if sections.len() > 0 {
                    let first_verbatim = match &sections[0] {
                        Section::Verbatim { .. } => true,
                        _ => false,
                    };
                    if first_verbatim {
                        1
                    } else {
                        0
                    }
                } else {
                    0
                };
                let newsec = Section::Release {
                    heading_level: level,
                    date,
                    name,
                    removed_messages: Vec::new(),
                    segments: segs,
                    unknown: Vec::new(),
                };
                let ghost pre = sections.deep_view();
                sections.insert(pos, newsec);
                proof {
                    assert(sections.deep_view() =~~= pre.insert(pos as int, newsec.deep_view()));
                }
                let out = ChangeLog { sections };
                proof {
                    assert(newsec.deep_view() =~~= SectionV::Release {
                        heading_level: level,
                        date,
                        name: name.deep_view(),
                        removed_messages: Seq::empty(),
                        segments: gen_segs(commits.deep_view()),
                        unknown: Seq::empty(),
                    });
                    assert(out.deep_view() =~~= spec_generate(
                        logv,
                        commits.deep_view(),
                        name.deep_view(),
                        date,
                        level,
                    ));
                }
                out
            },
        }
    }

    /// Drops the commits whose id stands in one of the document's
    /// exclusion sets, so that a commit folded into an earlier release is
    /// never re-surfaced by a later run.
    pub fn filter_removed(&self, commits: Vec<Commit>) -> (out: Vec<Commit>)
        ensures
            out.deep_view() == filter_removed_spec(self.deep_view(), commits.deep_view()),
    {
        let ghost logv = self.deep_view();
        let ghost orig = commits.deep_view();
        let mut commits = commits;
        let mut out: Vec<Commit> = Vec::new();
        proof {
            assert(out.deep_view() + filter_removed_spec(logv, commits.deep_view())
                =~= filter_removed_spec(logv, orig));
        }
        while commits.len() > 0
            invariant
                logv == self.deep_view(),
                out.deep_view() + filter_removed_spec(logv, commits.deep_view())
                    == filter_removed_spec(logv, orig),
            decreases commits@.len(),
        {
            let ghost pre = commits.deep_view();
            let c = commits.remove(0);
            proof {
                assert(commits.deep_view() =~~= pre.drop_first());
                assert(c.deep_view() == pre.first());
            }
            let removed = self.is_removed(&c.id);
            proof {
                assert(c.id.deep_view() =~= c.id@);
                assert(pre.first().id == c.id@);
            }
            if !removed {
                let ghost o0 = out.deep_view();
                out.push(c);
                proof {
                    assert(out.deep_view() =~~= o0.push(pre.first()));
                    assert(out.deep_view() + filter_removed_spec(logv, commits.deep_view())
                        =~= o0 + filter_removed_spec(logv, pre));
                }
            } else {
                proof {
                    assert(out.deep_view() + filter_removed_spec(logv, commits.deep_view())
                        =~= out.deep_view() + filter_removed_spec(logv, pre));
                }
            }
        }
        proof {
            assert(filter_removed_spec(logv, commits.deep_view()) =~= Seq::<CommitV>::empty());
            assert(out.deep_view() =~= out.deep_view() + Seq::<CommitV>::empty());
        }
        out
    }

    /// Whether `id` stands in any exclusion set of the document.
    pub fn is_removed(&self, id: &Vec<u8>) -> (r: bool)
        ensures
            r == id_removed(self.deep_view(), id@),
    {
        let ghost logv = self.deep_view();
        let mut i: usize = 0;
        while i < self.sections.len()
            invariant
                0 <= i <= self.sections@.len(),
                logv == self.deep_view(),
                forall|m: int| 0 <= m < i ==> !section_holds_id(logv.sections[m], id@),
            decreases self.sections@.len() - i,
        {
            match &self.sections[i] {
                Section::Release { removed_messages, segments, .. } => {
                    proof {
                        assert(logv.sections[i as int] is Release);
                        assert(logv.sections[i as int]->Release_removed_messages
                            == removed_messages.deep_view());
                        assert(logv.sections[i as int]->Release_segments == segments.deep_view());
                    }
                    let in_removed = seq_contains(removed_messages, removed_messages.len(), id);
                    proof {
                        assert(removed_messages.deep_view().take(removed_messages@.len() as int)
                            =~= removed_messages.deep_view());
                    }
                    if in_removed {
                        proof {
                            assert(section_holds_id(#[trigger] logv.sections[i as int], id@));
                            assert(id_removed(self.deep_view(), id@)) by {
                                assert(section_holds_id(
                                    #[trigger] self.deep_view().sections[i as int],
                                    id@,
                                ));
                            }
                        }
                        return true;
                    }
                    let mut k: usize = 0;
                    while k < segments.len()
                        invariant
                            0 <= k <= segments@.len(),
                            logv == self.deep_view(),
                            logv.sections[i as int] is Release,
                            logv.sections[i as int]->Release_segments == segments.deep_view(),
                            i < logv.sections.len(),
                            forall|m: int|
                                0 <= m < k ==> !segment_holds_id(
                                    #[trigger] segments.deep_view()[m],
                                    id@,
                                ),
                        decreases segments@.len() - k,
                    {
                        match &segments[k] {
                            Segment::Conventional(c) => {
                                proof {
                                    assert(segments.deep_view()[k as int]
                                        == segments@[k as int].deep_view());
                                    assert(segments.deep_view()[k as int] is Conventional);
                                    assert(segments.deep_view()[k as int]->Conventional_0.removed
                                        == c.removed.deep_view());
                                }
                                let inc = seq_contains(&c.removed, c.removed.len(), id);
                                proof {
                                    assert(c.removed.deep_view().take(c.removed@.len() as int)
                                        =~= c.removed.deep_view());
                                }
                                if inc {
                                    proof {
                                        assert(segment_holds_id(
                                            logv.sections[i as int]->Release_segments[k as int],
                                            id@,
                                        ));
                                        assert(section_holds_id(
                                            #[trigger] logv.sections[i as int],
                                            id@,
                                        ));
                                        assert(id_removed(self.deep_view(), id@)) by {
                                            assert(section_holds_id(
                                                #[trigger] self.deep_view().sections[i as int],
                                                id@,
                                            ));
                                        }
                                    }
                                    return true;
                                }
                            },
                            _ => {},
                        }
                        k = k + 1;
                    }
                    proof {
                        if section_holds_id(logv.sections[i as int], id@) {
                            let k2 = choose|k2: int|
                                0 <= k2 < segments.deep_view().len() && segment_holds_id(
                                    #[trigger] segments.deep_view()[k2],
                                    id@,
                                );
                            assert(false);
                        }
                    }
                },
                _ => {
                    proof {
                        assert(!section_holds_id(logv.sections[i as int], id@));
                    }
                },
            }
            i = i + 1;
        }
        proof {
            if id_removed(logv, id@) {
                let m = choose|m: int|
                    0 <= m < logv.sections.len() && section_holds_id(
                        #[trigger] logv.sections[m],
                        id@,
                    );
            }
        }
        false
    }
}

/// The commits not excluded by the document.
pub open spec fn filter_removed_spec(log: ChangeLogV, cs: Seq<CommitV>) -> Seq<CommitV>
    decreases cs.len(),
{
    if cs.len() == 0 {
        Seq::empty()
    } else {
        (if id_removed(log, cs.first().id) {
            Seq::empty()
        } else {
            seq![cs.first()]
        }) + filter_removed_spec(log, cs.drop_first())
    }
}

} // verus!
