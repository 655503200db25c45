//! Laws the library guarantees across its functions, stated and proved
//! over the same spec functions that the executable contracts use.

use vstd::prelude::*;
use crate::model::{ChangeLogV, Date, SectionV, VersionV};
use crate::classify::CommitV;
use crate::codec::{
    c_unreleased, classify, enc_date, enc_section, enc_version, lines_from, line_end, parse_date,
    parse_version, spec_encode, spec_lines, LineK,
};
use crate::decode::{fold_st, spec_decode, Mode, St};
use crate::generate::spec_generate;
use crate::text::{
    dec_spec, is_digit, lemma_dec_digits, lemma_digit_run_end_at, lemma_pad_digits, lemma_val_dec,
    lemma_val_pad, pad_spec, pow10,
};

verus! {

/// Two runs over the same logical input render byte-identical text: every
/// stage is specified as a function of plain mathematical values, ordered
/// under fixed total orders, so no internal iteration order, process
/// state, or environment can show through in the output.
pub proof fn lemma_run_deterministic(
    a: ChangeLogV,
    b: ChangeLogV,
    ca: Seq<CommitV>,
    cb: Seq<CommitV>,
    name: VersionV,
    date: Option<Date>,
    level: u64,
)
    requires
        a == b,
        ca == cb,
    ensures
        spec_encode(spec_generate(a, ca, name, date, level)) == spec_encode(
            spec_generate(b, cb, name, date, level),
        ),
{
}

/// Reading a rendered release name gives back exactly the name: the
/// version codec is lossless for every version value.
pub proof fn lemma_version_round_trip(v: VersionV)
    ensures
        parse_version(enc_version(v)) == Some(v),
{
    match v {
        VersionV::Unreleased => {},
        VersionV::Semantic { major, minor, patch, prerelease } => {
            let l1 = dec_spec(major);
            let l2 = dec_spec(minor);
            let l3 = dec_spec(patch);
            let tail: Seq<u8> = if prerelease.len() > 0 {
                seq![45u8] + prerelease
            } else {
                Seq::empty()
            };
            let b = enc_version(v);
            lemma_dec_digits(major);
            lemma_dec_digits(minor);
            lemma_dec_digits(patch);
            assert(b =~= l1 + seq![46u8] + l2 + seq![46u8] + l3 + tail);
            let n1 = l1.len() as int;
            let n2 = l2.len() as int;
            let n3 = l3.len() as int;
            // not the literal `Unreleased`: that text starts with no digit
            assert(b != c_unreleased()) by {
                if b == c_unreleased() {
                    assert(b[0] == 85u8);
                    assert(b[0] == l1[0]);
                    assert(is_digit(l1[0]));
                }
            }
            // the three digit runs stop exactly at the dots
            assert(forall|k: int| 0 <= k < n1 ==> is_digit(b[k]));
            assert(b[n1] == 46u8);
            lemma_digit_run_end_at(b, 0, n1);
            assert(b.take(n1) =~= l1);
            lemma_val_dec(major);
            assert(forall|k: int| n1 + 1 <= k < n1 + 1 + n2 ==> is_digit(b[k]));
            assert(b[n1 + 1 + n2] == 46u8);
            lemma_digit_run_end_at(b, n1 + 1, n1 + 1 + n2);
            assert(b.subrange(n1 + 1, n1 + 1 + n2) =~= l2);
            lemma_val_dec(minor);
            let s3 = n1 + 1 + n2 + 1;
            assert(forall|k: int| s3 <= k < s3 + n3 ==> is_digit(b[k]));
            if prerelease.len() > 0 {
                assert(b[s3 + n3] == 45u8);
                lemma_digit_run_end_at(b, s3, s3 + n3);
                assert(b.subrange(s3, s3 + n3) =~= l3);
                lemma_val_dec(patch);
                assert(b.skip(s3 + n3 + 1) =~= prerelease);
            } else {
                assert(b.len() == s3 + n3);
                lemma_digit_run_end_at(b, s3, s3 + n3);
                assert(b.subrange(s3, s3 + n3) =~= l3);
                lemma_val_dec(patch);
                assert(parse_version(b)->Some_0 =~~= v);
            }
        },
    }
}

/// Reading a rendered date gives back exactly the date, for every date in
/// calendar range.
pub proof fn lemma_date_round_trip(d: Date)
    requires
        d.wf(),
    ensures
        parse_date(enc_date(d)) == Some(d),
{
    let b = enc_date(d);
    lemma_pad_digits(d.year, 4);
    lemma_pad_digits(d.month, 2);
    lemma_pad_digits(d.day, 2);
    assert(b =~= pad_spec(d.year, 4) + seq![45u8] + pad_spec(d.month, 2) + seq![45u8] + pad_spec(
        d.day,
        2,
    ));
    assert(b.len() == 10);
    assert(b[4] == 45u8);
    assert(b[7] == 45u8);
    assert(forall|k: int| 0 <= k < 4 ==> is_digit(b[k]));
    assert(forall|k: int| 5 <= k < 7 ==> is_digit(b[k]));
    assert(forall|k: int| 8 <= k < 10 ==> is_digit(b[k]));
    lemma_digit_run_end_at(b, 0, 4);
    lemma_digit_run_end_at(b, 5, 7);
    lemma_digit_run_end_at(b, 8, 10);
    assert(pow10(0) == 1);
    assert(pow10(1) == 10);
    assert(pow10(2) == 100);
    assert(pow10(3) == 1000);
    assert(pow10(4) == 10000);
    assert(b.take(4) =~= pad_spec(d.year, 4));
    lemma_val_pad(d.year, 4);
    assert(b.subrange(5, 7) =~= pad_spec(d.month, 2));
    lemma_val_pad(d.month, 2);
    assert(b.subrange(8, 10) =~= pad_spec(d.day, 2));
    lemma_val_pad(d.day, 2);
}

/// A release name the heading grammar can carry: any version whose
/// prerelease tag holds no space and no line break.
pub open spec fn version_wf(v: VersionV) -> bool {
    match v {
        VersionV::Unreleased => true,
        VersionV::Semantic { prerelease, .. } => forall|k: int|
            0 <= k < prerelease.len() ==> #[trigger] prerelease[k] != 32 && prerelease[k] != 10,
    }
}

/// Classifying a rendered release heading gives back exactly the level,
/// the name and the date: the decoder reopens precisely the release the
/// encoder wrote.
#[verifier::rlimit(100)]
pub proof fn lemma_heading_round_trip(level: u64, name: VersionV, date: Option<Date>)
    requires
        1 <= level <= 6,
        version_wf(name),
        date is Some ==> date->0.wf(),
    ensures
        classify(crate::codec::enc_heading(level, name, date)) == (LineK::Release {
            level,
            name,
            date,
        }),
{
    let line = crate::codec::enc_heading(level, name, date);
    let vtext = enc_version(name);
    let dpart: Seq<u8> = match date {
        Some(d) => seq![32u8, 40u8] + enc_date(d) + seq![41u8],
        None => Seq::empty(),
    };
    let b = crate::codec::body_of(line);
    assert(line.last() == 10);
    assert(b =~= crate::codec::hashes(level) + seq![32u8] + vtext + dpart);
    let lv = level as int;
    assert(forall|k: int| 0 <= k < lv ==> b[k] == 35);
    // the rendered name holds no space and no hash at its head
    assert(forall|k: int| 0 <= k < vtext.len() ==> #[trigger] vtext[k] != 32) by {
        match name {
            VersionV::Unreleased => {
                assert(forall|k: int|
                    0 <= k < c_unreleased().len() ==> #[trigger] c_unreleased()[k] != 32);
            },
            VersionV::Semantic { major, minor, patch, prerelease } => {
                lemma_dec_digits(major);
                lemma_dec_digits(minor);
                lemma_dec_digits(patch);
            },
        }
    }
    assert(b[lv] == 32);
    crate::codec::lemma_hash_run_at(b, 0, lv);
    let rest = b.skip(lv + 1);
    assert(rest =~= vtext + dpart);
    lemma_version_round_trip(name);
    match date {
        None => {
            assert(rest =~= vtext);
            crate::codec::lemma_find_space_at(rest, 0, rest.len() as int);
            assert(rest.take(rest.len() as int) =~= vtext);
        },
        Some(d) => {
            let sp = vtext.len() as int;
            assert(rest[sp] == 32);
            crate::codec::lemma_find_space_at(rest, 0, sp);
            assert(rest.take(sp) =~= vtext);
            let dp = rest.skip(sp + 1);
            lemma_pad_digits(d.year, 4);
            lemma_pad_digits(d.month, 2);
            lemma_pad_digits(d.day, 2);
            assert(enc_date(d).len() == 10);
            assert(dp =~= seq![40u8] + enc_date(d) + seq![41u8]);
            assert(dp.len() == 12);
            assert(dp[0] == 40);
            assert(dp[11] == 41);
            assert(dp.subrange(1, 11) =~= enc_date(d));
            lemma_date_round_trip(d);
        },
    }
}

/// Flattening the line split gives back the text: no byte is lost at the
/// line level.
pub proof fn lemma_lines_flatten(s: Seq<u8>, i: int)
    requires
        0 <= i <= s.len(),
    ensures
        flatten_lines(lines_from(s, i)) == s.skip(i),
    decreases s.len() - i,
{
    if i >= s.len() {
        assert(flatten_lines(lines_from(s, i)) =~= s.skip(i));
    } else {
        crate::codec::lemma_line_end(s, i);
        let e = line_end(s, i);
        lemma_lines_flatten(s, e);
        assert(lines_from(s, i).drop_first() =~= lines_from(s, e));
        assert(flatten_lines(lines_from(s, i)) == s.subrange(i, e) + flatten_lines(
            lines_from(s, e),
        ));
        assert(s.subrange(i, e) + s.skip(e) =~= s.skip(i));
    }
}

pub open spec fn flatten_lines(lines: Seq<Seq<u8>>) -> Seq<u8>
    decreases lines.len(),
{
    if lines.len() == 0 {
        Seq::empty()
    } else {
        lines.first() + flatten_lines(lines.drop_first())
    }
}

/// Every line of the text is free-form prose: nothing in it parses as a
/// structural line.
pub open spec fn all_plain(lines: Seq<Seq<u8>>) -> bool {
    forall|i: int| 0 <= i < lines.len() ==> classify(#[trigger] lines[i]) is Plain
}

proof fn lemma_fold_plain(lines: Seq<Seq<u8>>, t: Seq<u8>, g: bool)
    requires
        all_plain(lines),
    ensures
        fold_st(lines, St { done: Seq::empty(), mode: Mode::Pre { text: t, generated: g } })
            == (St {
            done: Seq::empty(),
            mode: Mode::Pre { text: t + flatten_lines(lines), generated: g },
        }),
    decreases lines.len(),
{
    if lines.len() == 0 {
        assert(t + flatten_lines(lines) =~= t);
    } else {
        assert(classify(lines.first()) is Plain);
        assert(all_plain(lines.drop_first())) by {
            assert(forall|i: int|
                0 <= i < lines.drop_first().len() ==> lines.drop_first()[i] == lines[i + 1]);
        }
        lemma_fold_plain(lines.drop_first(), t + lines.first(), g);
        assert((t + lines.first()) + flatten_lines(lines.drop_first()) =~= t + flatten_lines(
            lines,
        ));
    }
}

/// Content preservation for hand-authored prose: a text none of whose
/// lines has a structural shape decodes to a single verbatim section
/// holding the text unchanged, and re-encoding returns the exact bytes.
pub proof fn lemma_plain_text_preserved(s: Seq<u8>)
    requires
        s.len() > 0,
        all_plain(spec_lines(s)),
    ensures
        spec_decode(s) == (ChangeLogV {
            sections: seq![SectionV::Verbatim { text: s, generated: false }],
        }),
        spec_encode(spec_decode(s)) == s,
{
    lemma_fold_plain(spec_lines(s), Seq::empty(), false);
    lemma_lines_flatten(s, 0);
    assert(s.skip(0) =~= s);
    assert(Seq::<u8>::empty() + s =~= s);
    assert(spec_decode(s).sections =~~= seq![SectionV::Verbatim { text: s, generated: false }]);
    let sec = SectionV::Verbatim { text: s, generated: false };
    assert(spec_decode(s).sections == seq![sec]);
    assert(seq![sec].drop_last() =~= Seq::<SectionV>::empty());
    assert(seq![sec].last() == sec);
    assert(crate::codec::enc_sections(seq![sec]) == crate::codec::enc_sections(
        Seq::<SectionV>::empty(),
    ) + enc_section(sec));
    assert(crate::codec::enc_sections(Seq::<SectionV>::empty()) =~= Seq::<u8>::empty());
    assert(enc_section(sec) =~= s);
    assert(Seq::<u8>::empty() + s =~= s);
    assert(spec_encode(spec_decode(s)) =~= s);
}

// --- idempotent generation ------------------------------------------------

pub open spec fn is_named(sec: SectionV, name: VersionV) -> bool {
    sec is Release && sec->Release_name == name
}

proof fn lemma_find_pos(ss: Seq<SectionV>, nm: VersionV, k: int)
    requires
        0 <= k <= ss.len(),
    ensures
        crate::generate::find_release(ss, nm, k) >= 0 ==> {
            let i = crate::generate::find_release(ss, nm, k);
            &&& k <= i < ss.len()
            &&& is_named(ss[i], nm)
            &&& forall|j: int| k <= j < i ==> !is_named(#[trigger] ss[j], nm)
        },
        crate::generate::find_release(ss, nm, k) < 0 ==> forall|j: int|
            k <= j < ss.len() ==> !is_named(#[trigger] ss[j], nm),
    decreases ss.len() - k,
{
    if k < ss.len() {
        lemma_find_pos(ss, nm, k + 1);
    }
}

proof fn lemma_find_at(ss: Seq<SectionV>, nm: VersionV, i: int, k: int)
    requires
        0 <= k <= i < ss.len(),
        is_named(ss[i], nm),
        forall|j: int| k <= j < i ==> !is_named(#[trigger] ss[j], nm),
    ensures
        crate::generate::find_release(ss, nm, k) == i,
    decreases i - k,
{
    if k < i {
        lemma_find_at(ss, nm, i, k + 1);
    }
}

proof fn lemma_users_single(s: crate::model::SegmentV)
    ensures
        crate::generate::users_of(seq![s]) == if s is User {
            seq![s]
        } else {
            Seq::<crate::model::SegmentV>::empty()
        },
{
    assert(seq![s].drop_first() =~= Seq::<crate::model::SegmentV>::empty());
    assert(crate::generate::users_of(Seq::<crate::model::SegmentV>::empty())
        == Seq::<crate::model::SegmentV>::empty());
    if s is User {
        assert(crate::generate::users_of(seq![s]) =~= seq![s]);
    } else {
        assert(crate::generate::users_of(seq![s]) =~= Seq::<crate::model::SegmentV>::empty());
    }
}

proof fn lemma_users_append(a: Seq<crate::model::SegmentV>, b: Seq<crate::model::SegmentV>)
    ensures
        crate::generate::users_of(a + b) == crate::generate::users_of(a)
            + crate::generate::users_of(b),
    decreases a.len(),
{
    if a.len() == 0 {
        assert(a + b =~= b);
        assert(crate::generate::users_of(a) =~= Seq::<crate::model::SegmentV>::empty());
        assert(crate::generate::users_of(a) + crate::generate::users_of(b)
            =~= crate::generate::users_of(b));
    } else {
        assert((a + b).first() == a.first());
        assert((a + b).drop_first() =~= a.drop_first() + b);
        lemma_users_append(a.drop_first(), b);
        assert(crate::generate::users_of(a + b) =~= crate::generate::users_of(a)
            + crate::generate::users_of(b));
    }
}

proof fn lemma_users_sel(cs: Seq<CommitV>, rs: Seq<Seq<u8>>, pass: int)
    ensures
        crate::generate::users_of(crate::generate::convs_sel(cs, rs, pass)) == Seq::<
            crate::model::SegmentV,
        >::empty(),
    decreases rs.len(),
{
    if rs.len() > 0 {
        lemma_users_sel(cs, rs.drop_first(), pass);
        let head: Seq<crate::model::SegmentV> = if crate::generate::pass_match(
            cs,
            rs.first(),
            pass,
        ) {
            seq![crate::model::SegmentV::Conventional(crate::generate::conv_of_kind(cs, rs.first()))]
        } else {
            Seq::empty()
        };
        lemma_users_append(head, crate::generate::convs_sel(cs, rs.drop_first(), pass));
        if crate::generate::pass_match(cs, rs.first(), pass) {
            lemma_users_single(
                crate::model::SegmentV::Conventional(
                    crate::generate::conv_of_kind(cs, rs.first()),
                ),
            );
        }
        assert(crate::generate::users_of(head) =~= Seq::<crate::model::SegmentV>::empty());
        assert(crate::generate::users_of(crate::generate::convs_sel(cs, rs, pass))
            =~= Seq::<crate::model::SegmentV>::empty());
    } else {
        assert(crate::generate::users_of(crate::generate::convs_sel(cs, rs, pass))
            =~= Seq::<crate::model::SegmentV>::empty());
    }
}

/// Nothing the generator writes is a hand-authored segment.
proof fn lemma_users_gen(cs: Seq<CommitV>)
    ensures
        crate::generate::users_of(crate::generate::gen_segs(cs)) == Seq::<
            crate::model::SegmentV,
        >::empty(),
{
    let ks = crate::generate::sorted_refs(crate::generate::all_kinds(cs));
    lemma_users_sel(cs, ks, 0);
    lemma_users_sel(cs, ks, 1);
    lemma_users_sel(cs, ks, 2);
    lemma_users_sel(cs, ks, 3);
    let tailseq = seq![
        crate::model::SegmentV::Statistics(
            crate::model::DataV::Generated(crate::generate::spec_statistics(cs)),
        ),
        crate::model::SegmentV::Details(
            crate::model::DataV::Generated(crate::generate::spec_details(cs)),
        ),
    ];
    assert(crate::generate::users_of(tailseq) =~= Seq::<crate::model::SegmentV>::empty()) by {
        let sseg = crate::model::SegmentV::Statistics(
            crate::model::DataV::Generated(crate::generate::spec_statistics(cs)),
        );
        let dseg = crate::model::SegmentV::Details(
            crate::model::DataV::Generated(crate::generate::spec_details(cs)),
        );
        assert(tailseq =~= seq![sseg] + seq![dseg]);
        lemma_users_append(seq![sseg], seq![dseg]);
        lemma_users_single(sseg);
        lemma_users_single(dseg);
    }
    lemma_users_append(
        crate::generate::convs_sel(cs, ks, 0),
        crate::generate::convs_sel(cs, ks, 1),
    );
    lemma_users_append(
        crate::generate::convs_sel(cs, ks, 0) + crate::generate::convs_sel(cs, ks, 1),
        crate::generate::convs_sel(cs, ks, 2),
    );
    lemma_users_append(
        crate::generate::convs_sel(cs, ks, 0) + crate::generate::convs_sel(cs, ks, 1)
            + crate::generate::convs_sel(cs, ks, 2),
        crate::generate::convs_sel(cs, ks, 3),
    );
    lemma_users_append(crate::generate::conv_segs(cs), tailseq);
    assert(crate::generate::users_of(crate::generate::conv_segs(cs)) =~= Seq::<
        crate::model::SegmentV,
    >::empty());
    assert(crate::generate::users_of(crate::generate::gen_segs(cs)) =~= Seq::<
        crate::model::SegmentV,
    >::empty());
}

proof fn lemma_users_idem(x: Seq<crate::model::SegmentV>)
    ensures
        crate::generate::users_of(crate::generate::users_of(x)) == crate::generate::users_of(x),
    decreases x.len(),
{
    if x.len() > 0 {
        lemma_users_idem(x.drop_first());
        if x.first() is User {
            let u = crate::generate::users_of(x);
            assert(u == seq![x.first()] + crate::generate::users_of(x.drop_first()));
            lemma_users_append(seq![x.first()], crate::generate::users_of(x.drop_first()));
            lemma_users_single(x.first());
            assert(crate::generate::users_of(u) =~= crate::generate::users_of(x));
        } else {
            assert(crate::generate::users_of(x) == crate::generate::users_of(x.drop_first()));
        }
    }
}

/// Running the generator twice with the same commits, version, date and
/// level changes nothing the second time: generation is idempotent, and
/// with the codec's determinism the rendered text is byte-identical.
pub proof fn lemma_generate_idempotent(
    log: ChangeLogV,
    cs: Seq<CommitV>,
    name: VersionV,
    date: Option<Date>,
    level: u64,
)
    ensures
        spec_generate(spec_generate(log, cs, name, date, level), cs, name, date, level)
            == spec_generate(log, cs, name, date, level),
{
    let segs = crate::generate::gen_segs(cs);
    let l1 = spec_generate(log, cs, name, date, level);
    let i0 = crate::generate::find_release(log.sections, name, 0);
    lemma_find_pos(log.sections, name, 0);
    lemma_users_gen(cs);
    if i0 >= 0 {
        let sec1 = crate::generate::refresh(log.sections[i0], name, date, segs);
        assert(l1.sections =~= log.sections.update(i0, sec1));
        assert(is_named(sec1, name));
        assert(forall|j: int| 0 <= j < i0 ==> !is_named(#[trigger] l1.sections[j], name));
        lemma_find_at(l1.sections, name, i0, 0);
        let old_segs = log.sections[i0]->Release_segments;
        lemma_users_append(crate::generate::users_of(old_segs), segs);
        lemma_users_idem(old_segs);
        assert(crate::generate::refresh(sec1, name, date, segs) =~~= sec1);
        assert(l1.sections.update(i0, crate::generate::refresh(l1.sections[i0], name, date, segs))
            =~= l1.sections);
        assert(spec_generate(l1, cs, name, date, level).sections =~= l1.sections);
    } else {
        let u0 = crate::generate::find_release(log.sections, VersionV::Unreleased, 0);
        lemma_find_pos(log.sections, VersionV::Unreleased, 0);
        if u0 >= 0 {
            let sec1 = crate::generate::refresh(log.sections[u0], name, date, segs);
            assert(l1.sections =~= log.sections.update(u0, sec1));
            assert(is_named(sec1, name));
            assert(forall|j: int| 0 <= j < u0 ==> !is_named(#[trigger] l1.sections[j], name));
            lemma_find_at(l1.sections, name, u0, 0);
            let old_segs = log.sections[u0]->Release_segments;
            lemma_users_append(crate::generate::users_of(old_segs), segs);
            lemma_users_idem(old_segs);
            assert(crate::generate::refresh(sec1, name, date, segs) =~~= sec1);
            assert(l1.sections.update(
                u0,
                crate::generate::refresh(l1.sections[u0], name, date, segs),
            ) =~= l1.sections);
            assert(spec_generate(l1, cs, name, date, level).sections =~= l1.sections);
        } else {
            let pos: int = if log.sections.len() > 0 && log.sections[0] is Verbatim {
                1
            } else {
                0
            };
            let fresh = SectionV::Release {
                heading_level: level,
                date,
                name,
                removed_messages: Seq::empty(),
                segments: segs,
                unknown: Seq::empty(),
            };
            assert(l1.sections =~= log.sections.insert(pos, fresh));
            assert(is_named(l1.sections[pos], name));
            assert(forall|j: int| 0 <= j < pos ==> !is_named(#[trigger] l1.sections[j], name));
            lemma_find_at(l1.sections, name, pos, 0);
            assert(crate::generate::refresh(fresh, name, date, segs) =~~= fresh) by {
                assert(crate::generate::users_of(segs) + segs =~= segs);
            }
            assert(l1.sections.update(
                pos,
                crate::generate::refresh(l1.sections[pos], name, date, segs),
            ) =~= l1.sections);
            assert(spec_generate(l1, cs, name, date, level).sections =~= l1.sections);
        }
    }
    assert(spec_generate(l1, cs, name, date, level) =~~= l1);
}

} // verus!
