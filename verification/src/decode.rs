//! Decoding text into the document model.
//!
//! Decoding is total: every line of input lands somewhere in the result —
//! as verbatim front matter, as a release's opaque trailing text, as a
//! hand-authored segment, or as a decoded structured block. No input is
//! ever rejected or dropped. The decoder is a line-by-line state machine;
//! its whole behaviour is pinned by the spec-level machine below, so two
//! runs over equal input always return equal documents.

use vstd::prelude::*;
use crate::model::{
    Category, CategoryMessages, CategoryMessagesV, CategoryV, ChangeLog, ChangeLogV,
    CommitStatistics, Conventional, ConventionalV, Data, DataV, Date, Details, DetailsV, Message,
    MessageV, Section, SectionV, Segment, SegmentV, ThanksClippy, Version, VersionV,
};
use crate::codec::{
    c_generated, classify, classify_line, LineK, LineKE, mk_generated, push_bytes, spec_lines,
    split_lines,
};
use crate::text::bytes_eq;

verus! {

// --- the spec-level machine -----------------------------------------------

/// A release section under construction.
#[verifier::ext_equal]
pub struct RelSt {
    pub level: u64,
    pub date: Option<Date>,
    pub name: VersionV,
    pub removed: Seq<Seq<u8>>,
    pub segs: Seq<SegmentV>,
    pub pending: Seq<u8>,
}

/// What the decoder is in the middle of.
#[verifier::ext_equal]
pub enum Mode {
    /// Before the first release heading: front matter accumulates.
    Pre { text: Seq<u8>, generated: bool },
    /// Inside a release, at block level.
    Top(RelSt),
    /// Inside a conventional grouping.
    Conv(RelSt, ConventionalV),
    /// Inside a details listing, with the finished categories and the one
    /// currently filling.
    Det(RelSt, Seq<CategoryMessagesV>, Option<CategoryMessagesV>),
}

#[verifier::ext_equal]
pub struct St {
    pub done: Seq<SectionV>,
    pub mode: Mode,
}

/// Accumulated plain lines become a hand-authored segment once a
/// structured block starts after them.
pub open spec fn flush(segs: Seq<SegmentV>, pending: Seq<u8>) -> Seq<SegmentV> {
    if pending.len() > 0 {
        segs.push(SegmentV::User { markdown: pending })
    } else {
        segs
    }
}

pub open spec fn flushed(r: RelSt) -> RelSt {
    RelSt {
        level: r.level,
        date: r.date,
        name: r.name,
        removed: r.removed,
        segs: flush(r.segs, r.pending),
        pending: Seq::empty(),
    }
}

/// Plain lines still pending at the section's end stay as its opaque
/// trailing text.
pub open spec fn close_rel(r: RelSt) -> SectionV {
    SectionV::Release {
        heading_level: r.level,
        date: r.date,
        name: r.name,
        removed_messages: r.removed,
        segments: r.segs,
        unknown: r.pending,
    }
}

pub open spec fn fresh_rel(level: u64, name: VersionV, date: Option<Date>) -> RelSt {
    RelSt {
        level,
        date,
        name,
        removed: Seq::empty(),
        segs: Seq::empty(),
        pending: Seq::empty(),
    }
}

pub open spec fn conv_close(r: RelSt, c: ConventionalV) -> RelSt {
    RelSt {
        level: r.level,
        date: r.date,
        name: r.name,
        removed: r.removed,
        segs: r.segs.push(SegmentV::Conventional(c)),
        pending: r.pending,
    }
}

pub open spec fn opt_cat(cur: Option<CategoryMessagesV>) -> Seq<CategoryMessagesV> {
    match cur {
        Some(c) => seq![c],
        None => Seq::empty(),
    }
}

pub open spec fn det_close(r: RelSt, cats: Seq<CategoryMessagesV>, cur: Option<CategoryMessagesV>) -> RelSt {
    RelSt {
        level: r.level,
        date: r.date,
        name: r.name,
        removed: r.removed,
        segs: r.segs.push(
            SegmentV::Details(
                DataV::Generated(DetailsV { commits_by_category: cats + opt_cat(cur) }),
            ),
        ),
        pending: r.pending,
    }
}

/// Front matter becomes a verbatim section, if there was any.
pub open spec fn pre_flush(text: Seq<u8>, generated: bool) -> Seq<SectionV> {
    if text.len() > 0 || generated {
        seq![SectionV::Verbatim { text, generated }]
    } else {
        Seq::empty()
    }
}

/// One line handled at block level inside a release.
pub open spec fn step_top(done: Seq<SectionV>, r: RelSt, line: Seq<u8>) -> St {
    match classify(line) {
        LineK::Release { level, name, date } => St {
            done: done.push(close_rel(r)),
            mode: Mode::Top(fresh_rel(level, name, date)),
        },
        LineK::ConvHead { kind, breaking } => St {
            done,
            mode: Mode::Conv(
                flushed(r),
                ConventionalV {
                    kind,
                    is_breaking: breaking,
                    removed: Seq::empty(),
                    messages: Seq::empty(),
                },
            ),
        },
        LineK::IdComment { id } => St {
            done,
            mode: Mode::Top(
                RelSt {
                    level: r.level,
                    date: r.date,
                    name: r.name,
                    removed: r.removed.push(id),
                    segs: flush(r.segs, r.pending),
                    pending: Seq::empty(),
                },
            ),
        },
        LineK::DetOpen => St { done, mode: Mode::Det(flushed(r), Seq::empty(), None) },
        LineK::ClippyL { count } => St {
            done,
            mode: Mode::Top(
                RelSt {
                    level: r.level,
                    date: r.date,
                    name: r.name,
                    removed: r.removed,
                    segs: flush(r.segs, r.pending).push(
                        SegmentV::Clippy(DataV::Generated(ThanksClippy { count })),
                    ),
                    pending: Seq::empty(),
                },
            ),
        },
        LineK::StatsL { stats } => St {
            done,
            mode: Mode::Top(
                RelSt {
                    level: r.level,
                    date: r.date,
                    name: r.name,
                    removed: r.removed,
                    segs: flush(r.segs, r.pending).push(
                        SegmentV::Statistics(DataV::Generated(stats)),
                    ),
                    pending: Seq::empty(),
                },
            ),
        },
        _ => St {
            done,
            mode: Mode::Top(
                RelSt {
                    level: r.level,
                    date: r.date,
                    name: r.name,
                    removed: r.removed,
                    segs: r.segs,
                    pending: r.pending + line,
                },
            ),
        },
    }
}

/// One line of input.
pub open spec fn step(st: St, line: Seq<u8>) -> St {
    match st.mode {
        Mode::Pre { text, generated } => match classify(line) {
            LineK::Release { level, name, date } => St {
                done: st.done + pre_flush(text, generated),
                mode: Mode::Top(fresh_rel(level, name, date)),
            },
            LineK::IdComment { id } => {
                if id == c_generated() && text.len() == 0 && !generated {
                    St { done: st.done, mode: Mode::Pre { text, generated: true } }
                } else {
                    St { done: st.done, mode: Mode::Pre { text: text + line, generated } }
                }
            },
            _ => St { done: st.done, mode: Mode::Pre { text: text + line, generated } },
        },
        Mode::Top(r) => step_top(st.done, r, line),
        Mode::Conv(r, c) => match classify(line) {
            LineK::IdComment { id } => St {
                done: st.done,
                mode: Mode::Conv(
                    r,
                    ConventionalV {
                        kind: c.kind,
                        is_breaking: c.is_breaking,
                        removed: c.removed.push(id),
                        messages: c.messages,
                    },
                ),
            },
            LineK::Msg { id, title } => St {
                done: st.done,
                mode: Mode::Conv(
                    r,
                    ConventionalV {
                        kind: c.kind,
                        is_breaking: c.is_breaking,
                        removed: c.removed,
                        messages: c.messages.push(MessageV { id, title }),
                    },
                ),
            },
            _ => step_top(st.done, conv_close(r, c), line),
        },
        Mode::Det(r, cats, cur) => match classify(line) {
            LineK::CatL { cat } => St {
                done: st.done,
                mode: Mode::Det(
                    r,
                    cats + opt_cat(cur),
                    Some(CategoryMessagesV { category: cat, messages: Seq::empty() }),
                ),
            },
            LineK::Msg { id, title } => match cur {
                Some(c) => St {
                    done: st.done,
                    mode: Mode::Det(
                        r,
                        cats,
                        Some(
                            CategoryMessagesV {
                                category: c.category,
                                messages: c.messages.push(MessageV { id, title }),
                            },
                        ),
                    ),
                },
                None => step_top(st.done, det_close(r, cats, cur), line),
            },
            LineK::DetClose => St { done: st.done, mode: Mode::Top(det_close(r, cats, cur)) },
            _ => step_top(st.done, det_close(r, cats, cur), line),
        },
    }
}

pub open spec fn fold_st(lines: Seq<Seq<u8>>, st: St) -> St
    decreases lines.len(),
{
    if lines.len() == 0 {
        st
    } else {
        fold_st(lines.drop_first(), step(st, lines.first()))
    }
}

pub open spec fn init_st() -> St {
    St { done: Seq::empty(), mode: Mode::Pre { text: Seq::empty(), generated: false } }
}

pub open spec fn finalize(st: St) -> Seq<SectionV> {
    match st.mode {
        Mode::Pre { text, generated } => st.done + pre_flush(text, generated),
        Mode::Top(r) => st.done.push(close_rel(r)),
        Mode::Conv(r, c) => st.done.push(close_rel(conv_close(r, c))),
        Mode::Det(r, cats, cur) => st.done.push(close_rel(det_close(r, cats, cur))),
    }
}

/// The full meaning of a text as a document.
pub open spec fn spec_decode(s: Seq<u8>) -> ChangeLogV {
    ChangeLogV { sections: finalize(fold_st(spec_lines(s), init_st())) }
}

// --- the executable machine ------------------------------------------------

pub struct RelStE {
    pub level: u64,
    pub date: Option<Date>,
    pub name: Version,
    pub removed: Vec<Vec<u8>>,
    pub segs: Vec<Segment>,
    pub pending: Vec<u8>,
}

impl DeepView for RelStE {
    type V = RelSt;

    open spec fn deep_view(&self) -> RelSt {
        RelSt {
            level: self.level,
            date: self.date,
            name: self.name.deep_view(),
            removed: self.removed.deep_view(),
            segs: self.segs.deep_view(),
            pending: self.pending.deep_view(),
        }
    }
}

pub enum ModeE {
    Pre { text: Vec<u8>, generated: bool },
    Top(RelStE),
    Conv(RelStE, Conventional),
    Det(RelStE, Vec<CategoryMessages>, Option<CategoryMessages>),
}

impl DeepView for ModeE {
    type V = Mode;

    open spec fn deep_view(&self) -> Mode {
        match self {
            ModeE::Pre { text, generated } => Mode::Pre {
                text: text.deep_view(),
                generated: *generated,
            },
            ModeE::Top(r) => Mode::Top(r.deep_view()),
            ModeE::Conv(r, c) => Mode::Conv(r.deep_view(), c.deep_view()),
            ModeE::Det(r, cats, cur) => Mode::Det(
                r.deep_view(),
                cats.deep_view(),
                cur.deep_view(),
            ),
        }
    }
}

pub struct StE {
    pub done: Vec<Section>,
    pub mode: ModeE,
}

impl DeepView for StE {
    type V = St;

    open spec fn deep_view(&self) -> St {
        St { done: self.done.deep_view(), mode: self.mode.deep_view() }
    }
}

fn flush_e(r: RelStE) -> (r2: RelStE)
    ensures
        r2.deep_view() == flushed(r.deep_view()),
{
    let RelStE { level, date, name, removed, mut segs, pending } = r;
    if pending.len() > 0 {
        let ghost segs0 = segs.deep_view();
        segs.push(Segment::User { markdown: pending });
        proof {
            assert(segs.deep_view() =~~= flush(segs0, r.deep_view().pending));
        }
        let out = RelStE { level, date, name, removed, segs, pending: Vec::new() };
        proof {
            assert(out.deep_view() =~~= flushed(r.deep_view()));
        }
        out
    } else {
        let out = RelStE { level, date, name, removed, segs, pending };
        proof {
            assert(out.deep_view().pending =~= Seq::<u8>::empty());
            assert(out.deep_view() =~~= flushed(r.deep_view()));
        }
        out
    }
}

fn close_rel_e(r: RelStE) -> (sec: Section)
    ensures
        sec.deep_view() == close_rel(r.deep_view()),
{
    let RelStE { level, date, name, removed, segs, pending } = r;
    let sec = Section::Release {
        heading_level: level,
        date,
        name,
        removed_messages: removed,
        segments: segs,
        unknown: pending,
    };
    proof {
        assert(sec.deep_view() =~~= close_rel(r.deep_view()));
    }
    sec
}

fn fresh_rel_e(level: u64, name: Version, date: Option<Date>) -> (r: RelStE)
    ensures
        r.deep_view() == fresh_rel(level, name.deep_view(), date),
{
    let r = RelStE {
        level,
        date,
        name,
        removed: Vec::new(),
        segs: Vec::new(),
        pending: Vec::new(),
    };
    proof {
        assert(r.deep_view() =~~= fresh_rel(level, name.deep_view(), date));
    }
    r
}

fn conv_close_e(r: RelStE, c: Conventional) -> (r2: RelStE)
    ensures
        r2.deep_view() == conv_close(r.deep_view(), c.deep_view()),
{
    let RelStE { level, date, name, removed, mut segs, pending } = r;
    let ghost segs0 = segs.deep_view();
    let ghost cv = c.deep_view();
    segs.push(Segment::Conventional(c));
    let out = RelStE { level, date, name, removed, segs, pending };
    proof {
        assert(segs.deep_view() =~~= segs0.push(SegmentV::Conventional(cv)));
        assert(out.deep_view() =~~= conv_close(r.deep_view(), cv));
    }
    out
}

fn det_close_e(r: RelStE, cats: Vec<CategoryMessages>, cur: Option<CategoryMessages>) -> (r2: RelStE)
    ensures
        r2.deep_view() == det_close(r.deep_view(), cats.deep_view(), cur.deep_view()),
{
    let ghost catsv = cats.deep_view();
    let ghost curv = cur.deep_view();
    let mut cats = cats;
    match cur {
        Some(c) => {
            cats.push(c);
            proof {
                assert(cats.deep_view() =~~= catsv + opt_cat(curv));
            }
        },
        None => {
            proof {
                assert(cats.deep_view() =~~= catsv + opt_cat(curv));
            }
        },
    }
    let RelStE { level, date, name, removed, mut segs, pending } = r;
    let ghost segs0 = segs.deep_view();
    segs.push(Segment::Details(Data::Generated(Details { commits_by_category: cats })));
    let out = RelStE { level, date, name, removed, segs, pending };
    proof {
        assert(out.deep_view() =~~= det_close(r.deep_view(), catsv, curv));
    }
    out
}

fn step_top_e(done: Vec<Section>, r: RelStE, line: &Vec<u8>, k: LineKE) -> (st: StE)
    requires
        k.deep_view() == classify(line@),
    ensures
        st.deep_view() == step_top(done.deep_view(), r.deep_view(), line@),
{
    let ghost done0 = done.deep_view();
    let ghost r0 = r.deep_view();
    match k {
        LineKE::Release { level, name, date } => {
            let mut done = done;
            let ghost dv0 = done.deep_view();
            let sec = close_rel_e(r);
            done.push(sec);
            proof {
                assert(done.deep_view() =~~= dv0.push(close_rel(r0)));
            }
            let st = StE { done, mode: ModeE::Top(fresh_rel_e(level, name, date)) };
            proof {
                assert(st.deep_view() =~~= step_top(done0, r0, line@));
            }
            st
        },
        LineKE::ConvHead { kind, breaking } => {
            let r2 = flush_e(r);
            let ghost kv = kind.deep_view();
            let c = Conventional { kind, is_breaking: breaking, removed: Vec::new(), messages: Vec::new() };
            let st = StE { done, mode: ModeE::Conv(r2, c) };
            proof {
                assert(c.deep_view() =~~= ConventionalV {
                    kind: kv,
                    is_breaking: breaking,
                    removed: Seq::empty(),
                    messages: Seq::empty(),
                });
                assert(st.deep_view() =~~= step_top(done0, r0, line@));
            }
            st
        },
        LineKE::IdComment { id } => {
            let mut r2 = flush_e(r);
            let ghost rem0 = r2.removed.deep_view();
            let ghost idv = id.deep_view();
            r2.removed.push(id);
            proof {
                assert(r2.removed.deep_view() =~~= rem0.push(idv));
            }
            let st = StE { done, mode: ModeE::Top(r2) };
            proof {
                assert(st.deep_view() =~~= step_top(done0, r0, line@));
            }
            st
        },
        LineKE::DetOpen => {
            let r2 = flush_e(r);
            let st = StE { done, mode: ModeE::Det(r2, Vec::new(), None) };
            proof {
                assert(st.deep_view() =~~= step_top(done0, r0, line@));
            }
            st
        },
        LineKE::ClippyL { count } => {
            let mut r2 = flush_e(r);
            let ghost segs0 = r2.segs.deep_view();
            r2.segs.push(Segment::Clippy(Data::Generated(ThanksClippy { count })));
            proof {
                assert(r2.segs.deep_view() =~~= segs0.push(
                    SegmentV::Clippy(DataV::Generated(ThanksClippy { count })),
                ));
            }
            let st = StE { done, mode: ModeE::Top(r2) };
            proof {
                assert(st.deep_view() =~~= step_top(done0, r0, line@));
            }
            st
        },
        LineKE::StatsL { stats } => {
            let mut r2 = flush_e(r);
            let ghost segs0 = r2.segs.deep_view();
            r2.segs.push(Segment::Statistics(Data::Generated(stats)));
            proof {
                assert(r2.segs.deep_view() =~~= segs0.push(
                    SegmentV::Statistics(DataV::Generated(stats)),
                ));
            }
            let st = StE { done, mode: ModeE::Top(r2) };
            proof {
                assert(st.deep_view() =~~= step_top(done0, r0, line@));
            }
            st
        },
        _ => {
            let mut r2 = r;
            push_bytes(&mut r2.pending, line);
            let st = StE { done, mode: ModeE::Top(r2) };
            proof {
                assert(st.deep_view() =~~= step_top(done0, r0, line@));
            }
            st
        },
    }
}

fn step_e(st: StE, line: &Vec<u8>) -> (st2: StE)
    ensures
        st2.deep_view() == step(st.deep_view(), line@),
{
    let ghost st0 = st.deep_view();
    let k = classify_line(line);
    let StE { done, mode } = st;
    match mode {
        ModeE::Pre { text, generated } => {
            match k {
                LineKE::Release { level, name, date } => {
                    let mut done = done;
                    let ghost dv0 = done.deep_view();
                    let ghost tv = text.deep_view();
                    if text.len() > 0 || generated {
                        done.push(Section::Verbatim { text, generated });
                        proof {
                            assert(done.deep_view() =~~= dv0 + pre_flush(tv, generated));
                        }
                    } else {
                        proof {
                            assert(done.deep_view() =~~= dv0 + pre_flush(tv, generated));
                        }
                    }
                    let st2 = StE { done, mode: ModeE::Top(fresh_rel_e(level, name, date)) };
                    proof {
                        assert(st2.deep_view() =~~= step(st0, line@));
                    }
                    st2
                },
                LineKE::IdComment { id } => {
                    let g = mk_generated();
                    if bytes_eq(&id, &g) && text.len() == 0 && !generated {
                        proof {
                            assert(id.deep_view() =~= id@);
                        }
                        let st2 = StE { done, mode: ModeE::Pre { text, generated: true } };
                        proof {
                            assert(st2.deep_view() =~~= step(st0, line@));
                        }
                        st2
                    } else {
                        let mut text = text;
                        let ghost tv = text.deep_view();
                        push_bytes(&mut text, line);
                        proof {
                            assert(id.deep_view() =~= id@);
                            assert(text.deep_view() =~= tv + line@);
                        }
                        let st2 = StE { done, mode: ModeE::Pre { text, generated } };
                        proof {
                            assert(st2.deep_view() =~~= step(st0, line@));
                        }
                        st2
                    }
                },
                _ => {
                    let mut text = text;
                    let ghost tv = text.deep_view();
                    push_bytes(&mut text, line);
                    proof {
                        assert(text.deep_view() =~= tv + line@);
                    }
                    let st2 = StE { done, mode: ModeE::Pre { text, generated } };
                    proof {
                        assert(st2.deep_view() =~~= step(st0, line@));
                    }
                    st2
                },
            }
        },
        ModeE::Top(r) => {
            let st2 = step_top_e(done, r, line, k);
            proof {
                assert(st2.deep_view() =~~= step(st0, line@));
            }
            st2
        },
        ModeE::Conv(r, c) => {
            match k {
                LineKE::IdComment { id } => {
                    let mut c = c;
                    let ghost rem0 = c.removed.deep_view();
                    let ghost idv = id.deep_view();
                    c.removed.push(id);
                    proof {
                        assert(c.removed.deep_view() =~~= rem0.push(idv));
                    }
                    let st2 = StE { done, mode: ModeE::Conv(r, c) };
                    proof {
                        assert(st2.deep_view() =~~= step(st0, line@));
                    }
                    st2
                },
                LineKE::Msg { id, title } => {
                    let mut c = c;
                    let ghost ms0 = c.messages.deep_view();
                    let ghost idv = id.deep_view();
                    let ghost tv = title.deep_view();
                    c.messages.push(Message { id, title });
                    proof {
                        assert(c.messages.deep_view() =~~= ms0.push(MessageV { id: idv, title: tv }));
                    }
                    let st2 = StE { done, mode: ModeE::Conv(r, c) };
                    proof {
                        assert(st2.deep_view() =~~= step(st0, line@));
                    }
                    st2
                },
                _ => {
                    let r2 = conv_close_e(r, c);
                    let st2 = step_top_e(done, r2, line, k);
                    proof {
                        assert(st2.deep_view() =~~= step(st0, line@));
                    }
                    st2
                },
            }
        },
        ModeE::Det(r, cats, cur) => {
            match k {
                LineKE::CatL { cat } => {
                    let ghost catsv = cats.deep_view();
                    let ghost curv = cur.deep_view();
                    let mut cats = cats;
                    match cur {
                        Some(c) => {
                            cats.push(c);
                            proof {
                                assert(cats.deep_view() =~~= catsv + opt_cat(curv));
                            }
                        },
                        None => {
                            proof {
                                assert(cats.deep_view() =~~= catsv + opt_cat(curv));
                            }
                        },
                    }
                    let ghost catv = cat.deep_view();
                    let nc = CategoryMessages { category: cat, messages: Vec::new() };
                    let st2 = StE { done, mode: ModeE::Det(r, cats, Some(nc)) };
                    proof {
                        assert(nc.deep_view() =~~= CategoryMessagesV {
                            category: catv,
                            messages: Seq::empty(),
                        });
                        assert(st2.deep_view() =~~= step(st0, line@));
                    }
                    st2
                },
                LineKE::Msg { id, title } => {
                    match cur {
                        Some(c) => {
                            let mut c = c;
                            let ghost ms0 = c.messages.deep_view();
                            let ghost idv = id.deep_view();
                            let ghost tv = title.deep_view();
                            c.messages.push(Message { id, title });
                            proof {
                                assert(c.messages.deep_view() =~~= ms0.push(
                                    MessageV { id: idv, title: tv },
                                ));
                            }
                            let st2 = StE { done, mode: ModeE::Det(r, cats, Some(c)) };
                            proof {
                                assert(st2.deep_view() =~~= step(st0, line@));
                            }
                            st2
                        },
                        None => {
                            let r2 = det_close_e(r, cats, None);
                            let mut r2 = r2;
                            push_bytes(&mut r2.pending, line);
                            let st2 = StE { done, mode: ModeE::Top(r2) };
                            proof {
                                assert(st2.deep_view() =~~= step(st0, line@));
                            }
                            st2
                        },
                    }
                },
                LineKE::DetClose => {
                    let r2 = det_close_e(r, cats, cur);
                    let st2 = StE { done, mode: ModeE::Top(r2) };
                    proof {
                        assert(st2.deep_view() =~~= step(st0, line@));
                    }
                    st2
                },
                _ => {
                    let r2 = det_close_e(r, cats, cur);
                    let st2 = step_top_e(done, r2, line, k);
                    proof {
                        assert(st2.deep_view() =~~= step(st0, line@));
                    }
                    st2
                },
            }
        },
    }
}

fn finalize_e(st: StE) -> (sections: Vec<Section>)
    ensures
        sections.deep_view() == finalize(st.deep_view()),
{
    let ghost st0 = st.deep_view();
    let StE { done, mode } = st;
    match mode {
        ModeE::Pre { text, generated } => {
            let mut done = done;
            let ghost dv0 = done.deep_view();
            let ghost tv = text.deep_view();
            if text.len() > 0 || generated {
                done.push(Section::Verbatim { text, generated });
            }
            proof {
                assert(done.deep_view() =~~= dv0 + pre_flush(tv, generated));
                assert(done.deep_view() =~~= finalize(st0));
            }
            done
        },
        ModeE::Top(r) => {
            let mut done = done;
            let ghost dv0 = done.deep_view();
            let sec = close_rel_e(r);
            done.push(sec);
            proof {
                assert(done.deep_view() =~~= dv0.push(close_rel(st0.mode->Top_0)));
                assert(done.deep_view() =~~= finalize(st0));
            }
            done
        },
        ModeE::Conv(r, c) => {
            let mut done = done;
            let ghost dv0 = done.deep_view();
            let r2 = conv_close_e(r, c);
            let sec = close_rel_e(r2);
            done.push(sec);
            proof {
                assert(done.deep_view() =~~= finalize(st0));
            }
            done
        },
        ModeE::Det(r, cats, cur) => {
            let mut done = done;
            let ghost dv0 = done.deep_view();
            let r2 = det_close_e(r, cats, cur);
            let sec = close_rel_e(r2);
            done.push(sec);
            proof {
                assert(done.deep_view() =~~= finalize(st0));
            }
            done
        },
    }
}

impl ChangeLog {
    /// Reads a document back from text. Total: no input is rejected, and
    /// every byte is kept somewhere in the result.
    pub fn from_markdown(text: &Vec<u8>) -> (log: ChangeLog)
        ensures
            log.deep_view() == spec_decode(text@),
    {
        let lines = split_lines(text);
        let ghost lv = lines.deep_view();
        let mut st = StE { done: Vec::new(), mode: ModeE::Pre { text: Vec::new(), generated: false } };
        proof {
            assert(st.deep_view() =~~= init_st());
            assert(lv.skip(0) =~= lv);
        }
        let mut i: usize = 0;
        while i < lines.len()
            invariant
                0 <= i <= lines@.len(),
                lv == lines.deep_view(),
                fold_st(lv.skip(i as int), st.deep_view()) == fold_st(lv, init_st()),
            decreases lines@.len() - i,
        {
            let ghost pre = st.deep_view();
            st = step_e(st, &lines[i]);
            proof {
                assert(lv.skip(i as int).drop_first() =~= lv.skip(i + 1));
                assert(lv.skip(i as int).first() == lines@[i as int].deep_view());
                assert(lines@[i as int].deep_view() =~= lines@[i as int]@);
                assert(fold_st(lv.skip(i as int), pre) == fold_st(
                    lv.skip(i + 1),
                    step(pre, lv.skip(i as int).first()),
                ));
            }
            i = i + 1;
        }
        proof {
            assert(lv.skip(lines@.len() as int) =~= Seq::<Seq<u8>>::empty());
        }
        let sections = finalize_e(st);
        let log = ChangeLog { sections };
        proof {
            assert(log.deep_view() =~~= spec_decode(text@));
        }
        log
    }
}

} // verus!
