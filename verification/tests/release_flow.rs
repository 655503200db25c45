use cargo_smart_release::{effective_crate_names, BumpLevel};
use cargo_smart_release::bump::{base_level, propagate};
use cargo_smart_release::classify::{classify_commit, RawCommit};
use cargo_smart_release::generate::compute_statistics;
use cargo_smart_release::model::{ChangeLog, Date, Section, Segment, Version};
use cargo_smart_release::plan::{plan_publish_order, PlanError};

fn raw(id: &str, title: &str, body: &str, time: u64) -> RawCommit {
    RawCommit {
        id: id.as_bytes().to_vec(),
        title: title.as_bytes().to_vec(),
        body: body.as_bytes().to_vec(),
        time,
    }
}

#[test]
fn classifier_reads_conventional_headers() {
    let c = classify_commit(raw("a1", "feat(parser)!: add nested tables", "", 10));
    assert_eq!(c.kind, Some(b"feat".to_vec()));
    assert!(c.is_breaking);

    let c = classify_commit(raw("a2", "fix: stop the drip", "", 11));
    assert_eq!(c.kind, Some(b"fix".to_vec()));
    assert!(!c.is_breaking);

    let c = classify_commit(raw("a3", "just words, no header shape", "", 12));
    assert_eq!(c.kind, None);
    assert!(!c.is_breaking);
}

#[test]
fn classifier_sees_breaking_change_footer() {
    let c = classify_commit(raw("b1", "fix: small thing", "details\nBREAKING CHANGE: oops", 5));
    assert_eq!(c.kind, Some(b"fix".to_vec()));
    assert!(c.is_breaking);
}

#[test]
fn classifier_collects_issue_refs() {
    let c = classify_commit(raw("c1", "fix: closes #42 and #7", "", 5));
    assert_eq!(c.issue_refs, vec![b"42".to_vec(), b"7".to_vec()]);
}

#[test]
fn absent_package_names_fall_back_to_the_workspace_package() {
    let chosen = effective_crate_names(vec![b"tool".to_vec()], b"workspace".to_vec());
    assert_eq!(chosen, vec![b"tool".to_vec()]);
    let defaulted = effective_crate_names(Vec::new(), b"workspace".to_vec());
    assert_eq!(defaulted, vec![b"workspace".to_vec()]);
}

#[test]
fn bump_levels_are_totally_ordered() {
    assert_eq!(BumpLevel::Patch.lmax(BumpLevel::Minor), BumpLevel::Minor);
    assert_eq!(BumpLevel::Major.lmax(BumpLevel::NoBump), BumpLevel::Major);
    assert_eq!(BumpLevel::NoBump.lmax(BumpLevel::NoBump), BumpLevel::NoBump);
}

#[test]
fn base_level_follows_semver_conventions() {
    // breaking on a stable package: major
    assert_eq!(base_level(1, true, false, false), BumpLevel::Major);
    // breaking pre-1.0: minor, the documented unstable-version convention
    assert_eq!(base_level(0, true, false, false), BumpLevel::Minor);
    assert_eq!(base_level(2, false, true, false), BumpLevel::Minor);
    assert_eq!(base_level(0, false, false, true), BumpLevel::Patch);
    assert_eq!(base_level(3, false, false, false), BumpLevel::NoBump);
}

#[test]
fn forced_bump_propagates_up_a_chain() {
    // a depends on b, b depends on c; only c has changes
    let own = vec![BumpLevel::NoBump, BumpLevel::NoBump, BumpLevel::Major];
    let edges = vec![(0usize, 1usize), (1usize, 2usize)];
    let res = propagate(&own, &edges);
    assert_eq!(res, vec![BumpLevel::Patch, BumpLevel::Patch, BumpLevel::Major]);
}

#[test]
fn untouched_islands_stay_unselected() {
    let own = vec![BumpLevel::NoBump, BumpLevel::Minor, BumpLevel::NoBump];
    let edges = vec![(0usize, 1usize)];
    let res = propagate(&own, &edges);
    assert_eq!(res, vec![BumpLevel::Patch, BumpLevel::Minor, BumpLevel::NoBump]);
}

#[test]
fn publish_order_puts_dependencies_first() {
    let names = vec![b"zeta".to_vec(), b"alpha".to_vec(), b"mid".to_vec()];
    let selected = vec![true, true, true];
    // zeta depends on mid, mid depends on alpha
    let edges = vec![(0usize, 2usize), (2usize, 1usize)];
    let order = plan_publish_order(&names, &selected, &edges).expect("acyclic");
    assert_eq!(order, vec![1, 2, 0]);
}

#[test]
fn publish_order_breaks_ties_by_name() {
    let names = vec![b"pear".to_vec(), b"apple".to_vec(), b"mango".to_vec()];
    let selected = vec![true, true, true];
    let edges: Vec<(usize, usize)> = vec![];
    let order = plan_publish_order(&names, &selected, &edges).expect("acyclic");
    assert_eq!(order, vec![1, 2, 0]);
}

#[test]
fn mutual_dependency_is_a_fatal_cycle() {
    let names = vec![b"a".to_vec(), b"b".to_vec()];
    let selected = vec![true, true];
    let edges = vec![(0usize, 1usize), (1usize, 0usize)];
    match plan_publish_order(&names, &selected, &edges) {
        Ok(_) => panic!("a cycle must not be ordered"),
        Err(PlanError::Cycle { members }) => {
            let mut members = members;
            members.sort();
            assert_eq!(members, vec![0, 1]);
        }
    }
}

#[test]
fn statistics_are_exact() {
    let commits = vec![
        classify_commit(raw("d1", "feat: one thing for #9", "", 86400)),
        classify_commit(raw("d2", "chatter without shape", "", 86400 * 33)),
        classify_commit(raw("d3", "fix: mention #9 and #12", "", 86400 * 2)),
    ];
    let s = compute_statistics(&commits);
    assert_eq!(s.count, 3);
    assert_eq!(s.duration_days, 32);
    assert_eq!(s.conventional_count, 2);
    assert_eq!(s.unique_issues_count, 2);
}

#[test]
fn generation_is_idempotent() {
    let commits = vec![
        classify_commit(raw("e1", "feat: grow a feature for #3", "", 100)),
        classify_commit(raw("e2", "fix!: mend the breakage", "", 200)),
        classify_commit(raw("e3", "notes of no kind", "", 300)),
    ];
    let name = Version::Semantic { major: 0, minor: 2, patch: 0, prerelease: Vec::new() };
    let date = Some(Date { year: 2024, month: 3, day: 9 });

    let empty = ChangeLog { sections: Vec::new() };
    let once = empty.generate(&commits, name.clone(), date, 2);
    let mut first: Vec<u8> = Vec::new();
    once.write_to(&mut first);

    let again = once.generate(&commits, name, date, 2);
    let mut second: Vec<u8> = Vec::new();
    again.write_to(&mut second);

    assert_eq!(second, first, "a re-run with the same input must not change a byte");
}

#[test]
fn generation_replaces_the_unreleased_entry() {
    let commits = vec![classify_commit(raw("f1", "fix: patch it", "", 50))];
    let log = ChangeLog {
        sections: vec![
            Section::Verbatim { text: b"# Changelog\n".to_vec(), generated: false },
            Section::Release {
                heading_level: 2,
                date: None,
                name: Version::Unreleased,
                removed_messages: vec![],
                segments: vec![Segment::User { markdown: b"hand note\n".to_vec() }],
                unknown: Vec::new(),
            },
        ],
    };
    let name = Version::Semantic { major: 1, minor: 2, patch: 3, prerelease: Vec::new() };
    let out = log.generate(&commits, name.clone(), None, 2);
    assert_eq!(out.sections.len(), 2);
    match &out.sections[1] {
        Section::Release { name: n, segments, .. } => {
            assert_eq!(*n, name);
            // the hand-authored note is kept in front of the generated blocks
            assert_eq!(segments[0], Segment::User { markdown: b"hand note\n".to_vec() });
            assert!(segments.len() > 1);
        }
        _ => panic!("expected a release section"),
    }
}

#[test]
fn removed_commits_are_never_resurfaced() {
    let log = ChangeLog {
        sections: vec![Section::Release {
            heading_level: 2,
            date: None,
            name: Version::Semantic { major: 1, minor: 0, patch: 0, prerelease: Vec::new() },
            removed_messages: vec![b"gone1".to_vec()],
            segments: vec![],
            unknown: Vec::new(),
        }],
    };
    let commits = vec![
        classify_commit(raw("gone1", "fix: folded away earlier", "", 1)),
        classify_commit(raw("kept1", "fix: still relevant", "", 2)),
    ];
    let kept = log.filter_removed(commits);
    assert_eq!(kept.len(), 1);
    assert_eq!(kept[0].id, b"kept1".to_vec());
    assert!(log.is_removed(&b"gone1".to_vec()));
    assert!(!log.is_removed(&b"kept1".to_vec()));
}
