use cargo_smart_release::model::{
    Category, CategoryMessages, ChangeLog, CommitStatistics, Conventional, Data, Date, Details,
    Message, Section, Segment, ThanksClippy, Version,
};

#[test]
fn conventional_write_empty_messages() {
    let first_message = b"0000000000000000000000000000000000000001".to_vec();
    let second_message = b"0000000000000000000000000000000000000002".to_vec();

    let log = ChangeLog {
        sections: vec![Section::Release {
            heading_level: 4,
            date: Some(Date { year: 1970, month: 1, day: 1 }),
            name: Version::Semantic { major: 1, minor: 0, patch: 2, prerelease: b"beta.2".to_vec() },
            removed_messages: vec![second_message],
            segments: vec![Segment::Conventional(Conventional {
                kind: b"feat".to_vec(),
                is_breaking: true,
                removed: vec![first_message],
                messages: vec![],
            })],
            unknown: Vec::new(),
        }],
    };

    for _round in 1..=2 {
        let mut buf: Vec<u8> = Vec::new();
        log.write_to(&mut buf);
        let md = String::from_utf8(buf.clone()).expect("generated text is valid UTF-8");
        assert_eq!(
            md,
            "#### 1.0.2-beta.2 (1970-01-01)\n\
             <!-- 0000000000000000000000000000000000000002 -->\n\
             ##### feat!\n\
             <!-- 0000000000000000000000000000000000000001 -->\n"
        );
        let parsed_log = ChangeLog::from_markdown(&buf);
        assert_eq!(parsed_log, log, "we can parse this back losslessly");
    }
}

#[test]
fn all_section_types_round_trips_lossy() {
    let mut log = ChangeLog {
        sections: vec![
            Section::Verbatim {
                text: b"# Changelog\n\nmy very own header\n\n".to_vec(),
                generated: false,
            },
            Section::Release {
                heading_level: 2,
                removed_messages: vec![],
                date: None,
                name: Version::Unreleased,
                segments: Vec::new(),
                unknown: b"hello\nworld\n".to_vec(),
            },
            Section::Release {
                heading_level: 4,
                removed_messages: vec![],
                date: Some(Date { year: 1970, month: 1, day: 1 }),
                name: Version::Semantic {
                    major: 1,
                    minor: 0,
                    patch: 2,
                    prerelease: b"beta.2".to_vec(),
                },
                segments: vec![
                    Segment::User { markdown: b"* hello world\n\tthis\n".to_vec() },
                    Segment::Clippy(Data::Generated(ThanksClippy { count: 42 })),
                    Segment::Statistics(Data::Generated(CommitStatistics {
                        count: 100,
                        duration_days: 32,
                        conventional_count: 20,
                        unique_issues_count: 3,
                    })),
                    Segment::Details(Data::Generated(Details {
                        commits_by_category: vec![
                            CategoryMessages {
                                category: Category::Uncategorized,
                                messages: vec![
                                    Message {
                                        title: b"Just the title".to_vec(),
                                        id: b"e69de29bb2d1d6434b8b29ae775ad8c2e48c5391".to_vec(),
                                    },
                                    Message {
                                        title: b"title and body".to_vec(),
                                        id: b"e69de29bb2d1d6434b8b29ae775ad8c2e48c5392".to_vec(),
                                    },
                                ],
                            },
                            CategoryMessages {
                                category: Category::Issue { reference: b"42".to_vec() },
                                messages: vec![
                                    Message {
                                        title: b"Just the title".to_vec(),
                                        id: b"e69de29bb2d1d6434b8b29ae775ad8c2e48c5392".to_vec(),
                                    },
                                    Message {
                                        title: b"another title".to_vec(),
                                        id: b"e69de29bb2d1d6434b8b29ae775ad8c2e48c5391".to_vec(),
                                    },
                                ],
                            },
                        ],
                    })),
                ],
                unknown: Vec::new(),
            },
        ],
    };
    for _round in 0..1 {
        let mut buf: Vec<u8> = Vec::new();
        log.write_to(&mut buf);
        let md = String::from_utf8(buf.clone()).expect("generated text is valid UTF-8");
        assert_eq!(
            md,
            "# Changelog\n\nmy very own header\n\n\
             ## Unreleased\n\
             hello\nworld\n\
             #### 1.0.2-beta.2 (1970-01-01)\n\
             * hello world\n\tthis\n\
             * clippy helped 42 times\n\
             * 100 commits over 32 days, 20 conventional, 3 issues\n\
             <details>\n\
             + uncategorized\n\
             - e69de29bb2d1d6434b8b29ae775ad8c2e48c5391 Just the title\n\
             - e69de29bb2d1d6434b8b29ae775ad8c2e48c5392 title and body\n\
             + #42\n\
             - e69de29bb2d1d6434b8b29ae775ad8c2e48c5392 Just the title\n\
             - e69de29bb2d1d6434b8b29ae775ad8c2e48c5391 another title\n\
             </details>\n"
        );
        let parsed_log = ChangeLog::from_markdown(&buf);
        assert_eq!(parsed_log, log, "we must be able to parse the exact input back");
        log = parsed_log;
    }
}

#[test]
fn hand_authored_text_is_preserved() {
    // text with no release heading decodes to front matter and encodes
    // back to the very same bytes
    let text = b"# My Project\n\nSome prose, a dash - here, and a # mark.\n".to_vec();
    let log = ChangeLog::from_markdown(&text);
    let mut buf: Vec<u8> = Vec::new();
    log.write_to(&mut buf);
    assert_eq!(buf, text);
}

#[test]
fn machine_text_round_trips_byte_exact() {
    let log = ChangeLog {
        sections: vec![Section::Release {
            heading_level: 2,
            date: None,
            name: Version::Semantic { major: 0, minor: 3, patch: 1, prerelease: Vec::new() },
            removed_messages: vec![],
            segments: vec![Segment::Conventional(Conventional {
                kind: b"fix".to_vec(),
                is_breaking: false,
                removed: vec![],
                messages: vec![Message {
                    id: b"abc123".to_vec(),
                    title: b"repair the hinge".to_vec(),
                }],
            })],
            unknown: b"trailing notes\n".to_vec(),
        }],
    };
    let mut first: Vec<u8> = Vec::new();
    log.write_to(&mut first);
    let decoded = ChangeLog::from_markdown(&first);
    assert_eq!(decoded, log);
    let mut second: Vec<u8> = Vec::new();
    decoded.write_to(&mut second);
    assert_eq!(second, first);
}

#[test]
fn generated_front_matter_keeps_its_marker() {
    let log = ChangeLog {
        sections: vec![Section::Verbatim { text: b"# Changelog\n".to_vec(), generated: true }],
    };
    let mut buf: Vec<u8> = Vec::new();
    log.write_to(&mut buf);
    assert_eq!(
        String::from_utf8(buf.clone()).unwrap(),
        "<!-- generated -->\n# Changelog\n"
    );
    let parsed = ChangeLog::from_markdown(&buf);
    assert_eq!(parsed, log);
}

#[test]
fn decode_never_loses_unfitting_lines() {
    // a release whose body fits no machine shape keeps every byte as
    // opaque trailing text
    let text = b"## Unreleased\nodd | table | line\n<!-- almost a comment\n".to_vec();
    let log = ChangeLog::from_markdown(&text);
    let mut buf: Vec<u8> = Vec::new();
    log.write_to(&mut buf);
    assert_eq!(buf, text);
}
