//! The changelog document model: an ordered sequence of sections, each
//! either raw markdown kept verbatim or a structured release entry.
//!
//! Every type has a spec-level mirror (`...V`) reached through `DeepView`,
//! so that contracts can speak of documents as mathematical values built
//! from `Seq` and integers.

use vstd::prelude::*;

verus! {

/// A calendar date, held as plain year / month / day numbers.
/// The codec renders it as `YYYY-MM-DD` inside a release heading.
#[derive(Clone, Copy, PartialEq, Eq, Structural, Debug)]
pub struct Date {
    pub year: u64,
    pub month: u64,
    pub day: u64,
}

impl Date {
    /// A date the codec can render and read back: four-digit year,
    /// calendar-range month and day.
    pub open spec fn wf(self) -> bool {
        self.year <= 9999 && 1 <= self.month <= 12 && 1 <= self.day <= 31
    }
}

/// A release name: either a concrete semantic version or the floating
/// `Unreleased` state. At most one `Unreleased` release section may exist
/// in a well-formed changelog; the document model does not prevent
/// duplicate semantic names.
#[derive(Clone, PartialEq, Eq, Debug)]
pub enum Version {
    Unreleased,
    Semantic { major: u64, minor: u64, patch: u64, prerelease: Vec<u8> },
}

#[verifier::ext_equal]
pub enum VersionV {
    Unreleased,
    Semantic { major: u64, minor: u64, patch: u64, prerelease: Seq<u8> },
}

impl DeepView for Version {
    type V = VersionV;

    open spec fn deep_view(&self) -> VersionV {
        match self {
            Version::Unreleased => VersionV::Unreleased,
            Version::Semantic { major, minor, patch, prerelease } => VersionV::Semantic {
                major: *major,
                minor: *minor,
                patch: *patch,
                prerelease: prerelease.deep_view(),
            },
        }
    }
}

/// One commit reference inside a generated listing.
#[derive(Clone, PartialEq, Eq, Debug)]
pub struct Message {
    pub id: Vec<u8>,
    pub title: Vec<u8>,
}

#[verifier::ext_equal]
pub struct MessageV {
    pub id: Seq<u8>,
    pub title: Seq<u8>,
}

impl DeepView for Message {
    type V = MessageV;

    open spec fn deep_view(&self) -> MessageV {
        MessageV { id: self.id.deep_view(), title: self.title.deep_view() }
    }
}

/// Where a commit is filed in the details listing: either uncategorized or
/// under an issue reference. The total order puts `Uncategorized` first,
/// then issue references ascending lexically, so output is deterministic.
#[derive(Clone, PartialEq, Eq, Debug)]
pub enum Category {
    Uncategorized,
    Issue { reference: Vec<u8> },
}

#[verifier::ext_equal]
pub enum CategoryV {
    Uncategorized,
    Issue { reference: Seq<u8> },
}

impl DeepView for Category {
    type V = CategoryV;

    open spec fn deep_view(&self) -> CategoryV {
        match self {
            Category::Uncategorized => CategoryV::Uncategorized,
            Category::Issue { reference } => CategoryV::Issue { reference: reference.deep_view() },
        }
    }
}

/// A machine-generated segment's payload. The single `Generated` state is
/// deliberate: a later user-edited-after-generation state can be added as a
/// further variant without disturbing the generated case.
#[derive(Clone, PartialEq, Eq, Debug)]
pub enum Data<T> {
    Generated(T),
}

#[verifier::ext_equal]
pub enum DataV<T> {
    Generated(T),
}

impl<T: DeepView> DeepView for Data<T> {
    type V = DataV<T::V>;

    open spec fn deep_view(&self) -> DataV<T::V> {
        match self {
            Data::Generated(t) => DataV::Generated(t.deep_view()),
        }
    }
}

/// The clippy-acknowledgement segment payload.
#[derive(Clone, Copy, PartialEq, Eq, Structural, Debug)]
pub struct ThanksClippy {
    pub count: u64,
}

impl DeepView for ThanksClippy {
    type V = ThanksClippy;

    open spec fn deep_view(&self) -> ThanksClippy {
        *self
    }
}

/// The commit-statistics segment payload.
#[derive(Clone, Copy, PartialEq, Eq, Structural, Debug)]
pub struct CommitStatistics {
    pub count: u64,
    pub duration_days: u64,
    pub conventional_count: u64,
    pub unique_issues_count: u64,
}

impl DeepView for CommitStatistics {
    type V = CommitStatistics;

    open spec fn deep_view(&self) -> CommitStatistics {
        *self
    }
}

/// One category of the details listing with its messages, in first-seen
/// order. The listing as a whole is an ordered map held as a vector sorted
/// by the category order.
#[derive(Clone, PartialEq, Eq, Debug)]
pub struct CategoryMessages {
    pub category: Category,
    pub messages: Vec<Message>,
}

#[verifier::ext_equal]
pub struct CategoryMessagesV {
    pub category: CategoryV,
    pub messages: Seq<MessageV>,
}

impl DeepView for CategoryMessages {
    type V = CategoryMessagesV;

    open spec fn deep_view(&self) -> CategoryMessagesV {
        CategoryMessagesV { category: self.category.deep_view(), messages: self.messages.deep_view() }
    }
}

/// The details segment payload: commits grouped by category.
#[derive(Clone, PartialEq, Eq, Debug)]
pub struct Details {
    pub commits_by_category: Vec<CategoryMessages>,
}

#[verifier::ext_equal]
pub struct DetailsV {
    pub commits_by_category: Seq<CategoryMessagesV>,
}

impl DeepView for Details {
    type V = DetailsV;

    open spec fn deep_view(&self) -> DetailsV {
        DetailsV { commits_by_category: self.commits_by_category.deep_view() }
    }
}

/// One grouping of conventional commits of a single kind ("feat", "fix").
#[derive(Clone, PartialEq, Eq, Debug)]
pub struct Conventional {
    pub kind: Vec<u8>,
    pub is_breaking: bool,
    pub removed: Vec<Vec<u8>>,
    pub messages: Vec<Message>,
}

#[verifier::ext_equal]
pub struct ConventionalV {
    pub kind: Seq<u8>,
    pub is_breaking: bool,
    pub removed: Seq<Seq<u8>>,
    pub messages: Seq<MessageV>,
}

impl DeepView for Conventional {
    type V = ConventionalV;

    open spec fn deep_view(&self) -> ConventionalV {
        ConventionalV {
            kind: self.kind.deep_view(),
            is_breaking: self.is_breaking,
            removed: self.removed.deep_view(),
            messages: self.messages.deep_view(),
        }
    }
}

/// A typed sub-block of a release section.
#[derive(Clone, PartialEq, Eq, Debug)]
pub enum Segment {
    /// Hand-authored markdown; never auto-modified.
    User { markdown: Vec<u8> },
    /// One grouping per conventional-commit kind.
    Conventional(Conventional),
    /// Machine-generated clippy acknowledgement.
    Clippy(Data<ThanksClippy>),
    /// Machine-generated commit statistics.
    Statistics(Data<CommitStatistics>),
    /// Machine-generated per-category commit listing.
    Details(Data<Details>),
}

#[verifier::ext_equal]
pub enum SegmentV {
    User { markdown: Seq<u8> },
    Conventional(ConventionalV),
    Clippy(DataV<ThanksClippy>),
    Statistics(DataV<CommitStatistics>),
    Details(DataV<DetailsV>),
}

impl DeepView for Segment {
    type V = SegmentV;

    open spec fn deep_view(&self) -> SegmentV {
        match self {
            Segment::User { markdown } => SegmentV::User { markdown: markdown.deep_view() },
            Segment::Conventional(c) => SegmentV::Conventional(c.deep_view()),
            Segment::Clippy(d) => SegmentV::Clippy(d.deep_view()),
            Segment::Statistics(d) => SegmentV::Statistics(d.deep_view()),
            Segment::Details(d) => SegmentV::Details(d.deep_view()),
        }
    }
}

/// A top-level block of the document.
#[derive(Clone, PartialEq, Eq, Debug)]
pub enum Section {
    /// Raw markdown the tool does not interpret, e.g. a document title.
    Verbatim { text: Vec<u8>, generated: bool },
    /// One release entry.
    Release {
        heading_level: u64,
        date: Option<Date>,
        name: Version,
        removed_messages: Vec<Vec<u8>>,
        segments: Vec<Segment>,
        unknown: Vec<u8>,
    },
}

#[verifier::ext_equal]
pub enum SectionV {
    Verbatim { text: Seq<u8>, generated: bool },
    Release {
        heading_level: u64,
        date: Option<Date>,
        name: VersionV,
        removed_messages: Seq<Seq<u8>>,
        segments: Seq<SegmentV>,
        unknown: Seq<u8>,
    },
}

impl DeepView for Section {
    type V = SectionV;

    open spec fn deep_view(&self) -> SectionV {
        match self {
            Section::Verbatim { text, generated } => SectionV::Verbatim {
                text: text.deep_view(),
                generated: *generated,
            },
            Section::Release { heading_level, date, name, removed_messages, segments, unknown } => SectionV::Release {
                heading_level: *heading_level,
                date: *date,
                name: name.deep_view(),
                removed_messages: removed_messages.deep_view(),
                segments: segments.deep_view(),
                unknown: unknown.deep_view(),
            },
        }
    }
}

/// The whole changelog document: sections in document order.
#[derive(Clone, PartialEq, Eq, Debug)]
pub struct ChangeLog {
    pub sections: Vec<Section>,
}

#[verifier::ext_equal]
pub struct ChangeLogV {
    pub sections: Seq<SectionV>,
}

impl DeepView for ChangeLog {
    type V = ChangeLogV;

    open spec fn deep_view(&self) -> ChangeLogV {
        ChangeLogV { sections: self.sections.deep_view() }
    }
}

} // verus!
