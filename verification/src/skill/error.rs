//! Why a skill cannot be parsed or loaded.

use vstd::prelude::*;

use crate::text::{concat, concat3};

verus! {

/// Why a skill cannot be parsed or loaded.
#[derive(Debug, PartialEq, Eq)]
pub enum SkillError {
    /// The frontmatter's structure: delimiters, lines, nested values.
    InvalidFrontmatter(String),
    /// The name is missing or not kebab-case.
    InvalidName(String),
    /// The description is missing, empty or too long.
    InvalidDescription(String),
    /// A skill directory is named otherwise than the skill in it.
    NameMismatch { name: String, dir: String },
    /// A file that should be there is not, or may not be read.
    NotFound(String),
    /// The text is too long.
    InvalidBody(String),
    /// The file system failed.
    Io(String),
}

/// The characters of a [`SkillError`].
pub enum SkillErrorView {
    InvalidFrontmatter(Seq<char>),
    InvalidName(Seq<char>),
    InvalidDescription(Seq<char>),
    NameMismatch { name: Seq<char>, dir: Seq<char> },
    NotFound(Seq<char>),
    InvalidBody(Seq<char>),
    Io(Seq<char>),
}

impl View for SkillError {
    type V = SkillErrorView;

    open spec fn view(&self) -> SkillErrorView {
        match *self {
            SkillError::InvalidFrontmatter(m) => SkillErrorView::InvalidFrontmatter(m@),
            SkillError::InvalidName(m) => SkillErrorView::InvalidName(m@),
            SkillError::InvalidDescription(m) => SkillErrorView::InvalidDescription(m@),
            SkillError::NameMismatch { name, dir } => SkillErrorView::NameMismatch {
                name: name@,
                dir: dir@,
            },
            SkillError::NotFound(m) => SkillErrorView::NotFound(m@),
            SkillError::InvalidBody(m) => SkillErrorView::InvalidBody(m@),
            SkillError::Io(m) => SkillErrorView::Io(m@),
        }
    }
}

impl SkillErrorView {
    /// The error as a sentence.
    pub open spec fn text(self) -> Seq<char> {
        match self {
            SkillErrorView::InvalidFrontmatter(m) => "invalid frontmatter: "@ + m,
            SkillErrorView::InvalidName(m) => "invalid skill name: "@ + m,
            SkillErrorView::InvalidDescription(m) => "invalid skill description: "@ + m,
            SkillErrorView::NameMismatch { name, dir } => "skill name '"@ + name
                + "' does not match directory name '"@ + dir + "'"@,
            SkillErrorView::NotFound(m) => "skill not found: "@ + m,
            SkillErrorView::InvalidBody(m) => "invalid skill body: "@ + m,
            SkillErrorView::Io(m) => "io error: "@ + m,
        }
    }
}

impl SkillError {
    /// The error as a sentence.
    pub fn message(&self) -> (s: String)
        ensures
            s@ == self@.text(),
    {
        match self {
            SkillError::InvalidFrontmatter(m) => concat("invalid frontmatter: ", m.as_str()),
            SkillError::InvalidName(m) => concat("invalid skill name: ", m.as_str()),
            SkillError::InvalidDescription(m) => concat("invalid skill description: ", m.as_str()),
            SkillError::NameMismatch { name, dir } => {
                let head = concat3(
                    "skill name '",
                    name.as_str(),
                    "' does not match directory name '",
                );
                concat3(head.as_str(), dir.as_str(), "'")
            },
            SkillError::NotFound(m) => concat("skill not found: ", m.as_str()),
            SkillError::InvalidBody(m) => concat("invalid skill body: ", m.as_str()),
            SkillError::Io(m) => concat("io error: ", m.as_str()),
        }
    }
}

} // verus!
