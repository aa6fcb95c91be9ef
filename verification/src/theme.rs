use vstd::prelude::*;

verus! {

/// The semantic density of a style preset.
#[derive(Debug, Clone, Copy, PartialEq, Eq)]
pub enum Density {
    Compact,
    Standard,
    Comfortable,
}

/// Physical side used to resolve placement-aware overlay motion.
#[derive(Debug, Clone, Copy, PartialEq, Eq)]
pub enum OverlayPlacement {
    Top,
    Right,
    Bottom,
    Left,
}

/// The use a Markdown view is styled for.
#[derive(Debug, Clone, Copy, PartialEq, Eq)]
pub enum MarkdownStyleProfile {
    /// Conversation output: a soft line break stays a line break.
    Agent,
    Editor,
    Preview,
}

impl Default for MarkdownStyleProfile {
    fn default() -> (profile: Self)
        ensures
            profile == MarkdownStyleProfile::Agent,
    {
        MarkdownStyleProfile::Agent
    }
}

/// The level of a Markdown heading.
#[derive(Debug, Clone, Copy, PartialEq, Eq)]
pub enum MarkdownHeadingLevel {
    H1,
    H2,
    H3,
    H4,
    H5,
    H6,
}

/// The level of a heading of depth `depth`: 1 to 5 as they are, any other
/// depth as the sixth level.
pub open spec fn heading_level_of(depth: u8) -> MarkdownHeadingLevel {
    match depth {
        1 => MarkdownHeadingLevel::H1,
        2 => MarkdownHeadingLevel::H2,
        3 => MarkdownHeadingLevel::H3,
        4 => MarkdownHeadingLevel::H4,
        5 => MarkdownHeadingLevel::H5,
        _ => MarkdownHeadingLevel::H6,
    }
}

impl MarkdownHeadingLevel {
    /// The level of a heading of depth `depth` (see [`heading_level_of`]).
    pub fn from_depth(depth: u8) -> (level: Self)
        ensures
            level == heading_level_of(depth),
    {
        match depth {
            1 => MarkdownHeadingLevel::H1,
            2 => MarkdownHeadingLevel::H2,
            3 => MarkdownHeadingLevel::H3,
            4 => MarkdownHeadingLevel::H4,
            5 => MarkdownHeadingLevel::H5,
            _ => MarkdownHeadingLevel::H6,
        }
    }
}

/// The semantic kind of a run of Markdown text, which styles key on.
#[derive(Debug, Clone, Copy, PartialEq, Eq)]
pub enum MarkdownInlineKind {
    Plain,
    Strong,
    Emphasis,
    Strikethrough,
    Underline,
    InlineCode,
    Link,
    LinkHover,
    Mark,
    FootnoteReference,
    CodeBlockText,
}

/// A kind of block that the host can draw with a renderer of its own.
#[derive(Debug, Clone, Copy, PartialEq, Eq)]
pub enum MarkdownBlockKind {
    Paragraph,
    Heading,
    Blockquote,
    OrderedList,
    UnorderedList,
    TaskListItem,
    ListItem,
    CodeBlock,
    Table,
    HorizontalRule,
}

/// Shared elevation policy.
#[derive(Debug, Clone, Copy, PartialEq, Eq)]
pub struct ElevationMetrics {
    pub enabled: bool,
}

} // verus!
