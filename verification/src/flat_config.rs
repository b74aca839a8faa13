//! Configuration for flat text sources: which field of a line is the
//! value, how fields are separated, and what is skipped or stripped.

use vstd::prelude::*;

verus! {

/// Settings for reading a flat text file of one record per line. The key
/// is the whole line after trimming; the value is the chosen field.
pub struct FlatConfig {
    /// 1-based index of the field that holds the value.
    pub index: usize,
    /// Explicit field separator; arbitrary whitespace when absent.
    pub separator: Option<String>,
    /// Drop blank lines instead of recording them.
    pub skip_blank: bool,
    /// Text that opens a comment; no comment handling when absent.
    pub comment_char: Option<String>,
    /// Strip trailing comments from lines, not only whole-line comments.
    pub inline_comments: bool,
    /// Strip trailing whitespace from lines.
    pub trim_tail: bool,
}

impl FlatConfig {
    /// The defaults: value in the first field, whitespace separation,
    /// blank lines dropped, no comments, tails trimmed.
    pub fn new() -> (r: FlatConfig)
        ensures
            r.index == 1,
            r.separator is None,
            r.skip_blank,
            r.comment_char is None,
            !r.inline_comments,
            r.trim_tail,
    {
        FlatConfig {
            index: 1,
            separator: None,
            skip_blank: true,
            comment_char: None,
            inline_comments: false,
            trim_tail: true,
        }
    }

    pub fn index(self, index: usize) -> (r: FlatConfig)
        ensures
            r == (FlatConfig { index, ..self }),
    {
        FlatConfig { index, ..self }
    }

    pub fn separator(self, separator: Option<String>) -> (r: FlatConfig)
        ensures
            r == (FlatConfig { separator, ..self }),
    {
        FlatConfig { separator, ..self }
    }

    pub fn skip_blank(self, skip_blank: bool) -> (r: FlatConfig)
        ensures
            r == (FlatConfig { skip_blank, ..self }),
    {
        FlatConfig { skip_blank, ..self }
    }

    pub fn comment_char(self, comment_char: Option<String>) -> (r: FlatConfig)
        ensures
            r == (FlatConfig { comment_char, ..self }),
    {
        FlatConfig { comment_char, ..self }
    }

    pub fn inline_comments(self, inline_comments: bool) -> (r: FlatConfig)
        ensures
            r == (FlatConfig { inline_comments, ..self }),
    {
        FlatConfig { inline_comments, ..self }
    }

    pub fn trim_tail(self, trim_tail: bool) -> (r: FlatConfig)
        ensures
            r == (FlatConfig { trim_tail, ..self }),
    {
        FlatConfig { trim_tail, ..self }
    }

    pub fn get_index(&self) -> (r: &usize)
        ensures
            *r == self.index,
    {
        &self.index
    }

    pub fn get_separator(&self) -> (r: &Option<String>)
        ensures
            *r == self.separator,
    {
        &self.separator
    }

    pub fn get_skip_blank(&self) -> (r: &bool)
        ensures
            *r == self.skip_blank,
    {
        &self.skip_blank
    }

    pub fn get_comment_char(&self) -> (r: &Option<String>)
        ensures
            *r == self.comment_char,
    {
        &self.comment_char
    }

    pub fn get_inline_comments(&self) -> (r: &bool)
        ensures
            *r == self.inline_comments,
    {
        &self.inline_comments
    }

    pub fn get_trim_tail(&self) -> (r: &bool)
        ensures
            *r == self.trim_tail,
    {
        &self.trim_tail
    }
}

/// Builds the flat-source settings from the command-line values: the
/// keep-this flags of the command line invert into the skip-this and
/// trim-this settings of the source.
pub fn make_flat_config(
    field: u32,
    separator: Option<String>,
    keep_blank: bool,
    comment: Option<String>,
    inline_comments: bool,
    keep_tail: bool,
) -> (r: FlatConfig)
    ensures
        r.index == field as usize,
        r.separator == separator,
        r.skip_blank == !keep_blank,
        r.comment_char == comment,
        r.inline_comments == inline_comments,
        r.trim_tail == !keep_tail,
{
    FlatConfig::new().index(field as usize).separator(separator).skip_blank(!keep_blank)
        .comment_char(comment)
        .inline_comments(inline_comments)
        .trim_tail(!keep_tail)
}

} // verus!
