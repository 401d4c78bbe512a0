use vstd::prelude::*;

verus! {

/// The options that steer extraction and emission.
pub struct CliArgs {
    /// Input file with the code that should be highlighted.
    pub input: Option<String>,
    /// Output file where the generated markup is stored.
    pub output: Option<String>,
    /// Marks the start of a window whose text is passed through unescaped.
    pub escape_start: String,
    /// Marks the end of such a window.
    pub escape_end: String,
    /// Number of spaces that a tab expands to.
    pub tab_size: usize,
    /// Leave out the verbatim environment around the output.
    pub raw: bool,
    /// Overwrite whatever stands in the way of the output file.
    pub force: bool,
    /// Fail instead of asking when inputs are wrong or missing.
    pub trust: bool,
    /// Report progress while running.
    pub verbose: bool,
    /// Print the final text as well.
    pub dump: bool,
    /// Escape double quotes as `\dq{}` for babel's ngerman.
    pub german: bool,
    /// Caption of the listing.
    pub caption: String,
    /// Label of the listing.
    pub label: String,
    /// Derive the output file from the input file, with the extension `.tex`.
    pub swap_ext: bool,
    /// Comma-separated comment prefixes under which a header line is looked for.
    pub header_comment_types: String,
    /// Color of text that carries no color of its own: six hexadecimal digits.
    pub default_color: String,
    /// Drop the runs of the first highlighted line.
    pub skip_first_line: bool,
}

} // verus!
