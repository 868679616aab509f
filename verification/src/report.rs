//! What an operation hands back to be printed.

use vstd::prelude::*;

verus! {

/// Where a line belongs: with the results, or with the remarks on what went wrong.
#[derive(Clone, Copy, Debug, PartialEq, Eq, Structural)]
pub enum Channel {
    /// A result, for whoever reads or parses the output.
    Report,
    /// A remark on something that could not be read or compared.
    Diagnostic,
}

/// One line of output and the channel it goes to.
#[derive(Clone, Debug)]
pub struct OutputLine {
    pub channel: Channel,
    pub text: String,
}

/// What a [`OutputLine`] holds, its texts taken as sequences of characters.
pub struct OutputLineView {
    pub channel: Channel,
    pub text: Seq<char>,
}

impl View for OutputLine {
    type V = OutputLineView;

    open spec fn view(&self) -> OutputLineView {
        OutputLineView { channel: self.channel, text: self.text@ }
    }
}

/// A result line with the given text.
pub open spec fn report_line(text: Seq<char>) -> OutputLineView {
    OutputLineView { channel: Channel::Report, text }
}

/// A diagnostic line with the given text.
pub open spec fn diagnostic_line(text: Seq<char>) -> OutputLineView {
    OutputLineView { channel: Channel::Diagnostic, text }
}

/// The lines of a sequence of output lines, in order.
pub open spec fn line_views(lines: Seq<OutputLine>) -> Seq<OutputLineView> {
    lines.map_values(|line: OutputLine| line@)
}

impl OutputLine {
    /// A result line.
    pub fn report(text: String) -> (line: OutputLine)
        ensures
            line@ == report_line(text@),
    {
        OutputLine { channel: Channel::Report, text }
    }

    /// A diagnostic line.
    pub fn diagnostic(text: String) -> (line: OutputLine)
        ensures
            line@ == diagnostic_line(text@),
    {
        OutputLine { channel: Channel::Diagnostic, text }
    }

    /// Tells whether the line is a diagnostic rather than a result.
    pub fn is_diagnostic(&self) -> (yes: bool)
        ensures
            yes == (self@.channel == Channel::Diagnostic),
    {
        match self.channel {
            Channel::Report => false,
            Channel::Diagnostic => true,
        }
    }
}

} // verus!
