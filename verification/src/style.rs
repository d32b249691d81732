//! Report styles and command words of the surrounding tool, with their
//! descriptions and token parsing.  Tokens are matched ignoring ASCII case.

use vstd::prelude::*;

use crate::strutil::{ascii_eq_ci, str_eq_ignore_ascii_case};

verus! {

/// How much of the gathered information a report prints.
#[derive(Clone, Copy, PartialEq, Eq, Structural, Debug)]
pub enum ReportStyle {
    Terse,
    Normal,
    Detailed,
    Overflowing,
}

/// A command word that takes the place of an analysis input.
#[derive(Clone, Copy, PartialEq, Eq, Structural, Debug)]
pub enum ArgCommand {
    CheckSetup,
}

/// The descriptive text of each style.
pub open spec fn description_spec(st: ReportStyle) -> Seq<char> {
    match st {
        ReportStyle::Terse => "Only the top-level summary for each type of information available is printed. Missing types of data are omitted entirely."@,
        ReportStyle::Normal => "Everything in Terse are printed, plus MISSING/UNKNOWN for unavailable data. Additionally one level under each top-level summary is printed."@,
        ReportStyle::Detailed => "Everything in Normal plus parentheticals, sources of data, and other partially-summarized details which we can not algorithmically decide and are generally weighted low or discarded during summarization."@,
        ReportStyle::Overflowing => "Everything we see, before any summarization processing takes place."@,
    }
}

/// The token prefix that introduces each style's named description.
pub open spec fn named_prefix_spec(st: ReportStyle) -> Seq<char> {
    match st {
        ReportStyle::Terse => "t|terse: "@,
        ReportStyle::Normal => "n|normal: "@,
        ReportStyle::Detailed => "d|detailed: "@,
        ReportStyle::Overflowing => "o|overflowing: "@,
    }
}

/// The full named description of each style.
pub open spec fn named_description_spec(st: ReportStyle) -> Seq<char> {
    named_prefix_spec(st) + description_spec(st)
}

/// Which style a token names, ignoring ASCII case; `None` for an unknown
/// token.
pub open spec fn parse_style_spec(v: Seq<char>) -> Option<ReportStyle> {
    if ascii_eq_ci(v, "t"@) || ascii_eq_ci(v, "terse"@) {
        Some(ReportStyle::Terse)
    } else if ascii_eq_ci(v, "n"@) || ascii_eq_ci(v, "normal"@) {
        Some(ReportStyle::Normal)
    } else if ascii_eq_ci(v, "d"@) || ascii_eq_ci(v, "detailed"@) {
        Some(ReportStyle::Detailed)
    } else if ascii_eq_ci(v, "o"@) || ascii_eq_ci(v, "overflowing"@) || ascii_eq_ci(
        v,
        "overflow"@,
    ) {
        Some(ReportStyle::Overflowing)
    } else {
        None
    }
}

/// The message rejecting an unknown style token: it names the token and
/// lists every style with its description.
pub open spec fn style_err_spec(v: Seq<char>) -> Seq<char> {
    "Unknown ReportStyle: '"@ + v
        + "'.\nValid ReportStyles are [t|terse, n|normal, d|detailed, o|overflowing]:\n"@
        + "   - "@ + named_description_spec(ReportStyle::Terse) + "\n"@ + "   - "@
        + named_description_spec(ReportStyle::Normal) + "\n"@ + "   - "@
        + named_description_spec(ReportStyle::Detailed) + "\n"@ + "   - "@
        + named_description_spec(ReportStyle::Overflowing)
}

/// Which command a token names, ignoring ASCII case.
pub open spec fn parse_command_spec(v: Seq<char>) -> Option<ArgCommand> {
    if ascii_eq_ci(v, "check"@) || ascii_eq_ci(v, "check-setup"@) || ascii_eq_ci(
        v,
        "check_setup"@,
    ) {
        Some(ArgCommand::CheckSetup)
    } else {
        None
    }
}

/// The message rejecting an unknown command token.
pub open spec fn command_err_spec(v: Seq<char>) -> Seq<char> {
    "Unknown command: '"@ + v + "'. Valid commands are [check, ]"@
}

impl ReportStyle {
    /// The descriptive text of this style.
    pub fn description(&self) -> (r: String)
        ensures
            r@ == description_spec(*self),
    {
        match self {
            ReportStyle::Terse => String::from_str(
                "Only the top-level summary for each type of information available is printed. Missing types of data are omitted entirely.",
            ),
            ReportStyle::Normal => String::from_str(
                "Everything in Terse are printed, plus MISSING/UNKNOWN for unavailable data. Additionally one level under each top-level summary is printed.",
            ),
            ReportStyle::Detailed => String::from_str(
                "Everything in Normal plus parentheticals, sources of data, and other partially-summarized details which we can not algorithmically decide and are generally weighted low or discarded during summarization.",
            ),
            ReportStyle::Overflowing => String::from_str(
                "Everything we see, before any summarization processing takes place.",
            ),
        }
    }

    /// The description of this style, prefixed by its accepted tokens.
    pub fn named_description(&self) -> (r: String)
        ensures
            r@ == named_description_spec(*self),
    {
        let mut out = match self {
            ReportStyle::Terse => String::from_str("t|terse: "),
            ReportStyle::Normal => String::from_str("n|normal: "),
            ReportStyle::Detailed => String::from_str("d|detailed: "),
            ReportStyle::Overflowing => String::from_str("o|overflowing: "),
        };
        let d = self.description();
        out.append(d.as_str());
        out
    }

    /// Parse a style token, ignoring ASCII case; an unknown token is
    /// rejected with the listing of all styles.
    pub fn from_str(s: &str) -> (r: Result<ReportStyle, String>)
        ensures
            match r {
                Ok(st) => parse_style_spec(s@) == Some(st),
                Err(m) => parse_style_spec(s@) is None && m@ == style_err_spec(s@),
            },
    {
        if str_eq_ignore_ascii_case(s, "t") || str_eq_ignore_ascii_case(s, "terse") {
            Ok(ReportStyle::Terse)
        } else if str_eq_ignore_ascii_case(s, "n") || str_eq_ignore_ascii_case(s, "normal") {
            Ok(ReportStyle::Normal)
        } else if str_eq_ignore_ascii_case(s, "d") || str_eq_ignore_ascii_case(s, "detailed") {
            Ok(ReportStyle::Detailed)
        } else if str_eq_ignore_ascii_case(s, "o") || str_eq_ignore_ascii_case(s, "overflowing")
            || str_eq_ignore_ascii_case(s, "overflow") {
            Ok(ReportStyle::Overflowing)
        } else {
            let mut m = String::from_str("Unknown ReportStyle: '");
            m.append(s);
            m.append(
                "'.\nValid ReportStyles are [t|terse, n|normal, d|detailed, o|overflowing]:\n",
            );
            m.append("   - ");
            let t = ReportStyle::Terse.named_description();
            m.append(t.as_str());
            m.append("\n");
            m.append("   - ");
            let nn = ReportStyle::Normal.named_description();
            m.append(nn.as_str());
            m.append("\n");
            m.append("   - ");
            let d = ReportStyle::Detailed.named_description();
            m.append(d.as_str());
            m.append("\n");
            m.append("   - ");
            let o = ReportStyle::Overflowing.named_description();
            m.append(o.as_str());
            assert(m@ =~= style_err_spec(s@));
            Err(m)
        }
    }
}

impl ArgCommand {
    /// Parse a command token, ignoring ASCII case.
    pub fn from_str(s: &str) -> (r: Result<ArgCommand, String>)
        ensures
            match r {
                Ok(c) => parse_command_spec(s@) == Some(c),
                Err(m) => parse_command_spec(s@) is None && m@ == command_err_spec(s@),
            },
    {
        if str_eq_ignore_ascii_case(s, "check") || str_eq_ignore_ascii_case(s, "check-setup")
            || str_eq_ignore_ascii_case(s, "check_setup") {
            Ok(ArgCommand::CheckSetup)
        } else {
            let mut m = String::from_str("Unknown command: '");
            m.append(s);
            m.append("'. Valid commands are [check, ]");
            assert(m@ =~= command_err_spec(s@));
            Err(m)
        }
    }
}

} // verus!
