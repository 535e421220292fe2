//! What the footer says when the findings summary could not be put on a
//! local clipboard.
use vstd::prelude::*;

verus! {

/// The command that prints the summary, with the range the reader typed.
pub open spec fn spec_summary_command(range: Option<Seq<char>>) -> Seq<char> {
    match range {
        Some(r) => "dfr findings "@ + r + " --summary"@,
        None => "dfr findings <range> --summary"@,
    }
}

/// The command that prints the same text, with the range filled in when the
/// reader typed one. Without one the reader is told the flag and supplies
/// the rest, which is still better than being told nothing.
pub fn summary_command(range: Option<&str>) -> (c: String)
    ensures
        c@ == spec_summary_command(match range { Some(r) => Some(r@), None => None }),
{
    match range {
        Some(r) => {
            let mut c = String::new();
            c.append("dfr findings ");
            c.append(r);
            c.append(" --summary");
            c
        },
        None => "dfr findings <range> --summary".to_string(),
    }
}

/// No local clipboard: say whether the text was offered to the terminal, and
/// name the command that prints it either way — the sequence is
/// unacknowledged, so the command is what makes the feature honest.
pub fn summary_fallback(sent: bool, range: Option<&str>) -> (m: String)
    ensures
        m@ == (if sent { "sent via the terminal"@ } else { "clipboard unavailable"@ }) + " · "@
            + spec_summary_command(match range { Some(r) => Some(r@), None => None }),
{
    let mut m = if sent { "sent via the terminal".to_string() } else { "clipboard unavailable".to_string() };
    m.append(" · ");
    let c = summary_command(range);
    m.append(c.as_str());
    m
}

} // verus!
