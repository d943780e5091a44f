//! The names of the scores of a layout, in the order in which a vector
//! of scores holds them.

use vstd::prelude::*;

verus! {

/// The number of scores.
pub const NUM_SCORES: usize = 18;

/// The name of the score at place `i`.
pub open spec fn score_name(i: int) -> Seq<char> {
    if i == 0 {
        "total"@
    } else if i == 1 {
        "constraints"@
    } else if i == 2 {
        "effort"@
    } else if i == 3 {
        "travel"@
    } else if i == 4 {
        "imbalance"@
    } else if i == 5 {
        "drolls"@
    } else if i == 6 {
        "urolls"@
    } else if i == 7 {
        "WLSBs"@
    } else if i == 8 {
        "scissors"@
    } else if i == 9 {
        "SFBs"@
    } else if i == 10 {
        "d_drolls"@
    } else if i == 11 {
        "d_urolls"@
    } else if i == 12 {
        "dWLSBs"@
    } else if i == 13 {
        "d_scissors"@
    } else if i == 14 {
        "dSFBs"@
    } else if i == 15 {
        "rrolls"@
    } else if i == 16 {
        "redirects"@
    } else {
        "contorts"@
    }
}

/// The names of the scores; the place of a name is the place of its
/// score.
pub fn score_names() -> (names: Vec<&'static str>)
    ensures
        names@.len() == NUM_SCORES,
        forall|i: int| 0 <= i < NUM_SCORES ==> (#[trigger] names@[i])@ == score_name(i),
{
    let mut names: Vec<&'static str> = Vec::new();
    names.push("total");
    names.push("constraints");
    names.push("effort");
    names.push("travel");
    names.push("imbalance");
    names.push("drolls");
    names.push("urolls");
    names.push("WLSBs");
    names.push("scissors");
    names.push("SFBs");
    names.push("d_drolls");
    names.push("d_urolls");
    names.push("dWLSBs");
    names.push("d_scissors");
    names.push("dSFBs");
    names.push("rrolls");
    names.push("redirects");
    names.push("contorts");
    names
}

} // verus!
