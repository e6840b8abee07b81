//! Where the log of a day is kept.
//!
//! Every day has a file of its own, named after its date, in a directory
//! that belongs to the program. Finding that directory and making it is left
//! to the caller; the name of the file within it is settled here.

use vstd::prelude::*;
use vstd::string::*;

verus! {

/// The name of the file that holds the log of the day `date`.
pub open spec fn log_name(date: Seq<char>) -> Seq<char> {
    date + ".csv"@
}

/// The name of the file that holds the log of the day `date`, a date
/// written `YYYY-MM-DD`: the date followed by `.csv`.
pub fn file_name(date: &str) -> (name: String)
    ensures
        name@ == log_name(date@),
{
    let mut name = date.to_owned();
    name.append(".csv");
    name
}

/// No two days share a file: the name gives the date back.
pub proof fn lemma_log_names_differ(a: Seq<char>, b: Seq<char>)
    requires
        log_name(a) == log_name(b),
    ensures
        a == b,
{
    let tail = ".csv"@;
    assert(a =~= log_name(a).take(log_name(a).len() - tail.len()));
    assert(b =~= log_name(b).take(log_name(b).len() - tail.len()));
}

} // verus!
