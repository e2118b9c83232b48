//! A finalized speech: a whole-second duration, fixed once created, and
//! a category label that may be reassigned afterwards. A speech exports
//! as one CSV line: the duration in seconds, a comma, and the category
//! in double quotes.

use crate::display::spec_dec;
use crate::display::dec_string;
use vstd::prelude::*;
use vstd::string::StringExecFns;

verus! {

/// A finalized, timed turn with an assigned category.
#[derive(Clone)]
pub struct Speech {
    pub duration: u64,
    pub category: String,
}

/// The CSV line of one speech: the decimal duration, a comma, and the
/// category between double quotes.
pub open spec fn spec_csv_line(duration: nat, category: Seq<char>) -> Seq<char> {
    spec_dec(duration) + seq![',', '"'] + category + seq!['"']
}

impl Speech {
    /// A speech of zero duration with no category.
    pub fn new() -> (r: Self)
        ensures
            r.duration == 0,
            r.category@ == Seq::<char>::empty(),
    {
        Speech { duration: 0, category: String::new() }
    }

    /// The CSV line for this speech.
    pub fn export_to_csv(&self) -> (r: String)
        ensures
            r@ == spec_csv_line(self.duration as nat, self.category@),
    {
        proof {
            reveal_strlit(",\"");
            reveal_strlit("\"");
        }
        let mut s = dec_string(self.duration);
        s.append(",\"");
        s.append(self.category.as_str());
        s.append("\"");
        proof {
            assert(s@ =~= spec_csv_line(self.duration as nat, self.category@));
        }
        s
    }
}

impl Default for Speech {
    /// A speech of zero duration with no category.
    fn default() -> (r: Self)
        ensures
            r.duration == 0,
            r.category@ == Seq::<char>::empty(),
    {
        Speech::new()
    }
}

} // verus!
