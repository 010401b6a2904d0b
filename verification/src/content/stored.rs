//! Stored JSON that the library writes, or reads as plain values: the
//! `current` pointer's written form, and a JSON list of strings, which
//! serde_json reads. Reading a stored index or pointer back into the
//! library's types is a serde parse into them, which the `blog` command
//! makes.
use vstd::prelude::*;

use super::json::json_string;
use super::routes::CurrentPointer;
use crate::sorted::views;
use crate::text::{owned, push_text};

verus! {

/// A JSON array of strings, or the decoder's message.
pub uninterp spec fn json_text_list(raw: Seq<char>) -> Result<Seq<Seq<char>>, Seq<char>>;

pub open spec fn pairs_view(v: Seq<(String, String)>) -> Seq<(Seq<char>, Seq<char>)> {
    v.map_values(|p: (String, String)| (p.0@, p.1@))
}

/// `serde_json::from_str` into a list of strings.
#[verifier::external_body]
pub(crate) fn decode_text_list(raw: &str) -> (r: Result<Vec<String>, String>)
    ensures
        match r {
            Ok(v) => json_text_list(raw@) == Ok::<_, Seq<char>>(views(v@)),
            Err(e) => json_text_list(raw@) == Err::<Seq<Seq<char>>, _>(e@),
        },
{
    serde_json::from_str(raw).map_err(|err| err.to_string())
}

impl CurrentPointer {
    /// The pointer as stored: `{"sha":"…"}`.
    pub fn to_json(&self) -> (r: String)
        ensures
            r@ == "{\"sha\":"@ + json_string(self.sha@) + "}"@,
    {
        let mut out = owned("{\"sha\":");
        super::json::write_string(&mut out, &self.sha);
        push_text(&mut out, "}");
        out
    }
}

} // verus!
