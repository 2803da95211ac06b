//! The searchable text of an event.
use vstd::prelude::*;

use crate::event::Event;
use crate::kind::{is_text_event, is_text_kind};

verus! {

/// The values of the JSON object written in `content`, in the object's order,
/// each the text of a JSON string or `None` for any other JSON value; `None`
/// when `content` is not a JSON object.
pub uninterp spec fn json_object_values(content: Seq<char>) -> Option<Seq<Option<Seq<char>>>>;

pub open spec fn values_view(values: Seq<Option<String>>) -> Seq<Option<Seq<char>>> {
    values.map_values(
        |o: Option<String>|
            match o {
                Some(s) => Some(s@),
                None => None,
            },
    )
}

/// Relies on `serde_json::from_str` into a `serde_json::Map`, which keeps
/// the order of the document: the object's values, strings as their text and
/// anything else as `None`; `None` when the input is not a JSON object.
#[verifier::external_body]
fn object_values(content: &str) -> (r: Option<Vec<Option<String>>>)
    ensures
        match r {
            Some(v) => json_object_values(content@) == Some(values_view(v@)),
            None => json_object_values(content@) is None,
        },
{
    match serde_json::from_str::<serde_json::Map<String, serde_json::Value>>(content) {
        Ok(m) => Some(m.into_iter().map(|(_, v)| match v {
            serde_json::Value::String(s) => Some(s),
            _ => None,
        }).collect()),
        Err(_) => None,
    }
}

/// The strings joined with a single space between each two.
pub open spec fn joined(parts: Seq<Seq<char>>) -> Seq<char>
    decreases parts.len(),
{
    if parts.len() == 0 {
        Seq::empty()
    } else if parts.len() == 1 {
        parts[0]
    } else {
        joined(parts.drop_last()) + seq![' '] + parts.last()
    }
}

/// The text of a profile from the values of its JSON object: all values
/// joined by single spaces when every one is a string, and empty when the
/// content is not an object of strings.
pub open spec fn profile_text_of(values: Option<Seq<Option<Seq<char>>>>) -> Seq<char> {
    match values {
        Some(vs) => if forall|i: int| 0 <= i < vs.len() ==> (#[trigger] vs[i]) is Some {
            joined(vs.map_values(|o: Option<Seq<char>>| o->Some_0))
        } else {
            Seq::empty()
        },
        None => Seq::empty(),
    }
}

/// The text of an event: the content itself for text kinds, the values of
/// the profile object otherwise.
pub open spec fn text_of(kind: u64, content: Seq<char>) -> Seq<char> {
    if is_text_kind(kind) {
        content
    } else {
        profile_text_of(json_object_values(content))
    }
}

fn all_strings(values: &Vec<Option<String>>) -> (r: bool)
    ensures
        r == forall|x: int| 0 <= x < values@.len() ==> (#[trigger] values_view(values@)[x]) is Some,
{
    let ghost view = values_view(values@);
    let mut j: usize = 0;
    while j < values.len()
        invariant
            j <= values@.len(),
            view == values_view(values@),
            forall|x: int| 0 <= x < j ==> (#[trigger] view[x]) is Some,
        decreases values@.len() - j,
    {
        match &values[j] {
            Some(_) => {},
            None => {
                assert(view[j as int] is None);
                return false;
            },
        }
        j += 1;
    }
    true
}

/// Joins the values of a parsed profile object into its searchable text.
/// Malformed content (no object, or a value that is not a string) gives the
/// empty text, never an error.
pub fn profile_text(values: Option<Vec<Option<String>>>) -> (r: String)
    ensures
        r@ == profile_text_of(
            match values {
                Some(v) => Some(values_view(v@)),
                None => None,
            },
        ),
{
    match values {
        None => String::new(),
        Some(vs) => {
            let ghost view = values_view(vs@);
            if !all_strings(&vs) {
                return String::new();
            }
            let ghost parts = view.map_values(|o: Option<Seq<char>>| o->Some_0);
            let mut out = String::new();
            let mut i: usize = 0;
            while i < vs.len()
                invariant
                    i <= vs@.len(),
                    view == values_view(vs@),
                    parts == view.map_values(|o: Option<Seq<char>>| o->Some_0),
                    forall|x: int| 0 <= x < vs@.len() ==> (#[trigger] view[x]) is Some,
                    out@ == joined(parts.take(i as int)),
                decreases vs@.len() - i,
            {
                assert(parts.take(i + 1).drop_last() =~= parts.take(i as int));
                match &vs[i] {
                    Some(s) => {
                        assert(parts[i as int] == s@);
                        if i > 0 {
                            out.append(" ");
                            proof {
                                reveal_strlit(" ");
                            }
                        }
                        out.append(s.as_str());
                        if i == 0 {
                            assert(out@ =~= joined(parts.take(1)));
                        }
                    },
                    None => {
                        assert(view[i as int] is None);
                    },
                }
                i += 1;
            }
            assert(parts.take(vs@.len() as int) =~= parts);
            out
        },
    }
}

/// The searchable text of an event: the content verbatim for text notes and
/// long-form notes, otherwise the values of its JSON profile object joined
/// by single spaces, or empty when the content is malformed.
pub fn extract_text(event: &Event) -> (r: String)
    ensures
        r@ == text_of(event.kind, event.content@),
        is_text_kind(event.kind) ==> r@ == event.content@,
{
    if is_text_event(event) {
        event.content.clone()
    } else {
        let values = object_values(event.content.as_str());
        profile_text(values)
    }
}

} // verus!
