//! The text of a report, as the `json` crate prints it.

use vstd::prelude::*;

verus! {

/// One line of a report: a key and the text that stands under it.
#[derive(Clone, Debug, PartialEq, Eq)]
pub struct Member {
    pub key: String,
    pub value: String,
}

impl View for Member {
    type V = (Seq<char>, Seq<char>);

    open spec fn view(&self) -> (Seq<char>, Seq<char>) {
        (self.key@, self.value@)
    }
}

/// The members that a list of `Member` stands for.
pub open spec fn members_of(members: Seq<Member>) -> Seq<(Seq<char>, Seq<char>)> {
    Seq::new(members.len(), |i: int| members[i]@)
}

/// The text that `json::stringify_pretty` prints for the JSON object with
/// the one member `section`, whose value is the object that holds `members`
/// as strings, in their order, with `spaces` blanks per level. The layout and
/// the escaping are the `json` crate's; nothing here says what they are.
pub uninterp spec fn pretty_document(
    section: Seq<char>,
    members: Seq<(Seq<char>, Seq<char>)>,
    spaces: u16,
) -> Seq<char>;

/// Builds the object `{section: {key: value, ...}}` with `json::object::Object`
/// and prints it with `json::stringify_pretty`. The contract gives the text
/// its name: it depends on the arguments alone. The printer multiplies the
/// depth, at most 2 here, by `spaces` in 16 bits, hence the bound.
#[verifier::external_body]
pub(crate) fn print_document(section: &str, members: &Vec<Member>, spaces: u16) -> (text: String)
    requires
        2 * spaces <= u16::MAX,
    ensures
        text@ == pretty_document(section@, members_of(members@), spaces),
{
    let mut inner = json::object::Object::new();
    for member in members.iter() {
        inner.insert(&member.key, json::JsonValue::String(member.value.clone()));
    }
    let mut outer = json::object::Object::new();
    outer.insert(section, json::JsonValue::Object(inner));
    json::stringify_pretty(json::JsonValue::Object(outer), spaces)
}

} // verus!
