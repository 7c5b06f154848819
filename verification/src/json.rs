//! What this library asks of `serde_json`: to take a JSON object apart into
//! its members, to read a JSON string, and to write an object.

use vstd::prelude::*;

verus! {

/// A member of a JSON object: its name and a text. On reading, the text is
/// the member's value as it stands in the document.
#[derive(Debug)]
pub struct Member {
    pub name: String,
    pub text: String,
}

pub struct MemberView {
    pub name: Seq<char>,
    pub text: Seq<char>,
}

impl View for Member {
    type V = MemberView;

    open spec fn view(&self) -> MemberView {
        MemberView { name: self.name@, text: self.text@ }
    }
}

impl DeepView for Member {
    type V = MemberView;

    open spec fn deep_view(&self) -> MemberView {
        self@
    }
}

#[verifier::external_type_specification]
#[verifier::external_body]
pub struct ExJsonError(serde_json::Error);

/// What `serde_json::from_str` makes of a text when asked for a map from
/// member names to raw values: the members of the object that the text
/// holds, or nothing where the text holds no object.
pub uninterp spec fn object_members(text: Seq<char>) -> Option<Seq<MemberView>>;

/// What `serde_json::from_str` makes of a text when asked for a `String`:
/// the string that the text denotes, or nothing where it denotes none.
pub uninterp spec fn string_value(text: Seq<char>) -> Option<Seq<char>>;

/// What `serde_json::to_string_pretty` writes for the object with the
/// members `strings`, each a JSON string, and the members `raws`, each the
/// value that `serde_json::from_str` makes of its text; nothing where
/// `serde_json` gives an error instead.
pub uninterp spec fn rendered_object(strings: Seq<MemberView>, raws: Seq<MemberView>) -> Option<
    Seq<char>,
>;

/// `serde_json::from_str`, asked for a `BTreeMap` from `String` to
/// `Box<RawValue>`. Trusted: whether it succeeds, and what it gives, depend
/// on the text alone. What it gives is handed on member by member in the
/// order of the map, each with the text that `RawValue::get` gives.
#[verifier::external_body]
pub(crate) fn parse_object(text: &str) -> (r: Result<Vec<Member>, serde_json::Error>)
    ensures
        r is Ok <==> object_members(text@) is Some,
        r is Ok ==> object_members(text@) == Some(r->Ok_0.deep_view()),
{
    let members: std::collections::BTreeMap<String, Box<serde_json::value::RawValue>> =
        serde_json::from_str(text)?;
    Ok(members.into_iter().map(|(name, raw)| Member { name, text: raw.get().to_owned() }).collect())
}

/// `serde_json::from_str`, asked for a `String`. Trusted: whether it
/// succeeds, and the string it gives, depend on the text alone.
#[verifier::external_body]
pub(crate) fn parse_string(text: &str) -> (r: Result<String, serde_json::Error>)
    ensures
        r is Ok <==> string_value(text@) is Some,
        r is Ok ==> string_value(text@) == Some(r->Ok_0@),
{
    serde_json::from_str(text)
}

/// `serde_json::to_string_pretty` of a `Value::Object`. The object is made
/// with `Map::insert`: of each member of `strings` a `Value::String`, of
/// each member of `raws` what `serde_json::from_str` makes of its text.
/// Trusted: whether it succeeds, and the text it writes, depend on the
/// members alone.
#[verifier::external_body]
pub(crate) fn render_object(strings: &Vec<Member>, raws: &Vec<Member>) -> (r: Result<
    String,
    serde_json::Error,
>)
    ensures
        r is Ok <==> rendered_object(strings.deep_view(), raws.deep_view()) is Some,
        r is Ok ==> rendered_object(strings.deep_view(), raws.deep_view()) == Some(r->Ok_0@),
{
    let mut object = serde_json::Map::new();
    for member in strings {
        object.insert(member.name.clone(), serde_json::Value::String(member.text.clone()));
    }
    for member in raws {
        object.insert(member.name.clone(), serde_json::from_str(&member.text)?);
    }
    serde_json::to_string_pretty(&serde_json::Value::Object(object))
}

/// `serde_json::Error`'s `Display`. Nothing is claimed of the message.
#[verifier::external_body]
pub(crate) fn json_error_message(error: &serde_json::Error) -> String {
    error.to_string()
}

/// The text of the first member named `name`.
pub open spec fn member_text(members: Seq<MemberView>, name: Seq<char>) -> Option<Seq<char>>
    decreases members.len(),
{
    if members.len() == 0 {
        None
    } else if members[0].name == name {
        Some(members[0].text)
    } else {
        member_text(members.drop_first(), name)
    }
}

/// Looks up the first member named `name`.
pub fn find_member<'a>(members: &'a Vec<Member>, name: &str) -> (r: Option<&'a str>)
    ensures
        r is Some <==> member_text(members.deep_view(), name@) is Some,
        r is Some ==> member_text(members.deep_view(), name@) == Some(r->Some_0@),
{
    let wanted = name.to_owned();
    let ghost all = members.deep_view();
    let mut i: usize = 0;
    proof {
        assert(all.skip(0) =~= all);
    }
    while i < members.len()
        invariant
            i <= members.len(),
            all == members.deep_view(),
            wanted@ == name@,
            member_text(all, name@) == member_text(all.skip(i as int), name@),
        decreases members.len() - i,
    {
        proof {
            assert(all.skip(i as int).drop_first() =~= all.skip(i + 1));
            assert(all.skip(i as int)[0] == members[i as int]@);
        }
        if members[i].name == wanted {
            return Some(members[i].text.as_str());
        }
        i = i + 1;
    }
    None
}

} // verus!
