use vstd::prelude::*;

verus! {

/// The text of a JSON document that is a single string, if `b` is one.
pub uninterp spec fn json_string_of(b: Seq<u8>) -> Option<Seq<char>>;

/// The entries of each object of a JSON document that is a list of objects
/// with string values, if `b` is one; each object's keys are distinct and in
/// ascending order.
pub uninterp spec fn json_object_list_of(b: Seq<u8>) -> Option<Seq<Seq<(Seq<char>, Seq<char>)>>>;

/// The entries of a JSON document that is one object with string values, if
/// `s` is one; its keys are distinct and in ascending order.
pub uninterp spec fn json_object_of(s: Seq<char>) -> Option<Seq<(Seq<char>, Seq<char>)>>;

pub open spec fn entries_view(e: Seq<(String, String)>) -> Seq<(Seq<char>, Seq<char>)> {
    e.map_values(|p: (String, String)| (p.0@, p.1@))
}

pub open spec fn object_list_view(l: Seq<Vec<(String, String)>>) -> Seq<
    Seq<(Seq<char>, Seq<char>)>,
> {
    l.map_values(|o: Vec<(String, String)>| entries_view(o@))
}

/// Relies on `serde_json::from_slice::<String>`: it decodes a JSON string, and
/// what it gives depends on the bytes alone.
#[verifier::external_body]
pub(crate) fn decode_json_string(b: &Vec<u8>) -> (r: Option<String>)
    ensures
        r is None <==> json_string_of(b@) is None,
        r matches Some(s) ==> json_string_of(b@) == Some(s@),
{
    serde_json::from_slice::<String>(b.as_slice()).ok()
}

/// Relies on `serde_json::from_slice::<Vec<BTreeMap<String, String>>>`: it
/// decodes a list of objects whose values are strings, and what it gives
/// depends on the bytes alone.
#[verifier::external_body]
pub(crate) fn decode_json_object_list(b: &Vec<u8>) -> (r: Option<Vec<Vec<(String, String)>>>)
    ensures
        r is None <==> json_object_list_of(b@) is None,
        r matches Some(l) ==> json_object_list_of(b@) == Some(object_list_view(l@)),
{
    serde_json::from_slice::<Vec<std::collections::BTreeMap<String, String>>>(b.as_slice())
        .ok()
        .map(|l| l.into_iter().map(|m| m.into_iter().collect()).collect())
}

/// Relies on `serde_json::from_str::<BTreeMap<String, String>>`: it decodes
/// one object whose values are strings, and what it gives depends on the text
/// alone.
#[verifier::external_body]
pub(crate) fn decode_json_object(s: &str) -> (r: Option<Vec<(String, String)>>)
    ensures
        r is None <==> json_object_of(s@) is None,
        r matches Some(o) ==> json_object_of(s@) == Some(entries_view(o@)),
{
    serde_json::from_str::<std::collections::BTreeMap<String, String>>(s)
        .ok()
        .map(|m| m.into_iter().collect())
}

/// The value of the first entry named `key`.
pub open spec fn field_of(o: Seq<(Seq<char>, Seq<char>)>, key: Seq<char>) -> Option<Seq<char>>
    decreases o.len(),
{
    if o.len() == 0 {
        None
    } else if o[0].0 == key {
        Some(o[0].1)
    } else {
        field_of(o.drop_first(), key)
    }
}

/// Looks up the first entry named `key`.
pub fn find_field(o: &Vec<(String, String)>, key: &String) -> (r: Option<String>)
    ensures
        r is None <==> field_of(entries_view(o@), key@) is None,
        r matches Some(v) ==> field_of(entries_view(o@), key@) == Some(v@),
{
    let mut i: usize = 0;
    assert(entries_view(o@).skip(0) =~= entries_view(o@));
    while i < o.len()
        invariant
            i <= o@.len(),
            field_of(entries_view(o@), key@) == field_of(entries_view(o@).skip(i as int), key@),
        decreases o@.len() - i,
    {
        let ghost rest = entries_view(o@).skip(i as int);
        assert(rest.drop_first() =~= entries_view(o@).skip(i as int + 1));
        if o[i].0 == *key {
            return Some(o[i].1.clone());
        }
        i = i + 1;
    }
    None
}

} // verus!
