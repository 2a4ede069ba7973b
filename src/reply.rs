use vstd::prelude::*;
use crate::errors::EngineError;
use crate::json::{
    decode_json_object_list, decode_json_string, entries_view, field_of, find_field,
    json_object_list_of, json_string_of, object_list_view,
};

verus! {

/// One result of a step: an amount of an asset.
#[derive(Clone, Debug)]
pub struct ReturnItem {
    pub token_id: String,
    pub amount: String,
}

pub open spec fn items_view(v: Seq<ReturnItem>) -> Seq<(Seq<char>, Seq<char>)> {
    v.map_values(|r: ReturnItem| (r.token_id@, r.amount@))
}

pub open spec fn token_id_key() -> Seq<char> {
    seq!['t', 'o', 'k', 'e', 'n', '_', 'i', 'd']
}

pub open spec fn amount_key() -> Seq<char> {
    seq!['a', 'm', 'o', 'u', 'n', 't']
}

/// The results that a list of objects describes: one per object, each object
/// naming its asset under `token_id` and its amount under `amount`.
pub open spec fn items_from_objects(l: Seq<Seq<(Seq<char>, Seq<char>)>>) -> Option<
    Seq<(Seq<char>, Seq<char>)>,
> {
    if forall|i: int|
        0 <= i < l.len() ==> (#[trigger] field_of(l[i], token_id_key())) is Some && field_of(
            l[i],
            amount_key(),
        ) is Some {
        Some(
            Seq::new(
                l.len(),
                |i: int| (field_of(l[i], token_id_key())->0, field_of(l[i], amount_key())->0),
            ),
        )
    } else {
        None
    }
}

/// The results of a reply. A reply that is a single string is one amount of
/// the asset that was expected, if one was; otherwise the reply must be a
/// list of result objects.
pub open spec fn reply_items(
    as_string: Option<Seq<char>>,
    as_list: Option<Seq<Seq<(Seq<char>, Seq<char>)>>>,
    expected_token: Option<Seq<char>>,
) -> Option<Seq<(Seq<char>, Seq<char>)>> {
    match as_string {
        Some(a) => match expected_token {
            Some(t) => Some(seq![(t, a)]),
            None => None,
        },
        None => match as_list {
            Some(l) => items_from_objects(l),
            None => None,
        },
    }
}

pub open spec fn opt_string_view(o: Option<String>) -> Option<Seq<char>> {
    match o {
        Some(s) => Some(s@),
        None => None,
    }
}

pub open spec fn opt_ref_view(o: Option<&String>) -> Option<Seq<char>> {
    match o {
        Some(s) => Some(s@),
        None => None,
    }
}

pub open spec fn opt_list_view(o: Option<Vec<Vec<(String, String)>>>) -> Option<
    Seq<Seq<(Seq<char>, Seq<char>)>>,
> {
    match o {
        Some(l) => Some(object_list_view(l@)),
        None => None,
    }
}

fn key_string(token: bool) -> (r: String)
    ensures
        r@ == (if token { token_id_key() } else { amount_key() }),
{
    let s = if token { "token_id".to_owned() } else { "amount".to_owned() };
    proof {
        reveal_strlit("token_id");
        reveal_strlit("amount");
    }
    assert(s@ =~= (if token { token_id_key() } else { amount_key() }));
    s
}

/// Turns what a reply decoded to into its results.
pub fn results_from_decoded(
    as_string: Option<String>,
    as_list: Option<Vec<Vec<(String, String)>>>,
    token_id: Option<&String>,
) -> (r: Result<Vec<ReturnItem>, EngineError>)
    ensures
        match r {
            Ok(v) => reply_items(
                opt_string_view(as_string),
                opt_list_view(as_list),
                opt_ref_view(token_id),
            ) == Some(items_view(v@)),
            Err(e) => e == EngineError::ParseError && reply_items(
                opt_string_view(as_string),
                opt_list_view(as_list),
                opt_ref_view(token_id),
            ) is None,
        },
{
    match as_string {
        Some(a) => match token_id {
            Some(t) => {
                let v = vec![ReturnItem { token_id: t.clone(), amount: a }];
                assert(items_view(v@) =~= seq![(t@, a@)]);
                Ok(v)
            },
            None => Err(EngineError::ParseError),
        },
        None => match as_list {
            Some(l) => {
                let ghost lv = object_list_view(l@);
                let tk = key_string(true);
                let ak = key_string(false);
                let mut out: Vec<ReturnItem> = Vec::new();
                let mut i: usize = 0;
                while i < l.len()
                    invariant
                        i <= l@.len(),
                        lv == object_list_view(l@),
                        opt_list_view(as_list) == Some(lv),
                        as_string is None,
                        tk@ == token_id_key(),
                        ak@ == amount_key(),
                        out@.len() == i,
                        forall|j: int|
                            0 <= j < i ==> (#[trigger] field_of(lv[j], token_id_key())) == Some(
                                out@[j].token_id@,
                            ) && field_of(lv[j], amount_key()) == Some(out@[j].amount@),
                    decreases l@.len() - i,
                {
                    let t = find_field(&l[i], &tk);
                    let a = find_field(&l[i], &ak);
                    assert(lv[i as int] == entries_view(l@[i as int]@));
                    match (t, a) {
                        (Some(t), Some(a)) => {
                            out.push(ReturnItem { token_id: t, amount: a });
                        },
                        _ => {
                            assert(!(field_of(lv[i as int], token_id_key()) is Some && field_of(
                                lv[i as int],
                                amount_key(),
                            ) is Some));
                            assert(items_from_objects(lv) is None);
                            return Err(EngineError::ParseError);
                        },
                    }
                    i = i + 1;
                }
                assert(items_view(out@) =~= items_from_objects(lv)->0);
                Ok(out)
            },
            None => Err(EngineError::ParseError),
        },
    }
}

/// Decodes the reply of a step: a JSON string holding one amount of the
/// expected asset, or else a JSON list of `{"token_id", "amount"}` objects.
pub fn get_results_from_returned_bytes(ret_bytes: &Vec<u8>, token_id: Option<&String>) -> (r:
    Result<Vec<ReturnItem>, EngineError>)
    ensures
        match r {
            Ok(v) => reply_items(
                json_string_of(ret_bytes@),
                json_object_list_of(ret_bytes@),
                opt_ref_view(token_id),
            ) == Some(items_view(v@)),
            Err(e) => e == EngineError::ParseError && reply_items(
                json_string_of(ret_bytes@),
                json_object_list_of(ret_bytes@),
                opt_ref_view(token_id),
            ) is None,
        },
{
    let as_string = decode_json_string(ret_bytes);
    if as_string.is_some() {
        results_from_decoded(as_string, None, token_id)
    } else {
        let as_list = decode_json_object_list(ret_bytes);
        results_from_decoded(None, as_list, token_id)
    }
}

} // verus!
