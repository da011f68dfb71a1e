//! From a JSON document to a listing.

use crate::json::{json_document, json_of, member, parse_value, Json};
use crate::model::{ids_of, DecodeError, Item, Listing, ResponseData};
use vstd::prelude::*;

verus! {

/// The names under which an element may carry its identifier, in the order in
/// which they are tried.
pub open spec fn alias_names() -> Seq<Seq<char>> {
    seq!["id"@, "uuid"@, "sbom_id"@]
}

/// The member of `o` under the first of `names`, from position `from` on, that
/// `o` holds.
pub open spec fn first_member(o: Map<Seq<char>, Json>, names: Seq<Seq<char>>, from: int) -> Option<
    Json,
>
    decreases names.len() - from,
{
    if from < 0 || from >= names.len() {
        None
    } else if o.contains_key(names[from]) {
        Some(o[names[from]])
    } else {
        first_member(o, names, from + 1)
    }
}

/// The identifier that an element of `items` carries: the text under the first
/// alias name that the object holds. An element that is no object, that holds
/// none of the names, or whose first such member is no text, carries none.
pub open spec fn identifier_of(j: Json) -> Option<Seq<char>> {
    match j {
        Json::Object(o) => match first_member(o, alias_names(), 0) {
            Some(Json::Text(s)) => Some(s),
            _ => None,
        },
        _ => None,
    }
}

/// The identifiers of the elements in order, or the index of the first element
/// that carries none.
pub open spec fn identifiers_of(l: Seq<Json>) -> Result<Seq<Seq<char>>, DecodeError>
    decreases l.len(),
{
    if l.len() == 0 {
        Ok(Seq::empty())
    } else {
        match identifiers_of(l.drop_last()) {
            Err(e) => Err(e),
            Ok(ids) => match identifier_of(l.last()) {
                Some(s) => Ok(ids.push(s)),
                None => Err(DecodeError::Identifier((l.len() - 1) as usize)),
            },
        }
    }
}

/// The array under `items`, where the document is an object that has one.
pub open spec fn items_of(j: Json) -> Option<Seq<Json>> {
    match j {
        Json::Object(o) => if o.contains_key("items"@) {
            match o["items"@] {
                Json::List(l) => Some(l),
                _ => None,
            }
        } else {
            None
        },
        _ => None,
    }
}

/// The integer under `total`, where the document is an object that has one in
/// the range of an `i32`.
pub open spec fn total_of(j: Json) -> Option<int> {
    match j {
        Json::Object(o) => if o.contains_key("total"@) {
            match o["total"@] {
                Json::Integer(n) => if i32::MIN <= n <= i32::MAX {
                    Some(n)
                } else {
                    None
                },
                _ => None,
            }
        } else {
            None
        },
        _ => None,
    }
}

/// The listing that a document holds. The array is looked at first, then the
/// total, then the elements from the first on.
pub open spec fn listing_of(j: Json) -> Result<Listing, DecodeError> {
    match items_of(j) {
        None => Err(DecodeError::Items),
        Some(l) => match total_of(j) {
            None => Err(DecodeError::Total),
            Some(n) => match identifiers_of(l) {
                Err(e) => Err(e),
                Ok(ids) => Ok(Listing { ids, total: n }),
            },
        },
    }
}

/// The listing that a response body holds.
pub open spec fn listing_of_body(body: Seq<char>) -> Result<Listing, DecodeError> {
    match json_document(body) {
        None => Err(DecodeError::Syntax),
        Some(j) => listing_of(j),
    }
}

/// The alias at position `k` is the first that the object holds.
pub open spec fn first_held(o: Map<Seq<char>, Json>, k: int) -> bool {
    &&& 0 <= k < alias_names().len()
    &&& o.contains_key(alias_names()[k])
    &&& forall|j: int| 0 <= j < k ==> !o.contains_key(#[trigger] alias_names()[j])
}

/// Looking from `from` on finds the member under the first alias that the
/// object holds, where that alias is not before `from`.
pub proof fn lemma_first_member_found(o: Map<Seq<char>, Json>, k: int, from: int)
    requires
        first_held(o, k),
        0 <= from <= k,
    ensures
        first_member(o, alias_names(), from) == Some(o[alias_names()[k]]),
    decreases k - from,
{
    if from < k {
        assert(!o.contains_key(alias_names()[from]));
        lemma_first_member_found(o, k, from + 1);
    }
}

/// An object that holds none of the aliases carries no identifier.
pub proof fn lemma_no_alias_no_identifier(o: Map<Seq<char>, Json>)
    requires
        forall|j: int| 0 <= j < alias_names().len() ==> !o.contains_key(#[trigger] alias_names()[j]),
    ensures
        identifier_of(Json::Object(o)) is None,
{
    reveal_with_fuel(first_member, 4);
    assert(!o.contains_key(alias_names()[0]));
    assert(!o.contains_key(alias_names()[1]));
    assert(!o.contains_key(alias_names()[2]));
}

/// Alias resolution: two objects that carry the same text, each under the
/// first alias that it holds, carry the same identifier, whichever aliases
/// those are. So an object with `uuid` and no `id` decodes as one with `id`.
pub proof fn lemma_alias_resolution(
    a: Map<Seq<char>, Json>,
    i: int,
    b: Map<Seq<char>, Json>,
    j: int,
    text: Seq<char>,
)
    requires
        first_held(a, i),
        first_held(b, j),
        a[alias_names()[i]] == Json::Text(text),
        b[alias_names()[j]] == Json::Text(text),
    ensures
        identifier_of(Json::Object(a)) == Some(text),
        identifier_of(Json::Object(a)) == identifier_of(Json::Object(b)),
{
    lemma_first_member_found(a, i, 0);
    lemma_first_member_found(b, j, 0);
}

/// The identifiers of a sequence, stated element by element: there are
/// identifiers exactly where every element carries one, and they are those of
/// the elements in order; else the error names the first element that carries
/// none.
pub proof fn lemma_identifiers_elementwise(l: Seq<Json>)
    ensures
        match identifiers_of(l) {
            Ok(ids) => {
                &&& ids.len() == l.len()
                &&& forall|i: int| 0 <= i < l.len() ==> identifier_of(#[trigger] l[i]) == Some(ids[i])
            },
            Err(e) => {
                &&& e matches DecodeError::Identifier(k)
                &&& exists|n: int|
                    {
                        &&& 0 <= n < l.len()
                        &&& k == n as usize
                        &&& identifier_of(l[n]) is None
                        &&& forall|i: int| 0 <= i < n ==> identifier_of(#[trigger] l[i]) is Some
                    }
            },
        },
    decreases l.len(),
{
    if l.len() > 0 {
        let front = l.drop_last();
        lemma_identifiers_elementwise(front);
        match identifiers_of(front) {
            Ok(ids) => {
                assert forall|i: int| 0 <= i < front.len() implies identifier_of(#[trigger] l[i])
                    == Some(ids[i]) by {
                    assert(front[i] == l[i]);
                }
                if identifier_of(l.last()) is None {
                    let n = l.len() - 1;
                    assert(identifier_of(l[n]) is None);
                }
            },
            Err(e) => {
                let n = choose|n: int|
                    {
                        &&& 0 <= n < front.len()
                        &&& e->Identifier_0 == n as usize
                        &&& identifier_of(front[n]) is None
                        &&& forall|i: int|
                            0 <= i < n ==> identifier_of(#[trigger] front[i]) is Some
                    };
                assert(identifier_of(l[n]) is None);
                assert forall|i: int| 0 <= i < n implies identifier_of(#[trigger] l[i]) is Some by {
                    assert(front[i] == l[i]);
                }
            },
        }
    }
}

/// The alias name at position `k`.
fn alias_name(k: usize) -> (name: &'static str)
    requires
        k < 3,
    ensures
        name@ == alias_names()[k as int],
{
    if k == 0 {
        "id"
    } else if k == 1 {
        "uuid"
    } else {
        "sbom_id"
    }
}

/// Decodes one element of `items`.
pub fn decode_item(v: &serde_json::Value) -> (r: Option<Item>)
    ensures
        match r {
            Some(item) => identifier_of(json_of(*v)) == Some(item@),
            None => identifier_of(json_of(*v)) is None,
        },
{
    let mut k: usize = 0;
    while k < 3
        invariant
            k <= 3,
            json_of(*v) matches Json::Object(o) ==> first_member(o, alias_names(), 0)
                == first_member(o, alias_names(), k as int),
        decreases 3 - k,
    {
        match member(v, alias_name(k)) {
            Some(m) => {
                return match m.as_str() {
                    Some(s) => Some(Item { id: s.to_owned() }),
                    None => None,
                };
            },
            None => {},
        }
        k += 1;
    }
    None
}

/// The trees that the values hold, in order.
pub open spec fn trees_of(values: Seq<serde_json::Value>) -> Seq<Json> {
    values.map_values(|v: serde_json::Value| json_of(v))
}

/// Decodes the elements of `items` in order.
fn decode_items(a: &Vec<serde_json::Value>) -> (r: Result<Vec<Item>, DecodeError>)
    ensures
        match r {
            Ok(items) => identifiers_of(trees_of(a@)) == Ok::<Seq<Seq<char>>, DecodeError>(
                ids_of(items@),
            ),
            Err(e) => identifiers_of(trees_of(a@)) == Err::<Seq<Seq<char>>, DecodeError>(e),
        },
{
    let ghost l = trees_of(a@);
    let mut items: Vec<Item> = Vec::new();
    let mut k: usize = 0;
    proof {
        assert(ids_of(items@) =~= Seq::empty());
    }
    while k < a.len()
        invariant
            k <= a.len(),
            l == trees_of(a@),
            identifiers_of(l.take(k as int)) == Ok::<Seq<Seq<char>>, DecodeError>(ids_of(items@)),
        decreases a.len() - k,
    {
        proof {
            assert(l.take(k + 1).drop_last() =~= l.take(k as int));
            assert(l.take(k + 1).last() == json_of(a@[k as int]));
            lemma_identifiers_prefix(l, k + 1);
        }
        match decode_item(&a[k]) {
            Some(item) => {
                proof {
                    assert(ids_of(items@).push(item@) =~= ids_of(items@.push(item)));
                }
                items.push(item);
            },
            None => {
                return Err(DecodeError::Identifier(k));
            },
        }
        k += 1;
    }
    proof {
        assert(l.take(k as int) =~= l);
    }
    Ok(items)
}

/// An error among the first `n` elements is the error of the whole sequence.
pub proof fn lemma_identifiers_prefix(l: Seq<Json>, n: int)
    requires
        0 <= n <= l.len(),
    ensures
        identifiers_of(l.take(n)) is Err ==> identifiers_of(l) == identifiers_of(l.take(n)),
    decreases l.len() - n,
{
    if n == l.len() {
        assert(l.take(n) =~= l);
    } else {
        assert(l.take(n + 1).drop_last() =~= l.take(n));
        lemma_identifiers_prefix(l, n + 1);
    }
}

/// Decodes a parsed document into a listing.
pub fn decode_list(v: &serde_json::Value) -> (r: Result<ResponseData, DecodeError>)
    ensures
        match r {
            Ok(data) => listing_of(json_of(*v)) == Ok::<Listing, DecodeError>(data@),
            Err(e) => listing_of(json_of(*v)) == Err::<Listing, DecodeError>(e),
        },
{
    let elements = match member(v, "items") {
        Some(m) => match m.as_array() {
            Some(a) => a,
            None => { return Err(DecodeError::Items); },
        },
        None => { return Err(DecodeError::Items); },
    };
    let total: i32 = match member(v, "total") {
        Some(m) => match m.as_i64() {
            Some(n) => if -2147483648 <= n && n <= 2147483647 {
                n as i32
            } else {
                return Err(DecodeError::Total);
            },
            None => { return Err(DecodeError::Total); },
        },
        None => { return Err(DecodeError::Total); },
    };
    proof {
        assert(items_of(json_of(*v)).unwrap() =~= trees_of(elements@));
    }
    match decode_items(elements) {
        Ok(items) => Ok(ResponseData { items, total }),
        Err(e) => Err(e),
    }
}

/// Parses a response body and decodes it into a listing.
pub fn parse_list(body: &str) -> (r: Result<ResponseData, DecodeError>)
    ensures
        match r {
            Ok(data) => listing_of_body(body@) == Ok::<Listing, DecodeError>(data@),
            Err(e) => listing_of_body(body@) == Err::<Listing, DecodeError>(e),
        },
{
    match parse_value(body) {
        Ok(v) => decode_list(&v),
        Err(_) => Err(DecodeError::Syntax),
    }
}

} // verus!
