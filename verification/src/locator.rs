//! Building the address of a resource from a base address and an identifier,
//! and checking an address with the parser that the transport uses.

use vstd::prelude::*;
use vstd::string::*;

verus! {

/// `s` ends with the path separator.
pub open spec fn ends_with_slash(s: Seq<char>) -> bool {
    s.len() > 0 && s.last() == '/'
}

/// `s`, with a path separator appended unless it already ends with one.
pub open spec fn with_slash(s: Seq<char>) -> Seq<char> {
    if ends_with_slash(s) {
        s
    } else {
        s.push('/')
    }
}

/// `s` without its last path separator, where it ends with one.
pub open spec fn stem(s: Seq<char>) -> Seq<char> {
    if ends_with_slash(s) {
        s.drop_last()
    } else {
        s
    }
}

/// The address of the resource `id` below `base`.
pub open spec fn joined(base: Seq<char>, id: Seq<char>) -> Seq<char> {
    with_slash(base) + id
}

pub fn has_trailing_slash(s: &str) -> (b: bool)
    ensures
        b == ends_with_slash(s@),
{
    let n = s.unicode_len();
    n > 0 && s.get_char(n - 1) == '/'
}

/// Makes a base address end with a path separator.
pub fn normalize_base(base: &str) -> (r: String)
    ensures
        r@ == with_slash(base@),
{
    let r = base.to_owned();
    if has_trailing_slash(base) {
        r
    } else {
        proof {
            reveal_strlit("/");
            assert("/"@ =~= seq!['/']);
            assert(base@ + seq!['/'] =~= base@.push('/'));
        }
        r.concat("/")
    }
}

/// Joins a base address and an identifier with one path separator between
/// them, whether or not the base ends with one.
pub fn join_url(base: &str, id: &str) -> (r: String)
    ensures
        r@ == joined(base@, id@),
{
    normalize_base(base).concat(id)
}

/// A joined address is the base without its last separator, one separator, and
/// the identifier. Where neither the rest of the base ends with a separator nor
/// the identifier begins with one, the separator between them stands alone.
pub proof fn lemma_join_single_separator(base: Seq<char>, id: Seq<char>)
    ensures
        joined(base, id) == stem(base) + seq!['/'] + id,
        ({
            let at = stem(base).len() as int;
            &&& joined(base, id).len() == at + 1 + id.len()
            &&& joined(base, id).subrange(0, at) == stem(base)
            &&& joined(base, id)[at] == '/'
            &&& joined(base, id).subrange(at + 1, joined(base, id).len() as int) == id
            &&& at > 0 && !ends_with_slash(stem(base)) ==> joined(base, id)[at - 1] != '/'
            &&& id.len() > 0 && id[0] != '/' ==> joined(base, id)[at + 1] != '/'
        }),
{
    let s = stem(base);
    assert(with_slash(base) =~= s.push('/'));
    assert(joined(base, id) =~= s + seq!['/'] + id);
    let at = s.len() as int;
    assert(joined(base, id).subrange(0, at) =~= s);
    assert(joined(base, id).subrange(at + 1, joined(base, id).len() as int) =~= id);
}

/// A base gives the same address whether or not it is written with a
/// separator at its end.
pub proof fn lemma_join_ignores_trailing_slash(base: Seq<char>, id: Seq<char>)
    requires
        !ends_with_slash(base),
    ensures
        joined(base.push('/'), id) == joined(base, id),
{
    assert(base.push('/').last() == '/');
}

/// The address as `Url::parse` writes it back, `None` where it rejects the
/// text.
pub uninterp spec fn url_serialization(raw: Seq<char>) -> Option<Seq<char>>;

/// `reqwest::Url::parse`, then the parsed address as text: the serialization
/// of the address, or `None` exactly where the parser rejects the text.
#[verifier::external_body]
pub(crate) fn parse_url(raw: &str) -> (r: Option<String>)
    ensures
        match r {
            Some(u) => url_serialization(raw@) == Some(u@),
            None => url_serialization(raw@) is None,
        },
{
    match reqwest::Url::parse(raw) {
        Ok(u) => Some(String::from(u)),
        Err(_) => None,
    }
}

} // verus!
