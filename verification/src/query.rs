//! Query strings: collecting parameters, writing them as `key=value` and
//! joining them behind a path.
use vstd::prelude::*;
use crate::model::{params_view, strs_view, ParamView, QueryParam};
use crate::text::{append, append_str, chars_of, string_of, trim, trim_str};

verus! {

/// The parts joined by `sep` (`[a, b, c].join(sep)`).
pub open spec fn join(parts: Seq<Seq<char>>, sep: Seq<char>) -> Seq<char>
    decreases parts.len(),
{
    if parts.len() == 0 {
        Seq::empty()
    } else if parts.len() == 1 {
        parts[0]
    } else {
        join(parts.drop_last(), sep) + sep + parts.last()
    }
}

/// The parameter that `push_query_param` adds for `key` and `value`: the value
/// is trimmed, and a value that is then empty adds nothing.
pub open spec fn query_param(key: Seq<char>, value: Seq<char>) -> Seq<ParamView> {
    if trim(value).len() == 0 {
        Seq::empty()
    } else {
        seq![ParamView { key: key, value: trim(value), encode: true }]
    }
}

/// The parameter `key=value` written as is, without encoding.
pub open spec fn raw_param(key: Seq<char>, value: Seq<char>) -> ParamView {
    ParamView { key: key, value: value, encode: false }
}

/// A parameter written as `key=value`, with the encoded forms of key and
/// value where the parameter is to be encoded.
pub open spec fn rendered_param(p: ParamView, encoded: (Seq<char>, Seq<char>)) -> Seq<char> {
    if p.encode {
        encoded.0 + seq!['='] + encoded.1
    } else {
        p.key + seq!['='] + p.value
    }
}

/// `path`, followed by `?` and the parameters joined by `&` when there are any.
pub open spec fn with_query(path: Seq<char>, rendered: Seq<Seq<char>>) -> Seq<char> {
    if rendered.len() == 0 {
        path
    } else {
        path + seq!['?'] + join(rendered, seq!['&'])
    }
}

/// Adds the parameter `key=value` for a value that is not blank once trimmed.
pub fn push_query_param(params: &mut Vec<QueryParam>, key: &str, value: &str)
    ensures
        params_view(final(params)@) == params_view(old(params)@) + query_param(key@, value@),
{
    let v = trim_str(value);
    if v.len() > 0 {
        let p = QueryParam { key: key.to_owned(), value: string_of(v.as_slice()), encode: true };
        let ghost before = params@;
        params.push(p);
        assert(params_view(params@) =~= params_view(before) + query_param(key@, value@));
    } else {
        assert(params_view(params@) =~= params_view(params@) + query_param(key@, value@));
    }
}

/// Writes each parameter as `key=value`; `encoded[i]` holds the
/// percent-encoded key and value of `params[i]`.
pub fn render_params(params: &Vec<QueryParam>, encoded: &Vec<(String, String)>) -> (r: Vec<String>)
    requires
        encoded@.len() == params@.len(),
    ensures
        r@.len() == params@.len(),
        forall|i: int|
            0 <= i < params@.len() ==> #[trigger] r@[i]@ == rendered_param(
                params@[i]@,
                (encoded@[i].0@, encoded@[i].1@),
            ),
{
    let mut r: Vec<String> = Vec::new();
    for i in 0..params.len()
        invariant
            encoded@.len() == params@.len(),
            r@.len() == i,
            forall|j: int|
                0 <= j < i ==> #[trigger] r@[j]@ == rendered_param(
                    params@[j]@,
                    (encoded@[j].0@, encoded@[j].1@),
                ),
    {
        let p = &params[i];
        let mut out: Vec<char> = Vec::new();
        if p.encode {
            append_str(&mut out, encoded[i].0.as_str());
            out.push('=');
            append_str(&mut out, encoded[i].1.as_str());
        } else {
            append_str(&mut out, p.key.as_str());
            out.push('=');
            append_str(&mut out, p.value.as_str());
        }
        let s = string_of(out.as_slice());
        assert(s@ =~= rendered_param(params@[i as int]@, (encoded@[i as int].0@, encoded@[i as int].1@)));
        r.push(s);
    }
    r
}

/// The strings of `parts` joined by `sep`.
pub fn join_exec(parts: &Vec<String>, sep: &str) -> (r: Vec<char>)
    ensures
        r@ == join(strs_view(parts@), sep@),
{
    let mut out: Vec<char> = Vec::new();
    for i in 0..parts.len()
        invariant
            out@ == join(strs_view(parts@.take(i as int)), sep@),
    {
        let ghost prefix = strs_view(parts@.take(i + 1));
        assert(prefix.drop_last() =~= strs_view(parts@.take(i as int)));
        assert(prefix.last() == parts@[i as int]@);
        if i > 0 {
            append_str(&mut out, sep);
        } else {
            assert(strs_view(parts@.take(0)) =~= Seq::<Seq<char>>::empty());
        }
        append_str(&mut out, parts[i].as_str());
    }
    assert(parts@.take(parts@.len() as int) =~= parts@);
    out
}

/// `path`, then `?` and the parameters joined by `&` when there are any.
pub fn url_with_query(path: &str, rendered: &Vec<String>) -> (r: String)
    ensures
        r@ == with_query(path@, strs_view(rendered@)),
{
    let mut out = chars_of(path);
    if rendered.len() > 0 {
        out.push('?');
        proof {
            reveal_strlit("&");
        }
        assert("&"@ =~= seq!['&']);
        let j = join_exec(rendered, "&");
        append(&mut out, j.as_slice());
        assert(out@ =~= path@ + seq!['?'] + join(strs_view(rendered@), seq!['&']));
    }
    string_of(out.as_slice())
}

} // verus!
