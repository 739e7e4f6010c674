//! The header bundle of a job, and the headers of each request made from it.
//!
//! The caller's headers are forwarded as they are, except `Range`: that
//! header belongs to the engine, which asks for one byte when it probes and
//! for the bytes still missing when it fetches a range.

use vstd::prelude::*;
use vstd::string::StringExecFns;
use base64::Engine;
use crate::fetch::ByteSpan;
use crate::text::{
    append, chars_of, fold, folded, render_i64, signed_decimal, string_of, texts_of,
};
use crate::types::{AuthenticationInfo, HeaderData, HeaderEntry};

verus! {

/// One header of a request.
#[derive(Debug, Clone)]
pub struct RequestHeader {
    pub name: String,
    pub value: String,
}

/// A header as a pair of texts: its name and its value.
pub type HeaderText = (Seq<char>, Seq<char>);

/// The headers of a request as pairs of texts, in their order.
pub open spec fn header_texts(headers: Seq<RequestHeader>) -> Seq<HeaderText> {
    headers.map_values(|h: RequestHeader| (h.name@, h.value@))
}

/// Whether no name occurs twice among the entries.
pub open spec fn names_distinct(entries: Seq<HeaderEntry>) -> bool {
    forall|i: int, j: int|
        0 <= i < entries.len() && 0 <= j < entries.len() && i != j ==> (
        #[trigger] entries[i]).name@ != (#[trigger] entries[j]).name@
}

/// The position of the first entry called `name`, or the number of entries
/// if there is none.
pub open spec fn name_index(entries: Seq<HeaderEntry>, name: Seq<char>) -> int
    decreases entries.len(),
{
    if entries.len() == 0 {
        0
    } else if entries[0].name@ == name {
        0
    } else {
        1 + name_index(entries.drop_first(), name)
    }
}

/// What `name_index` gives is the first entry of the name.
pub proof fn lemma_name_index(entries: Seq<HeaderEntry>, name: Seq<char>)
    ensures
        0 <= name_index(entries, name) <= entries.len(),
        name_index(entries, name) < entries.len() ==> entries[name_index(entries, name)].name@
            == name,
        forall|k: int| 0 <= k < name_index(entries, name) ==> (#[trigger] entries[k]).name@ != name,
    decreases entries.len(),
{
    if entries.len() > 0 && entries[0].name@ != name {
        let rest = entries.drop_first();
        lemma_name_index(rest, name);
        assert forall|k: int| 0 <= k < name_index(entries, name) implies (
        #[trigger] entries[k]).name@ != name by {
            if k > 0 {
                assert(rest[k - 1] == entries[k]);
            }
        }
    }
}

/// The entries after `name` has been given `values`: the entry of that name
/// holds the new values, and where there was none, a new entry stands at
/// the end.
pub open spec fn with_header(entries: Seq<HeaderEntry>, name: String, values: Vec<String>) -> Seq<
    HeaderEntry,
> {
    let at = name_index(entries, name@);
    if at < entries.len() {
        entries.update(at, HeaderEntry { name: entries[at].name, values })
    } else {
        entries.push(HeaderEntry { name, values })
    }
}

/// Gives the header `name` the values `values`, in place of any that it had.
pub fn set_header(headers: &mut Vec<HeaderEntry>, name: String, values: Vec<String>)
    ensures
        final(headers)@ == with_header(old(headers)@, name, values),
        names_distinct(old(headers)@) ==> names_distinct(final(headers)@),
{
    let mut i: usize = 0;
    proof {
        lemma_name_index(headers@, name@);
    }
    while i < headers.len()
        invariant
            i <= headers.len(),
            headers@ == old(headers)@,
            forall|k: int| 0 <= k < i ==> (#[trigger] headers[k]).name@ != name@,
            name_index(headers@, name@) >= i,
        decreases headers.len() - i,
    {
        if headers[i].name == name {
            proof {
                lemma_name_index(headers@, name@);
            }
            let kept = headers[i].name.clone();
            headers.set(i, HeaderEntry { name: kept, values });
            return ;
        }
        proof {
            lemma_name_index(headers@, name@);
        }
        i = i + 1;
    }
    proof {
        lemma_name_index(headers@, name@);
    }
    headers.push(HeaderEntry { name, values });
}

/// The values that stand under `name`, if the entries hold that name.
pub fn header_values<'a>(headers: &'a Vec<HeaderEntry>, name: &String) -> (values: Option<
    &'a Vec<String>,
>)
    ensures
        match values {
            Some(v) => name_index(headers@, name@) < headers.len() && *v
                == headers[name_index(headers@, name@)].values,
            None => name_index(headers@, name@) == headers.len(),
        },
{
    let mut i: usize = 0;
    proof {
        lemma_name_index(headers@, name@);
    }
    while i < headers.len()
        invariant
            i <= headers.len(),
            forall|k: int| 0 <= k < i ==> (#[trigger] headers[k]).name@ != name@,
        decreases headers.len() - i,
    {
        if headers[i].name == *name {
            proof {
                lemma_name_index(headers@, name@);
            }
            return Some(&headers[i].values);
        }
        i = i + 1;
    }
    proof {
        lemma_name_index(headers@, name@);
    }
    None
}

/// Whether a header name is `Range`, in any mix of upper and lower case.
pub open spec fn is_range_name(name: Seq<char>) -> bool {
    folded(name) == "range"@
}

/// Whether a header name is `Range`, in any mix of upper and lower case.
pub fn names_range(name: &String) -> (yes: bool)
    ensures
        yes == is_range_name(name@),
{
    let low = string_of(&fold(&chars_of(name.as_str())));
    let range = String::from_str("range");
    low == range
}

/// The headers that one entry contributes: one for each of its values.
pub open spec fn entry_headers(name: Seq<char>, values: Seq<String>) -> Seq<HeaderText> {
    values.map_values(|v: String| (name, v@))
}

/// The caller's headers as they are forwarded: every value of every entry,
/// in order, but nothing of an entry called `Range`.
pub open spec fn forwarded(entries: Seq<HeaderEntry>) -> Seq<HeaderText>
    decreases entries.len(),
{
    if entries.len() == 0 {
        Seq::empty()
    } else {
        forwarded(entries.drop_last()) + if is_range_name(entries.last().name@) {
            Seq::<HeaderText>::empty()
        } else {
            entry_headers(entries.last().name@, entries.last().values@)
        }
    }
}

/// A header that is present if its value is.
pub open spec fn optional_header(name: Seq<char>, value: Option<Seq<char>>) -> Seq<HeaderText> {
    match value {
        Some(v) => seq![(name, v)],
        None => Seq::empty(),
    }
}

/// The headers that every request of a job carries: the forwarded ones,
/// then the cookies, then the authorization.
pub open spec fn common_headers(data: HeaderData, authorization: Option<Seq<char>>) -> Seq<
    HeaderText,
> {
    forwarded(data.headers@) + optional_header(
        "Cookie"@,
        match data.cookies {
            Some(c) => Some(c@),
            None => None,
        },
    ) + optional_header("Authorization"@, authorization)
}

/// The value of a `Range` header that asks for the bytes of `span`.
pub open spec fn range_value(span: ByteSpan) -> Seq<char> {
    "bytes="@ + signed_decimal(span.first as int) + "-"@ + signed_decimal(span.last as int)
}

/// The headers of a probe: the common ones, and a request for the first
/// byte alone.
pub open spec fn probe_headers(data: HeaderData, authorization: Option<Seq<char>>) -> Seq<
    HeaderText,
> {
    common_headers(data, authorization).push(("Range"@, "bytes=0-0"@))
}

/// The headers of the request for a range: the common ones and, where the
/// range has a known length, a request for the bytes that it still lacks.
pub open spec fn fetch_headers(
    data: HeaderData,
    authorization: Option<Seq<char>>,
    range: Option<ByteSpan>,
) -> Seq<HeaderText> {
    common_headers(data, authorization) + optional_header(
        "Range"@,
        match range {
            Some(span) => Some(range_value(span)),
            None => None,
        },
    )
}

/// Writes the value of a `Range` header that asks for the bytes of `span`.
pub fn range_header_value(span: ByteSpan) -> (value: String)
    ensures
        value@ == range_value(span),
{
    let mut text = chars_of("bytes=");
    append(&mut text, &render_i64(span.first));
    append(&mut text, &chars_of("-"));
    append(&mut text, &render_i64(span.last));
    string_of(&text)
}

fn common(data: &HeaderData, authorization: Option<&String>) -> (headers: Vec<RequestHeader>)
    ensures
        header_texts(headers@) == common_headers(
            *data,
            match authorization {
                Some(a) => Some(a@),
                None => None,
            },
        ),
{
    let mut headers: Vec<RequestHeader> = Vec::new();
    let mut i: usize = 0;
    assert(header_texts(headers@) =~= forwarded(data.headers@.take(0)));
    while i < data.headers.len()
        invariant
            i <= data.headers.len(),
            header_texts(headers@) == forwarded(data.headers@.take(i as int)),
        decreases data.headers.len() - i,
    {
        let entry = &data.headers[i];
        let ghost before = header_texts(headers@);
        assert(data.headers@.take(i + 1).drop_last() =~= data.headers@.take(i as int));
        assert(data.headers@.take(i + 1).last() == *entry);
        if !names_range(&entry.name) {
            let mut k: usize = 0;
            assert(before + entry_headers(entry.name@, entry.values@.take(0)) =~= before);
            while k < entry.values.len()
                invariant
                    k <= entry.values.len(),
                    header_texts(headers@) == before + entry_headers(
                        entry.name@,
                        entry.values@.take(k as int),
                    ),
                decreases entry.values.len() - k,
            {
                let ghost earlier = headers@;
                let header = RequestHeader {
                    name: entry.name.clone(),
                    value: entry.values[k].clone(),
                };
                headers.push(header);
                k = k + 1;
                assert(entry.values@.take(k as int) =~= entry.values@.take(k - 1).push(
                    entry.values@[k - 1],
                ));
                assert(header_texts(headers@) =~= header_texts(earlier).push(
                    (entry.name@, entry.values@[k - 1]@),
                ));
                assert(entry_headers(entry.name@, entry.values@.take(k as int))
                    =~= entry_headers(entry.name@, entry.values@.take(k - 1)).push(
                    (entry.name@, entry.values@[k - 1]@),
                ));
                assert(header_texts(headers@) =~= before + entry_headers(
                    entry.name@,
                    entry.values@.take(k as int),
                ));
            }
            assert(entry.values@.take(entry.values.len() as int) =~= entry.values@);
        } else {
            assert(before + Seq::<HeaderText>::empty() =~= before);
        }
        i = i + 1;
    }
    assert(data.headers@.take(data.headers.len() as int) =~= data.headers@);
    let ghost plain = header_texts(headers@);
    match &data.cookies {
        Some(cookies) => {
            headers.push(
                RequestHeader { name: String::from_str("Cookie"), value: cookies.clone() },
            );
            assert(header_texts(headers@) =~= plain + seq![("Cookie"@, cookies@)]);
        },
        None => {
            assert(header_texts(headers@) =~= plain + Seq::<HeaderText>::empty());
        },
    }
    let ghost with_cookies = header_texts(headers@);
    match authorization {
        Some(value) => {
            headers.push(
                RequestHeader { name: String::from_str("Authorization"), value: value.clone() },
            );
            assert(header_texts(headers@) =~= with_cookies + seq![("Authorization"@, value@)]);
        },
        None => {
            assert(header_texts(headers@) =~= with_cookies + Seq::<HeaderText>::empty());
        },
    }
    headers
}

/// The headers of the probe request.
pub fn probe_request_headers(data: &HeaderData, authorization: Option<&String>) -> (headers: Vec<
    RequestHeader,
>)
    ensures
        header_texts(headers@) == probe_headers(
            *data,
            match authorization {
                Some(a) => Some(a@),
                None => None,
            },
        ),
{
    let mut headers = common(data, authorization);
    let ghost before = header_texts(headers@);
    headers.push(
        RequestHeader { name: String::from_str("Range"), value: String::from_str("bytes=0-0") },
    );
    assert(header_texts(headers@) =~= before.push(("Range"@, "bytes=0-0"@)));
    headers
}

/// The headers of the request for a range.
pub fn fetch_request_headers(
    data: &HeaderData,
    authorization: Option<&String>,
    range: Option<ByteSpan>,
) -> (headers: Vec<RequestHeader>)
    ensures
        header_texts(headers@) == fetch_headers(
            *data,
            match authorization {
                Some(a) => Some(a@),
                None => None,
            },
            range,
        ),
{
    let mut headers = common(data, authorization);
    let ghost before = header_texts(headers@);
    match range {
        Some(span) => {
            let value = range_header_value(span);
            headers.push(RequestHeader { name: String::from_str("Range"), value });
            assert(header_texts(headers@) =~= before + seq![("Range"@, range_value(span))]);
        },
        None => {
            assert(header_texts(headers@) =~= before + Seq::<HeaderText>::empty());
        },
    }
    headers
}

/// The text that the standard Base64 alphabet, with padding, gives for
/// the UTF-8 bytes of `text`.
pub uninterp spec fn base64_standard(text: Seq<char>) -> Seq<char>;

/// `base64::engine::general_purpose::STANDARD.encode`: the Base64 text of
/// the bytes of `text`. The result depends on those bytes alone. The call
/// panics only where the length of the result overflows, which no string in
/// memory is long enough for.
#[verifier::external_body]
pub(crate) fn base64_encode(text: &str) -> (encoded: String)
    ensures
        encoded@ == base64_standard(text@),
{
    base64::engine::general_purpose::STANDARD.encode(text)
}

/// The value of a Basic `Authorization` header for credentials that are
/// already encoded.
pub fn authorization_value(encoded: &str) -> (value: String)
    ensures
        value@ == "Basic "@ + encoded@,
{
    String::from_str("Basic ").concat(encoded)
}

/// The credentials as they are encoded: the user name, a colon, the
/// password.
pub open spec fn credentials(auth: AuthenticationInfo) -> Seq<char> {
    auth.username@ + ":"@ + auth.password@
}

/// The value of the `Authorization` header, where credentials are set. It
/// is computed once for a job and used for every request.
pub fn precompute_auth(data: &HeaderData) -> (value: Option<String>)
    ensures
        match data.authentication {
            Some(auth) => value is Some && value->0@ == "Basic "@ + base64_standard(
                credentials(auth),
            ),
            None => value is None,
        },
{
    match &data.authentication {
        Some(auth) => {
            let text = auth.username.clone().concat(":").concat(auth.password.as_str());
            let encoded = base64_encode(text.as_str());
            Some(authorization_value(encoded.as_str()))
        },
        None => None,
    }
}

proof fn lemma_forwarded_has_no_range(entries: Seq<HeaderEntry>)
    ensures
        forall|k: int|
            0 <= k < forwarded(entries).len() ==> !is_range_name((#[trigger] forwarded(entries)[k]).0),
    decreases entries.len(),
{
    if entries.len() > 0 {
        lemma_forwarded_has_no_range(entries.drop_last());
        let before = forwarded(entries.drop_last());
        let last = entries.last();
        assert forall|k: int| 0 <= k < forwarded(entries).len() implies !is_range_name(
            (#[trigger] forwarded(entries)[k]).0,
        ) by {
            if k < before.len() {
                assert(forwarded(entries)[k] == before[k]);
            } else {
                assert(!is_range_name(last.name@));
                assert(forwarded(entries)[k] == entry_headers(last.name@, last.values@)[k
                    - before.len()]);
            }
        }
    }
}

/// The `Range` header belongs to the engine. Whatever the caller's headers
/// are, no header that is common to the requests of a job is called
/// `Range`, in any mix of upper and lower case: a request for a range
/// carries the one `Range` header that the engine adds as its last header,
/// and no other.
pub proof fn law_only_the_engine_sets_range(
    data: HeaderData,
    authorization: Option<Seq<char>>,
    range: Option<ByteSpan>,
)
    ensures
        forall|k: int|
            0 <= k < common_headers(data, authorization).len() ==> !is_range_name(
                (#[trigger] common_headers(data, authorization)[k]).0,
            ),
        fetch_headers(data, authorization, range).len() == common_headers(
            data,
            authorization,
        ).len() + if range is Some {
            1int
        } else {
            0int
        },
        range is Some ==> fetch_headers(data, authorization, range).last() == (
            "Range"@,
            range_value(range->0),
        ),
{
    reveal_strlit("Cookie");
    reveal_strlit("Authorization");
    reveal_strlit("range");
    lemma_forwarded_has_no_range(data.headers@);
    let plain = forwarded(data.headers@);
    let common = common_headers(data, authorization);
    assert(folded("Cookie"@).len() == 6);
    assert(folded("Authorization"@).len() == 13);
    assert forall|k: int| 0 <= k < common.len() implies !is_range_name((#[trigger] common[k]).0) by {
        if k < plain.len() {
            assert(common[k] == plain[k]);
        } else {
            assert(common[k].0 == "Cookie"@ || common[k].0 == "Authorization"@);
        }
    }
}

/// A header name with the texts of the values under it.
pub type NamedValues = (Seq<char>, Seq<Seq<char>>);

/// The entries as names with the texts under them.
pub open spec fn entry_texts(entries: Seq<HeaderEntry>) -> Seq<NamedValues> {
    entries.map_values(|e: HeaderEntry| (e.name@, texts_of(e.values@)))
}

/// The position of the first pair called `name`, or the number of pairs if
/// there is none.
pub open spec fn pair_index(pairs: Seq<NamedValues>, name: Seq<char>) -> int
    decreases pairs.len(),
{
    if pairs.len() == 0 {
        0
    } else if pairs[0].0 == name {
        0
    } else {
        1 + pair_index(pairs.drop_first(), name)
    }
}

/// The pairs after `name` has been given `values`: in the place of the
/// values that it had, or at the end.
pub open spec fn with_pair(pairs: Seq<NamedValues>, name: Seq<char>, values: Seq<Seq<char>>) -> Seq<
    NamedValues,
> {
    let at = pair_index(pairs, name);
    if at < pairs.len() {
        pairs.update(at, (name, values))
    } else {
        pairs.push((name, values))
    }
}

/// The pairs after each of `more` has been set, in order.
pub open spec fn with_pairs(pairs: Seq<NamedValues>, more: Seq<NamedValues>) -> Seq<NamedValues>
    decreases more.len(),
{
    if more.len() == 0 {
        pairs
    } else {
        with_pair(with_pairs(pairs, more.drop_last()), more.last().0, more.last().1)
    }
}

/// The pairs after `name` has been given the one value `value`, if there
/// is one.
pub open spec fn with_optional_pair(
    pairs: Seq<NamedValues>,
    name: Seq<char>,
    value: Option<Seq<char>>,
) -> Seq<NamedValues> {
    match value {
        Some(v) => with_pair(pairs, name, seq![v]),
        None => pairs,
    }
}

/// The place of a name among the texts is its place among the entries.
pub proof fn lemma_pair_index(entries: Seq<HeaderEntry>, name: Seq<char>)
    ensures
        pair_index(entry_texts(entries), name) == name_index(entries, name),
    decreases entries.len(),
{
    if entries.len() > 0 {
        assert(entry_texts(entries).drop_first() =~= entry_texts(entries.drop_first()));
        lemma_pair_index(entries.drop_first(), name);
    }
}

/// Setting a header does to the texts what `with_pair` says.
pub proof fn lemma_with_header_texts(entries: Seq<HeaderEntry>, name: String, values: Vec<String>)
    ensures
        entry_texts(with_header(entries, name, values)) == with_pair(
            entry_texts(entries),
            name@,
            texts_of(values@),
        ),
{
    lemma_pair_index(entries, name@);
    lemma_name_index(entries, name@);
    assert(entry_texts(with_header(entries, name, values)) =~= with_pair(
        entry_texts(entries),
        name@,
        texts_of(values@),
    ));
}

} // verus!
