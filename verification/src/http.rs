//! The HTTP messages as the pipeline sees them: a status, a list of headers
//! and the buffered body. Header names are compared without regard to ASCII
//! case.

use vstd::prelude::*;
use crate::text::{canonical, same_ignoring_case};

verus! {

/// One header line.
#[derive(Debug)]
pub struct Header {
    pub name: String,
    pub value: String,
}

/// What a [`Header`] is, mathematically.
pub struct HeaderView {
    pub name: Seq<char>,
    pub value: Seq<char>,
}

impl View for Header {
    type V = HeaderView;

    open spec fn view(&self) -> HeaderView {
        HeaderView { name: self.name@, value: self.value@ }
    }
}

impl Clone for Header {
    fn clone(&self) -> (copy: Self)
        ensures
            copy@ == self@,
    {
        Header { name: self.name.clone(), value: self.value.clone() }
    }
}

/// A response: status code, headers and the whole body.
#[derive(Debug)]
pub struct HttpResponse {
    pub status: u16,
    pub headers: Vec<Header>,
    pub body: Vec<u8>,
}

/// What an [`HttpResponse`] is, mathematically.
pub struct ResponseView {
    pub status: u16,
    pub headers: Seq<HeaderView>,
    pub body: Seq<u8>,
}

impl View for HttpResponse {
    type V = ResponseView;

    open spec fn view(&self) -> ResponseView {
        ResponseView {
            status: self.status,
            headers: header_views(self.headers@),
            body: self.body@,
        }
    }
}

/// The head of a client request: method, path, path with query, headers,
/// and the address and scheme it came in by. The body streams past the
/// pipeline.
#[derive(Debug)]
pub struct HttpRequest {
    pub method: String,
    pub path: String,
    pub path_and_query: Option<String>,
    pub headers: Vec<Header>,
    pub client_ip: Option<String>,
    pub scheme: String,
}

/// The head of the request that goes upstream.
#[derive(Debug)]
pub struct UpstreamRequest {
    pub method: String,
    pub uri: String,
    pub headers: Vec<Header>,
}

/// A list of headers as the model sees it.
pub open spec fn header_views(headers: Seq<Header>) -> Seq<HeaderView> {
    Seq::new(headers.len(), |j: int| headers[j]@)
}

/// Whether a header is named `name`, without regard to ASCII case.
pub open spec fn is_named(header: HeaderView, name: Seq<char>) -> bool {
    canonical(header.name) == canonical(name)
}

/// Whether some header is named `name`.
pub open spec fn has_header(headers: Seq<HeaderView>, name: Seq<char>) -> bool {
    exists|j: int| 0 <= j < headers.len() && is_named(#[trigger] headers[j], name)
}

/// The value of the first header named `name`, at or after `from`; names
/// count without regard to ASCII case.
pub open spec fn first_value_from(headers: Seq<HeaderView>, name: Seq<char>, from: int) -> Option<
    Seq<char>,
>
    decreases headers.len() - from,
{
    if from < 0 || from >= headers.len() {
        None
    } else if is_named(headers[from], name) {
        Some(headers[from].value)
    } else {
        first_value_from(headers, name, from + 1)
    }
}

/// The value of the first header named `name`.
pub open spec fn first_value(headers: Seq<HeaderView>, name: Seq<char>) -> Option<Seq<char>> {
    first_value_from(headers, name, 0)
}

/// The headers that are not named `name`, in order; names count without
/// regard to ASCII case.
pub open spec fn without(headers: Seq<HeaderView>, name: Seq<char>) -> Seq<HeaderView>
    decreases headers.len(),
{
    if headers.len() == 0 {
        Seq::empty()
    } else if is_named(headers.last(), name) {
        without(headers.drop_last(), name)
    } else {
        without(headers.drop_last(), name).push(headers.last())
    }
}

/// The headers with `name` set to `value`: every header of that name is
/// dropped and one is added at the end.
pub open spec fn with_header(headers: Seq<HeaderView>, name: Seq<char>, value: Seq<char>) -> Seq<
    HeaderView,
> {
    without(headers, name).push(HeaderView { name, value })
}

/// A header named `name` exists exactly when a first value does.
pub proof fn lemma_first_value_exists(headers: Seq<HeaderView>, name: Seq<char>, from: int)
    requires
        0 <= from,
    ensures
        first_value_from(headers, name, from) is Some <==> exists|j: int|
            from <= j < headers.len() && is_named(#[trigger] headers[j], name),
    decreases headers.len() - from,
{
    if from < headers.len() {
        lemma_first_value_exists(headers, name, from + 1);
        if !is_named(headers[from], name) {
            if exists|j: int| from <= j < headers.len() && is_named(#[trigger] headers[j], name) {
                let j = choose|j: int|
                    from <= j < headers.len() && is_named(#[trigger] headers[j], name);
                assert(from + 1 <= j);
            }
        }
    }
}

/// Dropping the headers of one name keeps the headers of every other name.
pub proof fn lemma_without_keeps(headers: Seq<HeaderView>, dropped: Seq<char>, name: Seq<char>)
    requires
        canonical(dropped) != canonical(name),
    ensures
        has_header(without(headers, dropped), name) == has_header(headers, name),
        !has_header(without(headers, dropped), dropped),
    decreases headers.len(),
{
    if headers.len() > 0 {
        let shorter = headers.drop_last();
        let last = headers.last();
        lemma_without_keeps(shorter, dropped, name);
        let kept = without(shorter, dropped);
        let now = without(headers, dropped);
        if has_header(headers, name) {
            let j = choose|j: int| 0 <= j < headers.len() && is_named(#[trigger] headers[j], name);
            if j < shorter.len() {
                assert(is_named(shorter[j], name));
                let k = choose|k: int| 0 <= k < kept.len() && is_named(#[trigger] kept[k], name);
                if !is_named(last, dropped) {
                    assert(now[k] == kept[k]);
                }
                assert(is_named(now[k], name));
            } else {
                assert(is_named(last, name));
                assert(now[kept.len() as int] == last);
            }
        }
        if has_header(now, name) {
            let k = choose|k: int| 0 <= k < now.len() && is_named(#[trigger] now[k], name);
            if !is_named(last, dropped) && k == kept.len() {
                assert(is_named(headers[headers.len() - 1], name));
            } else {
                assert(is_named(kept[k], name));
                let j = choose|j: int|
                    0 <= j < shorter.len() && is_named(#[trigger] shorter[j], name);
                assert(headers[j] == shorter[j]);
            }
        }
        if has_header(now, dropped) {
            let k = choose|k: int| 0 <= k < now.len() && is_named(#[trigger] now[k], dropped);
            assert(is_named(kept[k], dropped));
        }
    }
}

/// The position of the first header named `name`.
pub fn find_header(headers: &Vec<Header>, name: &str) -> (found: Option<usize>)
    ensures
        match found {
            Some(index) => {
                &&& index < headers@.len()
                &&& is_named(headers@[index as int]@, name@)
                &&& first_value(header_views(headers@), name@) == Some(
                    headers@[index as int].value@,
                )
            },
            None => first_value(header_views(headers@), name@) is None,
        },
        found is Some == has_header(header_views(headers@), name@),
{
    let ghost model = header_views(headers@);
    proof {
        lemma_first_value_exists(model, name@, 0);
    }
    let mut j: usize = 0;
    while j < headers.len()
        invariant
            0 <= j <= headers@.len(),
            model == header_views(headers@),
            first_value_from(model, name@, 0) == first_value_from(model, name@, j as int),
        decreases headers@.len() - j,
    {
        proof {
            assert(model[j as int] == headers@[j as int]@);
        }
        if same_ignoring_case(headers[j].name.as_str(), name) {
            return Some(j);
        }
        j += 1;
    }
    None
}

/// Drops every header named `name`.
pub fn remove_header(headers: &mut Vec<Header>, name: &str)
    ensures
        header_views(final(headers)@) == without(header_views(old(headers)@), name@),
{
    let ghost model = header_views(headers@);
    let mut kept: Vec<Header> = Vec::new();
    let mut j: usize = 0;
    proof {
        assert(header_views(kept@) =~= without(model.take(0), name@));
    }
    while j < headers.len()
        invariant
            0 <= j <= headers@.len(),
            model == header_views(headers@),
            header_views(kept@) == without(model.take(j as int), name@),
        decreases headers@.len() - j,
    {
        proof {
            assert(model.take(j + 1).drop_last() =~= model.take(j as int));
            assert(model.take(j + 1).last() == headers@[j as int]@);
        }
        if !same_ignoring_case(headers[j].name.as_str(), name) {
            let copy = headers[j].clone();
            proof {
                assert(header_views(kept@.push(copy)) =~= header_views(kept@).push(copy@));
            }
            kept.push(copy);
        }
        j += 1;
    }
    proof {
        assert(model.take(j as int) =~= model);
    }
    *headers = kept;
}

/// Sets `name` to `value`, in place of every header of that name.
pub fn set_header(headers: &mut Vec<Header>, name: &str, value: &str)
    ensures
        header_views(final(headers)@) == with_header(header_views(old(headers)@), name@, value@),
{
    remove_header(headers, name);
    let header = Header { name: name.to_owned(), value: value.to_owned() };
    proof {
        assert(header_views(headers@.push(header)) =~= header_views(headers@).push(header@));
    }
    headers.push(header);
}

} // verus!
