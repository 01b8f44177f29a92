use std::collections::HashMap;
use vstd::prelude::*;
use crate::cookies::{pair_views, parse_cookies, spec_parse_cookies};

verus! {

/// What a request gave back.
pub struct Response {
    pub status: u16,
    pub headers: HashMap<String, String>,
    pub body: String,
    pub cookies: HashMap<String, String>,
    pub url: String,
}

/// A response header as received: its name, and its value where that is text.
pub type RawHeader = (String, Option<String>);

/// The headers whose values are text, in order, as name and value.
pub open spec fn spec_text_headers(raw: Seq<(Seq<char>, Option<Seq<char>>)>) -> Seq<
    (Seq<char>, Seq<char>),
>
    decreases raw.len(),
{
    if raw.len() == 0 {
        Seq::empty()
    } else {
        let front = spec_text_headers(raw.drop_last());
        match raw.last().1 {
            Some(v) => front.push((raw.last().0, v)),
            None => front,
        }
    }
}

/// Received headers as plain text.
pub open spec fn raw_views(raw: Seq<RawHeader>) -> Seq<(Seq<char>, Option<Seq<char>>)> {
    raw.map_values(
        |h: RawHeader|
            (
                h.0@,
                match h.1 {
                    Some(v) => Some(v@),
                    None => None,
                },
            ),
    )
}

/// The value of the first `set-cookie` header among `raw`, where there is one and it is text.
pub open spec fn spec_first_cookie_header(raw: Seq<(Seq<char>, Option<Seq<char>>)>) -> Option<
    Seq<char>,
>
    decreases raw.len(),
{
    if raw.len() == 0 {
        None
    } else if raw[0].0 == "set-cookie"@ {
        raw[0].1
    } else {
        spec_first_cookie_header(raw.drop_first())
    }
}

/// The cookies that a response's headers give: those of its first `set-cookie` header.
pub open spec fn spec_response_cookies(raw: Seq<(Seq<char>, Option<Seq<char>>)>) -> Seq<
    (Seq<char>, Seq<char>),
> {
    match spec_first_cookie_header(raw) {
        Some(v) => spec_parse_cookies(v),
        None => Seq::empty(),
    }
}

/// Keeps the headers whose values are text, in order; the others are dropped.
pub fn text_headers(raw: &Vec<RawHeader>) -> (r: Vec<(String, String)>)
    ensures
        pair_views(r@) == spec_text_headers(raw_views(raw@)),
{
    let mut out: Vec<(String, String)> = Vec::new();
    let mut i: usize = 0;
    assert(raw_views(raw@).take(0) =~= Seq::<(Seq<char>, Option<Seq<char>>)>::empty());
    assert(pair_views(out@) =~= Seq::<(Seq<char>, Seq<char>)>::empty());
    while i < raw.len()
        invariant
            i <= raw@.len(),
            pair_views(out@) == spec_text_headers(raw_views(raw@).take(i as int)),
        decreases raw@.len() - i,
    {
        let ghost before = out@;
        assert(raw_views(raw@).take(i + 1).drop_last() =~= raw_views(raw@).take(i as int));
        match &raw[i].1 {
            Some(v) => {
                out.push((raw[i].0.clone(), v.clone()));
                assert(pair_views(out@) =~= pair_views(before).push((raw[i as int].0@, v@)));
            },
            None => {},
        }
        i = i + 1;
    }
    assert(raw_views(raw@).take(raw@.len() as int) =~= raw_views(raw@));
    out
}

/// The value of the first `set-cookie` header, where there is one and it is text.
pub fn first_cookie_header(raw: &Vec<RawHeader>) -> (r: Option<String>)
    ensures
        match r {
            Some(v) => spec_first_cookie_header(raw_views(raw@)) == Some(v@),
            None => spec_first_cookie_header(raw_views(raw@)) is None,
        },
{
    let mut i: usize = 0;
    assert(raw_views(raw@).skip(0) =~= raw_views(raw@));
    while i < raw.len()
        invariant
            i <= raw@.len(),
            spec_first_cookie_header(raw_views(raw@)) == spec_first_cookie_header(
                raw_views(raw@).skip(i as int),
            ),
        decreases raw@.len() - i,
    {
        assert(raw_views(raw@).skip(i as int).drop_first() =~= raw_views(raw@).skip(i + 1));
        if raw[i].0 == "set-cookie".to_owned() {
            return match &raw[i].1 {
                Some(v) => Some(v.clone()),
                None => None,
            };
        }
        i = i + 1;
    }
    None
}

/// The cookies of a response: its first `set-cookie` header read by [`parse_cookies`];
/// none where there is no such header or its value is not text.
pub fn response_cookies(raw: &Vec<RawHeader>) -> (r: Vec<(String, String)>)
    ensures
        pair_views(r@) == spec_response_cookies(raw_views(raw@)),
{
    match first_cookie_header(raw) {
        Some(v) => parse_cookies(v.as_str()),
        None => {
            let r: Vec<(String, String)> = Vec::new();
            assert(pair_views(r@) =~= Seq::<(Seq<char>, Seq<char>)>::empty());
            r
        },
    }
}

} // verus!
