use vstd::prelude::*;

verus! {

/// What `str::to_uppercase` returns for a string.
pub uninterp spec fn upper_of(s: Seq<char>) -> Seq<char>;

/// Whether every character of `s` is an ASCII capital letter.
pub open spec fn all_ascii_capitals(s: Seq<char>) -> bool {
    forall|i: int| 0 <= i < s.len() ==> 'A' <= #[trigger] s[i] <= 'Z'
}

/// Relies on `str::to_uppercase`: the result depends on the characters alone, and a string of
/// ASCII capitals is its own uppercase form.
#[verifier::external_body]
fn to_upper(s: &str) -> (r: String)
    ensures
        r@ == upper_of(s@),
        all_ascii_capitals(s@) ==> r@ == s@,
{
    s.to_uppercase()
}

/// The request methods that can be sent.
#[derive(PartialEq, Eq, Structural, Clone, Copy, Debug)]
pub enum HttpMethod {
    Get,
    Post,
    Put,
    Delete,
    Patch,
    Head,
}

/// The method named by an uppercase method string, if it is one that can be sent.
pub open spec fn spec_method_of(upper: Seq<char>) -> Option<HttpMethod> {
    if upper == "GET"@ {
        Some(HttpMethod::Get)
    } else if upper == "POST"@ {
        Some(HttpMethod::Post)
    } else if upper == "PUT"@ {
        Some(HttpMethod::Put)
    } else if upper == "DELETE"@ {
        Some(HttpMethod::Delete)
    } else if upper == "PATCH"@ {
        Some(HttpMethod::Patch)
    } else if upper == "HEAD"@ {
        Some(HttpMethod::Head)
    } else {
        None
    }
}

/// A method string that names no method that can be sent.
pub struct UnsupportedMethodError {
    /// The method as the request gave it.
    pub method: String,
}

impl UnsupportedMethodError {
    /// The text of the error: `Unsupported HTTP method: <method>`.
    pub fn message(&self) -> (r: String)
        ensures
            r@ == "Unsupported HTTP method: "@ + self.method@,
    {
        "Unsupported HTTP method: ".to_owned().concat(self.method.as_str())
    }
}

impl HttpMethod {
    /// The method's name on the wire.
    pub fn as_str(&self) -> (r: &'static str)
        ensures
            spec_method_of(r@) == Some(*self),
    {
        let r = match self {
            HttpMethod::Get => "GET",
            HttpMethod::Post => "POST",
            HttpMethod::Put => "PUT",
            HttpMethod::Delete => "DELETE",
            HttpMethod::Patch => "PATCH",
            HttpMethod::Head => "HEAD",
        };
        proof {
            reveal_strlit("GET");
            reveal_strlit("POST");
            reveal_strlit("PUT");
            reveal_strlit("DELETE");
            reveal_strlit("PATCH");
            reveal_strlit("HEAD");
            assert("GET"@.len() == 3 && "PUT"@.len() == 3 && "POST"@.len() == 4);
            assert("HEAD"@.len() == 4 && "PATCH"@.len() == 5 && "DELETE"@.len() == 6);
            assert("GET"@[0] != "PUT"@[0] && "POST"@[0] != "HEAD"@[0]);
        }
        r
    }
}

fn is_literal(s: &String, lit: &str) -> (r: bool)
    ensures
        r == (s@ == lit@),
{
    *s == lit.to_owned()
}

/// Matches an uppercase method string against the methods that can be sent.
pub fn method_from_upper(upper: &String) -> (r: Option<HttpMethod>)
    ensures
        r == spec_method_of(upper@),
{
    if is_literal(upper, "GET") {
        Some(HttpMethod::Get)
    } else if is_literal(upper, "POST") {
        Some(HttpMethod::Post)
    } else if is_literal(upper, "PUT") {
        Some(HttpMethod::Put)
    } else if is_literal(upper, "DELETE") {
        Some(HttpMethod::Delete)
    } else if is_literal(upper, "PATCH") {
        Some(HttpMethod::Patch)
    } else if is_literal(upper, "HEAD") {
        Some(HttpMethod::Head)
    } else {
        None
    }
}

/// The uppercase form under which a method string is matched: `GET` for the empty string.
pub open spec fn spec_upper_method(method: Seq<char>) -> Seq<char> {
    if method.len() == 0 {
        "GET"@
    } else if all_ascii_capitals(method) {
        method
    } else {
        upper_of(method)
    }
}

/// An empty method is read exactly as `GET` is.
pub proof fn lemma_empty_method_is_get()
    ensures
        spec_upper_method(Seq::<char>::empty()) == spec_upper_method("GET"@),
        spec_method_of(spec_upper_method(Seq::<char>::empty())) == Some(HttpMethod::Get),
{
    reveal_strlit("GET");
    assert(all_ascii_capitals("GET"@));
}

/// Normalises a request's method: the empty string means `GET`; anything else is matched,
/// ignoring case, against `GET`, `POST`, `PUT`, `DELETE`, `PATCH` and `HEAD`. A method that
/// matches none of them is named, as given, by the error.
pub fn normalize_method(method: &str) -> (r: Result<HttpMethod, UnsupportedMethodError>)
    ensures
        match r {
            Ok(m) => spec_method_of(spec_upper_method(method@)) == Some(m),
            Err(e) => spec_method_of(spec_upper_method(method@)) is None && e.method@ == method@,
        },
{
    let upper = if method.is_empty() {
        proof {
            reveal_strlit("GET");
        }
        "GET".to_owned()
    } else {
        to_upper(method)
    };
    match method_from_upper(&upper) {
        Some(m) => Ok(m),
        None => Err(UnsupportedMethodError { method: method.to_owned() }),
    }
}

} // verus!
