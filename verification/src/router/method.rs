//! HTTP methods a route can be registered for.
use vstd::prelude::*;
use vstd::string::*;

use crate::text::{lemma_ascii_encode, str_bytes, str_equal};

verus! {

/// An HTTP method.
#[derive(Clone, Copy, Debug, PartialEq, Eq, Hash, Structural)]
pub enum Method {
    GET,
    POST,
    PUT,
    PATCH,
    DELETE,
    HEAD,
    OPTIONS,
}

/// The error of parsing a method name that is none of the known ones.
#[derive(Debug, PartialEq, Eq, Structural)]
pub struct InvalidMethod;

/// The position of a method in the routing tables.
pub open spec fn method_index(m: Method) -> nat {
    match m {
        Method::GET => 0,
        Method::POST => 1,
        Method::PUT => 2,
        Method::PATCH => 3,
        Method::DELETE => 4,
        Method::HEAD => 5,
        Method::OPTIONS => 6,
    }
}

/// The name of a method.
pub open spec fn method_name(m: Method) -> Seq<char> {
    match m {
        Method::GET => "GET"@,
        Method::POST => "POST"@,
        Method::PUT => "PUT"@,
        Method::PATCH => "PATCH"@,
        Method::DELETE => "DELETE"@,
        Method::HEAD => "HEAD"@,
        Method::OPTIONS => "OPTIONS"@,
    }
}

/// The method a name (in bytes, exact case) denotes, if any.
pub open spec fn method_of(name: Seq<u8>) -> Option<Method> {
    if name == "GET".spec_bytes() {
        Some(Method::GET)
    } else if name == "POST".spec_bytes() {
        Some(Method::POST)
    } else if name == "PUT".spec_bytes() {
        Some(Method::PUT)
    } else if name == "PATCH".spec_bytes() {
        Some(Method::PATCH)
    } else if name == "DELETE".spec_bytes() {
        Some(Method::DELETE)
    } else if name == "HEAD".spec_bytes() {
        Some(Method::HEAD)
    } else if name == "OPTIONS".spec_bytes() {
        Some(Method::OPTIONS)
    } else {
        None
    }
}

/// The bytes of each method name, spelled out.
proof fn lemma_method_names()
    ensures
        "GET".spec_bytes() == seq![71u8, 69u8, 84u8],
        "POST".spec_bytes() == seq![80u8, 79u8, 83u8, 84u8],
        "PUT".spec_bytes() == seq![80u8, 85u8, 84u8],
        "PATCH".spec_bytes() == seq![80u8, 65u8, 84u8, 67u8, 72u8],
        "DELETE".spec_bytes() == seq![68u8, 69u8, 76u8, 69u8, 84u8, 69u8],
        "HEAD".spec_bytes() == seq![72u8, 69u8, 65u8, 68u8],
        "OPTIONS".spec_bytes() == seq![79u8, 80u8, 84u8, 73u8, 79u8, 78u8, 83u8],
{
    reveal_strlit("GET");
    reveal_strlit("POST");
    reveal_strlit("PUT");
    reveal_strlit("PATCH");
    reveal_strlit("DELETE");
    reveal_strlit("HEAD");
    reveal_strlit("OPTIONS");
    lemma_ascii_encode("GET"@);
    lemma_ascii_encode("POST"@);
    lemma_ascii_encode("PUT"@);
    lemma_ascii_encode("PATCH"@);
    lemma_ascii_encode("DELETE"@);
    lemma_ascii_encode("HEAD"@);
    lemma_ascii_encode("OPTIONS"@);
    assert("GET".spec_bytes() =~= seq![71u8, 69u8, 84u8]);
    assert("POST".spec_bytes() =~= seq![80u8, 79u8, 83u8, 84u8]);
    assert("PUT".spec_bytes() =~= seq![80u8, 85u8, 84u8]);
    assert("PATCH".spec_bytes() =~= seq![80u8, 65u8, 84u8, 67u8, 72u8]);
    assert("DELETE".spec_bytes() =~= seq![68u8, 69u8, 76u8, 69u8, 84u8, 69u8]);
    assert("HEAD".spec_bytes() =~= seq![72u8, 69u8, 65u8, 68u8]);
    assert("OPTIONS".spec_bytes() =~= seq![79u8, 80u8, 84u8, 73u8, 79u8, 78u8, 83u8]);
}

/// A method's name parses back to that method.
pub proof fn law_method_name_roundtrip(m: Method)
    ensures
        method_of(str_bytes(method_name(m))) == Some(m),
{
    lemma_method_names();
    match m {
        Method::PUT => {
            assert(seq![80u8, 85u8, 84u8][0] != seq![71u8, 69u8, 84u8][0]);
        },
        Method::HEAD => {
            assert(seq![72u8, 69u8, 65u8, 68u8][1] != seq![80u8, 79u8, 83u8, 84u8][1]);
        },
        _ => {},
    }
}

/// Distinct methods use distinct slots of the routing tables.
pub proof fn law_method_index_distinct(a: Method, b: Method)
    ensures
        method_index(a) == method_index(b) ==> a == b,
{
}

impl Method {
    /// The position of the method in the routing tables.
    pub fn index(self) -> (r: usize)
        ensures
            r == method_index(self),
            r < 7,
    {
        match self {
            Method::GET => 0,
            Method::POST => 1,
            Method::PUT => 2,
            Method::PATCH => 3,
            Method::DELETE => 4,
            Method::HEAD => 5,
            Method::OPTIONS => 6,
        }
    }

    /// The method's name, as it appears in a request line.
    pub fn as_str(&self) -> (r: &'static str)
        ensures
            r@ == method_name(*self),
    {
        match self {
            Method::GET => "GET",
            Method::POST => "POST",
            Method::PUT => "PUT",
            Method::PATCH => "PATCH",
            Method::DELETE => "DELETE",
            Method::HEAD => "HEAD",
            Method::OPTIONS => "OPTIONS",
        }
    }

    /// Parses a method name; names are case-sensitive.
    pub fn parse_name(s: &str) -> (r: Result<Method, InvalidMethod>)
        ensures
            match r {
                Ok(m) => method_of(s.spec_bytes()) == Some(m),
                Err(_) => method_of(s.spec_bytes()) is None,
            },
    {
        if str_equal(s, "GET") {
            Ok(Method::GET)
        } else if str_equal(s, "POST") {
            Ok(Method::POST)
        } else if str_equal(s, "PUT") {
            Ok(Method::PUT)
        } else if str_equal(s, "PATCH") {
            Ok(Method::PATCH)
        } else if str_equal(s, "DELETE") {
            Ok(Method::DELETE)
        } else if str_equal(s, "HEAD") {
            Ok(Method::HEAD)
        } else if str_equal(s, "OPTIONS") {
            Ok(Method::OPTIONS)
        } else {
            Err(InvalidMethod)
        }
    }
}

impl std::str::FromStr for Method {
    type Err = InvalidMethod;

    fn from_str(s: &str) -> (r: Result<Self, Self::Err>)
        ensures
            match r {
                Ok(m) => method_of(s.spec_bytes()) == Some(m),
                Err(_) => method_of(s.spec_bytes()) is None,
            },
    {
        Method::parse_name(s)
    }
}

} // verus!
