//! HTTP request methods, as the routing and retry rules read them.

use vstd::prelude::*;

verus! {

/// An HTTP request method.  The standard methods have a variant each; any
/// other method is held by its name.
#[allow(non_camel_case_types)]
#[derive(Clone, Debug, PartialEq, Eq, Hash)]
pub enum Method {
    GET,
    HEAD,
    POST,
    PUT,
    DELETE,
    CONNECT,
    OPTIONS,
    TRACE,
    PATCH,
    Extension(String),
}

impl View for Method {
    /// The method's name.
    type V = Seq<char>;

    open spec fn view(&self) -> Seq<char> {
        match self {
            Method::GET => "GET"@,
            Method::HEAD => "HEAD"@,
            Method::POST => "POST"@,
            Method::PUT => "PUT"@,
            Method::DELETE => "DELETE"@,
            Method::CONNECT => "CONNECT"@,
            Method::OPTIONS => "OPTIONS"@,
            Method::TRACE => "TRACE"@,
            Method::PATCH => "PATCH"@,
            Method::Extension(name) => name@,
        }
    }
}

/// Whether two methods are the same variant (and, for other methods, have
/// the same name).
pub open spec fn same_method(a: Method, b: Method) -> bool {
    match (a, b) {
        (Method::Extension(x), Method::Extension(y)) => x@ == y@,
        (Method::Extension(_), _) => false,
        (_, Method::Extension(_)) => false,
        _ => a == b,
    }
}

impl Method {
    /// Compares two methods as `same_method` says.
    pub fn same_as(&self, other: &Method) -> (b: bool)
        ensures
            b == same_method(*self, *other),
    {
        match (self, other) {
            (Method::Extension(x), Method::Extension(y)) => x.eq(y),
            (Method::Extension(_), _) => false,
            (_, Method::Extension(_)) => false,
            (Method::GET, Method::GET) => true,
            (Method::HEAD, Method::HEAD) => true,
            (Method::POST, Method::POST) => true,
            (Method::PUT, Method::PUT) => true,
            (Method::DELETE, Method::DELETE) => true,
            (Method::CONNECT, Method::CONNECT) => true,
            (Method::OPTIONS, Method::OPTIONS) => true,
            (Method::TRACE, Method::TRACE) => true,
            (Method::PATCH, Method::PATCH) => true,
            _ => false,
        }
    }
}

/// Whether `list` holds a method that is the same as `m`.
pub open spec fn holds_method(list: Seq<Method>, m: Method) -> bool {
    exists|i: int| 0 <= i < list.len() && same_method(#[trigger] list[i], m)
}

/// Looks for `m` in `list`.
pub fn contains_method(list: &Vec<Method>, m: &Method) -> (b: bool)
    ensures
        b == holds_method(list@, *m),
{
    let mut i: usize = 0;
    while i < list.len()
        invariant
            i <= list.len(),
            forall|j: int| 0 <= j < i ==> !same_method(#[trigger] list@[j], *m),
        decreases list.len() - i,
    {
        if list[i].same_as(m) {
            return true;
        }
        i = i + 1;
    }
    false
}

} // verus!
