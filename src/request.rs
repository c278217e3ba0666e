//! The parts of an HTTP request that signing and verification read: method,
//! path, query and header fields.
use vstd::prelude::*;
use vstd::string::StringSliceAdditionalSpecFns;

verus! {

/// ASCII lower case of one character; other characters stay.
pub open spec fn ascii_lower(c: char) -> char {
    if 65 <= (c as u32) <= 90 {
        ((c as u32) + 32) as char
    } else {
        c
    }
}

/// Header names are compared without regard to ASCII case.
pub open spec fn names_match(a: Seq<char>, b: Seq<char>) -> bool {
    a.len() == b.len() && forall|i: int| 0 <= i < a.len() ==> ascii_lower(a[i]) == ascii_lower(b[i])
}

/// The value of the first header named `name`.
pub open spec fn first_match(hs: Seq<(Seq<char>, Seq<u8>)>, name: Seq<char>) -> Option<Seq<u8>>
    decreases hs.len(),
{
    if hs.len() == 0 {
        None
    } else if names_match(hs[0].0, name) {
        Some(hs[0].1)
    } else {
        first_match(hs.drop_first(), name)
    }
}

/// Bytes that a header value may show as text: visible ASCII and tab.
pub open spec fn is_visible_ascii(b: u8) -> bool {
    (32 <= b < 127) || b == 9
}

/// A header value as text, where all its bytes are visible ASCII.
pub open spec fn header_text(b: Seq<u8>) -> Option<Seq<char>> {
    if forall|i: int| 0 <= i < b.len() ==> is_visible_ascii(#[trigger] b[i]) {
        Some(b.map_values(|x: u8| x as char))
    } else {
        None
    }
}

/// Bytes that a header value may hold: all but control characters, tab
/// allowed.
pub open spec fn is_header_byte(b: u8) -> bool {
    (32 <= b && b != 127) || b == 9
}

/// A request as plain values.
pub struct RequestView {
    pub method: Seq<char>,
    pub path: Seq<char>,
    pub query: Option<Seq<char>>,
    pub headers: Seq<(Seq<char>, Seq<u8>)>,
}

pub open spec fn header_pairs_view(v: Seq<(String, Vec<u8>)>) -> Seq<(Seq<char>, Seq<u8>)> {
    v.map_values(|p: (String, Vec<u8>)| (p.0@, p.1@))
}

/// The parts of an HTTP request that a signature covers.
pub struct Request {
    pub method: String,
    pub path: String,
    pub query: Option<String>,
    /// Header fields in order; a name may occur more than once.
    pub headers: Vec<(String, Vec<u8>)>,
}

impl View for Request {
    type V = RequestView;

    open spec fn view(&self) -> RequestView {
        RequestView {
            method: self.method@,
            path: self.path@,
            query: match self.query {
                Some(q) => Some(q@),
                None => None,
            },
            headers: header_pairs_view(self.headers@),
        }
    }
}

fn ascii_lower_char(c: char) -> (r: char)
    ensures
        r == ascii_lower(c),
{
    let u = c as u32;
    if 65 <= u && u <= 90 {
        ((u + 32) as u8) as char
    } else {
        c
    }
}

/// Whether two names are equal without regard to ASCII case.
pub fn eq_ignore_ascii_case(a: &str, b: &str) -> (r: bool)
    ensures
        r == names_match(a@, b@),
{
    let n = a.unicode_len();
    if n != b.unicode_len() {
        return false;
    }
    let mut i: usize = 0;
    while i < n
        invariant
            n == a@.len(),
            n == b@.len(),
            i <= n,
            forall|j: int| 0 <= j < i ==> ascii_lower(a@[j]) == ascii_lower(b@[j]),
        decreases n - i,
    {
        if ascii_lower_char(a.get_char(i)) != ascii_lower_char(b.get_char(i)) {
            return false;
        }
        i += 1;
    }
    true
}

/// The text of a header value, where its bytes are all visible ASCII.
pub fn to_text(b: &[u8]) -> (r: Option<String>)
    ensures
        match header_text(b@) {
            Some(t) => r matches Some(s) && s@ == t,
            None => r is None,
        },
{
    let mut s = String::new();
    let mut i: usize = 0;
    while i < b.len()
        invariant
            i <= b@.len(),
            s@ == b@.subrange(0, i as int).map_values(|x: u8| x as char),
            forall|j: int| 0 <= j < i ==> is_visible_ascii(#[trigger] b@[j]),
        decreases b@.len() - i,
    {
        let x = b[i];
        if !((32 <= x && x < 127) || x == 9) {
            return None;
        }
        crate::text::push_char(&mut s, x as char);
        i += 1;
        proof {
            assert(s@ =~= b@.subrange(0, i as int).map_values(|x: u8| x as char));
        }
    }
    proof {
        assert(b@.subrange(0, b@.len() as int) =~= b@);
    }
    Some(s)
}

/// The value of the first header named `name`, without regard to ASCII
/// case.
pub fn find_header<'a>(hs: &'a Vec<(String, Vec<u8>)>, name: &str) -> (r: Option<&'a Vec<u8>>)
    ensures
        match first_match(header_pairs_view(hs@), name@) {
            Some(v) => r matches Some(x) && x@ == v,
            None => r is None,
        },
{
    let ghost v = header_pairs_view(hs@);
    let mut i: usize = 0;
    proof {
        assert(v.subrange(0, v.len() as int) =~= v);
    }
    while i < hs.len()
        invariant
            v == header_pairs_view(hs@),
            i <= v.len(),
            first_match(v, name@) == first_match(v.subrange(i as int, v.len() as int), name@),
        decreases v.len() - i,
    {
        proof {
            let rest = v.subrange(i as int, v.len() as int);
            assert(rest.drop_first() =~= v.subrange(i as int + 1, v.len() as int));
            assert(rest[0] == v[i as int]);
        }
        if eq_ignore_ascii_case(hs[i].0.as_str(), name) {
            return Some(&hs[i].1);
        }
        i += 1;
    }
    None
}

impl Request {
    /// A request with the given method, path and query, and no header.
    pub fn new(method: &str, path: &str, query: Option<&str>) -> (r: Request)
        ensures
            r@.method == method@,
            r@.path == path@,
            r@.query == match query {
                Some(q) => Some(q@),
                None => None::<Seq<char>>,
            },
            r@.headers == Seq::<(Seq<char>, Seq<u8>)>::empty(),
    {
        let query = match query {
            Some(q) => Some(q.to_owned()),
            None => None,
        };
        let r = Request {
            method: method.to_owned(),
            path: path.to_owned(),
            query,
            headers: Vec::new(),
        };
        proof {
            assert(r@.headers =~= Seq::<(Seq<char>, Seq<u8>)>::empty());
        }
        r
    }

    /// The request with one more header field, whose value is the UTF-8 of
    /// `value`.
    pub fn header(self, name: &str, value: &str) -> (r: Request)
        ensures
            r@ == (RequestView {
                headers: self@.headers.push((name@, value.spec_bytes())),
                ..self@
            }),
    {
        let mut r = self;
        let ghost before = r@.headers;
        r.headers.push((name.to_owned(), vstd::slice::slice_to_vec(value.as_bytes())));
        proof {
            assert(r@.headers =~= before.push((name@, value.spec_bytes())));
        }
        r
    }

    /// The value of the first header named `name`, without regard to ASCII
    /// case.
    pub fn get(&self, name: &str) -> (r: Option<&Vec<u8>>)
        ensures
            match first_match(self@.headers, name@) {
                Some(v) => r matches Some(x) && x@ == v,
                None => r is None,
            },
    {
        find_header(&self.headers, name)
    }

    /// Set the header `name` to `value`: every field of that name, without
    /// regard to ASCII case, gives way to one new field at the end.
    pub fn insert(&mut self, name: &str, value: Vec<u8>)
        ensures
            final(self)@.method == old(self)@.method,
            final(self)@.path == old(self)@.path,
            final(self)@.query == old(self)@.query,
            final(self)@.headers == old(self)@.headers.filter(
                |p: (Seq<char>, Seq<u8>)| !names_match(p.0, name@),
            ).push((name@, value@)),
    {
        let ghost hs = old(self)@.headers;
        let mut kept: Vec<(String, Vec<u8>)> = Vec::new();
        let mut i: usize = 0;
        let ghost keep = |p: (Seq<char>, Seq<u8>)| !names_match(p.0, name@);
        proof {
            assert(hs.subrange(0, 0).filter(keep) =~= seq![]);
            assert(header_pairs_view(kept@) =~= seq![]);
        }
        while i < self.headers.len()
            invariant
                hs == self@.headers,
                keep == (|p: (Seq<char>, Seq<u8>)| !names_match(p.0, name@)),
                i <= hs.len(),
                header_pairs_view(kept@) == hs.subrange(0, i as int).filter(keep),
            decreases hs.len() - i,
        {
            proof {
                assert(hs.subrange(0, i as int + 1).drop_last() =~= hs.subrange(0, i as int));
                assert(hs.subrange(0, i as int + 1).filter(keep) == if keep(hs[i as int]) {
                    hs.subrange(0, i as int).filter(keep).push(hs[i as int])
                } else {
                    hs.subrange(0, i as int).filter(keep)
                }) by {
                    reveal(Seq::filter);
                }
            }
            if !eq_ignore_ascii_case(self.headers[i].0.as_str(), name) {
                let ghost before = header_pairs_view(kept@);
                kept.push((self.headers[i].0.clone(), self.headers[i].1.clone()));
                proof {
                    assert(header_pairs_view(kept@) =~= before.push(hs[i as int]));
                }
            }
            i += 1;
        }
        proof {
            assert(hs.subrange(0, hs.len() as int) =~= hs);
        }
        let ghost before = header_pairs_view(kept@);
        kept.push((name.to_owned(), value));
        proof {
            assert(header_pairs_view(kept@) =~= before.push((name@, value@)));
        }
        self.headers = kept;
    }
}

} // verus!
