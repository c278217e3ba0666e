//! Reconstructing the signing string of a request, and verifying or making
//! its signature.
use vstd::prelude::*;
use vstd::string::StringSliceAdditionalSpecFns;
use vstd::utf8::encode_utf8;
use crate::alg::{by_name, is_known_algorithm, Algorithm};
use crate::encoding::{base64_decoded, base64_encoded, encode_base64, is_base64_char};
use crate::error::Error;
use crate::grammar::{pairs_view, Field};
use crate::key::{PrivateKey, PublicKey};
use crate::request::{
    eq_ignore_ascii_case, find_header, first_match, header_pairs_view, header_text, is_header_byte, names_match, to_text,
    Request, RequestView,
};
use crate::signature_header::{
    outcome_holds, parse_outcome, serialize, strings_view, HeaderOutcome, HeaderView,
    SignatureHeader,
};
use crate::text::{lower_of, str_eq, to_lowercase};

verus! {

/// The `(request-target)` of a request: lower-case method, a space, the path,
/// and `?query` where there is a query.
pub open spec fn request_target(method: Seq<char>, path: Seq<char>, query: Option<Seq<char>>) -> Seq<
    char,
> {
    target_from(lower_of(method), path, query)
}

/// The `(request-target)` made of a method already in lower case, a space,
/// the path, and `?query` where there is a query.
pub open spec fn target_from(lower_method: Seq<char>, path: Seq<char>, query: Option<Seq<char>>) -> Seq<
    char,
> {
    let base = lower_method + " "@ + path;
    match query {
        Some(q) => base + "?"@ + q,
        None => base,
    }
}

/// Lines `label: value` from labels already in lower case and their values.
pub open spec fn labelled_lines(labels: Seq<Seq<char>>, values: Seq<Seq<char>>) -> Seq<Seq<char>> {
    Seq::new(labels.len(), |k: int| labels[k] + ": "@ + values[k])
}

/// The value of the first field named `k`.
pub open spec fn first_value(other: Seq<Field>, k: Seq<char>) -> Option<Seq<char>>
    decreases other.len(),
{
    if other.len() == 0 {
        None
    } else if other[0].0 == k {
        Some(other[0].1)
    } else {
        first_value(other.drop_first(), k)
    }
}

pub open spec fn or_empty(o: Option<Seq<char>>) -> Seq<char> {
    match o {
        Some(v) => v,
        None => seq![],
    }
}

/// The value that the name `name` contributes to the signing string:
/// the request target, the `created` or `expires` field of the header, or
/// the request's header of that name; empty where there is none, or where a
/// header's bytes are not visible ASCII. The three pseudo-names are
/// recognised without regard to ASCII case.
pub open spec fn field_value(
    name: Seq<char>,
    target: Seq<char>,
    other: Seq<Field>,
    hs: Seq<(Seq<char>, Seq<u8>)>,
) -> Seq<char> {
    if names_match(name, "(request-target)"@) {
        target
    } else if names_match(name, "(created)"@) {
        or_empty(first_value(other, "created"@))
    } else if names_match(name, "(expires)"@) {
        or_empty(first_value(other, "expires"@))
    } else {
        match first_match(hs, name) {
            Some(b) => or_empty(header_text(b)),
            None => seq![],
        }
    }
}

/// One line of the signing string: `name: value`, the name in lower case.
pub open spec fn line(name: Seq<char>, value: Seq<char>) -> Seq<char> {
    lower_of(name) + ": "@ + value
}

/// Lines joined by newlines, with none before the first or after the last.
pub open spec fn join_lines(ls: Seq<Seq<char>>) -> Seq<char>
    decreases ls.len(),
{
    if ls.len() == 0 {
        seq![]
    } else if ls.len() == 1 {
        ls[0]
    } else {
        join_lines(ls.drop_last()) + "\n"@ + ls.last()
    }
}

/// The lines that the names `names` select, in their order.
pub open spec fn signed_lines(
    names: Seq<Seq<char>>,
    target: Seq<char>,
    other: Seq<Field>,
    hs: Seq<(Seq<char>, Seq<u8>)>,
) -> Seq<Seq<char>> {
    names.map_values(|n: Seq<char>| line(n, field_value(n, target, other, hs)))
}

/// The signing string.
pub open spec fn signing_string(
    names: Seq<Seq<char>>,
    target: Seq<char>,
    other: Seq<Field>,
    hs: Seq<(Seq<char>, Seq<u8>)>,
) -> Seq<char> {
    join_lines(signed_lines(names, target, other, hs))
}

/// What reading the `Signature:` header among the headers `hs` comes to.
pub open spec fn header_outcome(hs: Seq<(Seq<char>, Seq<u8>)>) -> HeaderOutcome {
    match first_match(hs, "signature"@) {
        None => HeaderOutcome::Missing,
        Some(b) => match header_text(b) {
            None => HeaderOutcome::NotText,
            Some(t) => parse_outcome(t),
        },
    }
}

/// The result `r` is the failure that the outcome `o` calls for; a parsed
/// header is no failure.
pub open spec fn header_failure<T>(r: Result<T, Error>, o: HeaderOutcome) -> bool {
    match o {
        HeaderOutcome::Missing => r matches Err(Error::SignatureHeaderMissing),
        HeaderOutcome::NotText => r matches Err(Error::HeaderValue),
        HeaderOutcome::Malformed => r matches Err(Error::ParseSignatureHeader),
        HeaderOutcome::MissingField(name) => r matches Err(Error::MissingField(n)) && n@ == name,
        HeaderOutcome::Parsed(_) => false,
    }
}

/// The names that a new configuration signs.
pub open spec fn default_signed_headers() -> Seq<Seq<char>> {
    seq!["(request-target)"@, "host"@, "date"@, "digest"@, "content-type"@]
}

/// Whether every byte of `b` may stand in a header value.
pub open spec fn is_header_value(b: Seq<u8>) -> bool {
    forall|i: int| 0 <= i < b.len() ==> is_header_byte(#[trigger] b[i])
}

/// The request `req` once its `signature` header is set to the text of `h`.
pub open spec fn with_signature(req: RequestView, h: HeaderView) -> RequestView {
    RequestView {
        headers: req.headers.filter(|p: (Seq<char>, Seq<u8>)| !names_match(p.0, "signature"@)).push(
            ("signature"@, encode_utf8(serialize(h))),
        ),
        ..req
    }
}

/// Signature state for verifying a request.
pub struct Signature {
    /// The `(request-target)` of the request.
    pub request_target: String,
    /// The request's header fields.
    pub headers: Vec<(String, Vec<u8>)>,
}

/// The `(request-target)` from a method already in lower case.
pub fn target_of(lower_method: &str, path: &str, query: Option<&str>) -> (r: String)
    ensures
        r@ == target_from(
            lower_method@,
            path@,
            match query {
                Some(q) => Some(q@),
                None => None,
            },
        ),
{
    let mut target = lower_method.to_owned();
    target.append(" ");
    target.append(path);
    if let Some(q) = query {
        target.append("?");
        target.append(q);
    }
    target
}

/// The lines `label: value`, joined by newlines, from labels already in
/// lower case and their values.
pub fn join_labelled_lines(labels: &Vec<String>, values: &Vec<String>) -> (r: String)
    requires
        labels@.len() == values@.len(),
    ensures
        r@ == join_lines(labelled_lines(strings_view(labels@), strings_view(values@))),
{
    let ghost lines = labelled_lines(strings_view(labels@), strings_view(values@));
    let mut out = String::new();
    let mut i: usize = 0;
    while i < labels.len()
        invariant
            i <= labels@.len(),
            labels@.len() == values@.len(),
            lines == labelled_lines(strings_view(labels@), strings_view(values@)),
            out@ == join_lines(lines.subrange(0, i as int)),
        decreases labels@.len() - i,
    {
        let ghost next = lines.subrange(0, i as int + 1);
        proof {
            assert(next.drop_last() =~= lines.subrange(0, i as int));
            assert(next.last() == labels@[i as int]@ + ": "@ + values@[i as int]@);
        }
        if i > 0 {
            out.append("\n");
        }
        out.append(labels[i].as_str());
        out.append(": ");
        out.append(values[i].as_str());
        proof {
            if i == 0 {
                assert(out@ =~= next[0]);
            } else {
                assert(out@ =~= join_lines(next.drop_last()) + "\n"@ + next.last());
            }
        }
        i += 1;
    }
    proof {
        assert(lines.subrange(0, lines.len() as int) =~= lines);
    }
    out
}

fn first_value_of<'a>(other: &'a Vec<(String, String)>, k: &str) -> (r: Option<&'a String>)
    ensures
        match first_value(pairs_view(other@), k@) {
            Some(v) => r matches Some(x) && x@ == v,
            None => r is None,
        },
{
    let ghost v = pairs_view(other@);
    let mut i: usize = 0;
    proof {
        assert(v.subrange(0, v.len() as int) =~= v);
    }
    while i < other.len()
        invariant
            v == pairs_view(other@),
            i <= v.len(),
            first_value(v, k@) == first_value(v.subrange(i as int, v.len() as int), k@),
        decreases v.len() - i,
    {
        proof {
            let rest = v.subrange(i as int, v.len() as int);
            assert(rest.drop_first() =~= v.subrange(i as int + 1, v.len() as int));
            assert(rest[0] == v[i as int]);
        }
        if str_eq(other[i].0.as_str(), k) {
            return Some(&other[i].1);
        }
        i += 1;
    }
    None
}

impl Signature {
    /// The state for verifying `req`.
    pub fn from(req: &Request) -> (r: Signature)
        ensures
            r.request_target@ == request_target(req@.method, req@.path, req@.query),
            header_pairs_view(r.headers@) == req@.headers,
    {
        let method = to_lowercase(req.method.as_str());
        let query = match &req.query {
            Some(q) => Some(q.as_str()),
            None => None,
        };
        let target = target_of(method.as_str(), req.path.as_str(), query);
        let mut headers: Vec<(String, Vec<u8>)> = Vec::new();
        let mut i: usize = 0;
        while i < req.headers.len()
            invariant
                i <= req.headers@.len(),
                header_pairs_view(headers@) == header_pairs_view(req.headers@).subrange(0, i as int),
            decreases req.headers@.len() - i,
        {
            let ghost before = header_pairs_view(headers@);
            headers.push((req.headers[i].0.clone(), vstd::slice::slice_to_vec(req.headers[i].1.as_slice())));
            proof {
                let src = header_pairs_view(req.headers@);
                assert(src[i as int] == (req.headers@[i as int].0@, req.headers@[i as int].1@));
                assert(header_pairs_view(headers@) =~= before.push(src[i as int]));
                assert(header_pairs_view(headers@) =~= header_pairs_view(req.headers@).subrange(
                    0,
                    i as int + 1,
                ));
            }
            i += 1;
        }
        proof {
            assert(header_pairs_view(req.headers@).subrange(0, req.headers@.len() as int)
                =~= header_pairs_view(req.headers@));
        }
        Signature { request_target: target, headers }
    }

    /// The `Signature:` header of the request, parsed.
    pub fn header(&self) -> (r: Result<SignatureHeader, Error>)
        ensures
            outcome_holds(r, header_outcome(header_pairs_view(self.headers@))),
    {
        match find_header(&self.headers, "signature") {
            None => Err(Error::SignatureHeaderMissing),
            Some(b) => match to_text(b.as_slice()) {
                None => Err(Error::HeaderValue),
                Some(t) => SignatureHeader::parse(t.as_str()),
            },
        }
    }

    fn field_value_of(&self, name: &str, header: &SignatureHeader) -> (r: String)
        ensures
            r@ == field_value(
                name@,
                self.request_target@,
                header@.other,
                header_pairs_view(self.headers@),
            ),
    {
        if eq_ignore_ascii_case(name, "(request-target)") {
            self.request_target.clone()
        } else if eq_ignore_ascii_case(name, "(created)") {
            match first_value_of(&header.other, "created") {
                Some(v) => v.clone(),
                None => String::new(),
            }
        } else if eq_ignore_ascii_case(name, "(expires)") {
            match first_value_of(&header.other, "expires") {
                Some(v) => v.clone(),
                None => String::new(),
            }
        } else {
            match find_header(&self.headers, name) {
                Some(b) => match to_text(b.as_slice()) {
                    Some(t) => t,
                    None => String::new(),
                },
                None => String::new(),
            }
        }
    }

    /// The signing string of the request under the field selection of
    /// `header`.
    pub fn signing_string(&self, header: &SignatureHeader) -> (r: String)
        ensures
            r@ == signing_string(
                header@.headers,
                self.request_target@,
                header@.other,
                header_pairs_view(self.headers@),
            ),
    {
        let ghost names = header@.headers;
        let mut labels: Vec<String> = Vec::new();
        let mut values: Vec<String> = Vec::new();
        let mut i: usize = 0;
        while i < header.headers.len()
            invariant
                i <= header.headers@.len(),
                names == header@.headers,
                labels@.len() == i,
                values@.len() == i,
                forall|k: int| 0 <= k < i ==> (#[trigger] labels@[k])@ == lower_of(names[k]),
                forall|k: int|
                    0 <= k < i ==> (#[trigger] values@[k])@ == field_value(
                        names[k],
                        self.request_target@,
                        header@.other,
                        header_pairs_view(self.headers@),
                    ),
            decreases header.headers@.len() - i,
        {
            let name = header.headers[i].as_str();
            proof {
                assert(names[i as int] == name@);
            }
            labels.push(to_lowercase(name));
            values.push(self.field_value_of(name, header));
            i += 1;
        }
        let r = join_labelled_lines(&labels, &values);
        proof {
            assert(labelled_lines(strings_view(labels@), strings_view(values@)) =~= signed_lines(
                names,
                self.request_target@,
                header@.other,
                header_pairs_view(self.headers@),
            ));
        }
        r
    }

    /// Verify the request's signature with `public_key`: `Ok(true)` where it
    /// holds, `Ok(false)` where it does not.
    pub fn verify(&self, public_key: &PublicKey) -> (r: Result<bool, Error>)
        ensures
            match header_outcome(header_pairs_view(self.headers@)) {
                HeaderOutcome::Parsed(h) => if !is_known_algorithm(h.algorithm) {
                    r matches Err(Error::UnknownAlgorithm(a)) && a@ == h.algorithm
                } else if base64_decoded(h.signature) is None {
                    r matches Err(Error::SignatureBase64(_))
                } else {
                    r is Ok || r matches Err(Error::OpenSsl(_))
                },
                o => header_failure(r, o),
            },
    {
        let header = match self.header() {
            Ok(h) => h,
            Err(e) => {
                return Err(e);
            },
        };
        let signing_string = self.signing_string(&header);
        let alg = match by_name(header.algorithm.as_str()) {
            Some(a) => a,
            None => {
                return Err(Error::UnknownAlgorithm(header.algorithm.clone()));
            },
        };
        let signature = match header.signature_bytes() {
            Ok(b) => b,
            Err(e) => {
                return Err(e);
            },
        };
        alg.verify(public_key, signing_string.as_str().as_bytes(), signature.as_slice())
    }

    /// The keyId of the key used for the signature, where the header parses.
    pub fn key_id(&self) -> (r: Option<String>)
        ensures
            match header_outcome(header_pairs_view(self.headers@)) {
                HeaderOutcome::Parsed(h) => match h.key_id {
                    Some(k) => r matches Some(x) && x@ == k,
                    None => r is None,
                },
                _ => r is None,
            },
    {
        match self.header() {
            Ok(h) => h.key_id,
            Err(_) => None,
        }
    }
}

fn copy_strings(v: &Vec<String>) -> (r: Vec<String>)
    ensures
        strings_view(r@) == strings_view(v@),
{
    let mut r: Vec<String> = Vec::new();
    let mut i: usize = 0;
    while i < v.len()
        invariant
            i <= v@.len(),
            strings_view(r@) == strings_view(v@).subrange(0, i as int),
        decreases v@.len() - i,
    {
        let ghost before = strings_view(r@);
        r.push(v[i].clone());
        proof {
            assert(strings_view(v@)[i as int] == v@[i as int]@);
            assert(strings_view(r@) =~= before.push(v@[i as int]@));
            assert(strings_view(r@) =~= strings_view(v@).subrange(0, i as int + 1));
        }
        i += 1;
    }
    proof {
        assert(strings_view(v@).subrange(0, v@.len() as int) =~= strings_view(v@));
    }
    r
}

fn copy_pairs(v: &Vec<(String, String)>) -> (r: Vec<(String, String)>)
    ensures
        pairs_view(r@) == pairs_view(v@),
{
    let mut r: Vec<(String, String)> = Vec::new();
    let mut i: usize = 0;
    while i < v.len()
        invariant
            i <= v@.len(),
            pairs_view(r@) == pairs_view(v@).subrange(0, i as int),
        decreases v@.len() - i,
    {
        let ghost before = pairs_view(r@);
        r.push((v[i].0.clone(), v[i].1.clone()));
        proof {
            assert(pairs_view(v@)[i as int] == (v@[i as int].0@, v@[i as int].1@));
            assert(pairs_view(r@) =~= before.push(pairs_view(v@)[i as int]));
            assert(pairs_view(r@) =~= pairs_view(v@).subrange(0, i as int + 1));
        }
        i += 1;
    }
    proof {
        assert(pairs_view(v@).subrange(0, v@.len() as int) =~= pairs_view(v@));
    }
    r
}

/// Whether every byte of `b` may stand in a header value.
pub fn header_value_ok(b: &[u8]) -> (r: bool)
    ensures
        r == is_header_value(b@),
{
    let mut i: usize = 0;
    while i < b.len()
        invariant
            i <= b@.len(),
            forall|j: int| 0 <= j < i ==> is_header_byte(#[trigger] b@[j]),
        decreases b@.len() - i,
    {
        let x = b[i];
        if !((32 <= x && x != 127) || x == 9) {
            return false;
        }
        i += 1;
    }
    true
}

/// Configuration for generating a signature.
pub struct SigningConfig<A: Algorithm> {
    /// The signature algorithm.
    pub algorithm: A,
    /// The key that signs.
    pub private_key: PrivateKey,
    /// The identifier under which a verifier finds the public key.
    pub key_id: String,
    /// The names whose values are signed, in order.
    pub signed_headers: Vec<String>,
    /// Other fields such as `created`, and `expires`.
    pub other: Vec<(String, String)>,
}

impl<A: Algorithm> SigningConfig<A> {
    /// The header that signing publishes, before its signature is known.
    pub open spec fn unsigned_header(&self) -> HeaderView {
        HeaderView {
            key_id: Some(self.key_id@),
            algorithm: self.algorithm.spec_name(),
            headers: strings_view(self.signed_headers@),
            signature: seq![],
            other: pairs_view(self.other@),
        }
    }

    /// The header that signing publishes, with the signature text `sig`.
    pub open spec fn signed_header(&self, sig: Seq<char>) -> HeaderView {
        HeaderView { signature: sig, ..self.unsigned_header() }
    }

    /// Configure for `algorithm` with `private_key` identified by `key_id`,
    /// signing `(request-target)`, `host`, `date`, `digest` and
    /// `content-type`.
    pub fn new(algorithm: A, private_key: PrivateKey, key_id: &str) -> (r: Self)
        ensures
            r.algorithm == algorithm,
            r.private_key == private_key,
            r.key_id@ == key_id@,
            strings_view(r.signed_headers@) == default_signed_headers(),
            r.other@.len() == 0,
    {
        let mut signed_headers: Vec<String> = Vec::new();
        signed_headers.push("(request-target)".to_owned());
        signed_headers.push("host".to_owned());
        signed_headers.push("date".to_owned());
        signed_headers.push("digest".to_owned());
        signed_headers.push("content-type".to_owned());
        proof {
            assert(strings_view(signed_headers@) =~= default_signed_headers());
        }
        SigningConfig {
            algorithm,
            private_key,
            key_id: key_id.to_owned(),
            signed_headers,
            other: Vec::new(),
        }
    }

    /// The header that signing publishes, with an empty signature.
    pub fn header_to_sign(&self) -> (r: SignatureHeader)
        ensures
            r@ == self.unsigned_header(),
    {
        SignatureHeader {
            key_id: Some(self.key_id.clone()),
            algorithm: self.algorithm.name().to_owned(),
            headers: copy_strings(&self.signed_headers),
            signature: String::new(),
            other: copy_pairs(&self.other),
        }
    }

    /// The string that signing `request` signs.
    pub fn signing_string(&self, request: &Request) -> (r: String)
        ensures
            r@ == signing_string(
                strings_view(self.signed_headers@),
                request_target(request@.method, request@.path, request@.query),
                pairs_view(self.other@),
                request@.headers,
            ),
    {
        let header = self.header_to_sign();
        Signature::from(request).signing_string(&header)
    }

    /// Sign a request: compute the signing string under the configured
    /// names, sign it, and set the request's `signature` header. A
    /// configuration without names is refused: its header could not be
    /// verified.
    pub fn sign(&self, request: &mut Request) -> (r: Result<(), Error>)
        ensures
            r is Ok ==> exists|sig: Seq<u8>|
                is_header_value(encode_utf8(serialize(self.signed_header(#[trigger] base64_encoded(sig)))))
                    && final(request)@ == with_signature(old(request)@, self.signed_header(base64_encoded(sig)))
                    && base64_decoded(base64_encoded(sig)) == Some(sig)
                    && forall|i: int| 0 <= i < base64_encoded(sig).len() ==> is_base64_char(
                    #[trigger] base64_encoded(sig)[i],
                ),
            self.signed_headers@.len() == 0 ==> (r matches Err(Error::MissingField(n)) && n@
                == "headers"@),
            r is Err ==> final(request)@ == old(request)@,
            r is Err ==> (r matches Err(Error::OpenSsl(_)) || r matches Err(Error::SerializeHeader)
                || (r matches Err(Error::MissingField(_)) && self.signed_headers@.len() == 0)),
            r matches Err(Error::SerializeHeader) ==> exists|sig: Seq<u8>|
                !is_header_value(encode_utf8(serialize(self.signed_header(#[trigger] base64_encoded(sig))))),
    {
        if self.signed_headers.len() == 0 {
            return Err(Error::MissingField("headers"));
        }
        let mut header = self.header_to_sign();
        let signing_string = self.signing_string(request);
        let value = match self.algorithm.sign(&self.private_key, signing_string.as_str().as_bytes()) {
            Ok(v) => v,
            Err(e) => {
                return Err(e);
            },
        };
        header.signature = encode_base64(value.as_slice());
        proof {
            assert(header@ == self.signed_header(base64_encoded(value@)));
        }
        set_signature_header(request, &header)
    }
}

/// Set the request's `signature` header to the text of `header`, where every
/// byte of that text may stand in a header value; else leave the request as
/// it is.
pub fn set_signature_header(request: &mut Request, header: &SignatureHeader) -> (r: Result<
    (),
    Error,
>)
    ensures
        is_header_value(encode_utf8(serialize(header@))) ==> (r is Ok && final(request)@
            == with_signature(old(request)@, header@)),
        !is_header_value(encode_utf8(serialize(header@))) ==> (r matches Err(Error::SerializeHeader)
            && final(request)@ == old(request)@),
{
    let text = header.to_string();
    if !header_value_ok(text.as_str().as_bytes()) {
        return Err(Error::SerializeHeader);
    }
    request.insert("signature", vstd::slice::slice_to_vec(text.as_str().as_bytes()));
    Ok(())
}

} // verus!
