//! The parsed form of the `Signature:` header, its parser and its serializer.
use vstd::prelude::*;
use crate::encoding::{base64_decoded, decode_base64};
use crate::error::Error;
use crate::grammar::{fields_of, pairs_view, parse_fields, Field};
use crate::text::{chars_of, push_char, str_eq};

verus! {

/// Unicode `White_Space`, the property that `char::is_whitespace` reports.
pub open spec fn is_white_space(c: char) -> bool {
    let u = c as u32;
    (9 <= u <= 13) || u == 32 || u == 0x85 || u == 0xa0 || u == 0x1680 || (0x2000 <= u
        <= 0x200a) || u == 0x2028 || u == 0x2029 || u == 0x202f || u == 0x205f || u == 0x3000
}

/// Splitting the first `n` characters of `v` on white space: the words
/// completed so far, and the word in progress.
pub open spec fn split_prefix(v: Seq<char>, n: int) -> (Seq<Seq<char>>, Seq<char>)
    decreases n,
{
    if n <= 0 {
        (seq![], seq![])
    } else {
        let before = split_prefix(v, n - 1);
        if is_white_space(v[n - 1]) {
            if before.1.len() > 0 {
                (before.0.push(before.1), seq![])
            } else {
                (before.0, seq![])
            }
        } else {
            (before.0, before.1.push(v[n - 1]))
        }
    }
}

/// The words of `v`: its maximal runs of characters other than white space,
/// in order.
pub open spec fn words(v: Seq<char>) -> Seq<Seq<char>> {
    let end = split_prefix(v, v.len() as int);
    if end.1.len() > 0 {
        end.0.push(end.1)
    } else {
        end.0
    }
}

/// A vector of strings, as characters.
pub open spec fn strings_view(v: Seq<String>) -> Seq<Seq<char>> {
    v.map_values(|s: String| s@)
}

pub open spec fn opt_view(o: Option<String>) -> Option<Seq<char>> {
    match o {
        Some(s) => Some(s@),
        None => None,
    }
}

/// The `Signature:` header as characters.
pub struct HeaderView {
    pub key_id: Option<Seq<char>>,
    pub algorithm: Seq<char>,
    pub headers: Seq<Seq<char>>,
    pub signature: Seq<char>,
    pub other: Seq<Field>,
}

/// The value of the last field named `k`.
pub open spec fn last_value(f: Seq<Field>, k: Seq<char>) -> Option<Seq<char>>
    decreases f.len(),
{
    if f.len() == 0 {
        None
    } else if f.last().0 == k {
        Some(f.last().1)
    } else {
        last_value(f.drop_last(), k)
    }
}

/// The four fields that the header record holds by name.
pub open spec fn is_named(k: Seq<char>) -> bool {
    k == "keyId"@ || k == "algorithm"@ || k == "headers"@ || k == "signature"@
}

/// The fields other than the four named ones, in their order.
pub open spec fn other_fields(f: Seq<Field>) -> Seq<Field>
    decreases f.len(),
{
    if f.len() == 0 {
        seq![]
    } else if is_named(f.last().0) {
        other_fields(f.drop_last())
    } else {
        other_fields(f.drop_last()).push(f.last())
    }
}

/// The first mandatory field that `f` lacks, in the order algorithm,
/// headers, signature. A `headers` field without any word counts as
/// missing: a valid header signs at least one name.
pub open spec fn missing_field(f: Seq<Field>) -> Option<Seq<char>> {
    if last_value(f, "algorithm"@) is None {
        Some("algorithm"@)
    } else if last_value(f, "headers"@) is None || words(last_value(f, "headers"@)->0).len() == 0 {
        Some("headers"@)
    } else if last_value(f, "signature"@) is None {
        Some("signature"@)
    } else {
        None
    }
}

/// The header that the fields `f` describe: a later field of a name
/// overrides an earlier one.
pub open spec fn header_view_of(f: Seq<Field>) -> HeaderView {
    HeaderView {
        key_id: last_value(f, "keyId"@),
        algorithm: last_value(f, "algorithm"@)->0,
        headers: words(last_value(f, "headers"@)->0),
        signature: last_value(f, "signature"@)->0,
        other: other_fields(f),
    }
}

/// What reading a `Signature:` header comes to.
pub enum HeaderOutcome {
    /// The request has no such header.
    Missing,
    /// Its value holds bytes that are not visible ASCII.
    NotText,
    /// Its text does not follow the grammar.
    Malformed,
    /// It lacks the mandatory field of this name.
    MissingField(Seq<char>),
    /// It describes this header.
    Parsed(HeaderView),
}

/// What parsing the text `t` comes to.
pub open spec fn parse_outcome(t: Seq<char>) -> HeaderOutcome {
    match parse_fields(t) {
        None => HeaderOutcome::Malformed,
        Some(f) => match missing_field(f) {
            Some(name) => HeaderOutcome::MissingField(name),
            None => HeaderOutcome::Parsed(header_view_of(f)),
        },
    }
}

/// The result `r` is the one that the outcome `o` calls for.
pub open spec fn outcome_holds(r: Result<SignatureHeader, Error>, o: HeaderOutcome) -> bool {
    match o {
        HeaderOutcome::Missing => r matches Err(Error::SignatureHeaderMissing),
        HeaderOutcome::NotText => r matches Err(Error::HeaderValue),
        HeaderOutcome::Malformed => r matches Err(Error::ParseSignatureHeader),
        HeaderOutcome::MissingField(name) => r matches Err(Error::MissingField(n)) && n@ == name,
        HeaderOutcome::Parsed(h) => r matches Ok(x) && x@ == h,
    }
}

/// A value as it is written: in double quotes where it holds a space.
pub open spec fn quoted(v: Seq<char>) -> Seq<char> {
    if v.contains(' ') {
        "\""@ + v + "\""@
    } else {
        v
    }
}

/// One field as it is written: `key=value`.
pub open spec fn field_text(p: Field) -> Seq<char> {
    p.0 + "="@ + quoted(p.1)
}

/// Fields as they are written, separated by `, `.
pub open spec fn join_fields(fs: Seq<Field>) -> Seq<char>
    decreases fs.len(),
{
    if fs.len() == 0 {
        seq![]
    } else if fs.len() == 1 {
        field_text(fs[0])
    } else {
        join_fields(fs.drop_last()) + ", "@ + field_text(fs.last())
    }
}

/// Words separated by single spaces.
pub open spec fn join_words(ws: Seq<Seq<char>>) -> Seq<char>
    decreases ws.len(),
{
    if ws.len() == 0 {
        seq![]
    } else if ws.len() == 1 {
        ws[0]
    } else {
        join_words(ws.drop_last()) + " "@ + ws.last()
    }
}

/// The fields in the order in which they are written: `keyId` where there is
/// one, `algorithm`, `headers`, `signature`, then the other fields.
pub open spec fn header_fields(h: HeaderView) -> Seq<Field> {
    let named = seq![
        ("algorithm"@, h.algorithm),
        ("headers"@, join_words(h.headers)),
        ("signature"@, h.signature),
    ];
    match h.key_id {
        Some(k) => seq![("keyId"@, k)] + named + h.other,
        None => named + h.other,
    }
}

/// The text of the `Signature:` header.
pub open spec fn serialize(h: HeaderView) -> Seq<char> {
    join_fields(header_fields(h))
}

/// A parsed representation of the `Signature:` header.
pub struct SignatureHeader {
    pub key_id: Option<String>,
    pub algorithm: String,
    pub headers: Vec<String>,
    pub signature: String,
    pub other: Vec<(String, String)>,
}

impl View for SignatureHeader {
    type V = HeaderView;

    open spec fn view(&self) -> HeaderView {
        HeaderView {
            key_id: opt_view(self.key_id),
            algorithm: self.algorithm@,
            headers: strings_view(self.headers@),
            signature: self.signature@,
            other: pairs_view(self.other@),
        }
    }
}

fn is_white_space_char(c: char) -> (r: bool)
    ensures
        r == is_white_space(c),
{
    let u = c as u32;
    (9 <= u && u <= 13) || u == 32 || u == 0x85 || u == 0xa0 || u == 0x1680 || (0x2000 <= u && u
        <= 0x200a) || u == 0x2028 || u == 0x2029 || u == 0x202f || u == 0x205f || u == 0x3000
}

/// The words of `v`, split on any run of white space.
pub fn words_of(v: &str) -> (r: Vec<String>)
    ensures
        strings_view(r@) == words(v@),
{
    let cs = chars_of(v);
    let mut done: Vec<String> = Vec::new();
    let mut cur = String::new();
    let mut i: usize = 0;
    proof {
        assert(strings_view(done@) =~= seq![]);
    }
    while i < cs.len()
        invariant
            cs@ == v@,
            i <= cs@.len(),
            strings_view(done@) == split_prefix(v@, i as int).0,
            cur@ == split_prefix(v@, i as int).1,
        decreases cs@.len() - i,
    {
        let c = cs[i];
        if is_white_space_char(c) {
            if cur.unicode_len() > 0 {
                let ghost before = strings_view(done@);
                done.push(cur);
                proof {
                    assert(strings_view(done@) =~= before.push(split_prefix(v@, i as int).1));
                }
            }
            cur = String::new();
        } else {
            push_char(&mut cur, c);
        }
        i += 1;
    }
    if cur.unicode_len() > 0 {
        let ghost before = strings_view(done@);
        done.push(cur);
        proof {
            assert(strings_view(done@) =~= before.push(split_prefix(v@, v@.len() as int).1));
        }
    }
    done
}

/// Whether `s` holds the character `c`.
pub fn contains_char(s: &str, c: char) -> (r: bool)
    ensures
        r == s@.contains(c),
{
    let n = s.unicode_len();
    let mut i: usize = 0;
    while i < n
        invariant
            n == s@.len(),
            i <= n,
            forall|j: int| 0 <= j < i ==> s@[j] != c,
        decreases n - i,
    {
        if s.get_char(i) == c {
            return true;
        }
        i += 1;
    }
    false
}

proof fn lemma_last_value_step(f: Seq<Field>, i: int, k: Seq<char>)
    requires
        0 <= i < f.len(),
    ensures
        last_value(f.subrange(0, i + 1), k) == if f[i].0 == k {
            Some(f[i].1)
        } else {
            last_value(f.subrange(0, i), k)
        },
{
    assert(f.subrange(0, i + 1).drop_last() =~= f.subrange(0, i));
}

proof fn lemma_other_fields_step(f: Seq<Field>, i: int)
    requires
        0 <= i < f.len(),
    ensures
        other_fields(f.subrange(0, i + 1)) == if is_named(f[i].0) {
            other_fields(f.subrange(0, i))
        } else {
            other_fields(f.subrange(0, i)).push(f[i])
        },
{
    assert(f.subrange(0, i + 1).drop_last() =~= f.subrange(0, i));
}

fn push_field(out: &mut String, first: bool, k: &str, v: &str, Ghost(done): Ghost<Seq<Field>>)
    requires
        old(out)@ == join_fields(done),
        first == (done.len() == 0),
    ensures
        final(out)@ == join_fields(done.push((k@, v@))),
{
    let ghost all = done.push((k@, v@));
    proof {
        assert(all.drop_last() =~= done);
    }
    if !first {
        out.append(", ");
    }
    out.append(k);
    out.append("=");
    if contains_char(v, ' ') {
        out.append("\"");
        out.append(v);
        out.append("\"");
    } else {
        out.append(v);
    }
    proof {
        if first {
            assert(out@ =~= field_text((k@, v@)));
        } else {
            assert(out@ =~= join_fields(done) + ", "@ + field_text((k@, v@)));
        }
    }
}

/// The words joined by single spaces.
pub fn join_words_of(ws: &Vec<String>) -> (r: String)
    ensures
        r@ == join_words(strings_view(ws@)),
{
    let mut out = String::new();
    let mut i: usize = 0;
    while i < ws.len()
        invariant
            i <= ws@.len(),
            out@ == join_words(strings_view(ws@).subrange(0, i as int)),
        decreases ws@.len() - i,
    {
        let ghost next = strings_view(ws@).subrange(0, i as int + 1);
        proof {
            assert(next.drop_last() =~= strings_view(ws@).subrange(0, i as int));
            assert(next.last() == ws@[i as int]@);
        }
        if i > 0 {
            out.append(" ");
        }
        out.append(ws[i].as_str());
        proof {
            if i == 0 {
                assert(out@ =~= next[0]);
            } else {
                assert(out@ =~= join_words(next.drop_last()) + " "@ + next.last());
            }
        }
        i += 1;
    }
    proof {
        assert(strings_view(ws@).subrange(0, ws@.len() as int) =~= strings_view(ws@));
    }
    out
}

impl SignatureHeader {
    /// The text of the header, fields in the order `keyId`, `algorithm`,
    /// `headers`, `signature`, then the others.
    pub fn to_string(&self) -> (r: String)
        ensures
            r@ == serialize(self@),
    {
        let mut out = String::new();
        let ghost mut done: Seq<Field> = seq![];
        let mut first = true;
        if let Some(k) = &self.key_id {
            push_field(&mut out, true, "keyId", k.as_str(), Ghost(done));
            proof {
                done = done.push(("keyId"@, k@));
            }
            first = false;
        }
        push_field(&mut out, first, "algorithm", self.algorithm.as_str(), Ghost(done));
        proof {
            done = done.push(("algorithm"@, self.algorithm@));
        }
        let hs = join_words_of(&self.headers);
        push_field(&mut out, false, "headers", hs.as_str(), Ghost(done));
        proof {
            done = done.push(("headers"@, hs@));
        }
        push_field(&mut out, false, "signature", self.signature.as_str(), Ghost(done));
        proof {
            done = done.push(("signature"@, self.signature@));
        }
        let ghost named = done;
        let ghost other = pairs_view(self.other@);
        proof {
            assert(done =~= named + other.subrange(0, 0));
        }
        let mut i: usize = 0;
        while i < self.other.len()
            invariant
                other == pairs_view(self.other@),
                i <= self.other@.len(),
                named.len() >= 3,
                done == named + other.subrange(0, i as int),
                out@ == join_fields(done),
            decreases self.other@.len() - i,
        {
            push_field(&mut out, false, self.other[i].0.as_str(), self.other[i].1.as_str(), Ghost(done));
            proof {
                done = done.push((self.other@[i as int].0@, self.other@[i as int].1@));
                assert(done =~= named + other.subrange(0, i as int + 1));
            }
            i += 1;
        }
        proof {
            assert(other.subrange(0, self.other@.len() as int) =~= other);
            if self.key_id is Some {
                assert(done =~= header_fields(self@));
            } else {
                assert(done =~= header_fields(self@));
            }
        }
        out
    }

    /// Parse the value of a `Signature:` header.
    pub fn parse(input: &str) -> (r: Result<SignatureHeader, Error>)
        ensures
            outcome_holds(r, parse_outcome(input@)),
    {
        let cs = chars_of(input);
        let fields = match fields_of(&cs) {
            Some(fields) => fields,
            None => {
                return Err(Error::ParseSignatureHeader);
            },
        };
        let ghost f = pairs_view(fields@);
        let mut key_id: Option<String> = None;
        let mut algorithm: Option<String> = None;
        let mut headers: Option<Vec<String>> = None;
        let mut signature: Option<String> = None;
        let mut other: Vec<(String, String)> = Vec::new();
        let mut i: usize = 0;
        proof {
            assert(f.subrange(0, 0) =~= seq![]);
            assert(pairs_view(other@) =~= seq![]);
        }
        while i < fields.len()
            invariant
                f == pairs_view(fields@),
                i <= fields@.len(),
                opt_view(key_id) == last_value(f.subrange(0, i as int), "keyId"@),
                opt_view(algorithm) == last_value(f.subrange(0, i as int), "algorithm"@),
                opt_view(signature) == last_value(f.subrange(0, i as int), "signature"@),
                (headers is Some) == (last_value(f.subrange(0, i as int), "headers"@) is Some),
                headers matches Some(hs) ==> strings_view(hs@) == words(
                    last_value(f.subrange(0, i as int), "headers"@)->0,
                ),
                pairs_view(other@) == other_fields(f.subrange(0, i as int)),
            decreases fields@.len() - i,
        {
            let key = &fields[i].0;
            let value = &fields[i].1;
            proof {
                reveal_strlit("keyId");
                reveal_strlit("algorithm");
                reveal_strlit("headers");
                reveal_strlit("signature");
                assert("keyId"@[0] == 'k' && "algorithm"@[0] == 'a');
                assert("headers"@[0] == 'h' && "signature"@[0] == 's');
                assert(f[i as int] == (key@, value@));
                lemma_last_value_step(f, i as int, "keyId"@);
                lemma_last_value_step(f, i as int, "algorithm"@);
                lemma_last_value_step(f, i as int, "headers"@);
                lemma_last_value_step(f, i as int, "signature"@);
                lemma_other_fields_step(f, i as int);
            }
            if str_eq(key.as_str(), "keyId") {
                key_id = Some(value.clone());
            } else if str_eq(key.as_str(), "algorithm") {
                algorithm = Some(value.clone());
            } else if str_eq(key.as_str(), "headers") {
                headers = Some(words_of(value.as_str()));
            } else if str_eq(key.as_str(), "signature") {
                signature = Some(value.clone());
            } else {
                let ghost before = pairs_view(other@);
                other.push((key.clone(), value.clone()));
                proof {
                    assert(pairs_view(other@) =~= before.push(f[i as int]));
                }
            }
            i += 1;
        }
        proof {
            assert(f.subrange(0, fields@.len() as int) =~= f);
        }
        let algorithm = match algorithm {
            Some(a) => a,
            None => {
                return Err(Error::MissingField("algorithm"));
            },
        };
        let headers = match headers {
            Some(h) => h,
            None => {
                return Err(Error::MissingField("headers"));
            },
        };
        if headers.len() == 0 {
            return Err(Error::MissingField("headers"));
        }
        let signature = match signature {
            Some(s) => s,
            None => {
                return Err(Error::MissingField("signature"));
            },
        };
        let h = SignatureHeader { key_id, algorithm, headers, signature, other };
        proof {
            assert(h@ == header_view_of(f));
        }
        Ok(h)
    }

    /// The signature bytes, decoded from base64.
    pub fn signature_bytes(&self) -> (r: Result<Vec<u8>, Error>)
        ensures
            match base64_decoded(self.signature@) {
                Some(b) => r matches Ok(v) && v@ == b,
                None => r matches Err(Error::SignatureBase64(_)),
            },
    {
        match decode_base64(self.signature.as_str()) {
            Ok(v) => Ok(v),
            Err(e) => Err(Error::SignatureBase64(e)),
        }
    }
}

} // verus!
