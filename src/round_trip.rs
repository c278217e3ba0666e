//! What the serializer writes, the parser reads back; and what signing
//! writes into a request, verification reads back.
use vstd::prelude::*;
use vstd::utf8::{encode_scalar, encode_utf8};
use crate::alg::Algorithm;
use crate::encoding::is_base64_char;
use crate::grammar::{
    bare_end, field_at, is_alnum, is_space, key_end, more_fields, pairs_view, parse_fields,
    quote_end, skip_space, Field,
};
use crate::lemmas::{is_word, lemma_split_joined};
use crate::request::{
    ascii_lower, first_match, header_text, is_visible_ascii, names_match, RequestView,
};
use crate::signature::{
    field_value, header_outcome, request_target, signed_lines, signing_string, with_signature,
    SigningConfig,
};
use crate::signature_header::{
    field_text, header_fields, header_view_of, is_named, join_fields, join_words, last_value,
    missing_field, other_fields, parse_outcome, quoted, serialize, split_prefix, strings_view, words,
    HeaderOutcome, HeaderView,
};

verus! {

/// A key that the grammar reads: letters and digits, at least one.
pub open spec fn is_key(k: Seq<char>) -> bool {
    k.len() > 0 && forall|i: int| 0 <= i < k.len() ==> is_alnum(#[trigger] k[i])
}

/// A value that reads back as itself: it holds no double quote, and where
/// it is written bare (it holds no space) no comma and no leading white
/// space.
pub open spec fn is_plain_value(v: Seq<char>) -> bool {
    &&& !v.contains('"')
    &&& !v.contains(' ') ==> !v.contains(',')
    &&& !v.contains(' ') && v.len() > 0 ==> !is_space(v[0])
}

/// A field that reads back as itself.
pub open spec fn is_plain_field(f: Field) -> bool {
    is_key(f.0) && is_plain_value(f.1)
}

proof fn lemma_skip_space_stops(s: Seq<char>, i: int, j: int)
    requires
        0 <= i <= j <= s.len(),
        forall|t: int| i <= t < j ==> is_space(#[trigger] s[t]),
        j == s.len() || !is_space(s[j]),
    ensures
        skip_space(s, i) == j,
    decreases j - i,
{
    if i < j {
        lemma_skip_space_stops(s, i + 1, j);
    }
}

proof fn lemma_key_end_stops(s: Seq<char>, i: int, j: int)
    requires
        0 <= i <= j <= s.len(),
        forall|t: int| i <= t < j ==> is_alnum(#[trigger] s[t]),
        j == s.len() || !is_alnum(s[j]),
    ensures
        key_end(s, i) == j,
    decreases j - i,
{
    if i < j {
        lemma_key_end_stops(s, i + 1, j);
    }
}

proof fn lemma_quote_end_stops(s: Seq<char>, i: int, j: int)
    requires
        0 <= i <= j <= s.len(),
        forall|t: int| i <= t < j ==> #[trigger] s[t] != '"',
        j == s.len() || s[j] == '"',
    ensures
        quote_end(s, i) == j,
    decreases j - i,
{
    if i < j {
        lemma_quote_end_stops(s, i + 1, j);
    }
}

proof fn lemma_bare_end_stops(s: Seq<char>, i: int, j: int)
    requires
        0 <= i <= j <= s.len(),
        forall|t: int| i <= t < j ==> #[trigger] s[t] != ' ' && s[t] != ',',
        j == s.len() || s[j] == ' ' || s[j] == ',',
    ensures
        bare_end(s, i) == j,
    decreases j - i,
{
    if i < j {
        lemma_bare_end_stops(s, i + 1, j);
    }
}

/// The field written at `p` in `s`, followed by a comma or the end, reads
/// back from any position before `p` that only white space separates from it.
proof fn lemma_field_reads_back(s: Seq<char>, pos: int, p: int, f: Field)
    requires
        is_plain_field(f),
        0 <= pos <= p,
        forall|t: int| pos <= t < p ==> is_space(#[trigger] s[t]),
        p + field_text(f).len() <= s.len(),
        s.subrange(p, p + field_text(f).len()) == field_text(f),
        p + field_text(f).len() == s.len() || s[p + field_text(f).len()] == ',',
    ensures
        field_at(s, pos) == Some((p + field_text(f).len(), f)),
{
    reveal_strlit("=");
    reveal_strlit("\"");
    let k = f.0;
    let v = f.1;
    let text = field_text(f);
    let e = p + text.len();
    assert(text == k + "="@ + quoted(v));
    assert forall|t: int| 0 <= t < text.len() implies s[p + t] == #[trigger] text[t] by {
        assert(s.subrange(p, e)[t] == s[p + t]);
    }
    assert(text[0] == k[0]);
    assert(s[p + 0] == text[0]);
    lemma_skip_space_stops(s, pos, p);
    assert forall|t: int| p <= t < p + k.len() implies is_alnum(#[trigger] s[t]) by {
        assert(s[p + (t - p)] == text[t - p]);
    }
    let b = p + k.len();
    assert(s[b] == text[k.len() as int]);
    lemma_key_end_stops(s, p, b);
    lemma_skip_space_stops(s, b, b);
    let c = b;
    let d = c + 1;
    if v.contains(' ') {
        assert(quoted(v) == "\""@ + v + "\""@);
        assert(s[d] == '"') by {
            assert(s[p + (k.len() + 1)] == text[k.len() as int + 1]);
        }
        lemma_skip_space_stops(s, d, d);
        let q = d + 1 + v.len();
        assert forall|t: int| d + 1 <= t < q implies #[trigger] s[t] != '"' by {
            assert(s[p + (t - p)] == text[t - p]);
            assert(text[t - p] == v[t - d - 1]);
            if s[t] == '"' {
                assert(v.contains('"'));
            }
        }
        assert(s[q] == '"') by {
            assert(s[p + (q - p)] == text[q - p]);
        }
        lemma_quote_end_stops(s, d + 1, q);
        assert(q + 1 == e);
        lemma_skip_space_stops(s, e, e);
        assert(s.subrange(p, b) =~= k);
        assert forall|t: int| 0 <= t < v.len() implies s[d + 1 + t] == #[trigger] v[t] by {
            assert(s[p + (d + 1 + t - p)] == text[d + 1 + t - p]);
        }
        assert(s.subrange(d + 1, q) =~= v);
    } else {
        assert(quoted(v) == v);
        if v.len() > 0 {
            assert(s[d] == v[0]) by {
                assert(s[p + (k.len() + 1)] == text[k.len() as int + 1]);
            }
            if s[d] == '"' {
                assert(v.contains('"'));
            }
        }
        lemma_skip_space_stops(s, d, d);
        assert forall|t: int| d <= t < e implies #[trigger] s[t] != ' ' && s[t] != ',' by {
            assert(s[p + (t - p)] == text[t - p]);
            assert(text[t - p] == v[t - d]);
            if s[t] == ' ' {
                assert(v.contains(' '));
            }
            if s[t] == ',' {
                assert(v.contains(','));
            }
        }
        lemma_bare_end_stops(s, d, e);
        lemma_skip_space_stops(s, e, e);
        assert(s.subrange(p, b) =~= k);
        assert forall|t: int| 0 <= t < v.len() implies s[d + t] == #[trigger] v[t] by {
            assert(s[p + (d + t - p)] == text[d + t - p]);
        }
        assert(s.subrange(d, e) =~= v);
    }
}

/// Where the field `i` of the written list `fs` ends.
pub open spec fn field_end(fs: Seq<Field>, i: int) -> int {
    join_fields(fs.subrange(0, i + 1)).len() as int
}

/// Where the field `i` of the written list `fs` starts.
pub open spec fn field_start(fs: Seq<Field>, i: int) -> int {
    if i == 0 {
        0
    } else {
        join_fields(fs.subrange(0, i)).len() as int + 2
    }
}

proof fn lemma_join_fields_prefix(fs: Seq<Field>, m: int)
    requires
        1 <= m <= fs.len(),
    ensures
        join_fields(fs.subrange(0, m)).len() <= join_fields(fs).len(),
        join_fields(fs).subrange(0, join_fields(fs.subrange(0, m)).len() as int) == join_fields(
            fs.subrange(0, m),
        ),
    decreases fs.len(),
{
    if m == fs.len() {
        assert(fs.subrange(0, m) =~= fs);
        assert(join_fields(fs).subrange(0, join_fields(fs).len() as int) =~= join_fields(fs));
    } else {
        lemma_join_fields_prefix(fs.drop_last(), m);
        assert(fs.drop_last().subrange(0, m) =~= fs.subrange(0, m));
        let p = join_fields(fs.subrange(0, m));
        let d = join_fields(fs.drop_last());
        assert(join_fields(fs) == d + ", "@ + field_text(fs.last()));
        assert(join_fields(fs).subrange(0, p.len() as int) =~= d.subrange(0, p.len() as int));
    }
}

proof fn lemma_join_fields_step(fs: Seq<Field>, i: int)
    requires
        0 <= i < fs.len(),
    ensures
        i == 0 ==> join_fields(fs.subrange(0, i + 1)) == field_text(fs[0]),
        i > 0 ==> join_fields(fs.subrange(0, i + 1)) == join_fields(fs.subrange(0, i)) + ", "@
            + field_text(fs[i]),
{
    let t = fs.subrange(0, i + 1);
    assert(t.drop_last() =~= fs.subrange(0, i));
    assert(t.last() == fs[i]);
    if i == 0 {
        assert(t[0] == fs[0]);
    }
}

/// The field `i` stands at its place in the written list, followed by `, `
/// or by the end.
proof fn lemma_field_position(fs: Seq<Field>, i: int)
    requires
        0 <= i < fs.len(),
    ensures
        field_end(fs, i) == field_start(fs, i) + field_text(fs[i]).len(),
        field_end(fs, i) <= join_fields(fs).len(),
        join_fields(fs).subrange(field_start(fs, i), field_end(fs, i)) == field_text(fs[i]),
        i == fs.len() - 1 ==> field_end(fs, i) == join_fields(fs).len(),
        i < fs.len() - 1 ==> join_fields(fs)[field_end(fs, i)] == ',' && join_fields(fs)[field_end(
            fs,
            i,
        ) + 1] == ' ',
{
    reveal_strlit(", ");
    let s = join_fields(fs);
    let j1 = join_fields(fs.subrange(0, i + 1));
    let p = field_start(fs, i);
    let e = field_end(fs, i);
    lemma_join_fields_prefix(fs, i + 1);
    lemma_join_fields_step(fs, i);
    assert(j1.subrange(p, e) =~= field_text(fs[i]));
    assert(s.subrange(p, e) =~= j1.subrange(p, e)) by {
        assert forall|t: int| p <= t < e implies s[t] == j1[t] by {
            assert(s.subrange(0, j1.len() as int)[t] == s[t]);
        }
    }
    if i == fs.len() - 1 {
        assert(fs.subrange(0, i + 1) =~= fs);
    } else {
        lemma_join_fields_prefix(fs, i + 2);
        lemma_join_fields_step(fs, i + 1);
        let j2 = join_fields(fs.subrange(0, i + 2));
        assert(j2 == j1 + ", "@ + field_text(fs[i + 1]));
        assert(s.subrange(0, j2.len() as int)[e] == s[e]);
        assert(s.subrange(0, j2.len() as int)[e + 1] == s[e + 1]);
    }
}

proof fn lemma_more_fields_read_back(fs: Seq<Field>, i: int)
    requires
        0 <= i < fs.len(),
        forall|j: int| 0 <= j < fs.len() ==> is_plain_field(#[trigger] fs[j]),
    ensures
        more_fields(join_fields(fs), field_end(fs, i)) == (
            join_fields(fs).len() as int,
            fs.subrange(i + 1, fs.len() as int),
        ),
    decreases fs.len() - i,
{
    let s = join_fields(fs);
    lemma_field_position(fs, i);
    if i == fs.len() - 1 {
        assert(fs.subrange(i + 1, fs.len() as int) =~= Seq::<Field>::empty());
    } else {
        let e = field_end(fs, i);
        lemma_field_position(fs, i + 1);
        lemma_join_fields_step(fs, i + 1);
        assert(field_start(fs, i + 1) == e + 2);
        assert(is_space(s[e + 1]));
        assert forall|t: int| e + 1 <= t < e + 2 implies is_space(#[trigger] s[t]) by {}
        if i + 1 < fs.len() - 1 {
            assert(s[field_end(fs, i + 1)] == ',');
        }
        lemma_field_reads_back(s, e + 1, e + 2, fs[i + 1]);
        lemma_more_fields_read_back(fs, i + 1);
        assert(fs.subrange(i + 1, fs.len() as int) =~= seq![fs[i + 1]] + fs.subrange(
            i + 2,
            fs.len() as int,
        ));
    }
}

/// Fields written by the serializer read back as the same fields, where
/// each is a key of letters and digits and a plain value.
pub proof fn lemma_fields_read_back(fs: Seq<Field>)
    requires
        forall|i: int| 0 <= i < fs.len() ==> is_plain_field(#[trigger] fs[i]),
    ensures
        parse_fields(join_fields(fs)) == Some(fs),
{
    let s = join_fields(fs);
    if fs.len() == 0 {
        assert(fs =~= Seq::<Field>::empty());
    } else {
        lemma_field_position(fs, 0);
        if fs.len() > 1 {
            assert(s[field_end(fs, 0)] == ',');
        }
        assert(fs.subrange(0, 1).len() == 1);
        lemma_field_reads_back(s, 0, 0, fs[0]);
        lemma_more_fields_read_back(fs, 0);
        assert(seq![fs[0]] + fs.subrange(1, fs.len() as int) =~= fs);
    }
}

/// A header that reads back as itself: plain values, other fields with keys
/// of letters and digits that are none of the four named ones, and `headers`
/// made of words, at least one.
pub open spec fn reads_back(h: HeaderView) -> bool {
    &&& h.key_id matches Some(k) ==> is_plain_value(k)
    &&& is_plain_value(h.algorithm)
    &&& is_plain_value(join_words(h.headers))
    &&& is_plain_value(h.signature)
    &&& forall|i: int| 0 <= i < h.other.len() ==> is_plain_field(#[trigger] h.other[i])
    &&& forall|i: int| 0 <= i < h.other.len() ==> !is_named(#[trigger] h.other[i].0)
    &&& forall|i: int| 0 <= i < h.headers.len() ==> is_word(#[trigger] h.headers[i])
    &&& h.headers.len() > 0
}

proof fn lemma_last_value_skips(x: Seq<Field>, y: Seq<Field>, k: Seq<char>)
    requires
        forall|i: int| 0 <= i < y.len() ==> (#[trigger] y[i]).0 != k,
    ensures
        last_value(x + y, k) == last_value(x, k),
    decreases y.len(),
{
    if y.len() == 0 {
        assert(x + y =~= x);
    } else {
        assert((x + y).drop_last() =~= x + y.drop_last());
        assert((x + y).last() == y[y.len() - 1]);
        lemma_last_value_skips(x, y.drop_last(), k);
    }
}

proof fn lemma_other_fields_keeps(x: Seq<Field>, y: Seq<Field>)
    requires
        forall|i: int| 0 <= i < y.len() ==> !is_named((#[trigger] y[i]).0),
    ensures
        other_fields(x + y) == other_fields(x) + y,
    decreases y.len(),
{
    if y.len() == 0 {
        assert(x + y =~= x);
        assert(other_fields(x) + y =~= other_fields(x));
    } else {
        assert((x + y).drop_last() =~= x + y.drop_last());
        assert((x + y).last() == y[y.len() - 1]);
        lemma_other_fields_keeps(x, y.drop_last());
        assert(other_fields(x) + y =~= (other_fields(x) + y.drop_last()).push(y.last()));
    }
}

/// The words of `headers` written with single spaces read back as `headers`.
proof fn lemma_words_read_back(ws: Seq<Seq<char>>)
    requires
        forall|i: int| 0 <= i < ws.len() ==> is_word(#[trigger] ws[i]),
    ensures
        words(join_words(ws)) == ws,
{
    if ws.len() == 0 {
        assert(join_words(ws) =~= seq![]);
        assert(split_prefix(join_words(ws), 0) == (Seq::<Seq<char>>::empty(), Seq::<char>::empty()));
        assert(words(join_words(ws)) =~= ws);
    } else {
        lemma_split_joined(ws);
        assert(ws.last().len() > 0) by {
            assert(is_word(ws[ws.len() - 1]));
        }
        assert(ws.drop_last().push(ws.last()) =~= ws);
    }
}

/// A serialized header parses back to itself.
pub proof fn lemma_header_reads_back(h: HeaderView)
    requires
        reads_back(h),
    ensures
        parse_outcome(serialize(h)) == HeaderOutcome::Parsed(h),
{
    reveal_strlit("keyId");
    reveal_strlit("algorithm");
    reveal_strlit("headers");
    reveal_strlit("signature");
    assert("keyId"@[0] == 'k' && "algorithm"@[0] == 'a');
    assert("headers"@[0] == 'h' && "signature"@[0] == 's');
    assert(is_key("keyId"@));
    assert(is_key("algorithm"@));
    assert(is_key("headers"@));
    assert(is_key("signature"@));
    let named = seq![
        ("algorithm"@, h.algorithm),
        ("headers"@, join_words(h.headers)),
        ("signature"@, h.signature),
    ];
    let front = match h.key_id {
        Some(k) => seq![("keyId"@, k)] + named,
        None => named,
    };
    let fs = header_fields(h);
    assert(fs == front + h.other);
    assert forall|i: int| 0 <= i < fs.len() implies is_plain_field(#[trigger] fs[i]) by {
        if i >= front.len() {
            assert(fs[i] == h.other[i - front.len()]);
        }
    }
    lemma_fields_read_back(fs);
    assert forall|i: int| 0 <= i < h.other.len() implies (#[trigger] h.other[i]).0 != "keyId"@
        && h.other[i].0 != "algorithm"@ && h.other[i].0 != "headers"@ && h.other[i].0
        != "signature"@ by {
        assert(!is_named(h.other[i].0));
    }
    lemma_last_value_skips(front, h.other, "keyId"@);
    lemma_last_value_skips(front, h.other, "algorithm"@);
    lemma_last_value_skips(front, h.other, "headers"@);
    lemma_last_value_skips(front, h.other, "signature"@);
    lemma_other_fields_keeps(front, h.other);
    lemma_words_read_back(h.headers);
    reveal_with_fuel(last_value, 5);
    reveal_with_fuel(other_fields, 5);
    assert(named.drop_last().drop_last().drop_last() =~= Seq::<Field>::empty());
    assert(named.drop_last().drop_last() =~= seq![("algorithm"@, h.algorithm)]);
    assert(named.drop_last() =~= seq![("algorithm"@, h.algorithm), ("headers"@, join_words(h.headers))]);
    if h.key_id is Some {
        let k = h.key_id->0;
        assert(front.drop_last() =~= seq![("keyId"@, k), ("algorithm"@, h.algorithm), ("headers"@, join_words(h.headers))]);
        assert(front.drop_last().drop_last() =~= seq![("keyId"@, k), ("algorithm"@, h.algorithm)]);
        assert(front.drop_last().drop_last().drop_last() =~= seq![("keyId"@, k)]);
        assert(front.drop_last().drop_last().drop_last().drop_last() =~= Seq::<Field>::empty());
        assert(last_value(front, "keyId"@) == Some(k));
        assert(other_fields(front) =~= Seq::<Field>::empty());
    } else {
        assert(last_value(front, "keyId"@) is None);
        assert(other_fields(front) =~= Seq::<Field>::empty());
    }
    assert(last_value(front, "algorithm"@) == Some(h.algorithm));
    assert(last_value(front, "headers"@) == Some(join_words(h.headers)));
    assert(last_value(front, "signature"@) == Some(h.signature));
    assert(Seq::<Field>::empty() + h.other =~= h.other);
    assert(missing_field(fs) is None);
    assert(header_view_of(fs) == h);
}

/// A character that a header value shows as text: visible ASCII or tab.
pub open spec fn is_visible_char(c: char) -> bool {
    let u = c as u32;
    (32 <= u < 127) || u == 9
}

/// Characters that a header value shows as text: visible ASCII and tab.
pub open spec fn is_visible_text(t: Seq<char>) -> bool {
    forall|i: int| 0 <= i < t.len() ==> is_visible_char(#[trigger] t[i])
}

proof fn lemma_first_match_append(x: Seq<(Seq<char>, Seq<u8>)>, y: Seq<(Seq<char>, Seq<u8>)>, n: Seq<char>)
    ensures
        first_match(x + y, n) == if first_match(x, n) is Some {
            first_match(x, n)
        } else {
            first_match(y, n)
        },
    decreases x.len(),
{
    if x.len() == 0 {
        assert(x + y =~= y);
    } else {
        assert((x + y).drop_first() =~= x.drop_first() + y);
        assert((x + y)[0] == x[0]);
        lemma_first_match_append(x.drop_first(), y, n);
    }
}

proof fn lemma_first_match_one(e: (Seq<char>, Seq<u8>), n: Seq<char>)
    ensures
        first_match(seq![e], n) == if names_match(e.0, n) {
            Some(e.1)
        } else {
            None::<Seq<u8>>
        },
{
    assert(seq![e].drop_first() =~= Seq::<(Seq<char>, Seq<u8>)>::empty());
    assert(seq![e][0] == e);
    assert(first_match(Seq::<(Seq<char>, Seq<u8>)>::empty(), n) is None);
}

proof fn lemma_names_match_transitive(a: Seq<char>, b: Seq<char>, c: Seq<char>)
    requires
        names_match(a, b),
        names_match(a, c),
    ensures
        names_match(b, c),
{
    assert forall|i: int| 0 <= i < b.len() implies ascii_lower(b[i]) == ascii_lower(c[i]) by {
        assert(ascii_lower(a[i]) == ascii_lower(b[i]));
        assert(ascii_lower(a[i]) == ascii_lower(c[i]));
    }
}

/// Dropping the `signature` fields changes no lookup of another name, and
/// leaves none for `signature`.
proof fn lemma_first_match_without_signature(hs: Seq<(Seq<char>, Seq<u8>)>, n: Seq<char>)
    ensures
        !names_match(n, "signature"@) ==> first_match(
            hs.filter(|p: (Seq<char>, Seq<u8>)| !names_match(p.0, "signature"@)),
            n,
        ) == first_match(hs, n),
        first_match(
            hs.filter(|p: (Seq<char>, Seq<u8>)| !names_match(p.0, "signature"@)),
            "signature"@,
        ) is None,
    decreases hs.len(),
{
    let keep = |p: (Seq<char>, Seq<u8>)| !names_match(p.0, "signature"@);
    if hs.len() == 0 {
        assert(hs.filter(keep) =~= hs) by {
            reveal(Seq::filter);
        }
    } else {
        let front = hs.drop_last();
        let e = hs.last();
        lemma_first_match_without_signature(front, n);
        assert(hs.filter(keep) == if keep(e) {
            front.filter(keep).push(e)
        } else {
            front.filter(keep)
        }) by {
            reveal(Seq::filter);
        }
        assert(hs =~= front + seq![e]);
        lemma_first_match_append(front, seq![e], n);
        lemma_first_match_one(e, n);
        lemma_first_match_one(e, "signature"@);
        if keep(e) {
            assert(front.filter(keep).push(e) =~= front.filter(keep) + seq![e]);
            lemma_first_match_append(front.filter(keep), seq![e], n);
            lemma_first_match_append(front.filter(keep), seq![e], "signature"@);
        } else if !names_match(n, "signature"@) && names_match(e.0, n) {
            lemma_names_match_transitive(e.0, n, "signature"@);
        }
    }
}

proof fn lemma_visible_encode(t: Seq<char>)
    requires
        is_visible_text(t),
    ensures
        encode_utf8(t).len() == t.len(),
        forall|i: int|
            0 <= i < t.len() ==> is_visible_ascii(#[trigger] encode_utf8(t)[i]) && (encode_utf8(
                t,
            )[i] as char) == t[i],
    decreases t.len(),
{
    if t.len() > 0 {
        let rest = t.drop_first();
        assert forall|i: int| 0 <= i < rest.len() implies is_visible_char(#[trigger] rest[i]) by {
            assert(rest[i] == t[i + 1]);
        }
        lemma_visible_encode(rest);
        assert(is_visible_char(t[0]));
        let u = t[0] as u32;
        assert(u < 128);
        assert((u & 0x7F) == u) by (bit_vector)
            requires
                u < 128,
        ;
        assert(encode_scalar(u) == seq![u as u8]);
        let b = encode_utf8(t);
        assert(b == seq![u as u8] + encode_utf8(rest));
        assert forall|i: int| 0 <= i < t.len() implies is_visible_ascii(#[trigger] b[i]) && (b[i]
            as char) == t[i] by {
            if i == 0 {
                assert(b[0] == u as u8);
                vstd::utf8::char_u32_cast(t[0], u);
                assert((u as u8) as u32 == u);
                assert(((u as u8) as char) == t[0]);
            } else {
                assert(b[i] == encode_utf8(rest)[i - 1]);
                assert(t[i] == rest[i - 1]);
            }
        }
    }
}

/// Visible ASCII text, written as UTF-8, shows as the same text.
proof fn lemma_visible_text_shows(t: Seq<char>)
    requires
        is_visible_text(t),
    ensures
        header_text(encode_utf8(t)) == Some(t),
{
    lemma_visible_encode(t);
    let b = encode_utf8(t);
    let m = b.map_values(|x: u8| x as char);
    assert forall|i: int| 0 <= i < b.len() implies #[trigger] m[i] == t[i] by {}
    assert(m =~= t);
}

/// Where a request's `signature` header is set to the text of `h`, a header
/// that reads back as itself in visible ASCII and whose signed names do not
/// select `signature`: the header parses back to `h`, and the signing string
/// under its names is the one the request had before.
pub proof fn lemma_signature_reads_back(req: RequestView, h: HeaderView, target: Seq<char>)
    requires
        reads_back(h),
        is_visible_text(serialize(h)),
        forall|k: int| 0 <= k < h.headers.len() ==> !names_match(#[trigger] h.headers[k], "signature"@),
    ensures
        header_outcome(with_signature(req, h).headers) == HeaderOutcome::Parsed(h),
        signing_string(h.headers, target, h.other, with_signature(req, h).headers) == signing_string(
            h.headers,
            target,
            h.other,
            req.headers,
        ),
{
    let keep = |p: (Seq<char>, Seq<u8>)| !names_match(p.0, "signature"@);
    let kept = req.headers.filter(keep);
    let e = ("signature"@, encode_utf8(serialize(h)));
    let hs2 = with_signature(req, h).headers;
    assert(hs2 == kept.push(e));
    assert(kept.push(e) =~= kept + seq![e]);
    lemma_first_match_without_signature(req.headers, "signature"@);
    lemma_first_match_append(kept, seq![e], "signature"@);
    lemma_first_match_one(e, "signature"@);
    assert(names_match("signature"@, "signature"@));
    lemma_visible_text_shows(serialize(h));
    lemma_header_reads_back(h);
    assert forall|k: int| 0 <= k < h.headers.len() implies field_value(
        #[trigger] h.headers[k],
        target,
        h.other,
        hs2,
    ) == field_value(h.headers[k], target, h.other, req.headers) by {
        let n = h.headers[k];
        lemma_first_match_without_signature(req.headers, n);
        lemma_first_match_append(kept, seq![e], n);
        lemma_first_match_one(e, n);
        if names_match(e.0, n) {
            lemma_names_match_transitive(e.0, n, "signature"@);
            assert(names_match(e.0, "signature"@));
        }
    }
    assert(signed_lines(h.headers, target, h.other, hs2) =~= signed_lines(
        h.headers,
        target,
        h.other,
        req.headers,
    ));
}

/// Base64 text is a plain value in visible ASCII.
pub proof fn lemma_base64_text_is_plain(sig: Seq<char>)
    requires
        forall|i: int| 0 <= i < sig.len() ==> is_base64_char(#[trigger] sig[i]),
    ensures
        is_plain_value(sig),
        is_visible_text(sig),
{
    assert forall|i: int| 0 <= i < sig.len() implies is_visible_char(#[trigger] sig[i]) by {
        assert(is_base64_char(sig[i]));
    }
    if sig.contains('"') {
        let i = choose|i: int| 0 <= i < sig.len() && sig[i] == '"';
        assert(is_base64_char(sig[i]));
    }
    if sig.contains(',') {
        let i = choose|i: int| 0 <= i < sig.len() && sig[i] == ',';
        assert(is_base64_char(sig[i]));
    }
    if sig.len() > 0 {
        assert(is_base64_char(sig[0]));
    }
}

/// Verification reads back what signing wrote. Where the header that a
/// configuration publishes with the signature text `sig` reads back as
/// itself in visible ASCII, and no signed name selects `signature`: once
/// that header is set in the request, verification parses exactly that
/// header, and the signing string it rebuilds is the one that
/// [`SigningConfig::signing_string`] gave for the request before.
pub proof fn lemma_sign_then_verify<A: Algorithm>(c: SigningConfig<A>, req: RequestView, sig: Seq<char>)
    requires
        reads_back(c.signed_header(sig)),
        is_visible_text(serialize(c.signed_header(sig))),
        forall|k: int|
            0 <= k < c.signed_headers@.len() ==> !names_match(
                #[trigger] strings_view(c.signed_headers@)[k],
                "signature"@,
            ),
    ensures
        header_outcome(with_signature(req, c.signed_header(sig)).headers) == HeaderOutcome::Parsed(
            c.signed_header(sig),
        ),
        with_signature(req, c.signed_header(sig)).method == req.method,
        with_signature(req, c.signed_header(sig)).path == req.path,
        with_signature(req, c.signed_header(sig)).query == req.query,
        signing_string(
            c.signed_header(sig).headers,
            request_target(req.method, req.path, req.query),
            c.signed_header(sig).other,
            with_signature(req, c.signed_header(sig)).headers,
        ) == signing_string(
            strings_view(c.signed_headers@),
            request_target(req.method, req.path, req.query),
            pairs_view(c.other@),
            req.headers,
        ),
{
    let h = c.signed_header(sig);
    assert forall|k: int| 0 <= k < h.headers.len() implies !names_match(
        #[trigger] h.headers[k],
        "signature"@,
    ) by {
        assert(h.headers[k] == strings_view(c.signed_headers@)[k]);
    }
    lemma_signature_reads_back(req, h, request_target(req.method, req.path, req.query));
}

} // verus!
