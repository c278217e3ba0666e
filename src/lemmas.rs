//! What the signing string guarantees: it changes with every signed value and
//! with the order of the names, and with nothing else.
use vstd::prelude::*;
use crate::grammar::Field;
use crate::request::{first_match, header_text, names_match};
use crate::signature::{
    field_value, header_outcome, join_lines, line, or_empty, request_target, signed_lines,
    signing_string,
};
use crate::signature_header::{
    header_view_of, is_named, is_white_space, join_words, last_value, missing_field, other_fields,
    split_prefix, words,
};
use crate::text::lower_of;

verus! {

/// Changing the value of the entry `i` changes what a lookup of `n` finds
/// only where that lookup finds the entry `i`.
pub proof fn lemma_first_match_update(
    hs: Seq<(Seq<char>, Seq<u8>)>,
    i: int,
    value: Seq<u8>,
    n: Seq<char>,
)
    requires
        0 <= i < hs.len(),
    ensures
        !names_match(hs[i].0, n) ==> first_match(hs.update(i, (hs[i].0, value)), n) == first_match(hs, n),
        first_match(hs.update(i, (hs[i].0, value)), n) == first_match(hs, n) || (first_match(hs, n)
            == Some(hs[i].1) && first_match(hs.update(i, (hs[i].0, value)), n) == Some(value)),
        (names_match(hs[i].0, n) && forall|j: int| 0 <= j < i ==> !names_match(#[trigger] hs[j].0, n))
            ==> (first_match(hs, n) == Some(hs[i].1) && first_match(
            hs.update(i, (hs[i].0, value)),
            n,
        ) == Some(value)),
    decreases hs.len(),
{
    let hs2 = hs.update(i, (hs[i].0, value));
    if i == 0 {
        assert(hs2.drop_first() =~= hs.drop_first());
    } else {
        assert(hs2[0] == hs[0]);
        assert(hs2.drop_first() =~= hs.drop_first().update(i - 1, (hs[i].0, value)));
        assert(hs.drop_first()[i - 1] == hs[i]);
        if !names_match(hs[0].0, n) {
            lemma_first_match_update(hs.drop_first(), i - 1, value, n);
            assert forall|j: int| 0 <= j < i - 1 && (names_match(hs[i].0, n) && forall|j: int|
                0 <= j < i ==> !names_match(#[trigger] hs[j].0, n)) implies !names_match(
                #[trigger] hs.drop_first()[j].0,
                n,
            ) by {
                assert(hs.drop_first()[j] == hs[j + 1]);
            }
        } else {
            assert(!(forall|j: int| 0 <= j < i ==> !names_match(#[trigger] hs[j].0, n))) by {
                assert(names_match(hs[0].0, n));
            }
        }
    }
}

/// Changing a header field that no signed name selects, and that is not the
/// `Signature:` header, changes neither the signing string nor the header
/// that verification reads.
pub proof fn lemma_unsigned_header_immaterial(
    names: Seq<Seq<char>>,
    target: Seq<char>,
    other: Seq<Field>,
    hs: Seq<(Seq<char>, Seq<u8>)>,
    i: int,
    value: Seq<u8>,
)
    requires
        0 <= i < hs.len(),
        forall|k: int| 0 <= k < names.len() ==> !names_match(hs[i].0, #[trigger] names[k]),
        !names_match(hs[i].0, "signature"@),
    ensures
        signing_string(names, target, other, hs.update(i, (hs[i].0, value))) == signing_string(
            names,
            target,
            other,
            hs,
        ),
        header_outcome(hs.update(i, (hs[i].0, value))) == header_outcome(hs),
{
    let hs2 = hs.update(i, (hs[i].0, value));
    lemma_first_match_update(hs, i, value, "signature"@);
    assert forall|k: int| 0 <= k < names.len() implies field_value(names[k], target, other, hs2)
        == field_value(names[k], target, other, hs) by {
        lemma_first_match_update(hs, i, value, names[k]);
    }
    assert(signed_lines(names, target, other, hs2) =~= signed_lines(names, target, other, hs));
}

/// The total length of the lines.
pub open spec fn total_len(ls: Seq<Seq<char>>) -> int
    decreases ls.len(),
{
    if ls.len() == 0 {
        0
    } else {
        total_len(ls.drop_last()) + ls.last().len()
    }
}

/// The lines that the names `names` make with the values `vals`.
pub open spec fn lines_of(names: Seq<Seq<char>>, vals: Seq<Seq<char>>) -> Seq<Seq<char>> {
    Seq::new(names.len(), |k: int| line(names[k], vals[k]))
}

proof fn lemma_join_len(ls: Seq<Seq<char>>)
    requires
        ls.len() >= 1,
    ensures
        join_lines(ls).len() == total_len(ls) + ls.len() - 1,
    decreases ls.len(),
{
    reveal_strlit("\n");
    assert("\n"@.len() == 1);
    assert(total_len(ls.drop_last()) + ls.last().len() == total_len(ls));
    if ls.len() > 1 {
        lemma_join_len(ls.drop_last());
        assert(join_lines(ls) == join_lines(ls.drop_last()) + "\n"@ + ls.last());
    } else {
        assert(total_len(ls.drop_last()) == 0);
        assert(ls.last() == ls[0]);
    }
}

proof fn lemma_total_ge(l1: Seq<Seq<char>>, l2: Seq<Seq<char>>)
    requires
        l1.len() == l2.len(),
        forall|k: int| 0 <= k < l1.len() ==> #[trigger] l1[k].len() >= l2[k].len(),
    ensures
        total_len(l1) >= total_len(l2),
        (forall|k: int| 0 <= k < l1.len() ==> #[trigger] l1[k].len() == l2[k].len()) ==> total_len(
            l1,
        ) == total_len(l2),
    decreases l1.len(),
{
    if l1.len() > 0 {
        lemma_total_ge(l1.drop_last(), l2.drop_last());
        assert(l1.last() == l1[l1.len() - 1]);
    }
}

proof fn lemma_total_gt(l1: Seq<Seq<char>>, l2: Seq<Seq<char>>, k0: int)
    requires
        l1.len() == l2.len(),
        0 <= k0 < l1.len(),
        l1[k0].len() > l2[k0].len(),
        forall|k: int| 0 <= k < l1.len() ==> #[trigger] l1[k].len() >= l2[k].len(),
    ensures
        total_len(l1) > total_len(l2),
    decreases l1.len(),
{
    if k0 == l1.len() - 1 {
        lemma_total_ge(l1.drop_last(), l2.drop_last());
    } else {
        lemma_total_gt(l1.drop_last(), l2.drop_last(), k0);
        assert(l1.last() == l1[l1.len() - 1]);
    }
}

/// The joined first `m` lines begin the joined lines.
proof fn lemma_join_prefix(ls: Seq<Seq<char>>, m: int)
    requires
        1 <= m <= ls.len(),
    ensures
        join_lines(ls.subrange(0, m)).len() <= join_lines(ls).len(),
        join_lines(ls).subrange(0, join_lines(ls.subrange(0, m)).len() as int) == join_lines(
            ls.subrange(0, m),
        ),
    decreases ls.len(),
{
    if m == ls.len() {
        assert(ls.subrange(0, m) =~= ls);
        assert(join_lines(ls).subrange(0, join_lines(ls).len() as int) =~= join_lines(ls));
    } else {
        lemma_join_prefix(ls.drop_last(), m);
        assert(ls.drop_last().subrange(0, m) =~= ls.subrange(0, m));
        let p = join_lines(ls.subrange(0, m));
        let d = join_lines(ls.drop_last());
        assert(join_lines(ls) == d + "\n"@ + ls.last());
        assert(join_lines(ls).subrange(0, p.len() as int) =~= d.subrange(0, p.len() as int));
    }
}

/// Lines of equal lengths, one pair of which differs, join to different
/// strings.
proof fn lemma_equal_lengths_differ(l1: Seq<Seq<char>>, l2: Seq<Seq<char>>, k0: int)
    requires
        l1.len() == l2.len(),
        0 <= k0 < l1.len(),
        l1[k0] != l2[k0],
        forall|k: int| 0 <= k < l1.len() ==> #[trigger] l1[k].len() == l2[k].len(),
    ensures
        join_lines(l1) != join_lines(l2),
{
    reveal_strlit("\n");
    let m = k0 + 1;
    let s1 = l1.subrange(0, m);
    let s2 = l2.subrange(0, m);
    lemma_join_prefix(l1, m);
    lemma_join_prefix(l2, m);
    lemma_join_len(s1);
    lemma_join_len(s2);
    lemma_total_ge(s1, s2);
    let q1 = join_lines(s1);
    let q2 = join_lines(s2);
    assert(q1.len() == q2.len());
    if k0 == 0 {
        assert(q1 == l1[0]);
        assert(q2 == l2[0]);
    } else {
        let d1 = join_lines(s1.drop_last());
        let d2 = join_lines(s2.drop_last());
        lemma_join_len(s1.drop_last());
        lemma_join_len(s2.drop_last());
        lemma_total_ge(s1.drop_last(), s2.drop_last());
        assert(d1.len() == d2.len());
        assert(q1 == d1 + "\n"@ + l1[k0]);
        assert(q2 == d2 + "\n"@ + l2[k0]);
        if q1 == q2 {
            assert(q1.subrange(d1.len() as int + 1, q1.len() as int) =~= l1[k0]);
            assert(q2.subrange(d2.len() as int + 1, q2.len() as int) =~= l2[k0]);
        }
    }
    assert(q1 != q2);
}

/// `x + m1 + y` and `x + m2 + y` differ where `m1` and `m2` do.
proof fn lemma_middle_differs(x: Seq<char>, m1: Seq<char>, m2: Seq<char>, y: Seq<char>)
    requires
        m1 != m2,
    ensures
        x + m1 + y != x + m2 + y,
{
    if m1.len() == m2.len() && x + m1 + y == x + m2 + y {
        assert((x + m1 + y).subrange(x.len() as int, (x.len() + m1.len()) as int) =~= m1);
        assert((x + m2 + y).subrange(x.len() as int, (x.len() + m2.len()) as int) =~= m2);
    }
    if m1.len() != m2.len() {
        assert((x + m1 + y).len() != (x + m2 + y).len());
    }
}

/// Where every value changes, if at all, from `a` to `b`, and one does, the
/// joined lines differ.
proof fn lemma_values_tampered(
    names: Seq<Seq<char>>,
    v1: Seq<Seq<char>>,
    v2: Seq<Seq<char>>,
    a: Seq<char>,
    b: Seq<char>,
    k0: int,
)
    requires
        names.len() == v1.len(),
        names.len() == v2.len(),
        0 <= k0 < names.len(),
        v1[k0] != v2[k0],
        forall|k: int| 0 <= k < names.len() ==> #[trigger] v1[k] == v2[k] || (v1[k] == a && v2[k] == b),
    ensures
        join_lines(lines_of(names, v1)) != join_lines(lines_of(names, v2)),
{
    let l1 = lines_of(names, v1);
    let l2 = lines_of(names, v2);
    assert(l1[k0] != l2[k0]) by {
        lemma_middle_differs(lower_of(names[k0]) + ": "@, v1[k0], v2[k0], seq![]);
        assert(l1[k0] =~= lower_of(names[k0]) + ": "@ + v1[k0] + seq![]);
        assert(l2[k0] =~= lower_of(names[k0]) + ": "@ + v2[k0] + seq![]);
    }
    if a.len() == b.len() {
        assert forall|k: int| 0 <= k < l1.len() implies #[trigger] l1[k].len() == l2[k].len() by {
            assert(v1[k] == v2[k] || (v1[k] == a && v2[k] == b));
        }
        lemma_equal_lengths_differ(l1, l2, k0);
    } else {
        lemma_join_len(l1);
        lemma_join_len(l2);
        if a.len() > b.len() {
            assert forall|k: int| 0 <= k < l1.len() implies #[trigger] l1[k].len() >= l2[k].len() by {
                assert(v1[k] == v2[k] || (v1[k] == a && v2[k] == b));
            }
            lemma_total_gt(l1, l2, k0);
        } else {
            assert forall|k: int| 0 <= k < l1.len() implies #[trigger] l2[k].len() >= l1[k].len() by {
                assert(v1[k] == v2[k] || (v1[k] == a && v2[k] == b));
            }
            lemma_total_gt(l2, l1, k0);
        }
    }
}

/// The values that the names select.
pub open spec fn values_of(
    names: Seq<Seq<char>>,
    target: Seq<char>,
    other: Seq<Field>,
    hs: Seq<(Seq<char>, Seq<u8>)>,
) -> Seq<Seq<char>> {
    Seq::new(names.len(), |k: int| field_value(names[k], target, other, hs))
}

proof fn lemma_signed_lines_are_lines_of(
    names: Seq<Seq<char>>,
    target: Seq<char>,
    other: Seq<Field>,
    hs: Seq<(Seq<char>, Seq<u8>)>,
)
    ensures
        signed_lines(names, target, other, hs) == lines_of(
            names,
            values_of(names, target, other, hs),
        ),
{
    assert(signed_lines(names, target, other, hs) =~= lines_of(
        names,
        values_of(names, target, other, hs),
    ));
}

/// Changing the value of the header field that a signed name selects, so
/// that the text it contributes changes, changes the signing string.
pub proof fn lemma_signed_header_tamper(
    names: Seq<Seq<char>>,
    target: Seq<char>,
    other: Seq<Field>,
    hs: Seq<(Seq<char>, Seq<u8>)>,
    i: int,
    value: Seq<u8>,
    k: int,
)
    requires
        0 <= i < hs.len(),
        0 <= k < names.len(),
        !names_match(names[k], "(request-target)"@),
        !names_match(names[k], "(created)"@),
        !names_match(names[k], "(expires)"@),
        names_match(hs[i].0, names[k]),
        forall|j: int| 0 <= j < i ==> !names_match(#[trigger] hs[j].0, names[k]),
        or_empty(header_text(hs[i].1)) != or_empty(header_text(value)),
    ensures
        signing_string(names, target, other, hs.update(i, (hs[i].0, value))) != signing_string(
            names,
            target,
            other,
            hs,
        ),
{
    let hs2 = hs.update(i, (hs[i].0, value));
    let v1 = values_of(names, target, other, hs2);
    let v2 = values_of(names, target, other, hs);
    let a = or_empty(header_text(value));
    let b = or_empty(header_text(hs[i].1));
    lemma_first_match_update(hs, i, value, names[k]);
    assert forall|j: int| 0 <= j < names.len() implies #[trigger] v1[j] == v2[j] || (v1[j] == a
        && v2[j] == b) by {
        lemma_first_match_update(hs, i, value, names[j]);
    }
    lemma_values_tampered(names, v1, v2, a, b, k);
    lemma_signed_lines_are_lines_of(names, target, other, hs2);
    lemma_signed_lines_are_lines_of(names, target, other, hs);
}

/// Changing the request target, where `(request-target)` is signed, changes
/// the signing string.
pub proof fn lemma_request_target_tamper(
    names: Seq<Seq<char>>,
    t1: Seq<char>,
    t2: Seq<char>,
    other: Seq<Field>,
    hs: Seq<(Seq<char>, Seq<u8>)>,
    k: int,
)
    requires
        0 <= k < names.len(),
        names_match(names[k], "(request-target)"@),
        t1 != t2,
    ensures
        signing_string(names, t1, other, hs) != signing_string(names, t2, other, hs),
{
    let v1 = values_of(names, t1, other, hs);
    let v2 = values_of(names, t2, other, hs);
    assert forall|j: int| 0 <= j < names.len() implies #[trigger] v1[j] == v2[j] || (v1[j] == t1
        && v2[j] == t2) by {}
    lemma_values_tampered(names, v1, v2, t1, t2, k);
    lemma_signed_lines_are_lines_of(names, t1, other, hs);
    lemma_signed_lines_are_lines_of(names, t2, other, hs);
}

/// Changing the method to one of another lower case, where
/// `(request-target)` is signed, changes the signing string.
pub proof fn lemma_method_tamper(
    names: Seq<Seq<char>>,
    m1: Seq<char>,
    m2: Seq<char>,
    path: Seq<char>,
    query: Option<Seq<char>>,
    other: Seq<Field>,
    hs: Seq<(Seq<char>, Seq<u8>)>,
    k: int,
)
    requires
        0 <= k < names.len(),
        names_match(names[k], "(request-target)"@),
        lower_of(m1) != lower_of(m2),
    ensures
        signing_string(names, request_target(m1, path, query), other, hs) != signing_string(
            names,
            request_target(m2, path, query),
            other,
            hs,
        ),
{
    let rest = " "@ + path + match query {
        Some(q) => "?"@ + q,
        None => seq![],
    };
    lemma_middle_differs(seq![], lower_of(m1), lower_of(m2), rest);
    assert(request_target(m1, path, query) =~= seq![] + lower_of(m1) + rest);
    assert(request_target(m2, path, query) =~= seq![] + lower_of(m2) + rest);
    lemma_request_target_tamper(
        names,
        request_target(m1, path, query),
        request_target(m2, path, query),
        other,
        hs,
        k,
    );
}

/// Changing the path, where `(request-target)` is signed, changes the
/// signing string.
pub proof fn lemma_path_tamper(
    names: Seq<Seq<char>>,
    method: Seq<char>,
    p1: Seq<char>,
    p2: Seq<char>,
    query: Option<Seq<char>>,
    other: Seq<Field>,
    hs: Seq<(Seq<char>, Seq<u8>)>,
    k: int,
)
    requires
        0 <= k < names.len(),
        names_match(names[k], "(request-target)"@),
        p1 != p2,
    ensures
        signing_string(names, request_target(method, p1, query), other, hs) != signing_string(
            names,
            request_target(method, p2, query),
            other,
            hs,
        ),
{
    let front = lower_of(method) + " "@;
    let rest = match query {
        Some(q) => "?"@ + q,
        None => seq![],
    };
    lemma_middle_differs(front, p1, p2, rest);
    assert(request_target(method, p1, query) =~= front + p1 + rest);
    assert(request_target(method, p2, query) =~= front + p2 + rest);
    lemma_request_target_tamper(
        names,
        request_target(method, p1, query),
        request_target(method, p2, query),
        other,
        hs,
        k,
    );
}

/// Lines equal up to the line `k`, which differs from its counterpart at the
/// position `t`, join to different strings.
proof fn lemma_lines_differ_at(l1: Seq<Seq<char>>, l2: Seq<Seq<char>>, k: int, t: int)
    requires
        l1.len() == l2.len(),
        0 <= k < l1.len(),
        forall|j: int| 0 <= j < k ==> l1[j] == l2[j],
        0 <= t < l1[k].len(),
        t < l2[k].len(),
        l1[k][t] != l2[k][t],
    ensures
        join_lines(l1) != join_lines(l2),
{
    reveal_strlit("\n");
    let m = k + 1;
    let s1 = l1.subrange(0, m);
    let s2 = l2.subrange(0, m);
    lemma_join_prefix(l1, m);
    lemma_join_prefix(l2, m);
    let q1 = join_lines(s1);
    let q2 = join_lines(s2);
    let off: int = if k == 0 {
        0
    } else {
        join_lines(s1.drop_last()).len() as int + 1
    };
    if k == 0 {
        assert(q1 == l1[0]);
        assert(q2 == l2[0]);
    } else {
        assert(s1.drop_last() =~= s2.drop_last());
        assert(q1 == join_lines(s1.drop_last()) + "\n"@ + l1[k]);
        assert(q2 == join_lines(s2.drop_last()) + "\n"@ + l2[k]);
    }
    assert(q1[off + t] == l1[k][t]);
    assert(q2[off + t] == l2[k][t]);
    if join_lines(l1) == join_lines(l2) {
        assert(join_lines(l1).subrange(0, q1.len() as int)[off + t] == q1[off + t]);
        assert(join_lines(l2).subrange(0, q2.len() as int)[off + t] == q2[off + t]);
    }
}

/// The first index, at `i` or later, where `a` and `b` differ.
proof fn first_difference(a: Seq<Seq<char>>, b: Seq<Seq<char>>, i: int) -> (k: int)
    requires
        a.len() == b.len(),
        0 <= i <= a.len(),
        forall|j: int| 0 <= j < i ==> a[j] == b[j],
        exists|j: int| i <= j < a.len() && a[j] != b[j],
    ensures
        i <= k < a.len(),
        a[k] != b[k],
        forall|j: int| 0 <= j < k ==> a[j] == b[j],
    decreases a.len() - i,
{
    if a[i] != b[i] {
        i
    } else {
        first_difference(a, b, i + 1)
    }
}

/// Different lines join to different strings where no line holds a newline.
proof fn lemma_join_injective(l1: Seq<Seq<char>>, l2: Seq<Seq<char>>)
    requires
        l1.len() == l2.len(),
        l1 != l2,
        forall|i: int| 0 <= i < l1.len() ==> !(#[trigger] l1[i]).contains('\n'),
        forall|i: int| 0 <= i < l2.len() ==> !(#[trigger] l2[i]).contains('\n'),
    ensures
        join_lines(l1) != join_lines(l2),
{
    reveal_strlit("\n");
    assert(exists|j: int| 0 <= j < l1.len() && l1[j] != l2[j]) by {
        if forall|j: int| 0 <= j < l1.len() ==> l1[j] == l2[j] {
            assert(l1 =~= l2);
        }
    }
    let k = first_difference(l1, l2, 0);
    let x = l1[k];
    let y = l2[k];
    if exists|t: int| 0 <= t < x.len() && t < y.len() && x[t] != y[t] {
        let t = choose|t: int| 0 <= t < x.len() && t < y.len() && x[t] != y[t];
        lemma_lines_differ_at(l1, l2, k, t);
    } else if x.len() == y.len() {
        assert(x =~= y);
    } else if x.len() < y.len() {
        lemma_prefix_line_differs(l1, l2, k);
    } else {
        assert forall|j: int| 0 <= j < k implies l2[j] == l1[j] by {}
        assert forall|t: int| 0 <= t < y.len() implies y[t] == x[t] by {}
        lemma_prefix_line_differs(l2, l1, k);
    }
}

/// Lines equal up to the line `k`, which is a proper prefix of its
/// counterpart, join to different strings where no line holds a newline.
proof fn lemma_prefix_line_differs(l1: Seq<Seq<char>>, l2: Seq<Seq<char>>, k: int)
    requires
        l1.len() == l2.len(),
        0 <= k < l1.len(),
        forall|j: int| 0 <= j < k ==> l1[j] == l2[j],
        l1[k].len() < l2[k].len(),
        forall|t: int| 0 <= t < l1[k].len() ==> l1[k][t] == l2[k][t],
        forall|i: int| 0 <= i < l2.len() ==> !(#[trigger] l2[i]).contains('\n'),
    ensures
        join_lines(l1) != join_lines(l2),
{
    reveal_strlit("\n");
    let t = l1[k].len() as int;
    let s1 = l1.subrange(0, k + 1);
    let s2 = l2.subrange(0, k + 1);
    lemma_join_prefix(l1, k + 1);
    lemma_join_prefix(l2, k + 1);
    let q1 = join_lines(s1);
    let q2 = join_lines(s2);
    let off: int = if k == 0 {
        0
    } else {
        join_lines(s1.drop_last()).len() as int + 1
    };
    if k == 0 {
        assert(q1 == l1[0]);
        assert(q2 == l2[0]);
    } else {
        assert(s1.drop_last() =~= s2.drop_last());
        assert(q1 == join_lines(s1.drop_last()) + "\n"@ + l1[k]);
        assert(q2 == join_lines(s2.drop_last()) + "\n"@ + l2[k]);
    }
    assert(q1.len() == off + t);
    assert(q2[off + t] == l2[k][t]);
    assert(l2[k][t] != '\n') by {
        if l2[k][t] == '\n' {
            assert(l2[k].contains('\n'));
        }
    }
    let j1 = join_lines(l1);
    let j2 = join_lines(l2);
    assert(j2[off + t] == q2[off + t]) by {
        assert(j2.subrange(0, q2.len() as int)[off + t] == j2[off + t]);
    }
    if k == l1.len() - 1 {
        assert(s1 =~= l1);
        if j1 == j2 {
            assert(j2.len() >= q2.len());
        }
    } else {
        lemma_join_prefix(l1, k + 2);
        let r1 = l1.subrange(0, k + 2);
        assert(r1.drop_last() =~= s1);
        assert(join_lines(r1) == q1 + "\n"@ + l1[k + 1]);
        assert(join_lines(r1)[off + t] == '\n');
        assert(j1[off + t] == '\n') by {
            assert(j1.subrange(0, join_lines(r1).len() as int)[off + t] == j1[off + t]);
        }
    }
}

/// Two lists of names whose lower-case forms differ somewhere give
/// different signing strings, where no lower-case name holds a colon or a
/// newline and no selected value holds a newline. This covers every
/// reordering of a list that changes its lower-case forms.
pub proof fn lemma_order_matters(
    a: Seq<Seq<char>>,
    b: Seq<Seq<char>>,
    target: Seq<char>,
    other: Seq<Field>,
    hs: Seq<(Seq<char>, Seq<u8>)>,
    k: int,
)
    requires
        a.len() == b.len(),
        0 <= k < a.len(),
        lower_of(a[k]) != lower_of(b[k]),
        forall|i: int|
            0 <= i < a.len() ==> !lower_of(#[trigger] a[i]).contains(':') && !lower_of(
                a[i],
            ).contains('\n') && !field_value(a[i], target, other, hs).contains('\n'),
        forall|i: int|
            0 <= i < b.len() ==> !lower_of(#[trigger] b[i]).contains(':') && !lower_of(
                b[i],
            ).contains('\n') && !field_value(b[i], target, other, hs).contains('\n'),
    ensures
        signing_string(a, target, other, hs) != signing_string(b, target, other, hs),
{
    reveal_strlit(": ");
    let l1 = signed_lines(a, target, other, hs);
    let l2 = signed_lines(b, target, other, hs);
    let x = lower_of(a[k]);
    let y = lower_of(b[k]);
    assert(l1[k] == x + ": "@ + field_value(a[k], target, other, hs));
    assert(l2[k] == y + ": "@ + field_value(b[k], target, other, hs));
    assert(l1[k] != l2[k]) by {
        if l1[k] == l2[k] {
            if exists|t: int| 0 <= t < x.len() && t < y.len() && x[t] != y[t] {
                let t = choose|t: int| 0 <= t < x.len() && t < y.len() && x[t] != y[t];
                assert(l1[k][t] == x[t]);
                assert(l2[k][t] == y[t]);
            } else if x.len() < y.len() {
                let t = x.len() as int;
                assert(l1[k][t] == ':');
                assert(l2[k][t] == y[t]);
                assert(y.contains(':'));
            } else if y.len() < x.len() {
                let t = y.len() as int;
                assert(l2[k][t] == ':');
                assert(l1[k][t] == x[t]);
                assert(x.contains(':'));
            } else {
                assert(x =~= y);
            }
        }
    }
    assert forall|i: int| 0 <= i < l1.len() implies !(#[trigger] l1[i]).contains('\n') by {
        lemma_line_without_newline(lower_of(a[i]), field_value(a[i], target, other, hs));
    }
    assert forall|i: int| 0 <= i < l2.len() implies !(#[trigger] l2[i]).contains('\n') by {
        lemma_line_without_newline(lower_of(b[i]), field_value(b[i], target, other, hs));
    }
    lemma_join_injective(l1, l2);
}

proof fn lemma_line_without_newline(label: Seq<char>, value: Seq<char>)
    requires
        !label.contains('\n'),
        !value.contains('\n'),
    ensures
        !(label + ": "@ + value).contains('\n'),
{
    reveal_strlit(": ");
    let l = label + ": "@ + value;
    if l.contains('\n') {
        let t = choose|t: int| 0 <= t < l.len() && l[t] == '\n';
        if t < label.len() {
            assert(label[t] == '\n');
        } else if t >= label.len() + 2 {
            assert(value[t - label.len() - 2] == '\n');
        }
    }
}

/// A word: characters, at least one, none of them white space.
pub open spec fn is_word(w: Seq<char>) -> bool {
    w.len() > 0 && forall|i: int| 0 <= i < w.len() ==> !is_white_space(#[trigger] w[i])
}

proof fn lemma_split_prefix_extends(x: Seq<char>, y: Seq<char>, n: int)
    requires
        0 <= n <= x.len(),
    ensures
        split_prefix(x + y, n) == split_prefix(x, n),
    decreases n,
{
    if n > 0 {
        lemma_split_prefix_extends(x, y, n - 1);
        assert((x + y)[n - 1] == x[n - 1]);
    }
}

proof fn lemma_split_prefix_word(x: Seq<char>, w: Seq<char>, j: int)
    requires
        0 <= j <= w.len(),
        forall|i: int| 0 <= i < w.len() ==> !is_white_space(#[trigger] w[i]),
    ensures
        split_prefix(x + w, x.len() + j) == (
            split_prefix(x, x.len() as int).0,
            split_prefix(x, x.len() as int).1 + w.subrange(0, j),
        ),
    decreases j,
{
    if j == 0 {
        lemma_split_prefix_extends(x, w, x.len() as int);
        assert(split_prefix(x, x.len() as int).1 + w.subrange(0, 0) =~= split_prefix(
            x,
            x.len() as int,
        ).1);
    } else {
        lemma_split_prefix_word(x, w, j - 1);
        assert((x + w)[x.len() + j - 1] == w[j - 1]);
        assert(split_prefix(x, x.len() as int).1 + w.subrange(0, j) =~= (split_prefix(
            x,
            x.len() as int,
        ).1 + w.subrange(0, j - 1)).push(w[j - 1]));
    }
}

/// Splitting words joined by single spaces: all words but the last are
/// done, the last is in progress.
pub proof fn lemma_split_joined(ws: Seq<Seq<char>>)
    requires
        ws.len() >= 1,
        forall|i: int| 0 <= i < ws.len() ==> is_word(#[trigger] ws[i]),
    ensures
        split_prefix(join_words(ws), join_words(ws).len() as int) == (ws.drop_last(), ws.last()),
    decreases ws.len(),
{
    reveal_strlit(" ");
    assert(is_word(ws[ws.len() - 1]));
    if ws.len() == 1 {
        lemma_split_prefix_word(seq![], ws[0], ws[0].len() as int);
        assert(seq![] + ws[0] =~= ws[0]);
        assert(ws[0].subrange(0, ws[0].len() as int) =~= ws[0]);
        assert(ws.drop_last() =~= seq![]);
    } else {
        let front = ws.drop_last();
        assert forall|i: int| 0 <= i < front.len() implies is_word(#[trigger] front[i]) by {
            assert(front[i] == ws[i]);
        }
        lemma_split_joined(front);
        let s = join_words(front);
        let x = s + " "@;
        assert(join_words(ws) == x + ws.last());
        lemma_split_prefix_extends(s, " "@, s.len() as int);
        assert(x[s.len() as int] == ' ');
        assert(split_prefix(x, x.len() as int) == (front.drop_last().push(front.last()), Seq::<
            char,
        >::empty()));
        assert(front.drop_last().push(front.last()) =~= front);
        lemma_split_prefix_word(x, ws.last(), ws.last().len() as int);
        assert(Seq::<char>::empty() + ws.last().subrange(0, ws.last().len() as int) =~= ws.last());
    }
}

/// Every word of `v` is a word.
proof fn lemma_words_are_words(v: Seq<char>, n: int)
    requires
        0 <= n <= v.len(),
    ensures
        forall|i: int|
            0 <= i < split_prefix(v, n).0.len() ==> is_word(#[trigger] split_prefix(v, n).0[i]),
        forall|i: int|
            0 <= i < split_prefix(v, n).1.len() ==> !is_white_space(#[trigger] split_prefix(v, n).1[i]),
    decreases n,
{
    if n > 0 {
        lemma_words_are_words(v, n - 1);
        let before = split_prefix(v, n - 1);
        if is_white_space(v[n - 1]) && before.1.len() > 0 {
            assert forall|i: int| 0 <= i < split_prefix(v, n).0.len() implies is_word(
                #[trigger] split_prefix(v, n).0[i],
            ) by {
                if i < before.0.len() {
                    assert(split_prefix(v, n).0[i] == before.0[i]);
                } else {
                    assert(split_prefix(v, n).0[i] == before.1);
                }
            }
        }
    }
}

/// A `headers` value and its single-line form, its words separated by
/// single spaces, have the same words: line breaks and indentation do not
/// matter.
pub proof fn lemma_words_single_line(v: Seq<char>)
    ensures
        words(join_words(words(v))) == words(v),
{
    let ws = words(v);
    let end = split_prefix(v, v.len() as int);
    lemma_words_are_words(v, v.len() as int);
    assert forall|i: int| 0 <= i < ws.len() implies is_word(#[trigger] ws[i]) by {
        if end.1.len() > 0 && i == end.0.len() {
            assert(ws[i] == end.1);
        } else {
            assert(ws[i] == end.0[i]);
        }
    }
    if ws.len() == 0 {
        assert(join_words(ws) =~= seq![]);
        assert(words(join_words(ws)) =~= ws);
    } else {
        lemma_split_joined(ws);
        assert(ws.last().len() > 0) by {
            assert(is_word(ws[ws.len() - 1]));
        }
        assert(ws.drop_last().push(ws.last()) =~= ws);
    }
}

proof fn lemma_last_value_update(fs: Seq<Field>, i: int, v: Seq<char>, k: Seq<char>)
    requires
        0 <= i < fs.len(),
    ensures
        fs[i].0 != k ==> last_value(fs.update(i, (fs[i].0, v)), k) == last_value(fs, k),
        last_value(fs.update(i, (fs[i].0, v)), k) == last_value(fs, k) || (last_value(fs, k) == Some(
            fs[i].1,
        ) && last_value(fs.update(i, (fs[i].0, v)), k) == Some(v)),
    decreases fs.len(),
{
    let g = fs.update(i, (fs[i].0, v));
    if i == fs.len() - 1 {
        assert(g.drop_last() =~= fs.drop_last());
    } else {
        assert(g.drop_last() =~= fs.drop_last().update(i, (fs[i].0, v)));
        assert(g.last() == fs.last());
        lemma_last_value_update(fs.drop_last(), i, v, k);
    }
}

proof fn lemma_other_fields_update(fs: Seq<Field>, i: int, v: Seq<char>)
    requires
        0 <= i < fs.len(),
        is_named(fs[i].0),
    ensures
        other_fields(fs.update(i, (fs[i].0, v))) == other_fields(fs),
    decreases fs.len(),
{
    let g = fs.update(i, (fs[i].0, v));
    if i == fs.len() - 1 {
        assert(g.drop_last() =~= fs.drop_last());
    } else {
        assert(g.drop_last() =~= fs.drop_last().update(i, (fs[i].0, v)));
        assert(g.last() == fs.last());
        lemma_other_fields_update(fs.drop_last(), i, v);
    }
}

/// White space inside a `headers` value does not matter: replacing the value
/// of a `headers` field by one with the same words, such as its single-line
/// form, gives the same outcome and the same header.
pub proof fn lemma_headers_layout_immaterial(fs: Seq<Field>, i: int, v: Seq<char>)
    requires
        0 <= i < fs.len(),
        fs[i].0 == "headers"@,
        words(v) == words(fs[i].1),
    ensures
        missing_field(fs.update(i, (fs[i].0, v))) == missing_field(fs),
        missing_field(fs) is None ==> header_view_of(fs.update(i, (fs[i].0, v))) == header_view_of(
            fs,
        ),
{
    reveal_strlit("keyId");
    reveal_strlit("algorithm");
    reveal_strlit("headers");
    reveal_strlit("signature");
    assert("keyId"@[0] == 'k' && "algorithm"@[0] == 'a');
    assert("headers"@[0] == 'h' && "signature"@[0] == 's');
    lemma_last_value_update(fs, i, v, "keyId"@);
    lemma_last_value_update(fs, i, v, "algorithm"@);
    lemma_last_value_update(fs, i, v, "headers"@);
    lemma_last_value_update(fs, i, v, "signature"@);
    lemma_other_fields_update(fs, i, v);
}

} // verus!
