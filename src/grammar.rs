//! The field list of the `Signature:` header: `key = value` pairs separated
//! by commas, with optional white space around keys, `=` and values.
use vstd::prelude::*;
use crate::text::push_char;

verus! {

/// One `key = value` pair, as characters.
pub type Field = (Seq<char>, Seq<char>);

/// White space that the grammar skips: space, tab, carriage return, newline.
pub open spec fn is_space(c: char) -> bool {
    c == ' ' || c == '\t' || c == '\r' || c == '\n'
}

/// ASCII letters and digits, the characters of a key.
pub open spec fn is_alnum(c: char) -> bool {
    let u = c as u32;
    (48 <= u <= 57) || (65 <= u <= 90) || (97 <= u <= 122)
}

/// The first position at or after `i` that is not white space.
pub open spec fn skip_space(s: Seq<char>, i: int) -> int
    decreases s.len() - i,
{
    if 0 <= i < s.len() && is_space(s[i]) {
        skip_space(s, i + 1)
    } else {
        i
    }
}

/// The end of the run of letters and digits that starts at `i`.
pub open spec fn key_end(s: Seq<char>, i: int) -> int
    decreases s.len() - i,
{
    if 0 <= i < s.len() && is_alnum(s[i]) {
        key_end(s, i + 1)
    } else {
        i
    }
}

/// The first `"` at or after `i`, or the end of `s`.
pub open spec fn quote_end(s: Seq<char>, i: int) -> int
    decreases s.len() - i,
{
    if 0 <= i < s.len() && s[i] != '"' {
        quote_end(s, i + 1)
    } else {
        i
    }
}

/// The end of a bare value that starts at `i`: the first space or comma.
pub open spec fn bare_end(s: Seq<char>, i: int) -> int
    decreases s.len() - i,
{
    if 0 <= i < s.len() && s[i] != ' ' && s[i] != ',' {
        bare_end(s, i + 1)
    } else {
        i
    }
}

/// The field that starts at `i`, with the position after it and its trailing
/// white space. A value is a quoted string without escapes, or else a bare
/// run of characters up to a space or a comma (an unterminated quote makes
/// it bare).
pub open spec fn field_at(s: Seq<char>, i: int) -> Option<(int, Field)> {
    let a = skip_space(s, i);
    let b = key_end(s, a);
    if b == a {
        None
    } else {
        let c = skip_space(s, b);
        if !(c < s.len() && s[c] == '=') {
            None
        } else {
            let d = skip_space(s, c + 1);
            let q = quote_end(s, d + 1);
            if d < s.len() && s[d] == '"' && q < s.len() {
                Some((skip_space(s, q + 1), (s.subrange(a, b), s.subrange(d + 1, q))))
            } else {
                let e = bare_end(s, d);
                Some((skip_space(s, e), (s.subrange(a, b), s.subrange(d, e))))
            }
        }
    }
}

/// The fields that follow position `i`, each after a comma, and the position
/// where the list stops: before a comma that no field follows, or where no
/// comma comes.
pub open spec fn more_fields(s: Seq<char>, i: int) -> (int, Seq<Field>)
    decreases s.len() - i,
{
    if 0 <= i < s.len() && s[i] == ',' {
        match field_at(s, i + 1) {
            Some((j, f)) => if i < j <= s.len() {
                let rest = more_fields(s, j);
                (rest.0, seq![f] + rest.1)
            } else {
                (i, seq![])
            },
            None => (i, seq![]),
        }
    } else {
        (i, seq![])
    }
}

/// The fields of a whole header value, or `None` where the list does not
/// reach the end of the input.
pub open spec fn parse_fields(s: Seq<char>) -> Option<Seq<Field>> {
    match field_at(s, 0) {
        None => if s.len() == 0 {
            Some(seq![])
        } else {
            None
        },
        Some((j, f)) => {
            let rest = more_fields(s, j);
            if rest.0 == s.len() {
                Some(seq![f] + rest.1)
            } else {
                None
            }
        },
    }
}

/// The pairs of a vector of string pairs, as characters.
pub open spec fn pairs_view(v: Seq<(String, String)>) -> Seq<Field> {
    v.map_values(|p: (String, String)| (p.0@, p.1@))
}

fn is_space_char(c: char) -> (r: bool)
    ensures
        r == is_space(c),
{
    c == ' ' || c == '\t' || c == '\r' || c == '\n'
}

fn is_alnum_char(c: char) -> (r: bool)
    ensures
        r == is_alnum(c),
{
    let u = c as u32;
    (48 <= u && u <= 57) || (65 <= u && u <= 90) || (97 <= u && u <= 122)
}

fn skip_space_at(cs: &Vec<char>, i: usize) -> (r: usize)
    requires
        i <= cs@.len(),
    ensures
        r == skip_space(cs@, i as int),
        i <= r <= cs@.len(),
{
    let mut j = i;
    while j < cs.len() && is_space_char(cs[j])
        invariant
            i <= j <= cs@.len(),
            skip_space(cs@, j as int) == skip_space(cs@, i as int),
        decreases cs@.len() - j,
    {
        j += 1;
    }
    j
}

fn key_end_at(cs: &Vec<char>, i: usize) -> (r: usize)
    requires
        i <= cs@.len(),
    ensures
        r == key_end(cs@, i as int),
        i <= r <= cs@.len(),
{
    let mut j = i;
    while j < cs.len() && is_alnum_char(cs[j])
        invariant
            i <= j <= cs@.len(),
            key_end(cs@, j as int) == key_end(cs@, i as int),
        decreases cs@.len() - j,
    {
        j += 1;
    }
    j
}

fn quote_end_at(cs: &Vec<char>, i: usize) -> (r: usize)
    requires
        i <= cs@.len(),
    ensures
        r == quote_end(cs@, i as int),
        i <= r <= cs@.len(),
{
    let mut j = i;
    while j < cs.len() && cs[j] != '"'
        invariant
            i <= j <= cs@.len(),
            quote_end(cs@, j as int) == quote_end(cs@, i as int),
        decreases cs@.len() - j,
    {
        j += 1;
    }
    j
}

fn bare_end_at(cs: &Vec<char>, i: usize) -> (r: usize)
    requires
        i <= cs@.len(),
    ensures
        r == bare_end(cs@, i as int),
        i <= r <= cs@.len(),
{
    let mut j = i;
    while j < cs.len() && cs[j] != ' ' && cs[j] != ','
        invariant
            i <= j <= cs@.len(),
            bare_end(cs@, j as int) == bare_end(cs@, i as int),
        decreases cs@.len() - j,
    {
        j += 1;
    }
    j
}

/// The characters of `cs` from `from` up to `to`, as a string.
pub fn string_of(cs: &Vec<char>, from: usize, to: usize) -> (r: String)
    requires
        from <= to <= cs@.len(),
    ensures
        r@ == cs@.subrange(from as int, to as int),
{
    let mut r = String::new();
    let mut i = from;
    while i < to
        invariant
            from <= i <= to <= cs@.len(),
            r@ == cs@.subrange(from as int, i as int),
        decreases to - i,
    {
        push_char(&mut r, cs[i]);
        i += 1;
        proof {
            assert(r@ =~= cs@.subrange(from as int, i as int));
        }
    }
    r
}

fn field_at_exec(cs: &Vec<char>, i: usize) -> (r: Option<(usize, (String, String))>)
    requires
        i <= cs@.len(),
    ensures
        match field_at(cs@, i as int) {
            None => r is None,
            Some((j, f)) => r matches Some((rj, (k, v))) && rj == j && k@ == f.0 && v@ == f.1
                && i < rj <= cs@.len(),
        },
{
    let a = skip_space_at(cs, i);
    let b = key_end_at(cs, a);
    if b == a {
        return None;
    }
    let c = skip_space_at(cs, b);
    if !(c < cs.len() && cs[c] == '=') {
        return None;
    }
    let d = skip_space_at(cs, c + 1);
    let key = string_of(cs, a, b);
    if d < cs.len() && cs[d] == '"' {
        let q = quote_end_at(cs, d + 1);
        if q < cs.len() {
            let value = string_of(cs, d + 1, q);
            let next = skip_space_at(cs, q + 1);
            return Some((next, (key, value)));
        }
    }
    let e = bare_end_at(cs, d);
    let value = string_of(cs, d, e);
    let next = skip_space_at(cs, e);
    Some((next, (key, value)))
}

/// The fields of a header value: the exact result of [`parse_fields`].
pub fn fields_of(cs: &Vec<char>) -> (r: Option<Vec<(String, String)>>)
    ensures
        match parse_fields(cs@) {
            None => r is None,
            Some(f) => r matches Some(v) && pairs_view(v@) == f,
        },
{
    let first = field_at_exec(cs, 0);
    match first {
        None => {
            if cs.len() == 0 {
                let v: Vec<(String, String)> = Vec::new();
                proof {
                    assert(pairs_view(v@) =~= seq![]);
                }
                Some(v)
            } else {
                None
            }
        },
        Some((j, f)) => {
            let ghost start = j as int;
            let ghost s = cs@;
            let mut fields: Vec<(String, String)> = Vec::new();
            fields.push(f);
            let mut pos = j;
            let ghost mut acc: Seq<Field> = seq![];
            proof {
                assert(pairs_view(fields@) =~= seq![(f.0@, f.1@)] + acc);
                assert(pairs_view(fields@)[0] == (f.0@, f.1@));
            }
            loop
                invariant
                    s == cs@,
                    pos <= cs@.len(),
                    fields@.len() >= 1,
                    pairs_view(fields@) == seq![pairs_view(fields@)[0]] + acc,
                    field_at(s, 0) == Some((start, pairs_view(fields@)[0])),
                    more_fields(s, start).0 == more_fields(s, pos as int).0,
                    more_fields(s, start).1 == acc + more_fields(s, pos as int).1,
                ensures
                    more_fields(s, pos as int) == (pos as int, Seq::<Field>::empty()),
                decreases cs@.len() - pos,
            {
                if pos < cs.len() && cs[pos] == ',' {
                    match field_at_exec(cs, pos + 1) {
                        Some((next, g)) => {
                            let ghost gv: Field = (g.0@, g.1@);
                            proof {
                                let rest = more_fields(s, next as int);
                                assert(more_fields(s, pos as int) == (rest.0, seq![gv] + rest.1));
                                assert(acc + (seq![gv] + rest.1) =~= acc.push(gv) + rest.1);
                            }
                            let ghost old_view = pairs_view(fields@);
                            fields.push(g);
                            proof {
                                assert(pairs_view(fields@) =~= old_view.push(gv));
                                acc = acc.push(gv);
                                assert(pairs_view(fields@) =~= seq![pairs_view(fields@)[0]] + acc);
                            }
                            pos = next;
                        },
                        None => {
                            proof {
                                assert(more_fields(s, pos as int) == (pos as int, Seq::<Field>::empty()));
                                assert(acc + seq![] =~= acc);
                            }
                            break;
                        },
                    }
                } else {
                    proof {
                        assert(more_fields(s, pos as int) == (pos as int, Seq::<Field>::empty()));
                        assert(acc + seq![] =~= acc);
                    }
                    break;
                }
            }
            proof {
                assert(more_fields(s, start).1 == acc);
                assert(pairs_view(fields@) =~= seq![pairs_view(fields@)[0]] + acc);
            }
            if pos == cs.len() {
                Some(fields)
            } else {
                None
            }
        },
    }
}

} // verus!
