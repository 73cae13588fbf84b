//! Text-level building blocks for the puzzle and solution formats: splitting
//! on separators, line splitting, and decimal number parsing, each with a
//! mathematical model.
use vstd::prelude::*;

verus! {

/// The views of a sequence of character vectors.
pub open spec fn views_of<T>(parts: Seq<Vec<T>>) -> Seq<Seq<T>> {
    parts.map_values(|p: Vec<T>| p@)
}

proof fn lemma_views_of_push<T>(parts: Seq<Vec<T>>, p: Vec<T>)
    ensures
        views_of(parts.push(p)) == views_of(parts).push(p@),
{
    assert(views_of(parts.push(p)) =~= views_of(parts).push(p@));
}

proof fn lemma_views_of_drop_last<T>(parts: Seq<Vec<T>>)
    requires
        parts.len() > 0,
    ensures
        views_of(parts.drop_last()) == views_of(parts).drop_last(),
{
    assert(views_of(parts.drop_last()) =~= views_of(parts).drop_last());
}

/// Split `s` at every occurrence of `sep`; there is always at least one part,
/// and an occurrence of `sep` at either end yields an empty part there.
pub open spec fn split_on(s: Seq<char>, sep: char) -> Seq<Seq<char>>
    decreases s.len(),
{
    if s.len() == 0 {
        seq![Seq::<char>::empty()]
    } else if s[0] == sep {
        seq![Seq::<char>::empty()] + split_on(s.drop_first(), sep)
    } else {
        let rest = split_on(s.drop_first(), sep);
        seq![seq![s[0]] + rest[0]] + rest.drop_first()
    }
}

proof fn lemma_split_on_nonempty(s: Seq<char>, sep: char)
    ensures
        split_on(s, sep).len() >= 1,
    decreases s.len(),
{
    if s.len() > 0 {
        lemma_split_on_nonempty(s.drop_first(), sep);
    }
}

/// Extending the input by one character either closes the last part (on the
/// separator) or extends it (on any other character).
proof fn lemma_split_on_push(s: Seq<char>, sep: char, c: char)
    ensures
        c == sep ==> split_on(s.push(c), sep) == split_on(s, sep).push(Seq::<char>::empty()),
        c != sep ==> split_on(s.push(c), sep) == split_on(s, sep).update(
            split_on(s, sep).len() - 1,
            split_on(s, sep).last().push(c),
        ),
    decreases s.len(),
{
    lemma_split_on_nonempty(s, sep);
    let e = Seq::<char>::empty();
    let p = split_on(s, sep);
    let q = split_on(s.push(c), sep);
    assert(split_on(e, sep) == seq![e]);
    if s.len() == 0 {
        assert(s.push(c).drop_first() =~= e);
        if c == sep {
            assert(q =~~= p.push(e));
        } else {
            assert(q =~~= p.update(p.len() - 1, p.last().push(c)));
        }
    } else {
        let t = s.drop_first();
        lemma_split_on_nonempty(t, sep);
        let r = split_on(t, sep);
        lemma_split_on_push(t, sep, c);
        let rq = split_on(t.push(c), sep);
        assert(s.push(c).drop_first() =~= t.push(c));
        assert(s.push(c)[0] == s[0]);
        if s[0] == sep {
            if c == sep {
                assert(q =~~= p.push(e));
            } else {
                assert(q =~~= p.update(p.len() - 1, p.last().push(c)));
            }
        } else {
            if c == sep {
                // rq == r.push(empty), so rq[0] == r[0]
                assert(q =~~= p.push(e));
            } else {
                if r.len() == 1 {
                    assert(rq[0] == r[0].push(c));
                    assert(q =~~= p.update(p.len() - 1, p.last().push(c)));
                } else {
                    assert(rq[0] == r[0]);
                    assert(q =~~= p.update(p.len() - 1, p.last().push(c)));
                }
            }
        }
    }
}

/// `l` without a final carriage return, if it has one.
pub open spec fn strip_cr(l: Seq<char>) -> Seq<char> {
    if l.len() > 0 && l.last() == '\r' {
        l.drop_last()
    } else {
        l
    }
}

/// The lines of `s`: parts separated by `'\n'`, each shorn of a `'\r'` before
/// the separator; a final newline closes the last line instead of opening an
/// empty one, and an empty text has no lines.
pub open spec fn spec_lines(s: Seq<char>) -> Seq<Seq<char>> {
    if s.len() == 0 {
        Seq::<Seq<char>>::empty()
    } else {
        let raw = split_on(s, '\n');
        let kept = if s.last() == '\n' {
            raw.drop_last()
        } else {
            raw
        };
        Seq::new(
            kept.len(),
            |i: int|
                if s.last() == '\n' || i < kept.len() - 1 {
                    strip_cr(kept[i])
                } else {
                    kept[i]
                },
        )
    }
}

/// Collect the characters of `s` into a vector.
pub fn str_to_chars(s: &str) -> (r: Vec<char>)
    ensures
        r@ == s@,
{
    let n = s.unicode_len();
    let mut r: Vec<char> = Vec::new();
    for i in 0..n
        invariant
            n == s@.len(),
            r@ == s@.subrange(0, i as int),
    {
        r.push(s.get_char(i));
        proof {
            assert(r@ =~= s@.subrange(0, i + 1 as int));
        }
    }
    proof {
        assert(s@.subrange(0, n as int) =~= s@);
    }
    r
}

/// Split `v` at every occurrence of `sep`.
pub fn split_vec(v: &Vec<char>, sep: char) -> (r: Vec<Vec<char>>)
    ensures
        views_of(r@) == split_on(v@, sep),
{
    let mut parts: Vec<Vec<char>> = Vec::new();
    let mut cur: Vec<char> = Vec::new();
    proof {
        assert(v@.subrange(0, 0) =~= Seq::<char>::empty());
        assert(views_of(parts@).push(cur@) =~= split_on(v@.subrange(0, 0), sep));
    }
    for i in 0..v.len()
        invariant
            views_of(parts@).push(cur@) == split_on(v@.subrange(0, i as int), sep),
    {
        let c = v[i];
        proof {
            lemma_split_on_push(v@.subrange(0, i as int), sep, c);
            assert(v@.subrange(0, i as int).push(c) =~= v@.subrange(0, i + 1 as int));
        }
        if c == sep {
            let ghost old_parts = parts@;
            parts.push(cur);
            cur = Vec::new();
            proof {
                lemma_views_of_push(old_parts, parts@.last());
                assert(views_of(parts@).push(cur@) =~= split_on(
                    v@.subrange(0, i as int),
                    sep,
                ).push(Seq::<char>::empty()));
            }
        } else {
            cur.push(c);
            proof {
                let prev = split_on(v@.subrange(0, i as int), sep);
                assert(views_of(parts@).push(cur@) =~= prev.update(
                    prev.len() - 1,
                    prev.last().push(c),
                ));
            }
        }
    }
    let ghost old_parts = parts@;
    parts.push(cur);
    proof {
        lemma_views_of_push(old_parts, parts@.last());
        assert(v@.subrange(0, v@.len() as int) =~= v@);
    }
    parts
}

/// Copy one raw part of the input, dropping a final carriage return when the
/// part was closed by a newline.
fn copy_line(v: &Vec<char>, strip: bool) -> (r: Vec<char>)
    ensures
        r@ == (if strip {
            strip_cr(v@)
        } else {
            v@
        }),
{
    let n = if strip && v.len() > 0 && v[v.len() - 1] == '\r' {
        v.len() - 1
    } else {
        v.len()
    };
    let mut r: Vec<char> = Vec::new();
    for i in 0..n
        invariant
            n <= v@.len(),
            r@ == v@.subrange(0, i as int),
    {
        r.push(v[i]);
        proof {
            assert(r@ =~= v@.subrange(0, i + 1 as int));
        }
    }
    proof {
        assert(v@.last() == v@[v@.len() - 1]);
        if n < v@.len() {
            assert(v@.subrange(0, n as int) =~= v@.drop_last());
        } else {
            assert(v@.subrange(0, n as int) =~= v@);
        }
    }
    r
}

/// Split `v` into lines as `spec_lines` describes.
pub fn split_lines(v: &Vec<char>) -> (r: Vec<Vec<char>>)
    ensures
        views_of(r@) == spec_lines(v@),
{
    if v.len() == 0 {
        let r: Vec<Vec<char>> = Vec::new();
        proof {
            assert(views_of(r@) =~= spec_lines(v@));
        }
        return r;
    }
    let mut parts = split_vec(v, '\n');
    let ends_nl = v[v.len() - 1] == '\n';
    proof {
        assert(v@.last() == v@[v@.len() - 1]);
    }
    if ends_nl {
        proof {
            lemma_split_on_nonempty(v@, '\n');
        }
        let ghost old_parts = parts@;
        let _popped = parts.pop();
        proof {
            lemma_views_of_drop_last(old_parts);
        }
    }
    let ghost kept = views_of(parts@);
    let n = parts.len();
    let mut out: Vec<Vec<char>> = Vec::new();
    for i in 0..n
        invariant
            out@.len() == i,
            forall|k: int| 0 <= k < i ==> (#[trigger] out@[k])@ == spec_lines(v@)[k],
    {
        let strip = ends_nl || i + 1 < n;
        proof {
            assert(views_of(parts@)[i as int] == parts@[i as int]@);
        }
        let line = copy_line(&parts[i], strip);
        out.push(line);
    }
    proof {
        assert(views_of(out@) =~~= spec_lines(v@));
    }
    out
}

/// A decimal digit character.
pub open spec fn is_digit(c: char) -> bool {
    48 <= (c as u32) && (c as u32) <= 57
}

/// The value of a decimal digit character.
pub open spec fn digit_val(c: char) -> nat {
    ((c as u32) - 48) as nat
}

/// A well-formed decimal number token: nonempty and all digits.
pub open spec fn is_number(t: Seq<char>) -> bool {
    t.len() > 0 && forall|i: int| 0 <= i < t.len() ==> is_digit(#[trigger] t[i])
}

/// The value of a string of decimal digits, most significant first.
pub open spec fn num_val(t: Seq<char>) -> nat
    decreases t.len(),
{
    if t.len() == 0 {
        0
    } else {
        num_val(t.drop_last()) * 10 + digit_val(t.last())
    }
}

/// The value of a digit string is no less than the value of any prefix.
proof fn lemma_num_val_prefix(t: Seq<char>, i: int)
    requires
        0 <= i <= t.len(),
    ensures
        num_val(t.subrange(0, i)) <= num_val(t),
    decreases t.len() - i,
{
    if i == t.len() {
        assert(t.subrange(0, i) =~= t);
    } else {
        lemma_num_val_prefix(t, i + 1);
        assert(t.subrange(0, i + 1).drop_last() =~= t.subrange(0, i));
        assert(t.subrange(0, i + 1).last() == t[i]);
        assert(num_val(t.subrange(0, i)) <= num_val(t.subrange(0, i + 1)));
    }
}

/// Parse `t` as a decimal number: `Some` exactly when `t` is a nonempty
/// string of digits whose value fits in `usize`.
pub fn parse_number(t: &Vec<char>) -> (r: Option<usize>)
    ensures
        r is Some <==> (is_number(t@) && num_val(t@) <= usize::MAX),
        r matches Some(n) ==> n == num_val(t@),
{
    if t.len() == 0 {
        return None;
    }
    let mut acc: usize = 0;
    for i in 0..t.len()
        invariant
            forall|j: int| 0 <= j < i ==> is_digit(#[trigger] t@[j]),
            acc == num_val(t@.subrange(0, i as int)),
    {
        let u = t[i] as u32;
        if u < 48 || u > 57 {
            return None;
        }
        let d = (u - 48) as usize;
        proof {
            assert(t@.subrange(0, i + 1 as int).drop_last() =~= t@.subrange(0, i as int));
            assert(t@.subrange(0, i + 1 as int).last() == t@[i as int]);
        }
        let shifted = match acc.checked_mul(10) {
            Some(v) => v,
            None => {
                proof {
                    if is_number(t@) {
                        lemma_num_val_prefix(t@, i + 1);
                    }
                }
                return None;
            },
        };
        acc = match shifted.checked_add(d) {
            Some(v) => v,
            None => {
                proof {
                    if is_number(t@) {
                        lemma_num_val_prefix(t@, i + 1);
                    }
                }
                return None;
            },
        };
    }
    proof {
        assert(t@.subrange(0, t@.len() as int) =~= t@);
    }
    Some(acc)
}

/// Parse `t` as a clue-file number, which must fit in the clue value type:
/// `Some` exactly when `t` is a digit string with value at most 127.
pub fn parse_clue_num(t: &Vec<char>) -> (r: Option<i8>)
    ensures
        r is Some <==> (is_number(t@) && num_val(t@) <= 127),
        r matches Some(n) ==> n as int == num_val(t@),
{
    match parse_number(t) {
        Some(n) => if n <= 127 {
            Some(n as i8)
        } else {
            None
        },
        None => None,
    }
}

} // verus!
