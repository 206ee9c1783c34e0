//! String helpers shared by the checkers and the report rendering:
//! equality and membership tests, prefix tests, lexicographic order,
//! and decimal rendering of source locations and counts.

use vstd::prelude::*;
use vstd::string::StrSliceExecFns;
use vstd::string::StringExecFns;

verus! {

/// `p` is a prefix of `s`.
pub open spec fn is_prefix_of(p: Seq<char>, s: Seq<char>) -> bool {
    p.len() <= s.len() && s.subrange(0, p.len() as int) == p
}

pub fn string_eq(a: &String, b: &String) -> (r: bool)
    ensures
        r == (a@ == b@),
{
    a.eq(b)
}

/// Whether some element of `v` equals `s`, by characters.
pub open spec fn seq_contains_string(v: Seq<Seq<char>>, s: Seq<char>) -> bool {
    exists|i: int| 0 <= i < v.len() && v[i] == s
}

pub fn strings_contain(v: &Vec<String>, s: &String) -> (r: bool)
    ensures
        r == seq_contains_string(v.deep_view(), s@),
{
    let ghost vv = v.deep_view();
    for i in 0..v.len()
        invariant
            vv == v.deep_view(),
            forall|j: int| 0 <= j < i ==> vv[j] != s@,
    {
        if string_eq(&v[i], s) {
            assert(vv[i as int] == s@);
            return true;
        }
    }
    false
}

pub fn string_starts_with(s: &String, p: &String) -> (r: bool)
    ensures
        r == is_prefix_of(p@, s@),
{
    let s_len = s.as_str().unicode_len();
    let p_len = p.as_str().unicode_len();
    if p_len > s_len {
        return false;
    }
    for i in 0..p_len
        invariant
            p_len == p@.len(),
            s_len == s@.len(),
            p_len <= s_len,
            forall|j: int| 0 <= j < i ==> s@[j] == p@[j],
    {
        if s.as_str().get_char(i) != p.as_str().get_char(i) {
            assert(s@.subrange(0, p@.len() as int)[i as int] != p@[i as int]);
            return false;
        }
    }
    assert(s@.subrange(0, p@.len() as int) =~= p@);
    true
}

/// The characters of `s` from position `n` on.
pub fn chars_from(s: &String, n: usize) -> (r: String)
    requires
        n <= s@.len(),
    ensures
        r@ == s@.subrange(n as int, s@.len() as int),
{
    let len = s.as_str().unicode_len();
    let tail = s.as_str().substring_char(n, len);
    tail.to_string()
}

pub fn dup_string(s: &String) -> (r: String)
    ensures
        r == s,
{
    s.clone()
}

pub fn dup_strings(v: &Vec<String>) -> (r: Vec<String>)
    ensures
        r@ == v@,
{
    let mut out: Vec<String> = Vec::new();
    for i in 0..v.len()
        invariant
            out@ == v@.subrange(0, i as int),
    {
        out.push(v[i].clone());
        assert(out@ =~= v@.subrange(0, i + 1 as int));
    }
    assert(out@ =~= v@);
    out
}

/// Lexicographic order on character sequences by code point, the order
/// `Vec::sort` gives `String`s.
pub open spec fn lex_le(a: Seq<char>, b: Seq<char>) -> bool
    decreases a.len(),
{
    if a.len() == 0 {
        true
    } else if b.len() == 0 {
        false
    } else if (a[0] as u32) < (b[0] as u32) {
        true
    } else if (a[0] as u32) > (b[0] as u32) {
        false
    } else {
        lex_le(a.drop_first(), b.drop_first())
    }
}

pub proof fn lemma_lex_le_refl(a: Seq<char>)
    ensures
        lex_le(a, a),
    decreases a.len(),
{
    if a.len() > 0 {
        lemma_lex_le_refl(a.drop_first());
    }
}

pub proof fn lemma_lex_le_total(a: Seq<char>, b: Seq<char>)
    ensures
        lex_le(a, b) || lex_le(b, a),
    decreases a.len(),
{
    if a.len() == 0 || b.len() == 0 {
    } else if a[0] as u32 == b[0] as u32 {
        lemma_lex_le_total(a.drop_first(), b.drop_first());
    }
}

pub proof fn lemma_lex_le_trans(a: Seq<char>, b: Seq<char>, c: Seq<char>)
    requires
        lex_le(a, b),
        lex_le(b, c),
    ensures
        lex_le(a, c),
    decreases a.len(),
{
    if a.len() == 0 {
    } else {
        if b.len() == 0 {
        } else if c.len() == 0 {
        } else {
            if a[0] as u32 == b[0] as u32 && b[0] as u32 == c[0] as u32 {
                lemma_lex_le_trans(a.drop_first(), b.drop_first(), c.drop_first());
            }
        }
    }
}

pub fn string_lex_le(a: &String, b: &String) -> (r: bool)
    ensures
        r == lex_le(a@, b@),
{
    let a_len = a.as_str().unicode_len();
    let b_len = b.as_str().unicode_len();
    let mut i: usize = 0;
    proof {
        assert(a@.skip(0) =~= a@);
        assert(b@.skip(0) =~= b@);
    }
    loop
        invariant
            a_len == a@.len(),
            b_len == b@.len(),
            i <= a_len,
            i <= b_len,
            lex_le(a@, b@) == lex_le(a@.skip(i as int), b@.skip(i as int)),
        decreases a_len - i,
    {
        if i == a_len {
            assert(a@.skip(i as int).len() == 0);
            return true;
        }
        if i == b_len {
            assert(b@.skip(i as int).len() == 0);
            assert(a@.skip(i as int).len() > 0);
            return false;
        }
        let ca = a.as_str().get_char(i);
        let cb = b.as_str().get_char(i);
        assert(a@.skip(i as int)[0] == a@[i as int]);
        assert(b@.skip(i as int)[0] == b@[i as int]);
        if (ca as u32) < (cb as u32) {
            return true;
        }
        if (ca as u32) > (cb as u32) {
            return false;
        }
        assert(a@.skip(i as int).drop_first() =~= a@.skip(i + 1));
        assert(b@.skip(i as int).drop_first() =~= b@.skip(i + 1));
        i = i + 1;
    }
}

/// `s` holds pairwise lexicographically ordered elements.
pub open spec fn lex_sorted(s: Seq<Seq<char>>) -> bool {
    forall|i: int, j: int| 0 <= i < j < s.len() ==> lex_le(s[i], s[j])
}

/// Sorts strings in code-point order; keeps every element.
pub fn sort_strings(v: Vec<String>) -> (r: Vec<String>)
    ensures
        lex_sorted(r.deep_view()),
        r@.to_multiset() == v@.to_multiset(),
        r.deep_view().to_multiset() == v.deep_view().to_multiset(),
{
    broadcast use vstd::seq_lib::group_to_multiset_ensures;
    broadcast use vstd::multiset::group_multiset_axioms;

    let mut rest = v;
    let mut out: Vec<String> = Vec::new();
    let ghost orig = rest@.to_multiset();
    let ghost orig_deep = rest.deep_view().to_multiset();
    proof {
        assert(out@.to_multiset().len() == 0);
        assert(out@.to_multiset().add(rest@.to_multiset()) =~= orig);
        assert(out.deep_view().to_multiset().len() == 0);
        assert(out.deep_view().to_multiset().add(rest.deep_view().to_multiset()) =~= orig_deep);
    }
    while rest.len() > 0
        invariant
            forall|i: int, j: int| 0 <= i < j < out@.len() ==> lex_le(out@[i]@, out@[j]@),
            out@.to_multiset().add(rest@.to_multiset()) == orig,
            out.deep_view().to_multiset().add(rest.deep_view().to_multiset()) == orig_deep,
            forall|i: int, j: int|
                0 <= i < out@.len() && 0 <= j < rest@.len() ==> lex_le(out@[i]@, rest@[j]@),
        decreases rest.len(),
    {
        let mut min: usize = 0;
        proof {
            lemma_lex_le_refl(rest@[0]@);
        }
        for k in 1..rest.len()
            invariant
                min < k,
                rest.len() > 0,
                k <= rest.len(),
                forall|j: int| 0 <= j < k ==> lex_le(rest@[min as int]@, rest@[j]@),
        {
            proof {
                lemma_lex_le_total(rest@[min as int]@, rest@[k as int]@);
            }
            if !string_lex_le(&rest[min], &rest[k]) {
                assert forall|j: int| 0 <= j < k + 1 implies lex_le(rest@[k as int]@, rest@[j]@) by {
                    if j < k {
                        lemma_lex_le_trans(rest@[k as int]@, rest@[min as int]@, rest@[j]@);
                    } else {
                        lemma_lex_le_refl(rest@[k as int]@);
                    }
                }
                min = k;
            }
        }
        let ghost old_rest = rest@;
        let ghost old_out = out@;
        let ghost old_rest_deep = rest.deep_view();
        let ghost old_out_deep = out.deep_view();
        let ghost min_i = min as int;
        let picked = rest.remove(min);
        out.push(picked);
        proof {
            vstd::seq_lib::to_multiset_remove(old_rest, min_i);
            vstd::seq_lib::to_multiset_build(old_out, old_rest[min_i]);
            old_rest.to_multiset_ensures();
            assert(old_rest.to_multiset().count(old_rest[min_i]) > 0) by {
                assert(old_rest.contains(old_rest[min_i]));
            }
            assert(out@.to_multiset().add(rest@.to_multiset()) =~= orig);
            assert forall|j: int| 0 <= j < rest@.len() implies rest.deep_view()[j]
                == old_rest_deep.remove(min_i)[j] by {
                if j < min_i {
                    assert(rest@[j] == old_rest.subrange(0, min_i)[j]);
                    assert(old_rest_deep.remove(min_i)[j] == old_rest_deep.subrange(0, min_i)[j]);
                } else {
                    assert(rest@[j] == old_rest.subrange(min_i + 1, old_rest.len() as int)[j
                        - min_i]);
                    assert(old_rest_deep.remove(min_i)[j] == old_rest_deep.subrange(
                        min_i + 1,
                        old_rest_deep.len() as int,
                    )[j - min_i]);
                }
            }
            assert(rest.deep_view() =~= old_rest_deep.remove(min_i));
            assert(out.deep_view() =~= old_out_deep.push(old_rest_deep[min_i]));
            vstd::seq_lib::to_multiset_remove(old_rest_deep, min_i);
            vstd::seq_lib::to_multiset_build(old_out_deep, old_rest_deep[min_i]);
            old_rest_deep.to_multiset_ensures();
            assert(old_rest_deep.to_multiset().count(old_rest_deep[min_i]) > 0) by {
                assert(old_rest_deep.contains(old_rest_deep[min_i]));
            }
            assert(out.deep_view().to_multiset().add(rest.deep_view().to_multiset())
                =~= orig_deep);
            assert forall|j: int| 0 <= j < rest@.len() implies lex_le(picked@, rest@[j]@) by {
                if j < min_i {
                    assert(rest@[j] == old_rest.subrange(0, min_i)[j]);
                    assert(rest@[j] == old_rest[j]);
                } else {
                    assert(rest@[j] == old_rest.subrange(min_i + 1, old_rest.len() as int)[j
                        - min_i]);
                    assert(rest@[j] == old_rest[j + 1]);
                }
            }
            assert forall|i: int, j: int| 0 <= i < j < out@.len() implies lex_le(
                out@[i]@,
                out@[j]@,
            ) by {
                assert(out@[i] == old_out[i]);
                if j < out@.len() - 1 {
                    assert(out@[j] == old_out[j]);
                } else {
                    assert(out@[j] == picked);
                }
            }
            assert forall|i: int, j: int|
                0 <= i < out@.len() && 0 <= j < rest@.len() implies lex_le(
                out@[i]@,
                rest@[j]@,
            ) by {
                if i < out@.len() - 1 {
                    assert(out@[i] == old_out[i]);
                    if j < min_i {
                        assert(rest@[j] == old_rest.subrange(0, min_i)[j]);
                        assert(rest@[j] == old_rest[j]);
                    } else {
                        assert(rest@[j] == old_rest.subrange(min_i + 1, old_rest.len() as int)[j
                            - min_i]);
                        assert(rest@[j] == old_rest[j + 1]);
                    }
                } else {
                    assert(out@[i] == picked);
                }
            }
        }
    }
    proof {
        assert(rest@.to_multiset().len() == 0);
        assert(out@.to_multiset() =~= orig);
        assert(rest.deep_view().len() == 0);
        assert(rest.deep_view().to_multiset().len() == 0);
        assert(out.deep_view().to_multiset() =~= orig_deep);
        assert forall|i: int, j: int| 0 <= i < j < out.deep_view().len() implies lex_le(
            out.deep_view()[i],
            out.deep_view()[j],
        ) by {
            assert(out.deep_view()[i] == out@[i]@);
            assert(out.deep_view()[j] == out@[j]@);
        }
    }
    out
}

/// The decimal digits of `n`, most significant first.
pub open spec fn decimal_seq(n: nat) -> Seq<char>
    decreases n,
{
    if n < 10 {
        seq![digit_char(n)]
    } else {
        decimal_seq(n / 10) + seq![digit_char(n % 10)]
    }
}

pub open spec fn digit_char(d: nat) -> char {
    if d == 0 {
        '0'
    } else if d == 1 {
        '1'
    } else if d == 2 {
        '2'
    } else if d == 3 {
        '3'
    } else if d == 4 {
        '4'
    } else if d == 5 {
        '5'
    } else if d == 6 {
        '6'
    } else if d == 7 {
        '7'
    } else if d == 8 {
        '8'
    } else {
        '9'
    }
}

fn digit_str(d: usize) -> (r: &'static str)
    requires
        d < 10,
    ensures
        r@ == seq![digit_char(d as nat)],
{
    proof {
        reveal_strlit("0");
        reveal_strlit("1");
        reveal_strlit("2");
        reveal_strlit("3");
        reveal_strlit("4");
        reveal_strlit("5");
        reveal_strlit("6");
        reveal_strlit("7");
        reveal_strlit("8");
        reveal_strlit("9");
    }
    let r: &'static str = if d == 0 {
        "0"
    } else if d == 1 {
        "1"
    } else if d == 2 {
        "2"
    } else if d == 3 {
        "3"
    } else if d == 4 {
        "4"
    } else if d == 5 {
        "5"
    } else if d == 6 {
        "6"
    } else if d == 7 {
        "7"
    } else if d == 8 {
        "8"
    } else {
        "9"
    };
    assert(r@ =~= seq![digit_char(d as nat)]);
    r
}

/// Renders `n` in decimal.
pub fn render_decimal(n: usize) -> (r: String)
    ensures
        r@ == decimal_seq(n as nat),
    decreases n,
{
    if n < 10 {
        String::from_str(digit_str(n))
    } else {
        let mut s = render_decimal(n / 10);
        s.append(digit_str(n % 10));
        s
    }
}

} // verus!
