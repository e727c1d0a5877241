//! Text primitives on which the evaluator rests: equality, lexicographic
//! order, substring tests and the textual booleans.
use vstd::prelude::*;

verus! {

/// The text that renders a boolean.
pub open spec fn bool_text(b: bool) -> Seq<char> {
    if b {
        "true"@
    } else {
        "false"@
    }
}

/// Strict lexicographic order on code points; a proper prefix comes first.
pub open spec fn lex_less(a: Seq<char>, b: Seq<char>) -> bool
    decreases a.len(),
{
    if a.len() == 0 {
        b.len() > 0
    } else if b.len() == 0 {
        false
    } else if a[0] != b[0] {
        a[0] < b[0]
    } else {
        lex_less(a.drop_first(), b.drop_first())
    }
}

pub open spec fn is_prefix(p: Seq<char>, s: Seq<char>) -> bool {
    p.len() <= s.len() && s.subrange(0, p.len() as int) == p
}

pub open spec fn is_suffix(p: Seq<char>, s: Seq<char>) -> bool {
    p.len() <= s.len() && s.subrange(s.len() - p.len(), s.len() as int) == p
}

pub open spec fn occurs_at(p: Seq<char>, s: Seq<char>, i: int) -> bool {
    0 <= i && i + p.len() <= s.len() && s.subrange(i, i + p.len()) == p
}

pub open spec fn contains_text(s: Seq<char>, p: Seq<char>) -> bool {
    exists|i: int| occurs_at(p, s, i)
}

/// Lexicographic order is a strict total order: irreflexive and asymmetric,
/// transitive, and it relates any two different texts one way or the other.
pub proof fn lemma_lex_order(a: Seq<char>, b: Seq<char>, c: Seq<char>)
    ensures
        !lex_less(a, a),
        lex_less(a, b) ==> !lex_less(b, a),
        lex_less(a, b) && lex_less(b, c) ==> lex_less(a, c),
        a != b ==> lex_less(a, b) || lex_less(b, a),
    decreases a.len(),
{
    if a.len() > 0 {
        lemma_lex_order(a.drop_first(), a.drop_first(), a.drop_first());
        if b.len() > 0 {
            let c1 = if c.len() > 0 {
                c.drop_first()
            } else {
                Seq::empty()
            };
            lemma_lex_order(a.drop_first(), b.drop_first(), c1);
        }
    }
    if a.len() > 0 && b.len() > 0 && a != b && a[0] == b[0] {
        assert(a.drop_first() != b.drop_first()) by {
            if a.drop_first() == b.drop_first() {
                assert(a =~= seq![a[0]] + a.drop_first());
                assert(b =~= seq![b[0]] + b.drop_first());
            }
        }
    }
    if a.len() == 0 && b.len() == 0 {
        assert(a =~= b);
    }
}

/// Renders a boolean as `"true"` or `"false"`.
pub fn bool_to_string(b: bool) -> (r: String)
    ensures
        r@ == bool_text(b),
{
    if b {
        String::from_str("true")
    } else {
        String::from_str("false")
    }
}

/// The characters of a string, one per element.
pub fn chars_of(s: &str) -> (r: Vec<char>)
    ensures
        r@ == s@,
{
    let n = s.unicode_len();
    let mut r: Vec<char> = Vec::new();
    let mut i: usize = 0;
    while i < n
        invariant
            n == s@.len(),
            i <= n,
            r@ == s@.subrange(0, i as int),
        decreases n - i,
    {
        r.push(s.get_char(i));
        i += 1;
    }
    assert(r@ =~= s@);
    r
}

/// Whether `p` occurs in `s` starting at index `i`.
fn occurs_at_exec(p: &Vec<char>, s: &Vec<char>, i: usize) -> (r: bool)
    requires
        i + p@.len() <= s@.len(),
    ensures
        r == occurs_at(p@, s@, i as int),
{
    let n = s.len();
    let mut k: usize = 0;
    while k < p.len()
        invariant
            n == s@.len(),
            i + p@.len() <= s@.len(),
            k <= p@.len(),
            s@.subrange(i as int, i + k) == p@.subrange(0, k as int),
        decreases p@.len() - k,
    {
        if s[i + k] != p[k] {
            assert(s@.subrange(i as int, i + p@.len())[k as int] != p@[k as int]);
            return false;
        }
        assert(s@.subrange(i as int, i + k + 1) =~= s@.subrange(i as int, i + k).push(s@[i + k]));
        assert(p@.subrange(0, k + 1) =~= p@.subrange(0, k as int).push(p@[k as int]));
        k += 1;
    }
    assert(p@.subrange(0, k as int) =~= p@);
    true
}

/// Whether `a` and `b` hold the same characters.
pub fn text_equal(a: &str, b: &str) -> (r: bool)
    ensures
        r == (a@ == b@),
{
    let x = chars_of(a);
    let y = chars_of(b);
    if x.len() != y.len() {
        return false;
    }
    let r = occurs_at_exec(&x, &y, 0);
    assert(y@.subrange(0, x@.len() as int) =~= y@);
    r
}

/// Whether `s` begins with `p`.
pub fn starts_with_text(s: &str, p: &str) -> (r: bool)
    ensures
        r == is_prefix(p@, s@),
{
    let x = chars_of(s);
    let y = chars_of(p);
    if y.len() > x.len() {
        return false;
    }
    occurs_at_exec(&y, &x, 0)
}

/// Whether `s` ends with `p`.
pub fn ends_with_text(s: &str, p: &str) -> (r: bool)
    ensures
        r == is_suffix(p@, s@),
{
    let x = chars_of(s);
    let y = chars_of(p);
    if y.len() > x.len() {
        return false;
    }
    occurs_at_exec(&y, &x, x.len() - y.len())
}

/// Whether `p` occurs anywhere in `s`; the empty text occurs in every text.
pub fn contains_text_exec(s: &str, p: &str) -> (r: bool)
    ensures
        r == contains_text(s@, p@),
{
    let x = chars_of(s);
    let y = chars_of(p);
    if y.len() > x.len() {
        return false;
    }
    let last = x.len() - y.len();
    let mut i: usize = 0;
    loop
        invariant
            i <= last,
            last == x@.len() - y@.len(),
            x@ == s@,
            y@ == p@,
            forall|j: int| 0 <= j < i ==> !occurs_at(p@, s@, j),
        decreases last - i,
    {
        if occurs_at_exec(&y, &x, i) {
            return true;
        }
        if i == last {
            assert forall|j: int| !occurs_at(p@, s@, j) by {
                if 0 <= j < i {
                }
            }
            return false;
        }
        i += 1;
    }
}

/// Compares two texts in lexicographic order of code points.
pub fn compare_text(a: &str, b: &str) -> (r: core::cmp::Ordering)
    ensures
        (r == core::cmp::Ordering::Less) == lex_less(a@, b@),
        (r == core::cmp::Ordering::Greater) == lex_less(b@, a@),
        (r == core::cmp::Ordering::Equal) == (a@ == b@),
{
    let x = chars_of(a);
    let y = chars_of(b);
    let mut i: usize = 0;
    assert(a@.skip(0) =~= a@);
    assert(b@.skip(0) =~= b@);
    while i < x.len() && i < y.len() && x[i] == y[i]
        invariant
            x@ == a@,
            y@ == b@,
            i <= x@.len(),
            i <= y@.len(),
            x@.subrange(0, i as int) == y@.subrange(0, i as int),
            lex_less(a@, b@) == lex_less(a@.skip(i as int), b@.skip(i as int)),
            lex_less(b@, a@) == lex_less(b@.skip(i as int), a@.skip(i as int)),
        decreases x@.len() - i,
    {
        proof {
            assert(a@.skip(i as int).drop_first() =~= a@.skip(i + 1));
            assert(b@.skip(i as int).drop_first() =~= b@.skip(i + 1));
            assert(x@.subrange(0, i + 1) =~= x@.subrange(0, i as int).push(x@[i as int]));
            assert(y@.subrange(0, i + 1) =~= y@.subrange(0, i as int).push(y@[i as int]));
        }
        i += 1;
    }
    if i == x.len() && i == y.len() {
        assert(x@ =~= x@.subrange(0, i as int));
        assert(y@ =~= y@.subrange(0, i as int));
        core::cmp::Ordering::Equal
    } else {
        assert(a@ != b@) by {
            if a@ == b@ {
                assert(i < x@.len());
                assert(x@[i as int] == y@[i as int]);
            }
        }
        let ghost sa = a@.skip(i as int);
        let ghost sb = b@.skip(i as int);
        assert(sa.len() == 0 ==> sb.len() > 0);
        assert(sa.len() > 0 ==> sa[0] == x@[i as int]);
        assert(sb.len() > 0 ==> sb[0] == y@[i as int]);
        if i == x.len() {
            core::cmp::Ordering::Less
        } else if i == y.len() {
            core::cmp::Ordering::Greater
        } else if x[i] < y[i] {
            core::cmp::Ordering::Less
        } else {
            assert(x@[i as int] != y@[i as int]);
            core::cmp::Ordering::Greater
        }
    }
}

} // verus!
