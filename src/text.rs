use vstd::prelude::*;

verus! {

/// Whether `c` is an upper-case ASCII letter.
pub open spec fn is_ascii_upper(c: char) -> bool {
    65 <= c as u32 && c as u32 <= 90
}

/// Two characters are equal once ASCII letters are folded to lower case.
pub open spec fn char_eq_fold(a: char, b: char) -> bool {
    ||| a as u32 == b as u32
    ||| (is_ascii_upper(a) && b as u32 == a as u32 + 32)
    ||| (is_ascii_upper(b) && a as u32 == b as u32 + 32)
}

/// Two strings are equal once ASCII letters are folded to lower case.
pub open spec fn eq_fold(a: Seq<char>, b: Seq<char>) -> bool {
    &&& a.len() == b.len()
    &&& forall|i: int| 0 <= i < a.len() ==> #[trigger] char_eq_fold(a[i], b[i])
}

/// The characters of `s`, one per element.
pub fn chars_of(s: &str) -> (r: Vec<char>)
    ensures
        r@ == s@,
{
    let n = s.unicode_len();
    let mut r: Vec<char> = Vec::new();
    let mut i: usize = 0;
    while i < n
        invariant
            n == s@.len(),
            i <= n,
            r@ == s@.subrange(0, i as int),
        decreases n - i,
    {
        r.push(s.get_char(i));
        i += 1;
    }
    assert(r@ =~= s@);
    r
}

fn char_eq_ignore_ascii_case(a: char, b: char) -> (r: bool)
    ensures
        r == char_eq_fold(a, b),
{
    let x = a as u32;
    let y = b as u32;
    x == y || (65 <= x && x <= 90 && y == x + 32) || (65 <= y && y <= 90 && x == y + 32)
}

/// Compares two strings, ignoring the case of ASCII letters.
pub fn eq_ignore_ascii_case(a: &str, b: &str) -> (r: bool)
    ensures
        r == eq_fold(a@, b@),
{
    let x = chars_of(a);
    let y = chars_of(b);
    if x.len() != y.len() {
        return false;
    }
    let mut i: usize = 0;
    while i < x.len()
        invariant
            x@ == a@,
            y@ == b@,
            x@.len() == y@.len(),
            i <= x@.len(),
            forall|j: int| 0 <= j < i ==> #[trigger] char_eq_fold(x@[j], y@[j]),
        decreases x@.len() - i,
    {
        if !char_eq_ignore_ascii_case(x[i], y[i]) {
            return false;
        }
        i += 1;
    }
    true
}

/// Folding is transitive: it is equality of the lower-cased forms.
pub proof fn lemma_eq_fold_trans(a: Seq<char>, b: Seq<char>, c: Seq<char>)
    requires
        eq_fold(a, b),
        eq_fold(b, c),
    ensures
        eq_fold(a, c),
{
    assert forall|i: int| 0 <= i < a.len() implies #[trigger] char_eq_fold(a[i], c[i]) by {
        assert(char_eq_fold(a[i], b[i]));
        assert(char_eq_fold(b[i], c[i]));
    }
}

/// Folding is symmetric.
pub proof fn lemma_eq_fold_sym(a: Seq<char>, b: Seq<char>)
    requires
        eq_fold(a, b),
    ensures
        eq_fold(b, a),
{
    assert forall|i: int| 0 <= i < b.len() implies #[trigger] char_eq_fold(b[i], a[i]) by {
        assert(char_eq_fold(a[i], b[i]));
    }
}

/// Whether two strings hold the same characters.
pub fn str_eq(a: &str, b: &str) -> (r: bool)
    ensures
        r == (a@ == b@),
{
    let x = chars_of(a);
    let y = chars_of(b);
    if x.len() != y.len() {
        return false;
    }
    let mut i: usize = 0;
    while i < x.len()
        invariant
            x@ == a@,
            y@ == b@,
            x@.len() == y@.len(),
            i <= x@.len(),
            forall|j: int| 0 <= j < i ==> x@[j] == y@[j],
        decreases x@.len() - i,
    {
        if x[i] != y[i] {
            return false;
        }
        i += 1;
    }
    assert(x@ =~= y@);
    true
}

/// Lexicographic order on strings, comparing characters by code point (the
/// order in which std orders `String`s, whose UTF-8 bytes follow code points).
pub open spec fn lex_le(a: Seq<char>, b: Seq<char>) -> bool
    decreases a.len(),
{
    if a.len() == 0 {
        true
    } else if b.len() == 0 {
        false
    } else if (a[0] as u32) < (b[0] as u32) {
        true
    } else if (a[0] as u32) > (b[0] as u32) {
        false
    } else {
        lex_le(a.drop_first(), b.drop_first())
    }
}

/// Any two strings are ordered one way or the other.
pub proof fn lemma_lex_total(a: Seq<char>, b: Seq<char>)
    ensures
        lex_le(a, b) || lex_le(b, a),
    decreases a.len(),
{
    if a.len() > 0 && b.len() > 0 && a[0] as u32 == b[0] as u32 {
        lemma_lex_total(a.drop_first(), b.drop_first());
    }
}

/// The lexicographic order is transitive.
pub proof fn lemma_lex_trans(a: Seq<char>, b: Seq<char>, c: Seq<char>)
    requires
        lex_le(a, b),
        lex_le(b, c),
    ensures
        lex_le(a, c),
    decreases a.len(),
{
    if a.len() > 0 && b.len() > 0 && c.len() > 0 && a[0] as u32 == b[0] as u32 && b[0] as u32
        == c[0] as u32 {
        lemma_lex_trans(a.drop_first(), b.drop_first(), c.drop_first());
    }
}

/// Whether `a` comes no later than `b` in lexicographic order.
pub fn str_le(a: &str, b: &str) -> (r: bool)
    ensures
        r == lex_le(a@, b@),
{
    let x = chars_of(a);
    let y = chars_of(b);
    let mut i: usize = 0;
    assert(a@.skip(0) =~= a@);
    assert(b@.skip(0) =~= b@);
    while i < x.len() && i < y.len()
        invariant
            x@ == a@,
            y@ == b@,
            i <= x@.len(),
            i <= y@.len(),
            lex_le(a@, b@) == lex_le(a@.skip(i as int), b@.skip(i as int)),
        decreases x@.len() - i,
    {
        let c = x[i] as u32;
        let d = y[i] as u32;
        if c < d {
            return true;
        }
        if c > d {
            return false;
        }
        assert(a@.skip(i as int).drop_first() =~= a@.skip(i + 1));
        assert(b@.skip(i as int).drop_first() =~= b@.skip(i + 1));
        i += 1;
    }
    i == x.len()
}

} // verus!
