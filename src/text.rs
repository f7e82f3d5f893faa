use vstd::prelude::*;

verus! {

/// Lexicographic order on character sequences, by code point.
pub open spec fn lex_lt(a: Seq<char>, b: Seq<char>) -> bool
    decreases a.len(),
{
    if a.len() == 0 {
        b.len() > 0
    } else if b.len() == 0 {
        false
    } else if a[0] != b[0] {
        (a[0] as int) < (b[0] as int)
    } else {
        lex_lt(a.drop_first(), b.drop_first())
    }
}

pub proof fn lemma_lex_irreflexive(a: Seq<char>)
    ensures
        !lex_lt(a, a),
    decreases a.len(),
{
    if a.len() > 0 {
        lemma_lex_irreflexive(a.drop_first());
    }
}

pub proof fn lemma_lex_total(a: Seq<char>, b: Seq<char>)
    ensures
        a == b || lex_lt(a, b) || lex_lt(b, a),
    decreases a.len(),
{
    if a.len() == 0 {
        if b.len() == 0 {
            assert(a =~= b);
        }
    } else if b.len() > 0 {
        if a[0] == b[0] {
            let (ta, tb) = (a.drop_first(), b.drop_first());
            lemma_lex_total(ta, tb);
            if ta == tb {
                assert(a =~= b) by {
                    assert forall|k: int| 0 <= k < a.len() implies a[k] == b[k] by {
                        if k > 0 {
                            assert(a[k] == ta[k - 1] && b[k] == tb[k - 1]);
                        }
                    }
                }
            }
        } else {
            assert(a[0] as int != b[0] as int);
        }
    }
}

pub proof fn lemma_lex_transitive(a: Seq<char>, b: Seq<char>, c: Seq<char>)
    requires
        lex_lt(a, b),
        lex_lt(b, c),
    ensures
        lex_lt(a, c),
    decreases a.len(),
{
    if a.len() > 0 && a[0] == b[0] && b[0] == c[0] {
        lemma_lex_transitive(a.drop_first(), b.drop_first(), c.drop_first());
    }
}

pub proof fn lemma_lex_asymmetric(a: Seq<char>, b: Seq<char>)
    requires
        lex_lt(a, b),
    ensures
        !lex_lt(b, a),
{
    if lex_lt(b, a) {
        lemma_lex_transitive(a, b, a);
        lemma_lex_irreflexive(a);
    }
}

/// Whether `a` sorts strictly before `b`.
pub fn text_lt(a: &str, b: &str) -> (r: bool)
    ensures
        r == lex_lt(a@, b@),
{
    let la = a.unicode_len();
    let lb = b.unicode_len();
    let mut i: usize = 0;
    assert(a@.skip(0) =~= a@);
    assert(b@.skip(0) =~= b@);
    while i < la && i < lb
        invariant
            la == a@.len(),
            lb == b@.len(),
            i <= la,
            i <= lb,
            lex_lt(a@, b@) == lex_lt(a@.skip(i as int), b@.skip(i as int)),
        decreases la - i,
    {
        let ca = a.get_char(i);
        let cb = b.get_char(i);
        if ca != cb {
            return (ca as u32) < (cb as u32);
        }
        assert(a@.skip(i as int).drop_first() =~= a@.skip(i + 1));
        assert(b@.skip(i as int).drop_first() =~= b@.skip(i + 1));
        i = i + 1;
    }
    i < lb
}

/// Whether two texts are equal.
pub fn text_eq(a: &str, b: &str) -> (r: bool)
    ensures
        r == (a@ == b@),
{
    let r = !text_lt(a, b) && !text_lt(b, a);
    proof {
        lemma_lex_total(a@, b@);
        lemma_lex_irreflexive(a@);
    }
    r
}

/// A literal's text with every leading and trailing double quote removed.
pub open spec fn unquoted(s: Seq<char>) -> Seq<char> {
    s.subrange(quote_prefix(s) as int, s.len() - quote_suffix(s))
}

/// How many double quotes open `s`.
pub open spec fn quote_prefix(s: Seq<char>) -> nat
    decreases s.len(),
{
    if s.len() > 0 && s[0] == '"' {
        1 + quote_prefix(s.drop_first())
    } else {
        0
    }
}

/// How many double quotes close what is left of `s` after its opening quotes.
pub open spec fn quote_suffix(s: Seq<char>) -> nat {
    trailing_quotes(s.skip(quote_prefix(s) as int))
}

pub open spec fn trailing_quotes(s: Seq<char>) -> nat
    decreases s.len(),
{
    if s.len() > 0 && s.last() == '"' {
        1 + trailing_quotes(s.drop_last())
    } else {
        0
    }
}

/// The text of a literal token with its surrounding quotes trimmed.
pub fn trim_quotes(s: &str) -> (r: &str)
    ensures
        r@ == unquoted(s@),
{
    let n = s.unicode_len();
    let mut lo: usize = 0;
    assert(s@.skip(0) =~= s@);
    while lo < n && s.get_char(lo) == '"'
        invariant
            n == s@.len(),
            lo <= n,
            quote_prefix(s@) == lo + quote_prefix(s@.skip(lo as int)),
        decreases n - lo,
    {
        assert(s@.skip(lo as int).drop_first() =~= s@.skip(lo + 1));
        lo = lo + 1;
    }
    proof {
        let t = s@.skip(lo as int);
        if lo < n {
            assert(t[0] == s@[lo as int]);
        }
    }
    let mut hi: usize = n;
    while hi > lo && s.get_char(hi - 1) == '"'
        invariant
            n == s@.len(),
            lo <= hi <= n,
            lo == quote_prefix(s@),
            quote_suffix(s@) == (n - hi) + trailing_quotes(s@.subrange(lo as int, hi as int)),
        decreases hi,
    {
        assert(s@.subrange(lo as int, hi as int).drop_last() =~= s@.subrange(lo as int, hi - 1));
        hi = hi - 1;
    }
    proof {
        assert(s@.skip(lo as int) =~= s@.subrange(lo as int, n as int));
        let t = s@.subrange(lo as int, hi as int);
        if hi > lo {
            assert(t.last() == s@[hi - 1]);
        }
    }
    s.substring_char(lo, hi)
}

/// The extension that marks a metadata descriptor file.
pub open spec fn descriptor_suffix() -> Seq<char> {
    seq!['.', 'w', 'i', 'n', 'm', 'd']
}

/// Whether a file name has the descriptor extension: it ends in `.winmd` and
/// the part before that dot is not empty (`.winmd` alone has no extension).
pub open spec fn is_descriptor_name(name: Seq<char>) -> bool {
    name.len() > 6 && name.subrange(name.len() - 6, name.len() as int) == descriptor_suffix()
}

pub fn has_descriptor_extension(name: &str) -> (r: bool)
    ensures
        r == is_descriptor_name(name@),
{
    let n = name.unicode_len();
    if n <= 6 {
        return false;
    }
    let ok = name.get_char(n - 6) == '.' && name.get_char(n - 5) == 'w' && name.get_char(n - 4)
        == 'i' && name.get_char(n - 3) == 'n' && name.get_char(n - 2) == 'm' && name.get_char(
        n - 1,
    ) == 'd';
    proof {
        let tail = name@.subrange(n - 6, n as int);
        if ok {
            assert(tail =~= descriptor_suffix());
        } else {
            if tail == descriptor_suffix() {
                assert(tail[0] == '.' && tail[1] == 'w' && tail[2] == 'i' && tail[3] == 'n'
                    && tail[4] == 'm' && tail[5] == 'd');
            }
        }
    }
    ok
}

} // verus!
