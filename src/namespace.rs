use vstd::prelude::*;

verus! {

/// The Unicode lowercase mapping of one character (one or more characters).
pub uninterp spec fn lower_of(c: char) -> Seq<char>;

/// Relies on `char::to_lowercase`: it yields the Unicode lowercase mapping of
/// `c`, which depends on `c` alone.
#[verifier::external_body]
fn lowercase_char(c: char) -> (r: String)
    ensures
        r@ == lower_of(c),
{
    c.to_lowercase().collect()
}

/// Whether a character is dropped from a namespace key.
pub open spec fn is_dropped(c: char) -> bool {
    c == '"' || c == '_'
}

/// The rough comparison key of a namespace literal: quotes and underscores
/// dropped, every other character lowercased, order kept.
pub open spec fn rough_key(s: Seq<char>) -> Seq<char>
    decreases s.len(),
{
    if s.len() == 0 {
        Seq::empty()
    } else if is_dropped(s.last()) {
        rough_key(s.drop_last())
    } else {
        rough_key(s.drop_last()) + lower_of(s.last())
    }
}

/// Turns a namespace literal into its rough, style-insensitive key.
pub fn namespace_literal_to_rough_namespace(namespace: &str) -> (r: String)
    ensures
        r@ == rough_key(namespace@),
{
    let n = namespace.unicode_len();
    let mut result = String::new();
    let mut i: usize = 0;
    while i < n
        invariant
            n == namespace@.len(),
            i <= n,
            result@ == rough_key(namespace@.take(i as int)),
        decreases n - i,
    {
        let c = namespace.get_char(i);
        assert(namespace@.take(i + 1).drop_last() =~= namespace@.take(i as int));
        if c != '"' && c != '_' {
            let low = lowercase_char(c);
            result.append(low.as_str());
        }
        i = i + 1;
    }
    assert(namespace@.take(n as int) =~= namespace@);
    result
}

/// Whether lowering each kept character of `s` yields only characters that
/// are kept and that lowering leaves as they are.
pub open spec fn lowering_settles(s: Seq<char>) -> bool {
    forall|i: int, j: int|
        0 <= i < s.len() && !is_dropped(s[i]) && 0 <= j < lower_of(s[i]).len() ==> {
            let d = #[trigger] lower_of(s[i])[j];
            !is_dropped(d) && lower_of(d) == seq![d]
        }
}

proof fn lemma_rough_key_concat(a: Seq<char>, b: Seq<char>)
    ensures
        rough_key(a + b) == rough_key(a) + rough_key(b),
    decreases b.len(),
{
    if b.len() == 0 {
        assert(a + b =~= a);
        assert(rough_key(a) + rough_key(b) =~= rough_key(a));
    } else {
        assert((a + b).drop_last() =~= a + b.drop_last());
        assert((a + b).last() == b.last());
        lemma_rough_key_concat(a, b.drop_last());
        if is_dropped(b.last()) {
        } else {
            assert(rough_key(a) + rough_key(b.drop_last()) + lower_of(b.last()) =~= rough_key(a)
                + (rough_key(b.drop_last()) + lower_of(b.last())));
        }
    }
}

/// A sequence of characters that are kept and that lowering leaves alone is
/// its own key.
proof fn lemma_rough_key_fixed(t: Seq<char>)
    requires
        forall|j: int| 0 <= j < t.len() ==> !is_dropped(#[trigger] t[j]) && lower_of(t[j]) == seq![t[j]],
    ensures
        rough_key(t) == t,
    decreases t.len(),
{
    if t.len() > 0 {
        lemma_rough_key_fixed(t.drop_last());
        assert(t.drop_last() + seq![t.last()] =~= t);
    }
}

/// Normalizing twice gives what normalizing once gives, for every string whose
/// kept characters lower to characters that are kept and that lowering leaves
/// unchanged.
pub proof fn lemma_rough_key_idempotent(s: Seq<char>)
    requires
        lowering_settles(s),
    ensures
        rough_key(rough_key(s)) == rough_key(s),
    decreases s.len(),
{
    if s.len() > 0 {
        let p = s.drop_last();
        assert(lowering_settles(p)) by {
            assert forall|i: int, j: int|
                0 <= i < p.len() && !is_dropped(p[i]) && 0 <= j < lower_of(p[i]).len() implies {
                let d = #[trigger] lower_of(p[i])[j];
                !is_dropped(d) && lower_of(d) == seq![d]
            } by {
                assert(p[i] == s[i]);
            }
        }
        lemma_rough_key_idempotent(p);
        if !is_dropped(s.last()) {
            let l = lower_of(s.last());
            assert forall|j: int| 0 <= j < l.len() implies !is_dropped(#[trigger] l[j]) && lower_of(
                l[j],
            ) == seq![l[j]] by {
                assert(s[s.len() - 1] == s.last());
            }
            lemma_rough_key_fixed(l);
            lemma_rough_key_concat(rough_key(p), l);
        }
    }
}

} // verus!
