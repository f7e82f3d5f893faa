use vstd::prelude::*;

use crate::directive::{
    category_at, dep_items, is_punct, is_word, literal_keys, literal_run_end, nuget_segments,
    outline, resolution, resolved_paths, sections_from, Candidate, Category, Environment,
};
use crate::error::ImportError;
use crate::expand::{expansion, Probe};
use crate::namespace::rough_key;
use crate::text::unquoted;
use crate::token::{ParseState, Token};

verus! {

/// Whether reading dependency items stops at `j` whatever came before: input
/// ends there, or a word other than `os` and `nuget` stands there.
pub open spec fn ends_items(ts: Seq<Token>, j: nat) -> bool {
    j == ts.len() || (j < ts.len() && match ts[j as int] {
        Token::Ident(s) => s@ != "os"@ && s@ != "nuget"@,
        _ => false,
    })
}

proof fn lemma_keywords_differ()
    ensures
        "modules"@ != "os"@,
        "modules"@ != "nuget"@,
        "modules"@ != "dependencies"@,
        "dependencies"@ != "os"@,
        "dependencies"@ != "nuget"@,
{
    reveal_strlit("modules");
    reveal_strlit("dependencies");
    reveal_strlit("os");
    reveal_strlit("nuget");
    assert("modules"@.len() == 7);
    assert("dependencies"@.len() == 12);
    assert("os"@.len() == 2);
    assert("nuget"@.len() == 5);
}

/// Dependency items that read to the end of `body` with no failure read the
/// same where `body` stands at `o` inside `ts`, followed by a stop.
proof fn lemma_dep_items_embed(body: Seq<Token>, ts: Seq<Token>, o: nat, i: nat, env: Environment)
    requires
        o + body.len() <= ts.len(),
        ts.subrange(o as int, o + body.len() as int) == body,
        ends_items(ts, o + body.len()),
        i <= body.len(),
        dep_items(body, i, env).1 == body.len(),
        dep_items(body, i, env).2 is None,
    ensures
        dep_items(ts, o + i, env) == (dep_items(body, i, env).0, o + body.len(), None::<
            ImportError,
        >),
    decreases body.len() - i, 1nat,
{
    if i < body.len() {
        assert(ts[o + i as int] == body[i as int]);
        match body[i as int] {
            Token::Literal(_) => lemma_dep_items_embed(body, ts, o, i + 1, env),
            Token::Ident(s) => {
                if s@ == "os"@ {
                    lemma_dep_items_embed(body, ts, o, i + 1, env);
                } else if s@ == "nuget"@ {
                    assert(ts[o + i + 1 as int] == body[i + 1 as int]);
                    lemma_nuget_embed(body, ts, o, i + 2, seq![env.home@, ".nuget"@], env);
                }
            },
            _ => {},
        }
    }
}

proof fn lemma_nuget_embed(
    body: Seq<Token>,
    ts: Seq<Token>,
    o: nat,
    k: nat,
    path: Candidate,
    env: Environment,
)
    requires
        o + body.len() <= ts.len(),
        ts.subrange(o as int, o + body.len() as int) == body,
        ends_items(ts, o + body.len()),
        k <= body.len(),
        nuget_segments(body, k, path, env).1 == body.len(),
        nuget_segments(body, k, path, env).2 is None,
    ensures
        nuget_segments(ts, o + k, path, env) == (nuget_segments(body, k, path, env).0, o
            + body.len(), None::<ImportError>),
    decreases body.len() - k, 0nat,
{
    if k < body.len() {
        assert(ts[o + k as int] == body[k as int]);
        if let Token::Ident(s) = body[k as int] {
            if k + 1 < body.len() {
                assert(ts[o + k + 1 as int] == body[k + 1 as int]);
            }
            if k + 1 < body.len() && is_punct(body[k + 1 as int], '.') {
                lemma_nuget_embed(body, ts, o, k + 2, path.push(s@), env);
            } else {
                lemma_dep_items_embed(body, ts, o, k + 1, env);
            }
        }
    }
}

/// A run of literals reads the same where it stands at `o` inside `ts`,
/// followed by anything but a literal.
proof fn lemma_literals_embed(body: Seq<Token>, ts: Seq<Token>, o: nat, i: nat)
    requires
        o + body.len() <= ts.len(),
        ts.subrange(o as int, o + body.len() as int) == body,
        forall|k: int| 0 <= k < body.len() ==> #[trigger] body[k] is Literal,
        o + body.len() == ts.len() || !(ts[o + body.len() as int] is Literal),
        i <= body.len(),
    ensures
        literal_run_end(ts, o + i) == o + body.len(),
        literal_keys(ts, o + i) == literal_keys(body, i),
    decreases body.len() - i,
{
    if i < body.len() {
        assert(ts[o + i as int] == body[i as int]);
        lemma_literals_embed(body, ts, o, i + 1);
    }
}

/// Section order does not matter: a `modules` section followed by a
/// `dependencies` section yields the same candidates, keys and outcome as the
/// same two sections in the other order.
pub proof fn lemma_section_order_irrelevant(
    modules: Token,
    dependencies: Token,
    colon: Token,
    names: Seq<Token>,
    items: Seq<Token>,
    env: Environment,
)
    requires
        is_word(modules, "modules"@),
        is_word(dependencies, "dependencies"@),
        is_punct(colon, ':'),
        forall|k: int| 0 <= k < names.len() ==> #[trigger] names[k] is Literal,
        dep_items(items, 0, env).1 == items.len(),
        dep_items(items, 0, env).2 is None,
    ensures
        outline(seq![modules, colon] + names + seq![dependencies, colon] + items, env) == outline(
            seq![dependencies, colon] + items + seq![modules, colon] + names,
            env,
        ),
        outline(seq![modules, colon] + names + seq![dependencies, colon] + items, env) == (
            dep_items(items, 0, env).0,
            literal_keys(names, 0),
            None::<ImportError>,
        ),
{
    lemma_keywords_differ();
    let m = names.len() as int;
    let d = items.len() as int;
    let r = dep_items(items, 0, env);
    let keys = literal_keys(names, 0);
    let none = None::<ImportError>;
    let empty_c = Seq::<Candidate>::empty();
    let empty_k = Set::<Seq<char>>::empty();
    // modules first
    let a = seq![modules, colon] + names + seq![dependencies, colon] + items;
    assert(a[0] == modules && a[1] == colon);
    assert(a.subrange(2, 2 + m) =~= names);
    assert(a[2 + m] == dependencies && a[3 + m] == colon);
    lemma_literals_embed(names, a, 2, 0);
    assert(a.subrange(4 + m, 4 + m + d) =~= items);
    lemma_dep_items_embed(items, a, (4 + m) as nat, 0, env);
    assert(category_at(a, 0) == Ok::<(Category, nat), ImportError>((Category::Namespace, 2nat)));
    assert(category_at(a, (2 + m) as nat) == Ok::<(Category, nat), ImportError>((Category::Dependency, (4 + m) as nat)));
    assert(sections_from(a, (4 + m + d) as nat, ParseState::Both, env) == (empty_c, empty_k, none));
    assert(r.0 + empty_c =~= r.0);
    assert(sections_from(a, (2 + m) as nat, ParseState::ParsedNamespace, env) == (r.0, empty_k, none));
    assert(keys.union(empty_k) =~= keys);
    assert(outline(a, env) == (r.0, keys, none));
    // dependencies first
    let b = seq![dependencies, colon] + items + seq![modules, colon] + names;
    assert(b[0] == dependencies && b[1] == colon);
    assert(b.subrange(2, 2 + d) =~= items);
    assert(b[2 + d] == modules && b[3 + d] == colon);
    lemma_dep_items_embed(items, b, 2, 0, env);
    assert(b.subrange(4 + d, 4 + d + m) =~= names);
    lemma_literals_embed(names, b, (4 + d) as nat, 0);
    assert(category_at(b, 0) == Ok::<(Category, nat), ImportError>((Category::Dependency, 2nat)));
    assert(category_at(b, (2 + d) as nat) == Ok::<(Category, nat), ImportError>((Category::Namespace, (4 + d) as nat)));
    assert(sections_from(b, (4 + d + m) as nat, ParseState::Both, env) == (empty_c, empty_k, none));
    assert(sections_from(b, (2 + d) as nat, ParseState::ParsedDependency, env) == (empty_c, keys, none));
    assert(outline(b, env) == (r.0, keys, none));
}

/// Repeating a literal changes nothing: the same dependency literal twice
/// gives two equal candidates, which resolve to what one of them resolves to,
/// and the same namespace literal twice gives a single key.
pub proof fn lemma_repeats_collapse(
    dependencies: Token,
    modules: Token,
    colon: Token,
    path: Token,
    name: Token,
    env: Environment,
    probe: Probe,
)
    requires
        is_word(modules, "modules"@),
        is_word(dependencies, "dependencies"@),
        is_punct(colon, ':'),
        path is Literal,
        name is Literal,
    ensures
        outline(seq![dependencies, colon, path, path, modules, colon, name, name], env) == (
            seq![seq![unquoted(path->Literal_0@)], seq![unquoted(path->Literal_0@)]],
            set![rough_key(name->Literal_0@)],
            None::<ImportError>,
        ),
        set![rough_key(name->Literal_0@)].len() == 1,
        resolution(None, seq![probe, probe]) == resolution(None, seq![probe]),
{
    lemma_keywords_differ();
    let ts = seq![dependencies, colon, path, path, modules, colon, name, name];
    let c = seq![unquoted(path->Literal_0@)];
    let key = rough_key(name->Literal_0@);
    let none = None::<ImportError>;
    let no_cands = Seq::<Candidate>::empty();
    let no_keys = Set::<Seq<char>>::empty();
    // the dependency section reads both literals and stops at `modules`
    assert(category_at(ts, 0) == Ok::<(Category, nat), ImportError>((Category::Dependency, 2nat)));
    assert(dep_items(ts, 4, env) == (no_cands, 4nat, none));
    assert(dep_items(ts, 3, env).0 =~= seq![c]);
    assert(dep_items(ts, 2, env).0 =~= seq![c, c]);
    // the namespace section reads both literals to the end
    assert(category_at(ts, 4) == Ok::<(Category, nat), ImportError>((Category::Namespace, 6nat)));
    assert(literal_run_end(ts, 8) == 8);
    assert(literal_run_end(ts, 7) == 8);
    assert(literal_run_end(ts, 6) == 8);
    assert(literal_keys(ts, 8) == no_keys);
    assert(literal_keys(ts, 7) =~= set![key]);
    assert(literal_keys(ts, 6) =~= set![key]);
    assert(set![key].union(no_keys) =~= set![key]);
    assert(sections_from(ts, 8, ParseState::Both, env) == (no_cands, no_keys, none));
    assert(sections_from(ts, 4, ParseState::ParsedDependency, env) == (no_cands, set![key], none));
    assert(seq![c, c] + no_cands =~= seq![c, c]);
    assert(set![key].len() == 1) by {
        assert(set![key] =~= no_keys.insert(key));
    }
    // resolving a probe twice adds nothing to resolving it once
    assert(seq![probe, probe].drop_last() =~= seq![probe]);
    assert(seq![probe].drop_last() =~= Seq::<Probe>::empty());
    assert(resolved_paths(Seq::<Probe>::empty()) == Ok::<Set<Seq<char>>, ImportError>(no_keys));
    if let Ok(t) = expansion(probe) {
        assert(no_keys.union(t) =~= t);
        assert(t.union(t) =~= t);
    }
}

} // verus!
