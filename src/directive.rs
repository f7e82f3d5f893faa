use vstd::prelude::*;

use crate::error::ImportError;
use crate::expand::{expand_paths, expansion, Probe};
use crate::key_set::KeySet;
use crate::namespace::{namespace_literal_to_rough_namespace, rough_key};
use crate::text::{text_eq, trim_quotes, unquoted};
use crate::token::{ParseState, Token};

verus! {

/// The two kinds of section.
pub enum Category {
    /// A `dependencies` section: where descriptor files are.
    Dependency,
    /// A `modules` section: which namespaces are wanted.
    Namespace,
}

/// Whether `t` is the word `w`.
pub open spec fn is_word(t: Token, w: Seq<char>) -> bool {
    match t {
        Token::Ident(s) => s@ == w,
        _ => false,
    }
}

/// Whether `t` is the punctuation character `c`.
pub open spec fn is_punct(t: Token, c: char) -> bool {
    match t {
        Token::Punct(p) => p == c,
        _ => false,
    }
}

/// Where reading resumes after an optional `:` at `j`.
pub open spec fn skip_colon(ts: Seq<Token>, j: nat) -> nat {
    if j < ts.len() && is_punct(ts[j as int], ':') {
        j + 1
    } else {
        j
    }
}

/// The section keyword at `i`, and where its body starts.
pub open spec fn category_at(ts: Seq<Token>, i: nat) -> Result<(Category, nat), ImportError> {
    if i >= ts.len() {
        Err(ImportError::UnexpectedEnd)
    } else {
        match ts[i as int] {
            Token::Ident(s) => if s@ == "dependencies"@ {
                Ok((Category::Dependency, skip_colon(ts, i + 1)))
            } else if s@ == "modules"@ {
                Ok((Category::Namespace, skip_colon(ts, i + 1)))
            } else {
                Err(ImportError::UnknownSection(s))
            },
            t => Err(ImportError::UnexpectedToken(t)),
        }
    }
}

/// Reads a section keyword at `pos`, and a `:` after it if there is one.
/// Returns the section's kind and where its body starts.
pub fn parse_category(tokens: &Vec<Token>, pos: usize) -> (r: Result<(Category, usize), ImportError>)
    requires
        pos <= tokens@.len(),
    ensures
        match r {
            Ok((c, j)) => category_at(tokens@, pos as nat) == Ok::<(Category, nat), ImportError>(
                (c, j as nat),
            ),
            Err(e) => category_at(tokens@, pos as nat) == Err::<(Category, nat), ImportError>(e),
        },
{
    if pos >= tokens.len() {
        return Err(ImportError::UnexpectedEnd);
    }
    match &tokens[pos] {
        Token::Ident(s) => {
            let category = if text_eq(s.as_str(), "dependencies") {
                Category::Dependency
            } else if text_eq(s.as_str(), "modules") {
                Category::Namespace
            } else {
                return Err(ImportError::UnknownSection(s.clone()));
            };
            let mut next = pos + 1;
            if next < tokens.len() {
                if let Token::Punct(c) = &tokens[next] {
                    if *c == ':' {
                        next = next + 1;
                    }
                }
            }
            Ok((category, next))
        },
        t => Err(ImportError::UnexpectedToken(t.clone())),
    }
}

/// Where the run of literals that starts at `i` ends.
pub open spec fn literal_run_end(ts: Seq<Token>, i: nat) -> nat
    decreases ts.len() - i,
{
    if i < ts.len() && ts[i as int] is Literal {
        literal_run_end(ts, i + 1)
    } else {
        i
    }
}

/// The keys of the run of literals that starts at `i`.
pub open spec fn literal_keys(ts: Seq<Token>, i: nat) -> Set<Seq<char>>
    decreases ts.len() - i,
{
    if i < ts.len() {
        match ts[i as int] {
            Token::Literal(s) => literal_keys(ts, i + 1).insert(rough_key(s@)),
            _ => Set::empty(),
        }
    } else {
        Set::empty()
    }
}

/// Reads the body of a `modules` section at `pos`: the run of literals there.
/// Returns their keys and where the run ends.
pub fn parse_namespace(tokens: &Vec<Token>, pos: usize) -> (r: (KeySet, usize))
    requires
        pos <= tokens@.len(),
    ensures
        r.0.wf(),
        r.0@ == literal_keys(tokens@, pos as nat),
        r.1 == literal_run_end(tokens@, pos as nat),
{
    let mut modules = KeySet::new();
    let mut i = pos;
    while i < tokens.len()
        invariant
            pos <= i <= tokens@.len(),
            modules.wf(),
            literal_keys(tokens@, pos as nat) == modules@.union(literal_keys(tokens@, i as nat)),
            literal_run_end(tokens@, pos as nat) == literal_run_end(tokens@, i as nat),
        decreases tokens@.len() - i,
    {
        match &tokens[i] {
            Token::Literal(s) => {
                let ghost before = modules@;
                modules.insert(namespace_literal_to_rough_namespace(s.as_str()));
                assert(before.union(literal_keys(tokens@, i as nat)) =~= modules@.union(
                    literal_keys(tokens@, (i + 1) as nat),
                ));
            },
            _ => {
                assert(modules@.union(literal_keys(tokens@, i as nat)) =~= modules@);
                return (modules, i);
            },
        }
        i = i + 1;
    }
    assert(modules@.union(literal_keys(tokens@, i as nat)) =~= modules@);
    (modules, i)
}


/// What the `os` and `nuget` items are resolved against.
pub struct Environment {
    /// The system root directory, if the environment names one.
    pub system_root: Option<String>,
    /// The system-binaries directory under the root, which depends on the
    /// target platform.
    pub system_dir: String,
    /// The invoking user's home directory.
    pub home: String,
}

impl Environment {
    /// An environment for a target whose pointers are 64 bits wide
    /// (`wide`) or 32 bits wide (not `wide`).
    pub fn for_target(system_root: Option<String>, home: String, wide: bool) -> (r: Environment)
        ensures
            r.system_root == system_root,
            r.home == home,
            r.system_dir@ == (if wide {
                "System32"@
            } else {
                "SysNative"@
            }),
    {
        let system_dir = if wide {
            String::from_str("System32")
        } else {
            String::from_str("SysNative")
        };
        Environment { system_root, system_dir, home }
    }
}

/// A path candidate, as the components to join in order.
pub type Candidate = Seq<Seq<char>>;

/// What reading dependency items yields: the path candidates in order, where
/// reading stopped, and the failure that stopped it, if any.
pub type DepItems = (Seq<Candidate>, nat, Option<ImportError>);

/// The candidate of the `os` item.
pub open spec fn os_candidate(root: Seq<char>, env: Environment) -> Candidate {
    seq![root, env.system_dir@, "winmetadata"@]
}

/// Where `nuget:` packages are looked for.
pub open spec fn nuget_root(env: Environment) -> Candidate {
    seq![env.home@, ".nuget"@]
}

pub open spec fn prepend(c: Candidate, r: DepItems) -> DepItems {
    (seq![c] + r.0, r.1, r.2)
}

/// The dependency items from `i` on.
pub open spec fn dep_items(ts: Seq<Token>, i: nat, env: Environment) -> DepItems
    decreases ts.len() - i,
{
    if i >= ts.len() {
        (Seq::empty(), i, None)
    } else {
        match ts[i as int] {
            Token::Literal(s) => prepend(seq![unquoted(s@)], dep_items(ts, i + 1, env)),
            Token::Ident(s) => if s@ == "os"@ {
                match env.system_root {
                    Some(root) => prepend(os_candidate(root@, env), dep_items(ts, i + 1, env)),
                    None => (Seq::empty(), i, Some(ImportError::MissingSystemRoot)),
                }
            } else if s@ == "nuget"@ {
                if i + 1 < ts.len() && is_punct(ts[i + 1 as int], ':') {
                    nuget_segments(ts, i + 2, nuget_root(env), env)
                } else {
                    (Seq::empty(), i, Some(ImportError::NugetWithoutColon))
                }
            } else {
                (Seq::empty(), i, None)
            },
            _ => (Seq::empty(), i, None),
        }
    }
}

/// The rest of a `nuget:` item from the segment expected at `k`, `path`
/// holding the components so far, then the dependency items after it.
pub open spec fn nuget_segments(ts: Seq<Token>, k: nat, path: Candidate, env: Environment) -> DepItems
    decreases ts.len() - k,
{
    if k >= ts.len() {
        (Seq::empty(), k, Some(ImportError::NugetEnd))
    } else {
        match ts[k as int] {
            Token::Ident(s) => if k + 1 < ts.len() && is_punct(ts[k + 1 as int], '.') {
                nuget_segments(ts, k + 2, path.push(s@), env)
            } else {
                prepend(path.push(s@), dep_items(ts, k + 1, env))
            },
            t => (Seq::empty(), k, Some(ImportError::NugetSegment(t))),
        }
    }
}

/// Reads the package name of a `nuget:` item, whose first segment is
/// expected at `first`, appending each segment to `path`. Returns the finished
/// candidate and where reading goes on, or where it failed and why.
fn parse_nuget_name(
    tokens: &Vec<Token>,
    first: usize,
    path: Vec<String>,
    env: &Environment,
) -> (r: Result<(Vec<String>, usize), (usize, ImportError)>)
    requires
        first <= tokens@.len(),
    ensures
        ({
            let whole = nuget_segments(tokens@, first as nat, path.deep_view(), *env);
            match r {
                Ok((c, j)) => first < j <= tokens@.len() && whole == prepend(
                    c.deep_view(),
                    dep_items(tokens@, j as nat, *env),
                ),
                Err((j, e)) => whole == (Seq::<Candidate>::empty(), j as nat, Some(e)),
            }
        }),
{
    let n = tokens.len();
    let ghost p0 = path.deep_view();
    let mut c = path;
    let mut k = first;
    loop
        invariant
            n == tokens@.len(),
            first <= k <= n,
            p0 == path.deep_view(),
            nuget_segments(tokens@, first as nat, p0, *env) == nuget_segments(
                tokens@,
                k as nat,
                c.deep_view(),
                *env,
            ),
        decreases n - k,
    {
        if k >= n {
            return Err((k, ImportError::NugetEnd));
        }
        match &tokens[k] {
            Token::Ident(seg) => {
                let ghost before = c.deep_view();
                c.push(seg.clone());
                assert(c.deep_view() =~= before.push(seg@));
                let more = n - k > 1 && match &tokens[k + 1] {
                    Token::Punct(p) => *p == '.',
                    _ => false,
                };
                if more {
                    k = k + 2;
                } else {
                    return Ok((c, k + 1));
                }
            },
            t => {
                return Err((k, ImportError::NugetSegment(t.clone())));
            },
        }
    }
}

/// Reads the body of a `dependencies` section at `pos`, appending each path
/// candidate to `found`. Returns where reading stopped and the failure that
/// stopped it, if any.
pub fn parse_dependencies(
    tokens: &Vec<Token>,
    pos: usize,
    env: &Environment,
    found: &mut Vec<Vec<String>>,
) -> (r: (usize, Option<ImportError>))
    requires
        pos <= tokens@.len(),
    ensures
        ({
            let d = dep_items(tokens@, pos as nat, *env);
            &&& final(found).deep_view() == old(found).deep_view() + d.0
            &&& r.0 as nat == d.1
            &&& r.1 == d.2
        }),
{
    let n = tokens.len();
    let ghost start = found.deep_view();
    let ghost added: Seq<Candidate> = Seq::empty();
    let mut i = pos;
    assert(found.deep_view() =~= start + added);
    loop
        invariant
            n == tokens@.len(),
            pos <= i <= n,
            start == old(found).deep_view(),
            found.deep_view() == start + added,
            ({
                let d = dep_items(tokens@, pos as nat, *env);
                let e = dep_items(tokens@, i as nat, *env);
                &&& d.0 == added + e.0
                &&& d.1 == e.1
                &&& d.2 == e.2
            }),
        decreases n - i,
    {
        let ghost before = found.deep_view();
        if i >= n {
            assert(added + Seq::<Candidate>::empty() =~= added);
            return (i, None);
        }
        let c: Vec<String>;
        let next: usize;
        match &tokens[i] {
            Token::Literal(s) => {
                let mut v: Vec<String> = Vec::new();
                v.push(String::from_str(trim_quotes(s.as_str())));
                assert(v.deep_view() =~= seq![unquoted(s@)]);
                c = v;
                next = i + 1;
            },
            Token::Ident(s) => {
                if text_eq(s.as_str(), "os") {
                    match &env.system_root {
                        Some(root) => {
                            let mut v: Vec<String> = Vec::new();
                            v.push(root.clone());
                            v.push(env.system_dir.clone());
                            v.push(String::from_str("winmetadata"));
                            assert(v.deep_view() =~= os_candidate(root@, *env));
                            c = v;
                            next = i + 1;
                        },
                        None => {
                            assert(added + Seq::<Candidate>::empty() =~= added);
                            return (i, Some(ImportError::MissingSystemRoot));
                        },
                    }
                } else if text_eq(s.as_str(), "nuget") {
                    let colon = n - i > 1 && match &tokens[i + 1] {
                        Token::Punct(p) => *p == ':',
                        _ => false,
                    };
                    if !colon {
                        assert(added + Seq::<Candidate>::empty() =~= added);
                        return (i, Some(ImportError::NugetWithoutColon));
                    }
                    let mut v: Vec<String> = Vec::new();
                    v.push(env.home.clone());
                    v.push(String::from_str(".nuget"));
                    assert(v.deep_view() =~= nuget_root(*env));
                    match parse_nuget_name(tokens, i + 2, v, env) {
                        Ok((w, j)) => {
                            c = w;
                            next = j;
                        },
                        Err((j, e)) => {
                            assert(added + Seq::<Candidate>::empty() =~= added);
                            return (j, Some(e));
                        },
                    }
                } else {
                    assert(added + Seq::<Candidate>::empty() =~= added);
                    return (i, None);
                }
            },
            _ => {
                assert(added + Seq::<Candidate>::empty() =~= added);
                return (i, None);
            },
        }
        let ghost cv = c.deep_view();
        found.push(c);
        proof {
            assert(found.deep_view() =~= before.push(cv));
            assert(added + (seq![cv] + dep_items(tokens@, next as nat, *env).0) =~= added.push(cv)
                + dep_items(tokens@, next as nat, *env).0);
            added = added.push(cv);
            assert(found.deep_view() =~= start + added);
        }
        i = next;
    }
}


proof fn lemma_literal_run_end_bounds(ts: Seq<Token>, i: nat)
    requires
        i <= ts.len(),
    ensures
        i <= literal_run_end(ts, i) <= ts.len(),
    decreases ts.len() - i,
{
    if i < ts.len() && ts[i as int] is Literal {
        lemma_literal_run_end_bounds(ts, i + 1);
    }
}

proof fn lemma_dep_items_bounds(ts: Seq<Token>, i: nat, env: Environment)
    requires
        i <= ts.len(),
    ensures
        i <= dep_items(ts, i, env).1 <= ts.len(),
    decreases ts.len() - i, 1nat,
{
    if i < ts.len() {
        match ts[i as int] {
            Token::Literal(_) => lemma_dep_items_bounds(ts, i + 1, env),
            Token::Ident(s) => {
                if s@ == "os"@ {
                    if env.system_root is Some {
                        lemma_dep_items_bounds(ts, i + 1, env);
                    }
                } else if s@ == "nuget"@ && i + 1 < ts.len() && is_punct(ts[i + 1 as int], ':') {
                    lemma_nuget_segments_bounds(ts, i + 2, nuget_root(env), env);
                }
            },
            _ => {},
        }
    }
}

proof fn lemma_nuget_segments_bounds(ts: Seq<Token>, k: nat, path: Candidate, env: Environment)
    requires
        k <= ts.len(),
    ensures
        k <= nuget_segments(ts, k, path, env).1 <= ts.len(),
    decreases ts.len() - k, 0nat,
{
    if k < ts.len() {
        if let Token::Ident(s) = ts[k as int] {
            if k + 1 < ts.len() && is_punct(ts[k + 1 as int], '.') {
                lemma_nuget_segments_bounds(ts, k + 2, path.push(s@), env);
            } else {
                lemma_dep_items_bounds(ts, k + 1, env);
            }
        }
    }
}

/// What reading a directive yields: the dependency path candidates in order,
/// the namespace keys, and the failure that stopped reading, if any.
pub type Outline = (Seq<Candidate>, Set<Seq<char>>, Option<ImportError>);

/// The sections from `i` on, `state` telling which kinds were seen before.
/// Once both kinds have been seen, input must end there.
pub open spec fn sections_from(ts: Seq<Token>, i: nat, state: ParseState, env: Environment) -> Outline
    decreases ts.len() - i,
    via sections_from_decreases
{
    if state == ParseState::Both {
        if i < ts.len() {
            (Seq::empty(), Set::empty(), Some(ImportError::TrailingInput(ts[i as int])))
        } else {
            (Seq::empty(), Set::empty(), None)
        }
    } else {
        match category_at(ts, i) {
            Err(e) => (Seq::empty(), Set::empty(), Some(e)),
            Ok((Category::Namespace, j)) => {
                let rest = sections_from(ts, literal_run_end(ts, j), state.after_namespace(), env);
                (rest.0, literal_keys(ts, j).union(rest.1), rest.2)
            },
            Ok((Category::Dependency, j)) => {
                let d = dep_items(ts, j, env);
                if d.2 is Some {
                    (d.0, Set::empty(), d.2)
                } else {
                    let rest = sections_from(ts, d.1, state.after_dependency(), env);
                    (d.0 + rest.0, rest.1, rest.2)
                }
            },
        }
    }
}

#[via_fn]
proof fn sections_from_decreases(ts: Seq<Token>, i: nat, state: ParseState, env: Environment) {
    if state != ParseState::Both && i < ts.len() {
        if let Ok((c, j)) = category_at(ts, i) {
            lemma_literal_run_end_bounds(ts, j);
            lemma_dep_items_bounds(ts, j, env);
        }
    }
}

/// What a whole directive yields.
pub open spec fn outline(ts: Seq<Token>, env: Environment) -> Outline {
    sections_from(ts, 0, ParseState::Neither, env)
}

/// A parsed directive. The dependency entries are still path candidates:
/// each is to be looked at on disk and the outcome handed to `resolve_imports`.
pub struct Directive {
    /// The path candidates, in the order they appear; each is the list of
    /// components to join.
    pub candidates: Vec<Vec<String>>,
    /// The namespace keys.
    pub namespaces: KeySet,
    /// What stopped reading, if anything. The candidates before it still
    /// stand, since a failure to resolve one of them comes first.
    pub failure: Option<ImportError>,
}

/// Reads a whole directive: sections in any order, each kind at least once,
/// until both kinds have been seen; nothing may follow then.
pub fn parse_import_stream(tokens: &Vec<Token>, env: &Environment) -> (r: Directive)
    ensures
        r.namespaces.wf(),
        outline(tokens@, *env) == (r.candidates.deep_view(), r.namespaces@, r.failure),
{
    let n = tokens.len();
    let mut candidates: Vec<Vec<String>> = Vec::new();
    let mut modules = KeySet::new();
    let mut state = ParseState::Neither;
    let mut pos: usize = 0;
    assert(candidates.deep_view() =~= Seq::<Candidate>::empty());
    proof {
        let o = outline(tokens@, *env);
        assert(o.0 =~= candidates.deep_view() + o.0);
        assert(o.1 =~= modules@.union(o.1));
    }
    loop
        invariant
            n == tokens@.len(),
            pos <= n,
            modules.wf(),
            ({
                let o = outline(tokens@, *env);
                let rest = sections_from(tokens@, pos as nat, state, *env);
                &&& o.0 == candidates.deep_view() + rest.0
                &&& o.1 == modules@.union(rest.1)
                &&& o.2 == rest.2
            }),
        decreases n - pos,
    {
        let ghost rest = sections_from(tokens@, pos as nat, state, *env);
        if state == ParseState::Both {
            let failure = if pos < n {
                Some(ImportError::TrailingInput(tokens[pos].clone()))
            } else {
                None
            };
            assert(candidates.deep_view() + rest.0 =~= candidates.deep_view());
            assert(modules@.union(rest.1) =~= modules@);
            return Directive { candidates, namespaces: modules, failure };
        }
        match parse_category(tokens, pos) {
            Err(e) => {
                assert(candidates.deep_view() + rest.0 =~= candidates.deep_view());
                assert(modules@.union(rest.1) =~= modules@);
                return Directive { candidates, namespaces: modules, failure: Some(e) };
            },
            Ok((Category::Namespace, j)) => {
                let (keys, end) = parse_namespace(tokens, j);
                proof {
                    lemma_literal_run_end_bounds(tokens@, j as nat);
                }
                let ghost before = modules@;
                modules.union_with(&keys);
                assert(before.union(keys@.union(
                    sections_from(tokens@, end as nat, state.after_namespace(), *env).1,
                )) =~= modules@.union(
                    sections_from(tokens@, end as nat, state.after_namespace(), *env).1,
                ));
                state = state.parsed_namespace();
                pos = end;
            },
            Ok((Category::Dependency, j)) => {
                let ghost before = candidates.deep_view();
                let (end, failure) = parse_dependencies(tokens, j, env, &mut candidates);
                proof {
                    lemma_dep_items_bounds(tokens@, j as nat, *env);
                }
                if failure.is_some() {
                    assert(modules@.union(Set::<Seq<char>>::empty()) =~= modules@);
                    return Directive { candidates, namespaces: modules, failure };
                }
                assert(before + (dep_items(tokens@, j as nat, *env).0 + sections_from(
                    tokens@,
                    end as nat,
                    state.after_dependency(),
                    *env,
                ).0) =~= candidates.deep_view() + sections_from(
                    tokens@,
                    end as nat,
                    state.after_dependency(),
                    *env,
                ).0);
                state = state.parsed_dependency();
                pos = end;
            },
        }
    }
}

/// The descriptor files that the probed candidates stand for, unioned in
/// order; the first candidate that fails to resolve decides the error.
pub open spec fn resolved_paths(probes: Seq<Probe>) -> Result<Set<Seq<char>>, ImportError>
    decreases probes.len(),
{
    if probes.len() == 0 {
        Ok(Set::empty())
    } else {
        match resolved_paths(probes.drop_last()) {
            Err(e) => Err(e),
            Ok(s) => match expansion(probes.last()) {
                Err(e) => Err(e),
                Ok(t) => Ok(s.union(t)),
            },
        }
    }
}

/// The dependency set of a directive whose candidates were probed as
/// `probes`, or the error that ends its compilation.
pub open spec fn resolution(failure: Option<ImportError>, probes: Seq<Probe>) -> Result<
    Set<Seq<char>>,
    ImportError,
> {
    match resolved_paths(probes) {
        Err(e) => Err(e),
        Ok(s) => match failure {
            Some(e) => Err(e),
            None => Ok(s),
        },
    }
}

/// The outcome of compiling a directive: the two sets handed on.
pub struct Imports {
    /// Paths of descriptor files.
    pub dependencies: KeySet,
    /// Namespace keys.
    pub namespaces: KeySet,
}

/// Finishes a directive: expands each probed candidate, in order, and unions
/// the results. `probes` holds what each of `d.candidates` was found to be.
pub fn resolve_imports(d: Directive, probes: &Vec<Probe>) -> (r: Result<Imports, ImportError>)
    requires
        d.namespaces.wf(),
    ensures
        match r {
            Ok(im) => {
                &&& im.dependencies.wf()
                &&& im.namespaces.wf()
                &&& resolution(d.failure, probes@) == Ok::<Set<Seq<char>>, ImportError>(
                    im.dependencies@,
                )
                &&& im.namespaces@ == d.namespaces@
            },
            Err(e) => resolution(d.failure, probes@) == Err::<Set<Seq<char>>, ImportError>(e),
        },
{
    let mut paths = KeySet::new();
    let n = probes.len();
    let mut i: usize = 0;
    assert(probes@.take(0) =~= Seq::<Probe>::empty());
    while i < n
        invariant
            n == probes@.len(),
            i <= n,
            paths.wf(),
            resolved_paths(probes@.take(i as int)) == Ok::<Set<Seq<char>>, ImportError>(paths@),
        decreases n - i,
    {
        assert(probes@.take(i + 1).drop_last() =~= probes@.take(i as int));
        match expand_paths(&probes[i]) {
            Ok(found) => {
                paths.union_with(&found);
            },
            Err(e) => {
                proof {
                    lemma_resolved_prefix_err(probes@, i as int + 1, e);
                }
                return Err(e);
            },
        }
        i = i + 1;
    }
    assert(probes@.take(n as int) =~= probes@);
    match d.failure {
        Some(e) => Err(e),
        None => Ok(Imports { dependencies: paths, namespaces: d.namespaces }),
    }
}

/// A failure among the first `k` probes is the failure of them all.
proof fn lemma_resolved_prefix_err(probes: Seq<Probe>, k: int, e: ImportError)
    requires
        0 <= k <= probes.len(),
        resolved_paths(probes.take(k)) == Err::<Set<Seq<char>>, ImportError>(e),
    ensures
        resolved_paths(probes) == Err::<Set<Seq<char>>, ImportError>(e),
    decreases probes.len() - k,
{
    if k < probes.len() {
        assert(probes.take(k + 1).drop_last() =~= probes.take(k));
        lemma_resolved_prefix_err(probes, k + 1, e);
    } else {
        assert(probes.take(k) =~= probes);
    }
}

} // verus!
