//! Symbolic terms, matching a pattern term against a value, and substituting
//! bound symbols.
use vstd::prelude::*;

verus! {

/// A term: a symbol, or a functor applied to arguments.
#[derive(Debug)]
pub enum Expr {
    Sym(String),
    Fun(String, Vec<Expr>),
}

/// The mathematical value of an `Expr`.
pub enum Term {
    Sym(Seq<char>),
    Fun(Seq<char>, Seq<Term>),
}

/// The value of `e`.
pub open spec fn term_of(e: Expr) -> Term
    decreases e,
{
    match e {
        Expr::Sym(name) => Term::Sym(name@),
        Expr::Fun(name, args) => Term::Fun(name@, terms_of(args@)),
    }
}

/// The values of `es`, in order.
pub open spec fn terms_of(es: Seq<Expr>) -> Seq<Term>
    decreases es,
{
    if es.len() == 0 {
        Seq::empty()
    } else {
        terms_of(es.drop_last()).push(term_of(es.last()))
    }
}

/// `terms_of` maps each element.
pub proof fn lemma_terms_of(es: Seq<Expr>)
    ensures
        terms_of(es).len() == es.len(),
        forall|i: int| 0 <= i < es.len() ==> #[trigger] terms_of(es)[i] == term_of(es[i]),
    decreases es.len(),
{
    if es.len() > 0 {
        lemma_terms_of(es.drop_last());
        assert forall|i: int| 0 <= i < es.len() implies #[trigger] terms_of(es)[i] == term_of(
            es[i],
        ) by {
            if i < es.len() - 1 {
                assert(es.drop_last()[i] == es[i]);
            }
        }
    }
}

impl Expr {
    /// Whether `self` and `other` are the same term.
    #[verifier::loop_isolation(false)]
    pub fn same(&self, other: &Expr) -> (r: bool)
        ensures
            r == (term_of(*self) == term_of(*other)),
        decreases self,
    {
        match (self, other) {
            (Expr::Sym(a), Expr::Sym(b)) => a.eq(b),
            (Expr::Fun(name1, args1), Expr::Fun(name2, args2)) => {
                proof {
                    lemma_terms_of(args1@);
                    lemma_terms_of(args2@);
                }
                let same_name = name1.eq(name2);
                if !same_name || args1.len() != args2.len() {
                    return false;
                }
                let mut i: usize = 0;
                while i < args1.len()
                    invariant
                        args1.len() == args2.len(),
                        i <= args1.len(),
                        forall|j: int| 0 <= j < i ==> term_of(#[trigger] args1@[j]) == term_of(args2@[j]),
                    decreases args1.len() - i,
                {
                    proof {
                        assert(decreases_to!(*self => *args1));
                        assert(decreases_to!(*args1 => args1[i as int]));
                    }
                    if !args1[i].same(&args2[i]) {
                        assert(terms_of(args1@)[i as int] != terms_of(args2@)[i as int]);
                        return false;
                    }
                    i += 1;
                }
                assert(terms_of(args1@) =~= terms_of(args2@));
                true
            },
            _ => false,
        }
    }

    /// A copy of `self`.
    #[verifier::loop_isolation(false)]
    pub fn duplicate(&self) -> (r: Expr)
        ensures
            term_of(r) == term_of(*self),
        decreases self,
    {
        match self {
            Expr::Sym(name) => Expr::Sym(name.clone()),
            Expr::Fun(name, args) => {
                let mut copies: Vec<Expr> = Vec::new();
                let mut i: usize = 0;
                while i < args.len()
                    invariant
                        i <= args.len(),
                        copies.len() == i,
                        forall|j: int| 0 <= j < i ==> term_of(#[trigger] copies@[j]) == term_of(args@[j]),
                    decreases args.len() - i,
                {
                    proof {
                        assert(decreases_to!(*self => *args));
                        assert(decreases_to!(*args => args[i as int]));
                    }
                    copies.push(args[i].duplicate());
                    i += 1;
                }
                proof {
                    lemma_terms_of(args@);
                    lemma_terms_of(copies@);
                    assert(terms_of(copies@) =~= terms_of(args@));
                }
                Expr::Fun(name.clone(), copies)
            },
        }
    }
}


// ---------------------------------------------------------------------------
// Bindings: symbol names mapped to terms.

/// The map that a list of (name, value) entries denotes; a later entry for a
/// name overrides an earlier one.
pub open spec fn map_of(es: Seq<(String, Expr)>) -> Map<Seq<char>, Term>
    decreases es.len(),
{
    if es.len() == 0 {
        Map::empty()
    } else {
        map_of(es.drop_last()).insert(es.last().0@, term_of(es.last().1))
    }
}

/// No name occurs in two entries.
pub open spec fn distinct_names(es: Seq<(String, Expr)>) -> bool {
    forall|i: int, j: int| 0 <= i < j < es.len() ==> (#[trigger] es[i]).0@ != (#[trigger] es[j]).0@
}

/// The names that `map_of` binds are those of the entries; with distinct
/// names there is one binding per entry.
proof fn lemma_map_of(es: Seq<(String, Expr)>)
    ensures
        map_of(es).dom().finite(),
        forall|k: Seq<char>|
            #[trigger] map_of(es).contains_key(k) <==> exists|i: int| 0 <= i < es.len() && es[i].0@ == k,
        distinct_names(es) ==> map_of(es).len() == es.len(),
    decreases es.len(),
{
    if es.len() > 0 {
        let q = es.drop_last();
        lemma_map_of(q);
        assert forall|k: Seq<char>| #[trigger] map_of(es).contains_key(k) <==> exists|i: int|
            0 <= i < es.len() && es[i].0@ == k by {
            if map_of(es).contains_key(k) && k != es.last().0@ {
                let i = choose|i: int| 0 <= i < q.len() && q[i].0@ == k;
                assert(es[i] == q[i]);
            }
            if exists|i: int| 0 <= i < es.len() && es[i].0@ == k {
                let i = choose|i: int| 0 <= i < es.len() && es[i].0@ == k;
                if i < es.len() - 1 {
                    assert(q[i] == es[i]);
                }
            }
        }
        if distinct_names(es) {
            assert(distinct_names(q)) by {
                assert forall|i: int, j: int| 0 <= i < j < q.len() implies (#[trigger] q[i]).0@
                    != (#[trigger] q[j]).0@ by {
                    assert(q[i] == es[i] && q[j] == es[j]);
                }
            }
            if map_of(q).contains_key(es.last().0@) {
                let i = choose|i: int| 0 <= i < q.len() && q[i].0@ == es.last().0@;
                assert(es[i] == q[i]);
                assert(es[i].0@ != es[es.len() - 1].0@);
            }
        }
    }
}

/// Symbol names bound to terms.
#[derive(Debug)]
pub struct Bindings {
    entries: Vec<(String, Expr)>,
}

impl View for Bindings {
    type V = Map<Seq<char>, Term>;

    closed spec fn view(&self) -> Map<Seq<char>, Term> {
        map_of(self.entries@)
    }
}

impl Bindings {
    /// The bindings in the order they were made.
    pub closed spec fn listing(&self) -> Seq<(String, Expr)> {
        self.entries@
    }

    /// Each name is bound by one entry.
    pub closed spec fn wf(&self) -> bool {
        distinct_names(self.entries@)
    }

    /// No bindings.
    pub fn new() -> (r: Bindings)
        ensures
            r.wf(),
            r@ == Map::<Seq<char>, Term>::empty(),
    {
        Bindings { entries: Vec::new() }
    }

    /// The value bound to `name`.
    pub fn get(&self, name: &String) -> (r: Option<&Expr>)
        ensures
            r is Some == self@.contains_key(name@),
            r is Some ==> term_of(*r->0) == self@[name@],
    {
        let ghost es = self.entries@;
        let mut i = self.entries.len();
        assert(es.take(i as int) =~= es);
        while i > 0
            invariant
                es == self.entries@,
                i <= es.len(),
                map_of(es.take(i as int)).contains_key(name@) == self@.contains_key(name@),
                self@.contains_key(name@) ==> map_of(es.take(i as int))[name@] == self@[name@],
            decreases i,
        {
            let entry = &self.entries[i - 1];
            assert(es.take(i as int).drop_last() =~= es.take(i - 1));
            if entry.0.eq(name) {
                return Some(&entry.1);
            }
            i -= 1;
        }
        None
    }

    /// Binds `name`, unbound so far, to `value`.
    pub fn insert(&mut self, name: String, value: Expr)
        requires
            old(self).wf(),
            !old(self)@.contains_key(name@),
        ensures
            final(self).wf(),
            final(self)@ == old(self)@.insert(name@, term_of(value)),
    {
        let ghost es = self.entries@;
        proof {
            lemma_map_of(es);
        }
        self.entries.push((name, value));
        assert(self.entries@.drop_last() =~= es);
        assert forall|i: int, j: int| 0 <= i < j < self.entries@.len() implies (
        #[trigger] self.entries@[i]).0@ != (#[trigger] self.entries@[j]).0@ by {
            if j == es.len() {
                assert(self.entries@[i] == es[i]);
            } else {
                assert(self.entries@[i] == es[i] && self.entries@[j] == es[j]);
            }
        }
    }

    /// The number of names bound.
    pub fn len(&self) -> (r: usize)
        requires
            self.wf(),
        ensures
            r == self@.len(),
    {
        proof {
            lemma_map_of(self.entries@);
        }
        self.entries.len()
    }

    /// The `i`-th binding, in the order they were made.
    pub fn entry(&self, i: usize) -> (r: (&String, &Expr))
        requires
            i < self.listing().len(),
        ensures
            *r.0 == self.listing()[i as int].0,
            *r.1 == self.listing()[i as int].1,
    {
        let e = &self.entries[i];
        (&e.0, &e.1)
    }
}

// ---------------------------------------------------------------------------
// Substitution.

/// `t` with each bound symbol replaced by its value; a bound functor name is
/// replaced by the name of the symbol it is bound to.
pub open spec fn subst(b: Map<Seq<char>, Term>, t: Term) -> Term
    decreases t,
{
    match t {
        Term::Sym(n) => if b.contains_key(n) {
            b[n]
        } else {
            t
        },
        Term::Fun(n, args) => Term::Fun(
            if b.contains_key(n) {
                b[n]->Sym_0
            } else {
                n
            },
            subst_all(b, args),
        ),
    }
}

/// `subst` on each of `ts`.
pub open spec fn subst_all(b: Map<Seq<char>, Term>, ts: Seq<Term>) -> Seq<Term>
    decreases ts,
{
    if ts.len() == 0 {
        Seq::empty()
    } else {
        subst_all(b, ts.drop_last()).push(subst(b, ts.last()))
    }
}

/// Every functor name in `t` that `b` binds is bound to a symbol.
pub open spec fn functors_ok(b: Map<Seq<char>, Term>, t: Term) -> bool
    decreases t,
{
    match t {
        Term::Sym(_) => true,
        Term::Fun(n, args) => (b.contains_key(n) ==> b[n] is Sym) && all_functors_ok(b, args),
    }
}

/// `functors_ok` for each of `ts`.
pub open spec fn all_functors_ok(b: Map<Seq<char>, Term>, ts: Seq<Term>) -> bool
    decreases ts,
{
    if ts.len() == 0 {
        true
    } else {
        all_functors_ok(b, ts.drop_last()) && functors_ok(b, ts.last())
    }
}

proof fn lemma_subst_all(b: Map<Seq<char>, Term>, ts: Seq<Term>)
    ensures
        subst_all(b, ts).len() == ts.len(),
        forall|i: int| 0 <= i < ts.len() ==> #[trigger] subst_all(b, ts)[i] == subst(b, ts[i]),
        all_functors_ok(b, ts) == forall|i: int| 0 <= i < ts.len() ==> #[trigger] functors_ok(b, ts[i]),
    decreases ts.len(),
{
    if ts.len() > 0 {
        lemma_subst_all(b, ts.drop_last());
        assert forall|i: int| 0 <= i < ts.len() - 1 implies ts.drop_last()[i] == ts[i] by {}
        if all_functors_ok(b, ts) {
            assert forall|i: int| 0 <= i < ts.len() implies #[trigger] functors_ok(b, ts[i]) by {
                if i < ts.len() - 1 {
                    assert(functors_ok(b, ts.drop_last()[i]));
                }
            }
        }
        if forall|i: int| 0 <= i < ts.len() ==> #[trigger] functors_ok(b, ts[i]) {
            assert forall|i: int| 0 <= i < ts.len() - 1 implies #[trigger] functors_ok(b, ts.drop_last()[i]) by {
                assert(functors_ok(b, ts[i]));
            }
            assert(functors_ok(b, ts[ts.len() - 1]));
        }
    }
}

/// Whether every functor name in `expr` that `bindings` binds is bound to a
/// symbol, so that substitution can rename it.
#[verifier::loop_isolation(false)]
pub fn functors_are_symbols(bindings: &Bindings, expr: &Expr) -> (r: bool)
    ensures
        r == functors_ok(bindings@, term_of(*expr)),
    decreases expr,
{
    match expr {
        Expr::Sym(_) => true,
        Expr::Fun(name, args) => {
            if let Some(Expr::Fun(_, _)) = bindings.get(name) {
                return false;
            }
            proof {
                lemma_terms_of(args@);
                lemma_subst_all(bindings@, terms_of(args@));
            }
            let mut i: usize = 0;
            while i < args.len()
                invariant
                    i <= args.len(),
                    forall|j: int| 0 <= j < i ==> functors_ok(bindings@, term_of(#[trigger] args@[j])),
                decreases args.len() - i,
            {
                proof {
                    assert(decreases_to!(*expr => *args));
                    assert(decreases_to!(*args => args[i as int]));
                }
                if !functors_are_symbols(bindings, &args[i]) {
                    assert(!functors_ok(bindings@, terms_of(args@)[i as int]));
                    return false;
                }
                i += 1;
            }
            assert forall|j: int| 0 <= j < args.len() implies #[trigger] functors_ok(bindings@, terms_of(args@)[j]) by {
                assert(functors_ok(bindings@, term_of(args@[j])));
            }
            true
        },
    }
}

/// `expr` with the bindings substituted.
#[verifier::loop_isolation(false)]
pub fn substitute_bindings(bindings: &Bindings, expr: &Expr) -> (r: Expr)
    requires
        functors_ok(bindings@, term_of(*expr)),
    ensures
        term_of(r) == subst(bindings@, term_of(*expr)),
    decreases expr,
{
    match expr {
        Expr::Sym(name) => match bindings.get(name) {
            Some(value) => value.duplicate(),
            None => expr.duplicate(),
        },
        Expr::Fun(name, args) => {
            let new_name = match bindings.get(name) {
                Some(Expr::Sym(new_name)) => new_name.clone(),
                _ => name.clone(),
            };
            proof {
                lemma_terms_of(args@);
                lemma_subst_all(bindings@, terms_of(args@));
            }
            let mut new_args: Vec<Expr> = Vec::new();
            let mut i: usize = 0;
            while i < args.len()
                invariant
                    i <= args.len(),
                    new_args.len() == i,
                    forall|j: int|
                        0 <= j < i ==> term_of(#[trigger] new_args@[j]) == subst(
                            bindings@,
                            term_of(args@[j]),
                        ),
                decreases args.len() - i,
            {
                proof {
                    assert(decreases_to!(*expr => *args));
                    assert(decreases_to!(*args => args[i as int]));
                    assert(functors_ok(bindings@, terms_of(args@)[i as int]));
                }
                new_args.push(substitute_bindings(bindings, &args[i]));
                i += 1;
            }
            proof {
                lemma_terms_of(new_args@);
                assert(terms_of(new_args@) =~= subst_all(bindings@, terms_of(args@)));
            }
            Expr::Fun(new_name, new_args)
        },
    }
}


// ---------------------------------------------------------------------------
// Matching.

/// Matches pattern `p` against value `v`, extending bindings `b`: a symbol
/// of the pattern matches any value, the same one at each of its
/// occurrences; a functor matches a functor of the same name and arity whose
/// arguments match in order.
pub open spec fn match_term(p: Term, v: Term, b: Map<Seq<char>, Term>) -> Option<
    Map<Seq<char>, Term>,
>
    decreases p, 0nat,
{
    match p {
        Term::Sym(n) => if b.contains_key(n) {
            if b[n] == v {
                Some(b)
            } else {
                None
            }
        } else {
            Some(b.insert(n, v))
        },
        Term::Fun(n1, a1) => match v {
            Term::Fun(n2, a2) => if n1 == n2 && a1.len() == a2.len() {
                match_args(a1, a2, b, a1.len())
            } else {
                None
            },
            Term::Sym(_) => None,
        },
    }
}

/// Matches the first `i` of patterns `ps` against values `vs` in order,
/// threading the bindings through.
pub open spec fn match_args(ps: Seq<Term>, vs: Seq<Term>, b: Map<Seq<char>, Term>, i: nat) -> Option<
    Map<Seq<char>, Term>,
>
    decreases ps, i,
{
    if i == 0 {
        Some(b)
    } else if i > ps.len() {
        None
    } else {
        match match_args(ps, vs, b, (i - 1) as nat) {
            Some(b2) => match_term(ps[i - 1], vs[i - 1], b2),
            None => None,
        }
    }
}

/// Once a prefix of the arguments fails to match, every longer one fails.
proof fn lemma_match_args_fails(ps: Seq<Term>, vs: Seq<Term>, b: Map<Seq<char>, Term>, i: nat, j: nat)
    requires
        i <= j,
        match_args(ps, vs, b, i) is None,
    ensures
        match_args(ps, vs, b, j) is None,
    decreases j,
{
    if i < j {
        lemma_match_args_fails(ps, vs, b, i, (j - 1) as nat);
    }
}

#[verifier::loop_isolation(false)]
fn pattern_match_impl(pattern: &Expr, value: &Expr, bindings: &mut Bindings) -> (r: bool)
    requires
        old(bindings).wf(),
    ensures
        final(bindings).wf(),
        r == match_term(term_of(*pattern), term_of(*value), old(bindings)@) is Some,
        r ==> final(bindings)@ == match_term(term_of(*pattern), term_of(*value), old(bindings)@)->0,
    decreases pattern,
{
    match (pattern, value) {
        (Expr::Sym(name), _) => match bindings.get(name) {
            Some(bound) => bound.same(value),
            None => {
                bindings.insert(name.clone(), value.duplicate());
                true
            },
        },
        (Expr::Fun(name1, args1), Expr::Fun(name2, args2)) => {
            proof {
                lemma_terms_of(args1@);
                lemma_terms_of(args2@);
            }
            if name1.eq(name2) && args1.len() == args2.len() {
                let ghost start = bindings@;
                let mut i: usize = 0;
                while i < args1.len()
                    invariant
                        i <= args1.len(),
                        bindings.wf(),
                        match_args(terms_of(args1@), terms_of(args2@), start, i as nat) == Some(
                            bindings@,
                        ),
                    decreases args1.len() - i,
                {
                    proof {
                        assert(decreases_to!(*pattern => *args1));
                        assert(decreases_to!(*args1 => args1[i as int]));
                    }
                    if !pattern_match_impl(&args1[i], &args2[i], bindings) {
                        proof {
                            lemma_match_args_fails(
                                terms_of(args1@),
                                terms_of(args2@),
                                start,
                                (i + 1) as nat,
                                args1.len() as nat,
                            );
                        }
                        return false;
                    }
                    i += 1;
                }
                true
            } else {
                false
            }
        },
        (Expr::Fun(_, _), Expr::Sym(_)) => false,
    }
}

/// The bindings under which `pattern` matches `value`, if it does.
pub fn pattern_match(pattern: &Expr, value: &Expr) -> (r: Option<Bindings>)
    ensures
        r is Some ==> r->0.wf(),
        r is Some == match_term(term_of(*pattern), term_of(*value), Map::empty()) is Some,
        r is Some ==> r->0@ == match_term(term_of(*pattern), term_of(*value), Map::empty())->0,
{
    let mut bindings = Bindings::new();
    if pattern_match_impl(pattern, value, &mut bindings) {
        Some(bindings)
    } else {
        None
    }
}


// ---------------------------------------------------------------------------
// Rules.

/// A rewriting rule `head = body`.
#[derive(Debug)]
pub struct Rule {
    pub head: Expr,
    pub body: Expr,
}

/// What applying a rule with the given head and body does to `t`: where the
/// head matches the body, the resulting bindings are substituted into `t`;
/// otherwise `t` is left as it is.
pub open spec fn applied(head: Term, body: Term, t: Term) -> Term {
    match match_term(head, body, Map::empty()) {
        Some(m) => subst(m, t),
        None => t,
    }
}

impl Rule {
    /// Applies the rule to `expr` and, where that leaves it alone, to each
    /// of its arguments in turn.
    #[verifier::loop_isolation(false)]
    pub fn apply_all(&self, expr: &Expr) -> (r: Expr)
        requires
            match_term(term_of(self.head), term_of(self.body), Map::empty()) is Some
                ==> functors_ok(
                match_term(term_of(self.head), term_of(self.body), Map::empty())->0,
                term_of(*expr),
            ),
        ensures
            term_of(r) == applied(term_of(self.head), term_of(self.body), term_of(*expr)),
        decreases expr,
    {
        if let Some(bindings) = pattern_match(&self.head, &self.body) {
            substitute_bindings(&bindings, expr)
        } else {
            match expr {
                Expr::Sym(_) => expr.duplicate(),
                Expr::Fun(name, args) => {
                    let mut new_args: Vec<Expr> = Vec::new();
                    let mut i: usize = 0;
                    while i < args.len()
                        invariant
                            i <= args.len(),
                            new_args.len() == i,
                            forall|j: int|
                                0 <= j < i ==> term_of(#[trigger] new_args@[j]) == term_of(args@[j]),
                        decreases args.len() - i,
                    {
                        proof {
                            assert(decreases_to!(*expr => *args));
                            assert(decreases_to!(*args => args[i as int]));
                        }
                        new_args.push(self.apply_all(&args[i]));
                        i += 1;
                    }
                    proof {
                        lemma_terms_of(args@);
                        lemma_terms_of(new_args@);
                        assert(terms_of(new_args@) =~= terms_of(args@));
                    }
                    Expr::Fun(name.clone(), new_args)
                },
            }
        }
    }

    /// The rule as text: `head = body`.
    pub fn to_text(&self) -> (r: String)
        ensures
            r@ == show(term_of(self.head)) + " = "@ + show(term_of(self.body)),
    {
        let mut r = self.head.to_text();
        r.append(" = ");
        let b = self.body.to_text();
        r.append(b.as_str());
        r
    }
}

// ---------------------------------------------------------------------------
// Text.

/// A term as text: a symbol is its name, an application is the functor's
/// name followed by its arguments in parentheses, separated by `, `.
pub open spec fn show(t: Term) -> Seq<char>
    decreases t, 0nat,
{
    match t {
        Term::Sym(n) => n,
        Term::Fun(n, args) => n + "("@ + show_args(args, args.len()) + ")"@,
    }
}

/// The first `i` of `ts` as text, separated by `, `.
pub open spec fn show_args(ts: Seq<Term>, i: nat) -> Seq<char>
    decreases ts, i,
{
    if i == 0 || i > ts.len() {
        Seq::empty()
    } else if i == 1 {
        show(ts[0])
    } else {
        show_args(ts, (i - 1) as nat) + ", "@ + show(ts[i - 1])
    }
}

impl Expr {
    /// The term as text.
    #[verifier::loop_isolation(false)]
    pub fn to_text(&self) -> (r: String)
        ensures
            r@ == show(term_of(*self)),
        decreases self,
    {
        match self {
            Expr::Sym(name) => name.clone(),
            Expr::Fun(name, args) => {
                proof {
                    lemma_terms_of(args@);
                }
                let ghost ts = terms_of(args@);
                let mut r = name.clone();
                r.append("(");
                let mut i: usize = 0;
                while i < args.len()
                    invariant
                        i <= args.len(),
                        r@ == name@ + "("@ + show_args(ts, i as nat),
                    decreases args.len() - i,
                {
                    proof {
                        assert(decreases_to!(*self => *args));
                        assert(decreases_to!(*args => args[i as int]));
                    }
                    if i > 0 {
                        r.append(", ");
                    }
                    let a = args[i].to_text();
                    r.append(a.as_str());
                    proof {
                        assert(ts[i as int] == term_of(args@[i as int]));
                        assert(r@ =~= name@ + "("@ + show_args(ts, (i + 1) as nat));
                    }
                    i += 1;
                }
                r.append(")");
                r
            },
        }
    }
}

} // verus!
