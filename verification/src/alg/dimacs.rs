//! The DIMACS CNF reader: a line-oriented grammar with a strict error
//! taxonomy, stated as spec functions and implemented by `Formula`'s
//! parsing constructor.

use vstd::prelude::*;
use vstd::set_lib::{lemma_int_range, lemma_map_size, lemma_subset_equality, set_int_range};
use crate::alg::objectives::{
    clause_vars, formula_vars, Clause, Formula, FormulaParsingError, Literal,
};
use crate::alg::text::{
    first_nonspace, first_nonspace_byte, parse_i64, parse_u64, spec_lines, spec_parse_i64,
    spec_parse_u64, spec_tokens, split_lines, tokenize,
};

verus! {

/// The literal a nonzero signed token denotes: positive values reference the
/// variable, negative values its negation.
pub open spec fn spec_lit_of(v: i64) -> Literal {
    if v > 0 {
        Literal::Var(v as u64)
    } else {
        Literal::NegatedVar((-(v as int)) as u64)
    }
}

/// The literals a clause line's tokens denote: each token a signed integer,
/// a zero ending the clause early, a malformed token rejecting the line.
pub open spec fn spec_clause_lits(toks: Seq<Seq<u8>>) -> Result<
    Seq<Literal>,
    FormulaParsingError,
>
    decreases toks.len(),
{
    if toks.len() == 0 {
        Ok(Seq::empty())
    } else {
        match spec_parse_i64(toks[0]) {
            None => Err(FormulaParsingError::Parsing),
            Some(v) => if v == 0 {
                Ok(Seq::empty())
            } else {
                match spec_clause_lits(toks.drop_first()) {
                    Ok(rest) => Ok(seq![spec_lit_of(v)] + rest),
                    Err(e) => Err(e),
                }
            },
        }
    }
}

/// What the header line declares: its tokens must open with `p cnf`,
/// followed by the two counts.
pub open spec fn spec_header(line: Seq<u8>) -> Result<(u64, u64), FormulaParsingError> {
    let toks = spec_tokens(line);
    if toks.len() < 4 || toks[0] != seq![112u8] || toks[1] != seq![99u8, 110u8, 102u8] {
        Err(FormulaParsingError::InvalidHeader)
    } else {
        match spec_parse_u64(toks[2]) {
            None => Err(FormulaParsingError::Parsing),
            Some(nv) => match spec_parse_u64(toks[3]) {
                None => Err(FormulaParsingError::Parsing),
                Some(nc) => Ok((nv, nc)),
            },
        }
    }
}

/// The clauses the body lines denote: a `%` line stops reading, blank and
/// `c` lines are skipped, every other line must yield a nonempty clause.
pub open spec fn spec_body(lines: Seq<Seq<u8>>) -> Result<
    Seq<Seq<Literal>>,
    FormulaParsingError,
>
    decreases lines.len(),
{
    if lines.len() == 0 {
        Ok(Seq::empty())
    } else {
        match first_nonspace(lines[0]) {
            None => spec_body(lines.drop_first()),
            Some(b) => if b == 37 {
                Ok(Seq::empty())
            } else if b == 99 {
                spec_body(lines.drop_first())
            } else {
                match spec_clause_lits(spec_tokens(lines[0])) {
                    Err(e) => Err(e),
                    Ok(c) => if c.len() == 0 {
                        Err(FormulaParsingError::EmptyClause)
                    } else {
                        match spec_body(lines.drop_first()) {
                            Ok(rest) => Ok(seq![c] + rest),
                            Err(e) => Err(e),
                        }
                    },
                }
            },
        }
    }
}

/// The outcome the whole text denotes: header, body, then the three
/// consistency checks between the declared counts and the clauses.
pub open spec fn spec_parse_dimacs(t: Seq<u8>) -> Result<
    (u64, u64, Seq<Seq<Literal>>),
    FormulaParsingError,
> {
    let lines = spec_lines(t);
    if lines.len() == 0 {
        Err(FormulaParsingError::NoHeader)
    } else {
        match spec_header(lines[0]) {
            Err(e) => Err(e),
            Ok((nv, nc)) => match spec_body(lines.drop_first()) {
                Err(e) => Err(e),
                Ok(cls) => if cls.len() != nc {
                    Err(FormulaParsingError::InconsistentNumOfClauses)
                } else if formula_vars(cls).len() != nv {
                    Err(FormulaParsingError::InconsistentNumOfVars)
                } else if !(forall|v: u64| formula_vars(cls).contains(v) ==> v <= nv) || !(nv
                    == 0 || formula_vars(cls).contains(nv)) {
                    Err(FormulaParsingError::VarOutOfBounds)
                } else {
                    Ok((nv, nc, cls))
                },
            },
        }
    }
}

/// Every literal of the clause names a variable (its index is not zero).
pub open spec fn clause_positive(c: Seq<Literal>) -> bool {
    forall|j: int| 0 <= j < c.len() ==> (#[trigger] c[j]).spec_var() >= 1
}

/// Appending a literal to a clause adds exactly its variable.
proof fn lemma_clause_vars_push(c: Seq<Literal>, l: Literal)
    ensures
        clause_vars(c.push(l)) =~= clause_vars(c).insert(l.spec_var()),
{
    assert forall|v: u64| clause_vars(c.push(l)).contains(v) implies clause_vars(c).insert(
        l.spec_var(),
    ).contains(v) by {
        let i = choose|i: int| 0 <= i < c.push(l).len() && (#[trigger] c.push(l)[i]).spec_var()
            == v;
        if i < c.len() {
            assert(c[i].spec_var() == v);
        }
    }
    assert forall|v: u64| clause_vars(c).insert(l.spec_var()).contains(v) implies clause_vars(
        c.push(l),
    ).contains(v) by {
        if clause_vars(c).contains(v) {
            let i = choose|i: int| 0 <= i < c.len() && (#[trigger] c[i]).spec_var() == v;
            assert(c.push(l)[i].spec_var() == v);
        } else {
            assert(c.push(l)[c.len() as int].spec_var() == v);
        }
    }
}

/// Appending a clause to a formula adds exactly its variables.
proof fn lemma_formula_vars_push(cs: Seq<Seq<Literal>>, c: Seq<Literal>)
    ensures
        formula_vars(cs.push(c)) =~= formula_vars(cs).union(clause_vars(c)),
{
    assert forall|v: u64| formula_vars(cs.push(c)).contains(v) implies formula_vars(cs).union(
        clause_vars(c),
    ).contains(v) by {
        let i = choose|i: int|
            0 <= i < cs.push(c).len() && clause_vars(#[trigger] cs.push(c)[i]).contains(v);
        if i < cs.len() {
            assert(clause_vars(cs[i]).contains(v));
        }
    }
    assert forall|v: u64| formula_vars(cs).union(clause_vars(c)).contains(v) implies formula_vars(
        cs.push(c),
    ).contains(v) by {
        if formula_vars(cs).contains(v) {
            let i = choose|i: int| 0 <= i < cs.len() && clause_vars(#[trigger] cs[i]).contains(v);
            assert(clause_vars(cs.push(c)[i]).contains(v));
        } else {
            assert(clause_vars(cs.push(c)[cs.len() as int]).contains(v));
        }
    }
}

/// A finite set of `nv` variable indices drawn from `1..=nv` is the whole
/// dense range.
proof fn lemma_dense_vars(vars: Set<u64>, nv: u64)
    requires
        vars.finite(),
        vars.len() == nv,
        forall|v: u64| vars.contains(v) ==> 1 <= v && v <= nv,
    ensures
        vars =~= Set::new(|v: u64| 1 <= v <= nv),
{
    let target = Set::new(|v: u64| 1 <= v <= nv);
    let range = set_int_range(1, nv as int + 1);
    let f = |i: int| i as u64;
    lemma_int_range(1, nv as int + 1);
    assert forall|v: u64| target.contains(v) implies range.map(f).contains(v) by {
        assert(range.contains(v as int) && f(v as int) == v);
    }
    assert(range.map(f) =~= target);
    lemma_map_size(range, target, f);
    assert(vars.subset_of(target));
    lemma_subset_equality(vars, target);
}

/// Turns a nonzero signed token value into its literal.
fn lit_of(v: i64) -> (r: Literal)
    requires
        v != 0,
    ensures
        r == spec_lit_of(v),
        r.spec_var() >= 1,
{
    if v > 0 {
        Literal::Var(v as u64)
    } else {
        let magnitude: u64 = (-(v as i128)) as u64;
        Literal::NegatedVar(magnitude)
    }
}

fn contains_u64(vars: &Vec<u64>, x: u64) -> (r: bool)
    ensures
        r == vars@.contains(x),
{
    let n = vars.len();
    let mut i: usize = 0;
    while i < n
        invariant
            n == vars@.len(),
            0 <= i <= n,
            forall|j: int| 0 <= j < i ==> vars@[j] != x,
        decreases n - i,
    {
        if vars[i] == x {
            return true;
        }
        i = i + 1;
    }
    false
}

/// Reads one clause line: its tokens as signed integers until a zero.
fn parse_clause_line(line: &[u8]) -> (r: Result<Vec<Literal>, FormulaParsingError>)
    ensures
        match r {
            Ok(lits) => spec_clause_lits(spec_tokens(line@)) == Ok::<_, FormulaParsingError>(
                lits@,
            ) && clause_positive(lits@),
            Err(e) => spec_clause_lits(spec_tokens(line@)) == Err::<Seq<Literal>, _>(e),
        },
{
    let toks = tokenize(line);
    let ghost tv = toks@.map_values(|t: Vec<u8>| t@);
    let n = toks.len();
    let mut lits: Vec<Literal> = Vec::new();
    let mut i: usize = 0;
    proof {
        assert(tv.skip(0) =~= tv);
    }
    while i < n
        invariant
            tv == toks@.map_values(|t: Vec<u8>| t@),
            tv == spec_tokens(line@),
            n == toks@.len(),
            0 <= i <= n,
            clause_positive(lits@),
            ({
                match spec_clause_lits(tv.skip(i as int)) {
                    Ok(rest) => spec_clause_lits(tv) == Ok::<_, FormulaParsingError>(
                        lits@ + rest,
                    ),
                    Err(e) => spec_clause_lits(tv) == Err::<Seq<Literal>, _>(e),
                }
            }),
        decreases n - i,
    {
        proof {
            assert(tv.skip(i as int)[0] == tv[i as int]);
            assert(tv[i as int] == toks@[i as int]@);
            assert(tv.skip(i as int).drop_first() =~= tv.skip(i + 1));
        }
        let value = parse_i64(toks[i].as_slice());
        match value {
            None => {
                proof {
                    assert(spec_clause_lits(tv.skip(i as int)) == Err::<Seq<Literal>, _>(
                        FormulaParsingError::Parsing,
                    ));
                }
                return Err(FormulaParsingError::Parsing);
            },
            Some(v) => {
                if v == 0 {
                    proof {
                        assert(spec_clause_lits(tv.skip(i as int)) == Ok::<
                            _,
                            FormulaParsingError,
                        >(Seq::<Literal>::empty()));
                        assert(lits@ + Seq::<Literal>::empty() =~= lits@);
                    }
                    return Ok(lits);
                }
                let lit = lit_of(v);
                proof {
                    let next = spec_clause_lits(tv.skip(i + 1));
                    match next {
                        Ok(rest) => {
                            assert(spec_clause_lits(tv.skip(i as int)) == Ok::<
                                _,
                                FormulaParsingError,
                            >(seq![spec_lit_of(v)] + rest));
                            assert(lits@ + (seq![spec_lit_of(v)] + rest) =~= lits@.push(lit)
                                + rest);
                        },
                        Err(e) => {
                            assert(spec_clause_lits(tv.skip(i as int)) == Err::<
                                Seq<Literal>,
                                _,
                            >(e));
                        },
                    }
                }
                lits.push(lit);
            },
        }
        i = i + 1;
    }
    proof {
        assert(tv.skip(n as int) =~= Seq::<Seq<u8>>::empty());
        assert(lits@ + Seq::<Literal>::empty() =~= lits@);
    }
    Ok(lits)
}

/// Reads the header line's declared counts.
fn parse_header(line: &[u8]) -> (r: Result<(u64, u64), FormulaParsingError>)
    ensures
        r == spec_header(line@),
{
    let toks = tokenize(line);
    let ghost tv = toks@.map_values(|t: Vec<u8>| t@);
    if toks.len() < 4 {
        return Err(FormulaParsingError::InvalidHeader);
    }
    let p_ok = toks[0].len() == 1 && toks[0][0] == 112;
    let cnf_ok = toks[1].len() == 3 && toks[1][0] == 99 && toks[1][1] == 110 && toks[1][2]
        == 102;
    proof {
        if p_ok {
            assert(tv[0] =~= seq![112u8]);
        } else {
            assert(tv[0] != seq![112u8]) by {
                if tv[0] == seq![112u8] {
                    assert(toks@[0]@.len() == 1 && toks@[0]@[0] == 112);
                }
            }
        }
        if cnf_ok {
            assert(tv[1] =~= seq![99u8, 110u8, 102u8]);
        } else {
            assert(tv[1] != seq![99u8, 110u8, 102u8]) by {
                if tv[1] == seq![99u8, 110u8, 102u8] {
                    assert(toks@[1]@.len() == 3 && toks@[1]@[0] == 99 && toks@[1]@[1] == 110
                        && toks@[1]@[2] == 102);
                }
            }
        }
    }
    if !p_ok || !cnf_ok {
        return Err(FormulaParsingError::InvalidHeader);
    }
    let nv = match parse_u64(toks[2].as_slice()) {
        Some(nv) => nv,
        None => {
            return Err(FormulaParsingError::Parsing);
        },
    };
    let nc = match parse_u64(toks[3].as_slice()) {
        Some(nc) => nc,
        None => {
            return Err(FormulaParsingError::Parsing);
        },
    };
    Ok((nv, nc))
}

impl Formula {
    /// Reads a DIMACS CNF text into a validated formula, or says exactly why
    /// the text is rejected.
    pub fn parse_from_dimacs_cnf(text: &[u8]) -> (r: Result<Formula, FormulaParsingError>)
        ensures
            match r {
                Ok(f) => spec_parse_dimacs(text@) == Ok::<_, FormulaParsingError>(
                    (f.spec_num_vars(), f.spec_num_clauses(), f.spec_clauses()),
                ) && f.wf(),
                Err(e) => spec_parse_dimacs(text@) == Err::<(u64, u64, Seq<Seq<Literal>>), _>(e),
            },
    {
        let lines = split_lines(text);
        let ghost linesv = lines@.map_values(|l: Vec<u8>| l@);
        proof {
            assert(linesv == spec_lines(text@));
        }
        let n = lines.len();
        if n == 0 {
            return Err(FormulaParsingError::NoHeader);
        }
        proof {
            assert(linesv[0] == lines@[0]@);
        }
        let (num_vars, num_clauses) = match parse_header(lines[0].as_slice()) {
            Ok(counts) => counts,
            Err(e) => {
                proof {
                    assert(spec_parse_dimacs(text@) == Err::<(u64, u64, Seq<Seq<Literal>>), _>(
                        e,
                    ));
                }
                return Err(e);
            },
        };
        proof {
            assert(spec_header(linesv[0]) == Ok::<(u64, u64), FormulaParsingError>(
                (num_vars, num_clauses),
            ));
        }
        let ghost body = linesv.drop_first();
        let mut clauses: Vec<Clause> = Vec::new();
        let mut vars: Vec<u64> = Vec::new();
        let mut done = false;
        let mut li: usize = 1;
        proof {
            assert(linesv.skip(1) =~= body);
            assert(Seq::<Seq<Literal>>::empty() + spec_body(body)->Ok_0 =~= spec_body(
                body,
            )->Ok_0);
        }
        while li < n && !done
            invariant
                linesv == lines@.map_values(|l: Vec<u8>| l@),
                linesv == spec_lines(text@),
                spec_header(linesv[0]) == Ok::<(u64, u64), FormulaParsingError>(
                    (num_vars, num_clauses),
                ),
                n == lines@.len(),
                body == linesv.drop_first(),
                1 <= li <= n,
                vars@.no_duplicates(),
                vars@.to_set() == formula_vars(clauses@.map_values(|c: Clause| c@)),
                forall|i: int| 0 <= i < clauses@.len() ==> (#[trigger] clauses@[i])@.len() > 0,
                forall|i: int|
                    0 <= i < clauses@.len() ==> clause_positive((#[trigger] clauses@[i])@),
                done ==> spec_body(body) == Ok::<_, FormulaParsingError>(
                    clauses@.map_values(|c: Clause| c@),
                ),
                !done ==> ({
                    match spec_body(linesv.skip(li as int)) {
                        Ok(rest) => spec_body(body) == Ok::<_, FormulaParsingError>(
                            clauses@.map_values(|c: Clause| c@) + rest,
                        ),
                        Err(e) => spec_body(body) == Err::<Seq<Seq<Literal>>, _>(e),
                    }
                }),
            decreases n - li + (if done {
                0int
            } else {
                1int
            }),
        {
            let ghost cls = clauses@.map_values(|c: Clause| c@);
            proof {
                assert(linesv.skip(li as int)[0] == linesv[li as int]);
                assert(linesv.skip(li as int).drop_first() =~= linesv.skip(li + 1));
            }
            let line = lines[li].as_slice();
            proof {
                assert(line@ == linesv[li as int]);
            }
            let head = first_nonspace_byte(line);
            match head {
                Some(37) => {
                    proof {
                        assert(spec_body(linesv.skip(li as int)) == Ok::<
                            _,
                            FormulaParsingError,
                        >(Seq::<Seq<Literal>>::empty()));
                        assert(cls + Seq::<Seq<Literal>>::empty() =~= cls);
                    }
                    done = true;
                },
                None | Some(99) => {
                    proof {
                        assert(spec_body(linesv.skip(li as int)) == spec_body(
                            linesv.skip(li + 1),
                        ));
                    }
                    li = li + 1;
                },
                Some(_) => {
                    let lits = match parse_clause_line(line) {
                        Ok(lits) => lits,
                        Err(e) => {
                            proof {
                                assert(spec_body(linesv.skip(li as int)) == Err::<
                                    Seq<Seq<Literal>>,
                                    _,
                                >(e));
                                assert(spec_body(body) == Err::<Seq<Seq<Literal>>, _>(e));
                                assert(spec_parse_dimacs(text@) == Err::<
                                    (u64, u64, Seq<Seq<Literal>>),
                                    _,
                                >(e));
                            }
                            return Err(e);
                        },
                    };
                    if lits.len() == 0 {
                        proof {
                            assert(spec_body(linesv.skip(li as int)) == Err::<
                                Seq<Seq<Literal>>,
                                _,
                            >(FormulaParsingError::EmptyClause));
                            assert(spec_parse_dimacs(text@) == Err::<
                                (u64, u64, Seq<Seq<Literal>>),
                                _,
                            >(FormulaParsingError::EmptyClause));
                        }
                        return Err(FormulaParsingError::EmptyClause);
                    }
                    // register the clause's variables among the distinct ones seen
                    let m = lits.len();
                    let mut k: usize = 0;
                    proof {
                        assert(clause_vars(lits@.take(0)) =~= Set::<u64>::empty());
                        assert(formula_vars(cls).union(clause_vars(lits@.take(0)))
                            =~= formula_vars(cls));
                    }
                    while k < m
                        invariant
                            m == lits@.len(),
                            0 <= k <= m,
                            clause_positive(lits@),
                            vars@.no_duplicates(),
                            vars@.to_set() == formula_vars(cls).union(
                                clause_vars(lits@.take(k as int)),
                            ),
                        decreases m - k,
                    {
                        let lit = lits[k];
                        let x: u64 = match lit {
                            Literal::Var(id) => id,
                            Literal::NegatedVar(id) => id,
                        };
                        proof {
                            assert(lits@.take(k + 1) =~= lits@.take(k as int).push(
                                lits@[k as int],
                            ));
                            lemma_clause_vars_push(lits@.take(k as int), lits@[k as int]);
                            assert(x == lits@[k as int].spec_var());
                        }
                        if contains_u64(&vars, x) {
                            proof {
                                assert(vars@.to_set().contains(x));
                                assert(formula_vars(cls).union(clause_vars(lits@.take(k + 1)))
                                    =~= vars@.to_set());
                            }
                        } else {
                            proof {
                                let old_vars = vars@;
                                assert forall|a: int, b: int|
                                    0 <= a < b < old_vars.push(x).len() implies old_vars.push(x)[a]
                                    != old_vars.push(x)[b] by {
                                    if b < old_vars.len() {
                                    } else {
                                        assert(old_vars.push(x)[b] == x);
                                        if old_vars.push(x)[a] == x {
                                            assert(old_vars.contains(x));
                                        }
                                    }
                                }
                                old_vars.lemma_push_to_set_commute(x);
                                assert(formula_vars(cls).union(clause_vars(lits@.take(k + 1)))
                                    =~= old_vars.to_set().insert(x));
                            }
                            vars.push(x);
                        }
                        k = k + 1;
                    }
                    proof {
                        assert(lits@.take(m as int) =~= lits@);
                    }
                    let ghost litsv = lits@;
                    clauses.push(Clause::new(lits));
                    proof {
                        assert(clauses@.map_values(|c: Clause| c@) =~= cls.push(litsv));
                        lemma_formula_vars_push(cls, litsv);
                        assert(vars@.to_set() =~= formula_vars(cls.push(litsv)));
                        let next = spec_body(linesv.skip(li + 1));
                        match next {
                            Ok(rest) => {
                                assert(spec_body(linesv.skip(li as int)) == Ok::<
                                    _,
                                    FormulaParsingError,
                                >(seq![litsv] + rest));
                                assert(cls + (seq![litsv] + rest) =~= cls.push(litsv) + rest);
                            },
                            Err(e) => {
                                assert(spec_body(linesv.skip(li as int)) == Err::<
                                    Seq<Seq<Literal>>,
                                    _,
                                >(e));
                            },
                        }
                    }
                    li = li + 1;
                },
            }
        }
        let ghost cls = clauses@.map_values(|c: Clause| c@);
        proof {
            if !done {
                assert(linesv.skip(n as int) =~= Seq::<Seq<u8>>::empty());
                assert(spec_body(linesv.skip(n as int)) == Ok::<_, FormulaParsingError>(
                    Seq::<Seq<Literal>>::empty(),
                ));
                assert(cls + Seq::<Seq<Literal>>::empty() =~= cls);
            }
            assert(spec_body(body) == Ok::<_, FormulaParsingError>(cls));
            assert(cls.len() == clauses@.len());
        }
        if clauses.len() as u64 != num_clauses {
            proof {
                assert(spec_parse_dimacs(text@) == Err::<(u64, u64, Seq<Seq<Literal>>), _>(
                    FormulaParsingError::InconsistentNumOfClauses,
                ));
            }
            return Err(FormulaParsingError::InconsistentNumOfClauses);
        }
        proof {
            vars@.unique_seq_to_set();
            broadcast use vstd::seq_lib::seq_to_set_is_finite;

            assert(vars@.to_set().finite());
            assert(formula_vars(cls).len() == vars@.len());
        }
        if vars.len() as u64 != num_vars {
            proof {
                assert(spec_parse_dimacs(text@) == Err::<(u64, u64, Seq<Seq<Literal>>), _>(
                    FormulaParsingError::InconsistentNumOfVars,
                ));
            }
            return Err(FormulaParsingError::InconsistentNumOfVars);
        }
        let vn = vars.len();
        let mut all_le = true;
        let mut has_max = false;
        let mut vi: usize = 0;
        while vi < vn
            invariant
                vn == vars@.len(),
                0 <= vi <= vn,
                all_le == forall|j: int| 0 <= j < vi ==> #[trigger] vars@[j] <= num_vars,
                has_max == exists|j: int| 0 <= j < vi && #[trigger] vars@[j] == num_vars,
            decreases vn - vi,
        {
            let v = vars[vi];
            if v > num_vars {
                all_le = false;
            }
            if v == num_vars {
                has_max = true;
            }
            vi = vi + 1;
        }
        proof {
            if all_le {
                assert forall|v: u64| formula_vars(cls).contains(v) implies v <= num_vars by {
                    assert(vars@.contains(v));
                }
            } else {
                let j = choose|j: int| 0 <= j < vn && !(#[trigger] vars@[j] <= num_vars);
                assert(vars@.contains(vars@[j]));
                assert(formula_vars(cls).contains(vars@[j]));
            }
            if has_max {
                assert(vars@.contains(num_vars));
                assert(formula_vars(cls).contains(num_vars));
            } else {
                if formula_vars(cls).contains(num_vars) {
                    assert(vars@.contains(num_vars));
                    let j = choose|j: int| 0 <= j < vn && vars@[j] == num_vars;
                    assert(false);
                }
            }
        }
        if !all_le || !(num_vars == 0 || has_max) {
            proof {
                assert(spec_parse_dimacs(text@) == Err::<(u64, u64, Seq<Seq<Literal>>), _>(
                    FormulaParsingError::VarOutOfBounds,
                ));
            }
            return Err(FormulaParsingError::VarOutOfBounds);
        }
        proof {
            if num_vars == 0 {
                assert(formula_vars(cls).len() == 0);
                vstd::set_lib::lemma_set_empty_equivalency_len(formula_vars(cls));
                assert(formula_vars(cls) == Set::<u64>::empty());
                assert(formula_vars(cls) =~= Set::new(|v: u64| 1 <= v <= num_vars));
            } else {
                assert forall|v: u64| formula_vars(cls).contains(v) implies 1 <= v && v
                    <= num_vars by {
                    let i = choose|i: int|
                        0 <= i < cls.len() && clause_vars(#[trigger] cls[i]).contains(v);
                    let j = choose|j: int|
                        0 <= j < cls[i].len() && (#[trigger] cls[i][j]).spec_var() == v;
                    assert(cls[i][j].spec_var() >= 1);
                }
                lemma_dense_vars(formula_vars(cls), num_vars);
            }
            assert forall|i: int|
                0 <= i < cls.len() implies crate::alg::objectives::clause_in_range(
                #[trigger] cls[i],
                num_vars as nat,
            ) by {
                assert forall|j: int| 0 <= j < cls[i].len() implies (#[trigger] cls[i][j]).in_range(
                    num_vars as nat,
                ) by {
                    assert(clause_vars(cls[i]).contains(cls[i][j].spec_var()));
                    assert(formula_vars(cls).contains(cls[i][j].spec_var()));
                }
            }
        }
        proof {
            assert(crate::alg::objectives::formula_wf(num_vars, num_clauses, cls));
            assert(spec_parse_dimacs(text@) == Ok::<_, FormulaParsingError>(
                (num_vars, num_clauses, cls),
            ));
        }
        let formula = Formula::assemble(num_vars, num_clauses, clauses);
        Ok(formula)
    }
}

/// Parsing a syntactically valid text round-trips: the counts stored in the
/// outcome are exactly the counts the header declared, the clause count
/// matches, and the distinct-variable count matches.
pub proof fn lemma_parse_round_trip(t: Seq<u8>, nv: u64, nc: u64, cls: Seq<Seq<Literal>>)
    requires
        spec_parse_dimacs(t) == Ok::<_, FormulaParsingError>((nv, nc, cls)),
    ensures
        spec_lines(t).len() > 0,
        spec_header(spec_lines(t)[0]) == Ok::<(u64, u64), FormulaParsingError>((nv, nc)),
        cls.len() == nc,
        formula_vars(cls).len() == nv,
{
    let lines = spec_lines(t);
    match spec_header(lines[0]) {
        Err(_) => {
            assert(false);
        },
        Ok((hv, hc)) => {
            match spec_body(lines.drop_first()) {
                Err(_) => {
                    assert(false);
                },
                Ok(cs) => {},
            }
        },
    }
}

} // verus!
