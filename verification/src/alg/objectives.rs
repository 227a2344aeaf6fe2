//! CNF formulas over numbered boolean variables, their evaluation under a
//! boolean valuation, and the satisfiability objective for binary-encoded
//! populations.

use vstd::prelude::*;
use crate::alg::Objective;
use crate::population::{BinaryEncoding, Population};

verus! {

/// A reference to a 1-indexed boolean variable, either positive or negated.
#[derive(Debug, Clone, Copy, PartialEq, Eq, Hash, Structural)]
pub enum Literal {
    Var(u64),
    NegatedVar(u64),
}

impl Literal {
    /// The variable this literal refers to (1-indexed).
    pub open spec fn spec_var(self) -> u64 {
        match self {
            Literal::Var(id) => id,
            Literal::NegatedVar(id) => id,
        }
    }

    /// Whether the literal's variable has a slot in a valuation of length `n`.
    pub open spec fn in_range(self, n: nat) -> bool {
        1 <= self.spec_var() <= n
    }

    /// Whether the literal is satisfied under `val` (meaningful when in range).
    pub open spec fn sat(self, val: Seq<bool>) -> bool {
        match self {
            Literal::Var(id) => val[id - 1],
            Literal::NegatedVar(id) => !val[id - 1],
        }
    }
}

/// Every literal of the clause refers to a variable of a valuation of length `n`.
pub open spec fn clause_in_range(c: Seq<Literal>, n: nat) -> bool {
    forall|i: int| 0 <= i < c.len() ==> (#[trigger] c[i]).in_range(n)
}

/// The clause is a disjunction: it holds when some in-range literal is satisfied.
pub open spec fn clause_sat(c: Seq<Literal>, val: Seq<bool>) -> bool {
    exists|i: int| 0 <= i < c.len() && (#[trigger] c[i]).in_range(val.len()) && c[i].sat(val)
}

/// The set of variables referenced by a clause.
pub open spec fn clause_vars(c: Seq<Literal>) -> Set<u64> {
    Set::new(|v: u64| exists|i: int| 0 <= i < c.len() && (#[trigger] c[i]).spec_var() == v)
}

/// Every clause of the formula only references variables of a valuation of length `n`.
pub open spec fn formula_in_range(cs: Seq<Seq<Literal>>, n: nat) -> bool {
    forall|i: int| 0 <= i < cs.len() ==> clause_in_range(#[trigger] cs[i], n)
}

/// The set of variables referenced across all clauses of a formula.
pub open spec fn formula_vars(cs: Seq<Seq<Literal>>) -> Set<u64> {
    Set::new(|v: u64| exists|i: int| 0 <= i < cs.len() && clause_vars(#[trigger] cs[i]).contains(v))
}

/// How many clauses evaluate to true under `val`.
pub open spec fn count_sat(cs: Seq<Seq<Literal>>, val: Seq<bool>) -> nat
    decreases cs.len(),
{
    if cs.len() == 0 {
        0nat
    } else {
        count_sat(cs.drop_last(), val) + (if clause_sat(cs.last(), val) {
            1nat
        } else {
            0nat
        })
    }
}

/// The number of satisfied clauses never exceeds the number of clauses.
pub proof fn lemma_count_sat_le(cs: Seq<Seq<Literal>>, val: Seq<bool>)
    ensures
        count_sat(cs, val) <= cs.len(),
    decreases cs.len(),
{
    if cs.len() > 0 {
        lemma_count_sat_le(cs.drop_last(), val);
    }
}

/// An ordered sequence of literals, interpreted as their disjunction.
/// Equality between clauses is set equality of the literals.
#[derive(Debug, Clone)]
pub struct Clause(Vec<Literal>);

impl View for Clause {
    type V = Seq<Literal>;

    closed spec fn view(&self) -> Seq<Literal> {
        self.0@
    }
}

impl Clause {
    pub fn new(literals: Vec<Literal>) -> (c: Clause)
        ensures
            c@ == literals@,
    {
        Clause(literals)
    }

    pub fn literals(&self) -> (r: &[Literal])
        ensures
            r@ == self@,
    {
        self.0.as_slice()
    }

    /// Evaluates the clause under the valuation: `None` if some literal
    /// references a variable outside the valuation, else whether some
    /// literal is satisfied.
    pub fn evaluate(&self, valoration: &[bool]) -> (r: Option<bool>)
        ensures
            clause_in_range(self@, valoration@.len()) ==> r == Some(
                clause_sat(self@, valoration@),
            ),
            !clause_in_range(self@, valoration@.len()) ==> r is None,
    {
        let n = self.0.len();
        let mut sat: bool = false;
        let mut i: usize = 0;
        while i < n
            invariant
                n == self@.len(),
                0 <= i <= n,
                forall|j: int| 0 <= j < i ==> (#[trigger] self@[j]).in_range(valoration@.len()),
                sat == exists|j: int|
                    0 <= j < i && (#[trigger] self@[j]).in_range(valoration@.len())
                        && self@[j].sat(valoration@),
            decreases n - i,
        {
            let lit = self.0[i];
            let id: u64 = match lit {
                Literal::Var(id) => id,
                Literal::NegatedVar(id) => id,
            };
            if id == 0 || id > valoration.len() as u64 {
                return None;
            }
            let value = valoration[(id - 1) as usize];
            let lit_sat = match lit {
                Literal::Var(_) => value,
                Literal::NegatedVar(_) => !value,
            };
            proof {
                assert(self@[i as int].in_range(valoration@.len()));
                assert(lit_sat == self@[i as int].sat(valoration@));
            }
            sat = sat || lit_sat;
            i = i + 1;
        }
        Some(sat)
    }

    fn contains_literal(&self, lit: Literal) -> (r: bool)
        ensures
            r == self@.contains(lit),
    {
        let n = self.0.len();
        let mut i: usize = 0;
        while i < n
            invariant
                n == self@.len(),
                0 <= i <= n,
                forall|j: int| 0 <= j < i ==> self@[j] != lit,
            decreases n - i,
        {
            if self.0[i] == lit {
                return true;
            }
            i = i + 1;
        }
        false
    }

    fn is_subset_of(&self, other: &Clause) -> (r: bool)
        ensures
            r == self@.to_set().subset_of(other@.to_set()),
    {
        let n = self.0.len();
        let mut i: usize = 0;
        while i < n
            invariant
                n == self@.len(),
                0 <= i <= n,
                forall|j: int| 0 <= j < i ==> other@.contains(#[trigger] self@[j]),
            decreases n - i,
        {
            if !other.contains_literal(self.0[i]) {
                proof {
                    assert(self@.to_set().contains(self@[i as int]));
                }
                return false;
            }
            i = i + 1;
        }
        true
    }
}

impl PartialEq for Clause {
    /// Two clauses are equal when they reference the same set of literals;
    /// order and duplicates are not significant.
    fn eq(&self, other: &Clause) -> (r: bool) {
        let forward = self.is_subset_of(other);
        let backward = other.is_subset_of(self);
        proof {
            if self@.to_set().subset_of(other@.to_set()) && other@.to_set().subset_of(
                self@.to_set(),
            ) {
                assert(self@.to_set() =~= other@.to_set());
            }
        }
        forward && backward
    }
}

impl vstd::std_specs::cmp::PartialEqSpecImpl for Clause {
    open spec fn obeys_eq_spec() -> bool {
        true
    }

    open spec fn eq_spec(&self, other: &Clause) -> bool {
        self@.to_set() == other@.to_set()
    }
}

/// The reason a DIMACS CNF text was rejected.
#[derive(Debug, Clone, Copy, PartialEq, Eq, Structural)]
pub enum FormulaParsingError {
    /// The underlying stream could not be read (only raised by I/O front ends).
    IO,
    /// A token that should be an integer was not one, or did not fit.
    Parsing,
    /// The input had no lines at all.
    NoHeader,
    /// The first line did not have the shape `p cnf <num_vars> <num_clauses>`.
    InvalidHeader,
    /// A clause line held no literal before its terminating zero.
    EmptyClause,
    /// The count of distinct variables differs from the declared `num_vars`.
    InconsistentNumOfVars,
    /// The count of clauses differs from the declared `num_clauses`.
    InconsistentNumOfClauses,
    /// The referenced variables are not exactly the dense range `1..=num_vars`.
    VarOutOfBounds,
}

/// The result of scoring one valuation against one formula.
#[derive(Debug, PartialEq, Eq, Structural)]
pub struct FormulaEvaluation {
    pub solved: bool,
    pub num_true: usize,
    pub num_false: usize,
}

/// The structural invariants a validated formula enjoys: the clause count
/// matches the declared one, no clause is empty, every literal is in range,
/// and the referenced variables are exactly the dense range `1..=num_vars`.
pub open spec fn formula_wf(num_vars: u64, num_clauses: u64, cls: Seq<Seq<Literal>>) -> bool {
    &&& cls.len() == num_clauses
    &&& forall|i: int| 0 <= i < cls.len() ==> (#[trigger] cls[i]).len() > 0
    &&& formula_in_range(cls, num_vars as nat)
    &&& formula_vars(cls) == Set::new(|v: u64| 1 <= v <= num_vars)
}

/// A validated CNF formula: the declared counts together with the clauses.
///
/// Invariants, established at parse time and never violated afterwards:
/// the clause count matches `num_clauses`, no clause is empty, and the
/// referenced variables are exactly the dense range `1..=num_vars`.
#[derive(Debug)]
pub struct Formula {
    num_vars: u64,
    num_clauses: u64,
    clauses: Vec<Clause>,
}

impl Formula {
    pub closed spec fn spec_num_vars(self) -> u64 {
        self.num_vars
    }

    pub closed spec fn spec_num_clauses(self) -> u64 {
        self.num_clauses
    }

    /// The clauses of the formula, as sequences of literals.
    pub closed spec fn spec_clauses(self) -> Seq<Seq<Literal>> {
        self.clauses@.map_values(|c: Clause| c@)
    }

    /// Well-formedness: the structural invariants a parsed formula enjoys.
    pub open spec fn wf(self) -> bool {
        formula_wf(self.spec_num_vars(), self.spec_num_clauses(), self.spec_clauses())
    }

    #[verifier::type_invariant]
    pub(crate) open spec fn type_inv(self) -> bool {
        self.wf()
    }

    /// Packs already-validated parts into a formula; the invariant is
    /// established here, where the representation is visible.
    pub(crate) fn assemble(num_vars: u64, num_clauses: u64, clauses: Vec<Clause>) -> (f: Formula)
        requires
            formula_wf(num_vars, num_clauses, clauses@.map_values(|c: Clause| c@)),
        ensures
            f.spec_num_vars() == num_vars,
            f.spec_num_clauses() == num_clauses,
            f.spec_clauses() == clauses@.map_values(|c: Clause| c@),
            f.wf(),
    {
        Formula { num_vars, num_clauses, clauses }
    }

    /// The evaluation a matching valuation receives.
    pub open spec fn spec_evaluation(self, val: Seq<bool>) -> FormulaEvaluation {
        FormulaEvaluation {
            solved: count_sat(self.spec_clauses(), val) == self.spec_num_clauses(),
            num_true: count_sat(self.spec_clauses(), val) as usize,
            num_false: (self.spec_num_clauses() - count_sat(self.spec_clauses(), val)) as usize,
        }
    }

    /// Scores the valuation: `None` exactly when its length differs from
    /// `num_vars`; otherwise the clause-level satisfaction counts.
    pub fn evaluate(&self, valoration: &[bool]) -> (r: Option<FormulaEvaluation>)
        ensures
            r is Some <==> valoration@.len() == self.spec_num_vars(),
            valoration@.len() == self.spec_num_vars() ==> r == Some(
                self.spec_evaluation(valoration@),
            ),
    {
        proof {
            use_type_invariant(self);
        }
        if self.num_vars != valoration.len() as u64 {
            return None;
        }
        let ghost cs = self.spec_clauses();
        let n = self.clauses.len();
        let mut num_true: u64 = 0;
        let mut i: usize = 0;
        while i < n
            invariant
                self.wf(),
                n == self.clauses@.len(),
                cs == self.spec_clauses(),
                valoration@.len() == self.spec_num_vars(),
                0 <= i <= n,
                num_true == count_sat(cs.take(i as int), valoration@),
                num_true <= i,
            decreases n - i,
        {
            proof {
                assert(clause_in_range(cs[i as int], valoration@.len()));
            }
            let clause_result = self.clauses[i].evaluate(valoration);
            match clause_result {
                Some(v) => {
                    proof {
                        assert(cs.take(i + 1).drop_last() =~= cs.take(i as int));
                        assert(cs.take(i + 1).last() == cs[i as int]);
                    }
                    if v {
                        num_true = num_true + 1;
                    }
                },
                None => {
                    proof {
                        assert(false);
                    }
                    return None;
                },
            }
            i = i + 1;
        }
        proof {
            assert(cs.take(n as int) =~= cs);
            lemma_count_sat_le(cs, valoration@);
        }
        Some(
            FormulaEvaluation {
                solved: num_true == self.num_clauses,
                num_true: num_true as usize,
                num_false: (self.num_clauses - num_true) as usize,
            },
        )
    }

    pub fn get_num_vars(&self) -> (r: u64)
        ensures
            r == self.spec_num_vars(),
    {
        self.num_vars
    }

    pub fn get_num_clauses(&self) -> (r: u64)
        ensures
            r == self.spec_num_clauses(),
    {
        self.num_clauses
    }

    pub fn get_clauses(&self) -> (r: &[Clause])
        ensures
            r@.map_values(|c: Clause| c@) == self.spec_clauses(),
    {
        self.clauses.as_slice()
    }
}

/// Binds a formula to the satisfiability objective over binary-encoded
/// populations: the per-individual score is the count of falsified clauses
/// (zero means satisfied).
pub struct SATObjective {
    pub formula: Formula,
}

impl SATObjective {
    /// Scores every individual's genes as a valuation of the formula. The
    /// contract is all-or-nothing: one score per individual, or no result
    /// at all as soon as any individual's length mismatches `num_vars`.
    pub fn eval(&self, pop: &Population<BinaryEncoding>) -> (r: Option<Vec<usize>>)
        ensures
            r is Some <==> (forall|i: int|
                0 <= i < pop.0@.len() ==> (#[trigger] pop.0@[i]).0@.len()
                    == self.formula.spec_num_vars()),
            r matches Some(scores) ==> scores@.len() == pop.0@.len() && (forall|i: int|
                0 <= i < pop.0@.len() ==> scores@[i] == self.formula.spec_evaluation(
                    (#[trigger] pop.0@[i]).0@,
                ).num_false),
    {
        let n = pop.0.len();
        let mut scores: Vec<usize> = Vec::new();
        let mut i: usize = 0;
        while i < n
            invariant
                n == pop.0@.len(),
                0 <= i <= n,
                scores@.len() == i,
                forall|k: int|
                    0 <= k < i ==> (#[trigger] pop.0@[k]).0@.len()
                        == self.formula.spec_num_vars(),
                forall|k: int|
                    0 <= k < i ==> scores@[k] == self.formula.spec_evaluation(
                        (#[trigger] pop.0@[k]).0@,
                    ).num_false,
            decreases n - i,
        {
            let individual = &pop.0[i];
            let valuation = individual.to_bool_slice();
            let result = self.formula.evaluate(valuation);
            match result {
                Some(evaluation) => {
                    scores.push(evaluation.num_false);
                },
                None => {
                    return None;
                },
            }
            i = i + 1;
        }
        Some(scores)
    }
}

impl Objective<BinaryEncoding> for SATObjective {
    type Output = Option<Vec<usize>>;

    fn eval(&self, pop: &Population<BinaryEncoding>) -> Option<Vec<usize>> {
        SATObjective::eval(self, pop)
    }
}

/// For any well-formed formula and valuation of matching length, the true and
/// false clause counts partition the clause count, and the formula is solved
/// exactly when no clause is false.
pub proof fn lemma_evaluation_partitions(f: Formula, val: Seq<bool>)
    requires
        f.wf(),
        val.len() == f.spec_num_vars(),
        f.spec_num_clauses() <= usize::MAX,
    ensures
        f.spec_evaluation(val).num_true + f.spec_evaluation(val).num_false
            == f.spec_num_clauses(),
        f.spec_evaluation(val).solved <==> f.spec_evaluation(val).num_false == 0,
{
    lemma_count_sat_le(f.spec_clauses(), val);
    assert(count_sat(f.spec_clauses(), val) <= f.spec_num_clauses());
}

} // verus!
