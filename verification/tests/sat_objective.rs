use gen_alg::alg::objectives::Formula;
use gen_alg::alg::objectives::SATObjective;
use gen_alg::population::BinaryEncoding;
use gen_alg::population::BinaryPopGenerator;
use gen_alg::population::Population;

#[test]
fn test_sat_objective_small_pop() {
    let dimacs_cnf = r#"p cnf 3 3
        1 -3 0
        2 3 0
        1 2 0
        %"#;

    let formula = Formula::parse_from_dimacs_cnf(dimacs_cnf.as_bytes()).unwrap();
    let objective = SATObjective { formula };

    let individuals: Vec<BinaryEncoding> = [
        vec![true, true, false],
        vec![true, false, false],
        vec![false, false, false],
        vec![true, true, true],
    ]
    .into_iter()
    .map(|val| BinaryEncoding(val))
    .collect();

    let population = Population(individuals);
    let scores = objective.eval(&population).unwrap();
    assert_eq!(scores, vec![0, 1, 2, 0]);
}

#[test]
fn test_sat_objective_is_all_or_nothing() {
    let formula = Formula::parse_from_dimacs_cnf(b"p cnf 2 1\n1 2 0\n").unwrap();
    let objective = SATObjective { formula };
    let population = Population(vec![
        BinaryEncoding(vec![true, true]),
        BinaryEncoding(vec![true]),
    ]);
    assert!(objective.eval(&population).is_none());
}

#[test]
fn test_sat_objective_over_generated_population() {
    let formula = Formula::parse_from_dimacs_cnf(b"p cnf 4 2\n1 -2 3 0\n-1 2 -4 0\n").unwrap();
    let num_vars = formula.get_num_vars() as usize;
    let num_clauses = formula.get_num_clauses() as usize;
    let objective = SATObjective { formula };
    let population = BinaryPopGenerator::new(num_vars, 50).gen_pop();
    let scores = objective.eval(&population).unwrap();
    assert_eq!(scores.len(), 50);
    for score in scores {
        assert!(score <= num_clauses);
    }
}
