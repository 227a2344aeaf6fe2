use gen_alg::alg::objectives::Clause;
use gen_alg::alg::objectives::Formula;
use gen_alg::alg::objectives::FormulaEvaluation;
use gen_alg::alg::objectives::FormulaParsingError;
use gen_alg::alg::objectives::Literal;

#[test]
fn test_cnf_small_correct() {
    let dimacs_cnf = r#"p cnf 3 2
            1 -3 0
            2 3 0
            %"#;
    let expected_clauses = vec![
        Clause::new(vec![Literal::Var(1), Literal::NegatedVar(3)]),
        Clause::new(vec![Literal::Var(2), Literal::Var(3)]),
    ];
    let formula = Formula::parse_from_dimacs_cnf(dimacs_cnf.as_bytes()).unwrap();
    let actual_num_vars = formula.get_num_vars();
    let actual_num_clauses = formula.get_num_clauses();

    assert_eq!(3, actual_num_vars);
    assert_eq!(2, actual_num_clauses);

    for (expected_clause, actual_clause) in expected_clauses.iter().zip(formula.get_clauses().iter())
    {
        assert_eq!(expected_clause, actual_clause);
    }

    let expected_evaluation = FormulaEvaluation {
        solved: true,
        num_true: 2,
        num_false: 0,
    };
    let valoration = [true, true, false];
    let evaluation = formula.evaluate(&valoration).unwrap();
    assert_eq!(evaluation, expected_evaluation);
}

#[test]
fn test_cnf_invalid_header() {
    let dimacs_cnf = r#"p 2 1
            1 -2 0
            %"#;
    let result = Formula::parse_from_dimacs_cnf(dimacs_cnf.as_bytes());
    match result {
        Err(FormulaParsingError::InvalidHeader) => {}
        Err(err) => panic!("Expected FormulaParsingError::InvalidHeader, got {:?}", err),
        _ => panic!("Expected an error"),
    }
}

#[test]
fn test_cnf_empty_clause() {
    let dimacs_cnf = r#"p cnf 3 2
            1 -3 0
            0
            %"#;
    let result = Formula::parse_from_dimacs_cnf(dimacs_cnf.as_bytes());
    match result {
        Err(FormulaParsingError::EmptyClause) => {}
        Err(err) => panic!("Expected FormulaParsingError::EmptyClause, got {:?}", err),
        _ => panic!("Expected an error"),
    }
}

#[test]
fn test_cnf_inconsistent_number_of_variables() {
    let dimacs_cnf = r#"p cnf 10 2
            1 -3 0
            1 2 0
            %"#;
    let result = Formula::parse_from_dimacs_cnf(dimacs_cnf.as_bytes());
    match result {
        Err(FormulaParsingError::InconsistentNumOfVars) => {}
        Err(err) => panic!(
            "Expected FormulaParsingError::InconsistentNumOfVars, got {:?}",
            err
        ),
        _ => panic!("Expected an error"),
    }
}

#[test]
fn test_cnf_inconsistent_number_of_clauses() {
    let dimacs_cnf = r#"p cnf 3 10
            1 -3 0
            1 2 0
            %"#;
    let result = Formula::parse_from_dimacs_cnf(dimacs_cnf.as_bytes());
    match result {
        Err(FormulaParsingError::InconsistentNumOfClauses) => {}
        Err(err) => panic!(
            "Expected FormulaParsingError::InconsistentNumOfClauses, got {:?}",
            err
        ),
        _ => panic!("Expected an error"),
    }
}

#[test]
fn test_cnf_var_out_of_bounds() {
    let dimacs_cnf = r#"p cnf 3 2
            1 -40 0
            1 2 0
            %"#;
    let result = Formula::parse_from_dimacs_cnf(dimacs_cnf.as_bytes());
    match result {
        Err(FormulaParsingError::VarOutOfBounds) => {}
        Err(err) => panic!(
            "Expected FormulaParsingError::VarOutOfBounds, got {:?}",
            err
        ),
        _ => panic!("Expected an error"),
    }
}

#[test]
fn test_cnf_no_header_on_empty_input() {
    let result = Formula::parse_from_dimacs_cnf(b"");
    match result {
        Err(FormulaParsingError::NoHeader) => {}
        other => panic!("Expected FormulaParsingError::NoHeader, got {:?}", other),
    }
}

#[test]
fn test_cnf_parsing_error_on_bad_header_count() {
    let result = Formula::parse_from_dimacs_cnf(b"p cnf x 2\n1 0\n");
    match result {
        Err(FormulaParsingError::Parsing) => {}
        other => panic!("Expected FormulaParsingError::Parsing, got {:?}", other),
    }
}

#[test]
fn test_cnf_parsing_error_on_bad_clause_token() {
    let result = Formula::parse_from_dimacs_cnf(b"p cnf 2 1\n1 2a 0\n");
    match result {
        Err(FormulaParsingError::Parsing) => {}
        other => panic!("Expected FormulaParsingError::Parsing, got {:?}", other),
    }
}

#[test]
fn test_cnf_parsing_error_on_oversized_clause_token() {
    let result = Formula::parse_from_dimacs_cnf(b"p cnf 1 1\n99999999999999999999999 0\n");
    match result {
        Err(FormulaParsingError::Parsing) => {}
        other => panic!("Expected FormulaParsingError::Parsing, got {:?}", other),
    }
}

#[test]
fn test_cnf_comments_and_blank_lines_skipped() {
    let dimacs_cnf = "c a comment\np cnf 2 2\nc another comment\n\n1 2 0\n\n-1 -2 0\n";
    let result = Formula::parse_from_dimacs_cnf(dimacs_cnf.as_bytes());
    match result {
        Err(FormulaParsingError::InvalidHeader) => {}
        other => panic!("Expected FormulaParsingError::InvalidHeader, got {:?}", other),
    }

    let dimacs_cnf = "p cnf 2 2\nc another comment\n\n1 2 0\n\n-1 -2 0\n";
    let formula = Formula::parse_from_dimacs_cnf(dimacs_cnf.as_bytes()).unwrap();
    assert_eq!(2, formula.get_num_vars());
    assert_eq!(2, formula.get_num_clauses());
}

#[test]
fn test_cnf_terminator_stops_reading() {
    let dimacs_cnf = "p cnf 1 1\n1 0\n%\nthis line is never read\n";
    let formula = Formula::parse_from_dimacs_cnf(dimacs_cnf.as_bytes()).unwrap();
    assert_eq!(1, formula.get_num_vars());
    assert_eq!(1, formula.get_num_clauses());
}

#[test]
fn test_cnf_tokens_after_zero_are_ignored() {
    let dimacs_cnf = "p cnf 2 1\n1 -2 0 junk that is ignored\n";
    let formula = Formula::parse_from_dimacs_cnf(dimacs_cnf.as_bytes()).unwrap();
    let expected = Clause::new(vec![Literal::Var(1), Literal::NegatedVar(2)]);
    assert_eq!(1, formula.get_clauses().len());
    assert_eq!(expected, formula.get_clauses()[0]);
}

#[test]
fn test_cnf_empty_formula_parses_and_is_solved() {
    let formula = Formula::parse_from_dimacs_cnf(b"p cnf 0 0\n").unwrap();
    assert_eq!(0, formula.get_num_vars());
    assert_eq!(0, formula.get_num_clauses());
    let evaluation = formula.evaluate(&[]).unwrap();
    assert!(evaluation.solved);
    assert_eq!(0, evaluation.num_true);
    assert_eq!(0, evaluation.num_false);
}

#[test]
fn test_evaluate_length_mismatch_is_absent_not_error() {
    let formula = Formula::parse_from_dimacs_cnf(b"p cnf 3 2\n1 -3 0\n2 3 0\n").unwrap();
    assert!(formula.evaluate(&[true, true]).is_none());
    assert!(formula.evaluate(&[true, true, false, false]).is_none());
    assert!(formula.evaluate(&[]).is_none());
}

#[test]
fn test_evaluate_counts_partition_clauses() {
    let formula = Formula::parse_from_dimacs_cnf(b"p cnf 2 3\n1 0\n2 0\n-1 -2 0\n").unwrap();
    let evaluation = formula.evaluate(&[true, false]).unwrap();
    assert_eq!(evaluation.num_true + evaluation.num_false, 3);
    assert!(!evaluation.solved);
    assert_eq!(evaluation.num_true, 2);
    assert_eq!(evaluation.num_false, 1);
}

#[test]
fn test_evaluate_negated_literals() {
    let formula = Formula::parse_from_dimacs_cnf(b"p cnf 2 1\n-1 -2 0\n").unwrap();
    let evaluation = formula.evaluate(&[false, false]).unwrap();
    assert!(evaluation.solved);
    assert_eq!(1, evaluation.num_true);
    assert_eq!(0, evaluation.num_false);
    let evaluation = formula.evaluate(&[true, true]).unwrap();
    assert!(!evaluation.solved);
    assert_eq!(0, evaluation.num_true);
    assert_eq!(1, evaluation.num_false);
}

#[test]
fn test_cnf_terminator_before_declared_clauses() {
    let result = Formula::parse_from_dimacs_cnf(b"p cnf 1 1\n%\n1 0\n");
    match result {
        Err(FormulaParsingError::InconsistentNumOfClauses) => {}
        other => panic!(
            "Expected FormulaParsingError::InconsistentNumOfClauses, got {:?}",
            other
        ),
    }
}

#[test]
fn test_cnf_variables_must_be_dense() {
    // three distinct variables, but 4 is referenced while 3 is not
    let result = Formula::parse_from_dimacs_cnf(b"p cnf 3 2\n1 2 0\n4 1 0\n");
    match result {
        Err(FormulaParsingError::VarOutOfBounds) => {}
        other => panic!(
            "Expected FormulaParsingError::VarOutOfBounds, got {:?}",
            other
        ),
    }
}

#[test]
fn test_clause_equality_is_set_equality() {
    let a = Clause::new(vec![Literal::Var(1), Literal::Var(2)]);
    let b = Clause::new(vec![Literal::Var(2), Literal::Var(1), Literal::Var(1)]);
    let c = Clause::new(vec![Literal::Var(1)]);
    let d = Clause::new(vec![Literal::NegatedVar(1), Literal::Var(2)]);
    assert!(a == b);
    assert!(a != c);
    assert!(a != d);
}
