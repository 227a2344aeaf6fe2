use gen_alg::population::BinaryPopGenerator;
use gen_alg::population::GeneratorConfigError;
use gen_alg::population::IntPermPopGenerator;
use gen_alg::population::IntegerPopGenerator;

#[test]
fn population_test_generate_binary_population() {
    let dim = 17;
    let pop_size = 120;
    let pop_generator = BinaryPopGenerator::new(dim, pop_size);
    let population = pop_generator.gen_pop();
    let individuals = population.0;
    assert_eq!(individuals.len(), pop_size);

    for individual in individuals {
        assert_eq!(individual.0.len(), dim);
    }
}

#[test]
fn population_test_generate_integer_population() {
    let dim = 15;
    let bounds = (1, 10);
    let pop_size = 25;
    let pop_generator = IntegerPopGenerator::new(dim, bounds, pop_size).unwrap();
    let population = pop_generator.gen_pop();
    let individuals = population.0;
    assert_eq!(individuals.len(), pop_size);

    for individual in individuals {
        assert_eq!(individual.0.len(), dim);
        for gene in individual.0 {
            assert!(gene >= bounds.0 && gene <= bounds.1);
        }
    }
}

#[test]
fn population_test_generate_int_permutation_population() {
    let dim = 15;
    let pop_size = 10;
    let pop_generator = IntPermPopGenerator::new(dim, pop_size);
    let population = pop_generator.gen_pop();
    let individuals = population.0;
    let comparison_vec: Vec<usize> = (0..=dim).collect();
    assert_eq!(individuals.len(), pop_size);

    for individual in individuals {
        let mut genes = individual.0;
        assert_eq!(genes.len(), dim);
        genes.sort();
        genes
            .iter()
            .enumerate()
            .for_each(|(i, &val)| assert_eq!(val, comparison_vec[i]));
    }
}

#[test]
fn test_integer_generator_rejects_inverted_bounds() {
    let result = IntegerPopGenerator::new(5, (10, 1), 3);
    assert_eq!(result.err(), Some(GeneratorConfigError::InvalidBounds));
}

#[test]
fn test_integer_generator_accepts_degenerate_range() {
    let pop_generator = IntegerPopGenerator::new(4, (7, 7), 2).unwrap();
    let population = pop_generator.gen_pop();
    assert_eq!(population.0.len(), 2);
    for individual in population.0 {
        assert_eq!(individual.0.len(), 4);
        for gene in individual.0 {
            assert_eq!(gene, 7);
        }
    }
}

#[test]
fn test_empty_population_and_dimension() {
    let population = BinaryPopGenerator::new(0, 0).gen_pop();
    assert_eq!(population.0.len(), 0);

    let population = BinaryPopGenerator::new(0, 3).gen_pop();
    assert_eq!(population.0.len(), 3);
    for individual in population.0 {
        assert_eq!(individual.0.len(), 0);
    }
}
