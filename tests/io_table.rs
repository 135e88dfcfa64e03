use twenty_first::field::{BFieldElement, XFieldElement, P};
use twenty_first::io_table::IOTable;
use twenty_first::table::{
    padded_height, is_power_of_two, TableError, EXTENSION_CHALLENGE_COUNT,
    PERMUTATION_ARGUMENTS_COUNT, TERMINAL_COUNT,
};

fn sample_challenges(seed: u64) -> [XFieldElement; EXTENSION_CHALLENGE_COUNT] {
    let mut challenges = [XFieldElement::zero(); EXTENSION_CHALLENGE_COUNT];
    for (i, c) in challenges.iter_mut().enumerate() {
        let i = i as u64;
        *c = XFieldElement::new(
            seed.wrapping_mul(0x9E37_79B9_7F4A_7C15).wrapping_add(i * 7 + 3),
            seed.wrapping_add(i * 1_000_003 + 1),
            seed ^ (i * 31 + 5),
        );
    }
    challenges
}

fn initials() -> [XFieldElement; PERMUTATION_ARGUMENTS_COUNT] {
    [XFieldElement::new_const(17), XFieldElement::new_const(23)]
}

fn column(values: &[u64]) -> Vec<Vec<BFieldElement>> {
    values.iter().map(|v| vec![BFieldElement::new(*v)]).collect()
}

fn concat(a: &[XFieldElement], b: &[XFieldElement]) -> Vec<XFieldElement> {
    let mut point = a.to_vec();
    point.extend_from_slice(b);
    point
}

#[test]
fn io_table_constraints_evaluate_to_zero_on_test() {
    let order: usize = 1 << 32;
    let generator = BFieldElement::new(1753635133440165772);
    let input_data = vec![76u64, 79, 76];
    let output_data = vec![76u64, 79, 76, 32, 79];
    for seed in 0..4u64 {
        let input_table = IOTable::new_input_table(input_data.len(), generator, order);
        let output_table = IOTable::new_output_table(output_data.len(), generator, order);
        let mut cases = [(input_table, column(&input_data)), (output_table, column(&output_data))];
        for (io_table, io_matrix) in cases.iter_mut() {
            let io_air_constraints = io_table.base_transition_constraints();
            assert_eq!(
                0,
                io_air_constraints.len(),
                "There are exactly 0 base AIR constraints for IOTable"
            );

            io_table.0.matrix = io_matrix.clone();
            io_table.pad();
            let padded_matrix_len = io_table.0.matrix.len();
            assert!(
                padded_matrix_len == 0 || is_power_of_two(padded_matrix_len),
                "Matrix length must be power of 2 after padding"
            );

            let challenges = sample_challenges(seed);
            assert_eq!(Ok(()), io_table.extend(challenges, initials()));

            let io_air_constraints_ext = io_table.transition_constraints_ext(challenges);
            assert_eq!(
                1,
                io_air_constraints_ext.len(),
                "There is exactly 1 extension AIR constraint for IOTable"
            );

            let extended = &io_table.0.extended_matrix;
            for step in 0..extended.len().saturating_sub(1) {
                let xpoint = concat(&extended[step], &extended[step + 1]);
                for constraint in io_air_constraints_ext.iter() {
                    assert!(constraint.evaluate(&xpoint).is_zero());
                }
            }
        }
    }
}

#[test]
fn scenario_running_evaluation_of_76_79_76() {
    let mut table = IOTable::new_input_table(3, BFieldElement::new(7), 16);
    assert_eq!(4, table.height());
    table.0.matrix = column(&[76, 79, 76]);
    table.pad();
    assert_eq!(4, table.0.matrix.len());
    assert_eq!(vec![BFieldElement::zero()], table.0.matrix[3]);

    let mut challenges = [XFieldElement::zero(); EXTENSION_CHALLENGE_COUNT];
    challenges[table.challenge_index()] = XFieldElement::new_const(5);
    assert_eq!(Ok(()), table.extend(challenges, initials()));

    let expected = [76u64, 459, 2371, 11855];
    for (row, value) in table.0.extended_matrix.iter().zip(expected.iter()) {
        assert_eq!(2, row.len());
        assert_eq!(XFieldElement::new_const(*value), row[IOTable::EVALUATION]);
    }
    assert_eq!(XFieldElement::new_const(2371), table.0.more.evaluation_terminal);

    let mut terminals = [XFieldElement::zero(); TERMINAL_COUNT];
    terminals[table.terminal_index()] = table.0.more.evaluation_terminal;
    let constraints = table.terminal_constraints_ext(challenges, terminals).unwrap();
    assert_eq!(1, constraints.len());
    let last = &table.0.extended_matrix[3];
    assert!(constraints[0].evaluate(last).is_zero());
    // a row whose evaluation is 2371 instead of 11855 does not satisfy it
    let wrong = vec![XFieldElement::zero(), XFieldElement::new_const(2371)];
    assert_eq!(XFieldElement::new_const(2371).sub(&XFieldElement::new_const(11855)), constraints[0].evaluate(&wrong));
}

#[test]
fn terminal_constraint_holds_after_padding_with_extension_challenge() {
    let data = [3u64, 1, 4, 1, 5];
    let mut table = IOTable::new_output_table(data.len(), BFieldElement::new(7), 16);
    table.0.matrix = column(&data);
    table.pad();
    assert_eq!(8, table.0.matrix.len());
    let challenges = sample_challenges(9);
    table.extend(challenges, initials()).unwrap();
    let mut terminals = [XFieldElement::zero(); TERMINAL_COUNT];
    terminals[table.terminal_index()] = table.0.more.evaluation_terminal;
    let constraints = table.terminal_constraints_ext(challenges, terminals).unwrap();
    assert!(constraints[0].evaluate(&table.0.extended_matrix[7]).is_zero());
    assert!(!constraints[0].evaluate(&table.0.extended_matrix[4]).is_zero());
}

#[test]
fn accumulator_follows_recurrence() {
    let data = [10u64, P - 1, 0, 123456789, 42, 7, 7];
    let mut table = IOTable::new_input_table(data.len(), BFieldElement::new(7), 16);
    table.0.matrix = column(&data);
    table.pad();
    let challenges = sample_challenges(3);
    let iota = challenges[table.challenge_index()];
    table.extend(challenges, initials()).unwrap();
    let ext = &table.0.extended_matrix;
    assert_eq!(8, ext.len());
    assert_eq!(ext[0][0], ext[0][1]);
    assert_eq!(BFieldElement::new(10).lift(), ext[0][0]);
    for i in 1..ext.len() {
        assert_eq!(ext[i - 1][1].mul(&iota).add(&ext[i][0]), ext[i][1]);
    }
    assert_eq!(ext[6][1], table.0.more.evaluation_terminal);
}

#[test]
fn boundary_constraint_vanishes_on_first_row() {
    let mut table = IOTable::new_input_table(2, BFieldElement::new(7), 16);
    table.0.matrix = column(&[88, 99]);
    let challenges = sample_challenges(5);
    table.extend(challenges, initials()).unwrap();
    let constraints = table.boundary_constraints_ext(challenges);
    assert_eq!(1, constraints.len());
    assert!(constraints[0].evaluate(&table.0.extended_matrix[0]).is_zero());
    assert!(!constraints[0].evaluate(&table.0.extended_matrix[1]).is_zero());
}

#[test]
fn no_base_constraints() {
    let table = IOTable::new_output_table(4, BFieldElement::new(7), 16);
    assert!(table.base_transition_constraints().is_empty());
    assert!(table.base_boundary_constraints().is_empty());
}

#[test]
fn pad_keeps_empty_matrix_empty() {
    let mut table = IOTable::new_input_table(0, BFieldElement::new(7), 16);
    assert_eq!(0, table.height());
    table.pad();
    assert!(table.0.matrix.is_empty());
}

#[test]
fn pad_rounds_up_and_is_idempotent() {
    let mut table = IOTable::new_input_table(5, BFieldElement::new(7), 16);
    table.0.matrix = column(&[1, 2, 3, 4, 5]);
    table.pad();
    assert_eq!(8, table.0.matrix.len());
    assert_eq!(column(&[1, 2, 3, 4, 5, 0, 0, 0]), table.0.matrix);
    table.pad();
    assert_eq!(8, table.0.matrix.len());

    let mut single = IOTable::new_output_table(1, BFieldElement::new(7), 16);
    single.0.matrix = column(&[9]);
    single.pad();
    assert_eq!(column(&[9]), single.0.matrix);
}

#[test]
fn padded_height_values() {
    assert_eq!(0, padded_height(0));
    assert_eq!(1, padded_height(1));
    assert_eq!(2, padded_height(2));
    assert_eq!(4, padded_height(3));
    assert_eq!(1024, padded_height(1000));
    assert_eq!(1024, padded_height(1024));
    assert!(is_power_of_two(64));
    assert!(!is_power_of_two(0));
    assert!(!is_power_of_two(96));
}

#[test]
fn table_constructors() {
    let generator = BFieldElement::new(7);
    let input = IOTable::new_input_table(3, generator, 32);
    assert_eq!(8, input.challenge_index());
    assert_eq!(2, input.terminal_index());
    assert_eq!("Input table", input.name());
    assert_eq!(1, input.base_width());
    assert_eq!(2, input.full_width());
    assert_eq!(3, input.length());
    assert_eq!(4, input.height());
    assert_eq!(0, input.num_randomizers());
    assert_eq!(generator, input.generator());
    assert_eq!(32, input.order());
    assert!(input.0.more.evaluation_terminal.is_zero());

    let output = IOTable::new_output_table(5, generator, 64);
    assert_eq!(9, output.challenge_index());
    assert_eq!(3, output.terminal_index());
    assert_eq!("Output table", output.name());
    assert_eq!(8, output.height());
}

#[test]
fn extend_refuses_height_not_power_of_two() {
    let mut table = IOTable::new_input_table(3, BFieldElement::new(7), 16);
    table.0.matrix = column(&[1, 2, 3]);
    table.0.height = 3;
    assert_eq!(Err(TableError::HeightNotPowerOfTwo), table.extend(sample_challenges(1), initials()));
    assert!(table.0.extended_matrix.is_empty());
}

#[test]
fn terminal_constraints_refuse_zero_terminal() {
    let table = IOTable::new_input_table(3, BFieldElement::new(7), 16);
    let terminals = [XFieldElement::zero(); TERMINAL_COUNT];
    assert_eq!(
        TableError::ZeroTerminal,
        table.terminal_constraints_ext(sample_challenges(2), terminals).unwrap_err()
    );
    let empty = IOTable::new_input_table(0, BFieldElement::new(7), 16);
    assert!(empty.terminal_constraints_ext(sample_challenges(2), terminals).is_ok());
}

#[test]
fn field_arithmetic_values() {
    let minus_one = BFieldElement::new(P - 1);
    assert_eq!(BFieldElement::new(1), minus_one.mul(&minus_one));
    assert_eq!(BFieldElement::new(1), minus_one.add(&BFieldElement::new(2)));
    assert_eq!(minus_one, BFieldElement::zero().sub(&BFieldElement::new(1)));
    assert_eq!(0, BFieldElement::new(P).value());
    assert_eq!(BFieldElement::new(6), BFieldElement::new(2).mul(&BFieldElement::new(3)));

    // x^3 = x - 1 modulo x^3 - x + 1
    let x = XFieldElement::new(0, 1, 0);
    assert_eq!(XFieldElement::new(P - 1, 1, 0), x.mul(&x).mul(&x));
    assert_eq!(XFieldElement::new(P - 1, 1, 0), x.mod_pow(3));
    assert_eq!(XFieldElement::one(), x.mod_pow(0));
    assert_eq!((5, 0, 0), XFieldElement::new_const(5).coefficients());
    let a = XFieldElement::new(3, 4, 5);
    let b = XFieldElement::new(6, 7, 8);
    // (3 + 4x + 5x^2)(6 + 7x + 8x^2), reduced with x^3 = x - 1
    assert_eq!(XFieldElement::new(P - 49, 72, 122), a.mul(&b));
    assert_eq!(XFieldElement::new(9, 11, 13), a.add(&b));
    assert_eq!(XFieldElement::new(P - 3, P - 3, P - 3), a.sub(&b));
}

#[test]
fn terminal_offset_covers_three_padding_rows() {
    let mut table = IOTable::new_input_table(5, BFieldElement::new(7), 16);
    table.0.matrix = column(&[1, 2, 3, 4, 5]);
    table.pad();
    let mut challenges = [XFieldElement::zero(); EXTENSION_CHALLENGE_COUNT];
    challenges[table.challenge_index()] = XFieldElement::new_const(3);
    table.extend(challenges, initials()).unwrap();
    // 1*3^4 + 2*3^3 + 3*3^2 + 4*3 + 5 = 179
    assert_eq!(XFieldElement::new_const(179), table.0.more.evaluation_terminal);
    assert_eq!(XFieldElement::new_const(179 * 27), table.0.extended_matrix[7][1]);
    let mut terminals = [XFieldElement::zero(); TERMINAL_COUNT];
    terminals[table.terminal_index()] = XFieldElement::new_const(179);
    let constraints = table.terminal_constraints_ext(challenges, terminals).unwrap();
    assert!(constraints[0].evaluate(&table.0.extended_matrix[7]).is_zero());
}
