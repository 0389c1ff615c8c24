use ceres_solver::cost::CostFunction;
use ceres_solver::types::JacobianType;

fn cost_function<F>(func: F, sizes: Vec<usize>, num_residuals: usize) -> CostFunction<F>
where
    F: for<'a> Fn(&[&[f64]], &mut [f64], JacobianType<'a, f64>) -> bool,
{
    CostFunction::new(func, sizes, num_residuals)
}

fn copy_parameters(parameters: &[&[f64]], residuals: &mut [f64], _: JacobianType<'_, f64>) -> bool {
    let mut at = 0;
    for block in parameters {
        for value in block.iter() {
            residuals[at] = *value;
            at += 1;
        }
    }
    true
}

#[test]
fn shape_is_kept_as_given() {
    let cost = cost_function(|_, _, _| true, vec![2, 3, 1], 7);
    assert_eq!(cost.parameter_sizes(), &[2, 3, 1]);
    assert_eq!(cost.num_parameters(), 3);
    assert_eq!(cost.num_residuals(), 7);
}

#[test]
fn shape_without_parameters() {
    let cost = cost_function(|_, _, _| true, Vec::new(), 0);
    assert!(cost.parameter_sizes().is_empty());
    assert_eq!(cost.num_parameters(), 0);
    assert_eq!(cost.num_residuals(), 0);
}

#[test]
fn direct_call_reproduces_the_reference_bit_for_bit() {
    let shapes: Vec<Vec<usize>> = vec![vec![1], vec![2, 3], vec![4, 1, 2], vec![1, 1, 1, 1]];
    for sizes in shapes {
        let num_residuals: usize = sizes.iter().sum();
        let blocks: Vec<Vec<f64>> = sizes
            .iter()
            .enumerate()
            .map(|(i, &n)| (0..n).map(|k| (i as f64) * 0.1 - (k as f64) / 3.0).collect())
            .collect();
        let parameters: Vec<&[f64]> = blocks.iter().map(|b| &b[..]).collect();
        let reference: Vec<u64> = blocks.iter().flatten().map(|v| v.to_bits()).collect();

        let cost = cost_function(copy_parameters, sizes.clone(), num_residuals);
        let mut residuals = vec![f64::NAN; num_residuals];
        assert!(cost.cost(&parameters, &mut residuals, None));
        let got: Vec<u64> = residuals.iter().map(|v| v.to_bits()).collect();
        assert_eq!(got, reference);
    }
}

#[test]
fn direct_call_passes_the_verdict_on() {
    let cost = cost_function(|_, _, _| false, vec![1], 1);
    let block = [1.0];
    let mut residuals = [0.0];
    assert!(!cost.cost(&[&block[..]], &mut residuals, None));
    assert_eq!(residuals, [0.0]);
}

#[test]
fn direct_call_hands_the_jacobian_over_as_it_is() {
    let cost = cost_function(
        |_, _, jacobians: JacobianType<'_, f64>| {
            let blocks = jacobians.unwrap();
            assert_eq!(blocks.len(), 2);
            assert!(blocks[0].is_none());
            let rows = blocks[1].as_mut().unwrap();
            rows[0][1] = 9.0;
            true
        },
        vec![1, 2],
        1,
    );
    let a = [1.0];
    let b = [2.0, 3.0];
    let mut residuals = [0.0];
    let mut row = [0.0, 0.0];
    {
        let mut rows: Vec<&mut [f64]> = vec![&mut row[..]];
        let mut blocks: Vec<Option<&mut [&mut [f64]]>> = vec![None, Some(&mut rows[..])];
        assert!(cost.cost(&[&a[..], &b[..]], &mut residuals, Some(&mut blocks[..])));
    }
    assert_eq!(row, [0.0, 9.0]);
}

#[test]
fn direct_call_sees_the_callers_residuals() {
    let cost = cost_function(
        |_, residuals: &mut [f64], _| {
            for value in residuals.iter_mut() {
                *value += 1.0;
            }
            true
        },
        vec![1],
        3,
    );
    let block = [0.0];
    let mut residuals = [1.0, 2.0, 3.0];
    assert!(cost.cost(&[&block[..]], &mut residuals, None));
    assert_eq!(residuals, [2.0, 3.0, 4.0]);
}
