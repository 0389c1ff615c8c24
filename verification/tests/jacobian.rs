use ceres_solver::jacobian::OwnedJacobian;

#[test]
fn no_buffer_list_gives_no_jacobian() {
    let owned: OwnedJacobian<'_, f64> = OwnedJacobian::from_buffers(None, &[2, 3], 4);
    assert!(owned.0.is_none());
}

#[test]
fn list_of_missing_buffers_is_a_list_of_missing_blocks() {
    let owned: OwnedJacobian<'_, f64> =
        OwnedJacobian::from_buffers(Some(vec![None, None]), &[2, 3], 4);
    let blocks = owned.0.unwrap();
    assert_eq!(blocks.len(), 2);
    assert!(blocks[0].is_none());
    assert!(blocks[1].is_none());
}

#[test]
fn blocks_are_present_independently() {
    let mut second: Vec<f64> = (0..12).map(|i| i as f64).collect();
    let owned = OwnedJacobian::from_buffers(Some(vec![None, Some(&mut second[..])]), &[2, 3], 4);
    let blocks = owned.0.unwrap();
    assert_eq!(blocks.len(), 2);
    assert!(blocks[0].is_none());
    let rows = blocks[1].as_ref().unwrap();
    assert_eq!(rows.len(), 4);
    assert_eq!(rows[0], &[0.0, 1.0, 2.0]);
    assert_eq!(rows[1], &[3.0, 4.0, 5.0]);
    assert_eq!(rows[2], &[6.0, 7.0, 8.0]);
    assert_eq!(rows[3], &[9.0, 10.0, 11.0]);
}

#[test]
fn first_block_present_second_missing() {
    let mut first = vec![1.0f64, 2.0, 3.0, 4.0];
    let owned = OwnedJacobian::from_buffers(Some(vec![Some(&mut first[..]), None]), &[2, 3], 2);
    let blocks = owned.0.unwrap();
    let rows = blocks[0].as_ref().unwrap();
    assert_eq!(rows.len(), 2);
    assert_eq!(rows[0], &[1.0, 2.0]);
    assert_eq!(rows[1], &[3.0, 4.0]);
    assert!(blocks[1].is_none());
}

#[test]
fn blocks_keep_the_order_of_the_parameters() {
    let mut a = vec![10.0f64, 11.0];
    let mut b = vec![20.0f64, 21.0, 22.0, 23.0];
    let mut c = vec![30.0f64, 31.0, 32.0, 33.0, 34.0, 35.0];
    let owned = OwnedJacobian::from_buffers(
        Some(vec![Some(&mut a[..]), Some(&mut b[..]), Some(&mut c[..])]),
        &[1, 2, 3],
        2,
    );
    let blocks = owned.0.unwrap();
    let widths: Vec<usize> = blocks.iter().map(|b| b.as_ref().unwrap()[0].len()).collect();
    assert_eq!(widths, vec![1, 2, 3]);
    assert_eq!(blocks[0].as_ref().unwrap()[1], &[11.0]);
    assert_eq!(blocks[1].as_ref().unwrap()[1], &[22.0, 23.0]);
    assert_eq!(blocks[2].as_ref().unwrap()[1], &[33.0, 34.0, 35.0]);
}

#[test]
fn empty_list_for_no_parameters() {
    let owned: OwnedJacobian<'_, f64> = OwnedJacobian::from_buffers(Some(Vec::new()), &[], 3);
    assert_eq!(owned.0.map(|blocks| blocks.len()), Some(0));
}

#[test]
fn references_of_no_jacobian_are_none() {
    let mut owned: OwnedJacobian<'_, f64> = OwnedJacobian::from_buffers(None, &[2, 3], 4);
    assert!(owned.references().is_none());
}

#[test]
fn references_keep_absence_per_block() {
    let mut second = vec![0.0f64; 12];
    let mut owned =
        OwnedJacobian::from_buffers(Some(vec![None, Some(&mut second[..])]), &[2, 3], 4);
    let views = owned.references().unwrap();
    assert_eq!(views.len(), 2);
    assert!(views[0].is_none());
    let rows = views[1].as_ref().unwrap();
    assert_eq!(rows.len(), 4);
    assert!(rows.iter().all(|row| row.len() == 3));
}

#[test]
fn writes_through_references_land_in_the_buffers() {
    let mut first = vec![0.0f64; 4];
    let mut second = vec![0.0f64; 6];
    {
        let mut owned = OwnedJacobian::from_buffers(
            Some(vec![Some(&mut first[..]), Some(&mut second[..])]),
            &[2, 3],
            2,
        );
        let mut views = owned.references().unwrap();
        let rows = views[0].as_mut().unwrap();
        rows[1][0] = 3.0;
        let rows = views[1].as_mut().unwrap();
        rows[0][2] = 5.0;
        rows[1][1] = 8.0;
    }
    assert_eq!(first, vec![0.0, 0.0, 3.0, 0.0]);
    assert_eq!(second, vec![0.0, 0.0, 5.0, 0.0, 8.0, 0.0]);
}
