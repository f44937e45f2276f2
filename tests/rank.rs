use statsctl::rank::order_desc;

#[test]
fn order_desc_is_stable() {
    assert_eq!(order_desc(&vec![3, 5, 3, 9, 5]), vec![3, 1, 4, 0, 2]);
    assert_eq!(order_desc(&vec![]), Vec::<usize>::new());
}

#[test]
fn order_desc_orders_magnitudes_of_correlations() {
    let rs = [0.3f64, -0.9, 0.75, -0.3, 1.0];
    let keys: Vec<u64> = rs.iter().map(|r| r.abs().to_bits()).collect();
    let o = order_desc(&keys);
    assert_eq!(o, vec![4, 1, 2, 0, 3]);
    for w in o.windows(2) {
        assert!(rs[w[0]].abs() >= rs[w[1]].abs());
    }
}
