#[test]
fn true_works() {
    assert!(true);
}
