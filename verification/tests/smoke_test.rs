#[test]
fn smoke_test_cargo_test_works() {
    assert_eq!(2 + 2, 4);
}
