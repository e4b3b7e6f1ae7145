use tip5::BFieldElement;

#[test]
fn test_montgomery_reduction() {
    let input = 2_609_026_890_597_981_882u128;
    let expected = 11_259_563_268_822_605_859u64;

    let result = BFieldElement::montyred(input);

    assert_eq!(result, expected, "Montgomery reduction failed");
}

#[test]
fn test_montify() {
    let value = 12_045_832_659_793_544_965;
    let bfe = BFieldElement::new(value);
    let expected = 9_712_864_734_344_745_984u64;

    let result = BFieldElement::new(value).raw_u64();

    assert_eq!(result, expected, "Montification failed");

    let red = bfe.value();
    assert_eq!(red, value, "Canonical representation failed");
}
