use tip5::{BFieldElement, Tip5};

#[test]
fn test_hash_10() {
    let input = [
        2_977_285_544_793_697_764,
        8_573_079_213_791_329_436,
        14_740_515_030_531_427_526,
        14_389_955_978_682_590_192,
        1_689_728_978_827_025_832,
        2_977_285_544_793_697_764,
        8_573_079_213_791_329_436,
        14_740_515_030_531_427_526,
        14_389_955_978_682_590_192,
        1_689_728_978_827_025_832,
    ]
    .map(BFieldElement::new);

    let expected_output: [u64; 5] = [
        4_284_109_133_012_162_799,
        9_948_087_830_738_081_755,
        1_299_341_039_090_705_558,
        10_318_697_670_389_295_510,
        16_411_665_177_385_553_945,
    ];

    let output = Tip5::hash_10(&input).map(|bfe| bfe.raw_u64());
    assert_eq!(
        output, expected_output,
        "output: {output:?},\nexpected: {expected_output:?}"
    );
}

#[test]
fn test_hash_varlen() {
    let input = [1, 0].map(BFieldElement::new);

    let expected_output: [u64; 5] = [
        1_730_770_831_742_798_981,
        2_676_322_185_709_933_211,
        8_329_210_750_824_781_744,
        16_756_092_452_590_401_876,
        3_547_445_316_740_171_466,
    ];

    let output = Tip5::hash_varlen(&input).values().map(|bfe| bfe.value());
    assert_eq!(output, expected_output,);
}
