use burn_train::conv::{Conv2d, Conv2dConfig, Conv2dPaddingConfig, Initializer};

#[test]
fn initializer_zeros() {
    let config = Conv2dConfig::new([5, 2], [5, 5]).with_initializer(Initializer::Zeros);
    assert_eq!(config.initializer, Initializer::Zeros);
    let conv = Conv2d::new(&config);
    for item in conv.weight.to_data().value.iter() {
        assert_eq!(*item, 0);
    }
}

#[test]
fn initializer_ones_fills_weight_and_bias() {
    let config = Conv2dConfig::new([3, 4], [2, 2]).with_initializer(Initializer::Ones);
    let conv = Conv2d::new(&config);
    let weight = conv.weight.to_data();
    assert_eq!(weight.shape, vec![4, 3, 2, 2]);
    assert_eq!(weight.value.len(), 4 * 3 * 2 * 2);
    assert!(weight.value.iter().all(|v| *v == 1));
    let bias = conv.bias.expect("bias configured by default");
    let bias_data = bias.to_data();
    assert_eq!(bias_data.shape, vec![4]);
    assert!(bias_data.value.iter().all(|v| *v == 1));
}

#[test]
fn bias_can_be_disabled() {
    let config = Conv2dConfig::new([2, 2], [3, 3])
        .with_initializer(Initializer::Constant(7))
        .with_bias(false);
    let conv = Conv2d::new(&config);
    assert!(conv.bias.is_none());
    assert!(conv.weight.to_data().value.iter().all(|v| *v == 7));
}

#[test]
fn same_padding_keeps_the_output_size() {
    // stride 1, kernel 5: a padding of 2 keeps a 32-wide input 32 wide
    let padding = Conv2dPaddingConfig::Same.calculate_padding_2d(32, 32, &[5, 5], &[1, 1]);
    assert_eq!(padding, [2, 2]);
    // kernel 3 wants 1, kernel 1 wants none
    let padding = Conv2dPaddingConfig::Same.calculate_padding_2d(16, 16, &[3, 1], &[1, 1]);
    assert_eq!(padding, [1, 0]);
}

#[test]
fn valid_and_explicit_padding() {
    let padding = Conv2dPaddingConfig::Valid.calculate_padding_2d(9, 9, &[3, 3], &[1, 1]);
    assert_eq!(padding, [0, 0]);
    let padding =
        Conv2dPaddingConfig::Explicit(4, 6).calculate_padding_2d(9, 9, &[3, 3], &[1, 1]);
    assert_eq!(padding, [4, 6]);
}
