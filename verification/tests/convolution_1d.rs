//! Tests for the 1D convolution, cross-correlation and autocorrelation
//! routines.

use rustdsp::convolution::conv;
use rustdsp::convolution::conv_full_scatter;
use rustdsp::convolution::autocorr;
use rustdsp::convolution::xcorr;
use rustdsp::convolution::ConvError;
use rustdsp::convolution::ConvMode;

/// calculate a known impulse response and check the output
#[test]
fn conv_xcorr_autocorr_1d() {
    let x: Vec<i64> = vec![3, 4, 5]; // excitation signal
    let h: Vec<i64> = vec![2, 1]; // impulse response of dummy system
    let y: Vec<i64> = vec![6, 11, 14, 5]; // expected output y=conv(x,h)
    let yy: Vec<i64> = vec![30, 139, 290, 378, 290, 139, 30];
    let res: Vec<i64> = conv(&x, &h, ConvMode::Full).unwrap();
    let resyy: Vec<i64> = xcorr(&y, &y, ConvMode::Full).unwrap();
    assert_eq!(res, y);
    assert_eq!(resyy, yy);
    assert_eq!(resyy[3..].to_vec(), autocorr(&y, &y).unwrap())
}

#[test]
fn conv_basic_full_scenario() {
    let a: Vec<i64> = vec![3, 4, 5];
    let b: Vec<i64> = vec![2, 1];
    assert_eq!(conv(&a, &b, ConvMode::Full).unwrap(), vec![6, 11, 14, 5]);
}

#[test]
fn xcorr_full_scenario() {
    let y: Vec<i64> = vec![6, 11, 14, 5];
    assert_eq!(
        xcorr(&y, &y, ConvMode::Full).unwrap(),
        vec![30, 139, 290, 378, 290, 139, 30]
    );
}

#[test]
fn autocorr_suffix_scenario() {
    let y: Vec<i64> = vec![6, 11, 14, 5];
    assert_eq!(autocorr(&y, &y).unwrap(), vec![378, 290, 139, 30]);
}

#[test]
fn conv_full_length_law() {
    let a: Vec<i64> = vec![1, -2, 3, 7, 0, 4];
    let b: Vec<i64> = vec![5, 6, -1];
    let y = conv(&a, &b, ConvMode::Full).unwrap();
    assert_eq!(y.len(), a.len() + b.len() - 1);
    let z = conv(&b, &a, ConvMode::Full).unwrap();
    assert_eq!(z.len(), a.len() + b.len() - 1);
}

#[test]
fn conv_commutativity() {
    let a: Vec<i64> = vec![1, -2, 3, 7];
    let b: Vec<i64> = vec![5, 0, -1];
    let ab = conv(&a, &b, ConvMode::Full).unwrap();
    let ba = conv(&b, &a, ConvMode::Full).unwrap();
    assert_eq!(ab, ba);
}

#[test]
fn xcorr_self_symmetry() {
    let a: Vec<i64> = vec![2, -7, 1, 9, 4];
    let y = xcorr(&a, &a, ConvMode::Full).unwrap();
    assert_eq!(y.len(), 2 * a.len() - 1);
    for i in 0..y.len() {
        assert_eq!(y[i], y[y.len() - 1 - i]);
    }
}

#[test]
fn conv_identity_kernel() {
    let a: Vec<i64> = vec![9, -3, 0, 12, 5];
    let unit: Vec<i64> = vec![1];
    assert_eq!(conv(&a, &unit, ConvMode::Full).unwrap(), a);
}

#[test]
fn conv_same_and_valid_modes() {
    let a: Vec<i64> = vec![3, 4, 5];
    let b: Vec<i64> = vec![2, 1];
    // full result is [6, 11, 14, 5]
    assert_eq!(conv(&a, &b, ConvMode::Same).unwrap(), vec![6, 11, 14]);
    assert_eq!(conv(&a, &b, ConvMode::Valid).unwrap(), vec![11, 14]);
    // kernel longer than the signal
    let c: Vec<i64> = vec![1, 2, 3, 4];
    let d: Vec<i64> = vec![1, 1];
    // full result is [1, 3, 5, 7, 4]
    assert_eq!(conv(&c, &d, ConvMode::Same).unwrap(), vec![1, 3, 5, 7]);
    assert_eq!(conv(&c, &d, ConvMode::Valid).unwrap(), vec![3, 5, 7]);
}

#[test]
fn conv_empty_input_is_rejected() {
    let a: Vec<i64> = vec![];
    let b: Vec<i64> = vec![2, 1];
    assert_eq!(conv(&a, &b, ConvMode::Full), Err(ConvError::EmptyInput));
    assert_eq!(conv(&b, &a, ConvMode::Full), Err(ConvError::EmptyInput));
    assert_eq!(xcorr(&a, &b, ConvMode::Full), Err(ConvError::EmptyInput));
    assert_eq!(autocorr(&b, &a), Err(ConvError::EmptyInput));
}

#[test]
fn conv_full_scatter_equivalence() {
    let a: Vec<i64> = vec![3, 4, 5];
    let b: Vec<i64> = vec![2, 1];
    assert_eq!(conv_full_scatter(&a, &b), vec![6, 11, 14, 5]);
    let c: Vec<i64> = vec![1, -2, 3, 7];
    let d: Vec<i64> = vec![5, 0, -1];
    assert_eq!(conv_full_scatter(&c, &d), conv(&c, &d, ConvMode::Full).unwrap());
}
