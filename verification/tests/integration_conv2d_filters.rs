//! Integration tests for the 2-dimensional convolution on the fixed
//! 2-dimensional filters.

use rustdsp::convolution::conv2d;
use rustdsp::convolution::Boundary;
use rustdsp::convolution::ConvError;
use rustdsp::filters::sharpen2d;
use rustdsp::filters::sobel_x;
use rustdsp::filters::sobel_y;
use rustdsp::matrix::Matrix;

fn print_matrix(m: &Matrix) {
    for r in 0..m.rows() {
        let mut line = String::new();
        for c in 0..m.cols() {
            line.push_str(&format!("{:2} ", m.get(r, c)));
        }
        println!("{}", line);
    }
}

#[test]
fn conv2d_sharpen() {
    let n = 16;
    let mut a = Matrix::new(n, n);
    let b = sharpen2d();
    // make a circle
    let c = (8., 8.);
    for i in 0..n {
        for j in 0..n {
            let s = ((i as f32) - c.0).powi(2) + ((j as f32) - c.1).powi(2);
            if s.sqrt() > 3. && s.sqrt() < 6. {
                a.set(i, j, 1);
            }
        }
    }
    print_matrix(&a);
    let mut res = Matrix::new(n, n);
    for _ in 0..5 {
        conv2d(&a, &b, &mut res, Boundary::Fill).unwrap();
    }
    print_matrix(&res);
}

#[test]
fn conv2d_sobel() {
    let n = 8;
    // identity matrix (diagonal 'edge')
    let mut a = Matrix::new(n, n);
    for i in 0..n {
        a.set(i, i, 1);
    }
    let b_x = sobel_x();
    let b_y = sobel_y();
    // each filter will find an edge thus we get two gradients in the output
    let z: Vec<Vec<i64>> = vec![
        vec![0, -4, -2, 0, 0, 0, 0, 0],
        vec![4, 0, -4, -2, 0, 0, 0, 0],
        vec![2, 4, 0, -4, -2, 0, 0, 0],
        vec![0, 2, 4, 0, -4, -2, 0, 0],
        vec![0, 0, 2, 4, 0, -4, -2, 0],
        vec![0, 0, 0, 2, 4, 0, -4, -2],
        vec![0, 0, 0, 0, 2, 4, 0, -4],
        vec![0, 0, 0, 0, 0, 2, 4, 0],
    ];
    let mut res_x = Matrix::new(n, n);
    let mut res_y = Matrix::new(n, n);
    // apply the filter in both directions
    conv2d(&a, &b_x, &mut res_x, Boundary::Fill).unwrap();
    conv2d(&a, &b_y, &mut res_y, Boundary::Fill).unwrap();
    // combine the output
    let mut res = Matrix::new(n, n);
    for i in 0..n {
        for j in 0..n {
            res.set(i, j, res_x.get(i, j) + res_y.get(i, j));
        }
    }
    print_matrix(&a);
    print_matrix(&res);
    for i in 0..n {
        for j in 0..n {
            assert_eq!(z[i][j], res.get(i, j));
        }
    }
}

#[test]
fn conv2d_zero_image_zero_output() {
    let mut z9 = Matrix::new(9, 7);
    // out starts from garbage-like values to show every cell is written
    for i in 0..9 {
        for j in 0..7 {
            z9.set(i, j, 77);
        }
    }
    let a = Matrix::new(9, 7);
    let b = sharpen2d();
    conv2d(&a, &b, &mut z9, Boundary::Fill).unwrap();
    for i in 0..9 {
        for j in 0..7 {
            assert_eq!(z9.get(i, j), 0);
        }
    }
}

#[test]
fn conv2d_border_zero_fill_values() {
    // a 2x2 image of ones against a 3x3 kernel of ones: every output
    // cell sums the in-range neighbors, so the counts are the overlaps
    let mut a = Matrix::new(2, 2);
    let mut b = Matrix::new(2, 2);
    for i in 0..2 {
        for j in 0..2 {
            a.set(i, j, 1);
            b.set(i, j, 1);
        }
    }
    let mut out = Matrix::new(2, 2);
    conv2d(&a, &b, &mut out, Boundary::Fill).unwrap();
    // out[r][c] = sum over (k,l) of fill(r-1+k, c-1+l): the kernel
    // window anchored one step up and left
    assert_eq!(out.get(0, 0), 1);
    assert_eq!(out.get(0, 1), 2);
    assert_eq!(out.get(1, 0), 2);
    assert_eq!(out.get(1, 1), 4);
}

#[test]
fn conv2d_kernel_too_large_is_rejected() {
    let a = Matrix::new(2, 2);
    let b = Matrix::new(3, 3);
    let mut out = Matrix::new(2, 2);
    assert_eq!(
        conv2d(&a, &b, &mut out, Boundary::Fill),
        Err(ConvError::KernelTooLarge)
    );
}

#[test]
fn conv2d_output_too_small_is_rejected() {
    let a = Matrix::new(4, 4);
    let b = Matrix::new(3, 3);
    let mut out = Matrix::new(3, 4);
    assert_eq!(
        conv2d(&a, &b, &mut out, Boundary::Fill),
        Err(ConvError::OutputTooSmall)
    );
}

#[test]
fn filter_kernel_contents() {
    let sharpen = sharpen2d();
    let expected_sharpen: Vec<Vec<i64>> = vec![
        vec![0, -1, 0],
        vec![-1, 5, -1],
        vec![0, -1, 0],
    ];
    let sx = sobel_x();
    let expected_sx: Vec<Vec<i64>> = vec![
        vec![-1, 0, 1],
        vec![-2, 0, 2],
        vec![-1, 0, 1],
    ];
    let sy = sobel_y();
    let expected_sy: Vec<Vec<i64>> = vec![
        vec![1, 2, 1],
        vec![0, 0, 0],
        vec![-1, -2, -1],
    ];
    for r in 0..3 {
        for c in 0..3 {
            assert_eq!(sharpen.get(r, c), expected_sharpen[r][c]);
            assert_eq!(sx.get(r, c), expected_sx[r][c]);
            assert_eq!(sy.get(r, c), expected_sy[r][c]);
        }
    }
}
