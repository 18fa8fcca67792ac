use grouped_conv::{
    ConvError, ConvGemm, DataFormat, DataShape, DatumType, KernelFormat, Matrix, Patch, Tensor,
};

fn patch(fmt: DataFormat, shape: Vec<usize>) -> Patch {
    Patch { input_shape: DataShape { fmt, shape } }
}

/// Receptive fields of a channel-first input (batch, channels, h, w) for a kh x kw
/// kernel with stride 1 and no padding, laid out batch-major, group-minor: one block
/// of `oh * ow` columns per (batch, group), `channels / group * kh * kw` rows.
fn im2col(
    input: &[i64],
    batch: usize,
    channels: usize,
    h: usize,
    w: usize,
    kh: usize,
    kw: usize,
    group: usize,
) -> Matrix {
    let oh = h - kh + 1;
    let ow = w - kw + 1;
    let ci = channels / group;
    let rows = ci * kh * kw;
    let n = oh * ow;
    let cols = n * group * batch;
    let mut data = vec![0i64; rows * cols];
    for b in 0..batch {
        for g in 0..group {
            for c in 0..ci {
                for y in 0..kh {
                    for x in 0..kw {
                        let row = (c * kh + y) * kw + x;
                        for oy in 0..oh {
                            for ox in 0..ow {
                                let col = n * (g + b * group) + oy * ow + ox;
                                let ch = g * ci + c;
                                data[row * cols + col] =
                                    input[((b * channels + ch) * h + oy + y) * w + ox + x];
                            }
                        }
                    }
                }
            }
        }
    }
    Matrix { rows, cols, data }
}

/// Direct convolution, channel-first, stride 1, no padding; kernel (co, ci/group, kh, kw).
fn naive_conv(
    input: &[i64],
    kernel: &[i64],
    batch: usize,
    channels: usize,
    h: usize,
    w: usize,
    co: usize,
    kh: usize,
    kw: usize,
    group: usize,
) -> Vec<i64> {
    let oh = h - kh + 1;
    let ow = w - kw + 1;
    let ci = channels / group;
    let co_g = co / group;
    let mut out = vec![0i64; batch * co * oh * ow];
    for b in 0..batch {
        for o in 0..co {
            let g = o / co_g;
            for oy in 0..oh {
                for ox in 0..ow {
                    let mut acc = 0i64;
                    for c in 0..ci {
                        for y in 0..kh {
                            for x in 0..kw {
                                let iv = input[((b * channels + g * ci + c) * h + oy + y) * w + ox + x];
                                let kv = kernel[((o * ci + c) * kh + y) * kw + x];
                                acc += iv * kv;
                            }
                        }
                    }
                    out[((b * co + o) * oh + oy) * ow + ox] = acc;
                }
            }
        }
    }
    out
}

fn pseudo_random(len: usize, seed: i64) -> Vec<i64> {
    let mut v = Vec::with_capacity(len);
    let mut x = seed;
    for _ in 0..len {
        x = (x * 1103515245 + 12345) % 2147483648;
        v.push(x % 19 - 9);
    }
    v
}

struct Case {
    batch: usize,
    channels: usize,
    h: usize,
    w: usize,
    co: usize,
    kh: usize,
    kw: usize,
    group: usize,
}

fn build(case: &Case, fmt: DataFormat, kernel: &[i64], bias: Option<Tensor>) -> ConvGemm {
    let oh = case.h - case.kh + 1;
    let ow = case.w - case.kw + 1;
    let k = case.channels / case.group * case.kh * case.kw;
    let (out_shape, in_shape) = match fmt {
        DataFormat::NCHW => (
            vec![case.batch, case.co, oh, ow],
            vec![case.batch, case.channels, case.h, case.w],
        ),
        DataFormat::NHWC => (
            vec![case.batch, oh, ow, case.co],
            vec![case.batch, case.h, case.w, case.channels],
        ),
    };
    ConvGemm::new(
        patch(fmt, in_shape),
        out_shape,
        case.co / case.group,
        k,
        oh * ow,
        KernelFormat::OIHW,
        Matrix { rows: case.co, cols: k, data: kernel.to_vec() },
        bias,
        case.group,
    )
    .unwrap()
}

fn run(case: &Case, fmt: DataFormat, input: &[i64], kernel: &[i64], bias: Option<Tensor>) -> Tensor {
    let conv = build(case, fmt, kernel, bias);
    let mega = im2col(input, case.batch, case.channels, case.h, case.w, case.kh, case.kw, case.group);
    conv.conv_gemm(&mega).unwrap()
}

fn nhwc_to_nchw(t: &Tensor) -> Vec<i64> {
    let (b, h, w, c) = (t.shape[0], t.shape[1], t.shape[2], t.shape[3]);
    let mut out = vec![0; t.data.len()];
    for bi in 0..b {
        for y in 0..h {
            for x in 0..w {
                for ci in 0..c {
                    out[((bi * c + ci) * h + y) * w + x] = t.data[((bi * h + y) * w + x) * c + ci];
                }
            }
        }
    }
    out
}

#[test]
fn single_group_single_batch_matches_direct_convolution() {
    for seed in 1..6 {
        let case = Case { batch: 1, channels: 2, h: 5, w: 4, co: 3, kh: 3, kw: 2, group: 1 };
        let input = pseudo_random(case.batch * case.channels * case.h * case.w, seed);
        let kernel = pseudo_random(case.co * case.channels * case.kh * case.kw, seed + 100);
        let out = run(&case, DataFormat::NCHW, &input, &kernel, None);
        assert_eq!(out.shape, vec![1, 3, 3, 3]);
        assert_eq!(out.data, naive_conv(&input, &kernel, 1, 2, 5, 4, 3, 3, 2, 1));
    }
}

#[test]
fn grouped_batched_matches_direct_convolution() {
    let case = Case { batch: 2, channels: 4, h: 4, w: 4, co: 6, kh: 2, kw: 2, group: 2 };
    let input = pseudo_random(2 * 4 * 4 * 4, 7);
    let kernel = pseudo_random(6 * 2 * 2 * 2, 8);
    let out = run(&case, DataFormat::NCHW, &input, &kernel, None);
    assert_eq!(out.data, naive_conv(&input, &kernel, 2, 4, 4, 4, 6, 2, 2, 2));
}

#[test]
fn identity_kernel_on_four_by_four() {
    let case = Case { batch: 1, channels: 1, h: 4, w: 4, co: 1, kh: 3, kw: 3, group: 1 };
    let input: Vec<i64> = (1..=16).collect();
    let kernel = vec![0, 0, 0, 0, 1, 0, 0, 0, 0];
    let out = run(&case, DataFormat::NCHW, &input, &kernel, None);
    assert_eq!(out.shape, vec![1, 1, 2, 2]);
    assert_eq!(out.data, vec![6, 7, 10, 11]);
}

#[test]
fn ones_kernel_on_four_by_four() {
    let case = Case { batch: 1, channels: 1, h: 4, w: 4, co: 1, kh: 3, kw: 3, group: 1 };
    let input: Vec<i64> = (1..=16).collect();
    let kernel = vec![1; 9];
    let out = run(&case, DataFormat::NCHW, &input, &kernel, None);
    assert_eq!(out.data, vec![54, 63, 90, 99]);
}

#[test]
fn group_partition_is_isolated() {
    let case = Case { batch: 1, channels: 4, h: 3, w: 3, co: 4, kh: 2, kw: 2, group: 2 };
    let input = pseudo_random(4 * 3 * 3, 3);
    let kernel = pseudo_random(4 * 2 * 2 * 2, 4);
    let base = run(&case, DataFormat::NCHW, &input, &kernel, None);
    let mut input2 = input.clone();
    for v in input2[2 * 9..].iter_mut() {
        *v += 5;
    }
    let mut kernel2 = kernel.clone();
    for v in kernel2[2 * 8..].iter_mut() {
        *v -= 3;
    }
    let other = run(&case, DataFormat::NCHW, &input2, &kernel2, None);
    let per_group = 2 * 2 * 2;
    assert_eq!(base.data[..per_group], other.data[..per_group]);
    assert_ne!(base.data[per_group..], other.data[per_group..]);
}

#[test]
fn batch_element_is_isolated() {
    let case = Case { batch: 3, channels: 2, h: 3, w: 3, co: 2, kh: 2, kw: 2, group: 1 };
    let input = pseudo_random(3 * 2 * 9, 5);
    let kernel = pseudo_random(2 * 2 * 4, 6);
    let base = run(&case, DataFormat::NCHW, &input, &kernel, None);
    let mut input2 = input.clone();
    for v in input2[..18].iter_mut() {
        *v = 42;
    }
    for v in input2[36..].iter_mut() {
        *v = -7;
    }
    let other = run(&case, DataFormat::NCHW, &input2, &kernel, None);
    let per_batch = 2 * 2 * 2;
    assert_eq!(base.data[per_batch..2 * per_batch], other.data[per_batch..2 * per_batch]);
    assert_ne!(base.data[..per_batch], other.data[..per_batch]);
}

#[test]
fn channel_last_equals_channel_first() {
    let case = Case { batch: 2, channels: 4, h: 4, w: 3, co: 4, kh: 2, kw: 2, group: 2 };
    let input = pseudo_random(2 * 4 * 4 * 3, 11);
    let kernel = pseudo_random(4 * 2 * 2 * 2, 12);
    let first = run(&case, DataFormat::NCHW, &input, &kernel, None);
    let last = run(&case, DataFormat::NHWC, &input, &kernel, None);
    assert_eq!(last.shape, vec![2, 3, 2, 4]);
    assert_eq!(nhwc_to_nchw(&last), first.data);
}

#[test]
fn zero_bias_leaves_output_unchanged() {
    let case = Case { batch: 1, channels: 2, h: 3, w: 3, co: 2, kh: 2, kw: 2, group: 1 };
    let input = pseudo_random(2 * 9, 13);
    let kernel = pseudo_random(2 * 2 * 4, 14);
    let plain = run(&case, DataFormat::NCHW, &input, &kernel, None);
    let zero = Tensor { shape: vec![1, 2, 1, 1], data: vec![0, 0] };
    let biased = run(&case, DataFormat::NCHW, &input, &kernel, Some(zero));
    assert_eq!(plain.data, biased.data);
}

#[test]
fn bias_add_then_subtract_restores_output() {
    let case = Case { batch: 2, channels: 2, h: 3, w: 3, co: 2, kh: 2, kw: 2, group: 1 };
    let input = pseudo_random(2 * 2 * 9, 15);
    let kernel = pseudo_random(2 * 2 * 4, 16);
    let plain = run(&case, DataFormat::NCHW, &input, &kernel, None);
    let bias = Tensor { shape: vec![1, 2, 1, 1], data: vec![10, -20] };
    let biased = run(&case, DataFormat::NCHW, &input, &kernel, Some(bias));
    for j in 0..plain.data.len() {
        let channel = (j / 4) % 2;
        let b = if channel == 0 { 10 } else { -20 };
        assert_eq!(biased.data[j], plain.data[j] + b);
        assert_eq!(biased.data[j] - b, plain.data[j]);
    }
}

#[test]
fn channel_last_bias_broadcasts_over_channels() {
    let case = Case { batch: 1, channels: 1, h: 3, w: 3, co: 2, kh: 2, kw: 2, group: 1 };
    let input = vec![0; 9];
    let kernel = vec![0; 2 * 4];
    let bias = Tensor { shape: vec![1, 1, 1, 2], data: vec![3, 4] };
    let out = run(&case, DataFormat::NHWC, &input, &kernel, Some(bias));
    assert_eq!(out.data, vec![3, 4, 3, 4, 3, 4, 3, 4]);
}

#[test]
fn full_shape_bias_is_added_elementwise() {
    let case = Case { batch: 1, channels: 1, h: 3, w: 3, co: 1, kh: 2, kw: 2, group: 1 };
    let input = vec![1; 9];
    let kernel = vec![1; 4];
    let bias = Tensor { shape: vec![1, 1, 2, 2], data: vec![1, 2, 3, 4] };
    let out = run(&case, DataFormat::NCHW, &input, &kernel, Some(bias));
    assert_eq!(out.data, vec![5, 6, 7, 8]);
}

#[test]
fn channel_count_mismatch_is_rejected() {
    let r = ConvGemm::new(
        patch(DataFormat::NCHW, vec![1, 1, 4, 4]),
        vec![1, 3, 2, 2],
        1,
        9,
        4,
        KernelFormat::OIHW,
        Matrix { rows: 2, cols: 9, data: vec![0; 18] },
        None,
        2,
    );
    assert_eq!(r.unwrap_err(), ConvError::ShapeMismatch);
}

#[test]
fn spatial_size_mismatch_is_rejected() {
    let r = ConvGemm::new(
        patch(DataFormat::NCHW, vec![1, 1, 4, 4]),
        vec![1, 1, 2, 2],
        1,
        9,
        5,
        KernelFormat::OIHW,
        Matrix { rows: 1, cols: 9, data: vec![0; 9] },
        None,
        1,
    );
    assert_eq!(r.unwrap_err(), ConvError::ShapeMismatch);
}

#[test]
fn unbroadcastable_bias_is_rejected() {
    let r = ConvGemm::new(
        patch(DataFormat::NCHW, vec![1, 1, 4, 4]),
        vec![1, 1, 2, 2],
        1,
        9,
        4,
        KernelFormat::OIHW,
        Matrix { rows: 1, cols: 9, data: vec![0; 9] },
        Some(Tensor { shape: vec![1, 1, 3, 1], data: vec![0; 3] }),
        1,
    );
    assert_eq!(r.unwrap_err(), ConvError::ShapeMismatch);
}

#[test]
fn mega_matrix_with_wrong_columns_is_rejected() {
    let case = Case { batch: 1, channels: 1, h: 4, w: 4, co: 1, kh: 3, kw: 3, group: 1 };
    let conv = build(&case, DataFormat::NCHW, &[1; 9], None);
    let mega = Matrix { rows: 9, cols: 5, data: vec![0; 45] };
    assert_eq!(conv.conv_gemm(&mega).unwrap_err(), ConvError::ShapeMismatch);
    let short = Matrix { rows: 8, cols: 4, data: vec![0; 32] };
    assert_eq!(conv.conv_gemm(&short).unwrap_err(), ConvError::ShapeMismatch);
}

#[test]
fn overflow_is_reported() {
    let case = Case { batch: 1, channels: 1, h: 3, w: 3, co: 1, kh: 2, kw: 2, group: 1 };
    let conv = build(&case, DataFormat::NCHW, &[i64::MAX / 2; 4], None);
    let mega = Matrix { rows: 4, cols: 4, data: vec![1; 16] };
    assert_eq!(conv.conv_gemm(&mega).unwrap_err(), ConvError::Overflow);
}

#[test]
fn bias_overflow_is_reported() {
    let case = Case { batch: 1, channels: 1, h: 3, w: 3, co: 1, kh: 2, kw: 2, group: 1 };
    let bias = Tensor { shape: vec![1, 1, 1, 1], data: vec![i64::MAX] };
    let conv = build(&case, DataFormat::NCHW, &[1; 4], Some(bias));
    let mega = Matrix { rows: 4, cols: 4, data: vec![1; 16] };
    assert_eq!(conv.conv_gemm(&mega).unwrap_err(), ConvError::Overflow);
}

#[test]
fn eval_runs_on_single_rank_two_input() {
    let case = Case { batch: 1, channels: 1, h: 4, w: 4, co: 1, kh: 3, kw: 3, group: 1 };
    let input: Vec<i64> = (1..=16).collect();
    let conv = build(&case, DataFormat::NCHW, &[0, 0, 0, 0, 1, 0, 0, 0, 0], None);
    let mega = im2col(&input, 1, 1, 4, 4, 3, 3, 1);
    let t = Tensor { shape: vec![mega.rows, mega.cols], data: mega.data };
    let out = conv.eval(vec![t]).unwrap();
    assert_eq!(out.len(), 1);
    assert_eq!(out[0].data, vec![6, 7, 10, 11]);
}

#[test]
fn eval_rejects_wrong_input_count_and_rank() {
    let case = Case { batch: 1, channels: 1, h: 4, w: 4, co: 1, kh: 3, kw: 3, group: 1 };
    let conv = build(&case, DataFormat::NCHW, &[1; 9], None);
    assert_eq!(conv.eval(vec![]).unwrap_err(), ConvError::InputCount);
    let t = Tensor { shape: vec![9, 4], data: vec![0; 36] };
    assert_eq!(conv.eval(vec![t.clone(), t]).unwrap_err(), ConvError::InputCount);
    let r3 = Tensor { shape: vec![1, 9, 4], data: vec![0; 36] };
    assert_eq!(conv.eval(vec![r3]).unwrap_err(), ConvError::ShapeMismatch);
}

#[test]
fn name_and_rules() {
    let case = Case { batch: 1, channels: 1, h: 4, w: 4, co: 1, kh: 3, kw: 3, group: 1 };
    let conv = build(&case, DataFormat::NCHW, &[1; 9], None);
    assert_eq!(conv.name(), "ConvGemm");
    let rules = conv.rules();
    assert_eq!(rules.inputs_len, 1);
    assert_eq!(rules.outputs_len, 1);
    assert_eq!(rules.input_datum_type, DatumType::I64);
    assert_eq!(rules.output_datum_type, DatumType::I64);
    assert_eq!(rules.output_shape, vec![1, 1, 2, 2]);
}

#[test]
fn per_channel_bias_of_lower_rank_broadcasts_channel_last() {
    let case = Case { batch: 1, channels: 1, h: 3, w: 3, co: 2, kh: 2, kw: 2, group: 1 };
    let input = vec![1; 9];
    let kernel = vec![1, 1, 1, 1, 0, 0, 0, 0];
    let bias = Tensor { shape: vec![2], data: vec![10, 20] };
    let out = run(&case, DataFormat::NHWC, &input, &kernel, Some(bias));
    assert_eq!(out.data, vec![14, 20, 14, 20, 14, 20, 14, 20]);
}

#[test]
fn single_value_bias_of_lower_rank_broadcasts_channel_first() {
    let case = Case { batch: 1, channels: 1, h: 3, w: 3, co: 1, kh: 2, kw: 2, group: 1 };
    let input: Vec<i64> = (1..=9).collect();
    let kernel = vec![0, 0, 0, 1];
    let bias = Tensor { shape: vec![1], data: vec![100] };
    let out = run(&case, DataFormat::NCHW, &input, &kernel, Some(bias));
    assert_eq!(out.shape, vec![1, 1, 2, 2]);
    assert_eq!(out.data, vec![105, 106, 108, 109]);
}

#[test]
fn scalar_bias_broadcasts_everywhere() {
    let case = Case { batch: 1, channels: 1, h: 3, w: 3, co: 1, kh: 2, kw: 2, group: 1 };
    let input = vec![0; 9];
    let kernel = vec![0; 4];
    let bias = Tensor { shape: vec![], data: vec![-3] };
    let out = run(&case, DataFormat::NHWC, &input, &kernel, Some(bias));
    assert_eq!(out.data, vec![-3, -3, -3, -3]);
}

#[test]
fn bias_with_more_axes_than_output_is_rejected() {
    let r = ConvGemm::new(
        patch(DataFormat::NCHW, vec![1, 1, 4, 4]),
        vec![1, 1, 2, 2],
        1,
        9,
        4,
        KernelFormat::OIHW,
        Matrix { rows: 1, cols: 9, data: vec![0; 9] },
        Some(Tensor { shape: vec![1, 1, 1, 1, 1], data: vec![0] }),
        1,
    );
    assert_eq!(r.unwrap_err(), ConvError::ShapeMismatch);
}

#[test]
fn rank_two_output_without_spatial_axes() {
    let conv = ConvGemm::new(
        patch(DataFormat::NCHW, vec![2, 3]),
        vec![2, 4],
        2,
        3,
        1,
        KernelFormat::OIHW,
        Matrix { rows: 4, cols: 3, data: vec![1, 0, 0, 0, 1, 0, 0, 0, 1, 1, 1, 1] },
        None,
        2,
    )
    .unwrap();
    // columns: (batch 0, group 0), (batch 0, group 1), (batch 1, group 0), (batch 1, group 1)
    let mega = Matrix { rows: 3, cols: 4, data: vec![1, 2, 3, 4, 5, 6, 7, 8, 9, 10, 11, 12] };
    let out = conv.conv_gemm(&mega).unwrap();
    assert_eq!(out.shape, vec![2, 4]);
    assert_eq!(out.data, vec![1, 5, 10, 18, 3, 7, 12, 24]);
}

#[test]
fn spatial_first_kernel_format_is_rejected() {
    let r = ConvGemm::new(
        patch(DataFormat::NCHW, vec![1, 1, 4, 4]),
        vec![1, 1, 2, 2],
        1,
        9,
        4,
        KernelFormat::HWIO,
        Matrix { rows: 1, cols: 9, data: vec![0; 9] },
        None,
        1,
    );
    assert_eq!(r.unwrap_err(), ConvError::ShapeMismatch);
}
