use ru_ne_vis::{
    coords_to_flat, flat_to_coords,
    fold_axis, fold_axis_partitioned, fold_range, kept_names, partition_ranges, plan_reduction,
    DimensionInfo, Lane, NDArray, RuNeVisError, StatOperation, StatResult,
};

fn dim(name: &str, length: usize) -> DimensionInfo {
    DimensionInfo { name: name.to_string(), length, is_unlimited: false }
}

fn lane_values(l: &Lane<'_, f32>) -> Vec<f32> {
    let mut v = Vec::new();
    for j in 0..l.len() {
        v.push(*l.get(j));
    }
    v
}

fn mean_kernel(l: Lane<'_, f32>) -> f32 {
    let mut sum = 0.0f64;
    let mut count = 0u32;
    for x in lane_values(&l) {
        if x.is_finite() {
            sum += x as f64;
            count += 1;
        }
    }
    if count > 0 {
        (sum / count as f64) as f32
    } else {
        f32::NAN
    }
}

fn sum_kernel(l: Lane<'_, f32>) -> f32 {
    lane_values(&l).into_iter().filter(|x| x.is_finite()).fold(0.0f32, |a, x| a + x)
}

fn min_kernel(l: Lane<'_, f32>) -> f32 {
    let m = lane_values(&l).into_iter().filter(|x| x.is_finite()).fold(f32::INFINITY, f32::min);
    if m == f32::INFINITY {
        f32::NAN
    } else {
        m
    }
}

fn max_kernel(l: Lane<'_, f32>) -> f32 {
    let m = lane_values(&l).into_iter().filter(|x| x.is_finite()).fold(f32::NEG_INFINITY, f32::max);
    if m == f32::NEG_INFINITY {
        f32::NAN
    } else {
        m
    }
}

fn at(a: &NDArray<f32>, coords: &[usize]) -> f32 {
    let shape = a.shape();
    let mut flat = 0usize;
    for (i, c) in coords.iter().enumerate() {
        flat = flat * shape[i] + c;
    }
    a.data()[flat]
}

fn reduce(
    var: &str,
    dims: &Vec<DimensionInfo>,
    dim_name: &str,
    op: StatOperation,
    data: Vec<f32>,
) -> Result<(NDArray<f32>, Vec<String>, String), RuNeVisError> {
    let plan = plan_reduction(var, dims, dim_name, op)?;
    let arr = NDArray::from_shape_vec(plan.shape.clone(), data)?;
    let kernel = match op {
        StatOperation::Mean => mean_kernel,
        StatOperation::Sum => sum_kernel,
        StatOperation::Min => min_kernel,
        StatOperation::Max => max_kernel,
    };
    let out = fold_axis(&arr, plan.axis, &kernel)?;
    Ok((out, plan.kept_dimensions, plan.derived_name))
}

fn stats_fixture() -> (Vec<DimensionInfo>, Vec<f32>) {
    let dims = vec![dim("time", 4), dim("lat", 3), dim("lon", 2)];
    let data: Vec<f32> = (1..=24).map(|i| i as f32).collect();
    (dims, data)
}

#[test]
fn test_statistics_comprehensive() {
    let (dims, data) = stats_fixture();
    let (mean_data, kept, var_name) =
        reduce("temperature", &dims, "time", StatOperation::Mean, data.clone()).unwrap();
    assert_eq!(var_name, "temperature_mean_over_time");
    assert_eq!(kept, vec!["lat", "lon"]);
    assert_eq!(mean_data.shape(), &vec![3, 2]);
    assert_eq!(at(&mean_data, &[0, 0]), 10.0);
    assert_eq!(at(&mean_data, &[0, 1]), 11.0);

    let (mean_lat, kept_lat, _) =
        reduce("temperature", &dims, "lat", StatOperation::Mean, data.clone()).unwrap();
    assert_eq!(kept_lat, vec!["time", "lon"]);
    assert_eq!(mean_lat.shape(), &vec![4, 2]);
    assert_eq!(at(&mean_lat, &[0, 0]), 3.0);
    assert_eq!(at(&mean_lat, &[0, 1]), 4.0);

    let result = reduce("temperature", &dims, "invalid_dim", StatOperation::Mean, data);
    assert!(result.is_err());
    match result {
        Err(RuNeVisError::DimensionNotFound { var, dim }) => {
            assert_eq!(var, "temperature");
            assert_eq!(dim, "invalid_dim");
        }
        _ => panic!("Expected DimensionNotFound error"),
    }
}

fn xyz_fixture() -> (Vec<DimensionInfo>, Vec<f32>) {
    let dims = vec![dim("x", 2), dim("y", 3), dim("z", 4)];
    let data: Vec<f32> = (1..=24).map(|i| i as f32).collect();
    (dims, data)
}

#[test]
fn test_reduce_min_max_integration() {
    let (dims, data) = xyz_fixture();
    let (min_x, _, _) = reduce("test_var", &dims, "x", StatOperation::Min, data.clone()).unwrap();
    assert_eq!(min_x.shape(), &vec![3, 4]);
    assert_eq!(at(&min_x, &[0, 0]), 1.0);
    assert_eq!(at(&min_x, &[0, 1]), 2.0);
    assert_eq!(at(&min_x, &[0, 2]), 3.0);
    assert_eq!(at(&min_x, &[0, 3]), 4.0);
    assert_eq!(at(&min_x, &[1, 0]), 5.0);
    assert_eq!(at(&min_x, &[2, 3]), 12.0);

    let (min_y, _, _) = reduce("test_var", &dims, "y", StatOperation::Min, data.clone()).unwrap();
    assert_eq!(min_y.shape(), &vec![2, 4]);
    assert_eq!(at(&min_y, &[0, 0]), 1.0);
    assert_eq!(at(&min_y, &[1, 0]), 13.0);
    assert_eq!(at(&min_y, &[1, 3]), 16.0);

    let (max_z, _, _) = reduce("test_var", &dims, "z", StatOperation::Max, data).unwrap();
    assert_eq!(max_z.shape(), &vec![2, 3]);
    assert_eq!(at(&max_z, &[0, 0]), 4.0);
    assert_eq!(at(&max_z, &[0, 1]), 8.0);
    assert_eq!(at(&max_z, &[0, 2]), 12.0);
    assert_eq!(at(&max_z, &[1, 0]), 16.0);
    assert_eq!(at(&max_z, &[1, 1]), 20.0);
    assert_eq!(at(&max_z, &[1, 2]), 24.0);
}

#[test]
fn test_regression_reduce_functions() {
    let (dims, data) = xyz_fixture();
    let (min_x, _, _) = reduce("test_var", &dims, "x", StatOperation::Min, data.clone()).unwrap();
    assert_eq!(min_x.shape(), &vec![3, 4]);
    assert_eq!(at(&min_x, &[0, 0]), 1.0);
    assert_eq!(at(&min_x, &[0, 1]), 2.0);
    assert_eq!(at(&min_x, &[1, 0]), 5.0);

    let (max_z, _, _) = reduce("test_var", &dims, "z", StatOperation::Max, data).unwrap();
    assert_eq!(max_z.shape(), &vec![2, 3]);
    assert_eq!(at(&max_z, &[0, 0]), 4.0);
    assert_eq!(at(&max_z, &[0, 1]), 8.0);
    assert_eq!(at(&max_z, &[1, 2]), 24.0);
}

#[test]
fn test_edge_cases_and_error_handling() {
    let dims = vec![dim("x", 3), dim("y", 3)];
    let data = vec![1.0, f32::NAN, 3.0, f32::INFINITY, 5.0, f32::NEG_INFINITY, 7.0, 8.0, 9.0];
    let result = reduce("data_with_special_values", &dims, "x", StatOperation::Mean, data);
    assert!(result.is_ok());

    let scalar_result = reduce("scalar", &Vec::new(), "x", StatOperation::Mean, vec![42.0]);
    assert!(scalar_result.is_err());
}

#[test]
fn shape_mismatch_is_refused() {
    let r = NDArray::from_shape_vec(vec![2, 3], vec![0.0f32; 5]);
    assert!(matches!(r, Err(RuNeVisError::ShapeMismatch { data_len: 5 })));
    let ok = NDArray::from_shape_vec(vec![2, 3], vec![0.0f32; 6]).unwrap();
    assert_eq!(ok.len(), 6);
    assert_eq!(ok.ndim(), 2);
    let scalar = NDArray::from_shape_vec(vec![], vec![1u8]).unwrap();
    assert_eq!(scalar.len(), 1);
    let empty = NDArray::<u8>::from_shape_vec(vec![4, 0, 3], vec![]).unwrap();
    assert_eq!(empty.len(), 0);
    let huge = NDArray::<u8>::from_shape_vec(vec![usize::MAX, 2], vec![]);
    assert!(matches!(huge, Err(RuNeVisError::ShapeMismatch { data_len: 0 })));
}

#[test]
fn reduction_removes_exactly_the_axis() {
    let arr = NDArray::from_shape_vec(vec![2, 3, 4, 5], (0..120).collect::<Vec<i64>>()).unwrap();
    let sum = |l: Lane<'_, i64>| (0..l.len()).map(|j| *l.get(j)).sum::<i64>();
    for axis in 0..4 {
        let out = fold_axis(&arr, axis, &sum).unwrap();
        let mut expected = vec![2, 3, 4, 5];
        expected.remove(axis);
        assert_eq!(out.shape(), &expected);
        assert_eq!(out.ndim(), 3);
    }
    let err = fold_axis(&arr, 4, &sum);
    assert!(matches!(err, Err(RuNeVisError::AxisOutOfBounds { axis: 4, ndim: 4 })));
}

#[test]
fn integer_sum_along_middle_axis() {
    let arr = NDArray::from_shape_vec(vec![2, 3, 2], (0..12).collect::<Vec<i64>>()).unwrap();
    let sum = |l: Lane<'_, i64>| (0..l.len()).map(|j| *l.get(j)).sum::<i64>();
    let out = fold_axis(&arr, 1, &sum).unwrap();
    assert_eq!(out.shape(), &vec![2, 2]);
    assert_eq!(out.data(), &vec![6, 9, 24, 27]);
}

#[test]
fn reducing_only_axis_gives_scalar() {
    let arr = NDArray::from_shape_vec(vec![4], vec![1.0f32, 2.0, 3.0, 4.0]).unwrap();
    let out = fold_axis(&arr, 0, &sum_kernel).unwrap();
    assert_eq!(out.shape(), &Vec::<usize>::new());
    assert_eq!(out.data(), &vec![10.0f32]);
}

#[test]
fn empty_axis_gives_kernel_empty_case() {
    let arr = NDArray::<f32>::from_shape_vec(vec![3, 0], vec![]).unwrap();
    let out = fold_axis(&arr, 1, &min_kernel).unwrap();
    assert_eq!(out.shape(), &vec![3]);
    assert!(out.data().iter().all(|x| x.is_nan()));
    let sums = fold_axis(&arr, 1, &sum_kernel).unwrap();
    assert_eq!(sums.data(), &vec![0.0f32; 3]);
}

#[test]
fn non_finite_values_are_skipped() {
    let data = vec![1.0f32, f32::NAN, 3.0, f32::INFINITY, 5.0, f32::NEG_INFINITY];
    let arr = NDArray::from_shape_vec(vec![6], data).unwrap();
    assert_eq!(fold_axis(&arr, 0, &sum_kernel).unwrap().data(), &vec![9.0f32]);
    assert_eq!(fold_axis(&arr, 0, &min_kernel).unwrap().data(), &vec![1.0f32]);
    assert_eq!(fold_axis(&arr, 0, &max_kernel).unwrap().data(), &vec![5.0f32]);
    assert_eq!(fold_axis(&arr, 0, &mean_kernel).unwrap().data(), &vec![3.0f32]);
}

#[test]
fn all_invalid_axis() {
    let arr = NDArray::from_shape_vec(vec![3], vec![f32::NAN; 3]).unwrap();
    assert!(fold_axis(&arr, 0, &min_kernel).unwrap().data()[0].is_nan());
    assert!(fold_axis(&arr, 0, &max_kernel).unwrap().data()[0].is_nan());
    assert!(fold_axis(&arr, 0, &mean_kernel).unwrap().data()[0].is_nan());
    assert_eq!(fold_axis(&arr, 0, &sum_kernel).unwrap().data(), &vec![0.0f32]);
}

#[test]
fn partitioned_fold_matches_single_worker() {
    let data: Vec<f32> = (0..210).map(|i| (i as f32) * 0.37 - 11.0).collect();
    let arr = NDArray::from_shape_vec(vec![5, 6, 7], data).unwrap();
    for axis in 0..3 {
        let one = fold_axis_partitioned(&arr, axis, &mean_kernel, 1).unwrap();
        for workers in [0, 2, 3, 8, 64] {
            let many = fold_axis_partitioned(&arr, axis, &mean_kernel, workers).unwrap();
            assert_eq!(one.shape(), many.shape());
            let a: Vec<u32> = one.data().iter().map(|x| x.to_bits()).collect();
            let b: Vec<u32> = many.data().iter().map(|x| x.to_bits()).collect();
            assert_eq!(a, b);
        }
        let whole = fold_axis(&arr, axis, &mean_kernel).unwrap();
        assert_eq!(whole.data(), one.data());
    }
}

#[test]
fn fold_range_covers_its_cells() {
    let arr = NDArray::from_shape_vec(vec![2, 3, 2], (0..12).collect::<Vec<i64>>()).unwrap();
    let first = |l: Lane<'_, i64>| *l.get(0);
    assert_eq!(fold_range(&arr, 1, 1, 3, &first), vec![1, 6]);
}

#[test]
fn partition_ranges_split_evenly() {
    assert_eq!(partition_ranges(10, 3), vec![(0, 4), (4, 7), (7, 10)]);
    assert_eq!(partition_ranges(10, 6), vec![(0, 2), (2, 4), (4, 6), (6, 8), (8, 9), (9, 10)]);
    assert_eq!(partition_ranges(10, 0), vec![(0, 10)]);
    assert_eq!(partition_ranges(2, 5), vec![(0, 1), (1, 2)]);
    assert_eq!(partition_ranges(0, 4), Vec::<(usize, usize)>::new());
}

#[test]
fn kept_names_preserve_order() {
    let names: Vec<String> = ["a", "b", "c", "d"].iter().map(|s| s.to_string()).collect();
    assert_eq!(kept_names(&names, 1), vec!["a", "c", "d"]);
    assert_eq!(kept_names(&names, 3), vec!["a", "b", "c"]);
}

#[test]
fn mean_over_time_scenario() {
    let (dims, data) = stats_fixture();
    let (out, kept, _) = reduce("temperature", &dims, "time", StatOperation::Mean, data).unwrap();
    assert_eq!(out.shape(), &vec![3, 2]);
    assert_eq!(kept, vec!["lat", "lon"]);
    assert_eq!(at(&out, &[0, 0]), 10.0);
    assert_eq!(out.data(), &vec![10.0, 11.0, 12.0, 13.0, 14.0, 15.0]);
}

#[test]
fn bogus_dimension_is_reported() {
    let dims = vec![dim("x", 2), dim("y", 2)];
    let r = plan_reduction("field", &dims, "bogus", StatOperation::Sum);
    match r {
        Err(RuNeVisError::DimensionNotFound { var, dim }) => {
            assert_eq!(var, "field");
            assert_eq!(dim, "bogus");
        }
        _ => panic!("Expected DimensionNotFound error"),
    }
}

#[test]
fn first_dimension_of_a_repeated_name_wins() {
    let dims = vec![dim("x", 2), dim("t", 3), dim("t", 4)];
    let plan = plan_reduction("v", &dims, "t", StatOperation::Max).unwrap();
    assert_eq!(plan.axis, 1);
    assert_eq!(plan.shape, vec![2, 3, 4]);
    assert_eq!(plan.kept_dimensions, vec!["x", "t"]);
    assert_eq!(plan.derived_name, "v_maximum_over_t");
}

#[test]
fn stat_result_reports_its_shape() {
    let arr = NDArray::from_shape_vec(vec![2, 2], vec![1i32, 2, 3, 4]).unwrap();
    let r = StatResult::new(
        arr,
        vec!["a".to_string(), "b".to_string()],
        StatOperation::Min,
        "v".to_string(),
        "t".to_string(),
    );
    assert_eq!(r.shape(), &vec![2, 2]);
    assert_eq!(r.ndim(), 2);
    assert_eq!(r.derived_name(), "v_minimum_over_t");
}

#[test]
fn coordinate_codec_round_trip() {
    let shape = vec![4usize, 3, 2];
    assert_eq!(flat_to_coords(&shape, 0), vec![0, 0, 0]);
    assert_eq!(flat_to_coords(&shape, 7), vec![1, 0, 1]);
    assert_eq!(flat_to_coords(&shape, 23), vec![3, 2, 1]);
    assert_eq!(coords_to_flat(&shape, &vec![2, 1, 0]), 14);
    for f in 0..24 {
        assert_eq!(coords_to_flat(&shape, &flat_to_coords(&shape, f)), f);
    }
    assert_eq!(flat_to_coords(&Vec::new(), 0), Vec::<usize>::new());
}
