use ru_ne_vis::{extract_slice, parse_slice_arg, resolve_slice_ranges, slice_axis, DimensionInfo, NDArray, RuNeVisError};

fn dim(name: &str, length: usize) -> DimensionInfo {
    DimensionInfo { name: name.to_string(), length, is_unlimited: false }
}

fn cube() -> (Vec<DimensionInfo>, NDArray<f32>) {
    let dims = vec![dim("x", 3), dim("y", 4), dim("z", 5)];
    let data: Vec<f32> = (0..60).map(|i| i as f32).collect();
    (dims, NDArray::from_shape_vec(vec![3, 4, 5], data).unwrap())
}

#[test]
fn test_netcdf_slicing() {
    let (dims, arr) = cube();
    assert_eq!(dims.len(), 3);
    assert_eq!(dims[0].name, "x");
    assert_eq!(dims[1].name, "y");
    assert_eq!(dims[2].name, "z");
    assert_eq!(arr.shape(), &vec![3, 4, 5]);
    assert_eq!(arr.len(), 60);
    assert_eq!(arr.data()[0], 0.0);
    assert_eq!(arr.data()[59], 59.0);
}

#[test]
fn first_axis_slice() {
    let (dims, arr) = cube();
    let spec = parse_slice_arg("data:0:2").unwrap();
    let out = extract_slice(&arr, &dims, &spec).unwrap();
    assert_eq!(out.shape(), &vec![2, 4, 5]);
    assert_eq!(out.len(), 40);
    assert_eq!(out.data()[39], 39.0);
}

#[test]
fn multi_axis_slice() {
    let (dims, arr) = cube();
    let spec = parse_slice_arg("data:1:3,z:2:4,y:3:4").unwrap();
    let out = extract_slice(&arr, &dims, &spec).unwrap();
    assert_eq!(out.shape(), &vec![2, 1, 2]);
    assert_eq!(out.data(), &vec![37.0, 38.0, 57.0, 58.0]);
}

#[test]
fn middle_axis_slice() {
    let arr = NDArray::from_shape_vec(vec![2, 3, 2], (0..12).collect::<Vec<i32>>()).unwrap();
    let out = slice_axis(&arr, 1, 1, 3);
    assert_eq!(out.shape(), &vec![2, 2, 2]);
    assert_eq!(out.data(), &vec![2, 3, 4, 5, 8, 9, 10, 11]);
}

#[test]
fn invalid_ranges_are_refused() {
    let (dims, arr) = cube();
    for text in ["data:2:2", "data:3:4", "data:0:4", "data:0:1,z:0:6"] {
        let spec = parse_slice_arg(text).unwrap();
        let r = extract_slice(&arr, &dims, &spec);
        assert!(matches!(r, Err(RuNeVisError::InvalidSlice { .. })), "{}", text);
    }
    let spec = parse_slice_arg("data:1:2,w:0:9").unwrap();
    let ranges = resolve_slice_ranges(&spec, &dims).unwrap();
    assert_eq!(ranges, vec![(1, 2), (0, 4), (0, 5)]);
    match resolve_slice_ranges(&parse_slice_arg("data:3:4").unwrap(), &dims) {
        Err(RuNeVisError::InvalidSlice { message }) => {
            assert_eq!(message, "Invalid slice range for dimension 'x': 3:4 (dimension size: 3)");
        }
        _ => panic!("expected InvalidSlice"),
    }
}
