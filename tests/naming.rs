use ru_ne_vis::{
    derived_name, element_size, history_now, pool_setup_result, fill_value_index, get_parallel_info, get_variable_metadata,
    history_note, parse_mean_arg, parse_slice_arg, parse_usize, partition_attributes,
    select_command, split_at_char, Args, Attribute, AttributeValue, Command, DimensionInfo,
    NetCDFWriter, ParallelConfig, RuNeVisError, StatOperation,
};

#[test]
fn test_error_types() {
    let generic_err = RuNeVisError::Generic("Test error".to_string());
    assert_eq!(generic_err.message(), "Test error");

    let var_err = RuNeVisError::VariableNotFound { var: "temp".to_string() };
    assert!(var_err.message().contains("Variable 'temp' not found"));

    let dim_err = RuNeVisError::DimensionNotFound { var: "temp".to_string(), dim: "time".to_string() };
    assert!(dim_err.message().contains("Dimension 'time' not found in variable 'temp'"));
}

#[test]
fn test_parallel_config() {
    let default_config = ParallelConfig::new_default();
    assert!(default_config.num_threads.is_none());

    let config_4 = ParallelConfig::with_threads(4);
    assert_eq!(config_4.num_threads, Some(4));

    let all_cores_config = ParallelConfig::all_cores();
    assert!(all_cores_config.num_threads.is_some());
    assert!(all_cores_config.num_threads.unwrap() > 0);

    let current = default_config.current_threads();
    assert!(current > 0);
}

#[test]
fn test_parallel_info() {
    let parallelism = num_cpus::get();
    let info = get_parallel_info(parallelism);
    assert!(info.current_threads > 0);
    assert!(info.available_cores > 0);
    assert!(info.available_parallelism > 0);
}

#[test]
fn test_stat_operation() {
    assert_eq!(StatOperation::Mean, StatOperation::Mean);
    assert_ne!(StatOperation::Mean, StatOperation::Sum);
    let mean_op = StatOperation::Mean;
    assert_eq!(format!("{:?}", mean_op), "Mean");
}

#[test]
fn zero_threads_are_refused() {
    let r = ParallelConfig::with_threads(0).setup_global_pool();
    assert!(matches!(r, Err(RuNeVisError::ThreadPoolError(_))));
    assert!(ParallelConfig::new(None).setup_global_pool().is_ok());
    assert_eq!(ParallelConfig::with_threads(3).workers(), 3);
    assert!(ParallelConfig::default().num_threads.is_none());
}

#[test]
fn derived_name_format() {
    assert_eq!(derived_name("temperature", StatOperation::Mean, "time"), "temperature_mean_over_time");
    assert_eq!(derived_name("t", StatOperation::Sum, "x"), "t_sum_over_x");
    assert_eq!(derived_name("t", StatOperation::Min, "x"), "t_minimum_over_x");
    assert_eq!(derived_name("t", StatOperation::Max, "x"), "t_maximum_over_x");
    assert_eq!(StatOperation::Max.as_str(), "maximum");
}

#[test]
fn mean_argument_parsing() {
    assert_eq!(parse_mean_arg("temp:time").unwrap(), ("temp".to_string(), "time".to_string()));
    assert_eq!(
        parse_mean_arg("temp").unwrap_err(),
        "Invalid format: Expected '<variable>:<dimension>'."
    );
    assert!(parse_mean_arg("a:b:c").is_err());
    assert_eq!(parse_mean_arg(":").unwrap(), (String::new(), String::new()));
}

#[test]
fn slice_argument_parsing() {
    let spec = parse_slice_arg("data:0:2,y:1:3").unwrap();
    assert_eq!(spec.variable, "data");
    assert_eq!(spec.slices.len(), 2);
    assert_eq!(spec.slices[0].dimension, "__first_dim__");
    assert_eq!((spec.slices[0].start, spec.slices[0].end), (0, 2));
    assert_eq!(spec.slices[1].dimension, "y");
    assert_eq!((spec.slices[1].start, spec.slices[1].end), (1, 3));

    assert_eq!(
        parse_slice_arg("data:0").unwrap_err(),
        "Invalid format: Expected 'variable:start:end,dimension:start:end'"
    );
    assert_eq!(parse_slice_arg("data:x:2").unwrap_err(), "Invalid start index for variable");
    assert_eq!(parse_slice_arg("data:0:-2").unwrap_err(), "Invalid end index for variable");
    assert_eq!(
        parse_slice_arg("data:0:2,y:1").unwrap_err(),
        "Invalid dimension slice format: Expected 'dimension:start:end'"
    );
    assert_eq!(parse_slice_arg("data:0:2,y:a:3").unwrap_err(), "Invalid start index for dimension 'y'");
    assert_eq!(parse_slice_arg("data:0:2,y:1:b").unwrap_err(), "Invalid end index for dimension 'y'");
}

#[test]
fn unsigned_number_reading() {
    assert_eq!(parse_usize("42"), Some(42));
    assert_eq!(parse_usize("+7"), Some(7));
    assert_eq!(parse_usize(""), None);
    assert_eq!(parse_usize("+"), None);
    assert_eq!(parse_usize("-1"), None);
    assert_eq!(parse_usize("18446744073709551615"), Some(usize::MAX));
    assert_eq!(parse_usize("18446744073709551616"), None);
}

#[test]
fn splitting_keeps_empty_pieces() {
    assert_eq!(split_at_char("a::b:", ':'), vec!["a", "", "b", ""]);
    assert_eq!(split_at_char("", ':'), vec![""]);
}

#[test]
fn element_sizes() {
    assert_eq!(element_size("double"), 8);
    assert_eq!(element_size("float"), 4);
    assert_eq!(element_size("uint"), 4);
    assert_eq!(element_size("short"), 2);
    assert_eq!(element_size("char"), 4);
}

fn dim(name: &str, length: usize) -> DimensionInfo {
    DimensionInfo { name: name.to_string(), length, is_unlimited: false }
}

#[test]
fn variable_metadata() {
    let dims = vec![dim("time", 4), dim("lat", 3), dim("lon", 2)];
    let attrs = vec![Attribute { name: "units".to_string(), value: AttributeValue::Str("degrees_C".to_string()) }];
    let m = get_variable_metadata("temperature", "double".to_string(), dims, attrs).unwrap();
    assert_eq!(m.name, "temperature");
    assert_eq!(m.total_elements, 24);
    assert_eq!(m.estimated_size_bytes, 192);
    let scalar = get_variable_metadata("scalar", "float".to_string(), vec![], vec![]).unwrap();
    assert_eq!(scalar.total_elements, 1);
    assert_eq!(scalar.estimated_size_bytes, 4);
    let huge = get_variable_metadata("h", "double".to_string(), vec![dim("a", usize::MAX / 4)], vec![]);
    assert!(matches!(huge, Err(RuNeVisError::Generic(_))));
}

fn attr(name: &str, value: AttributeValue) -> Attribute {
    Attribute { name: name.to_string(), value }
}

#[test]
fn attribute_policy() {
    let attrs = vec![
        attr("units", AttributeValue::Str("degrees_C".to_string())),
        attr("_FillValue", AttributeValue::Float((-999.0f32).to_bits())),
        attr("flags", AttributeValue::Uchars(vec![1, 2])),
        attr("scale", AttributeValue::Double(2.0f64.to_bits())),
    ];
    assert_eq!(fill_value_index(&attrs), Some(1));
    let (copied, skipped) = partition_attributes(&attrs);
    assert_eq!(copied, vec![0, 3]);
    assert_eq!(skipped, vec![2]);

    let no_fill = vec![attr("_FillValue", AttributeValue::Int(3))];
    assert_eq!(fill_value_index(&no_fill), None);
    assert_eq!(partition_attributes(&no_fill), (vec![], vec![]));
}

#[test]
fn test_netcdf_writer() {
    let input = ();
    let writer = NetCDFWriter::new(&input, "out.nc");
    let attrs = vec![attr("units", AttributeValue::Str("test_units".to_string()))];
    let dims = vec!["x".to_string(), "y".to_string()];
    let plan = writer.plan_result(&vec![2, 3], &dims, "result_var", &attrs, history_note("now"));
    assert_eq!(plan.output_path, "out.nc");
    assert_eq!(plan.variable_name, "result_var");
    assert_eq!(plan.dimensions, vec![("x".to_string(), 2), ("y".to_string(), 3)]);
    assert_eq!(plan.fill_value, None);
    assert_eq!(plan.copied_attributes, vec![0]);
    assert_eq!(plan.history, "Created by RuNeVis on now");
}

fn args() -> Args {
    Args {
        file: "f.nc".to_string(),
        mean: None,
        sum: None,
        min: None,
        max: None,
        output_netcdf: None,
        verbose: false,
        threads: None,
        list_vars: false,
        describe: None,
        summary: None,
        slice: None,
    }
}

#[test]
fn command_selection_order() {
    assert!(matches!(select_command(args()), Command::PrintMetadata));
    let mut a = args();
    a.sum = Some(("v".to_string(), "t".to_string()));
    a.describe = Some("v".to_string());
    match select_command(a) {
        Command::Reduce { operation, variable, dimension } => {
            assert_eq!(operation, StatOperation::Sum);
            assert_eq!(variable, "v");
            assert_eq!(dimension, "t");
        }
        _ => panic!("expected a reduction"),
    }
    let mut b = args();
    b.list_vars = true;
    b.mean = Some(("v".to_string(), "t".to_string()));
    assert!(matches!(select_command(b), Command::ListVariables));
}

#[test]
fn pool_is_configured_once() {
    let config = ParallelConfig::with_threads(2);
    let _first = config.setup_global_pool();
    let second = config.setup_global_pool();
    match second {
        Err(RuNeVisError::ThreadPoolError(msg)) => {
            assert!(msg.starts_with("Failed to initialize thread pool with 2 threads: "));
        }
        _ => panic!("a second setup must fail"),
    }
}

#[test]
fn history_carries_a_timestamp() {
    let h = history_now();
    assert!(h.starts_with("Created by RuNeVis on "));
    assert!(h.len() > "Created by RuNeVis on ".len());
    assert!(ParallelConfig::new_default().workers() >= 1);
}

#[test]
fn refused_build_becomes_pool_error() {
    assert!(pool_setup_result(3, Ok(())).is_ok());
    let _ = rayon::ThreadPoolBuilder::new().num_threads(2).build_global();
    let refused = rayon::ThreadPoolBuilder::new().num_threads(2).build_global();
    assert!(refused.is_err());
    match pool_setup_result(2, refused) {
        Err(RuNeVisError::ThreadPoolError(msg)) => {
            assert!(msg.starts_with("Failed to initialize thread pool with 2 threads: "));
        }
        _ => panic!("a refused build must be a ThreadPoolError"),
    }
}

#[test]
fn history_timestamp_is_utc_rfc3339() {
    let h = history_now();
    assert!(h.ends_with("+00:00"));
    assert_eq!(h.as_bytes()["Created by RuNeVis on ".len() + 10], b'T');
}
