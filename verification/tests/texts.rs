use svod_tensor::device::{DeviceSpec, ScalarDType};
use svod_tensor::error::{BeamWorker, Error};
use svod_tensor::text::{
    dec_int_string, dec_list64_string, dec_list_string, dec_option_string, dec_string, parse_usize,
};

#[test]
fn numbers_are_written_in_decimal() {
    for n in [0, 1, 9, 10, 99, 100, 12345, u64::MAX] {
        assert_eq!(dec_string(n), format!("{n}"));
    }
    for n in [0, 1, -1, -10, i64::MAX, i64::MIN] {
        assert_eq!(dec_int_string(n), format!("{n}"));
    }
    for list in [vec![], vec![0], vec![1, 20, 300]] {
        assert_eq!(dec_list_string(&list), format!("{list:?}"));
    }
    for list in [vec![], vec![u64::MAX, 0]] {
        assert_eq!(dec_list64_string(&list), format!("{list:?}"));
    }
    for option in [None, Some(0), Some(42)] {
        assert_eq!(dec_option_string(option), format!("{option:?}"));
    }
}

#[test]
fn numbers_are_read_as_std_reads_them() {
    for text in [
        "", "0", "00", "7", "007", "+5", "+", "-1", "-0", " 1", "1 ", "12a", "18446744073709551615",
        "18446744073709551616", "99999999999999999999999", "1_000", "0x10", "\u{0661}",
    ] {
        assert_eq!(parse_usize(text), text.parse::<usize>().ok(), "{text:?}");
    }
}

#[test]
fn errors_say_what_failed() {
    assert_eq!(
        Error::BatchOutputMismatch { expected: 2, actual: 3 }.to_string(),
        "batch output mismatch: expected 2, got 3"
    );
    assert_eq!(Error::BufferNotFound { uop_id: 12 }.to_string(), "buffer not found for uop 12");
    assert_eq!(
        Error::ReshapeMismatch { elements: 6, shape: vec![2, 4] }.to_string(),
        "cannot reshape 6 elements to [2, 4]"
    );
    let construction = Error::IrConstruction { details: "x".to_string() };
    assert_eq!(construction.to_string(), "IR construction failed: x");
    let stage = Error::Stage { stage: "device".to_string(), message: "lost".to_string() };
    assert_eq!(stage.to_string(), "device failed: lost");
    for (error, text) in [
        (Error::NoKernelsFound, "no kernels found"),
        (Error::EmptySchedule, "empty schedule"),
        (Error::ShapeUnknown, "shape unknown"),
    ] {
        assert_eq!(error.to_string(), text);
    }
}

#[test]
fn worker_errors_name_their_stage() {
    let at = BeamWorker::at("compile", "no clang".to_string());
    assert_eq!(at, BeamWorker::CompileStage { stage: "compile", reason: "no clang".to_string() });
    let texts: Vec<String> = vec![
        at.to_string(),
        BeamWorker::HelperUnavailable { reason: "r".to_string() }.to_string(),
        BeamWorker::ProtocolMismatch { expected: 1, actual: 2 }.to_string(),
        BeamWorker::WorkerMisorder { got: 4, expected: None }.to_string(),
        BeamWorker::Frame { what: "read worker job", source: "eof".to_string() }.to_string(),
        BeamWorker::SpawnHelper { path: "/p".to_string(), source: "enoent".to_string() }.to_string(),
    ];
    for (text, parts) in texts.iter().zip([
        vec!["compile", "no clang"],
        vec!["r"],
        vec!["1", "2"],
        vec!["4", "None"],
        vec!["read worker job", "eof"],
        vec!["/p", "enoent"],
    ]) {
        for part in parts {
            assert!(text.contains(part), "{text}");
        }
    }
}

#[test]
fn devices_have_distinct_names() {
    let devices = vec![
        DeviceSpec::Cpu,
        DeviceSpec::Cuda { device_id: 0 },
        DeviceSpec::Cuda { device_id: 10 },
        DeviceSpec::Amd { device_id: 0 },
        DeviceSpec::Metal { device_id: 0 },
        DeviceSpec::WebGpu,
        DeviceSpec::Disk { path: "a".to_string() },
        DeviceSpec::Disk { path: "b".to_string() },
    ];
    for (i, a) in devices.iter().enumerate() {
        assert_eq!(a.copy(), *a);
        assert_eq!(a.is_disk(), matches!(a, DeviceSpec::Disk { .. }));
        for (j, b) in devices.iter().enumerate() {
            assert_eq!(a.canonicalize() == b.canonicalize(), i == j);
        }
    }
}

#[test]
fn element_types_have_their_widths() {
    for (dtype, bytes) in [
        (ScalarDType::Bool, 1),
        (ScalarDType::UInt8, 1),
        (ScalarDType::FP8E5M2, 1),
        (ScalarDType::BFloat16, 2),
        (ScalarDType::Float16, 2),
        (ScalarDType::Int32, 4),
        (ScalarDType::Float32, 4),
        (ScalarDType::Float64, 8),
        (ScalarDType::UInt64, 8),
    ] {
        assert_eq!(dtype.bytes(), bytes);
    }
}
