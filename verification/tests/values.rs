use wasmtime_run::error::{Reason, Problem};
use wasmtime_run::invoke::parse_value;
use wasmtime_run::limits::{Counts, GivenLimits};
use wasmtime_run::number::{show_signed, show_unsigned};
use wasmtime_run::span::{at_epoch, ticks, Span};
use wasmtime_run::value::{Val, ValType};

fn complaint(text: &str, ty: ValType) -> String {
    match parse_value(text, ty) {
        Err(Problem::Integer(t)) => t,
        other => panic!("{:?}", other),
    }
}

#[test]
fn integers_are_read() {
    assert_eq!(parse_value("42", ValType::I32), Ok(Val::I32(42)));
    assert_eq!(parse_value("+42", ValType::I32), Ok(Val::I32(42)));
    assert_eq!(
        parse_value("-2147483648", ValType::I32),
        Ok(Val::I32(i32::MIN))
    );
    assert_eq!(
        parse_value("-9223372036854775808", ValType::I64),
        Ok(Val::I64(i64::MIN))
    );
    assert_eq!(
        parse_value("9223372036854775807", ValType::I64),
        Ok(Val::I64(i64::MAX))
    );
}

#[test]
fn floating_point_arguments_are_bits() {
    assert_eq!(
        parse_value("1065353216", ValType::F32),
        Ok(Val::F32(1f32.to_bits()))
    );
    assert_eq!(
        parse_value("4607182418800017408", ValType::F64),
        Ok(Val::F64(1f64.to_bits()))
    );
    assert!(parse_value("1.5", ValType::F32).is_err());
    assert!(parse_value("-1", ValType::F64).is_err());
}

#[test]
fn malformed_integers() {
    assert_eq!(
        complaint("x", ValType::I32),
        "x".parse::<i32>().unwrap_err().to_string()
    );
    assert_eq!(
        complaint("2147483648", ValType::I32),
        "2147483648".parse::<i32>().unwrap_err().to_string()
    );
    assert_eq!(
        complaint("", ValType::I64),
        "".parse::<i64>().unwrap_err().to_string()
    );
    assert_eq!(
        complaint("4294967296", ValType::F32),
        "4294967296".parse::<u32>().unwrap_err().to_string()
    );
    assert_eq!(
        complaint("0x10", ValType::F64),
        "0x10".parse::<u64>().unwrap_err().to_string()
    );
}

#[test]
fn other_types_are_not_supported() {
    for (ty, name) in [
        (ValType::V128, "V128"),
        (ValType::FuncRef, "FuncRef"),
        (ValType::ExternRef, "ExternRef"),
    ] {
        let refused = parse_value("0", ty);
        assert_eq!(refused, Err(Problem::UnsupportedType(ty)));
        assert_eq!(
            refused.unwrap_err().message(),
            format!("unsupported argument type {}", name)
        );
    }
}

#[test]
fn names_of_types() {
    assert_eq!(ValType::I32.name(), "I32");
    assert_eq!(ValType::I64.name(), "I64");
    assert_eq!(ValType::F32.name(), "F32");
    assert_eq!(ValType::F64.name(), "F64");
}

fn milliseconds(n: u64) -> Span {
    Span {
        secs: n / 1000,
        nanos: (n % 1000) as u32 * 1_000_000,
    }
}

#[test]
fn timeouts_are_rounded_up_to_samples() {
    assert_eq!(ticks(milliseconds(1000), milliseconds(300)), 4);
    assert_eq!(ticks(milliseconds(900), milliseconds(300)), 3);
    assert_eq!(ticks(milliseconds(1), milliseconds(300)), 1);
    assert_eq!(ticks(milliseconds(300), milliseconds(100)), 3);
    for timeout in [1, 10, 11, 99, 100, 12345] {
        for interval in [1, 3, 10, 1000] {
            let count = ticks(milliseconds(timeout), milliseconds(interval));
            assert!(timeout <= count * interval);
            assert!(count * interval < timeout + interval);
        }
    }
}

#[test]
fn timeouts_without_an_interval_are_not_counted_out() {
    assert_eq!(ticks(milliseconds(1), milliseconds(0)), u64::MAX);
    assert_eq!(
        ticks(
            Span {
                secs: u64::MAX,
                nanos: 0
            },
            Span { secs: 0, nanos: 1 }
        ),
        u64::MAX
    );
}

#[test]
fn time_is_up_at_the_last_epoch() {
    let mut left = Some(3);
    let mut samples = 0;
    for rest in [2, 1] {
        let epoch = at_epoch(left);
        samples += epoch.samples;
        assert_eq!(epoch.next, Ok((1, Some(rest))));
        left = Some(rest);
    }
    let epoch = at_epoch(left);
    samples += epoch.samples;
    let e: Reason = epoch.next.unwrap_err();
    assert_eq!(e, Problem::Timeout);
    assert_eq!(e.message(), "timeout exceeded");
    assert_eq!(samples, 3);
}

#[test]
fn sampling_goes_on_without_a_limit() {
    let mut left = None;
    let mut samples = 0;
    for _ in 0..1000 {
        let epoch = at_epoch(left);
        samples += epoch.samples;
        let (delta, rest) = epoch.next.unwrap();
        assert_eq!(delta, 1);
        left = rest;
    }
    assert_eq!((samples, left), (1000, None));
}

#[test]
fn printed_integers_are_read_back() {
    for n in [0, 9, 10, -1, 1234567890, i64::MIN, i64::MAX] {
        assert_eq!(show_signed(n), n.to_string());
        assert_eq!(
            parse_value(&show_signed(n), ValType::I64),
            Ok(Val::I64(n))
        );
    }
    for n in [0, 7, 100, u128::MAX] {
        assert_eq!(show_unsigned(n), n.to_string());
    }
}

fn no_limits() -> GivenLimits {
    GivenLimits {
        memory_size: None,
        table_elements: None,
        instances: None,
        tables: None,
        memories: None,
        trap_on_grow_failure: false,
    }
}

#[test]
fn given_sizes_are_not_exceeded() {
    let mut limits = no_limits();
    limits.memory_size = Some(65536);
    limits.table_elements = Some(10);
    assert_eq!(limits.memory_growing(0, 65536, None), Ok(true));
    assert_eq!(limits.memory_growing(0, 65537, None), Ok(false));
    assert_eq!(limits.memory_growing(0, 2, Some(1)), Ok(false));
    assert_eq!(limits.table_growing(0, 10, None), Ok(true));
    assert_eq!(limits.table_growing(0, 11, Some(20)), Ok(false));
    assert_eq!(limits.table_growing(0, 2, Some(1)), Ok(false));
    limits.trap_on_grow_failure = true;
    assert_eq!(limits.memory_growing(0, 65536, Some(65536)), Ok(true));
    assert_eq!(
        limits.memory_growing(0, 65537, None),
        Err("forcing trap when growing memory to 65537 bytes".to_string())
    );
    assert_eq!(
        limits.table_growing(0, 11, None),
        Err("forcing trap when growing table to 11 elements".to_string())
    );
}

#[test]
fn sizes_that_are_not_given_are_not_limited() {
    let limits = no_limits();
    assert_eq!(limits.memory_growing(0, usize::MAX, None), Ok(true));
    assert_eq!(limits.table_growing(0, u32::MAX, None), Ok(true));
    assert_eq!(limits.table_growing(0, 6, Some(5)), Ok(false));
}

#[test]
fn counts_are_as_given_or_the_default() {
    let mut limits = no_limits();
    assert_eq!(
        limits.counts(),
        Counts {
            instances: 10_000,
            tables: 10_000,
            memories: 10_000
        }
    );
    limits.instances = Some(1);
    limits.tables = Some(2);
    limits.memories = Some(3);
    assert_eq!(
        limits.counts(),
        Counts {
            instances: 1,
            tables: 2,
            memories: 3
        }
    );
}

#[test]
fn limits_hold_in_a_store() {
    let mut limits = no_limits();
    limits.table_elements = Some(2);
    limits.instances = Some(1);
    let engine = wasmtime::Engine::default();
    let mut store = wasmtime::Store::new(&engine, limits.store_limits());
    store.limiter(|limits| limits);
    let ty = || wasmtime::TableType::new(wasmtime::ValType::FuncRef, 1, None);
    let null = || wasmtime::Val::FuncRef(None);
    let table = wasmtime::Table::new(&mut store, ty(), null()).unwrap();
    assert_eq!(table.grow(&mut store, 1, null()).unwrap(), 1);
    assert!(table.grow(&mut store, 1, null()).is_err());
    let module = wasmtime::Module::new(&engine, "(module)").unwrap();
    assert!(wasmtime::Instance::new(&mut store, &module, &[]).is_ok());
    assert!(wasmtime::Instance::new(&mut store, &module, &[]).is_err());
}

#[test]
fn lengths_in_nanoseconds() {
    assert_eq!(
        Span {
            secs: 2,
            nanos: 5
        }
        .total(),
        2_000_000_005
    );
}
