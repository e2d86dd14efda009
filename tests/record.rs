use php_stacktrace::layout::LayoutDescriptor;
use php_stacktrace::record::{record_key, RecordError, FIELD_COUNT};

fn descriptor() -> LayoutDescriptor {
    LayoutDescriptor {
        eg_byte_size: 1600,
        eg_current_execute_data: 488,
        eg_vm_stack_top: 880,
        eg_vm_stack_end: 888,
        eg_vm_stack: 896,
        ed_byte_size: 72,
        ed_this: 32,
        ed_func: 24,
        ed_prev_execute_data: 48,
        fu_function_name: 8,
        fu_scope: 16,
        zstr_len: 16,
        zstr_val: 24,
        stack_byte_size: 24,
        stack_end: 8,
        ce_name: 8,
        executor_globals_address: 0x55d0_0000_1234,
    }
}

#[test]
fn record_text() {
    let text = String::from_utf8(descriptor().to_record()).unwrap();
    let lines: Vec<&str> = text.lines().collect();
    assert_eq!(lines.len(), FIELD_COUNT);
    assert_eq!(lines[0], "eg_byte_size=1600");
    assert_eq!(lines[1], "eg_current_execute_data=488");
    assert_eq!(lines[15], "ce_name=8");
    assert!(!text.contains("executor_globals_address"));
    assert!(text.ends_with('\n'));
}

#[test]
fn record_round_trip() {
    let d = descriptor();
    let back = LayoutDescriptor::from_record(&d.to_record(), d.executor_globals_address).unwrap();
    assert_eq!(back, d);
    let other = LayoutDescriptor::from_record(&d.to_record(), 7).unwrap();
    assert_eq!(other.executor_globals_address, 7);
    assert_eq!(other.ed_this, 32);
}

#[test]
fn record_ignores_unknown_keys_and_takes_last_value() {
    let mut text = b"# comment\nfuture_key=12\n".to_vec();
    text.extend(descriptor().to_record());
    text.extend(b"ed_this=40\n");
    let d = LayoutDescriptor::from_record(&text, 0).unwrap();
    assert_eq!(d.ed_this, 40);
    assert_eq!(d.ce_name, 8);
}

#[test]
fn record_missing_field() {
    let text: Vec<u8> = String::from_utf8(descriptor().to_record())
        .unwrap()
        .lines()
        .filter(|l| !l.starts_with("zstr_len="))
        .map(|l| format!("{}\n", l))
        .collect::<String>()
        .into_bytes();
    assert_eq!(
        LayoutDescriptor::from_record(&text, 0),
        Err(RecordError::MissingField { field: 11 })
    );
    assert_eq!(record_key(11), b"zstr_len".to_vec());
}

#[test]
fn record_bad_value() {
    let mut text = descriptor().to_record();
    text.extend(b"fu_scope=sixteen\n");
    assert_eq!(
        LayoutDescriptor::from_record(&text, 0),
        Err(RecordError::BadValue { field: 10 })
    );
}
