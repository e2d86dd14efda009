use php_stacktrace::image::{MemoryImage, Region};
use php_stacktrace::layout::LayoutDescriptor;
use php_stacktrace::remote::{read_remote, read_word, SampleError, MAX_READ};
use php_stacktrace::walker::{render_frame, render_trace, sample, sample_attached, Frame};

const GLOBALS: u64 = 0x1000;
const HEADER: u64 = 0x2000;
const LOW: u64 = 0x3000;

fn layout() -> LayoutDescriptor {
    LayoutDescriptor {
        eg_byte_size: 32,
        eg_current_execute_data: 0,
        eg_vm_stack_top: 8,
        eg_vm_stack_end: 16,
        eg_vm_stack: 24,
        ed_byte_size: 24,
        ed_this: 8,
        ed_func: 0,
        ed_prev_execute_data: 16,
        fu_function_name: 8,
        fu_scope: 16,
        zstr_len: 16,
        zstr_val: 24,
        stack_byte_size: 24,
        stack_end: 8,
        ce_name: 8,
        executor_globals_address: GLOBALS,
    }
}

fn words(ws: &[u64]) -> Vec<u8> {
    ws.iter().flat_map(|w| w.to_le_bytes()).collect()
}

fn zstring(s: &str) -> Vec<u8> {
    let mut b = words(&[0, 0, s.len() as u64]);
    b.extend_from_slice(s.as_bytes());
    b
}

/// Frames are (func, this, prev); functions are (address, name string, scope).
fn image(current: u64, frames: &[(u64, u64, u64)], extra: Vec<Region>) -> MemoryImage {
    let top = LOW + 24 * frames.len() as u64;
    let mut regions = vec![
        Region { start: GLOBALS, bytes: words(&[current, top, top + 0x100, HEADER]) },
        Region { start: HEADER, bytes: words(&[LOW, top + 0x100, 0]) },
        Region { start: LOW, bytes: frames.iter().flat_map(|f| words(&[f.0, f.1, f.2])).collect() },
    ];
    regions.extend(extra);
    MemoryImage::new(regions)
}

fn function(at: u64, name_at: u64, scope: u64) -> Region {
    Region { start: at, bytes: words(&[0, name_at, scope]) }
}

fn lines(img: &MemoryImage) -> Vec<String> {
    render_trace(&sample(img, &layout()).unwrap())
}

#[test]
fn top_level_without_function() {
    let img = image(LOW, &[(0, 0, 0)], vec![]);
    assert_eq!(lines(&img), vec!["???()"]);
}

#[test]
fn top_level_script_is_main() {
    let img = image(LOW, &[(0x4000, 0, 0)], vec![function(0x4000, 0, 0)]);
    assert_eq!(lines(&img), vec!["main()"]);
}

#[test]
fn simple_call_chain() {
    let frames = [(0x4000, 0, 0), (0x4100, 0, LOW), (0x4200, 0, LOW + 24)];
    let extra = vec![
        function(0x4000, 0, 0),
        function(0x4100, 0x5000, 0),
        function(0x4200, 0x5100, 0),
        Region { start: 0x5000, bytes: zstring("bar") },
        Region { start: 0x5100, bytes: zstring("foo") },
    ];
    let img = image(LOW + 48, &frames, extra);
    assert_eq!(lines(&img), vec!["foo()", "bar()", "main()"]);
}

#[test]
fn method_call_has_class_scope() {
    let extra = vec![
        function(0x4000, 0x5000, 0x6000),
        Region { start: 0x5000, bytes: zstring("hello") },
        Region { start: 0x6000, bytes: words(&[0, 0x5100]) },
        Region { start: 0x5100, bytes: zstring("Greeter") },
    ];
    let img = image(LOW, &[(0x4000, 0x7000, 0)], extra);
    let t = sample(&img, &layout()).unwrap();
    assert!(t.frames[0].method);
    assert_eq!(t.frames[0].scope.as_deref(), Some("Greeter"));
    assert_eq!(render_trace(&t), vec!["Greeter->hello()"]);
}

#[test]
fn unreadable_globals_still_detach() {
    let mut img = MemoryImage::new(vec![]);
    let r = sample_attached(&mut img, &layout());
    assert_eq!(r.unwrap_err(), SampleError::UnreadableRegion);
    assert_eq!(img.detaches(), 1);
}

#[test]
fn no_live_stack_still_detach() {
    let mut img = image(LOW - 24, &[(0, 0, 0)], vec![]);
    let r = sample_attached(&mut img, &layout());
    assert_eq!(r.unwrap_err(), SampleError::NoLivestack);
    assert_eq!(img.detaches(), 1);
}

#[test]
fn attached_sample_detaches_once_on_success() {
    let mut img = image(LOW, &[(0, 0, 0)], vec![]);
    let t = sample_attached(&mut img, &layout()).unwrap();
    assert_eq!(render_trace(&t), vec!["???()"]);
    assert_eq!(img.detaches(), 1);
}

#[test]
fn oversized_read_is_refused() {
    let img = MemoryImage::new(vec![Region { start: 0, bytes: vec![0; 16] }]);
    assert_eq!(read_remote(&img, 0, MAX_READ + 1).unwrap_err(), SampleError::TooLarge);
    assert_eq!(read_remote(&img, 0, 16).unwrap().len(), 16);
    assert_eq!(read_remote(&img, 8, 16).unwrap_err(), SampleError::UnreadableRegion);
}

#[test]
fn oversized_string_is_refused() {
    let mut big = words(&[0, 0, (MAX_READ as u64) + 1]);
    big.extend_from_slice(&[0; 8]);
    let extra = vec![function(0x4000, 0x5000, 0), Region { start: 0x5000, bytes: big }];
    let img = image(LOW, &[(0x4000, 0, 0)], extra);
    assert_eq!(sample(&img, &layout()).unwrap_err(), SampleError::TooLarge);
}

#[test]
fn cyclic_chain_terminates() {
    let frames = [(0, 0, LOW + 24), (0, 0, LOW)];
    let img = image(LOW + 24, &frames, vec![]);
    let t = sample(&img, &layout()).unwrap();
    assert_eq!(t.frames.len(), 2);
}

#[test]
fn decoding_is_deterministic() {
    let frames = [(0x4000, 0, 0)];
    let extra = || vec![function(0x4000, 0x5000, 0), Region { start: 0x5000, bytes: zstring("f") }];
    let a = image(LOW, &frames, extra());
    let b = image(LOW, &frames, extra());
    assert_eq!(lines(&a), lines(&b));
    assert_eq!(lines(&a), lines(&a));
}

#[test]
fn invalid_utf8_is_replaced() {
    let mut s = words(&[0, 0, 2]);
    s.extend_from_slice(&[0x66, 0xff]);
    let extra = vec![function(0x4000, 0x5000, 0), Region { start: 0x5000, bytes: s }];
    let img = image(LOW, &[(0x4000, 0, 0)], extra);
    assert_eq!(lines(&img), vec!["f\u{fffd}()"]);
}

#[test]
fn words_are_little_endian() {
    let b = vec![1, 2, 0, 0, 0, 0, 0, 0x80, 9];
    assert_eq!(read_word(&b, 0), 0x8000_0000_0000_0201);
    assert_eq!(read_word(&b, 1), 0x0980_0000_0000_0002);
}

#[test]
fn render_plain_frame() {
    let f = Frame { name: "run".to_string(), scope: None, method: false };
    assert_eq!(render_frame(&f), "run()");
    let f = Frame { name: "go".to_string(), scope: Some("App".to_string()), method: false };
    assert_eq!(render_frame(&f), "App->go()");
}

#[test]
fn reloaded_descriptor_samples_the_same() {
    let frames = [(0x4000, 0, 0), (0x4100, 0, LOW)];
    let extra = vec![
        function(0x4000, 0, 0),
        function(0x4100, 0x5000, 0),
        Region { start: 0x5000, bytes: zstring("handle") },
    ];
    let img = image(LOW + 24, &frames, extra);
    let d = layout();
    let back = LayoutDescriptor::from_record(&d.to_record(), GLOBALS).unwrap();
    assert_eq!(back, d);
    let direct = render_trace(&sample(&img, &d).unwrap());
    assert_eq!(direct, vec!["handle()", "main()"]);
    assert_eq!(render_trace(&sample(&img, &back).unwrap()), direct);
}
