use php_stacktrace::dwarf::{
    parse_dwarf, AttrValue, DieAttr, DieEntry, DwarfError, DW_AT_BIT_SIZE, DW_AT_BYTE_SIZE,
    DW_AT_DATA_MEMBER_LOCATION, DW_AT_DECLARATION, DW_AT_NAME, DW_AT_TYPE, DW_AT_UPPER_BOUND,
    DW_TAG_ARRAY_TYPE, DW_TAG_BASE_TYPE, DW_TAG_CONST_TYPE, DW_TAG_MEMBER, DW_TAG_POINTER_TYPE,
    DW_TAG_STRUCTURE_TYPE, DW_TAG_SUBRANGE_TYPE, DW_TAG_TYPEDEF, DW_TAG_UNION_TYPE,
};
use php_stacktrace::layout::{LayoutDescriptor, LayoutError};
use php_stacktrace::types::{get_type_size, TypeNode};
use std::collections::HashMap;

fn name(s: &str) -> DieAttr {
    DieAttr { name: DW_AT_NAME, value: AttrValue::Text(s.to_string()) }
}

fn num(at: u16, v: u64) -> DieAttr {
    DieAttr { name: at, value: AttrValue::Unsigned(v) }
}

fn typ(id: usize) -> DieAttr {
    DieAttr { name: DW_AT_TYPE, value: AttrValue::Reference(id) }
}

fn entry(offset: usize, tag: u16, attrs: Vec<DieAttr>) -> DieEntry {
    DieEntry { offset, tag, attrs }
}

fn member(offset: usize, n: &str, at: u64, ty: usize) -> DieEntry {
    entry(offset, DW_TAG_MEMBER, vec![name(n), num(DW_AT_DATA_MEMBER_LOCATION, at), typ(ty)])
}

/// int (4 bytes), a pointer, a typedef of int, a const of the typedef, an
/// array of 3 ints, and a struct using each of them.
fn sample_entries() -> Vec<DieEntry> {
    vec![
        entry(10, DW_TAG_BASE_TYPE, vec![name("int"), num(DW_AT_BYTE_SIZE, 4)]),
        entry(20, DW_TAG_POINTER_TYPE, vec![num(DW_AT_BYTE_SIZE, 8), typ(10)]),
        entry(30, DW_TAG_TYPEDEF, vec![name("myint"), typ(10)]),
        entry(40, DW_TAG_CONST_TYPE, vec![typ(30)]),
        entry(50, DW_TAG_ARRAY_TYPE, vec![typ(10)]),
        entry(51, DW_TAG_SUBRANGE_TYPE, vec![num(DW_AT_UPPER_BOUND, 2)]),
        entry(60, DW_TAG_STRUCTURE_TYPE, vec![name("point"), num(DW_AT_BYTE_SIZE, 40)]),
        member(61, "x", 0, 10),
        member(62, "p", 8, 20),
        member(63, "t", 16, 30),
        member(64, "c", 20, 40),
        member(65, "a", 24, 50),
        member(66, "u", 36, 999),
    ]
}

#[test]
fn member_sizes_follow_type_chain() {
    let l = parse_dwarf(&sample_entries(), false).unwrap();
    let s = l.find_struct("point").unwrap();
    assert_eq!(s.byte_size, 40);
    assert_eq!(s.id, 60);
    let size = |m: &str| s.find_member(m).unwrap().byte_size;
    assert_eq!(size("x"), 4);
    assert_eq!(size("p"), 8);
    assert_eq!(size("t"), 4);
    assert_eq!(size("c"), 4);
    assert_eq!(size("a"), 12);
    assert_eq!(size("u"), 0);
    assert_eq!(s.find_member("a").unwrap().byte_offset, 24);
    assert!(s.find_member("missing").is_none());
    assert!(l.find_struct_by_id(60).is_some());
    assert!(l.find_struct_by_id(61).is_none());
}

#[test]
fn type_cycle_resolves_to_zero() {
    let entries = vec![
        entry(10, DW_TAG_TYPEDEF, vec![name("A"), typ(20)]),
        entry(20, DW_TAG_TYPEDEF, vec![name("B"), typ(10)]),
        entry(30, DW_TAG_STRUCTURE_TYPE, vec![name("holder"), num(DW_AT_BYTE_SIZE, 8)]),
        member(31, "a", 0, 10),
    ];
    let l = parse_dwarf(&entries, false).unwrap();
    assert_eq!(l.find_struct("holder").unwrap().find_member("a").unwrap().byte_size, 0);
}

#[test]
fn get_type_size_caps_hops() {
    let mut nodes: HashMap<usize, TypeNode> = HashMap::new();
    nodes.insert(0, TypeNode::Base { byte_size: 2 });
    for i in 1..=12usize {
        nodes.insert(i, TypeNode::TypeDef { type_id: i - 1 });
    }
    assert_eq!(get_type_size(0, &nodes), 2);
    assert_eq!(get_type_size(9, &nodes), 2);
    assert_eq!(get_type_size(10, &nodes), 0);
    nodes.insert(20, TypeNode::Array { type_id: 21, count: 5 });
    nodes.insert(21, TypeNode::Array { type_id: 0, count: 3 });
    assert_eq!(get_type_size(20, &nodes), 30);
    nodes.insert(30, TypeNode::Array { type_id: 31, count: usize::MAX });
    nodes.insert(31, TypeNode::Base { byte_size: 2 });
    assert_eq!(get_type_size(30, &nodes), 0);
    assert_eq!(get_type_size(99, &nodes), 0);
}

#[test]
fn forward_declarations_are_invisible() {
    let decl = DieAttr { name: DW_AT_DECLARATION, value: AttrValue::Flag(true) };
    let entries = vec![
        entry(10, DW_TAG_STRUCTURE_TYPE, vec![name("opaque"), decl.clone()]),
        member(11, "stray", 0, 0),
        entry(20, DW_TAG_UNION_TYPE, vec![name("hidden"), decl]),
        entry(30, DW_TAG_STRUCTURE_TYPE, vec![name("real"), num(DW_AT_BYTE_SIZE, 4)]),
    ];
    let l = parse_dwarf(&entries, false).unwrap();
    assert!(l.find_struct("opaque").is_none());
    assert!(l.find_union("opaque").is_none());
    assert!(l.find_union("hidden").is_none());
    assert!(l.find_struct_by_id(10).is_none());
    assert!(l.find_struct("real").unwrap().find_member("stray").is_none());
}

#[test]
fn unions_and_last_writer_wins() {
    let entries = vec![
        entry(10, DW_TAG_BASE_TYPE, vec![name("long"), num(DW_AT_BYTE_SIZE, 8)]),
        entry(20, DW_TAG_UNION_TYPE, vec![name("u"), num(DW_AT_BYTE_SIZE, 8)]),
        member(21, "l", 0, 10),
        entry(30, DW_TAG_STRUCTURE_TYPE, vec![name("s"), num(DW_AT_BYTE_SIZE, 1)]),
        entry(40, DW_TAG_STRUCTURE_TYPE, vec![name("s"), num(DW_AT_BIT_SIZE, 16)]),
    ];
    let l = parse_dwarf(&entries, false).unwrap();
    let u = l.find_union("u").unwrap();
    assert_eq!(u.find_member("l").unwrap().byte_size, 8);
    assert!(l.find_union_by_id(20).is_some());
    assert!(l.find_union_by_id(30).is_none());
    let s = l.find_struct("s").unwrap();
    assert_eq!(s.id, 40);
    assert_eq!(s.byte_size, 2);
}

#[test]
fn member_size_attribute_as_offset_in_legacy_mode() {
    let entries = vec![
        entry(10, DW_TAG_BASE_TYPE, vec![name("int"), num(DW_AT_BYTE_SIZE, 4)]),
        entry(20, DW_TAG_STRUCTURE_TYPE, vec![name("s"), num(DW_AT_BYTE_SIZE, 8)]),
        entry(
            21,
            DW_TAG_MEMBER,
            vec![name("f"), num(DW_AT_DATA_MEMBER_LOCATION, 4), num(DW_AT_BYTE_SIZE, 2), typ(10)],
        ),
    ];
    let legacy = parse_dwarf(&entries, true).unwrap();
    let m = legacy.find_struct("s").unwrap().find_member("f").unwrap();
    assert_eq!(m.byte_offset, 2);
    assert_eq!(m.byte_size, 4);
    let fixed = parse_dwarf(&entries, false).unwrap();
    let m = fixed.find_struct("s").unwrap().find_member("f").unwrap();
    assert_eq!(m.byte_offset, 4);
    assert_eq!(m.byte_size, 2);
}

#[test]
fn non_constant_size_is_unsupported() {
    let entries = vec![entry(
        10,
        DW_TAG_STRUCTURE_TYPE,
        vec![name("s"), DieAttr { name: DW_AT_BYTE_SIZE, value: AttrValue::Other }],
    )];
    assert_eq!(
        parse_dwarf(&entries, false).unwrap_err(),
        DwarfError::UnsupportedAttribute { entry: 10, attribute: DW_AT_BYTE_SIZE }
    );
}

fn php_entries() -> Vec<DieEntry> {
    let mut e = vec![entry(1, DW_TAG_BASE_TYPE, vec![name("long"), num(DW_AT_BYTE_SIZE, 8)])];
    let mut next = 100usize;
    let mut add_struct = |e: &mut Vec<DieEntry>, n: &str, size: u64, members: &[(&str, u64)]| {
        let id = next;
        e.push(entry(id, DW_TAG_STRUCTURE_TYPE, vec![name(n), num(DW_AT_BYTE_SIZE, size)]));
        for (k, (m, at)) in members.iter().enumerate() {
            e.push(member(id + 1 + k, m, *at, 1));
        }
        next += 100;
        id
    };
    add_struct(
        &mut e,
        "_zend_executor_globals",
        32,
        &[("current_execute_data", 0), ("vm_stack_top", 8), ("vm_stack_end", 16), ("vm_stack", 24)],
    );
    add_struct(&mut e, "_zend_execute_data", 24, &[("func", 0), ("This", 8), ("prev_execute_data", 16)]);
    let common = add_struct(&mut e, "", 24, &[("function_name", 8), ("scope", 16)]);
    add_struct(&mut e, "_zend_string", 32, &[("len", 16), ("val", 24)]);
    add_struct(&mut e, "_zend_vm_stack", 24, &[("top", 0), ("end", 8)]);
    add_struct(&mut e, "_zend_class_entry", 64, &[("name", 8)]);
    e.push(entry(5000, DW_TAG_UNION_TYPE, vec![name("_zend_function"), num(DW_AT_BYTE_SIZE, 24)]));
    e.push(entry(5001, DW_TAG_MEMBER, vec![name("common"), typ(common)]));
    e
}

#[test]
fn descriptor_from_dwarf() {
    let l = parse_dwarf(&php_entries(), false).unwrap();
    let d = LayoutDescriptor::from_dwarf(&l, 0x1000).unwrap();
    assert_eq!(d.eg_byte_size, 32);
    assert_eq!(d.eg_vm_stack, 24);
    assert_eq!(d.ed_byte_size, 24);
    assert_eq!(d.ed_this, 8);
    assert_eq!(d.ed_prev_execute_data, 16);
    assert_eq!(d.fu_function_name, 8);
    assert_eq!(d.fu_scope, 16);
    assert_eq!(d.zstr_val, 24);
    assert_eq!(d.stack_byte_size, 24);
    assert_eq!(d.stack_end, 8);
    assert_eq!(d.ce_name, 8);
    assert_eq!(d.executor_globals_address, 0x1000);
    assert!(d.is_consistent());
}

#[test]
fn descriptor_reports_unknown_type() {
    let mut e = php_entries();
    e.retain(|x| x.offset < 600 || x.offset >= 700);
    let l = parse_dwarf(&e, false).unwrap();
    match LayoutDescriptor::from_dwarf(&l, 0) {
        Err(LayoutError::UnknownType { name }) => assert_eq!(name, "_zend_class_entry"),
        other => panic!("unexpected {:?}", other),
    }
}
