//! The layout descriptor: the offsets and sizes the stack walker reads by.

use crate::dwarf::{
    last_member, last_named, last_with_id, AggregateView, CMember, CStruct, DwarfLookup,
    LookupView, MemberView,
};
use vstd::prelude::*;

verus! {

/// Offsets and sizes of the interpreter records that a sample reads, and
/// where the executor globals sit in the target.
#[derive(Clone, Copy, Debug, PartialEq, Eq, Structural)]
pub struct LayoutDescriptor {
    pub eg_byte_size: usize,
    pub eg_current_execute_data: usize,
    pub eg_vm_stack_top: usize,
    pub eg_vm_stack_end: usize,
    pub eg_vm_stack: usize,
    pub ed_byte_size: usize,
    pub ed_this: usize,
    pub ed_func: usize,
    pub ed_prev_execute_data: usize,
    pub fu_function_name: usize,
    pub fu_scope: usize,
    pub zstr_len: usize,
    pub zstr_val: usize,
    pub stack_byte_size: usize,
    pub stack_end: usize,
    pub ce_name: usize,
    pub executor_globals_address: u64,
}

/// A word at `off` lies inside a record of `size` bytes.
pub open spec fn word_inside(off: usize, size: usize) -> bool {
    off as int + 8 <= size as int
}

impl LayoutDescriptor {
    /// Every word the walker decodes out of a copied record lies inside it.
    pub open spec fn wf(&self) -> bool {
        &&& word_inside(self.eg_current_execute_data, self.eg_byte_size)
        &&& word_inside(self.eg_vm_stack_top, self.eg_byte_size)
        &&& word_inside(self.eg_vm_stack, self.eg_byte_size)
        &&& word_inside(self.ed_this, self.ed_byte_size)
        &&& word_inside(self.ed_func, self.ed_byte_size)
        &&& word_inside(self.ed_prev_execute_data, self.ed_byte_size)
        &&& word_inside(0, self.stack_byte_size)
    }

    /// Checks `wf`.
    pub fn is_consistent(&self) -> (r: bool)
        ensures
            r == self.wf(),
    {
        self.eg_current_execute_data <= self.eg_byte_size && self.eg_byte_size
            - self.eg_current_execute_data >= 8 && self.eg_vm_stack_top <= self.eg_byte_size
            && self.eg_byte_size - self.eg_vm_stack_top >= 8 && self.eg_vm_stack
            <= self.eg_byte_size && self.eg_byte_size - self.eg_vm_stack >= 8 && self.ed_this
            <= self.ed_byte_size && self.ed_byte_size - self.ed_this >= 8 && self.ed_func
            <= self.ed_byte_size && self.ed_byte_size - self.ed_func >= 8
            && self.ed_prev_execute_data <= self.ed_byte_size && self.ed_byte_size
            - self.ed_prev_execute_data >= 8 && self.stack_byte_size >= 8
    }
}


/// Why a descriptor could not be built.
#[derive(Clone, Debug)]
pub enum LayoutError {
    /// The debugging information has no struct or union of this name.
    UnknownType { name: String },
    /// The type has no member of this name.
    UnknownMember { owner: String, member: String },
}

pub open spec fn struct_of(l: LookupView, name: Seq<char>) -> Option<AggregateView> {
    match last_named(l.structs, name) {
        Some(i) => Some(l.structs[i]),
        None => None,
    }
}

pub open spec fn union_of(l: LookupView, name: Seq<char>) -> Option<AggregateView> {
    match last_named(l.unions, name) {
        Some(i) => Some(l.unions[i]),
        None => None,
    }
}

pub open spec fn struct_with_id(l: LookupView, id: usize) -> Option<AggregateView> {
    match last_with_id(l.structs, id) {
        Some(i) => Some(l.structs[i]),
        None => None,
    }
}

pub open spec fn member_of(a: AggregateView, name: Seq<char>) -> Option<MemberView> {
    match last_member(a.members, name) {
        Some(j) => Some(a.members[j]),
        None => None,
    }
}

/// The offset of member `m` in aggregate `a`.
pub open spec fn offset_in(a: Option<AggregateView>, m: Seq<char>) -> Option<usize> {
    match a {
        Some(a) => match member_of(a, m) {
            Some(x) => Some(x.byte_offset),
            None => None,
        },
        None => None,
    }
}

pub open spec fn size_of(a: Option<AggregateView>) -> Option<usize> {
    match a {
        Some(a) => Some(a.byte_size),
        None => None,
    }
}

/// The struct that member `common` of union `_zend_function` has as its
/// type: the prefix that every kind of function shares.
pub open spec fn function_common(l: LookupView) -> Option<AggregateView> {
    match union_of(l, "_zend_function"@) {
        Some(u) => match member_of(u, "common"@) {
            Some(c) => struct_with_id(l, c.type_id),
            None => None,
        },
        None => None,
    }
}

/// The descriptor that `l` gives, with the globals at `addr`; `None`
/// when a type or member it needs is missing.
pub open spec fn layout_of(l: LookupView, addr: u64) -> Option<LayoutDescriptor> {
    let eg = struct_of(l, "_zend_executor_globals"@);
    let ed = struct_of(l, "_zend_execute_data"@);
    let fu = function_common(l);
    let zs = struct_of(l, "_zend_string"@);
    let st = struct_of(l, "_zend_vm_stack"@);
    let ce = struct_of(l, "_zend_class_entry"@);
    let fields = seq![
        size_of(eg),
        offset_in(eg, "current_execute_data"@),
        offset_in(eg, "vm_stack_top"@),
        offset_in(eg, "vm_stack_end"@),
        offset_in(eg, "vm_stack"@),
        size_of(ed),
        offset_in(ed, "This"@),
        offset_in(ed, "func"@),
        offset_in(ed, "prev_execute_data"@),
        offset_in(fu, "function_name"@),
        offset_in(fu, "scope"@),
        offset_in(zs, "len"@),
        offset_in(zs, "val"@),
        size_of(st),
        offset_in(st, "end"@),
        offset_in(ce, "name"@),
    ];
    if forall|i: int| 0 <= i < fields.len() ==> #[trigger] fields[i] is Some {
        Some(
            LayoutDescriptor {
                eg_byte_size: fields[0]->Some_0,
                eg_current_execute_data: fields[1]->Some_0,
                eg_vm_stack_top: fields[2]->Some_0,
                eg_vm_stack_end: fields[3]->Some_0,
                eg_vm_stack: fields[4]->Some_0,
                ed_byte_size: fields[5]->Some_0,
                ed_this: fields[6]->Some_0,
                ed_func: fields[7]->Some_0,
                ed_prev_execute_data: fields[8]->Some_0,
                fu_function_name: fields[9]->Some_0,
                fu_scope: fields[10]->Some_0,
                zstr_len: fields[11]->Some_0,
                zstr_val: fields[12]->Some_0,
                stack_byte_size: fields[13]->Some_0,
                stack_end: fields[14]->Some_0,
                ce_name: fields[15]->Some_0,
                executor_globals_address: addr,
            },
        )
    } else {
        None
    }
}

/// Which kind of lookup fails first when a descriptor is built.
pub enum LayoutFault {
    Type,
    Member,
}

/// The first failing lookup, in the order they are made: the executor
/// globals and execute-data structs, the function union, its `common`
/// member and that member's struct, the string, stack and class-entry
/// structs, then the members read out of them.
pub open spec fn first_fault(l: LookupView) -> Option<LayoutFault> {
    if struct_of(l, "_zend_executor_globals"@) is None || struct_of(l, "_zend_execute_data"@) is None {
        Some(LayoutFault::Type)
    } else if union_of(l, "_zend_function"@) is None {
        Some(LayoutFault::Type)
    } else if member_of(union_of(l, "_zend_function"@)->Some_0, "common"@) is None {
        Some(LayoutFault::Member)
    } else if function_common(l) is None {
        Some(LayoutFault::Type)
    } else if struct_of(l, "_zend_string"@) is None || struct_of(l, "_zend_vm_stack"@) is None
        || struct_of(l, "_zend_class_entry"@) is None {
        Some(LayoutFault::Type)
    } else if layout_of(l, 0) is None {
        Some(LayoutFault::Member)
    } else {
        None
    }
}

fn find_named_struct<'a>(l: &'a DwarfLookup, name: &str) -> (r: Result<&'a CStruct, LayoutError>)
    ensures
        match struct_of(l@, name@) {
            Some(a) => r matches Ok(c) && c@ == a,
            None => r matches Err(LayoutError::UnknownType { .. }),
        },
{
    match l.find_struct(name) {
        Some(c) => Ok(c),
        None => Err(LayoutError::UnknownType { name: name.to_owned() }),
    }
}

fn member_offset(c: &CStruct, member: &str) -> (r: Result<usize, LayoutError>)
    ensures
        match offset_in(Some(c@), member@) {
            Some(o) => r matches Ok(x) && x == o,
            None => r matches Err(LayoutError::UnknownMember { .. }),
        },
{
    match c.find_member(member) {
        Some(m) => Ok(m.byte_offset),
        None => Err(LayoutError::UnknownMember { owner: c.name.clone(), member: member.to_owned() }),
    }
}

/// The struct behind member `common` of union `_zend_function`.
fn find_function_common(l: &DwarfLookup) -> (r: Result<&CStruct, LayoutError>)
    ensures
        match function_common(l@) {
            Some(a) => r matches Ok(c) && c@ == a,
            None => if union_of(l@, "_zend_function"@) is Some && member_of(
                union_of(l@, "_zend_function"@)->Some_0,
                "common"@,
            ) is None {
                r matches Err(LayoutError::UnknownMember { .. })
            } else {
                r matches Err(LayoutError::UnknownType { .. })
            },
        },
{
    let u = match l.find_union("_zend_function") {
        Some(u) => u,
        None => {
            return Err(LayoutError::UnknownType { name: "_zend_function".to_owned() });
        },
    };
    let common: &CMember = match u.find_member("common") {
        Some(m) => m,
        None => {
            return Err(
                LayoutError::UnknownMember {
                    owner: "_zend_function".to_owned(),
                    member: "common".to_owned(),
                },
            );
        },
    };
    match l.find_struct_by_id(common.type_id) {
        Some(c) => Ok(c),
        None => Err(LayoutError::UnknownType { name: "_zend_function.common".to_owned() }),
    }
}

impl LayoutDescriptor {
    /// Reads the descriptor's offsets and sizes out of the debugging
    /// information; the globals sit at `executor_globals_address`.
    pub fn from_dwarf(l: &DwarfLookup, executor_globals_address: u64) -> (r: Result<
        LayoutDescriptor,
        LayoutError,
    >)
        ensures
            match layout_of(l@, executor_globals_address) {
                Some(d) => r matches Ok(x) && x == d,
                None => r is Err,
            },
            match first_fault(l@) {
                None => r is Ok,
                Some(LayoutFault::Type) => r matches Err(LayoutError::UnknownType { .. }),
                Some(LayoutFault::Member) => r matches Err(LayoutError::UnknownMember { .. }),
            },
    {
        let eg = match find_named_struct(l, "_zend_executor_globals") {
            Ok(c) => c,
            Err(e) => {
                return Err(e);
            },
        };
        let ed = match find_named_struct(l, "_zend_execute_data") {
            Ok(c) => c,
            Err(e) => {
                return Err(e);
            },
        };
        let fu = match find_function_common(l) {
            Ok(c) => c,
            Err(e) => {
                return Err(e);
            },
        };
        let zs = match find_named_struct(l, "_zend_string") {
            Ok(c) => c,
            Err(e) => {
                return Err(e);
            },
        };
        let st = match find_named_struct(l, "_zend_vm_stack") {
            Ok(c) => c,
            Err(e) => {
                return Err(e);
            },
        };
        let ce = match find_named_struct(l, "_zend_class_entry") {
            Ok(c) => c,
            Err(e) => {
                return Err(e);
            },
        };
        let o0 = match member_offset(eg, "current_execute_data") {
            Ok(o) => o,
            Err(e) => {
                return Err(e);
            },
        };
        let o1 = match member_offset(eg, "vm_stack_top") {
            Ok(o) => o,
            Err(e) => {
                return Err(e);
            },
        };
        let o2 = match member_offset(eg, "vm_stack_end") {
            Ok(o) => o,
            Err(e) => {
                return Err(e);
            },
        };
        let o3 = match member_offset(eg, "vm_stack") {
            Ok(o) => o,
            Err(e) => {
                return Err(e);
            },
        };
        let o4 = match member_offset(ed, "This") {
            Ok(o) => o,
            Err(e) => {
                return Err(e);
            },
        };
        let o5 = match member_offset(ed, "func") {
            Ok(o) => o,
            Err(e) => {
                return Err(e);
            },
        };
        let o6 = match member_offset(ed, "prev_execute_data") {
            Ok(o) => o,
            Err(e) => {
                return Err(e);
            },
        };
        let o7 = match member_offset(fu, "function_name") {
            Ok(o) => o,
            Err(e) => {
                return Err(e);
            },
        };
        let o8 = match member_offset(fu, "scope") {
            Ok(o) => o,
            Err(e) => {
                return Err(e);
            },
        };
        let o9 = match member_offset(zs, "len") {
            Ok(o) => o,
            Err(e) => {
                return Err(e);
            },
        };
        let o10 = match member_offset(zs, "val") {
            Ok(o) => o,
            Err(e) => {
                return Err(e);
            },
        };
        let o11 = match member_offset(st, "end") {
            Ok(o) => o,
            Err(e) => {
                return Err(e);
            },
        };
        let o12 = match member_offset(ce, "name") {
            Ok(o) => o,
            Err(e) => {
                return Err(e);
            },
        };
        Ok(
            LayoutDescriptor {
                eg_byte_size: eg.byte_size,
                eg_current_execute_data: o0,
                eg_vm_stack_top: o1,
                eg_vm_stack_end: o2,
                eg_vm_stack: o3,
                ed_byte_size: ed.byte_size,
                ed_this: o4,
                ed_func: o5,
                ed_prev_execute_data: o6,
                fu_function_name: o7,
                fu_scope: o8,
                zstr_len: o9,
                zstr_val: o10,
                stack_byte_size: st.byte_size,
                stack_end: o11,
                ce_name: o12,
                executor_globals_address,
            },
        )
    }
}

} // verus!
