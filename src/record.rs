//! The persisted form of a layout descriptor: one `key=value` line per
//! field, values in decimal.  Unknown keys are ignored when reading; the
//! runtime address of the globals is never persisted.

use crate::layout::LayoutDescriptor;
use crate::remote::ProcessReader;
use crate::text::{
    bytes_equal, dec_digits, lemma_dec_round_trip, lemma_split_len, parse_dec, parse_dec_bytes, pieces,
    push_dec, split, split_bytes,
};
use crate::walker::sample_spec;
use vstd::prelude::*;

verus! {

// Bytes as ASCII codes: 0x0a is a newline, 0x3d `=`, 0x5f `_`, 0x61 to
// 0x7a the lower-case letters.

/// How many fields a record holds.
pub const FIELD_COUNT: usize = 16;

/// The key of field `i`, in record order.
pub open spec fn field_key(i: int) -> Seq<u8> {
    if i == 0 {
        // eg_byte_size
        seq![0x65u8, 0x67u8, 0x5fu8, 0x62u8, 0x79u8, 0x74u8, 0x65u8, 0x5fu8, 0x73u8, 0x69u8, 0x7au8, 0x65u8]
    } else if i == 1 {
        // eg_current_execute_data
        seq![0x65u8, 0x67u8, 0x5fu8, 0x63u8, 0x75u8, 0x72u8, 0x72u8, 0x65u8, 0x6eu8, 0x74u8, 0x5fu8, 0x65u8, 0x78u8, 0x65u8, 0x63u8, 0x75u8, 0x74u8, 0x65u8, 0x5fu8, 0x64u8, 0x61u8, 0x74u8, 0x61u8]
    } else if i == 2 {
        // eg_vm_stack_top
        seq![0x65u8, 0x67u8, 0x5fu8, 0x76u8, 0x6du8, 0x5fu8, 0x73u8, 0x74u8, 0x61u8, 0x63u8, 0x6bu8, 0x5fu8, 0x74u8, 0x6fu8, 0x70u8]
    } else if i == 3 {
        // eg_vm_stack_end
        seq![0x65u8, 0x67u8, 0x5fu8, 0x76u8, 0x6du8, 0x5fu8, 0x73u8, 0x74u8, 0x61u8, 0x63u8, 0x6bu8, 0x5fu8, 0x65u8, 0x6eu8, 0x64u8]
    } else if i == 4 {
        // eg_vm_stack
        seq![0x65u8, 0x67u8, 0x5fu8, 0x76u8, 0x6du8, 0x5fu8, 0x73u8, 0x74u8, 0x61u8, 0x63u8, 0x6bu8]
    } else if i == 5 {
        // ed_byte_size
        seq![0x65u8, 0x64u8, 0x5fu8, 0x62u8, 0x79u8, 0x74u8, 0x65u8, 0x5fu8, 0x73u8, 0x69u8, 0x7au8, 0x65u8]
    } else if i == 6 {
        // ed_this
        seq![0x65u8, 0x64u8, 0x5fu8, 0x74u8, 0x68u8, 0x69u8, 0x73u8]
    } else if i == 7 {
        // ed_func
        seq![0x65u8, 0x64u8, 0x5fu8, 0x66u8, 0x75u8, 0x6eu8, 0x63u8]
    } else if i == 8 {
        // ed_prev_execute_data
        seq![0x65u8, 0x64u8, 0x5fu8, 0x70u8, 0x72u8, 0x65u8, 0x76u8, 0x5fu8, 0x65u8, 0x78u8, 0x65u8, 0x63u8, 0x75u8, 0x74u8, 0x65u8, 0x5fu8, 0x64u8, 0x61u8, 0x74u8, 0x61u8]
    } else if i == 9 {
        // fu_function_name
        seq![0x66u8, 0x75u8, 0x5fu8, 0x66u8, 0x75u8, 0x6eu8, 0x63u8, 0x74u8, 0x69u8, 0x6fu8, 0x6eu8, 0x5fu8, 0x6eu8, 0x61u8, 0x6du8, 0x65u8]
    } else if i == 10 {
        // fu_scope
        seq![0x66u8, 0x75u8, 0x5fu8, 0x73u8, 0x63u8, 0x6fu8, 0x70u8, 0x65u8]
    } else if i == 11 {
        // zstr_len
        seq![0x7au8, 0x73u8, 0x74u8, 0x72u8, 0x5fu8, 0x6cu8, 0x65u8, 0x6eu8]
    } else if i == 12 {
        // zstr_val
        seq![0x7au8, 0x73u8, 0x74u8, 0x72u8, 0x5fu8, 0x76u8, 0x61u8, 0x6cu8]
    } else if i == 13 {
        // stack_byte_size
        seq![0x73u8, 0x74u8, 0x61u8, 0x63u8, 0x6bu8, 0x5fu8, 0x62u8, 0x79u8, 0x74u8, 0x65u8, 0x5fu8, 0x73u8, 0x69u8, 0x7au8, 0x65u8]
    } else if i == 14 {
        // stack_end
        seq![0x73u8, 0x74u8, 0x61u8, 0x63u8, 0x6bu8, 0x5fu8, 0x65u8, 0x6eu8, 0x64u8]
    } else {
        // ce_name
        seq![0x63u8, 0x65u8, 0x5fu8, 0x6eu8, 0x61u8, 0x6du8, 0x65u8]
    }
}


/// The key of field `i`.
pub fn record_key(i: usize) -> (r: Vec<u8>)
    requires
        i < FIELD_COUNT,
    ensures
        r@ == field_key(i as int),
{
    if i == 0 {
        vec![0x65u8, 0x67u8, 0x5fu8, 0x62u8, 0x79u8, 0x74u8, 0x65u8, 0x5fu8, 0x73u8, 0x69u8, 0x7au8, 0x65u8]
    } else if i == 1 {
        vec![0x65u8, 0x67u8, 0x5fu8, 0x63u8, 0x75u8, 0x72u8, 0x72u8, 0x65u8, 0x6eu8, 0x74u8, 0x5fu8, 0x65u8, 0x78u8, 0x65u8, 0x63u8, 0x75u8, 0x74u8, 0x65u8, 0x5fu8, 0x64u8, 0x61u8, 0x74u8, 0x61u8]
    } else if i == 2 {
        vec![0x65u8, 0x67u8, 0x5fu8, 0x76u8, 0x6du8, 0x5fu8, 0x73u8, 0x74u8, 0x61u8, 0x63u8, 0x6bu8, 0x5fu8, 0x74u8, 0x6fu8, 0x70u8]
    } else if i == 3 {
        vec![0x65u8, 0x67u8, 0x5fu8, 0x76u8, 0x6du8, 0x5fu8, 0x73u8, 0x74u8, 0x61u8, 0x63u8, 0x6bu8, 0x5fu8, 0x65u8, 0x6eu8, 0x64u8]
    } else if i == 4 {
        vec![0x65u8, 0x67u8, 0x5fu8, 0x76u8, 0x6du8, 0x5fu8, 0x73u8, 0x74u8, 0x61u8, 0x63u8, 0x6bu8]
    } else if i == 5 {
        vec![0x65u8, 0x64u8, 0x5fu8, 0x62u8, 0x79u8, 0x74u8, 0x65u8, 0x5fu8, 0x73u8, 0x69u8, 0x7au8, 0x65u8]
    } else if i == 6 {
        vec![0x65u8, 0x64u8, 0x5fu8, 0x74u8, 0x68u8, 0x69u8, 0x73u8]
    } else if i == 7 {
        vec![0x65u8, 0x64u8, 0x5fu8, 0x66u8, 0x75u8, 0x6eu8, 0x63u8]
    } else if i == 8 {
        vec![0x65u8, 0x64u8, 0x5fu8, 0x70u8, 0x72u8, 0x65u8, 0x76u8, 0x5fu8, 0x65u8, 0x78u8, 0x65u8, 0x63u8, 0x75u8, 0x74u8, 0x65u8, 0x5fu8, 0x64u8, 0x61u8, 0x74u8, 0x61u8]
    } else if i == 9 {
        vec![0x66u8, 0x75u8, 0x5fu8, 0x66u8, 0x75u8, 0x6eu8, 0x63u8, 0x74u8, 0x69u8, 0x6fu8, 0x6eu8, 0x5fu8, 0x6eu8, 0x61u8, 0x6du8, 0x65u8]
    } else if i == 10 {
        vec![0x66u8, 0x75u8, 0x5fu8, 0x73u8, 0x63u8, 0x6fu8, 0x70u8, 0x65u8]
    } else if i == 11 {
        vec![0x7au8, 0x73u8, 0x74u8, 0x72u8, 0x5fu8, 0x6cu8, 0x65u8, 0x6eu8]
    } else if i == 12 {
        vec![0x7au8, 0x73u8, 0x74u8, 0x72u8, 0x5fu8, 0x76u8, 0x61u8, 0x6cu8]
    } else if i == 13 {
        vec![0x73u8, 0x74u8, 0x61u8, 0x63u8, 0x6bu8, 0x5fu8, 0x62u8, 0x79u8, 0x74u8, 0x65u8, 0x5fu8, 0x73u8, 0x69u8, 0x7au8, 0x65u8]
    } else if i == 14 {
        vec![0x73u8, 0x74u8, 0x61u8, 0x63u8, 0x6bu8, 0x5fu8, 0x65u8, 0x6eu8, 0x64u8]
    } else {
        vec![0x63u8, 0x65u8, 0x5fu8, 0x6eu8, 0x61u8, 0x6du8, 0x65u8]
    }
}


/// The value of field `i` of `d`.
pub open spec fn field_of(d: LayoutDescriptor, i: int) -> usize {
    if i == 0 {
        d.eg_byte_size
    } else if i == 1 {
        d.eg_current_execute_data
    } else if i == 2 {
        d.eg_vm_stack_top
    } else if i == 3 {
        d.eg_vm_stack_end
    } else if i == 4 {
        d.eg_vm_stack
    } else if i == 5 {
        d.ed_byte_size
    } else if i == 6 {
        d.ed_this
    } else if i == 7 {
        d.ed_func
    } else if i == 8 {
        d.ed_prev_execute_data
    } else if i == 9 {
        d.fu_function_name
    } else if i == 10 {
        d.fu_scope
    } else if i == 11 {
        d.zstr_len
    } else if i == 12 {
        d.zstr_val
    } else if i == 13 {
        d.stack_byte_size
    } else if i == 14 {
        d.stack_end
    } else {
        d.ce_name
    }
}

fn field_value(d: &LayoutDescriptor, i: usize) -> (r: usize)
    requires
        i < FIELD_COUNT,
    ensures
        r == field_of(*d, i as int),
{
    if i == 0 {
        d.eg_byte_size
    } else if i == 1 {
        d.eg_current_execute_data
    } else if i == 2 {
        d.eg_vm_stack_top
    } else if i == 3 {
        d.eg_vm_stack_end
    } else if i == 4 {
        d.eg_vm_stack
    } else if i == 5 {
        d.ed_byte_size
    } else if i == 6 {
        d.ed_this
    } else if i == 7 {
        d.ed_func
    } else if i == 8 {
        d.ed_prev_execute_data
    } else if i == 9 {
        d.fu_function_name
    } else if i == 10 {
        d.fu_scope
    } else if i == 11 {
        d.zstr_len
    } else if i == 12 {
        d.zstr_val
    } else if i == 13 {
        d.stack_byte_size
    } else if i == 14 {
        d.stack_end
    } else {
        d.ce_name
    }
}


/// The descriptor whose fields, in record order, are `v`.
pub open spec fn descriptor_of(v: Seq<usize>, addr: u64) -> LayoutDescriptor {
    LayoutDescriptor {
        eg_byte_size: v[0],
        eg_current_execute_data: v[1],
        eg_vm_stack_top: v[2],
        eg_vm_stack_end: v[3],
        eg_vm_stack: v[4],
        ed_byte_size: v[5],
        ed_this: v[6],
        ed_func: v[7],
        ed_prev_execute_data: v[8],
        fu_function_name: v[9],
        fu_scope: v[10],
        zstr_len: v[11],
        zstr_val: v[12],
        stack_byte_size: v[13],
        stack_end: v[14],
        ce_name: v[15],
        executor_globals_address: addr,
    }
}


/// The line for field `i`, without its newline.
pub open spec fn record_line(d: LayoutDescriptor, i: int) -> Seq<u8> {
    field_key(i) + seq![0x3du8] + dec_digits(field_of(d, i) as nat)
}

/// The first `n` lines of the record of `d`, each ended by a newline.
pub open spec fn record_prefix(d: LayoutDescriptor, n: nat) -> Seq<u8>
    decreases n,
{
    if n == 0 {
        seq![]
    } else {
        record_prefix(d, (n - 1) as nat) + record_line(d, n - 1) + seq![0x0au8]
    }
}

pub open spec fn format_record(d: LayoutDescriptor) -> Seq<u8> {
    record_prefix(d, FIELD_COUNT as nat)
}

/// Writes the record of `d`.
pub fn to_record(d: &LayoutDescriptor) -> (r: Vec<u8>)
    ensures
        r@ == format_record(*d),
{
    let mut out: Vec<u8> = Vec::new();
    let mut i: usize = 0;
    while i < FIELD_COUNT
        invariant
            i <= FIELD_COUNT,
            out@ == record_prefix(*d, i as nat),
        decreases FIELD_COUNT - i,
    {
        let key = record_key(i);
        let ghost start = out@;
        let mut k: usize = 0;
        while k < key.len()
            invariant
                k <= key@.len(),
                out@ == start + key@.take(k as int),
            decreases key.len() - k,
        {
            out.push(key[k]);
            assert(key@.take(k + 1) =~= key@.take(k as int).push(key@[k as int]));
            k = k + 1;
        }
        assert(key@.take(k as int) =~= key@);
        out.push(0x3du8);
        push_dec(&mut out, field_value(d, i));
        out.push(0x0au8);
        assert(out@ =~= record_prefix(*d, (i + 1) as nat));
        i = i + 1;
    }
    out
}

/// Why a record could not be read.
#[derive(Clone, Copy, Debug, PartialEq, Eq, Structural)]
pub enum RecordError {
    /// No line holds the key of this field.
    MissingField { field: usize },
    /// The field's value is not a decimal number that fits in `usize`.
    BadValue { field: usize },
}

/// The value text of the last line of `lines` that reads `key=value`
/// (split at its only `=`).
pub open spec fn record_value(lines: Seq<Seq<u8>>, key: Seq<u8>) -> Option<Seq<u8>>
    decreases lines.len(),
{
    if lines.len() == 0 {
        None
    } else {
        let parts = split(lines.last(), 0x3du8);
        if parts.len() == 2 && parts[0] == key {
            Some(parts[1])
        } else {
            record_value(lines.drop_last(), key)
        }
    }
}

/// Field `i` as `lines` give it.
pub open spec fn field_in(lines: Seq<Seq<u8>>, i: int) -> Result<usize, RecordError> {
    match record_value(lines, field_key(i)) {
        None => Err(RecordError::MissingField { field: i as usize }),
        Some(v) => match parse_dec(v) {
            Some(n) => if n <= usize::MAX {
                Ok(n as usize)
            } else {
                Err(RecordError::BadValue { field: i as usize })
            },
            None => Err(RecordError::BadValue { field: i as usize }),
        },
    }
}

/// The first `n` fields as `lines` give them, or the first that fails.
pub open spec fn fields_in(lines: Seq<Seq<u8>>, n: nat) -> Result<Seq<usize>, RecordError>
    decreases n,
{
    if n == 0 {
        Ok(seq![])
    } else {
        match fields_in(lines, (n - 1) as nat) {
            Err(e) => Err(e),
            Ok(v) => match field_in(lines, n - 1) {
                Err(e) => Err(e),
                Ok(x) => Ok(v.push(x)),
            },
        }
    }
}

/// The descriptor that record `text` gives, with the globals at `addr`.
pub open spec fn parse_record(text: Seq<u8>, addr: u64) -> Result<LayoutDescriptor, RecordError> {
    match fields_in(split(text, 0x0au8), FIELD_COUNT as nat) {
        Ok(v) => Ok(descriptor_of(v, addr)),
        Err(e) => Err(e),
    }
}

/// The value text of the last line that holds `key`.
fn find_value(lines: &Vec<Vec<u8>>, key: &Vec<u8>) -> (r: Option<Vec<u8>>)
    ensures
        match record_value(pieces(lines@), key@) {
            Some(v) => r matches Some(x) && x@ == v,
            None => r is None,
        },
{
    let ghost all = pieces(lines@);
    let mut i = lines.len();
    assert(all.take(i as int) =~= all);
    while i > 0
        invariant
            i <= lines@.len(),
            all == pieces(lines@),
            record_value(all, key@) == record_value(all.take(i as int), key@),
        decreases i,
    {
        assert(all.take(i as int).drop_last() =~= all.take(i - 1));
        assert(all.take(i as int).last() == lines@[i - 1]@);
        let parts = split_bytes(&lines[i - 1], 0x3du8);
        if parts.len() == 2 {
            let same = bytes_equal(&parts[0], key);
            if same {
                return Some(parts[1].clone());
            }
        }
        i = i - 1;
    }
    None
}

impl LayoutDescriptor {
    /// Reads a descriptor out of record `text`; the globals sit at
    /// `executor_globals_address`.
    pub fn from_record(text: &Vec<u8>, executor_globals_address: u64) -> (r: Result<
        LayoutDescriptor,
        RecordError,
    >)
        ensures
            r == parse_record(text@, executor_globals_address),
    {
        let lines = split_bytes(text, 0x0au8);
        let ghost all = pieces(lines@);
        let mut vals: Vec<usize> = Vec::new();
        let mut i: usize = 0;
        while i < FIELD_COUNT
            invariant
                i <= FIELD_COUNT,
                all == pieces(lines@),
                all == split(text@, 0x0au8),
                fields_in(all, i as nat) == Ok::<Seq<usize>, RecordError>(vals@),
                vals@.len() == i,
            decreases FIELD_COUNT - i,
        {
            let key = record_key(i);
            let x = match find_value(&lines, &key) {
                None => {
                    let e = RecordError::MissingField { field: i };
                    proof {
                        lemma_fields_error_persists(all, (i + 1) as nat, e);
                    }
                    return Err(e);
                },
                Some(v) => match parse_dec_bytes(&v) {
                    None => {
                        let e = RecordError::BadValue { field: i };
                        proof {
                            lemma_fields_error_persists(all, (i + 1) as nat, e);
                        }
                        return Err(e);
                    },
                    Some(x) => x,
                },
            };
            vals.push(x);
            i = i + 1;
        }
        Ok(
            LayoutDescriptor {
                eg_byte_size: vals[0],
                eg_current_execute_data: vals[1],
                eg_vm_stack_top: vals[2],
                eg_vm_stack_end: vals[3],
                eg_vm_stack: vals[4],
                ed_byte_size: vals[5],
                ed_this: vals[6],
                ed_func: vals[7],
                ed_prev_execute_data: vals[8],
                fu_function_name: vals[9],
                fu_scope: vals[10],
                zstr_len: vals[11],
                zstr_val: vals[12],
                stack_byte_size: vals[13],
                stack_end: vals[14],
                ce_name: vals[15],
                executor_globals_address,
            },

        )
    }

    /// Writes the record of this descriptor.
    pub fn to_record(&self) -> (r: Vec<u8>)
        ensures
            r@ == format_record(*self),
    {
        to_record(self)
    }
}

proof fn lemma_fields_error_persists(lines: Seq<Seq<u8>>, n: nat, e: RecordError)
    requires
        1 <= n <= FIELD_COUNT,
        fields_in(lines, n) == Err::<Seq<usize>, RecordError>(e),
    ensures
        fields_in(lines, FIELD_COUNT as nat) == Err::<Seq<usize>, RecordError>(e),
    decreases FIELD_COUNT - n,
{
    if n < FIELD_COUNT {
        lemma_fields_error_persists(lines, n + 1, e);
    }
}


/// Neither `=` nor a newline occurs in `s`.
pub open spec fn plain(s: Seq<u8>) -> bool {
    forall|k: int| 0 <= k < s.len() ==> #[trigger] s[k] != 0x3du8 && s[k] != 0x0au8
}

proof fn lemma_keys_plain(i: int)
    requires
        0 <= i < FIELD_COUNT,
    ensures
        plain(field_key(i)),
{
    let key = field_key(i);
    assert forall|k: int| 0 <= k < key.len() implies #[trigger] key[k] != 0x3du8 && key[k] != 0x0au8 by {
        assert(key[k] == 0x5fu8 || (0x61u8 <= key[k] && key[k] <= 0x7au8));
    }
}

proof fn lemma_keys_distinct(i: int, j: int)
    requires
        0 <= i < FIELD_COUNT,
        0 <= j < FIELD_COUNT,
        i != j,
    ensures
        field_key(i) != field_key(j),
{
    assert(field_key(0).len() != field_key(1).len());
    assert(field_key(0).len() != field_key(2).len());
    assert(field_key(0).len() != field_key(3).len());
    assert(field_key(0).len() != field_key(4).len());
    assert(field_key(0)[1] != field_key(5)[1]);
    assert(field_key(0).len() != field_key(6).len());
    assert(field_key(0).len() != field_key(7).len());
    assert(field_key(0).len() != field_key(8).len());
    assert(field_key(0).len() != field_key(9).len());
    assert(field_key(0).len() != field_key(10).len());
    assert(field_key(0).len() != field_key(11).len());
    assert(field_key(0).len() != field_key(12).len());
    assert(field_key(0).len() != field_key(13).len());
    assert(field_key(0).len() != field_key(14).len());
    assert(field_key(0).len() != field_key(15).len());
    assert(field_key(1).len() != field_key(2).len());
    assert(field_key(1).len() != field_key(3).len());
    assert(field_key(1).len() != field_key(4).len());
    assert(field_key(1).len() != field_key(5).len());
    assert(field_key(1).len() != field_key(6).len());
    assert(field_key(1).len() != field_key(7).len());
    assert(field_key(1).len() != field_key(8).len());
    assert(field_key(1).len() != field_key(9).len());
    assert(field_key(1).len() != field_key(10).len());
    assert(field_key(1).len() != field_key(11).len());
    assert(field_key(1).len() != field_key(12).len());
    assert(field_key(1).len() != field_key(13).len());
    assert(field_key(1).len() != field_key(14).len());
    assert(field_key(1).len() != field_key(15).len());
    assert(field_key(2)[12] != field_key(3)[12]);
    assert(field_key(2).len() != field_key(4).len());
    assert(field_key(2).len() != field_key(5).len());
    assert(field_key(2).len() != field_key(6).len());
    assert(field_key(2).len() != field_key(7).len());
    assert(field_key(2).len() != field_key(8).len());
    assert(field_key(2).len() != field_key(9).len());
    assert(field_key(2).len() != field_key(10).len());
    assert(field_key(2).len() != field_key(11).len());
    assert(field_key(2).len() != field_key(12).len());
    assert(field_key(2)[0] != field_key(13)[0]);
    assert(field_key(2).len() != field_key(14).len());
    assert(field_key(2).len() != field_key(15).len());
    assert(field_key(3).len() != field_key(4).len());
    assert(field_key(3).len() != field_key(5).len());
    assert(field_key(3).len() != field_key(6).len());
    assert(field_key(3).len() != field_key(7).len());
    assert(field_key(3).len() != field_key(8).len());
    assert(field_key(3).len() != field_key(9).len());
    assert(field_key(3).len() != field_key(10).len());
    assert(field_key(3).len() != field_key(11).len());
    assert(field_key(3).len() != field_key(12).len());
    assert(field_key(3)[0] != field_key(13)[0]);
    assert(field_key(3).len() != field_key(14).len());
    assert(field_key(3).len() != field_key(15).len());
    assert(field_key(4).len() != field_key(5).len());
    assert(field_key(4).len() != field_key(6).len());
    assert(field_key(4).len() != field_key(7).len());
    assert(field_key(4).len() != field_key(8).len());
    assert(field_key(4).len() != field_key(9).len());
    assert(field_key(4).len() != field_key(10).len());
    assert(field_key(4).len() != field_key(11).len());
    assert(field_key(4).len() != field_key(12).len());
    assert(field_key(4).len() != field_key(13).len());
    assert(field_key(4).len() != field_key(14).len());
    assert(field_key(4).len() != field_key(15).len());
    assert(field_key(5).len() != field_key(6).len());
    assert(field_key(5).len() != field_key(7).len());
    assert(field_key(5).len() != field_key(8).len());
    assert(field_key(5).len() != field_key(9).len());
    assert(field_key(5).len() != field_key(10).len());
    assert(field_key(5).len() != field_key(11).len());
    assert(field_key(5).len() != field_key(12).len());
    assert(field_key(5).len() != field_key(13).len());
    assert(field_key(5).len() != field_key(14).len());
    assert(field_key(5).len() != field_key(15).len());
    assert(field_key(6)[3] != field_key(7)[3]);
    assert(field_key(6).len() != field_key(8).len());
    assert(field_key(6).len() != field_key(9).len());
    assert(field_key(6).len() != field_key(10).len());
    assert(field_key(6).len() != field_key(11).len());
    assert(field_key(6).len() != field_key(12).len());
    assert(field_key(6).len() != field_key(13).len());
    assert(field_key(6).len() != field_key(14).len());
    assert(field_key(6)[0] != field_key(15)[0]);
    assert(field_key(7).len() != field_key(8).len());
    assert(field_key(7).len() != field_key(9).len());
    assert(field_key(7).len() != field_key(10).len());
    assert(field_key(7).len() != field_key(11).len());
    assert(field_key(7).len() != field_key(12).len());
    assert(field_key(7).len() != field_key(13).len());
    assert(field_key(7).len() != field_key(14).len());
    assert(field_key(7)[0] != field_key(15)[0]);
    assert(field_key(8).len() != field_key(9).len());
    assert(field_key(8).len() != field_key(10).len());
    assert(field_key(8).len() != field_key(11).len());
    assert(field_key(8).len() != field_key(12).len());
    assert(field_key(8).len() != field_key(13).len());
    assert(field_key(8).len() != field_key(14).len());
    assert(field_key(8).len() != field_key(15).len());
    assert(field_key(9).len() != field_key(10).len());
    assert(field_key(9).len() != field_key(11).len());
    assert(field_key(9).len() != field_key(12).len());
    assert(field_key(9).len() != field_key(13).len());
    assert(field_key(9).len() != field_key(14).len());
    assert(field_key(9).len() != field_key(15).len());
    assert(field_key(10)[0] != field_key(11)[0]);
    assert(field_key(10)[0] != field_key(12)[0]);
    assert(field_key(10).len() != field_key(13).len());
    assert(field_key(10).len() != field_key(14).len());
    assert(field_key(10).len() != field_key(15).len());
    assert(field_key(11)[5] != field_key(12)[5]);
    assert(field_key(11).len() != field_key(13).len());
    assert(field_key(11).len() != field_key(14).len());
    assert(field_key(11).len() != field_key(15).len());
    assert(field_key(12).len() != field_key(13).len());
    assert(field_key(12).len() != field_key(14).len());
    assert(field_key(12).len() != field_key(15).len());
    assert(field_key(13).len() != field_key(14).len());
    assert(field_key(13).len() != field_key(15).len());
    assert(field_key(14).len() != field_key(15).len());
}

/// Splitting `a + b`, where `b` holds no separator, extends the last
/// piece of `a` by `b`.
proof fn lemma_split_plain(a: Seq<u8>, b: Seq<u8>, sep: u8)
    requires
        forall|k: int| 0 <= k < b.len() ==> #[trigger] b[k] != sep,
    ensures
        split(a + b, sep) == split(a, sep).update(
            split(a, sep).len() - 1,
            split(a, sep).last() + b,
        ),
    decreases b.len(),
{
    lemma_split_len(a, sep);
    let s = split(a, sep);
    if b.len() == 0 {
        assert(a + b =~= a);
        assert(s.last() + b =~= s.last());
        assert(s.update(s.len() - 1, s.last()) =~= s);
    } else {
        let b2 = b.drop_last();
        lemma_split_plain(a, b2, sep);
        assert((a + b).drop_last() =~= a + b2);
        assert((a + b).last() == b.last());
        assert(s.last() + b =~= (s.last() + b2).push(b.last()));
        assert(split(a + b, sep) =~= s.update(s.len() - 1, s.last() + b));
    }
}

/// The lines of a record's first `n` fields, without newlines.
pub open spec fn record_lines(d: LayoutDescriptor, n: nat) -> Seq<Seq<u8>> {
    Seq::new(n, |i: int| record_line(d, i))
}

proof fn lemma_line_plain(d: LayoutDescriptor, i: int)
    requires
        0 <= i < FIELD_COUNT,
    ensures
        forall|k: int| 0 <= k < record_line(d, i).len() ==> #[trigger] record_line(d, i)[k] != 0x0au8,
        split(record_line(d, i), 0x3du8) == seq![field_key(i), dec_digits(field_of(d, i) as nat)],
{
    let key = field_key(i);
    let digits = dec_digits(field_of(d, i) as nat);
    lemma_keys_plain(i);
    lemma_dec_round_trip(field_of(d, i) as nat);
    let line = record_line(d, i);
    assert forall|k: int| 0 <= k < line.len() implies #[trigger] line[k] != 0x0au8 by {
        if k < key.len() {
            assert(line[k] == key[k]);
            assert(key[k] != 0x0au8);
        } else if k > key.len() {
            assert(line[k] == digits[k - key.len() - 1]);
            assert(crate::text::dec_digit(digits[k - key.len() - 1]));
        } else {
            assert(line[k] == 0x3du8);
        }
    }
    assert forall|k: int| 0 <= k < digits.len() implies #[trigger] digits[k] != 0x3du8 by {
        assert(crate::text::dec_digit(digits[k]));
    }
    lemma_split_plain(Seq::empty(), key, 0x3du8);
    assert(Seq::<u8>::empty() + key =~= key);
    assert(split(Seq::<u8>::empty(), 0x3du8) =~= seq![Seq::<u8>::empty()]);
    assert(Seq::<u8>::empty() + key =~= key);
    assert(split(key, 0x3du8) =~= seq![key]);
    let kp = key.push(0x3du8);
    assert(kp.drop_last() =~= key);
    assert(split(kp, 0x3du8) =~= seq![key, Seq::<u8>::empty()]);
    lemma_split_plain(kp, digits, 0x3du8);
    assert(kp + digits =~= line);
    assert(Seq::<u8>::empty() + digits =~= digits);
    assert(split(line, 0x3du8) =~= seq![key, digits]);
}

proof fn lemma_record_split(d: LayoutDescriptor, n: nat)
    requires
        n <= FIELD_COUNT,
    ensures
        split(record_prefix(d, n), 0x0au8) == record_lines(d, n).push(Seq::empty()),
    decreases n,
{
    if n == 0 {
        assert(split(record_prefix(d, 0), 0x0au8) =~= record_lines(d, 0).push(Seq::empty()));
    } else {
        lemma_record_split(d, (n - 1) as nat);
        let p = record_prefix(d, (n - 1) as nat);
        let line = record_line(d, n - 1);
        lemma_line_plain(d, n - 1);
        lemma_split_plain(p, line, 0x0au8);
        let whole = p + line + seq![0x0au8];
        assert(whole.drop_last() =~= p + line);
        assert(Seq::<u8>::empty() + line =~= line);
        assert(split(p + line, 0x0au8) =~= record_lines(d, n));
        assert(split(whole, 0x0au8) =~= record_lines(d, n).push(Seq::empty()));
    }
}

proof fn lemma_record_value(d: LayoutDescriptor, n: nat, i: int)
    requires
        0 <= i < n <= FIELD_COUNT,
    ensures
        record_value(record_lines(d, n), field_key(i)) == Some(dec_digits(field_of(d, i) as nat)),
    decreases n,
{
    let lines = record_lines(d, n);
    lemma_line_plain(d, n - 1);
    assert(lines.last() == record_line(d, n - 1));
    if n - 1 != i {
        lemma_keys_distinct(n - 1, i);
        assert(lines.drop_last() =~= record_lines(d, (n - 1) as nat));
        lemma_record_value(d, (n - 1) as nat, i);
    }
}

proof fn lemma_record_fields(d: LayoutDescriptor, n: nat)
    requires
        n <= FIELD_COUNT,
    ensures
        fields_in(record_lines(d, FIELD_COUNT as nat).push(Seq::empty()), n) == Ok::<
            Seq<usize>,
            RecordError,
        >(Seq::new(n, |i: int| field_of(d, i))),
    decreases n,
{
    if n == 0 {
        assert(Seq::new(0, |i: int| field_of(d, i)) =~= Seq::<usize>::empty());
    } else {
        lemma_record_fields(d, (n - 1) as nat);
        let lines = record_lines(d, FIELD_COUNT as nat).push(Seq::empty());
        lemma_record_value(d, FIELD_COUNT as nat, n - 1);
        assert(lines.drop_last() =~= record_lines(d, FIELD_COUNT as nat));
        assert(lines.last() == Seq::<u8>::empty());
        assert(split(lines.last(), 0x3du8) =~= seq![Seq::<u8>::empty()]);
        assert(record_value(lines, field_key(n - 1)) == record_value(
            record_lines(d, FIELD_COUNT as nat),
            field_key(n - 1),
        ));
        lemma_dec_round_trip(field_of(d, n - 1) as nat);
        assert(field_in(lines, n - 1) == Ok::<usize, RecordError>(field_of(d, n - 1)));
        assert(Seq::new((n - 1) as nat, |i: int| field_of(d, i)).push(field_of(d, n - 1)) =~= Seq::new(
            n,
            |i: int| field_of(d, i),
        ));
    }
}

/// A persisted descriptor reads back as the same descriptor, so sampling
/// with the one read back yields what sampling with the one written does.
pub proof fn lemma_record_round_trip<R: ProcessReader>(rd: &R, d: LayoutDescriptor)
    ensures
        parse_record(format_record(d), d.executor_globals_address) == Ok::<
            LayoutDescriptor,
            RecordError,
        >(d),
        sample_spec(rd, parse_record(format_record(d), d.executor_globals_address)->Ok_0)
            == sample_spec(rd, d),
{
    lemma_record_split(d, FIELD_COUNT as nat);
    lemma_record_fields(d, FIELD_COUNT as nat);
    let v = Seq::new(FIELD_COUNT as nat, |i: int| field_of(d, i));
    assert(descriptor_of(v, d.executor_globals_address) == d);
}

} // verus!
