//! Extraction of struct and union layouts from DWARF debugging entries.
//!
//! The entries come in depth-first order, each with its debug-info offset
//! (the global id of the type it describes), its tag and its attributes.

use crate::types::{fit_size, get_type_size, type_size, TypeNode};
use std::collections::HashMap;
use vstd::prelude::*;

verus! {

broadcast use vstd::std_specs::hash::group_hash_axioms;

pub const DW_TAG_ARRAY_TYPE: u16 = 0x01;
pub const DW_TAG_ENUMERATION_TYPE: u16 = 0x04;
pub const DW_TAG_MEMBER: u16 = 0x0d;
pub const DW_TAG_POINTER_TYPE: u16 = 0x0f;
pub const DW_TAG_STRUCTURE_TYPE: u16 = 0x13;
pub const DW_TAG_TYPEDEF: u16 = 0x16;
pub const DW_TAG_UNION_TYPE: u16 = 0x17;
pub const DW_TAG_SUBRANGE_TYPE: u16 = 0x21;
pub const DW_TAG_BASE_TYPE: u16 = 0x24;
pub const DW_TAG_CONST_TYPE: u16 = 0x26;

pub const DW_AT_NAME: u16 = 0x03;
pub const DW_AT_BYTE_SIZE: u16 = 0x0b;
pub const DW_AT_BIT_SIZE: u16 = 0x0d;
pub const DW_AT_UPPER_BOUND: u16 = 0x2f;
pub const DW_AT_DATA_MEMBER_LOCATION: u16 = 0x38;
pub const DW_AT_DECLARATION: u16 = 0x3c;
pub const DW_AT_TYPE: u16 = 0x49;

/// The value of one attribute, reduced to what the extractor reads.
#[derive(Clone, Debug)]
pub enum AttrValue {
    /// An unsigned constant.
    Unsigned(u64),
    /// A reference to another entry, as a debug-info offset.
    Reference(usize),
    /// A string, inline or out of the string section.
    Text(String),
    /// A flag.
    Flag(bool),
    /// Any other form.
    Other,
}

/// One attribute of a debugging entry.
#[derive(Clone, Debug)]
pub struct DieAttr {
    pub name: u16,
    pub value: AttrValue,
}

/// One debugging entry: its debug-info offset, tag and attributes.
#[derive(Clone, Debug)]
pub struct DieEntry {
    pub offset: usize,
    pub tag: u16,
    pub attrs: Vec<DieAttr>,
}

/// Why extraction failed.
#[derive(Clone, Copy, Debug, PartialEq, Eq, Structural)]
pub enum DwarfError {
    /// A size, offset or bound attribute that is not an unsigned constant
    /// fitting in `usize`.
    UnsupportedAttribute { entry: usize, attribute: u16 },
}

/// A member of a struct or union.
#[derive(Clone, Debug)]
pub struct CMember {
    pub name: String,
    pub byte_size: usize,
    pub byte_offset: usize,
    pub type_id: usize,
}

pub struct MemberView {
    pub name: Seq<char>,
    pub byte_size: usize,
    pub byte_offset: usize,
    pub type_id: usize,
}

impl View for CMember {
    type V = MemberView;

    open spec fn view(&self) -> MemberView {
        MemberView {
            name: self.name@,
            byte_size: self.byte_size,
            byte_offset: self.byte_offset,
            type_id: self.type_id,
        }
    }
}

/// A struct with its members, in the order of their entries.
#[derive(Clone, Debug)]
pub struct CStruct {
    pub id: usize,
    pub name: String,
    pub byte_size: usize,
    pub members: Vec<CMember>,
}

/// A union with its members, in the order of their entries.
#[derive(Clone, Debug)]
pub struct CUnion {
    pub id: usize,
    pub name: String,
    pub byte_size: usize,
    pub members: Vec<CMember>,
}

/// What a struct or a union holds.
pub struct AggregateView {
    pub id: usize,
    pub name: Seq<char>,
    pub byte_size: usize,
    pub members: Seq<MemberView>,
}

pub open spec fn members_view(ms: Seq<CMember>) -> Seq<MemberView> {
    ms.map_values(|m: CMember| m@)
}

impl View for CStruct {
    type V = AggregateView;

    open spec fn view(&self) -> AggregateView {
        AggregateView {
            id: self.id,
            name: self.name@,
            byte_size: self.byte_size,
            members: members_view(self.members@),
        }
    }
}

impl View for CUnion {
    type V = AggregateView;

    open spec fn view(&self) -> AggregateView {
        AggregateView {
            id: self.id,
            name: self.name@,
            byte_size: self.byte_size,
            members: members_view(self.members@),
        }
    }
}

/// Index of the last member named `name`.
pub open spec fn last_member(ms: Seq<MemberView>, name: Seq<char>) -> Option<int>
    decreases ms.len(),
{
    if ms.len() == 0 {
        None
    } else if ms.last().name == name {
        Some(ms.len() - 1)
    } else {
        last_member(ms.drop_last(), name)
    }
}

/// Index of the last aggregate named `name`.
pub open spec fn last_named(s: Seq<AggregateView>, name: Seq<char>) -> Option<int>
    decreases s.len(),
{
    if s.len() == 0 {
        None
    } else if s.last().name == name {
        Some(s.len() - 1)
    } else {
        last_named(s.drop_last(), name)
    }
}

/// Index of the last aggregate with id `id`.
pub open spec fn last_with_id(s: Seq<AggregateView>, id: usize) -> Option<int>
    decreases s.len(),
{
    if s.len() == 0 {
        None
    } else if s.last().id == id {
        Some(s.len() - 1)
    } else {
        last_with_id(s.drop_last(), id)
    }
}

proof fn lemma_last_member_range(ms: Seq<MemberView>, name: Seq<char>)
    ensures
        last_member(ms, name) matches Some(i) ==> 0 <= i < ms.len() && ms[i].name == name,
    decreases ms.len(),
{
    if ms.len() > 0 {
        lemma_last_member_range(ms.drop_last(), name);
    }
}

proof fn lemma_last_named_range(s: Seq<AggregateView>, name: Seq<char>)
    ensures
        last_named(s, name) matches Some(i) ==> 0 <= i < s.len() && s[i].name == name,
    decreases s.len(),
{
    if s.len() > 0 {
        lemma_last_named_range(s.drop_last(), name);
    }
}

proof fn lemma_last_with_id_range(s: Seq<AggregateView>, id: usize)
    ensures
        last_with_id(s, id) matches Some(i) ==> 0 <= i < s.len() && s[i].id == id,
    decreases s.len(),
{
    if s.len() > 0 {
        lemma_last_with_id_range(s.drop_last(), id);
    }
}

/// Scans `ms` backwards for a member named `name`.
fn find_last_member<'a>(ms: &'a Vec<CMember>, name: &str) -> (r: Option<&'a CMember>)
    ensures
        match last_member(members_view(ms@), name@) {
            None => r is None,
            Some(i) => r matches Some(m) && *m == ms@[i],
        },
{
    let key = name.to_owned();
    let mut i = ms.len();
    assert(ms@.take(i as int) =~= ms@);
    while i > 0
        invariant
            i <= ms@.len(),
            key@ == name@,
            last_member(members_view(ms@), name@) == last_member(
                members_view(ms@.take(i as int)),
                name@,
            ),
        decreases i,
    {
        assert(members_view(ms@.take(i as int)).drop_last() =~= members_view(
            ms@.take(i - 1 as int),
        ));
        if ms[i - 1].name == key {
            return Some(&ms[i - 1]);
        }
        i = i - 1;
    }
    None
}

impl CStruct {
    /// The last member named `name`.
    pub fn find_member(&self, name: &str) -> (r: Option<&CMember>)
        ensures
            match last_member(self@.members, name@) {
                None => r is None,
                Some(i) => r matches Some(m) && m@ == self@.members[i],
            },
    {
        proof {
            lemma_last_member_range(self@.members, name@);
        }
        find_last_member(&self.members, name)
    }
}

impl CUnion {
    /// The last member named `name`.
    pub fn find_member(&self, name: &str) -> (r: Option<&CMember>)
        ensures
            match last_member(self@.members, name@) {
                None => r is None,
                Some(i) => r matches Some(m) && m@ == self@.members[i],
            },
    {
        proof {
            lemma_last_member_range(self@.members, name@);
        }
        find_last_member(&self.members, name)
    }
}


/// The attributes of one entry as the extractor reads them.
pub struct EntryFields {
    pub name: Seq<char>,
    pub size: usize,
    pub location: usize,
    pub type_id: usize,
    pub declaration: bool,
    pub count: usize,
}

/// Fields before any attribute is read; a subrange without a bound
/// counts one element.
pub open spec fn default_fields() -> EntryFields {
    EntryFields { name: seq![], size: 0, location: 0, type_id: 0, declaration: false, count: 1 }
}

pub open spec fn is_aggregate_tag(tag: u16) -> bool {
    tag == DW_TAG_STRUCTURE_TYPE || tag == DW_TAG_UNION_TYPE
}

pub open spec fn reads_name(tag: u16) -> bool {
    tag == DW_TAG_TYPEDEF || is_aggregate_tag(tag) || tag == DW_TAG_MEMBER || tag
        == DW_TAG_BASE_TYPE || tag == DW_TAG_ENUMERATION_TYPE
}

pub open spec fn reads_type(tag: u16) -> bool {
    tag == DW_TAG_TYPEDEF || tag == DW_TAG_MEMBER || tag == DW_TAG_POINTER_TYPE || tag
        == DW_TAG_ARRAY_TYPE || tag == DW_TAG_CONST_TYPE
}

/// Whether entries with `tag` read attribute `at` as a number.
pub open spec fn reads_number(tag: u16, at: u16) -> bool {
    ||| at == DW_AT_BYTE_SIZE && (is_aggregate_tag(tag) || tag == DW_TAG_BASE_TYPE || tag
        == DW_TAG_POINTER_TYPE || tag == DW_TAG_ENUMERATION_TYPE || tag == DW_TAG_MEMBER)
    ||| at == DW_AT_BIT_SIZE && (is_aggregate_tag(tag) || tag == DW_TAG_BASE_TYPE || tag
        == DW_TAG_MEMBER)
    ||| at == DW_AT_DATA_MEMBER_LOCATION && tag == DW_TAG_MEMBER
    ||| at == DW_AT_UPPER_BOUND && tag == DW_TAG_SUBRANGE_TYPE
}

/// A bit size counts whole bytes; an upper bound gives an element count.
pub open spec fn number_value(at: u16, v: nat) -> nat {
    if at == DW_AT_BIT_SIZE {
        v / 8
    } else if at == DW_AT_UPPER_BOUND {
        v + 1
    } else {
        v
    }
}

/// Where a number lands.  With `legacy` set, the byte and bit size of a
/// member are taken as its offset.
pub open spec fn store_number(f: EntryFields, tag: u16, at: u16, x: usize, legacy: bool) -> EntryFields {
    if at == DW_AT_UPPER_BOUND {
        EntryFields { count: x, ..f }
    } else if at == DW_AT_DATA_MEMBER_LOCATION || (tag == DW_TAG_MEMBER && legacy) {
        EntryFields { location: x, ..f }
    } else {
        EntryFields { size: x, ..f }
    }
}

pub open spec fn text_of(v: AttrValue) -> Seq<char> {
    match v {
        AttrValue::Text(s) => s@,
        _ => seq![],
    }
}

pub open spec fn ref_of(v: AttrValue) -> usize {
    match v {
        AttrValue::Reference(o) => o,
        _ => 0,
    }
}

pub open spec fn apply_attr(f: EntryFields, tag: u16, a: DieAttr, legacy: bool, entry: usize) -> Result<EntryFields, DwarfError> {
    if a.name == DW_AT_NAME && reads_name(tag) {
        Ok(EntryFields { name: text_of(a.value), ..f })
    } else if a.name == DW_AT_TYPE && reads_type(tag) {
        Ok(EntryFields { type_id: ref_of(a.value), ..f })
    } else if a.name == DW_AT_DECLARATION && is_aggregate_tag(tag) {
        match a.value {
            AttrValue::Flag(b) => Ok(EntryFields { declaration: b, ..f }),
            _ => Ok(f),
        }
    } else if reads_number(tag, a.name) {
        match a.value {
            AttrValue::Unsigned(v) => {
                let x = number_value(a.name, v as nat);
                if x <= usize::MAX {
                    Ok(store_number(f, tag, a.name, x as usize, legacy))
                } else {
                    Err(DwarfError::UnsupportedAttribute { entry, attribute: a.name })
                }
            },
            _ => Err(DwarfError::UnsupportedAttribute { entry, attribute: a.name }),
        }
    } else {
        Ok(f)
    }
}

/// The fields of an entry with `tag` and `attrs`, later attributes
/// overriding earlier ones; the first unusable number is an error.
pub open spec fn fields_of(tag: u16, attrs: Seq<DieAttr>, legacy: bool, entry: usize) -> Result<EntryFields, DwarfError>
    decreases attrs.len(),
{
    if attrs.len() == 0 {
        Ok(default_fields())
    } else {
        match fields_of(tag, attrs.drop_last(), legacy, entry) {
            Ok(f) => apply_attr(f, tag, attrs.last(), legacy, entry),
            Err(e) => Err(e),
        }
    }
}

proof fn lemma_fields_error_persists(
    tag: u16,
    attrs: Seq<DieAttr>,
    legacy: bool,
    entry: usize,
    n: int,
)
    requires
        0 <= n <= attrs.len(),
        fields_of(tag, attrs.take(n), legacy, entry) is Err,
    ensures
        fields_of(tag, attrs, legacy, entry) == fields_of(tag, attrs.take(n), legacy, entry),
    decreases attrs.len() - n,
{
    if n < attrs.len() {
        assert(attrs.take(n + 1).drop_last() =~= attrs.take(n));
        lemma_fields_error_persists(tag, attrs, legacy, entry, n + 1);
    } else {
        assert(attrs.take(n) =~= attrs);
    }
}

struct Fields {
    name: String,
    size: usize,
    location: usize,
    type_id: usize,
    declaration: bool,
    count: usize,
}

impl View for Fields {
    type V = EntryFields;

    closed spec fn view(&self) -> EntryFields {
        EntryFields {
            name: self.name@,
            size: self.size,
            location: self.location,
            type_id: self.type_id,
            declaration: self.declaration,
            count: self.count,
        }
    }
}

fn tag_reads_name(tag: u16) -> (r: bool)
    ensures
        r == reads_name(tag),
{
    tag == DW_TAG_TYPEDEF || tag == DW_TAG_STRUCTURE_TYPE || tag == DW_TAG_UNION_TYPE || tag
        == DW_TAG_MEMBER || tag == DW_TAG_BASE_TYPE || tag == DW_TAG_ENUMERATION_TYPE
}

fn tag_reads_type(tag: u16) -> (r: bool)
    ensures
        r == reads_type(tag),
{
    tag == DW_TAG_TYPEDEF || tag == DW_TAG_MEMBER || tag == DW_TAG_POINTER_TYPE || tag
        == DW_TAG_ARRAY_TYPE || tag == DW_TAG_CONST_TYPE
}

fn tag_reads_number(tag: u16, at: u16) -> (r: bool)
    ensures
        r == reads_number(tag, at),
{
    let aggregate = tag == DW_TAG_STRUCTURE_TYPE || tag == DW_TAG_UNION_TYPE;
    (at == DW_AT_BYTE_SIZE && (aggregate || tag == DW_TAG_BASE_TYPE || tag == DW_TAG_POINTER_TYPE
        || tag == DW_TAG_ENUMERATION_TYPE || tag == DW_TAG_MEMBER)) || (at == DW_AT_BIT_SIZE && (
    aggregate || tag == DW_TAG_BASE_TYPE || tag == DW_TAG_MEMBER)) || (at
        == DW_AT_DATA_MEMBER_LOCATION && tag == DW_TAG_MEMBER) || (at == DW_AT_UPPER_BOUND && tag
        == DW_TAG_SUBRANGE_TYPE)
}

/// Reads the attributes of `entry` into its fields.
fn read_fields(entry: &DieEntry, legacy: bool) -> (r: Result<Fields, DwarfError>)
    ensures
        match fields_of(entry.tag, entry.attrs@, legacy, entry.offset) {
            Ok(f) => r matches Ok(x) && x@ == f,
            Err(e) => r == Err::<Fields, DwarfError>(e),
        },
{
    let tag = entry.tag;
    let mut f = Fields {
        name: String::new(),
        size: 0,
        location: 0,
        type_id: 0,
        declaration: false,
        count: 1,
    };
    let mut i: usize = 0;
    assert(entry.attrs@.take(0) =~= Seq::<DieAttr>::empty());
    while i < entry.attrs.len()
        invariant
            i <= entry.attrs@.len(),
            tag == entry.tag,
            fields_of(tag, entry.attrs@.take(i as int), legacy, entry.offset) == Ok::<
                EntryFields,
                DwarfError,
            >(f@),
        decreases entry.attrs.len() - i,
    {
        let a = &entry.attrs[i];
        let at = a.name;
        assert(entry.attrs@.take(i + 1).drop_last() =~= entry.attrs@.take(i as int));
        if at == DW_AT_NAME && tag_reads_name(tag) {
            f.name = match &a.value {
                AttrValue::Text(s) => s.clone(),
                _ => String::new(),
            };
        } else if at == DW_AT_TYPE && tag_reads_type(tag) {
            f.type_id = match &a.value {
                AttrValue::Reference(o) => *o,
                _ => 0,
            };
        } else if at == DW_AT_DECLARATION && (tag == DW_TAG_STRUCTURE_TYPE || tag
            == DW_TAG_UNION_TYPE) {
            if let AttrValue::Flag(b) = &a.value {
                f.declaration = *b;
            }
        } else if tag_reads_number(tag, at) {
            let err = DwarfError::UnsupportedAttribute { entry: entry.offset, attribute: at };
            let v = match &a.value {
                AttrValue::Unsigned(v) => *v,
                _ => {
                    proof {
                        lemma_fields_error_persists(tag, entry.attrs@, legacy, entry.offset, i + 1);
                    }
                    return Err(err);
                },
            };
            let x: u64 = if at == DW_AT_BIT_SIZE {
                v / 8
            } else if at == DW_AT_UPPER_BOUND {
                if v == u64::MAX {
                    proof {
                        lemma_fields_error_persists(tag, entry.attrs@, legacy, entry.offset, i + 1);
                    }
                    return Err(err);
                }
                v + 1
            } else {
                v
            };
            if x > usize::MAX as u64 {
                proof {
                    lemma_fields_error_persists(tag, entry.attrs@, legacy, entry.offset, i + 1);
                }
                return Err(err);
            }
            let x = x as usize;
            if at == DW_AT_UPPER_BOUND {
                f.count = x;
            } else if at == DW_AT_DATA_MEMBER_LOCATION || (tag == DW_TAG_MEMBER && legacy) {
                f.location = x;
            } else {
                f.size = x;
            }
        }
        i = i + 1;
    }
    assert(entry.attrs@.take(i as int) =~= entry.attrs@);
    Ok(f)
}


/// The entry that later members or subranges attach to: the last struct,
/// the last union, or the array at an offset.
#[derive(Clone, Copy, Debug, PartialEq, Eq, Structural)]
pub enum OpenEntry {
    Nothing,
    Struct,
    Union,
    Array(usize),
}

/// What the extractor has gathered so far.
pub struct ExtractState {
    pub nodes: Map<usize, TypeNode>,
    pub structs: Seq<AggregateView>,
    pub unions: Seq<AggregateView>,
    pub open: OpenEntry,
}

pub open spec fn initial_state() -> ExtractState {
    ExtractState { nodes: Map::empty(), structs: seq![], unions: seq![], open: OpenEntry::Nothing }
}

pub open spec fn add_member(a: AggregateView, m: MemberView) -> AggregateView {
    AggregateView { members: a.members.push(m), ..a }
}

pub open spec fn new_aggregate(offset: usize, f: EntryFields) -> AggregateView {
    AggregateView { id: offset, name: f.name, byte_size: f.size, members: seq![] }
}

/// The state after the entry at `offset` with `tag` and fields `f`.
pub open spec fn apply_entry(s: ExtractState, offset: usize, tag: u16, f: EntryFields) -> ExtractState {
    let closed = ExtractState { open: OpenEntry::Nothing, ..s };
    if tag == DW_TAG_TYPEDEF {
        ExtractState { nodes: s.nodes.insert(offset, TypeNode::TypeDef { type_id: f.type_id }), ..closed }
    } else if tag == DW_TAG_STRUCTURE_TYPE {
        if f.declaration {
            closed
        } else {
            ExtractState {
                nodes: s.nodes.insert(offset, TypeNode::Struct { byte_size: f.size }),
                structs: s.structs.push(new_aggregate(offset, f)),
                unions: s.unions,
                open: OpenEntry::Struct,
            }
        }
    } else if tag == DW_TAG_UNION_TYPE {
        if f.declaration {
            closed
        } else {
            ExtractState {
                nodes: s.nodes.insert(offset, TypeNode::Union { byte_size: f.size }),
                structs: s.structs,
                unions: s.unions.push(new_aggregate(offset, f)),
                open: OpenEntry::Union,
            }
        }
    } else if tag == DW_TAG_MEMBER {
        let m = MemberView {
            name: f.name,
            byte_size: f.size,
            byte_offset: f.location,
            type_id: f.type_id,
        };
        match s.open {
            OpenEntry::Struct => if s.structs.len() > 0 {
                ExtractState {
                    structs: s.structs.update(
                        s.structs.len() - 1,
                        add_member(s.structs.last(), m),
                    ),
                    ..s
                }
            } else {
                s
            },
            OpenEntry::Union => if s.unions.len() > 0 {
                ExtractState {
                    unions: s.unions.update(s.unions.len() - 1, add_member(s.unions.last(), m)),
                    ..s
                }
            } else {
                s
            },
            _ => s,
        }
    } else if tag == DW_TAG_BASE_TYPE {
        ExtractState { nodes: s.nodes.insert(offset, TypeNode::Base { byte_size: f.size }), ..closed }
    } else if tag == DW_TAG_POINTER_TYPE {
        ExtractState {
            nodes: s.nodes.insert(offset, TypeNode::Pointer { byte_size: f.size }),
            ..closed
        }
    } else if tag == DW_TAG_ENUMERATION_TYPE {
        ExtractState { nodes: s.nodes.insert(offset, TypeNode::Enum { byte_size: f.size }), ..closed }
    } else if tag == DW_TAG_CONST_TYPE {
        ExtractState { nodes: s.nodes.insert(offset, TypeNode::Const { type_id: f.type_id }), ..closed }
    } else if tag == DW_TAG_ARRAY_TYPE {
        ExtractState {
            nodes: s.nodes.insert(offset, TypeNode::Array { type_id: f.type_id, count: 0 }),
            structs: s.structs,
            unions: s.unions,
            open: OpenEntry::Array(offset),
        }
    } else if tag == DW_TAG_SUBRANGE_TYPE {
        match s.open {
            OpenEntry::Array(a) => if s.nodes.contains_key(a) && s.nodes[a] is Array {
                ExtractState {
                    nodes: s.nodes.insert(
                        a,
                        TypeNode::Array { type_id: s.nodes[a]->Array_type_id, count: f.count },
                    ),
                    ..closed
                }
            } else {
                closed
            },
            _ => closed,
        }
    } else {
        s
    }
}

/// The state after `entries`, or the first error among them.
pub open spec fn run_entries(entries: Seq<DieEntry>, legacy: bool) -> Result<ExtractState, DwarfError>
    decreases entries.len(),
{
    if entries.len() == 0 {
        Ok(initial_state())
    } else {
        match run_entries(entries.drop_last(), legacy) {
            Err(e) => Err(e),
            Ok(s) => {
                let e = entries.last();
                match fields_of(e.tag, e.attrs@, legacy, e.offset) {
                    Err(err) => Err(err),
                    Ok(f) => Ok(apply_entry(s, e.offset, e.tag, f)),
                }
            },
        }
    }
}

/// A member's size: the recorded one, or the one resolved through its type
/// when none was recorded.
pub open spec fn resolve_member(nodes: Map<usize, TypeNode>, m: MemberView) -> MemberView {
    if m.byte_size == 0 {
        MemberView { byte_size: fit_size(type_size(nodes, m.type_id)), ..m }
    } else {
        m
    }
}

pub open spec fn resolve_aggregate(nodes: Map<usize, TypeNode>, a: AggregateView) -> AggregateView {
    AggregateView { members: a.members.map_values(|m: MemberView| resolve_member(nodes, m)), ..a }
}

/// The structs and unions that extraction yields, in entry order.
pub struct LookupView {
    pub structs: Seq<AggregateView>,
    pub unions: Seq<AggregateView>,
}

pub open spec fn finish(s: ExtractState) -> LookupView {
    LookupView {
        structs: s.structs.map_values(|a: AggregateView| resolve_aggregate(s.nodes, a)),
        unions: s.unions.map_values(|a: AggregateView| resolve_aggregate(s.nodes, a)),
    }
}

/// What extraction yields from `entries`.
pub open spec fn extract(entries: Seq<DieEntry>, legacy: bool) -> Result<LookupView, DwarfError> {
    match run_entries(entries, legacy) {
        Ok(s) => Ok(finish(s)),
        Err(e) => Err(e),
    }
}

/// Structs and unions by name and by id.
#[derive(Clone, Debug)]
pub struct DwarfLookup {
    struct_lookup: Vec<CStruct>,
    union_lookup: Vec<CUnion>,
}

impl View for DwarfLookup {
    type V = LookupView;

    closed spec fn view(&self) -> LookupView {
        LookupView {
            structs: self.struct_lookup@.map_values(|c: CStruct| c@),
            unions: self.union_lookup@.map_values(|c: CUnion| c@),
        }
    }
}

struct Extractor {
    nodes: HashMap<usize, TypeNode>,
    structs: Vec<CStruct>,
    unions: Vec<CUnion>,
    open: OpenEntry,
}

impl View for Extractor {
    type V = ExtractState;

    closed spec fn view(&self) -> ExtractState {
        ExtractState {
            nodes: self.nodes@,
            structs: self.structs@.map_values(|c: CStruct| c@),
            unions: self.unions@.map_values(|c: CUnion| c@),
            open: self.open,
        }
    }
}

proof fn lemma_members_push(ms: Seq<CMember>, m: CMember)
    ensures
        members_view(ms.push(m)) == members_view(ms).push(m@),
{
    assert(members_view(ms.push(m)) =~= members_view(ms).push(m@));
}

impl Extractor {
    fn new() -> (r: Extractor)
        ensures
            r@ == initial_state(),
    {
        let r = Extractor {
            nodes: HashMap::new(),
            structs: Vec::new(),
            unions: Vec::new(),
            open: OpenEntry::Nothing,
        };
        assert(r@.structs =~= Seq::<AggregateView>::empty());
        assert(r@.unions =~= Seq::<AggregateView>::empty());
        r
    }

    fn apply(&mut self, offset: usize, tag: u16, f: Fields)
        ensures
            final(self)@ == apply_entry(old(self)@, offset, tag, f@),
    {
        let ghost s = self@;
        if tag == DW_TAG_TYPEDEF {
            self.nodes.insert(offset, TypeNode::TypeDef { type_id: f.type_id });
            self.open = OpenEntry::Nothing;
        } else if tag == DW_TAG_STRUCTURE_TYPE || tag == DW_TAG_UNION_TYPE {
            if f.declaration {
                self.open = OpenEntry::Nothing;
            } else if tag == DW_TAG_STRUCTURE_TYPE {
                self.nodes.insert(offset, TypeNode::Struct { byte_size: f.size });
                let c = CStruct { id: offset, name: f.name, byte_size: f.size, members: Vec::new() };
                assert(c@.members =~= Seq::<MemberView>::empty());
                self.structs.push(c);
                self.open = OpenEntry::Struct;
                assert(self@.structs =~= s.structs.push(new_aggregate(offset, f@)));
            } else {
                self.nodes.insert(offset, TypeNode::Union { byte_size: f.size });
                let c = CUnion { id: offset, name: f.name, byte_size: f.size, members: Vec::new() };
                assert(c@.members =~= Seq::<MemberView>::empty());
                self.unions.push(c);
                self.open = OpenEntry::Union;
                assert(self@.unions =~= s.unions.push(new_aggregate(offset, f@)));
            }
        } else if tag == DW_TAG_MEMBER {
            let m = CMember {
                name: f.name,
                byte_size: f.size,
                byte_offset: f.location,
                type_id: f.type_id,
            };
            match self.open {
                OpenEntry::Struct => {
                    if self.structs.len() > 0 {
                        let last = self.structs.len() - 1;
                        let ghost old_members = self.structs@[last as int].members@;
                        self.structs[last].members.push(m);
                        proof {
                            lemma_members_push(old_members, m);
                        }
                        assert(self@.structs =~= s.structs.update(
                            s.structs.len() - 1,
                            add_member(s.structs.last(), m@),
                        ));
                    }
                },
                OpenEntry::Union => {
                    if self.unions.len() > 0 {
                        let last = self.unions.len() - 1;
                        let ghost old_members = self.unions@[last as int].members@;
                        self.unions[last].members.push(m);
                        proof {
                            lemma_members_push(old_members, m);
                        }
                        assert(self@.unions =~= s.unions.update(
                            s.unions.len() - 1,
                            add_member(s.unions.last(), m@),
                        ));
                    }
                },
                _ => {},
            }
        } else if tag == DW_TAG_BASE_TYPE {
            self.nodes.insert(offset, TypeNode::Base { byte_size: f.size });
            self.open = OpenEntry::Nothing;
        } else if tag == DW_TAG_POINTER_TYPE {
            self.nodes.insert(offset, TypeNode::Pointer { byte_size: f.size });
            self.open = OpenEntry::Nothing;
        } else if tag == DW_TAG_ENUMERATION_TYPE {
            self.nodes.insert(offset, TypeNode::Enum { byte_size: f.size });
            self.open = OpenEntry::Nothing;
        } else if tag == DW_TAG_CONST_TYPE {
            self.nodes.insert(offset, TypeNode::Const { type_id: f.type_id });
            self.open = OpenEntry::Nothing;
        } else if tag == DW_TAG_ARRAY_TYPE {
            self.nodes.insert(offset, TypeNode::Array { type_id: f.type_id, count: 0 });
            self.open = OpenEntry::Array(offset);
        } else if tag == DW_TAG_SUBRANGE_TYPE {
            if let OpenEntry::Array(a) = self.open {
                let found = match self.nodes.get(&a) {
                    Some(TypeNode::Array { type_id, count: _ }) => Some(*type_id),
                    _ => None,
                };
                if let Some(t) = found {
                    self.nodes.insert(a, TypeNode::Array { type_id: t, count: f.count });
                }
            }
            self.open = OpenEntry::Nothing;
        }
    }
}

/// Fills in the size of every member that has none recorded.
fn resolve_members(ms: &mut Vec<CMember>, nodes: &HashMap<usize, TypeNode>)
    ensures
        members_view(final(ms)@) == members_view(old(ms)@).map_values(
            |m: MemberView| resolve_member(nodes@, m),
        ),
{
    let ghost start = ms@;
    let mut j: usize = 0;
    while j < ms.len()
        invariant
            j <= ms@.len(),
            ms@.len() == start.len(),
            forall|k: int| 0 <= k < j ==> #[trigger] ms@[k]@ == resolve_member(nodes@, start[k]@),
            forall|k: int| j <= k < ms@.len() ==> #[trigger] ms@[k] == start[k],
        decreases ms.len() - j,
    {
        if ms[j].byte_size == 0 {
            let size = get_type_size(ms[j].type_id, nodes);
            ms[j].byte_size = size;
        }
        j = j + 1;
    }
    assert(members_view(ms@) =~= members_view(start).map_values(
        |m: MemberView| resolve_member(nodes@, m),
    ));
}

proof fn lemma_run_error_persists(entries: Seq<DieEntry>, legacy: bool, n: int)
    requires
        0 <= n <= entries.len(),
        run_entries(entries.take(n), legacy) is Err,
    ensures
        run_entries(entries, legacy) == run_entries(entries.take(n), legacy),
    decreases entries.len() - n,
{
    if n < entries.len() {
        assert(entries.take(n + 1).drop_last() =~= entries.take(n));
        lemma_run_error_persists(entries, legacy, n + 1);
    } else {
        assert(entries.take(n) =~= entries);
    }
}

/// Builds the struct and union tables out of `entries`, in depth-first
/// order.  With `legacy_member_offsets` set, a member's byte or bit size
/// attribute is read as its offset.
pub fn parse_dwarf(entries: &Vec<DieEntry>, legacy_member_offsets: bool) -> (r: Result<
    DwarfLookup,
    DwarfError,
>)
    ensures
        match extract(entries@, legacy_member_offsets) {
            Ok(l) => r matches Ok(x) && x@ == l,
            Err(e) => r == Err::<DwarfLookup, DwarfError>(e),
        },
{
    let legacy = legacy_member_offsets;
    let mut ex = Extractor::new();
    let mut i: usize = 0;
    assert(entries@.take(0) =~= Seq::<DieEntry>::empty());
    while i < entries.len()
        invariant
            i <= entries@.len(),
            legacy == legacy_member_offsets,
            run_entries(entries@.take(i as int), legacy) == Ok::<ExtractState, DwarfError>(ex@),
        decreases entries.len() - i,
    {
        let e = &entries[i];
        assert(entries@.take(i + 1).drop_last() =~= entries@.take(i as int));
        match read_fields(e, legacy) {
            Err(err) => {
                proof {
                    assert(entries@.take(i + 1).last() == entries@[i as int]);
                    assert(run_entries(entries@.take(i + 1), legacy) == Err::<ExtractState, DwarfError>(err));
                    lemma_run_error_persists(entries@, legacy, i + 1);
                }
                return Err(err);
            },
            Ok(f) => {
                ex.apply(e.offset, e.tag, f);
            },
        }
        i = i + 1;
    }
    assert(entries@.take(i as int) =~= entries@);
    let ghost s = ex@;
    let Extractor { nodes, mut structs, mut unions, open: _ } = ex;
    let mut k: usize = 0;
    while k < structs.len()
        invariant
            k <= structs@.len(),
            structs@.len() == s.structs.len(),
            nodes@ == s.nodes,
            forall|q: int| 0 <= q < k ==> #[trigger] structs@[q]@ == resolve_aggregate(nodes@, s.structs[q]),
            forall|q: int| k <= q < structs@.len() ==> #[trigger] structs@[q]@ == s.structs[q],
        decreases structs.len() - k,
    {
        let ghost before = structs@[k as int];
        resolve_members(&mut structs[k].members, &nodes);
        assert(structs@[k as int]@ =~= resolve_aggregate(nodes@, before@));
        k = k + 1;
    }
    let mut k: usize = 0;
    while k < unions.len()
        invariant
            k <= unions@.len(),
            unions@.len() == s.unions.len(),
            nodes@ == s.nodes,
            forall|q: int| 0 <= q < k ==> #[trigger] unions@[q]@ == resolve_aggregate(nodes@, s.unions[q]),
            forall|q: int| k <= q < unions@.len() ==> #[trigger] unions@[q]@ == s.unions[q],
        decreases unions.len() - k,
    {
        let ghost before = unions@[k as int];
        resolve_members(&mut unions[k].members, &nodes);
        assert(unions@[k as int]@ =~= resolve_aggregate(nodes@, before@));
        k = k + 1;
    }
    let r = DwarfLookup { struct_lookup: structs, union_lookup: unions };
    assert(r@.structs =~= finish(s).structs);
    assert(r@.unions =~= finish(s).unions);
    Ok(r)
}


impl DwarfLookup {
    /// The last struct named `name`.
    pub fn find_struct(&self, name: &str) -> (r: Option<&CStruct>)
        ensures
            match last_named(self@.structs, name@) {
                None => r is None,
                Some(i) => r matches Some(c) && c@ == self@.structs[i],
            },
    {
        let key = name.to_owned();
        let mut i = self.struct_lookup.len();
        assert(self.struct_lookup@.map_values(|c: CStruct| c@).take(i as int) =~= self@.structs);
        while i > 0
            invariant
                i <= self.struct_lookup@.len(),
                key@ == name@,
                last_named(self@.structs, name@) == last_named(
                    self.struct_lookup@.map_values(|c: CStruct| c@).take(i as int),
                    name@,
                ),
            decreases i,
        {
            let ghost v = self.struct_lookup@.map_values(|c: CStruct| c@);
            assert(v.take(i as int).drop_last() =~= v.take(i - 1 as int));
            if self.struct_lookup[i - 1].name == key {
                return Some(&self.struct_lookup[i - 1]);
            }
            i = i - 1;
        }
        None
    }

    /// The last union named `name`.
    pub fn find_union(&self, name: &str) -> (r: Option<&CUnion>)
        ensures
            match last_named(self@.unions, name@) {
                None => r is None,
                Some(i) => r matches Some(c) && c@ == self@.unions[i],
            },
    {
        let key = name.to_owned();
        let mut i = self.union_lookup.len();
        assert(self.union_lookup@.map_values(|c: CUnion| c@).take(i as int) =~= self@.unions);
        while i > 0
            invariant
                i <= self.union_lookup@.len(),
                key@ == name@,
                last_named(self@.unions, name@) == last_named(
                    self.union_lookup@.map_values(|c: CUnion| c@).take(i as int),
                    name@,
                ),
            decreases i,
        {
            let ghost v = self.union_lookup@.map_values(|c: CUnion| c@);
            assert(v.take(i as int).drop_last() =~= v.take(i - 1 as int));
            if self.union_lookup[i - 1].name == key {
                return Some(&self.union_lookup[i - 1]);
            }
            i = i - 1;
        }
        None
    }

    /// The struct whose entry is at debug-info offset `id`.
    pub fn find_struct_by_id(&self, id: usize) -> (r: Option<&CStruct>)
        ensures
            match last_with_id(self@.structs, id) {
                None => r is None,
                Some(i) => r matches Some(c) && c@ == self@.structs[i],
            },
    {
        let mut i = self.struct_lookup.len();
        assert(self.struct_lookup@.map_values(|c: CStruct| c@).take(i as int) =~= self@.structs);
        while i > 0
            invariant
                i <= self.struct_lookup@.len(),
                last_with_id(self@.structs, id) == last_with_id(
                    self.struct_lookup@.map_values(|c: CStruct| c@).take(i as int),
                    id,
                ),
            decreases i,
        {
            let ghost v = self.struct_lookup@.map_values(|c: CStruct| c@);
            assert(v.take(i as int).drop_last() =~= v.take(i - 1 as int));
            if self.struct_lookup[i - 1].id == id {
                return Some(&self.struct_lookup[i - 1]);
            }
            i = i - 1;
        }
        None
    }

    /// The union whose entry is at debug-info offset `id`.
    pub fn find_union_by_id(&self, id: usize) -> (r: Option<&CUnion>)
        ensures
            match last_with_id(self@.unions, id) {
                None => r is None,
                Some(i) => r matches Some(c) && c@ == self@.unions[i],
            },
    {
        let mut i = self.union_lookup.len();
        assert(self.union_lookup@.map_values(|c: CUnion| c@).take(i as int) =~= self@.unions);
        while i > 0
            invariant
                i <= self.union_lookup@.len(),
                last_with_id(self@.unions, id) == last_with_id(
                    self.union_lookup@.map_values(|c: CUnion| c@).take(i as int),
                    id,
                ),
            decreases i,
        {
            let ghost v = self.union_lookup@.map_values(|c: CUnion| c@);
            assert(v.take(i as int).drop_last() =~= v.take(i - 1 as int));
            if self.union_lookup[i - 1].id == id {
                return Some(&self.union_lookup[i - 1]);
            }
            i = i - 1;
        }
        None
    }
}


/// Whether every struct or union entry of `entries` named `name` is a
/// forward declaration.
pub open spec fn only_declared(entries: Seq<DieEntry>, legacy: bool, name: Seq<char>) -> bool {
    forall|i: int|
        0 <= i < entries.len() && is_aggregate_tag(#[trigger] entries[i].tag) ==> match fields_of(
            entries[i].tag,
            entries[i].attrs@,
            legacy,
            entries[i].offset,
        ) {
            Ok(f) => f.name == name ==> f.declaration,
            Err(_) => true,
        }
}

proof fn lemma_last_named_absent(s: Seq<AggregateView>, name: Seq<char>)
    requires
        forall|k: int| 0 <= k < s.len() ==> (#[trigger] s[k]).name != name,
    ensures
        last_named(s, name) is None,
    decreases s.len(),
{
    if s.len() > 0 {
        assert(s.last() == s[s.len() - 1]);
        lemma_last_named_absent(s.drop_last(), name);
    }
}

proof fn lemma_names_absent(entries: Seq<DieEntry>, legacy: bool, name: Seq<char>)
    requires
        only_declared(entries, legacy, name),
    ensures
        run_entries(entries, legacy) matches Ok(s) ==> {
            &&& forall|k: int| 0 <= k < s.structs.len() ==> (#[trigger] s.structs[k]).name != name
            &&& forall|k: int| 0 <= k < s.unions.len() ==> (#[trigger] s.unions[k]).name != name
        },
    decreases entries.len(),
{
    if entries.len() > 0 {
        let rest = entries.drop_last();
        assert forall|i: int| 0 <= i < rest.len() && is_aggregate_tag(#[trigger] rest[i].tag) implies match fields_of(
            rest[i].tag,
            rest[i].attrs@,
            legacy,
            rest[i].offset,
        ) {
            Ok(f) => f.name == name ==> f.declaration,
            Err(_) => true,
        } by {
            assert(rest[i] == entries[i]);
        }
        lemma_names_absent(rest, legacy, name);
        if let Ok(s) = run_entries(rest, legacy) {
            let e = entries.last();
            assert(e == entries[entries.len() - 1]);
            if let Ok(f) = fields_of(e.tag, e.attrs@, legacy, e.offset) {
                let t = apply_entry(s, e.offset, e.tag, f);
                assert forall|k: int| 0 <= k < t.structs.len() implies (#[trigger] t.structs[k]).name != name by {
                    if k < s.structs.len() {
                        assert(s.structs[k] == s.structs[k]);
                    }
                }
                assert forall|k: int| 0 <= k < t.unions.len() implies (#[trigger] t.unions[k]).name != name by {
                    if k < s.unions.len() {
                        assert(s.unions[k] == s.unions[k]);
                    }
                }
            }
        }
    }
}

/// Forward declarations are invisible: a name that only declaration
/// entries carry is found neither as a struct nor as a union.
pub proof fn lemma_declarations_invisible(entries: Seq<DieEntry>, legacy: bool, name: Seq<char>)
    requires
        only_declared(entries, legacy, name),
    ensures
        extract(entries, legacy) matches Ok(l) ==> last_named(l.structs, name) is None
            && last_named(l.unions, name) is None,
{
    lemma_names_absent(entries, legacy, name);
    if let Ok(s) = run_entries(entries, legacy) {
        let l = finish(s);
        assert forall|k: int| 0 <= k < l.structs.len() implies (#[trigger] l.structs[k]).name != name by {
            assert(s.structs[k].name != name);
        }
        assert forall|k: int| 0 <= k < l.unions.len() implies (#[trigger] l.unions[k]).name != name by {
            assert(s.unions[k].name != name);
        }
        lemma_last_named_absent(l.structs, name);
        lemma_last_named_absent(l.unions, name);
    }
}

/// Every member that extraction yields keeps the size its entry recorded,
/// or, where none was recorded, has the size resolved through its type:
/// the leaf's size times the array counts on the way, 0 past `MAX_HOPS`
/// links or at an unknown id.
pub proof fn lemma_member_sizes(entries: Seq<DieEntry>, legacy: bool)
    ensures
        run_entries(entries, legacy) matches Ok(s) ==> {
            let l = finish(s);
            &&& forall|k: int, j: int|
                0 <= k < l.structs.len() && 0 <= j < l.structs[k].members.len() ==> {
                    let raw = s.structs[k].members[j];
                    #[trigger] l.structs[k].members[j].byte_size == if raw.byte_size == 0 {
                        fit_size(type_size(s.nodes, raw.type_id))
                    } else {
                        raw.byte_size
                    }
                }
            &&& forall|k: int, j: int|
                0 <= k < l.unions.len() && 0 <= j < l.unions[k].members.len() ==> {
                    let raw = s.unions[k].members[j];
                    #[trigger] l.unions[k].members[j].byte_size == if raw.byte_size == 0 {
                        fit_size(type_size(s.nodes, raw.type_id))
                    } else {
                        raw.byte_size
                    }
                }
        },
{
}

} // verus!
