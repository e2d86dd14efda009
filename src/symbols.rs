//! Where the executor globals sit in a running target: the symbol's
//! link-time address from the dynamic symbol listing, plus the load base
//! of the executable's mapping.

use crate::text::{bytes_equal, parse_hex, parse_hex_bytes, pieces, split, split_bytes, split_words, words};
use vstd::prelude::*;

verus! {

// Bytes as ASCII codes: 0x0a is a newline, 0x2d `-`, 0x42 `B`, 0x70 `p`,
// 0x78 `x`.

/// Why the globals could not be located.
#[derive(Clone, Copy, Debug, PartialEq, Eq, Structural)]
pub enum ResolveError {
    /// The listing has no uninitialised-data record of the symbol.
    SymbolNotFound,
    /// No executable private mapping of the executable.
    MappingNotFound,
    /// Symbol address plus load base leaves the address space.
    AddressOverflow,
}

/// The address that a line of a symbol listing (`ADDRESS TYPE NAME`)
/// gives `symbol` when it records it as uninitialised data (type `B`).
pub open spec fn listing_entry(line: Seq<u8>, symbol: Seq<u8>) -> Option<u64> {
    let w = words(line);
    if w.len() == 3 && w[1] == seq![0x42u8] && w[2] == symbol {
        parse_hex(w[0])
    } else {
        None
    }
}

/// The address of the first line of `lines` that records `symbol`.
pub open spec fn first_listing_entry(lines: Seq<Seq<u8>>, symbol: Seq<u8>) -> Option<u64>
    decreases lines.len(),
{
    if lines.len() == 0 {
        None
    } else {
        match listing_entry(lines[0], symbol) {
            Some(a) => Some(a),
            None => first_listing_entry(lines.drop_first(), symbol),
        }
    }
}

/// The link-time address of `symbol` in a dynamic symbol listing.
pub fn listing_symbol_address(listing: &Vec<u8>, symbol: &Vec<u8>) -> (r: Result<u64, ResolveError>)
    ensures
        match first_listing_entry(split(listing@, 0x0a), symbol@) {
            Some(a) => r == Ok::<u64, ResolveError>(a),
            None => r == Err::<u64, ResolveError>(ResolveError::SymbolNotFound),
        },
{
    let lines = split_bytes(listing, 0x0a);
    let ghost all = pieces(lines@);
    let mut i: usize = 0;
    assert(all.subrange(0, all.len() as int) =~= all);
    while i < lines.len()
        invariant
            i <= lines@.len(),
            all == pieces(lines@),
            all == split(listing@, 0x0a),
            first_listing_entry(all, symbol@) == first_listing_entry(
                all.subrange(i as int, all.len() as int),
                symbol@,
            ),
        decreases lines.len() - i,
    {
        let ghost rest = all.subrange(i as int, all.len() as int);
        assert(rest.drop_first() =~= all.subrange(i + 1, all.len() as int));
        assert(rest[0] == lines@[i as int]@);
        let w = split_words(&lines[i]);
        if w.len() == 3 && w[1].len() == 1 && w[1][0] == 0x42u8 && bytes_equal(&w[2], symbol) {
            assert(pieces(w@)[1] =~= seq![0x42u8]);
            match parse_hex_bytes(&w[0]) {
                Some(a) => {
                    return Ok(a);
                },
                None => {},
            }
        } else {
            proof {
                if pieces(w@).len() == 3 && pieces(w@)[1] == seq![0x42u8] {
                    assert(pieces(w@)[1][0] == 0x42u8);
                }
            }
        }
        i = i + 1;
    }
    Err(ResolveError::SymbolNotFound)
}

/// The start address that a memory-map line (`START-END PERMS OFFSET DEV
/// INODE PATH`) gives when it maps `exe` executable and private.
pub open spec fn mapping_start(line: Seq<u8>, exe: Seq<u8>) -> Option<u64> {
    let w = words(line);
    if w.len() == 6 && w[5] == exe && w[1].len() == 4 && w[1][2] == 0x78u8 && w[1][3] == 0x70u8 {
        let range = split(w[0], 0x2du8);
        if range.len() == 2 {
            parse_hex(range[0])
        } else {
            None
        }
    } else {
        None
    }
}

/// The lowest start among the lines of `lines` that map `exe`.
pub open spec fn lowest_mapping(lines: Seq<Seq<u8>>, exe: Seq<u8>) -> Option<u64>
    decreases lines.len(),
{
    if lines.len() == 0 {
        None
    } else {
        let rest = lowest_mapping(lines.drop_last(), exe);
        match (rest, mapping_start(lines.last(), exe)) {
            (Some(a), Some(b)) => Some(if b < a { b } else { a }),
            (Some(a), None) => Some(a),
            (None, b) => b,
        }
    }
}

/// The load base of `exe` in a target's memory map: the lowest start of
/// its executable private mappings.
pub fn map_load_address(maps: &Vec<u8>, exe: &Vec<u8>) -> (r: Result<u64, ResolveError>)
    ensures
        match lowest_mapping(split(maps@, 0x0a), exe@) {
            Some(a) => r == Ok::<u64, ResolveError>(a),
            None => r == Err::<u64, ResolveError>(ResolveError::MappingNotFound),
        },
{
    let lines = split_bytes(maps, 0x0a);
    let ghost all = pieces(lines@);
    let mut best: Option<u64> = None;
    let mut i: usize = 0;
    assert(all.take(0) =~= Seq::<Seq<u8>>::empty());
    while i < lines.len()
        invariant
            i <= lines@.len(),
            all == pieces(lines@),
            all == split(maps@, 0x0a),
            best == lowest_mapping(all.take(i as int), exe@),
        decreases lines.len() - i,
    {
        assert(all.take(i + 1).drop_last() =~= all.take(i as int));
        assert(all.take(i + 1).last() == lines@[i as int]@);
        let w = split_words(&lines[i]);
        let ghost wv = pieces(w@);
        let mut found: Option<u64> = None;
        if w.len() == 6 && w[1].len() == 4 && w[1][2] == 0x78u8 && w[1][3] == 0x70u8 && bytes_equal(
            &w[5],
            exe,
        ) {
            let range = split_bytes(&w[0], 0x2du8);
            if range.len() == 2 {
                found = parse_hex_bytes(&range[0]);
            }
        }
        assert(found == mapping_start(lines@[i as int]@, exe@));
        best = match (best, found) {
            (Some(a), Some(b)) => Some(if b < a { b } else { a }),
            (Some(a), None) => Some(a),
            (None, b) => b,
        };
        i = i + 1;
    }
    assert(all.take(i as int) =~= all);
    match best {
        Some(a) => Ok(a),
        None => Err(ResolveError::MappingNotFound),
    }
}

/// Where `symbol` sits at run time: its address in `listing` plus the
/// load base of `exe` in `maps`.
pub fn runtime_symbol_address(listing: &Vec<u8>, symbol: &Vec<u8>, maps: &Vec<u8>, exe: &Vec<u8>) -> (r: Result<u64, ResolveError>)
    ensures
        match (
            first_listing_entry(split(listing@, 0x0a), symbol@),
            lowest_mapping(split(maps@, 0x0a), exe@),
        ) {
            (None, _) => r == Err::<u64, ResolveError>(ResolveError::SymbolNotFound),
            (Some(_), None) => r == Err::<u64, ResolveError>(ResolveError::MappingNotFound),
            (Some(s), Some(b)) => if s + b <= u64::MAX {
                r == Ok::<u64, ResolveError>((s + b) as u64)
            } else {
                r == Err::<u64, ResolveError>(ResolveError::AddressOverflow)
            },
        },
{
    let s = match listing_symbol_address(listing, symbol) {
        Ok(s) => s,
        Err(e) => {
            return Err(e);
        },
    };
    let b = match map_load_address(maps, exe) {
        Ok(b) => b,
        Err(e) => {
            return Err(e);
        },
    };
    match s.checked_add(b) {
        Some(a) => Ok(a),
        None => Err(ResolveError::AddressOverflow),
    }
}

} // verus!
