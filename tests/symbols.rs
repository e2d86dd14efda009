use php_stacktrace::symbols::{
    listing_symbol_address, map_load_address, runtime_symbol_address, ResolveError,
};
use php_stacktrace::text::{parse_dec_bytes, parse_hex_bytes, split_bytes, split_words};

fn b(s: &str) -> Vec<u8> {
    s.as_bytes().to_vec()
}

const LISTING: &str = "                 U malloc\n0000000000a1b2c0 D executor_globals_old\n0000000000a1b2c0 B executor_globals_x\n0000000000c0ffee B executor_globals\n0000000000000001 B executor_globals\n";

const MAPS: &str = "55d000000000-55d000001000 r--p 00000000 08:01 1234 /usr/bin/php\n55d000201000-55d000400000 r-xp 00001000 08:01 1234 /usr/bin/php\n55d000100000-55d000200000 r-xp 00001000 08:01 1234 /usr/bin/php\n7f0000000000-7f0000100000 r-xp 00000000 08:01 99 /lib/libc.so\n7f0000200000-7f0000300000 rw-p 00000000 00:00 0\n";

#[test]
fn listing_finds_first_bss_record() {
    let r = listing_symbol_address(&b(LISTING), &b("executor_globals"));
    assert_eq!(r, Ok(0xc0ffee));
}

#[test]
fn listing_without_symbol() {
    let r = listing_symbol_address(&b("0000000000001000 T main\n"), &b("executor_globals"));
    assert_eq!(r, Err(ResolveError::SymbolNotFound));
    let r = listing_symbol_address(&b("zz B executor_globals\n"), &b("executor_globals"));
    assert_eq!(r, Err(ResolveError::SymbolNotFound));
}

#[test]
fn maps_pick_lowest_executable_mapping() {
    assert_eq!(map_load_address(&b(MAPS), &b("/usr/bin/php")), Ok(0x55d000100000));
    assert_eq!(map_load_address(&b(MAPS), &b("/lib/libc.so")), Ok(0x7f0000000000));
    assert_eq!(
        map_load_address(&b(MAPS), &b("/usr/bin/php8")),
        Err(ResolveError::MappingNotFound)
    );
}

#[test]
fn runtime_address_adds_base() {
    let r = runtime_symbol_address(&b(LISTING), &b("executor_globals"), &b(MAPS), &b("/usr/bin/php"));
    assert_eq!(r, Ok(0x55d000100000 + 0xc0ffee));
    let r = runtime_symbol_address(&b(""), &b("executor_globals"), &b(MAPS), &b("/usr/bin/php"));
    assert_eq!(r, Err(ResolveError::SymbolNotFound));
    let r = runtime_symbol_address(&b(LISTING), &b("executor_globals"), &b(""), &b("/usr/bin/php"));
    assert_eq!(r, Err(ResolveError::MappingNotFound));
    let big = "ffffffffffffffff B executor_globals\n";
    let r = runtime_symbol_address(&b(big), &b("executor_globals"), &b(MAPS), &b("/usr/bin/php"));
    assert_eq!(r, Err(ResolveError::AddressOverflow));
}

#[test]
fn numbers_and_words() {
    assert_eq!(parse_hex_bytes(&b("00fF")), Some(255));
    assert_eq!(parse_hex_bytes(&b("")), None);
    assert_eq!(parse_hex_bytes(&b("1g")), None);
    assert_eq!(parse_hex_bytes(&b("10000000000000000")), None);
    assert_eq!(parse_dec_bytes(&b("0420")), Some(420));
    assert_eq!(parse_dec_bytes(&b("4x")), None);
    assert_eq!(parse_dec_bytes(&b("99999999999999999999999")), None);
    assert_eq!(split_bytes(&b("a==b"), b'='), vec![b("a"), b(""), b("b")]);
    assert_eq!(split_words(&b("  a  bc ")), vec![b("a"), b("bc")]);
}
