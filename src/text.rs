//! Byte-level text: splitting at a separator, hexadecimal and decimal
//! numbers.

use vstd::prelude::*;

verus! {

// Bytes are written as their ASCII codes: 0x30 is `0`, 0x39 `9`, 0x41 `A`,
// 0x46 `F`, 0x61 `a`, 0x66 `f`, 0x20 a space.

/// The pieces of `s` between the bytes equal to `sep`, empty ones
/// included; there is always at least one.
pub open spec fn split(s: Seq<u8>, sep: u8) -> Seq<Seq<u8>>
    decreases s.len(),
{
    if s.len() == 0 {
        seq![Seq::empty()]
    } else {
        let rest = split(s.drop_last(), sep);
        if s.last() == sep {
            rest.push(Seq::empty())
        } else {
            rest.update(rest.len() - 1, rest.last().push(s.last()))
        }
    }
}

pub proof fn lemma_split_len(s: Seq<u8>, sep: u8)
    ensures
        split(s, sep).len() >= 1,
    decreases s.len(),
{
    if s.len() > 0 {
        lemma_split_len(s.drop_last(), sep);
    }
}

pub open spec fn pieces(v: Seq<Vec<u8>>) -> Seq<Seq<u8>> {
    v.map_values(|x: Vec<u8>| x@)
}

/// Splits `s` at every `sep`.
pub fn split_bytes(s: &Vec<u8>, sep: u8) -> (r: Vec<Vec<u8>>)
    ensures
        pieces(r@) == split(s@, sep),
{
    let mut done: Vec<Vec<u8>> = Vec::new();
    let mut cur: Vec<u8> = Vec::new();
    let mut i: usize = 0;
    assert(s@.take(0) =~= Seq::<u8>::empty());
    assert(pieces(done@).push(cur@) =~= split(s@.take(0), sep));
    while i < s.len()
        invariant
            i <= s@.len(),
            pieces(done@).push(cur@) == split(s@.take(i as int), sep),
        decreases s.len() - i,
    {
        let c = s[i];
        assert(s@.take(i + 1).drop_last() =~= s@.take(i as int));
        let ghost before = pieces(done@);
        if c == sep {
            let full = cur;
            let ghost fv = full@;
            done.push(full);
            cur = Vec::new();
            assert(pieces(done@) =~= before.push(fv));
            assert(pieces(done@).push(cur@) =~= before.push(fv).push(Seq::empty()));
        } else {
            let ghost old_cur = cur@;
            cur.push(c);
            assert(pieces(done@).push(cur@) =~= before.push(old_cur).update(
                before.len() as int,
                old_cur.push(c),
            ));
        }
        i = i + 1;
    }
    assert(s@.take(i as int) =~= s@);
    let ghost before = pieces(done@);
    let ghost last = cur@;
    done.push(cur);
    assert(pieces(done@) =~= before.push(last));
    done
}

/// Whether two byte strings are equal.
pub fn bytes_equal(a: &Vec<u8>, b: &Vec<u8>) -> (r: bool)
    ensures
        r == (a@ == b@),
{
    if a.len() != b.len() {
        return false;
    }
    let mut i: usize = 0;
    while i < a.len()
        invariant
            i <= a@.len(),
            a@.len() == b@.len(),
            forall|k: int| 0 <= k < i ==> a@[k] == b@[k],
        decreases a.len() - i,
    {
        if a[i] != b[i] {
            return false;
        }
        i = i + 1;
    }
    assert(a@ =~= b@);
    true
}

/// The non-empty pieces of `parts`, in order.
pub open spec fn non_empty(parts: Seq<Seq<u8>>) -> Seq<Seq<u8>>
    decreases parts.len(),
{
    if parts.len() == 0 {
        seq![]
    } else if parts.last().len() == 0 {
        non_empty(parts.drop_last())
    } else {
        non_empty(parts.drop_last()).push(parts.last())
    }
}

/// The words of `line`: the non-empty pieces between spaces.
pub open spec fn words(line: Seq<u8>) -> Seq<Seq<u8>> {
    non_empty(split(line, 0x20u8))
}

/// Splits `line` into its space-separated words.
pub fn split_words(line: &Vec<u8>) -> (r: Vec<Vec<u8>>)
    ensures
        pieces(r@) == words(line@),
{
    let parts = split_bytes(line, 0x20u8);
    let mut out: Vec<Vec<u8>> = Vec::new();
    let mut i: usize = 0;
    assert(pieces(parts@).take(0) =~= Seq::<Seq<u8>>::empty());
    assert(pieces(out@) =~= non_empty(pieces(parts@).take(0)));
    while i < parts.len()
        invariant
            i <= parts@.len(),
            pieces(out@) == non_empty(pieces(parts@).take(i as int)),
        decreases parts.len() - i,
    {
        assert(pieces(parts@).take(i + 1).drop_last() =~= pieces(parts@).take(i as int));
        if parts[i].len() > 0 {
            let ghost before = pieces(out@);
            out.push(parts[i].clone());
            assert(pieces(out@) =~= before.push(parts@[i as int]@));
        }
        i = i + 1;
    }
    assert(pieces(parts@).take(i as int) =~= pieces(parts@));
    out
}

pub open spec fn hex_digit(c: u8) -> Option<nat> {
    if 0x30u8 <= c && c <= 0x39u8 {
        Some((c - 0x30u8) as nat)
    } else if 0x61u8 <= c && c <= 0x66u8 {
        Some((c - 0x61u8 + 10) as nat)
    } else if 0x41u8 <= c && c <= 0x46u8 {
        Some((c - 0x41u8 + 10) as nat)
    } else {
        None
    }
}

/// The value of the hexadecimal digits `s`.
pub open spec fn hex_value(s: Seq<u8>) -> nat
    decreases s.len(),
{
    if s.len() == 0 {
        0
    } else {
        16 * hex_value(s.drop_last()) + match hex_digit(s.last()) {
            Some(d) => d,
            None => 0,
        }
    }
}

/// `s` read as a hexadecimal number: one or more digits whose value fits
/// in 64 bits.
pub open spec fn parse_hex(s: Seq<u8>) -> Option<u64> {
    if s.len() > 0 && (forall|i: int| 0 <= i < s.len() ==> #[trigger] hex_digit(s[i]) is Some)
        && hex_value(s) <= u64::MAX {
        Some(hex_value(s) as u64)
    } else {
        None
    }
}

proof fn lemma_hex_grows(s: Seq<u8>, i: int)
    requires
        0 <= i <= s.len(),
    ensures
        hex_value(s.take(i)) <= hex_value(s),
    decreases s.len() - i,
{
    if i < s.len() {
        lemma_hex_grows(s, i + 1);
        assert(s.take(i + 1).drop_last() =~= s.take(i));
    } else {
        assert(s.take(i) =~= s);
    }
}

fn hex_digit_of(c: u8) -> (r: Option<u64>)
    ensures
        match hex_digit(c) {
            Some(d) => r == Some(d as u64),
            None => r is None,
        },
{
    if 0x30u8 <= c && c <= 0x39u8 {
        Some((c - 0x30u8) as u64)
    } else if 0x61u8 <= c && c <= 0x66u8 {
        Some((c - 0x61u8 + 10) as u64)
    } else if 0x41u8 <= c && c <= 0x46u8 {
        Some((c - 0x41u8 + 10) as u64)
    } else {
        None
    }
}

/// Reads `s` as a hexadecimal number.
pub fn parse_hex_bytes(s: &Vec<u8>) -> (r: Option<u64>)
    ensures
        r == parse_hex(s@),
{
    if s.len() == 0 {
        return None;
    }
    let mut acc: u64 = 0;
    let mut i: usize = 0;
    assert(s@.take(0) =~= Seq::<u8>::empty());
    while i < s.len()
        invariant
            i <= s@.len(),
            acc as nat == hex_value(s@.take(i as int)),
            forall|k: int| 0 <= k < i ==> #[trigger] hex_digit(s@[k]) is Some,
        decreases s.len() - i,
    {
        assert(s@.take(i + 1).drop_last() =~= s@.take(i as int));
        let d = match hex_digit_of(s[i]) {
            Some(d) => d,
            None => {
                return None;
            },
        };
        if acc > (u64::MAX - d) / 16 {
            proof {
                lemma_hex_grows(s@, i + 1);
            }
            return None;
        }
        acc = 16 * acc + d;
        i = i + 1;
    }
    assert(s@.take(i as int) =~= s@);
    Some(acc)
}

pub open spec fn dec_digit(c: u8) -> bool {
    0x30u8 <= c && c <= 0x39u8
}

/// The value of the decimal digits `s`.
pub open spec fn dec_value(s: Seq<u8>) -> nat
    decreases s.len(),
{
    if s.len() == 0 {
        0
    } else {
        10 * dec_value(s.drop_last()) + if dec_digit(s.last()) {
            (s.last() - 0x30u8) as nat
        } else {
            0
        }
    }
}

/// `s` read as a decimal number of one or more digits.
pub open spec fn parse_dec(s: Seq<u8>) -> Option<nat> {
    if s.len() > 0 && (forall|i: int| 0 <= i < s.len() ==> #[trigger] dec_digit(s[i])) {
        Some(dec_value(s))
    } else {
        None
    }
}

/// The decimal digits of `n`, without leading zeros.
pub open spec fn dec_digits(n: nat) -> Seq<u8>
    decreases n,
{
    if n < 10 {
        seq![(0x30u8 + n) as u8]
    } else {
        dec_digits(n / 10).push((0x30u8 + n % 10) as u8)
    }
}

pub proof fn lemma_dec_round_trip(n: nat)
    ensures
        parse_dec(dec_digits(n)) == Some(n),
        dec_digits(n).len() > 0,
        forall|i: int| 0 <= i < dec_digits(n).len() ==> #[trigger] dec_digit(dec_digits(n)[i]),
    decreases n,
{
    if n < 10 {
        let s = dec_digits(n);
        assert(s.drop_last() =~= Seq::<u8>::empty());
        assert(s.last() == (0x30u8 + n) as u8);
        assert(dec_digit(s.last()));
        assert(dec_value(s.drop_last()) == 0);
        assert(dec_value(s) == n);
    } else {
        lemma_dec_round_trip(n / 10);
        let s = dec_digits(n);
        assert(s.drop_last() =~= dec_digits(n / 10));
        assert(n == 10 * (n / 10) + n % 10);
        assert(dec_digit(s.last()));
        assert(dec_value(s) == 10 * (n / 10) + n % 10);
        assert forall|i: int| 0 <= i < s.len() implies #[trigger] dec_digit(s[i]) by {
            if i < s.len() - 1 {
                assert(s[i] == dec_digits(n / 10)[i]);
            }
        }
    }
}

proof fn lemma_dec_grows(s: Seq<u8>, i: int)
    requires
        0 <= i <= s.len(),
    ensures
        dec_value(s.take(i)) <= dec_value(s),
    decreases s.len() - i,
{
    if i < s.len() {
        lemma_dec_grows(s, i + 1);
        assert(s.take(i + 1).drop_last() =~= s.take(i));
    } else {
        assert(s.take(i) =~= s);
    }
}

/// Reads `s` as a decimal number; `None` when it is not one or does not
/// fit in `usize`.
pub fn parse_dec_bytes(s: &Vec<u8>) -> (r: Option<usize>)
    ensures
        match parse_dec(s@) {
            Some(n) => if n <= usize::MAX {
                r == Some(n as usize)
            } else {
                r is None
            },
            None => r is None,
        },
{
    if s.len() == 0 {
        return None;
    }
    let mut acc: usize = 0;
    let mut i: usize = 0;
    assert(s@.take(0) =~= Seq::<u8>::empty());
    while i < s.len()
        invariant
            i <= s@.len(),
            acc as nat == dec_value(s@.take(i as int)),
            forall|k: int| 0 <= k < i ==> #[trigger] dec_digit(s@[k]),
        decreases s.len() - i,
    {
        assert(s@.take(i + 1).drop_last() =~= s@.take(i as int));
        let c = s[i];
        if !(0x30u8 <= c && c <= 0x39u8) {
            assert(!dec_digit(s@[i as int]));
            return None;
        }
        let d = (c - 0x30u8) as usize;
        if acc > (usize::MAX - d) / 10 {
            proof {
                lemma_dec_grows(s@, i + 1);
            }
            return None;
        }
        acc = 10 * acc + d;
        i = i + 1;
    }
    assert(s@.take(i as int) =~= s@);
    Some(acc)
}

/// Appends the decimal digits of `n` to `out`.
pub fn push_dec(out: &mut Vec<u8>, n: usize)
    ensures
        final(out)@ == old(out)@ + dec_digits(n as nat),
    decreases n,
{
    if n >= 10 {
        push_dec(out, n / 10);
    }
    let ghost mid = out@;
    out.push(0x30u8 + (n % 10) as u8);
    proof {
        if n >= 10 {
            assert(out@ =~= old(out)@ + dec_digits(n as nat));
        } else {
            assert(out@ =~= old(out)@ + dec_digits(n as nat));
        }
    }
}

} // verus!
