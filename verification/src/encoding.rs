use vstd::prelude::*;

verus! {

broadcast use vstd::utf8::char_is_scalar, vstd::utf8::char_u32_cast;

/// The sixteen lowercase hex digits, by value.
pub open spec fn hex_char_of(d: int) -> char {
    if d == 0 {
        '0'
    } else if d == 1 {
        '1'
    } else if d == 2 {
        '2'
    } else if d == 3 {
        '3'
    } else if d == 4 {
        '4'
    } else if d == 5 {
        '5'
    } else if d == 6 {
        '6'
    } else if d == 7 {
        '7'
    } else if d == 8 {
        '8'
    } else if d == 9 {
        '9'
    } else if d == 10 {
        'a'
    } else if d == 11 {
        'b'
    } else if d == 12 {
        'c'
    } else if d == 13 {
        'd'
    } else if d == 14 {
        'e'
    } else {
        'f'
    }
}

/// The value of a lowercase hex digit, or -1 for any other character.
pub open spec fn hex_val_of(c: char) -> int {
    if c == '0' {
        0
    } else if c == '1' {
        1
    } else if c == '2' {
        2
    } else if c == '3' {
        3
    } else if c == '4' {
        4
    } else if c == '5' {
        5
    } else if c == '6' {
        6
    } else if c == '7' {
        7
    } else if c == '8' {
        8
    } else if c == '9' {
        9
    } else if c == 'a' {
        10
    } else if c == 'b' {
        11
    } else if c == 'c' {
        12
    } else if c == 'd' {
        13
    } else if c == 'e' {
        14
    } else if c == 'f' {
        15
    } else {
        -1
    }
}

pub open spec fn pow16(w: nat) -> int
    decreases w,
{
    if w == 0 {
        1
    } else {
        16 * pow16((w - 1) as nat)
    }
}

/// A number written as exactly `w` lowercase hex digits, most significant
/// first.
pub open spec fn hex_fixed(v: int, w: nat) -> Seq<char>
    decreases w,
{
    if w == 0 {
        Seq::empty()
    } else {
        hex_fixed(v / 16, (w - 1) as nat).push(hex_char_of(v % 16))
    }
}

/// The value of a sequence of hex digits, most significant first; -1 if any
/// character is not a lowercase hex digit.
pub open spec fn hexv(s: Seq<char>) -> int
    decreases s.len(),
{
    if s.len() == 0 {
        0
    } else {
        let p = hexv(s.drop_last());
        let d = hex_val_of(s.last());
        if p < 0 || d < 0 {
            -1
        } else {
            p * 16 + d
        }
    }
}

/// A character sequence written as hex: each character as the six hex
/// digits of its code point.
pub open spec fn hex_chars(s: Seq<char>) -> Seq<char>
    decreases s.len(),
{
    if s.len() == 0 {
        Seq::empty()
    } else {
        hex_chars(s.drop_last()) + hex_fixed(s.last() as u32 as int, 6)
    }
}

/// A valid Unicode scalar value: what a character's code may be.
pub open spec fn valid_scalar(v: int) -> bool {
    (0 <= v < 0xD800) || (0xE000 <= v <= 0x10FFFF)
}

/// The inverse reading of `hex_chars`: six hex digits per character, most
/// significant first; `None` on a bad digit or a code that is no scalar
/// value. The length must be a multiple of six.
pub open spec fn parse_hex_chars(s: Seq<char>) -> Option<Seq<char>>
    decreases s.len(),
{
    if s.len() == 0 {
        Some(Seq::empty())
    } else if s.len() < 6 {
        None
    } else {
        let v = hexv(s.skip(s.len() - 6));
        if !valid_scalar(v) {
            None
        } else {
            match parse_hex_chars(s.take(s.len() - 6)) {
                Some(p) => Some(p.push((v as u32) as char)),
                None => None,
            }
        }
    }
}

pub proof fn lemma_hex_fixed_len(v: int, w: nat)
    ensures
        hex_fixed(v, w).len() == w,
    decreases w,
{
    if w > 0 {
        lemma_hex_fixed_len(v / 16, (w - 1) as nat);
    }
}

pub proof fn lemma_hexv_bound(s: Seq<char>)
    ensures
        -1 <= hexv(s) < pow16(s.len() as nat),
    decreases s.len(),
{
    if s.len() > 0 {
        lemma_hexv_bound(s.drop_last());
    }
}

/// Reading back `w` fixed hex digits recovers the value written, for any
/// value the width can hold.
pub proof fn lemma_hexv_of_fixed(v: int, w: nat)
    requires
        0 <= v < pow16(w),
    ensures
        hexv(hex_fixed(v, w)) == v,
    decreases w,
{
    if w == 0 {
    } else {
        lemma_hex_fixed_len(v / 16, (w - 1) as nat);
        lemma_hexv_of_fixed(v / 16, (w - 1) as nat);
        let s = hex_fixed(v, w);
        assert(s.drop_last() =~= hex_fixed(v / 16, (w - 1) as nat));
        assert(s.last() == hex_char_of(v % 16));
    }
}

pub proof fn lemma_hex_chars_len(s: Seq<char>)
    ensures
        hex_chars(s).len() == 6 * s.len(),
    decreases s.len(),
{
    if s.len() > 0 {
        lemma_hex_chars_len(s.drop_last());
        lemma_hex_fixed_len(s.last() as u32 as int, 6);
    }
}

/// Reading back a hex-written character sequence recovers it exactly.
pub proof fn lemma_parse_of_hex_chars(s: Seq<char>)
    ensures
        parse_hex_chars(hex_chars(s)) == Some(s),
    decreases s.len(),
{
    if s.len() == 0 {
        assert(parse_hex_chars(hex_chars(s)) =~= Some(Seq::<char>::empty()));
        assert(s =~= Seq::<char>::empty());
    } else {
        let d = s.drop_last();
        let c = s.last();
        let enc = hex_chars(s);
        lemma_parse_of_hex_chars(d);
        lemma_hex_chars_len(d);
        lemma_hex_fixed_len(c as u32 as int, 6);
        assert(enc.len() == hex_chars(d).len() + 6) by {
            lemma_hex_chars_len(s);
        }
        assert(enc.skip(enc.len() - 6) =~= hex_fixed(c as u32 as int, 6));
        assert(enc.take(enc.len() - 6) =~= hex_chars(d));
        vstd::utf8::char_is_scalar(c);
        assert(c as u32 <= 0x10FFFF);
        assert(pow16(6) == 0x1000000) by { reveal_with_fuel(pow16, 7); }
        lemma_hexv_of_fixed(c as u32 as int, 6);
        assert(hexv(enc.skip(enc.len() - 6)) == c as u32 as int);
        assert(valid_scalar(c as u32 as int));
        assert(((c as u32 as int) as u32) as char == c) by {
            vstd::utf8::char_u32_cast(c, c as u32);
        }
        assert(parse_hex_chars(enc) == Some(d.push(c)));
        assert(d.push(c) =~= s);
    }
}

/// A hex-written sequence never contains a separator dot: every digit that
/// `hex_fixed` emits is a lowercase hex digit.
pub proof fn lemma_hex_fixed_digits(v: int, w: nat)
    ensures
        forall|i: int|
            0 <= i < hex_fixed(v, w).len() ==> hex_val_of(#[trigger] hex_fixed(v, w)[i]) >= 0,
    decreases w,
{
    if w > 0 {
        lemma_hex_fixed_digits(v / 16, (w - 1) as nat);
        lemma_hex_fixed_len(v / 16, (w - 1) as nat);
        let s = hex_fixed(v, w);
        assert forall|i: int| 0 <= i < s.len() implies hex_val_of(#[trigger] s[i]) >= 0 by {
            if i < s.len() - 1 {
                assert(s[i] == hex_fixed(v / 16, (w - 1) as nat)[i]);
            } else {
                assert(s[i] == hex_char_of(v % 16));
            }
        }
    }
}

pub proof fn lemma_hex_chars_digits(s: Seq<char>)
    ensures
        forall|i: int|
            0 <= i < hex_chars(s).len() ==> hex_val_of(#[trigger] hex_chars(s)[i]) >= 0,
    decreases s.len(),
{
    if s.len() > 0 {
        let d = s.drop_last();
        lemma_hex_chars_digits(d);
        lemma_hex_fixed_digits(s.last() as u32 as int, 6);
        lemma_hex_chars_len(d);
        lemma_hex_fixed_len(s.last() as u32 as int, 6);
        let enc = hex_chars(s);
        assert forall|i: int| 0 <= i < enc.len() implies hex_val_of(#[trigger] enc[i]) >= 0 by {
            if i < hex_chars(d).len() {
                assert(enc[i] == hex_chars(d)[i]);
            } else {
                assert(enc[i] == hex_fixed(s.last() as u32 as int, 6)[i - hex_chars(d).len()]);
            }
        }
    }
}

/// The hex digit of a value below sixteen.
pub fn hex_char(d: u32) -> (r: char)
    requires
        d < 16,
    ensures
        r == hex_char_of(d as int),
{
    match d {
        0 => '0',
        1 => '1',
        2 => '2',
        3 => '3',
        4 => '4',
        5 => '5',
        6 => '6',
        7 => '7',
        8 => '8',
        9 => '9',
        10 => 'a',
        11 => 'b',
        12 => 'c',
        13 => 'd',
        14 => 'e',
        _ => 'f',
    }
}

/// The value of a hex digit, or `None` for any other character.
pub fn hex_val(c: char) -> (r: Option<u32>)
    ensures
        match r {
            Some(v) => v < 16 && hex_val_of(c) == v as int,
            None => hex_val_of(c) < 0,
        },
{
    match c {
        '0' => Some(0),
        '1' => Some(1),
        '2' => Some(2),
        '3' => Some(3),
        '4' => Some(4),
        '5' => Some(5),
        '6' => Some(6),
        '7' => Some(7),
        '8' => Some(8),
        '9' => Some(9),
        'a' => Some(10),
        'b' => Some(11),
        'c' => Some(12),
        'd' => Some(13),
        'e' => Some(14),
        'f' => Some(15),
        _ => None,
    }
}

/// Writes `v` as exactly `width` hex digits, most significant first.
pub fn hex_fixed_chars(v: u64, width: u32) -> (r: Vec<char>)
    ensures
        r@ == hex_fixed(v as int, width as nat),
    decreases width,
{
    if width == 0 {
        Vec::new()
    } else {
        let mut r = hex_fixed_chars(v / 16, width - 1);
        r.push(hex_char((v % 16) as u32));
        r
    }
}

/// Appends the hex writing of the characters of `s` to `out`.
pub fn append_hex_chars(out: &mut Vec<char>, s: &Vec<char>)
    ensures
        final(out)@ == old(out)@ + hex_chars(s@),
{
    let ghost base = out@;
    let mut k: usize = 0;
    while k < s.len()
        invariant
            0 <= k <= s@.len(),
            out@ == base + hex_chars(s@.take(k as int)),
        decreases s@.len() - k,
    {
        let c = s[k];
        let mut piece = hex_fixed_chars(c as u32 as u64, 6);
        out.append(&mut piece);
        k += 1;
        proof {
            let t = s@.take(k as int);
            assert(t.drop_last() =~= s@.take(k as int - 1));
            assert(t.last() == s@[k as int - 1]);
            assert(c as u32 as u64 as int == c as u32 as int);
            assert(out@ =~= base + hex_chars(s@.take(k as int)));
        }
    }
    proof {
        assert(s@.take(s@.len() as int) =~= s@);
    }
}

/// Reads the value of the hex digits of `s[from .. to]`, most significant
/// first; `None` on any character that is not a hex digit.
pub fn parse_hexv(s: &Vec<char>, from: usize, to: usize) -> (r: Option<u64>)
    requires
        from <= to <= s@.len(),
        to - from <= 16,
    ensures
        match r {
            Some(v) => hexv(s@.subrange(from as int, to as int)) == v as int,
            None => hexv(s@.subrange(from as int, to as int)) < 0,
        },
{
    proof {
        assert(pow16(16) == 0x10000000000000000) by { reveal_with_fuel(pow16, 17); }
    }
    let mut acc: u64 = 0;
    let mut k: usize = from;
    while k < to
        invariant
            from <= k <= to <= s@.len(),
            to - from <= 16,
            acc as int == hexv(s@.subrange(from as int, k as int)),
            (acc as int) < pow16((k - from) as nat),
            pow16(16) == 0x10000000000000000,
        decreases to - k,
    {
        let ghost pre = s@.subrange(from as int, k as int);
        let d = hex_val(s[k]);
        proof {
            let t = s@.subrange(from as int, k as int + 1);
            assert(t.drop_last() =~= pre);
            assert(t.last() == s@[k as int]);
        }
        match d {
            Some(v) => {
                proof {
                    lemma_pow16_monotonic((k - from + 1) as nat, 16);
                    assert(16 * (acc as int) + (v as int) < 16 * pow16((k - from) as nat));
                }
                acc = 16 * acc + v as u64;
                k += 1;
            },
            None => {
                proof {
                    let whole = s@.subrange(from as int, to as int);
                    lemma_hexv_none_extends(s@, from as int, k as int + 1, to as int);
                }
                return None;
            },
        }
    }
    proof {
        assert(s@.subrange(from as int, to as int) =~= s@.subrange(from as int, k as int));
    }
    Some(acc)
}

pub proof fn lemma_pow16_pos(a: nat)
    ensures
        pow16(a) >= 1,
    decreases a,
{
    if a > 0 {
        lemma_pow16_pos((a - 1) as nat);
    }
}

pub proof fn lemma_pow16_monotonic(a: nat, b: nat)
    requires
        a <= b,
    ensures
        pow16(a) <= pow16(b),
        pow16(a) >= 1,
    decreases b,
{
    lemma_pow16_pos(a);
    if a < b {
        lemma_pow16_monotonic(a, (b - 1) as nat);
        assert(pow16(b) == 16 * pow16((b - 1) as nat));
    }
}

/// A bad digit anywhere in the range makes the whole reading bad.
pub proof fn lemma_hexv_none_extends(s: Seq<char>, from: int, mid: int, to: int)
    requires
        0 <= from <= mid <= to <= s.len(),
        hexv(s.subrange(from, mid)) < 0,
    ensures
        hexv(s.subrange(from, to)) < 0,
    decreases to - mid,
{
    if mid < to {
        let a = s.subrange(from, mid + 1);
        assert(a.drop_last() =~= s.subrange(from, mid));
        lemma_hexv_none_extends(s, from, mid + 1, to);
    }
}

/// Reads back characters from their hex writing in `s[from .. to]`.
pub fn dehex_chars(s: &Vec<char>, from: usize, to: usize) -> (r: Option<Vec<char>>)
    requires
        from <= to <= s@.len(),
        (to - from) % 6 == 0,
    ensures
        match r {
            Some(v) => parse_hex_chars(s@.subrange(from as int, to as int)) == Some(v@),
            None => parse_hex_chars(s@.subrange(from as int, to as int)) is None,
        },
{
    let mut out: Vec<char> = Vec::new();
    let mut k: usize = from;
    while k < to
        invariant
            from <= k <= to <= s@.len(),
            (to - from) % 6 == 0,
            (k - from) % 6 == 0,
            parse_hex_chars(s@.subrange(from as int, k as int)) == Some(out@),
        decreases to - k,
    {
        let v = parse_hexv(s, k, k + 6);
        proof {
            let t = s@.subrange(from as int, k as int + 6);
            assert(t.len() >= 6);
            assert(t.skip(t.len() - 6) =~= s@.subrange(k as int, k as int + 6));
            assert(t.take(t.len() - 6) =~= s@.subrange(from as int, k as int));
        }
        let code: u64 = match v {
            Some(code) => code,
            None => {
                proof {
                    lemma_hexv_bound(s@.subrange(k as int, k as int + 6));
                    lemma_parse_none_extends(s@, from as int, k as int + 6, to as int);
                }
                return None;
            },
        };
        proof {
            lemma_hexv_bound(s@.subrange(k as int, k as int + 6));
            assert(pow16(6) == 0x1000000) by { reveal_with_fuel(pow16, 7); }
        }
        if code < 0xD800 || (0xE000 <= code && code <= 0x10FFFF) {
            let c = match char_from_u32(code as u32) {
                Some(c) => c,
                None => {
                    proof {
                        assert(false);
                    }
                    return None;
                },
            };
            proof {
                let vv = hexv(s@.subrange(k as int, k as int + 6));
                vstd::utf8::char_u32_cast(c, code as u32);
                assert((vv as u32) as char == c);
                assert(parse_hex_chars(s@.subrange(from as int, k as int + 6)) == Some(
                    out@.push(c),
                ));
            }
            out.push(c);
            k += 6;
        } else {
            proof {
                lemma_parse_none_extends(s@, from as int, k as int + 6, to as int);
            }
            return None;
        }
    }
    proof {
        assert(s@.subrange(from as int, to as int) =~= s@.subrange(from as int, k as int));
    }
    Some(out)
}

/// A failed chunk anywhere in an aligned range fails the whole reading.
pub proof fn lemma_parse_none_extends(s: Seq<char>, from: int, mid: int, to: int)
    requires
        0 <= from <= mid <= to <= s.len(),
        (mid - from) % 6 == 0,
        (to - mid) % 6 == 0,
        parse_hex_chars(s.subrange(from, mid)) is None,
    ensures
        parse_hex_chars(s.subrange(from, to)) is None,
    decreases to - mid,
{
    if mid < to {
        let a = s.subrange(from, mid + 6);
        assert(a.len() >= 6);
        assert(a.take(a.len() - 6) =~= s.subrange(from, mid));
        lemma_parse_none_extends(s, from, mid + 6, to);
    }
}

/// Relies on char::from_u32: yields the character of a valid Unicode scalar
/// value, and nothing for a surrogate or out-of-range code.
#[verifier::external_body]
pub fn char_from_u32(u: u32) -> (r: Option<char>)
    ensures
        r matches Some(c) ==> c as u32 == u,
        valid_scalar(u as int) ==> r is Some,
{
    char::from_u32(u)
}

/// Relies on String's FromIterator over characters: collecting characters
/// yields the string of exactly those characters, in order.
#[verifier::external_body]
pub fn string_from_chars(v: &Vec<char>) -> (r: String)
    ensures
        r@ == v@,
{
    v.iter().collect()
}

/// Relies on str::chars: iterating a string yields exactly its characters,
/// in order.
#[verifier::external_body]
pub fn chars_of_str(s: &str) -> (r: Vec<char>)
    ensures
        r@ == s@,
{
    s.chars().collect()
}

} // verus!
