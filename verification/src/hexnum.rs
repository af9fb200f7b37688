//! Fixed-width hexadecimal renderings of numbers, as characters.
//!
//! The wire codec uses these for length prefixes and counters, and the
//! delivery-identifier scheme uses them for its time-sortable prefix: a
//! fixed-width big-endian hex rendering compares lexicographically exactly
//! as the underlying numbers compare.
use vstd::prelude::*;

verus! {

pub open spec fn pow16(w: nat) -> int
    decreases w,
{
    if w == 0 {
        1
    } else {
        16 * pow16((w - 1) as nat)
    }
}

pub open spec fn hex_digit_char(d: int) -> char {
    if d == 0 {
        '0'
    } else if d == 1 {
        '1'
    } else if d == 2 {
        '2'
    } else if d == 3 {
        '3'
    } else if d == 4 {
        '4'
    } else if d == 5 {
        '5'
    } else if d == 6 {
        '6'
    } else if d == 7 {
        '7'
    } else if d == 8 {
        '8'
    } else if d == 9 {
        '9'
    } else if d == 10 {
        'a'
    } else if d == 11 {
        'b'
    } else if d == 12 {
        'c'
    } else if d == 13 {
        'd'
    } else if d == 14 {
        'e'
    } else {
        'f'
    }
}

pub open spec fn is_hex_char(c: char) -> bool {
    exists|d: int| 0 <= d < 16 && c == hex_digit_char(d)
}

pub open spec fn hex_char_val(c: char) -> int {
    choose|d: int| 0 <= d < 16 && c == hex_digit_char(d)
}

/// The big-endian, fixed-width `w` hex rendering of `n % 16^w`.
pub open spec fn hex_seq(n: int, w: nat) -> Seq<char>
    decreases w,
{
    if w == 0 {
        Seq::empty()
    } else {
        hex_seq(n / 16, (w - 1) as nat).push(hex_digit_char(n % 16))
    }
}

/// Reads a fixed-width big-endian hex rendering back as a number.
pub open spec fn parse_hex(s: Seq<char>) -> Option<int>
    decreases s.len(),
{
    if s.len() == 0 {
        Some(0)
    } else if !is_hex_char(s.last()) {
        None
    } else {
        match parse_hex(s.drop_last()) {
            None => None,
            Some(h) => Some(h * 16 + hex_char_val(s.last())),
        }
    }
}

pub proof fn lemma_hex_digit_char_injective(d1: int, d2: int)
    requires
        0 <= d1 < 16,
        0 <= d2 < 16,
        d1 != d2,
    ensures
        hex_digit_char(d1) != hex_digit_char(d2),
{
}

pub proof fn lemma_hex_char_val(d: int)
    requires
        0 <= d < 16,
    ensures
        is_hex_char(hex_digit_char(d)),
        hex_char_val(hex_digit_char(d)) == d,
{
    assert(is_hex_char(hex_digit_char(d)));
    let d2 = hex_char_val(hex_digit_char(d));
    if d2 != d {
        lemma_hex_digit_char_injective(d, d2);
    }
}

pub proof fn lemma_hex_seq_len(n: int, w: nat)
    ensures
        hex_seq(n, w).len() == w,
    decreases w,
{
    if w > 0 {
        lemma_hex_seq_len(n / 16, (w - 1) as nat);
    }
}

pub proof fn lemma_parse_hex_bound(s: Seq<char>)
    ensures
        parse_hex(s) matches Some(v) ==> 0 <= v < pow16(s.len()),
    decreases s.len(),
{
    if s.len() > 0 {
        lemma_parse_hex_bound(s.drop_last());
        if parse_hex(s) is Some {
            let h = parse_hex(s.drop_last())->Some_0;
            let c = s.last();
            assert(0 <= hex_char_val(c) < 16) by {
                let d = choose|d: int| 0 <= d < 16 && c == hex_digit_char(d);
                assert(hex_char_val(c) == d);
            }
            assert(h * 16 + hex_char_val(c) < pow16(s.len())) by (nonlinear_arith)
                requires
                    0 <= h < pow16((s.len() - 1) as nat),
                    hex_char_val(c) < 16,
                    pow16(s.len()) == 16 * pow16((s.len() - 1) as nat),
            {}
        }
    }
}

/// Rendering then parsing a number below `16^w` gives the number back.
pub proof fn lemma_parse_hex_seq(n: int, w: nat)
    requires
        0 <= n < pow16(w),
    ensures
        parse_hex(hex_seq(n, w)) == Some(n),
    decreases w,
{
    if w == 0 {
        assert(n == 0);
        assert(hex_seq(n, w) =~= Seq::<char>::empty());
    } else {
        let q = n / 16;
        let d = n % 16;
        assert(q < pow16((w - 1) as nat)) by (nonlinear_arith)
            requires
                0 <= n < pow16(w),
                pow16(w) == 16 * pow16((w - 1) as nat),
                q == n / 16,
        {}
        lemma_parse_hex_seq(q, (w - 1) as nat);
        lemma_hex_char_val(d);
        let s = hex_seq(n, w);
        lemma_hex_seq_len(n, w);
        assert(s.last() == hex_digit_char(d));
        assert(s.drop_last() =~= hex_seq(q, (w - 1) as nat));
        assert(q * 16 + d == n);
    }
}

pub proof fn lemma_parse_hex_invalid(s: Seq<char>, i: int)
    requires
        0 <= i < s.len(),
        !is_hex_char(s[i]),
    ensures
        parse_hex(s) is None,
    decreases s.len(),
{
    if i == s.len() - 1 {
        assert(s.last() == s[i]);
    } else {
        lemma_parse_hex_invalid(s.drop_last(), i);
    }
}

/// Strict lexicographic order on character sequences, by scalar value.
pub open spec fn lex_lt(a: Seq<char>, b: Seq<char>) -> bool
    decreases b.len(),
{
    b.len() > 0 && (a.len() == 0 || (a[0] as u32) < (b[0] as u32) || (a[0] == b[0] && lex_lt(
        a.skip(1),
        b.skip(1),
    )))
}

/// A strict order on equal-length prefixes decides the order whatever follows.
pub proof fn lemma_lex_append(a: Seq<char>, b: Seq<char>, x: Seq<char>, y: Seq<char>)
    requires
        a.len() == b.len(),
        lex_lt(a, b),
    ensures
        lex_lt(a + x, b + y),
    decreases a.len(),
{
    assert(b.len() > 0);
    assert((a + x)[0] == a[0]);
    assert((b + y)[0] == b[0]);
    if a.len() > 0 && a[0] == b[0] && lex_lt(a.skip(1), b.skip(1)) {
        lemma_lex_append(a.skip(1), b.skip(1), x, y);
        assert((a + x).skip(1) =~= a.skip(1) + x);
        assert((b + y).skip(1) =~= b.skip(1) + y);
    }
}

pub proof fn lemma_lex_last(a: Seq<char>, x: char, y: char)
    requires
        (x as u32) < (y as u32),
    ensures
        lex_lt(a.push(x), a.push(y)),
    decreases a.len(),
{
    let ax = a.push(x);
    let ay = a.push(y);
    if a.len() == 0 {
        assert(ax[0] == x);
        assert(ay[0] == y);
    } else {
        assert(ax[0] == a[0]);
        assert(ay[0] == a[0]);
        lemma_lex_last(a.skip(1), x, y);
        assert(ax.skip(1) =~= a.skip(1).push(x));
        assert(ay.skip(1) =~= a.skip(1).push(y));
    }
}

pub proof fn lemma_hex_digit_char_lt(d1: int, d2: int)
    requires
        0 <= d1 < d2 < 16,
    ensures
        (hex_digit_char(d1) as u32) < (hex_digit_char(d2) as u32),
{
}

/// Fixed-width hex renderings order exactly as the numbers they render.
pub proof fn lemma_hex_seq_lt(n1: int, n2: int, w: nat)
    requires
        0 <= n1 < n2 < pow16(w),
    ensures
        lex_lt(hex_seq(n1, w), hex_seq(n2, w)),
    decreases w,
{
    assert(w > 0);
    let q1 = n1 / 16;
    let q2 = n2 / 16;
    let d1 = n1 % 16;
    let d2 = n2 % 16;
    assert(0 <= q1 <= q2 < pow16((w - 1) as nat)) by (nonlinear_arith)
        requires
            0 <= n1 < n2 < pow16(w),
            pow16(w) == 16 * pow16((w - 1) as nat),
            q1 == n1 / 16,
            q2 == n2 / 16,
    {}
    lemma_hex_seq_len(q1, (w - 1) as nat);
    lemma_hex_seq_len(q2, (w - 1) as nat);
    if q1 < q2 {
        lemma_hex_seq_lt(q1, q2, (w - 1) as nat);
        lemma_lex_append(
            hex_seq(q1, (w - 1) as nat),
            hex_seq(q2, (w - 1) as nat),
            seq![hex_digit_char(d1)],
            seq![hex_digit_char(d2)],
        );
        assert(hex_seq(n1, w) =~= hex_seq(q1, (w - 1) as nat) + seq![hex_digit_char(d1)]);
        assert(hex_seq(n2, w) =~= hex_seq(q2, (w - 1) as nat) + seq![hex_digit_char(d2)]);
    } else {
        assert(d1 < d2) by (nonlinear_arith)
            requires
                n1 < n2,
                q1 == q2,
                q1 == n1 / 16,
                q2 == n2 / 16,
                d1 == n1 % 16,
                d2 == n2 % 16,
        {}
        lemma_hex_digit_char_lt(d1, d2);
        lemma_lex_last(hex_seq(q1, (w - 1) as nat), hex_digit_char(d1), hex_digit_char(d2));
    }
}

/// Appends exactly the digits of `hex_seq(n as int, w as nat)` to `s`.
pub fn push_hex(s: &mut String, n: u64, w: u64)
    ensures
        final(s)@ == old(s)@ + hex_seq(n as int, w as nat),
    decreases w,
{
    if w == 0 {
        assert(s@ =~= old(s)@ + hex_seq(n as int, 0));
    } else {
        push_hex(s, n / 16, w - 1);
        let d: u64 = n % 16;
        let piece: &'static str = hex_digit_str(d);
        s.append(piece);
        proof {
            assert(n as int / 16 == (n / 16) as int);
            assert(s@ =~= old(s)@ + hex_seq(n as int, w as nat));
        }
    }
}

pub fn hex_digit_str(d: u64) -> (r: &'static str)
    requires
        d < 16,
    ensures
        r@ =~= seq![hex_digit_char(d as int)],
{
    proof {
        reveal_strlit("0");
        reveal_strlit("1");
        reveal_strlit("2");
        reveal_strlit("3");
        reveal_strlit("4");
        reveal_strlit("5");
        reveal_strlit("6");
        reveal_strlit("7");
        reveal_strlit("8");
        reveal_strlit("9");
        reveal_strlit("a");
        reveal_strlit("b");
        reveal_strlit("c");
        reveal_strlit("d");
        reveal_strlit("e");
        reveal_strlit("f");
    }
    match d {
        0 => "0",
        1 => "1",
        2 => "2",
        3 => "3",
        4 => "4",
        5 => "5",
        6 => "6",
        7 => "7",
        8 => "8",
        9 => "9",
        10 => "a",
        11 => "b",
        12 => "c",
        13 => "d",
        14 => "e",
        _ => "f",
    }
}

pub fn hex_char_digit(c: char) -> (r: Option<u64>)
    ensures
        is_hex_char(c) ==> (r matches Some(v) && v as int == hex_char_val(c)),
        !is_hex_char(c) ==> r is None,
{
    let r: Option<u64> = match c {
        '0' => Some(0),
        '1' => Some(1),
        '2' => Some(2),
        '3' => Some(3),
        '4' => Some(4),
        '5' => Some(5),
        '6' => Some(6),
        '7' => Some(7),
        '8' => Some(8),
        '9' => Some(9),
        'a' => Some(10),
        'b' => Some(11),
        'c' => Some(12),
        'd' => Some(13),
        'e' => Some(14),
        'f' => Some(15),
        _ => None,
    };
    proof {
        match r {
            Some(v) => {
                lemma_hex_char_val(v as int);
            },
            None => {
                if is_hex_char(c) {
                    let d = choose|d: int| 0 <= d < 16 && c == hex_digit_char(d);
                    assert(c == hex_digit_char(d));
                    assert(false);
                }
            },
        }
    }
    r
}

/// Reads `w` characters of `s` starting at `pos` as a fixed-width hex number.
pub fn read_hex(s: &str, pos: usize, w: usize) -> (r: Option<u64>)
    requires
        pos + w <= s@.len(),
        w <= 16,
    ensures
        match parse_hex(s@.subrange(pos as int, pos as int + w as int)) {
            Some(v) => r matches Some(u) && u as int == v,
            None => r is None,
        },
{
    let slen: usize = s.unicode_len();
    let mut acc: u64 = 0;
    let mut i: usize = 0;
    proof {
        assert(s@.subrange(pos as int, pos as int) =~= Seq::<char>::empty());
    }
    while i < w
        invariant
            i <= w,
            pos + w <= s@.len(),
            slen == s@.len(),
            w <= 16,
            parse_hex(s@.subrange(pos as int, pos as int + i as int)) == Some(acc as int),
        decreases w - i,
    {
        proof {
            lemma_parse_hex_bound(s@.subrange(pos as int, pos as int + i as int));
            assert(pow16(16) == 0x10000000000000000) by {
                reveal_with_fuel(pow16, 17);
            }
            assert(pow16(i as nat) <= pow16(15)) by {
                lemma_pow16_le(i as nat, 15);
            }
        }
        let c: char = s.get_char(pos + i);
        let d: Option<u64> = hex_char_digit(c);
        match d {
            None => {
                proof {
                    let full = s@.subrange(pos as int, pos as int + w as int);
                    assert(full[i as int] == s@[pos as int + i as int]);
                    lemma_parse_hex_invalid(full, i as int);
                }
                return None;
            },
            Some(v) => {
                proof {
                    assert((acc as int) * 16 + (v as int) < pow16(i as nat + 1)) by (nonlinear_arith)
                        requires
                            0 <= (acc as int) < pow16(i as nat),
                            0 <= v < 16,
                            pow16(i as nat + 1) == 16 * pow16(i as nat),
                    {}
                    assert(pow16(i as nat + 1) <= pow16(16)) by {
                        lemma_pow16_le((i + 1) as nat, 16);
                    }
                    let pre = s@.subrange(pos as int, pos as int + i as int);
                    let ext = s@.subrange(pos as int, pos as int + i as int + 1);
                    assert(ext.drop_last() =~= pre);
                    assert(ext.last() == s@[pos as int + i as int]);
                }
                acc = acc * 16 + v;
                i = i + 1;
            },
        }
    }
    proof {
        assert(s@.subrange(pos as int, pos as int + w as int) =~= s@.subrange(
            pos as int,
            pos as int + i as int,
        ));
    }
    Some(acc)
}

pub proof fn lemma_pow16_le(a: nat, b: nat)
    requires
        a <= b,
    ensures
        pow16(a) <= pow16(b),
    decreases b,
{
    if a < b {
        lemma_pow16_le(a, (b - 1) as nat);
        lemma_pow16_pos((b - 1) as nat);
        assert(pow16((b - 1) as nat) <= pow16(b)) by (nonlinear_arith)
            requires
                pow16(b) == 16 * pow16((b - 1) as nat),
                pow16((b - 1) as nat) >= 1,
        {}
    }
}

pub proof fn lemma_pow16_pos(w: nat)
    ensures
        pow16(w) >= 1,
    decreases w,
{
    if w > 0 {
        lemma_pow16_pos((w - 1) as nat);
    }
}

} // verus!
