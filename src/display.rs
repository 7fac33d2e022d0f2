use crate::match_index::SubscriptionID;
use vstd::prelude::*;

verus! {

/// The first 16 characters of `s`, followed by `..` when `s` is longer.
pub open spec fn truncated_id(s: Seq<char>) -> Seq<char> {
    if s.len() > 16 {
        s.take(16) + seq!['.', '.']
    } else {
        s
    }
}

/// Shortens an identifier's text for log lines.
pub fn fmt_id(id: &str) -> (r: String)
    ensures
        r@ == truncated_id(id@),
{
    let n = id.unicode_len();
    if n > 16 {
        let head = id.substring_char(0, 16);
        let mut r = head.to_owned();
        r.append("..");
        proof {
            reveal_strlit("..");
            assert(r@ =~= truncated_id(id@));
        }
        r
    } else {
        id.to_owned()
    }
}


/// The lower-case hexadecimal digit of `n`, for `n` below 16.
pub open spec fn hex_digit(n: u8) -> char {
    if n == 0 {
        '0'
    } else if n == 1 {
        '1'
    } else if n == 2 {
        '2'
    } else if n == 3 {
        '3'
    } else if n == 4 {
        '4'
    } else if n == 5 {
        '5'
    } else if n == 6 {
        '6'
    } else if n == 7 {
        '7'
    } else if n == 8 {
        '8'
    } else if n == 9 {
        '9'
    } else if n == 10 {
        'a'
    } else if n == 11 {
        'b'
    } else if n == 12 {
        'c'
    } else if n == 13 {
        'd'
    } else if n == 14 {
        'e'
    } else {
        'f'
    }
}

/// Two hexadecimal digits per byte, the high one first.
pub open spec fn hex_text(bytes: Seq<u8>) -> Seq<char>
    decreases bytes.len(),
{
    if bytes.len() == 0 {
        Seq::empty()
    } else {
        hex_text(bytes.drop_last()) + seq![hex_digit(bytes.last() / 16), hex_digit(bytes.last() % 16)]
    }
}

fn hex_digit_str(n: u8) -> (r: &'static str)
    requires
        n < 16,
    ensures
        r@ == seq![hex_digit(n)],
{
    proof {
        reveal_strlit("0");
        reveal_strlit("1");
        reveal_strlit("2");
        reveal_strlit("3");
        reveal_strlit("4");
        reveal_strlit("5");
        reveal_strlit("6");
        reveal_strlit("7");
        reveal_strlit("8");
        reveal_strlit("9");
        reveal_strlit("a");
        reveal_strlit("b");
        reveal_strlit("c");
        reveal_strlit("d");
        reveal_strlit("e");
        reveal_strlit("f");
    }
    let r = {
    if n == 0 {
        "0"
    } else if n == 1 {
        "1"
    } else if n == 2 {
        "2"
    } else if n == 3 {
        "3"
    } else if n == 4 {
        "4"
    } else if n == 5 {
        "5"
    } else if n == 6 {
        "6"
    } else if n == 7 {
        "7"
    } else if n == 8 {
        "8"
    } else if n == 9 {
        "9"
    } else if n == 10 {
        "a"
    } else if n == 11 {
        "b"
    } else if n == 12 {
        "c"
    } else if n == 13 {
        "d"
    } else if n == 14 {
        "e"
    } else {
        "f"
    }
    };
    assert(r@ =~= seq![hex_digit(n)]);
    r
}

/// A subscription identifier as text: 64 lower-case hexadecimal digits.
pub fn id_text(id: &SubscriptionID) -> (r: String)
    ensures
        r@ == hex_text(id@),
{
    let mut r = String::new();
    let mut i: usize = 0;
    while i < 32
        invariant
            i <= 32,
            id@.len() == 32,
            r@ == hex_text(id@.take(i as int)),
        decreases 32 - i,
    {
        let b = id[i];
        r.append(hex_digit_str(b / 16));
        r.append(hex_digit_str(b % 16));
        proof {
            assert(id@.take(i + 1).drop_last() =~= id@.take(i as int));
            assert(r@ =~= hex_text(id@.take(i + 1)));
        }
        i = i + 1;
    }
    assert(id@.take(32) =~= id@);
    r
}


/// The value of a lower-case hexadecimal digit.
pub open spec fn hex_value(c: char) -> Option<u8> {
    if c == '0' {
        Some(0u8)
    } else if c == '1' {
        Some(1u8)
    } else if c == '2' {
        Some(2u8)
    } else if c == '3' {
        Some(3u8)
    } else if c == '4' {
        Some(4u8)
    } else if c == '5' {
        Some(5u8)
    } else if c == '6' {
        Some(6u8)
    } else if c == '7' {
        Some(7u8)
    } else if c == '8' {
        Some(8u8)
    } else if c == '9' {
        Some(9u8)
    } else if c == 'a' {
        Some(10u8)
    } else if c == 'b' {
        Some(11u8)
    } else if c == 'c' {
        Some(12u8)
    } else if c == 'd' {
        Some(13u8)
    } else if c == 'e' {
        Some(14u8)
    } else if c == 'f' {
        Some(15u8)
    } else {
        None
    }
}

fn hex_value_of(c: char) -> (r: Option<u8>)
    ensures
        r == hex_value(c),
{
    if c == '0' {
        Some(0u8)
    } else if c == '1' {
        Some(1u8)
    } else if c == '2' {
        Some(2u8)
    } else if c == '3' {
        Some(3u8)
    } else if c == '4' {
        Some(4u8)
    } else if c == '5' {
        Some(5u8)
    } else if c == '6' {
        Some(6u8)
    } else if c == '7' {
        Some(7u8)
    } else if c == '8' {
        Some(8u8)
    } else if c == '9' {
        Some(9u8)
    } else if c == 'a' {
        Some(10u8)
    } else if c == 'b' {
        Some(11u8)
    } else if c == 'c' {
        Some(12u8)
    } else if c == 'd' {
        Some(13u8)
    } else if c == 'e' {
        Some(14u8)
    } else if c == 'f' {
        Some(15u8)
    } else {
        None
    }
}

proof fn lemma_hex_digit_value(n: u8)
    requires
        n < 16,
    ensures
        hex_value(hex_digit(n)) == Some(n),
{
}

proof fn lemma_hex_value_digit(c: char)
    requires
        hex_value(c) is Some,
    ensures
        hex_value(c).unwrap() < 16,
        hex_digit(hex_value(c).unwrap()) == c,
{
}

proof fn lemma_hex_text_index(bytes: Seq<u8>)
    ensures
        hex_text(bytes).len() == 2 * bytes.len(),
        forall|k: int| 0 <= k < bytes.len() ==> hex_text(bytes)[2 * k] == hex_digit(#[trigger] bytes[k] / 16)
            && hex_text(bytes)[2 * k + 1] == hex_digit(bytes[k] % 16),
    decreases bytes.len(),
{
    if bytes.len() > 0 {
        let p = bytes.drop_last();
        lemma_hex_text_index(p);
        assert forall|k: int| 0 <= k < bytes.len() implies hex_text(bytes)[2 * k] == hex_digit(
            #[trigger] bytes[k] / 16,
        ) && hex_text(bytes)[2 * k + 1] == hex_digit(bytes[k] % 16) by {
            if k < p.len() {
                assert(p[k] == bytes[k]);
            }
        }
    }
}

/// Reads the text that [`id_text`] writes: exactly 64 lower-case
/// hexadecimal digits. Any other text names no identifier.
pub fn parse_id_text(s: &str) -> (r: Option<SubscriptionID>)
    ensures
        match r {
            Some(id) => hex_text(id@) == s@,
            None => forall|id: SubscriptionID| hex_text(id@) != s@,
        },
{
    let n = s.unicode_len();
    if n != 64 {
        proof {
            assert forall|id: SubscriptionID| hex_text(id@) != s@ by {
                lemma_hex_text_index(id@);
            }
        }
        return None;
    }
    let mut id: [u8; 32] = [0u8; 32];
    let mut i: usize = 0;
    while i < 32
        invariant
            i <= 32,
            s@.len() == 64,
            id@.len() == 32,
            forall|k: int| 0 <= k < i ==> hex_digit(#[trigger] id@[k] / 16) == s@[2 * k] && hex_digit(id@[k] % 16)
                == s@[2 * k + 1],
        decreases 32 - i,
    {
        let hi = hex_value_of(s.get_char(2 * i));
        let lo = hex_value_of(s.get_char(2 * i + 1));
        match (hi, lo) {
            (Some(h), Some(l)) => {
                proof {
                    lemma_hex_value_digit(s@[2 * i as int]);
                    lemma_hex_value_digit(s@[2 * i as int + 1]);
                }
                let v: u8 = h * 16 + l;
                assert(v / 16 == h && v % 16 == l) by (nonlinear_arith)
                    requires
                        v == h * 16 + l,
                        h < 16,
                        l < 16,
                ;
                id[i] = v;
            },
            _ => {
                proof {
                    assert forall|other: SubscriptionID| hex_text(other@) != s@ by {
                        lemma_hex_text_index(other@);
                        if hex_text(other@) == s@ {
                            assert(hex_text(other@)[2 * i as int] == hex_digit(other@[i as int] / 16));
                            lemma_hex_digit_value(other@[i as int] / 16);
                            lemma_hex_digit_value(other@[i as int] % 16);
                        }
                    }
                }
                return None;
            },
        }
        i = i + 1;
    }
    proof {
        lemma_hex_text_index(id@);
        assert(hex_text(id@) =~= s@) by {
            assert forall|j: int| 0 <= j < 64 implies hex_text(id@)[j] == s@[j] by {
                let k = j / 2;
                assert(j == 2 * k || j == 2 * k + 1);
                assert(hex_digit(id@[k] / 16) == s@[2 * k]);
            }
        }
    }
    Some(id)
}


/// Two identifiers with the same text are the same identifier, so
/// [`parse_id_text`] of [`id_text`] gives the identifier back.
pub proof fn lemma_id_text_round_trip(a: SubscriptionID, b: SubscriptionID)
    requires
        hex_text(a@) == hex_text(b@),
    ensures
        a == b,
{
    lemma_hex_text_index(a@);
    lemma_hex_text_index(b@);
    assert forall|k: int| 0 <= k < 32 implies a@[k] == b@[k] by {
        assert(hex_text(a@)[2 * k] == hex_text(b@)[2 * k]);
        assert(hex_text(a@)[2 * k + 1] == hex_text(b@)[2 * k + 1]);
        lemma_hex_digit_value(a@[k] / 16);
        lemma_hex_digit_value(b@[k] / 16);
        lemma_hex_digit_value(a@[k] % 16);
        lemma_hex_digit_value(b@[k] % 16);
        let x = a@[k];
        let y = b@[k];
        assert(x == y) by (nonlinear_arith)
            requires
                x / 16 == y / 16,
                x % 16 == y % 16,
        ;
    }
    assert(a@ =~= b@);
}

} // verus!
