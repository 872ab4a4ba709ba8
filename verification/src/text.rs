//! Comparing and cutting text.
use vstd::prelude::*;
use vstd::string::{StringExecFns, StringSliceAdditionalSpecFns};
use vstd::utf8::{encode_utf8, encode_utf8_decode_utf8, is_char_boundary};

verus! {

/// `a` and `b` hold the same characters.
pub fn str_eq(a: &str, b: &str) -> (r: bool)
    ensures
        r == (a@ == b@),
{
    let x = a.as_bytes();
    let y = b.as_bytes();
    proof {
        encode_utf8_decode_utf8(a@);
        encode_utf8_decode_utf8(b@);
    }
    assert(a@ == b@ ==> x@ == y@);
    if x.len() != y.len() {
        return false;
    }
    let mut i: usize = 0;
    while i < x.len()
        invariant
            i <= x@.len(),
            x@.len() == y@.len(),
            x@ == encode_utf8(a@),
            y@ == encode_utf8(b@),
            forall|k: int| 0 <= k < i ==> x@[k] == y@[k],
        decreases x.len() - i,
    {
        if x[i] != y[i] {
            assert(x@ != y@);
            return false;
        }
        i += 1;
    }
    assert(x@ =~= y@);
    true
}

/// `c` with an ASCII capital letter turned into its small letter.
pub open spec fn ascii_lower_char(c: char) -> char {
    if 'A' <= c <= 'Z' {
        ((c as u32) + 32) as char
    } else {
        c
    }
}

/// `s` with every ASCII capital letter turned into its small letter.
pub open spec fn ascii_lowercase(s: Seq<char>) -> Seq<char> {
    s.map_values(|c: char| ascii_lower_char(c))
}

proof fn lemma_lower_code(c: char)
    requires
        (c as u32) < 128,
    ensures
        (ascii_lower_char(c) as u32) as int == if 65 <= (c as u32) <= 90 { (c as u32) + 32 } else { c as u32 as int },
{
}

proof fn lemma_ascii_byte(c: char)
    requires
        (c as u32) < 128,
    ensures
        (c as u8) as u32 == c as u32,
{
}

proof fn lemma_char_code_eq(a: char, b: char)
    ensures
        (a as u32 == b as u32) == (a == b),
{
}

/// Every character of `s` is ASCII.
pub open spec fn all_ascii(s: Seq<char>) -> bool {
    forall|i: int| 0 <= i < s.len() ==> (#[trigger] s[i] as u32) < 128
}

/// Whether `s`, with ASCII letters taken in small letters, is `word`, itself
/// in ASCII small letters.
pub fn lower_is(s: &str, word: &str) -> (r: bool)
    requires
        all_ascii(word@),
        ascii_lowercase(word@) == word@,
    ensures
        r == (ascii_lowercase(s@) == word@),
{
    proof {
        encode_utf8_decode_utf8(s@);
        vstd::utf8::is_ascii_chars_encode_utf8(word@);
    }
    if !s.is_ascii() {
        proof {
            let k = choose|k: int| 0 <= k < s@.len() && !('\0' <= #[trigger] s@[k] <= '\u{7f}');
            if ascii_lowercase(s@) == word@ {
                assert(ascii_lowercase(s@)[k] == ascii_lower_char(s@[k]));
                assert((word@[k] as u32) < 128);
            }
        }
        return false;
    }
    let x = s.as_bytes();
    let y = word.as_bytes();
    proof {
        vstd::utf8::is_ascii_chars_encode_utf8(s@);
    }
    if x.len() != y.len() {
        return false;
    }
    let mut i: usize = 0;
    while i < x.len()
        invariant
            i <= x@.len(),
            x@.len() == y@.len(),
            x@ == Seq::new(s@.len(), |j: int| s@[j] as u8),
            y@ == Seq::new(word@.len(), |j: int| word@[j] as u8),
            all_ascii(word@),
            vstd::string::is_ascii(s),
            forall|k: int| 0 <= k < i ==> #[trigger] ascii_lower_char(s@[k]) == word@[k],
        decreases x.len() - i,
    {
        let b = x[i];
        let lower = if 65 <= b && b <= 90 { b + 32 } else { b };
        assert(('\0' <= s@[i as int] <= '\u{7f}'));
        assert(b as u32 == s@[i as int] as u32);
        assert((word@[i as int] as u32) < 128);
        proof {
            lemma_ascii_byte(word@[i as int]);
        }
        assert(y@[i as int] == word@[i as int] as u8);
        assert(y@[i as int] as u32 == word@[i as int] as u32);
        proof {
            lemma_lower_code(s@[i as int]);
        }
        proof {
            lemma_char_code_eq(ascii_lower_char(s@[i as int]), word@[i as int]);
        }
        assert((lower as u32 == y@[i as int] as u32) == ((ascii_lower_char(s@[i as int]) as u32) == (word@[i as int] as u32)));
        assert((lower == y@[i as int]) == (ascii_lower_char(s@[i as int]) == word@[i as int]));
        if lower != y[i] {
            assert(ascii_lowercase(s@)[i as int] != word@[i as int]);
            return false;
        }
        i += 1;
    }
    assert(ascii_lowercase(s@) =~= word@);
    true
}

/// The largest character boundary of `bytes` at or below `i`.
pub open spec fn floor_char_boundary(bytes: Seq<u8>, i: int) -> int
    decreases i,
{
    if i <= 0 || is_char_boundary(bytes, i) {
        if i <= 0 { 0 } else { i }
    } else {
        floor_char_boundary(bytes, i - 1)
    }
}

/// `s` cut to at most `max` bytes, at the last character boundary that fits.
pub fn truncate(s: &str, max: usize) -> (r: &str)
    ensures
        s.len() <= max ==> r@ == s@,
        s.len() > max ==> r.spec_bytes() == s.spec_bytes().subrange(
            0,
            floor_char_boundary(s.spec_bytes(), max as int),
        ),
{
    if s.len() <= max {
        return s;
    }
    assert(max < s.spec_bytes().len());
    let mut i: usize = max;
    while i > 0 && !s.is_char_boundary(i)
        invariant
            i <= max,
            max < s.spec_bytes().len(),
            floor_char_boundary(s.spec_bytes(), i as int) == floor_char_boundary(s.spec_bytes(), max as int),
        decreases i,
    {
        i -= 1;
    }
    proof {
        vstd::utf8::encode_utf8_valid_utf8(s@);
        vstd::utf8::is_char_boundary_start_end_of_seq(s.spec_bytes());
    }
    let (head, _) = s.split_at(i);
    head
}

/// The decimal digit `d` as a character.
pub open spec fn digit_char(d: nat) -> char {
    ((d + 48) as u32) as char
}

/// `n` written in decimal, without leading zeros.
pub open spec fn decimal(n: nat) -> Seq<char>
    decreases n,
{
    if n < 10 {
        seq![digit_char(n)]
    } else {
        decimal(n / 10).push(digit_char(n % 10))
    }
}

fn digit_str(d: u64) -> (r: &'static str)
    requires
        d < 10,
    ensures
        r@ == seq![digit_char(d as nat)],
{
    proof {
        reveal_strlit("0");
        reveal_strlit("1");
        reveal_strlit("2");
        reveal_strlit("3");
        reveal_strlit("4");
        reveal_strlit("5");
        reveal_strlit("6");
        reveal_strlit("7");
        reveal_strlit("8");
        reveal_strlit("9");
    }
    let r = if d == 0 {
        "0"
    } else if d == 1 {
        "1"
    } else if d == 2 {
        "2"
    } else if d == 3 {
        "3"
    } else if d == 4 {
        "4"
    } else if d == 5 {
        "5"
    } else if d == 6 {
        "6"
    } else if d == 7 {
        "7"
    } else if d == 8 {
        "8"
    } else {
        "9"
    };
    assert(r@ =~= seq![digit_char(d as nat)]);
    r
}

/// `n` written in decimal.
pub fn decimal_string(n: u64) -> (r: String)
    ensures
        r@ == decimal(n as nat),
    decreases n,
{
    if n < 10 {
        digit_str(n).to_owned()
    } else {
        let mut s = decimal_string(n / 10);
        s.append(digit_str(n % 10));
        s
    }
}

} // verus!
