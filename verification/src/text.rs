//! Small executable helpers over strings and decimal numbers, with exact
//! specifications; the configuration grammar in `configurable_event_to_action`
//! is parsed with these.

use vstd::prelude::*;
use vstd::string::StrSliceExecFns;
use vstd::string::StringExecFns;

verus! {

/// String equality, stated over the character sequences.
pub fn string_eq(a: &String, b: &String) -> (r: bool)
    ensures
        r == (a@ == b@),
{
    a.eq(b)
}

pub open spec fn is_digit(c: char) -> bool {
    48 <= c as u32 && c as u32 <= 57
}

pub open spec fn digit_val(c: char) -> nat {
    (c as u32 - 48) as nat
}

/// The value of a sequence of decimal digits, most significant first.
pub open spec fn dec_val(s: Seq<char>) -> nat
    decreases s.len(),
{
    if s.len() == 0 {
        0
    } else {
        dec_val(s.drop_last()) * 10 + digit_val(s.last())
    }
}

pub open spec fn all_digits(s: Seq<char>) -> bool {
    forall|i: int| 0 <= i < s.len() ==> is_digit(#[trigger] s[i])
}

/// A non-empty run of decimal digits.
pub open spec fn is_dec_digits(s: Seq<char>) -> bool {
    s.len() > 0 && all_digits(s)
}

/// The digits of an unsigned decimal string: an optional leading `+` sign
/// is dropped.
pub open spec fn digits_part(s: Seq<char>) -> Seq<char> {
    if s.len() > 0 && s[0] == '+' {
        s.drop_first()
    } else {
        s
    }
}

/// What `str::parse` accepts for an unsigned integer type, ignoring range:
/// an optional `+`, then at least one decimal digit.
pub open spec fn is_unsigned_str(s: Seq<char>) -> bool {
    is_dec_digits(digits_part(s))
}

pub open spec fn unsigned_val(s: Seq<char>) -> nat {
    dec_val(digits_part(s))
}

pub open spec fn is_u64_str(s: Seq<char>) -> bool {
    is_unsigned_str(s) && unsigned_val(s) <= u64::MAX
}

pub open spec fn is_u16_str(s: Seq<char>) -> bool {
    is_unsigned_str(s) && unsigned_val(s) <= u16::MAX
}

/// The digits of a signed decimal string: an optional sign is dropped.
pub open spec fn signed_digits_part(s: Seq<char>) -> Seq<char> {
    if s.len() > 0 && (s[0] == '+' || s[0] == '-') {
        s.drop_first()
    } else {
        s
    }
}

pub open spec fn is_negative_str(s: Seq<char>) -> bool {
    s.len() > 0 && s[0] == '-'
}

/// The value a signed decimal string denotes.
pub open spec fn signed_val(s: Seq<char>) -> int {
    if is_negative_str(s) {
        -(dec_val(signed_digits_part(s)) as int)
    } else {
        dec_val(signed_digits_part(s)) as int
    }
}

pub open spec fn is_i32_str(s: Seq<char>) -> bool {
    is_dec_digits(signed_digits_part(s)) && i32::MIN <= signed_val(s) && signed_val(s)
        <= i32::MAX
}

/// A digit appended on the right multiplies the value by ten.
pub proof fn lemma_dec_val_push(s: Seq<char>, c: char)
    ensures
        dec_val(s.push(c)) == dec_val(s) * 10 + digit_val(c),
{
    assert(s.push(c).drop_last() =~= s);
    assert(s.push(c).last() == c);
}

/// The value of a prefix never exceeds the value of the whole run.
pub proof fn lemma_dec_val_prefix_le(s: Seq<char>, k: int)
    requires
        0 <= k <= s.len(),
    ensures
        dec_val(s.subrange(0, k)) <= dec_val(s),
    decreases s.len(),
{
    if k == s.len() {
        assert(s.subrange(0, k) =~= s);
    } else {
        assert(s.drop_last().subrange(0, k) =~= s.subrange(0, k));
        lemma_dec_val_prefix_le(s.drop_last(), k);
    }
}

/// Parse the decimal digits of `s` from position `start` to the end.
fn parse_digits(s: &str, start: usize) -> (r: Option<u64>)
    requires
        start <= s@.len(),
    ensures
        r is Some <==> (is_dec_digits(s@.subrange(start as int, s@.len() as int)) && dec_val(
            s@.subrange(start as int, s@.len() as int),
        ) <= u64::MAX),
        r matches Some(v) ==> v == dec_val(s@.subrange(start as int, s@.len() as int)),
{
    let ghost digits = s@.subrange(start as int, s@.len() as int);
    let len = s.unicode_len();
    if start == len {
        return None;
    }
    let mut i = start;
    let mut acc: u64 = 0;
    let limit = u64::MAX / 10;
    let last_digit = u64::MAX % 10;
    while i < len
        invariant
            start <= i <= len,
            len == s@.len(),
            digits == s@.subrange(start as int, len as int),
            all_digits(s@.subrange(start as int, i as int)),
            acc == dec_val(s@.subrange(start as int, i as int)),
            limit == u64::MAX / 10,
            last_digit == u64::MAX % 10,
        decreases len - i,
    {
        let c = s.get_char(i);
        let code = c as u32;
        if code < 48 || code > 57 {
            assert(!is_digit(digits[i - start])) by {
                assert(digits[i - start] == s@[i as int]);
            }
            return None;
        }
        let d: u64 = (code - 48) as u64;
        let ghost prefix = s@.subrange(start as int, i as int);
        proof {
            assert(prefix.push(s@[i as int]) =~= s@.subrange(start as int, i + 1 as int));
            lemma_dec_val_push(prefix, s@[i as int]);
        }
        if acc > limit || (acc == limit && d > last_digit) {
            proof {
                assert(dec_val(s@.subrange(start as int, i + 1 as int)) > u64::MAX);
                assert(digits.subrange(0, i + 1 - start as int) =~= s@.subrange(
                    start as int,
                    i + 1 as int,
                ));
                lemma_dec_val_prefix_le(digits, i + 1 - start as int);
            }
            return None;
        }
        acc = acc * 10 + d;
        i = i + 1;
    }
    proof {
        assert(s@.subrange(start as int, i as int) =~= digits);
    }
    Some(acc)
}

/// Parse an unsigned 64-bit decimal, as `str::parse::<u64>` does: an
/// optional `+` sign, then decimal digits, rejected on overflow.
pub fn parse_u64(s: &str) -> (r: Option<u64>)
    ensures
        r is Some <==> is_u64_str(s@),
        r matches Some(v) ==> v == unsigned_val(s@),
{
    let len = s.unicode_len();
    if len == 0 {
        return None;
    }
    let first = s.get_char(0);
    let start: usize = if first == '+' {
        1
    } else {
        0
    };
    proof {
        if first == '+' {
            assert(digits_part(s@) =~= s@.subrange(1, s@.len() as int));
        } else {
            assert(digits_part(s@) =~= s@.subrange(0, s@.len() as int));
        }
    }
    parse_digits(s, start)
}

/// Parse an unsigned 16-bit decimal, as `str::parse::<u16>` does.
pub fn parse_u16(s: &str) -> (r: Option<u16>)
    ensures
        r is Some <==> is_u16_str(s@),
        r matches Some(v) ==> v == unsigned_val(s@),
{
    match parse_u64(s) {
        Some(v) => if v <= 65535 {
            Some(v as u16)
        } else {
            None
        },
        _ => None,
    }
}

/// Parse a signed 32-bit decimal, as `str::parse::<i32>` does: an optional
/// sign, then decimal digits, rejected outside the `i32` range.
pub fn parse_i32(s: &str) -> (r: Option<i32>)
    ensures
        r is Some <==> is_i32_str(s@),
        r matches Some(v) ==> v as int == signed_val(s@),
{
    let len = s.unicode_len();
    if len == 0 {
        return None;
    }
    let first = s.get_char(0);
    let negative = first == '-';
    let start: usize = if first == '+' || first == '-' {
        1
    } else {
        0
    };
    proof {
        if start == 1 {
            assert(signed_digits_part(s@) =~= s@.subrange(1, s@.len() as int));
        } else {
            assert(signed_digits_part(s@) =~= s@.subrange(0, s@.len() as int));
        }
    }
    let magnitude = match parse_digits(s, start) {
        Some(v) => v,
        _ => {
            proof {
                if is_dec_digits(signed_digits_part(s@)) {
                    assert(dec_val(signed_digits_part(s@)) > u64::MAX);
                }
            }
            return None;
        },
    };
    if negative {
        if magnitude > 2147483648 {
            return None;
        }
        if magnitude == 2147483648 {
            return Some(i32::MIN);
        }
        Some(-(magnitude as i32))
    } else {
        if magnitude > 2147483647 {
            return None;
        }
        Some(magnitude as i32)
    }
}

/// The pieces of `s` between occurrences of `sep`, as `str::split` yields
/// them: always at least one piece, empty pieces kept.
pub open spec fn split_at_char(s: Seq<char>, sep: char) -> Seq<Seq<char>>
    decreases s.len(),
{
    if s.len() == 0 {
        seq![Seq::<char>::empty()]
    } else if s[0] == sep {
        seq![Seq::<char>::empty()] + split_at_char(s.drop_first(), sep)
    } else {
        let rest = split_at_char(s.drop_first(), sep);
        seq![seq![s[0]] + rest[0]] + rest.drop_first()
    }
}

pub proof fn lemma_split_len(s: Seq<char>, sep: char)
    ensures
        split_at_char(s, sep).len() >= 1,
    decreases s.len(),
{
    if s.len() > 0 {
        lemma_split_len(s.drop_first(), sep);
    }
}

/// Appending one character either opens a new empty piece or extends the
/// last piece.
pub proof fn lemma_split_push(s: Seq<char>, c: char, sep: char)
    ensures
        split_at_char(s.push(c), sep) == if c == sep {
            split_at_char(s, sep).push(Seq::<char>::empty())
        } else {
            split_at_char(s, sep).update(
                split_at_char(s, sep).len() - 1,
                split_at_char(s, sep).last().push(c),
            )
        },
    decreases s.len(),
{
    reveal_with_fuel(split_at_char, 3);
    lemma_split_len(s, sep);
    if s.len() == 0 {
        assert(s.push(c) =~= seq![c]);
        assert(seq![c].drop_first() =~= Seq::<char>::empty());
        if c == sep {
            assert(split_at_char(s.push(c), sep) =~= split_at_char(s, sep).push(
                Seq::<char>::empty(),
            ));
        } else {
            assert(seq![c] + Seq::<char>::empty() =~= Seq::<char>::empty().push(c));
            assert(split_at_char(s.push(c), sep) =~= split_at_char(s, sep).update(
                0,
                split_at_char(s, sep).last().push(c),
            ));
        }
    } else {
        lemma_split_push(s.drop_first(), c, sep);
        lemma_split_len(s.drop_first(), sep);
        assert(s.push(c)[0] == s[0]);
        assert(s.push(c).drop_first() =~= s.drop_first().push(c));
        let rest = split_at_char(s.drop_first(), sep);
        let rest2 = split_at_char(s.drop_first().push(c), sep);
        if s[0] == sep {
            if c == sep {
                assert(split_at_char(s.push(c), sep) =~= split_at_char(s, sep).push(
                    Seq::<char>::empty(),
                ));
            } else {
                assert(rest2[0] == rest[0].push(c) || rest.len() > 1);
                assert(split_at_char(s.push(c), sep) =~= split_at_char(s, sep).update(
                    split_at_char(s, sep).len() - 1,
                    split_at_char(s, sep).last().push(c),
                ));
            }
        } else {
            if c == sep {
                assert(rest2 == rest.push(Seq::<char>::empty()));
                assert(rest2[0] == rest[0]);
                assert(rest2.drop_first() =~= rest.drop_first().push(Seq::<char>::empty()));
                assert(split_at_char(s.push(c), sep) =~= split_at_char(s, sep).push(
                    Seq::<char>::empty(),
                ));
            } else {
                assert(rest2 == rest.update(rest.len() - 1, rest.last().push(c)));
                if rest.len() == 1 {
                    assert(rest2[0] == rest[0].push(c));
                    assert(rest2.drop_first() =~= rest.drop_first());
                    assert(split_at_char(s.push(c), sep) =~= split_at_char(s, sep).update(
                        split_at_char(s, sep).len() - 1,
                        split_at_char(s, sep).last().push(c),
                    ));
                } else {
                    assert(rest2[0] == rest[0]);
                    assert(rest2.drop_first() =~= rest.drop_first().update(
                        rest.drop_first().len() - 1,
                        rest.drop_first().last().push(c),
                    ));
                    assert(split_at_char(s.push(c), sep) =~= split_at_char(s, sep).update(
                        split_at_char(s, sep).len() - 1,
                        split_at_char(s, sep).last().push(c),
                    ));
                }
            }
        }
    }
}

/// The views of a list of owned strings.
pub open spec fn str_views(v: Seq<String>) -> Seq<Seq<char>> {
    v.map_values(|t: String| t@)
}

/// Split `s` at every occurrence of `sep`, as `str::split` does.
pub fn split_char(s: &str, sep: char) -> (r: Vec<String>)
    ensures
        str_views(r@) == split_at_char(s@, sep),
{
    let len = s.unicode_len();
    let mut pieces: Vec<String> = Vec::new();
    let mut piece_start: usize = 0;
    let mut i: usize = 0;
    proof {
        assert(s@.subrange(0, 0) =~= Seq::<char>::empty());
        assert(str_views(pieces@) =~= Seq::<Seq<char>>::empty());
        assert(split_at_char(s@.subrange(0, 0), sep) =~= str_views(pieces@).push(
            s@.subrange(0, 0),
        ));
    }
    while i < len
        invariant
            piece_start <= i <= len,
            len == s@.len(),
            split_at_char(s@.subrange(0, i as int), sep) == str_views(pieces@).push(
                s@.subrange(piece_start as int, i as int),
            ),
        decreases len - i,
    {
        let ghost prefix = s@.subrange(0, i as int);
        proof {
            lemma_split_push(prefix, s@[i as int], sep);
            assert(prefix.push(s@[i as int]) =~= s@.subrange(0, i + 1 as int));
        }
        let c = s.get_char(i);
        if c == sep {
            let ghost prev_pieces = pieces@;
            let ghost prev_start = piece_start as int;
            let piece = s.substring_char(piece_start, i).to_owned();
            pieces.push(piece);
            piece_start = i + 1;
            proof {
                assert(str_views(pieces@) =~= str_views(prev_pieces).push(
                    s@.subrange(prev_start, i as int),
                ));
                assert(s@.subrange(i + 1 as int, i + 1 as int) =~= Seq::<char>::empty());
                assert(split_at_char(s@.subrange(0, i + 1 as int), sep) =~= str_views(
                    pieces@,
                ).push(s@.subrange(piece_start as int, i + 1 as int)));
            }
        } else {
            proof {
                let old_split = split_at_char(prefix, sep);
                lemma_split_len(prefix, sep);
                assert(old_split.last() == s@.subrange(piece_start as int, i as int));
                assert(s@.subrange(piece_start as int, i as int).push(s@[i as int]) =~= s@.subrange(
                    piece_start as int,
                    i + 1 as int,
                ));
                assert(split_at_char(s@.subrange(0, i + 1 as int), sep) =~= str_views(
                    pieces@,
                ).push(s@.subrange(piece_start as int, i + 1 as int)));
            }
        }
        i = i + 1;
    }
    let ghost prev_pieces = pieces@;
    let piece = s.substring_char(piece_start, len).to_owned();
    pieces.push(piece);
    proof {
        assert(s@.subrange(0, len as int) =~= s@);
        assert(str_views(pieces@) =~= str_views(prev_pieces).push(
            s@.subrange(piece_start as int, len as int),
        ));
    }
    pieces
}

/// Whether `s` begins with `prefix`, stated over the character sequences.
pub fn has_prefix(s: &str, prefix: &str) -> (r: bool)
    ensures
        r == (s@.len() >= prefix@.len() && s@.subrange(0, prefix@.len() as int) == prefix@),
{
    let n = prefix.unicode_len();
    let m = s.unicode_len();
    if m < n {
        return false;
    }
    let mut i: usize = 0;
    while i < n
        invariant
            0 <= i <= n,
            n == prefix@.len(),
            m == s@.len(),
            m >= n,
            forall|j: int| 0 <= j < i ==> s@[j] == prefix@[j],
        decreases n - i,
    {
        if s.get_char(i) != prefix.get_char(i) {
            proof {
                assert(s@.subrange(0, n as int)[i as int] != prefix@[i as int]);
            }
            return false;
        }
        i = i + 1;
    }
    proof {
        assert(s@.subrange(0, n as int) =~= prefix@);
    }
    true
}

/// Clone a list of strings; the clones read the same.
pub fn clone_strings(v: &Vec<String>) -> (r: Vec<String>)
    ensures
        r@.len() == v@.len(),
        forall|i: int| 0 <= i < v@.len() ==> r@[i]@ == #[trigger] v@[i]@,
        str_views(r@) == str_views(v@),
{
    let mut r: Vec<String> = Vec::new();
    let mut i: usize = 0;
    while i < v.len()
        invariant
            i <= v@.len(),
            r@.len() == i,
            forall|j: int| 0 <= j < i ==> r@[j]@ == #[trigger] v@[j]@,
        decreases v@.len() - i,
    {
        r.push(v[i].clone());
        i = i + 1;
    }
    proof {
        assert(str_views(r@) =~= str_views(v@));
    }
    r
}

/// The character for one decimal digit.
pub open spec fn digit_char(d: nat) -> char {
    if d == 0 {
        '0'
    } else if d == 1 {
        '1'
    } else if d == 2 {
        '2'
    } else if d == 3 {
        '3'
    } else if d == 4 {
        '4'
    } else if d == 5 {
        '5'
    } else if d == 6 {
        '6'
    } else if d == 7 {
        '7'
    } else if d == 8 {
        '8'
    } else {
        '9'
    }
}

/// The decimal rendering of a number, most significant digit first.
pub open spec fn dec_string_of(v: nat) -> Seq<char>
    decreases v,
{
    if v < 10 {
        seq![digit_char(v)]
    } else {
        dec_string_of(v / 10).push(digit_char(v % 10))
    }
}

/// The decimal rendering reads back as the number it renders.
pub proof fn lemma_dec_string_val(v: nat)
    ensures
        is_dec_digits(dec_string_of(v)),
        dec_val(dec_string_of(v)) == v,
        unsigned_val(dec_string_of(v)) == v,
        is_u64_str(dec_string_of(v)) || v > u64::MAX,
    decreases v,
{
    if v < 10 {
        let s = seq![digit_char(v)];
        assert(s.drop_last() =~= Seq::<char>::empty());
        assert(s.last() == digit_char(v));
        assert(is_digit(digit_char(v)));
        assert(digit_val(digit_char(v)) == v);
        assert(is_dec_digits(s));
        assert(digits_part(s) =~= s);
        assert(dec_string_of(v) == s);
        assert(dec_val(s) == dec_val(s.drop_last()) * 10 + digit_val(s.last()));
        assert(dec_val(s.drop_last()) == 0);
        assert(dec_val(s) == v);
    } else {
        lemma_dec_string_val(v / 10);
        let pre = dec_string_of(v / 10);
        let s = pre.push(digit_char(v % 10));
        lemma_dec_val_push(pre, digit_char(v % 10));
        assert(is_digit(digit_char(v % 10)));
        assert(digit_val(digit_char(v % 10)) == v % 10);
        assert(v == (v / 10) * 10 + v % 10);
        assert(dec_val(s) == (v / 10) * 10 + v % 10);
        assert(dec_string_of(v) == s);
        assert(dec_val(s) == v);
        assert forall|i: int| 0 <= i < s.len() implies is_digit(#[trigger] s[i]) by {
            if i < pre.len() {
                assert(s[i] == pre[i]);
            }
        }
        assert(digits_part(s) =~= s);
    }
}

fn digit_str(d: u64) -> (r: &'static str)
    requires
        d < 10,
    ensures
        r@ == seq![digit_char(d as nat)],
{
    proof {
        reveal_strlit("0");
        reveal_strlit("1");
        reveal_strlit("2");
        reveal_strlit("3");
        reveal_strlit("4");
        reveal_strlit("5");
        reveal_strlit("6");
        reveal_strlit("7");
        reveal_strlit("8");
        reveal_strlit("9");
    }
    let r: &'static str = if d == 0 {
        "0"
    } else if d == 1 {
        "1"
    } else if d == 2 {
        "2"
    } else if d == 3 {
        "3"
    } else if d == 4 {
        "4"
    } else if d == 5 {
        "5"
    } else if d == 6 {
        "6"
    } else if d == 7 {
        "7"
    } else if d == 8 {
        "8"
    } else {
        "9"
    };
    proof {
        assert(r@ =~= seq![digit_char(d as nat)]);
    }
    r
}

/// Render a number in decimal, as `u64`'s display does.
pub fn u64_to_dec_string(v: u64) -> (r: String)
    ensures
        r@ == dec_string_of(v as nat),
    decreases v,
{
    if v < 10 {
        digit_str(v).to_owned()
    } else {
        let prefix = u64_to_dec_string(v / 10);
        let r = prefix.concat(digit_str(v % 10));
        proof {
            assert(r@ =~= dec_string_of((v / 10) as nat).push(digit_char((v % 10) as nat)));
        }
        r
    }
}

/// Whether the list holds a string reading the same as `s`.
pub fn contains_string(v: &Vec<String>, s: &String) -> (r: bool)
    ensures
        r == (exists|i: int| 0 <= i < v@.len() && #[trigger] v@[i]@ == s@),
{
    let mut i: usize = 0;
    while i < v.len()
        invariant
            i <= v@.len(),
            forall|j: int| 0 <= j < i ==> #[trigger] v@[j]@ != s@,
        decreases v@.len() - i,
    {
        if string_eq(&v[i], s) {
            return true;
        }
        i = i + 1;
    }
    false
}

} // verus!
