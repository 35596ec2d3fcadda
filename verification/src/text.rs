//! Byte-level text primitives for delimited rows: whitespace trimming,
//! splitting on the field delimiter, and coercion of fields to typed
//! values with fallback defaults.

use vstd::prelude::*;

verus! {

/// ASCII whitespace recognised when a field is trimmed.
pub open spec fn is_space(c: char) -> bool {
    c == ' ' || c == '\t' || c == '\r' || c == '\n'
}

/// `s` without its leading whitespace.
pub open spec fn trim_front(s: Seq<char>) -> Seq<char>
    decreases s.len(),
{
    if s.len() > 0 && is_space(s[0]) {
        trim_front(s.drop_first())
    } else {
        s
    }
}

/// `s` without its trailing whitespace.
pub open spec fn trim_back(s: Seq<char>) -> Seq<char>
    decreases s.len(),
{
    if s.len() > 0 && is_space(s[s.len() - 1]) {
        trim_back(s.drop_last())
    } else {
        s
    }
}

/// `s` without leading and trailing whitespace.
pub open spec fn trimmed(s: Seq<char>) -> Seq<char> {
    trim_back(trim_front(s))
}

fn is_space_char(c: char) -> (r: bool)
    ensures
        r == is_space(c),
{
    c == ' ' || c == '\t' || c == '\r' || c == '\n'
}

/// Strips leading and trailing ASCII whitespace from a field.
pub fn trim(s: &str) -> (r: &str)
    ensures
        r@ == trimmed(s@),
{
    let n = s.unicode_len();
    let mut i: usize = 0;
    proof {
        assert(s@.skip(0) =~= s@);
    }
    loop
        invariant
            i <= n,
            n == s@.len(),
            trim_front(s@) == trim_front(s@.skip(i as int)),
        ensures
            i <= n,
            n == s@.len(),
            trim_front(s@) == s@.skip(i as int),
        decreases n - i,
    {
        if i >= n {
            assert(s@.skip(i as int).len() == 0);
            break;
        }
        let c = s.get_char(i);
        if !is_space_char(c) {
            assert(s@.skip(i as int)[0] == s@[i as int]);
            break;
        }
        proof {
            assert(s@.skip(i as int).drop_first() =~= s@.skip(i as int + 1));
        }
        i += 1;
    }
    let ghost t = s@.skip(i as int);
    let mut j: usize = n;
    proof {
        assert(t.take(n - i) =~= t);
    }
    loop
        invariant
            i <= j <= n,
            n == s@.len(),
            t == s@.skip(i as int),
            trim_back(t) == trim_back(t.take(j - i)),
        ensures
            i <= j <= n,
            trim_back(t) == t.take(j - i),
        decreases j,
    {
        if j <= i {
            assert(t.take(j - i).len() == 0);
            break;
        }
        let c = s.get_char(j - 1);
        if !is_space_char(c) {
            assert(t.take(j - i)[j - i - 1] == s@[j - 1]);
            break;
        }
        proof {
            assert(t.take(j - i).drop_last() =~= t.take(j - 1 - i));
        }
        j -= 1;
    }
    let r = s.substring_char(i, j);
    proof {
        assert(r@ =~= t.take(j - i));
    }
    r
}

/// Character-by-character string equality, visible to the verifier.
pub fn str_eq(a: &str, b: &str) -> (r: bool)
    ensures
        r == (a@ == b@),
{
    let na = a.unicode_len();
    let nb = b.unicode_len();
    if na != nb {
        proof {
            if a@ == b@ {
                assert(a@.len() == b@.len());
            }
        }
        return false;
    }
    let mut k: usize = 0;
    while k < na
        invariant
            k <= na,
            na == a@.len(),
            na == b@.len(),
            forall|m: int| 0 <= m < k ==> a@[m] == b@[m],
        decreases na - k,
    {
        if a.get_char(k) != b.get_char(k) {
            proof {
                if a@ == b@ {
                    assert(a@[k as int] == b@[k as int]);
                }
            }
            return false;
        }
        k += 1;
    }
    proof {
        assert(a@ =~= b@);
    }
    true
}

/// Boolean coercion policy: only the literal token `true` parses to `true`;
/// anything else (including a failed parse) degrades to `false`.
pub open spec fn spec_coerce_bool(s: Seq<char>) -> bool {
    s == "true"@
}

/// Parses a boolean token; exactly the literals `true` and `false` succeed.
pub fn parse_bool(s: &str) -> (r: Option<bool>)
    ensures
        s@ == "true"@ ==> r == Some(true),
        s@ == "false"@ && s@ != "true"@ ==> r == Some(false),
        s@ != "true"@ && s@ != "false"@ ==> r is None,
{
    if str_eq(s, "true") {
        Some(true)
    } else if str_eq(s, "false") {
        Some(false)
    } else {
        None
    }
}

/// Boolean field coercion: an unparseable token degrades to `false`.
pub fn coerce_bool(s: &str) -> (r: bool)
    ensures
        r == spec_coerce_bool(s@),
{
    match parse_bool(s) {
        Some(b) => b,
        None => false,
    }
}

/// Decimal digit.
pub open spec fn is_digit(c: char) -> bool {
    48 <= c as u32 <= 57
}

/// Numeric value of a decimal digit.
pub open spec fn digit_val(c: char) -> int {
    c as u32 - 48
}

pub open spec fn all_digits(s: Seq<char>) -> bool {
    forall|k: int| 0 <= k < s.len() ==> is_digit(#[trigger] s[k])
}

/// Value of a digit string read left to right.
pub open spec fn digits_val(s: Seq<char>) -> int
    decreases s.len(),
{
    if s.len() == 0 {
        0
    } else {
        digits_val(s.drop_last()) * 10 + digit_val(s.last())
    }
}

/// The digit portion of an integer token (the token without its sign).
pub open spec fn int_digits(s: Seq<char>) -> Seq<char> {
    if s.len() > 0 && (s[0] == '+' || s[0] == '-') {
        s.drop_first()
    } else {
        s
    }
}

/// An integer token: an optional sign followed by at least one digit.
pub open spec fn is_int_token(s: Seq<char>) -> bool {
    int_digits(s).len() > 0 && all_digits(int_digits(s))
}

/// Mathematical value of an integer token.
pub open spec fn int_token_val(s: Seq<char>) -> int {
    if s.len() > 0 && s[0] == '-' {
        -digits_val(int_digits(s))
    } else {
        digits_val(int_digits(s))
    }
}

pub proof fn lemma_digits_val_nonneg(s: Seq<char>)
    requires
        all_digits(s),
    ensures
        digits_val(s) >= 0,
    decreases s.len(),
{
    if s.len() > 0 {
        assert(all_digits(s.drop_last()));
        lemma_digits_val_nonneg(s.drop_last());
    }
}

/// Parses a signed decimal integer; `None` exactly when the token is not an
/// optionally signed digit string or its value does not fit in an `i64`.
pub fn parse_int(s: &str) -> (r: Option<i64>)
    ensures
        r is Some <==> (is_int_token(s@) && i64::MIN <= int_token_val(s@) <= i64::MAX),
        r matches Some(v) ==> v as int == int_token_val(s@),
{
    let n = s.unicode_len();
    if n == 0 {
        return None;
    }
    let first = s.get_char(0);
    let neg = first == '-';
    let start: usize = if first == '-' || first == '+' {
        1
    } else {
        0
    };
    if start >= n {
        return None;
    }
    let ghost d = int_digits(s@);
    proof {
        assert(d =~= s@.skip(start as int));
    }
    let mut acc: u128 = 0;
    let mut k: usize = start;
    while k < n
        invariant
            start <= k <= n,
            n == s@.len(),
            start < n,
            d == s@.skip(start as int),
            d == int_digits(s@),
            neg == (s@.len() > 0 && s@[0] == '-'),
            all_digits(d.take(k - start)),
            acc <= 0x8000_0000_0000_0001u128,
            digits_val(d.take(k - start)) <= 0x8000_0000_0000_0000 ==> acc == digits_val(d.take(k - start)),
            digits_val(d.take(k - start)) > 0x8000_0000_0000_0000 ==> acc == 0x8000_0000_0000_0001u128,
        decreases n - k,
    {
        let c = s.get_char(k);
        let u = c as u32;
        if u < 48 || u > 57 {
            proof {
                assert(d[k - start] == s@[k as int]);
                assert(!is_digit(d[k - start]));
            }
            return None;
        }
        let dv: u128 = (u - 48) as u128;
        proof {
            assert(d.take(k - start + 1).drop_last() =~= d.take(k - start));
            assert(d.take(k - start + 1).last() == s@[k as int]);
            lemma_digits_val_nonneg(d.take(k - start));
        }
        let t: u128 = acc * 10 + dv;
        if t > 0x8000_0000_0000_0000u128 {
            acc = 0x8000_0000_0000_0001u128;
        } else {
            acc = t;
        }
        k += 1;
    }
    proof {
        assert(d.take(n - start) =~= d);
        lemma_digits_val_nonneg(d);
    }
    if neg {
        if acc > 0x8000_0000_0000_0000u128 {
            None
        } else if acc == 0x8000_0000_0000_0000u128 {
            Some(i64::MIN)
        } else {
            Some(-(acc as i64))
        }
    } else {
        if acc >= 0x8000_0000_0000_0000u128 {
            None
        } else {
            Some(acc as i64)
        }
    }
}

/// Integer field coercion: an unparseable value (for a 32-bit field)
/// degrades to `0`.
pub open spec fn spec_coerce_i32(s: Seq<char>) -> int {
    if is_int_token(s) && i32::MIN <= int_token_val(s) <= i32::MAX {
        int_token_val(s)
    } else {
        0
    }
}

pub fn coerce_i32(s: &str) -> (r: i32)
    ensures
        r as int == spec_coerce_i32(s@),
{
    match parse_int(s) {
        Some(v) => {
            if i32::MIN as i64 <= v && v <= i32::MAX as i64 {
                v as i32
            } else {
                0
            }
        },
        None => 0,
    }
}

/// Restaurant-reference coercion: an unparseable reference degrades to `1`.
pub open spec fn spec_coerce_ref(s: Seq<char>) -> int {
    if is_int_token(s) && i64::MIN <= int_token_val(s) <= i64::MAX {
        int_token_val(s)
    } else {
        1
    }
}

pub fn coerce_restaurant_ref(s: &str) -> (r: i64)
    ensures
        r as int == spec_coerce_ref(s@),
{
    match parse_int(s) {
        Some(v) => v,
        None => 1,
    }
}

/// Length of the first `;`-delimited field of `s`.
pub open spec fn first_field_len(s: Seq<char>) -> int
    decreases s.len(),
{
    if s.len() == 0 || s[0] == ';' {
        0
    } else {
        1 + first_field_len(s.drop_first())
    }
}

/// The `;`-delimited fields of `s`, in order. A line always has at least
/// one field; `n` fields are separated by exactly `n - 1` delimiters.
pub open spec fn split_fields(s: Seq<char>) -> Seq<Seq<char>>
    decreases s.len(),
{
    let k = first_field_len(s);
    if 0 <= k < s.len() {
        seq![s.take(k)] + split_fields(s.skip(k + 1))
    } else {
        seq![s]
    }
}

/// The first field runs to the first delimiter (or to the end of the line).
pub proof fn lemma_first_field_at(s: Seq<char>, k: int)
    requires
        0 <= k <= s.len(),
        forall|m: int| 0 <= m < k ==> s[m] != ';',
        k == s.len() || s[k] == ';',
    ensures
        first_field_len(s) == k,
    decreases k,
{
    if k == 0 {
    } else {
        assert(s[0] != ';');
        assert forall|m: int| 0 <= m < k - 1 implies s.drop_first()[m] != ';' by {
            assert(s.drop_first()[m] == s[m + 1]);
        }
        assert(k - 1 == s.drop_first().len() || s.drop_first()[k - 1] == ';');
        lemma_first_field_at(s.drop_first(), k - 1);
    }
}

/// Splits a line on the `;` delimiter; no trimming is applied here.
pub fn split_on_semicolon(s: &str) -> (fields: Vec<String>)
    ensures
        fields@.len() == split_fields(s@).len(),
        forall|i: int| 0 <= i < fields@.len() ==> (#[trigger] fields@[i])@ == split_fields(s@)[i],
{
    let n = s.unicode_len();
    let mut fields: Vec<String> = Vec::new();
    let mut start: usize = 0;
    let mut k: usize = 0;
    proof {
        assert(s@.skip(0) =~= s@);
    }
    loop
        invariant_except_break
            split_fields(s@) =~= fields@.map_values(|f: String| f@) + split_fields(s@.skip(start as int)),
        invariant
            start <= k <= n,
            n == s@.len(),
            forall|m: int| start <= m < k ==> s@[m] != ';',
            split_fields(s@).len() >= fields@.len(),
            split_fields(s@).take(fields@.len() as int) =~= fields@.map_values(|f: String| f@),
        ensures
            fields@.map_values(|f: String| f@) =~= split_fields(s@),
        decreases n - k,
    {
        let ghost rest = s@.skip(start as int);
        let ghost pre = fields@.map_values(|f: String| f@);
        if k == n {
            let f = s.substring_char(start, n).to_owned();
            proof {
                assert forall|m: int| 0 <= m < rest.len() implies rest[m] != ';' by {
                    assert(rest[m] == s@[start + m]);
                }
                lemma_first_field_at(rest, rest.len() as int);
                assert(split_fields(rest) == seq![rest]);
                assert(f@ =~= rest);
                assert(fields@.push(f).map_values(|f: String| f@) =~= pre.push(rest));
                assert(pre.push(rest) =~= pre + seq![rest]);
            }
            fields.push(f);
            break;
        }
        let c = s.get_char(k);
        if c == ';' {
            let f = s.substring_char(start, k).to_owned();
            proof {
                assert forall|m: int| 0 <= m < k - start implies rest[m] != ';' by {
                    assert(rest[m] == s@[start + m]);
                }
                assert(rest[k - start] == s@[k as int]);
                lemma_first_field_at(rest, k - start);
                assert(split_fields(rest) == seq![rest.take(k - start)] + split_fields(
                    rest.skip(k - start + 1),
                ));
                assert(f@ =~= rest.take(k - start));
                assert(rest.skip(k - start + 1) =~= s@.skip(k + 1));
                assert(fields@.push(f).map_values(|f: String| f@) =~= pre.push(f@));
                assert((pre + seq![rest.take(k - start)] + split_fields(s@.skip(k + 1))) =~= pre.push(
                    f@,
                ) + split_fields(s@.skip(k + 1)));
            }
            fields.push(f);
            start = k + 1;
            k = k + 1;
        } else {
            k = k + 1;
        }
    }
    proof {
        let m = fields@.map_values(|f: String| f@);
        assert(fields@.len() == m.len());
        assert forall|i: int| 0 <= i < fields@.len() implies (#[trigger] fields@[i])@ == split_fields(
            s@,
        )[i] by {
            assert(m[i] == fields@[i]@);
        }
    }
    fields
}

/// A decimal digit as a character.
pub open spec fn dec_digit(d: int) -> char {
    if d == 0 {
        '0'
    } else if d == 1 {
        '1'
    } else if d == 2 {
        '2'
    } else if d == 3 {
        '3'
    } else if d == 4 {
        '4'
    } else if d == 5 {
        '5'
    } else if d == 6 {
        '6'
    } else if d == 7 {
        '7'
    } else if d == 8 {
        '8'
    } else {
        '9'
    }
}

/// Decimal representation of a non-negative integer.
pub open spec fn dec_nat(n: int) -> Seq<char>
    decreases n,
{
    if n < 10 {
        seq![dec_digit(n)]
    } else {
        dec_nat(n / 10).push(dec_digit(n % 10))
    }
}

/// Decimal representation of an integer, with a leading `-` when negative.
pub open spec fn dec_int(n: int) -> Seq<char> {
    if n < 0 {
        seq!['-'] + dec_nat(-n)
    } else {
        dec_nat(n)
    }
}

fn digit_str(d: u64) -> (r: &'static str)
    requires
        d < 10,
    ensures
        r@ == seq![dec_digit(d as int)],
{
    proof {
        reveal_strlit("0");
        reveal_strlit("1");
        reveal_strlit("2");
        reveal_strlit("3");
        reveal_strlit("4");
        reveal_strlit("5");
        reveal_strlit("6");
        reveal_strlit("7");
        reveal_strlit("8");
        reveal_strlit("9");
    }
    let r = if d == 0 {
        "0"
    } else if d == 1 {
        "1"
    } else if d == 2 {
        "2"
    } else if d == 3 {
        "3"
    } else if d == 4 {
        "4"
    } else if d == 5 {
        "5"
    } else if d == 6 {
        "6"
    } else if d == 7 {
        "7"
    } else if d == 8 {
        "8"
    } else {
        "9"
    };
    proof {
        assert(r@ =~= seq![dec_digit(d as int)]);
    }
    r
}

fn format_u64(n: u64) -> (r: String)
    ensures
        r@ == dec_nat(n as int),
    decreases n,
{
    if n < 10 {
        digit_str(n).to_owned()
    } else {
        let mut s = format_u64(n / 10);
        s.append(digit_str(n % 10));
        proof {
            assert(s@ =~= dec_nat((n / 10) as int).push(dec_digit((n % 10) as int)));
        }
        s
    }
}

/// Renders an integer in decimal, as the nutrition document needs it.
pub fn format_i64(n: i64) -> (r: String)
    ensures
        r@ == dec_int(n as int),
{
    if n >= 0 {
        format_u64(n as u64)
    } else {
        let mag: u64 = if n == i64::MIN {
            0x8000_0000_0000_0000u64
        } else {
            (-n) as u64
        };
        proof {
            reveal_strlit("-");
        }
        let mut s = "-".to_owned();
        s.append(format_u64(mag).as_str());
        proof {
            assert(s@ =~= seq!['-'] + dec_nat(mag as int));
        }
        s
    }
}

} // verus!
