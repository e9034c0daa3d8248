use vstd::prelude::*;

verus! {

pub const LF: u8 = 10;

pub const SPACE: u8 = 32;

/// The first position at or after `from` where `s` holds `b`; the length of `s`
/// where it holds none there.
pub open spec fn first_at(s: Seq<u8>, b: u8, from: int) -> int
    decreases s.len() - from,
{
    if from < 0 || from >= s.len() {
        s.len() as int
    } else if s[from] == b {
        from
    } else {
        first_at(s, b, from + 1)
    }
}

/// `first_at` is the least position that holds the byte.
pub proof fn lemma_first_at(s: Seq<u8>, b: u8, from: int)
    requires
        0 <= from <= s.len(),
    ensures
        from <= first_at(s, b, from) <= s.len(),
        first_at(s, b, from) < s.len() ==> s[first_at(s, b, from)] == b,
        forall|i: int| from <= i < first_at(s, b, from) ==> s[i] != b,
    decreases s.len() - from,
{
    if from < s.len() && s[from] != b {
        lemma_first_at(s, b, from + 1);
    }
}

/// A position that holds the byte, with none before it from `from` on, is `first_at`.
pub proof fn lemma_first_at_is(s: Seq<u8>, b: u8, from: int, at: int)
    requires
        0 <= from <= at <= s.len(),
        forall|i: int| from <= i < at ==> s[i] != b,
        at < s.len() ==> s[at] == b,
    ensures
        first_at(s, b, from) == at,
    decreases at - from,
{
    if from < at {
        lemma_first_at_is(s, b, from + 1, at);
    }
}

/// Bytes that come behind `s` do not move the first `b` of `s`; and where `s` holds
/// none from `from` on, the search may as well go on from the end of `s`.
pub proof fn lemma_first_at_joined(s: Seq<u8>, more: Seq<u8>, b: u8, from: int)
    requires
        0 <= from <= s.len(),
    ensures
        first_at(s, b, from) < s.len() ==> first_at(s + more, b, from) == first_at(s, b, from),
        first_at(s, b, from) == s.len() ==> first_at(s + more, b, from) == first_at(
            s + more,
            b,
            s.len() as int,
        ),
{
    let all = s + more;
    let at = first_at(s, b, from);
    lemma_first_at(s, b, from);
    assert forall|i: int| from <= i < at implies all[i] != b by {
        assert(all[i] == s[i]);
    }
    if at < s.len() {
        assert(all[at] == s[at]);
        lemma_first_at_is(all, b, from, at);
    } else {
        let next = first_at(all, b, s.len() as int);
        lemma_first_at(all, b, s.len() as int);
        lemma_first_at_is(all, b, from, next);
    }
}

/// Finds the first `b` in `s` at or after `from`.
pub fn find_byte(s: &[u8], b: u8, from: usize) -> (at: usize)
    requires
        from <= s.len(),
    ensures
        at == first_at(s@, b, from as int),
        from <= at <= s.len(),
{
    let mut i: usize = from;
    while i < s.len() && s[i] != b
        invariant
            from <= i <= s.len(),
            forall|j: int| from <= j < i ==> s@[j] != b,
        decreases s.len() - i,
    {
        i = i + 1;
    }
    proof {
        lemma_first_at_is(s@, b, from as int, i as int);
    }
    i
}

/// Whether two byte strings are the same.
pub fn bytes_eq(a: &[u8], b: &[u8]) -> (same: bool)
    ensures
        same == (a@ == b@),
{
    if a.len() != b.len() {
        return false;
    }
    let mut i: usize = 0;
    while i < a.len()
        invariant
            i <= a.len(),
            a.len() == b.len(),
            forall|j: int| 0 <= j < i ==> a@[j] == b@[j],
        decreases a.len() - i,
    {
        if a[i] != b[i] {
            return false;
        }
        i = i + 1;
    }
    assert(a@ =~= b@);
    true
}

/// The bytes of a text whose characters are all ASCII.
pub open spec fn text_bytes(t: Seq<char>) -> Seq<u8> {
    Seq::new(t.len(), |i: int| t[i] as u8)
}

/// The text that ASCII bytes spell.
pub open spec fn ascii_text(s: Seq<u8>) -> Seq<char> {
    Seq::new(s.len(), |i: int| s[i] as char)
}

/// Whether the bytes `w` spell the ASCII word `k`.
pub fn word_is(w: &[u8], k: &str) -> (r: bool)
    requires
        k.is_ascii(),
    ensures
        r == (w@ == text_bytes(k@)),
{
    broadcast use vstd::string::is_ascii_spec_bytes;

    let kb = k.as_bytes();
    assert(kb@ =~= text_bytes(k@));
    bytes_eq(w, kb)
}

/// The bytes `s[from..to]`, as a slice.
pub fn sub_slice(s: &[u8], from: usize, to: usize) -> (r: &[u8])
    requires
        from <= to <= s.len(),
    ensures
        r@ == s@.subrange(from as int, to as int),
{
    vstd::slice::slice_subrange(s, from, to)
}

pub open spec fn is_digit(b: u8) -> bool {
    48 <= b <= 57
}

pub open spec fn all_digits(s: Seq<u8>) -> bool {
    forall|i: int| 0 <= i < s.len() ==> is_digit(#[trigger] s[i])
}

/// The number that a string of decimal digits spells.
pub open spec fn digits_value(s: Seq<u8>) -> nat
    decreases s.len(),
{
    if s.len() == 0 {
        0
    } else {
        digits_value(s.drop_last()) * 10 + (s.last() - 48) as nat
    }
}

/// The number that `s` spells in decimal, if it is one that fits 64 bits: an
/// optional plus sign, then one digit or more, and nothing else.
pub open spec fn decimal_u64(s: Seq<u8>) -> Option<u64> {
    let d = if s.len() > 0 && s[0] == 43 {
        s.subrange(1, s.len() as int)
    } else {
        s
    };
    if d.len() > 0 && all_digits(d) && digits_value(d) <= u64::MAX {
        Some(digits_value(d) as u64)
    } else {
        None
    }
}

/// A string of digits spells at least what any of its prefixes spells.
pub proof fn lemma_digits_value_grows(s: Seq<u8>, k: int)
    requires
        all_digits(s),
        0 <= k <= s.len(),
    ensures
        digits_value(s.subrange(0, k)) <= digits_value(s),
    decreases s.len(),
{
    if k == s.len() {
        assert(s.subrange(0, k) =~= s);
    } else {
        let t = s.drop_last();
        assert(t.subrange(0, k) =~= s.subrange(0, k));
        lemma_digits_value_grows(t, k);
    }
}

/// Reads a decimal number of at most 64 bits.
pub fn parse_decimal(s: &[u8]) -> (r: Option<u64>)
    ensures
        r == decimal_u64(s@),
{
    let start: usize = if s.len() > 0 && s[0] == 43 {
        1
    } else {
        0
    };
    let ghost d = s@.subrange(start as int, s.len() as int);
    proof {
        if start == 0 {
            assert(d =~= s@);
        }
    }
    if start == s.len() {
        return None;
    }
    let mut acc: u64 = 0;
    let mut i: usize = start;
    while i < s.len()
        invariant
            start <= i <= s.len(),
            start < s.len(),
            d == s@.subrange(start as int, s.len() as int),
            d == if s@.len() > 0 && s@[0] == 43 {
                s@.subrange(1, s@.len() as int)
            } else {
                s@
            },
            all_digits(d.subrange(0, i - start)),
            acc == digits_value(d.subrange(0, i - start)),
        decreases s.len() - i,
    {
        let c = s[i];
        let ghost p = d.subrange(0, i - start);
        let ghost q = d.subrange(0, i + 1 - start);
        proof {
            assert(q.drop_last() =~= p);
            assert(q.last() == c);
        }
        if c < 48 || c > 57 {
            assert(!is_digit(d[i - start]));
            return None;
        }
        assert(all_digits(q)) by {
            assert forall|j: int| 0 <= j < q.len() implies is_digit(#[trigger] q[j]) by {
                if j < p.len() {
                    assert(p[j] == q[j]);
                }
            }
        }
        let digit: u64 = (c - 48) as u64;
        let next = match acc.checked_mul(10) {
            Some(m) => m.checked_add(digit),
            None => None,
        };
        match next {
            Some(n) => {
                acc = n;
            },
            None => {
                proof {
                    assert(digits_value(q) > u64::MAX);
                    if all_digits(d) {
                        lemma_digits_value_grows(d, i + 1 - start);
                    }
                }
                return None;
            },
        }
        i = i + 1;
    }
    proof {
        assert(d.subrange(0, i - start) =~= d);
    }
    Some(acc)
}

pub open spec fn is_name_char(b: u8) -> bool {
    ||| b == 46
    ||| b == 45
    ||| b == 95
    ||| 48 <= b <= 57
    ||| 65 <= b <= 90
    ||| 97 <= b <= 122
}

/// The bytes of `#ephemeral`.
pub open spec fn ephemeral_suffix() -> Seq<u8> {
    seq![35u8, 101u8, 112u8, 104u8, 101u8, 109u8, 101u8, 114u8, 97u8, 108u8]
}

pub open spec fn all_name_chars(s: Seq<u8>) -> bool {
    forall|i: int| 0 <= i < s.len() ==> is_name_char(#[trigger] s[i])
}

/// A topic or channel name: 2 to 64 bytes; one or more of `.`, `-`, `_`, the
/// digits and the ASCII letters, and after them, if at all, `#ephemeral`.
pub open spec fn valid_name(s: Seq<u8>) -> bool {
    &&& 2 <= s.len() <= 64
    &&& {
        ||| all_name_chars(s)
        ||| {
            &&& s.len() > 10
            &&& all_name_chars(s.subrange(0, s.len() - 10))
            &&& s.subrange(s.len() - 10, s.len() as int) == ephemeral_suffix()
        }
    }
}

pub fn name_char(b: u8) -> (r: bool)
    ensures
        r == is_name_char(b),
{
    b == 46 || b == 45 || b == 95 || (48 <= b && b <= 57) || (65 <= b && b <= 90) || (97 <= b && b
        <= 122)
}

/// Whether `name` may name a topic or a channel.
pub fn is_valid_name(name: &[u8]) -> (r: bool)
    ensures
        r == valid_name(name@),
{
    let n = name.len();
    if n < 2 || n > 64 {
        return false;
    }
    let mut k: usize = 0;
    while k < n && name_char(name[k])
        invariant
            k <= n,
            n == name.len(),
            forall|j: int| 0 <= j < k ==> is_name_char(#[trigger] name@[j]),
        decreases n - k,
    {
        k = k + 1;
    }
    if k == n {
        return true;
    }
    assert(!is_name_char(name@[k as int]));
    assert(!all_name_chars(name@));
    let suffix: [u8; 10] = [35, 101, 112, 104, 101, 109, 101, 114, 97, 108];
    assert(suffix@ =~= ephemeral_suffix());
    if k == 0 || n - k != 10 {
        proof {
            if n > 10 && all_name_chars(name@.subrange(0, n - 10)) && name@.subrange(
                n - 10,
                n as int,
            ) == ephemeral_suffix() {
                let tail = name@.subrange(n - 10, n as int);
                if k < n - 10 {
                    assert(name@.subrange(0, n - 10)[k as int] == name@[k as int]);
                } else {
                    assert(name@[n - 10] == tail[0]);
                    assert(is_name_char(name@[n - 10]));
                }
            }
        }
        return false;
    }
    let same = bytes_eq(sub_slice(name, k, n), suffix.as_slice());
    proof {
        let head = name@.subrange(0, n - 10);
        assert(name@.subrange(k as int, n as int) == name@.subrange(n - 10, n as int));
        if same {
            assert forall|j: int| 0 <= j < head.len() implies is_name_char(#[trigger] head[j]) by {
                assert(head[j] == name@[j]);
            }
        }
    }
    same
}

#[verifier::external_type_specification]
#[verifier::external_body]
pub struct ExFromUtf8Error(std::string::FromUtf8Error);

/// `String::from_utf8`: the text that the bytes encode, where they are UTF-8, and
/// an error where they are not.
#[verifier::external_body]
pub(crate) fn string_from_utf8(v: Vec<u8>) -> (r: Result<String, std::string::FromUtf8Error>)
    ensures
        r is Ok <==> vstd::utf8::valid_utf8(v@),
        r matches Ok(s) ==> s@ == vstd::utf8::decode_utf8(v@),
{
    String::from_utf8(v)
}

/// Bytes below 128 are UTF-8, and spell one character each.
pub proof fn lemma_ascii_is_utf8(s: Seq<u8>)
    requires
        forall|i: int| 0 <= i < s.len() ==> #[trigger] s[i] < 128,
    ensures
        vstd::utf8::valid_utf8(s),
        vstd::utf8::decode_utf8(s) == ascii_text(s),
{
    let chars = ascii_text(s);
    assert(vstd::utf8::is_ascii_chars(chars));
    vstd::utf8::is_ascii_chars_encode_utf8(chars);
    assert(vstd::utf8::encode_utf8(chars) =~= s);
    vstd::utf8::encode_utf8_valid_utf8(chars);
    vstd::utf8::encode_utf8_decode_utf8(chars);
}

/// The decimal digits of `n`, as ASCII bytes.
pub open spec fn decimal_digits(n: nat) -> Seq<u8>
    decreases n,
{
    if n < 10 {
        seq![(48 + n) as u8]
    } else {
        decimal_digits(n / 10).push((48 + n % 10) as u8)
    }
}

/// The decimal digits of a number are digits.
pub proof fn lemma_decimal_digits(n: nat)
    ensures
        decimal_digits(n).len() > 0,
        all_digits(decimal_digits(n)),
    decreases n,
{
    if n >= 10 {
        lemma_decimal_digits(n / 10);
    }
}

/// Appends the decimal digits of `n` to `out`.
pub fn push_decimal(n: usize, out: &mut Vec<u8>)
    ensures
        final(out)@ == old(out)@ + decimal_digits(n as nat),
    decreases n,
{
    if n >= 10 {
        push_decimal(n / 10, out);
    }
    out.push(48 + (n % 10) as u8);
    assert(out@ =~= old(out)@ + decimal_digits(n as nat));
}

/// The number `n` in decimal, without sign or leading zeros.
pub fn decimal_string(n: usize) -> (s: String)
    ensures
        s@ == ascii_text(decimal_digits(n as nat)),
{
    let mut digits: Vec<u8> = Vec::new();
    push_decimal(n, &mut digits);
    proof {
        assert(digits@ =~= decimal_digits(n as nat));
        lemma_decimal_digits(n as nat);
        assert forall|i: int| 0 <= i < digits@.len() implies #[trigger] digits@[i] < 128 by {
            assert(is_digit(digits@[i]));
        }
        lemma_ascii_is_utf8(digits@);
    }
    match string_from_utf8(digits) {
        Ok(s) => s,
        Err(_) => String::new(),
    }
}

} // verus!
