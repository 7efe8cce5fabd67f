//! String utilities with exact specifications: ASCII-whitespace trimming,
//! character search, splitting, prefix/suffix tests, and decimal rendering
//! of unsigned integers.

use vstd::prelude::*;

verus! {

use vstd::string::StrSliceExecFns;
use vstd::string::StringExecFns;

/// The ASCII whitespace characters recognised by [`trim`].
pub open spec fn is_ascii_ws(c: char) -> bool {
    c == ' ' || c == '\t' || c == '\n' || c == '\r' || c == '\u{b}' || c == '\u{c}'
}

/// Executable test for [`is_ascii_ws`].
pub fn is_ws_char(c: char) -> (r: bool)
    ensures
        r == is_ascii_ws(c),
{
    c == ' ' || c == '\t' || c == '\n' || c == '\r' || c == '\u{b}' || c == '\u{c}'
}

/// The sequence with leading whitespace removed.
pub open spec fn drop_leading_ws(s: Seq<char>) -> Seq<char>
    decreases s.len(),
{
    if s.len() > 0 && is_ascii_ws(s[0]) {
        drop_leading_ws(s.subrange(1, s.len() as int))
    } else {
        s
    }
}

/// The sequence with trailing whitespace removed.
pub open spec fn drop_trailing_ws(s: Seq<char>) -> Seq<char>
    decreases s.len(),
{
    if s.len() > 0 && is_ascii_ws(s[s.len() - 1]) {
        drop_trailing_ws(s.subrange(0, s.len() - 1))
    } else {
        s
    }
}

/// The sequence with whitespace removed from both ends.
pub open spec fn trim_spec(s: Seq<char>) -> Seq<char> {
    drop_trailing_ws(drop_leading_ws(s))
}

proof fn lemma_drop_leading_ws_at(s: Seq<char>, i: int)
    requires
        0 <= i <= s.len(),
        forall|j: int| 0 <= j < i ==> is_ascii_ws(s[j]),
        i < s.len() ==> !is_ascii_ws(s[i]),
    ensures
        drop_leading_ws(s) == s.subrange(i, s.len() as int),
    decreases i,
{
    if i == 0 {
        assert(s.subrange(0, s.len() as int) =~= s);
    } else {
        let t = s.subrange(1, s.len() as int);
        lemma_drop_leading_ws_at(t, i - 1);
        assert(t.subrange(i - 1, t.len() as int) =~= s.subrange(i, s.len() as int));
    }
}

proof fn lemma_drop_trailing_ws_at(s: Seq<char>, j: int)
    requires
        0 <= j <= s.len(),
        forall|k: int| j <= k < s.len() ==> is_ascii_ws(s[k]),
        j > 0 ==> !is_ascii_ws(s[j - 1]),
    ensures
        drop_trailing_ws(s) == s.subrange(0, j),
    decreases s.len() - j,
{
    if j == s.len() {
        assert(s.subrange(0, s.len() as int) =~= s);
    } else {
        let t = s.subrange(0, s.len() - 1);
        lemma_drop_trailing_ws_at(t, j);
        assert(t.subrange(0, j) =~= s.subrange(0, j));
    }
}

/// Removes ASCII whitespace from both ends of a string.
pub fn trim(s: &str) -> (r: &str)
    ensures
        r@ == trim_spec(s@),
{
    let len: usize = s.unicode_len();
    let mut i: usize = 0;
    while i < len && is_ws_char(s.get_char(i))
        invariant
            len == s@.len(),
            0 <= i <= len,
            forall|j: int| 0 <= j < i ==> is_ascii_ws(s@[j]),
        decreases len - i,
    {
        i = i + 1;
    }
    let mut j: usize = len;
    while j > i && is_ws_char(s.get_char(j - 1))
        invariant
            len == s@.len(),
            i <= j <= len,
            forall|k: int| j <= k < len ==> is_ascii_ws(s@[k]),
        decreases j,
    {
        j = j - 1;
    }
    proof {
        lemma_drop_leading_ws_at(s@, i as int);
        let t = s@.subrange(i as int, s@.len() as int);
        lemma_drop_trailing_ws_at(t, j - i);
        assert(t.subrange(0, j - i) =~= s@.subrange(i as int, j as int));
    }
    s.substring_char(i, j)
}

/// Removes ASCII whitespace from the end of a string.
pub fn trim_end(s: &str) -> (r: &str)
    ensures
        r@ == drop_trailing_ws(s@),
{
    let len: usize = s.unicode_len();
    let mut j: usize = len;
    while j > 0 && is_ws_char(s.get_char(j - 1))
        invariant
            len == s@.len(),
            0 <= j <= len,
            forall|k: int| j <= k < len ==> is_ascii_ws(s@[k]),
        decreases j,
    {
        j = j - 1;
    }
    proof {
        lemma_drop_trailing_ws_at(s@, j as int);
    }
    s.substring_char(0, j)
}

/// First index at or after `from` where `c` occurs, if any.
pub fn find_char(s: &str, c: char, from: usize) -> (r: Option<usize>)
    requires
        from <= s@.len(),
    ensures
        match r {
            Some(i) => from <= i < s@.len() && s@[i as int] == c && forall|j: int|
                from <= j < i ==> s@[j] != c,
            None => forall|j: int| from <= j < s@.len() ==> s@[j] != c,
        },
{
    let len: usize = s.unicode_len();
    let mut i: usize = from;
    while i < len
        invariant
            len == s@.len(),
            from <= i <= len,
            forall|j: int| from <= j < i ==> s@[j] != c,
        decreases len - i,
    {
        if s.get_char(i) == c {
            return Some(i);
        }
        i = i + 1;
    }
    None
}

/// Character-wise equality of two string slices.
pub fn str_eq(s: &str, t: &str) -> (r: bool)
    ensures
        r == (s@ == t@),
{
    let sl: usize = s.unicode_len();
    let tl: usize = t.unicode_len();
    if sl != tl {
        return false;
    }
    let mut i: usize = 0;
    while i < sl
        invariant
            sl == s@.len(),
            sl == t@.len(),
            0 <= i <= sl,
            forall|j: int| 0 <= j < i ==> s@[j] == t@[j],
        decreases sl - i,
    {
        if s.get_char(i) != t.get_char(i) {
            return false;
        }
        i = i + 1;
    }
    proof {
        assert(s@ =~= t@);
    }
    true
}

/// Whether `s` begins with the characters of `p`.
pub fn starts_with(s: &str, p: &str) -> (r: bool)
    ensures
        r == (s@.len() >= p@.len() && s@.subrange(0, p@.len() as int) == p@),
{
    let sl: usize = s.unicode_len();
    let pl: usize = p.unicode_len();
    if sl < pl {
        return false;
    }
    let mut i: usize = 0;
    while i < pl
        invariant
            sl == s@.len(),
            pl == p@.len(),
            pl <= sl,
            0 <= i <= pl,
            forall|j: int| 0 <= j < i ==> s@[j] == p@[j],
        decreases pl - i,
    {
        if s.get_char(i) != p.get_char(i) {
            assert(s@.subrange(0, p@.len() as int)[i as int] != p@[i as int]);
            return false;
        }
        i = i + 1;
    }
    proof {
        assert(s@.subrange(0, p@.len() as int) =~= p@);
    }
    true
}

/// Whether `s` ends with the characters of `p`.
pub fn ends_with(s: &str, p: &str) -> (r: bool)
    ensures
        r == (s@.len() >= p@.len() && s@.subrange(s@.len() - p@.len(), s@.len() as int) == p@),
{
    let sl: usize = s.unicode_len();
    let pl: usize = p.unicode_len();
    if sl < pl {
        return false;
    }
    let off: usize = sl - pl;
    let mut i: usize = 0;
    while i < pl
        invariant
            sl == s@.len(),
            pl == p@.len(),
            off == sl - pl,
            0 <= i <= pl,
            forall|j: int| 0 <= j < i ==> s@[off + j] == p@[j],
        decreases pl - i,
    {
        if s.get_char(off + i) != p.get_char(i) {
            assert(s@.subrange(s@.len() - p@.len(), s@.len() as int)[i as int] != p@[i as int]);
            return false;
        }
        i = i + 1;
    }
    proof {
        assert(s@.subrange(s@.len() - p@.len(), s@.len() as int) =~= p@);
    }
    true
}

/// The pieces of `s` between occurrences of the separator `c`.  Splitting
/// the empty string yields one empty piece, as `str::split` does.
pub open spec fn split_spec(s: Seq<char>, c: char) -> Seq<Seq<char>>
    decreases s.len(),
{
    if s.len() == 0 {
        seq![Seq::<char>::empty()]
    } else if s[0] == c {
        seq![Seq::<char>::empty()] + split_spec(s.subrange(1, s.len() as int), c)
    } else {
        let r = split_spec(s.subrange(1, s.len() as int), c);
        seq![seq![s[0]] + r[0]] + r.subrange(1, r.len() as int)
    }
}

proof fn lemma_split_spec_len(s: Seq<char>, c: char)
    ensures
        split_spec(s, c).len() >= 1,
    decreases s.len(),
{
    if s.len() > 0 {
        lemma_split_spec_len(s.subrange(1, s.len() as int), c);
    }
}

proof fn lemma_split_spec_no_sep(s: Seq<char>, c: char)
    requires
        forall|j: int| 0 <= j < s.len() ==> s[j] != c,
    ensures
        split_spec(s, c) == seq![s],
    decreases s.len(),
{
    if s.len() == 0 {
        assert(split_spec(s, c) =~~= seq![s]);
    } else {
        let t = s.subrange(1, s.len() as int);
        lemma_split_spec_no_sep(t, c);
        lemma_split_spec_len(t, c);
        assert(seq![s[0]] + t =~= s);
        assert(split_spec(s, c) =~~= seq![s]);
    }
}

proof fn lemma_split_spec_first_sep(s: Seq<char>, c: char, i: int)
    requires
        0 <= i < s.len(),
        s[i] == c,
        forall|j: int| 0 <= j < i ==> s[j] != c,
    ensures
        split_spec(s, c) == seq![s.subrange(0, i)] + split_spec(
            s.subrange(i + 1, s.len() as int),
            c,
        ),
    decreases i,
{
    let t = s.subrange(1, s.len() as int);
    if i == 0 {
        assert(s.subrange(0, 0) =~= Seq::<char>::empty());
        assert(s.subrange(1, s.len() as int) =~= t);
    } else {
        lemma_split_spec_first_sep(t, c, i - 1);
        lemma_split_spec_len(t.subrange(i, t.len() as int), c);
        let r = split_spec(t, c);
        assert(r == seq![t.subrange(0, i - 1)] + split_spec(t.subrange(i, t.len() as int), c));
        assert(r[0] == t.subrange(0, i - 1));
        assert(seq![s[0]] + t.subrange(0, i - 1) =~= s.subrange(0, i));
        assert(t.subrange(i, t.len() as int) =~= s.subrange(i + 1, s.len() as int));
        assert(r.subrange(1, r.len() as int) =~= split_spec(
            s.subrange(i + 1, s.len() as int),
            c,
        ));
        assert(split_spec(s, c) =~~= seq![s.subrange(0, i)] + split_spec(
            s.subrange(i + 1, s.len() as int),
            c,
        ));
    }
}

/// Splits `s` on each occurrence of `c`.
pub fn split_on_char(s: &str, c: char) -> (r: Vec<String>)
    ensures
        r.deep_view() == split_spec(s@, c),
    decreases s@.len(),
{
    match find_char(s, c, 0) {
        None => {
            proof {
                lemma_split_spec_no_sep(s@, c);
            }
            let mut v: Vec<String> = Vec::new();
            v.push(s.to_owned());
            assert(v.deep_view() =~~= split_spec(s@, c));
            v
        },
        Some(i) => {
            let len: usize = s.unicode_len();
            let first = s.substring_char(0, i).to_owned();
            let rest = s.substring_char(i + 1, len);
            let mut v = split_on_char(rest, c);
            proof {
                lemma_split_spec_first_sep(s@, c, i as int);
            }
            v.insert(0, first);
            assert(v.deep_view() =~~= split_spec(s@, c));
            v
        },
    }
}

/// The character for a decimal digit.
pub open spec fn dec_digit(d: int) -> char {
    if d == 0 {
        '0'
    } else if d == 1 {
        '1'
    } else if d == 2 {
        '2'
    } else if d == 3 {
        '3'
    } else if d == 4 {
        '4'
    } else if d == 5 {
        '5'
    } else if d == 6 {
        '6'
    } else if d == 7 {
        '7'
    } else if d == 8 {
        '8'
    } else {
        '9'
    }
}

/// The decimal rendering of a non-negative integer, without leading zeros.
pub open spec fn dec_str(n: int) -> Seq<char>
    decreases n,
{
    if n < 10 {
        seq![dec_digit(n)]
    } else {
        dec_str(n / 10) + seq![dec_digit(n % 10)]
    }
}

/// A one-character string for a decimal digit.
fn digit_str(d: u64) -> (r: &'static str)
    requires
        d < 10,
    ensures
        r@ == seq![dec_digit(d as int)],
{
    proof {
        reveal_strlit("0");
        reveal_strlit("1");
        reveal_strlit("2");
        reveal_strlit("3");
        reveal_strlit("4");
        reveal_strlit("5");
        reveal_strlit("6");
        reveal_strlit("7");
        reveal_strlit("8");
        reveal_strlit("9");
    }
    if d == 0 {
        "0"
    } else if d == 1 {
        "1"
    } else if d == 2 {
        "2"
    } else if d == 3 {
        "3"
    } else if d == 4 {
        "4"
    } else if d == 5 {
        "5"
    } else if d == 6 {
        "6"
    } else if d == 7 {
        "7"
    } else if d == 8 {
        "8"
    } else {
        "9"
    }
}

/// Renders `n` in decimal.
pub fn u64_to_dec_string(n: u64) -> (r: String)
    ensures
        r@ == dec_str(n as int),
    decreases n,
{
    if n < 10 {
        digit_str(n).to_owned()
    } else {
        let mut s = u64_to_dec_string(n / 10);
        s.append(digit_str(n % 10));
        s
    }
}

/// The two-digit zero-padded decimal rendering of `n < 100`.
pub open spec fn dec2_str(n: int) -> Seq<char> {
    seq![dec_digit(n / 10), dec_digit(n % 10)]
}

/// Renders `n` as exactly two decimal digits.
pub fn u64_to_dec2_string(n: u64) -> (r: String)
    requires
        n < 100,
    ensures
        r@ == dec2_str(n as int),
{
    let mut s = digit_str(n / 10).to_owned();
    s.append(digit_str(n % 10));
    s
}

/// The four-digit zero-padded decimal rendering of `n < 10000`.
pub open spec fn dec4_str(n: int) -> Seq<char> {
    seq![
        dec_digit(n / 1000),
        dec_digit((n / 100) % 10),
        dec_digit((n / 10) % 10),
        dec_digit(n % 10),
    ]
}

/// Renders `n` as exactly four decimal digits.
pub fn u64_to_dec4_string(n: u64) -> (r: String)
    requires
        n < 10000,
    ensures
        r@ == dec4_str(n as int),
{
    let mut s = digit_str(n / 1000).to_owned();
    s.append(digit_str((n / 100) % 10));
    s.append(digit_str((n / 10) % 10));
    s.append(digit_str(n % 10));
    s
}

/// The characters of an all-ASCII byte sequence, byte for byte.
pub open spec fn ascii_chars(s: Seq<u8>) -> Seq<char> {
    s.map_values(|b: u8| (b as u32) as char)
}

/// An all-ASCII byte sequence is valid UTF-8 and decodes to its bytes,
/// character for character.
pub proof fn lemma_ascii_bytes_utf8(s: Seq<u8>)
    requires
        forall|i: int| 0 <= i < s.len() ==> s[i] < 0x80,
    ensures
        vstd::utf8::valid_utf8(s),
        vstd::utf8::decode_utf8(s) == ascii_chars(s),
    decreases s.len(),
{
    if s.len() == 0 {
        assert(vstd::utf8::decode_utf8(s) =~= ascii_chars(s));
    } else {
        let b0 = s[0];
        assert(vstd::utf8::is_leading_byte_width_1(b0));
        assert((b0 & 0x7f) == b0) by (bit_vector)
            requires
                b0 < 0x80,
        ;
        assert(vstd::utf8::decode_first_codepoint(s) == b0 as u32);
        assert(vstd::utf8::length_of_first_codepoint(s) == 1);
        assert(vstd::utf8::valid_first_scalar(s));
        let rest = vstd::utf8::pop_first_scalar(s);
        assert(rest =~= s.subrange(1, s.len() as int));
        lemma_ascii_bytes_utf8(rest);
        assert(vstd::utf8::decode_utf8(s) =~= ascii_chars(s));
    }
}

/// Copies the suffix of a byte vector from `from` on.
pub fn vec_suffix(v: &Vec<u8>, from: usize) -> (r: Vec<u8>)
    requires
        from <= v@.len(),
    ensures
        r@ == v@.subrange(from as int, v@.len() as int),
{
    let mut out: Vec<u8> = Vec::new();
    let mut i: usize = from;
    while i < v.len()
        invariant
            from <= i <= v@.len(),
            out@ == v@.subrange(from as int, i as int),
        decreases v@.len() - i,
    {
        out.push(v[i]);
        i = i + 1;
        proof {
            assert(v@.subrange(from as int, i as int) =~= v@.subrange(from as int, i - 1).push(
                v@[i - 1],
            ));
        }
    }
    proof {
        assert(v@.subrange(from as int, 0 + from as int) =~= Seq::<u8>::empty());
    }
    out
}

/// A decimal rendering is non-empty and holds decimal digits only.
pub proof fn lemma_dec_str_digits(n: int)
    requires
        n >= 0,
    ensures
        dec_str(n).len() >= 1,
        forall|j: int| 0 <= j < dec_str(n).len() ==> '0' <= #[trigger] dec_str(n)[j] <= '9',
    decreases n,
{
    if n >= 10 {
        lemma_dec_str_digits(n / 10);
        assert forall|j: int| 0 <= j < dec_str(n).len() implies '0' <= #[trigger] dec_str(n)[j]
            <= '9' by {
            if j < dec_str(n / 10).len() {
                assert(dec_str(n)[j] == dec_str(n / 10)[j]);
            }
        }
    }
}

/// Whether `c` is a decimal digit.
pub open spec fn is_digit(c: char) -> bool {
    '0' <= c <= '9'
}

/// The value of a digit string, most significant first.
pub open spec fn digits_val(s: Seq<char>) -> int
    decreases s.len(),
{
    if s.len() == 0 {
        0
    } else {
        digits_val(s.drop_last()) * 10 + (s.last() as u32 - 48)
    }
}

/// What a decimal string parses to: every character must be a digit, and
/// the value must fit the machine word.
pub open spec fn parse_usize_spec(s: Seq<char>) -> Option<int> {
    if s.len() > 0 && (forall|i: int| 0 <= i < s.len() ==> is_digit(#[trigger] s[i]))
        && digits_val(s) <= usize::MAX as int {
        Some(digits_val(s))
    } else {
        None
    }
}

proof fn lemma_digits_val_nonneg(s: Seq<char>)
    requires
        forall|i: int| 0 <= i < s.len() ==> is_digit(#[trigger] s[i]),
    ensures
        digits_val(s) >= 0,
    decreases s.len(),
{
    if s.len() > 0 {
        lemma_digits_val_nonneg(s.drop_last());
    }
}

proof fn lemma_digits_val_prefix(s: Seq<char>, i: int)
    requires
        0 <= i <= s.len(),
        forall|j: int| 0 <= j < s.len() ==> is_digit(#[trigger] s[j]),
    ensures
        digits_val(s) >= digits_val(s.subrange(0, i)),
    decreases s.len() - i,
{
    if i == s.len() {
        assert(s.subrange(0, i) =~= s);
    } else {
        lemma_digits_val_prefix(s, i + 1);
        let a = s.subrange(0, i);
        let b = s.subrange(0, i + 1);
        assert(b.drop_last() =~= a);
        assert(forall|j: int| 0 <= j < a.len() ==> is_digit(#[trigger] a[j]));
        lemma_digits_val_nonneg(a);
        assert(digits_val(b) == digits_val(a) * 10 + (b.last() as u32 - 48));
    }
}

/// Parses a decimal string; `None` when it is empty, holds a non-digit, or
/// does not fit the machine word.
pub fn parse_usize(s: &str) -> (r: Option<usize>)
    ensures
        match r {
            Some(v) => parse_usize_spec(s@) == Some(v as int),
            None => parse_usize_spec(s@) is None,
        },
{
    let len: usize = s.unicode_len();
    if len == 0 {
        return None;
    }
    let mut acc: usize = 0;
    let mut i: usize = 0;
    proof {
        assert(s@.subrange(0, 0) =~= Seq::<char>::empty());
    }
    while i < len
        invariant
            len == s@.len(),
            0 <= i <= len,
            forall|j: int| 0 <= j < i ==> is_digit(#[trigger] s@[j]),
            acc as int == digits_val(s@.subrange(0, i as int)),
        decreases len - i,
    {
        let c = s.get_char(i);
        if !('0' <= c && c <= '9') {
            return None;
        }
        let d: usize = (c as u32 as usize) - 48;
        let ghost pre = s@.subrange(0, i as int);
        proof {
            assert(s@.subrange(0, i + 1).drop_last() =~= pre);
            assert(s@.subrange(0, i + 1).last() == s@[i as int]);
        }
        match acc.checked_mul(10) {
            Some(m) => {
                match m.checked_add(d) {
                    Some(v) => {
                        acc = v;
                    },
                    None => {
                        proof {
                            if forall|j: int| 0 <= j < s@.len() ==> is_digit(#[trigger] s@[j]) {
                                lemma_digits_val_prefix(s@, i + 1);
                            }
                        }
                        return None;
                    },
                }
            },
            None => {
                proof {
                    if forall|j: int| 0 <= j < s@.len() ==> is_digit(#[trigger] s@[j]) {
                        lemma_digits_val_prefix(s@, i + 1);
                    }
                }
                return None;
            },
        }
        i = i + 1;
    }
    proof {
        assert(s@.subrange(0, len as int) =~= s@);
    }
    Some(acc)
}

} // verus!
