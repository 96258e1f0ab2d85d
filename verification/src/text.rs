//! Verified text primitives: ASCII case-insensitive comparison, whitespace
//! trimming, comma splitting, lexicographic ordering, slash replacement and
//! decimal numerals.

use vstd::prelude::*;
use vstd::string::*;

verus! {

/// ASCII lower-casing of a single character, as a code point.
pub open spec fn lower_code(c: char) -> int {
    if 65 <= c as u32 && c as u32 <= 90 {
        c as u32 + 32
    } else {
        c as u32 as int
    }
}

/// Equality of two texts up to ASCII case.
pub open spec fn eq_ignore_ascii_case(a: Seq<char>, b: Seq<char>) -> bool {
    a.len() == b.len() && (forall|i: int| 0 <= i < a.len() ==> lower_code(a[i]) == lower_code(b[i]))
}

fn lower_exec(c: char) -> (r: u32)
    ensures
        r == lower_code(c),
{
    let u: u32 = c as u32;
    if 65 <= u && u <= 90 {
        u + 32
    } else {
        u
    }
}

/// Compares two strings for equality up to ASCII case.
pub fn eq_ignore_case_str(a: &str, b: &str) -> (r: bool)
    ensures
        r == eq_ignore_ascii_case(a@, b@),
{
    let alen: usize = a.unicode_len();
    let blen: usize = b.unicode_len();
    if alen != blen {
        return false;
    }
    let mut i: usize = 0;
    while i < alen
        invariant
            i <= alen,
            alen == a@.len(),
            blen == b@.len(),
            alen == blen,
            forall|k: int| 0 <= k < i ==> lower_code(a@[k]) == lower_code(b@[k]),
        decreases alen - i,
    {
        let la: u32 = lower_exec(a.get_char(i));
        let lb: u32 = lower_exec(b.get_char(i));
        if la != lb {
            return false;
        }
        i += 1;
    }
    true
}

/// The whitespace characters that trimming removes.
pub open spec fn is_ws_char(c: char) -> bool {
    c == ' ' || c == '\t' || c == '\n' || c == '\r'
}

/// The text with leading and trailing whitespace removed.
pub open spec fn trimmed(s: Seq<char>) -> Seq<char>
    decreases s.len(),
{
    if s.len() == 0 {
        s
    } else if is_ws_char(s[0]) {
        trimmed(s.skip(1))
    } else if is_ws_char(s.last()) {
        trimmed(s.drop_last())
    } else {
        s
    }
}

fn is_ws_exec(c: char) -> (r: bool)
    ensures
        r == is_ws_char(c),
{
    c == ' ' || c == '\t' || c == '\n' || c == '\r'
}

/// Removes leading and trailing whitespace.
pub fn trim_str(s: &str) -> (r: &str)
    ensures
        r@ == trimmed(s@),
{
    let len: usize = s.unicode_len();
    let mut lo: usize = 0;
    proof {
        assert(s@.skip(0) =~= s@);
    }
    while lo < len && is_ws_exec(s.get_char(lo))
        invariant
            lo <= len,
            len == s@.len(),
            trimmed(s@) == trimmed(s@.skip(lo as int)),
        decreases len - lo,
    {
        proof {
            assert(s@.skip(lo as int).skip(1) =~= s@.skip(lo as int + 1));
        }
        lo += 1;
    }
    let mut hi: usize = len;
    while hi > lo && is_ws_exec(s.get_char(hi - 1))
        invariant
            lo <= hi <= len,
            len == s@.len(),
            lo < len ==> !is_ws_char(s@[lo as int]),
            trimmed(s@) == trimmed(s@.subrange(lo as int, hi as int)),
        decreases hi,
    {
        proof {
            let part = s@.subrange(lo as int, hi as int);
            assert(part.drop_last() =~= s@.subrange(lo as int, hi as int - 1));
        }
        hi -= 1;
    }
    proof {
        if lo == hi {
            assert(s@.subrange(lo as int, hi as int) =~= Seq::<char>::empty());
        }
    }
    s.substring_char(lo, hi)
}

/// Splitting a text at every comma; the empty text yields one empty piece.
pub open spec fn split_commas(s: Seq<char>) -> Seq<Seq<char>>
    decreases s.len(),
{
    if s.len() == 0 {
        seq![Seq::<char>::empty()]
    } else if s[0] == ',' {
        seq![Seq::<char>::empty()] + split_commas(s.skip(1))
    } else {
        let rest = split_commas(s.skip(1));
        seq![seq![s[0]] + rest[0]] + rest.skip(1)
    }
}

pub proof fn lemma_split_commas_len(s: Seq<char>)
    ensures
        split_commas(s).len() >= 1,
    decreases s.len(),
{
    if s.len() != 0 {
        lemma_split_commas_len(s.skip(1));
    }
}

/// A comma-free text splits into itself alone.
pub proof fn lemma_split_no_comma(s: Seq<char>)
    requires
        forall|i: int| 0 <= i < s.len() ==> s[i] != ',',
    ensures
        split_commas(s) =~= seq![s],
    decreases s.len(),
{
    if s.len() == 0 {
        assert(split_commas(s) == seq![Seq::<char>::empty()]);
        assert(s =~= Seq::<char>::empty());
    } else {
        assert(forall|i: int| 0 <= i < s.skip(1).len() ==> s.skip(1)[i] != ',');
        lemma_split_no_comma(s.skip(1));
        let rest = split_commas(s.skip(1));
        assert(rest[0] == s.skip(1));
        assert(seq![s[0]] + s.skip(1) =~= s);
        assert(rest.skip(1) =~= Seq::<Seq<char>>::empty());
    }
}

/// Splitting at the first comma: a comma-free prefix becomes the first piece.
pub proof fn lemma_split_at_comma(p: Seq<char>, r: Seq<char>)
    requires
        forall|i: int| 0 <= i < p.len() ==> p[i] != ',',
    ensures
        split_commas(p + seq![','] + r) =~= seq![p] + split_commas(r),
    decreases p.len(),
{
    let s = p + seq![','] + r;
    if p.len() == 0 {
        assert(s[0] == ',');
        assert(s.skip(1) =~= r);
        assert(p =~= Seq::<char>::empty());
    } else {
        assert(s[0] == p[0]);
        assert(s[0] != ',');
        assert(s.skip(1) =~= p.skip(1) + seq![','] + r);
        lemma_split_at_comma(p.skip(1), r);
        let rest = split_commas(s.skip(1));
        assert(rest =~= seq![p.skip(1)] + split_commas(r));
        lemma_split_commas_len(r);
        assert(rest[0] == p.skip(1));
        assert(seq![s[0]] + p.skip(1) =~= p);
        assert(rest.skip(1) =~= split_commas(r));
    }
}

/// Strict lexicographic order on texts by code point, the order in which
/// discovered category values are listed.
pub open spec fn lex_lt(a: Seq<char>, b: Seq<char>) -> bool
    decreases a.len(),
{
    if b.len() == 0 {
        false
    } else if a.len() == 0 {
        true
    } else if (a[0] as u32) < (b[0] as u32) {
        true
    } else if a[0] == b[0] {
        lex_lt(a.skip(1), b.skip(1))
    } else {
        false
    }
}

/// Equal code points mean equal characters.
proof fn lemma_char_code_inj(a: char, b: char)
    requires
        a as u32 == b as u32,
    ensures
        a == b,
{
    vstd::utf8::char_u32_cast(a, a as u32);
    vstd::utf8::char_u32_cast(b, b as u32);
}

/// Two texts are ordered one way or the other, or are equal.
pub proof fn lemma_lex_connex(a: Seq<char>, b: Seq<char>)
    ensures
        lex_lt(a, b) || lex_lt(b, a) || a == b,
    decreases a.len(),
{
    if a.len() == 0 && b.len() == 0 {
        assert(a =~= b);
    } else if a.len() != 0 && b.len() != 0 && (a[0] as u32) == (b[0] as u32) {
        lemma_char_code_inj(a[0], b[0]);
        lemma_lex_connex(a.skip(1), b.skip(1));
        if a.skip(1) == b.skip(1) {
            assert(a =~= seq![a[0]] + a.skip(1));
            assert(b =~= seq![b[0]] + b.skip(1));
        }
    }
}

/// Lexicographic order is transitive.
pub proof fn lemma_lex_trans(a: Seq<char>, b: Seq<char>, c: Seq<char>)
    requires
        lex_lt(a, b),
        lex_lt(b, c),
    ensures
        lex_lt(a, c),
    decreases a.len(),
{
    if a.len() != 0 && b.len() != 0 && c.len() != 0 && a[0] == b[0] && b[0] == c[0] {
        lemma_lex_trans(a.skip(1), b.skip(1), c.skip(1));
    }
}

/// If two texts agree on a prefix, their order is the order of the rests.
proof fn lemma_lex_skip(a: Seq<char>, b: Seq<char>, i: int)
    requires
        0 <= i <= a.len(),
        i <= b.len(),
        forall|k: int| 0 <= k < i ==> a[k] == b[k],
    ensures
        lex_lt(a, b) == lex_lt(a.skip(i), b.skip(i)),
    decreases i,
{
    if i == 0 {
        assert(a.skip(0) =~= a);
        assert(b.skip(0) =~= b);
    } else {
        assert(a[0] == b[0]);
        assert(lex_lt(a, b) == lex_lt(a.skip(1), b.skip(1)));
        assert(a.skip(1).skip(i - 1) =~= a.skip(i));
        assert(b.skip(1).skip(i - 1) =~= b.skip(i));
        assert(forall|k: int| 0 <= k < i - 1 ==> a.skip(1)[k] == b.skip(1)[k]);
        lemma_lex_skip(a.skip(1), b.skip(1), i - 1);
    }
}

/// Decides equality of two strings' character sequences.
pub fn str_eq(a: &str, b: &str) -> (r: bool)
    ensures
        r == (a@ == b@),
{
    let alen: usize = a.unicode_len();
    let blen: usize = b.unicode_len();
    if alen != blen {
        proof {
            assert(a@ != b@);
        }
        return false;
    }
    let mut i: usize = 0;
    while i < alen
        invariant
            i <= alen,
            alen == a@.len(),
            blen == b@.len(),
            alen == blen,
            forall|k: int| 0 <= k < i ==> a@[k] == b@[k],
        decreases alen - i,
    {
        if a.get_char(i) != b.get_char(i) {
            proof {
                assert(a@[i as int] != b@[i as int]);
            }
            return false;
        }
        i += 1;
    }
    proof {
        assert(a@ =~= b@);
    }
    true
}

/// Decides whether `a` comes strictly before `b` in lexicographic order.
pub fn str_lt(a: &str, b: &str) -> (r: bool)
    ensures
        r == lex_lt(a@, b@),
{
    let alen: usize = a.unicode_len();
    let blen: usize = b.unicode_len();
    let mut i: usize = 0;
    loop
        invariant
            i <= alen,
            i <= blen,
            alen == a@.len(),
            blen == b@.len(),
            forall|k: int| 0 <= k < i ==> a@[k] == b@[k],
        decreases alen - i,
    {
        proof {
            lemma_lex_skip(a@, b@, i as int);
        }
        if i >= blen {
            return false;
        }
        if i >= alen {
            return true;
        }
        let ca: char = a.get_char(i);
        let cb: char = b.get_char(i);
        if (ca as u32) < (cb as u32) {
            return true;
        }
        if ca != cb {
            proof {
                assert((a@.skip(i as int))[0] == ca);
                assert((b@.skip(i as int))[0] == cb);
            }
            return false;
        }
        i += 1;
    }
}

/// The text with every forward slash replaced by a hyphen.
pub open spec fn slashes_replaced(s: Seq<char>) -> Seq<char> {
    s.map_values(|c: char| if c == '/' { '-' } else { c })
}

/// Replaces every forward slash with a hyphen, the retry normalization for
/// date fields.
pub fn replace_slashes(s: &str) -> (r: String)
    ensures
        r@ == slashes_replaced(s@),
{
    let len: usize = s.unicode_len();
    let mut out: String = String::new();
    let mut i: usize = 0;
    while i < len
        invariant
            i <= len,
            len == s@.len(),
            out@ =~= slashes_replaced(s@.take(i as int)),
        decreases len - i,
    {
        let c: char = s.get_char(i);
        if c == '/' {
            out.append("-");
            proof {
                reveal_strlit("-");
            }
        } else {
            let piece: &str = s.substring_char(i, i + 1);
            out.append(piece);
        }
        proof {
            assert(s@.take(i + 1) =~= s@.take(i as int) + seq![s@[i as int]]);
            assert(out@ =~= slashes_replaced(s@.take(i + 1)));
        }
        i += 1;
    }
    proof {
        assert(s@.take(len as int) =~= s@);
    }
    out
}

/// The decimal numeral denoting a natural number.
pub open spec fn dec_digit(d: int) -> char {
    if d == 0 { '0' }
    else if d == 1 { '1' }
    else if d == 2 { '2' }
    else if d == 3 { '3' }
    else if d == 4 { '4' }
    else if d == 5 { '5' }
    else if d == 6 { '6' }
    else if d == 7 { '7' }
    else if d == 8 { '8' }
    else { '9' }
}

/// The decimal numeral of a natural number, most significant digit first.
pub open spec fn dec_numeral(n: int) -> Seq<char>
    decreases n,
{
    if n <= 9 {
        seq![dec_digit(n)]
    } else {
        dec_numeral(n / 10) + seq![dec_digit(n % 10)]
    }
}

fn push_digit(out: &mut String, d: u8)
    requires
        d <= 9,
    ensures
        final(out)@ == old(out)@ + seq![dec_digit(d as int)],
{
    if d == 0 { out.append("0"); proof { reveal_strlit("0"); } }
    else if d == 1 { out.append("1"); proof { reveal_strlit("1"); } }
    else if d == 2 { out.append("2"); proof { reveal_strlit("2"); } }
    else if d == 3 { out.append("3"); proof { reveal_strlit("3"); } }
    else if d == 4 { out.append("4"); proof { reveal_strlit("4"); } }
    else if d == 5 { out.append("5"); proof { reveal_strlit("5"); } }
    else if d == 6 { out.append("6"); proof { reveal_strlit("6"); } }
    else if d == 7 { out.append("7"); proof { reveal_strlit("7"); } }
    else if d == 8 { out.append("8"); proof { reveal_strlit("8"); } }
    else { out.append("9"); proof { reveal_strlit("9"); } }
}

/// Renders a small category numeral as decimal text.
pub fn u8_to_decimal(v: u8) -> (r: String)
    ensures
        r@ == dec_numeral(v as int),
{
    let mut out: String = String::new();
    if v >= 100 {
        push_digit(&mut out, v / 100);
        push_digit(&mut out, (v / 10) % 10);
        push_digit(&mut out, v % 10);
        proof {
            assert(v as int / 10 / 10 == v as int / 100);
            assert(dec_numeral(v as int) == dec_numeral(v as int / 10) + seq![
                dec_digit(v as int % 10),
            ]);
            assert(dec_numeral(v as int / 10) == dec_numeral(v as int / 10 / 10) + seq![
                dec_digit((v as int / 10) % 10),
            ]);
            assert(dec_numeral(v as int / 100) == seq![dec_digit(v as int / 100)]);
            assert(dec_numeral(v as int) =~= out@);
        }
    } else if v >= 10 {
        push_digit(&mut out, v / 10);
        push_digit(&mut out, v % 10);
        proof {
            assert(dec_numeral(v as int) == dec_numeral(v as int / 10) + seq![
                dec_digit(v as int % 10),
            ]);
            assert(dec_numeral(v as int / 10) == seq![dec_digit(v as int / 10)]);
            assert(dec_numeral(v as int) =~= out@);
        }
    } else {
        push_digit(&mut out, v);
        proof {
            assert(dec_numeral(v as int) =~= out@);
        }
    }
    out
}

/// The value of a digits-only decimal text, or nothing if any character is
/// not a digit or the text is empty.
pub open spec fn dec_value(s: Seq<char>) -> Option<int>
    decreases s.len(),
{
    if s.len() == 0 {
        Option::None
    } else if !('0' <= s.last() && s.last() <= '9') {
        Option::None
    } else if s.len() == 1 {
        Option::Some(s.last() as u32 - 48)
    } else {
        match dec_value(s.drop_last()) {
            Option::Some(h) => Option::Some(h * 10 + (s.last() as u32 - 48)),
            Option::None => Option::None,
        }
    }
}

/// The category numeral a text denotes: a digits-only decimal value up to
/// 255, or nothing.
pub open spec fn u8_from_decimal(s: Seq<char>) -> Option<u8> {
    match dec_value(s) {
        Option::Some(v) => if v <= 255 { Option::Some(v as u8) } else { Option::None },
        Option::None => Option::None,
    }
}

/// Parses a digits-only decimal numeral up to 255.
pub fn parse_u8_decimal(s: &str) -> (r: Option<u8>)
    ensures
        r == u8_from_decimal(s@),
{
    let len: usize = s.unicode_len();
    if len == 0 {
        return None;
    }
    let mut acc: u32 = 0;
    let mut i: usize = 0;
    while i < len
        invariant
            0 < i <= len || (i == 0 && len > 0),
            len == s@.len(),
            i > 0 ==> dec_value(s@.take(i as int)) == Option::Some(acc as int),
            i == 0 ==> acc == 0,
            acc <= 255,
        decreases len - i,
    {
        let c: char = s.get_char(i);
        let u: u32 = c as u32;
        if u < 48 || u > 57 {
            proof {
                lemma_dec_value_none_bad_digit(s@, i as int);
            }
            return None;
        }
        let d: u32 = u - 48;
        let next: u32 = acc * 10 + d;
        proof {
            assert(s@.take(i + 1).drop_last() =~= s@.take(i as int));
            assert(s@.take(i + 1).last() == s@[i as int]);
        }
        if next > 255 {
            proof {
                lemma_dec_value_overflow(s@, i + 1, next as int);
            }
            return None;
        }
        acc = next;
        i += 1;
    }
    proof {
        assert(s@.take(len as int) =~= s@);
    }
    Some(acc as u8)
}

/// A non-digit anywhere makes the whole text denote nothing.
proof fn lemma_dec_value_none_bad_digit(s: Seq<char>, i: int)
    requires
        0 <= i < s.len(),
        !('0' <= s[i] && s[i] <= '9'),
    ensures
        dec_value(s) is None,
    decreases s.len(),
{
    if s.len() > 0 && i < s.len() - 1 {
        lemma_dec_value_none_bad_digit(s.drop_last(), i);
    }
}

/// Once a prefix already denotes more than the cap, the whole text does too,
/// or denotes nothing.
proof fn lemma_dec_value_overflow(s: Seq<char>, i: int, v: int)
    requires
        0 < i <= s.len(),
        dec_value(s.take(i)) == Option::Some(v),
        v > 255,
    ensures
        u8_from_decimal(s) is None,
    decreases s.len() - i,
{
    if i == s.len() {
        assert(s.take(i) =~= s);
    } else {
        assert(s.take(i + 1).drop_last() =~= s.take(i));
        if '0' <= s.take(i + 1).last() && s.take(i + 1).last() <= '9' {
            lemma_dec_value_overflow(s, i + 1, v * 10 + (s[i] as u32 - 48));
        } else {
            lemma_dec_value_none_bad_digit(s, i);
        }
    }
}

} // verus!
