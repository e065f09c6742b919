//! Character-level string helpers shared by the command model and the
//! handlers: white-space classification, equality, and decimal rendering.

use vstd::prelude::*;

verus! {

/// The Unicode white-space characters, the set that `str::trim` strips.
pub open spec fn is_space_char(c: char) -> bool {
    (0x09 <= (c as u32) && (c as u32) <= 0x0d) || (c as u32) == 0x20 || (c as u32) == 0x85
        || (c as u32) == 0xa0 || (c as u32) == 0x1680
        || (0x2000 <= (c as u32) && (c as u32) <= 0x200a) || (c as u32) == 0x2028
        || (c as u32) == 0x2029 || (c as u32) == 0x202f || (c as u32) == 0x205f
        || (c as u32) == 0x3000
}

/// Runtime check for `is_space_char`.
pub fn is_space(c: char) -> (r: bool)
    ensures
        r == is_space_char(c),
{
    let u = c as u32;
    (0x09 <= u && u <= 0x0d) || u == 0x20 || u == 0x85 || u == 0xa0 || u == 0x1680
        || (0x2000 <= u && u <= 0x200a) || u == 0x2028 || u == 0x2029 || u == 0x202f
        || u == 0x205f || u == 0x3000
}

/// Character-for-character equality of two string slices.
pub fn str_eq(a: &str, b: &str) -> (r: bool)
    ensures
        r == (a@ == b@),
{
    let alen = a.unicode_len();
    let blen = b.unicode_len();
    if alen != blen {
        return false;
    }
    let mut i: usize = 0;
    while i < alen
        invariant
            alen == a@.len(),
            blen == b@.len(),
            alen == blen,
            i <= alen,
            forall|j: int| 0 <= j < i ==> a@[j] == b@[j],
        decreases alen - i,
    {
        if a.get_char(i) != b.get_char(i) {
            return false;
        }
        i += 1;
    }
    proof {
        assert(a@ =~= b@);
    }
    true
}

/// The character for one decimal digit.
pub open spec fn digit_char_sp(d: int) -> char {
    if d == 0 {
        '0'
    } else if d == 1 {
        '1'
    } else if d == 2 {
        '2'
    } else if d == 3 {
        '3'
    } else if d == 4 {
        '4'
    } else if d == 5 {
        '5'
    } else if d == 6 {
        '6'
    } else if d == 7 {
        '7'
    } else if d == 8 {
        '8'
    } else {
        '9'
    }
}

/// Decimal rendering of a non-negative integer, most significant digit first.
pub open spec fn dec_str_sp(n: int) -> Seq<char>
    decreases n,
{
    if n < 10 {
        seq![digit_char_sp(n)]
    } else {
        dec_str_sp(n / 10).push(digit_char_sp(n % 10))
    }
}

/// One decimal digit as a string slice.
pub fn digit_str(d: u64) -> (r: &'static str)
    requires
        d < 10,
    ensures
        r@ == seq![digit_char_sp(d as int)],
{
    proof {
        reveal_strlit("0");
        reveal_strlit("1");
        reveal_strlit("2");
        reveal_strlit("3");
        reveal_strlit("4");
        reveal_strlit("5");
        reveal_strlit("6");
        reveal_strlit("7");
        reveal_strlit("8");
        reveal_strlit("9");
    }
    let r = match d {
        0 => "0",
        1 => "1",
        2 => "2",
        3 => "3",
        4 => "4",
        5 => "5",
        6 => "6",
        7 => "7",
        8 => "8",
        _ => "9",
    };
    proof {
        assert(r@ =~= seq![digit_char_sp(d as int)]);
    }
    r
}

/// Appends the decimal rendering of `n` to `out`.
pub fn push_dec_u64(n: u64, out: &mut String)
    ensures
        final(out)@ == old(out)@ + dec_str_sp(n as int),
    decreases n,
{
    if n >= 10 {
        push_dec_u64(n / 10, out);
    }
    let d = digit_str(n % 10);
    out.append(d);
    proof {
        if n >= 10 {
            assert(out@ =~= old(out)@ + dec_str_sp(n as int));
        } else {
            assert(out@ =~= old(out)@ + dec_str_sp(n as int));
        }
    }
}

/// The character for one hexadecimal digit, lower case.
pub open spec fn hex_char_sp(d: int) -> char {
    if d < 10 {
        digit_char_sp(d)
    } else if d == 10 {
        'a'
    } else if d == 11 {
        'b'
    } else if d == 12 {
        'c'
    } else if d == 13 {
        'd'
    } else if d == 14 {
        'e'
    } else {
        'f'
    }
}

/// Lower-case hexadecimal rendering, most significant digit first.
pub open spec fn hex_str_sp(n: int) -> Seq<char>
    decreases n,
{
    if n < 16 {
        seq![hex_char_sp(n)]
    } else {
        hex_str_sp(n / 16).push(hex_char_sp(n % 16))
    }
}

/// One hexadecimal digit as a string slice.
fn hex_digit_str(d: u16) -> (r: &'static str)
    requires
        d < 16,
    ensures
        r@ == seq![hex_char_sp(d as int)],
{
    proof {
        reveal_strlit("a");
        reveal_strlit("b");
        reveal_strlit("c");
        reveal_strlit("d");
        reveal_strlit("e");
        reveal_strlit("f");
    }
    let r = if d < 10 {
        digit_str(d as u64)
    } else {
        match d {
            10 => "a",
            11 => "b",
            12 => "c",
            13 => "d",
            14 => "e",
            _ => "f",
        }
    };
    proof {
        assert(r@ =~= seq![hex_char_sp(d as int)]);
    }
    r
}

/// Appends the hexadecimal rendering of `n` to `out`.
pub fn push_hex_u16(n: u16, out: &mut String)
    ensures
        final(out)@ == old(out)@ + hex_str_sp(n as int),
    decreases n,
{
    if n >= 16 {
        push_hex_u16(n / 16, out);
    }
    let d = hex_digit_str(n % 16);
    out.append(d);
    proof {
        assert(out@ =~= old(out)@ + hex_str_sp(n as int));
    }
}

/// The decimal rendering of `n` as an owned string.
pub fn u64_to_string(n: u64) -> (r: String)
    ensures
        r@ == dec_str_sp(n as int),
{
    let mut s = String::new();
    push_dec_u64(n, &mut s);
    proof {
        assert(s@ =~= dec_str_sp(n as int));
    }
    s
}

/// The views of a sequence of owned strings.
pub open spec fn str_views(v: Seq<String>) -> Seq<Seq<char>> {
    v.map_values(|t: String| t@)
}

pub proof fn lemma_str_views_push(v: Seq<String>, t: String)
    ensures
        str_views(v.push(t)) == str_views(v).push(t@),
{
    assert(str_views(v.push(t)) =~~= str_views(v).push(t@));
}

pub open spec fn trim_front_sp(s: Seq<char>) -> Seq<char>
    decreases s.len(),
{
    if s.len() > 0 && is_space_char(s[0]) {
        trim_front_sp(s.drop_first())
    } else {
        s
    }
}

pub open spec fn trim_back_sp(s: Seq<char>) -> Seq<char>
    decreases s.len(),
{
    if s.len() > 0 && is_space_char(s.last()) {
        trim_back_sp(s.drop_last())
    } else {
        s
    }
}

/// What `str::trim` leaves: the input without leading and trailing white space.
pub open spec fn trim_sp(s: Seq<char>) -> Seq<char> {
    trim_back_sp(trim_front_sp(s))
}

proof fn lemma_trim_front_at(s: Seq<char>, i: int)
    requires
        0 <= i <= s.len(),
        forall|k: int| 0 <= k < i ==> is_space_char(s[k]),
        i == s.len() || !is_space_char(s[i]),
    ensures
        trim_front_sp(s) == s.subrange(i, s.len() as int),
    decreases i,
{
    if i == 0 {
        assert(trim_front_sp(s) =~= s.subrange(0, s.len() as int));
    } else {
        let t = s.drop_first();
        lemma_trim_front_at(t, i - 1);
        assert(t.subrange(i - 1, t.len() as int) =~= s.subrange(i, s.len() as int));
    }
}

proof fn lemma_trim_back_at(s: Seq<char>, j: int)
    requires
        0 <= j <= s.len(),
        forall|k: int| j <= k < s.len() ==> is_space_char(s[k]),
        j == 0 || !is_space_char(s[j - 1]),
    ensures
        trim_back_sp(s) == s.subrange(0, j),
    decreases s.len(),
{
    if j == s.len() {
        assert(trim_back_sp(s) =~= s.subrange(0, j));
    } else {
        let t = s.drop_last();
        lemma_trim_back_at(t, j);
        assert(t.subrange(0, j) =~= s.subrange(0, j));
    }
}

/// Strips leading and trailing white space, like `str::trim`.
pub fn trim_str<'a>(s: &'a str) -> (r: &'a str)
    ensures
        r@ == trim_sp(s@),
{
    let len = s.unicode_len();
    let mut start: usize = 0;
    while start < len && is_space(s.get_char(start))
        invariant
            len == s@.len(),
            start <= len,
            forall|k: int| 0 <= k < start ==> is_space_char(s@[k]),
        decreases len - start,
    {
        start += 1;
    }
    let mut end: usize = len;
    while end > start && is_space(s.get_char(end - 1))
        invariant
            len == s@.len(),
            start <= end <= len,
            forall|k: int| end <= k < len ==> is_space_char(s@[k]),
        decreases end,
    {
        end -= 1;
    }
    let r = s.substring_char(start, end);
    proof {
        lemma_trim_front_at(s@, start as int);
        let t = s@.subrange(start as int, s@.len() as int);
        lemma_trim_back_at(t, end - start);
        assert(t.subrange(0, end - start) =~= s@.subrange(start as int, end as int));
    }
    r
}

/// The fields of `s` split on the separator, empty fields included.
pub open spec fn split_sp(s: Seq<char>, sep: char) -> Seq<Seq<char>>
    decreases s.len(),
{
    if s.len() == 0 {
        seq![Seq::<char>::empty()]
    } else {
        let rest = split_sp(s.drop_first(), sep);
        if s[0] == sep {
            seq![Seq::<char>::empty()] + rest
        } else {
            seq![seq![s[0]] + rest[0]] + rest.drop_first()
        }
    }
}

pub proof fn lemma_split_nonempty(s: Seq<char>, sep: char)
    ensures
        split_sp(s, sep).len() >= 1,
    decreases s.len(),
{
    if s.len() > 0 {
        lemma_split_nonempty(s.drop_first(), sep);
    }
}

proof fn lemma_split_push(s: Seq<char>, sep: char, c: char)
    ensures
        split_sp(s, sep).len() >= 1,
        c == sep ==> split_sp(s.push(c), sep) == split_sp(s, sep).push(Seq::<char>::empty()),
        c != sep ==> split_sp(s.push(c), sep) == split_sp(s, sep).update(
            split_sp(s, sep).len() - 1,
            split_sp(s, sep).last().push(c),
        ),
    decreases s.len(),
{
    lemma_split_nonempty(s, sep);
    if s.len() == 0 {
        reveal_with_fuel(split_sp, 3);
        assert(s.push(c).drop_first() =~= Seq::<char>::empty());
        if c == sep {
            assert(split_sp(s.push(c), sep) =~~= split_sp(s, sep).push(Seq::<char>::empty()));
        } else {
            assert(split_sp(s.push(c), sep) =~~= split_sp(s, sep).update(
                split_sp(s, sep).len() - 1,
                split_sp(s, sep).last().push(c),
            ));
        }
    } else {
        let t = s.drop_first();
        lemma_split_push(t, sep, c);
        lemma_split_nonempty(t, sep);
        assert(s.push(c).drop_first() =~= t.push(c));
        assert(s.push(c)[0] == s[0]);
        if c == sep {
            assert(split_sp(s.push(c), sep) =~~= split_sp(s, sep).push(Seq::<char>::empty()));
        } else {
            assert(split_sp(s.push(c), sep) =~~= split_sp(s, sep).update(
                split_sp(s, sep).len() - 1,
                split_sp(s, sep).last().push(c),
            ));
        }
    }
}

/// Splits on one separator character, keeping empty fields, like
/// `str::split` with a single-character pattern.
pub fn split_on(s: &str, sep: char) -> (r: Vec<String>)
    ensures
        str_views(r@) == split_sp(s@, sep),
{
    let len = s.unicode_len();
    let mut fields: Vec<String> = Vec::new();
    let mut start: usize = 0;
    let mut i: usize = 0;
    proof {
        assert(split_sp(s@.take(0), sep) =~~= str_views(fields@).push(s@.subrange(0, 0)));
    }
    while i < len
        invariant
            len == s@.len(),
            i <= len,
            start <= i,
            split_sp(s@.take(i as int), sep) == str_views(fields@).push(
                s@.subrange(start as int, i as int),
            ),
        decreases len - i,
    {
        let ghost pre = s@.take(i as int);
        let ghost fpre = fields@;
        let c = s.get_char(i);
        proof {
            lemma_split_push(pre, sep, s@[i as int]);
            assert(s@.take(i + 1) =~= pre.push(s@[i as int]));
        }
        if c == sep {
            let f = s.substring_char(start, i).to_owned();
            fields.push(f);
            proof {
                lemma_str_views_push(fpre, f);
                assert(split_sp(s@.take(i + 1), sep) =~~= str_views(fields@).push(
                    s@.subrange(i + 1, i + 1),
                ));
            }
            start = i + 1;
        } else {
            proof {
                assert(split_sp(pre, sep).last() == s@.subrange(start as int, i as int));
                assert(s@.subrange(start as int, i as int).push(s@[i as int]) =~= s@.subrange(
                    start as int,
                    i + 1,
                ));
                assert(split_sp(s@.take(i + 1), sep) =~~= str_views(fields@).push(
                    s@.subrange(start as int, i + 1),
                ));
            }
        }
        i += 1;
    }
    let f = s.substring_char(start, len).to_owned();
    proof {
        assert(s@.take(len as int) =~= s@);
    }
    let ghost fpre = fields@;
    fields.push(f);
    proof {
        lemma_str_views_push(fpre, f);
        assert(str_views(fields@) =~~= split_sp(s@, sep));
    }
    fields
}

/// The tokens drawn from a field list: each field is trimmed, and a field
/// left empty by trimming is discarded, so every token is trimmed and
/// non-empty.
pub open spec fn tokens_of_fields(fields: Seq<Seq<char>>) -> Seq<Seq<char>>
    decreases fields.len(),
{
    if fields.len() == 0 {
        Seq::empty()
    } else {
        let rest = tokens_of_fields(fields.drop_last());
        if trim_sp(fields.last()).len() > 0 {
            rest.push(trim_sp(fields.last()))
        } else {
            rest
        }
    }
}

/// The tokens of a raw instruction: split on spaces, each field trimmed,
/// fields left empty discarded.  An all-white-space instruction has none.
pub open spec fn tokens_sp(s: Seq<char>) -> Seq<Seq<char>> {
    tokens_of_fields(split_sp(s, ' '))
}

/// Trims each field and keeps the ones left non-empty, in order.
pub fn tokens_from_fields(fields: &Vec<String>) -> (r: Vec<String>)
    ensures
        str_views(r@) == tokens_of_fields(str_views(fields@)),
{
    let mut out: Vec<String> = Vec::new();
    let mut i: usize = 0;
    proof {
        assert(tokens_of_fields(str_views(fields@).take(0)) =~~= str_views(out@));
    }
    while i < fields.len()
        invariant
            i <= fields.len(),
            str_views(out@) == tokens_of_fields(str_views(fields@).take(i as int)),
        decreases fields.len() - i,
    {
        let ghost fv = str_views(fields@);
        proof {
            assert(fv.take(i + 1).drop_last() =~= fv.take(i as int));
            assert(fv.take(i + 1).last() == fv[i as int]);
            assert(fv[i as int] == fields@[i as int]@);
        }
        let t = trim_str(fields[i].as_str());
        if !t.is_empty() {
            let ghost opre = out@;
            let owned = t.to_owned();
            out.push(owned);
            proof {
                lemma_str_views_push(opre, owned);
            }
        }
        i += 1;
    }
    proof {
        assert(str_views(fields@).take(fields@.len() as int) =~= str_views(fields@));
    }
    out
}

/// Tokenizes a raw instruction line.
pub fn tokenize(s: &str) -> (r: Vec<String>)
    ensures
        str_views(r@) == tokens_sp(s@),
{
    let fields = split_on(s, ' ');
    tokens_from_fields(&fields)
}

/// The items joined with the separator between them.
pub open spec fn join_sp(items: Seq<Seq<char>>, sep: Seq<char>) -> Seq<char>
    decreases items.len(),
{
    if items.len() == 0 {
        Seq::empty()
    } else if items.len() == 1 {
        items[0]
    } else {
        join_sp(items.drop_last(), sep) + sep + items.last()
    }
}

/// Joins the items with the separator, like `[String]::join`.
pub fn join_with(items: &Vec<String>, sep: &str) -> (r: String)
    ensures
        r@ == join_sp(str_views(items@), sep@),
{
    let mut out = String::new();
    let mut i: usize = 0;
    while i < items.len()
        invariant
            i <= items.len(),
            out@ == join_sp(str_views(items@).take(i as int), sep@),
        decreases items.len() - i,
    {
        let ghost iv = str_views(items@);
        proof {
            assert(iv.take(i + 1).drop_last() =~= iv.take(i as int));
            assert(iv.take(i + 1).last() == iv[i as int]);
            assert(iv[i as int] == items@[i as int]@);
        }
        if i > 0 {
            out.append(sep);
        }
        out.append(items[i].as_str());
        i += 1;
        proof {
            if i == 1 {
                assert(out@ =~= join_sp(iv.take(1), sep@));
            } else {
                assert(out@ =~= join_sp(iv.take(i as int), sep@));
            }
        }
    }
    proof {
        assert(str_views(items@).take(items@.len() as int) =~= str_views(items@));
        if items@.len() == 0 {
            assert(out@ =~= join_sp(str_views(items@), sep@));
        }
    }
    out
}

/// A decimal digit.
pub open spec fn is_dec_digit(c: char) -> bool {
    0x30 <= (c as u32) && (c as u32) <= 0x39
}

pub open spec fn digit_val_sp(c: char) -> int {
    (c as u32) - 0x30
}

/// The value of a digit string, most significant digit first.
pub open spec fn dec_val_sp(s: Seq<char>) -> int
    decreases s.len(),
{
    if s.len() == 0 {
        0
    } else {
        dec_val_sp(s.drop_last()) * 10 + digit_val_sp(s.last())
    }
}

/// The digits of an unsigned decimal literal: one optional leading plus sign
/// is dropped, as `str::parse` does for unsigned integers.
pub open spec fn digits_part(s: Seq<char>) -> Seq<char> {
    if s.len() > 0 && s[0] == '+' {
        s.drop_first()
    } else {
        s
    }
}

/// A non-empty, all-digit string.
pub open spec fn all_dec_digits(s: Seq<char>) -> bool {
    s.len() > 0 && forall|i: int| 0 <= i < s.len() ==> is_dec_digit(s[i])
}

proof fn lemma_dec_val_nonneg(s: Seq<char>)
    requires
        forall|i: int| 0 <= i < s.len() ==> is_dec_digit(s[i]),
    ensures
        dec_val_sp(s) >= 0,
    decreases s.len(),
{
    if s.len() > 0 {
        lemma_dec_val_nonneg(s.drop_last());
    }
}

proof fn lemma_dec_val_mono(s: Seq<char>, j: int)
    requires
        forall|i: int| 0 <= i < s.len() ==> is_dec_digit(s[i]),
        0 <= j <= s.len(),
    ensures
        dec_val_sp(s) >= dec_val_sp(s.take(j)),
    decreases s.len(),
{
    if j == s.len() {
        assert(s.take(j) =~= s);
    } else {
        let t = s.drop_last();
        lemma_dec_val_nonneg(t);
        lemma_dec_val_mono(t, j);
        assert(t.take(j) =~= s.take(j));
    }
}

/// What `str::parse::<u64>` with a fallback yields: the value of the decimal
/// literal, or `default` where the string is not one or its value does not fit.
pub open spec fn parse_u64_sp(s: Seq<char>, default: u64) -> int {
    if all_dec_digits(digits_part(s)) && dec_val_sp(digits_part(s)) <= u64::MAX {
        dec_val_sp(digits_part(s))
    } else {
        default as int
    }
}

/// What `str::parse::<usize>` with a fallback yields.
pub open spec fn parse_usize_sp(s: Seq<char>, default: usize) -> int {
    if all_dec_digits(digits_part(s)) && dec_val_sp(digits_part(s)) <= usize::MAX {
        dec_val_sp(digits_part(s))
    } else {
        default as int
    }
}

/// `str::parse::<u64>` with a fallback: the value of the decimal literal, or
/// `default` where the string is not such a literal or its value does not fit.
pub fn parse_u64_or(s: &str, default: u64) -> (r: u64)
    ensures
        r == parse_u64_sp(s@, default),
{
    let len = s.unicode_len();
    let mut i: usize = 0;
    if len > 0 && s.get_char(0) == '+' {
        i = 1;
    }
    let ghost d = digits_part(s@);
    proof {
        assert(d =~= s@.subrange(i as int, len as int));
    }
    if i == len {
        proof {
            assert(!all_dec_digits(d));
        }
        return default;
    }
    let mut acc: u64 = 0;
    let mut j = i;
    while j < len
        invariant
            i <= j <= len,
            len == s@.len(),
            d == digits_part(s@),
            d == s@.subrange(i as int, len as int),
            d.len() == len - i,
            forall|k: int| 0 <= k < j - i ==> is_dec_digit(d[k]),
            acc == dec_val_sp(d.take(j - i)),
        decreases len - j,
    {
        let c = s.get_char(j);
        let u = c as u32;
        proof {
            assert(d[j - i] == s@[j as int]);
        }
        if u < 0x30 || u > 0x39 {
            proof {
                assert(!is_dec_digit(d[j - i]));
            }
            return default;
        }
        let dv = (u - 0x30) as u64;
        proof {
            assert(d.take(j - i + 1).drop_last() =~= d.take(j - i));
            assert(d.take(j - i + 1).last() == d[j - i]);
        }
        if acc > (u64::MAX - dv) / 10 {
            proof {
                assert(acc * 10 + dv > u64::MAX) by (nonlinear_arith)
                    requires
                        acc > (u64::MAX - dv) / 10,
                        dv <= 9,
                ;
                if all_dec_digits(d) {
                    lemma_dec_val_mono(d, j - i + 1);
                }
            }
            return default;
        }
        proof {
            assert(acc * 10 + dv <= u64::MAX) by (nonlinear_arith)
                requires
                    acc <= (u64::MAX - dv) / 10,
                    dv <= 9,
            ;
        }
        acc = acc * 10 + dv;
        j += 1;
    }
    proof {
        assert(d.take(d.len() as int) =~= d);
    }
    acc
}

/// `str::parse::<usize>` with a fallback, as `parse_u64_or`.
pub fn parse_usize_or(s: &str, default: usize) -> (r: usize)
    ensures
        r == parse_usize_sp(s@, default),
{
    let len = s.unicode_len();
    let mut i: usize = 0;
    if len > 0 && s.get_char(0) == '+' {
        i = 1;
    }
    let ghost d = digits_part(s@);
    proof {
        assert(d =~= s@.subrange(i as int, len as int));
    }
    if i == len {
        proof {
            assert(!all_dec_digits(d));
        }
        return default;
    }
    let mut acc: usize = 0;
    let mut j = i;
    while j < len
        invariant
            i <= j <= len,
            len == s@.len(),
            d == digits_part(s@),
            d == s@.subrange(i as int, len as int),
            d.len() == len - i,
            forall|k: int| 0 <= k < j - i ==> is_dec_digit(d[k]),
            acc == dec_val_sp(d.take(j - i)),
        decreases len - j,
    {
        let c = s.get_char(j);
        let u = c as u32;
        proof {
            assert(d[j - i] == s@[j as int]);
        }
        if u < 0x30 || u > 0x39 {
            proof {
                assert(!is_dec_digit(d[j - i]));
            }
            return default;
        }
        let dv = (u - 0x30) as usize;
        proof {
            assert(d.take(j - i + 1).drop_last() =~= d.take(j - i));
            assert(d.take(j - i + 1).last() == d[j - i]);
        }
        if acc > (usize::MAX - dv) / 10 {
            proof {
                assert(acc * 10 + dv > usize::MAX) by (nonlinear_arith)
                    requires
                        acc > (usize::MAX - dv) / 10,
                        dv <= 9,
                ;
                if all_dec_digits(d) {
                    lemma_dec_val_mono(d, j - i + 1);
                }
            }
            return default;
        }
        proof {
            assert(acc * 10 + dv <= usize::MAX) by (nonlinear_arith)
                requires
                    acc <= (usize::MAX - dv) / 10,
                    dv <= 9,
            ;
        }
        acc = acc * 10 + dv;
        j += 1;
    }
    proof {
        assert(d.take(d.len() as int) =~= d);
    }
    acc
}

/// `str::parse::<bool>().unwrap_or_default()`: true exactly for `"true"`.
pub fn parse_bool_or_false(s: &str) -> (r: bool)
    ensures
        r == (s@ == "true"@),
{
    str_eq(s, "true")
}

} // verus!
