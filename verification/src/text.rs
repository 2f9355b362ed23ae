use vstd::prelude::*;
use vstd::string::*;

verus! {

/// The character that writes the digit `d` (below 16) in lower-case hexadecimal.
pub open spec fn digit_char(d: nat) -> char {
    if d == 0 { '0' } else if d == 1 { '1' } else if d == 2 { '2' } else if d == 3 { '3' }
    else if d == 4 { '4' } else if d == 5 { '5' } else if d == 6 { '6' } else if d == 7 { '7' }
    else if d == 8 { '8' } else if d == 9 { '9' } else if d == 10 { 'a' } else if d == 11 { 'b' }
    else if d == 12 { 'c' } else if d == 13 { 'd' } else if d == 14 { 'e' } else { 'f' }
}

/// The digits of `n` in base `radix`, most significant first, without leading zeros
/// (zero is written as one digit).
pub open spec fn digits(n: nat, radix: nat) -> Seq<char>
    recommends
        2 <= radix <= 16,
    decreases n,
{
    if radix < 2 || n < radix {
        seq![digit_char(n % 16)]
    } else {
        proof {
            vstd::arithmetic::div_mod::lemma_div_decreases(n as int, radix as int);
        }
        digits(n / radix, radix).push(digit_char(n % radix))
    }
}

/// `n` written in decimal, as `format!("{}", n)` writes it.
pub open spec fn decimal(n: nat) -> Seq<char> {
    digits(n, 10)
}

/// `n` written as `format!("{:#04x}", n)` writes it: `0x`, then at least two
/// lower-case hexadecimal digits.
pub open spec fn hex_prefixed(n: nat) -> Seq<char> {
    let d = digits(n, 16);
    if d.len() < 2 { seq!['0', 'x', '0'] + d } else { seq!['0', 'x'] + d }
}

/// Appends one character to a string (`String::push`).
#[verifier::external_body]
pub(crate) fn push_char(s: &mut String, c: char)
    ensures
        final(s)@ == old(s)@.push(c),
{
    s.push(c);
}

fn digit_to_char(d: u64) -> (c: char)
    requires
        d < 16,
    ensures
        c == digit_char(d as nat),
{
    if d == 0 { '0' } else if d == 1 { '1' } else if d == 2 { '2' } else if d == 3 { '3' }
    else if d == 4 { '4' } else if d == 5 { '5' } else if d == 6 { '6' } else if d == 7 { '7' }
    else if d == 8 { '8' } else if d == 9 { '9' } else if d == 10 { 'a' } else if d == 11 { 'b' }
    else if d == 12 { 'c' } else if d == 13 { 'd' } else if d == 14 { 'e' } else { 'f' }
}

/// Appends the digits of `n` in base `radix` to `out`.
pub fn push_digits(out: &mut String, n: u64, radix: u64)
    requires
        2 <= radix <= 16,
    ensures
        final(out)@ == old(out)@ + digits(n as nat, radix as nat),
    decreases n,
{
    if n < radix {
        push_char(out, digit_to_char(n));
        assert(digits(n as nat, radix as nat) == seq![digit_char(n as nat % 16)]);
        assert(old(out)@.push(digit_char(n as nat)) =~= old(out)@ + seq![digit_char(n as nat)]);
    } else {
        proof {
            vstd::arithmetic::div_mod::lemma_div_decreases(n as int, radix as int);
        }
        push_digits(out, n / radix, radix);
        push_char(out, digit_to_char(n % radix));
        let ghost pre = digits((n / radix) as nat, radix as nat);
        assert(digits(n as nat, radix as nat) == pre.push(digit_char((n % radix) as nat)));
        assert((old(out)@ + pre).push(digit_char((n % radix) as nat))
            =~= old(out)@ + pre.push(digit_char((n % radix) as nat)));
    }
}

/// Writes `n` in decimal.
pub fn decimal_string(n: u64) -> (s: String)
    ensures
        s@ == decimal(n as nat),
{
    let mut s = String::new();
    push_digits(&mut s, n, 10);
    assert(s@ =~= decimal(n as nat));
    s
}

/// Appends `n` in decimal to `out`.
pub fn push_decimal(out: &mut String, n: u64)
    ensures
        final(out)@ == old(out)@ + decimal(n as nat),
{
    push_digits(out, n, 10);
}


/// Copies the characters of a string into a vector.
pub fn chars_of(s: &str) -> (v: Vec<char>)
    ensures
        v@ == s@,
{
    let n = s.unicode_len();
    let mut v: Vec<char> = Vec::new();
    let mut i: usize = 0;
    while i < n
        invariant
            i <= n,
            n == s@.len(),
            v@ == s@.subrange(0, i as int),
        decreases n - i,
    {
        v.push(s.get_char(i));
        i = i + 1;
        assert(v@ =~= s@.subrange(0, i as int));
    }
    assert(v@ =~= s@);
    v
}

/// Separates identifiers in a list: white space and commas.
pub open spec fn is_ident_separator(c: char) -> bool {
    c == ' ' || c == '\t' || c == '\n' || c == '\r' || c == ','
}

/// The identifiers of `s` from position `i` on, where `cur` holds the
/// characters of the identifier being read: the maximal runs of characters
/// that are not separators, in order.
pub open spec fn idents_from(s: Seq<char>, i: int, cur: Seq<char>) -> Seq<Seq<char>>
    decreases s.len() - i,
{
    if i < 0 || i >= s.len() {
        if cur.len() > 0 { seq![cur] } else { Seq::empty() }
    } else if is_ident_separator(s[i]) {
        (if cur.len() > 0 { seq![cur] } else { Seq::empty() }) + idents_from(s, i + 1, Seq::empty())
    } else {
        idents_from(s, i + 1, cur.push(s[i]))
    }
}

/// The identifiers listed in `s`, such as `step_one, step_two`.
pub open spec fn idents(s: Seq<char>) -> Seq<Seq<char>> {
    idents_from(s, 0, Seq::empty())
}

pub open spec fn strings_view(v: Seq<String>) -> Seq<Seq<char>> {
    v.map_values(|x: String| x@)
}

/// Makes a string of characters.
pub fn string_from_chars(cs: &Vec<char>) -> (s: String)
    ensures
        s@ == cs@,
{
    let mut s = String::new();
    let mut i: usize = 0;
    while i < cs.len()
        invariant
            i <= cs@.len(),
            s@ == cs@.subrange(0, i as int),
        decreases cs@.len() - i,
    {
        push_char(&mut s, cs[i]);
        i = i + 1;
        assert(s@ =~= cs@.subrange(0, i as int));
    }
    assert(s@ =~= cs@);
    s
}

/// Splits a list of identifiers, separated by white space or commas.
pub fn parse_idents(s: &str) -> (out: Vec<String>)
    ensures
        strings_view(out@) == idents(s@),
{
    let cs = chars_of(s);
    let mut out: Vec<String> = Vec::new();
    let mut cur: Vec<char> = Vec::new();
    let mut i: usize = 0;
    while i < cs.len()
        invariant
            i <= cs@.len(),
            cs@ == s@,
            strings_view(out@) + idents_from(cs@, i as int, cur@) == idents(s@),
        decreases cs@.len() - i,
    {
        let c = cs[i];
        if c == ' ' || c == '\t' || c == '\n' || c == '\r' || c == ',' {
            if cur.len() > 0 {
                let word = string_from_chars(&cur);
                let ghost before = out@;
                out.push(word);
                assert(strings_view(out@) =~= strings_view(before).push(cur@));
                assert(strings_view(out@) + idents_from(cs@, i + 1, Seq::empty())
                    =~= strings_view(before) + (seq![cur@] + idents_from(cs@, i + 1, Seq::empty())));
            } else {
                assert(strings_view(out@) + idents_from(cs@, i + 1, Seq::empty())
                    =~= strings_view(out@) + (Seq::<Seq<char>>::empty() + idents_from(cs@, i + 1, Seq::empty())));
            }
            cur = Vec::new();
            assert(cur@ =~= Seq::<char>::empty());
        } else {
            cur.push(c);
        }
        i = i + 1;
    }
    if cur.len() > 0 {
        let word = string_from_chars(&cur);
        let ghost before = out@;
        out.push(word);
        assert(strings_view(out@) =~= strings_view(before).push(cur@));
        assert(strings_view(out@) =~= strings_view(before) + seq![cur@]);
    } else {
        assert(strings_view(out@) =~= strings_view(out@) + Seq::<Seq<char>>::empty());
    }
    out
}

/// The number that decimal digits write.
pub open spec fn digits_value(ds: Seq<char>) -> nat
    decreases ds.len(),
{
    if ds.len() == 0 {
        0
    } else {
        digits_value(ds.drop_last()) * 10 + digit_value(ds.last())
    }
}

pub open spec fn is_digit(c: char) -> bool {
    '0' <= c && c <= '9'
}

pub open spec fn digit_value(c: char) -> nat {
    (c as int - '0' as int) as nat
}

/// The digits of `s` after an optional leading `+`.
pub open spec fn unsigned_digits(s: Seq<char>) -> Seq<char> {
    if s.len() > 0 && s[0] == '+' { s.drop_first() } else { s }
}

/// `s` reads as an unsigned number, as `str::parse::<usize>` reads one: an
/// optional `+`, then one or more decimal digits whose value fits in `usize`.
pub open spec fn reads_as_usize(s: Seq<char>) -> bool {
    let ds = unsigned_digits(s);
    &&& ds.len() > 0
    &&& forall|i: int| 0 <= i < ds.len() ==> is_digit(#[trigger] ds[i])
    &&& digits_value(ds) <= usize::MAX
}

proof fn lemma_digits_value_monotone(ds: Seq<char>, k: int)
    requires
        0 <= k <= ds.len(),
        forall|i: int| 0 <= i < ds.len() ==> is_digit(#[trigger] ds[i]),
    ensures
        digits_value(ds.subrange(0, k)) <= digits_value(ds),
    decreases ds.len() - k,
{
    if k < ds.len() {
        lemma_digits_value_monotone(ds, k + 1);
        assert(ds.subrange(0, k + 1).drop_last() =~= ds.subrange(0, k));
    } else {
        assert(ds.subrange(0, k) =~= ds);
    }
}

/// Reads an unsigned number, as `str::parse::<usize>` does.
pub fn parse_usize(s: &str) -> (r: Option<usize>)
    ensures
        r is Some <==> reads_as_usize(s@),
        r matches Some(n) ==> n == digits_value(unsigned_digits(s@)),
{
    let cs = chars_of(s);
    let mut i: usize = 0;
    if cs.len() > 0 && cs[0] == '+' {
        i = 1;
    }
    let ghost ds = unsigned_digits(s@);
    assert(ds =~= cs@.subrange(i as int, cs@.len() as int));
    if i >= cs.len() {
        return None;
    }
    let start = i;
    let mut value: usize = 0;
    while i < cs.len()
        invariant
            start <= i <= cs@.len(),
            start < cs@.len(),
            cs@ == s@,
            ds == unsigned_digits(s@),
            ds == cs@.subrange(start as int, cs@.len() as int),
            forall|j: int| 0 <= j < i - start ==> is_digit(#[trigger] ds[j]),
            value == digits_value(ds.subrange(0, i - start)),
        decreases cs@.len() - i,
    {
        let c = cs[i];
        if !('0' <= c && c <= '9') {
            assert(!is_digit(ds[i - start]));
            return None;
        }
        let d: usize = (c as u32 - '0' as u32) as usize;
        assert(ds.subrange(0, i - start + 1).drop_last() =~= ds.subrange(0, i - start));
        if value > (usize::MAX - d) / 10 {
            proof {
                assert(forall|j: int| 0 <= j < i - start + 1 ==> is_digit(#[trigger] ds[j]));
                let pre = ds.subrange(0, i - start + 1);
                assert(digits_value(pre) == value * 10 + d);
                assert(value * 10 + d > usize::MAX) by (nonlinear_arith)
                    requires
                        value > (usize::MAX - d) / 10,
                        d <= 9,
                ;
                if forall|j: int| 0 <= j < ds.len() ==> is_digit(#[trigger] ds[j]) {
                    lemma_digits_value_monotone(ds, i - start + 1);
                }
            }
            return None;
        }
        value = value * 10 + d;
        i = i + 1;
    }
    assert(ds.subrange(0, i - start) =~= ds);
    Some(value)
}


/// Compares two texts.
pub fn same_text(a: &str, b: &str) -> (r: bool)
    ensures
        r == (a@ == b@),
{
    a.to_owned() == b.to_owned()
}


proof fn lemma_digits_len(n: nat, radix: nat)
    requires
        2 <= radix <= 16,
    ensures
        digits(n, radix).len() >= 1,
        n >= radix ==> digits(n, radix).len() >= 2,
    decreases n,
{
    if n >= radix {
        vstd::arithmetic::div_mod::lemma_div_decreases(n as int, radix as int);
        lemma_digits_len(n / radix, radix);
    }
}

/// Appends `n` as `format!("{:#04x}", n)` writes it.
pub fn push_hex_prefixed(out: &mut String, n: u64)
    ensures
        final(out)@ == old(out)@ + hex_prefixed(n as nat),
{
    proof {
        lemma_digits_len(n as nat, 16);
    }
    push_char(out, '0');
    push_char(out, 'x');
    if n < 16 {
        push_char(out, '0');
    }
    let ghost mid = out@;
    push_digits(out, n, 16);
    let ghost d = digits(n as nat, 16);
    if n < 16 {
        assert(mid =~= old(out)@ + seq!['0', 'x', '0']);
        assert(out@ =~= old(out)@ + (seq!['0', 'x', '0'] + d));
    } else {
        assert(mid =~= old(out)@ + seq!['0', 'x']);
        assert(out@ =~= old(out)@ + (seq!['0', 'x'] + d));
    }
}

/// Returns what follows `prefix` in `s`, when `s` starts with `prefix`.
pub fn strip_prefix(s: &str, prefix: &str) -> (r: Option<String>)
    ensures
        r is Some <==> prefix@.is_prefix_of(s@),
        r matches Some(t) ==> t@ == s@.skip(prefix@.len() as int),
{
    let cs = chars_of(s);
    let ps = chars_of(prefix);
    if ps.len() > cs.len() {
        return None;
    }
    let mut i: usize = 0;
    while i < ps.len()
        invariant
            i <= ps@.len() <= cs@.len(),
            cs@ == s@,
            ps@ == prefix@,
            forall|j: int| 0 <= j < i ==> #[trigger] ps@[j] == cs@[j],
        decreases ps@.len() - i,
    {
        if ps[i] != cs[i] {
            assert(!prefix@.is_prefix_of(s@)) by {
                assert(prefix@[i as int] != s@[i as int]);
            }
            return None;
        }
        i = i + 1;
    }
    assert(prefix@.is_prefix_of(s@)) by {
        assert(s@.subrange(0, prefix@.len() as int) =~= prefix@);
    }
    let mut rest: Vec<char> = Vec::new();
    let mut k: usize = ps.len();
    while k < cs.len()
        invariant
            ps@.len() <= k <= cs@.len(),
            cs@ == s@,
            ps@ == prefix@,
            rest@ =~= s@.subrange(prefix@.len() as int, k as int),
        decreases cs@.len() - k,
    {
        rest.push(cs[k]);
        k = k + 1;
    }
    assert(rest@ =~= s@.skip(prefix@.len() as int));
    Some(string_from_chars(&rest))
}

/// `s` without its first line: what follows the first `\n`, or `s` itself
/// when it has none.
pub open spec fn after_first_line(s: Seq<char>) -> Seq<char> {
    if s.contains('\n') {
        s.skip(s.index_of_first('\n').unwrap() + 1)
    } else {
        s
    }
}

/// Returns `s` without its first line.
pub fn drop_first_line(s: &str) -> (r: String)
    ensures
        r@ == after_first_line(s@),
{
    let cs = chars_of(s);
    let mut i: usize = 0;
    while i < cs.len()
        invariant
            i <= cs@.len(),
            cs@ == s@,
            forall|j: int| 0 <= j < i ==> #[trigger] cs@[j] != '\n',
        decreases cs@.len() - i,
    {
        if cs[i] == '\n' {
            proof {
                let f = s@.index_of_first('\n');
                s@.index_of_first_ensures('\n');
                assert(s@.contains('\n'));
                assert(f == Some(i as int));
            }
            let mut rest: Vec<char> = Vec::new();
            let mut k: usize = i + 1;
            while k < cs.len()
                invariant
                    i + 1 <= k <= cs@.len(),
                    cs@ == s@,
                    rest@ =~= s@.subrange(i + 1, k as int),
                decreases cs@.len() - k,
            {
                rest.push(cs[k]);
                k = k + 1;
            }
            assert(rest@ =~= s@.skip(i + 1));
            return string_from_chars(&rest);
        }
        i = i + 1;
    }
    assert(!s@.contains('\n'));
    s.to_owned()
}

/// `n` written in decimal, with a leading `-` when it is negative.
pub open spec fn signed_decimal(n: int) -> Seq<char> {
    if n < 0 { seq!['-'] + decimal((-n) as nat) } else { decimal(n as nat) }
}

/// Appends `n` in decimal, with its sign, to `out`.
pub fn push_signed_decimal(out: &mut String, n: i64)
    ensures
        final(out)@ == old(out)@ + signed_decimal(n as int),
{
    if n < 0 {
        push_char(out, '-');
        let magnitude: u64 = ((-(n + 1)) as u64) + 1;
        let ghost mid = out@;
        push_decimal(out, magnitude);
        assert(out@ =~= old(out)@ + (seq!['-'] + decimal((-n) as nat)));
    } else {
        push_decimal(out, n as u64);
    }
}

} // verus!
