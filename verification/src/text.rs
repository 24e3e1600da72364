//! Character and string helpers: digit tables, decimal rendering,
//! lexicographic comparison, and conversions between `String` and `Vec<char>`.

use vstd::prelude::*;
use vstd::string::*;

verus! {

/// True for the ASCII characters drawn for random identifier suffixes.
pub open spec fn is_alnum_char(c: char) -> bool {
    ('a' <= c && c <= 'z') || ('A' <= c && c <= 'Z') || ('0' <= c && c <= '9')
}

/// True for an ASCII decimal digit.
pub open spec fn is_digit(c: char) -> bool {
    c == '0' || c == '1' || c == '2' || c == '3' || c == '4' || c == '5' || c == '6' || c == '7'
        || c == '8' || c == '9'
}

/// The digit character for a value between 0 and 9.
pub open spec fn digit_char(d: int) -> char {
    if d == 0 {
        '0'
    } else if d == 1 {
        '1'
    } else if d == 2 {
        '2'
    } else if d == 3 {
        '3'
    } else if d == 4 {
        '4'
    } else if d == 5 {
        '5'
    } else if d == 6 {
        '6'
    } else if d == 7 {
        '7'
    } else if d == 8 {
        '8'
    } else {
        '9'
    }
}

/// The numeric value of a digit character (0 for characters that are no digit).
pub open spec fn digit_val(c: char) -> int {
    if c == '1' {
        1
    } else if c == '2' {
        2
    } else if c == '3' {
        3
    } else if c == '4' {
        4
    } else if c == '5' {
        5
    } else if c == '6' {
        6
    } else if c == '7' {
        7
    } else if c == '8' {
        8
    } else if c == '9' {
        9
    } else {
        0
    }
}

pub proof fn lemma_digit_char_val(d: int)
    requires
        0 <= d <= 9,
    ensures
        is_digit(digit_char(d)),
        digit_val(digit_char(d)) == d,
        digit_char(d) != '_',
        digit_char(d) != '-',
{
}

pub fn digit_char_exec(d: u8) -> (c: char)
    requires
        d < 10,
    ensures
        c == digit_char(d as int),
{
    if d == 0 {
        '0'
    } else if d == 1 {
        '1'
    } else if d == 2 {
        '2'
    } else if d == 3 {
        '3'
    } else if d == 4 {
        '4'
    } else if d == 5 {
        '5'
    } else if d == 6 {
        '6'
    } else if d == 7 {
        '7'
    } else if d == 8 {
        '8'
    } else {
        '9'
    }
}

/// The digit value of `c`, or `None` when `c` is not a decimal digit.
pub fn digit_val_exec(c: char) -> (r: Option<u8>)
    ensures
        match r {
            Some(d) => is_digit(c) && d == digit_val(c) && d < 10,
            None => !is_digit(c),
        },
{
    if c == '0' {
        Some(0)
    } else if c == '1' {
        Some(1)
    } else if c == '2' {
        Some(2)
    } else if c == '3' {
        Some(3)
    } else if c == '4' {
        Some(4)
    } else if c == '5' {
        Some(5)
    } else if c == '6' {
        Some(6)
    } else if c == '7' {
        Some(7)
    } else if c == '8' {
        Some(8)
    } else if c == '9' {
        Some(9)
    } else {
        None
    }
}

/// The decimal rendering of a natural number, most significant digit first.
pub open spec fn spec_decimal(n: nat) -> Seq<char>
    decreases n,
{
    if n < 10 {
        seq![digit_char(n as int)]
    } else {
        spec_decimal(n / 10).push(digit_char((n % 10) as int))
    }
}

/// Renders `n` in decimal, as the sequence of its digit characters.
pub fn decimal_chars(n: u64) -> (v: Vec<char>)
    ensures
        v@ == spec_decimal(n as nat),
    decreases n,
{
    if n < 10 {
        let mut v: Vec<char> = Vec::new();
        v.push(digit_char_exec(n as u8));
        assert(v@ =~= spec_decimal(n as nat));
        v
    } else {
        let mut v = decimal_chars(n / 10);
        v.push(digit_char_exec((n % 10) as u8));
        assert(v@ =~= spec_decimal(n as nat));
        v
    }
}

/// A number rendered as exactly four decimal digits, zero padded.
pub open spec fn spec_pad4(n: int) -> Seq<char> {
    seq![
        digit_char(n / 1000 % 10),
        digit_char(n / 100 % 10),
        digit_char(n / 10 % 10),
        digit_char(n % 10),
    ]
}

/// A number rendered as exactly two decimal digits, zero padded.
pub open spec fn spec_pad2(n: int) -> Seq<char> {
    seq![digit_char(n / 10 % 10), digit_char(n % 10)]
}

/// The value of four digit characters read as a decimal number.
pub open spec fn spec_num4(s: Seq<char>) -> int {
    digit_val(s[0]) * 1000 + digit_val(s[1]) * 100 + digit_val(s[2]) * 10 + digit_val(s[3])
}

/// The value of two digit characters read as a decimal number.
pub open spec fn spec_num2(s: Seq<char>) -> int {
    digit_val(s[0]) * 10 + digit_val(s[1])
}

/// Reading a zero-padded four-digit rendering back gives the number.
pub proof fn lemma_pad4_roundtrip(n: int)
    requires
        0 <= n <= 9999,
    ensures
        spec_pad4(n).len() == 4,
        forall|i: int| 0 <= i < 4 ==> is_digit(#[trigger] spec_pad4(n)[i]),
        forall|i: int| 0 <= i < 4 ==> #[trigger] spec_pad4(n)[i] != '_' && spec_pad4(n)[i] != '-',
        spec_num4(spec_pad4(n)) == n,
{
    lemma_digit_char_val(n / 1000 % 10);
    lemma_digit_char_val(n / 100 % 10);
    lemma_digit_char_val(n / 10 % 10);
    lemma_digit_char_val(n % 10);
    assert(n / 1000 % 10 * 1000 + n / 100 % 10 * 100 + n / 10 % 10 * 10 + n % 10 == n) by (nonlinear_arith)
        requires
            0 <= n <= 9999,
    ;
    assert forall|i: int| 0 <= i < 4 implies is_digit(#[trigger] spec_pad4(n)[i]) by {
        if i == 0 {
        } else if i == 1 {
        } else if i == 2 {
        }
    }
}

/// Reading a zero-padded two-digit rendering back gives the number.
pub proof fn lemma_pad2_roundtrip(n: int)
    requires
        0 <= n <= 99,
    ensures
        spec_pad2(n).len() == 2,
        forall|i: int| 0 <= i < 2 ==> is_digit(#[trigger] spec_pad2(n)[i]),
        forall|i: int| 0 <= i < 2 ==> #[trigger] spec_pad2(n)[i] != '_' && spec_pad2(n)[i] != '-',
        spec_num2(spec_pad2(n)) == n,
{
    lemma_digit_char_val(n / 10 % 10);
    lemma_digit_char_val(n % 10);
    assert(n / 10 % 10 * 10 + n % 10 == n) by (nonlinear_arith)
        requires
            0 <= n <= 99,
    ;
}

/// Appends the four-digit zero-padded rendering of `n` to `out`.
pub fn push_pad4(out: &mut Vec<char>, n: u16)
    requires
        n <= 9999,
    ensures
        final(out)@ == old(out)@ + spec_pad4(n as int),
{
    out.push(digit_char_exec((n / 1000 % 10) as u8));
    out.push(digit_char_exec((n / 100 % 10) as u8));
    out.push(digit_char_exec((n / 10 % 10) as u8));
    out.push(digit_char_exec((n % 10) as u8));
    proof {
        assert(out@ =~= old(out)@ + spec_pad4(n as int));
    }
}

/// Appends the two-digit zero-padded rendering of `n` to `out`.
pub fn push_pad2(out: &mut Vec<char>, n: u8)
    requires
        n <= 99,
    ensures
        final(out)@ == old(out)@ + spec_pad2(n as int),
{
    out.push(digit_char_exec(n / 10 % 10));
    out.push(digit_char_exec(n % 10));
    proof {
        assert(out@ =~= old(out)@ + spec_pad2(n as int));
    }
}

/// Lexicographic order on character sequences, by Unicode scalar value;
/// a proper prefix comes before the longer sequence. This is the order
/// in which `str` compares.
pub open spec fn lex_leq(a: Seq<char>, b: Seq<char>) -> bool
    decreases a.len(),
{
    if a.len() == 0 {
        true
    } else if b.len() == 0 {
        false
    } else if a[0] != b[0] {
        a[0] < b[0]
    } else {
        lex_leq(a.drop_first(), b.drop_first())
    }
}

pub proof fn lemma_lex_leq_reflexive(a: Seq<char>)
    ensures
        lex_leq(a, a),
    decreases a.len(),
{
    if a.len() > 0 {
        lemma_lex_leq_reflexive(a.drop_first());
    }
}

pub proof fn lemma_lex_leq_antisymmetric(a: Seq<char>, b: Seq<char>)
    requires
        lex_leq(a, b),
        lex_leq(b, a),
    ensures
        a == b,
    decreases a.len(),
{
    if a.len() == 0 {
        assert(b.len() == 0);
        assert(a =~= b);
    } else {
        assert(b.len() > 0);
        assert(a[0] == b[0]);
        lemma_lex_leq_antisymmetric(a.drop_first(), b.drop_first());
        assert(a =~= seq![a[0]] + a.drop_first());
        assert(b =~= seq![b[0]] + b.drop_first());
    }
}

pub proof fn lemma_lex_leq_transitive(a: Seq<char>, b: Seq<char>, c: Seq<char>)
    requires
        lex_leq(a, b),
        lex_leq(b, c),
    ensures
        lex_leq(a, c),
    decreases a.len(),
{
    if a.len() > 0 && b.len() > 0 && c.len() > 0 && a[0] == b[0] && b[0] == c[0] {
        lemma_lex_leq_transitive(a.drop_first(), b.drop_first(), c.drop_first());
    }
}

pub proof fn lemma_lex_leq_connected(a: Seq<char>, b: Seq<char>)
    ensures
        lex_leq(a, b) || lex_leq(b, a),
    decreases a.len(),
{
    if a.len() > 0 && b.len() > 0 && a[0] == b[0] {
        lemma_lex_leq_connected(a.drop_first(), b.drop_first());
    }
}

/// A shared prefix does not decide the lexicographic order: it is the
/// order of what follows.
pub proof fn lemma_lex_common_prefix(p: Seq<char>, s1: Seq<char>, s2: Seq<char>)
    ensures
        lex_leq(p + s1, p + s2) == lex_leq(s1, s2),
        (p + s1 == p + s2) == (s1 == s2),
    decreases p.len(),
{
    assert(s1 =~= (p + s1).skip(p.len() as int));
    assert(s2 =~= (p + s2).skip(p.len() as int));
    if p.len() == 0 {
        assert(p + s1 =~= s1);
        assert(p + s2 =~= s2);
    } else {
        lemma_lex_common_prefix(p.drop_first(), s1, s2);
        assert((p + s1)[0] == p[0]);
        assert((p + s2)[0] == p[0]);
        assert((p + s1).drop_first() =~= p.drop_first() + s1);
        assert((p + s2).drop_first() =~= p.drop_first() + s2);
    }
}

/// A strict order between equally long sequences is decided before
/// their ends, so whatever follows cannot overturn it.
pub proof fn lemma_lex_strict_extends(a: Seq<char>, b: Seq<char>, x: Seq<char>, y: Seq<char>)
    requires
        a.len() == b.len(),
        lex_leq(a, b),
        a != b,
    ensures
        lex_leq(a + x, b + y),
        a + x != b + y,
    decreases a.len(),
{
    assert(a.len() > 0) by {
        if a.len() == 0 {
            assert(a =~= b);
        }
    }
    assert((a + x)[0] == a[0]);
    assert((b + y)[0] == b[0]);
    if a[0] == b[0] {
        assert(a.drop_first() != b.drop_first()) by {
            if a.drop_first() == b.drop_first() {
                assert(a =~= seq![a[0]] + a.drop_first());
                assert(b =~= seq![b[0]] + b.drop_first());
            }
        }
        lemma_lex_strict_extends(a.drop_first(), b.drop_first(), x, y);
        assert((a + x).drop_first() =~= a.drop_first() + x);
        assert((b + y).drop_first() =~= b.drop_first() + y);
        assert(a + x != b + y) by {
            if a + x == b + y {
                assert((a + x).drop_first() == (b + y).drop_first());
            }
        }
    }
}

/// Zero-padded two-digit renderings order as their values do; distinct
/// values render distinctly.
pub proof fn lemma_pad2_lt(m: int, n: int)
    requires
        0 <= m < n <= 99,
    ensures
        lex_leq(spec_pad2(m), spec_pad2(n)),
        spec_pad2(m) != spec_pad2(n),
{
    let a = spec_pad2(m);
    let b = spec_pad2(n);
    assert(m == m / 10 * 10 + m % 10) by (nonlinear_arith)
        requires
            0 <= m <= 99,
    ;
    assert(n == n / 10 * 10 + n % 10) by (nonlinear_arith)
        requires
            0 <= n <= 99,
    ;
    assert(m / 10 % 10 == m / 10 && n / 10 % 10 == n / 10) by (nonlinear_arith)
        requires
            0 <= m <= 99,
            0 <= n <= 99,
    ;
    if m / 10 < n / 10 {
        assert(a[0] != b[0] && a[0] < b[0]);
        assert(lex_leq(a, b));
    } else {
        assert(m / 10 == n / 10);
        assert(m % 10 < n % 10);
        assert(a[0] == b[0]);
        assert(a.drop_first() =~= seq![digit_char(m % 10)]);
        assert(b.drop_first() =~= seq![digit_char(n % 10)]);
        assert(a.drop_first()[0] < b.drop_first()[0]);
        assert(lex_leq(a.drop_first(), b.drop_first()));
        assert(a[1] != b[1]);
    }
}

/// Zero-padded four-digit renderings order as their values do; distinct
/// values render distinctly.
pub proof fn lemma_pad4_lt(m: int, n: int)
    requires
        0 <= m < n <= 9999,
    ensures
        lex_leq(spec_pad4(m), spec_pad4(n)),
        spec_pad4(m) != spec_pad4(n),
{
    let a = spec_pad4(m);
    let b = spec_pad4(n);
    assert(m / 1000 % 10 == m / 1000 && n / 1000 % 10 == n / 1000) by (nonlinear_arith)
        requires
            0 <= m <= 9999,
            0 <= n <= 9999,
    ;
    if m / 1000 < n / 1000 {
        assert(a[0] != b[0] && a[0] < b[0]);
        assert(lex_leq(a, b));
    } else {
        assert(m / 1000 == n / 1000) by (nonlinear_arith)
            requires
                0 <= m < n <= 9999,
                !(m / 1000 < n / 1000),
        ;
        assert(m % 1000 < n % 1000 && m / 100 % 10 == m % 1000 / 100 && n / 100 % 10 == n % 1000
            / 100 && m / 10 % 10 == m % 1000 / 10 % 10 && n / 10 % 10 == n % 1000 / 10 % 10 && m
            % 10 == m % 1000 % 10 && n % 10 == n % 1000 % 10) by (nonlinear_arith)
            requires
                0 <= m < n <= 9999,
                m / 1000 == n / 1000,
        ;
        lemma_pad2_lt_tail(m % 1000, n % 1000);
        let ta = seq![
            digit_char(m % 1000 / 100),
            digit_char(m % 1000 / 10 % 10),
            digit_char(m % 1000 % 10),
        ];
        let tb = seq![
            digit_char(n % 1000 / 100),
            digit_char(n % 1000 / 10 % 10),
            digit_char(n % 1000 % 10),
        ];
        assert(a[0] == b[0]);
        assert(a.drop_first() =~= ta);
        assert(b.drop_first() =~= tb);
        assert(lex_leq(a, b));
        assert(a != b) by {
            if a == b {
                assert(a[1] == b[1] && a[2] == b[2] && a[3] == b[3]);
            }
        }
    }
}

/// Three-digit helper for [`lemma_pad4_lt`]: the last three digits of a
/// zero-padded rendering order as their values do.
proof fn lemma_pad2_lt_tail(m: int, n: int)
    requires
        0 <= m < n <= 999,
    ensures
        lex_leq(
            seq![digit_char(m / 100), digit_char(m / 10 % 10), digit_char(m % 10)],
            seq![digit_char(n / 100), digit_char(n / 10 % 10), digit_char(n % 10)],
        ),
        seq![digit_char(m / 100), digit_char(m / 10 % 10), digit_char(m % 10)]
            != seq![digit_char(n / 100), digit_char(n / 10 % 10), digit_char(n % 10)],
{
    let a = seq![digit_char(m / 100), digit_char(m / 10 % 10), digit_char(m % 10)];
    let b = seq![digit_char(n / 100), digit_char(n / 10 % 10), digit_char(n % 10)];
    if m / 100 < n / 100 {
        assert(a[0] != b[0] && a[0] < b[0]);
        assert(lex_leq(a, b));
    } else {
        assert(m / 100 == n / 100 && m % 100 < n % 100 && m / 10 % 10 == m % 100 / 10 && n / 10
            % 10 == n % 100 / 10 && m % 10 == m % 100 % 10 && n % 10 == n % 100
            % 10) by (nonlinear_arith)
            requires
                0 <= m < n <= 999,
                !(m / 100 < n / 100),
        ;
        lemma_pad2_lt(m % 100, n % 100);
        assert(a[0] == b[0]);
        assert(a.drop_first() =~= spec_pad2(m % 100));
        assert(b.drop_first() =~= spec_pad2(n % 100));
        assert(lex_leq(a, b));
        assert(a != b) by {
            if a == b {
                assert(a[1] == b[1] && a[2] == b[2]);
                assert(spec_pad2(m % 100) =~= spec_pad2(n % 100));
            }
        }
    }
}

/// Compares two strings in the lexicographic order of their characters.
pub fn str_leq(a: &str, b: &str) -> (r: bool)
    ensures
        r == lex_leq(a@, b@),
{
    let alen = a.unicode_len();
    let blen = b.unicode_len();
    let mut i: usize = 0;
    proof {
        assert(a@.skip(0) =~= a@);
        assert(b@.skip(0) =~= b@);
    }
    loop
        invariant
            i <= alen,
            i <= blen,
            alen == a@.len(),
            blen == b@.len(),
            lex_leq(a@, b@) == lex_leq(a@.skip(i as int), b@.skip(i as int)),
        decreases alen - i,
    {
        if i >= alen {
            return true;
        }
        if i >= blen {
            return false;
        }
        let ca = a.get_char(i);
        let cb = b.get_char(i);
        if ca != cb {
            return ca < cb;
        }
        proof {
            assert(a@.skip(i as int).drop_first() =~= a@.skip(i + 1));
            assert(b@.skip(i as int).drop_first() =~= b@.skip(i + 1));
        }
        i = i + 1;
    }
}

/// The characters of a string, in order.
pub fn chars_of(s: &str) -> (v: Vec<char>)
    ensures
        v@ == s@,
{
    let n = s.unicode_len();
    let mut v: Vec<char> = Vec::new();
    let mut i: usize = 0;
    while i < n
        invariant
            i <= n,
            n == s@.len(),
            v@ == s@.take(i as int),
        decreases n - i,
    {
        let c = s.get_char(i);
        v.push(c);
        proof {
            assert(v@ =~= s@.take(i + 1));
        }
        i = i + 1;
    }
    proof {
        assert(s@.take(n as int) =~= s@);
    }
    v
}

/// Relies on `String::push`: appends the given character to the end of the string.
#[verifier::external_body]
fn push_char(s: &mut String, c: char)
    ensures
        final(s)@ == old(s)@.push(c),
{
    s.push(c);
}

/// The string holding exactly the given characters.
pub fn string_of_chars(v: &Vec<char>) -> (s: String)
    ensures
        s@ == v@,
{
    let mut s = String::new();
    let mut i: usize = 0;
    while i < v.len()
        invariant
            i <= v@.len(),
            s@ == v@.take(i as int),
        decreases v@.len() - i,
    {
        let ghost prev = s@;
        push_char(&mut s, v[i]);
        proof {
            assert(prev.push(v@[i as int]) =~= v@.take(i + 1));
        }
        i = i + 1;
    }
    proof {
        assert(v@.take(v@.len() as int) =~= v@);
    }
    s
}

/// True when the two strings hold the same characters.
pub fn str_eq(a: &str, b: &str) -> (r: bool)
    ensures
        r == (a@ == b@),
{
    let n = a.unicode_len();
    if b.unicode_len() != n {
        proof {
            assert(a@ != b@);
        }
        return false;
    }
    let mut i: usize = 0;
    while i < n
        invariant
            i <= n,
            n == a@.len(),
            n == b@.len(),
            forall|j: int| 0 <= j < i ==> a@[j] == b@[j],
        decreases n - i,
    {
        if a.get_char(i) != b.get_char(i) {
            proof {
                assert(a@ != b@);
            }
            return false;
        }
        i = i + 1;
    }
    proof {
        assert(a@ =~= b@);
    }
    true
}

/// Appends all characters of `src` to `out`.
pub fn push_chars(out: &mut Vec<char>, src: &Vec<char>)
    ensures
        final(out)@ == old(out)@ + src@,
{
    let mut i: usize = 0;
    proof {
        assert(old(out)@ + src@.take(0) =~= old(out)@);
    }
    while i < src.len()
        invariant
            i <= src@.len(),
            out@ == old(out)@ + src@.take(i as int),
        decreases src@.len() - i,
    {
        out.push(src[i]);
        proof {
            assert(out@ =~= old(out)@ + src@.take(i + 1));
        }
        i = i + 1;
    }
    proof {
        assert(old(out)@ + src@.take(src@.len() as int) =~= old(out)@ + src@);
    }
}

/// True when the vector holds exactly the characters of `s`.
pub fn chars_eq_str(v: &Vec<char>, s: &str) -> (r: bool)
    ensures
        r == (v@ == s@),
{
    let n = s.unicode_len();
    if v.len() != n {
        proof {
            assert(v@ != s@);
        }
        return false;
    }
    let mut i: usize = 0;
    while i < n
        invariant
            i <= n,
            n == s@.len(),
            n == v@.len(),
            forall|j: int| 0 <= j < i ==> v@[j] == s@[j],
        decreases n - i,
    {
        if v[i] != s.get_char(i) {
            proof {
                assert(v@ != s@);
            }
            return false;
        }
        i = i + 1;
    }
    proof {
        assert(v@ =~= s@);
    }
    true
}

} // verus!
