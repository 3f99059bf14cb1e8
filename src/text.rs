use vstd::prelude::*;

verus! {

/// Whether `n` stands in `h` starting at position `i`.
pub open spec fn occurs_at(h: Seq<char>, n: Seq<char>, i: int) -> bool {
    0 <= i && i + n.len() <= h.len() && h.subrange(i, i + n.len()) == n
}

/// Whether `n` is a contiguous piece of `h` (the empty text is a piece of every text).
pub open spec fn contains(h: Seq<char>, n: Seq<char>) -> bool {
    exists|i: int| occurs_at(h, n, i)
}

/// The characters of the lower-case form of a text, as Unicode defines it.
pub uninterp spec fn lower_of(s: Seq<char>) -> Seq<char>;

/// Whether a character is alphabetic or numeric, as Unicode defines it.
pub uninterp spec fn alphanumeric(c: char) -> bool;

/// Whether a character is white space: the characters of Unicode's
/// White_Space property.
pub open spec fn is_white_space(c: char) -> bool {
    ||| '\u{9}' <= c <= '\u{d}'
    ||| c == ' ' || c == '\u{85}' || c == '\u{a0}' || c == '\u{1680}'
    ||| '\u{2000}' <= c <= '\u{200a}'
    ||| c == '\u{2028}' || c == '\u{2029}' || c == '\u{202f}' || c == '\u{205f}' || c == '\u{3000}'
}

/// A text without its leading white space.
pub open spec fn trim_start(s: Seq<char>) -> Seq<char>
    decreases s.len(),
{
    if s.len() > 0 && is_white_space(s[0]) {
        trim_start(s.drop_first())
    } else {
        s
    }
}

/// A text without its trailing white space.
pub open spec fn trim_end(s: Seq<char>) -> Seq<char>
    decreases s.len(),
{
    if s.len() > 0 && is_white_space(s.last()) {
        trim_end(s.drop_last())
    } else {
        s
    }
}

/// A text without its leading and trailing white space.
pub open spec fn trimmed(s: Seq<char>) -> Seq<char> {
    trim_end(trim_start(s))
}

/// A word character: alphanumeric, or the underscore.
pub open spec fn is_word_char(c: char) -> bool {
    alphanumeric(c) || c == '_'
}

/// The digit that stands for `d` (below 16), in lower case.
pub open spec fn digit_char(d: nat) -> char {
    seq!['0', '1', '2', '3', '4', '5', '6', '7', '8', '9', 'a', 'b', 'c', 'd', 'e', 'f'][d as int]
}

/// `n` written in base `b`, most significant digit first, without leading zeros.
pub open spec fn radix_of(n: nat, b: nat) -> Seq<char>
    decreases n,
    via radix_of_decreases
{
    if b < 2 || n < b {
        seq![digit_char(n)]
    } else {
        radix_of(n / b, b).push(digit_char(n % b))
    }
}

#[via_fn]
proof fn radix_of_decreases(n: nat, b: nat) {
    if !(b < 2 || n < b) {
        assert(n / b < n) by (nonlinear_arith)
            requires
                n >= b,
                b >= 2,
        ;
    }
}

/// `n` in decimal.
pub open spec fn decimal_of(n: nat) -> Seq<char> {
    radix_of(n, 10)
}

/// Relies on str::to_lowercase: the lower-case form depends on the characters alone.
#[verifier::external_body]
pub(crate) fn lowercase(s: &str) -> (r: String)
    ensures
        r@ == lower_of(s@),
{
    s.to_lowercase()
}

/// Relies on char::is_alphanumeric: the answer depends on the character alone.
#[verifier::external_body]
fn char_is_alphanumeric(c: char) -> (r: bool)
    ensures
        r == alphanumeric(c),
{
    c.is_alphanumeric()
}

/// Whether `c` is white space.
pub fn white_space(c: char) -> (r: bool)
    ensures
        r == is_white_space(c),
{
    ('\u{9}' <= c && c <= '\u{d}') || c == ' ' || c == '\u{85}' || c == '\u{a0}' || c == '\u{1680}' || (
    '\u{2000}' <= c && c <= '\u{200a}') || c == '\u{2028}' || c == '\u{2029}' || c == '\u{202f}' || c
        == '\u{205f}' || c == '\u{3000}'
}

/// `s` without its leading and trailing white space.
pub fn trim(s: &str) -> (r: String)
    ensures
        r@ == trimmed(s@),
{
    let n = s.unicode_len();
    let mut a: usize = 0;
    assert(s@.subrange(0, n as int) =~= s@);
    while a < n && white_space(s.get_char(a))
        invariant
            n == s@.len(),
            a <= n,
            trim_start(s@) == trim_start(s@.subrange(a as int, n as int)),
        decreases n - a,
    {
        assert(s@.subrange(a as int, n as int).drop_first() =~= s@.subrange(a + 1, n as int));
        a = a + 1;
    }
    let mut b: usize = n;
    assert(s@.subrange(a as int, n as int)[0] == s@[a as int] || a == n);
    assert(trim_start(s@) == s@.subrange(a as int, n as int));
    while b > a && white_space(s.get_char(b - 1))
        invariant
            n == s@.len(),
            a <= b <= n,
            trim_end(s@.subrange(a as int, n as int)) == trim_end(s@.subrange(a as int, b as int)),
        decreases b - a,
    {
        assert(s@.subrange(a as int, b as int).drop_last() =~= s@.subrange(a as int, b - 1));
        b = b - 1;
    }
    assert(trim_end(s@.subrange(a as int, b as int)) == s@.subrange(a as int, b as int));
    String::from_str(s.substring_char(a, b))
}

/// Whether `c` may stand inside a word of a query.
pub fn word_char(c: char) -> (r: bool)
    ensures
        r == is_word_char(c),
{
    char_is_alphanumeric(c) || c == '_'
}

/// Whether two texts hold the same characters.
pub fn same_text(a: &str, b: &str) -> (r: bool)
    ensures
        r == (a@ == b@),
{
    let n = a.unicode_len();
    if n != b.unicode_len() {
        return false;
    }
    let mut i: usize = 0;
    while i < n
        invariant
            n == a@.len(),
            n == b@.len(),
            i <= n,
            forall|k: int| 0 <= k < i ==> a@[k] == b@[k],
        decreases n - i,
    {
        if a.get_char(i) != b.get_char(i) {
            return false;
        }
        i = i + 1;
    }
    assert(a@ =~= b@);
    true
}

/// Whether `needle` stands somewhere in `hay`.
pub fn contains_text(hay: &str, needle: &str) -> (r: bool)
    ensures
        r == contains(hay@, needle@),
{
    let h = hay.unicode_len();
    let n = needle.unicode_len();
    if n > h {
        assert forall|i: int| !occurs_at(hay@, needle@, i) by {}
        return false;
    }
    if n == 0 {
        assert(hay@.subrange(0, 0) =~= needle@);
        assert(occurs_at(hay@, needle@, 0));
        return true;
    }
    let mut i: usize = 0;
    while i <= h - n
        invariant
            h == hay@.len(),
            n == needle@.len(),
            0 < n <= h,
            i <= h - n + 1,
            forall|k: int| 0 <= k < i ==> !occurs_at(hay@, needle@, k),
        decreases h - n + 1 - i,
    {
        let mut j: usize = 0;
        let mut matched = true;
        while j < n
            invariant
                h == hay@.len(),
                n == needle@.len(),
                i + n <= h,
                j <= n,
                matched ==> forall|k: int| 0 <= k < j ==> hay@[i + k] == needle@[k],
                !matched ==> !occurs_at(hay@, needle@, i as int),
            decreases n - j,
        {
            if matched && hay.get_char(i + j) != needle.get_char(j) {
                assert(hay@.subrange(i as int, i + n)[j as int] != needle@[j as int]);
                matched = false;
            }
            j = j + 1;
        }
        if matched {
            assert(hay@.subrange(i as int, i + n) =~= needle@);
            assert(occurs_at(hay@, needle@, i as int));
            return true;
        }
        i = i + 1;
    }
    assert forall|k: int| !occurs_at(hay@, needle@, k) by {
        if 0 <= k < i {
        }
    }
    false
}

/// The one-character text of the digit that stands for `d`.
fn digit_text(d: u128) -> (r: &'static str)
    requires
        d < 16,
    ensures
        r@ == seq![digit_char(d as nat)],
{
    let digits = "0123456789abcdef";
    proof {
        reveal_strlit("0123456789abcdef");
    }
    let r = digits.substring_char(d as usize, d as usize + 1);
    assert(r@ =~= seq![digit_char(d as nat)]);
    r
}

/// `n` written in base `base`, lower-case digits, most significant first.
pub fn radix_text(n: u128, base: u128) -> (r: String)
    requires
        2 <= base <= 16,
    ensures
        r@ == radix_of(n as nat, base as nat),
    decreases n,
{
    if n < base {
        String::from_str(digit_text(n))
    } else {
        assert(n / base < n) by (nonlinear_arith)
            requires
                n >= base,
                base >= 2,
        ;
        let mut s = radix_text(n / base, base);
        s.append(digit_text(n % base));
        s
    }
}

/// `n` in decimal.
pub fn decimal_text(n: u64) -> (r: String)
    ensures
        r@ == decimal_of(n as nat),
{
    radix_text(n as u128, 10)
}


/// The number that a lower-case hexadecimal digit stands for; 16 for any
/// other character.
pub open spec fn digit_value(c: char) -> nat {
    if c == '0' {
        0
    } else if c == '1' {
        1
    } else if c == '2' {
        2
    } else if c == '3' {
        3
    } else if c == '4' {
        4
    } else if c == '5' {
        5
    } else if c == '6' {
        6
    } else if c == '7' {
        7
    } else if c == '8' {
        8
    } else if c == '9' {
        9
    } else if c == 'a' {
        10
    } else if c == 'b' {
        11
    } else if c == 'c' {
        12
    } else if c == 'd' {
        13
    } else if c == 'e' {
        14
    } else if c == 'f' {
        15
    } else {
        16
    }
}

proof fn lemma_digit_char(k: nat)
    requires
        k < 16,
    ensures
        digit_value(digit_char(k)) == k,
        digit_char(k) != '-',
{
    if k == 0 {
        assert(digit_char(0) == '0');
    } else if k == 1 {
        assert(digit_char(1) == '1');
    } else if k == 2 {
        assert(digit_char(2) == '2');
    } else if k == 3 {
        assert(digit_char(3) == '3');
    } else if k == 4 {
        assert(digit_char(4) == '4');
    } else if k == 5 {
        assert(digit_char(5) == '5');
    } else if k == 6 {
        assert(digit_char(6) == '6');
    } else if k == 7 {
        assert(digit_char(7) == '7');
    } else if k == 8 {
        assert(digit_char(8) == '8');
    } else if k == 9 {
        assert(digit_char(9) == '9');
    } else if k == 10 {
        assert(digit_char(10) == 'a');
    } else if k == 11 {
        assert(digit_char(11) == 'b');
    } else if k == 12 {
        assert(digit_char(12) == 'c');
    } else if k == 13 {
        assert(digit_char(13) == 'd');
    } else if k == 14 {
        assert(digit_char(14) == 'e');
    } else if k == 15 {
        assert(digit_char(15) == 'f');
    }
}

proof fn lemma_radix_len(n: nat)
    ensures
        radix_of(n, 16).len() >= 1,
        n >= 16 ==> radix_of(n, 16).len() >= 2,
    decreases n,
{
    if n >= 16 {
        lemma_radix_len(n / 16);
    }
}

proof fn lemma_radix_no_dash(n: nat)
    ensures
        forall|i: int| 0 <= i < radix_of(n, 16).len() ==> radix_of(n, 16)[i] != '-',
    decreases n,
{
    let r = radix_of(n, 16);
    if n < 16 {
        lemma_digit_char(n);
        assert(r[0] == digit_char(n));
    } else {
        let p = radix_of(n / 16, 16);
        lemma_radix_no_dash(n / 16);
        lemma_digit_char(n % 16);
        assert(r == p.push(digit_char(n % 16)));
        assert forall|i: int| 0 <= i < r.len() implies r[i] != '-' by {
            if i < p.len() {
                assert(r[i] == p[i]);
            }
        }
    }
}

proof fn lemma_radix_injective(n: nat, m: nat)
    requires
        radix_of(n, 16) == radix_of(m, 16),
    ensures
        n == m,
    decreases n,
{
    lemma_radix_len(n);
    lemma_radix_len(m);
    if n < 16 && m < 16 {
        assert(radix_of(n, 16)[0] == digit_char(n));
        assert(radix_of(m, 16)[0] == digit_char(m));
        lemma_digit_char(n);
        lemma_digit_char(m);
    } else if n >= 16 && m >= 16 {
        let (rn, rm) = (radix_of(n, 16), radix_of(m, 16));
        assert(rn.drop_last() == radix_of(n / 16, 16));
        assert(rm.drop_last() == radix_of(m / 16, 16));
        lemma_radix_injective(n / 16, m / 16);
        lemma_digit_char(n % 16);
        lemma_digit_char(m % 16);
        assert(rn.last() == digit_char(n % 16));
        assert(rm.last() == digit_char(m % 16));
    }
}

/// Two texts `a + "-" + x` and `b + "-" + y` where neither `x` nor `y` holds
/// a `-` are equal only if `x` and `y` are.
proof fn lemma_last_segment(a: Seq<char>, x: Seq<char>, b: Seq<char>, y: Seq<char>)
    requires
        a + seq!['-'] + x == b + seq!['-'] + y,
        forall|i: int| 0 <= i < x.len() ==> x[i] != '-',
        forall|i: int| 0 <= i < y.len() ==> y[i] != '-',
    ensures
        x == y,
{
    let s = a + seq!['-'] + x;
    let t = b + seq!['-'] + y;
    let n = s.len();
    if x.len() < y.len() {
        let i = n - 1 - x.len();
        assert(s[i] == '-');
        assert(t[i] == y[i - b.len() - 1]);
    } else if y.len() < x.len() {
        let i = n - 1 - y.len();
        assert(t[i] == '-');
        assert(s[i] == x[i - a.len() - 1]);
    } else {
        assert(x =~= s.subrange(n - x.len(), n as int));
        assert(y =~= t.subrange(n - y.len(), n as int));
    }
}

/// The text of a file id: `file-<t>-<n>`, both numbers in hexadecimal.
pub open spec fn file_id_text(t: nat, n: nat) -> Seq<char> {
    "file-"@ + radix_of(t, 16) + "-"@ + radix_of(n, 16)
}

/// File ids with different counts differ.
pub proof fn lemma_file_ids_differ(t1: nat, n1: nat, t2: nat, n2: nat)
    requires
        n1 != n2,
    ensures
        file_id_text(t1, n1) != file_id_text(t2, n2),
{
    reveal_strlit("-");
    assert("-"@ =~= seq!['-']);
    lemma_radix_no_dash(n1);
    lemma_radix_no_dash(n2);
    if file_id_text(t1, n1) == file_id_text(t2, n2) {
        lemma_last_segment("file-"@ + radix_of(t1, 16), radix_of(n1, 16), "file-"@ + radix_of(t2, 16), radix_of(n2, 16));
        lemma_radix_injective(n1, n2);
    }
}

} // verus!
