//! Plain-text building blocks: decimal rendering of integers (zero padded,
//! as the run-directory names need it) and the lexicographic order on
//! character sequences that retention uses to find the oldest run.

use vstd::prelude::*;

verus! {

/// The decimal digit character for a value below ten.
pub open spec fn digit_char(d: nat) -> char {
    if d == 0 {
        '0'
    } else if d == 1 {
        '1'
    } else if d == 2 {
        '2'
    } else if d == 3 {
        '3'
    } else if d == 4 {
        '4'
    } else if d == 5 {
        '5'
    } else if d == 6 {
        '6'
    } else if d == 7 {
        '7'
    } else if d == 8 {
        '8'
    } else {
        '9'
    }
}

/// The usual decimal rendering of a natural number, most significant
/// digit first, with no leading zeros.
pub open spec fn spec_decimal(n: nat) -> Seq<char>
    decreases n,
{
    if n < 10 {
        seq![digit_char(n)]
    } else {
        spec_decimal(n / 10).push(digit_char(n % 10))
    }
}

/// A run of `k` zero characters.
pub open spec fn zero_chars(k: nat) -> Seq<char> {
    Seq::new(k, |i: int| '0')
}

/// The decimal rendering of `n`, left padded with zeros to at least
/// `width` characters.
pub open spec fn spec_padded_decimal(n: nat, width: nat) -> Seq<char> {
    if spec_decimal(n).len() >= width {
        spec_decimal(n)
    } else {
        zero_chars((width - spec_decimal(n).len()) as nat) + spec_decimal(n)
    }
}

fn digit_str(d: u8) -> (r: &'static str)
    requires
        d < 10,
    ensures
        r@ == seq![digit_char(d as nat)],
{
    if d == 0 {
        proof {
            reveal_strlit("0");
            assert("0"@ =~= seq![digit_char(0)]);
        }
        "0"
    } else if d == 1 {
        proof {
            reveal_strlit("1");
            assert("1"@ =~= seq![digit_char(1)]);
        }
        "1"
    } else if d == 2 {
        proof {
            reveal_strlit("2");
            assert("2"@ =~= seq![digit_char(2)]);
        }
        "2"
    } else if d == 3 {
        proof {
            reveal_strlit("3");
            assert("3"@ =~= seq![digit_char(3)]);
        }
        "3"
    } else if d == 4 {
        proof {
            reveal_strlit("4");
            assert("4"@ =~= seq![digit_char(4)]);
        }
        "4"
    } else if d == 5 {
        proof {
            reveal_strlit("5");
            assert("5"@ =~= seq![digit_char(5)]);
        }
        "5"
    } else if d == 6 {
        proof {
            reveal_strlit("6");
            assert("6"@ =~= seq![digit_char(6)]);
        }
        "6"
    } else if d == 7 {
        proof {
            reveal_strlit("7");
            assert("7"@ =~= seq![digit_char(7)]);
        }
        "7"
    } else if d == 8 {
        proof {
            reveal_strlit("8");
            assert("8"@ =~= seq![digit_char(8)]);
        }
        "8"
    } else {
        proof {
            reveal_strlit("9");
            assert("9"@ =~= seq![digit_char(9)]);
        }
        "9"
    }
}

/// Renders `n` in decimal.
pub fn decimal_string(n: u64) -> (r: String)
    ensures
        r@ == spec_decimal(n as nat),
    decreases n,
{
    if n < 10 {
        String::from_str(digit_str(n as u8))
    } else {
        let mut s = decimal_string(n / 10);
        s.append(digit_str((n % 10) as u8));
        proof {
            assert(s@ =~= spec_decimal(n as nat));
        }
        s
    }
}

/// Renders `n` in decimal, left padded with zeros to at least `width`
/// characters.
pub fn padded_decimal(n: u64, width: usize) -> (r: String)
    ensures
        r@ == spec_padded_decimal(n as nat, width as nat),
{
    let d = decimal_string(n);
    let len = d.as_str().unicode_len();
    let mut r = String::new();
    let mut i: usize = len;
    while i < width
        invariant
            len == spec_decimal(n as nat).len(),
            len <= i,
            i == len || i <= width,
            r@ =~= zero_chars((i - len) as nat),
        decreases width - i,
    {
        r.append("0");
        proof {
            reveal_strlit("0");
            assert(r@ =~= zero_chars((i + 1 - len) as nat));
        }
        i = i + 1;
    }
    r.append(d.as_str());
    proof {
        assert(r@ =~= spec_padded_decimal(n as nat, width as nat));
    }
    r
}

/// Strict lexicographic order on character sequences, by code point.
/// For the zero-padded names of run directories this order is the order
/// of creation.
pub open spec fn lex_lt(a: Seq<char>, b: Seq<char>) -> bool
    decreases a.len(),
{
    if b.len() == 0 {
        false
    } else if a.len() == 0 {
        true
    } else if a[0] < b[0] {
        true
    } else if b[0] < a[0] {
        false
    } else {
        lex_lt(a.drop_first(), b.drop_first())
    }
}

/// Compares two strings in the order of `lex_lt`.
pub fn str_lt(a: &str, b: &str) -> (r: bool)
    ensures
        r == lex_lt(a@, b@),
{
    let alen = a.unicode_len();
    let blen = b.unicode_len();
    let mut i: usize = 0;
    proof {
        assert(a@.skip(0) =~= a@);
        assert(b@.skip(0) =~= b@);
    }
    while i < alen && i < blen
        invariant
            alen == a@.len(),
            blen == b@.len(),
            i <= alen,
            i <= blen,
            lex_lt(a@, b@) == lex_lt(a@.skip(i as int), b@.skip(i as int)),
        decreases alen - i,
    {
        let ca = a.get_char(i);
        let cb = b.get_char(i);
        if ca < cb {
            return true;
        }
        if cb < ca {
            return false;
        }
        proof {
            assert(ca == cb);
            assert(a@.skip(i as int)[0] == a@[i as int]);
            assert(b@.skip(i as int)[0] == b@[i as int]);
            assert(a@.skip(i as int).len() > 0);
            assert(b@.skip(i as int).len() > 0);
            assert(lex_lt(a@.skip(i as int), b@.skip(i as int)) == lex_lt(
                a@.skip(i as int).drop_first(),
                b@.skip(i as int).drop_first(),
            ));
            assert(a@.skip(i as int).drop_first() =~= a@.skip(i + 1));
            assert(b@.skip(i as int).drop_first() =~= b@.skip(i + 1));
        }
        i = i + 1;
    }
    proof {
        if alen == blen {
            assert(b@.skip(i as int).len() == 0);
        } else if alen < blen {
            assert(a@.skip(i as int).len() == 0);
            assert(b@.skip(i as int).len() > 0);
        } else {
            assert(b@.skip(i as int).len() == 0);
        }
    }
    alen < blen
}

/// Compares two strings for equality of their character sequences.
pub fn str_eq(a: &str, b: &str) -> (r: bool)
    ensures
        r == (a@ == b@),
{
    let alen = a.unicode_len();
    let blen = b.unicode_len();
    if alen != blen {
        return false;
    }
    let mut i: usize = 0;
    while i < alen
        invariant
            alen == a@.len(),
            blen == b@.len(),
            alen == blen,
            i <= alen,
            forall|j: int| 0 <= j < i ==> a@[j] == b@[j],
        decreases alen - i,
    {
        let ca = a.get_char(i);
        let cb = b.get_char(i);
        if ca < cb || cb < ca {
            return false;
        }
        i = i + 1;
    }
    proof {
        assert(a@ =~= b@);
    }
    true
}

/// Whether `s` ends with `suffix`, at the character level.
pub open spec fn spec_ends_with(s: Seq<char>, suffix: Seq<char>) -> bool {
    s.len() >= suffix.len() && s.skip(s.len() - suffix.len()) == suffix
}

/// Tests whether `s` ends with `suffix`.
pub fn str_ends_with(s: &str, suffix: &str) -> (r: bool)
    ensures
        r == spec_ends_with(s@, suffix@),
{
    let slen = s.unicode_len();
    let suflen = suffix.unicode_len();
    if slen < suflen {
        return false;
    }
    let start = slen - suflen;
    let mut k: usize = 0;
    while k < suflen
        invariant
            slen == s@.len(),
            suflen == suffix@.len(),
            start == slen - suflen,
            k <= suflen,
            forall|j: int| 0 <= j < k ==> s@[start + j] == suffix@[j],
        decreases suflen - k,
    {
        let cs = s.get_char(start + k);
        let cf = suffix.get_char(k);
        if cs < cf || cf < cs {
            proof {
                assert(s@.skip(start as int)[k as int] == s@[start + k]);
            }
            return false;
        }
        k = k + 1;
    }
    proof {
        assert(s@.skip(start as int) =~= suffix@);
    }
    true
}

/// Powers of ten, for stating which numbers fit a fixed width.
pub open spec fn pow10(k: nat) -> nat
    decreases k,
{
    if k == 0 {
        1
    } else {
        10 * pow10((k - 1) as nat)
    }
}

/// A number below `pow10(k)` renders to at most `k` digits (and at least
/// one).
pub proof fn lemma_decimal_len(n: nat, k: nat)
    requires
        k >= 1,
        n < pow10(k),
    ensures
        1 <= spec_decimal(n).len() <= k,
    decreases k,
{
    if n >= 10 {
        assert(pow10(k) == 10 * pow10((k - 1) as nat));
        assert(n / 10 < pow10((k - 1) as nat)) by (nonlinear_arith)
            requires
                n < 10 * pow10((k - 1) as nat),
        ;
        assert(k >= 2) by {
            if k == 1 {
                assert(pow10(1nat) == 10);
            }
        }
        lemma_decimal_len(n / 10, (k - 1) as nat);
    }
}

/// The exactly-`w`-digit rendering of `n % pow10(w)`: the usual decimal
/// digits, zero padded to the full width.
pub open spec fn fixed_digits(n: nat, w: nat) -> Seq<char>
    decreases w,
{
    if w == 0 {
        Seq::empty()
    } else {
        fixed_digits(n / 10, (w - 1) as nat).push(digit_char(n % 10))
    }
}

proof fn lemma_fixed_digits_zero(k: nat)
    ensures
        fixed_digits(0, k) == zero_chars(k),
    decreases k,
{
    if k == 0 {
        assert(fixed_digits(0, 0) =~= zero_chars(0));
    } else {
        lemma_fixed_digits_zero((k - 1) as nat);
        assert(fixed_digits(0, k) =~= zero_chars(k));
    }
}

/// For numbers that fit, zero-padding to width `w` gives exactly the
/// fixed-width digit rendering.
pub proof fn lemma_padded_is_fixed_digits(n: nat, w: nat)
    requires
        w >= 1,
        n < pow10(w),
    ensures
        spec_padded_decimal(n, w) == fixed_digits(n, w),
    decreases w,
{
    if n < 10 {
        lemma_fixed_digits_zero((w - 1) as nat);
        assert(n / 10 == 0);
        assert(n % 10 == n);
        assert(fixed_digits(n, w) == zero_chars((w - 1) as nat).push(digit_char(n)));
        assert(spec_decimal(n).len() == 1);
        if w == 1 {
            assert(spec_padded_decimal(n, w) =~= fixed_digits(n, w));
        } else {
            assert(spec_padded_decimal(n, w) == zero_chars((w - 1) as nat) + spec_decimal(n));
            assert(spec_padded_decimal(n, w) =~= fixed_digits(n, w));
        }
    } else {
        assert(pow10(w) == 10 * pow10((w - 1) as nat));
        assert(n / 10 < pow10((w - 1) as nat)) by (nonlinear_arith)
            requires
                n < 10 * pow10((w - 1) as nat),
        ;
        lemma_padded_is_fixed_digits(n / 10, (w - 1) as nat);
        lemma_decimal_len(n / 10, if w >= 2 { (w - 1) as nat } else { 1nat });
        assert(w >= 2) by {
            if w == 1 {
                assert(pow10(1nat) == 10);
            }
        }
        let inner = spec_padded_decimal(n / 10, (w - 1) as nat);
        assert(fixed_digits(n, w) == inner.push(digit_char(n % 10)));
        assert(spec_decimal(n) == spec_decimal(n / 10).push(digit_char(n % 10)));
        assert(spec_decimal(n).len() == spec_decimal(n / 10).len() + 1);
        if spec_decimal(n / 10).len() >= (w - 1) as nat {
            assert(inner == spec_decimal(n / 10));
            assert(spec_padded_decimal(n, w) =~= inner.push(digit_char(n % 10)));
        } else {
            assert(inner == zero_chars(((w - 1) - spec_decimal(n / 10).len()) as nat)
                + spec_decimal(n / 10));
            assert(spec_padded_decimal(n, w) == zero_chars(
                (w - spec_decimal(n).len()) as nat,
            ) + spec_decimal(n));
            assert(spec_padded_decimal(n, w) =~= inner.push(digit_char(n % 10)));
        }
    }
}

/// Splitting off equal-length heads: the lexicographic order of two
/// concatenations is decided by the heads, and by the tails only when the
/// heads are equal.
pub proof fn lemma_lex_lt_concat(x1: Seq<char>, x2: Seq<char>, y1: Seq<char>, y2: Seq<char>)
    requires
        x1.len() == y1.len(),
    ensures
        lex_lt(x1 + x2, y1 + y2) == (lex_lt(x1, y1) || (x1 == y1 && lex_lt(x2, y2))),
    decreases x1.len(),
{
    if x1.len() == 0 {
        assert(x1 + x2 =~= x2);
        assert(y1 + y2 =~= y2);
        assert(x1 =~= y1);
        lemma_lex_lt_irreflexive(x1);
    } else {
        assert((x1 + x2).len() > 0);
        assert((y1 + y2).len() > 0);
        assert((x1 + x2)[0] == x1[0]);
        assert((y1 + y2)[0] == y1[0]);
        if x1[0] == y1[0] {
            assert((x1 + x2).drop_first() =~= x1.drop_first() + x2);
            assert((y1 + y2).drop_first() =~= y1.drop_first() + y2);
            lemma_lex_lt_concat(x1.drop_first(), x2, y1.drop_first(), y2);
            if x1.drop_first() == y1.drop_first() {
                assert forall|i: int| 0 <= i < x1.len() implies x1[i] == y1[i] by {
                    if i > 0 {
                        assert(x1[i] == x1.drop_first()[i - 1]);
                        assert(y1[i] == y1.drop_first()[i - 1]);
                    }
                }
                assert(x1 =~= y1);
            }
            if x1 == y1 {
                assert(x1.drop_first() =~= y1.drop_first());
            }
        }
    }
}

/// Digit characters order as their digits do.
proof fn lemma_digit_char_order(a: nat, b: nat)
    requires
        a <= 9,
        b <= 9,
    ensures
        (digit_char(a) < digit_char(b)) == (a < b),
        (digit_char(a) == digit_char(b)) == (a == b),
{
}

/// Fixed-width digit renderings order exactly as the numbers they render.
pub proof fn lemma_fixed_digits_order(m: nat, n: nat, w: nat)
    requires
        m < pow10(w),
        n < pow10(w),
    ensures
        lex_lt(fixed_digits(m, w), fixed_digits(n, w)) == (m < n),
    decreases w,
{
    if w == 0 {
        assert(pow10(0nat) == 1);
    } else {
        assert(pow10(w) == 10 * pow10((w - 1) as nat));
        let p = pow10((w - 1) as nat);
        assert(m / 10 < p) by (nonlinear_arith)
            requires
                m < 10 * p,
        ;
        assert(n / 10 < p) by (nonlinear_arith)
            requires
                n < 10 * p,
        ;
        lemma_fixed_digits_order(m / 10, n / 10, (w - 1) as nat);
        lemma_fixed_digits_order(n / 10, m / 10, (w - 1) as nat);
        let fm = fixed_digits(m / 10, (w - 1) as nat);
        let fn_ = fixed_digits(n / 10, (w - 1) as nat);
        assert(fm.len() == fn_.len()) by {
            lemma_fixed_digits_len(m / 10, (w - 1) as nat);
            lemma_fixed_digits_len(n / 10, (w - 1) as nat);
        }
        assert(fm.push(digit_char(m % 10)) =~= fm + seq![digit_char(m % 10)]);
        assert(fn_.push(digit_char(n % 10)) =~= fn_ + seq![digit_char(n % 10)]);
        lemma_lex_lt_concat(fm, seq![digit_char(m % 10)], fn_, seq![digit_char(n % 10)]);
        lemma_digit_char_order(m % 10, n % 10);
        let sm = seq![digit_char(m % 10)];
        let sn = seq![digit_char(n % 10)];
        assert(sm.drop_first().len() == 0);
        assert(sn.drop_first().len() == 0);
        assert(lex_lt(sm.drop_first(), sn.drop_first()) == false);
        assert(sm[0] == digit_char(m % 10) && sn[0] == digit_char(n % 10));
        assert(lex_lt(sm, sn) == (digit_char(m % 10) < digit_char(n % 10)));
        // The digit strings of the leading parts are equal exactly when
        // the leading parts are: trichotomy plus the inductive order.
        if fm == fn_ {
            if m / 10 < n / 10 || n / 10 < m / 10 {
                lemma_lex_lt_irreflexive(fm);
            }
            assert(m / 10 == n / 10);
        }
        assert((m < n) == (m / 10 < n / 10 || (m / 10 == n / 10 && m % 10 < n % 10)))
            by (nonlinear_arith);
        if m / 10 == n / 10 {
            assert(fm =~= fn_);
        }
    }
}

/// Fixed-width renderings have exactly their width.
pub proof fn lemma_fixed_digits_len(n: nat, w: nat)
    ensures
        fixed_digits(n, w).len() == w,
    decreases w,
{
    if w > 0 {
        lemma_fixed_digits_len(n / 10, (w - 1) as nat);
    }
}

/// `lex_lt` never relates a sequence to itself.
pub proof fn lemma_lex_lt_irreflexive(a: Seq<char>)
    ensures
        !lex_lt(a, a),
    decreases a.len(),
{
    if a.len() > 0 {
        lemma_lex_lt_irreflexive(a.drop_first());
    }
}

/// `lex_lt` is transitive.
pub proof fn lemma_lex_lt_transitive(a: Seq<char>, b: Seq<char>, c: Seq<char>)
    requires
        lex_lt(a, b),
        lex_lt(b, c),
    ensures
        lex_lt(a, c),
    decreases a.len(),
{
    if a.len() > 0 && b.len() > 0 && c.len() > 0 {
        if a[0] == b[0] && b[0] == c[0] {
            lemma_lex_lt_transitive(a.drop_first(), b.drop_first(), c.drop_first());
        }
    }
}

/// Any two distinct sequences are related by `lex_lt` one way or the other.
pub proof fn lemma_lex_lt_connected(a: Seq<char>, b: Seq<char>)
    ensures
        a == b || lex_lt(a, b) || lex_lt(b, a),
    decreases a.len(),
{
    if a.len() > 0 && b.len() > 0 {
        if !(a[0] < b[0]) && !(b[0] < a[0]) {
            lemma_lex_lt_connected(a.drop_first(), b.drop_first());
            if a.drop_first() == b.drop_first() {
                assert(a.drop_first().len() == b.drop_first().len());
                assert(a.len() == b.len());
                assert(a[0] == b[0]);
                assert forall|i: int| 0 <= i < a.len() implies a[i] == b[i] by {
                    if i > 0 {
                        assert(a[i] == a.drop_first()[i - 1]);
                        assert(b[i] == b.drop_first()[i - 1]);
                    }
                }
                assert(a =~= b);
            }
        }
    } else if a.len() == 0 && b.len() == 0 {
        assert(a =~= b);
    }
}

} // verus!
