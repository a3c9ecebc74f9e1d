//! Building the canonical text of records: decimal numbers, length-framed
//! strings, lowercase hexadecimal, and the leading-zero difficulty test.
use vstd::prelude::*;
use vstd::string::StrSliceExecFns;

verus! {

/// Relies on `String::push`: the character is appended at the end.
#[verifier::external_body]
pub(crate) fn push_char(s: &mut String, c: char)
    ensures
        final(s)@ == old(s)@.push(c),
{
    s.push(c)
}

/// Relies on `String::push_str`: the slice is appended at the end.
#[verifier::external_body]
pub(crate) fn push_text(s: &mut String, t: &str)
    ensures
        final(s)@ == old(s)@ + t@,
{
    s.push_str(t)
}

/// The ASCII character of a digit value below 16, lowercase for 10..15.
pub open spec fn digit_char(v: nat) -> char {
    if v < 10 {
        ((48 + v) as u8) as char
    } else {
        ((87 + v) as u8) as char
    }
}

/// Decimal rendering of a natural number, most significant digit first.
pub open spec fn decimal(n: nat) -> Seq<char>
    decreases n,
{
    if n < 10 {
        seq![digit_char(n)]
    } else {
        decimal(n / 10).push(digit_char(n % 10))
    }
}

/// A string framed by its length in characters: `<len>:<chars>`.
pub open spec fn framed(s: Seq<char>) -> Seq<char> {
    decimal(s.len()) + seq![':'] + s
}

/// Lowercase hexadecimal of a byte string, two digits per byte, high nibble first.
pub open spec fn hex_of(b: Seq<u8>) -> Seq<char> {
    Seq::new(
        2 * b.len(),
        |i: int|
            if i % 2 == 0 {
                digit_char((b[i / 2] / 16) as nat)
            } else {
                digit_char((b[i / 2] % 16) as nat)
            },
    )
}

/// `h` starts with at least `d` characters `'0'`.
pub open spec fn has_leading_zeros(h: Seq<char>, d: nat) -> bool {
    d <= h.len() && forall|i: int| 0 <= i < d ==> h[i] == '0'
}

/// Every character of a decimal rendering is one of `'0'..='9'`, and there is
/// at least one.
pub proof fn lemma_decimal_digits(n: nat)
    ensures
        decimal(n).len() >= 1,
        forall|i: int| 0 <= i < decimal(n).len() ==> '0' <= #[trigger] decimal(n)[i] <= '9',
    decreases n,
{
    if n >= 10 {
        lemma_decimal_digits(n / 10);
        let d = decimal(n / 10);
        assert forall|i: int| 0 <= i < decimal(n).len() implies '0' <= #[trigger] decimal(n)[i]
            <= '9' by {
            if i < d.len() {
                assert(decimal(n)[i] == d[i]);
            }
        }
    }
}

proof fn lemma_digit_char_injective(v: nat, w: nat)
    requires
        v < 16,
        w < 16,
        digit_char(v) == digit_char(w),
    ensures
        v == w,
{
    let cv = if v < 10 { (48 + v) as u8 } else { (87 + v) as u8 };
    let cw = if w < 10 { (48 + w) as u8 } else { (87 + w) as u8 };
    assert((cv as char) as u32 == cv as u32);
    assert((cw as char) as u32 == cw as u32);
}

/// Distinct numbers have distinct decimal renderings.
pub proof fn lemma_decimal_injective(a: nat, b: nat)
    requires
        decimal(a) == decimal(b),
    ensures
        a == b,
    decreases a,
{
    lemma_decimal_digits(a / 10);
    lemma_decimal_digits(b / 10);
    if a >= 10 && b >= 10 {
        assert(decimal(a) == decimal(a / 10).push(digit_char(a % 10)));
        assert(decimal(b) == decimal(b / 10).push(digit_char(b % 10)));
        assert(decimal(a).last() == digit_char(a % 10));
        assert(decimal(b).last() == digit_char(b % 10));
        lemma_digit_char_injective(a % 10, b % 10);
        assert(decimal(a / 10) =~= decimal(a).drop_last());
        assert(decimal(b / 10) =~= decimal(b).drop_last());
        lemma_decimal_injective(a / 10, b / 10);
    } else if a < 10 && b < 10 {
        assert(decimal(a) == seq![digit_char(a)]);
        assert(decimal(b) == seq![digit_char(b)]);
        assert(seq![digit_char(a)][0] == digit_char(a));
        assert(seq![digit_char(b)][0] == digit_char(b));
        lemma_digit_char_injective(a, b);
    } else if a < 10 {
        assert(decimal(b).len() == decimal(b / 10).len() + 1);
    } else {
        assert(decimal(a).len() == decimal(a / 10).len() + 1);
    }
}

/// Stripping a common prefix.
pub proof fn lemma_strip_prefix(p: Seq<char>, x: Seq<char>, y: Seq<char>)
    requires
        p + x == p + y,
    ensures
        x == y,
{
    assert(x =~= (p + x).subrange(p.len() as int, (p + x).len() as int));
    assert(y =~= (p + y).subrange(p.len() as int, (p + y).len() as int));
}

/// A decimal rendering followed by a non-digit reads back uniquely.
pub proof fn lemma_decimal_prefix(a: nat, b: nat, x: Seq<char>, y: Seq<char>)
    requires
        decimal(a) + x == decimal(b) + y,
        x.len() > 0,
        y.len() > 0,
        !('0' <= x[0] <= '9'),
        !('0' <= y[0] <= '9'),
    ensures
        a == b,
        x == y,
{
    let da = decimal(a);
    let db = decimal(b);
    lemma_decimal_digits(a);
    lemma_decimal_digits(b);
    if da.len() < db.len() {
        assert((da + x)[da.len() as int] == x[0]);
        assert((db + y)[da.len() as int] == db[da.len() as int]);
    } else if db.len() < da.len() {
        assert((db + y)[db.len() as int] == y[0]);
        assert((da + x)[db.len() as int] == da[db.len() as int]);
    } else {
        assert(da =~= (da + x).subrange(0, da.len() as int));
        assert(db =~= (db + y).subrange(0, db.len() as int));
        lemma_decimal_injective(a, b);
        lemma_strip_prefix(da, x, y);
    }
}

/// A framed string reads back uniquely, whatever follows it.
pub proof fn lemma_framed_prefix(s: Seq<char>, t: Seq<char>, x: Seq<char>, y: Seq<char>)
    requires
        framed(s) + x == framed(t) + y,
    ensures
        s == t,
        x == y,
{
    let xs = seq![':'] + s + x;
    let yt = seq![':'] + t + y;
    assert(framed(s) + x =~= decimal(s.len()) + xs);
    assert(framed(t) + y =~= decimal(t.len()) + yt);
    assert(xs[0] == ':');
    assert(yt[0] == ':');
    lemma_decimal_prefix(s.len(), t.len(), xs, yt);
    assert(s =~= xs.subrange(1, s.len() as int + 1));
    assert(t =~= yt.subrange(1, t.len() as int + 1));
    assert(x =~= xs.subrange(s.len() as int + 1, xs.len() as int));
    assert(y =~= yt.subrange(t.len() as int + 1, yt.len() as int));
}

fn digit(v: u8) -> (c: char)
    requires
        v < 16,
    ensures
        c == digit_char(v as nat),
{
    if v < 10 {
        (48 + v) as char
    } else {
        (87 + v) as char
    }
}

/// Appends the decimal rendering of `n`.
pub fn push_decimal(s: &mut String, n: u64)
    ensures
        final(s)@ == old(s)@ + decimal(n as nat),
    decreases n,
{
    if n >= 10 {
        push_decimal(s, n / 10);
    }
    push_char(s, digit((n % 10) as u8));
    assert(final(s)@ =~= old(s)@ + decimal(n as nat));
}

/// Appends `t` framed by its length.
pub fn push_framed(s: &mut String, t: &String)
    ensures
        final(s)@ == old(s)@ + framed(t@),
{
    let len = t.as_str().unicode_len();
    push_decimal(s, len as u64);
    push_char(s, ':');
    push_text(s, t.as_str());
    assert(final(s)@ =~= old(s)@ + framed(t@));
}

/// Lowercase hexadecimal rendering of `b`.
pub fn hex_string(b: &Vec<u8>) -> (r: String)
    ensures
        r@ == hex_of(b@),
{
    let mut s = String::new();
    let mut i: usize = 0;
    while i < b.len()
        invariant
            i <= b.len(),
            s@.len() == 2 * i,
            forall|j: int| 0 <= j < 2 * i ==> s@[j] == hex_of(b@)[j],
        decreases b.len() - i,
    {
        let v = b[i];
        push_char(&mut s, digit(v / 16));
        push_char(&mut s, digit(v % 16));
        i = i + 1;
    }
    assert(s@ =~= hex_of(b@));
    s
}

/// Whether `hash` starts with at least `difficulty` zero characters.
pub fn meets_difficulty(hash: &String, difficulty: usize) -> (r: bool)
    ensures
        r == has_leading_zeros(hash@, difficulty as nat),
{
    let h = hash.as_str();
    let n = h.unicode_len();
    if difficulty > n {
        return false;
    }
    let mut i: usize = 0;
    while i < difficulty
        invariant
            difficulty <= n,
            n == hash@.len(),
            h@ == hash@,
            i <= difficulty,
            forall|j: int| 0 <= j < i ==> hash@[j] == '0',
        decreases difficulty - i,
    {
        if h.get_char(i) != '0' {
            return false;
        }
        i = i + 1;
    }
    true
}

} // verus!
