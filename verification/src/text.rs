//! Character-level helpers on process names and message text.
use vstd::prelude::*;

verus! {

/// What std's `str::to_lowercase` returns for a string: the Unicode lowercase
/// mapping, a function of the string alone.
pub uninterp spec fn lowercase(s: Seq<char>) -> Seq<char>;

/// Calls `str::to_lowercase`. The contract claims only that the result is the
/// lowercase mapping of the argument, named `lowercase`.
#[verifier::external_body]
pub(crate) fn to_lowercase(s: &str) -> (r: String)
    ensures
        r@ == lowercase(s@),
{
    s.to_lowercase()
}

/// Calls `String::push`. The contract claims that the string afterwards is
/// the string before with `c` appended.
#[verifier::external_body]
pub(crate) fn push_char(s: &mut String, c: char)
    ensures
        final(s)@ == old(s)@.push(c),
{
    s.push(c)
}

/// The Unicode `White_Space` property, the set that `char::is_whitespace`
/// and `str::trim` use.
pub open spec fn is_whitespace(c: char) -> bool {
    let u = c as u32;
    ||| 0x9 <= u <= 0xd
    ||| u == 0x20
    ||| u == 0x85
    ||| u == 0xa0
    ||| u == 0x1680
    ||| 0x2000 <= u <= 0x200a
    ||| u == 0x2028
    ||| u == 0x2029
    ||| u == 0x202f
    ||| u == 0x205f
    ||| u == 0x3000
}

/// `s` without its leading whitespace.
pub open spec fn trim_start_ws(s: Seq<char>) -> Seq<char>
    decreases s.len(),
{
    if s.len() > 0 && is_whitespace(s[0]) {
        trim_start_ws(s.drop_first())
    } else {
        s
    }
}

/// `s` without its trailing whitespace.
pub open spec fn trim_end_ws(s: Seq<char>) -> Seq<char>
    decreases s.len(),
{
    if s.len() > 0 && is_whitespace(s.last()) {
        trim_end_ws(s.drop_last())
    } else {
        s
    }
}

/// `s` without leading and trailing whitespace, as `str::trim` gives it.
pub open spec fn trim_ws(s: Seq<char>) -> Seq<char> {
    trim_end_ws(trim_start_ws(s))
}

/// Whether `s` ends in the four characters `.exe`.
pub open spec fn ends_with_exe(s: Seq<char>) -> bool {
    &&& s.len() >= 4
    &&& s[s.len() - 4] == '.'
    &&& s[s.len() - 3] == 'e'
    &&& s[s.len() - 2] == 'x'
    &&& s[s.len() - 1] == 'e'
}

/// `s` with every trailing repetition of `.exe` removed, as
/// `str::trim_end_matches(".exe")` gives it.
pub open spec fn strip_exe(s: Seq<char>) -> Seq<char>
    decreases s.len(),
{
    if ends_with_exe(s) {
        strip_exe(s.subrange(0, s.len() - 4))
    } else {
        s
    }
}

/// Decimal digits of `n`, most significant first, without leading zeros
/// (`"0"` for zero).
pub open spec fn decimal(n: nat) -> Seq<char>
    decreases n,
{
    if n < 10 {
        seq![digit_char(n)]
    } else {
        decimal(n / 10).push(digit_char(n % 10))
    }
}

/// The ASCII digit for `d < 10`.
pub open spec fn digit_char(d: nat) -> char {
    (d + 48) as char
}

/// `tenths` written with one decimal place, e.g. 985 as `98.5`.
pub open spec fn one_decimal(tenths: nat) -> Seq<char> {
    decimal(tenths / 10).push('.').push(digit_char(tenths % 10))
}

pub fn is_whitespace_char(c: char) -> (r: bool)
    ensures
        r == is_whitespace(c),
{
    let u = c as u32;
    (0x9 <= u && u <= 0xd) || u == 0x20 || u == 0x85 || u == 0xa0 || u == 0x1680 || (0x2000 <= u
        && u <= 0x200a) || u == 0x2028 || u == 0x2029 || u == 0x202f || u == 0x205f || u == 0x3000
}

proof fn lemma_trim_start_skip(s: Seq<char>, i: int)
    requires
        0 <= i < s.len(),
        forall|j: int| 0 <= j < i ==> is_whitespace(#[trigger] s[j]),
        is_whitespace(s[i]),
    ensures
        trim_start_ws(s.subrange(i, s.len() as int)) == trim_start_ws(
            s.subrange(i + 1, s.len() as int),
        ),
{
    let t = s.subrange(i, s.len() as int);
    assert(t.drop_first() =~= s.subrange(i + 1, s.len() as int));
}

proof fn lemma_trim_end_skip(s: Seq<char>, e: int)
    requires
        0 < e <= s.len(),
        is_whitespace(s[e - 1]),
    ensures
        trim_end_ws(s.subrange(0, e)) == trim_end_ws(s.subrange(0, e - 1)),
{
    let t = s.subrange(0, e);
    assert(t.drop_last() =~= s.subrange(0, e - 1));
}

/// `s` without leading and trailing whitespace (`str::trim`).
pub fn trim_str(s: &str) -> (r: &str)
    ensures
        r@ == trim_ws(s@),
{
    let n = s.unicode_len();
    let mut start: usize = 0;
    assert(s@.subrange(0, n as int) =~= s@);
    while start < n && is_whitespace_char(s.get_char(start))
        invariant
            n == s@.len(),
            start <= n,
            trim_start_ws(s@) == trim_start_ws(s@.subrange(start as int, n as int)),
            forall|j: int| 0 <= j < start ==> is_whitespace(#[trigger] s@[j]),
        decreases n - start,
    {
        proof {
            lemma_trim_start_skip(s@, start as int);
        }
        start = start + 1;
    }
    let ghost front = s@.subrange(start as int, n as int);
    assert(trim_start_ws(front) == front) by {
        if front.len() > 0 {
            assert(front[0] == s@[start as int]);
        }
    }
    let mut end: usize = n;
    assert(front.subrange(0, (end - start) as int) =~= front);
    while end > start && is_whitespace_char(s.get_char(end - 1))
        invariant
            n == s@.len(),
            start <= end <= n,
            front == s@.subrange(start as int, n as int),
            trim_end_ws(front) == trim_end_ws(front.subrange(0, (end - start) as int)),
        decreases end - start,
    {
        proof {
            assert(front[(end - 1 - start) as int] == s@[end - 1]);
            lemma_trim_end_skip(front, (end - start) as int);
        }
        end = end - 1;
    }
    let ghost kept = front.subrange(0, (end - start) as int);
    assert(trim_end_ws(kept) == kept) by {
        if kept.len() > 0 {
            assert(kept.last() == s@[end - 1]);
        }
    }
    let r = s.substring_char(start, end);
    assert(r@ =~= kept);
    r
}

proof fn lemma_strip_step(s: Seq<char>, e: int)
    requires
        4 <= e <= s.len(),
        ends_with_exe(s.subrange(0, e)),
    ensures
        strip_exe(s.subrange(0, e)) == strip_exe(s.subrange(0, e - 4)),
{
    assert(s.subrange(0, e).subrange(0, e - 4) =~= s.subrange(0, e - 4));
}

/// `s` with every trailing `.exe` removed (`str::trim_end_matches(".exe")`).
pub fn strip_exe_str(s: &str) -> (r: &str)
    ensures
        r@ == strip_exe(s@),
{
    let n = s.unicode_len();
    let mut end: usize = n;
    assert(s@.subrange(0, n as int) =~= s@);
    while end >= 4 && s.get_char(end - 4) == '.' && s.get_char(end - 3) == 'e' && s.get_char(
        end - 2,
    ) == 'x' && s.get_char(end - 1) == 'e'
        invariant
            n == s@.len(),
            end <= n,
            strip_exe(s@) == strip_exe(s@.subrange(0, end as int)),
        decreases end,
    {
        proof {
            lemma_strip_step(s@, end as int);
        }
        end = end - 4;
    }
    let r = s.substring_char(0, end);
    proof {
        let t = s@.subrange(0, end as int);
        if t.len() >= 4 {
            assert(t[t.len() - 4] == s@[end - 4]);
            assert(t[t.len() - 3] == s@[end - 3]);
            assert(t[t.len() - 2] == s@[end - 2]);
            assert(t[t.len() - 1] == s@[end - 1]);
        }
        assert(strip_exe(t) == t);
    }
    r
}

/// Whether two strings hold the same characters.
pub fn str_eq(a: &str, b: &str) -> (r: bool)
    ensures
        r == (a@ == b@),
{
    let n = a.unicode_len();
    let m = b.unicode_len();
    if n != m {
        return false;
    }
    let mut i: usize = 0;
    while i < n
        invariant
            n == a@.len(),
            m == b@.len(),
            n == m,
            i <= n,
            forall|j: int| 0 <= j < i ==> a@[j] == b@[j],
        decreases n - i,
    {
        if a.get_char(i) != b.get_char(i) {
            return false;
        }
        i = i + 1;
    }
    assert(a@ =~= b@);
    true
}

proof fn lemma_decimal_len(n: nat)
    ensures
        1 <= decimal(n).len(),
        n < 10 ==> decimal(n).len() == 1,
    decreases n,
{
    if n >= 10 {
        lemma_decimal_len(n / 10);
    }
}

/// Appends the decimal digits of `n` to `s`.
pub fn push_decimal(s: &mut String, n: u32)
    ensures
        final(s)@ == old(s)@ + decimal(n as nat),
{
    let mut digits: Vec<char> = Vec::new();
    let mut m: u32 = n;
    // digits holds the low-order digits of n in reverse order
    while m >= 10
        invariant
            forall|k: int| 0 <= k < digits.len() ==> '0' <= #[trigger] digits@[k] <= '9',
            decimal(n as nat) == decimal(m as nat) + digits@.reverse(),
        decreases m,
    {
        let d = m % 10;
        let c = digit(d);
        proof {
            assert(decimal(m as nat) == decimal((m / 10) as nat).push(c));
            assert(digits@.push(c).reverse() =~= seq![c] + digits@.reverse());
            assert(decimal((m / 10) as nat).push(c) + digits@.reverse() =~= decimal(
                (m / 10) as nat,
            ) + (seq![c] + digits@.reverse()));
        }
        digits.push(c);
        m = m / 10;
    }
    let c0 = digit(m);
    push_char(s, c0);
    assert(decimal(m as nat) =~= seq![c0]);
    let ghost base = s@;
    let mut k: usize = digits.len();
    while k > 0
        invariant
            k <= digits.len(),
            s@ == base + digits@.reverse().subrange(0, (digits.len() - k) as int),
        decreases k,
    {
        k = k - 1;
        let c = digits[k];
        push_char(s, c);
        assert(digits@.reverse().subrange(0, (digits.len() - k) as int) =~= digits@.reverse().subrange(
            0,
            (digits.len() - k - 1) as int,
        ).push(c));
    }
    assert(digits@.reverse().subrange(0, digits.len() as int) =~= digits@.reverse());
    assert(s@ =~= old(s)@ + decimal(n as nat));
}

fn digit(d: u32) -> (c: char)
    requires
        d < 10,
    ensures
        c == digit_char(d as nat),
        '0' <= c <= '9',
{
    if d == 0 {
        '0'
    } else if d == 1 {
        '1'
    } else if d == 2 {
        '2'
    } else if d == 3 {
        '3'
    } else if d == 4 {
        '4'
    } else if d == 5 {
        '5'
    } else if d == 6 {
        '6'
    } else if d == 7 {
        '7'
    } else if d == 8 {
        '8'
    } else {
        '9'
    }
}

/// Appends `tenths` written with one decimal place (`98.5` for 985).
pub fn push_one_decimal(s: &mut String, tenths: u32)
    ensures
        final(s)@ == old(s)@ + one_decimal(tenths as nat),
{
    push_decimal(s, tenths / 10);
    push_char(s, '.');
    let c = digit(tenths % 10);
    push_char(s, c);
    assert(s@ =~= old(s)@ + one_decimal(tenths as nat));
}

/// The decimal digits of `n` as a new string.
pub fn decimal_string(n: u32) -> (r: String)
    ensures
        r@ == decimal(n as nat),
{
    let mut s = String::new();
    push_decimal(&mut s, n);
    assert(s@ =~= decimal(n as nat));
    s
}

} // verus!
