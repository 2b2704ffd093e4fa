//! Text helpers: blanks, decimal integers, path joining and quoting.

use vstd::prelude::*;
use vstd::string::*;

verus! {

/// Whether Unicode counts `c` as white space.
pub open spec fn is_white(c: char) -> bool {
    let n = c as u32;
    ||| 0x09 <= n <= 0x0d
    ||| n == 0x20
    ||| n == 0x85
    ||| n == 0xa0
    ||| n == 0x1680
    ||| 0x2000 <= n <= 0x200a
    ||| n == 0x2028
    ||| n == 0x2029
    ||| n == 0x202f
    ||| n == 0x205f
    ||| n == 0x3000
}

/// Whether `c` is one of the ten ASCII digits.
pub open spec fn is_digit(c: char) -> bool {
    '0' <= c <= '9'
}

/// Number that a digit stands for.
pub open spec fn digit_value(c: char) -> int {
    c as int - '0' as int
}

/// Text without the white space in front.
pub open spec fn trim_start(s: Seq<char>) -> Seq<char>
    decreases s.len(),
{
    if s.len() > 0 && is_white(s[0]) {
        trim_start(s.subrange(1, s.len() as int))
    } else {
        s
    }
}

/// Text without the white space behind.
pub open spec fn trim_end(s: Seq<char>) -> Seq<char>
    decreases s.len(),
{
    if s.len() > 0 && is_white(s[s.len() - 1]) {
        trim_end(s.subrange(0, s.len() - 1))
    } else {
        s
    }
}

/// Text without the white space around it.
pub open spec fn trim(s: Seq<char>) -> Seq<char> {
    trim_end(trim_start(s))
}

/// Index of the first `c` in `s`, or the length of `s` where there is none.
pub open spec fn position(s: Seq<char>, c: char) -> int
    decreases s.len(),
{
    if s.len() == 0 || s[0] == c {
        0
    } else {
        1 + position(s.subrange(1, s.len() as int), c)
    }
}

/// Whether `s` holds white space only.
pub open spec fn all_white(s: Seq<char>) -> bool {
    forall|i: int| 0 <= i < s.len() ==> is_white(#[trigger] s[i])
}

/// Whether `s` holds digits only.
pub open spec fn all_digits(s: Seq<char>) -> bool {
    forall|i: int| 0 <= i < s.len() ==> is_digit(#[trigger] s[i])
}

/// Number that a row of digits stands for.
pub open spec fn decimal(s: Seq<char>) -> int
    decreases s.len(),
{
    if s.len() == 0 {
        0
    } else {
        10 * decimal(s.subrange(0, s.len() - 1)) + digit_value(s[s.len() - 1])
    }
}

/// Whether `s` starts with a plus or a minus sign.
pub open spec fn has_sign(s: Seq<char>) -> bool {
    s.len() > 0 && (s[0] == '+' || s[0] == '-')
}

/// The digits of an integer: what follows its sign.
pub open spec fn digits_of(s: Seq<char>) -> Seq<char> {
    if has_sign(s) {
        s.subrange(1, s.len() as int)
    } else {
        s
    }
}

/// Whether `s` is an integer: an optional sign and at least one digit.
pub open spec fn is_integer(s: Seq<char>) -> bool {
    digits_of(s).len() > 0 && all_digits(digits_of(s))
}

/// Number that an integer stands for.
pub open spec fn integer_value(s: Seq<char>) -> int {
    if s.len() > 0 && s[0] == '-' {
        -decimal(digits_of(s))
    } else {
        decimal(digits_of(s))
    }
}

/// The `i32` that `s` writes out, if it writes one out.
pub open spec fn as_i32(s: Seq<char>) -> Option<i32> {
    if is_integer(s) && i32::MIN <= integer_value(s) <= i32::MAX {
        Some(integer_value(s) as i32)
    } else {
        None
    }
}

/// Digits of a natural number, without leading zeros.
pub open spec fn digits(n: nat) -> Seq<char>
    decreases n,
{
    if n < 10 {
        seq![(48 + n) as char]
    } else {
        digits(n / 10).push((48 + n % 10) as char)
    }
}

/// An integer written out in decimal.
pub open spec fn written(x: int) -> Seq<char> {
    if x < 0 {
        seq!['-'] + digits((-x) as nat)
    } else {
        digits(x as nat)
    }
}

/// One path component behind another: an absolute component replaces what is in
/// front of it, and a slash stands between the two where none is there yet.
pub open spec fn joined(base: Seq<char>, part: Seq<char>) -> Seq<char> {
    if part.len() > 0 && part[0] == '/' {
        part
    } else if base.len() == 0 || base[base.len() - 1] == '/' {
        base + part
    } else {
        base + seq!['/'] + part
    }
}

/// Whether Unicode counts `c` as white space.
pub fn white(c: char) -> (r: bool)
    ensures
        r == is_white(c),
{
    let n: u32 = c as u32;
    (0x09 <= n && n <= 0x0d) || n == 0x20 || n == 0x85 || n == 0xa0 || n == 0x1680
        || (0x2000 <= n && n <= 0x200a) || n == 0x2028 || n == 0x2029 || n == 0x202f
        || n == 0x205f || n == 0x3000
}

/// The characters of `s`, in order.
pub fn chars_of(s: &str) -> (r: Vec<char>)
    ensures
        r@ == s@,
{
    let mut out: Vec<char> = Vec::new();
    for c in it: s.chars()
        invariant
            out@ == it.seq().take(it.index()),
            it.seq() == s@,
    {
        out.push(c);
    }
    out
}

/// Ends of the part of `chars[lo..hi]` that is left once the white space around
/// it is gone.
pub fn trim_range(chars: &Vec<char>, lo: usize, hi: usize) -> (r: (usize, usize))
    requires
        lo <= hi <= chars@.len(),
    ensures
        lo <= r.0 <= r.1 <= hi,
        chars@.subrange(r.0 as int, r.1 as int) == trim(chars@.subrange(lo as int, hi as int)),
{
    let mut a: usize = lo;
    while a < hi && white(chars[a])
        invariant
            lo <= a <= hi <= chars@.len(),
            trim_start(chars@.subrange(lo as int, hi as int)) == trim_start(
                chars@.subrange(a as int, hi as int),
            ),
        decreases hi - a,
    {
        let ghost rest = chars@.subrange(a as int, hi as int);
        assert(rest.subrange(1, rest.len() as int) =~= chars@.subrange(a + 1, hi as int));
        a = a + 1;
    }
    let ghost front = chars@.subrange(a as int, hi as int);
    assert(trim_start(chars@.subrange(lo as int, hi as int)) == front);
    let mut b: usize = hi;
    while a < b && white(chars[b - 1])
        invariant
            lo <= a <= b <= hi <= chars@.len(),
            trim_end(front) == trim_end(chars@.subrange(a as int, b as int)),
        decreases b - a,
    {
        let ghost rest = chars@.subrange(a as int, b as int);
        assert(rest.subrange(0, rest.len() - 1) =~= chars@.subrange(a as int, b - 1));
        b = b - 1;
    }
    (a, b)
}

/// The value of a row of digits is not negative, and no smaller than that of any
/// of its prefixes.
proof fn decimal_grows(s: Seq<char>, n: int)
    requires
        all_digits(s),
        0 <= n <= s.len(),
    ensures
        0 <= decimal(s.subrange(0, n)) <= decimal(s),
    decreases s.len(),
{
    if s.len() == 0 {
        assert(s.subrange(0, n) =~= s);
    } else {
        let front = s.subrange(0, s.len() - 1);
        assert(all_digits(front));
        assert(is_digit(s[s.len() - 1]));
        if n == s.len() {
            assert(s.subrange(0, n) =~= s);
            decimal_grows(front, 0);
            assert(front.subrange(0, 0) =~= Seq::<char>::empty());
        } else {
            decimal_grows(front, n);
            assert(front.subrange(0, n) =~= s.subrange(0, n));
        }
    }
}

/// The `i32` that `chars[lo..hi]` writes out, if it writes one out.
pub fn parse_i32(chars: &Vec<char>, lo: usize, hi: usize) -> (r: Option<i32>)
    requires
        lo <= hi <= chars@.len(),
    ensures
        r == as_i32(chars@.subrange(lo as int, hi as int)),
{
    let ghost s = chars@.subrange(lo as int, hi as int);
    let negative: bool = lo < hi && chars[lo] == '-';
    let signed: bool = lo < hi && (chars[lo] == '-' || chars[lo] == '+');
    let start: usize = if signed {
        lo + 1
    } else {
        lo
    };
    let ghost digits = digits_of(s);
    assert(digits =~= chars@.subrange(start as int, hi as int));
    if start == hi {
        return None;
    }
    let mut value: u64 = 0;
    let mut i: usize = start;
    while i < hi
        invariant
            lo <= start <= i <= hi <= chars@.len(),
            s == chars@.subrange(lo as int, hi as int),
            digits == chars@.subrange(start as int, hi as int),
            digits == digits_of(s),
            digits.len() > 0,
            all_digits(digits.subrange(0, i - start)),
            value == decimal(digits.subrange(0, i - start)),
            value <= 0x8000_0000,
            s.len() > 0 && s[0] == '-' <==> negative,
        decreases hi - i,
    {
        let c: char = chars[i];
        assert(digits[i - start] == c);
        if c < '0' || '9' < c {
            assert(!is_digit(digits[i - start]));
            return None;
        }
        let digit: u64 = (c as u32 - '0' as u32) as u64;
        value = 10 * value + digit;
        let ghost next = digits.subrange(0, i - start + 1);
        assert(next.subrange(0, next.len() - 1) =~= digits.subrange(0, i - start));
        assert(value == decimal(next));
        assert(all_digits(next)) by {
            assert forall|j: int| 0 <= j < next.len() implies is_digit(#[trigger] next[j]) by {
                if j < i - start {
                    assert(next[j] == digits.subrange(0, i - start)[j]);
                }
            }
        }
        if value > 0x8000_0000 {
            proof {
                if all_digits(digits) {
                    decimal_grows(digits, i - start + 1);
                }
            }
            return None;
        }
        i = i + 1;
    }
    assert(digits.subrange(0, i - start) =~= digits);
    if negative {
        Some((-(value as i64)) as i32)
    } else if value <= 0x7fff_ffff {
        Some(value as i32)
    } else {
        None
    }
}

/// Index of the first `c` in `chars[lo..hi]`, or `hi` where there is none.
pub fn find(chars: &Vec<char>, lo: usize, hi: usize, c: char) -> (r: usize)
    requires
        lo <= hi <= chars@.len(),
    ensures
        lo <= r <= hi,
        r - lo == position(chars@.subrange(lo as int, hi as int), c),
        r < hi ==> chars@[r as int] == c,
{
    let mut i: usize = lo;
    while i < hi && chars[i] != c
        invariant
            lo <= i <= hi <= chars@.len(),
            position(chars@.subrange(lo as int, hi as int), c) == i - lo + position(
                chars@.subrange(i as int, hi as int),
                c,
            ),
        decreases hi - i,
    {
        let ghost rest = chars@.subrange(i as int, hi as int);
        assert(rest.subrange(1, rest.len() as int) =~= chars@.subrange(i + 1, hi as int));
        i = i + 1;
    }
    i
}

/// Puts one path component behind another.
pub fn join_path(base: String, part: &str) -> (r: String)
    ensures
        r@ == joined(base@, part@),
{
    if part.unicode_len() > 0 && part.get_char(0) == '/' {
        return part.to_owned();
    }
    let n: usize = base.as_str().unicode_len();
    if n == 0 || base.as_str().get_char(n - 1) == '/' {
        base.concat(part)
    } else {
        proof {
            reveal_strlit("/");
        }
        assert("/"@ =~= seq!['/']);
        base.concat("/").concat(part)
    }
}

/// A text in double quotes, with its special characters escaped.
pub uninterp spec fn quoted(text: Seq<char>) -> Seq<char>;

/// Puts a text in double quotes with the `Debug` form of `str`.
///
/// Claimed: the outcome depends on the text alone. Left unsaid: which characters
/// are escaped, and how.
#[verifier::external_body]
pub(crate) fn quote(text: &str) -> (r: String)
    ensures
        r@ == quoted(text@),
{
    format!("{:?}", text)
}

/// The digits of a number are digits, and stand for it.
pub proof fn digits_stand_for_number(n: nat)
    ensures
        digits(n).len() > 0,
        all_digits(digits(n)),
        decimal(digits(n)) == n,
    decreases n,
{
    reveal_with_fuel(decimal, 2);
    let s = digits(n);
    if n < 10 {
        assert(s.subrange(0, 0) =~= Seq::<char>::empty());
    } else {
        digits_stand_for_number(n / 10);
        assert(s.subrange(0, s.len() - 1) =~= digits(n / 10));
        assert forall|i: int| 0 <= i < s.len() implies is_digit(#[trigger] s[i]) by {
            if i < s.len() - 1 {
                assert(s[i] == digits(n / 10)[i]);
            }
        }
    }
}

/// Every `i32` can be read back from its decimal form.
pub proof fn written_reads_back(x: i32)
    ensures
        as_i32(written(x as int)) == Some(x),
{
    let s = written(x as int);
    if x < 0 {
        digits_stand_for_number((-x) as nat);
        assert(digits_of(s) =~= digits((-x) as nat));
    } else {
        digits_stand_for_number(x as nat);
        assert(is_digit(s[0]));
        assert(digits_of(s) =~= digits(x as nat));
    }
}

/// Every character of a decimal form is a minus sign or a digit.
pub proof fn written_is_plain(x: int)
    ensures
        written(x).len() > 0,
        forall|i: int|
            0 <= i < written(x).len() ==> (#[trigger] written(x)[i] == '-' || is_digit(
                written(x)[i],
            )),
{
    if x < 0 {
        digits_stand_for_number((-x) as nat);
        assert forall|i: int| 0 <= i < written(x).len() implies (#[trigger] written(x)[i] == '-'
            || is_digit(written(x)[i])) by {
            if i > 0 {
                assert(written(x)[i] == digits((-x) as nat)[i - 1]);
            }
        }
    } else {
        digits_stand_for_number(x as nat);
    }
}

proof fn trim_start_of_padded(w: Seq<char>, s: Seq<char>)
    requires
        all_white(w),
        s.len() > 0,
        !is_white(s[0]),
    ensures
        trim_start(w + s) == s,
    decreases w.len(),
{
    if w.len() == 0 {
        assert(w + s =~= s);
    } else {
        let rest = w.subrange(1, w.len() as int);
        assert(is_white(w[0]));
        assert((w + s).subrange(1, (w + s).len() as int) =~= rest + s);
        trim_start_of_padded(rest, s);
    }
}

proof fn trim_end_of_padded(s: Seq<char>, w: Seq<char>)
    requires
        all_white(w),
        s.len() > 0,
        !is_white(s[s.len() - 1]),
    ensures
        trim_end(s + w) == s,
    decreases w.len(),
{
    if w.len() == 0 {
        assert(s + w =~= s);
    } else {
        let rest = w.subrange(0, w.len() - 1);
        assert(is_white(w[w.len() - 1]));
        assert((s + w).subrange(0, (s + w).len() - 1) =~= s + rest);
        trim_end_of_padded(s, rest);
    }
}

/// Trimming takes away whatever white space was put around a text that neither
/// starts nor ends with any.
pub proof fn trim_undoes_padding(before: Seq<char>, s: Seq<char>, after: Seq<char>)
    requires
        all_white(before),
        all_white(after),
        s.len() > 0,
        !is_white(s[0]),
        !is_white(s[s.len() - 1]),
    ensures
        trim(before + s + after) == s,
{
    assert(before + s + after =~= before + (s + after));
    trim_start_of_padded(before, s + after);
    trim_end_of_padded(s, after);
}

/// The first `c` of a text stands right behind a part that holds none.
pub proof fn position_behind(a: Seq<char>, c: char, b: Seq<char>)
    requires
        forall|i: int| 0 <= i < a.len() ==> #[trigger] a[i] != c,
    ensures
        position(a + seq![c] + b, c) == a.len(),
    decreases a.len(),
{
    let s = a + seq![c] + b;
    if a.len() > 0 {
        let rest = a.subrange(1, a.len() as int);
        assert(s[0] == a[0]);
        assert(s.subrange(1, s.len() as int) =~= rest + seq![c] + b);
        position_behind(rest, c, b);
    }
}

/// A position is that of the first such character, and past the end where there is
/// none.
pub proof fn position_is_the_first(s: Seq<char>, c: char)
    ensures
        0 <= position(s, c) <= s.len(),
        position(s, c) < s.len() ==> s[position(s, c)] == c,
        forall|i: int| 0 <= i < position(s, c) ==> #[trigger] s[i] != c,
        position(s, c) < s.len() <==> s.contains(c),
    decreases s.len(),
{
    if s.len() > 0 && s[0] != c {
        let rest = s.subrange(1, s.len() as int);
        position_is_the_first(rest, c);
        assert forall|i: int| 0 <= i < position(s, c) implies #[trigger] s[i] != c by {
            if i > 0 {
                assert(s[i] == rest[i - 1]);
            }
        }
        if s.contains(c) {
            let i = choose|i: int| 0 <= i < s.len() && s[i] == c;
            assert(rest[i - 1] == c);
        }
    }
}

proof fn trim_start_cuts_white(s: Seq<char>)
    ensures
        ({
            let n = s.len() - trim_start(s).len();
            &&& 0 <= n <= s.len()
            &&& trim_start(s) == s.subrange(n, s.len() as int)
            &&& all_white(s.subrange(0, n))
            &&& trim_start(s).len() > 0 ==> !is_white(trim_start(s)[0])
        }),
    decreases s.len(),
{
    if s.len() > 0 && is_white(s[0]) {
        let rest = s.subrange(1, s.len() as int);
        trim_start_cuts_white(rest);
        let n = s.len() - trim_start(s).len();
        assert(rest.subrange(n - 1, rest.len() as int) =~= s.subrange(n, s.len() as int));
        assert forall|i: int| 0 <= i < n implies is_white(#[trigger] s.subrange(0, n)[i]) by {
            if i > 0 {
                assert(s[i] == rest.subrange(0, n - 1)[i - 1]);
            }
        }
    } else {
        assert(s.subrange(0, s.len() as int) =~= s);
    }
}

proof fn trim_end_cuts_white(s: Seq<char>)
    ensures
        ({
            let n = trim_end(s).len() as int;
            &&& n <= s.len()
            &&& trim_end(s) == s.subrange(0, n)
            &&& all_white(s.subrange(n, s.len() as int))
            &&& n > 0 ==> !is_white(trim_end(s)[n - 1])
        }),
    decreases s.len(),
{
    if s.len() > 0 && is_white(s[s.len() - 1]) {
        let front = s.subrange(0, s.len() - 1);
        trim_end_cuts_white(front);
        let n = trim_end(s).len() as int;
        assert(front.subrange(0, n) =~= s.subrange(0, n));
        let cut = s.subrange(n, s.len() as int);
        assert forall|i: int| 0 <= i < cut.len() implies is_white(#[trigger] cut[i]) by {
            if i < cut.len() - 1 {
                assert(cut[i] == front.subrange(n, front.len() as int)[i]);
            }
        }
    } else {
        assert(s.subrange(0, s.len() as int) =~= s);
    }
}

/// Trimming cuts white space off both ends, nothing else, and all of it.
pub proof fn trimming_cuts_white_ends(s: Seq<char>)
    ensures
        exists|before: Seq<char>, after: Seq<char>|
            #![trigger all_white(before), all_white(after)]
            all_white(before) && all_white(after) && s == before + trim(s) + after,
        trim(s).len() > 0 ==> !is_white(trim(s)[0]) && !is_white(trim(s)[trim(s).len() - 1]),
{
    trim_start_cuts_white(s);
    let t = trim_start(s);
    trim_end_cuts_white(t);
    let before = s.subrange(0, s.len() - t.len());
    let after = t.subrange(trim(s).len() as int, t.len() as int);
    assert(all_white(before) && all_white(after));
    assert(s =~= before + trim(s) + after);
}

/// What counts as white space in ASCII are the blank and the five controls from the
/// tab to the carriage return.
pub proof fn ascii_white_space(c: char)
    requires
        (c as u32) < 0x80,
    ensures
        is_white(c) <==> c == ' ' || 0x09 <= c as u32 <= 0x0d,
{
}

/// A digit alone is the number that it stands for.
pub proof fn digit_is_read(c: char)
    requires
        '0' <= c <= '9',
    ensures
        as_i32(seq![c]) is Some,
        as_i32(seq![c])->0 == c as int - 48,
{
    reveal_with_fuel(decimal, 2);
    let s = seq![c];
    assert(digits_of(s) =~= s);
    assert(s.subrange(0, 0) =~= Seq::<char>::empty());
}

/// One more digit makes a number ten times as large, away from zero, and adds to it,
/// as long as it is an `i32`; a number that starts with a minus sign goes down.
pub proof fn one_more_digit(s: Seq<char>, c: char)
    requires
        '0' <= c <= '9',
        as_i32(s) is Some,
    ensures
        ({
            let x = as_i32(s)->0;
            let v = c as int - 48;
            let next = if s[0] == '-' {
                10 * x - v
            } else {
                10 * x + v
            };
            &&& s.len() > 0
            &&& i32::MIN <= next <= i32::MAX ==> as_i32(s.push(c)) == Some(next as i32)
            &&& !(i32::MIN <= next <= i32::MAX) ==> as_i32(s.push(c)) is None
        }),
{
    let t = s.push(c);
    assert(t[0] == s[0]);
    assert(digits_of(t) =~= digits_of(s).push(c));
    let d = digits_of(t);
    assert(d.subrange(0, d.len() - 1) =~= digits_of(s));
    assert forall|i: int| 0 <= i < d.len() implies is_digit(#[trigger] d[i]) by {
        if i < d.len() - 1 {
            assert(d[i] == digits_of(s)[i]);
        }
    }
}

/// A plus sign in front of digits changes nothing, and a minus sign turns the number
/// round.
pub proof fn signs_turn_numbers(s: Seq<char>)
    requires
        as_i32(s) is Some,
        '0' <= s[0] <= '9',
    ensures
        as_i32(seq!['+'] + s) == as_i32(s),
        as_i32(seq!['-'] + s) is Some,
        as_i32(seq!['-'] + s)->0 == -as_i32(s)->0,
{
    assert(digits_of(s) =~= s);
    assert(digits_of(seq!['+'] + s) =~= s);
    assert(digits_of(seq!['-'] + s) =~= s);
    decimal_grows(s, 0);
    assert(s.subrange(0, 0) =~= Seq::<char>::empty());
}

/// Nothing else is read: an integer has a digit, and nothing but digits behind a
/// sign that it may start with. Where one is read, so is what it is without its last
/// digit, if there is a digit left.
pub proof fn only_integers_are_read(s: Seq<char>)
    requires
        as_i32(s) is Some,
    ensures
        s.len() > 0,
        '0' <= s[s.len() - 1] <= '9',
        forall|i: int| 0 < i < s.len() ==> '0' <= #[trigger] s[i] <= '9',
        '0' <= s[0] <= '9' || s[0] == '+' || s[0] == '-',
        s.len() > 2 || s.len() == 2 && '0' <= s[0] <= '9' ==> as_i32(s.drop_last()) is Some,
{
    let d = digits_of(s);
    assert forall|i: int| 0 < i < s.len() implies '0' <= #[trigger] s[i] <= '9' by {
        if has_sign(s) {
            assert(d[i - 1] == s[i]);
        } else {
            assert(d[i] == s[i]);
        }
    }
    if !has_sign(s) {
        assert(d[0] == s[0]);
    }
    if s.len() > 2 || s.len() == 2 && '0' <= s[0] <= '9' {
        let t = s.drop_last();
        assert(t[0] == s[0]);
        assert(digits_of(t) =~= d.subrange(0, d.len() - 1));
        decimal_grows(d, d.len() - 1);
        assert forall|i: int| 0 <= i < digits_of(t).len() implies is_digit(
            #[trigger] digits_of(t)[i],
        ) by {
            assert(digits_of(t)[i] == d[i]);
        }
        assert(is_digit(d[d.len() - 1]));
        assert(decimal(d) >= decimal(digits_of(t)));
    }
}

/// Joining puts exactly one slash between the two where the first part has none at
/// its end, none in front of the first of all, and lets an absolute path stand alone.
pub proof fn joining_puts_one_slash(base: Seq<char>, part: Seq<char>)
    ensures
        part.len() > 0 && part[0] == '/' ==> joined(base, part) == part,
        !(part.len() > 0 && part[0] == '/') ==> {
            &&& base.len() == 0 ==> joined(base, part) == part
            &&& base.len() > 0 && base[base.len() - 1] == '/' ==> joined(base, part) == base + part
            &&& base.len() > 0 && base[base.len() - 1] != '/' ==> joined(base, part) == base
                + seq!['/'] + part
        },
{
    assert(base.len() == 0 ==> base + part =~= part);
}

} // verus!
