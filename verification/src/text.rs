use vstd::prelude::*;

verus! {

/// The characters of `s`, in order.
pub fn chars_of(s: &str) -> (r: Vec<char>)
    ensures
        r@ == s@,
{
    let n = s.unicode_len();
    let mut v: Vec<char> = Vec::new();
    let mut i: usize = 0;
    while i < n
        invariant
            n == s@.len(),
            i <= n,
            v@ == s@.take(i as int),
        decreases n - i,
    {
        v.push(s.get_char(i));
        proof {
            assert(s@.take(i as int + 1) =~= s@.take(i as int).push(s@[i as int]));
        }
        i += 1;
    }
    proof {
        assert(s@.take(n as int) =~= s@);
    }
    v
}

/// `String::push`: appends `c`.
#[verifier::external_body]
fn string_push(s: &mut String, c: char)
    ensures
        final(s)@ == old(s)@.push(c),
{
    s.push(c)
}

/// The string made of the characters `cs`.
pub fn string_of(cs: &[char]) -> (r: String)
    ensures
        r@ == cs@,
{
    let mut s = String::new();
    let mut i: usize = 0;
    while i < cs.len()
        invariant
            i <= cs@.len(),
            s@ == cs@.take(i as int),
        decreases cs@.len() - i,
    {
        string_push(&mut s, cs[i]);
        proof {
            assert(cs@.take(i as int + 1) =~= cs@.take(i as int).push(cs@[i as int]));
        }
        i += 1;
    }
    proof {
        assert(cs@.take(cs@.len() as int) =~= cs@);
    }
    s
}

/// Appends the characters `cs` to `s`.
pub fn push_chars(s: &mut String, cs: &[char])
    ensures
        final(s)@ == old(s)@ + cs@,
{
    let mut i: usize = 0;
    while i < cs.len()
        invariant
            i <= cs@.len(),
            s@ == old(s)@ + cs@.take(i as int),
        decreases cs@.len() - i,
    {
        string_push(s, cs[i]);
        proof {
            assert(cs@.take(i as int + 1) =~= cs@.take(i as int).push(cs@[i as int]));
            assert(old(s)@ + cs@.take(i as int + 1) =~= (old(s)@ + cs@.take(i as int)).push(cs@[i as int]));
        }
        i += 1;
    }
    proof {
        assert(cs@.take(cs@.len() as int) =~= cs@);
    }
}

/// Appends the character `c` to `s`.
pub fn push_char(s: &mut String, c: char)
    ensures
        final(s)@ == old(s)@.push(c),
{
    string_push(s, c)
}

/// `c` is ASCII white space: space, tab, line feed, form feed or carriage
/// return.
pub open spec fn is_ascii_ws(c: char) -> bool {
    c == ' ' || c == '\t' || c == '\n' || c == '\x0C' || c == '\r'
}

/// Whether `c` is ASCII white space.
pub fn is_ws(c: char) -> (r: bool)
    ensures
        r == is_ascii_ws(c),
{
    c == ' ' || c == '\t' || c == '\n' || c == '\x0C' || c == '\r'
}

/// The maximal runs of non-white-space characters of `s`, in order.
pub open spec fn split_ws(s: Seq<char>) -> Seq<Seq<char>>
    decreases s.len(),
{
    if s.len() == 0 {
        Seq::empty()
    } else {
        let rest = split_ws(s.drop_last());
        let c = s.last();
        if is_ascii_ws(c) {
            rest
        } else if s.len() >= 2 && !is_ascii_ws(s[s.len() - 2]) {
            rest.update(rest.len() - 1, rest.last().push(c))
        } else {
            rest.push(seq![c])
        }
    }
}

/// A run ends at the last character exactly when that character is not
/// white space, and then there is at least one run.
proof fn lemma_split_ws_nonempty(s: Seq<char>)
    requires
        s.len() > 0,
        !is_ascii_ws(s.last()),
    ensures
        split_ws(s).len() > 0,
    decreases s.len(),
{
    if s.len() >= 2 && !is_ascii_ws(s[s.len() - 2]) {
        assert(s.drop_last().last() == s[s.len() - 2]);
        lemma_split_ws_nonempty(s.drop_last());
    }
}

/// Splits `s` at ASCII white space into its non-empty runs.
pub fn split_whitespace(s: &[char]) -> (r: Vec<Vec<char>>)
    ensures
        r@.len() == split_ws(s@).len(),
        forall|i: int| 0 <= i < r@.len() ==> (#[trigger] r@[i])@ == split_ws(s@)[i],
{
    let mut toks: Vec<Vec<char>> = Vec::new();
    let mut i: usize = 0;
    while i < s.len()
        invariant
            i <= s@.len(),
            toks@.len() == split_ws(s@.take(i as int)).len(),
            forall|k: int| 0 <= k < toks@.len() ==> (#[trigger] toks@[k])@ == split_ws(s@.take(i as int))[k],
        decreases s@.len() - i,
    {
        let c = s[i];
        let ghost pre = s@.take(i as int);
        let ghost post = s@.take(i as int + 1);
        proof {
            assert(post.drop_last() =~= pre);
            assert(post.last() == c);
        }
        if is_ws(c) {
        } else if i > 0 && !is_ws(s[i - 1]) {
            proof {
                assert(post[post.len() - 2] == s@[i - 1]);
                assert(pre.last() == s@[i - 1]);
                lemma_split_ws_nonempty(pre);
            }
            let last = toks.len() - 1;
            let mut t = toks.remove(last);
            t.push(c);
            toks.push(t);
            proof {
                assert forall|k: int| 0 <= k < toks@.len() implies (#[trigger] toks@[k])@ == split_ws(post)[k] by {
                }
            }
        } else {
            let mut t: Vec<char> = Vec::new();
            t.push(c);
            toks.push(t);
            proof {
                assert(t@ =~= seq![c]);
                if i > 0 {
                    assert(post[post.len() - 2] == s@[i - 1]);
                }
            }
        }
        i += 1;
    }
    proof {
        assert(s@.take(s@.len() as int) =~= s@);
    }
    toks
}

/// `a` and `b` hold the same characters.
pub fn chars_eq(a: &[char], b: &[char]) -> (r: bool)
    ensures
        r == (a@ == b@),
{
    if a.len() != b.len() {
        return false;
    }
    let mut i: usize = 0;
    while i < a.len()
        invariant
            a@.len() == b@.len(),
            i <= a@.len(),
            forall|k: int| 0 <= k < i ==> a@[k] == b@[k],
        decreases a@.len() - i,
    {
        if a[i] != b[i] {
            return false;
        }
        i += 1;
    }
    proof {
        assert(a@ =~= b@);
    }
    true
}

/// Whether the characters `t` spell `lit`.
pub fn chars_is(t: &[char], lit: &str) -> (r: bool)
    ensures
        r == (t@ == lit@),
{
    let l = chars_of(lit);
    chars_eq(t, l.as_slice())
}

/// The value of decimal digit `c`.
pub open spec fn digit_value(c: char) -> int {
    c as int - '0' as int
}

/// `c` is one of `0`..`9`.
pub open spec fn is_digit(c: char) -> bool {
    '0' <= c <= '9'
}

/// Why a number could not be read, as Rust's integer parsing reports it.
#[derive(Debug, Copy, Clone, PartialEq, Eq, Structural)]
pub enum IntErrorKind {
    Empty,
    InvalidDigit,
    PosOverflow,
    NegOverflow,
}

/// Reading the digits `d` left to right into a magnitude at most `max`: the
/// first non-digit gives `InvalidDigit`, the first digit that takes the
/// value above `max` gives `overflow`.
pub open spec fn read_digits(d: Seq<char>, max: int, overflow: IntErrorKind) -> Result<int, IntErrorKind>
    decreases d.len(),
{
    if d.len() == 0 {
        Ok(0)
    } else {
        match read_digits(d.drop_last(), max, overflow) {
            Err(e) => Err(e),
            Ok(v) => if !is_digit(d.last()) {
                Err(IntErrorKind::InvalidDigit)
            } else if v * 10 + digit_value(d.last()) > max {
                Err(overflow)
            } else {
                Ok(v * 10 + digit_value(d.last()))
            },
        }
    }
}

/// Rust's reading of an unsigned number up to `max` from `s`: an optional
/// `+`, then at least one decimal digit.
pub open spec fn parse_unsigned_spec(s: Seq<char>, max: int) -> Result<int, IntErrorKind> {
    if s.len() == 0 {
        Err(IntErrorKind::Empty)
    } else if s[0] == '+' && s.len() == 1 {
        Err(IntErrorKind::InvalidDigit)
    } else if s[0] == '+' {
        read_digits(s.drop_first(), max, IntErrorKind::PosOverflow)
    } else {
        read_digits(s, max, IntErrorKind::PosOverflow)
    }
}

/// Rust's reading of a signed 64-bit number from `s`: an optional sign,
/// then at least one decimal digit.
pub open spec fn parse_i64_spec(s: Seq<char>) -> Result<int, IntErrorKind> {
    if s.len() == 0 {
        Err(IntErrorKind::Empty)
    } else if (s[0] == '+' || s[0] == '-') && s.len() == 1 {
        Err(IntErrorKind::InvalidDigit)
    } else if s[0] == '-' {
        match read_digits(s.drop_first(), i64::MAX + 1, IntErrorKind::NegOverflow) {
            Ok(v) => Ok(-v),
            Err(e) => Err(e),
        }
    } else if s[0] == '+' {
        read_digits(s.drop_first(), i64::MAX as int, IntErrorKind::PosOverflow)
    } else {
        read_digits(s, i64::MAX as int, IntErrorKind::PosOverflow)
    }
}

/// Law: a number read as unsigned up to `max` lies in `0..=max`.
pub proof fn law_parse_unsigned_bounds(s: Seq<char>, max: int)
    requires
        max >= 0,
    ensures
        parse_unsigned_spec(s, max) matches Ok(v) ==> 0 <= v <= max,
{
    lemma_read_digits_bounds(s, max, IntErrorKind::PosOverflow);
    if s.len() > 0 {
        lemma_read_digits_bounds(s.drop_first(), max, IntErrorKind::PosOverflow);
    }
}

/// A successful reading lies in `0..=max`.
proof fn lemma_read_digits_bounds(d: Seq<char>, max: int, overflow: IntErrorKind)
    requires
        max >= 0,
    ensures
        read_digits(d, max, overflow) matches Ok(v) ==> 0 <= v <= max,
    decreases d.len(),
{
    if d.len() > 0 {
        lemma_read_digits_bounds(d.drop_last(), max, overflow);
    }
}

/// Reads the digits of `d[from..]` as `read_digits` does.
fn read_digits_exec(d: &[char], from: usize, max: u64, overflow: IntErrorKind) -> (r: Result<u64, IntErrorKind>)
    requires
        from <= d@.len(),
        max >= 9,
    ensures
        r matches Ok(v) ==> v <= max,
        read_digits(d@.skip(from as int), max as int, overflow) matches Ok(v) ==> 0 <= v <= max,
        match read_digits(d@.skip(from as int), max as int, overflow) {
            Ok(v) => r == Ok::<u64, IntErrorKind>(v as u64),
            Err(e) => r == Err::<u64, IntErrorKind>(e),
        },
{
    proof {
        lemma_read_digits_bounds(d@.skip(from as int), max as int, overflow);
    }
    let mut v: u64 = 0;
    let mut i: usize = from;
    while i < d.len()
        invariant
            from <= i <= d@.len(),
            read_digits(d@.subrange(from as int, i as int), max as int, overflow) == Ok::<int, IntErrorKind>(v as int),
            v <= max,
            max >= 9,
        decreases d@.len() - i,
    {
        let c = d[i];
        proof {
            assert(d@.subrange(from as int, i as int + 1).drop_last() =~= d@.subrange(from as int, i as int));
        }
        if !('0' <= c && c <= '9') {
            proof {
                lemma_read_digits_err(d@, from as int, i as int + 1, max as int, overflow);
            }
            return Err(IntErrorKind::InvalidDigit);
        }
        let dv: u64 = (c as u32 - '0' as u32) as u64;
        assert(dv <= 9 && dv == digit_value(c));
        if v > (max - dv) / 10 {
            proof {
                assert(v * 10 + dv > max) by (nonlinear_arith)
                    requires
                        v > (max - dv) / 10,
                        dv <= max,
                ;
                lemma_read_digits_err(d@, from as int, i as int + 1, max as int, overflow);
            }
            return Err(overflow);
        }
        proof {
            assert(v * 10 + dv <= max) by (nonlinear_arith)
                requires
                    v <= (max - dv) / 10,
                    dv <= max,
            ;
        }
        v = v * 10 + dv;
        i += 1;
    }
    proof {
        assert(d@.subrange(from as int, d@.len() as int) =~= d@.skip(from as int));
    }
    Ok(v)
}

/// Once reading fails on a prefix, reading any longer prefix fails the
/// same way.
proof fn lemma_read_digits_err(d: Seq<char>, from: int, i: int, max: int, overflow: IntErrorKind)
    requires
        0 <= from <= i <= d.len(),
        read_digits(d.subrange(from, i), max, overflow) is Err,
    ensures
        read_digits(d.skip(from), max, overflow) == read_digits(d.subrange(from, i), max, overflow),
    decreases d.len() - i,
{
    if i < d.len() {
        assert(d.subrange(from, i + 1).drop_last() =~= d.subrange(from, i));
        lemma_read_digits_err(d, from, i + 1, max, overflow);
    } else {
        assert(d.subrange(from, i) =~= d.skip(from));
    }
}

/// Reads an unsigned number up to `max` from `s` as Rust's integer
/// parsing does (see `parse_unsigned_spec`).
pub fn parse_unsigned(s: &[char], max: u64) -> (r: Result<u64, IntErrorKind>)
    requires
        max >= 9,
    ensures
        r matches Ok(v) ==> v <= max,
        parse_unsigned_spec(s@, max as int) matches Ok(v) ==> 0 <= v <= max,
        match parse_unsigned_spec(s@, max as int) {
            Ok(v) => r == Ok::<u64, IntErrorKind>(v as u64),
            Err(e) => r == Err::<u64, IntErrorKind>(e),
        },
{
    if s.len() == 0 {
        return Err(IntErrorKind::Empty);
    }
    if s[0] == '+' {
        if s.len() == 1 {
            return Err(IntErrorKind::InvalidDigit);
        }
        proof {
            assert(s@.skip(1) =~= s@.drop_first());
        }
        read_digits_exec(s, 1, max, IntErrorKind::PosOverflow)
    } else {
        proof {
            assert(s@.skip(0) =~= s@);
        }
        read_digits_exec(s, 0, max, IntErrorKind::PosOverflow)
    }
}

/// Reads a signed 64-bit number from `s` as Rust's integer parsing does
/// (see `parse_i64_spec`).
pub fn parse_i64(s: &[char]) -> (r: Result<i64, IntErrorKind>)
    ensures
        parse_i64_spec(s@) matches Ok(v) ==> i64::MIN <= v <= i64::MAX,
        match parse_i64_spec(s@) {
            Ok(v) => r == Ok::<i64, IntErrorKind>(v as i64),
            Err(e) => r == Err::<i64, IntErrorKind>(e),
        },
{
    if s.len() == 0 {
        return Err(IntErrorKind::Empty);
    }
    if (s[0] == '+' || s[0] == '-') && s.len() == 1 {
        return Err(IntErrorKind::InvalidDigit);
    }
    if s[0] == '-' {
        proof {
            assert(s@.skip(1) =~= s@.drop_first());
            assert(parse_i64_spec(s@) == match read_digits(s@.drop_first(), i64::MAX + 1, IntErrorKind::NegOverflow) {
                Ok(v) => Ok::<int, IntErrorKind>(-v),
                Err(e) => Err::<int, IntErrorKind>(e),
            });
        }
        match read_digits_exec(s, 1, 9223372036854775808u64, IntErrorKind::NegOverflow) {
            Ok(v) => {
                if v == 9223372036854775808u64 {
                    assert((-(v as int)) as i64 == i64::MIN);
                    Ok(i64::MIN)
                } else {
                    let w: i64 = v as i64;
                    assert(-w == (-(v as int)) as i64);
                    Ok(-w)
                }
            },
            Err(e) => Err(e),
        }
    } else if s[0] == '+' {
        proof {
            assert(s@.skip(1) =~= s@.drop_first());
        }
        match read_digits_exec(s, 1, 9223372036854775807u64, IntErrorKind::PosOverflow) {
            Ok(v) => Ok(v as i64),
            Err(e) => Err(e),
        }
    } else {
        proof {
            assert(s@.skip(0) =~= s@);
        }
        match read_digits_exec(s, 0, 9223372036854775807u64, IntErrorKind::PosOverflow) {
            Ok(v) => Ok(v as i64),
            Err(e) => Err(e),
        }
    }
}

/// Rust's reading of a `bool`: exactly `true` or `false`.
pub open spec fn parse_bool_spec(s: Seq<char>) -> Option<bool> {
    if s == seq!['t', 'r', 'u', 'e'] {
        Some(true)
    } else if s == seq!['f', 'a', 'l', 's', 'e'] {
        Some(false)
    } else {
        None
    }
}

/// Reads a `bool` as Rust does (see `parse_bool_spec`).
pub fn parse_bool(s: &[char]) -> (r: Option<bool>)
    ensures
        r == parse_bool_spec(s@),
{
    if s.len() == 4 && s[0] == 't' && s[1] == 'r' && s[2] == 'u' && s[3] == 'e' {
        proof {
            assert(s@ =~= seq!['t', 'r', 'u', 'e']);
        }
        Some(true)
    } else if s.len() == 5 && s[0] == 'f' && s[1] == 'a' && s[2] == 'l' && s[3] == 's' && s[4] == 'e' {
        proof {
            assert(s@ =~= seq!['f', 'a', 'l', 's', 'e']);
            assert(s@ != seq!['t', 'r', 'u', 'e']);
        }
        Some(false)
    } else {
        proof {
            if s@ == seq!['t', 'r', 'u', 'e'] {
                assert(s@.len() == 4 && s@[0] == 't');
            }
            if s@ == seq!['f', 'a', 'l', 's', 'e'] {
                assert(s@.len() == 5 && s@[0] == 'f');
            }
        }
        None
    }
}

/// `c` is white space in the sense of Unicode (`char::is_whitespace`).
pub open spec fn is_unicode_ws(c: char) -> bool {
    ||| '\t' <= c <= '\r'
    ||| c == ' '
    ||| c == '\u{85}'
    ||| c == '\u{a0}'
    ||| c == '\u{1680}'
    ||| '\u{2000}' <= c <= '\u{200a}'
    ||| c == '\u{2028}'
    ||| c == '\u{2029}'
    ||| c == '\u{202f}'
    ||| c == '\u{205f}'
    ||| c == '\u{3000}'
}

/// `t` without its leading white space.
pub open spec fn trim_front(t: Seq<char>) -> Seq<char>
    decreases t.len(),
{
    if t.len() > 0 && is_unicode_ws(t[0]) {
        trim_front(t.drop_first())
    } else {
        t
    }
}

/// `t` without its trailing white space.
pub open spec fn trim_back(t: Seq<char>) -> Seq<char>
    decreases t.len(),
{
    if t.len() > 0 && is_unicode_ws(t.last()) {
        trim_back(t.drop_last())
    } else {
        t
    }
}

/// `t` without leading and trailing white space (`str::trim`).
pub open spec fn trim(t: Seq<char>) -> Seq<char> {
    trim_back(trim_front(t))
}

/// Whether `c` is white space (see `is_unicode_ws`).
pub fn is_unicode_ws_exec(c: char) -> (r: bool)
    ensures
        r == is_unicode_ws(c),
{
    ('\t' <= c && c <= '\r') || c == ' ' || c == '\u{85}' || c == '\u{a0}' || c == '\u{1680}' || (
    '\u{2000}' <= c && c <= '\u{200a}') || c == '\u{2028}' || c == '\u{2029}' || c == '\u{202f}' || c
        == '\u{205f}' || c == '\u{3000}'
}

/// `t` without leading and trailing white space (see `trim`).
pub fn trim_chars(t: &[char]) -> (r: Vec<char>)
    ensures
        r@ == trim(t@),
{
    let mut i: usize = 0;
    assert(t@.skip(0) =~= t@);
    while i < t.len() && is_unicode_ws_exec(t[i])
        invariant
            i <= t@.len(),
            trim_front(t@) == trim_front(t@.skip(i as int)),
        decreases t@.len() - i,
    {
        proof {
            assert(t@.skip(i as int).drop_first() =~= t@.skip(i as int + 1));
        }
        i += 1;
    }
    let ghost front = t@.skip(i as int);
    assert(trim_front(t@) == front);
    let mut j: usize = t.len();
    while j > i && is_unicode_ws_exec(t[j - 1])
        invariant
            i <= j <= t@.len(),
            front == t@.skip(i as int),
            trim_back(front) == trim_back(t@.subrange(i as int, j as int)),
        decreases j,
    {
        proof {
            assert(t@.subrange(i as int, j as int).drop_last() =~= t@.subrange(i as int, j as int - 1));
        }
        j -= 1;
    }
    proof {
        if i == t@.len() {
            assert(front.len() == 0);
        }
        assert(t@.subrange(i as int, t@.len() as int) =~= front);
    }
    assert(trim_back(t@.subrange(i as int, j as int)) == t@.subrange(i as int, j as int));
    let mut r: Vec<char> = Vec::new();
    let mut k: usize = i;
    while k < j
        invariant
            i <= k <= j <= t@.len(),
            r@ == t@.subrange(i as int, k as int),
        decreases j - k,
    {
        r.push(t[k]);
        proof {
            assert(t@.subrange(i as int, k as int + 1) =~= t@.subrange(i as int, k as int).push(t@[k as int]));
        }
        k += 1;
    }
    r
}

} // verus!
