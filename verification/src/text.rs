//! Character-level text operations used by the request parser: searching,
//! splitting on a separator, trimming white space and reading decimal numbers.
//!
//! Every operation is stated over `Seq<char>` models; the executable versions
//! work on a `Vec<char>` copy of a string and cut pieces out of the given
//! `&str`.
use vstd::prelude::*;

verus! {

broadcast use vstd::string::group_string_axioms;

/// `pat` occurs in `s` starting at index `i`.
pub open spec fn matches_at<A>(s: Seq<A>, pat: Seq<A>, i: int) -> bool {
    &&& 0 <= i
    &&& i + pat.len() <= s.len()
    &&& s.subrange(i, i + pat.len()) == pat
}

/// No occurrence of `pat` in `s` starts before index `k`.
pub open spec fn no_match_before<A>(s: Seq<A>, pat: Seq<A>, k: int) -> bool {
    forall|j: int| 0 <= j < k ==> !#[trigger] matches_at(s, pat, j)
}

/// Index of the leftmost occurrence of `pat` in `s`, or -1 when there is none.
pub open spec fn find<A>(s: Seq<A>, pat: Seq<A>) -> int
    decreases s.len(),
{
    if pat.len() == 0 {
        0
    } else if s.len() < pat.len() {
        -1
    } else if s.subrange(0, pat.len() as int) == pat {
        0
    } else {
        let r = find(s.drop_first(), pat);
        if r < 0 {
            -1
        } else {
            r + 1
        }
    }
}

/// `find` gives the leftmost occurrence, and -1 exactly when there is none.
pub proof fn lemma_find<A>(s: Seq<A>, pat: Seq<A>)
    ensures
        -1 <= find(s, pat) <= s.len(),
        find(s, pat) >= 0 ==> matches_at(s, pat, find(s, pat)),
        find(s, pat) >= 0 ==> no_match_before(s, pat, find(s, pat)),
        find(s, pat) < 0 ==> no_match_before(s, pat, s.len() + 1int),
    decreases s.len(),
{
    if pat.len() == 0 {
        assert(s.subrange(0, 0) =~= pat);
    } else if s.len() < pat.len() {
    } else if s.subrange(0, pat.len() as int) == pat {
    } else {
        let t = s.drop_first();
        lemma_find(t, pat);
        assert forall|j: int| 1 <= j <= s.len() implies matches_at(s, pat, j) == matches_at(
            t,
            pat,
            j - 1,
        ) by {
            if j + pat.len() <= s.len() {
                assert(s.subrange(j, j + pat.len()) =~= t.subrange(j - 1, j - 1 + pat.len()));
            }
        }
        assert(!matches_at(s, pat, 0));
        let r = find(t, pat);
        if r >= 0 {
            assert(matches_at(t, pat, r));
            assert(matches_at(s, pat, r + 1));
            assert forall|j: int| 0 <= j < r + 1 implies !#[trigger] matches_at(s, pat, j) by {
                if j >= 1 {
                    assert(!matches_at(t, pat, j - 1));
                }
            }
        } else {
            assert forall|j: int| 0 <= j < s.len() + 1 implies !#[trigger] matches_at(
                s,
                pat,
                j,
            ) by {
                if j >= 1 {
                    assert(!matches_at(t, pat, j - 1));
                }
            }
        }
    }
}

/// An occurrence with none before it is the one `find` reports.
pub proof fn lemma_find_is<A>(s: Seq<A>, pat: Seq<A>, i: int)
    requires
        matches_at(s, pat, i),
        no_match_before(s, pat, i),
    ensures
        find(s, pat) == i,
{
    lemma_find(s, pat);
    let f = find(s, pat);
    if f < 0 {
        assert(!matches_at(s, pat, i));
    } else if f < i {
        assert(!matches_at(s, pat, f));
    } else if f > i {
        assert(!matches_at(s, pat, i));
    }
}

/// With no occurrence at all, `find` reports -1.
pub proof fn lemma_find_none<A>(s: Seq<A>, pat: Seq<A>)
    requires
        no_match_before(s, pat, s.len() + 1int),
    ensures
        find(s, pat) == -1,
{
    lemma_find(s, pat);
    if find(s, pat) >= 0 {
        assert(!matches_at(s, pat, find(s, pat)));
    }
}

/// The pieces of `s` between the occurrences of `sep`, taken from left to right
/// without overlap (the pieces `str::split` yields). An empty separator leaves
/// `s` whole.
pub open spec fn split(s: Seq<char>, sep: Seq<char>) -> Seq<Seq<char>>
    decreases s.len(),
{
    if sep.len() == 0 {
        seq![s]
    } else {
        let i = find(s, sep);
        if i < 0 {
            seq![s]
        } else {
            proof {
                lemma_find(s, sep);
            }
            seq![s.subrange(0, i)] + split(s.subrange(i + sep.len(), s.len() as int), sep)
        }
    }
}

/// The text before and after the first occurrence of `sep` (what
/// `str::split_once` gives), or `None` when `sep` does not occur.
pub open spec fn split_once(s: Seq<char>, sep: Seq<char>) -> Option<(Seq<char>, Seq<char>)> {
    let i = find(s, sep);
    if i < 0 {
        None
    } else {
        Some((s.subrange(0, i), s.subrange(i + sep.len(), s.len() as int)))
    }
}

/// Splitting at an occurrence with none before it: the first piece is the
/// text before it, the others are the pieces of the text after it.
pub proof fn lemma_split_at(s: Seq<char>, sep: Seq<char>, i: int)
    requires
        sep.len() > 0,
        matches_at(s, sep, i),
        no_match_before(s, sep, i),
    ensures
        split(s, sep) == seq![s.subrange(0, i)] + split(s.subrange(i + sep.len(), s.len() as int), sep),
{
    lemma_find_is(s, sep, i);
}

/// A text without the separator is a single piece.
pub proof fn lemma_split_whole(s: Seq<char>, sep: Seq<char>)
    requires
        sep.len() > 0,
        no_match_before(s, sep, s.len() + 1int),
    ensures
        split(s, sep) == seq![s],
{
    lemma_find_none(s, sep);
}

/// A one-character separator occurs where that character stands.
pub proof fn lemma_matches_char(s: Seq<char>, c: char, i: int)
    ensures
        matches_at(s, seq![c], i) <==> (0 <= i < s.len() && s[i] == c),
{
    if 0 <= i < s.len() {
        if s[i] == c {
            assert(s.subrange(i, i + 1) =~= seq![c]);
        } else {
            assert(s.subrange(i, i + 1)[0] != seq![c][0]);
        }
    }
}

/// A two-character separator occurs where those two characters stand.
pub proof fn lemma_matches_pair(s: Seq<char>, c: char, d: char, i: int)
    ensures
        matches_at(s, seq![c, d], i) <==> (0 <= i && i + 1 < s.len() && s[i] == c && s[i + 1] == d),
{
    if 0 <= i && i + 1 < s.len() {
        if s[i] == c && s[i + 1] == d {
            assert(s.subrange(i, i + 2) =~= seq![c, d]);
        } else if s[i] != c {
            assert(s.subrange(i, i + 2)[0] != seq![c, d][0]);
        } else {
            assert(s.subrange(i, i + 2)[1] != seq![c, d][1]);
        }
    }
}

/// Whether `c` is white space in the sense of `char::is_whitespace` (the
/// Unicode `White_Space` property).
pub open spec fn is_space(c: char) -> bool {
    let u = c as u32;
    ||| 0x09 <= u <= 0x0d
    ||| u == 0x20
    ||| u == 0x85
    ||| u == 0xa0
    ||| u == 0x1680
    ||| 0x2000 <= u <= 0x200a
    ||| u == 0x2028
    ||| u == 0x2029
    ||| u == 0x202f
    ||| u == 0x205f
    ||| u == 0x3000
}

/// `s` without its leading white space.
pub open spec fn trim_start(s: Seq<char>) -> Seq<char>
    decreases s.len(),
{
    if s.len() > 0 && is_space(s[0]) {
        trim_start(s.drop_first())
    } else {
        s
    }
}

/// `s` without its trailing white space.
pub open spec fn trim_end(s: Seq<char>) -> Seq<char>
    decreases s.len(),
{
    if s.len() > 0 && is_space(s.last()) {
        trim_end(s.drop_last())
    } else {
        s
    }
}

/// `s` without leading and trailing white space (`str::trim`).
pub open spec fn trim(s: Seq<char>) -> Seq<char> {
    trim_end(trim_start(s))
}

/// Whether `c` is one of the ASCII digits `0` to `9`.
pub open spec fn is_digit(c: char) -> bool {
    '0' <= c <= '9'
}

/// The value of the digit `c`.
pub open spec fn digit_value(c: char) -> nat {
    (c as u32 - '0' as u32) as nat
}

/// The number that the digits `d` spell in base ten.
pub open spec fn digits_value(d: Seq<char>) -> nat
    decreases d.len(),
{
    if d.len() == 0 {
        0
    } else {
        digits_value(d.drop_last()) * 10 + digit_value(d.last())
    }
}

/// All characters of `d` are ASCII digits.
pub open spec fn all_digits(d: Seq<char>) -> bool {
    forall|i: int| 0 <= i < d.len() ==> is_digit(#[trigger] d[i])
}

/// The digits of an unsigned number in text: `s` without one leading `+`.
pub open spec fn unsigned_digits(s: Seq<char>) -> Seq<char> {
    if s.len() > 0 && s[0] == '+' {
        s.drop_first()
    } else {
        s
    }
}

/// What `str::parse::<usize>` gives: an optional `+`, then one or more ASCII
/// digits whose value fits in a `usize`; `None` for any other text.
pub open spec fn parse_usize(s: Seq<char>) -> Option<usize> {
    let d = unsigned_digits(s);
    if d.len() > 0 && all_digits(d) && digits_value(d) <= usize::MAX {
        Some(digits_value(d) as usize)
    } else {
        None
    }
}

/// The character of the digit `d` (below ten).
pub open spec fn digit_char(d: nat) -> char {
    (d + 48) as char
}

/// The decimal text of `n`, without sign or leading zeros.
pub open spec fn decimal(n: nat) -> Seq<char>
    decreases n,
{
    if n < 10 {
        seq![digit_char(n)]
    } else {
        decimal(n / 10).push(digit_char(n % 10))
    }
}

/// Digits that go on can only make the number larger.
pub proof fn lemma_digits_value_prefix(d: Seq<char>, i: int)
    requires
        0 <= i <= d.len(),
    ensures
        digits_value(d.subrange(0, i)) <= digits_value(d),
    decreases d.len() - i,
{
    if i < d.len() {
        lemma_digits_value_prefix(d, i + 1);
        let p = d.subrange(0, i + 1);
        assert(p.drop_last() =~= d.subrange(0, i));
    } else {
        assert(d.subrange(0, i) =~= d);
    }
}

/// Trimming leaves a text that begins and ends with a digit as it is.
pub proof fn lemma_trim_digits(s: Seq<char>)
    requires
        s.len() > 0,
        all_digits(s),
    ensures
        trim(s) == s,
{
    assert(is_digit(s[0]));
    assert(is_digit(s.last()));
    assert(trim_start(s) == s);
}

/// The decimal text of a number is all digits and spells that number.
pub proof fn lemma_decimal(n: nat)
    ensures
        decimal(n).len() > 0,
        all_digits(decimal(n)),
        digits_value(decimal(n)) == n,
        decimal(n)[0] != '+',
    decreases n,
{
    if n >= 10 {
        lemma_decimal(n / 10);
        let d = decimal(n);
        assert(d.drop_last() =~= decimal(n / 10));
        assert(d.last() == digit_char(n % 10));
        assert(digit_value(digit_char(n % 10)) == n % 10);
        assert(digits_value(d) == digits_value(decimal(n / 10)) * 10 + n % 10);
        assert(n == (n / 10) * 10 + n % 10);
        assert forall|i: int| 0 <= i < d.len() implies is_digit(#[trigger] d[i]) by {
            if i < d.len() - 1 {
                assert(d[i] == decimal(n / 10)[i]);
            }
        }
    } else {
        assert(digit_value(digit_char(n)) == n);
        let d = decimal(n);
        assert(d == seq![digit_char(n)]);
        assert(d.drop_last() =~= Seq::<char>::empty());
        assert(digits_value(d.drop_last()) == 0);
        assert(d.last() == digit_char(n));
        assert(digits_value(d) == n);
    }
}

/// Reading back the decimal text of a number that fits in a `usize` gives the
/// number again.
pub proof fn lemma_parse_decimal(n: nat)
    requires
        n <= usize::MAX,
    ensures
        parse_usize(decimal(n)) == Some(n as usize),
{
    lemma_decimal(n);
}

/// The number of bytes that `c` takes in UTF-8.
pub open spec fn char_width(c: char) -> nat {
    let u = c as u32;
    if u < 0x80 {
        1
    } else if u < 0x800 {
        2
    } else if u < 0x10000 {
        3
    } else {
        4
    }
}

/// The number of bytes of the UTF-8 encoding of `s` (what `str::len` gives;
/// see `lemma_utf8_len_encoding`).
pub open spec fn utf8_len(s: Seq<char>) -> nat
    decreases s.len(),
{
    if s.len() == 0 {
        0
    } else {
        char_width(s[0]) + utf8_len(s.drop_first())
    }
}

/// The encoded length of two texts put together is the sum of their lengths.
pub proof fn lemma_utf8_len_concat(x: Seq<char>, y: Seq<char>)
    ensures
        utf8_len(x + y) == utf8_len(x) + utf8_len(y),
    decreases x.len(),
{
    if x.len() > 0 {
        lemma_utf8_len_concat(x.drop_first(), y);
        assert((x + y).drop_first() =~= x.drop_first() + y);
    } else {
        assert(x + y =~= y);
    }
}

/// `utf8_len` is the length of vstd's UTF-8 encoding of the text.
pub proof fn lemma_utf8_len_encoding(s: Seq<char>)
    ensures
        utf8_len(s) == vstd::utf8::encode_utf8(s).len(),
    decreases s.len(),
{
    if s.len() > 0 {
        lemma_utf8_len_encoding(s.drop_first());
        let c = s[0];
        vstd::utf8::char_is_scalar(c);
        assert(vstd::utf8::encode_scalar(c as u32).len() == char_width(c));
    }
}

/// The encoded length of `cs[a..b]`.
pub fn utf8_len_in(cs: &Vec<char>, a: usize, b: usize) -> (n: u128)
    requires
        a <= b <= cs@.len(),
    ensures
        n == utf8_len(cs@.subrange(a as int, b as int)),
        n <= 4 * (b - a),
{
    let mut n: u128 = 0;
    let mut i = a;
    while i < b
        invariant
            a <= i <= b,
            b <= cs@.len(),
            n == utf8_len(cs@.subrange(a as int, i as int)),
            n <= 4 * (i - a),
        decreases b - i,
    {
        let u = cs[i] as u32;
        let w: u128 = if u < 0x80 {
            1
        } else if u < 0x800 {
            2
        } else if u < 0x10000 {
            3
        } else {
            4
        };
        proof {
            let c = cs@[i as int];
            assert(cs@.subrange(a as int, i + 1) =~= cs@.subrange(a as int, i as int) + seq![c]);
            lemma_utf8_len_concat(cs@.subrange(a as int, i as int), seq![c]);
            assert(seq![c].drop_first() =~= Seq::<char>::empty());
            assert(utf8_len(Seq::<char>::empty()) == 0);
            assert(seq![c][0] == c);
            assert(utf8_len(seq![c]) == char_width(c) + utf8_len(seq![c].drop_first()));
        }
        n = n + w;
        i += 1;
    }
    n
}

/// Whether `cs[a..b]` is exactly the text `pat`.
pub fn range_is(cs: &Vec<char>, a: usize, b: usize, pat: &Vec<char>) -> (r: bool)
    requires
        a <= b <= cs@.len(),
    ensures
        r == (cs@.subrange(a as int, b as int) == pat@),
{
    if b - a != pat.len() {
        return false;
    }
    matches_here(cs, a, pat)
}

/// A copy of the characters of `s`.
pub fn chars_of(s: &str) -> (v: Vec<char>)
    ensures
        v@ == s@,
{
    let mut v: Vec<char> = Vec::new();
    for c in it: s.chars()
        invariant
            v.len() == it.index(),
            forall|i: int| 0 <= i < v.len() ==> v@[i] == it.seq()[i],
    {
        v.push(c);
    }
    assert(v@ =~= s@);
    v
}

/// The text of `cs[a..b]`, cut out of `s` (whose characters `cs` holds).
pub fn piece(s: &str, cs: &Vec<char>, a: usize, b: usize) -> (r: String)
    requires
        cs@ == s@,
        a <= b <= cs@.len(),
    ensures
        r@ == cs@.subrange(a as int, b as int),
{
    s.substring_char(a, b).to_owned()
}

/// Whether `pat` occurs in `cs` at index `i`.
pub fn matches_here(cs: &Vec<char>, i: usize, pat: &Vec<char>) -> (b: bool)
    requires
        i <= cs@.len(),
    ensures
        b == matches_at(cs@, pat@, i as int),
{
    if pat.len() > cs.len() - i {
        return false;
    }
    let mut k: usize = 0;
    while k < pat.len()
        invariant
            k <= pat@.len(),
            i + pat@.len() <= cs@.len(),
            cs@.len() <= usize::MAX,
            forall|t: int| 0 <= t < k ==> cs@[i + t] == pat@[t],
        decreases pat@.len() - k,
    {
        if cs[i + k] != pat[k] {
            assert(cs@.subrange(i as int, i + pat@.len())[k as int] != pat@[k as int]);
            return false;
        }
        k += 1;
    }
    assert(cs@.subrange(i as int, i + pat@.len()) =~= pat@);
    true
}

/// The leftmost occurrence of `pat` in `cs[lo..hi]`, as an index into `cs`.
pub fn find_in(cs: &Vec<char>, lo: usize, hi: usize, pat: &Vec<char>) -> (r: Option<usize>)
    requires
        lo <= hi <= cs@.len(),
        pat@.len() > 0,
    ensures
        match r {
            Some(i) => lo <= i && i + pat@.len() <= hi && find(
                cs@.subrange(lo as int, hi as int),
                pat@,
            ) == i - lo,
            None => find(cs@.subrange(lo as int, hi as int), pat@) == -1,
        },
{
    let ghost sub = cs@.subrange(lo as int, hi as int);
    let mut i = lo;
    while i <= hi && pat.len() <= hi - i
        invariant
            lo <= i <= hi,
            hi <= cs@.len(),
            sub == cs@.subrange(lo as int, hi as int),
            pat@.len() > 0,
            no_match_before(sub, pat@, i - lo),
        decreases hi - i,
    {
        let m = matches_here(cs, i, pat);
        if m {
            assert(sub.subrange(i - lo, i - lo + pat@.len()) =~= cs@.subrange(
                i as int,
                i + pat@.len(),
            ));
            proof {
                lemma_find_is(sub, pat@, i - lo);
            }
            return Some(i);
        }
        assert(!matches_at(sub, pat@, i - lo)) by {
            if matches_at(sub, pat@, i - lo) {
                assert(sub.subrange(i - lo, i - lo + pat@.len()) =~= cs@.subrange(
                    i as int,
                    i + pat@.len(),
                ));
            }
        }
        i += 1;
    }
    proof {
        lemma_find_none(sub, pat@);
    }
    None
}

/// The pieces of `cs[lo..hi]` between occurrences of `sep`, as index ranges
/// into `cs`.
pub fn split_in(cs: &Vec<char>, lo: usize, hi: usize, sep: &Vec<char>) -> (r: Vec<(usize, usize)>)
    requires
        lo <= hi <= cs@.len(),
        sep@.len() > 0,
    ensures
        r@.len() == split(cs@.subrange(lo as int, hi as int), sep@).len(),
        forall|k: int|
            0 <= k < r@.len() ==> lo <= (#[trigger] r@[k]).0 <= r@[k].1 <= hi && cs@.subrange(
                r@[k].0 as int,
                r@[k].1 as int,
            ) == split(cs@.subrange(lo as int, hi as int), sep@)[k],
{
    let ghost whole = split(cs@.subrange(lo as int, hi as int), sep@);
    let mut out: Vec<(usize, usize)> = Vec::new();
    let mut pos = lo;
    loop
        invariant
            lo <= pos <= hi,
            hi <= cs@.len(),
            sep@.len() > 0,
            whole == split(cs@.subrange(lo as int, hi as int), sep@),
            whole.len() == out@.len() + split(cs@.subrange(pos as int, hi as int), sep@).len(),
            forall|k: int|
                0 <= k < out@.len() ==> lo <= (#[trigger] out@[k]).0 <= out@[k].1 <= hi
                    && cs@.subrange(out@[k].0 as int, out@[k].1 as int) == whole[k],
            forall|k: int|
                0 <= k < split(cs@.subrange(pos as int, hi as int), sep@).len() ==> whole[out@.len()
                    + k] == #[trigger] split(cs@.subrange(pos as int, hi as int), sep@)[k],
        decreases hi - pos,
    {
        let ghost rest = cs@.subrange(pos as int, hi as int);
        match find_in(cs, pos, hi, sep) {
            Some(i) => {
                let ghost next = cs@.subrange(i + sep@.len(), hi as int);
                assert(rest.subrange(0, i - pos) =~= cs@.subrange(pos as int, i as int));
                assert(rest.subrange(i - pos + sep@.len(), rest.len() as int) =~= next);
                assert(split(rest, sep@) == seq![cs@.subrange(pos as int, i as int)] + split(
                    next,
                    sep@,
                ));
                assert(whole[out@.len() as int] == split(rest, sep@)[0]);
                out.push((pos, i));
                pos = i + sep.len();
                assert forall|k: int|
                    0 <= k < split(cs@.subrange(pos as int, hi as int), sep@).len() implies whole[out@.len()
                    + k] == #[trigger] split(cs@.subrange(pos as int, hi as int), sep@)[k] by {
                    assert(split(rest, sep@)[k + 1] == split(next, sep@)[k]);
                }
            },
            None => {
                assert(split(rest, sep@) == seq![rest]);
                assert(whole[out@.len() as int] == split(rest, sep@)[0]);
                out.push((pos, hi));
                return out;
            },
        }
    }
}

/// The part of `cs[a..b]` without leading and trailing white space, as a
/// range of `cs`.
pub fn trim_in(cs: &Vec<char>, a: usize, b: usize) -> (r: (usize, usize))
    requires
        a <= b <= cs@.len(),
    ensures
        a <= r.0 <= r.1 <= b,
        cs@.subrange(r.0 as int, r.1 as int) == trim(cs@.subrange(a as int, b as int)),
{
    let mut i = a;
    while i < b && is_space_char(cs[i])
        invariant
            a <= i <= b,
            b <= cs@.len(),
            trim_start(cs@.subrange(a as int, b as int)) == trim_start(
                cs@.subrange(i as int, b as int),
            ),
        decreases b - i,
    {
        assert(cs@.subrange(i as int, b as int).drop_first() =~= cs@.subrange(i + 1, b as int));
        i += 1;
    }
    let mut j = b;
    while j > i && is_space_char(cs[j - 1])
        invariant
            i <= j <= b,
            b <= cs@.len(),
            trim_start(cs@.subrange(i as int, b as int)) == cs@.subrange(i as int, b as int),
            trim_end(cs@.subrange(i as int, b as int)) == trim_end(
                cs@.subrange(i as int, j as int),
            ),
        decreases j - i,
    {
        assert(cs@.subrange(i as int, j as int).drop_last() =~= cs@.subrange(i as int, j - 1));
        j -= 1;
    }
    (i, j)
}

/// Whether `c` is white space (`char::is_whitespace`).
pub fn is_space_char(c: char) -> (b: bool)
    ensures
        b == is_space(c),
{
    let u = c as u32;
    (0x09 <= u && u <= 0x0d) || u == 0x20 || u == 0x85 || u == 0xa0 || u == 0x1680 || (0x2000 <= u
        && u <= 0x200a) || u == 0x2028 || u == 0x2029 || u == 0x202f || u == 0x205f || u == 0x3000
}

/// Reads `cs[a..b]` as an unsigned number, as `str::parse::<usize>` does.
pub fn parse_usize_in(cs: &Vec<char>, a: usize, b: usize) -> (r: Option<usize>)
    requires
        a <= b <= cs@.len(),
    ensures
        r == parse_usize(cs@.subrange(a as int, b as int)),
{
    let ghost s = cs@.subrange(a as int, b as int);
    let mut i = a;
    if i < b && cs[i] == '+' {
        i += 1;
    }
    let ghost d = cs@.subrange(i as int, b as int);
    assert(d =~= unsigned_digits(s));
    if i == b {
        return None;
    }
    let mut v: usize = 0;
    let mut k = i;
    while k < b
        invariant
            i <= k <= b,
            b <= cs@.len(),
            s == cs@.subrange(a as int, b as int),
            d == cs@.subrange(i as int, b as int),
            d.len() > 0,
            d == unsigned_digits(s),
            all_digits(d.subrange(0, k - i)),
            v == digits_value(d.subrange(0, k - i)),
        decreases b - k,
    {
        let c = cs[k];
        if !('0' <= c && c <= '9') {
            assert(!is_digit(d[k - i]));
            return None;
        }
        let dv = (c as u32 - '0' as u32) as usize;
        let ghost p = d.subrange(0, k + 1 - i);
        assert(p.drop_last() =~= d.subrange(0, k - i));
        assert(digits_value(p) == digits_value(d.subrange(0, k - i)) * 10 + dv);
        let next = match v.checked_mul(10) {
            Some(t) => t.checked_add(dv),
            None => None,
        };
        match next {
            Some(nv) => {
                v = nv;
            },
            None => {
                proof {
                    if all_digits(d) {
                        lemma_digits_value_prefix(d, k + 1 - i);
                    }
                }
                return None;
            },
        }
        k += 1;
        assert(all_digits(d.subrange(0, k - i))) by {
            assert forall|t: int| 0 <= t < k - i implies is_digit(
                #[trigger] d.subrange(0, k - i)[t],
            ) by {
                if t < k - 1 - i {
                    assert(d.subrange(0, k - i)[t] == d.subrange(0, k - 1 - i)[t]);
                }
            }
        }
    }
    assert(d.subrange(0, d.len() as int) =~= d);
    Some(v)
}

/// The one-character text of the digit `d`.
fn digit_str(d: u128) -> (s: &'static str)
    requires
        d < 10,
    ensures
        s@ == seq![digit_char(d as nat)],
{
    proof {
        reveal_strlit("0");
        reveal_strlit("1");
        reveal_strlit("2");
        reveal_strlit("3");
        reveal_strlit("4");
        reveal_strlit("5");
        reveal_strlit("6");
        reveal_strlit("7");
        reveal_strlit("8");
        reveal_strlit("9");
    }
    match d {
        0 => "0",
        1 => "1",
        2 => "2",
        3 => "3",
        4 => "4",
        5 => "5",
        6 => "6",
        7 => "7",
        8 => "8",
        _ => "9",
    }
}

/// The decimal text of `n`.
pub fn decimal_string(n: u128) -> (r: String)
    ensures
        r@ == decimal(n as nat),
    decreases n,
{
    if n < 10 {
        let mut r = String::new();
        r.append(digit_str(n));
        r
    } else {
        let mut r = decimal_string(n / 10);
        r.append(digit_str(n % 10));
        r
    }
}

} // verus!
