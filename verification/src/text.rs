//! Verified character and string primitives used throughout the library:
//! whitespace classification, ASCII case folding, conversion between `&str`
//! and `Vec<char>`, and substring matching.

use vstd::prelude::*;
use vstd::string::*;

verus! {

/// The white-space characters recognized when trimming a line: the Unicode
/// `White_Space` set, as `char::is_whitespace` documents it.
pub open spec fn is_space(c: char) -> bool {
    let u = c as u32;
    u == 0x20 || (0x09 <= u && u <= 0x0D) || u == 0x85 || u == 0xA0 || u == 0x1680
        || (0x2000 <= u && u <= 0x200A) || u == 0x2028 || u == 0x2029 || u == 0x202F
        || u == 0x205F || u == 0x3000
}

/// Runtime counterpart of [`is_space`].
pub fn is_space_char(c: char) -> (r: bool)
    ensures
        r == is_space(c),
{
    let u = c as u32;
    u == 0x20 || (0x09 <= u && u <= 0x0D) || u == 0x85 || u == 0xA0 || u == 0x1680
        || (0x2000 <= u && u <= 0x200A) || u == 0x2028 || u == 0x2029 || u == 0x202F
        || u == 0x205F || u == 0x3000
}

/// ASCII case folding of one character: `A`..`Z` map to `a`..`z`, every
/// other character stays as it is.
pub open spec fn lower_char(c: char) -> char {
    let u = c as u32;
    if 0x41 <= u && u <= 0x5A {
        ((u + 0x20) as u8) as char
    } else {
        c
    }
}

/// Runtime counterpart of [`lower_char`].
pub fn to_lower_char(c: char) -> (r: char)
    ensures
        r == lower_char(c),
{
    let u = c as u32;
    if 0x41 <= u && u <= 0x5A {
        ((u + 0x20) as u8) as char
    } else {
        c
    }
}

/// ASCII case folding of a whole character sequence.
pub open spec fn lower_seq(s: Seq<char>) -> Seq<char> {
    Seq::new(s.len(), |i: int| lower_char(s[i]))
}

/// Collects the characters of a string slice into a vector.
pub fn chars_of(s: &str) -> (r: Vec<char>)
    ensures
        r@ == s@,
{
    let n = s.unicode_len();
    let mut v: Vec<char> = Vec::new();
    let mut i: usize = 0;
    while i < n
        invariant
            i <= n,
            n == s@.len(),
            v@ == s@.subrange(0, i as int),
        decreases n - i,
    {
        let c = s.get_char(i);
        v.push(c);
        i = i + 1;
        proof {
            assert(v@ =~= s@.subrange(0, i as int));
        }
    }
    proof {
        assert(v@ =~= s@);
    }
    v
}

/// Relies on `String::push`: appends one character at the end of the string.
#[verifier::external_body]
fn push_char(s: &mut String, c: char)
    ensures
        final(s)@ == old(s)@.push(c),
{
    s.push(c);
}

/// Builds a `String` out of a character vector.
pub fn string_from_chars(v: &Vec<char>) -> (r: String)
    ensures
        r@ == v@,
{
    let mut s = String::new();
    let mut i: usize = 0;
    while i < v.len()
        invariant
            i <= v.len(),
            s@ == v@.subrange(0, i as int),
        decreases v.len() - i,
    {
        push_char(&mut s, v[i]);
        i = i + 1;
        proof {
            assert(s@ =~= v@.subrange(0, i as int));
        }
    }
    proof {
        assert(s@ =~= v@);
    }
    s
}

/// `pat` occurs in `s` starting at position `i`.
pub open spec fn occurs_at(s: Seq<char>, pat: Seq<char>, i: int) -> bool {
    0 <= i && i + pat.len() <= s.len() && s.subrange(i, i + pat.len()) == pat
}

/// `pat` occurs somewhere in `s`.
pub open spec fn contains_seq(s: Seq<char>, pat: Seq<char>) -> bool {
    exists|i: int| occurs_at(s, pat, i)
}

/// Decides whether `pat` occurs in `v` at position `i`.
pub fn matches_at(v: &Vec<char>, pat: &Vec<char>, i: usize) -> (r: bool)
    requires
        i <= v@.len(),
    ensures
        r == occurs_at(v@, pat@, i as int),
{
    let m = pat.len();
    let n = v.len();
    if n - i < m {
        return false;
    }
    let mut j: usize = 0;
    while j < m
        invariant
            j <= m,
            m == pat@.len(),
            n == v@.len(),
            i + m <= n,
            forall|k: int| 0 <= k < j ==> v@[i + k] == pat@[k],
        decreases m - j,
    {
        if v[i + j] != pat[j] {
            proof {
                assert(v@.subrange(i as int, i + m) != pat@) by {
                    assert(v@.subrange(i as int, i + m)[j as int] != pat@[j as int]);
                }
            }
            return false;
        }
        j = j + 1;
    }
    proof {
        assert(v@.subrange(i as int, i + m) =~= pat@);
    }
    true
}

/// Decides whether `pat` occurs anywhere in `v`.
pub fn contains_chars(v: &Vec<char>, pat: &Vec<char>) -> (r: bool)
    ensures
        r == contains_seq(v@, pat@),
{
    let mut i: usize = 0;
    while i < v.len()
        invariant
            i <= v@.len(),
            forall|k: int| 0 <= k < i ==> !occurs_at(v@, pat@, k),
        decreases v.len() - i,
    {
        if matches_at(v, pat, i) {
            return true;
        }
        i = i + 1;
    }
    if matches_at(v, pat, i) {
        return true;
    }
    proof {
        assert(forall|k: int| occurs_at(v@, pat@, k) ==> 0 <= k <= v@.len());
    }
    false
}

/// Decides whether the string `s` contains the string `pat`.
pub fn str_contains(s: &str, pat: &str) -> (r: bool)
    ensures
        r == contains_seq(s@, pat@),
{
    let v = chars_of(s);
    let p = chars_of(pat);
    contains_chars(&v, &p)
}

/// `s` starts with `pat`.
pub open spec fn starts_with_seq(s: Seq<char>, pat: Seq<char>) -> bool {
    occurs_at(s, pat, 0)
}

/// Decides whether the string `s` starts with the string `pat`.
pub fn str_starts_with(s: &str, pat: &str) -> (r: bool)
    ensures
        r == starts_with_seq(s@, pat@),
{
    let v = chars_of(s);
    let p = chars_of(pat);
    matches_at(&v, &p, 0)
}

} // verus!

verus! {

/// Leading white space removed.
pub open spec fn trim_start_seq(s: Seq<char>) -> Seq<char>
    decreases s.len(),
{
    if s.len() > 0 && is_space(s[0]) {
        trim_start_seq(s.drop_first())
    } else {
        s
    }
}

/// Trailing white space removed.
pub open spec fn trim_end_seq(s: Seq<char>) -> Seq<char>
    decreases s.len(),
{
    if s.len() > 0 && is_space(s.last()) {
        trim_end_seq(s.drop_last())
    } else {
        s
    }
}

/// Leading and trailing white space removed.
pub open spec fn trim_seq(s: Seq<char>) -> Seq<char> {
    trim_end_seq(trim_start_seq(s))
}

/// Copies `v[from..to]` into a fresh vector.
pub fn copy_range(v: &Vec<char>, from: usize, to: usize) -> (r: Vec<char>)
    requires
        from <= to <= v@.len(),
    ensures
        r@ == v@.subrange(from as int, to as int),
{
    let mut r: Vec<char> = Vec::new();
    let mut i: usize = from;
    while i < to
        invariant
            from <= i <= to <= v@.len(),
            r@ == v@.subrange(from as int, i as int),
        decreases to - i,
    {
        r.push(v[i]);
        i = i + 1;
        proof {
            assert(r@ =~= v@.subrange(from as int, i as int));
        }
    }
    r
}

/// Removes leading and trailing white space from a character vector.
pub fn trim_chars(v: &Vec<char>) -> (r: Vec<char>)
    ensures
        r@ == trim_seq(v@),
{
    let n = v.len();
    proof {
        assert(v@.subrange(0, n as int) =~= v@);
    }
    let mut a: usize = 0;
    while a < n && is_space_char(v[a])
        invariant
            a <= n,
            n == v@.len(),
            trim_start_seq(v@) == trim_start_seq(v@.subrange(a as int, n as int)),
        decreases n - a,
    {
        proof {
            assert(v@.subrange(a as int, n as int).drop_first() =~= v@.subrange(
                a as int + 1,
                n as int,
            ));
        }
        a = a + 1;
    }
    proof {
        if a == n {
            assert(v@.subrange(a as int, n as int) =~= Seq::<char>::empty());
        }
        assert(trim_start_seq(v@) == v@.subrange(a as int, n as int));
    }
    let mut b: usize = n;
    while b > a && is_space_char(v[b - 1])
        invariant
            a <= b <= n,
            n == v@.len(),
            trim_start_seq(v@) == v@.subrange(a as int, n as int),
            trim_end_seq(v@.subrange(a as int, n as int)) == trim_end_seq(
                v@.subrange(a as int, b as int),
            ),
        decreases b,
    {
        proof {
            assert(v@.subrange(a as int, b as int).drop_last() =~= v@.subrange(
                a as int,
                b as int - 1,
            ));
            assert(v@.subrange(a as int, b as int).last() == v@[b as int - 1]);
        }
        b = b - 1;
    }
    proof {
        if a == b {
            assert(v@.subrange(a as int, b as int) =~= Seq::<char>::empty());
        }
        assert(trim_seq(v@) == v@.subrange(a as int, b as int));
    }
    copy_range(v, a, b)
}

/// Removes only trailing white space from a character vector.
pub fn trim_end_chars(v: &Vec<char>) -> (r: Vec<char>)
    ensures
        r@ == trim_end_seq(v@),
{
    let n = v.len();
    proof {
        assert(v@.subrange(0, n as int) =~= v@);
    }
    let mut b: usize = n;
    while b > 0 && is_space_char(v[b - 1])
        invariant
            b <= n,
            n == v@.len(),
            trim_end_seq(v@) == trim_end_seq(v@.subrange(0, b as int)),
        decreases b,
    {
        proof {
            assert(v@.subrange(0, b as int).drop_last() =~= v@.subrange(0, b as int - 1));
            assert(v@.subrange(0, b as int).last() == v@[b as int - 1]);
        }
        b = b - 1;
    }
    proof {
        if b == 0 {
            assert(v@.subrange(0, 0) =~= Seq::<char>::empty());
        }
        assert(trim_end_seq(v@) == v@.subrange(0, b as int));
    }
    copy_range(v, 0, b)
}

/// The lines of `s`, split on `'\n'`: splitting the empty sequence gives one
/// empty line, and every `'\n'` ends the current line and opens a new one.
pub open spec fn split_lines_seq(s: Seq<char>) -> Seq<Seq<char>>
    decreases s.len(),
{
    if s.len() == 0 {
        seq![Seq::<char>::empty()]
    } else if s[0] == '\n' {
        seq![Seq::<char>::empty()] + split_lines_seq(s.drop_first())
    } else {
        let rest = split_lines_seq(s.drop_first());
        seq![seq![s[0]] + rest[0]] + rest.drop_first()
    }
}

/// Splitting always yields at least one line.
pub proof fn lemma_split_lines_len(s: Seq<char>)
    ensures
        split_lines_seq(s).len() >= 1,
    decreases s.len(),
{
    if s.len() > 0 {
        lemma_split_lines_len(s.drop_first());
    }
}

/// Appending a newline closes the last line and opens an empty one.
pub proof fn lemma_split_push_newline(p: Seq<char>)
    ensures
        split_lines_seq(p.push('\n')) == split_lines_seq(p).push(Seq::<char>::empty()),
    decreases p.len(),
{
    let q = p.push('\n');
    lemma_split_lines_len(p);
    if p.len() == 0 {
        assert(q[0] == '\n');
        assert(q.drop_first() =~= Seq::<char>::empty());
        assert(split_lines_seq(Seq::<char>::empty()) == seq![Seq::<char>::empty()]);
        assert(split_lines_seq(q) == seq![Seq::<char>::empty()] + split_lines_seq(
            Seq::<char>::empty(),
        ));
        assert(split_lines_seq(q) =~~= split_lines_seq(p).push(Seq::<char>::empty()));
    } else {
        lemma_split_push_newline(p.drop_first());
        lemma_split_lines_len(p.drop_first());
        assert(q.drop_first() =~= p.drop_first().push('\n'));
        assert(q[0] == p[0]);
        if p[0] == '\n' {
            assert(split_lines_seq(q) =~~= split_lines_seq(p).push(Seq::<char>::empty()));
        } else {
            let rp = split_lines_seq(p.drop_first());
            let rq = split_lines_seq(q.drop_first());
            assert(rq[0] == rp[0]);
            assert(rq.drop_first() =~~= rp.drop_first().push(Seq::<char>::empty()));
            assert(split_lines_seq(q) =~~= split_lines_seq(p).push(Seq::<char>::empty()));
        }
    }
}

/// Appending any other character extends the last line.
pub proof fn lemma_split_push_char(p: Seq<char>, c: char)
    requires
        c != '\n',
    ensures
        ({
            let sp = split_lines_seq(p);
            split_lines_seq(p.push(c)) == sp.update(sp.len() - 1, sp.last().push(c))
        }),
    decreases p.len(),
{
    let q = p.push(c);
    let sp = split_lines_seq(p);
    lemma_split_lines_len(p);
    if p.len() == 0 {
        assert(q[0] == c);
        assert(q.drop_first() =~= Seq::<char>::empty());
        assert(split_lines_seq(Seq::<char>::empty()) == seq![Seq::<char>::empty()]);
        let rest = split_lines_seq(q.drop_first());
        assert(rest == seq![Seq::<char>::empty()]);
        assert(split_lines_seq(q) == seq![seq![q[0]] + rest[0]] + rest.drop_first());
        assert(seq![q[0]] + rest[0] =~= seq![c]);
        assert(rest.drop_first() =~= Seq::<Seq<char>>::empty());
        assert(sp == seq![Seq::<char>::empty()]);
        assert(sp.last().push(c) =~= seq![c]);
        assert(split_lines_seq(q) =~~= sp.update(sp.len() - 1, sp.last().push(c)));
    } else {
        lemma_split_push_char(p.drop_first(), c);
        lemma_split_lines_len(p.drop_first());
        assert(q.drop_first() =~= p.drop_first().push(c));
        assert(q[0] == p[0]);
        let rp = split_lines_seq(p.drop_first());
        let rq = split_lines_seq(q.drop_first());
        if p[0] == '\n' {
            assert(sp.last() == rp.last());
            assert(split_lines_seq(q) =~~= sp.update(sp.len() - 1, sp.last().push(c)));
        } else {
            if rp.len() == 1 {
                assert(rq =~~= seq![rp[0].push(c)]);
                assert(rq.drop_first() =~~= rp.drop_first());
                assert(seq![q[0]] + rq[0] =~= (seq![p[0]] + rp[0]).push(c));
                assert(split_lines_seq(q) =~~= sp.update(sp.len() - 1, sp.last().push(c)));
            } else {
                assert(rq[0] == rp[0]);
                assert(rq.drop_first() =~~= rp.drop_first().update(
                    rp.len() - 2,
                    rp.last().push(c),
                ));
                assert(sp.last() == rp.last());
                assert(split_lines_seq(q) =~~= sp.update(sp.len() - 1, sp.last().push(c)));
            }
        }
    }
}

} // verus!

verus! {

/// Every occurrence of `from` in `s` replaced by `to`, scanning left to
/// right without overlap.  An empty pattern leaves `s` unchanged.
pub open spec fn replace_seq(s: Seq<char>, from: Seq<char>, to: Seq<char>) -> Seq<char>
    decreases s.len(),
{
    if from.len() == 0 || s.len() < from.len() {
        s
    } else if s.subrange(0, from.len() as int) == from {
        to + replace_seq(s.subrange(from.len() as int, s.len() as int), from, to)
    } else {
        seq![s[0]] + replace_seq(s.drop_first(), from, to)
    }
}

/// Replaces every occurrence of `from` in `v` by `to`.
pub fn replace_chars(v: &Vec<char>, from: &Vec<char>, to: &Vec<char>) -> (r: Vec<char>)
    ensures
        r@ == replace_seq(v@, from@, to@),
{
    let m = from.len();
    let n = v.len();
    if m == 0 {
        proof {
            assert(v@.subrange(0, n as int) =~= v@);
        }
        return copy_range(v, 0, n);
    }
    let mut out: Vec<char> = Vec::new();
    proof {
        assert(v@.subrange(0, n as int) =~= v@);
        assert(out@ + replace_seq(v@, from@, to@) =~= replace_seq(v@, from@, to@));
    }
    let mut i: usize = 0;
    while i < n
        invariant
            i <= n,
            n == v@.len(),
            m == from@.len(),
            m >= 1,
            out@ + replace_seq(v@.subrange(i as int, n as int), from@, to@) == replace_seq(
                v@,
                from@,
                to@,
            ),
        decreases n - i,
    {
        let ghost tail = v@.subrange(i as int, n as int);
        if matches_at(v, from, i) {
            proof {
                assert(tail.subrange(0, m as int) =~= v@.subrange(i as int, i as int + m));
                assert(tail.subrange(m as int, tail.len() as int) =~= v@.subrange(
                    i as int + m,
                    n as int,
                ));
            }
            let ghost out0 = out@;
            proof {
                assert(out@ =~= out0 + to@.subrange(0, 0));
            }
            let mut k: usize = 0;
            while k < to.len()
                invariant
                    k <= to@.len(),
                    out@ == out0 + to@.subrange(0, k as int),
                decreases to.len() - k,
            {
                out.push(to[k]);
                k = k + 1;
                proof {
                    assert(out@ =~= out0 + to@.subrange(0, k as int));
                }
            }
            proof {
                assert(out@ =~= out0 + to@);
            }
            i = i + m;
        } else {
            proof {
                if tail.len() >= m {
                    assert(tail.subrange(0, m as int) =~= v@.subrange(i as int, i as int + m));
                    assert(tail.drop_first() =~= v@.subrange(i as int + 1, n as int));
                } else {
                    assert(tail =~= seq![v@[i as int]] + v@.subrange(i as int + 1, n as int));
                    assert(replace_seq(v@.subrange(i as int + 1, n as int), from@, to@)
                        == v@.subrange(i as int + 1, n as int));
                }
            }
            out.push(v[i]);
            i = i + 1;
        }
        proof {
            assert(out@ + replace_seq(v@.subrange(i as int, n as int), from@, to@) =~= replace_seq(
                v@,
                from@,
                to@,
            ));
        }
    }
    proof {
        assert(v@.subrange(n as int, n as int) =~= Seq::<char>::empty());
        assert(out@ =~= replace_seq(v@, from@, to@));
    }
    out
}

/// Replaces every occurrence of `from` in the string `s` by `to`.
pub fn replace_str(s: &str, from: &str, to: &str) -> (r: String)
    ensures
        r@ == replace_seq(s@, from@, to@),
{
    let v = chars_of(s);
    let f = chars_of(from);
    let t = chars_of(to);
    let r = replace_chars(&v, &f, &t);
    string_from_chars(&r)
}

} // verus!

verus! {

/// The decimal digit character for `d`.
pub open spec fn digit_char(d: int) -> char {
    if d == 0 {
        '0'
    } else if d == 1 {
        '1'
    } else if d == 2 {
        '2'
    } else if d == 3 {
        '3'
    } else if d == 4 {
        '4'
    } else if d == 5 {
        '5'
    } else if d == 6 {
        '6'
    } else if d == 7 {
        '7'
    } else if d == 8 {
        '8'
    } else {
        '9'
    }
}

/// The decimal digits of a non-negative number, most significant first.
pub open spec fn dec_digits(n: int) -> Seq<char>
    decreases n,
{
    if n < 10 {
        seq![digit_char(n)]
    } else {
        dec_digits(n / 10).push(digit_char(n % 10))
    }
}

/// The decimal rendering of an integer, with a leading minus sign when it is
/// negative.
pub open spec fn dec_string(n: int) -> Seq<char> {
    if n < 0 {
        seq!['-'] + dec_digits(-n)
    } else {
        dec_digits(n)
    }
}

fn digit_to_char(d: u64) -> (c: char)
    requires
        d < 10,
    ensures
        c == digit_char(d as int),
{
    if d == 0 {
        '0'
    } else if d == 1 {
        '1'
    } else if d == 2 {
        '2'
    } else if d == 3 {
        '3'
    } else if d == 4 {
        '4'
    } else if d == 5 {
        '5'
    } else if d == 6 {
        '6'
    } else if d == 7 {
        '7'
    } else if d == 8 {
        '8'
    } else {
        '9'
    }
}

/// Renders a number in decimal.
pub fn u64_to_string(n: u64) -> (r: String)
    ensures
        r@ == dec_digits(n as int),
    decreases n,
{
    if n < 10 {
        let mut s = String::new();
        push_char(&mut s, digit_to_char(n));
        proof {
            assert(s@ =~= dec_digits(n as int));
        }
        s
    } else {
        let mut s = u64_to_string(n / 10);
        push_char(&mut s, digit_to_char(n % 10));
        s
    }
}

/// Renders a signed number in decimal.
pub fn i64_to_string(n: i64) -> (r: String)
    ensures
        r@ == dec_string(n as int),
{
    if n >= 0 {
        u64_to_string(n as u64)
    } else {
        let mag: u64 = ((-(n + 1)) as u64) + 1;
        proof {
            assert(mag as int == -(n as int));
        }
        let mut s = String::new();
        push_char(&mut s, '-');
        let d = u64_to_string(mag);
        s.append(d.as_str());
        proof {
            assert(s@ =~= dec_string(n as int));
        }
        s
    }
}

} // verus!

verus! {

/// Appends all of `v` at the end of `out`.
pub fn append_chars(out: &mut Vec<char>, v: &Vec<char>)
    ensures
        final(out)@ == old(out)@ + v@,
{
    let ghost out0 = out@;
    proof {
        assert(out@ =~= out0 + v@.subrange(0, 0));
    }
    let mut i: usize = 0;
    while i < v.len()
        invariant
            i <= v@.len(),
            out@ == out0 + v@.subrange(0, i as int),
        decreases v.len() - i,
    {
        out.push(v[i]);
        i = i + 1;
        proof {
            assert(out@ =~= out0 + v@.subrange(0, i as int));
        }
    }
    proof {
        assert(out@ =~= out0 + v@);
    }
}

/// ASCII case folding of a whole character vector.
pub fn lower_chars(v: &Vec<char>) -> (r: Vec<char>)
    ensures
        r@ == lower_seq(v@),
{
    let mut out: Vec<char> = Vec::new();
    let mut i: usize = 0;
    while i < v.len()
        invariant
            i <= v@.len(),
            out@ =~= lower_seq(v@.subrange(0, i as int)),
        decreases v.len() - i,
    {
        out.push(to_lower_char(v[i]));
        i = i + 1;
        proof {
            assert(out@ =~= lower_seq(v@.subrange(0, i as int)));
        }
    }
    proof {
        assert(v@.subrange(0, v@.len() as int) =~= v@);
    }
    out
}

/// The position of the first occurrence of `c` in `v`, if any.
pub fn index_of_char(v: &Vec<char>, c: char) -> (r: Option<usize>)
    ensures
        match r {
            Some(i) => i < v@.len() && v@[i as int] == c && forall|k: int|
                0 <= k < i ==> v@[k] != c,
            None => forall|k: int| 0 <= k < v@.len() ==> v@[k] != c,
        },
{
    let mut i: usize = 0;
    while i < v.len()
        invariant
            i <= v@.len(),
            forall|k: int| 0 <= k < i ==> v@[k] != c,
        decreases v.len() - i,
    {
        if v[i] == c {
            return Some(i);
        }
        i = i + 1;
    }
    None
}

} // verus!

verus! {

/// Decides whether two string slices hold the same characters.
pub fn str_eq(a: &str, b: &str) -> (r: bool)
    ensures
        r == (a@ == b@),
{
    let va = chars_of(a);
    let vb = chars_of(b);
    let n = va.len();
    if n != vb.len() {
        return false;
    }
    let mut i: usize = 0;
    while i < n
        invariant
            i <= n,
            n == va@.len(),
            n == vb@.len(),
            va@ == a@,
            vb@ == b@,
            forall|k: int| 0 <= k < i ==> va@[k] == vb@[k],
        decreases n - i,
    {
        if va[i] != vb[i] {
            return false;
        }
        i = i + 1;
    }
    proof {
        assert(a@ =~= b@);
    }
    true
}

/// The views of a sequence of strings.
pub open spec fn views_of(ss: Seq<String>) -> Seq<Seq<char>> {
    ss.map_values(|t: String| t@)
}

/// Decides whether two string vectors hold the same texts, element by
/// element.
pub fn string_vecs_eq(a: &Vec<String>, b: &Vec<String>) -> (r: bool)
    ensures
        r == (views_of(a@) == views_of(b@)),
{
    let ghost av = views_of(a@);
    let ghost bv = views_of(b@);
    proof {
        assert(av.len() == a@.len());
        assert(bv.len() == b@.len());
    }
    let n = a.len();
    if n != b.len() {
        return false;
    }
    let mut i: usize = 0;
    while i < n
        invariant
            i <= n,
            n == a@.len(),
            n == b@.len(),
            av == views_of(a@),
            bv == views_of(b@),
            forall|k: int| 0 <= k < i ==> av[k] == bv[k],
        decreases n - i,
    {
        if !(a[i] == b[i]) {
            proof {
                assert(av[i as int] != bv[i as int]);
            }
            return false;
        }
        i = i + 1;
    }
    proof {
        assert(av =~= bv);
    }
    true
}

} // verus!

verus! {

/// The position of the first occurrence of `pat` in `v`, if any.
pub fn find_first(v: &Vec<char>, pat: &Vec<char>) -> (r: Option<usize>)
    ensures
        match r {
            Some(i) => occurs_at(v@, pat@, i as int) && (forall|k: int|
                0 <= k < i ==> !occurs_at(v@, pat@, k)),
            None => !contains_seq(v@, pat@),
        },
{
    let mut i: usize = 0;
    while i < v.len()
        invariant
            i <= v@.len(),
            forall|k: int| 0 <= k < i ==> !occurs_at(v@, pat@, k),
        decreases v.len() - i,
    {
        if matches_at(v, pat, i) {
            return Some(i);
        }
        i = i + 1;
    }
    if matches_at(v, pat, i) {
        return Some(i);
    }
    proof {
        assert(forall|k: int| occurs_at(v@, pat@, k) ==> 0 <= k <= v@.len());
    }
    None
}

} // verus!
