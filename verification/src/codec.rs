//! Character-level text primitives shared by the credential store and the
//! structured message format: escaping, quoted-value scanning, and a decimal
//! codec for timestamps. Every encoder here comes with the lemma that its
//! decoder inverts it.
use vstd::prelude::*;

verus! {

/// Relies on `alloc::string::String::push`: appends one character at the end.
pub assume_specification[ String::push ](s: &mut String, ch: char)
    ensures
        final(s)@ == old(s)@.push(ch),
;

/// Collect the characters of a string slice into a vector.
pub fn str_to_chars(s: &str) -> (r: Vec<char>)
    ensures
        r@ == s@,
{
    let n: usize = s.unicode_len();
    let mut out: Vec<char> = Vec::new();
    let mut i: usize = 0;
    while i < n
        invariant
            i <= n,
            n == s@.len(),
            out@ == s@.take(i as int),
        decreases n - i,
    {
        let c = s.get_char(i);
        out.push(c);
        proof {
            assert(out@ =~= s@.take(i + 1));
        }
        i = i + 1;
    }
    proof {
        assert(s@.take(n as int) =~= s@);
    }
    out
}

/// Build a string from a vector of characters.
pub fn chars_to_string(v: &Vec<char>) -> (r: String)
    ensures
        r@ == v@,
{
    let mut out = String::new();
    let mut i: usize = 0;
    while i < v.len()
        invariant
            i <= v@.len(),
            out@ == v@.take(i as int),
        decreases v@.len() - i,
    {
        out.push(v[i]);
        proof {
            assert(out@ =~= v@.take(i + 1));
        }
        i = i + 1;
    }
    proof {
        assert(v@.take(v@.len() as int) =~= v@);
    }
    out
}

/// Append all characters of `s` to `out`.
pub fn append_chars(out: &mut Vec<char>, s: &Vec<char>)
    ensures
        final(out)@ == old(out)@ + s@,
{
    let mut i: usize = 0;
    while i < s.len()
        invariant
            i <= s@.len(),
            out@ == old(out)@ + s@.take(i as int),
        decreases s@.len() - i,
    {
        out.push(s[i]);
        proof {
            assert(s@.take(i + 1) =~= s@.take(i as int).push(s@[i as int]));
            assert((old(out)@ + s@.take(i as int)).push(s@[i as int]) =~= old(out)@ + s@.take(
                i + 1,
            ));
        }
        i = i + 1;
    }
    proof {
        assert(s@.take(s@.len() as int) =~= s@);
    }
}

/// Does `t` hold `p` starting at position `at`?
pub fn chars_match_at(t: &Vec<char>, p: &Vec<char>, at: usize) -> (r: bool)
    requires
        at <= t@.len(),
    ensures
        r == is_prefix_of(p@, t@.skip(at as int)),
{
    if p.len() > t.len() - at {
        return false;
    }
    let mut i: usize = 0;
    while i < p.len()
        invariant
            at + p@.len() <= t@.len(),
            t@.len() <= usize::MAX,
            i <= p@.len(),
            forall|k: int| 0 <= k < i ==> t@[at + k] == p@[k],
        decreases p@.len() - i,
    {
        if t[at + i] != p[i] {
            proof {
                if is_prefix_of(p@, t@.skip(at as int)) {
                    assert(t@.skip(at as int).take(p@.len() as int)[i as int] == p@[i as int]);
                    assert(t@.skip(at as int)[i as int] == t@[at + i]);
                }
            }
            return false;
        }
        i = i + 1;
    }
    proof {
        assert(t@.skip(at as int).take(p@.len() as int) =~= p@);
    }
    true
}

/// Characters that must be escaped inside a quoted value.
pub open spec fn is_special_char(c: char) -> bool {
    c == '"' || c == '\\'
}

/// The escaped form of one character.
pub open spec fn escape_one(c: char) -> Seq<char> {
    if is_special_char(c) {
        seq!['\\', c]
    } else {
        seq![c]
    }
}

/// The escaped form of a whole sequence: quotes and backslashes get a
/// backslash put before them, every other character stands as it is.
pub open spec fn escape_seq(s: Seq<char>) -> Seq<char>
    decreases s.len(),
{
    if s.len() == 0 {
        Seq::empty()
    } else {
        escape_one(s[0]) + escape_seq(s.drop_first())
    }
}

pub proof fn lemma_escape_seq_concat(a: Seq<char>, b: Seq<char>)
    ensures
        escape_seq(a + b) == escape_seq(a) + escape_seq(b),
    decreases a.len(),
{
    if a.len() == 0 {
        assert(a + b =~= b);
        assert(escape_seq(a) + escape_seq(b) =~= escape_seq(b));
    } else {
        assert((a + b).drop_first() =~= a.drop_first() + b);
        lemma_escape_seq_concat(a.drop_first(), b);
        assert(escape_seq(a + b) =~= escape_seq(a) + escape_seq(b));
    }
}

pub proof fn lemma_escape_seq_push(s: Seq<char>, c: char)
    ensures
        escape_seq(s.push(c)) == escape_seq(s) + escape_one(c),
{
    assert(s.push(c) =~= s + seq![c]);
    lemma_escape_seq_concat(s, seq![c]);
    assert(seq![c].drop_first() =~= Seq::<char>::empty());
    assert(escape_one(c) + escape_seq(Seq::<char>::empty()) =~= escape_one(c));
}

/// A sequence with no character that needs escaping escapes to itself.
pub proof fn lemma_escape_seq_identity(s: Seq<char>)
    requires
        forall|i: int| 0 <= i < s.len() ==> !is_special_char(s[i]),
    ensures
        escape_seq(s) == s,
    decreases s.len(),
{
    if s.len() == 0 {
        assert(escape_seq(s) =~= s);
    } else {
        lemma_escape_seq_identity(s.drop_first());
        assert(escape_seq(s) =~= s);
    }
}

/// Escape a sequence of characters.
pub fn escape_chars(v: &Vec<char>) -> (r: Vec<char>)
    ensures
        r@ == escape_seq(v@),
{
    let mut out: Vec<char> = Vec::new();
    let mut i: usize = 0;
    while i < v.len()
        invariant
            i <= v@.len(),
            out@ == escape_seq(v@.take(i as int)),
        decreases v@.len() - i,
    {
        let c = v[i];
        if c == '"' || c == '\\' {
            out.push('\\');
            out.push(c);
        } else {
            out.push(c);
        }
        proof {
            assert(v@.take(i + 1) =~= v@.take(i as int).push(v@[i as int]));
            lemma_escape_seq_push(v@.take(i as int), v@[i as int]);
            assert(out@ =~= escape_seq(v@.take(i as int)) + escape_one(v@[i as int]));
        }
        i = i + 1;
    }
    proof {
        assert(v@.take(v@.len() as int) =~= v@);
    }
    out
}

/// Scan an escaped quoted value up to and including its closing quote.
/// Returns the unescaped value and what follows the closing quote, or
/// `None` when no closing quote is found.
pub open spec fn scan_quoted(t: Seq<char>) -> Option<(Seq<char>, Seq<char>)>
    decreases t.len(),
{
    if t.len() == 0 {
        None
    } else if t[0] == '"' {
        Some((Seq::empty(), t.drop_first()))
    } else if t[0] == '\\' {
        if t.len() < 2 {
            None
        } else {
            match scan_quoted(t.skip(2)) {
                Some(p) => Some((seq![t[1]] + p.0, p.1)),
                None => None,
            }
        }
    } else {
        match scan_quoted(t.drop_first()) {
            Some(p) => Some((seq![t[0]] + p.0, p.1)),
            None => None,
        }
    }
}

/// Scanning an escaped value followed by a closing quote yields the value
/// back and leaves exactly what stood after the quote.
pub proof fn lemma_scan_escaped(s: Seq<char>, rest: Seq<char>)
    ensures
        scan_quoted(escape_seq(s) + seq!['"'] + rest) == Some((s, rest)),
    decreases s.len(),
{
    let t = escape_seq(s) + seq!['"'] + rest;
    if s.len() == 0 {
        assert(t =~= seq!['"'] + rest);
        assert(t[0] == '"');
        assert(t.drop_first() =~= rest);
        assert(Seq::<char>::empty() =~= s);
    } else {
        let c = s[0];
        let s1 = s.drop_first();
        lemma_scan_escaped(s1, rest);
        let t1 = escape_seq(s1) + seq!['"'] + rest;
        if is_special_char(c) {
            assert(t =~= seq!['\\', c] + t1);
            assert(t[0] == '\\');
            assert(t.len() >= 2);
            assert(t[1] == c);
            assert(t.skip(2) =~= t1);
            assert(seq![c] + s1 =~= s);
        } else {
            assert(t =~= seq![c] + t1);
            assert(t[0] == c);
            assert(c != '"' && c != '\\');
            assert(t.drop_first() =~= t1);
            assert(seq![c] + s1 =~= s);
        }
    }
}

/// Scan an escaped quoted value inside `t`, starting at index `from`,
/// which must stand just after the opening quote.
pub fn scan_quoted_from(t: &Vec<char>, from: usize) -> (r: Option<(Vec<char>, usize)>)
    requires
        from <= t@.len(),
    ensures
        match r {
            Some(p) => {
                &&& from <= p.1 <= t@.len()
                &&& scan_quoted(t@.skip(from as int)) == Some((p.0@, t@.skip(p.1 as int)))
            },
            None => scan_quoted(t@.skip(from as int)) is None,
        },
{
    let ghost whole = t@.skip(from as int);
    let mut out: Vec<char> = Vec::new();
    let mut i: usize = from;
    loop
        invariant
            from <= i <= t@.len(),
            match scan_quoted(t@.skip(i as int)) {
                Some(p) => scan_quoted(t@.skip(from as int)) == Some((out@ + p.0, p.1)),
                None => scan_quoted(t@.skip(from as int)) is None,
            },
        decreases t@.len() - i,
    {
        proof {
            assert(t@.skip(i as int).len() == t@.len() - i);
        }
        if i >= t.len() {
            return None;
        }
        let c = t[i];
        proof {
            assert(t@.skip(i as int)[0] == t@[i as int]);
        }
        if c == '"' {
            proof {
                assert(t@.skip(i as int).drop_first() =~= t@.skip(i + 1));
                assert(out@ + Seq::<char>::empty() =~= out@);
            }
            return Some((out, i + 1));
        } else if c == '\\' {
            if i + 1 >= t.len() {
                proof {
                    assert(t@.skip(i as int).len() < 2);
                }
                return None;
            }
            let d = t[i + 1];
            proof {
                assert(t@.skip(i as int)[1] == t@[i + 1]);
                assert(t@.skip(i as int).skip(2) =~= t@.skip(i + 2));
            }
            out.push(d);
            proof {
                if scan_quoted(t@.skip(i + 2)) is Some {
                    let p = scan_quoted(t@.skip(i + 2))->Some_0;
                    assert(out@ + p.0 =~= out@.drop_last() + (seq![d] + p.0));
                }
            }
            i = i + 2;
        } else {
            proof {
                assert(t@.skip(i as int).drop_first() =~= t@.skip(i + 1));
            }
            out.push(c);
            proof {
                if scan_quoted(t@.skip(i + 1)) is Some {
                    let p = scan_quoted(t@.skip(i + 1))->Some_0;
                    assert(out@ + p.0 =~= out@.drop_last() + (seq![c] + p.0));
                }
            }
            i = i + 1;
        }
    }
}

/// `p` is an initial segment of `l`.
pub open spec fn is_prefix_of(p: Seq<char>, l: Seq<char>) -> bool {
    p.len() <= l.len() && l.take(p.len() as int) == p
}

pub proof fn lemma_prefixes_comparable(a: Seq<char>, b: Seq<char>, l: Seq<char>)
    requires
        is_prefix_of(a, l),
        is_prefix_of(b, l),
        a.len() <= b.len(),
    ensures
        is_prefix_of(a, b),
{
    assert(b.take(a.len() as int) =~= l.take(a.len() as int));
}

pub proof fn lemma_differing_char_no_prefix(a: Seq<char>, b: Seq<char>, i: int)
    requires
        0 <= i < a.len(),
        0 <= i < b.len(),
        a[i] != b[i],
    ensures
        !is_prefix_of(a, b),
        !is_prefix_of(b, a),
{
    if is_prefix_of(a, b) {
        assert(b.take(a.len() as int)[i] == b[i]);
    }
    if is_prefix_of(b, a) {
        assert(a.take(b.len() as int)[i] == a[i]);
    }
}

/// Decimal digits.
pub open spec fn is_digit_char(c: char) -> bool {
    '0' <= c && c <= '9'
}

pub open spec fn digit_char(d: nat) -> char {
    if d == 0 {
        '0'
    } else if d == 1 {
        '1'
    } else if d == 2 {
        '2'
    } else if d == 3 {
        '3'
    } else if d == 4 {
        '4'
    } else if d == 5 {
        '5'
    } else if d == 6 {
        '6'
    } else if d == 7 {
        '7'
    } else if d == 8 {
        '8'
    } else {
        '9'
    }
}

pub open spec fn char_digit(c: char) -> nat {
    if c == '0' {
        0
    } else if c == '1' {
        1
    } else if c == '2' {
        2
    } else if c == '3' {
        3
    } else if c == '4' {
        4
    } else if c == '5' {
        5
    } else if c == '6' {
        6
    } else if c == '7' {
        7
    } else if c == '8' {
        8
    } else {
        9
    }
}

/// The usual decimal writing of a natural number, most significant digit
/// first, no leading zeros (except for zero itself).
pub open spec fn dec_seq(n: nat) -> Seq<char>
    decreases n,
{
    if n < 10 {
        seq![digit_char(n)]
    } else {
        dec_seq(n / 10) + seq![digit_char(n % 10)]
    }
}

/// The value of a sequence of decimal digits.
pub open spec fn dec_val(t: Seq<char>) -> nat
    decreases t.len(),
{
    if t.len() == 0 {
        0
    } else {
        dec_val(t.drop_last()) * 10 + char_digit(t.last())
    }
}

pub open spec fn all_digits(t: Seq<char>) -> bool {
    forall|i: int| 0 <= i < t.len() ==> is_digit_char(t[i])
}

pub proof fn lemma_dec_seq_digits(n: nat)
    ensures
        dec_seq(n).len() >= 1,
        all_digits(dec_seq(n)),
    decreases n,
{
    if n >= 10 {
        lemma_dec_seq_digits(n / 10);
    }
}

/// Reading back the decimal writing of `n` gives `n`.
pub proof fn lemma_dec_val_of_dec_seq(n: nat)
    ensures
        dec_val(dec_seq(n)) == n,
    decreases n,
{
    if n < 10 {
        let t = dec_seq(n);
        assert(t.drop_last() =~= Seq::<char>::empty());
        assert(t.last() == digit_char(n));
        assert(char_digit(digit_char(n)) == n);
        assert(dec_val(t) == dec_val(t.drop_last()) * 10 + char_digit(t.last()));
        assert(dec_val(t.drop_last()) == 0);
        assert(dec_val(t) == n);
    } else {
        lemma_dec_val_of_dec_seq(n / 10);
        let t = dec_seq(n);
        assert(t.drop_last() =~= dec_seq(n / 10));
        assert(t.last() == digit_char(n % 10));
        assert(dec_val(t) == dec_val(dec_seq(n / 10)) * 10 + char_digit(digit_char(n % 10)));
        assert(char_digit(digit_char(n % 10)) == n % 10);
        assert(n / 10 * 10 + n % 10 == n) by (nonlinear_arith);
        assert(dec_val(t) == n);
    }
}

/// The value of a digit string is no less than the value of any prefix.
pub proof fn lemma_dec_val_prefix_monotone(t: Seq<char>, k: int)
    requires
        0 <= k <= t.len(),
    ensures
        dec_val(t.take(k)) <= dec_val(t),
    decreases t.len() - k,
{
    if k == t.len() {
        assert(t.take(k) =~= t);
    } else {
        lemma_dec_val_prefix_monotone(t, k + 1);
        let u = t.take(k + 1);
        assert(u.drop_last() =~= t.take(k));
        assert(dec_val(t.take(k)) <= dec_val(t.take(k)) * 10 + char_digit(u.last())) by (nonlinear_arith);
    }
}

/// Write a number in decimal.
pub fn u64_to_dec_chars(n: u64) -> (r: Vec<char>)
    ensures
        r@ == dec_seq(n as nat),
    decreases n,
{
    if n < 10 {
        let c: char = match n {
            0 => '0',
            1 => '1',
            2 => '2',
            3 => '3',
            4 => '4',
            5 => '5',
            6 => '6',
            7 => '7',
            8 => '8',
            _ => '9',
        };
        let mut out: Vec<char> = Vec::new();
        out.push(c);
        proof {
            assert(out@ =~= dec_seq(n as nat));
        }
        out
    } else {
        let mut out = u64_to_dec_chars(n / 10);
        let d = n % 10;
        let c: char = match d {
            0 => '0',
            1 => '1',
            2 => '2',
            3 => '3',
            4 => '4',
            5 => '5',
            6 => '6',
            7 => '7',
            8 => '8',
            _ => '9',
        };
        out.push(c);
        proof {
            assert(out@ =~= dec_seq(n as nat));
        }
        out
    }
}

/// Split off the longest run of decimal digits at the front.
pub open spec fn scan_digits(t: Seq<char>) -> (Seq<char>, Seq<char>)
    decreases t.len(),
{
    if t.len() == 0 || !is_digit_char(t[0]) {
        (Seq::empty(), t)
    } else {
        let p = scan_digits(t.drop_first());
        (seq![t[0]] + p.0, p.1)
    }
}

pub proof fn lemma_scan_digits_facts(t: Seq<char>)
    ensures
        scan_digits(t).0 + scan_digits(t).1 =~= t,
        all_digits(scan_digits(t).0),
        scan_digits(t).1.len() > 0 ==> !is_digit_char(scan_digits(t).1[0]),
    decreases t.len(),
{
    if t.len() == 0 || !is_digit_char(t[0]) {
    } else {
        lemma_scan_digits_facts(t.drop_first());
        let p = scan_digits(t.drop_first());
        assert(p.0 + p.1 == t.drop_first());
        assert(seq![t[0]] + (p.0 + p.1) =~= t);
        assert((seq![t[0]] + p.0) + p.1 =~= seq![t[0]] + (p.0 + p.1));
        assert(all_digits(seq![t[0]] + p.0));
    }
}

/// Scanning a digit run followed by a non-digit finds exactly that run.
pub proof fn lemma_scan_digits_of_run(d: Seq<char>, rest: Seq<char>)
    requires
        all_digits(d),
        rest.len() > 0 ==> !is_digit_char(rest[0]),
    ensures
        scan_digits(d + rest) == (d, rest),
    decreases d.len(),
{
    let t = d + rest;
    if d.len() == 0 {
        assert(t =~= rest);
        assert(scan_digits(t).0 =~= d);
    } else {
        assert(t[0] == d[0]);
        assert(t.drop_first() =~= d.drop_first() + rest);
        lemma_scan_digits_of_run(d.drop_first(), rest);
        assert(seq![t[0]] + d.drop_first() =~= d);
    }
}

/// The number denoted by the digit run at the front of `t.skip(from)`,
/// when there is one and it fits in a `u64`; the index returned points
/// just after the run.
pub fn scan_u64_from(t: &Vec<char>, from: usize) -> (r: Option<(u64, usize)>)
    requires
        from <= t@.len(),
    ensures
        ({
            let run = scan_digits(t@.skip(from as int)).0;
            match r {
                Some(p) => {
                    &&& from <= p.1 <= t@.len()
                    &&& run.len() > 0
                    &&& dec_val(run) == p.0 as nat
                    &&& t@.skip(p.1 as int) == scan_digits(t@.skip(from as int)).1
                },
                None => run.len() == 0 || dec_val(run) > u64::MAX,
            }
        }),
{
    let ghost whole = t@.skip(from as int);
    let ghost run = scan_digits(whole).0;
    // first find the end of the digit run
    let mut j: usize = from;
    while j < t.len() && t[j] >= '0' && t[j] <= '9'
        invariant
            from <= j <= t@.len(),
            t@.skip(from as int).take(j - from) =~= t@.subrange(from as int, j as int),
            all_digits(t@.subrange(from as int, j as int)),
        decreases t@.len() - j,
    {
        proof {
            assert(t@.subrange(from as int, j + 1) =~= t@.subrange(from as int, j as int).push(
                t@[j as int],
            ));
        }
        j = j + 1;
    }
    proof {
        let d = t@.subrange(from as int, j as int);
        let rest = t@.skip(j as int);
        assert(d + rest =~= whole);
        if rest.len() > 0 {
            assert(rest[0] == t@[j as int]);
        }
        lemma_scan_digits_of_run(d, rest);
        assert(run == d);
    }
    if j == from {
        return None;
    }
    // then fold the digits into a value, watching for overflow
    let mut acc: u64 = 0;
    let mut i: usize = from;
    while i < j
        invariant
            from <= i <= j <= t@.len(),
            run == scan_digits(t@.skip(from as int)).0,
            run =~= t@.subrange(from as int, j as int),
            all_digits(run),
            acc as nat == dec_val(t@.subrange(from as int, i as int)),
        decreases j - i,
    {
        let c = t[i];
        proof {
            assert(run[i - from] == t@[i as int]);
            assert(is_digit_char(c));
        }
        let d: u64 = match c {
            '0' => 0,
            '1' => 1,
            '2' => 2,
            '3' => 3,
            '4' => 4,
            '5' => 5,
            '6' => 6,
            '7' => 7,
            '8' => 8,
            _ => 9,
        };
        proof {
            assert(d as nat == char_digit(c));
        }
        let m = match acc.checked_mul(10) {
            Some(m) => m,
            None => {
                proof {
                    let pre = t@.subrange(from as int, i + 1);
                    assert(pre.drop_last() =~= t@.subrange(from as int, i as int));
                    assert(dec_val(pre) == acc as nat * 10 + char_digit(c));
                    assert(run.take(i + 1 - from) =~= pre);
                    lemma_dec_val_prefix_monotone(run, i + 1 - from);
                }
                return None;
            },
        };
        let a = match m.checked_add(d) {
            Some(a) => a,
            None => {
                proof {
                    let pre = t@.subrange(from as int, i + 1);
                    assert(pre.drop_last() =~= t@.subrange(from as int, i as int));
                    assert(dec_val(pre) == acc as nat * 10 + char_digit(c));
                    assert(run.take(i + 1 - from) =~= pre);
                    lemma_dec_val_prefix_monotone(run, i + 1 - from);
                }
                return None;
            },
        };
        acc = a;
        proof {
            let pre = t@.subrange(from as int, i + 1);
            assert(pre.drop_last() =~= t@.subrange(from as int, i as int));
            assert(pre.last() == c);
        }
        i = i + 1;
    }
    proof {
        assert(t@.subrange(from as int, j as int) =~= run);
    }
    Some((acc, j))
}

/// Parse a whole sequence as a decimal number: every character a digit,
/// at least one, value within `u64`.
pub open spec fn parse_u64_all(t: Seq<char>) -> Option<nat> {
    if t.len() > 0 && all_digits(t) && dec_val(t) <= u64::MAX {
        Some(dec_val(t))
    } else {
        None
    }
}

/// Parse a whole character vector as a decimal `u64`.
pub fn parse_u64_chars(t: &Vec<char>) -> (r: Option<u64>)
    ensures
        match r {
            Some(n) => parse_u64_all(t@) == Some(n as nat),
            None => parse_u64_all(t@) is None,
        },
{
    proof {
        lemma_scan_digits_facts(t@);
    }
    match scan_u64_from(t, 0) {
        Some((n, j)) => {
            if j == t.len() {
                proof {
                    assert(t@.skip(0) =~= t@);
                    assert(scan_digits(t@).1 =~= t@.skip(j as int));
                    assert(t@.skip(j as int) =~= Seq::<char>::empty());
                    assert(scan_digits(t@).0 + scan_digits(t@).1 =~= t@);
                    assert(scan_digits(t@).0 =~= t@);
                }
                Some(n)
            } else {
                proof {
                    assert(t@.skip(0) =~= t@);
                    let rest = scan_digits(t@).1;
                    assert(rest == t@.skip(j as int));
                    assert(rest.len() > 0);
                    assert(!is_digit_char(rest[0]));
                    if all_digits(t@) {
                        assert(scan_digits(t@).0 + rest =~= t@);
                        let k = t@.len() - rest.len();
                        assert(rest[0] == t@[k]);
                        assert(is_digit_char(t@[k]));
                    }
                }
                None
            }
        },
        None => {
            proof {
                assert(t@.skip(0) =~= t@);
                let run = scan_digits(t@).0;
                let rest = scan_digits(t@).1;
                assert(run + rest =~= t@);
                if run.len() == 0 {
                    if t@.len() > 0 && all_digits(t@) {
                        assert(rest =~= t@);
                        assert(is_digit_char(t@[0]));
                    }
                } else {
                    if t@.len() > 0 && all_digits(t@) && dec_val(t@) <= u64::MAX {
                        if rest.len() > 0 {
                            let k = t@.len() - rest.len();
                            assert(rest[0] == t@[k]);
                            assert(is_digit_char(t@[k]));
                        }
                        assert(run =~= t@);
                    }
                }
            }
            None
        },
    }
}

} // verus!
