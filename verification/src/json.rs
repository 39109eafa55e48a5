use vstd::prelude::*;
use vstd::string::StrSliceExecFns;

use crate::text::{dec_digits, digit_val, is_digit_char};

verus! {

// ---------------------------------------------------------------------------
// String escaping.
//
// The writer escapes exactly the quote, the backslash and the newline; every
// other character stands for itself. The newline is escaped so that one
// encoded value always fits on one line of the wire protocol.
// ---------------------------------------------------------------------------

/// How one character is written inside a quoted string.
pub open spec fn esc_char(c: char) -> Seq<char> {
    if c == '"' {
        seq!['\\', '"']
    } else if c == '\\' {
        seq!['\\', '\\']
    } else if c == '\n' {
        seq!['\\', 'n']
    } else {
        seq![c]
    }
}

/// The escaped body of a quoted string.
pub open spec fn esc(s: Seq<char>) -> Seq<char>
    decreases s.len(),
{
    if s.len() == 0 {
        Seq::empty()
    } else {
        esc_char(s[0]) + esc(s.skip(1))
    }
}

/// A string as written: quote, escaped body, quote.
pub open spec fn quoted(s: Seq<char>) -> Seq<char> {
    seq!['"'] + esc(s) + seq!['"']
}

/// Escaping distributes over concatenation.
pub proof fn lemma_esc_append(a: Seq<char>, b: Seq<char>)
    ensures
        esc(a + b) == esc(a) + esc(b),
    decreases a.len(),
{
    if a.len() == 0 {
        assert(a + b =~= b);
        assert(esc(a) + esc(b) =~= esc(b));
    } else {
        assert((a + b).len() > 0);
        assert((a + b)[0] == a[0]);
        assert((a + b).skip(1) =~= a.skip(1) + b);
        lemma_esc_append(a.skip(1), b);
        assert(esc(a + b) =~= esc_char(a[0]) + esc(a.skip(1)) + esc(b));
        assert(esc(a) + esc(b) =~= esc_char(a[0]) + esc(a.skip(1)) + esc(b));
    }
}

/// An escaped body never contains a raw newline.
pub proof fn lemma_esc_no_newline(s: Seq<char>)
    ensures
        forall|i: int| 0 <= i < esc(s).len() ==> #[trigger] esc(s)[i] != '\n',
    decreases s.len(),
{
    if s.len() > 0 {
        lemma_esc_no_newline(s.skip(1));
        assert forall|i: int| 0 <= i < esc(s).len() implies esc(s)[i] != '\n' by {
            if i < esc_char(s[0]).len() {
                assert(esc(s)[i] == esc_char(s[0])[i]);
            } else {
                assert(esc(s)[i] == esc(s.skip(1))[i - esc_char(s[0]).len()]);
            }
        }
    }
}

// ---------------------------------------------------------------------------
// Reading a quoted string.
// ---------------------------------------------------------------------------

/// What an escape character stands for, if it is one the writer uses.
pub open spec fn unesc_char(c: char) -> Option<char> {
    if c == '"' {
        Some('"')
    } else if c == '\\' {
        Some('\\')
    } else if c == 'n' {
        Some('\n')
    } else {
        None
    }
}

/// Reads the body of a quoted string, after the opening quote: the value and
/// what follows the closing quote.
pub open spec fn dec_str_body(s: Seq<char>) -> Option<(Seq<char>, Seq<char>)>
    decreases s.len(),
{
    if s.len() == 0 {
        None
    } else if s[0] == '"' {
        Some((Seq::empty(), s.skip(1)))
    } else if s[0] == '\\' {
        if s.len() < 2 {
            None
        } else {
            match unesc_char(s[1]) {
                Some(c) => match dec_str_body(s.skip(2)) {
                    Some(p) => Some((seq![c] + p.0, p.1)),
                    None => None,
                },
                None => None,
            }
        }
    } else {
        match dec_str_body(s.skip(1)) {
            Some(p) => Some((seq![s[0]] + p.0, p.1)),
            None => None,
        }
    }
}

/// Reads a quoted string from the front of `s`.
pub open spec fn dec_string(s: Seq<char>) -> Option<(Seq<char>, Seq<char>)> {
    if s.len() > 0 && s[0] == '"' {
        dec_str_body(s.skip(1))
    } else {
        None
    }
}

/// Reading gives back exactly what was written: the body reader undoes the
/// escaper, whatever follows.
pub proof fn lemma_dec_str_body(v: Seq<char>, rest: Seq<char>)
    ensures
        dec_str_body(esc(v) + seq!['"'] + rest) == Some((v, rest)),
    decreases v.len(),
{
    let s = esc(v) + seq!['"'] + rest;
    if v.len() == 0 {
        assert(esc(v) =~= Seq::<char>::empty());
        assert(s =~= seq!['"'] + rest);
        assert(s[0] == '"');
        assert(s.skip(1) =~= rest);
        assert(dec_str_body(s) == Some((Seq::<char>::empty(), rest)));
        assert(v =~= Seq::<char>::empty());
    } else {
        let c = v[0];
        let vt = v.skip(1);
        assert(esc(v) == esc_char(c) + esc(vt));
        lemma_dec_str_body(vt, rest);
        if c == '"' || c == '\\' || c == '\n' {
            assert(esc_char(c).len() == 2);
            assert(s[0] == esc_char(c)[0]);
            assert(s[1] == esc_char(c)[1]);
            assert(s[0] == '\\');
            assert(unesc_char(s[1]) == Some(c));
            assert(s.len() >= 2);
            assert(s.skip(2) =~= esc(vt) + seq!['"'] + rest);
            assert(seq![c] + vt =~= v);
        } else {
            assert(esc_char(c).len() == 1);
            assert(s[0] == esc_char(c)[0]);
            assert(s[0] == c);
            assert(s.skip(1) =~= esc(vt) + seq!['"'] + rest);
            assert(seq![c] + vt =~= v);
        }
    }
}

/// Reading a whole written string gives back the value.
pub proof fn lemma_dec_string(v: Seq<char>, rest: Seq<char>)
    ensures
        dec_string(quoted(v) + rest) == Some((v, rest)),
{
    let s = quoted(v) + rest;
    assert(s[0] == '"');
    assert(s.len() > 0);
    assert(s.skip(1) =~= esc(v) + seq!['"'] + rest);
    lemma_dec_str_body(v, rest);
}

// ---------------------------------------------------------------------------
// Numbers.
// ---------------------------------------------------------------------------

/// Reads a run of digits into an accumulator, stopping at the first
/// non-digit or where one more digit would pass `u32::MAX`.
pub open spec fn dec_num_rec(s: Seq<char>, acc: nat) -> (nat, Seq<char>)
    decreases s.len(),
{
    if s.len() > 0 && is_digit_char(s[0]) && acc * 10 + digit_val(s[0]) <= u32::MAX {
        dec_num_rec(s.skip(1), (acc * 10 + digit_val(s[0])) as nat)
    } else {
        (acc, s)
    }
}

/// Reads a number from the front of `s`: at least one digit, value capped
/// at `u32::MAX`.
pub open spec fn dec_num(s: Seq<char>) -> Option<(nat, Seq<char>)> {
    if s.len() > 0 && is_digit_char(s[0]) {
        Some(dec_num_rec(s, 0))
    } else {
        None
    }
}

/// Ten to the `k`.
pub open spec fn pow10(k: nat) -> nat
    decreases k,
{
    if k == 0 {
        1
    } else {
        10 * pow10((k - 1) as nat)
    }
}

/// Reading the decimal rendering of `n` multiplies the accumulator past it
/// and adds `n`, then goes on with whatever follows.
proof fn lemma_dec_num_rec(n: nat, acc: nat, rest: Seq<char>)
    requires
        acc * pow10(dec_digits(n).len()) + n <= u32::MAX,
    ensures
        dec_num_rec(dec_digits(n) + rest, acc) == dec_num_rec(
            rest,
            (acc * pow10(dec_digits(n).len()) + n) as nat,
        ),
    decreases n,
{
    let ds = dec_digits(n);
    let s = ds + rest;
    if n < 10 {
        assert(ds =~= seq![crate::text::digit_char(n as int)]);
        assert(s[0] == ds[0]);
        assert(is_digit_char(s[0]) && digit_val(s[0]) == n);
        assert(pow10(0) == 1);
        assert(pow10(1) == 10);
        assert(acc * 10 + n <= u32::MAX);
        assert(s.skip(1) =~= rest);
    } else {
        let hi = (n / 10) as nat;
        let d = crate::text::digit_char((n % 10) as int);
        let dh = dec_digits(hi);
        assert(ds == dh.push(d));
        assert(s =~= dh + (seq![d] + rest));
        let lh = dh.len();
        assert(ds.len() == lh + 1);
        assert(pow10(ds.len()) == 10 * pow10(lh));
        assert(acc * pow10(lh) + hi <= u32::MAX) by (nonlinear_arith)
            requires
                acc * (10 * pow10(lh)) + n <= u32::MAX,
                hi == n / 10,
                n >= 10,
                pow10(lh) >= 0,
                acc >= 0,
        ;
        lemma_dec_num_rec(hi, acc, seq![d] + rest);
        let mid = (acc * pow10(lh) + hi) as nat;
        assert(dec_num_rec(s, acc) == dec_num_rec(seq![d] + rest, mid));
        let t = seq![d] + rest;
        assert(t[0] == d);
        assert(is_digit_char(d) && digit_val(d) == n % 10);
        assert(mid * 10 + n % 10 == acc * pow10(ds.len()) + n) by (nonlinear_arith)
            requires
                mid == acc * pow10(lh) + n / 10,
                pow10(ds.len()) == 10 * pow10(lh),
                n >= 10,
        ;
        assert(mid * 10 + digit_val(t[0]) <= u32::MAX);
        assert(t.skip(1) =~= rest);
        assert(dec_num_rec(t, mid) == dec_num_rec(rest, (mid * 10 + n % 10) as nat));
    }
}

/// Reading the decimal rendering of a number gives back the number, as long
/// as what follows does not begin with another digit.
pub proof fn lemma_dec_num(n: nat, rest: Seq<char>)
    requires
        n <= u32::MAX,
        rest.len() > 0,
        !is_digit_char(rest[0]),
    ensures
        dec_num(dec_digits(n) + rest) == Some((n, rest)),
{
    let ds = dec_digits(n);
    let s = ds + rest;
    crate::text::lemma_dec_digits_are_digits(n);
    assert(s[0] == ds[0]);
    assert(is_digit_char(s[0]));
    lemma_dec_num_rec(n, 0, rest);
    assert(0 * pow10(ds.len()) + n == n);
    assert(dec_num_rec(s, 0) == dec_num_rec(rest, n));
    assert(dec_num_rec(rest, n) == (n, rest));
}

// ---------------------------------------------------------------------------
// Executable writers.
// ---------------------------------------------------------------------------

/// Appends the quoted, escaped form of `s` to `out`.
pub fn append_quoted(out: &mut String, s: &str)
    ensures
        final(out)@ == old(out)@ + quoted(s@),
{
    let ghost base = old(out)@;
    out.push('"');
    let n = s.unicode_len();
    let mut i: usize = 0;
    while i < n
        invariant
            i <= n,
            n == s@.len(),
            out@ == base + seq!['"'] + esc(s@.subrange(0, i as int)),
        decreases n - i,
    {
        let c = s.get_char(i);
        let ghost pre = s@.subrange(0, i as int);
        if c == '"' || c == '\\' {
            out.push('\\');
            out.push(c);
        } else if c == '\n' {
            out.push('\\');
            out.push('n');
        } else {
            out.push(c);
        }
        proof {
            let cc = s@[i as int];
            assert(s@.subrange(0, i + 1 as int) =~= pre + seq![cc]);
            lemma_esc_append(pre, seq![cc]);
            assert(seq![cc].skip(1) =~= Seq::<char>::empty());
            assert(esc(Seq::<char>::empty()) =~= Seq::<char>::empty());
            assert(seq![cc][0] == cc);
            assert(esc(seq![cc]) =~= esc_char(cc));
            assert(out@ =~= base + seq!['"'] + esc(s@.subrange(0, i + 1 as int)));
        }
        i += 1;
    }
    out.push('"');
    proof {
        assert(s@.subrange(0, n as int) =~= s@);
        assert(out@ =~= base + quoted(s@));
    }
}

// ---------------------------------------------------------------------------
// Executable readers, over a vector of characters and a cursor.
// ---------------------------------------------------------------------------

fn unesc_char_exec(c: char) -> (r: Option<char>)
    ensures
        r == unesc_char(c),
{
    if c == '"' {
        Some('"')
    } else if c == '\\' {
        Some('\\')
    } else if c == 'n' {
        Some('\n')
    } else {
        None
    }
}

fn is_digit_exec(c: char) -> (r: bool)
    ensures
        r == is_digit_char(c),
{
    c == '0' || c == '1' || c == '2' || c == '3' || c == '4' || c == '5' || c == '6' || c == '7'
        || c == '8' || c == '9'
}

fn digit_val_exec(c: char) -> (r: u64)
    requires
        is_digit_char(c),
    ensures
        r == digit_val(c),
{
    if c == '0' {
        0
    } else if c == '1' {
        1
    } else if c == '2' {
        2
    } else if c == '3' {
        3
    } else if c == '4' {
        4
    } else if c == '5' {
        5
    } else if c == '6' {
        6
    } else if c == '7' {
        7
    } else if c == '8' {
        8
    } else {
        9
    }
}

/// Reads a quoted string starting at `i`; on success hands back the value
/// and the cursor after the closing quote.
pub fn parse_string_at(s: &Vec<char>, i: usize) -> (r: Option<(String, usize)>)
    requires
        i <= s@.len(),
    ensures
        match r {
            Some(p) => i < p.1 <= s@.len() && dec_string(s@.skip(i as int)) == Some(
                (p.0@, s@.skip(p.1 as int)),
            ),
            None => dec_string(s@.skip(i as int)) is None,
        },
{
    let n = s.len();
    if i >= n {
        return None;
    }
    if s[i] != '"' {
        return None;
    }
    let start = i + 1;
    let mut out = String::new();
    let mut cur: usize = start;
    proof {
        assert(s@.skip(i as int)[0] == s@[i as int]);
        assert(s@.skip(i as int).skip(1) =~= s@.skip(start as int));
    }
    loop
        invariant
            start == i + 1,
            start <= cur <= n,
            n == s@.len(),
            dec_string(s@.skip(i as int)) == dec_str_body(s@.skip(start as int)),
            match dec_str_body(s@.skip(cur as int)) {
                Some(p) => dec_str_body(s@.skip(start as int)) == Some((out@ + p.0, p.1)),
                None => dec_str_body(s@.skip(start as int)) is None,
            },
        decreases n - cur,
    {
        let ghost tail = s@.skip(cur as int);
        if cur >= n {
            proof {
                assert(tail.len() == 0);
            }
            return None;
        }
        let c = s[cur];
        proof {
            assert(tail[0] == s@[cur as int]);
        }
        if c == '"' {
            proof {
                assert(tail.skip(1) =~= s@.skip(cur + 1 as int));
                assert(dec_str_body(tail) == Some((Seq::<char>::empty(), s@.skip(cur + 1 as int))));
                assert(out@ + Seq::<char>::empty() =~= out@);
            }
            return Some((out, cur + 1));
        } else if c == '\\' {
            if cur + 1 >= n {
                proof {
                    assert(tail.len() < 2);
                }
                return None;
            }
            let e = s[cur + 1];
            proof {
                assert(tail[1] == s@[cur + 1 as int]);
            }
            match unesc_char_exec(e) {
                None => {
                    return None;
                },
                Some(u) => {
                    let ghost pre_out = out@;
                    out.push(u);
                    proof {
                        assert(tail.skip(2) =~= s@.skip(cur + 2 as int));
                        if dec_str_body(s@.skip(cur + 2 as int)) is Some {
                            let p = dec_str_body(s@.skip(cur + 2 as int))->Some_0;
                            assert(dec_str_body(tail) == Some((seq![u] + p.0, p.1)));
                            assert(pre_out + (seq![u] + p.0) =~= out@ + p.0);
                        }
                    }
                    cur = cur + 2;
                },
            }
        } else {
            let ghost pre_out = out@;
            out.push(c);
            proof {
                assert(tail.skip(1) =~= s@.skip(cur + 1 as int));
                if dec_str_body(s@.skip(cur + 1 as int)) is Some {
                    let p = dec_str_body(s@.skip(cur + 1 as int))->Some_0;
                    assert(dec_str_body(tail) == Some((seq![c] + p.0, p.1)));
                    assert(pre_out + (seq![c] + p.0) =~= out@ + p.0);
                }
            }
            cur = cur + 1;
        }
    }
}

/// Reads a number starting at `i`: at least one digit, value at most
/// `u32::MAX`; hands back the value and the cursor after the digits read.
pub fn parse_u32_at(s: &Vec<char>, i: usize) -> (r: Option<(u32, usize)>)
    requires
        i <= s@.len(),
    ensures
        match r {
            Some(p) => i < p.1 <= s@.len() && dec_num(s@.skip(i as int)) == Some(
                (p.0 as nat, s@.skip(p.1 as int)),
            ),
            None => dec_num(s@.skip(i as int)) is None,
        },
{
    let n = s.len();
    if i >= n {
        return None;
    }
    if !is_digit_exec(s[i]) {
        proof {
            assert(s@.skip(i as int)[0] == s@[i as int]);
        }
        return None;
    }
    proof {
        assert(s@.skip(i as int)[0] == s@[i as int]);
    }
    let mut acc: u64 = 0;
    let mut cur: usize = i;
    loop
        invariant
            i < n,
            i <= cur <= n,
            n == s@.len(),
            acc <= u32::MAX,
            is_digit_char(s@[i as int]),
            cur == i ==> acc == 0,
            dec_num(s@.skip(i as int)) == Some(dec_num_rec(s@.skip(i as int), 0)),
            dec_num_rec(s@.skip(i as int), 0) == dec_num_rec(s@.skip(cur as int), acc as nat),
        decreases n - cur,
    {
        let ghost tail = s@.skip(cur as int);
        if cur >= n {
            proof {
                assert(tail.len() == 0);
                assert(dec_num_rec(tail, acc as nat) == (acc as nat, tail));
            }
            return Some((acc as u32, cur));
        }
        let c = s[cur];
        proof {
            assert(tail[0] == s@[cur as int]);
        }
        if !is_digit_exec(c) {
            proof {
                assert(dec_num_rec(tail, acc as nat) == (acc as nat, tail));
            }
            return Some((acc as u32, cur));
        }
        let d = digit_val_exec(c);
        if acc * 10 + d > 0xffff_ffff {
            proof {
                assert(dec_num_rec(tail, acc as nat) == (acc as nat, tail));
            }
            return Some((acc as u32, cur));
        }
        proof {
            assert(tail.skip(1) =~= s@.skip(cur + 1 as int));
            assert(dec_num_rec(tail, acc as nat) == dec_num_rec(
                s@.skip(cur + 1 as int),
                (acc * 10 + digit_val(c)) as nat,
            ));
        }
        acc = acc * 10 + d;
        cur = cur + 1;
    }
}

/// JSON's insignificant whitespace.
pub open spec fn is_ws(c: char) -> bool {
    c == ' ' || c == '\n' || c == '\t' || c == '\r'
}

/// What remains of `s` after its leading whitespace.
pub open spec fn skip_ws(s: Seq<char>) -> Seq<char>
    decreases s.len(),
{
    if s.len() > 0 && is_ws(s[0]) {
        skip_ws(s.skip(1))
    } else {
        s
    }
}

/// Skipping whitespace leaves text that does not begin with any alone.
pub proof fn lemma_skip_ws_noop(s: Seq<char>)
    requires
        s.len() == 0 || !is_ws(s[0]),
    ensures
        skip_ws(s) == s,
{
}

/// Skipping whitespace eats exactly a whitespace prefix.
pub proof fn lemma_skip_ws_prefix(w: Seq<char>, t: Seq<char>)
    requires
        forall|i: int| 0 <= i < w.len() ==> is_ws(#[trigger] w[i]),
        t.len() == 0 || !is_ws(t[0]),
    ensures
        skip_ws(w + t) == t,
    decreases w.len(),
{
    if w.len() == 0 {
        assert(w + t =~= t);
        lemma_skip_ws_noop(t);
    } else {
        assert((w + t)[0] == w[0]);
        assert((w + t).skip(1) =~= w.skip(1) + t);
        assert(forall|i: int| 0 <= i < w.skip(1).len() ==> is_ws(#[trigger] w.skip(1)[i]));
        lemma_skip_ws_prefix(w.skip(1), t);
    }
}

fn is_ws_exec(c: char) -> (r: bool)
    ensures
        r == is_ws(c),
{
    c == ' ' || c == '\n' || c == '\t' || c == '\r'
}

/// Moves the cursor past any whitespace.
pub fn skip_ws_at(s: &Vec<char>, i: usize) -> (j: usize)
    requires
        i <= s@.len(),
    ensures
        i <= j <= s@.len(),
        skip_ws(s@.skip(i as int)) == s@.skip(j as int),
        j == s@.len() || !is_ws(s@[j as int]),
{
    let n = s.len();
    let mut cur: usize = i;
    loop
        invariant
            i <= cur <= n,
            n == s@.len(),
            skip_ws(s@.skip(i as int)) == skip_ws(s@.skip(cur as int)),
        decreases n - cur,
    {
        let ghost tail = s@.skip(cur as int);
        if cur >= n {
            proof {
                assert(tail.len() == 0);
            }
            return cur;
        }
        proof {
            assert(tail[0] == s@[cur as int]);
        }
        if !is_ws_exec(s[cur]) {
            return cur;
        }
        proof {
            assert(tail.skip(1) =~= s@.skip(cur + 1 as int));
        }
        cur = cur + 1;
    }
}

/// What remains of `s` after an expected literal prefix, if it is there.
pub open spec fn spec_expect(s: Seq<char>, lit: Seq<char>) -> Option<Seq<char>> {
    if lit.len() <= s.len() && s.subrange(0, lit.len() as int) == lit {
        Some(s.skip(lit.len() as int))
    } else {
        None
    }
}

/// Where an expected literal is refused, the remainder is not exactly that
/// literal.
pub proof fn lemma_tail_not_lit(s: Seq<char>, j: int, lit: Seq<char>)
    requires
        0 <= j <= s.len(),
        spec_expect(s.skip(j), lit) is None,
    ensures
        s.skip(j) != lit,
{
    if s.skip(j) == lit {
        assert(s.skip(j).subrange(0, lit.len() as int) =~= lit);
    }
}

/// An expected literal at the front of exactly itself-plus-tail leaves the
/// tail.
pub proof fn lemma_expect_prefix(lit: Seq<char>, tail: Seq<char>)
    ensures
        spec_expect(lit + tail, lit) == Some(tail),
{
    let s = lit + tail;
    assert(s.subrange(0, lit.len() as int) =~= lit);
    assert(s.skip(lit.len() as int) =~= tail);
}

/// Matches the literal `lit` at position `i`, character by character.
pub fn expect_lit(s: &Vec<char>, i: usize, lit: &str) -> (r: Option<usize>)
    requires
        i <= s@.len(),
    ensures
        match r {
            Some(j) => i <= j <= s@.len() && j - i == lit@.len() && spec_expect(
                s@.skip(i as int),
                lit@,
            ) == Some(s@.skip(j as int)),
            None => spec_expect(s@.skip(i as int), lit@) is None,
        },
{
    let n = s.len();
    let m = lit.unicode_len();
    if n - i < m {
        return None;
    }
    let mut k: usize = 0;
    while k < m
        invariant
            k <= m,
            i + m <= n,
            n == s@.len(),
            m == lit@.len(),
            forall|j: int| 0 <= j < k ==> s@[i + j] == lit@[j],
        decreases m - k,
    {
        if s[i + k] != lit.get_char(k) {
            proof {
                let t = s@.skip(i as int);
                assert(t[k as int] == s@[i + k]);
                if spec_expect(t, lit@) is Some {
                    assert(t.subrange(0, lit@.len() as int)[k as int] == t[k as int]);
                }
            }
            return None;
        }
        k += 1;
    }
    proof {
        let t = s@.skip(i as int);
        assert forall|j: int| 0 <= j < m implies t.subrange(0, m as int)[j] == lit@[j] by {
            assert(t[j] == s@[i + j]);
        }
        assert(t.subrange(0, m as int) =~= lit@);
        assert(t.skip(m as int) =~= s@.skip(i + m));
    }
    Some(i + m)
}

} // verus!
