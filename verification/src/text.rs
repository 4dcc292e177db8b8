//! Strings as sequences of characters: taking them apart, putting them
//! together, comparing and searching them, and writing numbers in decimal.

use vstd::prelude::*;
use vstd::std_specs::iter::IteratorSpec;
use vstd::string::{StrSliceExecFns, StringExecFns};

verus! {

broadcast use vstd::string::group_string_axioms;

/// The characters of `s`.
pub fn chars_of(s: &str) -> (out: Vec<char>)
    ensures
        out@ == s@,
{
    let mut it = s.chars();
    let mut out: Vec<char> = Vec::new();
    loop
        invariant
            it.obeys_prophetic_iter_laws(),
            it.decrease() is Some,
            out@ + it.remaining() == s@,
        decreases it.decrease()->0,
    {
        let ghost before = it.remaining();
        match it.next() {
            Some(c) => {
                out.push(c);
                assert(out@ + it.remaining() =~= s@) by {
                    assert(before =~= seq![c] + it.remaining());
                }
            },
            None => {
                assert(out@ =~= s@);
                return out;
            },
        }
    }
}

/// The character that stands for the digit `d`.
pub open spec fn digit_char(d: int) -> char {
    if d == 0 {
        '0'
    } else if d == 1 {
        '1'
    } else if d == 2 {
        '2'
    } else if d == 3 {
        '3'
    } else if d == 4 {
        '4'
    } else if d == 5 {
        '5'
    } else if d == 6 {
        '6'
    } else if d == 7 {
        '7'
    } else if d == 8 {
        '8'
    } else {
        '9'
    }
}

/// `n` written in decimal, without leading zeros.
pub open spec fn decimal(n: nat) -> Seq<char>
    decreases n,
{
    if n < 10 {
        seq![digit_char(n as int)]
    } else {
        decimal(n / 10).push(digit_char((n % 10) as int))
    }
}

/// `n` written in decimal, with a minus sign where it is negative.
pub open spec fn signed_decimal(n: int) -> Seq<char> {
    if n < 0 {
        seq!['-'] + decimal((-n) as nat)
    } else {
        decimal(n as nat)
    }
}

/// The digit `d` as a string.
pub fn digit_str(d: u8) -> (text: &'static str)
    requires
        d < 10,
    ensures
        text@ == seq![digit_char(d as int)],
{
    proof {
        reveal_strlit("0");
        reveal_strlit("1");
        reveal_strlit("2");
        reveal_strlit("3");
        reveal_strlit("4");
        reveal_strlit("5");
        reveal_strlit("6");
        reveal_strlit("7");
        reveal_strlit("8");
        reveal_strlit("9");
    }
    let text = if d == 0 {
        "0"
    } else if d == 1 {
        "1"
    } else if d == 2 {
        "2"
    } else if d == 3 {
        "3"
    } else if d == 4 {
        "4"
    } else if d == 5 {
        "5"
    } else if d == 6 {
        "6"
    } else if d == 7 {
        "7"
    } else if d == 8 {
        "8"
    } else {
        "9"
    };
    assert(text@ =~= seq![digit_char(d as int)]);
    text
}

/// Appends `n`, written in decimal, to `out`.
pub fn push_decimal(out: &mut String, n: u64)
    ensures
        final(out)@ == old(out)@ + decimal(n as nat),
    decreases n,
{
    if n >= 10 {
        push_decimal(out, n / 10);
    }
    let d = (n % 10) as u8;
    out.append(digit_str(d));
    assert(out@ =~= old(out)@ + decimal(n as nat));
}

/// Appends `n`, written in decimal with its sign, to `out`.
pub fn push_signed_decimal(out: &mut String, n: i64)
    ensures
        final(out)@ == old(out)@ + signed_decimal(n as int),
{
    if n < 0 {
        proof {
            reveal_strlit("-");
        }
        out.append("-");
        let magnitude: u64 = if n == i64::MIN {
            9223372036854775808u64
        } else {
            (-n) as u64
        };
        push_decimal(out, magnitude);
        assert(out@ =~= old(out)@ + signed_decimal(n as int));
    } else {
        push_decimal(out, n as u64);
    }
}

/// `count` spaces.
pub open spec fn spaces(count: nat) -> Seq<char> {
    Seq::new(count, |i: int| ' ')
}

/// `text`, filled up with spaces on the right to `width` characters; a
/// longer text is left as it is.
pub open spec fn padded(text: Seq<char>, width: nat) -> Seq<char> {
    if text.len() >= width {
        text
    } else {
        text + spaces((width - text.len()) as nat)
    }
}

/// Appends `count` spaces to `out`.
pub fn push_spaces(out: &mut String, count: usize)
    ensures
        final(out)@ == old(out)@ + spaces(count as nat),
{
    let ghost start = out@;
    let mut i: usize = 0;
    assert(out@ =~= start + spaces(0));
    while i < count
        invariant
            i <= count,
            out@ == start + spaces(i as nat),
        decreases count - i,
    {
        proof {
            reveal_strlit(" ");
        }
        out.append(" ");
        i += 1;
        assert(out@ =~= start + spaces(i as nat));
    }
}

/// Appends `text` to `out` and fills it up with spaces to `width`
/// characters.
pub fn push_padded(out: &mut String, text: &str, width: usize)
    ensures
        final(out)@ == old(out)@ + padded(text@, width as nat),
{
    out.append(text);
    let len = text.unicode_len();
    if len < width {
        push_spaces(out, width - len);
        assert(out@ =~= old(out)@ + padded(text@, width as nat));
    }
}

/// Whether `a` comes strictly before `b` in lexicographic order: at the
/// first place where they differ `a` has the smaller character, or `a` ends
/// there and `b` goes on.
pub open spec fn lex_lt(a: Seq<char>, b: Seq<char>) -> bool {
    exists|k: int| lex_lt_at(a, b, k)
}

/// Whether `a` and `b` agree before `k` and `a` is the smaller one at `k`.
pub open spec fn lex_lt_at(a: Seq<char>, b: Seq<char>, k: int) -> bool {
    &&& 0 <= k <= a.len()
    &&& k <= b.len()
    &&& a.take(k) == b.take(k)
    &&& (k == a.len() && k < b.len()) || (k < a.len() && k < b.len() && a[k] < b[k])
}

/// Of two texts, one comes before the other or they are equal, and only
/// one of the three.
pub proof fn lemma_lex_total(a: Seq<char>, b: Seq<char>)
    ensures
        lex_lt(a, b) || a == b || lex_lt(b, a),
        !(lex_lt(a, b) && lex_lt(b, a)),
        !(lex_lt(a, b) && a == b),
    decreases a.len(),
{
    if lex_lt(a, b) && lex_lt(b, a) {
        let k = choose|k: int| lex_lt_at(a, b, k);
        let m = choose|m: int| lex_lt_at(b, a, m);
        if k < m {
            assert(b.take(m)[k] == a.take(m)[k]);
        } else if m < k {
            assert(a.take(k)[m] == b.take(k)[m]);
        }
    }
    if lex_lt(a, b) && a == b {
        let k = choose|k: int| lex_lt_at(a, b, k);
    }
    if a.len() == 0 {
        if b.len() > 0 {
            assert(a.take(0) =~= b.take(0));
            assert(lex_lt_at(a, b, 0));
        } else {
            assert(a =~= b);
        }
    } else if b.len() == 0 {
        assert(a.take(0) =~= b.take(0));
        assert(lex_lt_at(b, a, 0));
    } else if a[0] != b[0] {
        assert(a.take(0) =~= b.take(0));
        if a[0] < b[0] {
            assert(lex_lt_at(a, b, 0));
        } else {
            assert(lex_lt_at(b, a, 0));
        }
    } else {
        let ra = a.drop_first();
        let rb = b.drop_first();
        lemma_lex_total(ra, rb);
        if ra == rb {
            assert(a =~= seq![a[0]] + ra);
            assert(b =~= seq![b[0]] + rb);
        } else if lex_lt(ra, rb) {
            let k = choose|k: int| lex_lt_at(ra, rb, k);
            assert(a.take(k + 1) =~= seq![a[0]] + ra.take(k));
            assert(b.take(k + 1) =~= seq![b[0]] + rb.take(k));
            assert(lex_lt_at(a, b, k + 1));
        } else {
            let k = choose|k: int| lex_lt_at(rb, ra, k);
            assert(a.take(k + 1) =~= seq![a[0]] + ra.take(k));
            assert(b.take(k + 1) =~= seq![b[0]] + rb.take(k));
            assert(lex_lt_at(b, a, k + 1));
        }
    }
}

/// Coming strictly before is transitive.
pub proof fn lemma_lex_lt_transitive(a: Seq<char>, b: Seq<char>, c: Seq<char>)
    requires
        lex_lt(a, b),
        lex_lt(b, c),
    ensures
        lex_lt(a, c),
{
    let k = choose|k: int| lex_lt_at(a, b, k);
    let m = choose|m: int| lex_lt_at(b, c, m);
    if k <= m {
        assert(a.take(k) =~= c.take(k)) by {
            assert forall|i: int| 0 <= i < k implies a.take(k)[i] == c.take(k)[i] by {
                assert(a.take(k)[i] == b.take(k)[i]);
                assert(b.take(m)[i] == c.take(m)[i]);
            }
        }
        if k < m {
            assert(b.take(m)[k] == c.take(m)[k]);
        }
        assert(lex_lt_at(a, c, k));
    } else {
        assert(a.take(m) =~= c.take(m)) by {
            assert forall|i: int| 0 <= i < m implies a.take(m)[i] == c.take(m)[i] by {
                assert(a.take(k)[i] == b.take(k)[i]);
                assert(b.take(m)[i] == c.take(m)[i]);
            }
        }
        assert(a.take(k)[m] == b.take(k)[m]);
        assert(lex_lt_at(a, c, m));
    }
}

/// Whether `a` comes strictly before `b` in lexicographic order.
pub fn is_lex_lt(a: &Vec<char>, b: &Vec<char>) -> (r: bool)
    ensures
        r == lex_lt(a@, b@),
{
    let n = if a.len() < b.len() {
        a.len()
    } else {
        b.len()
    };
    let mut i: usize = 0;
    while i < n
        invariant
            i <= n,
            n <= a@.len(),
            n <= b@.len(),
            n == a@.len() || n == b@.len(),
            a@.take(i as int) == b@.take(i as int),
        decreases n - i,
    {
        if a[i] != b[i] {
            let less = a[i] < b[i];
            proof {
                if less {
                    assert(lex_lt_at(a@, b@, i as int));
                } else {
                    assert(a@.take(0) =~= b@.take(0));
                    assert(lex_lt_at(b@, a@, i as int));
                    lemma_lex_total(a@, b@);
                }
            }
            return less;
        }
        assert(a@.take(i + 1) =~= b@.take(i + 1)) by {
            let ta = a@.take(i + 1);
            let tb = b@.take(i + 1);
            assert forall|j: int| 0 <= j < ta.len() implies ta[j] == tb[j] by {
                if j < i {
                    assert(a@.take(i as int)[j] == b@.take(i as int)[j]);
                }
            }
        }
        i += 1;
    }
    let less = a.len() < b.len();
    proof {
        if less {
            assert(lex_lt_at(a@, b@, n as int));
        } else {
            if a.len() == b.len() {
                assert(a@.take(n as int) =~= a@);
                assert(b@.take(n as int) =~= b@);
                lemma_lex_total(a@, b@);
            } else {
                assert(lex_lt_at(b@, a@, n as int));
                lemma_lex_total(a@, b@);
            }
        }
    }
    less
}

/// Whether `needle` stands in `hay` from position `i` on.
pub open spec fn occurs_at(hay: Seq<char>, needle: Seq<char>, i: int) -> bool {
    &&& 0 <= i
    &&& i + needle.len() <= hay.len()
    &&& hay.subrange(i, i + needle.len()) == needle
}

/// Whether `needle` stands somewhere in `hay`.
pub open spec fn occurs_in(hay: Seq<char>, needle: Seq<char>) -> bool {
    exists|i: int| occurs_at(hay, needle, i)
}

/// Whether `needle` stands in `hay` from position `i` on.
pub fn is_at(hay: &Vec<char>, needle: &Vec<char>, i: usize) -> (r: bool)
    requires
        i + needle@.len() <= hay@.len(),
    ensures
        r == occurs_at(hay@, needle@, i as int),
{
    let n = hay.len();
    let m = needle.len();
    let mut j: usize = 0;
    while j < m
        invariant
            j <= m,
            m == needle@.len(),
            n == hay@.len(),
            i + m <= n,
            forall|k: int| 0 <= k < j ==> hay@[i + k] == needle@[k],
        decreases m - j,
    {
        if hay[i + j] != needle[j] {
            assert(hay@.subrange(i as int, i + m)[j as int] == hay@[i + j]);
            return false;
        }
        j += 1;
    }
    assert(hay@.subrange(i as int, i + m) =~= needle@);
    true
}

/// Whether `needle` stands somewhere in `hay`.
pub fn contains_text(hay: &str, needle: &str) -> (r: bool)
    ensures
        r == occurs_in(hay@, needle@),
{
    let all = chars_of(hay);
    let wanted = chars_of(needle);
    if wanted.len() > all.len() {
        return false;
    }
    let last = all.len() - wanted.len();
    let mut i: usize = 0;
    loop
        invariant
            i <= last,
            all@ == hay@,
            wanted@ == needle@,
            last == hay@.len() - needle@.len(),
            forall|k: int| 0 <= k < i ==> !occurs_at(hay@, needle@, k),
        decreases last - i,
    {
        if is_at(&all, &wanted, i) {
            return true;
        }
        if i == last {
            return false;
        }
        i += 1;
    }
}

/// `text` with every occurrence of `pattern` replaced by `with`, going from
/// left to right and never into what was put in. An empty pattern occurs
/// nowhere.
pub open spec fn replaced(text: Seq<char>, pattern: Seq<char>, with: Seq<char>) -> Seq<char>
    decreases text.len(),
{
    if pattern.len() == 0 || text.len() < pattern.len() {
        text
    } else if text.take(pattern.len() as int) == pattern {
        with + replaced(text.skip(pattern.len() as int), pattern, with)
    } else {
        seq![text[0]] + replaced(text.skip(1), pattern, with)
    }
}

/// `text` with every occurrence of `pattern` replaced by `with`.
pub fn replace_all(text: &str, pattern: &str, with: &str) -> (out: String)
    ensures
        out@ == replaced(text@, pattern@, with@),
{
    let chars = chars_of(text);
    let wanted = chars_of(pattern);
    let n = chars.len();
    let m = wanted.len();
    if m == 0 || n < m {
        return text.to_owned();
    }
    let mut out = String::new();
    let mut i: usize = 0;
    assert(text@.skip(0) =~= text@);
    while i < n
        invariant
            i <= n,
            n == text@.len(),
            chars@ == text@,
            wanted@ == pattern@,
            m == pattern@.len(),
            m > 0,
            out@ + replaced(text@.skip(i as int), pattern@, with@) == replaced(
                text@,
                pattern@,
                with@,
            ),
        decreases n - i,
    {
        let ghost rest = text@.skip(i as int);
        if n - i >= m && is_at(&chars, &wanted, i) {
            proof {
                assert(rest.take(m as int) =~= text@.subrange(i as int, i + m));
                assert(rest.skip(m as int) =~= text@.skip(i + m));
                assert((out@ + with@) + replaced(text@.skip(i + m), pattern@, with@) =~= out@ + (
                with@ + replaced(text@.skip(i + m), pattern@, with@)));
            }
            out.append(with);
            i += m;
        } else {
            proof {
                if n - i >= m {
                    assert(rest.take(m as int) =~= text@.subrange(i as int, i + m));
                }
                assert(rest.skip(1) =~= text@.skip(i + 1));
                assert(text@.subrange(i as int, i + 1) =~= seq![rest[0]]);
                if rest.len() >= m {
                    assert((out@ + seq![rest[0]]) + replaced(text@.skip(i + 1), pattern@, with@)
                        =~= out@ + (seq![rest[0]] + replaced(
                        text@.skip(i + 1),
                        pattern@,
                        with@,
                    )));
                }
            }
            if n - i >= m {
                out.append(text.substring_char(i, i + 1));
                i += 1;
            } else {
                proof {
                    assert(out@ + rest =~= replaced(text@, pattern@, with@));
                    assert(text@.subrange(i as int, n as int) =~= rest);
                    assert(text@.skip(n as int) =~= Seq::<char>::empty());
                }
                out.append(text.substring_char(i, n));
                i = n;
            }
        }
    }
    assert(text@.skip(n as int) =~= Seq::<char>::empty());
    assert(out@ + Seq::<char>::empty() =~= out@);
    out
}

} // verus!
