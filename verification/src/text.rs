//! Character-level pieces of the wire protocol: splitting a line into
//! fields, reading and writing decimal numbers.
use vstd::prelude::*;

verus! {

/// The fields of `s` separated by `sep`: never fewer than one, empty fields
/// kept (as `str::split` gives them).
pub open spec fn split(s: Seq<char>, sep: char) -> Seq<Seq<char>>
    decreases s.len(),
{
    if s.len() == 0 {
        seq![Seq::empty()]
    } else {
        let r = split(s.drop_last(), sep);
        if s.last() == sep {
            r.push(Seq::empty())
        } else {
            r.update(r.len() - 1, r.last().push(s.last()))
        }
    }
}

/// The fields `fs` joined by `sep`.
pub open spec fn join_fields(fs: Seq<Seq<char>>, sep: char) -> Seq<char>
    decreases fs.len(),
{
    if fs.len() <= 1 {
        if fs.len() == 0 {
            Seq::empty()
        } else {
            fs[0]
        }
    } else {
        join_fields(fs.drop_last(), sep).push(sep) + fs.last()
    }
}

/// Appending characters other than the separator extends the last field.
pub proof fn lemma_split_append_plain(x: Seq<char>, y: Seq<char>, sep: char)
    requires
        !y.contains(sep),
    ensures
        split(x + y, sep) == split(x, sep).update(
            split(x, sep).len() - 1,
            split(x, sep).last() + y,
        ),
    decreases y.len(),
{
    lemma_split_len(x, sep);
    if y.len() == 0 {
        assert(x + y =~= x);
        assert(split(x, sep).last() + y =~= split(x, sep).last());
        assert(split(x, sep).update(split(x, sep).len() - 1, split(x, sep).last())
            =~= split(x, sep));
    } else {
        let y0 = y.drop_last();
        assert(!y0.contains(sep)) by {
            if y0.contains(sep) {
                let i = choose|i: int| 0 <= i < y0.len() && y0[i] == sep;
                assert(y[i] == sep);
            }
        }
        assert(y.last() != sep) by {
            assert(y[y.len() - 1] == y.last());
        }
        lemma_split_append_plain(x, y0, sep);
        assert((x + y).drop_last() =~= x + y0);
        assert((x + y).last() == y.last());
        lemma_split_len(x + y0, sep);
        let r = split(x, sep);
        assert(split(x + y, sep) =~= r.update(r.len() - 1, r.last() + y)) by {
            assert(r.last() + y0 + seq![y.last()] =~= r.last() + y);
            assert((r.last() + y0).push(y.last()) =~= r.last() + y);
        }
    }
}

/// Splitting fields joined by the separator gives the fields back.
pub proof fn lemma_split_join(fs: Seq<Seq<char>>, sep: char)
    requires
        fs.len() >= 1,
        forall|k: int| 0 <= k < fs.len() ==> !(#[trigger] fs[k]).contains(sep),
    ensures
        split(join_fields(fs, sep), sep) == fs,
    decreases fs.len(),
{
    if fs.len() == 1 {
        lemma_split_append_plain(Seq::empty(), fs[0], sep);
        assert(Seq::<char>::empty() + fs[0] =~= fs[0]);
        assert(Seq::<char>::empty() + fs[0] =~= fs[0]);
        assert(split(Seq::<char>::empty(), sep) =~= seq![Seq::<char>::empty()]);
        assert(split(join_fields(fs, sep), sep) =~= fs);
    } else {
        let init = fs.drop_last();
        lemma_split_join(init, sep);
        let j = join_fields(init, sep);
        assert(j.push(sep).drop_last() =~= j);
        assert(split(j.push(sep), sep) == fs.drop_last().push(Seq::<char>::empty()));
        lemma_split_append_plain(j.push(sep), fs.last(), sep);
        assert(!fs.last().contains(sep)) by {
            assert(fs[fs.len() - 1] == fs.last());
        }
        assert(Seq::<char>::empty() + fs.last() =~= fs.last());
        assert(split(join_fields(fs, sep), sep) =~= fs);
    }
}

pub proof fn lemma_split_len(s: Seq<char>, sep: char)
    ensures
        split(s, sep).len() >= 1,
    decreases s.len(),
{
    if s.len() > 0 {
        lemma_split_len(s.drop_last(), sep);
    }
}

pub open spec fn is_digit(c: char) -> bool {
    48 <= (c as u32) <= 57
}

pub open spec fn digit_value(c: char) -> nat {
    ((c as u32) - 48) as nat
}

pub open spec fn all_digits(s: Seq<char>) -> bool {
    forall|i: int| 0 <= i < s.len() ==> is_digit(#[trigger] s[i])
}

/// The number the decimal digits `s` denote.
pub open spec fn digits_value(s: Seq<char>) -> nat
    decreases s.len(),
{
    if s.len() == 0 {
        0
    } else {
        digits_value(s.drop_last()) * 10 + digit_value(s.last())
    }
}

/// `s` without a leading plus sign.
pub open spec fn unsigned_digits(s: Seq<char>) -> Seq<char> {
    if s.len() > 0 && s[0] == '+' {
        s.drop_first()
    } else {
        s
    }
}

/// The `usize` written in `s` in decimal, as `str::parse::<usize>` reads it:
/// an optional `+`, then one or more digits, the value within range.
pub open spec fn parse_usize(s: Seq<char>) -> Option<usize> {
    let d = unsigned_digits(s);
    if d.len() > 0 && all_digits(d) && digits_value(d) <= usize::MAX {
        Some(digits_value(d) as usize)
    } else {
        None
    }
}

pub open spec fn digit_char(d: nat) -> char {
    (48 + d) as char
}

/// The decimal digits of `n`, without leading zeros.
pub open spec fn decimal(n: nat) -> Seq<char>
    decreases n,
{
    if n < 10 {
        seq![digit_char(n)]
    } else {
        decimal(n / 10).push(digit_char(n % 10))
    }
}

/// The characters of `s`.
pub fn chars_of(s: &str) -> (v: Vec<char>)
    ensures
        v@ == s@,
{
    let mut v: Vec<char> = Vec::new();
    for c in it: s.chars()
        invariant
            v@ == it.seq().take(it.index()),
    {
        v.push(c);
    }
    v
}

/// The fields of `chars` separated by colons.
pub fn split_colons(chars: &Vec<char>) -> (tokens: Vec<Vec<char>>)
    ensures
        tokens.len() == split(chars@, ':').len(),
        forall|k: int| 0 <= k < tokens.len() ==> (#[trigger] tokens@[k])@ == split(chars@, ':')[k],
{
    let mut done: Vec<Vec<char>> = Vec::new();
    let mut cur: Vec<char> = Vec::new();
    let mut i: usize = 0;
    assert(chars@.take(0) =~= Seq::<char>::empty());
    while i < chars.len()
        invariant
            i <= chars.len(),
            split(chars@.take(i as int), ':').len() == done.len() + 1,
            forall|k: int| 0 <= k < done.len() ==> (#[trigger] done@[k])@ == split(chars@.take(i as int), ':')[k],
            cur@ == split(chars@.take(i as int), ':').last(),
        decreases chars.len() - i,
    {
        let c = chars[i];
        assert(chars@.take(i + 1).drop_last() =~= chars@.take(i as int));
        assert(chars@.take(i + 1).last() == c);
        proof {
            lemma_split_len(chars@.take(i as int), ':');
        }
        if c == ':' {
            done.push(cur);
            cur = Vec::new();
        } else {
            cur.push(c);
        }
        i += 1;
    }
    assert(chars@.take(i as int) =~= chars@);
    done.push(cur);
    done
}

/// Whether `t` is the one-character field `c`.
pub fn is_field(t: &Vec<char>, c: char) -> (b: bool)
    ensures
        b == (t@ == seq![c]),
{
    if t.len() == 1 && t[0] == c {
        assert(t@ =~= seq![c]);
        true
    } else {
        false
    }
}

proof fn lemma_digits_value_prefix(s: Seq<char>, j: int)
    requires
        0 <= j <= s.len(),
    ensures
        digits_value(s.take(j)) <= digits_value(s),
    decreases s.len() - j,
{
    if j < s.len() {
        lemma_digits_value_prefix(s, j + 1);
        assert(s.take(j + 1).drop_last() =~= s.take(j));
    } else {
        assert(s.take(j) =~= s);
    }
}

/// Reads a `usize` written in decimal, as `str::parse::<usize>` does.
pub fn parse_usize_field(t: &Vec<char>) -> (r: Option<usize>)
    ensures
        r == parse_usize(t@),
{
    let ghost d = unsigned_digits(t@);
    let mut start: usize = 0;
    if t.len() > 0 && t[0] == '+' {
        start = 1;
    }
    assert(d =~= t@.subrange(start as int, t@.len() as int));
    if start >= t.len() {
        return None;
    }
    let mut value: usize = 0;
    let mut i: usize = start;
    assert(d.take(0) =~= Seq::<char>::empty());
    while i < t.len()
        invariant
            start <= i <= t.len(),
            d == unsigned_digits(t@),
            d =~= t@.subrange(start as int, t@.len() as int),
            all_digits(d.take(i - start)),
            value == digits_value(d.take(i - start)),
        decreases t.len() - i,
    {
        let c = t[i];
        assert(d[i - start] == c);
        assert(d.take(i - start + 1).drop_last() =~= d.take(i - start));
        assert(d.take(i - start + 1).last() == c);
        let code = #[verifier::truncate] (c as u32);
        if code < 48 || code > 57 {
            assert(!is_digit(d[i - start]));
            assert(!all_digits(d));
            return None;
        }
        let digit = (code - 48) as usize;
        assert(digit == digit_value(c));
        proof {
            lemma_digits_value_prefix(d, i - start + 1);
        }
        match value.checked_mul(10) {
            None => {
                assert(digits_value(d.take(i - start + 1)) == value * 10 + digit);
                return None;
            },
            Some(m) => match m.checked_add(digit) {
                None => {
                    assert(digits_value(d.take(i - start + 1)) == value * 10 + digit);
                    return None;
                },
                Some(x) => {
                    value = x;
                },
            },
        }
        i += 1;
    }
    assert(d.take(i - start) =~= d);
    Some(value)
}

/// The character of the decimal digit `d`.
fn digit_char_of(d: usize) -> (c: char)
    requires
        d < 10,
    ensures
        c == digit_char(d as nat),
{
    match d {
        0 => '0',
        1 => '1',
        2 => '2',
        3 => '3',
        4 => '4',
        5 => '5',
        6 => '6',
        7 => '7',
        8 => '8',
        _ => '9',
    }
}

/// Appends `c` to `s`. Not proved: the body calls std's `String::push`,
/// which its documentation says appends the given char to the end of the
/// string; the contract states just that, over the string's characters.
#[verifier::external_body]
pub(crate) fn push_char(s: &mut String, c: char)
    ensures
        final(s)@ == old(s)@.push(c),
{
    s.push(c);
}

/// Appends the characters of `t`.
pub fn push_str(s: &mut String, t: &str)
    ensures
        final(s)@ == old(s)@ + t@,
{
    let chars = chars_of(t);
    let mut i: usize = 0;
    while i < chars.len()
        invariant
            i <= chars.len(),
            chars@ == t@,
            s@ == old(s)@ + t@.take(i as int),
        decreases chars.len() - i,
    {
        push_char(s, chars[i]);
        assert(t@.take(i + 1) =~= t@.take(i as int).push(chars@[i as int]));
        i += 1;
    }
    assert(t@.take(i as int) =~= t@);
}

/// Appends the decimal digits of `n`.
pub fn push_decimal(out: &mut String, n: usize)
    ensures
        final(out)@ == old(out)@ + decimal(n as nat),
    decreases n,
{
    if n >= 10 {
        push_decimal(out, n / 10);
    }
    push_char(out, digit_char_of(n % 10));
    proof {
        if n >= 10 {
            assert(old(out)@ + decimal((n / 10) as nat) + seq![digit_char((n % 10) as nat)]
                =~= old(out)@ + decimal(n as nat));
        } else {
            assert(old(out)@.push(digit_char((n % 10) as nat)) =~= old(out)@ + decimal(n as nat));
        }
    }
}

/// Decimal digits hold no separator and read back as the number.
pub proof fn lemma_decimal_reads_back(n: nat)
    requires
        n <= usize::MAX,
    ensures
        decimal(n).len() > 0,
        all_digits(decimal(n)),
        digits_value(decimal(n)) == n,
        unsigned_digits(decimal(n)) == decimal(n),
        parse_usize(decimal(n)) == Some(n as usize),
        !decimal(n).contains(':'),
    decreases n,
{
    assert(digit_value(digit_char(n % 10)) == n % 10);
    if n >= 10 {
        lemma_decimal_reads_back(n / 10);
        vstd::arithmetic::div_mod::lemma_fundamental_div_mod(n as int, 10);
        let d = decimal(n);
        assert(d.drop_last() =~= decimal(n / 10));
        assert(d.last() == digit_char(n % 10));
        assert(digits_value(d) == digits_value(decimal(n / 10)) * 10 + digit_value(d.last()));
        assert(digits_value(d) == n);
        assert(d[0] == decimal(n / 10)[0]);
        assert forall|i: int| 0 <= i < d.len() implies is_digit(#[trigger] d[i]) by {
            if i < d.len() - 1 {
                assert(d[i] == decimal(n / 10)[i]);
            }
        }
        if d.contains(':') {
            let i = choose|i: int| 0 <= i < d.len() && d[i] == ':';
            assert(is_digit(d[i]));
        }
    } else {
        let d = decimal(n);
        assert(d.drop_last() =~= Seq::<char>::empty());
        assert(digits_value(d) == digits_value(d.drop_last()) * 10 + digit_value(d.last()));
        if d.contains(':') {
            let i = choose|i: int| 0 <= i < d.len() && d[i] == ':';
            assert(d[i] == digit_char(n));
        }
    }
}

} // verus!
