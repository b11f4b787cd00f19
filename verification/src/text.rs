use vstd::prelude::*;

verus! {

/// The character of a decimal digit `d` (`d < 10`).
pub open spec fn digit_char(d: nat) -> char {
    if d == 0 { '0' }
    else if d == 1 { '1' }
    else if d == 2 { '2' }
    else if d == 3 { '3' }
    else if d == 4 { '4' }
    else if d == 5 { '5' }
    else if d == 6 { '6' }
    else if d == 7 { '7' }
    else if d == 8 { '8' }
    else { '9' }
}

/// The decimal representation of `n`, without sign or leading zeros.
pub open spec fn decimal(n: nat) -> Seq<char>
    decreases n,
{
    if n < 10 {
        seq![digit_char(n)]
    } else {
        decimal(n / 10).push(digit_char(n % 10))
    }
}

/// The decimal text of `x + 1` (which need not fit in a `usize`).
pub fn succ_to_string(x: usize) -> (s: String)
    ensures
        s@ == decimal(x as nat + 1),
{
    let q: usize = x / 10 + if x % 10 == 9 { 1 } else { 0 };
    let r: usize = (x % 10 + 1) % 10;
    assert((x as nat + 1) / 10 == q as nat && (x as nat + 1) % 10 == r as nat);
    if q == 0 {
        digit_str(r).to_owned()
    } else {
        let mut s = usize_to_string(q);
        s.append(digit_str(r));
        s
    }
}

/// Whether two strings hold the same characters.
pub fn str_eq(a: &str, b: &str) -> (r: bool)
    ensures
        r == (a@ == b@),
{
    let sa = a.to_owned();
    let sb = b.to_owned();
    sa == sb
}

fn digit_str(d: usize) -> (r: &'static str)
    requires
        d < 10,
    ensures
        r@ == seq![digit_char(d as nat)],
{
    proof {
        reveal_strlit("0");
        reveal_strlit("1");
        reveal_strlit("2");
        reveal_strlit("3");
        reveal_strlit("4");
        reveal_strlit("5");
        reveal_strlit("6");
        reveal_strlit("7");
        reveal_strlit("8");
        reveal_strlit("9");
    }
    if d == 0 { "0" }
    else if d == 1 { "1" }
    else if d == 2 { "2" }
    else if d == 3 { "3" }
    else if d == 4 { "4" }
    else if d == 5 { "5" }
    else if d == 6 { "6" }
    else if d == 7 { "7" }
    else if d == 8 { "8" }
    else { "9" }
}

/// Decimal text of an unsigned number.
pub fn usize_to_string(n: usize) -> (s: String)
    ensures
        s@ == decimal(n as nat),
    decreases n,
{
    if n < 10 {
        digit_str(n).to_owned()
    } else {
        let mut s = usize_to_string(n / 10);
        s.append(digit_str(n % 10));
        s
    }
}

/// `a` followed by `b`.
pub fn concat2(a: &str, b: &str) -> (s: String)
    ensures
        s@ == a@ + b@,
{
    let mut s = a.to_owned();
    s.append(b);
    s
}

/// `a`, `b` and `c` one after the other.
pub fn concat3(a: &str, b: &str, c: &str) -> (s: String)
    ensures
        s@ == a@ + b@ + c@,
{
    let mut s = a.to_owned();
    s.append(b);
    s.append(c);
    s
}

/// A list of strings as text.
pub open spec fn strs(v: Seq<String>) -> Seq<Seq<char>> {
    v.map_values(|s: String| s@)
}

/// The strings of `list` with `sep` between each two.
pub open spec fn seq_join(list: Seq<Seq<char>>, sep: Seq<char>) -> Seq<char>
    decreases list.len(),
{
    if list.len() == 0 {
        Seq::empty()
    } else if list.len() == 1 {
        list[0]
    } else {
        seq_join(list.drop_last(), sep) + sep + list.last()
    }
}

/// The strings of `list` with `sep` between each two.
pub fn join(list: &Vec<String>, sep: &str) -> (s: String)
    ensures
        s@ == seq_join(strs(list@), sep@),
{
    let mut s = String::new();
    let mut k: usize = 0;
    while k < list.len()
        invariant
            k <= list@.len(),
            s@ == seq_join(strs(list@).subrange(0, k as int), sep@),
        decreases list@.len() - k,
    {
        let ghost before = strs(list@).subrange(0, k as int);
        if k > 0 {
            s.append(sep);
        }
        s.append(list[k].as_str());
        proof {
            let after = strs(list@).subrange(0, k + 1);
            assert(after.drop_last() =~= before);
            if k == 0 {
                assert(s@ =~= after[0]);
            }
        }
        k = k + 1;
    }
    proof {
        assert(strs(list@).subrange(0, k as int) =~= strs(list@));
    }
    s
}

/// The pieces of `s` between the occurrences of `c`, as `str::split` gives them:
/// one piece more than there are occurrences.
pub open spec fn split_on(s: Seq<char>, c: char) -> Seq<Seq<char>>
    decreases s.len(),
{
    if s.len() == 0 {
        seq![Seq::<char>::empty()]
    } else {
        let t = split_on(s.drop_last(), c);
        if s.last() == c {
            t.push(Seq::<char>::empty())
        } else {
            t.update(t.len() - 1, t.last().push(s.last()))
        }
    }
}

/// `s` without a final carriage return.
pub open spec fn strip_cr(s: Seq<char>) -> Seq<char> {
    if s.len() > 0 && s.last() == '\r' {
        s.drop_last()
    } else {
        s
    }
}

/// The lines of `s`, as `str::lines` gives them: split at each `\n`, with a `\r`
/// before the `\n` dropped, and no empty line after a final `\n`.
pub open spec fn text_lines(s: Seq<char>) -> Seq<Seq<char>> {
    let parts = split_on(s, '\n');
    let ended = parts.drop_last().map_values(|l: Seq<char>| strip_cr(l));
    if parts.last().len() == 0 {
        ended
    } else {
        ended.push(parts.last())
    }
}

/// Whether `c` is a decimal digit.
pub open spec fn is_digit(c: char) -> bool {
    '0' <= c && c <= '9'
}

/// The number that a string of decimal digits stands for.
pub open spec fn digits_value(s: Seq<char>) -> nat
    decreases s.len(),
{
    if s.len() == 0 {
        0
    } else {
        digits_value(s.drop_last()) * 10 + ((s.last() as int) - ('0' as int)) as nat
    }
}

/// What `str::parse::<usize>` gives: an optional `+`, then at least one digit and
/// nothing else, of a value that fits in a `usize`.
pub open spec fn parse_usize_spec(s: Seq<char>) -> Option<usize> {
    let d = unsigned_digits(s);
    if d.len() > 0 && all_digits(d) && digits_value(d) <= usize::MAX {
        Some(digits_value(d) as usize)
    } else {
        None
    }
}

/// `s` without a leading `+`.
pub open spec fn unsigned_digits(s: Seq<char>) -> Seq<char> {
    if s.len() > 0 && s[0] == '+' {
        s.drop_first()
    } else {
        s
    }
}

/// Whether every character of `s` is a decimal digit.
pub open spec fn all_digits(s: Seq<char>) -> bool {
    forall|i: int| 0 <= i < s.len() ==> is_digit(#[trigger] s[i])
}

/// A string of digits stands for at least as much as any of its prefixes.
pub proof fn lemma_digits_value_grows(s: Seq<char>, m: nat)
    requires
        m <= s.len(),
        all_digits(s),
    ensures
        digits_value(s) >= digits_value(s.take(m as int)),
    decreases s.len(),
{
    if m < s.len() {
        assert(is_digit(s[s.len() - 1]));
        lemma_digits_value_grows(s.drop_last(), m);
        assert(s.drop_last().take(m as int) =~= s.take(m as int));
    } else {
        assert(s.take(m as int) =~= s);
    }
}

/// The characters of `s`.
pub fn chars_of(s: &str) -> (v: Vec<char>)
    ensures
        v@ == s@,
{
    broadcast use vstd::string::axiom_spec_iter;
    let mut v: Vec<char> = Vec::new();
    for c in it: s.chars()
        invariant
            v@ == it.seq().take(it.index() as int),
            it.seq() == s@,
    {
        v.push(c);
    }
    v
}

/// The pieces of `s` between the occurrences of `c`.
pub fn split_str(s: &str, c: char) -> (v: Vec<String>)
    ensures
        strs(v@) == split_on(s@, c),
{
    let chars = chars_of(s);
    let mut v: Vec<String> = Vec::new();
    let mut start: usize = 0;
    let mut k: usize = 0;
    proof {
        assert(strs(v@) =~= Seq::<Seq<char>>::empty());
        assert(s@.subrange(0, 0) =~= Seq::<char>::empty());
        assert(strs(v@).push(s@.subrange(0, 0)) =~= seq![Seq::<char>::empty()]);
        assert(s@.take(0) =~= Seq::<char>::empty());
    }
    while k < chars.len()
        invariant
            chars@ == s@,
            start <= k <= chars@.len(),
            forall|i: int| start <= i < k ==> chars@[i] != c,
            strs(v@).push(s@.subrange(start as int, k as int)) == split_on(s@.take(k as int), c),
        decreases chars@.len() - k,
    {
        let ghost before = strs(v@);
        proof {
            assert(s@.take(k + 1).drop_last() =~= s@.take(k as int));
            assert(s@.take(k + 1).last() == chars@[k as int]);
        }
        if chars[k] == c {
            let piece = s.substring_char(start, k).to_owned();
            v.push(piece);
            start = k + 1;
            proof {
                assert(strs(v@) =~= before.push(piece@));
                assert(s@.subrange(start as int, k + 1) =~= Seq::<char>::empty());
            }
        } else {
            proof {
                assert(s@.subrange(start as int, k + 1) =~= s@.subrange(start as int, k as int).push(chars@[k as int]));
            }
        }
        k = k + 1;
    }
    let last = s.substring_char(start, k).to_owned();
    let ghost before = strs(v@);
    v.push(last);
    proof {
        assert(strs(v@) =~= before.push(last@));
        assert(s@.take(k as int) =~= s@);
    }
    v
}

/// Reads a decimal number as `str::parse::<usize>` does.
pub fn parse_usize(s: &str) -> (r: Option<usize>)
    ensures
        r == parse_usize_spec(s@),
{
    let chars = chars_of(s);
    let mut k: usize = 0;
    if chars.len() > 0 && chars[0] == '+' {
        k = 1;
    }
    let ghost d = unsigned_digits(s@);
    assert(d =~= s@.subrange(k as int, s@.len() as int));
    if k == chars.len() {
        return None;
    }
    let mut value: usize = 0;
    let mut i: usize = k;
    while i < chars.len()
        invariant
            chars@ == s@,
            k <= i <= chars@.len(),
            k + d.len() == chars@.len(),
            d == s@.subrange(k as int, s@.len() as int),
            d == unsigned_digits(s@),
            forall|j: int| k <= j < i ==> is_digit(#[trigger] chars@[j]),
            value == digits_value(d.take(i - k)),
        decreases chars@.len() - i,
    {
        let ch = chars[i];
        proof {
            assert(d.take(i - k + 1).drop_last() =~= d.take(i - k));
            assert(d.take(i - k + 1).last() == ch);
        }
        assert(d[i - k] == ch);
        if !('0' <= ch && ch <= '9') {
            assert(!is_digit(d[i - k]));
            assert(!all_digits(d));
            return None;
        }
        let digit = (ch as u32 - '0' as u32) as usize;
        assert(digit == (ch as int) - ('0' as int));
        assert(digits_value(d.take(i - k + 1)) == value * 10 + digit);
        if value > (usize::MAX - digit) / 10 {
            proof {
                assert(value * 10 + digit > usize::MAX) by (nonlinear_arith)
                    requires
                        value > (usize::MAX - digit) / 10,
                        digit <= 9,
                ;
                if all_digits(d) {
                    lemma_digits_value_grows(d, (i - k + 1) as nat);
                }
            }
            return None;
        }
        assert(value * 10 + digit <= usize::MAX) by (nonlinear_arith)
            requires
                value <= (usize::MAX - digit) / 10,
                digit <= 9,
        ;
        value = value * 10 + digit;
        i = i + 1;
    }
    assert(d.take(i - k) =~= d);
    Some(value)
}

/// `split_on` gives at least one piece.
pub proof fn lemma_split_on_len(s: Seq<char>, c: char)
    ensures
        split_on(s, c).len() >= 1,
    decreases s.len(),
{
    if s.len() > 0 {
        lemma_split_on_len(s.drop_last(), c);
    }
}

/// `s` without a final carriage return.
fn strip_cr_str(s: &str) -> (r: String)
    ensures
        r@ == strip_cr(s@),
{
    let n = s.unicode_len();
    if n > 0 && s.get_char(n - 1) == '\r' {
        let r = s.substring_char(0, n - 1).to_owned();
        assert(r@ =~= s@.drop_last());
        r
    } else {
        s.to_owned()
    }
}

/// The lines of `s`, as `str::lines` gives them.
pub fn lines_of(s: &str) -> (v: Vec<String>)
    ensures
        strs(v@) == text_lines(s@),
{
    let parts = split_str(s, '\n');
    let ghost ps = split_on(s@, '\n');
    proof {
        lemma_split_on_len(s@, '\n');
    }
    assert(parts@.len() == ps.len());
    let n = parts.len();
    let mut v: Vec<String> = Vec::new();
    let mut k: usize = 0;
    while k + 1 < n
        invariant
            n == parts@.len(),
            n >= 1,
            k + 1 <= n,
            strs(parts@) == ps,
            strs(v@) == ps.drop_last().map_values(|l: Seq<char>| strip_cr(l)).take(k as int),
        decreases n - k,
    {
        let ghost before = strs(v@);
        let line = strip_cr_str(parts[k].as_str());
        v.push(line);
        proof {
            let ended = ps.drop_last().map_values(|l: Seq<char>| strip_cr(l));
            assert(strs(parts@)[k as int] == parts@[k as int]@);
            assert(ended[k as int] == line@);
            assert(strs(v@) =~= before.push(line@));
            assert(ended.take(k + 1) =~= ended.take(k as int).push(ended[k as int]));
        }
        k = k + 1;
    }
    let ghost ended = ps.drop_last().map_values(|l: Seq<char>| strip_cr(l));
    assert(ended.take(k as int) =~= ended);
    assert(strs(parts@)[n - 1] == parts@[n - 1]@);
    if parts[n - 1].unicode_len() > 0 {
        let last = parts[n - 1].clone();
        let ghost before = strs(v@);
        v.push(last);
        assert(strs(v@) =~= before.push(ps.last()));
    }
    v
}

/// `c` does not occur in `s`.
pub open spec fn lacks(s: Seq<char>, c: char) -> bool {
    forall|i: int| 0 <= i < s.len() ==> #[trigger] s[i] != c
}

/// A string without `c` is one piece.
pub proof fn lemma_split_on_lacks(s: Seq<char>, c: char)
    requires
        lacks(s, c),
    ensures
        split_on(s, c) == seq![s],
    decreases s.len(),
{
    if s.len() > 0 {
        let t = s.drop_last();
        assert(lacks(t, c)) by {
            assert forall|i: int| 0 <= i < t.len() implies #[trigger] t[i] != c by {
                assert(t[i] == s[i]);
            }
        }
        lemma_split_on_lacks(t, c);
        assert(t.push(s.last()) =~= s);
        assert(split_on(s, c) =~= seq![s]);
    } else {
        assert(s =~= Seq::<char>::empty());
    }
}

/// Splitting at an occurrence of `c` splits the pieces there.
pub proof fn lemma_split_on_concat(a: Seq<char>, b: Seq<char>, c: char)
    ensures
        split_on(a + seq![c] + b, c) == split_on(a, c) + split_on(b, c),
    decreases b.len(),
{
    lemma_split_on_len(a, c);
    if b.len() == 0 {
        assert(a + seq![c] + b =~= a.push(c));
        assert((a + seq![c] + b).drop_last() =~= a);
        assert(split_on(b, c) =~= seq![Seq::<char>::empty()]);
        assert(split_on(a, c).push(Seq::<char>::empty()) =~= split_on(a, c) + split_on(b, c));
    } else {
        let s = a + seq![c] + b;
        let b2 = b.drop_last();
        lemma_split_on_concat(a, b2, c);
        lemma_split_on_len(b2, c);
        assert(s.drop_last() =~= a + seq![c] + b2);
        assert(s.last() == b.last());
        let t = split_on(a, c) + split_on(b2, c);
        if b.last() == c {
            assert(t.push(Seq::<char>::empty()) =~= split_on(a, c) + split_on(b2, c).push(Seq::<char>::empty()));
        } else {
            let u = split_on(b2, c);
            assert(t.update(t.len() - 1, t.last().push(b.last())) =~= split_on(a, c) + u.update(
                u.len() - 1,
                u.last().push(b.last()),
            ));
        }
    }
}

/// Lines, each followed by a newline.
pub open spec fn join_lines(ls: Seq<Seq<char>>) -> Seq<char>
    decreases ls.len(),
{
    if ls.len() == 0 {
        Seq::empty()
    } else {
        join_lines(ls.drop_last()) + ls.last() + "\n"@
    }
}

/// Joining two runs of lines joins their texts.
pub proof fn lemma_join_lines_concat(a: Seq<Seq<char>>, b: Seq<Seq<char>>)
    ensures
        join_lines(a + b) == join_lines(a) + join_lines(b),
    decreases b.len(),
{
    if b.len() == 0 {
        assert(a + b =~= a);
        assert(join_lines(a) + join_lines(b) =~= join_lines(a));
    } else {
        lemma_join_lines_concat(a, b.drop_last());
        assert((a + b).drop_last() =~= a + b.drop_last());
        assert(join_lines(a + b) =~= join_lines(a) + join_lines(b));
    }
}

/// A line that `text_lines` gives back as it is: no newline, and no carriage return
/// at its end.
pub open spec fn plain_line(l: Seq<char>) -> bool {
    &&& lacks(l, '\n')
    &&& !(l.len() > 0 && l.last() == '\r')
}

/// The pieces of lines joined by newlines, followed by `x`.
proof fn lemma_split_join_lines(ls: Seq<Seq<char>>, x: Seq<char>)
    requires
        forall|i: int| 0 <= i < ls.len() ==> lacks(#[trigger] ls[i], '\n'),
        lacks(x, '\n'),
    ensures
        split_on(join_lines(ls) + x, '\n') == ls.push(x),
    decreases ls.len(),
{
    reveal_strlit("\n");
    if ls.len() == 0 {
        assert(join_lines(ls) + x =~= x);
        lemma_split_on_lacks(x, '\n');
        assert(ls.push(x) =~= seq![x]);
    } else {
        let l = ls.last();
        let rest = ls.drop_last();
        assert(lacks(rest.last(), '\n') || rest.len() == 0);
        assert(forall|i: int| 0 <= i < rest.len() ==> #[trigger] rest[i] == ls[i]);
        assert(lacks(l, '\n'));
        lemma_split_join_lines(rest, l);
        assert(join_lines(ls) + x =~= (join_lines(rest) + l) + seq!['\n'] + x);
        lemma_split_on_concat(join_lines(rest) + l, x, '\n');
        lemma_split_on_lacks(x, '\n');
        assert(rest.push(l) =~= ls);
    }
}

/// Lines joined by newlines are read back as the same lines.
pub proof fn lemma_text_lines_join(ls: Seq<Seq<char>>)
    requires
        forall|i: int| 0 <= i < ls.len() ==> plain_line(#[trigger] ls[i]),
    ensures
        text_lines(join_lines(ls)) == ls,
{
    assert forall|i: int| 0 <= i < ls.len() implies lacks(#[trigger] ls[i], '\n') by {
        assert(plain_line(ls[i]));
    }
    lemma_split_join_lines(ls, Seq::<char>::empty());
    assert(join_lines(ls) + Seq::<char>::empty() =~= join_lines(ls));
    let parts = ls.push(Seq::<char>::empty());
    assert(parts.drop_last() =~= ls);
    assert(parts.drop_last().map_values(|l: Seq<char>| strip_cr(l)) =~= ls) by {
        assert forall|i: int| 0 <= i < ls.len() implies strip_cr(#[trigger] ls[i]) == ls[i] by {
            assert(plain_line(ls[i]));
        }
    }
}

/// The decimal text of a number is digits that stand for it.
pub proof fn lemma_decimal_digits(n: nat)
    ensures
        decimal(n).len() >= 1,
        all_digits(decimal(n)),
        digits_value(decimal(n)) == n,
    decreases n,
{
    let d = (n % 10) as nat;
    assert((digit_char(d) as int) - ('0' as int) == d && is_digit(digit_char(d)));
    if n >= 10 {
        lemma_decimal_digits(n / 10);
        let t = decimal(n / 10);
        assert(decimal(n).drop_last() =~= t);
        assert(decimal(n).last() == digit_char(d));
        assert((n / 10) * 10 + n % 10 == n) by (nonlinear_arith);
        assert(digits_value(decimal(n)) == digits_value(t) * 10 + d);
        assert forall|i: int| 0 <= i < decimal(n).len() implies is_digit(#[trigger] decimal(n)[i]) by {
            if i < t.len() {
                assert(decimal(n)[i] == t[i]);
            }
        }
    } else {
        assert(decimal(n).drop_last() =~= Seq::<char>::empty());
        assert(decimal(n).last() == digit_char(d));
        assert(n % 10 == n);
        assert(digits_value(decimal(n)) == digits_value(Seq::<char>::empty()) * 10 + d);
    }
}

/// The decimal text of a `usize` reads back as it.
pub proof fn lemma_parse_decimal(n: usize)
    ensures
        parse_usize_spec(decimal(n as nat)) == Some(n),
{
    lemma_decimal_digits(n as nat);
    let s = decimal(n as nat);
    assert(is_digit(s[0]));
    assert(unsigned_digits(s) == s);
}

/// Digits lack any character that is no digit.
pub proof fn lemma_digits_lack(s: Seq<char>, c: char)
    requires
        all_digits(s),
        !is_digit(c),
    ensures
        lacks(s, c),
{
    assert forall|i: int| 0 <= i < s.len() implies #[trigger] s[i] != c by {
        assert(is_digit(s[i]));
    }
}

} // verus!
