//! Decisions behind what the terminal shows: colours of repository names and
//! the numbers packages are listed with.
use vstd::prelude::*;
use vstd::string::StringExecFns;

verus! {

/// The colour a repository name is shown in.
#[derive(Debug, Clone, Copy, PartialEq, Eq)]
pub enum SourceColor {
    DarkGreen,
    Magenta,
    DarkBlue,
    DarkYellow,
    Grey,
    Green,
}

/// The colour of repository `source`: "aur" dark green, "core" magenta,
/// "extra" dark blue, "community" dark yellow, "local" grey, others green.
pub open spec fn source_color(source: Seq<char>) -> SourceColor {
    if source == "aur"@ {
        SourceColor::DarkGreen
    } else if source == "core"@ {
        SourceColor::Magenta
    } else if source == "extra"@ {
        SourceColor::DarkBlue
    } else if source == "community"@ {
        SourceColor::DarkYellow
    } else if source == "local"@ {
        SourceColor::Grey
    } else {
        SourceColor::Green
    }
}

/// The colour repository `source` is shown in.
pub fn style_for_source(source: &String) -> (res: SourceColor)
    ensures
        res == source_color(source@),
{
    if *source == String::from_str("aur") {
        SourceColor::DarkGreen
    } else if *source == String::from_str("core") {
        SourceColor::Magenta
    } else if *source == String::from_str("extra") {
        SourceColor::DarkBlue
    } else if *source == String::from_str("community") {
        SourceColor::DarkYellow
    } else if *source == String::from_str("local") {
        SourceColor::Grey
    } else {
        SourceColor::Green
    }
}

/// The number that the package at position `i` of a list of `num_package`
/// packages is listed with: the list is numbered down from `num_package`.
pub fn selection_number(num_package: usize, i: usize) -> (res: usize)
    requires
        i < num_package,
    ensures
        res == num_package - i,
{
    num_package - i
}

/// The answer to a yes/no question, from the line the user typed: a line
/// whose first character is 'y' or 'Y' says yes, one starting with 'n' or 'N'
/// says no, and any other line (an empty one too) takes `default`.
pub open spec fn yes_no(line: Seq<char>, default: bool) -> bool {
    if line.len() > 0 && (line[0] == 'y' || line[0] == 'Y') {
        true
    } else if line.len() > 0 && (line[0] == 'n' || line[0] == 'N') {
        false
    } else {
        default
    }
}

/// Reads the user's yes or no out of the line `line`, see [`yes_no`].
pub fn handle_yes_no(line: &str, default: bool) -> (res: bool)
    ensures
        res == yes_no(line@, default),
{
    if line.unicode_len() == 0 {
        return default;
    }
    let c = line.get_char(0);
    if c == 'y' || c == 'Y' {
        true
    } else if c == 'n' || c == 'N' {
        false
    } else {
        default
    }
}


/// Characters that separate the words of a line.
pub open spec fn is_blank(c: char) -> bool {
    c == ' ' || c == '\t' || c == '\n' || c == '\r'
}

/// The words of `s`: its longest runs of characters that are not blank, in order.
pub open spec fn words(s: Seq<char>) -> Seq<Seq<char>>
    decreases s.len(),
{
    if s.len() == 0 {
        Seq::empty()
    } else {
        let w = words(s.drop_last());
        let c = s.last();
        if is_blank(c) {
            w
        } else if s.len() >= 2 && !is_blank(s[s.len() - 2]) {
            w.drop_last().push(w.last().push(c))
        } else {
            w.push(seq![c])
        }
    }
}

pub open spec fn is_digit(c: char) -> bool {
    '0' <= c && c <= '9'
}

pub open spec fn all_digits(d: Seq<char>) -> bool {
    forall|i: int| 0 <= i < d.len() ==> is_digit(#[trigger] d[i])
}

/// The number that the decimal digits `d` write.
pub open spec fn digits_value(d: Seq<char>) -> int
    decreases d.len(),
{
    if d.len() == 0 {
        0
    } else {
        digits_value(d.drop_last()) * 10 + (d.last() as int - '0' as int)
    }
}

/// The number a word writes: one or more decimal digits, possibly after a
/// minus sign; `None` for any other word.
pub open spec fn word_value(w: Seq<char>) -> Option<int> {
    if w.len() > 0 && all_digits(w) {
        Some(digits_value(w))
    } else if w.len() > 1 && w[0] == '-' && all_digits(w.drop_first()) {
        Some(-digits_value(w.drop_first()))
    } else {
        None
    }
}

/// The numbers of the words `ws` that write a number that fits in an `i32`,
/// in order; the other words are passed over.
pub open spec fn word_numbers(ws: Seq<Seq<char>>) -> Seq<i32>
    decreases ws.len(),
{
    if ws.len() == 0 {
        Seq::empty()
    } else {
        let rest = word_numbers(ws.drop_last());
        match word_value(ws.last()) {
            Some(v) => if i32::MIN <= v <= i32::MAX {
                rest.push(v as i32)
            } else {
                rest
            },
            None => rest,
        }
    }
}

proof fn lemma_digits_value_grows(d: Seq<char>, k: int)
    requires
        all_digits(d),
        0 <= k <= d.len(),
    ensures
        0 <= digits_value(d.take(k)) <= digits_value(d),
    decreases d.len(),
{
    if k < d.len() {
        let t = d.drop_last();
        assert(all_digits(t)) by {
            assert forall|i: int| 0 <= i < t.len() implies is_digit(#[trigger] t[i]) by {
                assert(t[i] == d[i]);
            }
        }
        assert(t.take(k) =~= d.take(k));
        lemma_digits_value_grows(t, k);
        assert(is_digit(d[d.len() - 1]));
    } else {
        assert(d.take(k) =~= d);
        lemma_digits_value_grows_nonneg(d);
    }
}

proof fn lemma_digits_value_grows_nonneg(d: Seq<char>)
    requires
        all_digits(d),
    ensures
        0 <= digits_value(d),
    decreases d.len(),
{
    if d.len() > 0 {
        let t = d.drop_last();
        assert(all_digits(t)) by {
            assert forall|i: int| 0 <= i < t.len() implies is_digit(#[trigger] t[i]) by {
                assert(t[i] == d[i]);
            }
        }
        lemma_digits_value_grows_nonneg(t);
        assert(is_digit(d[d.len() - 1]));
    }
}

/// The value of the digits `w[from..]` when it is at most 2147483648, or
/// `None` when they are not all digits or write a greater number.
fn small_digits_value(w: &Vec<char>, from: usize) -> (res: Option<i64>)
    requires
        from <= w@.len(),
    ensures
        match res {
            Some(v) => all_digits(w@.skip(from as int)) && v == digits_value(w@.skip(from as int)) && 0 <= v <= 2147483648,
            None => !all_digits(w@.skip(from as int)) || digits_value(w@.skip(from as int)) > 2147483648,
        },
{
    let ghost d = w@.skip(from as int);
    let n = w.len();
    let mut i = from;
    let mut v: i64 = 0;
    while i < n
        invariant
            from <= i <= n,
            n == w@.len(),
            d == w@.skip(from as int),
            all_digits(d.take(i - from)),
            v == digits_value(d.take(i - from)),
            0 <= v <= 2147483648,
        decreases n - i,
    {
        let c = w[i];
        proof {
            assert(d[i - from] == c);
            assert(d.take(i - from + 1).drop_last() =~= d.take(i - from));
        }
        if !('0' <= c && c <= '9') {
            proof {
                assert(!is_digit(d[i - from]));
            }
            return None;
        }
        let digit = (c as u32 - '0' as u32) as i64;
        let nv = v * 10 + digit;
        proof {
            assert(all_digits(d.take(i - from + 1))) by {
                assert forall|j: int| 0 <= j < d.take(i - from + 1).len() implies is_digit(#[trigger] d.take(i - from + 1)[j]) by {
                    if j < i - from {
                        assert(d.take(i - from + 1)[j] == d.take(i - from)[j]);
                    }
                }
            }
            assert(nv == digits_value(d.take(i - from + 1)));
        }
        if nv > 2147483648 {
            proof {
                if all_digits(d) {
                    lemma_digits_value_grows(d, i - from + 1);
                }
            }
            return None;
        }
        v = nv;
        i = i + 1;
    }
    proof {
        assert(d.take(n - from) =~= d);
    }
    Some(v)
}

/// The number word `w` writes, when it writes one that fits in an `i32`.
fn word_number(w: &Vec<char>) -> (res: Option<i32>)
    ensures
        res == match word_value(w@) {
            Some(v) => if i32::MIN <= v <= i32::MAX { Some(v as i32) } else { None },
            None => None,
        },
{
    if w.len() == 0 {
        return None;
    }
    if w[0] == '-' {
        if w.len() < 2 {
            return None;
        }
        proof {
            assert(w@.skip(1) =~= w@.drop_first());
            assert(!is_digit(w@[0]));
        }
        match small_digits_value(w, 1) {
            Some(v) => Some((-v) as i32),
            None => None,
        }
    } else {
        proof {
            assert(w@.skip(0) =~= w@);
        }
        match small_digits_value(w, 0) {
            Some(v) => if v <= 2147483647 { Some(v as i32) } else { None },
            None => None,
        }
    }
}

/// The character of decimal digit `d`.
pub open spec fn digit_char(d: int) -> char {
    (d + 48) as char
}

/// The decimal writing of `n`, without leading zeros.
pub open spec fn decimal(n: nat) -> Seq<char>
    decreases n,
{
    if n < 10 {
        seq![digit_char(n as int)]
    } else {
        decimal(n / 10).push(digit_char((n % 10) as int))
    }
}

proof fn lemma_decimal(n: nat)
    ensures
        decimal(n).len() >= 1,
        all_digits(decimal(n)),
        digits_value(decimal(n)) == n,
        forall|i: int| 0 <= i < decimal(n).len() ==> !is_blank(#[trigger] decimal(n)[i]) && decimal(n)[i] != '-',
    decreases n,
{
    let d = decimal(n);
    if n < 10 {
        assert(d.drop_last() =~= Seq::<char>::empty());
        assert(digit_char(n as int) as int == n + 48);
        assert('0' as int == 48);
        assert(d.last() == digit_char(n as int));
        assert(digits_value(d.drop_last()) == 0);
    } else {
        lemma_decimal(n / 10);
        let p = decimal(n / 10);
        let c = digit_char((n % 10) as int);
        assert(c as int == n % 10 + 48);
        assert('0' as int == 48);
        assert(d.drop_last() =~= p);
        assert(d.last() == c);
        assert(digits_value(d) == digits_value(p) * 10 + (c as int - '0' as int));
        assert((n / 10) * 10 + n % 10 == n);
        assert forall|i: int| 0 <= i < d.len() implies is_digit(#[trigger] d[i]) by {
            if i < p.len() {
                assert(d[i] == p[i]);
            }
        }
        assert forall|i: int| 0 <= i < d.len() implies !is_blank(#[trigger] d[i]) && d[i] != '-' by {
            if i < p.len() {
                assert(d[i] == p[i]);
            }
        }
    }
}

proof fn lemma_one_word(s: Seq<char>)
    requires
        s.len() >= 1,
        forall|i: int| 0 <= i < s.len() ==> !is_blank(#[trigger] s[i]),
    ensures
        words(s) == seq![s],
    decreases s.len(),
{
    if s.len() == 1 {
        assert(s.drop_last() =~= Seq::<char>::empty());
        assert(words(s.drop_last()) =~= Seq::<Seq<char>>::empty());
        assert(seq![s.last()] =~= s);
        assert(Seq::<Seq<char>>::empty().push(seq![s.last()]) =~= seq![s]);
    } else {
        let p = s.drop_last();
        assert forall|i: int| 0 <= i < p.len() implies !is_blank(#[trigger] p[i]) by {
            assert(p[i] == s[i]);
        }
        lemma_one_word(p);
        assert(!is_blank(s[s.len() - 1]));
        assert(!is_blank(s[s.len() - 2]));
        assert(p.push(s.last()) =~= s);
        assert(seq![p].drop_last().push(seq![p].last().push(s.last())) =~= seq![s]);
    }
}

/// Law of reading numbers: the decimal writing of any number that fits in an
/// `i32` reads back as exactly that number, and so does the writing of a
/// negative one (a minus sign before the digits) down to `i32::MIN`; two
/// such words separated by a blank read back as both numbers, in order.
pub proof fn lemma_numbers_read_back(n: nat, m: nat)
    requires
        n <= i32::MAX,
        m <= i32::MAX,
    ensures
        word_numbers(words(decimal(n))) == seq![n as i32],
        1 <= n ==> word_numbers(words(seq!['-'] + decimal(n))) == seq![(-n) as i32],
        n == 2147483647 ==> word_numbers(words(seq!['-'] + decimal(n + 1))) == seq![i32::MIN],
        word_numbers(words(decimal(n) + seq![' '] + decimal(m))) == seq![n as i32, m as i32],
{
    lemma_decimal(n);
    lemma_one_word(decimal(n));
    assert(word_value(decimal(n)) == Some(n as int));
    lemma_single_word_numbers(decimal(n), n as int);
    if n >= 1 {
        lemma_negative_reads_back(n);
    }
    if n == 2147483647 {
        lemma_negative_reads_back(n + 1);
    }
    lemma_two_words(n, m);
}

proof fn lemma_single_word_numbers(w: Seq<char>, v: int)
    requires
        word_value(w) == Some(v),
        i32::MIN <= v <= i32::MAX,
    ensures
        word_numbers(seq![w]) == seq![v as i32],
{
    let ws = seq![w];
    assert(ws.drop_last() =~= Seq::<Seq<char>>::empty());
    assert(word_numbers(Seq::<Seq<char>>::empty()) == Seq::<i32>::empty());
    assert(ws.last() == w);
    assert(Seq::<i32>::empty().push(v as i32) =~= seq![v as i32]);
}

proof fn lemma_negative_reads_back(n: nat)
    requires
        1 <= n <= 2147483648,
    ensures
        word_numbers(words(seq!['-'] + decimal(n))) == seq![(-n) as i32],
{
    lemma_decimal(n);
    let w = seq!['-'] + decimal(n);
    assert forall|i: int| 0 <= i < w.len() implies !is_blank(#[trigger] w[i]) by {
        if i > 0 {
            assert(w[i] == decimal(n)[i - 1]);
        }
    }
    lemma_one_word(w);
    assert(w.drop_first() =~= decimal(n));
    assert(!is_digit(w[0]));
    assert(!all_digits(w));
    assert(word_value(w) == Some(-(n as int)));
    lemma_single_word_numbers(w, -(n as int));
}

proof fn lemma_words_append_blank_word(s: Seq<char>, t: Seq<char>)
    requires
        t.len() >= 1,
        forall|i: int| 0 <= i < t.len() ==> !is_blank(#[trigger] t[i]),
    ensures
        words(s + seq![' '] + t) == words(s).push(t),
    decreases t.len(),
{
    let u = s + seq![' '] + t;
    if t.len() == 1 {
        assert(u.drop_last() =~= s + seq![' ']);
        assert((s + seq![' ']).drop_last() =~= s);
        assert(words(s + seq![' ']) == words(s));
        assert(u[u.len() - 2] == ' ');
        assert(seq![t.last()] =~= t);
    } else {
        let p = t.drop_last();
        assert forall|i: int| 0 <= i < p.len() implies !is_blank(#[trigger] p[i]) by {
            assert(p[i] == t[i]);
        }
        lemma_words_append_blank_word(s, p);
        assert(u.drop_last() =~= s + seq![' '] + p);
        assert(u[u.len() - 2] == t[t.len() - 2]);
        assert(u.last() == t.last());
        assert(p.push(t.last()) =~= t);
        assert(words(s).push(p).drop_last().push(words(s).push(p).last().push(t.last())) =~= words(s).push(t));
    }
}

proof fn lemma_two_words(n: nat, m: nat)
    requires
        n <= i32::MAX,
        m <= i32::MAX,
    ensures
        word_numbers(words(decimal(n) + seq![' '] + decimal(m))) == seq![n as i32, m as i32],
{
    lemma_decimal(n);
    lemma_decimal(m);
    lemma_one_word(decimal(n));
    lemma_words_append_blank_word(decimal(n), decimal(m));
    let ws = seq![decimal(n), decimal(m)];
    assert(seq![decimal(n)].push(decimal(m)) =~= ws);
    assert(word_value(decimal(n)) == Some(n as int));
    assert(word_value(decimal(m)) == Some(m as int));
    assert(ws.drop_last() =~= seq![decimal(n)]);
    lemma_single_word_numbers(decimal(n), n as int);
    assert(ws.last() == decimal(m));
    assert(word_numbers(ws) == seq![n as i32].push(m as i32));
    assert(seq![n as i32].push(m as i32) =~= seq![n as i32, m as i32]);
}

pub open spec fn char_words(ws: Seq<Vec<char>>) -> Seq<Seq<char>> {
    ws.map_values(|w: Vec<char>| w@)
}

/// The numbers in a line the user typed: see [`word_numbers`] and [`words`].
pub fn handle_input(line: &str) -> (res: Vec<i32>)
    ensures
        res@ == word_numbers(words(line@)),
{
    let n = line.unicode_len();
    let mut ws: Vec<Vec<char>> = Vec::new();
    let mut i: usize = 0;
    while i < n
        invariant
            0 <= i <= n,
            n == line@.len(),
            char_words(ws@) == words(line@.take(i as int)),
        decreases n - i,
    {
        let c = line.get_char(i);
        let ghost before = ws@;
        proof {
            assert(line@.take(i as int + 1).drop_last() =~= line@.take(i as int));
            assert(line@.take(i as int + 1).last() == c);
        }
        if c == ' ' || c == '\t' || c == '\n' || c == '\r' {
        } else if i >= 1 && {
            let p = line.get_char(i - 1);
            !(p == ' ' || p == '\t' || p == '\n' || p == '\r')
        } {
            proof {
                assert(line@.take(i as int + 1)[i - 1] == line@[i - 1]);
                assert(words(line@.take(i as int)).len() > 0) by {
                    let t = line@.take(i as int);
                    assert(t.last() == line@[i - 1]);
                }
            }
            let mut last = ws.pop().unwrap();
            last.push(c);
            ws.push(last);
            proof {
                assert(char_words(ws@) =~= char_words(before).drop_last().push(char_words(before).last().push(c)));
            }
        } else {
            let mut w: Vec<char> = Vec::new();
            w.push(c);
            ws.push(w);
            proof {
                assert(char_words(ws@) =~= char_words(before).push(seq![c]));
            }
        }
        i = i + 1;
    }
    proof {
        assert(line@.take(n as int) =~= line@);
    }
    let ghost all = char_words(ws@);
    let mut out: Vec<i32> = Vec::new();
    let m = ws.len();
    let mut j: usize = 0;
    while j < m
        invariant
            0 <= j <= m,
            m == ws@.len(),
            all == char_words(ws@),
            out@ == word_numbers(all.take(j as int)),
        decreases m - j,
    {
        proof {
            assert(all.take(j as int + 1).drop_last() =~= all.take(j as int));
        }
        match word_number(&ws[j]) {
            Some(v) => out.push(v),
            None => {},
        }
        j = j + 1;
    }
    proof {
        assert(all.take(m as int) =~= all);
    }
    out
}

} // verus!
