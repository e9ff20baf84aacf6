//! Decimal numbers and delimited lists, as written in tokens.

use vstd::prelude::*;
use vstd::string::StringExecFns;

verus! {

/// The characters of a text, one by one.
pub fn chars_of(s: &str) -> (r: Vec<char>)
    ensures
        r@ == s@,
{
    let mut r: Vec<char> = Vec::new();
    for c in it: s.chars()
        invariant
            r@ == it.seq().take(it.index() as int),
    {
        r.push(c);
        proof {
            assert(r@ =~= it.seq().take(it.index() + 1));
        }
    }
    r
}

/// The decimal digits, in order of value.
pub open spec fn digit_chars() -> Seq<char> {
    seq!['0', '1', '2', '3', '4', '5', '6', '7', '8', '9']
}

/// `n` written in decimal, without leading zeros.
pub open spec fn decimal(n: nat) -> Seq<char>
    decreases n,
{
    if n < 10 {
        seq![digit_chars()[n as int]]
    } else {
        decimal(n / 10).push(digit_chars()[(n % 10) as int])
    }
}

/// Whether `c` is a decimal digit.
pub open spec fn is_digit(c: char) -> bool {
    '0' <= c <= '9'
}

/// The value of the decimal digit `c`.
pub open spec fn digit_value(c: char) -> nat {
    (c as u32 - '0' as u32) as nat
}

/// The value of a sequence of decimal digits.
pub open spec fn decimal_value(s: Seq<char>) -> nat
    decreases s.len(),
{
    if s.len() == 0 {
        0
    } else {
        decimal_value(s.drop_last()) * 10 + digit_value(s.last())
    }
}

/// The digits of an unsigned number, past an optional leading `+`.
pub open spec fn unsigned_digits(s: Seq<char>) -> Seq<char> {
    if s.len() > 0 && s[0] == '+' {
        s.drop_first()
    } else {
        s
    }
}

/// The `u64` that `s` writes, as `u64`'s `FromStr` reads it: an optional `+`, then one or
/// more decimal digits, of a value that fits.
pub open spec fn parse_u64(s: Seq<char>) -> Option<u64> {
    let d = unsigned_digits(s);
    if d.len() > 0 && (forall|i: int| 0 <= i < d.len() ==> is_digit(#[trigger] d[i]))
        && decimal_value(d) <= u64::MAX {
        Some(decimal_value(d) as u64)
    } else {
        None
    }
}

/// The digit characters have the values of their positions.
proof fn lemma_digit_values(k: nat)
    requires
        k < 10,
    ensures
        is_digit(digit_chars()[k as int]),
        digit_value(digit_chars()[k as int]) == k,
{
    assert(digit_chars() =~= seq!['0', '1', '2', '3', '4', '5', '6', '7', '8', '9']);
    assert(('0' as u32) == 48 && ('1' as u32) == 49 && ('2' as u32) == 50 && ('3' as u32) == 51
        && ('4' as u32) == 52 && ('5' as u32) == 53 && ('6' as u32) == 54 && ('7' as u32) == 55
        && ('8' as u32) == 56 && ('9' as u32) == 57);
}

/// A number written in decimal is a run of digits of its value.
pub proof fn lemma_decimal_digits(n: nat)
    ensures
        decimal(n).len() > 0,
        forall|i: int| 0 <= i < decimal(n).len() ==> is_digit(#[trigger] decimal(n)[i]),
        decimal_value(decimal(n)) == n,
    decreases n,
{
    if n < 10 {
        lemma_digit_values(n);
        let s = decimal(n);
        assert(s.drop_last() =~= Seq::<char>::empty());
        assert(decimal_value(s) == decimal_value(s.drop_last()) * 10 + digit_value(s.last()));
    } else {
        lemma_decimal_digits(n / 10);
        lemma_digit_values(n % 10);
        let s = decimal(n);
        assert(s.drop_last() =~= decimal(n / 10));
        assert(s.last() == digit_chars()[(n % 10) as int]);
        assert(decimal_value(s) == decimal_value(decimal(n / 10)) * 10 + digit_value(s.last()));
        assert((n / 10) * 10 + n % 10 == n) by (nonlinear_arith);
    }
}

/// Reading a `u64` back from its decimal text gives the number.
pub proof fn lemma_parse_decimal(n: u64)
    ensures
        parse_u64(decimal(n as nat)) == Some(n),
{
    lemma_decimal_digits(n as nat);
    let s = decimal(n as nat);
    assert(is_digit(s[0]));
    assert(unsigned_digits(s) == s);
}

/// Appending a separator and a piece without separators adds that piece to the split.
proof fn lemma_split_append(s: Seq<char>, sep: char, d: Seq<char>)
    requires
        forall|i: int| 0 <= i < d.len() ==> d[i] != sep,
    ensures
        split(s + seq![sep] + d, sep) == split(s, sep).push(d),
    decreases d.len(),
{
    let t = s + seq![sep] + d;
    if d.len() == 0 {
        assert(t.drop_last() =~= s);
        assert(t.last() == sep);
        assert(d =~= Seq::<char>::empty());
    } else {
        let d0 = d.drop_last();
        lemma_split_append(s, sep, d0);
        assert(t.drop_last() =~= s + seq![sep] + d0);
        assert(t.last() == d.last());
        assert(d0.push(d.last()) =~= d);
        assert(split(t, sep) =~= split(s, sep).push(d));
    }
}

/// A text without separators splits into itself.
proof fn lemma_split_whole(d: Seq<char>, sep: char)
    requires
        forall|i: int| 0 <= i < d.len() ==> d[i] != sep,
    ensures
        split(d, sep) == seq![d],
    decreases d.len(),
{
    if d.len() == 0 {
        assert(d =~= Seq::<char>::empty());
    } else {
        lemma_split_whole(d.drop_last(), sep);
        assert(d.drop_last().push(d.last()) =~= d);
        assert(split(d, sep) =~= seq![d]);
    }
}

/// A list written with a separator that is not a digit splits into the numbers' decimals,
/// which read back as the numbers; the text starts with a digit.
pub proof fn lemma_joined_reads_back(ids: Seq<u64>, sep: char)
    requires
        ids.len() > 0,
        !is_digit(sep),
    ensures
        split(joined(ids, seq![sep]), sep) == ids.map_values(|n: u64| decimal(n as nat)),
        parse_list(joined(ids, seq![sep]), sep) == Some(ids),
        joined(ids, seq![sep]).len() > 0,
        is_digit(joined(ids, seq![sep])[0]),
    decreases ids.len(),
{
    let t = joined(ids, seq![sep]);
    let last = ids.last();
    let d = decimal(last as nat);
    lemma_decimal_digits(last as nat);
    lemma_parse_decimal(last);
    if ids.len() == 1 {
        lemma_split_whole(d, sep);
        assert(ids.map_values(|n: u64| decimal(n as nat)) =~= seq![d]);
        assert(seq![d].drop_last() =~= Seq::<Seq<char>>::empty());
        assert(parse_all(Seq::<Seq<char>>::empty()) == Some(Seq::<u64>::empty()));
        assert(seq![d].last() == d);
        assert(parse_u64(d) == Some(last));
        assert(parse_all(seq![d]) == Some(Seq::<u64>::empty().push(last)));
        assert(Seq::<u64>::empty().push(last) =~= ids);
    } else {
        let init = ids.drop_last();
        lemma_joined_reads_back(init, sep);
        let a = joined(init, seq![sep]);
        lemma_split_append(a, sep, d);
        assert(t == a + seq![sep] + d);
        assert(ids.map_values(|n: u64| decimal(n as nat)) =~= init.map_values(
            |n: u64| decimal(n as nat),
        ).push(d));
        assert(split(t, sep).drop_last() =~= split(a, sep));
        assert(split(t, sep).last() == d);
        assert(parse_all(split(t, sep)) == Some(init.push(last)));
        assert(init.push(last) =~= ids);
        assert(t[0] == a[0]);
    }
}

/// A list of two or more numbers, written with a separator that is not a digit, is not a
/// single number.
pub proof fn lemma_joined_not_a_number(ids: Seq<u64>, sep: char)
    requires
        ids.len() >= 2,
        !is_digit(sep),
    ensures
        parse_u64(joined(ids, seq![sep])) is None,
{
    let a = joined(ids.drop_last(), seq![sep]);
    lemma_joined_reads_back(ids, sep);
    lemma_joined_reads_back(ids.drop_last(), sep);
    let t = joined(ids, seq![sep]);
    assert(t[a.len() as int] == sep);
    assert(unsigned_digits(t) == t);
    assert(!is_digit(t[a.len() as int]));
}

/// The text of one decimal digit.
fn digit_text(d: u64) -> (r: &'static str)
    requires
        d < 10,
    ensures
        r@ == seq![digit_chars()[d as int]],
{
    proof {
        reveal_strlit("0");
        reveal_strlit("1");
        reveal_strlit("2");
        reveal_strlit("3");
        reveal_strlit("4");
        reveal_strlit("5");
        reveal_strlit("6");
        reveal_strlit("7");
        reveal_strlit("8");
        reveal_strlit("9");
    }
    match d {
        0 => "0",
        1 => "1",
        2 => "2",
        3 => "3",
        4 => "4",
        5 => "5",
        6 => "6",
        7 => "7",
        8 => "8",
        _ => "9",
    }
}

/// Appends `n` written in decimal.
pub fn push_decimal(s: &mut String, n: u64)
    ensures
        final(s)@ == old(s)@ + decimal(n as nat),
    decreases n,
{
    if n >= 10 {
        push_decimal(s, n / 10);
    }
    s.append(digit_text(n % 10));
    proof {
        if n >= 10 {
            assert(decimal(n as nat) == decimal((n / 10) as nat).push(digit_chars()[(n % 10) as int]));
        }
    }
}

/// `n` written in decimal.
pub fn to_decimal(n: u64) -> (r: String)
    ensures
        r@ == decimal(n as nat),
{
    let mut s = String::new();
    push_decimal(&mut s, n);
    s
}

/// Reads the `u64` written by `cs[lo..hi]`, as `u64`'s `FromStr` does.
pub fn parse_u64_in(cs: &Vec<char>, lo: usize, hi: usize) -> (r: Option<u64>)
    requires
        lo <= hi <= cs.len(),
    ensures
        r == parse_u64(cs@.subrange(lo as int, hi as int)),
{
    let ghost s = cs@.subrange(lo as int, hi as int);
    let start: usize = if lo < hi && cs[lo] == '+' { lo + 1 } else { lo };
    let ghost d = cs@.subrange(start as int, hi as int);
    assert(d =~= unsigned_digits(s));
    if start == hi {
        return None;
    }
    let mut acc: u64 = 0;
    let mut overflow = false;
    let mut i: usize = start;
    while i < hi
        invariant
            start <= i <= hi <= cs.len(),
            d == cs@.subrange(start as int, hi as int),
            d == unsigned_digits(cs@.subrange(lo as int, hi as int)),
            forall|k: int| start <= k < i ==> is_digit(#[trigger] cs@[k]),
            !overflow ==> acc == decimal_value(cs@.subrange(start as int, i as int)),
            overflow ==> decimal_value(cs@.subrange(start as int, i as int)) > u64::MAX,
        decreases hi - i,
    {
        let c = cs[i];
        if !('0' <= c && c <= '9') {
            assert(!is_digit(d[i - start]));
            return None;
        }
        let ghost prefix = cs@.subrange(start as int, i as int);
        let ghost next = cs@.subrange(start as int, i + 1);
        assert(next.drop_last() =~= prefix);
        assert(decimal_value(next) == decimal_value(prefix) * 10 + digit_value(c));
        let v = (c as u32 - '0' as u32) as u64;
        if !overflow {
            if acc > (u64::MAX - v) / 10 {
                overflow = true;
                assert(decimal_value(next) > u64::MAX) by (nonlinear_arith)
                    requires
                        decimal_value(next) == acc * 10 + v,
                        acc > (u64::MAX - v) / 10,
                        v <= 9,
                ;
            } else {
                assert(acc * 10 + v <= u64::MAX) by (nonlinear_arith)
                    requires
                        acc <= (u64::MAX - v) / 10,
                        v <= 9,
                ;
                acc = acc * 10 + v;
            }
        } else {
            assert(decimal_value(next) >= decimal_value(prefix)) by (nonlinear_arith)
                requires
                    decimal_value(next) == decimal_value(prefix) * 10 + digit_value(c),
            ;
        }
        i = i + 1;
    }
    assert(forall|k: int| 0 <= k < d.len() ==> is_digit(#[trigger] d[k]) <== is_digit(cs@[start + k]));
    if overflow {
        None
    } else {
        Some(acc)
    }
}

/// The pieces of `s` between occurrences of `sep`, as `str::split` gives them: one piece
/// more than there are separators.
pub open spec fn split(s: Seq<char>, sep: char) -> Seq<Seq<char>>
    decreases s.len(),
{
    if s.len() == 0 {
        seq![Seq::<char>::empty()]
    } else {
        let pieces = split(s.drop_last(), sep);
        if s.last() == sep {
            pieces.push(Seq::<char>::empty())
        } else {
            pieces.update(pieces.len() - 1, pieces.last().push(s.last()))
        }
    }
}

/// The numbers that the pieces write, if each of them writes a `u64`.
pub open spec fn parse_all(pieces: Seq<Seq<char>>) -> Option<Seq<u64>>
    decreases pieces.len(),
{
    if pieces.len() == 0 {
        Some(Seq::<u64>::empty())
    } else {
        match (parse_all(pieces.drop_last()), parse_u64(pieces.last())) {
            (Some(v), Some(x)) => Some(v.push(x)),
            _ => None,
        }
    }
}

/// The numbers of a list that separates them by `sep`, if each piece writes a `u64`.
pub open spec fn parse_list(s: Seq<char>, sep: char) -> Option<Seq<u64>> {
    parse_all(split(s, sep))
}

/// Whether each number is smaller than the next.
pub open spec fn strictly_increasing(s: Seq<u64>) -> bool {
    forall|i: int, j: int| 0 <= i < j < s.len() ==> s[i] < s[j]
}

/// An increasing list holds as many numbers as its set.
pub proof fn lemma_increasing_set_len(s: Seq<u64>)
    requires
        strictly_increasing(s),
    ensures
        s.to_set().len() == s.len(),
{
    assert forall|i: int, j: int| 0 <= i < s.len() && 0 <= j < s.len() && i != j implies s[i]
        != s[j] by {
        if i < j {
            assert(s[i] < s[j]);
        } else {
            assert(s[j] < s[i]);
        }
    }
    s.unique_seq_to_set();
}

/// `ids` written in decimal, separated by `sep`.
pub open spec fn joined(ids: Seq<u64>, sep: Seq<char>) -> Seq<char>
    decreases ids.len(),
{
    if ids.len() == 0 {
        Seq::<char>::empty()
    } else if ids.len() == 1 {
        decimal(ids[0] as nat)
    } else {
        joined(ids.drop_last(), sep) + sep + decimal(ids.last() as nat)
    }
}

/// Reads a list of numbers separated by `sep`; `None` if a piece does not write a `u64`.
pub fn parse_list_of(cs: &Vec<char>, sep: char) -> (r: Option<Vec<u64>>)
    ensures
        r matches Some(v) ==> parse_list(cs@, sep) == Some(v@),
        r is None <==> parse_list(cs@, sep) is None,
{
    let mut ids: Vec<u64> = Vec::new();
    let mut failed = false;
    let mut start: usize = 0;
    let mut i: usize = 0;
    assert(cs@.take(0) =~= Seq::<char>::empty());
    while i < cs.len()
        invariant
            start <= i <= cs.len(),
            split(cs@.take(i as int), sep).len() >= 1,
            split(cs@.take(i as int), sep).last() == cs@.subrange(start as int, i as int),
            !failed ==> parse_all(split(cs@.take(i as int), sep).drop_last()) == Some(ids@),
            failed ==> parse_all(split(cs@.take(i as int), sep).drop_last()) is None,
        decreases cs.len() - i,
    {
        let ghost pieces = split(cs@.take(i as int), sep);
        assert(cs@.take(i + 1).drop_last() =~= cs@.take(i as int));
        assert(cs@.take(i + 1).last() == cs@[i as int]);
        if cs[i] == sep {
            assert(split(cs@.take(i + 1), sep).drop_last() =~= pieces);
            if !failed {
                match parse_u64_in(cs, start, i) {
                    Some(x) => {
                        ids.push(x);
                    },
                    None => {
                        failed = true;
                    },
                }
            }
            start = i + 1;
            assert(cs@.subrange(start as int, i + 1) =~= Seq::<char>::empty());
        } else {
            assert(split(cs@.take(i + 1), sep).drop_last() =~= pieces.drop_last());
            assert(cs@.subrange(start as int, i + 1) =~= cs@.subrange(start as int, i as int).push(
                cs@[i as int],
            ));
        }
        i = i + 1;
    }
    assert(cs@.take(cs.len() as int) =~= cs@);
    if failed {
        return None;
    }
    match parse_u64_in(cs, start, cs.len()) {
        Some(x) => {
            ids.push(x);
            Some(ids)
        },
        None => None,
    }
}

/// The distinct numbers of `ids`, in increasing order.
pub fn sorted_distinct(ids: &Vec<u64>) -> (r: Vec<u64>)
    ensures
        strictly_increasing(r@),
        r@.to_set() == ids@.to_set(),
{
    let mut r: Vec<u64> = Vec::new();
    let mut i: usize = 0;
    while i < ids.len()
        invariant
            i <= ids.len(),
            strictly_increasing(r@),
            r@.to_set() == ids@.take(i as int).to_set(),
        decreases ids.len() - i,
    {
        let x = ids[i];
        let mut j: usize = 0;
        while j < r.len() && r[j] < x
            invariant
                j <= r.len(),
                forall|k: int| 0 <= k < j ==> r@[k] < x,
            decreases r.len() - j,
        {
            j = j + 1;
        }
        assert(ids@.take(i + 1) =~= ids@.take(i as int).push(x));
        assert forall|v: u64| ids@.take(i + 1).contains(v) <==> ids@.take(i as int).contains(v) || v == x by {
            let t = ids@.take(i as int);
            let t1 = ids@.take(i + 1);
            if t1.contains(v) {
                let k = choose|k: int| 0 <= k < t1.len() && t1[k] == v;
                if k < i {
                    assert(t[k] == v);
                }
            }
            if t.contains(v) {
                let k = choose|k: int| 0 <= k < t.len() && t[k] == v;
                assert(ids@.take(i + 1)[k] == v);
            }
            if v == x {
                assert(ids@.take(i + 1)[i as int] == x);
            }
        }
        if j < r.len() && r[j] == x {
            assert(ids@.take(i + 1).to_set() =~= r@.to_set());
        } else {
            let ghost before = r@;
            r.insert(j, x);
            assert(r@ == before.insert(j as int, x));
            assert forall|a: int, b: int| 0 <= a < b < r@.len() implies r@[a] < r@[b] by {
                if a < j && b > j {
                    assert(r@[b] == before[b - 1]);
                }
                if a == j && b > j {
                    assert(r@[b] == before[b - 1]);
                    assert(before[j as int] > x);
                }
                if a > j {
                    assert(r@[a] == before[a - 1] && r@[b] == before[b - 1]);
                }
            }
            assert forall|v: u64| r@.contains(v) <==> before.contains(v) || v == x by {
                if r@.contains(v) {
                    let k = choose|k: int| 0 <= k < r@.len() && r@[k] == v;
                    if k < j {
                        assert(before[k] == v);
                    } else if k > j {
                        assert(before[k - 1] == v);
                    }
                }
                if before.contains(v) {
                    let k = choose|k: int| 0 <= k < before.len() && before[k] == v;
                    if k < j {
                        assert(r@[k] == v);
                    } else {
                        assert(r@[k + 1] == v);
                    }
                }
                if v == x {
                    assert(r@[j as int] == x);
                }
            }
            assert forall|v: u64| ids@.take(i + 1).to_set().contains(v) <==> r@.to_set().contains(v) by {
                assert(before.to_set().contains(v) <==> ids@.take(i as int).to_set().contains(v));
            }
            assert(ids@.take(i + 1).to_set() =~= r@.to_set());
        }
        i = i + 1;
    }
    assert(ids@.take(ids.len() as int) =~= ids@);
    r
}

/// `ids` written in decimal, separated by `sep`.
pub fn join(ids: &[u64], sep: &str) -> (r: String)
    ensures
        r@ == joined(ids@, sep@),
{
    let mut s = String::new();
    let mut i: usize = 0;
    while i < ids.len()
        invariant
            i <= ids.len(),
            s@ == joined(ids@.take(i as int), sep@),
        decreases ids.len() - i,
    {
        assert(ids@.take(i + 1).drop_last() =~= ids@.take(i as int));
        if i > 0 {
            s.append(sep);
        }
        push_decimal(&mut s, ids[i]);
        i = i + 1;
    }
    assert(ids@.take(ids.len() as int) =~= ids@);
    s
}

} // verus!
