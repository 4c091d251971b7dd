use vstd::prelude::*;
use vstd::std_specs::iter::IteratorSpec;

verus! {

/// The lines of `s`, split at each `'\n'`; text without a newline is one line.
pub open spec fn lines(s: Seq<char>) -> Seq<Seq<char>>
    decreases s.len(),
{
    if s.len() == 0 {
        seq![Seq::<char>::empty()]
    } else if s.last() == '\n' {
        lines(s.drop_last()).push(Seq::<char>::empty())
    } else {
        let ls = lines(s.drop_last());
        ls.update(ls.len() - 1, ls.last().push(s.last()))
    }
}

pub proof fn lemma_lines_nonempty(s: Seq<char>)
    ensures
        lines(s).len() >= 1,
    decreases s.len(),
{
    if s.len() > 0 {
        lemma_lines_nonempty(s.drop_last());
    }
}

/// What the lines of `v` hold.
pub open spec fn views(v: Seq<Vec<char>>) -> Seq<Seq<char>> {
    v.map_values(|l: Vec<char>| l@)
}

/// `h` begins `l`.
pub open spec fn has_prefix(l: Seq<char>, h: Seq<char>) -> bool {
    h.len() <= l.len() && l.subrange(0, h.len() as int) == h
}

/// The first index at or after `i` where `s` holds `c`, or the length of `s`.
pub open spec fn index_of_from(s: Seq<char>, i: int, c: char) -> int
    decreases s.len() - i,
{
    if i >= s.len() {
        s.len() as int
    } else if s[i] == c {
        i
    } else {
        index_of_from(s, i + 1, c)
    }
}

/// The first index at or after `i` of a line that `h` begins, or the number of lines.
pub open spec fn header_from(ls: Seq<Seq<char>>, i: int, h: Seq<char>) -> int
    decreases ls.len() - i,
{
    if i >= ls.len() {
        ls.len() as int
    } else if has_prefix(ls[i], h) {
        i
    } else {
        header_from(ls, i + 1, h)
    }
}

pub open spec fn is_digit(c: char) -> bool {
    '0' <= c && c <= '9'
}

/// The value of the decimal digits `s`.
pub open spec fn decimal_value(s: Seq<char>) -> nat
    decreases s.len(),
{
    if s.len() == 0 {
        0
    } else {
        decimal_value(s.drop_last()) * 10 + (s.last() as nat - '0' as nat) as nat
    }
}

/// The digits of a count: the text without one leading `'+'`, where more follows it.
pub open spec fn count_digits(s: Seq<char>) -> Seq<char> {
    if s.len() > 1 && s[0] == '+' {
        s.drop_first()
    } else {
        s
    }
}

/// The count that `s` writes in decimal, if it is one that fits in a `u64`.
pub open spec fn parse_count(s: Seq<char>) -> Option<u64> {
    let d = count_digits(s);
    if d.len() > 0 && (forall|i: int| 0 <= i < d.len() ==> is_digit(d[i])) && decimal_value(d)
        <= u64::MAX {
        Some(decimal_value(d) as u64)
    } else {
        None
    }
}

/// The characters of `s`, in order.
pub fn chars_of(s: &str) -> (r: Vec<char>)
    ensures
        r@ == s@,
{
    let mut r: Vec<char> = Vec::new();
    let mut it = s.chars();
    loop
        invariant
            r@ + it.remaining() == s@,
            it.decrease() is Some,
        ensures
            r@ == s@,
        decreases it.decrease()->0,
    {
        match it.next() {
            Some(c) => {
                r.push(c);
                assert(r@ + it.remaining() =~= s@);
            },
            None => {
                assert(r@ =~= s@);
                break ;
            },
        }
    }
    r
}

/// Splits `s` into its lines.
pub fn split_lines(s: &Vec<char>) -> (r: Vec<Vec<char>>)
    ensures
        views(r@) == lines(s@),
{
    let mut done: Vec<Vec<char>> = Vec::new();
    let mut cur: Vec<char> = Vec::new();
    let mut i: usize = 0;
    while i < s.len()
        invariant
            i <= s.len(),
            views(done@).push(cur@) == lines(s@.take(i as int)),
        decreases s.len() - i,
    {
        let c = s[i];
        assert(s@.take(i + 1).drop_last() =~= s@.take(i as int));
        proof {
            lemma_lines_nonempty(s@.take(i as int));
        }
        if c == '\n' {
            let line = cur;
            done.push(line);
            cur = Vec::new();
            assert(views(done@).push(cur@) =~= lines(s@.take(i + 1)));
        } else {
            cur.push(c);
            assert(views(done@).push(cur@) =~= lines(s@.take(i + 1)));
        }
        i = i + 1;
    }
    assert(s@.take(s.len() as int) =~= s@);
    done.push(cur);
    assert(views(done@) =~= lines(s@));
    done
}

/// Whether `h` begins `l`.
pub fn starts_with(l: &Vec<char>, h: &Vec<char>) -> (r: bool)
    ensures
        r == has_prefix(l@, h@),
{
    if h.len() > l.len() {
        return false;
    }
    let mut i: usize = 0;
    while i < h.len()
        invariant
            h.len() <= l.len(),
            i <= h.len(),
            forall|j: int| 0 <= j < i ==> l@[j] == h@[j],
        decreases h.len() - i,
    {
        if l[i] != h[i] {
            assert(l@.subrange(0, h.len() as int)[i as int] != h@[i as int]);
            return false;
        }
        i = i + 1;
    }
    assert(l@.subrange(0, h.len() as int) =~= h@);
    true
}

/// The first index at or after `i` where `s` holds `c`, or the length of `s`.
pub fn find_from(s: &Vec<char>, i: usize, c: char) -> (r: usize)
    requires
        i <= s.len(),
    ensures
        r == index_of_from(s@, i as int, c),
        i <= r <= s.len(),
{
    let mut k: usize = i;
    while k < s.len()
        invariant
            i <= k <= s.len(),
            index_of_from(s@, i as int, c) == index_of_from(s@, k as int, c),
        decreases s.len() - k,
    {
        if s[k] == c {
            return k;
        }
        k = k + 1;
    }
    k
}

/// The count that `s[from..to]` writes in decimal, if it fits in a `u64`.
pub fn parse_count_at(s: &Vec<char>, from: usize, to: usize) -> (r: Option<u64>)
    requires
        from <= to <= s.len(),
    ensures
        r == parse_count(s@.subrange(from as int, to as int)),
{
    let ghost f = s@.subrange(from as int, to as int);
    let start: usize = if to - from > 1 && s[from] == '+' {
        from + 1
    } else {
        from
    };
    let ghost d = s@.subrange(start as int, to as int);
    assert(d =~= count_digits(f));
    if start == to {
        return None;
    }
    let mut v: u64 = 0;
    let mut k: usize = start;
    while k < to
        invariant
            start <= k <= to <= s.len(),
            f == s@.subrange(from as int, to as int),
            d == count_digits(f),
            d == s@.subrange(start as int, to as int),
            forall|j: int| start <= j < k ==> is_digit(s@[j]),
            v == decimal_value(s@.subrange(start as int, k as int)),
        decreases to - k,
    {
        let c = s[k];
        let ghost p = s@.subrange(start as int, k + 1);
        assert(p.drop_last() =~= s@.subrange(start as int, k as int));
        if c < '0' || c > '9' {
            assert(!is_digit(d[k - start]));
            return None;
        }
        let digit = (c as u32 - '0' as u32) as u64;
        if v > (u64::MAX - digit) / 10 {
            proof {
                assert(v * 10 + digit > u64::MAX) by (nonlinear_arith)
                    requires
                        v > (u64::MAX - digit) / 10,
                        digit <= 9,
                ;
                assert(d.take(k - start + 1) =~= p);
                lemma_decimal_prefix_grows(d, k - start + 1);
            }
            return None;
        }
        v = v * 10 + digit;
        k = k + 1;
    }
    assert(s@.subrange(start as int, to as int) =~= d);
    Some(v)
}

/// A longer prefix of digits is worth at least as much.
proof fn lemma_decimal_prefix_grows(d: Seq<char>, n: int)
    requires
        0 <= n <= d.len(),
    ensures
        decimal_value(d.take(n)) <= decimal_value(d),
    decreases d.len() - n,
{
    if n < d.len() {
        lemma_decimal_prefix_grows(d, n + 1);
        assert(d.take(n + 1).drop_last() =~= d.take(n));
        assert(decimal_value(d.take(n + 1)) == decimal_value(d.take(n)) * 10 + (d.take(n
            + 1).last() as nat - '0' as nat) as nat);
    } else {
        assert(d.take(n) =~= d);
    }
}

} // verus!
