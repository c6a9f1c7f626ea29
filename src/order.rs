use vstd::prelude::*;

verus! {

pub open spec fn is_digit(c: char) -> bool {
    48 <= (c as u32) <= 57
}

pub open spec fn all_digits(s: Seq<char>) -> bool {
    forall|i: int| 0 <= i < s.len() ==> is_digit(#[trigger] s[i])
}

/// The value of a string of decimal digits.
pub open spec fn digits_value(s: Seq<char>) -> int
    decreases s.len(),
{
    if s.len() == 0 {
        0
    } else {
        digits_value(s.drop_last()) * 10 + ((s.last() as u32) as int - 48)
    }
}

/// A leading sign, if any, and the rest of the text.
pub open spec fn sign_split(s: Seq<char>) -> (bool, Seq<char>) {
    if s.len() > 0 && s[0] == '-' {
        (true, s.drop_first())
    } else if s.len() > 0 && s[0] == '+' {
        (false, s.drop_first())
    } else {
        (false, s)
    }
}

/// The `i32` that the text writes in decimal, with an optional sign, if it writes one.
pub open spec fn parse_i32(s: Seq<char>) -> Option<int> {
    let (neg, body) = sign_split(s);
    if body.len() == 0 || !all_digits(body) {
        None
    } else {
        let v = if neg {
            -digits_value(body)
        } else {
            digits_value(body)
        };
        if i32::MIN <= v <= i32::MAX {
            Some(v)
        } else {
            None
        }
    }
}

/// The number a label stands for: its `i32` value, or 0 when it writes none.
pub open spec fn label_number(s: Seq<char>) -> int {
    match parse_i32(s) {
        Some(v) => v,
        None => 0,
    }
}

pub const VALUE_CAP: u64 = 2147483649;

pub open spec fn capped(v: int) -> int {
    if v < VALUE_CAP {
        v
    } else {
        VALUE_CAP as int
    }
}

proof fn lemma_digits_value_nonneg(s: Seq<char>)
    requires
        all_digits(s),
    ensures
        digits_value(s) >= 0,
    decreases s.len(),
{
    if s.len() > 0 {
        assert(all_digits(s.drop_last())) by {
            assert forall|i: int| 0 <= i < s.drop_last().len() implies is_digit(#[trigger] s.drop_last()[i]) by {
                assert(s.drop_last()[i] == s[i]);
            }
        }
        lemma_digits_value_nonneg(s.drop_last());
        assert(is_digit(s[s.len() - 1]));
    }
}

/// Reads the label as an `i32` written in decimal, with an optional sign.
pub fn parse_number(s: &str) -> (r: Option<i32>)
    ensures
        r matches Some(v) ==> parse_i32(s@) == Some(v as int),
        r is None ==> parse_i32(s@) is None,
{
    let n = s.unicode_len();
    if n == 0 {
        return None;
    }
    let first = s.get_char(0);
    let neg = first == '-';
    let start: usize = if first == '-' || first == '+' {
        1
    } else {
        0
    };
    let ghost body = sign_split(s@).1;
    assert(body =~= s@.subrange(start as int, n as int));
    if start == n {
        return None;
    }
    let mut acc: u64 = 0;
    let mut i: usize = start;
    assert(s@.subrange(start as int, start as int) =~= Seq::<char>::empty());
    while i < n
        invariant
            start <= i <= n,
            n == s@.len(),
            body == s@.subrange(start as int, n as int),
            body == sign_split(s@).1,
            neg == sign_split(s@).0,
            all_digits(s@.subrange(start as int, i as int)),
            acc as int == capped(digits_value(s@.subrange(start as int, i as int))),
            digits_value(s@.subrange(start as int, i as int)) >= 0,
        decreases n - i,
    {
        let c = s.get_char(i);
        if !(c >= '0' && c <= '9') {
            assert(body[i - start] == c);
            assert(!is_digit(body[i - start]));
            assert(!all_digits(body));
            return None;
        }
        let d = (c as u64) - 48;
        let ghost pre = s@.subrange(start as int, i as int);
        let ghost next = s@.subrange(start as int, i as int + 1);
        assert(next.drop_last() =~= pre);
        assert(next.last() == c);
        assert(all_digits(next)) by {
            assert forall|j: int| 0 <= j < next.len() implies is_digit(#[trigger] next[j]) by {
                if j < pre.len() {
                    assert(next[j] == pre[j]);
                }
            }
        }
        acc = if acc * 10 + d > VALUE_CAP {
            VALUE_CAP
        } else {
            acc * 10 + d
        };
        i = i + 1;
    }
    assert(s@.subrange(start as int, n as int) == body);
    if neg {
        if acc <= 2147483648 {
            let v: i64 = -(acc as i64);
            Some(v as i32)
        } else {
            None
        }
    } else {
        if acc <= 2147483647 {
            Some(acc as i32)
        } else {
            None
        }
    }
}

/// The number a label stands for: its `i32` value, or 0 when it writes none.
pub fn number_of_label(s: &str) -> (r: i32)
    ensures
        r as int == label_number(s@),
{
    match parse_number(s) {
        Some(v) => v,
        None => 0,
    }
}

/// `a` comes strictly before `b` in lexicographic order of code points.
pub open spec fn seq_lt(a: Seq<char>, b: Seq<char>) -> bool
    decreases a.len(),
{
    if b.len() == 0 {
        false
    } else if a.len() == 0 {
        true
    } else if a[0] != b[0] {
        (a[0] as u32) < (b[0] as u32)
    } else {
        seq_lt(a.drop_first(), b.drop_first())
    }
}

pub proof fn lemma_seq_lt_order(a: Seq<char>, b: Seq<char>, c: Seq<char>)
    ensures
        !(seq_lt(a, b) && seq_lt(b, a)),
        seq_lt(a, b) && seq_lt(b, c) ==> seq_lt(a, c),
    decreases a.len(),
{
    if a.len() > 0 && b.len() > 0 {
        let c1 = if c.len() > 0 {
            c.drop_first()
        } else {
            c
        };
        lemma_seq_lt_order(a.drop_first(), b.drop_first(), c1);
    }
}

/// True when `a` comes strictly before `b` in lexicographic order of code points.
pub fn lex_less(a: &str, b: &str) -> (r: bool)
    ensures
        r == seq_lt(a@, b@),
{
    let na = a.unicode_len();
    let nb = b.unicode_len();
    let mut i: usize = 0;
    assert(a@.subrange(0, na as int) =~= a@);
    assert(b@.subrange(0, nb as int) =~= b@);
    while i < na && i < nb
        invariant
            i <= na,
            i <= nb,
            na == a@.len(),
            nb == b@.len(),
            seq_lt(a@, b@) == seq_lt(a@.subrange(i as int, na as int), b@.subrange(i as int, nb as int)),
        decreases na - i,
    {
        let ca = a.get_char(i);
        let cb = b.get_char(i);
        let ghost ra = a@.subrange(i as int, na as int);
        let ghost rb = b@.subrange(i as int, nb as int);
        assert(ra[0] == ca && rb[0] == cb);
        if ca != cb {
            return (ca as u32) < (cb as u32);
        }
        assert(ra.drop_first() =~= a@.subrange(i as int + 1, na as int));
        assert(rb.drop_first() =~= b@.subrange(i as int + 1, nb as int));
        i = i + 1;
    }
    i == na && i < nb
}

/// Unicode's White_Space characters, which `char::is_whitespace` recognises.
pub open spec fn is_white(c: char) -> bool {
    let u = c as u32;
    (9 <= u <= 13) || u == 32 || u == 0x85 || u == 0xA0 || u == 0x1680 || (0x2000 <= u <= 0x200A) || u == 0x2028
        || u == 0x2029 || u == 0x202F || u == 0x205F || u == 0x3000
}

pub fn is_white_char(c: char) -> (r: bool)
    ensures
        r == is_white(c),
{
    let u = c as u32;
    (9 <= u && u <= 13) || u == 32 || u == 0x85 || u == 0xA0 || u == 0x1680 || (0x2000 <= u && u <= 0x200A) || u
        == 0x2028 || u == 0x2029 || u == 0x202F || u == 0x205F || u == 0x3000
}

/// The text without its whitespace characters.
pub open spec fn no_space(s: Seq<char>) -> Seq<char>
    decreases s.len(),
{
    if s.len() == 0 {
        s
    } else if is_white(s.last()) {
        no_space(s.drop_last())
    } else {
        no_space(s.drop_last()).push(s.last())
    }
}

proof fn lemma_no_space_plain(s: Seq<char>, start: int, end: int)
    requires
        0 <= start <= end <= s.len(),
        forall|j: int| start <= j < end ==> !is_white(#[trigger] s[j]),
    ensures
        no_space(s.subrange(0, end)) == no_space(s.subrange(0, start)) + s.subrange(start, end),
    decreases end - start,
{
    if end > start {
        lemma_no_space_plain(s, start, end - 1);
        let p = s.subrange(0, end);
        assert(p.drop_last() =~= s.subrange(0, end - 1));
        assert(p.last() == s[end - 1]);
        assert(s.subrange(start, end) =~= s.subrange(start, end - 1).push(s[end - 1]));
    } else {
        assert(s.subrange(start, end) =~= Seq::<char>::empty());
    }
}

/// The text without its whitespace characters.
pub fn strip_whitespace(s: &str) -> (r: String)
    ensures
        r@ == no_space(s@),
{
    let n = s.unicode_len();
    let mut out = String::new();
    let mut start: usize = 0;
    let mut i: usize = 0;
    assert(s@.subrange(0, 0) =~= Seq::<char>::empty());
    while i < n
        invariant
            start <= i <= n,
            n == s@.len(),
            out@ == no_space(s@.subrange(0, start as int)),
            forall|j: int| start <= j < i ==> !is_white(#[trigger] s@[j]),
        decreases n - i,
    {
        if is_white_char(s.get_char(i)) {
            proof {
                lemma_no_space_plain(s@, start as int, i as int);
                let p = s@.subrange(0, i as int + 1);
                assert(p.drop_last() =~= s@.subrange(0, i as int));
            }
            let plain = s.substring_char(start, i);
            out.append(plain);
            start = i + 1;
        }
        i = i + 1;
    }
    proof {
        lemma_no_space_plain(s@, start as int, n as int);
        assert(s@.subrange(0, n as int) =~= s@);
    }
    let plain = s.substring_char(start, n);
    out.append(plain);
    out
}

/// A strict order on values, used to sort them.
pub trait Ranked: Sized {
    spec fn before(&self, other: &Self) -> bool;

    fn is_before(&self, other: &Self) -> (r: bool)
        ensures
            r == self.before(other),
    ;

    proof fn lemma_order(a: &Self, b: &Self, c: &Self)
        ensures
            !(a.before(b) && b.before(a)),
            a.before(b) && b.before(c) ==> a.before(c),
    ;
}

/// No item comes strictly before an item placed ahead of it.
pub open spec fn ranked_sorted<T: Ranked>(s: Seq<T>) -> bool {
    forall|i: int, j: int| #![trigger s[i], s[j]] 0 <= i < j < s.len() ==> !s[j].before(&s[i])
}

/// The items, reordered so that none comes strictly before one placed ahead of it.
pub fn sort_ranked<T: Ranked>(items: Vec<T>) -> (r: Vec<T>)
    ensures
        r@.to_multiset() == items@.to_multiset(),
        r@.len() == items@.len(),
        ranked_sorted(r@),
{
    broadcast use vstd::seq_lib::group_to_multiset_ensures;

    let ghost orig = items@;
    let mut rest = items;
    let mut out: Vec<T> = Vec::new();
    while rest.len() > 0
        invariant
            out@.to_multiset().add(rest@.to_multiset()) == orig.to_multiset(),
            out@.len() + rest@.len() == orig.len(),
            ranked_sorted(out@),
        decreases rest@.len(),
    {
        let ghost before_rest = rest@;
        let x = rest.pop().unwrap();
        assert(before_rest =~= rest@.push(x));
        let mut p: usize = 0;
        while p < out.len() && !x.is_before(&out[p])
            invariant
                p <= out@.len(),
                forall|q: int| 0 <= q < p ==> !x.before(&#[trigger] out@[q]),
            decreases out@.len() - p,
        {
            p = p + 1;
        }
        let ghost prev = out@;
        out.insert(p, x);
        proof {
            assert(out@ == prev.insert(p as int, x));
            vstd::seq_lib::to_multiset_insert(prev, p as int, x);
            rest@.to_multiset_ensures();
            assert(out@.to_multiset().add(rest@.to_multiset()) =~= prev.to_multiset().add(before_rest.to_multiset()));
            assert forall|i: int, j: int| #![trigger out@[i], out@[j]] 0 <= i < j < out@.len() implies !out@[j].before(&out@[i]) by {
                if j < p {
                    assert(out@[i] == prev[i] && out@[j] == prev[j]);
                } else if j == p {
                    assert(out@[i] == prev[i]);
                } else if i == p {
                    assert(out@[j] == prev[j - 1]);
                    if p < prev.len() {
                        assert(x.before(&prev[p as int]));
                        T::lemma_order(&prev[j - 1], &x, &prev[p as int]);
                        if j - 1 > p {
                            assert(!prev[j - 1].before(&prev[p as int]));
                        }
                        T::lemma_order(&x, &prev[p as int], &x);
                    }
                } else if i < p {
                    assert(out@[i] == prev[i] && out@[j] == prev[j - 1]);
                } else {
                    assert(out@[i] == prev[i - 1] && out@[j] == prev[j - 1]);
                }
            }
        }
    }
    assert(rest@ =~= Seq::<T>::empty());
    out
}

/// Reordering a sequence reorders its image under any function the same way.
pub proof fn lemma_permutation_map<A, B>(s1: Seq<A>, s2: Seq<A>, f: spec_fn(A) -> B)
    requires
        s1.to_multiset() == s2.to_multiset(),
    ensures
        s1.map_values(f).to_multiset() == s2.map_values(f).to_multiset(),
    decreases s1.len(),
{
    broadcast use vstd::seq_lib::group_to_multiset_ensures;
    broadcast use vstd::multiset::group_multiset_axioms;

    if s1.len() == 0 {
        assert(s2.to_multiset().len() == 0);
        assert(s1.map_values(f) =~= s2.map_values(f));
    } else {
        let x = s1.last();
        let p1 = s1.drop_last();
        assert(s1 =~= p1.push(x));
        assert(s1.to_multiset().count(x) > 0);
        assert(s2.contains(x));
        let i = choose|i: int| 0 <= i < s2.len() && s2[i] == x;
        let p2 = s2.remove(i);
        assert(p1.to_multiset() =~= p2.to_multiset());
        lemma_permutation_map(p1, p2, f);
        assert(s1.map_values(f) =~= p1.map_values(f).push(f(x)));
        assert(s2.map_values(f) =~= p2.map_values(f).insert(i, f(x)));
    }
}

} // verus!
