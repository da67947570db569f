use vstd::prelude::*;

verus! {

/// A decimal digit.
pub open spec fn is_digit(c: char) -> bool {
    48 <= c as u32 <= 57
}

/// The numeric value of one decimal digit.
pub open spec fn digit_val(c: char) -> nat {
    (c as u32 - 48) as nat
}

/// Every character of the sequence is a decimal digit.
pub open spec fn all_digits(s: Seq<char>) -> bool {
    forall|i: int| 0 <= i < s.len() ==> is_digit(#[trigger] s[i])
}

/// The value of a digit string read most-significant-first.
pub open spec fn decimal_value(s: Seq<char>) -> nat
    decreases s.len(),
{
    if s.len() == 0 {
        0
    } else {
        10 * decimal_value(s.drop_last()) + digit_val(s.last())
    }
}

/// The text of one dotted-quad octet: one to three digits, no leading zero,
/// and a value of at most 255.
pub open spec fn is_octet_text(s: Seq<char>) -> bool {
    &&& 1 <= s.len() <= 3
    &&& all_digits(s)
    &&& (s.len() > 1 ==> s[0] != '0')
    &&& decimal_value(s) <= 255
}

/// The three positions split the string into four octets separated by dots.
pub open spec fn is_ipv4_split(s: Seq<char>, i: int, j: int, k: int) -> bool {
    &&& 0 <= i < j < k < s.len()
    &&& s[i] == '.'
    &&& s[j] == '.'
    &&& s[k] == '.'
    &&& is_octet_text(s.subrange(0, i))
    &&& is_octet_text(s.subrange(i + 1, j))
    &&& is_octet_text(s.subrange(j + 1, k))
    &&& is_octet_text(s.subrange(k + 1, s.len() as int))
}

/// A syntactically valid IPv4 address literal: four dot-separated decimal
/// octets, each without leading zeros and at most 255.
pub open spec fn is_ipv4_literal(s: Seq<char>) -> bool {
    exists|i: int, j: int, k: int| is_ipv4_split(s, i, j, k)
}

/// A digit is never a dot.
proof fn lemma_digit_not_dot(c: char)
    requires
        is_digit(c),
    ensures
        c != '.',
{
    assert('.' as u32 == 46);
}

/// Inside a valid split, every dot of the string is one of the three
/// separators: the four octet segments consist of digits only.
proof fn lemma_split_dot_positions(s: Seq<char>, i: int, j: int, k: int)
    requires
        is_ipv4_split(s, i, j, k),
    ensures
        forall|x: int| 0 <= x < s.len() && s[x] == '.' ==> x == i || x == j || x == k,
{
    assert forall|x: int| 0 <= x < s.len() && s[x] == '.' implies x == i || x == j || x == k by {
        if x != i && x != j && x != k {
            if x < i {
                assert(s.subrange(0, i)[x] == s[x]);
                lemma_digit_not_dot(s.subrange(0, i)[x]);
            } else if x < j {
                assert(s.subrange(i + 1, j)[x - (i + 1)] == s[x]);
                lemma_digit_not_dot(s.subrange(i + 1, j)[x - (i + 1)]);
            } else if x < k {
                assert(s.subrange(j + 1, k)[x - (j + 1)] == s[x]);
                lemma_digit_not_dot(s.subrange(j + 1, k)[x - (j + 1)]);
            } else {
                assert(s.subrange(k + 1, s.len() as int)[x - (k + 1)] == s[x]);
                lemma_digit_not_dot(s.subrange(k + 1, s.len() as int)[x - (k + 1)]);
            }
        }
    }
}

/// The collected dot positions: each is a dot left of `upto`, they are
/// strictly increasing, and every dot left of `upto` is among them.
spec fn dot_positions_ok(dots: Seq<usize>, s: Seq<char>, upto: int) -> bool {
    &&& forall|t: int|
        0 <= t < dots.len() ==> (#[trigger] dots[t]) < upto && s[dots[t] as int] == '.'
    &&& forall|t1: int, t2: int| 0 <= t1 < t2 < dots.len() ==> dots[t1] < dots[t2]
    &&& forall|x: int|
        0 <= x < upto && s[x] == '.' ==> exists|t: int|
            0 <= t < dots.len() && (#[trigger] dots[t]) == x
}

/// If the string admits a valid split, the complete list of its dot
/// positions is exactly the three separators, in order.
proof fn lemma_dots_exact(dots: Seq<usize>, s: Seq<char>, i: int, j: int, k: int)
    requires
        dot_positions_ok(dots, s, s.len() as int),
        is_ipv4_split(s, i, j, k),
    ensures
        dots.len() == 3,
        dots[0] == i,
        dots[1] == j,
        dots[2] == k,
{
    lemma_split_dot_positions(s, i, j, k);
    assert(exists|t: int| 0 <= t < dots.len() && (#[trigger] dots[t]) == i);
    assert(exists|t: int| 0 <= t < dots.len() && (#[trigger] dots[t]) == j);
    assert(exists|t: int| 0 <= t < dots.len() && (#[trigger] dots[t]) == k);
    let ti = choose|t: int| 0 <= t < dots.len() && (#[trigger] dots[t]) == i;
    let tj = choose|t: int| 0 <= t < dots.len() && (#[trigger] dots[t]) == j;
    let tk = choose|t: int| 0 <= t < dots.len() && (#[trigger] dots[t]) == k;
    assert(ti != tj && ti != tk && tj != tk);
    assert(dots.len() >= 3);
    if dots.len() > 3 {
        assert(dots[0] < dots[1] < dots[2] < dots[3]);
        assert(dots[0] == i || dots[0] == j || dots[0] == k);
        assert(dots[1] == i || dots[1] == j || dots[1] == k);
        assert(dots[2] == i || dots[2] == j || dots[2] == k);
        assert(dots[3] == i || dots[3] == j || dots[3] == k);
        assert(false);
    }
    assert(dots[0] < dots[1] < dots[2]);
    assert(dots[0] == i || dots[0] == j || dots[0] == k);
    assert(dots[1] == i || dots[1] == j || dots[1] == k);
    assert(dots[2] == i || dots[2] == j || dots[2] == k);
}

/// A string admits at most one valid split: the separators of any two valid
/// splits coincide, so the four octet values of a literal are unambiguous.
pub proof fn lemma_ipv4_split_unique(s: Seq<char>, i1: int, j1: int, k1: int, i2: int, j2: int, k2: int)
    requires
        is_ipv4_split(s, i1, j1, k1),
        is_ipv4_split(s, i2, j2, k2),
    ensures
        i1 == i2,
        j1 == j2,
        k1 == k2,
{
    lemma_split_dot_positions(s, i2, j2, k2);
    lemma_split_dot_positions(s, i1, j1, k1);
}

/// Checks that `s[start..end]` is one octet's text, and yields its value.
fn check_octet(s: &str, start: usize, end: usize) -> (r: Option<u8>)
    requires
        start <= end <= s@.len(),
    ensures
        r is Some <==> is_octet_text(s@.subrange(start as int, end as int)),
        (r matches Some(v) ==> v == decimal_value(s@.subrange(start as int, end as int))),
{
    let ghost seg = s@.subrange(start as int, end as int);
    let len = end - start;
    if len < 1 || len > 3 {
        return None;
    }
    if len > 1 {
        let first = s.get_char(start);
        if first == '0' {
            assert(seg[0] == '0');
            return None;
        }
    }
    let mut val: u32 = 0;
    let mut i: usize = start;
    while i < end
        invariant
            start <= i <= end <= s@.len(),
            end - start <= 3,
            seg == s@.subrange(start as int, end as int),
            all_digits(s@.subrange(start as int, i as int)),
            val == decimal_value(s@.subrange(start as int, i as int)),
            i - start == 0 ==> val == 0,
            i - start == 1 ==> val <= 9,
            i - start == 2 ==> val <= 99,
            i - start == 3 ==> val <= 999,
        decreases end - i,
    {
        let c = s.get_char(i);
        let d = c as u32;
        if d < 48 || d > 57 {
            proof {
                assert(seg[i - start] == s@[i as int]);
            }
            return None;
        }
        proof {
            let prefix = s@.subrange(start as int, i as int);
            let longer = s@.subrange(start as int, i + 1);
            assert(longer.drop_last() =~= prefix);
            assert(longer.last() == s@[i as int]);
        }
        val = val * 10 + (d - 48);
        i = i + 1;
    }
    proof {
        assert(s@.subrange(start as int, i as int) =~= seg);
    }
    if val > 255 {
        return None;
    }
    Some(val as u8)
}

/// Decides whether `s` is a valid IPv4 address literal, and if so returns its
/// four octet values. Returns `None` on exactly the strings that no valid
/// split of the grammar matches.
pub fn parse_ipv4(s: &str) -> (r: Option<(u8, u8, u8, u8)>)
    ensures
        r is Some <==> is_ipv4_literal(s@),
        (r matches Some(q) ==> forall|i: int, j: int, k: int|
            #[trigger] is_ipv4_split(s@, i, j, k) ==> {
                &&& q.0 == decimal_value(s@.subrange(0, i))
                &&& q.1 == decimal_value(s@.subrange(i + 1, j))
                &&& q.2 == decimal_value(s@.subrange(j + 1, k))
                &&& q.3 == decimal_value(s@.subrange(k + 1, s@.len() as int))
            }),
{
    let n = s.unicode_len();
    let mut dots: Vec<usize> = Vec::new();
    let mut i: usize = 0;
    while i < n
        invariant
            n == s@.len(),
            0 <= i <= n,
            dot_positions_ok(dots@, s@, i as int),
        decreases n - i,
    {
        let c = s.get_char(i);
        if c == '.' {
            let ghost dots_before = dots@;
            dots.push(i);
            proof {
                assert forall|x: int| 0 <= x < i + 1 && s@[x] == '.' implies exists|t: int|
                    0 <= t < dots@.len() && (#[trigger] dots@[t]) == x by {
                    if x < i {
                        let t = choose|t: int|
                            0 <= t < dots_before.len() && (#[trigger] dots_before[t]) == x;
                        assert(dots@[t] == x);
                    } else {
                        assert(dots@[dots@.len() - 1] == i);
                    }
                }
            }
        }
        i = i + 1;
    }
    if dots.len() != 3 {
        proof {
            if is_ipv4_literal(s@) {
                let (x, y, z): (int, int, int) = choose|x: int, y: int, z: int|
                    is_ipv4_split(s@, x, y, z);
                lemma_dots_exact(dots@, s@, x, y, z);
            }
        }
        return None;
    }
    let d0 = dots[0];
    let d1 = dots[1];
    let d2 = dots[2];
    assert(d0 < d1 < d2 < n);
    let o0 = check_octet(s, 0, d0);
    let o1 = check_octet(s, d0 + 1, d1);
    let o2 = check_octet(s, d1 + 1, d2);
    let o3 = check_octet(s, d2 + 1, n);
    proof {
        if is_ipv4_literal(s@) {
            let (x, y, z): (int, int, int) = choose|x: int, y: int, z: int|
                is_ipv4_split(s@, x, y, z);
            lemma_dots_exact(dots@, s@, x, y, z);
        }
    }
    match (o0, o1, o2, o3) {
        (Some(a), Some(b), Some(c), Some(d)) => {
            proof {
                assert(is_ipv4_split(s@, d0 as int, d1 as int, d2 as int));
                assert forall|x: int, y: int, z: int|
                    #[trigger] is_ipv4_split(s@, x, y, z) implies x == d0 && y == d1 && z
                    == d2 by {
                    lemma_ipv4_split_unique(s@, x, y, z, d0 as int, d1 as int, d2 as int);
                }
            }
            Some((a, b, c, d))
        },
        _ => None,
    }
}

} // verus!
