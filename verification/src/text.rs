//! Character-level text utilities: collecting the characters of a string,
//! splitting on a separator, and parsing unsigned decimal numbers, each with
//! an exact specification.

use vstd::prelude::*;

verus! {

/// True iff `c` is an ASCII decimal digit.
pub open spec fn is_digit(c: char) -> bool {
    '0' as u32 <= c as u32 <= '9' as u32
}

/// Numeric value of a digit character.
pub open spec fn digit_val(c: char) -> int {
    c as u32 - '0' as u32
}

/// True iff `s` is non-empty and all of its characters are decimal digits.
pub open spec fn all_digits(s: Seq<char>) -> bool {
    s.len() > 0 && forall|i: int| 0 <= i < s.len() ==> is_digit(#[trigger] s[i])
}

/// Value of a sequence of decimal digits, most significant first.
pub open spec fn digits_val(s: Seq<char>) -> int
    decreases s.len(),
{
    if s.len() == 0 {
        0
    } else {
        digits_val(s.drop_last()) * 10 + digit_val(s.last())
    }
}

/// The digits of an unsigned decimal literal: a single leading `+` is allowed
/// and skipped, as `u16::from_str` does.
pub open spec fn unsigned_digits(s: Seq<char>) -> Seq<char> {
    if s.len() > 0 && s[0] == '+' {
        s.drop_first()
    } else {
        s
    }
}

/// What parsing `s` as a `u16` yields: `Some` exactly when `s` is an optional
/// `+` followed by one or more digits whose value fits in sixteen bits.
pub open spec fn spec_parse_u16(s: Seq<char>) -> Option<u16> {
    let d = unsigned_digits(s);
    if all_digits(d) && digits_val(d) <= u16::MAX {
        Some(digits_val(d) as u16)
    } else {
        None
    }
}

/// The pieces of `s` between occurrences of `c`, as `str::split` yields them:
/// always at least one piece, and empty pieces are kept.
pub open spec fn spec_split(s: Seq<char>, c: char) -> Seq<Seq<char>>
    decreases s.len(),
    via spec_split_decreases
{
    match s.index_of_first(c) {
        None => seq![s],
        Some(i) => seq![s.subrange(0, i)] + spec_split(s.subrange(i + 1, s.len() as int), c),
    }
}

#[via_fn]
proof fn spec_split_decreases(s: Seq<char>, c: char) {
    s.index_of_first_ensures(c);
}

/// The characters of `s`, as a vector.
pub fn chars_of(s: &str) -> (v: Vec<char>)
    ensures
        v@ == s@,
{
    let n = s.unicode_len();
    let mut v: Vec<char> = Vec::new();
    let mut i: usize = 0;
    while i < n
        invariant
            i <= n,
            n == s@.len(),
            v@ == s@.subrange(0, i as int),
        decreases n - i,
    {
        v.push(s.get_char(i));
        i += 1;
        proof {
            assert(v@ =~= s@.subrange(0, i as int));
        }
    }
    proof {
        assert(v@ =~= s@);
    }
    v
}

/// Whether `c` occurs in `v`.
pub fn contains_char(v: &Vec<char>, c: char) -> (r: bool)
    ensures
        r == v@.contains(c),
{
    let mut i: usize = 0;
    while i < v.len()
        invariant
            i <= v@.len(),
            forall|j: int| 0 <= j < i ==> v@[j] != c,
        decreases v@.len() - i,
    {
        if v[i] == c {
            return true;
        }
        i += 1;
    }
    false
}

/// First index of `c` in `v` at or after `from`.
fn find_from(v: &Vec<char>, from: usize, c: char) -> (r: Option<usize>)
    requires
        from <= v@.len(),
    ensures
        match r {
            Some(i) => from <= i < v@.len() && v@[i as int] == c && forall|j: int|
                from <= j < i ==> v@[j] != c,
            None => forall|j: int| from <= j < v@.len() ==> v@[j] != c,
        },
{
    let mut i: usize = from;
    while i < v.len()
        invariant
            from <= i <= v@.len(),
            forall|j: int| from <= j < i ==> v@[j] != c,
        decreases v@.len() - i,
    {
        if v[i] == c {
            return Some(i);
        }
        i += 1;
    }
    None
}

/// A copy of `v[from..to]`.
pub fn subrange_of(v: &Vec<char>, from: usize, to: usize) -> (r: Vec<char>)
    requires
        from <= to <= v@.len(),
    ensures
        r@ == v@.subrange(from as int, to as int),
{
    let mut r: Vec<char> = Vec::new();
    let mut i: usize = from;
    while i < to
        invariant
            from <= i <= to <= v@.len(),
            r@ == v@.subrange(from as int, i as int),
        decreases to - i,
    {
        r.push(v[i]);
        i += 1;
        proof {
            assert(r@ =~= v@.subrange(from as int, i as int));
        }
    }
    r
}

/// Splits `v` on `c`, exactly as `str::split` does.
pub fn split_on(v: Vec<char>, c: char) -> (r: Vec<Vec<char>>)
    ensures
        r@.map_values(|p: Vec<char>| p@) == spec_split(v@, c),
    decreases v@.len(),
{
    let ghost vs = v@;
    match find_from(&v, 0, c) {
        None => {
            proof {
                assert(!vs.contains(c)) by {
                    assert(forall|j: int| 0 <= j < vs.len() ==> vs[j] != c);
                }
                vs.index_of_first_ensures(c);
            }
            let mut r: Vec<Vec<char>> = Vec::new();
            r.push(v);
            proof {
                assert(r@.map_values(|p: Vec<char>| p@) =~= spec_split(vs, c));
            }
            r
        },
        Some(i) => {
            proof {
                assert(vs.contains(c)) by {
                    assert(vs[i as int] == c);
                }
                vs.index_of_first_ensures(c);
                assert(vs.index_of_first(c) == Some(i as int));
            }
            assert(i < v.len());
            let head = subrange_of(&v, 0, i);
            let tail = subrange_of(&v, i + 1, v.len());
            let ghost tails = tail@;
            let mut rest = split_on(tail, c);
            let ghost rests = rest@;
            let mut r: Vec<Vec<char>> = Vec::new();
            r.push(head);
            while rest.len() > 0
                invariant
                    i < vs.len(),
                    1 <= r@.len(),
                    r@.len() + rest@.len() == rests.len() + 1,
                    r@[0]@ == vs.subrange(0, i as int),
                    forall|j: int| 1 <= j < r@.len() ==> r@[j] == rests[j - 1],
                    forall|j: int| 0 <= j < rest@.len() ==> rest@[j] == rests[
                        rests.len() - rest@.len() + j
                    ],
                decreases rest@.len(),
            {
                let piece = rest.remove(0);
                r.push(piece);
            }
            proof {
                assert(r@.map_values(|p: Vec<char>| p@) =~= seq![vs.subrange(0, i as int)]
                    + spec_split(tails, c)) by {
                    assert(rests.map_values(|p: Vec<char>| p@) == spec_split(tails, c));
                    assert(forall|j: int| 1 <= j < r@.len() ==> r@[j] == rests[j - 1]);
                }
                assert(tails =~= vs.subrange(i + 1, vs.len() as int));
                assert(r@.map_values(|p: Vec<char>| p@) =~= spec_split(vs, c));
            }
            r
        },
    }
}

/// Powers of ten.
pub open spec fn pow10(n: nat) -> int
    decreases n,
{
    if n == 0 {
        1
    } else {
        10 * pow10((n - 1) as nat)
    }
}

/// The value of `n` digits is below the `n`-th power of ten, and never negative.
pub proof fn lemma_digits_val_bound(s: Seq<char>)
    requires
        forall|i: int| 0 <= i < s.len() ==> is_digit(#[trigger] s[i]),
    ensures
        0 <= digits_val(s) < pow10(s.len()),
    decreases s.len(),
{
    if s.len() > 0 {
        lemma_digits_val_bound(s.drop_last());
    }
}

/// If a digit sequence already exceeds `u16::MAX`, appending digits keeps it so.
proof fn lemma_digits_val_grows(s: Seq<char>)
    requires
        s.len() > 0,
        forall|i: int| 0 <= i < s.len() ==> is_digit(#[trigger] s[i]),
    ensures
        digits_val(s) >= digits_val(s.drop_last()),
        digits_val(s) >= 0,
    decreases s.len(),
{
    if s.len() > 1 {
        lemma_digits_val_grows(s.drop_last());
    }
}

/// Parses `v` as `u16::from_str` would: an optional `+`, then digits.
pub fn parse_u16_chars(v: &Vec<char>) -> (r: Option<u16>)
    ensures
        r == spec_parse_u16(v@),
{
    let start: usize = if v.len() > 0 && v[0] == '+' {
        1
    } else {
        0
    };
    let ghost d = unsigned_digits(v@);
    proof {
        assert(d =~= v@.subrange(start as int, v@.len() as int));
    }
    if v.len() == start {
        proof {
            assert(d.len() == 0);
            assert(!all_digits(d));
        }
        return None;
    }
    let mut val: u32 = 0;
    let mut over: bool = false;
    let mut i: usize = start;
    while i < v.len()
        invariant
            start <= i <= v@.len(),
            start < v@.len(),
            d == unsigned_digits(v@),
            d == v@.subrange(start as int, v@.len() as int),
            forall|j: int| start <= j < i ==> is_digit(#[trigger] v@[j]),
            !over ==> val == digits_val(v@.subrange(start as int, i as int)) && val <= u16::MAX,
            over ==> digits_val(v@.subrange(start as int, i as int)) > u16::MAX,
        decreases v@.len() - i,
    {
        let c = v[i];
        let cu = c as u32;
        if cu < '0' as u32 || cu > '9' as u32 {
            proof {
                assert(d[i - start] == v@[i as int]);
                assert(!is_digit(d[i - start]));
                assert(!all_digits(d));
            }
            return None;
        }
        let ghost pre = v@.subrange(start as int, i as int);
        let ghost cur = v@.subrange(start as int, i + 1 as int);
        proof {
            assert(cur.drop_last() =~= pre);
            assert(cur.last() == v@[i as int]);
            if digits_val(pre) > u16::MAX {
                lemma_digits_val_grows(cur);
                assert(digits_val(cur) >= digits_val(pre));
            }
        }
        if over {
            // The value already exceeds the range; only the digit check remains.
        } else {
            let next = val * 10 + (cu - '0' as u32);
            if next > u16::MAX as u32 {
                over = true;
                proof {
                    assert(digits_val(cur) == digits_val(pre) * 10 + digit_val(v@[i as int]));
                }
            } else {
                val = next;
            }
        }
        i += 1;
    }
    proof {
        assert(v@.subrange(start as int, i as int) =~= d);
    }
    if over {
        None
    } else {
        Some(val as u16)
    }
}

} // verus!
