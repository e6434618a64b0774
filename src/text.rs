use vstd::prelude::*;

verus! {

broadcast use {vstd::std_specs::vec::group_vec_axioms, vstd::seq::group_seq_axioms};

/// The decimal digit character for `d < 10`.
pub open spec fn digit_char(d: nat) -> char {
    if d == 0 { '0' }
    else if d == 1 { '1' }
    else if d == 2 { '2' }
    else if d == 3 { '3' }
    else if d == 4 { '4' }
    else if d == 5 { '5' }
    else if d == 6 { '6' }
    else if d == 7 { '7' }
    else if d == 8 { '8' }
    else { '9' }
}

/// The decimal representation of `n`, without sign or leading zeros.
pub open spec fn decimal_of(n: nat) -> Seq<char>
    decreases n,
{
    if n < 10 {
        seq![digit_char(n)]
    } else {
        decimal_of(n / 10) + seq![digit_char(n % 10)]
    }
}

pub open spec fn is_ascii_digit(c: char) -> bool {
    '0' <= c && c <= '9'
}

/// The decimal digit `d` as text.
fn digit_text(d: u32) -> (r: &'static str)
    requires
        d < 10,
    ensures
        r@ == seq![digit_char(d as nat)],
{
    if d == 0 {
        proof { reveal_strlit("0"); }
        assert("0"@ =~= seq![digit_char(0nat)]);
        "0"
    } else if d == 1 {
        proof { reveal_strlit("1"); }
        assert("1"@ =~= seq![digit_char(1nat)]);
        "1"
    } else if d == 2 {
        proof { reveal_strlit("2"); }
        assert("2"@ =~= seq![digit_char(2nat)]);
        "2"
    } else if d == 3 {
        proof { reveal_strlit("3"); }
        assert("3"@ =~= seq![digit_char(3nat)]);
        "3"
    } else if d == 4 {
        proof { reveal_strlit("4"); }
        assert("4"@ =~= seq![digit_char(4nat)]);
        "4"
    } else if d == 5 {
        proof { reveal_strlit("5"); }
        assert("5"@ =~= seq![digit_char(5nat)]);
        "5"
    } else if d == 6 {
        proof { reveal_strlit("6"); }
        assert("6"@ =~= seq![digit_char(6nat)]);
        "6"
    } else if d == 7 {
        proof { reveal_strlit("7"); }
        assert("7"@ =~= seq![digit_char(7nat)]);
        "7"
    } else if d == 8 {
        proof { reveal_strlit("8"); }
        assert("8"@ =~= seq![digit_char(8nat)]);
        "8"
    } else {
        proof { reveal_strlit("9"); }
        assert("9"@ =~= seq![digit_char(9nat)]);
        "9"
    }
}

/// The decimal representation of `n`.
pub fn u32_decimal(n: u32) -> (r: String)
    ensures
        r@ == decimal_of(n as nat),
    decreases n,
{
    if n < 10 {
        copy_str(digit_text(n))
    } else {
        let head = u32_decimal(n / 10);
        let r = head.concat(digit_text(n % 10));
        assert(r@ == decimal_of((n / 10) as nat) + seq![digit_char((n % 10) as nat)]);
        r
    }
}

/// Whether `prefix` is a prefix of `s`, compared character by character.
pub fn has_prefix(s: &str, prefix: &str) -> (r: bool)
    ensures
        r == prefix@.is_prefix_of(s@),
{
    let n = s.unicode_len();
    let m = prefix.unicode_len();
    if m > n {
        return false;
    }
    let mut i: usize = 0;
    while i < m
        invariant
            m <= n,
            n == s@.len(),
            m == prefix@.len(),
            0 <= i <= m,
            forall|j: int| 0 <= j < i ==> prefix@[j] == s@[j],
        decreases m - i,
    {
        if s.get_char(i) != prefix.get_char(i) {
            return false;
        }
        i = i + 1;
    }
    true
}

/// Whether two string slices hold the same characters.
pub fn str_eq(a: &str, b: &str) -> (r: bool)
    ensures
        r == (a@ == b@),
{
    let n = a.unicode_len();
    let m = b.unicode_len();
    if n != m {
        return false;
    }
    let mut i: usize = 0;
    while i < n
        invariant
            n == a@.len(),
            m == b@.len(),
            n == m,
            0 <= i <= n,
            forall|j: int| 0 <= j < i ==> a@[j] == b@[j],
        decreases n - i,
    {
        if a.get_char(i) != b.get_char(i) {
            return false;
        }
        i = i + 1;
    }
    assert(a@ =~= b@);
    true
}

/// `a` followed by `b`.
pub fn cat(a: &str, b: &str) -> (r: String)
    ensures
        r@ == a@ + b@,
{
    let s = String::from_str(a);
    s.concat(b)
}

/// `a`, `b` and `c` in turn.
pub fn cat3(a: &str, b: &str, c: &str) -> (r: String)
    ensures
        r@ == a@ + b@ + c@,
{
    let s = cat(a, b);
    s.concat(c)
}

/// A copy of a string.
pub fn copy_str(s: &str) -> (r: String)
    ensures
        r@ == s@,
{
    String::from_str(s)
}

/// A copy of an optional string.
pub fn copy_opt(s: &Option<String>) -> (r: Option<String>)
    ensures
        r is Some == s is Some,
        r is Some ==> r->0@ == s->0@,
{
    match s {
        Some(x) => Some(copy_str(x.as_str())),
        None => None,
    }
}

/// A copy of a vector of strings.
pub fn copy_strings(v: &Vec<String>) -> (r: Vec<String>)
    ensures
        r@.len() == v@.len(),
        forall|i: int| 0 <= i < v@.len() ==> r@[i]@ == v@[i]@,
{
    let mut out: Vec<String> = Vec::new();
    let mut i: usize = 0;
    while i < v.len()
        invariant
            0 <= i <= v@.len(),
            out@.len() == i,
            forall|j: int| 0 <= j < i ==> out@[j]@ == v@[j]@,
        decreases v@.len() - i,
    {
        out.push(copy_str(v[i].as_str()));
        i = i + 1;
    }
    out
}

/// Whether `v` holds a string equal to `s`.
pub open spec fn contains_text(v: Seq<String>, s: Seq<char>) -> bool {
    exists|i: int| 0 <= i < v.len() && #[trigger] v[i]@ == s
}

/// Whether `v` holds a string equal to `s`.
pub fn strings_contain(v: &Vec<String>, s: &str) -> (r: bool)
    ensures
        r == contains_text(v@, s@),
{
    let mut i: usize = 0;
    while i < v.len()
        invariant
            0 <= i <= v@.len(),
            forall|j: int| 0 <= j < i ==> v@[j]@ != s@,
        decreases v@.len() - i,
    {
        if str_eq(v[i].as_str(), s) {
            return true;
        }
        i = i + 1;
    }
    false
}

/// The characters of `s` with every `c` left out, in order.
pub open spec fn without_char(s: Seq<char>, c: char) -> Seq<char>
    decreases s.len(),
{
    if s.len() == 0 {
        s
    } else if s.last() == c {
        without_char(s.drop_last(), c)
    } else {
        without_char(s.drop_last(), c).push(s.last())
    }
}

/// The characters of `s` with every `c` left out.
pub fn remove_char(s: &str, c: char) -> (r: String)
    ensures
        r@ == without_char(s@, c),
{
    let n = s.unicode_len();
    let mut out = String::new();
    let mut i: usize = 0;
    while i < n
        invariant
            n == s@.len(),
            0 <= i <= n,
            out@ == without_char(s@.take(i as int), c),
        decreases n - i,
    {
        let ch = s.get_char(i);
        assert(s@.take(i + 1).drop_last() =~= s@.take(i as int));
        if ch != c {
            let piece = s.substring_char(i, i + 1);
            assert(piece@ =~= seq![ch]);
            out.append(piece);
        }
        i = i + 1;
        assert(out@ =~= without_char(s@.take(i as int), c));
    }
    assert(s@.take(n as int) =~= s@);
    out
}

/// One step of an in-place filter: the unprocessed tails of `before` (from
/// `i`) and `orig` (from `j`) agree, and the element at `i` is kept or removed.
pub proof fn lemma_filter_step<A>(before: Seq<A>, orig: Seq<A>, i: int, j: int)
    requires
        0 <= i < before.len(),
        0 <= j < orig.len(),
        before.skip(i) == orig.skip(j),
    ensures
        orig[j] == before[i],
        before.remove(i).skip(i) == orig.skip(j + 1),
        before.remove(i).take(i) == before.take(i),
        before.skip(i + 1) == orig.skip(j + 1),
        before.take(i + 1) == before.take(i).push(orig[j]),
        orig.take(j + 1).drop_last() == orig.take(j),
{
    assert(before.skip(i).len() == before.len() - i);
    assert(orig.skip(j).len() == orig.len() - j);
    assert(before.len() - i == orig.len() - j);
    assert(before.skip(i)[0] == orig.skip(j)[0]);
    assert(before.skip(i)[0] == before[i]);
    assert(orig.skip(j)[0] == orig[j]);
    assert forall|k: int| 0 <= k < orig.len() - j - 1 implies #[trigger] before.remove(i).skip(i)[k] == orig.skip(j + 1)[k] by {
        assert(before.skip(i)[k + 1] == orig.skip(j)[k + 1]);
        assert(before.skip(i)[k + 1] == before[i + k + 1]);
        assert(orig.skip(j)[k + 1] == orig[j + k + 1]);
        assert(before.remove(i).skip(i)[k] == before.remove(i)[i + k]);
        assert(before.remove(i)[i + k] == before[i + k + 1]);
        assert(orig.skip(j + 1)[k] == orig[j + 1 + k]);
    }
    assert forall|k: int| 0 <= k < orig.len() - j - 1 implies #[trigger] before.skip(i + 1)[k] == orig.skip(j + 1)[k] by {
        assert(before.skip(i)[k + 1] == orig.skip(j)[k + 1]);
        assert(before.skip(i)[k + 1] == before[i + k + 1]);
        assert(orig.skip(j)[k + 1] == orig[j + k + 1]);
        assert(before.skip(i + 1)[k] == before[i + 1 + k]);
        assert(orig.skip(j + 1)[k] == orig[j + 1 + k]);
    }
    assert(before.remove(i).skip(i) =~= orig.skip(j + 1));
    assert(before.remove(i).take(i) =~= before.take(i));
    assert(before.skip(i + 1) =~= orig.skip(j + 1));
    assert(before.take(i + 1) =~= before.take(i).push(orig[j]));
    assert(orig.take(j + 1).drop_last() =~= orig.take(j));
}

/// Whether `p` occurs in `s` as a contiguous run of characters.
pub open spec fn occurs_in(p: Seq<char>, s: Seq<char>) -> bool {
    exists|i: int| 0 <= i && i + p.len() <= s.len() && #[trigger] s.subrange(i, i + p.len()) == p
}

/// Whether `pattern` occurs in `s`.
pub fn contains_text_of(s: &str, pattern: &str) -> (r: bool)
    ensures
        r == occurs_in(pattern@, s@),
{
    let n = s.unicode_len();
    let m = pattern.unicode_len();
    if m > n {
        assert forall|i: int| 0 <= i && i + pattern@.len() <= s@.len() implies #[trigger] s@.subrange(i, i + pattern@.len()) != pattern@ by {}
        return false;
    }
    if m == 0 {
        assert(s@.subrange(0int, 0int + pattern@.len()) =~= pattern@);
        assert(occurs_in(pattern@, s@));
        return true;
    }
    let mut i: usize = 0;
    while i <= n - m
        invariant
            n == s@.len(),
            m == pattern@.len(),
            0 < m <= n,
            0 <= i <= n - m + 1,
            forall|k: int| 0 <= k < i ==> #[trigger] s@.subrange(k, k + m) != pattern@,
        decreases n - m + 1 - i,
    {
        let piece = s.substring_char(i, i + m);
        if str_eq(piece, pattern) {
            return true;
        }
        i = i + 1;
    }
    false
}

} // verus!
