//! Small text helpers shared by the date formatting, the extractor and the
//! cache codec: digit characters, decimal rendering and parsing, and
//! conversions between strings and character vectors.

use vstd::prelude::*;

verus! {

use vstd::string::StrSliceExecFns;

/// Pushing one element extends a vector's deep view by that element's.
pub proof fn lemma_deep_view_push<T: DeepView>(pre: Vec<T>, post: Vec<T>, x: T)
    requires
        post@ == pre@.push(x),
    ensures
        post.deep_view() == pre.deep_view().push(x.deep_view()),
{
    assert forall|j: int| 0 <= j < post@.len() implies post.deep_view()[j] == pre.deep_view().push(
        x.deep_view(),
    )[j] by {
        assert(post.deep_view()[j] == post@[j].deep_view());
        assert(pre.deep_view().len() == pre@.len());
        if j < pre@.len() {
            assert(post@[j] == pre@[j]);
            assert(pre.deep_view()[j] == pre@[j].deep_view());
        } else {
            assert(post@[j] == x);
        }
    }
    assert(post.deep_view() =~= pre.deep_view().push(x.deep_view()));
}

/// Concatenation at the level of values is concatenation of deep views.
pub proof fn lemma_deep_view_concat<T: DeepView>(pre: Vec<T>, other: Vec<T>, post: Vec<T>)
    requires
        post@ == pre@ + other@,
    ensures
        post.deep_view() == pre.deep_view() + other.deep_view(),
{
    assert forall|j: int| 0 <= j < post@.len() implies post.deep_view()[j] == (pre.deep_view()
        + other.deep_view())[j] by {
        assert(post.deep_view()[j] == post@[j].deep_view());
        assert(pre.deep_view().len() == pre@.len());
        assert(other.deep_view().len() == other@.len());
        if j < pre@.len() {
            assert(post@[j] == pre@[j]);
            assert(pre.deep_view()[j] == pre@[j].deep_view());
        } else {
            assert(post@[j] == other@[j - pre@.len()]);
            assert(other.deep_view()[j - pre@.len()] == other@[j - pre@.len()].deep_view());
        }
    }
    assert(post.deep_view() =~= pre.deep_view() + other.deep_view());
}

/// An empty vector's deep view is the empty sequence.
pub proof fn lemma_deep_view_empty<T: DeepView>(v: Vec<T>)
    requires
        v@.len() == 0,
    ensures
        v.deep_view() == Seq::<T::V>::empty(),
{
    assert(v.deep_view() =~= Seq::<T::V>::empty());
}

/// Relies on std's String::push: appends exactly the one character.
#[verifier::external_body]
pub(crate) fn push_char(s: &mut String, c: char)
    ensures
        final(s)@ == old(s)@.push(c),
{
    s.push(c);
}

pub open spec fn spec_digit_char(d: int) -> char {
    if d == 0 {
        '0'
    } else if d == 1 {
        '1'
    } else if d == 2 {
        '2'
    } else if d == 3 {
        '3'
    } else if d == 4 {
        '4'
    } else if d == 5 {
        '5'
    } else if d == 6 {
        '6'
    } else if d == 7 {
        '7'
    } else if d == 8 {
        '8'
    } else {
        '9'
    }
}

pub open spec fn spec_is_digit(c: char) -> bool {
    '0' <= c <= '9'
}

/// Numeric value of a digit character.
pub open spec fn spec_digit_val(c: char) -> int {
    c as int - '0' as int
}

pub fn digit_char(d: u32) -> (c: char)
    requires
        d < 10,
    ensures
        c == spec_digit_char(d as int),
        spec_is_digit(c),
        spec_digit_val(c) == d,
{
    match d {
        0 => '0',
        1 => '1',
        2 => '2',
        3 => '3',
        4 => '4',
        5 => '5',
        6 => '6',
        7 => '7',
        8 => '8',
        _ => '9',
    }
}

pub fn is_digit(c: char) -> (r: bool)
    ensures
        r == spec_is_digit(c),
{
    '0' <= c && c <= '9'
}

/// The decimal digits of `n`, most significant first, no leading zeros.
pub open spec fn spec_decimal(n: nat) -> Seq<char>
    decreases n,
{
    if n < 10 {
        seq![spec_digit_char(n as int)]
    } else {
        spec_decimal(n / 10) + seq![spec_digit_char((n % 10) as int)]
    }
}

/// Appends the decimal rendering of `n`.
pub fn push_decimal(s: &mut String, n: usize)
    ensures
        final(s)@ == old(s)@ + spec_decimal(n as nat),
    decreases n,
{
    if n < 10 {
        push_char(s, digit_char(n as u32));
    } else {
        push_decimal(s, n / 10);
        push_char(s, digit_char((n % 10) as u32));
        proof {
            assert(final(s)@ =~= old(s)@ + spec_decimal(n as nat));
        }
    }
}

/// Two decimal digits, zero padded.
pub open spec fn spec_two_digits(n: int) -> Seq<char> {
    seq![spec_digit_char(n / 10), spec_digit_char(n % 10)]
}

pub fn push_two_digits(s: &mut String, n: u32)
    requires
        n < 100,
    ensures
        final(s)@ == old(s)@ + spec_two_digits(n as int),
{
    push_char(s, digit_char(n / 10));
    push_char(s, digit_char(n % 10));
    proof {
        assert(final(s)@ =~= old(s)@ + spec_two_digits(n as int));
    }
}

/// Four decimal digits, zero padded.
pub open spec fn spec_four_digits(n: int) -> Seq<char> {
    spec_two_digits(n / 100) + spec_two_digits(n % 100)
}

pub fn push_four_digits(s: &mut String, n: u32)
    requires
        n < 10000,
    ensures
        final(s)@ == old(s)@ + spec_four_digits(n as int),
{
    push_two_digits(s, n / 100);
    push_two_digits(s, n % 100);
    proof {
        assert(final(s)@ =~= old(s)@ + spec_four_digits(n as int));
    }
}

/// Different digits render as different characters.
pub proof fn lemma_digit_char_injective(a: int, b: int)
    requires
        0 <= a < 10,
        0 <= b < 10,
        spec_digit_char(a) == spec_digit_char(b),
    ensures
        a == b,
{
}

/// The two-digit rendering is injective below one hundred.
pub proof fn lemma_two_digits_injective(a: int, b: int)
    requires
        0 <= a < 100,
        0 <= b < 100,
        spec_two_digits(a) == spec_two_digits(b),
    ensures
        a == b,
{
    lemma_digit_char_injective(a / 10, b / 10);
    lemma_digit_char_injective(a % 10, b % 10);
    vstd::arithmetic::div_mod::lemma_fundamental_div_mod(a, 10);
    vstd::arithmetic::div_mod::lemma_fundamental_div_mod(b, 10);
}

/// The four-digit rendering is injective below ten thousand.
pub proof fn lemma_four_digits_injective(a: int, b: int)
    requires
        0 <= a < 10000,
        0 <= b < 10000,
        spec_four_digits(a) == spec_four_digits(b),
    ensures
        a == b,
{
    assert(spec_two_digits(a / 100).len() == 2 && spec_two_digits(b / 100).len() == 2
        && spec_two_digits(a % 100).len() == 2 && spec_two_digits(b % 100).len() == 2);
    assert(spec_two_digits(a / 100) =~= spec_two_digits(b / 100)) by {
        assert(spec_four_digits(a)[0] == spec_two_digits(a / 100)[0]);
        assert(spec_four_digits(a)[1] == spec_two_digits(a / 100)[1]);
        assert(spec_four_digits(b)[0] == spec_two_digits(b / 100)[0]);
        assert(spec_four_digits(b)[1] == spec_two_digits(b / 100)[1]);
    }
    assert(spec_two_digits(a % 100) =~= spec_two_digits(b % 100)) by {
        assert(spec_four_digits(a)[2] == spec_two_digits(a % 100)[0]);
        assert(spec_four_digits(a)[3] == spec_two_digits(a % 100)[1]);
        assert(spec_four_digits(b)[2] == spec_two_digits(b % 100)[0]);
        assert(spec_four_digits(b)[3] == spec_two_digits(b % 100)[1]);
    }
    lemma_two_digits_injective(a / 100, b / 100);
    lemma_two_digits_injective(a % 100, b % 100);
    vstd::arithmetic::div_mod::lemma_fundamental_div_mod(a, 100);
    vstd::arithmetic::div_mod::lemma_fundamental_div_mod(b, 100);
}

/// The characters of `s`, in order.
pub fn chars_of(s: &str) -> (r: Vec<char>)
    ensures
        r@ == s@,
{
    let n = s.unicode_len();
    let mut r: Vec<char> = Vec::new();
    let mut i: usize = 0;
    while i < n
        invariant
            i <= n,
            n == s@.len(),
            r@ == s@.subrange(0, i as int),
        decreases n - i,
    {
        r.push(s.get_char(i));
        proof {
            assert(r@ =~= s@.subrange(0, i + 1));
        }
        i = i + 1;
    }
    proof {
        assert(r@ =~= s@);
    }
    r
}

/// A string from its characters.
pub fn string_of(v: &Vec<char>) -> (r: String)
    ensures
        r@ == v@,
{
    let mut r = String::new();
    let mut i: usize = 0;
    while i < v.len()
        invariant
            i <= v@.len(),
            r@ == v@.subrange(0, i as int),
        decreases v@.len() - i,
    {
        push_char(&mut r, v[i]);
        proof {
            assert(r@ =~= v@.subrange(0, i + 1));
        }
        i = i + 1;
    }
    proof {
        assert(r@ =~= v@);
    }
    r
}

/// Whether two string slices hold the same characters.
pub fn str_eq(a: &str, b: &str) -> (r: bool)
    ensures
        r == (a@ == b@),
{
    let la = a.unicode_len();
    let lb = b.unicode_len();
    if la != lb {
        return false;
    }
    let mut i: usize = 0;
    while i < la
        invariant
            i <= la,
            la == a@.len(),
            la == b@.len(),
            forall|j: int| 0 <= j < i ==> a@[j] == b@[j],
        decreases la - i,
    {
        if a.get_char(i) != b.get_char(i) {
            return false;
        }
        i = i + 1;
    }
    proof {
        assert(a@ =~= b@);
    }
    true
}

} // verus!
