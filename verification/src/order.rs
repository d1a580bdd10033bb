//! Three-way comparison of numbers, names and sequences of them.
//!
//! Sorting and the canonical form of maps that are keyed by axis name both rest
//! on a total order. It is defined here once, as a specification on
//! mathematical values, together with the executable comparisons that compute
//! it.

use vstd::prelude::*;
use vstd::utf8::{decode_utf8, encode_utf8, encode_utf8_decode_utf8};

verus! {

/// The result of comparing two values.
#[derive(Clone, Copy, Debug, PartialEq, Eq, Structural)]
pub enum Order {
    Less,
    Equal,
    Greater,
}

impl Order {
    /// The result of the same comparison with its arguments exchanged.
    pub open spec fn flip(self) -> Order {
        match self {
            Order::Less => Order::Greater,
            Order::Equal => Order::Equal,
            Order::Greater => Order::Less,
        }
    }

    /// This result where it decides, and `next` where it is `Equal`.
    pub open spec fn then_with(self, next: Order) -> Order {
        match self {
            Order::Equal => next,
            _ => self,
        }
    }
}

/// The order of the integers.
pub open spec fn compare_int(a: int, b: int) -> Order {
    if a < b {
        Order::Less
    } else if a == b {
        Order::Equal
    } else {
        Order::Greater
    }
}

/// The lexicographic order of two sequences under the order `ord` of their
/// elements: the first position at which they differ decides, and a proper
/// prefix comes before the longer sequence.
pub open spec fn lex<T>(a: Seq<T>, b: Seq<T>, ord: spec_fn(T, T) -> Order) -> Order
    decreases a.len(),
{
    if a.len() == 0 {
        if b.len() == 0 {
            Order::Equal
        } else {
            Order::Less
        }
    } else if b.len() == 0 {
        Order::Greater
    } else {
        ord(a[0], b[0]).then_with(lex(a.skip(1), b.skip(1), ord))
    }
}

/// `ord` gives opposite answers when its arguments are exchanged.
pub open spec fn antisymmetric<T>(ord: spec_fn(T, T) -> Order) -> bool {
    forall|x: T, y: T| #[trigger] ord(x, y) == ord(y, x).flip()
}

/// `ord` calls two values equal exactly when they are the same value.
pub open spec fn exact<T>(ord: spec_fn(T, T) -> Order) -> bool {
    forall|x: T, y: T| #[trigger] ord(x, y) == Order::Equal <==> x == y
}

/// `ord` is transitive.
pub open spec fn transitive<T>(ord: spec_fn(T, T) -> Order) -> bool {
    forall|x: T, y: T, z: T|
        #[trigger] ord(x, y) == Order::Less && #[trigger] ord(y, z) == Order::Less ==> ord(x, z)
            == Order::Less
}

pub proof fn lemma_lex_antisymmetric<T>(a: Seq<T>, b: Seq<T>, ord: spec_fn(T, T) -> Order)
    requires
        antisymmetric(ord),
    ensures
        lex(a, b, ord) == lex(b, a, ord).flip(),
    decreases a.len(),
{
    if a.len() > 0 && b.len() > 0 {
        assert(ord(a[0], b[0]) == ord(b[0], a[0]).flip());
        lemma_lex_antisymmetric(a.skip(1), b.skip(1), ord);
    }
}

pub proof fn lemma_lex_exact<T>(a: Seq<T>, b: Seq<T>, ord: spec_fn(T, T) -> Order)
    requires
        exact(ord),
    ensures
        lex(a, b, ord) == Order::Equal <==> a == b,
    decreases a.len(),
{
    if a.len() > 0 && b.len() > 0 {
        assert(ord(a[0], b[0]) == Order::Equal <==> a[0] == b[0]);
        lemma_lex_exact(a.skip(1), b.skip(1), ord);
        if a[0] == b[0] && a.skip(1) == b.skip(1) {
            assert(a =~= seq![a[0]] + a.skip(1));
            assert(b =~= seq![b[0]] + b.skip(1));
        }
    } else if a.len() == 0 && b.len() == 0 {
        assert(a =~= b);
    }
}

pub proof fn lemma_lex_transitive<T>(
    a: Seq<T>,
    b: Seq<T>,
    c: Seq<T>,
    ord: spec_fn(T, T) -> Order,
)
    requires
        exact(ord),
        transitive(ord),
        lex(a, b, ord) == Order::Less,
        lex(b, c, ord) == Order::Less,
    ensures
        lex(a, c, ord) == Order::Less,
    decreases a.len(),
{
    if a.len() > 0 {
        let ab = ord(a[0], b[0]);
        let bc = ord(b[0], c[0]);
        assert(ab == Order::Equal <==> a[0] == b[0]);
        assert(bc == Order::Equal <==> b[0] == c[0]);
        if ab == Order::Equal && bc == Order::Equal {
            lemma_lex_transitive(a.skip(1), b.skip(1), c.skip(1), ord);
            assert(ord(a[0], c[0]) == Order::Equal <==> a[0] == c[0]);
        } else if ab == Order::Less && bc == Order::Less {
            assert(ord(a[0], c[0]) == Order::Less);
        }
    }
}

/// The order of bytes.
pub open spec fn compare_byte(a: u8, b: u8) -> Order {
    compare_int(a as int, b as int)
}

/// The order of axis names: that of their UTF-8 encodings, byte by byte.
pub open spec fn compare_names(a: Seq<char>, b: Seq<char>) -> Order {
    lex(encode_utf8(a), encode_utf8(b), |x: u8, y: u8| compare_byte(x, y))
}

/// The lexicographic order of sequences of integers.
pub open spec fn compare_int_seqs(a: Seq<int>, b: Seq<int>) -> Order {
    lex(a, b, |x: int, y: int| compare_int(x, y))
}

/// The lexicographic order of sequences of names.
pub open spec fn compare_name_seqs(a: Seq<Seq<char>>, b: Seq<Seq<char>>) -> Order {
    lex(a, b, |x: Seq<char>, y: Seq<char>| compare_names(x, y))
}

/// The order of names is a strict total order on names.
pub proof fn lemma_compare_names(a: Seq<char>, b: Seq<char>)
    ensures
        compare_names(a, b) == compare_names(b, a).flip(),
        compare_names(a, b) == Order::Equal <==> a == b,
{
    let ord = |x: u8, y: u8| compare_byte(x, y);
    assert(antisymmetric(ord));
    assert(exact(ord));
    lemma_lex_antisymmetric(encode_utf8(a), encode_utf8(b), ord);
    lemma_lex_exact(encode_utf8(a), encode_utf8(b), ord);
    encode_utf8_decode_utf8(a);
    encode_utf8_decode_utf8(b);
    assert(encode_utf8(a) == encode_utf8(b) ==> decode_utf8(encode_utf8(a)) == decode_utf8(
        encode_utf8(b),
    ));
}

pub proof fn lemma_compare_names_transitive(a: Seq<char>, b: Seq<char>, c: Seq<char>)
    requires
        compare_names(a, b) == Order::Less,
        compare_names(b, c) == Order::Less,
    ensures
        compare_names(a, c) == Order::Less,
{
    let ord = |x: u8, y: u8| compare_byte(x, y);
    assert(exact(ord));
    assert(transitive(ord));
    lemma_lex_transitive(encode_utf8(a), encode_utf8(b), encode_utf8(c), ord);
}

/// The order of integer sequences is a strict total order.
pub proof fn lemma_compare_int_seqs(a: Seq<int>, b: Seq<int>)
    ensures
        compare_int_seqs(a, b) == compare_int_seqs(b, a).flip(),
        compare_int_seqs(a, b) == Order::Equal <==> a == b,
{
    let ord = |x: int, y: int| compare_int(x, y);
    assert(antisymmetric(ord));
    assert(exact(ord));
    lemma_lex_antisymmetric(a, b, ord);
    lemma_lex_exact(a, b, ord);
}

pub proof fn lemma_compare_int_seqs_transitive(a: Seq<int>, b: Seq<int>, c: Seq<int>)
    requires
        compare_int_seqs(a, b) == Order::Less,
        compare_int_seqs(b, c) == Order::Less,
    ensures
        compare_int_seqs(a, c) == Order::Less,
{
    let ord = |x: int, y: int| compare_int(x, y);
    assert(exact(ord));
    assert(transitive(ord));
    lemma_lex_transitive(a, b, c, ord);
}

/// The order of name sequences is a strict total order.
pub proof fn lemma_compare_name_seqs(a: Seq<Seq<char>>, b: Seq<Seq<char>>)
    ensures
        compare_name_seqs(a, b) == compare_name_seqs(b, a).flip(),
        compare_name_seqs(a, b) == Order::Equal <==> a == b,
{
    let ord = |x: Seq<char>, y: Seq<char>| compare_names(x, y);
    assert forall|x: Seq<char>, y: Seq<char>| #[trigger] ord(x, y) == ord(y, x).flip() && (ord(x, y)
        == Order::Equal <==> x == y) by {
        lemma_compare_names(x, y);
    }
    assert(antisymmetric(ord));
    assert(exact(ord));
    lemma_lex_antisymmetric(a, b, ord);
    lemma_lex_exact(a, b, ord);
}

pub proof fn lemma_compare_name_seqs_transitive(
    a: Seq<Seq<char>>,
    b: Seq<Seq<char>>,
    c: Seq<Seq<char>>,
)
    requires
        compare_name_seqs(a, b) == Order::Less,
        compare_name_seqs(b, c) == Order::Less,
    ensures
        compare_name_seqs(a, c) == Order::Less,
{
    let ord = |x: Seq<char>, y: Seq<char>| compare_names(x, y);
    assert forall|x: Seq<char>, y: Seq<char>| #[trigger] ord(x, y) == Order::Equal <==> x == y by {
        lemma_compare_names(x, y);
    }
    assert forall|x: Seq<char>, y: Seq<char>, z: Seq<char>|
        #[trigger] ord(x, y) == Order::Less && #[trigger] ord(y, z) == Order::Less implies ord(x, z)
        == Order::Less by {
        lemma_compare_names_transitive(x, y, z);
    }
    assert(exact(ord));
    assert(transitive(ord));
    lemma_lex_transitive(a, b, c, ord);
}

/// Compares two byte strings in lexicographic order.
pub fn compare_bytes(a: &[u8], b: &[u8]) -> (order: Order)
    ensures
        order == lex(a@, b@, |x: u8, y: u8| compare_byte(x, y)),
{
    let ghost ord = |x: u8, y: u8| compare_byte(x, y);
    let mut i: usize = 0;
    assert(a@.skip(0) =~= a@ && b@.skip(0) =~= b@);
    while i < a.len() && i < b.len()
        invariant
            i <= a.len(),
            i <= b.len(),
            ord == (|x: u8, y: u8| compare_byte(x, y)),
            lex(a@, b@, ord) == lex(a@.skip(i as int), b@.skip(i as int), ord),
        decreases a.len() - i,
    {
        proof {
            assert(a@.skip(i as int).skip(1) =~= a@.skip(i + 1));
            assert(b@.skip(i as int).skip(1) =~= b@.skip(i + 1));
        }
        if a[i] < b[i] {
            return Order::Less;
        } else if a[i] > b[i] {
            return Order::Greater;
        }
        i += 1;
    }
    proof {
        assert(a@.skip(a@.len() as int).len() == 0);
        assert(b@.skip(b@.len() as int).len() == 0);
    }
    if i < b.len() {
        Order::Less
    } else if i < a.len() {
        Order::Greater
    } else {
        Order::Equal
    }
}

/// Compares two names.
pub fn compare_strs(a: &str, b: &str) -> (order: Order)
    ensures
        order == compare_names(a@, b@),
{
    compare_bytes(a.as_bytes(), b.as_bytes())
}

/// Compares two sequences of numbers in lexicographic order.
pub fn compare_numbers(a: &Vec<i128>, b: &Vec<i128>) -> (order: Order)
    ensures
        order == compare_int_seqs(
            a@.map_values(|x: i128| x as int),
            b@.map_values(|x: i128| x as int),
        ),
{
    let ghost ord = |x: int, y: int| compare_int(x, y);
    let ghost sa = a@.map_values(|x: i128| x as int);
    let ghost sb = b@.map_values(|x: i128| x as int);
    let mut i: usize = 0;
    assert(sa.skip(0) =~= sa && sb.skip(0) =~= sb);
    while i < a.len() && i < b.len()
        invariant
            i <= a.len(),
            i <= b.len(),
            ord == (|x: int, y: int| compare_int(x, y)),
            sa == a@.map_values(|x: i128| x as int),
            sb == b@.map_values(|x: i128| x as int),
            lex(sa, sb, ord) == lex(sa.skip(i as int), sb.skip(i as int), ord),
        decreases a.len() - i,
    {
        proof {
            assert(sa.skip(i as int).skip(1) =~= sa.skip(i + 1));
            assert(sb.skip(i as int).skip(1) =~= sb.skip(i + 1));
        }
        if a[i] < b[i] {
            return Order::Less;
        } else if a[i] > b[i] {
            return Order::Greater;
        }
        i += 1;
    }
    proof {
        assert(sa.skip(sa.len() as int).len() == 0);
        assert(sb.skip(sb.len() as int).len() == 0);
    }
    if i < b.len() {
        Order::Less
    } else if i < a.len() {
        Order::Greater
    } else {
        Order::Equal
    }
}

} // verus!
