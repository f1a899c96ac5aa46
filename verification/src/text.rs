//! Lexicographic order on symbols and decimal rendering of counts.
use vstd::prelude::*;
use vstd::string::StrSliceExecFns;
use vstd::string::StringExecFns;

use crate::sorting::views;

verus! {

/// The outcome of a three-way comparison.
#[derive(Debug, Clone, Copy, PartialEq, Eq, Structural)]
pub enum Order {
    Less,
    Equal,
    Greater,
}

/// The reversed outcome: what comparing the two arguments the other way round gives.
pub open spec fn flip(o: Order) -> Order {
    match o {
        Order::Less => Order::Greater,
        Order::Equal => Order::Equal,
        Order::Greater => Order::Less,
    }
}

/// Three-way comparison of two integers.
pub open spec fn int_order(a: int, b: int) -> Order {
    if a < b {
        Order::Less
    } else if a == b {
        Order::Equal
    } else {
        Order::Greater
    }
}

/// `first`, unless it is `Equal`, in which case `second` decides.
pub open spec fn then_order(first: Order, second: Order) -> Order {
    if first == Order::Equal {
        second
    } else {
        first
    }
}

/// Lexicographic order of two character sequences by code point, a proper prefix
/// coming first. This is the order of `str` comparison in Rust, whose UTF-8 byte
/// order agrees with the code point order.
pub open spec fn lex_order(a: Seq<char>, b: Seq<char>) -> Order
    decreases a.len(),
{
    if a.len() == 0 {
        if b.len() == 0 {
            Order::Equal
        } else {
            Order::Less
        }
    } else if b.len() == 0 {
        Order::Greater
    } else if (a[0] as int) < (b[0] as int) {
        Order::Less
    } else if (a[0] as int) > (b[0] as int) {
        Order::Greater
    } else {
        lex_order(a.drop_first(), b.drop_first())
    }
}

/// Lexicographic order of two lists of character sequences, each element compared by
/// `lex_order`, a proper prefix coming first.
pub open spec fn lex_list_order(a: Seq<Seq<char>>, b: Seq<Seq<char>>) -> Order
    decreases a.len(),
{
    if a.len() == 0 {
        if b.len() == 0 {
            Order::Equal
        } else {
            Order::Less
        }
    } else if b.len() == 0 {
        Order::Greater
    } else {
        then_order(lex_order(a[0], b[0]), lex_list_order(a.drop_first(), b.drop_first()))
    }
}

pub proof fn lemma_lex_order_equal(a: Seq<char>, b: Seq<char>)
    ensures
        (lex_order(a, b) == Order::Equal) <==> (a == b),
    decreases a.len(),
{
    if a.len() == 0 && b.len() == 0 {
        assert(a =~= b);
    } else if a.len() > 0 && b.len() > 0 {
        lemma_lex_order_equal(a.drop_first(), b.drop_first());
        if a == b {
            assert(a.drop_first() == b.drop_first());
        }
        if a.drop_first() == b.drop_first() && (a[0] as int) == (b[0] as int) {
            assert(a =~= seq![a[0]] + a.drop_first());
            assert(b =~= seq![b[0]] + b.drop_first());
        }
        if lex_order(a, b) == Order::Equal {
            assert(a =~= seq![a[0]] + a.drop_first());
            assert(b =~= seq![b[0]] + b.drop_first());
        }
    }
}

pub proof fn lemma_lex_order_flip(a: Seq<char>, b: Seq<char>)
    ensures
        lex_order(b, a) == flip(lex_order(a, b)),
    decreases a.len(),
{
    if a.len() > 0 && b.len() > 0 {
        lemma_lex_order_flip(a.drop_first(), b.drop_first());
    }
}

pub proof fn lemma_lex_order_transitive(a: Seq<char>, b: Seq<char>, c: Seq<char>, o: Order)
    requires
        o != Order::Equal,
        lex_order(a, b) == o,
        lex_order(b, c) == o,
    ensures
        lex_order(a, c) == o,
    decreases a.len(),
{
    if a.len() > 0 && b.len() > 0 && c.len() > 0 {
        if (a[0] as int) == (b[0] as int) && (b[0] as int) == (c[0] as int) {
            lemma_lex_order_transitive(a.drop_first(), b.drop_first(), c.drop_first(), o);
        }
    }
}

pub proof fn lemma_lex_list_order_equal(a: Seq<Seq<char>>, b: Seq<Seq<char>>)
    ensures
        (lex_list_order(a, b) == Order::Equal) <==> (a == b),
    decreases a.len(),
{
    if a.len() == 0 && b.len() == 0 {
        assert(a =~= b);
    } else if a.len() > 0 && b.len() > 0 {
        lemma_lex_order_equal(a[0], b[0]);
        lemma_lex_list_order_equal(a.drop_first(), b.drop_first());
        if a == b {
            assert(a.drop_first() == b.drop_first());
        }
        if lex_list_order(a, b) == Order::Equal {
            assert(a =~= seq![a[0]] + a.drop_first());
            assert(b =~= seq![b[0]] + b.drop_first());
        }
    }
}

pub proof fn lemma_lex_list_order_flip(a: Seq<Seq<char>>, b: Seq<Seq<char>>)
    ensures
        lex_list_order(b, a) == flip(lex_list_order(a, b)),
    decreases a.len(),
{
    if a.len() > 0 && b.len() > 0 {
        lemma_lex_order_flip(a[0], b[0]);
        lemma_lex_list_order_flip(a.drop_first(), b.drop_first());
    }
}

/// Compares two strings lexicographically by code point, as `str` comparison does.
pub fn compare_text(a: &str, b: &str) -> (res: Order)
    ensures
        res == lex_order(a@, b@),
{
    let la = a.unicode_len();
    let lb = b.unicode_len();
    let mut i: usize = 0;
    assert(a@.skip(0) =~= a@);
    assert(b@.skip(0) =~= b@);
    while i < la && i < lb
        invariant
            la == a@.len(),
            lb == b@.len(),
            i <= la,
            i <= lb,
            lex_order(a@, b@) == lex_order(a@.skip(i as int), b@.skip(i as int)),
        decreases la - i,
    {
        let ca = a.get_char(i);
        let cb = b.get_char(i);
        assert(a@.skip(i as int)[0] == ca);
        assert(b@.skip(i as int)[0] == cb);
        if ca < cb {
            return Order::Less;
        } else if ca > cb {
            return Order::Greater;
        }
        assert(a@.skip(i as int).drop_first() =~= a@.skip(i + 1));
        assert(b@.skip(i as int).drop_first() =~= b@.skip(i + 1));
        i = i + 1;
    }
    if i < lb {
        Order::Less
    } else if i < la {
        Order::Greater
    } else {
        Order::Equal
    }
}

/// Equality of two strings by their characters.
pub fn same_text(a: &str, b: &str) -> (res: bool)
    ensures
        res == (a@ == b@),
{
    let o = compare_text(a, b);
    proof {
        lemma_lex_order_equal(a@, b@);
    }
    match o {
        Order::Equal => true,
        _ => false,
    }
}

/// Compares two lists of strings lexicographically, element by element.
pub fn compare_text_lists(a: &Vec<String>, b: &Vec<String>) -> (res: Order)
    ensures
        res == lex_list_order(views(a@), views(b@)),
{
    let ghost va = views(a@);
    let ghost vb = views(b@);
    let mut i: usize = 0;
    assert(va.skip(0) =~= va);
    assert(vb.skip(0) =~= vb);
    while i < a.len() && i < b.len()
        invariant
            va == views(a@),
            vb == views(b@),
            i <= a.len(),
            i <= b.len(),
            lex_list_order(va, vb) == lex_list_order(va.skip(i as int), vb.skip(i as int)),
        decreases a.len() - i,
    {
        let o = compare_text(a[i].as_str(), b[i].as_str());
        assert(va.skip(i as int)[0] == a[i as int]@);
        assert(vb.skip(i as int)[0] == b[i as int]@);
        match o {
            Order::Equal => {},
            _ => {
                return o;
            },
        }
        assert(va.skip(i as int).drop_first() =~= va.skip(i + 1));
        assert(vb.skip(i as int).drop_first() =~= vb.skip(i + 1));
        i = i + 1;
    }
    if i < b.len() {
        Order::Less
    } else if i < a.len() {
        Order::Greater
    } else {
        Order::Equal
    }
}

/// The pieces joined by single spaces.
pub open spec fn join_spaced(pieces: Seq<Seq<char>>) -> Seq<char>
    decreases pieces.len(),
{
    if pieces.len() == 0 {
        Seq::empty()
    } else if pieces.len() == 1 {
        pieces[0]
    } else {
        join_spaced(pieces.drop_last()) + " "@ + pieces.last()
    }
}

/// Joins the strings with single spaces.
pub fn join_with_spaces(pieces: &Vec<String>) -> (res: String)
    ensures
        res@ == join_spaced(views(pieces@)),
{
    let ghost v = views(pieces@);
    let mut out = String::new();
    let mut i: usize = 0;
    assert(v.take(0) =~= Seq::<Seq<char>>::empty());
    while i < pieces.len()
        invariant
            v == views(pieces@),
            i <= pieces.len(),
            out@ == join_spaced(v.take(i as int)),
        decreases pieces.len() - i,
    {
        if i > 0 {
            out.append(" ");
        }
        out.append(pieces[i].as_str());
        assert(v.take(i + 1).drop_last() =~= v.take(i as int));
        assert(v[i as int] == pieces[i as int]@);
        if i == 0 {
            assert(v.take(1) =~= seq![v[0]]);
        }
        i = i + 1;
    }
    assert(v.take(i as int) =~= v);
    out
}

/// The decimal digit `d` as text.
pub open spec fn digit_text(d: nat) -> Seq<char> {
    if d == 0 {
        "0"@
    } else if d == 1 {
        "1"@
    } else if d == 2 {
        "2"@
    } else if d == 3 {
        "3"@
    } else if d == 4 {
        "4"@
    } else if d == 5 {
        "5"@
    } else if d == 6 {
        "6"@
    } else if d == 7 {
        "7"@
    } else if d == 8 {
        "8"@
    } else {
        "9"@
    }
}

/// The decimal notation of `n`, without leading zeros.
pub open spec fn decimal_text(n: nat) -> Seq<char>
    decreases n,
{
    if n < 10 {
        digit_text(n)
    } else {
        decimal_text(n / 10) + digit_text(n % 10)
    }
}

fn append_digit(out: &mut String, d: usize)
    requires
        d < 10,
    ensures
        final(out)@ == old(out)@ + digit_text(d as nat),
{
    if d == 0 {
        out.append("0");
    } else if d == 1 {
        out.append("1");
    } else if d == 2 {
        out.append("2");
    } else if d == 3 {
        out.append("3");
    } else if d == 4 {
        out.append("4");
    } else if d == 5 {
        out.append("5");
    } else if d == 6 {
        out.append("6");
    } else if d == 7 {
        out.append("7");
    } else if d == 8 {
        out.append("8");
    } else {
        out.append("9");
    }
}

/// Appends the decimal notation of `n` to `out`.
pub fn append_decimal(out: &mut String, n: usize)
    ensures
        final(out)@ == old(out)@ + decimal_text(n as nat),
    decreases n,
{
    if n < 10 {
        append_digit(out, n);
    } else {
        append_decimal(out, n / 10);
        append_digit(out, n % 10);
        assert(final(out)@ =~= old(out)@ + decimal_text(n as nat));
    }
}

} // verus!
