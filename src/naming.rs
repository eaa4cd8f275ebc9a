//! Node names: `consensus-node-` followed by the node index in decimal,
//! zero-padded to two digits.

use vstd::prelude::*;
use crate::text::push_char;

verus! {

/// The decimal digit for `d < 10`.
pub open spec fn digit_char(d: nat) -> char {
    if d == 0 { '0' }
    else if d == 1 { '1' }
    else if d == 2 { '2' }
    else if d == 3 { '3' }
    else if d == 4 { '4' }
    else if d == 5 { '5' }
    else if d == 6 { '6' }
    else if d == 7 { '7' }
    else if d == 8 { '8' }
    else { '9' }
}

/// The value of a decimal digit character (0 for any other character).
pub open spec fn digit_value(c: char) -> nat {
    if c == '1' { 1 }
    else if c == '2' { 2 }
    else if c == '3' { 3 }
    else if c == '4' { 4 }
    else if c == '5' { 5 }
    else if c == '6' { 6 }
    else if c == '7' { 7 }
    else if c == '8' { 8 }
    else if c == '9' { 9 }
    else { 0 }
}

/// The shortest decimal representation of `n`.
pub open spec fn decimal(n: nat) -> Seq<char>
    decreases n,
{
    if n < 10 {
        seq![digit_char(n)]
    } else {
        decimal(n / 10).push(digit_char(n % 10))
    }
}

/// The value of a string of decimal digits, most significant first.
pub open spec fn decimal_value(s: Seq<char>) -> nat
    decreases s.len(),
{
    if s.len() == 0 {
        0
    } else {
        decimal_value(s.drop_last()) * 10 + digit_value(s.last())
    }
}

/// `n` in decimal, with a leading zero below ten.
pub open spec fn padded_index(n: nat) -> Seq<char> {
    if n < 10 {
        seq!['0', digit_char(n)]
    } else {
        decimal(n)
    }
}

pub open spec fn name_prefix() -> Seq<char> {
    seq!['c', 'o', 'n', 's', 'e', 'n', 's', 'u', 's', '-', 'n', 'o', 'd', 'e', '-']
}

/// The name of the node with index `n`; it names its deployment, its
/// container and its identity labels.
pub open spec fn node_name_of(n: nat) -> Seq<char> {
    name_prefix() + padded_index(n)
}

proof fn lemma_digit_round_trip(d: nat)
    requires
        d < 10,
    ensures
        digit_value(digit_char(d)) == d,
{
}

proof fn lemma_decimal_value(n: nat)
    ensures
        decimal_value(decimal(n)) == n,
    decreases n,
{
    if n < 10 {
        lemma_digit_round_trip(n);
        assert(decimal(n).drop_last() =~= Seq::<char>::empty());
        assert(decimal_value(Seq::<char>::empty()) == 0);
        assert(decimal(n).last() == digit_char(n));
    } else {
        lemma_decimal_value(n / 10);
        lemma_digit_round_trip(n % 10);
        assert(decimal(n).drop_last() =~= decimal(n / 10));
        assert(decimal(n).last() == digit_char(n % 10));
    }
}

/// The padded index reads back as the index.
pub proof fn lemma_padded_index_value(n: nat)
    ensures
        decimal_value(padded_index(n)) == n,
{
    if n < 10 {
        lemma_digit_round_trip(n);
        let s = padded_index(n);
        assert(s.drop_last() =~= seq!['0']);
        assert(seq!['0'].drop_last() =~= Seq::<char>::empty());
        assert(decimal_value(Seq::<char>::empty()) == 0);
        assert(decimal_value(seq!['0']) == 0);
        assert(s.last() == digit_char(n));
    } else {
        lemma_decimal_value(n);
    }
}

/// Distinct node indices give distinct node names, so deployment names and
/// identity labels never collide within a cluster.
pub proof fn lemma_node_name_injective(a: nat, b: nat)
    requires
        node_name_of(a) == node_name_of(b),
    ensures
        a == b,
{
    let k = name_prefix().len() as int;
    assert(node_name_of(a).subrange(k, node_name_of(a).len() as int) =~= padded_index(a));
    assert(node_name_of(b).subrange(k, node_name_of(b).len() as int) =~= padded_index(b));
    lemma_padded_index_value(a);
    lemma_padded_index_value(b);
}

fn digit(d: usize) -> (c: char)
    requires
        d < 10,
    ensures
        c == digit_char(d as nat),
{
    if d == 0 { '0' }
    else if d == 1 { '1' }
    else if d == 2 { '2' }
    else if d == 3 { '3' }
    else if d == 4 { '4' }
    else if d == 5 { '5' }
    else if d == 6 { '6' }
    else if d == 7 { '7' }
    else if d == 8 { '8' }
    else { '9' }
}

fn push_decimal(s: &mut String, n: usize)
    ensures
        final(s)@ == old(s)@ + decimal(n as nat),
    decreases n,
{
    if n < 10 {
        push_char(s, digit(n));
    } else {
        push_decimal(s, n / 10);
        push_char(s, digit(n % 10));
    }
    assert(final(s)@ =~= old(s)@ + decimal(n as nat));
}

/// Derives the name of the node with the given index:
/// `consensus-node-03` for 3, `consensus-node-42` for 42.
pub fn node_name(node_index: usize) -> (r: String)
    ensures
        r@ == node_name_of(node_index as nat),
{
    let mut s = String::new();
    push_char(&mut s, 'c');
    push_char(&mut s, 'o');
    push_char(&mut s, 'n');
    push_char(&mut s, 's');
    push_char(&mut s, 'e');
    push_char(&mut s, 'n');
    push_char(&mut s, 's');
    push_char(&mut s, 'u');
    push_char(&mut s, 's');
    push_char(&mut s, '-');
    push_char(&mut s, 'n');
    push_char(&mut s, 'o');
    push_char(&mut s, 'd');
    push_char(&mut s, 'e');
    push_char(&mut s, '-');
    if node_index < 10 {
        push_char(&mut s, '0');
    }
    push_decimal(&mut s, node_index);
    assert(s@ =~= node_name_of(node_index as nat));
    s
}

} // verus!
