//! Character-sequence primitives shared by the renderers: ordering, sorting,
//! joining, decimal and padded text.

use vstd::prelude::*;
use vstd::relations::{sorted_by, total_ordering};
use vstd::string::*;

verus! {

/// Lexicographic order on character sequences, comparing characters by code
/// point; a proper prefix comes first. This is the order of `str`'s `Ord`.
pub open spec fn lex_le(a: Seq<char>, b: Seq<char>) -> bool
    decreases a.len(),
{
    if a.len() == 0 {
        true
    } else if b.len() == 0 {
        false
    } else if a[0] != b[0] {
        a[0] < b[0]
    } else {
        lex_le(a.drop_first(), b.drop_first())
    }
}

/// The order in which rendered lines are laid out.
pub open spec fn line_order() -> spec_fn(Seq<char>, Seq<char>) -> bool {
    |a: Seq<char>, b: Seq<char>| lex_le(a, b)
}

/// Decides `lex_le(a@, b@)`.
pub fn chars_le(a: &Vec<char>, b: &Vec<char>) -> (r: bool)
    ensures
        r == lex_le(a@, b@),
{
    let mut i: usize = 0;
    assert(a@.skip(0) == a@);
    assert(b@.skip(0) == b@);
    while i < a.len() && i < b.len() && a[i] == b[i]
        invariant
            i <= a.len(),
            i <= b.len(),
            a@.take(i as int) == b@.take(i as int),
            lex_le(a@, b@) == lex_le(a@.skip(i as int), b@.skip(i as int)),
        decreases a.len() - i,
    {
        assert(a@.skip(i as int).drop_first() == a@.skip(i + 1));
        assert(b@.skip(i as int).drop_first() == b@.skip(i + 1));
        assert(a@.take(i + 1) == a@.take(i as int).push(a@[i as int]));
        assert(b@.take(i + 1) == b@.take(i as int).push(b@[i as int]));
        i = i + 1;
    }
    if i == a.len() {
        true
    } else if i == b.len() {
        false
    } else {
        a[i] < b[i]
    }
}


proof fn lemma_lex_reflexive(a: Seq<char>)
    ensures
        lex_le(a, a),
    decreases a.len(),
{
    if a.len() > 0 {
        lemma_lex_reflexive(a.drop_first());
    }
}

proof fn lemma_lex_antisymmetric(a: Seq<char>, b: Seq<char>)
    requires
        lex_le(a, b),
        lex_le(b, a),
    ensures
        a == b,
    decreases a.len(),
{
    if a.len() > 0 {
        lemma_lex_antisymmetric(a.drop_first(), b.drop_first());
        assert(a =~= seq![a[0]] + a.drop_first());
        assert(b =~= seq![b[0]] + b.drop_first());
    }
}

proof fn lemma_lex_transitive(a: Seq<char>, b: Seq<char>, c: Seq<char>)
    requires
        lex_le(a, b),
        lex_le(b, c),
    ensures
        lex_le(a, c),
    decreases a.len(),
{
    if a.len() > 0 && a[0] == b[0] && b[0] == c[0] {
        lemma_lex_transitive(a.drop_first(), b.drop_first(), c.drop_first());
    }
}

proof fn lemma_lex_connected(a: Seq<char>, b: Seq<char>)
    ensures
        lex_le(a, b) || lex_le(b, a),
    decreases a.len(),
{
    if a.len() > 0 && b.len() > 0 && a[0] == b[0] {
        lemma_lex_connected(a.drop_first(), b.drop_first());
    }
}

/// The line order is a total order, so every sequence of lines has exactly
/// one sorted arrangement.
pub proof fn lemma_line_order_total()
    ensures
        total_ordering(line_order()),
{
    assert forall|a: Seq<char>| #[trigger] line_order()(a, a) by {
        lemma_lex_reflexive(a);
    }
    assert forall|a: Seq<char>, b: Seq<char>|
        #[trigger] line_order()(a, b) && #[trigger] line_order()(b, a) implies a == b by {
        lemma_lex_antisymmetric(a, b);
    }
    assert forall|a: Seq<char>, b: Seq<char>, c: Seq<char>|
        #[trigger] line_order()(a, b) && #[trigger] line_order()(b, c) implies line_order()(
        a,
        c,
    ) by {
        lemma_lex_transitive(a, b, c);
    }
    assert forall|a: Seq<char>, b: Seq<char>|
        #[trigger] line_order()(a, b) || #[trigger] line_order()(b, a) by {
        lemma_lex_connected(a, b);
    }
}

/// The character sequences held by a sequence of character vectors.
pub open spec fn seqs_of(v: Seq<Vec<char>>) -> Seq<Seq<char>> {
    v.map_values(|l: Vec<char>| l@)
}

/// Arranges lines in line order.
#[verifier::rlimit(40)]
pub fn sort_lines(lines: Vec<Vec<char>>) -> (r: Vec<Vec<char>>)
    ensures
        seqs_of(r@) == seqs_of(lines@).sort_by(line_order()),
{
    proof {
        lemma_line_order_total();
    }
    let ghost whole = seqs_of(lines@);
    let mut rest = lines;
    let mut out: Vec<Vec<char>> = Vec::new();
    proof {
        broadcast use vstd::multiset::group_multiset_axioms, vstd::seq_lib::group_to_multiset_ensures;

        assert(seqs_of(out@) =~= Seq::empty());
        assert(seqs_of(out@).to_multiset() =~= vstd::multiset::Multiset::empty());
    }
    while rest.len() > 0
        invariant
            total_ordering(line_order()),
            sorted_by(seqs_of(out@), line_order()),
            seqs_of(out@).to_multiset().add(seqs_of(rest@).to_multiset()) == whole.to_multiset(),
        decreases rest.len(),
    {
        let ghost before = rest@;
        let x = rest.pop().unwrap();
        proof {
            assert(before =~= rest@.push(x));
            assert(seqs_of(before) =~= seqs_of(rest@).push(x@));
            vstd::seq_lib::to_multiset_build(seqs_of(rest@), x@);
        }
        let mut k: usize = 0;
        while k < out.len() && chars_le(&out[k], &x)
            invariant
                k <= out.len(),
                forall|j: int| 0 <= j < k ==> lex_le(#[trigger] out@[j]@, x@),
            decreases out.len() - k,
        {
            k = k + 1;
        }
        let ghost prev = seqs_of(out@);
        proof {
            if k < out.len() {
                lemma_lex_connected(out@[k as int]@, x@);
                assert forall|j: int| k <= j < out.len() implies lex_le(x@, #[trigger] prev[j]) by {
                    assert(line_order()(prev[k as int], prev[j]));
                    lemma_lex_transitive(x@, prev[k as int], prev[j]);
                }
            }
        }
        out.insert(k, x);
        proof {
            let now = seqs_of(out@);
            assert(now =~= prev.insert(k as int, x@));
            vstd::seq_lib::to_multiset_insert(prev, k as int, x@);
            assert forall|i: int, j: int| 0 <= i < j < now.len() implies #[trigger] line_order()(
                now[i],
                now[j],
            ) by {
                if j < k {
                    assert(line_order()(prev[i], prev[j]));
                } else if i < k && j == k {
                    assert(lex_le(prev[i], x@));
                } else if i < k {
                    assert(line_order()(prev[i], prev[j - 1]));
                } else if i == k {
                    assert(lex_le(x@, prev[j - 1]));
                } else {
                    assert(line_order()(prev[i - 1], prev[j - 1]));
                }
            }
            broadcast use vstd::multiset::group_multiset_axioms;
            assert(now.to_multiset().add(seqs_of(rest@).to_multiset()) =~= whole.to_multiset());
        }
    }
    proof {
        broadcast use vstd::multiset::group_multiset_axioms, vstd::seq_lib::group_to_multiset_ensures;

        assert(seqs_of(rest@) =~= Seq::empty());
        assert(seqs_of(rest@).to_multiset() =~= vstd::multiset::Multiset::empty());
        assert(seqs_of(out@).to_multiset() =~= whole.to_multiset());
        whole.lemma_sort_by_ensures(line_order());
        vstd::seq_lib::lemma_sorted_unique(seqs_of(out@), whole.sort_by(line_order()), line_order());
    }
    out
}

/// `parts` laid end to end with `sep` between each two neighbours.
pub open spec fn join(parts: Seq<Seq<char>>, sep: Seq<char>) -> Seq<char>
    decreases parts.len(),
{
    if parts.len() == 0 {
        Seq::empty()
    } else if parts.len() == 1 {
        parts[0]
    } else {
        join(parts.drop_last(), sep) + sep + parts.last()
    }
}

/// Appends `s` to `out`.
pub fn push_all(out: &mut Vec<char>, s: &Vec<char>)
    ensures
        final(out)@ == old(out)@ + s@,
{
    let ghost start = out@;
    let mut i: usize = 0;
    while i < s.len()
        invariant
            i <= s.len(),
            out@ == start + s@.take(i as int),
        decreases s.len() - i,
    {
        out.push(s[i]);
        i = i + 1;
        assert(s@.take(i as int) == s@.take(i - 1).push(s@[i - 1]));
    }
    assert(s@.take(i as int) == s@);
}

/// Joins `parts` with `sep` between each two neighbours.
pub fn join_chars(parts: &Vec<Vec<char>>, sep: &Vec<char>) -> (r: Vec<char>)
    ensures
        r@ == join(seqs_of(parts@), sep@),
{
    let mut out: Vec<char> = Vec::new();
    let mut i: usize = 0;
    while i < parts.len()
        invariant
            i <= parts.len(),
            out@ == join(seqs_of(parts@).take(i as int), sep@),
        decreases parts.len() - i,
    {
        let ghost before = seqs_of(parts@).take(i as int);
        if i > 0 {
            push_all(&mut out, sep);
        }
        push_all(&mut out, &parts[i]);
        i = i + 1;
        proof {
            let now = seqs_of(parts@).take(i as int);
            assert(now.drop_last() =~= before);
            if i == 1 {
                assert(before =~= Seq::empty());
            }
        }
    }
    assert(seqs_of(parts@).take(i as int) =~= seqs_of(parts@));
    out
}

/// The decimal digit that stands for `d`.
pub open spec fn digit(d: int) -> char {
    if d == 0 {
        '0'
    } else if d == 1 {
        '1'
    } else if d == 2 {
        '2'
    } else if d == 3 {
        '3'
    } else if d == 4 {
        '4'
    } else if d == 5 {
        '5'
    } else if d == 6 {
        '6'
    } else if d == 7 {
        '7'
    } else if d == 8 {
        '8'
    } else {
        '9'
    }
}

/// The decimal text of `v`, without leading zeros, as `u64`'s `Display` writes it.
pub open spec fn decimal(v: nat) -> Seq<char>
    decreases v,
{
    if v < 10 {
        seq![digit(v as int)]
    } else {
        decimal(v / 10).push(digit((v % 10) as int))
    }
}

fn digit_of(d: u64) -> (c: char)
    requires
        d < 10,
    ensures
        c == digit(d as int),
{
    if d == 0 {
        '0'
    } else if d == 1 {
        '1'
    } else if d == 2 {
        '2'
    } else if d == 3 {
        '3'
    } else if d == 4 {
        '4'
    } else if d == 5 {
        '5'
    } else if d == 6 {
        '6'
    } else if d == 7 {
        '7'
    } else if d == 8 {
        '8'
    } else {
        '9'
    }
}

/// Appends the decimal text of `v` to `out`.
pub fn push_decimal(out: &mut Vec<char>, v: u64)
    ensures
        final(out)@ == old(out)@ + decimal(v as nat),
    decreases v,
{
    if v >= 10 {
        push_decimal(out, v / 10);
    }
    out.push(digit_of(v % 10));
}

/// `p` left-padded with `'0'` to at least two characters.
pub open spec fn pad2(p: Seq<char>) -> Seq<char> {
    if p.len() >= 2 {
        p
    } else if p.len() == 1 {
        seq!['0'] + p
    } else {
        seq!['0', '0']
    }
}

/// Appends `p` left-padded with `'0'` to at least two characters.
pub fn push_padded2(out: &mut Vec<char>, p: &Vec<char>)
    ensures
        final(out)@ == old(out)@ + pad2(p@),
{
    let ghost start = out@;
    let mut n: usize = p.len();
    while n < 2
        invariant
            p@.len() <= n <= 2 || (n == p@.len() && n >= 2),
            out@ == start + Seq::new((n - p@.len()) as nat, |i: int| '0'),
        decreases 2 - n,
    {
        out.push('0');
        n = n + 1;
        assert(out@ =~= start + Seq::new((n - p@.len()) as nat, |i: int| '0'));
    }
    push_all(out, p);
    assert(out@ =~= start + pad2(p@));
}

/// `s` with every `'/'` turned into `'_'`.
pub open spec fn underscored(s: Seq<char>) -> Seq<char> {
    s.map_values(|c: char| if c == '/' { '_' } else { c })
}

/// Turns every `'/'` of `s` into `'_'`.
pub fn underscore_slashes(s: &mut Vec<char>)
    ensures
        final(s)@ == underscored(old(s)@),
{
    let ghost start = s@;
    let mut i: usize = 0;
    while i < s.len()
        invariant
            i <= s.len(),
            s@.len() == start.len(),
            forall|j: int| 0 <= j < i ==> s@[j] == underscored(start)[j],
            forall|j: int| i <= j < s@.len() ==> s@[j] == start[j],
        decreases s.len() - i,
    {
        if s[i] == '/' {
            s.set(i, '_');
        }
        i = i + 1;
    }
    assert(s@ =~= underscored(start));
}

/// The characters of `s`, in order.
pub fn chars_of(s: &str) -> (r: Vec<char>)
    ensures
        r@ == s@,
{
    let n = s.unicode_len();
    let mut out: Vec<char> = Vec::new();
    let mut i: usize = 0;
    while i < n
        invariant
            n == s@.len(),
            i <= n,
            out@ == s@.take(i as int),
        decreases n - i,
    {
        out.push(s.get_char(i));
        i = i + 1;
        assert(s@.take(i as int) == s@.take(i - 1).push(s@[i - 1]));
    }
    assert(s@.take(i as int) == s@);
    out
}

/// Relies on `String`'s `FromIterator<char>`: the string holds the given
/// characters in the order given.
#[verifier::external_body]
pub(crate) fn string_of_chars(cs: Vec<char>) -> (r: String)
    ensures
        r@ == cs@,
{
    String::from_iter(cs)
}

} // verus!
