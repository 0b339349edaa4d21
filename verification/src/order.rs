//! Lexicographic order on integer keys, and a stable sort by such keys.

use vstd::prelude::*;
use vstd::multiset::Multiset;

verus! {

broadcast use vstd::seq_lib::group_to_multiset_ensures;

/// Lexicographic order on key sequences; a proper prefix comes first.
pub open spec fn lex_le(a: Seq<i64>, b: Seq<i64>) -> bool
    decreases a.len(),
{
    if a.len() == 0 {
        true
    } else if b.len() == 0 {
        false
    } else if a[0] < b[0] {
        true
    } else if a[0] > b[0] {
        false
    } else {
        lex_le(a.drop_first(), b.drop_first())
    }
}

/// Strict lexicographic order.
pub open spec fn lex_lt(a: Seq<i64>, b: Seq<i64>) -> bool {
    lex_le(a, b) && a != b
}

pub proof fn lemma_lex_le_reflexive(a: Seq<i64>)
    ensures
        lex_le(a, a),
    decreases a.len(),
{
    if a.len() > 0 {
        lemma_lex_le_reflexive(a.drop_first());
    }
}

pub proof fn lemma_lex_le_total(a: Seq<i64>, b: Seq<i64>)
    ensures
        lex_le(a, b) || lex_le(b, a),
    decreases a.len(),
{
    if a.len() > 0 && b.len() > 0 && a[0] == b[0] {
        lemma_lex_le_total(a.drop_first(), b.drop_first());
    }
}

pub proof fn lemma_lex_le_antisymmetric(a: Seq<i64>, b: Seq<i64>)
    requires
        lex_le(a, b),
        lex_le(b, a),
    ensures
        a == b,
    decreases a.len(),
{
    if a.len() > 0 && b.len() > 0 {
        lemma_lex_le_antisymmetric(a.drop_first(), b.drop_first());
        assert(a =~= seq![a[0]] + a.drop_first());
        assert(b =~= seq![b[0]] + b.drop_first());
    }
}

pub proof fn lemma_lex_le_transitive(a: Seq<i64>, b: Seq<i64>, c: Seq<i64>)
    requires
        lex_le(a, b),
        lex_le(b, c),
    ensures
        lex_le(a, c),
    decreases a.len(),
{
    if a.len() > 0 && b.len() > 0 && c.len() > 0 && a[0] == b[0] && b[0] == c[0] {
        lemma_lex_le_transitive(a.drop_first(), b.drop_first(), c.drop_first());
    }
}

/// Lexicographic comparison of two keys.
pub fn key_le(a: &[i64], b: &[i64]) -> (r: bool)
    ensures
        r == lex_le(a@, b@),
{
    let mut i: usize = 0;
    assert(a@.skip(0) =~= a@);
    assert(b@.skip(0) =~= b@);
    while i < a.len() && i < b.len()
        invariant
            i <= a.len(),
            i <= b.len(),
            forall|j: int| 0 <= j < i ==> a@[j] == b@[j],
            lex_le(a@, b@) == lex_le(a@.skip(i as int), b@.skip(i as int)),
        decreases a.len() - i,
    {
        if a[i] < b[i] {
            return true;
        }
        if a[i] > b[i] {
            return false;
        }
        assert(a@.skip(i as int).drop_first() =~= a@.skip(i + 1));
        assert(b@.skip(i as int).drop_first() =~= b@.skip(i + 1));
        i = i + 1;
    }
    i == a.len()
}

/// A value that is ordered by an integer key.
pub trait Keyed: Sized {
    spec fn sort_key(&self) -> Seq<i64>;

    fn key(&self) -> (k: Vec<i64>)
        ensures
            k@ == self.sort_key(),
    ;
}

/// Keys that ascend in the lexicographic order.
pub open spec fn keys_sorted<T: Keyed>(s: Seq<T>) -> bool {
    forall|i: int, j: int| 0 <= i < j < s.len() ==> lex_le(#[trigger] s[i].sort_key(), #[trigger] s[j].sort_key())
}

spec fn before_loop_seq<T>(a: Seq<T>, b: Seq<T>) -> Seq<T> {
    a + b
}

proof fn lemma_insert_multiset<T>(s: Seq<T>, p: int, x: T)
    requires
        0 <= p <= s.len(),
    ensures
        s.insert(p, x).to_multiset() =~= s.to_multiset().insert(x),
{
    let t = s.insert(p, x);
    assert(t.remove(p) =~= s);
    assert(t[p] == x);
    assert(t.to_multiset().remove(x) =~= s.to_multiset());
    assert(t.to_multiset().count(x) > 0);
}

/// `idx` places each item of `r` at a distinct position of `items`, and items with
/// equal keys keep the order of their positions.
pub open spec fn stable_positions<T: Keyed>(r: Seq<T>, items: Seq<T>, idx: Seq<int>) -> bool {
    &&& idx.len() == r.len()
    &&& forall|i: int| 0 <= i < r.len() ==> 0 <= #[trigger] idx[i] < items.len() && r[i] == items[idx[i]]
    &&& forall|i: int, j: int| 0 <= i < j < r.len() ==> #[trigger] idx[i] != #[trigger] idx[j]
    &&& forall|i: int, j: int|
        0 <= i < j < r.len() && #[trigger] r[i].sort_key() == #[trigger] r[j].sort_key() ==> idx[i] < idx[j]
}

/// `r` holds the items of `items` each once, and items with equal keys in their input
/// order.
pub open spec fn stably_ordered<T: Keyed>(r: Seq<T>, items: Seq<T>) -> bool {
    exists|idx: Seq<int>| stable_positions(r, items, idx)
}

/// Sorts by key, keeping the input order of equal keys.
pub fn sort_by_key<T: Keyed>(items: Vec<T>) -> (r: Vec<T>)
    ensures
        r@.to_multiset() == items@.to_multiset(),
        keys_sorted(r@),
        keys_sorted(items@) ==> r@ == items@,
        stably_ordered(r@, items@),
{
    let ghost input_items = items@;
    let mut rest = items;
    let mut sorted: Vec<T> = Vec::new();
    let mut keys: Vec<Vec<i64>> = Vec::new();
    let ghost mut idx: Seq<int> = Seq::empty();
    let ghost mut taken: int = 0;
    assert(input_items.skip(0) =~= input_items);
    while rest.len() > 0
        invariant
            0 <= taken <= input_items.len(),
            rest@ == input_items.skip(taken),
            stable_positions(sorted@, input_items, idx),
            forall|i: int| 0 <= i < idx.len() ==> #[trigger] idx[i] < taken,
            sorted@.len() == keys@.len(),
            forall|i: int| 0 <= i < keys@.len() ==> #[trigger] keys@[i]@ == sorted@[i].sort_key(),
            keys_sorted(sorted@),
            sorted@.to_multiset().add(rest@.to_multiset()) == input_items.to_multiset(),
            keys_sorted(input_items) ==> sorted@ + rest@ == input_items,
        decreases rest.len(),
    {
        let ghost old_rest = rest@;
        let item = rest.remove(0);
        assert(item == input_items[taken]);
        assert(rest@ =~= input_items.skip(taken + 1));
        proof {
            assert(old_rest.remove(0).to_multiset() =~= old_rest.to_multiset().remove(old_rest[0]));
            assert(old_rest.to_multiset().count(item) > 0);
            assert(old_rest.to_multiset() =~= rest@.to_multiset().insert(item));
        }
        let k = item.key();
        let mut p: usize = 0;
        while p < sorted.len() && key_le(keys[p].as_slice(), k.as_slice())
            invariant
                p <= sorted@.len(),
                sorted@.len() == keys@.len(),
                forall|i: int| 0 <= i < keys@.len() ==> #[trigger] keys@[i]@ == sorted@[i].sort_key(),
                forall|i: int| 0 <= i < p ==> lex_le(#[trigger] sorted@[i].sort_key(), k@),
            decreases sorted@.len() - p,
        {
            p = p + 1;
        }
        proof {
            if keys_sorted(input_items) {
                assert(input_items =~= before_loop_seq(sorted@, old_rest));
                if p < sorted@.len() {
                    let q = sorted@.len() - 1;
                    assert(input_items[q as int] == sorted@[q as int]);
                    assert(input_items[sorted@.len() as int] == item);
                    assert(lex_le(sorted@[q as int].sort_key(), item.sort_key()));
                    if p < q {
                        lemma_lex_le_transitive(sorted@[p as int].sort_key(), sorted@[q as int].sort_key(), k@);
                    }
                    assert(false);
                }
            }
            if p < sorted@.len() {
                lemma_lex_le_total(k@, sorted@[p as int].sort_key());
            }
            assert forall|i: int| p <= i < sorted@.len() implies lex_le(k@, #[trigger] sorted@[i].sort_key()) by {
                if i > p {
                    lemma_lex_le_transitive(k@, sorted@[p as int].sort_key(), sorted@[i].sort_key());
                }
            }
            lemma_insert_multiset(sorted@, p as int, item);
        }
        let ghost before = sorted@;
        let ghost before_idx = idx;
        proof {
            if p < sorted@.len() {
                assert(!lex_le(sorted@[p as int].sort_key(), k@));
            }
        }
        sorted.insert(p, item);
        keys.insert(p, k);
        proof {
            idx = before_idx.insert(p as int, taken);
            assert forall|i: int| 0 <= i < sorted@.len() implies 0 <= #[trigger] idx[i] < input_items.len() && sorted@[i]
                == input_items[idx[i]] by {
                if i < p {
                    assert(sorted@[i] == before[i] && idx[i] == before_idx[i]);
                } else if i > p {
                    assert(sorted@[i] == before[i - 1] && idx[i] == before_idx[i - 1]);
                }
            }
            assert forall|i: int, j: int| 0 <= i < j < sorted@.len() implies #[trigger] idx[i] != #[trigger] idx[j] by {
                if i < p && j < p {
                } else if i < p && j == p {
                    assert(idx[i] == before_idx[i]);
                } else if i < p {
                    assert(idx[i] == before_idx[i] && idx[j] == before_idx[j - 1]);
                } else if i == p {
                    assert(idx[j] == before_idx[j - 1]);
                } else {
                    assert(idx[i] == before_idx[i - 1] && idx[j] == before_idx[j - 1]);
                }
            }
            assert forall|i: int, j: int|
                0 <= i < j < sorted@.len() && #[trigger] sorted@[i].sort_key() == #[trigger] sorted@[j].sort_key() implies idx[i]
                < idx[j] by {
                if i < p && j < p {
                    assert(sorted@[i] == before[i] && sorted@[j] == before[j]);
                    assert(idx[i] == before_idx[i] && idx[j] == before_idx[j]);
                } else if i < p && j == p {
                    assert(idx[i] == before_idx[i]);
                } else if i < p {
                    assert(sorted@[i] == before[i] && sorted@[j] == before[j - 1]);
                    assert(idx[i] == before_idx[i] && idx[j] == before_idx[j - 1]);
                } else if i == p {
                    assert(sorted@[j] == before[j - 1]);
                    assert(lex_le(k@, before[p as int].sort_key()));
                    if j - 1 > p {
                        assert(lex_le(before[p as int].sort_key(), before[j - 1].sort_key()));
                    }
                    assert(lex_le(before[j - 1].sort_key(), k@) ==> false) by {
                        if lex_le(before[j - 1].sort_key(), k@) {
                            if j - 1 > p {
                                lemma_lex_le_transitive(before[p as int].sort_key(), before[j - 1].sort_key(), k@);
                            }
                        }
                    }
                    lemma_lex_le_reflexive(k@);
                } else {
                    assert(sorted@[i] == before[i - 1] && sorted@[j] == before[j - 1]);
                    assert(idx[i] == before_idx[i - 1] && idx[j] == before_idx[j - 1]);
                }
            }
            assert forall|i: int| 0 <= i < idx.len() implies #[trigger] idx[i] < taken + 1 by {
                if i < p {
                    assert(idx[i] == before_idx[i]);
                } else if i > p {
                    assert(idx[i] == before_idx[i - 1]);
                }
            }
            taken = taken + 1;
        }
        proof {
            assert forall|i: int, j: int| 0 <= i < j < sorted@.len() implies lex_le(#[trigger] sorted@[i].sort_key(), #[trigger] sorted@[j].sort_key()) by {
                if i < p && j == p {
                } else if i == p && j > p {
                } else if i < p && j > p {
                    lemma_lex_le_transitive(sorted@[i].sort_key(), k@, sorted@[j].sort_key());
                } else {
                }
            }
            assert(sorted@.to_multiset().add(rest@.to_multiset()) =~= input_items.to_multiset());
            if keys_sorted(input_items) {
                assert(sorted@ + rest@ =~= before_loop_seq(before, old_rest));
            }
        }
    }
    assert(rest@.to_multiset() =~= Multiset::empty());
    sorted
}

/// The key code of one character.
pub open spec fn char_code(c: char) -> i64 {
    (c as u32) as i64
}

/// A string as a key field: its character codes, then a terminator below every code.
pub open spec fn str_field(s: Seq<char>) -> Seq<i64> {
    s.map_values(|c: char| char_code(c)).push(-1i64)
}

/// An optional string as a key field; an absent value comes first.
pub open spec fn opt_field(s: Option<Seq<char>>) -> Seq<i64> {
    match s {
        None => seq![-3i64],
        Some(v) => seq![-2i64] + str_field(v),
    }
}

/// An unsigned integer as a key field, in two halves that order as the number does.
pub open spec fn u64_field(n: u64) -> Seq<i64> {
    seq![(n / 0x1_0000_0000) as i64, (n % 0x1_0000_0000) as i64]
}

/// A string field ends at its terminator: two keys that start with string fields and
/// agree start with the same string, and agree after it.
pub proof fn lemma_str_field_split(a: Seq<char>, b: Seq<char>, x: Seq<i64>, y: Seq<i64>)
    requires
        str_field(a) + x == str_field(b) + y,
    ensures
        a == b,
        x == y,
{
    let ka = str_field(a) + x;
    let kb = str_field(b) + y;
    if a.len() < b.len() {
        assert(ka[a.len() as int] == -1i64);
        assert(kb[a.len() as int] == char_code(b[a.len() as int]));
        assert(false);
    } else if b.len() < a.len() {
        assert(kb[b.len() as int] == -1i64);
        assert(ka[b.len() as int] == char_code(a[b.len() as int]));
        assert(false);
    }
    assert forall|i: int| 0 <= i < a.len() implies a[i] == b[i] by {
        assert(ka[i] == char_code(a[i]));
        assert(kb[i] == char_code(b[i]));
        assert((a[i] as u32) == (b[i] as u32));
        vstd::utf8::char_u32_cast(a[i], a[i] as u32);
        vstd::utf8::char_u32_cast(b[i], b[i] as u32);
    }
    assert(a =~= b);
    assert(x =~= ka.skip(a.len() as int + 1));
    assert(y =~= kb.skip(b.len() as int + 1));
}

/// An optional string field ends where its string does.
pub proof fn lemma_opt_field_split(a: Option<Seq<char>>, b: Option<Seq<char>>, x: Seq<i64>, y: Seq<i64>)
    requires
        opt_field(a) + x == opt_field(b) + y,
    ensures
        a == b,
        x == y,
{
    let ka = opt_field(a) + x;
    let kb = opt_field(b) + y;
    assert(ka[0] == opt_field(a)[0]);
    assert(kb[0] == opt_field(b)[0]);
    match (a, b) {
        (None, None) => {
            assert(x =~= ka.skip(1));
            assert(y =~= kb.skip(1));
        },
        (Some(va), Some(vb)) => {
            assert(ka.skip(1) =~= str_field(va) + x);
            assert(kb.skip(1) =~= str_field(vb) + y);
            lemma_str_field_split(va, vb, x, y);
        },
        _ => {},
    }
}

/// Appends a string field to a key.
pub fn push_str_field(k: &mut Vec<i64>, s: &str)
    ensures
        final(k)@ == old(k)@ + str_field(s@),
{
    let cs = crate::text::chars_of(s);
    let ghost start = k@;
    let mut i: usize = 0;
    while i < cs.len()
        invariant
            i <= cs@.len(),
            k@ == start + cs@.take(i as int).map_values(|c: char| char_code(c)),
        decreases cs.len() - i,
    {
        let c = cs[i];
        k.push(c as u32 as i64);
        i = i + 1;
        assert(cs@.take(i as int) =~= cs@.take(i - 1).push(c));
        assert(k@ =~= start + cs@.take(i as int).map_values(|c: char| char_code(c)));
    }
    assert(cs@.take(i as int) =~= s@);
    k.push(-1);
    assert(k@ =~= start + str_field(s@));
}

/// Appends an optional string field to a key.
pub fn push_opt_field(k: &mut Vec<i64>, s: &Option<String>)
    ensures
        final(k)@ == old(k)@ + opt_field(match s { Some(v) => Some(v@), None => None }),
{
    match s {
        None => {
            k.push(-3);
            assert(k@ =~= old(k)@ + seq![-3i64]);
        }
        Some(v) => {
            k.push(-2);
            push_str_field(k, v.as_str());
            assert(k@ =~= old(k)@ + (seq![-2i64] + str_field(v@)));
        }
    }
}

/// Appends an unsigned integer field to a key.
pub fn push_u64_field(k: &mut Vec<i64>, n: u64)
    ensures
        final(k)@ == old(k)@ + u64_field(n),
{
    k.push((n / 0x1_0000_0000) as i64);
    k.push((n % 0x1_0000_0000) as i64);
    assert(k@ =~= old(k)@ + u64_field(n));
}

} // verus!
