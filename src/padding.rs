//! Anonymous padding: how a byte count is cut into hex fields.

use vstd::prelude::*;
use crate::field::{Field, FieldId, FieldIdAllocator, HexField};

verus! {

/// Sum of the sizes of `s`.
pub open spec fn total_size(s: Seq<Field>) -> int
    decreases s.len(),
{
    if s.len() == 0 {
        0
    } else {
        total_size(s.drop_last()) + s.last().size()
    }
}

/// Sum of a sequence of integers.
pub open spec fn sum(s: Seq<int>) -> int
    decreases s.len(),
{
    if s.len() == 0 {
        0
    } else {
        sum(s.drop_last()) + s.last()
    }
}

/// The sizes that `n` bytes of padding are cut into: as many 8-byte units as
/// fit, then 4, then 2, then 1.
pub open spec fn pad_sizes(n: nat) -> Seq<int>
    decreases n,
{
    if n >= 8 {
        seq![8int] + pad_sizes((n - 8) as nat)
    } else if n >= 4 {
        seq![4int] + pad_sizes((n - 4) as nat)
    } else if n >= 2 {
        seq![2int] + pad_sizes((n - 2) as nat)
    } else if n >= 1 {
        seq![1int] + pad_sizes((n - 1) as nat)
    } else {
        Seq::empty()
    }
}

/// The number of units in the greedy cut of `n` bytes.
pub open spec fn greedy_count(n: nat) -> int {
    n as int / 8 + rest_count(n as int % 8)
}

/// Units needed for fewer than 8 bytes: one each of 4, 2 and 1 as the bits
/// of `r` say.
pub open spec fn rest_count(r: int) -> int {
    if r == 0 {
        0
    } else if r == 1 || r == 2 || r == 4 {
        1
    } else if r == 3 || r == 5 || r == 6 {
        2
    } else {
        3
    }
}

/// A size that a padding unit can have.
pub open spec fn unit_size(k: int) -> bool {
    k == 1 || k == 2 || k == 4 || k == 8
}

/// `s` holds unnamed hex fields of the given sizes whose ids are distinct
/// and lie in `lo..hi`.
pub open spec fn is_padding_run(s: Seq<Field>, sizes: Seq<int>, lo: u64, hi: u64) -> bool {
    &&& s.len() == sizes.len()
    &&& forall|i: int|
        0 <= i < s.len() ==> {
            &&& #[trigger] s[i] is Hex
            &&& s[i].wf()
            &&& s[i].size() == sizes[i]
            &&& lo <= s[i].fid().0 < hi
        }
    &&& forall|i: int, j: int| 0 <= i < j < s.len() ==> s[i].fid() != s[j].fid()
}

pub proof fn lemma_total_size_append(a: Seq<Field>, b: Seq<Field>)
    ensures
        total_size(a + b) == total_size(a) + total_size(b),
    decreases b.len(),
{
    if b.len() > 0 {
        lemma_total_size_append(a, b.drop_last());
        assert((a + b).drop_last() =~= a + b.drop_last());
    } else {
        assert(a + b =~= a);
    }
}

pub proof fn lemma_sum_append(a: Seq<int>, b: Seq<int>)
    ensures
        sum(a + b) == sum(a) + sum(b),
    decreases b.len(),
{
    if b.len() > 0 {
        lemma_sum_append(a, b.drop_last());
        assert((a + b).drop_last() =~= a + b.drop_last());
    } else {
        assert(a + b =~= a);
    }
}

pub proof fn lemma_sum_single(k: int)
    ensures
        sum(seq![k]) == k,
{
    let s = seq![k];
    assert(s.len() == 1);
    assert(s.drop_last() =~= Seq::<int>::empty());
    assert(sum(s.drop_last()) == 0);
    assert(s.last() == k);
    assert(sum(s) == sum(s.drop_last()) + s.last());
}

pub proof fn lemma_sum_reverse(a: Seq<int>)
    ensures
        sum(a.reverse()) == sum(a),
    decreases a.len(),
{
    if a.len() > 0 {
        lemma_sum_reverse(a.drop_first());
        assert(a.reverse().drop_last() =~= a.drop_first().reverse());
        assert(a.reverse().last() == a[0]);
        assert(a =~= seq![a[0]] + a.drop_first());
        lemma_sum_append(seq![a[0]], a.drop_first());
        lemma_sum_single(a[0]);
    } else {
        assert(a.reverse() =~= a);
    }
}

/// The sizes of a padding run add up as the field sizes do.
pub proof fn lemma_run_total(s: Seq<Field>, sizes: Seq<int>, lo: u64, hi: u64)
    requires
        is_padding_run(s, sizes, lo, hi),
    ensures
        total_size(s) == sum(sizes),
    decreases s.len(),
{
    if s.len() > 0 {
        assert(is_padding_run(s.drop_last(), sizes.drop_last(), lo, hi)) by {
            assert forall|i: int| 0 <= i < s.len() - 1 implies #[trigger] s.drop_last()[i] is Hex by {
                assert(s[i] is Hex);
            }
        }
        lemma_run_total(s.drop_last(), sizes.drop_last(), lo, hi);
        assert(s[s.len() - 1] is Hex);
    }
}

/// Cutting `n` bytes into padding keeps every byte, uses units of 1, 2, 4
/// and 8 bytes only, and needs `greedy_count(n)` of them.
pub proof fn lemma_pad_sizes(n: nat)
    ensures
        sum(pad_sizes(n)) == n,
        pad_sizes(n).len() == greedy_count(n),
        forall|i: int| 0 <= i < pad_sizes(n).len() ==> unit_size(#[trigger] pad_sizes(n)[i]),
    decreases n,
{
    if n >= 1 {
        let k: int = if n >= 8 {
            8
        } else if n >= 4 {
            4
        } else if n >= 2 {
            2
        } else {
            1
        };
        let m = (n - k) as nat;
        lemma_pad_sizes(m);
        assert(pad_sizes(n) == seq![k] + pad_sizes(m));
        lemma_sum_append(seq![k], pad_sizes(m));
        lemma_sum_single(k);
        lemma_greedy_step(n, k);
        assert forall|i: int| 0 <= i < pad_sizes(n).len() implies unit_size(#[trigger] pad_sizes(n)[i]) by {
            if i > 0 {
                assert(pad_sizes(n)[i] == pad_sizes(m)[i - 1]);
            }
        }
    } else {
        assert(sum(pad_sizes(n)) == 0);
    }
}

proof fn lemma_greedy_step(n: nat, k: int)
    requires
        unit_size(k),
        n >= k,
    ensures
        greedy_count(n) <= 1 + greedy_count((n - k) as nat),
        (k == 8 || (n < 8 && n >= k && k == (if n >= 4 { 4int } else if n >= 2 { 2int } else { 1int })))
            ==> greedy_count(n) == 1 + greedy_count((n - k) as nat),
{
    let m = (n - k) as int;
    let q = n as int / 8;
    let r = n as int % 8;
    vstd::arithmetic::div_mod::lemma_fundamental_div_mod(n as int, 8);
    assert(n == q * 8 + r);
    if k == 8 {
        vstd::arithmetic::div_mod::lemma_fundamental_div_mod_converse(m, 8, q - 1, r);
    } else if r >= k {
        vstd::arithmetic::div_mod::lemma_fundamental_div_mod_converse(m, 8, q, r - k);
    } else {
        vstd::arithmetic::div_mod::lemma_fundamental_div_mod_converse(m, 8, q - 1, r + 8 - k);
    }
}

/// No cut of `n` bytes into units of 1, 2, 4 and 8 bytes has fewer units
/// than the greedy one.
pub proof fn lemma_pad_sizes_minimal(n: nat, s: Seq<int>)
    requires
        sum(s) == n,
        forall|i: int| 0 <= i < s.len() ==> unit_size(#[trigger] s[i]),
    ensures
        pad_sizes(n).len() <= s.len(),
    decreases s.len(),
{
    lemma_pad_sizes(n);
    if s.len() > 0 {
        let k = s.last();
        assert(unit_size(s[s.len() - 1]));
        assert(sum(s.drop_last()) >= 0) by {
            lemma_sum_nonneg(s.drop_last());
        }
        let m = (n - k) as nat;
        assert forall|i: int| 0 <= i < s.drop_last().len() implies unit_size(#[trigger] s.drop_last()[i]) by {
            assert(unit_size(s[i]));
        }
        lemma_pad_sizes_minimal(m, s.drop_last());
        lemma_pad_sizes(m);
        lemma_greedy_step(n, k);
    }
}

proof fn lemma_sum_nonneg(s: Seq<int>)
    requires
        forall|i: int| 0 <= i < s.len() ==> unit_size(#[trigger] s[i]),
    ensures
        sum(s) >= 0,
    decreases s.len(),
{
    if s.len() > 0 {
        assert forall|i: int| 0 <= i < s.drop_last().len() implies unit_size(#[trigger] s.drop_last()[i]) by {
            assert(unit_size(s[i]));
        }
        lemma_sum_nonneg(s.drop_last());
        assert(unit_size(s[s.len() - 1]));
    }
}

/// The named fields of `s`, in order.
pub open spec fn named_fields(s: Seq<Field>) -> Seq<Field>
    decreases s.len(),
{
    if s.len() == 0 {
        Seq::empty()
    } else if s.last().named() {
        named_fields(s.drop_last()).push(s.last())
    } else {
        named_fields(s.drop_last())
    }
}

pub proof fn lemma_named_fields_append(a: Seq<Field>, b: Seq<Field>)
    ensures
        named_fields(a + b) == named_fields(a) + named_fields(b),
    decreases b.len(),
{
    if b.len() > 0 {
        lemma_named_fields_append(a, b.drop_last());
        assert((a + b).drop_last() =~= a + b.drop_last());
        assert((a + b).last() == b.last());
        if b.last().named() {
            assert(named_fields(a) + named_fields(b.drop_last()).push(b.last()) =~= (named_fields(a)
                + named_fields(b.drop_last())).push(b.last()));
        }
    } else {
        assert(a + b =~= a);
        assert(named_fields(a) + named_fields(b) =~= named_fields(a));
    }
}

/// A stretch of unnamed fields holds no named one.
pub proof fn lemma_named_fields_none(s: Seq<Field>)
    requires
        forall|i: int| 0 <= i < s.len() ==> !(#[trigger] s[i]).named(),
    ensures
        named_fields(s) == Seq::<Field>::empty(),
    decreases s.len(),
{
    if s.len() > 0 {
        assert(!s[s.len() - 1].named());
        lemma_named_fields_none(s.drop_last());
    }
}

/// A padding run holds no named field.
pub proof fn lemma_run_unnamed(s: Seq<Field>, sizes: Seq<int>, lo: u64, hi: u64)
    requires
        is_padding_run(s, sizes, lo, hi),
    ensures
        named_fields(s) == Seq::<Field>::empty(),
{
    assert forall|i: int| 0 <= i < s.len() implies !(#[trigger] s[i]).named() by {
        assert(s[i] is Hex);
    }
    lemma_named_fields_none(s);
}

/// A cut of `n` bytes has at most `n` units.
pub proof fn lemma_pad_sizes_count_bound(n: nat)
    ensures
        pad_sizes(n).len() <= n,
    decreases n,
{
    if n >= 1 {
        let k: int = if n >= 8 {
            8
        } else if n >= 4 {
            4
        } else if n >= 2 {
            2
        } else {
            1
        };
        lemma_pad_sizes_count_bound((n - k) as nat);
    }
}

/// The padding fields for `n` bytes whose ids count up from `start`.
pub open spec fn pad_fields(n: nat, start: u64) -> Seq<Field> {
    Seq::new(
        pad_sizes(n).len(),
        |i: int| Field::Hex(HexField { id: FieldId((start + i) as u64), bits: (8 * pad_sizes(n)[i]) as usize }),
    )
}

/// `n` bytes of padding: hex fields of the sizes `pad_sizes(n)`, in that
/// order, with fresh ids.
pub fn allocate_padding(ids: &mut FieldIdAllocator, n: usize) -> (r: Vec<Field>)
    requires
        old(ids).next_spec() + n <= u64::MAX,
    ensures
        is_padding_run(r@, pad_sizes(n as nat), old(ids).next_spec(), final(ids).next_spec()),
        final(ids).next_spec() == old(ids).next_spec() + r@.len(),
        total_size(r@) == n,
        r@ == pad_fields(n as nat, old(ids).next_spec()),
{
    proof {
        lemma_pad_sizes(n as nat);
    }
    let mut fields: Vec<Field> = Vec::new();
    let mut m = n;
    let ghost start = ids.next_spec();
    let ghost mut done: Seq<int> = Seq::empty();
    while m > 0
        invariant
            pad_sizes(n as nat) == done + pad_sizes(m as nat),
            is_padding_run(fields@, done, start, ids.next_spec()),
            forall|i: int| 0 <= i < fields@.len() ==> (#[trigger] fields@[i]).fid().0 == start + i,
            ids.next_spec() == start + fields@.len(),
            start + n <= u64::MAX,
            sum(pad_sizes(n as nat)) == n,
            sum(done) + m == n,
            fields@.len() <= sum(done),
        decreases m,
    {
        let bits: usize = if m >= 8 {
            64
        } else if m >= 4 {
            32
        } else if m >= 2 {
            16
        } else {
            8
        };
        let k = bits / 8;
        proof {
            lemma_sum_append(done, seq![k as int]);
            lemma_sum_single(k as int);
            assert(pad_sizes(m as nat) == seq![k as int] + pad_sizes((m - k) as nat));
            assert(done + pad_sizes(m as nat) =~= (done + seq![k as int]) + pad_sizes((m - k) as nat));
        }
        let id = FieldId::next_id(ids);
        fields.push(Field::Hex(HexField { id, bits }));
        m = m - k;
        proof {
            done = done + seq![k as int];
        }
    }
    proof {
        assert(done =~= pad_sizes(n as nat));
        lemma_run_total(fields@, done, start, ids.next_spec());
        assert forall|i: int| 0 <= i < fields@.len() implies fields@[i] == pad_fields(n as nat, start)[i] by {
            assert(fields@[i] is Hex);
            assert(crate::field::valid_bits(fields@[i]->Hex_0.bits));
        }
        assert(fields@ =~= pad_fields(n as nat, start));
    }
    fields
}

} // verus!
