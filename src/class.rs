//! Classes: ordered fields with byte-exact layout operations.

use vstd::prelude::*;
use crate::field::{
    BoolField, Field, FieldId, FieldIdAllocator, FloatField, HexField, IntField, PointerTextField,
    TextField, VectorField,
};
use crate::padding::{
    allocate_padding, is_padding_run, pad_fields, lemma_named_fields_append, lemma_named_fields_none,
    lemma_run_unnamed, named_fields, lemma_run_total, lemma_sum_reverse, lemma_total_size_append,
    pad_sizes, sum, total_size,
};
use crate::error::LayoutError;

verus! {

#[derive(Debug, Clone, Copy, PartialEq, Eq, Hash, Structural)]
pub struct ClassId(pub usize);

/// Every field is well formed, ids are distinct, and the size fits `usize`.
pub open spec fn fields_wf(s: Seq<Field>) -> bool {
    &&& forall|i: int| 0 <= i < s.len() ==> (#[trigger] s[i]).wf()
    &&& forall|i: int, j: int| 0 <= i < j < s.len() ==> s[i].fid() != s[j].fid()
    &&& total_size(s) <= usize::MAX
}

/// Every id in `s` is below `n`, so ids handed out from `n` on are fresh.
pub open spec fn ids_below(s: Seq<Field>, n: u64) -> bool {
    forall|i: int| 0 <= i < s.len() ==> (#[trigger] s[i]).fid().0 < n
}

pub open spec fn has_id(s: Seq<Field>, id: FieldId) -> bool {
    exists|i: int| 0 <= i < s.len() && (#[trigger] s[i]).fid() == id
}

/// The position of the field with id `id`.
pub open spec fn index_of(s: Seq<Field>, id: FieldId) -> int {
    choose|i: int| 0 <= i < s.len() && (#[trigger] s[i]).fid() == id
}

/// `new` is `old` with the `removed` fields at `p` replaced by a padding run
/// of the sizes `sizes`, whose ids lie in `lo..hi`.
pub open spec fn spliced(old: Seq<Field>, new: Seq<Field>, p: int, removed: int, sizes: Seq<int>, lo: u64, hi: u64) -> bool {
    &&& 0 <= p && 0 <= removed && p + removed <= old.len()
    &&& new.len() == old.len() - removed + sizes.len()
    &&& new.subrange(0, p) == old.subrange(0, p)
    &&& new.subrange(p + sizes.len(), new.len() as int) == old.subrange(p + removed, old.len() as int)
    &&& is_padding_run(new.subrange(p, p + sizes.len()), sizes, lo, hi)
}

/// The fields of `n` bytes of padding with ids from `start`, smallest unit
/// first or largest first.
pub open spec fn padding_run(n: nat, start: u64, smallest_first: bool) -> Seq<Field> {
    if smallest_first {
        pad_fields(n, start).reverse()
    } else {
        pad_fields(n, start)
    }
}

/// `s` with `n` bytes of padding, smallest unit first, put in at `p`,
/// their ids counting up from `next`.
pub open spec fn insert_spec(s: Seq<Field>, n: nat, p: int, next: u64) -> Seq<Field> {
    s.subrange(0, p) + padding_run(n, next, true) + s.subrange(p, s.len() as int)
}

/// The fields and the next id after a merge at `start`.
pub open spec fn merge_spec(s: Seq<Field>, start: int, next: u64) -> (Seq<Field>, u64) {
    match merge_plan(s, start) {
        Some(k) => {
            let n = total_size(s.subrange(start, start + 1 + k));
            (
                s.subrange(0, start) + padding_run(n as nat, next, true) + s.subrange(start + 1 + k, s.len() as int),
                (next + pad_sizes(n as nat).len()) as u64,
            )
        },
        None => (s, next),
    }
}

/// The units of `n` bytes of padding, smallest first or largest first.
pub open spec fn padding_order(n: nat, smallest_first: bool) -> Seq<int> {
    if smallest_first {
        pad_sizes(n).reverse()
    } else {
        pad_sizes(n)
    }
}

pub proof fn lemma_index_of(s: Seq<Field>, id: FieldId, i: int)
    requires
        fields_wf(s),
        0 <= i < s.len(),
        s[i].fid() == id,
    ensures
        index_of(s, id) == i,
{
    let j = index_of(s, id);
    assert(0 <= j < s.len() && s[j].fid() == id);
    if j != i {
        if j < i {
            assert(s[j].fid() != s[i].fid());
        } else {
            assert(s[i].fid() != s[j].fid());
        }
    }
}

proof fn lemma_run_reverse(s: Seq<Field>, sizes: Seq<int>, lo: u64, hi: u64)
    requires
        is_padding_run(s, sizes, lo, hi),
    ensures
        is_padding_run(s.reverse(), sizes.reverse(), lo, hi),
{
    let r = s.reverse();
    assert forall|i: int| 0 <= i < r.len() implies {
        &&& #[trigger] r[i] is Hex
        &&& r[i].wf()
        &&& r[i].size() == sizes.reverse()[i]
        &&& lo <= r[i].fid().0 < hi
    } by {
        assert(r[i] == s[s.len() - 1 - i]);
        assert(s[s.len() - 1 - i] is Hex);
    }
    assert forall|i: int, j: int| 0 <= i < j < r.len() implies r[i].fid() != r[j].fid() by {
        assert(r[i] == s[s.len() - 1 - i]);
        assert(r[j] == s[s.len() - 1 - j]);
    }
}

/// The fields of `v` in the opposite order.
fn reversed(v: Vec<Field>) -> (r: Vec<Field>)
    ensures
        r@ == v@.reverse(),
{
    let mut v = v;
    let ghost orig = v@;
    let mut r: Vec<Field> = Vec::new();
    while v.len() > 0
        invariant
            v@ == orig.subrange(0, v@.len() as int),
            r@ == orig.subrange(v@.len() as int, orig.len() as int).reverse(),
            v@.len() <= orig.len(),
        decreases v@.len(),
    {
        let x = v.pop().unwrap();
        r.push(x);
        proof {
            assert(r@ =~= orig.subrange(v@.len() as int, orig.len() as int).reverse());
        }
    }
    proof {
        assert(orig.subrange(0, orig.len() as int) =~= orig);
    }
    r
}

/// Sizes and well-formedness carry over when a run of padding replaces
/// `removed` fields.
proof fn lemma_spliced(old: Seq<Field>, new: Seq<Field>, p: int, removed: int, sizes: Seq<int>, lo: u64, hi: u64)
    requires
        spliced(old, new, p, removed, sizes, lo, hi),
        fields_wf(old),
        ids_below(old, lo),
        lo <= hi,
        total_size(old) - total_size(old.subrange(p, p + removed)) + sum(sizes) <= usize::MAX,
    ensures
        fields_wf(new),
        ids_below(new, hi),
        total_size(new) == total_size(old) - total_size(old.subrange(p, p + removed)) + sum(sizes),
        named_fields(new) == named_fields(old.subrange(0, p)) + named_fields(old.subrange(p + removed, old.len() as int)),
{
    let k = sizes.len() as int;
    let pre = old.subrange(0, p);
    let mid = old.subrange(p, p + removed);
    let suf = old.subrange(p + removed, old.len() as int);
    let run = new.subrange(p, p + k);
    assert(old =~= pre + mid + suf);
    assert(new =~= pre + run + suf);
    lemma_total_size_append(pre, mid);
    lemma_total_size_append(pre + mid, suf);
    lemma_total_size_append(pre, run);
    lemma_total_size_append(pre + run, suf);
    lemma_run_total(run, sizes, lo, hi);
    lemma_named_fields_append(pre, run);
    lemma_named_fields_append(pre + run, suf);
    lemma_run_unnamed(run, sizes, lo, hi);
    assert(named_fields(pre) + Seq::<Field>::empty() =~= named_fields(pre));
    assert forall|i: int| 0 <= i < new.len() implies (#[trigger] new[i]).wf() && new[i].fid().0 < hi by {
        if i < p {
            assert(new[i] == pre[i]);
        } else if i < p + k {
            assert(new[i] == run[i - p]);
            assert(run[i - p] is Hex);
        } else {
            assert(new[i] == suf[i - p - k]);
            assert(old[i - k + removed] == suf[i - p - k]);
        }
    }
    assert forall|i: int, j: int| 0 <= i < j < new.len() implies new[i].fid() != new[j].fid() by {
        let oi = if i < p { i } else { i - k + removed };
        let oj = if j < p { j } else { j - k + removed };
        if i < p {
            assert(new[i] == old[i]);
        } else if i < p + k {
            assert(new[i] == run[i - p]);
            assert(run[i - p] is Hex);
        } else {
            assert(new[i] == suf[i - p - k]);
            assert(new[i] == old[oi]);
        }
        if j < p {
            assert(new[j] == old[j]);
        } else if j < p + k {
            assert(new[j] == run[j - p]);
            assert(run[j - p] is Hex);
        } else {
            assert(new[j] == suf[j - p - k]);
            assert(new[j] == old[oj]);
        }
        if p <= i < p + k && p <= j < p + k {
            assert(run[i - p].fid() != run[j - p].fid());
        }
    }
}

pub struct Class {
    pub id: ClassId,
    pub name: String,
    pub fields: Vec<Field>,
}

impl Class {
    pub open spec fn wf(&self) -> bool {
        fields_wf(self.fields@)
    }

    pub open spec fn id_spec(&self) -> ClassId {
        self.id
    }

    /// A class without fields.
    pub fn empty(id: ClassId, name: String) -> (r: Class)
        ensures
            r.wf(),
            r.id_spec() == id,
            r.name == name,
            r.fields@.len() == 0,
    {
        Class { id, name, fields: Vec::new() }
    }

    pub fn id(&self) -> (r: ClassId)
        ensures
            r == self.id_spec(),
    {
        self.id
    }

    /// Total size in bytes.
    pub fn class_size(&self) -> (r: usize)
        requires
            self.wf(),
        ensures
            r == total_size(self.fields@),
    {
        let mut total: usize = 0;
        let mut i: usize = 0;
        while i < self.fields.len()
            invariant
                fields_wf(self.fields@),
                i <= self.fields@.len(),
                total == total_size(self.fields@.subrange(0, i as int)),
            decreases self.fields@.len() - i,
        {
            proof {
                let s = self.fields@;
                assert(s.subrange(0, i + 1).drop_last() =~= s.subrange(0, i as int));
                lemma_total_size_append(s.subrange(0, i + 1), s.subrange(i + 1, s.len() as int));
                assert(s =~= s.subrange(0, i + 1) + s.subrange(i + 1, s.len() as int));
                lemma_total_size_nonneg(s.subrange(i + 1, s.len() as int));
            }
            total = total + self.fields[i].field_size();
            i = i + 1;
        }
        proof {
            assert(self.fields@.subrange(0, i as int) =~= self.fields@);
        }
        total
    }

    pub fn field_len(&self) -> (r: usize)
        ensures
            r == self.fields@.len(),
    {
        self.fields.len()
    }

    /// The position of the first field with id `field_id`.
    pub fn field_pos(&self, field_id: FieldId) -> (r: Option<usize>)
        ensures
            r is None <==> !has_id(self.fields@, field_id),
            r matches Some(i) ==> i < self.fields@.len() && self.fields@[i as int].fid() == field_id
                && forall|j: int| 0 <= j < i ==> (#[trigger] self.fields@[j]).fid() != field_id,
    {
        let mut i: usize = 0;
        while i < self.fields.len()
            invariant
                i <= self.fields@.len(),
                forall|j: int| 0 <= j < i ==> (#[trigger] self.fields@[j]).fid() != field_id,
            decreases self.fields@.len() - i,
        {
            if self.fields[i].id() == field_id {
                return Some(i);
            }
            i = i + 1;
        }
        None
    }

    /// Replaces the `removed` fields at `pos` by `n` bytes of padding, with
    /// the smallest unit first or last; returns the number of fields added.
    fn splice_padding(&mut self, ids: &mut FieldIdAllocator, pos: usize, removed: usize, n: usize, smallest_first: bool) -> (r: usize)
        requires
            fields_wf(old(self).fields@),
            ids_below(old(self).fields@, old(ids).next_spec()),
            pos + removed <= old(self).fields@.len(),
            old(ids).next_spec() + n <= u64::MAX,
            total_size(old(self).fields@) - total_size(old(self).fields@.subrange(pos as int, pos + removed)) + n <= usize::MAX,
        ensures
            r == pad_sizes(n as nat).len(),
            spliced(old(self).fields@, final(self).fields@, pos as int, removed as int,
                padding_order(n as nat, smallest_first), old(ids).next_spec(), final(ids).next_spec()),
            fields_wf(final(self).fields@),
            ids_below(final(self).fields@, final(ids).next_spec()),
            old(ids).next_spec() <= final(ids).next_spec(),
            final(ids).next_spec() == old(ids).next_spec() + r,
            named_fields(final(self).fields@) == named_fields(old(self).fields@.subrange(0, pos as int))
                + named_fields(old(self).fields@.subrange(pos + removed, old(self).fields@.len() as int)),
            total_size(final(self).fields@) == total_size(old(self).fields@) - total_size(
                old(self).fields@.subrange(pos as int, pos + removed)) + n,
            final(self).id_spec() == old(self).id_spec(),
            final(self).name == old(self).name,
            final(self).fields@ == old(self).fields@.subrange(0, pos as int) + padding_run(n as nat, old(ids).next_spec(),
                smallest_first) + old(self).fields@.subrange(pos + removed, old(self).fields@.len() as int),
    {
        let ghost old_fields = self.fields@;
        let mut tail = self.fields.split_off(pos);
        let mut rest = tail.split_off(removed);
        let pad = allocate_padding(ids, n);
        let ghost pad_seq = pad@;
        let mut run = if smallest_first { reversed(pad) } else { pad };
        let count = run.len();
        proof {
            lemma_run_reverse(pad_seq, pad_sizes(n as nat), old(ids).next_spec(), ids.next_spec());
        }
        let ghost run_seq = run@;
        self.fields.append(&mut run);
        self.fields.append(&mut rest);
        proof {
            let new = self.fields@;
            let k = count as int;
            assert(new.subrange(pos as int, pos + k) =~= run_seq);
            assert(new.subrange(0, pos as int) =~= old_fields.subrange(0, pos as int));
            assert(new.subrange(pos + k, new.len() as int) =~= old_fields.subrange(pos + removed, old_fields.len() as int));
            lemma_sum_reverse(pad_sizes(n as nat));
            crate::padding::lemma_pad_sizes(n as nat);
            lemma_spliced(old_fields, new, pos as int, removed as int, padding_order(n as nat, smallest_first),
                old(ids).next_spec(), ids.next_spec());
            assert(new =~= old_fields.subrange(0, pos as int) + padding_run(n as nat, old(ids).next_spec(), smallest_first)
                + old_fields.subrange(pos + removed, old_fields.len() as int));
        }
        count
    }

    /// Inserts `byte_count` bytes of padding just before the field
    /// `at_field_id`; returns the number of fields inserted.
    pub fn insert_bytes(&mut self, ids: &mut FieldIdAllocator, byte_count: usize, at_field_id: FieldId) -> (r: Result<usize, LayoutError>)
        requires
            fields_wf(old(self).fields@),
            ids_below(old(self).fields@, old(ids).next_spec()),
            old(ids).next_spec() + byte_count <= u64::MAX,
            total_size(old(self).fields@) + byte_count <= usize::MAX,
        ensures
            fields_wf(final(self).fields@),
            ids_below(final(self).fields@, final(ids).next_spec()),
            old(ids).next_spec() <= final(ids).next_spec() <= old(ids).next_spec() + byte_count,
            named_fields(final(self).fields@) == named_fields(old(self).fields@),
            final(self).id == old(self).id,
            final(self).name == old(self).name,
            !has_id(old(self).fields@, at_field_id) ==> r == Err::<usize, LayoutError>(LayoutError::FieldNotFound)
                && final(self).fields@ == old(self).fields@ && final(ids).next_spec() == old(ids).next_spec(),
            has_id(old(self).fields@, at_field_id) ==> r == Ok::<usize, LayoutError>(pad_sizes(byte_count as nat).len() as usize)
                && spliced(old(self).fields@, final(self).fields@, index_of(old(self).fields@, at_field_id), 0,
                    padding_order(byte_count as nat, true), old(ids).next_spec(), final(ids).next_spec())
                && final(self).fields@ == insert_spec(old(self).fields@, byte_count as nat, index_of(old(self).fields@, at_field_id), old(ids).next_spec())
                && final(ids).next_spec() == old(ids).next_spec() + pad_sizes(byte_count as nat).len()
                && total_size(final(self).fields@) == total_size(old(self).fields@) + byte_count,
    {
        let pos = match self.field_pos(at_field_id) {
            Some(p) => p,
            None => return Err(LayoutError::FieldNotFound),
        };
        proof {
            lemma_index_of(self.fields@, at_field_id, pos as int);
            assert(self.fields@.subrange(pos as int, pos as int) =~= Seq::<Field>::empty());
            lemma_named_split(self.fields@, pos as int, pos as int);
        }
        proof {
            crate::padding::lemma_pad_sizes_count_bound(byte_count as nat);
        }
        let count = self.splice_padding(ids, pos, 0, byte_count, true);
        Ok(count)
    }

    /// Adds `byte_count` bytes of padding just after the field
    /// `at_field_id`; returns the number of fields added.
    pub fn add_bytes(&mut self, ids: &mut FieldIdAllocator, byte_count: usize, at_field_id: FieldId) -> (r: Result<usize, LayoutError>)
        requires
            fields_wf(old(self).fields@),
            ids_below(old(self).fields@, old(ids).next_spec()),
            old(ids).next_spec() + byte_count <= u64::MAX,
            total_size(old(self).fields@) + byte_count <= usize::MAX,
        ensures
            fields_wf(final(self).fields@),
            ids_below(final(self).fields@, final(ids).next_spec()),
            old(ids).next_spec() <= final(ids).next_spec() <= old(ids).next_spec() + byte_count,
            named_fields(final(self).fields@) == named_fields(old(self).fields@),
            final(self).id == old(self).id,
            final(self).name == old(self).name,
            !has_id(old(self).fields@, at_field_id) ==> r == Err::<usize, LayoutError>(LayoutError::FieldNotFound)
                && final(self).fields@ == old(self).fields@ && final(ids).next_spec() == old(ids).next_spec(),
            has_id(old(self).fields@, at_field_id) ==> r == Ok::<usize, LayoutError>(pad_sizes(byte_count as nat).len() as usize)
                && spliced(old(self).fields@, final(self).fields@, index_of(old(self).fields@, at_field_id) + 1, 0,
                    padding_order(byte_count as nat, true), old(ids).next_spec(), final(ids).next_spec())
                && final(self).fields@ == insert_spec(old(self).fields@, byte_count as nat, index_of(old(self).fields@, at_field_id) + 1, old(ids).next_spec())
                && final(ids).next_spec() == old(ids).next_spec() + pad_sizes(byte_count as nat).len()
                && total_size(final(self).fields@) == total_size(old(self).fields@) + byte_count,
    {
        let pos = match self.field_pos(at_field_id) {
            Some(p) => p,
            None => return Err(LayoutError::FieldNotFound),
        };
        proof {
            lemma_index_of(self.fields@, at_field_id, pos as int);
            assert(self.fields@.subrange(pos + 1, pos + 1) =~= Seq::<Field>::empty());
            lemma_named_split(self.fields@, pos + 1, pos + 1);
        }
        let len = self.fields.len();
        assert(pos < len);
        proof {
            crate::padding::lemma_pad_sizes_count_bound(byte_count as nat);
        }
        let count = self.splice_padding(ids, pos + 1, 0, byte_count, true);
        Ok(count)
    }

    /// Removes the field `field_id`; the bytes it held are not made up for.
    pub fn remove_field_by_id(&mut self, field_id: FieldId) -> (r: Result<(), LayoutError>)
        requires
            fields_wf(old(self).fields@),
        ensures
            fields_wf(final(self).fields@),
            final(self).id == old(self).id,
            final(self).name == old(self).name,
            forall|n: u64| ids_below(old(self).fields@, n) ==> ids_below(final(self).fields@, n),
            !has_id(old(self).fields@, field_id) ==> r == Err::<(), LayoutError>(LayoutError::FieldNotFound)
                && final(self).fields@ == old(self).fields@,
            has_id(old(self).fields@, field_id) ==> r is Ok && final(self).fields@ == old(self).fields@.remove(
                index_of(old(self).fields@, field_id)),
            !(has_id(old(self).fields@, field_id) && old(self).fields@[index_of(old(self).fields@, field_id)].named())
                ==> named_fields(final(self).fields@) == named_fields(old(self).fields@),
    {
        let pos = match self.field_pos(field_id) {
            Some(p) => p,
            None => return Err(LayoutError::FieldNotFound),
        };
        proof {
            lemma_index_of(self.fields@, field_id, pos as int);
        }
        let ghost old_fields = self.fields@;
        self.fields.remove(pos);
        proof {
            lemma_remove_wf(old_fields, pos as int);
            lemma_named_split(old_fields, pos as int, pos + 1);
            let t = self.fields@;
            assert(t =~= old_fields.subrange(0, pos as int) + old_fields.subrange(pos + 1, old_fields.len() as int));
            lemma_named_fields_append(old_fields.subrange(0, pos as int), old_fields.subrange(pos + 1, old_fields.len() as int));
        }
        Ok(())
    }

    /// Replaces the field `old_id` by `new_field`, which takes over the old
    /// field's name. A smaller field leaves its spare bytes as padding just
    /// after it; a larger one takes the bytes of the fields that follow, as
    /// few as are needed, and leaves the excess as padding. When the class
    /// ends first, nothing changes.
    pub fn change_field_kind(&mut self, ids: &mut FieldIdAllocator, old_id: FieldId, new_field: Field) -> (r: Result<(), LayoutError>)
        requires
            fields_wf(old(self).fields@),
            ids_below(old(self).fields@, old(ids).next_spec()),
            new_field.wf(),
            new_field.fid().0 < old(ids).next_spec(),
            !has_id(old(self).fields@, new_field.fid()),
            old(ids).next_spec() + total_size(old(self).fields@) <= u64::MAX,
        ensures
            r is Err ==> r == Err::<(), LayoutError>(LayoutError::FieldNotFound) || r == Err::<(), LayoutError>(LayoutError::NotEnoughSpace),
            old(ids).next_spec() <= final(ids).next_spec(),
            fields_wf(final(self).fields@),
            ids_below(final(self).fields@, final(ids).next_spec()),
            final(self).id == old(self).id,
            final(self).name == old(self).name,
            !has_id(old(self).fields@, old_id) ==> r == Err::<(), LayoutError>(LayoutError::FieldNotFound)
                && final(self).fields@ == old(self).fields@,
            has_id(old(self).fields@, old_id) && steal_len(old(self).fields@, index_of(old(self).fields@, old_id), new_field.size()) < 0
                ==> r == Err::<(), LayoutError>(LayoutError::NotEnoughSpace) && final(self).fields@ == old(self).fields@,
            has_id(old(self).fields@, old_id) && steal_len(old(self).fields@, index_of(old(self).fields@, old_id), new_field.size()) > 0
                ==> r is Ok && replaced(old(self).fields@, final(self).fields@, index_of(old(self).fields@, old_id),
                    steal_len(old(self).fields@, index_of(old(self).fields@, old_id), new_field.size()), new_field,
                    old(ids).next_spec(), final(ids).next_spec()),
    {
        let pos = match self.field_pos(old_id) {
            Some(p) => p,
            None => return Err(LayoutError::FieldNotFound),
        };
        let ghost s = self.fields@;
        proof {
            lemma_index_of(s, old_id, pos as int);
        }
        let ghost given = new_field;
        let mut replacement = new_field;
        match self.fields[pos].name() {
            Some(n) => replacement.set_name(n),
            None => {},
        }
        let need = replacement.field_size();
        let len = self.fields.len();
        let mut k: usize = 1;
        proof {
            lemma_subrange_total_bound(s, pos as int, pos + 1);
            lemma_total_size_single(s[pos as int]);
            assert(s.subrange(pos as int, pos + 1) =~= seq![s[pos as int]]);
        }
        let mut steal = self.fields[pos].field_size();
        while steal < need
            invariant
                self.fields@ == s,
                fields_wf(s),
                len == s.len(),
                pos < len,
                1 <= k <= len - pos,
                steal == total_size(s.subrange(pos as int, pos + k)),
                steal_len(s, pos as int, need as int) == steal_len_from(s, pos as int, need as int, k as int),
                need == given.size(),
                given == new_field,
                s == old(self).fields@,
                has_id(s, old_id),
                index_of(s, old_id) == pos,
                ids.next_spec() == old(ids).next_spec(),
                ids_below(s, ids.next_spec()),
            decreases len - pos - k,
        {
            if pos + k >= len {
                proof {
                    assert(steal_len_from(s, pos as int, need as int, k as int + 1) == -1);
                    assert(steal_len_from(s, pos as int, need as int, k as int) == -1);
                    assert(steal_len(s, pos as int, need as int) == -1);
                    assert(steal_len(old(self).fields@, index_of(old(self).fields@, old_id), given.size()) == -1);
                }
                return Err(LayoutError::NotEnoughSpace);
            }
            proof {
                let t = s.subrange(pos as int, pos + k + 1);
                assert(t.drop_last() =~= s.subrange(pos as int, pos + k));
                lemma_subrange_total_bound(s, pos as int, pos + k + 1);
            }
            steal = steal + self.fields[pos + k].field_size();
            k = k + 1;
        }
        proof {
            lemma_subrange_total_bound(s, pos as int, pos + k);
        }
        self.put_in_place(ids, pos, k, steal, replacement);
        Ok(())
    }

    /// Puts `field` in place of the `k` fields at `pos`, which hold `steal`
    /// bytes, and pads the bytes that it leaves.
    fn put_in_place(&mut self, ids: &mut FieldIdAllocator, pos: usize, k: usize, steal: usize, replacement: Field)
        requires
            fields_wf(old(self).fields@),
            ids_below(old(self).fields@, old(ids).next_spec()),
            1 <= k,
            pos + k <= old(self).fields@.len(),
            steal == total_size(old(self).fields@.subrange(pos as int, pos + k)),
            replacement.wf(),
            replacement.size() <= steal,
            replacement.fid().0 < old(ids).next_spec(),
            !has_id(old(self).fields@, replacement.fid()),
            old(ids).next_spec() + total_size(old(self).fields@) <= u64::MAX,
        ensures
            old(ids).next_spec() <= final(ids).next_spec(),
            fields_wf(final(self).fields@),
            ids_below(final(self).fields@, final(ids).next_spec()),
            final(self).id == old(self).id,
            final(self).name == old(self).name,
            run_replaced(old(self).fields@, final(self).fields@, pos as int, k as int, replacement.size(),
                old(ids).next_spec(), final(ids).next_spec()),
            final(self).fields@[pos as int] == replacement,
    {
        let ghost s = self.fields@;
        let need = replacement.field_size();
        proof {
            lemma_subrange_total_bound(s, pos as int, pos + k);
            lemma_total_size_nonneg(s.subrange(pos as int, pos + k));
            lemma_total_size_nonneg(s.subrange(0, pos as int));
            lemma_total_size_nonneg(s.subrange(pos + k, s.len() as int));
            assert(s =~= s.subrange(0, pos as int) + s.subrange(pos as int, pos + k) + s.subrange(pos + k, s.len() as int));
            lemma_total_size_append(s.subrange(0, pos as int), s.subrange(pos as int, pos + k));
            lemma_total_size_append(s.subrange(0, pos as int) + s.subrange(pos as int, pos + k), s.subrange(pos + k, s.len() as int));
        }
        self.splice_padding(ids, pos, k, steal - need, false);
        let ghost mid = self.fields@;
        proof {
            let m = pad_sizes((steal - need) as nat).len();
            assert forall|i: int| 0 <= i < mid.len() implies (#[trigger] mid[i]).fid() != replacement.fid() by {
                if i < pos {
                    assert(mid[i] == mid.subrange(0, pos as int)[i]);
                    assert(mid[i] == s[i]);
                } else if i < pos + m {
                    assert(mid[i] == mid.subrange(pos as int, pos + m)[i - pos]);
                    assert(mid.subrange(pos as int, pos + m)[i - pos] is Hex);
                } else {
                    assert(mid[i] == mid.subrange(pos + m, mid.len() as int)[i - pos - m]);
                    assert(mid[i] == s[i - m + k]);
                }
            }
        }
        self.fields.insert(pos, replacement);
        proof {
            lemma_insert_wf(mid, pos as int, replacement, ids.next_spec());
            let f = self.fields@;
            let m = pad_sizes((steal - need) as nat).len();
            assert(f.subrange(0, pos as int) =~= mid.subrange(0, pos as int));
            assert(f.subrange(pos + 1, pos + 1 + m) =~= mid.subrange(pos as int, pos + m));
            assert(f.subrange(pos + 1 + m, f.len() as int) =~= mid.subrange(pos + m, mid.len() as int));
            lemma_total_size_single(replacement);
        }
    }

    /// How many fields after `start` the field there absorbs to gain at
    /// least `missing` bytes, and the bytes they hold.
    fn absorb_plan(&self, start: usize, missing: usize) -> (r: Option<(usize, usize)>)
        requires
            fields_wf(self.fields@),
            start < self.fields@.len(),
        ensures
            absorb_len(self.fields@, start as int, missing as int) <= 0 ==> r is None,
            absorb_len(self.fields@, start as int, missing as int) > 0 ==> (r matches Some((k, stolen)) && k
                == absorb_len(self.fields@, start as int, missing as int) && stolen == total_size(
                self.fields@.subrange(start + 1, start + 1 + k))),
    {
        let ghost s = self.fields@;
        let len = self.fields.len();
        let mut j: usize = 1;
        let mut stolen: usize = 0;
        proof {
            assert(s.subrange(start + 1, start + 1) =~= Seq::<Field>::empty());
        }
        while start + j < len
            invariant
                s == self.fields@,
                fields_wf(s),
                len == s.len(),
                start < len,
                1 <= j <= len - start,
                stolen == total_size(s.subrange(start + 1, start + j)),
                absorb_len(s, start as int, missing as int) == absorb_len_from(s, start as int, missing as int, j as int),
            decreases len - start - j,
        {
            if self.fields[start + j].had_name() {
                return None;
            }
            proof {
                let t = s.subrange(start + 1, start + j + 1);
                assert(t.drop_last() =~= s.subrange(start + 1, start + j));
                lemma_subrange_total_bound(s, start + 1, start + j + 1);
            }
            stolen = stolen + self.fields[start + j].field_size();
            if stolen >= missing {
                return Some((j, stolen));
            }
            j = j + 1;
        }
        None
    }

    /// Coalesces the unnamed field at `start_field_pos` with the unnamed
    /// fields after it, so that its size reaches the next multiple of 8, or
    /// failing that of 4; the bytes joined are cut into padding anew. When a
    /// named field or the end of the class comes first, nothing changes.
    #[verifier::rlimit(40)]
    pub fn merge_hex_field(&mut self, ids: &mut FieldIdAllocator, start_field_pos: usize)
        requires
            fields_wf(old(self).fields@),
            ids_below(old(self).fields@, old(ids).next_spec()),
            old(ids).next_spec() + total_size(old(self).fields@) <= u64::MAX,
        ensures
            fields_wf(final(self).fields@),
            ids_below(final(self).fields@, final(ids).next_spec()),
            old(ids).next_spec() <= final(ids).next_spec() <= old(ids).next_spec() + total_size(old(self).fields@),
            final(self).id == old(self).id,
            final(self).name == old(self).name,
            total_size(final(self).fields@) == total_size(old(self).fields@),
            named_fields(final(self).fields@) == named_fields(old(self).fields@),
            (final(self).fields@, final(ids).next_spec()) == merge_spec(old(self).fields@, start_field_pos as int, old(ids).next_spec()),
            match merge_plan(old(self).fields@, start_field_pos as int) {
                Some(k) => spliced(old(self).fields@, final(self).fields@, start_field_pos as int, 1 + k,
                    padding_order(total_size(old(self).fields@.subrange(start_field_pos as int, start_field_pos + 1 + k)) as nat, true),
                    old(ids).next_spec(), final(ids).next_spec()),
                None => final(self).fields@ == old(self).fields@,
            },
    {
        let ghost s = self.fields@;
        proof {
            lemma_total_size_nonneg(s);
        }
        let len = self.fields.len();
        if start_field_pos >= len || start_field_pos + 1 >= len {
            return;
        }
        if self.fields[start_field_pos].had_name() {
            return;
        }
        let size = self.fields[start_field_pos].field_size();
        let mut plan: Option<(usize, usize)> = None;
        if size % 8 != 0 {
            plan = self.absorb_plan(start_field_pos, 8 - size % 8);
        }
        if plan.is_none() && size % 4 != 0 {
            plan = self.absorb_plan(start_field_pos, 4 - size % 4);
        }
        match plan {
            None => {},
            Some((k, stolen)) => {
                proof {
                    lemma_absorb_bounds(s, start_field_pos as int, 8 - size % 8, 1);
                    lemma_absorb_bounds(s, start_field_pos as int, 4 - size % 4, 1);
                    let a = s.subrange(start_field_pos as int, start_field_pos + 1 + k);
                    assert(a =~= seq![s[start_field_pos as int]] + s.subrange(start_field_pos + 1, start_field_pos + 1 + k));
                    lemma_total_size_append(seq![s[start_field_pos as int]], s.subrange(start_field_pos + 1, start_field_pos + 1 + k));
                    lemma_total_size_single(s[start_field_pos as int]);
                    lemma_subrange_total_bound(s, start_field_pos as int, start_field_pos + 1 + k);
                    lemma_subrange_total_bound(s, start_field_pos + 1, start_field_pos + 1 + k);
                }
                proof {
                    lemma_absorb_unnamed(s, start_field_pos as int, 8 - size % 8, 1);
                    lemma_absorb_unnamed(s, start_field_pos as int, 4 - size % 4, 1);
                    assert(!s[start_field_pos as int].named());
                    lemma_named_split(s, start_field_pos as int, start_field_pos + 1 + k);
                }
                self.splice_padding(ids, start_field_pos, 1 + k, size + stolen, true);
                proof {
                    crate::padding::lemma_pad_sizes((size + stolen) as nat);
                    crate::padding::lemma_pad_sizes_count_bound((size + stolen) as nat);
                }
            },
        }
    }

    /// Aligns the class: walking the fields with their running offset, a
    /// field that does not start at a multiple of 4 gets padding before it,
    /// taken from the unnamed field after it when that one is large enough;
    /// a field followed by a named one is passed over together with it.
    /// Then the padding is coalesced by a merge at every position. No byte
    /// is added or lost. The result is exactly what `walk` and `merge_pass`
    /// give; where the ids left would not suffice, a split is skipped and
    /// the merges stop, which takes some 2^64 ids to happen.
    #[verifier::rlimit(100)]
    pub fn align_hex_fields(&mut self, ids: &mut FieldIdAllocator)
        requires
            fields_wf(old(self).fields@),
            ids_below(old(self).fields@, old(ids).next_spec()),
        ensures
            old(ids).next_spec() <= final(ids).next_spec(),
            fields_wf(final(self).fields@),
            ids_below(final(self).fields@, final(ids).next_spec()),
            total_size(final(self).fields@) == total_size(old(self).fields@),
            named_fields(final(self).fields@) == named_fields(old(self).fields@),
            aligned(old(self).fields@, final(self).fields@, old(ids).next_spec(), final(ids).next_spec()),
            final(self).id == old(self).id,
            final(self).name == old(self).name,
    {
        let ghost total = total_size(self.fields@);
        let ghost named = named_fields(self.fields@);
        let ghost s0 = self.fields@;
        let ghost n0 = ids.next_spec();
        let ghost mut steps: nat = 0;
        let mut iter_pos: usize = 0;
        let mut offset: usize = 0;
        proof {
            assert(self.fields@.subrange(0, 0) =~= Seq::<Field>::empty());
        }
        while self.fields.len() > 0 && iter_pos < self.fields.len() - 1
            invariant
                fields_wf(self.fields@),
                ids_below(self.fields@, ids.next_spec()),
                total_size(self.fields@) == total,
                iter_pos <= self.fields@.len(),
                offset == total_size(self.fields@.subrange(0, iter_pos as int)),
                named_fields(self.fields@) == named,
                old(ids).next_spec() <= ids.next_spec(),
                self.id == old(self).id,
                self.name == old(self).name,
                forall|f: nat| #[trigger] walk(self.fields@, iter_pos as int, offset as int, ids.next_spec(), f) == walk(s0, 0, 0, n0, f + steps),
                s0 == old(self).fields@,
                n0 == old(ids).next_spec(),
            decreases total - offset, self.fields@.len() - iter_pos,
        {
            let ghost it = iter_pos as int;
            let ghost off = offset as int;
            let ghost old_s = self.fields@;
            let ghost old_n = ids.next_spec();
            let (ni, no) = self.align_step(ids, iter_pos, offset, Ghost(total));
            proof {
                assert forall|f: nat| #[trigger] walk(self.fields@, ni as int, no as int, ids.next_spec(), f) == walk(s0, 0, 0, n0, f + steps + 1) by {
                    assert(walk(self.fields@, ni as int, no as int, ids.next_spec(), f) == walk(old_s, it, off, old_n, f + 1));
                }
                steps = steps + 1;
            }
            iter_pos = ni;
            offset = no;
        }
        let ghost mid = self.fields@;
        let ghost nmid = ids.next_spec();
        let ghost f1: nat = steps + 1;
        proof {
            assert(walk(mid, iter_pos as int, offset as int, nmid, 1) == walk(s0, 0, 0, n0, 1 + steps));
            assert(walk(s0, 0, 0, n0, f1) == Some((mid, nmid)));
        }
        let ghost mut steps2: nat = 0;
        let mut i: usize = 0;
        proof {
            assert(self.fields@.subrange(0, 0) =~= Seq::<Field>::empty());
        }
        while i < self.fields.len() && (ids.available() as u128) >= (total_size_exec(&self.fields) as u128)
            invariant
                fields_wf(self.fields@),
                ids_below(self.fields@, ids.next_spec()),
                total_size(self.fields@) == total,
                named_fields(self.fields@) == named,
                old(ids).next_spec() <= ids.next_spec(),
                i <= self.fields@.len(),
                self.id == old(self).id,
                self.name == old(self).name,
                forall|f: nat| #[trigger] merge_pass(self.fields@, i as int, ids.next_spec(), f) == merge_pass(mid, 0, nmid, f + steps2),
                walk(s0, 0, 0, n0, f1) == Some((mid, nmid)),
                s0 == old(self).fields@,
                n0 == old(ids).next_spec(),
            decreases total - total_size(self.fields@.subrange(0, i as int)), self.fields@.len() - i,
        {
            let ghost s = self.fields@;
            let ghost nx = ids.next_spec();
            proof {
                lemma_subrange_total_bound(s, 0, i as int);
                lemma_subrange_total_bound(s, 0, i + 1);
                lemma_prefix_step(s, i as int);
            }
            self.merge_hex_field(ids, i);
            proof {
                let t = self.fields@;
                match merge_plan(s, i as int) {
                    Some(k) => {
                        let n = total_size(s.subrange(i as int, i + 1 + k));
                        let sz = s[i as int].size();
                        lemma_absorb_bounds(s, i as int, 8 - sz % 8, 1);
                        lemma_absorb_bounds(s, i as int, 4 - sz % 4, 1);
                        assert(s.subrange(i as int, i + 1 + k) =~= seq![s[i as int]] + s.subrange(i + 1, i + 1 + k));
                        lemma_total_size_append(seq![s[i as int]], s.subrange(i + 1, i + 1 + k));
                        lemma_total_size_single(s[i as int]);
                        crate::padding::lemma_pad_sizes(n as nat);
                        assert(t.subrange(0, i as int) =~= s.subrange(0, i as int));
                        assert(pad_sizes(n as nat).len() >= 1);
                        let run = t.subrange(i as int, i + pad_sizes(n as nat).len());
                        assert(run[0] == t[i as int]);
                        assert(t[i as int].size() == pad_sizes(n as nat).reverse()[0]);
                        assert(crate::padding::unit_size(pad_sizes(n as nat)[pad_sizes(n as nat).len() - 1]));
                        lemma_prefix_step(t, i as int);
                        lemma_subrange_total_bound(t, 0, i + 1);
                    },
                    None => {
                        lemma_prefix_step(t, i as int);
                        lemma_subrange_total_bound(t, 0, i + 1);
                    },
                }
            }
            i = i + 1;
            proof {
                assert forall|f: nat| #[trigger] merge_pass(self.fields@, i as int, ids.next_spec(), f) == merge_pass(mid, 0, nmid, f + steps2 + 1) by {
                    assert(merge_pass(s, i - 1, nx, f + 1) == merge_pass(mid, 0, nmid, (f + 1) + steps2));
                }
                steps2 = steps2 + 1;
            }
        }
        proof {
            assert(merge_pass(self.fields@, i as int, ids.next_spec(), 1) == merge_pass(mid, 0, nmid, 1 + steps2));
            assert(align_spec(s0, n0, f1, 1 + steps2) == Some((self.fields@, ids.next_spec())));
        }
    }

    /// One step of the first alignment pass at field `iter_pos`, which
    /// starts at byte `offset`; gives where the walk goes on.
    #[verifier::rlimit(100)]
    fn align_step(&mut self, ids: &mut FieldIdAllocator, iter_pos: usize, offset: usize, total: Ghost<int>) -> (r: (usize, usize))
        requires
            fields_wf(old(self).fields@),
            ids_below(old(self).fields@, old(ids).next_spec()),
            total_size(old(self).fields@) == total@,
            old(self).fields@.len() > 0,
            iter_pos < old(self).fields@.len() - 1,
            offset == total_size(old(self).fields@.subrange(0, iter_pos as int)),
        ensures
            fields_wf(final(self).fields@),
            ids_below(final(self).fields@, final(ids).next_spec()),
            total_size(final(self).fields@) == total@,
            r.0 <= final(self).fields@.len(),
            r.1 == total_size(final(self).fields@.subrange(0, r.0 as int)),
            r.1 <= total@,
            named_fields(final(self).fields@) == named_fields(old(self).fields@),
            old(ids).next_spec() <= final(ids).next_spec(),
            final(self).id == old(self).id,
            final(self).name == old(self).name,
            r.1 > offset || (r.1 == offset && final(self).fields@.len() - r.0 < old(self).fields@.len() - iter_pos),
            forall|f: nat| #[trigger] walk(final(self).fields@, r.0 as int, r.1 as int, final(ids).next_spec(), f) == walk(
                old(self).fields@, iter_pos as int, offset as int, old(ids).next_spec(), f + 1),
    {
        let ghost s = self.fields@;
        let ghost it = iter_pos as int;
        let ghost off = offset as int;
        let ghost nx = ids.next_spec();
        let mut offset = offset;
        let mut iter_pos = iter_pos;
        proof {
            lemma_prefix_step(s, iter_pos as int);
            lemma_prefix_step(s, iter_pos + 1);
            lemma_subrange_total_bound(s, 0, iter_pos + 2);
        }
        let len = self.fields.len();
        assert(iter_pos + 1 < len);
        proof {
            lemma_subrange_total_bound(s, 0, iter_pos + 2);
        }
        let field_size = self.fields[iter_pos].field_size();
        let next_size = self.fields[iter_pos + 1].field_size();
        if self.fields[iter_pos + 1].had_name() {
            offset = offset + field_size + next_size;
            iter_pos = iter_pos + 2;
            return (iter_pos, offset);
        }
        if offset % 4 == 0 {
            offset = offset + field_size;
            iter_pos = iter_pos + 1;
            return (iter_pos, offset);
        }
        let missing = 4 - offset % 4;
        if missing < next_size && ids.available() >= next_size as u64 {
            let steal = next_size - missing;
            let field_id = self.fields[iter_pos].id();
            let next_id = self.fields[iter_pos + 1].id();
            proof {
                lemma_index_of(s, next_id, iter_pos + 1);
            }
            let _ = self.remove_field_by_id(next_id);
            let ghost s1 = self.fields@;
            proof {
                lemma_remove_wf(s, iter_pos + 1);
                assert(s1[iter_pos as int] == s[iter_pos as int]);
                lemma_index_of(s1, field_id, iter_pos as int);
                assert(s1.subrange(0, iter_pos as int) =~= s.subrange(0, iter_pos as int));
            }
            let ghost n0 = ids.next_spec();
            proof {
                assert(s1[iter_pos as int].fid() == field_id);
                assert(has_id(s1, field_id));
            }
            let added = match self.insert_bytes(ids, missing, field_id) {
                Ok(n) => n,
                Err(_) => 0,
            };
            let ghost s2 = self.fields@;
            proof {
                let run = padding_order(missing as nat, true);
                crate::padding::lemma_pad_sizes_count_bound(missing as nat);
                assert(run.len() == added);
                assert(s2.subrange(iter_pos + added, s2.len() as int) == s1.subrange(iter_pos as int, s1.len() as int));
                assert(s2[iter_pos + added] == s2.subrange(iter_pos + added, s2.len() as int)[0]);
                assert(s1[iter_pos as int] == s1.subrange(iter_pos as int, s1.len() as int)[0]);
                lemma_index_of(s2, field_id, iter_pos + added);
                crate::padding::lemma_pad_sizes_count_bound(missing as nat);
                crate::padding::lemma_pad_sizes(missing as nat);
                lemma_sum_reverse(pad_sizes(missing as nat));
                lemma_run_total(s2.subrange(iter_pos as int, iter_pos + added), run, n0, ids.next_spec());
                assert(s2.subrange(0, iter_pos + added) =~= s2.subrange(0, iter_pos as int) + s2.subrange(iter_pos as int, iter_pos + added));
                lemma_total_size_append(s2.subrange(0, iter_pos as int), s2.subrange(iter_pos as int, iter_pos + added));
                lemma_subrange_total_bound(s, iter_pos + 1, iter_pos + 2);
            }
            let ghost n2 = ids.next_spec();
            let _ = self.add_bytes(ids, steal, field_id);
            proof {
                let s3 = self.fields@;
                assert(s3.subrange(0, iter_pos + added) =~= s2.subrange(0, iter_pos + added));
            }
            offset = offset + missing;
            iter_pos = iter_pos + added;
            proof {
                assert(n2 == nx + added);
            }
        } else {
            offset = offset + field_size;
            iter_pos = iter_pos + 1;
        }
        (iter_pos, offset)
    }

    /// A class holding one field of each kind and width, as a starting point.
    pub fn new(ids: &mut FieldIdAllocator, id: ClassId, name: String) -> (r: Class)
        requires
            old(ids).next_spec() + 32 <= u64::MAX,
        ensures
            r.wf(),
            ids_below(r.fields@, final(ids).next_spec()),
            final(ids).next_spec() == old(ids).next_spec() + 21,
            total_size(r.fields@) <= 336,
            r.id == id,
            r.name == name,
            r.fields@.len() == 21,
    {
        let fields = create_dummy_fields(ids);
        Class { id, name, fields }
    }

    /// Appends a field with a fresh id at the end.
    pub fn add_field(&mut self, ids: &FieldIdAllocator, field: Field)
        requires
            fields_wf(old(self).fields@),
            ids_below(old(self).fields@, ids.next_spec()),
            field.wf(),
            field.fid().0 < ids.next_spec(),
            !has_id(old(self).fields@, field.fid()),
            total_size(old(self).fields@) + field.size() <= usize::MAX,
        ensures
            fields_wf(final(self).fields@),
            ids_below(final(self).fields@, ids.next_spec()),
            final(self).fields@ == old(self).fields@.push(field),
            total_size(final(self).fields@) == total_size(old(self).fields@) + field.size(),
            final(self).id == old(self).id,
            final(self).name == old(self).name,
    {
        let ghost s = self.fields@;
        self.fields.push(field);
        proof {
            assert(s.insert(s.len() as int, field) =~= s.push(field));
            lemma_insert_wf(s, s.len() as int, field, ids.next_spec());
        }
    }
}

/// One field of each kind and width: hex of 1 to 8 bytes, a float, a
/// boolean, the integers, the vectors and the texts.
fn create_dummy_fields(ids: &mut FieldIdAllocator) -> (r: Vec<Field>)
    requires
        old(ids).next_spec() + 32 <= u64::MAX,
    ensures
        fields_wf(r@),
        ids_below(r@, final(ids).next_spec()),
        final(ids).next_spec() == old(ids).next_spec() + 21,
        r@.len() == 21,
        total_size(r@) <= 336,
{
    proof {
        assert(total_size(Seq::<Field>::empty()) == 0);
    }
    let mut v: Vec<Field> = Vec::new();
    push_fresh(&mut v, Field::Hex(HexField::new(ids, 8)));
    push_fresh(&mut v, Field::Hex(HexField::new(ids, 16)));
    push_fresh(&mut v, Field::Hex(HexField::new(ids, 32)));
    push_fresh(&mut v, Field::Hex(HexField::new(ids, 64)));
    push_fresh(&mut v, Field::Float(FloatField::new(ids, 32, crate::field::float_name(32))));
    push_fresh(&mut v, Field::Bool(BoolField::default_named(ids)));
    push_fresh(&mut v, Field::Int(IntField::signed_default(ids, 8)));
    push_fresh(&mut v, Field::Int(IntField::signed_default(ids, 16)));
    push_fresh(&mut v, Field::Int(IntField::signed_default(ids, 32)));
    push_fresh(&mut v, Field::Int(IntField::signed_default(ids, 64)));
    push_fresh(&mut v, Field::Int(IntField::unsigned_default(ids, 8)));
    push_fresh(&mut v, Field::Int(IntField::unsigned_default(ids, 16)));
    push_fresh(&mut v, Field::Int(IntField::unsigned_default(ids, 32)));
    push_fresh(&mut v, Field::Int(IntField::unsigned_default(ids, 64)));
    push_fresh(&mut v, Field::Vector(VectorField::new(ids, 2, crate::field::vector_name(2))));
    push_fresh(&mut v, Field::Vector(VectorField::new(ids, 3, crate::field::vector_name(3))));
    push_fresh(&mut v, Field::Vector(VectorField::new(ids, 4, crate::field::vector_name(4))));
    push_fresh(&mut v, Field::Text(TextField::new(ids, false, crate::field::text_name(false, false))));
    push_fresh(&mut v, Field::Text(TextField::new(ids, true, crate::field::text_name(true, false))));
    push_fresh(&mut v, Field::PointerText(PointerTextField::new(ids, false, crate::field::text_name(false, true))));
    push_fresh(&mut v, Field::PointerText(PointerTextField::new(ids, true, crate::field::text_name(true, true))));
    v
}

/// Appends a field whose id is above every id in `v`.
fn push_fresh(v: &mut Vec<Field>, f: Field)
    requires
        fields_wf(old(v)@),
        ids_below(old(v)@, f.fid().0),
        f.fid().0 < u64::MAX,
        f.wf(),
        0 <= f.size() <= 16,
        total_size(old(v)@) <= 16 * old(v)@.len(),
        old(v)@.len() < 64,
    ensures
        fields_wf(final(v)@),
        ids_below(final(v)@, (f.fid().0 + 1) as u64),
        final(v)@ == old(v)@.push(f),
        total_size(final(v)@) <= 16 * final(v)@.len(),
{
    let ghost s = v@;
    v.push(f);
    proof {
        assert(s.insert(s.len() as int, f) =~= s.push(f));
        assert(ids_below(s, (f.fid().0 + 1) as u64));
        lemma_insert_wf(s, s.len() as int, f, (f.fid().0 + 1) as u64);
    }
}

/// The first pass of the alignment: walking from field `iter` at byte
/// `offset`, a field that does not start at a multiple of 4 gets padding
/// before it, taken from the unnamed field after it when that one holds
/// more bytes than are missing (and ids remain); a field followed by a
/// named one is passed over together with it. Gives the fields and the
/// next id, or `None` when `fuel` runs out.
pub open spec fn walk(s: Seq<Field>, iter: int, offset: int, next: u64, fuel: nat) -> Option<(Seq<Field>, u64)>
    decreases fuel,
{
    if fuel == 0 {
        None
    } else if !(s.len() > 0 && 0 <= iter < s.len() - 1) {
        Some((s, next))
    } else if s[iter + 1].named() {
        walk(s, iter + 2, offset + s[iter].size() + s[iter + 1].size(), next, (fuel - 1) as nat)
    } else if offset % 4 == 0 {
        walk(s, iter + 1, offset + s[iter].size(), next, (fuel - 1) as nat)
    } else {
        let missing = 4 - offset % 4;
        if missing < s[iter + 1].size() && u64::MAX - next >= s[iter + 1].size() {
            let steal = s[iter + 1].size() - missing;
            let s1 = s.remove(iter + 1);
            let s2 = insert_spec(s1, missing as nat, iter, next);
            let a = pad_sizes(missing as nat).len();
            let n2 = (next + a) as u64;
            let s3 = insert_spec(s2, steal as nat, iter + a + 1, n2);
            walk(s3, iter + a, offset + missing, (n2 + pad_sizes(steal as nat).len()) as u64, (fuel - 1) as nat)
        } else {
            walk(s, iter + 1, offset + s[iter].size(), next, (fuel - 1) as nat)
        }
    }
}

/// The second pass of the alignment: a merge at every position from `i`
/// on, while ids for the whole class remain.
pub open spec fn merge_pass(s: Seq<Field>, i: int, next: u64, fuel: nat) -> Option<(Seq<Field>, u64)>
    decreases fuel,
{
    if fuel == 0 {
        None
    } else if i >= s.len() || u64::MAX - next < total_size(s) {
        Some((s, next))
    } else {
        let (t, n) = merge_spec(s, i, next);
        merge_pass(t, i + 1, n, (fuel - 1) as nat)
    }
}

/// Both passes of the alignment, with the fuel `f1` and `f2`.
pub open spec fn align_spec(s: Seq<Field>, next: u64, f1: nat, f2: nat) -> Option<(Seq<Field>, u64)> {
    match walk(s, 0, 0, next, f1) {
        Some((mid, n)) => merge_pass(mid, 0, n, f2),
        None => None,
    }
}

/// `new` and `n1` are what aligning `old` with ids from `n0` gives; every
/// byte and the named fields in their order are kept.
pub open spec fn aligned(old: Seq<Field>, new: Seq<Field>, n0: u64, n1: u64) -> bool {
    &&& fields_wf(new)
    &&& total_size(new) == total_size(old)
    &&& named_fields(new) == named_fields(old)
    &&& exists|f1: nat, f2: nat| #[trigger] align_spec(old, n0, f1, f2) == Some((new, n1))
}

/// Adding one field to a prefix adds its size.
proof fn lemma_prefix_step(s: Seq<Field>, i: int)
    requires
        0 <= i < s.len(),
    ensures
        total_size(s.subrange(0, i + 1)) == total_size(s.subrange(0, i)) + s[i].size(),
{
    assert(s.subrange(0, i + 1).drop_last() =~= s.subrange(0, i));
}

/// The total size of `v`, computed; `usize::MAX` stands for any larger sum.
fn total_size_exec(v: &Vec<Field>) -> (r: usize)
    requires
        fields_wf(v@),
    ensures
        r == total_size(v@),
{
    let mut total: usize = 0;
    let mut i: usize = 0;
    while i < v.len()
        invariant
            fields_wf(v@),
            i <= v@.len(),
            total == total_size(v@.subrange(0, i as int)),
        decreases v@.len() - i,
    {
        proof {
            lemma_prefix_step(v@, i as int);
            lemma_subrange_total_bound(v@, 0, i + 1);
        }
        total = total + v[i].field_size();
        i = i + 1;
    }
    proof {
        assert(v@.subrange(0, i as int) =~= v@);
    }
    total
}

/// The number of fields from `pos` on whose bytes a field of `need` bytes
/// takes: the fewest, at least one, that hold enough; -1 if the class ends
/// first.
pub open spec fn steal_len(s: Seq<Field>, pos: int, need: int) -> int {
    steal_len_from(s, pos, need, 1)
}

pub open spec fn steal_len_from(s: Seq<Field>, pos: int, need: int, k: int) -> int
    decreases s.len() + 1 - pos - k,
{
    if pos + k > s.len() || k <= 0 {
        -1
    } else if total_size(s.subrange(pos, pos + k)) >= need {
        k
    } else {
        steal_len_from(s, pos, need, k + 1)
    }
}

/// `new` is `old` with the `k` fields at `p` replaced by one field of
/// `size` bytes at `p` and then padding of the bytes left over, largest
/// unit first, whose ids lie in `lo..hi`.
pub open spec fn run_replaced(old: Seq<Field>, new: Seq<Field>, p: int, k: int, size: int, lo: u64, hi: u64) -> bool {
    let spare = total_size(old.subrange(p, p + k)) - size;
    let m = pad_sizes(spare as nat).len();
    &&& 0 <= p && 1 <= k && p + k <= old.len()
    &&& spare >= 0
    &&& new.len() == old.len() - k + 1 + m
    &&& new.subrange(0, p) == old.subrange(0, p)
    &&& new[p].size() == size
    &&& is_padding_run(new.subrange(p + 1, p + 1 + m), pad_sizes(spare as nat), lo, hi)
    &&& new.subrange(p + 1 + m, new.len() as int) == old.subrange(p + k, old.len() as int)
    &&& total_size(new) == total_size(old)
}

/// As `run_replaced`, the field at `p` being `f`, renamed to the old
/// field's name where both kinds carry one.
pub open spec fn replaced(old: Seq<Field>, new: Seq<Field>, p: int, k: int, f: Field, lo: u64, hi: u64) -> bool {
    &&& run_replaced(old, new, p, k, f.size(), lo, hi)
    &&& new[p].fid() == f.fid() && (new[p] is Hex) == (f is Hex)
    &&& (if old[p].name_spec() is Some && f.name_spec() is Some {
        new[p].name_spec() == old[p].name_spec()
    } else {
        new[p] == f
    })
}

/// How many fields after `start` a field absorbs to gain `missing` bytes:
/// the fewest, at least one, all unnamed; -1 when a named field or the end
/// of the class comes first.
pub open spec fn absorb_len(s: Seq<Field>, start: int, missing: int) -> int {
    absorb_len_from(s, start, missing, 1)
}

pub open spec fn absorb_len_from(s: Seq<Field>, start: int, missing: int, j: int) -> int
    decreases s.len() + 1 - start - j,
{
    if j < 1 || start + j >= s.len() || start < 0 {
        -1
    } else if s[start + j].named() {
        -1
    } else if total_size(s.subrange(start + 1, start + j + 1)) >= missing {
        j
    } else {
        absorb_len_from(s, start, missing, j + 1)
    }
}

proof fn lemma_absorb_bounds(s: Seq<Field>, start: int, missing: int, j: int)
    ensures
        absorb_len_from(s, start, missing, j) > 0 ==> j <= absorb_len_from(s, start, missing, j)
            && start + absorb_len_from(s, start, missing, j) < s.len()
            && total_size(s.subrange(start + 1, start + 1 + absorb_len_from(s, start, missing, j))) >= missing,
    decreases s.len() + 1 - start - j,
{
    if !(j < 1 || start + j >= s.len() || start < 0) && !s[start + j].named()
        && total_size(s.subrange(start + 1, start + j + 1)) < missing {
        lemma_absorb_bounds(s, start, missing, j + 1);
    }
}

proof fn lemma_absorb_unnamed(s: Seq<Field>, start: int, missing: int, j: int)
    requires
        j >= 1,
        forall|i: int| start + 1 <= i < start + j ==> !(#[trigger] s[i]).named(),
    ensures
        absorb_len_from(s, start, missing, j) > 0 ==> forall|i: int|
            start + 1 <= i < start + 1 + absorb_len_from(s, start, missing, j) ==> !(#[trigger] s[i]).named(),
    decreases s.len() + 1 - start - j,
{
    if !(j < 1 || start + j >= s.len() || start < 0) && !s[start + j].named()
        && total_size(s.subrange(start + 1, start + j + 1)) < missing {
        lemma_absorb_unnamed(s, start, missing, j + 1);
    }
}

/// How many fields after `start` the merge at `start` absorbs, if it fires:
/// the field there must be unnamed, and reaching a multiple of 8 is tried
/// before a multiple of 4.
pub open spec fn merge_plan(s: Seq<Field>, start: int) -> Option<int> {
    if start < 0 || start + 1 >= s.len() || s[start].named() {
        None
    } else {
        let size = s[start].size();
        if size % 8 != 0 && absorb_len(s, start, 8 - size % 8) > 0 {
            Some(absorb_len(s, start, 8 - size % 8))
        } else if size % 4 != 0 && absorb_len(s, start, 4 - size % 4) > 0 {
            Some(absorb_len(s, start, 4 - size % 4))
        } else {
            None
        }
    }
}

/// The named fields of `s` are those before `p`, between `p` and `q`, and
/// after `q`.
pub proof fn lemma_named_split(s: Seq<Field>, p: int, q: int)
    requires
        0 <= p <= q <= s.len(),
    ensures
        named_fields(s) == named_fields(s.subrange(0, p)) + named_fields(s.subrange(p, q)) + named_fields(
            s.subrange(q, s.len() as int),
        ),
        (forall|i: int| p <= i < q ==> !(#[trigger] s[i]).named()) ==> named_fields(s) == named_fields(
            s.subrange(0, p),
        ) + named_fields(s.subrange(q, s.len() as int)),
{
    assert(s =~= s.subrange(0, p) + s.subrange(p, q) + s.subrange(q, s.len() as int));
    lemma_named_fields_append(s.subrange(0, p), s.subrange(p, q));
    lemma_named_fields_append(s.subrange(0, p) + s.subrange(p, q), s.subrange(q, s.len() as int));
    if forall|i: int| p <= i < q ==> !(#[trigger] s[i]).named() {
        let m = s.subrange(p, q);
        assert forall|i: int| 0 <= i < m.len() implies !(#[trigger] m[i]).named() by {
            assert(m[i] == s[p + i]);
        }
        lemma_named_fields_none(m);
        assert(named_fields(s.subrange(0, p)) + Seq::<Field>::empty() =~= named_fields(s.subrange(0, p)));
    }
}

/// The bytes of a stretch of fields are at most those of all of them.
pub proof fn lemma_subrange_total_bound(s: Seq<Field>, a: int, b: int)
    requires
        0 <= a <= b <= s.len(),
    ensures
        0 <= total_size(s.subrange(a, b)) <= total_size(s),
{
    assert(s =~= s.subrange(0, a) + s.subrange(a, b) + s.subrange(b, s.len() as int));
    lemma_total_size_append(s.subrange(0, a), s.subrange(a, b));
    lemma_total_size_append(s.subrange(0, a) + s.subrange(a, b), s.subrange(b, s.len() as int));
    lemma_total_size_nonneg(s.subrange(0, a));
    lemma_total_size_nonneg(s.subrange(a, b));
    lemma_total_size_nonneg(s.subrange(b, s.len() as int));
}

/// Inserting a field with a fresh id keeps the fields well formed.
pub proof fn lemma_insert_wf(s: Seq<Field>, p: int, f: Field, n: u64)
    requires
        fields_wf(s),
        ids_below(s, n),
        0 <= p <= s.len(),
        f.wf(),
        f.fid().0 < n,
        !has_id(s, f.fid()),
        total_size(s) + f.size() <= usize::MAX,
    ensures
        fields_wf(s.insert(p, f)),
        ids_below(s.insert(p, f), n),
        total_size(s.insert(p, f)) == total_size(s) + f.size(),
{
    let t = s.insert(p, f);
    assert(t =~= s.subrange(0, p) + seq![f] + s.subrange(p, s.len() as int));
    assert(s =~= s.subrange(0, p) + s.subrange(p, s.len() as int));
    lemma_total_size_append(s.subrange(0, p), seq![f]);
    lemma_total_size_append(s.subrange(0, p) + seq![f], s.subrange(p, s.len() as int));
    lemma_total_size_append(s.subrange(0, p), s.subrange(p, s.len() as int));
    lemma_total_size_single(f);
    assert forall|i: int| 0 <= i < t.len() implies (#[trigger] t[i]).wf() && t[i].fid().0 < n by {
        if i < p {
            assert(t[i] == s[i]);
        } else if i > p {
            assert(t[i] == s[i - 1]);
        }
    }
    assert forall|i: int, j: int| 0 <= i < j < t.len() implies t[i].fid() != t[j].fid() by {
        if i != p && j != p {
            let oi = if i < p { i } else { i - 1 };
            let oj = if j < p { j } else { j - 1 };
            assert(t[i] == s[oi] && t[j] == s[oj]);
        } else if i == p {
            assert(t[j] == s[j - 1]);
        } else {
            assert(t[i] == s[i]);
        }
    }
}

/// Removing one field keeps the rest well formed and takes its size off.
pub proof fn lemma_remove_wf(s: Seq<Field>, p: int)
    requires
        fields_wf(s),
        0 <= p < s.len(),
    ensures
        fields_wf(s.remove(p)),
        total_size(s.remove(p)) == total_size(s) - s[p].size(),
        forall|n: u64| ids_below(s, n) ==> ids_below(s.remove(p), n),
{
    let t = s.remove(p);
    assert(s =~= s.subrange(0, p) + seq![s[p]] + s.subrange(p + 1, s.len() as int));
    assert(t =~= s.subrange(0, p) + s.subrange(p + 1, s.len() as int));
    lemma_total_size_append(s.subrange(0, p), seq![s[p]]);
    lemma_total_size_append(s.subrange(0, p) + seq![s[p]], s.subrange(p + 1, s.len() as int));
    lemma_total_size_append(s.subrange(0, p), s.subrange(p + 1, s.len() as int));
    lemma_total_size_single(s[p]);
    assert forall|i: int, j: int| 0 <= i < j < t.len() implies t[i].fid() != t[j].fid() by {
        let oi = if i < p { i } else { i + 1 };
        let oj = if j < p { j } else { j + 1 };
        assert(t[i] == s[oi] && t[j] == s[oj]);
    }
    assert forall|i: int| 0 <= i < t.len() implies (#[trigger] t[i]).wf() by {
        let oi = if i < p { i } else { i + 1 };
        assert(t[i] == s[oi]);
    }
    assert forall|n: u64| ids_below(s, n) implies ids_below(t, n) by {
        assert forall|i: int| 0 <= i < t.len() implies (#[trigger] t[i]).fid().0 < n by {
            let oi = if i < p { i } else { i + 1 };
            assert(t[i] == s[oi]);
        }
    }
    lemma_total_size_nonneg(s.subrange(p + 1, s.len() as int));
    lemma_total_size_nonneg(s.subrange(0, p));
    lemma_field_size_nonneg(s[p]);
}

pub proof fn lemma_total_size_single(f: Field)
    ensures
        total_size(seq![f]) == f.size(),
{
    let s = seq![f];
    assert(s.drop_last() =~= Seq::<Field>::empty());
    assert(total_size(s.drop_last()) == 0);
    assert(s.last() == f);
    assert(total_size(s) == total_size(s.drop_last()) + s.last().size());
}

pub proof fn lemma_field_size_nonneg(f: Field)
    ensures
        f.size() >= 0,
{
}

pub proof fn lemma_total_size_nonneg(s: Seq<Field>)
    ensures
        total_size(s) >= 0,
    decreases s.len(),
{
    if s.len() > 0 {
        lemma_total_size_nonneg(s.drop_last());
    }
}

} // verus!
