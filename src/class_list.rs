//! The set of classes of a project, and which one is selected.

use vstd::prelude::*;
use crate::class::{fields_wf, ids_below, Class, ClassId};
use crate::field::{tag_of, ClassInstanceField, ClassPointerField, Field, FieldIdAllocator, HexField};
use crate::generator::{decimal, decimal_digits, GenCall, Generator};
use crate::padding::total_size;

verus! {

/// Relies on `fastrand::usize(..)`: a random `usize` over its whole range.
#[verifier::external_body]
fn random_usize() -> (r: usize) {
    fastrand::usize(..)
}

/// A class id drawn at random.
pub fn random_class_id() -> (r: ClassId) {
    ClassId(random_usize())
}

/// Whether `v` is well formed with ids below `ids`'s next one.
pub fn check_fields(v: &Vec<Field>, ids: &FieldIdAllocator) -> (r: bool)
    ensures
        r == (fields_wf(v@) && ids_below(v@, ids.next_spec())),
{
    let mut total: usize = 0;
    let mut i: usize = 0;
    while i < v.len()
        invariant
            i <= v@.len(),
            forall|k: int| 0 <= k < i ==> (#[trigger] v@[k]).wf() && v@[k].fid().0 < ids.next_spec(),
            forall|a: int, b: int| 0 <= a < b < i ==> v@[a].fid() != v@[b].fid(),
            total == total_size(v@.subrange(0, i as int)),
        decreases v@.len() - i,
    {
        if !v[i].wf_exec() || v[i].id().0 >= ids.next_value() {
            return false;
        }
        let mut j: usize = 0;
        while j < i
            invariant
                j <= i < v@.len(),
                forall|a: int| 0 <= a < j ==> v@[a].fid() != v@[i as int].fid(),
            decreases i - j,
        {
            if v[j].id() == v[i].id() {
                return false;
            }
            j = j + 1;
        }
        proof {
            assert(v@.subrange(0, i + 1).drop_last() =~= v@.subrange(0, i as int));
        }
        let size = v[i].field_size();
        if usize::MAX - total < size {
            proof {
                crate::class::lemma_subrange_total_bound(v@, 0, i + 1);
                crate::class::lemma_subrange_total_bound(v@, i + 1, v@.len() as int);
                assert(v@ =~= v@.subrange(0, i + 1) + v@.subrange(i + 1, v@.len() as int));
                crate::padding::lemma_total_size_append(v@.subrange(0, i + 1), v@.subrange(i + 1, v@.len() as int));
            }
            return false;
        }
        total = total + size;
        i = i + 1;
    }
    proof {
        assert(v@.subrange(0, i as int) =~= v@);
    }
    true
}

/// Whether a class may take the name `class_name`: every name is accepted.
pub fn validate_class_name(class_name: &str) -> (r: bool)
    ensures
        r,
{
    true
}

pub struct ClassList {
    pub classes: Vec<Class>,
    pub selected: Option<ClassId>,
}

impl ClassList {
    /// Every class is well formed and its ids lie below `n`.
    pub open spec fn wf(&self, n: u64) -> bool {
        forall|i: int| 0 <= i < self.classes@.len() ==> fields_wf(#[trigger] self.classes@[i].fields@)
            && ids_below(self.classes@[i].fields@, n)
    }

    /// Whether every class is well formed with ids below `ids`'s next one.
    pub fn check(&self, ids: &FieldIdAllocator) -> (r: bool)
        ensures
            r == self.wf(ids.next_spec()),
    {
        let mut i: usize = 0;
        while i < self.classes.len()
            invariant
                i <= self.classes@.len(),
                forall|k: int| 0 <= k < i ==> fields_wf(#[trigger] self.classes@[k].fields@) && ids_below(self.classes@[k].fields@, ids.next_spec()),
            decreases self.classes@.len() - i,
        {
            if !check_fields(&self.classes[i].fields, ids) {
                return false;
            }
            i = i + 1;
        }
        true
    }

    pub fn empty() -> (r: ClassList)
        ensures
            r.classes@.len() == 0,
            r.selected is None,
    {
        ClassList { classes: Vec::new(), selected: None }
    }

    /// Three sample classes: the second embeds the first, the third points
    /// to the second; the first is selected.
    pub fn with_samples(ids: &mut FieldIdAllocator) -> (r: ClassList)
        requires
            old(ids).next_spec() + 128 <= u64::MAX,
        ensures
            r.wf(final(ids).next_spec()),
            r.classes@.len() == 3,
            r.selected == Some(ClassId(0)),
    {
        let c1 = Class::new(ids, ClassId(0), String::from_str("Dummy"));
        let mut c2 = Class::new(ids, ClassId(1), String::from_str("Dummy2"));
        let c1_size = c1.class_size();
        let mut inst = ClassInstanceField::new_with_class_id(ids, 0);
        inst.size = c1_size;
        c2.add_field(ids, Field::ClassInstance(inst));

        let f = Field::Hex(HexField::new(ids, 32));
        c2.add_field(ids, f);
        let f = Field::Hex(HexField::new(ids, 32));
        c2.add_field(ids, f);
        let mut c3 = Class::new(ids, ClassId(2), String::from_str("Dummy3"));
        let f = Field::ClassPointer(ClassPointerField::new_with_class_id(ids, 1));
        c3.add_field(ids, f);
        let f = Field::Hex(HexField::new(ids, 32));
        c3.add_field(ids, f);
        let f = Field::Hex(HexField::new(ids, 64));
        c3.add_field(ids, f);
        let mut classes = Vec::new();
        classes.push(c1);
        classes.push(c2);
        classes.push(c3);
        ClassList { classes, selected: Some(ClassId(0)) }
    }

    pub fn selected(&self) -> (r: Option<ClassId>)
        ensures
            r == self.selected,
    {
        self.selected
    }

    pub fn set_selected(&mut self, class_id: ClassId)
        ensures
            final(self).selected == Some(class_id),
            final(self).classes == old(self).classes,
    {
        self.selected = Some(class_id);
    }

    pub fn un_select(&mut self)
        ensures
            final(self).selected is None,
            final(self).classes == old(self).classes,
    {
        self.selected = None;
    }

    /// The position of the first class with id `class_id`.
    pub fn class_pos(&self, class_id: ClassId) -> (r: Option<usize>)
        ensures
            r is None ==> forall|i: int| 0 <= i < self.classes@.len() ==> (#[trigger] self.classes@[i]).id != class_id,
            r matches Some(i) ==> i < self.classes@.len() && self.classes@[i as int].id == class_id
                && forall|j: int| 0 <= j < i ==> (#[trigger] self.classes@[j]).id != class_id,
    {
        let mut i: usize = 0;
        while i < self.classes.len()
            invariant
                i <= self.classes@.len(),
                forall|j: int| 0 <= j < i ==> (#[trigger] self.classes@[j]).id != class_id,
            decreases self.classes@.len() - i,
        {
            if self.classes[i].id() == class_id {
                return Some(i);
            }
            i = i + 1;
        }
        None
    }

    pub fn get_class(&self, class_id: ClassId) -> (r: Option<&Class>)
        ensures
            r is None ==> forall|i: int| 0 <= i < self.classes@.len() ==> (#[trigger] self.classes@[i]).id != class_id,
            r matches Some(c) ==> exists|i: int| 0 <= i < self.classes@.len() && self.classes@[i] == *c && c.id == class_id,
    {
        match self.class_pos(class_id) {
            Some(i) => Some(&self.classes[i]),
            None => None,
        }
    }

    pub fn selected_class(&self) -> (r: Option<&Class>)
        ensures
            self.selected is None ==> r is None,
            r matches Some(c) ==> self.selected == Some(c.id),
    {
        match self.selected {
            Some(id) => self.get_class(id),
            None => None,
        }
    }

    /// Adds a sample class under a random id and returns that id.
    pub fn add_class(&mut self, ids: &mut FieldIdAllocator, name: String) -> (r: ClassId)
        requires
            old(ids).next_spec() + 32 <= u64::MAX,
        ensures
            final(self).classes@.len() == old(self).classes@.len() + 1,
            final(self).classes@.last().id == r,
            final(self).classes@.last().name == name,
            final(self).classes@.drop_last() == old(self).classes@,
            final(self).selected == old(self).selected,
    {
        let id = random_class_id();
        self.classes.push(Class::new(ids, id, name));
        proof {
            assert(self.classes@.drop_last() =~= old(self).classes@);
        }
        id
    }

    /// Removes the first class with id `class_id`, if there is one. Fields
    /// that refer to it are left as they are.
    pub fn remove_class(&mut self, class_id: ClassId)
        ensures
            final(self).selected == old(self).selected,
            (forall|i: int| 0 <= i < old(self).classes@.len() ==> (#[trigger] old(self).classes@[i]).id != class_id)
                ==> final(self).classes == old(self).classes,
            forall|i: int|
                0 <= i < old(self).classes@.len() && (#[trigger] old(self).classes@[i]).id == class_id && (forall|j: int|
                    0 <= j < i ==> (#[trigger] old(self).classes@[j]).id != class_id) ==> final(self).classes@
                    == old(self).classes@.remove(i),
    {
        match self.class_pos(class_id) {
            Some(p) => {
                self.classes.remove(p);
            },
            None => {},
        }
    }

    /// The size of class `class_id`, zero when there is no such class.
    pub fn class_size_of(&self, class_id: ClassId) -> (r: usize)
        requires
            forall|i: int| 0 <= i < self.classes@.len() ==> fields_wf(#[trigger] self.classes@[i].fields@),
        ensures
            r == match self.get_class_spec(class_id) {
                Some(k) => total_size(k.fields@),
                None => 0,
            },
    {
        match self.class_pos(class_id) {
            Some(i) => {
                proof {
                    self.lemma_class_pos(class_id, i as int);
                }
                self.classes[i].class_size()
            },
            None => 0,
        }
    }

    proof fn lemma_class_pos(&self, id: ClassId, i: int)
        requires
            0 <= i < self.classes@.len(),
            self.classes@[i].id == id,
            forall|j: int| 0 <= j < i ==> (#[trigger] self.classes@[j]).id != id,
        ensures
            self.get_class_spec(id) == Some(self.classes@[i]),
    {
        let c = choose|j: int|
            0 <= j < self.classes@.len() && (#[trigger] self.classes@[j]).id == id && forall|k: int|
                0 <= k < j ==> (#[trigger] self.classes@[k]).id != id;
        if c < i {
        } else if c > i {
            assert(self.classes@[i].id != id);
        }
    }

    /// An embedded instance of class `class_id`, sized as that class is now
    /// (zero when it is missing).
    pub fn instance_field(&self, ids: &mut FieldIdAllocator, class_id: ClassId) -> (r: ClassInstanceField)
        requires
            forall|i: int| 0 <= i < self.classes@.len() ==> fields_wf(#[trigger] self.classes@[i].fields@),
            old(ids).next_spec() < u64::MAX,
        ensures
            r.id.0 == old(ids).next_spec(),
            final(ids).next_spec() == old(ids).next_spec() + 1,
            r.class_id == class_id.0,
            r.state.name_state.name@ == "Class"@,
            r.size == match self.get_class_spec(class_id) {
                Some(k) => total_size(k.fields@),
                None => 0,
            },
    {
        let size = self.class_size_of(class_id);
        let mut f = ClassInstanceField::new_with_class_id(ids, class_id.0);
        f.size = size;
        f
    }
}

impl ClassList {
    /// The metadata that `field_metadata` gives for `f`.
    pub open spec fn metadata_spec(&self, f: Field) -> Seq<char> {
        match f {
            Field::Text(t) => decimal_digits(t.char_count as nat),
            Field::PointerText(t) => decimal_digits(t.char_count as nat),
            Field::ClassInstance(c) => match self.get_class_spec(ClassId(c.class_id)) {
                Some(k) => k.name@,
                None => Seq::empty(),
            },
            Field::ClassPointer(c) => match self.get_class_spec(ClassId(c.class_id)) {
                Some(k) => k.name@,
                None => Seq::empty(),
            },
            _ => Seq::empty(),
        }
    }

    /// The call that describes field `f`: unnamed hex as an offset, any
    /// other field with its name, tag, size and metadata.
    pub open spec fn field_call(&self, f: Field) -> GenCall {
        match f {
            Field::Hex(_) => GenCall::AddOffset(f.size() as usize),
            _ => GenCall::AddField(
                match f.name_spec() {
                    Some(n) => n@,
                    None => Seq::empty(),
                },
                tag_of(f),
                f.size() as usize,
                self.metadata_spec(f),
            ),
        }
    }

    pub open spec fn field_calls(&self, fs: Seq<Field>) -> Seq<GenCall>
        decreases fs.len(),
    {
        if fs.len() == 0 {
            Seq::empty()
        } else {
            self.field_calls(fs.drop_last()).push(self.field_call(fs.last()))
        }
    }

    /// The calls that describe the classes `cs`, one after the other.
    pub open spec fn class_calls(&self, cs: Seq<Class>) -> Seq<GenCall>
        decreases cs.len(),
    {
        if cs.len() == 0 {
            Seq::empty()
        } else {
            self.class_calls(cs.drop_last()) + seq![GenCall::BeginClass(cs.last().name@)] + self.field_calls(
                cs.last().fields@,
            ) + seq![GenCall::EndClass]
        }
    }

    /// What a generator is told besides the type: the referenced class's
    /// name for nested classes (empty when it is missing), the character
    /// count for text, nothing otherwise.
    pub fn field_metadata(&self, field: &Field) -> (r: String)
        ensures
            match *field {
                Field::Text(t) => r@ == decimal_digits(t.char_count as nat),
                Field::PointerText(t) => r@ == decimal_digits(t.char_count as nat),
                Field::ClassInstance(c) => match self.get_class_spec(ClassId(c.class_id)) {
                    Some(k) => r == k.name,
                    None => r@ == Seq::<char>::empty(),
                },
                Field::ClassPointer(c) => match self.get_class_spec(ClassId(c.class_id)) {
                    Some(k) => r == k.name,
                    None => r@ == Seq::<char>::empty(),
                },
                _ => r@ == Seq::<char>::empty(),
            },
    {
        match field {
            Field::Text(t) => decimal(t.char_count),
            Field::PointerText(t) => decimal(t.char_count),
            Field::ClassInstance(c) => self.class_name(ClassId(c.class_id)),
            Field::ClassPointer(c) => self.class_name(ClassId(c.class_id)),
            _ => String::new(),
        }
    }

    /// The first class with id `id`.
    pub open spec fn get_class_spec(&self, id: ClassId) -> Option<Class> {
        if exists|i: int| 0 <= i < self.classes@.len() && (#[trigger] self.classes@[i]).id == id {
            let i = choose|i: int|
                0 <= i < self.classes@.len() && (#[trigger] self.classes@[i]).id == id && forall|j: int|
                    0 <= j < i ==> (#[trigger] self.classes@[j]).id != id;
            Some(self.classes@[i])
        } else {
            None
        }
    }

    fn class_name(&self, id: ClassId) -> (r: String)
        ensures
            match self.get_class_spec(id) {
                Some(k) => r == k.name,
                None => r@ == Seq::<char>::empty(),
            },
    {
        match self.class_pos(id) {
            Some(i) => {
                proof {
                    self.lemma_class_pos(id, i as int);
                }
                self.classes[i].name.clone()
            },
            None => String::new(),
        }
    }

    /// Describes every class to `generator`: each field with its name, tag,
    /// size and metadata, and unnamed hex fields as plain offsets.
    pub fn codegen<G: Generator>(&self, generator: &mut G)
        requires
            forall|i: int| 0 <= i < self.classes@.len() ==> fields_wf(#[trigger] self.classes@[i].fields@),
        ensures
            final(generator).calls() == old(generator).calls() + self.class_calls(self.classes@),
    {
        let mut i: usize = 0;
        proof {
            assert(self.classes@.subrange(0, 0) =~= Seq::<Class>::empty());
            assert(old(generator).calls() + Seq::<GenCall>::empty() =~= old(generator).calls());
        }
        while i < self.classes.len()
            invariant
                forall|i: int| 0 <= i < self.classes@.len() ==> fields_wf(#[trigger] self.classes@[i].fields@),
                i <= self.classes@.len(),
                generator.calls() == old(generator).calls() + self.class_calls(self.classes@.subrange(0, i as int)),
            decreases self.classes@.len() - i,
        {
            let class = &self.classes[i];
            assert(fields_wf(class.fields@));
            let ghost start = generator.calls();
            generator.begin_class(class.name.as_str());
            let mut j: usize = 0;
            proof {
                assert(class.fields@.subrange(0, 0) =~= Seq::<Field>::empty());
                assert(generator.calls() =~= start + seq![GenCall::BeginClass(class.name@)] + self.field_calls(class.fields@.subrange(0, 0)));
            }
            while j < class.fields.len()
                invariant
                    fields_wf(class.fields@),
                    j <= class.fields@.len(),
                    generator.calls() == start + seq![GenCall::BeginClass(class.name@)] + self.field_calls(class.fields@.subrange(0, j as int)),
                decreases class.fields@.len() - j,
            {
                let field = &class.fields[j];
                let size = field.field_size();
                proof {
                    assert(class.fields@.subrange(0, j + 1).drop_last() =~= class.fields@.subrange(0, j as int));
                }
                match field {
                    Field::Hex(_) => generator.add_offset(size),
                    _ => {
                        let name = match field.name() {
                            Some(n) => n,
                            None => String::new(),
                        };
                        let metadata = self.field_metadata(field);
                        generator.add_field(name.as_str(), field.field_tag(), size, metadata.as_str());
                    },
                }
                proof {
                    assert(generator.calls() =~= start + seq![GenCall::BeginClass(class.name@)] + self.field_calls(class.fields@.subrange(0, j + 1)));
                }
                j = j + 1;
            }
            generator.end_class();
            proof {
                let pre = self.classes@.subrange(0, i as int);
                let nxt = self.classes@.subrange(0, i + 1);
                assert(nxt.drop_last() =~= pre);
                assert(class.fields@.subrange(0, j as int) =~= class.fields@);
                assert(generator.calls() =~= old(generator).calls() + self.class_calls(nxt));
            }
            i = i + 1;
        }
        proof {
            assert(self.classes@.subrange(0, i as int) =~= self.classes@);
        }
    }
}

} // verus!
