//! The editing session: classes, the selected field, and the actions that
//! the user interface asks for.

use vstd::prelude::*;
use crate::class::{
    aligned, fields_wf, has_id, ids_below, index_of, padding_order, replaced, spliced, steal_len, Class,
    ClassId,
};
use crate::padding::total_size;
use crate::class_list::ClassList;
use crate::error::LayoutError;
use crate::field::{Field, FieldId, FieldIdAllocator};

verus! {

/// The field selected in the inspector, and where.
#[derive(Debug, Clone, Copy, PartialEq, Eq, Structural)]
pub struct InspectorSelection {
    pub inspector_level: usize,
    pub class_id: ClassId,
    pub field_id: FieldId,
}

/// What a field's context menu asks for.
#[derive(Debug, Clone, Copy, PartialEq, Eq, Structural)]
pub enum FieldResponse {
    AddBytes(usize),
    InsertBytes(usize),
    Delete,
    AddNBytes,
    InsertNBytes,
}

/// What the byte-count dialog returns.
#[derive(Debug, Clone, Copy, PartialEq, Eq, Structural)]
pub enum ModelResponse {
    AcceptAddNBytes(usize),
    AcceptInsertNBytes(usize),
}

/// An action on the selection.
pub enum ToolBarResponse {
    ChangeFieldKind(Field),
    /// Add bytes below the selection.
    AddBytes(usize),
    /// Insert bytes above the selection.
    InsertBytes(usize),
    AlignHexFields,
    DeleteField,
}

/// Classes, the field ids handed out so far, and the selection.
pub struct Session {
    pub class_list: ClassList,
    pub ids: FieldIdAllocator,
    pub selection: Option<InspectorSelection>,
}

impl Session {
    pub open spec fn wf(&self) -> bool {
        self.class_list.wf(self.ids.next_spec())
    }

    /// A session over `class_list`, if its classes are well formed and their
    /// ids were all handed out by `ids`.
    pub fn new(class_list: ClassList, ids: FieldIdAllocator) -> (r: Option<Session>)
        ensures
            class_list.wf(ids.next_spec()) <==> r is Some,
            r matches Some(s) ==> s.wf() && s.selection is None && s.class_list == class_list,
    {
        if class_list.check(&ids) {
            Some(Session { class_list, ids, selection: None })
        } else {
            None
        }
    }

    /// Takes the class at `i` out of the list, to be put back by `put_class`.
    fn take_class(&mut self, i: usize) -> (r: Class)
        requires
            i < old(self).class_list.classes@.len(),
            old(self).wf(),
        ensures
            r == old(self).class_list.classes@[i as int],
            final(self).class_list.classes@ == old(self).class_list.classes@.remove(i as int),
            final(self).class_list.selected == old(self).class_list.selected,
            final(self).ids == old(self).ids,
            final(self).selection == old(self).selection,
            final(self).wf(),
            fields_wf(r.fields@),
            ids_below(r.fields@, final(self).ids.next_spec()),
    {
        let c = self.class_list.classes.remove(i);
        proof {
            let s = old(self).class_list.classes@;
            assert(fields_wf(s[i as int].fields@));
            assert forall|j: int| 0 <= j < self.class_list.classes@.len() implies fields_wf(
                #[trigger] self.class_list.classes@[j].fields@,
            ) && ids_below(self.class_list.classes@[j].fields@, self.ids.next_spec()) by {
                let oj = if j < i { j } else { j + 1 };
                assert(self.class_list.classes@[j] == s[oj]);
            }
        }
        c
    }

    /// Puts `c` back at `i`; the ids handed out meanwhile are taken over.
    fn put_class(&mut self, i: usize, c: Class, ids_before: Ghost<u64>)
        requires
            i <= old(self).class_list.classes@.len(),
            old(self).class_list.wf(ids_before@),
            ids_before@ <= old(self).ids.next_spec(),
            fields_wf(c.fields@),
            ids_below(c.fields@, old(self).ids.next_spec()),
        ensures
            final(self).class_list.classes@ == old(self).class_list.classes@.insert(i as int, c),
            final(self).class_list.selected == old(self).class_list.selected,
            final(self).ids == old(self).ids,
            final(self).selection == old(self).selection,
            final(self).wf(),
    {
        self.class_list.classes.insert(i, c);
        proof {
            let s = old(self).class_list.classes@;
            assert forall|j: int| 0 <= j < s.len() implies ids_below(#[trigger] s[j].fields@, self.ids.next_spec()) by {
                assert(ids_below(s[j].fields@, ids_before@));
            }
            assert forall|j: int| 0 <= j < self.class_list.classes@.len() implies fields_wf(
                #[trigger] self.class_list.classes@[j].fields@,
            ) && ids_below(self.class_list.classes@[j].fields@, self.ids.next_spec()) by {
                if j < i {
                    assert(self.class_list.classes@[j] == s[j]);
                } else if j > i {
                    assert(self.class_list.classes@[j] == s[j - 1]);
                }
            }
        }
    }

    /// Carries out a toolbar action on the selection; an error says why it
    /// was refused. A field or class that can no longer be found also
    /// clears the selection.
    pub fn progress_toolbar_response(&mut self, response: ToolBarResponse) -> (r: Result<(), LayoutError>)
        requires
            old(self).wf(),
        ensures
            final(self).wf(),
            final(self).class_list.classes@.len() == old(self).class_list.classes@.len(),
            final(self).class_list.selected == old(self).class_list.selected,
            match response {
                ToolBarResponse::ChangeFieldKind(new) => change_outcome(*old(self), *final(self), new, r),
                ToolBarResponse::AddBytes(b) => bytes_outcome(*old(self), *final(self), b, true, r),
                ToolBarResponse::InsertBytes(b) => bytes_outcome(*old(self), *final(self), b, false, r),
                ToolBarResponse::AlignHexFields => align_outcome(*old(self), *final(self), r),
                ToolBarResponse::DeleteField => delete_outcome(*old(self), *final(self), r),
            },
    {
        match response {
            ToolBarResponse::ChangeFieldKind(new) => self.change_kind(new),
            ToolBarResponse::AddBytes(b) => self.add_or_insert(b, true),
            ToolBarResponse::InsertBytes(b) => self.add_or_insert(b, false),
            ToolBarResponse::AlignHexFields => self.align_selected(),
            ToolBarResponse::DeleteField => self.delete_selected(),
        }
    }

    /// The position of the class `id`, found as `class_index` describes.
    fn find_class(&self, id: ClassId) -> (r: Option<usize>)
        ensures
            r matches Some(i) ==> class_index(self.class_list.classes@, id) == Some(i as int) && i < self.class_list.classes@.len(),
            r is None ==> class_index(self.class_list.classes@, id) is None,
    {
        let r = self.class_list.class_pos(id);
        proof {
            let cs = self.class_list.classes@;
            match r {
                Some(i) => {
                    let c = choose|j: int| 0 <= j < cs.len() && (#[trigger] cs[j]).id == id && forall|k: int| 0 <= k < j ==> (#[trigger] cs[k]).id != id;
                    assert(cs[i as int].id == id);
                    if c < i {
                    } else if c > i {
                        assert(cs[i as int].id != id);
                    }
                },
                None => {},
            }
        }
        r
    }

    fn change_kind(&mut self, new: Field) -> (r: Result<(), LayoutError>)
        requires
            old(self).wf(),
        ensures
            final(self).wf(),
            final(self).class_list.classes@.len() == old(self).class_list.classes@.len(),
            final(self).class_list.selected == old(self).class_list.selected,
            change_outcome(*old(self), *final(self), new, r),
    {
        let selected = match self.selection {
            Some(s) => s,
            None => return Ok(()),
        };
        let i = match self.find_class(selected.class_id) {
            Some(i) => i,
            None => {
                self.selection = None;
                return Err(LayoutError::ClassNotFound);
            },
        };
        let ghost cs = self.class_list.classes@;
        let mut class = self.take_class(i);
        let ghost before = self.ids.next_spec();
        let new_id = new.id();
        let size = class.class_size();
        if !new.wf_exec() || new_id.0 >= self.ids.next_value() || class.field_pos(new_id).is_some()
            || self.ids.available() < size as u64 {
            self.put_class(i, class, Ghost(before));
            proof {
                assert(self.class_list.classes@ =~= cs);
            }
            return Err(LayoutError::FieldIdInUse);
        }
        let r = class.change_field_kind(&mut self.ids, selected.field_id, new);
        self.put_class(i, class, Ghost(before));
        proof {
            assert(self.class_list.classes@ =~= cs.update(i as int, class));
        }
        match r {
            Ok(()) => {
                self.selection = Some(InspectorSelection { field_id: new_id, ..selected });
                Ok(())
            },
            Err(LayoutError::FieldNotFound) => {
                self.selection = None;
                Err(LayoutError::FieldNotFound)
            },
            Err(e) => Err(e),
        }
    }

    fn align_selected(&mut self) -> (r: Result<(), LayoutError>)
        requires
            old(self).wf(),
        ensures
            final(self).wf(),
            final(self).class_list.classes@.len() == old(self).class_list.classes@.len(),
            final(self).class_list.selected == old(self).class_list.selected,
            align_outcome(*old(self), *final(self), r),
    {
        let id = match self.class_list.selected {
            Some(id) => id,
            None => return Err(LayoutError::NoSelection),
        };
        let i = match self.find_class(id) {
            Some(i) => i,
            None => return Err(LayoutError::NoSelection),
        };
        let ghost cs = self.class_list.classes@;
        let mut class = self.take_class(i);
        let ghost before = self.ids.next_spec();
        class.align_hex_fields(&mut self.ids);
        self.put_class(i, class, Ghost(before));
        proof {
            assert(self.class_list.classes@ =~= cs.update(i as int, class));
        }
        Ok(())
    }

    fn delete_selected(&mut self) -> (r: Result<(), LayoutError>)
        requires
            old(self).wf(),
        ensures
            final(self).wf(),
            final(self).class_list.classes@.len() == old(self).class_list.classes@.len(),
            final(self).class_list.selected == old(self).class_list.selected,
            delete_outcome(*old(self), *final(self), r),
    {
        let selected = match self.selection {
            Some(s) => s,
            None => return Err(LayoutError::NoSelection),
        };
        self.selection = None;
        let i = match self.find_class(selected.class_id) {
            Some(i) => i,
            None => return Ok(()),
        };
        let ghost cs = self.class_list.classes@;
        let mut class = self.take_class(i);
        let ghost before = self.ids.next_spec();
        let r = class.remove_field_by_id(selected.field_id);
        proof {
            assert(ids_below(class.fields@, self.ids.next_spec()));
        }
        self.put_class(i, class, Ghost(before));
        proof {
            assert(self.class_list.classes@ =~= cs.update(i as int, class));
        }
        r
    }

    /// Adds (`after`) or inserts `b` bytes of padding at the selected field.
    #[verifier::rlimit(60)]
    fn add_or_insert(&mut self, b: usize, after: bool) -> (r: Result<(), LayoutError>)
        requires
            old(self).wf(),
        ensures
            final(self).wf(),
            final(self).class_list.classes@.len() == old(self).class_list.classes@.len(),
            final(self).class_list.selected == old(self).class_list.selected,
            bytes_outcome(*old(self), *final(self), b, after, r),
    {
        let selected = match self.selection {
            Some(s) => s,
            None => return Err(LayoutError::NoSelection),
        };
        let i = match self.find_class(selected.class_id) {
            Some(i) => i,
            None => {
                self.selection = None;
                return Err(LayoutError::ClassNotFound);
            },
        };
        let ghost cs = self.class_list.classes@;
        let mut class = self.take_class(i);
        let ghost before = self.ids.next_spec();
        let size = class.class_size();
        if self.ids.available() < b as u64 || usize::MAX - size < b {
            self.put_class(i, class, Ghost(before));
            proof {
                assert(self.class_list.classes@ =~= cs);
            }
            return Err(LayoutError::TooLarge);
        }
        let r = if after {
            class.add_bytes(&mut self.ids, b, selected.field_id)
        } else {
            class.insert_bytes(&mut self.ids, b, selected.field_id)
        };
        self.put_class(i, class, Ghost(before));
        proof {
            assert(self.class_list.classes@ =~= cs.update(i as int, class));
        }
        match r {
            Ok(_) => Ok(()),
            Err(e) => {
                self.selection = None;
                Err(LayoutError::FieldNotFound)
            },
        }
    }
}

/// The position of the first class with id `id`, if there is one.
pub open spec fn class_index(classes: Seq<Class>, id: ClassId) -> Option<int> {
    if exists|i: int| 0 <= i < classes.len() && (#[trigger] classes[i]).id == id {
        Some(
            choose|i: int|
                0 <= i < classes.len() && (#[trigger] classes[i]).id == id && forall|k: int|
                    0 <= k < i ==> (#[trigger] classes[k]).id != id,
        )
    } else {
        None
    }
}

/// Only class `i` may differ, and it keeps its id and name.
pub open spec fn others_kept(old: Seq<Class>, new: Seq<Class>, i: int) -> bool {
    &&& new.len() == old.len()
    &&& 0 <= i < old.len()
    &&& forall|j: int| 0 <= j < old.len() && j != i ==> new[j] == old[j]
    &&& new[i].id == old[i].id
    &&& new[i].name == old[i].name
}

/// Nothing changed in the classes.
pub open spec fn classes_kept(old: Seq<Class>, new: Seq<Class>) -> bool {
    &&& new.len() == old.len()
    &&& forall|j: int| 0 <= j < old.len() ==> new[j].fields@ == old[j].fields@ && new[j].id == old[j].id && new[j].name
        == old[j].name
}

/// What adding (`after`) or inserting `b` bytes at the selected field does.
pub open spec fn bytes_outcome(old: Session, new: Session, b: usize, after: bool, r: Result<(), LayoutError>) -> bool {
    let cs = old.class_list.classes@;
    let ncs = new.class_list.classes@;
    match old.selection {
        None => r == Err::<(), LayoutError>(LayoutError::NoSelection) && classes_kept(cs, ncs),
        Some(sel) => match class_index(cs, sel.class_id) {
            None => r == Err::<(), LayoutError>(LayoutError::ClassNotFound) && new.selection is None && classes_kept(cs, ncs),
            Some(i) => {
                let fields = cs[i].fields@;
                if old.ids.next_spec() + b > u64::MAX || total_size(fields) + b > usize::MAX {
                    r == Err::<(), LayoutError>(LayoutError::TooLarge) && classes_kept(cs, ncs)
                } else if !has_id(fields, sel.field_id) {
                    r == Err::<(), LayoutError>(LayoutError::FieldNotFound) && new.selection is None && classes_kept(cs, ncs)
                } else {
                    &&& r is Ok
                    &&& new.selection == old.selection
                    &&& others_kept(cs, ncs, i)
                    &&& spliced(fields, ncs[i].fields@, index_of(fields, sel.field_id) + if after { 1int } else { 0int }, 0,
                        padding_order(b as nat, true), old.ids.next_spec(), new.ids.next_spec())
                }
            },
        },
    }
}

/// What replacing the selected field by `f` does.
pub open spec fn change_outcome(old: Session, new: Session, f: Field, r: Result<(), LayoutError>) -> bool {
    let cs = old.class_list.classes@;
    let ncs = new.class_list.classes@;
    match old.selection {
        None => r is Ok && new.selection is None && classes_kept(cs, ncs),
        Some(sel) => match class_index(cs, sel.class_id) {
            None => r == Err::<(), LayoutError>(LayoutError::ClassNotFound) && new.selection is None && classes_kept(cs, ncs),
            Some(i) => {
                let fields = cs[i].fields@;
                if !(f.wf() && f.fid().0 < old.ids.next_spec() && !has_id(fields, f.fid()) && old.ids.next_spec()
                    + total_size(fields) <= u64::MAX) {
                    r == Err::<(), LayoutError>(LayoutError::FieldIdInUse) && new.selection == old.selection
                        && classes_kept(cs, ncs)
                } else if !has_id(fields, sel.field_id) {
                    r == Err::<(), LayoutError>(LayoutError::FieldNotFound) && new.selection is None && classes_kept(cs, ncs)
                } else if steal_len(fields, index_of(fields, sel.field_id), f.size()) < 0 {
                    r == Err::<(), LayoutError>(LayoutError::NotEnoughSpace) && new.selection == old.selection
                        && classes_kept(cs, ncs)
                } else if steal_len(fields, index_of(fields, sel.field_id), f.size()) > 0 {
                    &&& r is Ok
                    &&& new.selection == Some(InspectorSelection { field_id: f.fid(), ..sel })
                    &&& others_kept(cs, ncs, i)
                    &&& replaced(fields, ncs[i].fields@, index_of(fields, sel.field_id), steal_len(fields, index_of(fields, sel.field_id), f.size()), f,
                        old.ids.next_spec(), new.ids.next_spec())
                } else {
                    true
                }
            },
        },
    }
}

/// What aligning the selected class does.
pub open spec fn align_outcome(old: Session, new: Session, r: Result<(), LayoutError>) -> bool {
    let cs = old.class_list.classes@;
    let ncs = new.class_list.classes@;
    match old.class_list.selected {
        None => r == Err::<(), LayoutError>(LayoutError::NoSelection) && classes_kept(cs, ncs),
        Some(id) => match class_index(cs, id) {
            None => r == Err::<(), LayoutError>(LayoutError::NoSelection) && classes_kept(cs, ncs),
            Some(i) => {
                &&& r is Ok
                &&& others_kept(cs, ncs, i)
                &&& new.selection == old.selection
                &&& aligned(cs[i].fields@, ncs[i].fields@, old.ids.next_spec(), new.ids.next_spec())
            },
        },
    }
}

/// What deleting the selected field does; the selection is cleared.
pub open spec fn delete_outcome(old: Session, new: Session, r: Result<(), LayoutError>) -> bool {
    let cs = old.class_list.classes@;
    let ncs = new.class_list.classes@;
    &&& new.selection is None
    &&& match old.selection {
        None => r == Err::<(), LayoutError>(LayoutError::NoSelection) && classes_kept(cs, ncs),
        Some(sel) => match class_index(cs, sel.class_id) {
            None => r is Ok && classes_kept(cs, ncs),
            Some(i) => {
                let fields = cs[i].fields@;
                if has_id(fields, sel.field_id) {
                    r is Ok && others_kept(cs, ncs, i) && ncs[i].fields@ == fields.remove(index_of(fields, sel.field_id))
                } else {
                    r == Err::<(), LayoutError>(LayoutError::FieldNotFound) && classes_kept(cs, ncs)
                }
            },
        },
    }
}

} // verus!
