use make_class::arith::offset_align_to;
use make_class::class::{Class, ClassId};
use make_class::class_list::ClassList;
use make_class::error::LayoutError;
use make_class::field::{
    BoolField, Field, FieldId, FieldIdAllocator, FieldTag, HexField, IntField, TextField,
};
use make_class::generator::{tag_to_type, Generator, RustGenerator};
use make_class::padding::allocate_padding;

fn sizes(c: &Class) -> Vec<usize> {
    c.fields.iter().map(|f| f.field_size()).collect()
}

fn named(c: &Class) -> Vec<bool> {
    c.fields.iter().map(|f| f.had_name()).collect()
}

fn hex(ids: &mut FieldIdAllocator, bytes: usize) -> Field {
    Field::Hex(HexField::new(ids, bytes * 8))
}

fn int_field(ids: &mut FieldIdAllocator, bytes: usize, name: &str) -> Field {
    Field::Int(IntField::signed(ids, bytes * 8, name.to_string()))
}

fn class_of(ids: &mut FieldIdAllocator, fields: Vec<Field>) -> Class {
    let mut c = Class::empty(ClassId(7), "Test".to_string());
    for f in fields {
        c.add_field(ids, f);
    }
    c
}

#[test]
fn padding_is_cut_greedily() {
    let mut ids = FieldIdAllocator::new();
    let p = allocate_padding(&mut ids, 13);
    let s: Vec<usize> = p.iter().map(|f| f.field_size()).collect();
    assert_eq!(s, vec![8, 4, 1]);
    assert!(allocate_padding(&mut ids, 0).is_empty());
    let p = allocate_padding(&mut ids, 31);
    let s: Vec<usize> = p.iter().map(|f| f.field_size()).collect();
    assert_eq!(s, vec![8, 8, 8, 4, 2, 1]);
    assert!(p.iter().all(|f| !f.had_name()));
}

#[test]
fn insert_and_add_bytes() {
    let mut ids = FieldIdAllocator::new();
    let a = int_field(&mut ids, 4, "a");
    let a_id = a.id();
    let mut c = class_of(&mut ids, vec![a]);
    assert_eq!(c.insert_bytes(&mut ids, 13, a_id), Ok(3));
    assert_eq!(sizes(&c), vec![1, 4, 8, 4]);
    assert_eq!(c.add_bytes(&mut ids, 6, a_id), Ok(2));
    assert_eq!(sizes(&c), vec![1, 4, 8, 4, 2, 4]);
    assert_eq!(c.class_size(), 23);
    assert_eq!(c.insert_bytes(&mut ids, 4, FieldId(9999)), Err(LayoutError::FieldNotFound));
    assert_eq!(c.add_bytes(&mut ids, 4, FieldId(9999)), Err(LayoutError::FieldNotFound));
    assert_eq!(c.field_len(), 6);
}

#[test]
fn remove_and_find() {
    let mut ids = FieldIdAllocator::new();
    let a = int_field(&mut ids, 4, "a");
    let b = hex(&mut ids, 2);
    let b_id = b.id();
    let mut c = class_of(&mut ids, vec![a, b]);
    assert_eq!(c.field_pos(b_id), Some(1));
    assert_eq!(c.remove_field_by_id(b_id), Ok(()));
    assert_eq!(c.field_pos(b_id), None);
    assert_eq!(c.remove_field_by_id(b_id), Err(LayoutError::FieldNotFound));
    assert_eq!(sizes(&c), vec![4]);
}

#[test]
fn growth_steals_following_field() {
    let mut ids = FieldIdAllocator::new();
    let n = int_field(&mut ids, 4, "n");
    let n_id = n.id();
    let u1 = hex(&mut ids, 4);
    let u2 = hex(&mut ids, 4);
    let u2_id = u2.id();
    let mut c = class_of(&mut ids, vec![n, u1, u2]);
    let new = int_field(&mut ids, 8, "wide");
    let new_id = new.id();
    assert_eq!(c.change_field_kind(&mut ids, n_id, new), Ok(()));
    assert_eq!(sizes(&c), vec![8, 4]);
    assert_eq!(c.fields[0].id(), new_id);
    assert_eq!(c.fields[0].name(), Some("n".to_string()));
    assert_eq!(c.fields[1].id(), u2_id);
}

#[test]
fn growth_without_room_fails() {
    let mut ids = FieldIdAllocator::new();
    let n = int_field(&mut ids, 4, "n");
    let n_id = n.id();
    let u1 = hex(&mut ids, 4);
    let u2 = hex(&mut ids, 4);
    let mut c = class_of(&mut ids, vec![n, u1, u2]);
    let before: Vec<FieldId> = c.fields.iter().map(|f| f.id()).collect();
    let new = Field::Hex(HexField::new(&mut ids, 64));
    let mut big = Field::Text(TextField::new(&mut ids, false, "t".to_string()));
    if let Field::Text(t) = &mut big {
        t.change_char_count(16);
    }
    assert_eq!(c.change_field_kind(&mut ids, n_id, big), Err(LayoutError::NotEnoughSpace));
    let after: Vec<FieldId> = c.fields.iter().map(|f| f.id()).collect();
    assert_eq!(before, after);
    assert_eq!(sizes(&c), vec![4, 4, 4]);
    assert_eq!(c.change_field_kind(&mut ids, FieldId(9999), new), Err(LayoutError::FieldNotFound));
}

#[test]
fn shrinking_leaves_padding_after() {
    let mut ids = FieldIdAllocator::new();
    let n = int_field(&mut ids, 8, "n");
    let n_id = n.id();
    let mut c = class_of(&mut ids, vec![n]);
    let b = Field::Bool(BoolField::new(&mut ids, "flag".to_string()));
    assert_eq!(c.change_field_kind(&mut ids, n_id, b), Ok(()));
    assert_eq!(sizes(&c), vec![1, 4, 2, 1]);
    assert_eq!(c.fields[0].name(), Some("n".to_string()));
    assert_eq!(named(&c), vec![true, false, false, false]);
    assert_eq!(c.class_size(), 8);
}

#[test]
fn merge_reaches_multiple_of_eight() {
    let mut ids = FieldIdAllocator::new();
    let fs = vec![hex(&mut ids, 1), hex(&mut ids, 1), hex(&mut ids, 2), hex(&mut ids, 4)];
    let mut c = class_of(&mut ids, fs);
    c.merge_hex_field(&mut ids, 0);
    assert_eq!(sizes(&c), vec![8]);
}

#[test]
fn merge_falls_back_to_four() {
    let mut ids = FieldIdAllocator::new();
    let fs = vec![hex(&mut ids, 2), hex(&mut ids, 2), int_field(&mut ids, 4, "x")];
    let mut c = class_of(&mut ids, fs);
    c.merge_hex_field(&mut ids, 0);
    assert_eq!(sizes(&c), vec![4, 4]);
    assert_eq!(named(&c), vec![false, true]);
}

#[test]
fn merge_stops_at_named_field() {
    let mut ids = FieldIdAllocator::new();
    let fs = vec![hex(&mut ids, 1), int_field(&mut ids, 4, "x"), hex(&mut ids, 1)];
    let mut c = class_of(&mut ids, fs);
    c.merge_hex_field(&mut ids, 0);
    assert_eq!(sizes(&c), vec![1, 4, 1]);
    c.merge_hex_field(&mut ids, 2);
    c.merge_hex_field(&mut ids, 5);
    assert_eq!(sizes(&c), vec![1, 4, 1]);
}

#[test]
fn alignment_scenario() {
    let mut ids = FieldIdAllocator::new();
    let fs = vec![int_field(&mut ids, 1, "a"), hex(&mut ids, 1), hex(&mut ids, 2), int_field(&mut ids, 4, "b")];
    let mut c = class_of(&mut ids, fs);
    c.align_hex_fields(&mut ids);
    assert_eq!(c.class_size(), 8);
    let mut offset = 0;
    for f in c.fields.iter() {
        if f.had_name() && f.name() == Some("b".to_string()) {
            assert_eq!(offset % 4, 0);
        }
        offset += f.field_size();
    }
    assert_eq!(c.fields[0].name(), Some("a".to_string()));
}

#[test]
fn alignment_splits_large_padding() {
    let mut ids = FieldIdAllocator::new();
    let fs = vec![int_field(&mut ids, 1, "a"), hex(&mut ids, 1), hex(&mut ids, 8), int_field(&mut ids, 4, "b")];
    let mut c = class_of(&mut ids, fs);
    c.align_hex_fields(&mut ids);
    assert_eq!(c.class_size(), 14);
    assert_eq!(named(&c).iter().filter(|n| **n).count(), 2);
}

#[test]
fn alignment_twice_changes_nothing() {
    let mut ids = FieldIdAllocator::new();
    let fs = vec![
        int_field(&mut ids, 1, "a"),
        hex(&mut ids, 1),
        hex(&mut ids, 8),
        hex(&mut ids, 2),
        int_field(&mut ids, 4, "b"),
        hex(&mut ids, 1),
    ];
    let mut c = class_of(&mut ids, fs);
    c.align_hex_fields(&mut ids);
    let once = sizes(&c);
    c.align_hex_fields(&mut ids);
    assert_eq!(sizes(&c), once);
    assert_eq!(c.class_size(), 17);
}

#[test]
fn align_helper() {
    assert_eq!(offset_align_to(5, 4), 8);
    assert_eq!(offset_align_to(8, 4), 8);
    assert_eq!(offset_align_to(0, 8), 0);
    assert_eq!(offset_align_to(9, 8), 16);
}

#[test]
fn sample_classes() {
    let mut ids = FieldIdAllocator::new();
    let mut list = ClassList::with_samples(&mut ids);
    assert_eq!(list.classes.len(), 3);
    assert_eq!(list.selected(), Some(ClassId(0)));
    assert_eq!(list.classes[0].field_len(), 21);
    assert_eq!(list.class_size_of(ClassId(1)), list.class_size_of(ClassId(0)) * 2 + 8);
    assert!(list.get_class(ClassId(5)).is_none());
    let id = list.add_class(&mut ids, "Extra".to_string());
    assert_eq!(list.get_class(id).unwrap().name, "Extra");
    list.remove_class(ClassId(2));
    assert_eq!(list.classes.len(), 3);
    assert_eq!(list.class_size_of(ClassId(2)), 0);
    list.un_select();
    assert!(list.selected_class().is_none());
}

#[test]
fn tags_and_types() {
    let mut ids = FieldIdAllocator::new();
    assert_eq!(hex(&mut ids, 4).field_tag(), FieldTag::Hex32);
    assert_eq!(int_field(&mut ids, 2, "s").field_tag(), FieldTag::I16);
    let u = Field::Int(IntField::unsigned_default(&mut ids, 64));
    assert_eq!(u.field_tag(), FieldTag::U64);
    assert_eq!(u.name(), Some("u64".to_string()));
    assert_eq!(tag_to_type(FieldTag::ClassPointer, "Foo"), "&mut Foo");
    assert_eq!(tag_to_type(FieldTag::Utf16, "12"), "[u16; 12]");
    assert_eq!(tag_to_type(FieldTag::Hex64, ""), "[u8; 8]");
}

#[test]
fn rust_generator_output() {
    let mut g = RustGenerator::new();
    g.begin_class("Player");
    g.add_field("hp", FieldTag::I32, 4, "");
    g.add_offset(4);
    g.add_field("pos", FieldTag::Vec3, 12, "");
    g.add_offset(16);
    g.end_class();
    let text = g.finilize();
    assert_eq!(
        text,
        "// Generated by MakeClass 1.0\n\n#[repr(C)]\npub struct Player {\n    pub hp: i32, // 0x0\n    _pad_at_0x8: [u8; 0x4], // 0x8\n    pub pos: Vec3, // 0x8\n    _pad_at_0x14: [u8; 0x10], // 0x14\n}\n\n"
    );
}

#[test]
fn class_list_codegen() {
    let mut ids = FieldIdAllocator::new();
    let mut list = ClassList::empty();
    let mut text = TextField::new(&mut ids, false, "label".to_string());
    text.change_char_count(12);
    let fields = vec![int_field(&mut ids, 4, "hp"), Field::Text(text), hex(&mut ids, 4)];
    list.classes.push(class_of(&mut ids, fields));
    let mut g = RustGenerator::new();
    list.codegen(&mut g);
    assert_eq!(
        g.finilize(),
        "// Generated by MakeClass 1.0\n\n#[repr(C)]\npub struct Test {\n    pub hp: i32, // 0x0\n    pub label: [u8; 12], // 0x4\n    _pad_at_0x10: [u8; 0x4], // 0x10\n}\n\n"
    );
}

#[test]
fn every_class_name_is_valid() {
    assert!(make_class::class_list::validate_class_name("Player"));
    assert!(make_class::class_list::validate_class_name(""));
}
