use make_class::ast::{dereference_result, symbol_result};
use make_class::class::{Class, ClassId};
use make_class::class_list::ClassList;
use make_class::error::{EvalError, LayoutError};
use make_class::field::{Field, FieldIdAllocator, FieldTag, HexField, IntField};
use make_class::generator::RecordGenerator;
use make_class::session::{InspectorSelection, Session, ToolBarResponse};

fn session_with(fields: fn(&mut FieldIdAllocator) -> Vec<Field>) -> Session {
    let mut ids = FieldIdAllocator::new();
    let mut class = Class::empty(ClassId(3), "C".to_string());
    for f in fields(&mut ids) {
        class.add_field(&ids, f);
    }
    let mut list = ClassList::empty();
    list.classes.push(class);
    list.set_selected(ClassId(3));
    Session::new(list, ids).unwrap()
}

fn named_then_two_hex(ids: &mut FieldIdAllocator) -> Vec<Field> {
    vec![
        Field::Int(IntField::signed(ids, 32, "a".to_string())),
        Field::Hex(HexField::new(ids, 32)),
        Field::Hex(HexField::new(ids, 32)),
    ]
}

fn sizes(s: &Session) -> Vec<usize> {
    s.class_list.classes[0].fields.iter().map(|f| f.field_size()).collect()
}

fn select_first(s: &mut Session) {
    let id = s.class_list.classes[0].fields[0].id();
    s.selection = Some(InspectorSelection { inspector_level: 0, class_id: ClassId(3), field_id: id });
}

#[test]
fn change_kind_steals_next_field() {
    let mut s = session_with(named_then_two_hex);
    select_first(&mut s);
    let h2 = s.class_list.classes[0].fields[2].id();
    let new = Field::Int(IntField::signed(&mut s.ids, 64, String::new()));
    let new_id = new.id();
    assert_eq!(s.progress_toolbar_response(ToolBarResponse::ChangeFieldKind(new)), Ok(()));
    assert_eq!(sizes(&s), vec![8, 4]);
    assert_eq!(s.class_list.classes[0].fields[0].id(), new_id);
    assert_eq!(s.class_list.classes[0].fields[0].name(), Some("a".to_string()));
    assert_eq!(s.class_list.classes[0].fields[1].id(), h2);
    assert_eq!(s.selection.unwrap().field_id, new_id);
}

#[test]
fn change_kind_without_room_keeps_class() {
    let mut s = session_with(named_then_two_hex);
    select_first(&mut s);
    let before = s.selection;
    let mut big = make_class::field::TextField::new(&mut s.ids, false, "t".to_string());
    big.change_char_count(16);
    let r = s.progress_toolbar_response(ToolBarResponse::ChangeFieldKind(Field::Text(big)));
    assert_eq!(r, Err(LayoutError::NotEnoughSpace));
    assert_eq!(sizes(&s), vec![4, 4, 4]);
    assert_eq!(s.selection, before);
}

#[test]
fn toolbar_bytes_delete_and_align() {
    let mut s = session_with(named_then_two_hex);
    assert_eq!(s.progress_toolbar_response(ToolBarResponse::AddBytes(3)), Err(LayoutError::NoSelection));
    select_first(&mut s);
    assert_eq!(s.progress_toolbar_response(ToolBarResponse::AddBytes(3)), Ok(()));
    assert_eq!(sizes(&s), vec![4, 1, 2, 4, 4]);
    assert_eq!(s.progress_toolbar_response(ToolBarResponse::InsertBytes(2)), Ok(()));
    assert_eq!(sizes(&s), vec![2, 4, 1, 2, 4, 4]);
    assert_eq!(s.progress_toolbar_response(ToolBarResponse::AlignHexFields), Ok(()));
    assert_eq!(s.class_list.classes[0].class_size(), 17);
    assert_eq!(s.progress_toolbar_response(ToolBarResponse::DeleteField), Ok(()));
    assert!(s.selection.is_none());
    assert_eq!(s.class_list.classes[0].class_size(), 13);
}

#[test]
fn records_of_a_class() {
    let s = session_with(named_then_two_hex);
    let mut g = RecordGenerator::new();
    s.class_list.codegen(&mut g);
    assert_eq!(g.classes.len(), 1);
    assert_eq!(g.classes[0].name, "C");
    assert_eq!(g.classes[0].fields.len(), 1);
    assert_eq!(g.classes[0].fields[0].name, "a");
    assert_eq!(g.classes[0].fields[0].tag, FieldTag::I32);
    assert_eq!(g.classes[0].fields[0].offset, 0);
    assert_eq!(g.offset, 0);
}

#[test]
fn resolver_answers() {
    assert!(matches!(symbol_result(&"m.dll".to_string(), Some(5)), Ok(5)));
    assert!(matches!(symbol_result(&"m.dll".to_string(), None), Err(EvalError::UnresolvedSymbol(n)) if n == "m.dll"));
    assert!(matches!(dereference_result(0x10, Some(7)), Ok(7)));
    assert!(matches!(dereference_result(0x10, None), Err(EvalError::UnreadableAddress(0x10))));
}
