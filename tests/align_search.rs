use make_class::class::{Class, ClassId};
use make_class::field::{Field, FieldIdAllocator, HexField, IntField};

fn build(ids: &mut FieldIdAllocator, code: &[u8]) -> Class {
    let mut c = Class::empty(ClassId(1), "C".to_string());
    for k in code {
        let f = match k {
            0 => Field::Int(IntField::signed(ids, 8, "a".to_string())),
            1 => Field::Int(IntField::signed(ids, 16, "b".to_string())),
            2 => Field::Int(IntField::signed(ids, 32, "c".to_string())),
            3 => Field::Hex(HexField::new(ids, 8)),
            4 => Field::Hex(HexField::new(ids, 16)),
            5 => Field::Hex(HexField::new(ids, 32)),
            _ => Field::Hex(HexField::new(ids, 64)),
        };
        c.add_field(ids, f);
    }
    c
}

fn sizes(c: &Class) -> Vec<usize> {
    c.fields.iter().map(|f| f.field_size()).collect()
}

fn named(c: &Class) -> Vec<(String, usize)> {
    c.fields
        .iter()
        .filter(|f| f.had_name())
        .map(|f| (f.name().unwrap(), f.field_size()))
        .collect()
}

#[test]
fn align_keeps_size_and_named_fields_on_small_classes() {
    for len in 0..=5u32 {
        for n in 0..7usize.pow(len) {
            let mut code = vec![];
            let mut m = n;
            for _ in 0..len {
                code.push((m % 7) as u8);
                m /= 7;
            }
            let mut ids = FieldIdAllocator::new();
            let mut c = build(&mut ids, &code);
            let size = c.class_size();
            let names = named(&c);
            for _ in 0..2 {
                c.align_hex_fields(&mut ids);
                assert_eq!(c.class_size(), size, "{code:?}");
                assert_eq!(named(&c), names, "{code:?}");
            }
        }
    }
}

#[test]
fn second_alignment_can_still_regroup_padding() {
    let mut ids = FieldIdAllocator::new();
    let mut c = build(&mut ids, &[1, 6, 5]);
    c.align_hex_fields(&mut ids);
    assert_eq!(sizes(&c), vec![2, 2, 8, 2]);
    c.align_hex_fields(&mut ids);
    assert_eq!(sizes(&c), vec![2, 8, 4]);
    assert_eq!(c.class_size(), 14);
}
